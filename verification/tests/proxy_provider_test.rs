use meow::config::proxy_provider::{
    build_health_check_config, compile_opt_regex, path_join, HealthCheckConfig, ProxyProvider,
    RawHealthCheck, RawProxyProvider, Vehicle,
};

fn raw(kind: &str) -> RawProxyProvider {
    RawProxyProvider { provider_type: kind.to_string(), ..Default::default() }
}

#[test]
fn health_check_defaults_and_disable() {
    assert!(build_health_check_config(None).is_none());
    let off = RawHealthCheck { enable: Some(false), ..Default::default() };
    assert!(build_health_check_config(Some(&off)).is_none());
    let on = RawHealthCheck::default();
    assert_eq!(
        build_health_check_config(Some(&on)),
        Some(HealthCheckConfig {
            url: "https://www.gstatic.com/generate_204".to_string(),
            interval: 300,
            timeout: 5000,
            lazy: false,
        })
    );
    let custom = RawHealthCheck {
        enable: Some(true),
        url: Some("http://x/".to_string()),
        interval: Some(60),
        timeout: Some(100),
        lazy: Some(true),
    };
    let c = build_health_check_config(Some(&custom)).unwrap();
    assert_eq!((c.url.as_str(), c.interval, c.timeout, c.lazy), ("http://x/", 60, 100, true));
}

#[test]
fn file_provider_paths() {
    let mut r = raw("file");
    assert_eq!(
        ProxyProvider::new("p", &r, None).err().unwrap(),
        "file proxy-provider requires 'path'"
    );
    r.path = Some("sub/list.yaml".to_string());
    let p = ProxyProvider::new("p", &r, Some("/cache")).unwrap();
    assert_eq!(p.vehicle_type, "File");
    assert_eq!(p.vehicle(), &Vehicle::File("/cache/sub/list.yaml".to_string()));
    r.path = Some("/abs/list.yaml".to_string());
    let p = ProxyProvider::new("p", &r, Some("/cache")).unwrap();
    assert_eq!(p.vehicle(), &Vehicle::File("/abs/list.yaml".to_string()));
    let p = ProxyProvider::new("p", &raw_with_path("file", "rel.yaml"), None).unwrap();
    assert_eq!(p.vehicle(), &Vehicle::File("rel.yaml".to_string()));
}

fn raw_with_path(kind: &str, path: &str) -> RawProxyProvider {
    RawProxyProvider { provider_type: kind.to_string(), path: Some(path.to_string()), ..Default::default() }
}

#[test]
fn http_provider_cache_path() {
    let mut r = raw("http");
    assert_eq!(
        ProxyProvider::new("p", &r, None).err().unwrap(),
        "http proxy-provider requires 'url'"
    );
    r.url = Some("https://sub.example/list".to_string());
    let p = ProxyProvider::new("jp", &r, None).unwrap();
    assert_eq!(p.vehicle_type, "HTTP");
    assert_eq!(
        p.vehicle(),
        &Vehicle::Http {
            url: "https://sub.example/list".to_string(),
            cache_path: "./provider_jp.yaml".to_string()
        }
    );
    let p = ProxyProvider::new("jp", &r, Some("/var/meow/")).unwrap();
    match p.vehicle() {
        Vehicle::Http { cache_path, .. } => assert_eq!(cache_path, "/var/meow/provider_jp.yaml"),
        _ => panic!("expected http"),
    }
    assert_eq!(p.name, "jp");
}

#[test]
fn unknown_type_and_bad_regex() {
    assert_eq!(
        ProxyProvider::new("p", &raw("ftp"), None).err().unwrap(),
        "unknown proxy-provider type 'ftp'"
    );
    let mut r = raw_with_path("file", "x");
    r.filter = Some("(".to_string());
    let e = ProxyProvider::new("p", &r, None).err().unwrap();
    assert!(e.starts_with("filter regex error: "), "{e}");
    let mut r = raw_with_path("file", "x");
    r.exclude_filter = Some("[".to_string());
    let e = ProxyProvider::new("p", &r, None).err().unwrap();
    assert!(e.starts_with("exclude-filter regex error: "), "{e}");
    assert!(compile_opt_regex(&None, "f").unwrap().is_none());
}

#[test]
fn admission_filters() {
    let mut r = raw_with_path("file", "x");
    r.filter = Some("^HK|^JP".to_string());
    r.exclude_filter = Some("test".to_string());
    r.exclude_type = Some(vec!["VLESS".to_string()]);
    let p = ProxyProvider::new("p", &r, None).unwrap();
    assert!(p.admits("HK-01", "ss"));
    assert!(!p.admits("US-01", "ss"));
    assert!(!p.admits("JP-test", "ss"));
    assert!(!p.admits("JP-02", "Vless"));
    let entries = vec![
        ("HK-01".to_string(), "trojan".to_string()),
        ("US-01".to_string(), "ss".to_string()),
        ("JP-02".to_string(), "ss".to_string()),
    ];
    assert_eq!(p.admitted(&entries), vec![0, 2]);
    assert_eq!(p.health_check, None);
}

#[test]
fn path_join_rules() {
    assert_eq!(path_join("/a", "b"), "/a/b");
    assert_eq!(path_join("/a/", "b"), "/a/b");
    assert_eq!(path_join("", "b"), "b");
    assert_eq!(path_join("/a", "/c"), "/c");
}

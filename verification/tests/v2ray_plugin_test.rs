use meow::proxy::v2ray_plugin::{parse_bool, parse_opts, Mode};

#[test]
fn parse_websocket_mux() {
    let cfg = parse_opts("mode=websocket;mux=1;host=example.com;path=/ws").expect("parse ok");
    assert_eq!(cfg.mode, Mode::Websocket);
    assert!(!cfg.tls);
    assert!(cfg.mux);
    assert_eq!(cfg.host, "example.com");
    assert_eq!(cfg.path, "/ws");
    assert!(!cfg.skip_cert_verify);
}

#[test]
fn parse_tls_websocket_mux_skip_verify() {
    let cfg =
        parse_opts("mode=websocket;tls;mux=1;host=example.com;path=/ws;skip-cert-verify=true")
            .expect("parse ok");
    assert!(cfg.tls);
    assert!(cfg.mux);
    assert!(cfg.skip_cert_verify);
    assert_eq!(cfg.host, "example.com");
    assert_eq!(cfg.path, "/ws");
}

#[test]
fn parse_defaults_on_empty() {
    let cfg = parse_opts("").expect("parse ok");
    assert_eq!(cfg.mode, Mode::Websocket);
    assert!(!cfg.tls);
    assert_eq!(cfg.path, "/");
    assert!(!cfg.mux);
    assert!(cfg.host.is_empty());
}

#[test]
fn parse_bare_tls_and_mux() {
    let cfg = parse_opts("tls;mux").expect("parse ok");
    assert!(cfg.tls);
    assert!(cfg.mux);
}

#[test]
fn parse_unknown_key_ignored() {
    let cfg = parse_opts("mode=websocket;foo=bar;path=/ws").expect("parse ok");
    assert_eq!(cfg.path, "/ws");
}

#[test]
fn parse_bad_mode_errors() {
    assert!(parse_opts("mode=quic").is_err());
}

#[test]
fn parse_header_opt() {
    let cfg = parse_opts("mode=websocket;header=X-Foo:bar;host=example.com").expect("parse ok");
    assert_eq!(cfg.headers.get("X-Foo").map(String::as_str), Some("bar"));
}

#[test]
fn parse_opts_trims_and_reports_mode() {
    let cfg = parse_opts(" ; mode = WS ;; header = A : b ; header=A:c; tls = Off ;host").unwrap();
    assert_eq!(cfg.headers.get("A").map(String::as_str), Some("c"));
    assert_eq!(cfg.headers.len(), 1);
    assert!(!cfg.tls);
    assert_eq!(cfg.host, "true");
    match parse_opts("path=/x;mode=grpc;tls") {
        Err(e) => assert_eq!(
            e.to_string(),
            "Config error: v2ray-plugin: unsupported mode 'grpc' (only 'websocket' is supported)"
        ),
        Ok(_) => panic!("grpc must be refused"),
    }
    assert!(parse_bool("YES") && parse_bool("on") && parse_bool("1") && !parse_bool("2"));
}

#[test]
fn parse_opts_last_key_wins_past_other_keys() {
    let cfg = parse_opts("path=/a;tls=false;host=h;zzz=1;path=/b;tls=on").unwrap();
    assert_eq!(cfg.path, "/b");
    assert!(cfg.tls);
    assert_eq!(cfg.host, "h");
    let plain = parse_opts("path=/b;tls=on;host=h").unwrap();
    assert_eq!(plain.path, cfg.path);
    assert_eq!(plain.tls, cfg.tls);
    assert_eq!(plain.host, cfg.host);
}

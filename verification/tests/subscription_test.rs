use meow::config::proxy_provider::{ProxyProvider, RawProxyProvider};
use meow::config::subscription::parse_subscription_yaml;
use meow::config::yaml::YamlNode;

fn field<'a>(p: &'a [(String, YamlNode)], key: &str) -> Option<&'a YamlNode> {
    p.iter().find(|(k, _)| k == key).map(|(_, v)| v)
}

fn text(n: Option<&YamlNode>) -> Option<&str> {
    match n {
        Some(YamlNode::Str(s)) => Some(s.as_str()),
        _ => None,
    }
}

#[test]
fn subscription_extracts_proxies_groups_and_rules() {
    let yaml = "\
proxies:
  - name: hk-1
    type: ss
    server: 1.2.3.4
    port: 8388
  - just-a-string
  - name: jp-1
    type: vmess
proxy-groups:
  - name: auto
    type: url-test
rules:
  - DOMAIN,example.com,DIRECT
  - 42
  - MATCH,auto
";
    let d = parse_subscription_yaml(yaml).unwrap();
    assert_eq!(d.proxies.len(), 2);
    assert_eq!(text(field(&d.proxies[0], "name")), Some("hk-1"));
    assert_eq!(text(field(&d.proxies[0], "server")), Some("1.2.3.4"));
    assert!(matches!(field(&d.proxies[0], "port"), Some(YamlNode::Number(_))));
    assert_eq!(text(field(&d.proxies[1], "type")), Some("vmess"));
    assert_eq!(d.proxy_groups.len(), 1);
    assert_eq!(d.rules, vec!["DOMAIN,example.com,DIRECT".to_string(), "MATCH,auto".to_string()]);
}

#[test]
fn subscription_expands_merge_keys() {
    let yaml = "\
base: &base
  type: trojan
  port: 443
proxies:
  - <<: *base
    name: a
";
    let d = parse_subscription_yaml(yaml).unwrap();
    assert_eq!(d.proxies.len(), 1);
    assert_eq!(text(field(&d.proxies[0], "name")), Some("a"));
    assert_eq!(text(field(&d.proxies[0], "type")), Some("trojan"));
    assert!(field(&d.proxies[0], "<<").is_none());
    assert!(d.proxy_groups.is_empty());
    assert!(d.rules.is_empty());
}

#[test]
fn subscription_missing_proxies_lists_keys() {
    let e = parse_subscription_yaml("rules:\n  - MATCH,DIRECT\nmode: rule\n").err().unwrap();
    assert_eq!(e, "subscription missing 'proxies' key; found keys: [\"rules\", \"mode\"]");
    let e2 = parse_subscription_yaml("{}").err().unwrap();
    assert_eq!(e2, "subscription missing 'proxies' key; found keys: []");
}

#[test]
fn subscription_shape_errors() {
    assert_eq!(
        parse_subscription_yaml("- a\n- b\n").err().unwrap(),
        "subscription root is not a mapping"
    );
    assert_eq!(
        parse_subscription_yaml("proxies: 5\n").err().unwrap(),
        "'proxies' is not a sequence"
    );
    assert!(parse_subscription_yaml("a: [1, 2\n").err().unwrap().starts_with("YAML parse error: "));
}

#[test]
fn subscription_reads_through_tags() {
    let d = parse_subscription_yaml("proxies: !list\n  - {name: a}\n  - !t {name: b}\nrules: !r [x, !s y, 3]\n")
        .unwrap();
    // A tagged sequence is still a sequence; a tagged entry is no plain mapping.
    assert_eq!(d.proxies.len(), 1);
    assert_eq!(text(field(&d.proxies[0], "name")), Some("a"));
    assert_eq!(d.rules, vec!["x".to_string(), "y".to_string()]);
    assert_eq!(
        parse_subscription_yaml("!root {proxies: []}\n").unwrap().proxies.len(),
        0
    );
}

fn provider(filter: Option<&str>, exclude: Option<&str>, exclude_type: &[&str]) -> ProxyProvider {
    let raw = RawProxyProvider {
        provider_type: "file".to_string(),
        path: Some("p.yaml".to_string()),
        filter: filter.map(|s| s.to_string()),
        exclude_filter: exclude.map(|s| s.to_string()),
        exclude_type: if exclude_type.is_empty() {
            None
        } else {
            Some(exclude_type.iter().map(|s| s.to_string()).collect())
        },
        ..Default::default()
    };
    ProxyProvider::new("p", &raw, None).unwrap()
}

#[test]
fn provider_keeps_filtered_proxies_in_order() {
    let content = "\
proxies:
  - {name: hk-1, type: ss}
  - {name: us-1, type: ss}
  - {name: hk-2, type: VMess}
  - {name: hk-3, type: trojan}
";
    let p = provider(Some("^hk"), Some("3$"), &["vmess"]);
    let kept = p.admitted_proxy_maps(content);
    assert_eq!(kept.len(), 1);
    assert_eq!(text(field(&kept[0], "name")), Some("hk-1"));
}

#[test]
fn provider_accepts_a_bare_list() {
    let p = provider(None, None, &[]);
    let kept = p.admitted_proxy_maps("- {name: a, type: ss}\n- {name: b, type: ss}\n");
    assert_eq!(kept.len(), 2);
    assert_eq!(text(field(&kept[1], "name")), Some("b"));
}

#[test]
fn provider_bad_content_gives_nothing() {
    let p = provider(None, None, &[]);
    assert!(p.admitted_proxy_maps("proxies: [1, 2]\n").is_empty());
    assert!(p.admitted_proxy_maps("a: [\n").is_empty());
    assert!(p.admitted_proxy_maps("proxies: 3\n").is_empty());
}

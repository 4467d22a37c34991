use meow::common::auth::{AuthConfig, Credentials};
use meow::common::ip::{IpAddress, IpCidr};
use meow::config::auth::parse_auth_config;
use meow::string_map::StringMap;

fn make_auth(entries: &[&str]) -> AuthConfig {
    parse_auth_config(
        Some(&entries.iter().map(std::string::ToString::to_string).collect::<Vec<_>>()),
        None,
    )
    .unwrap()
}

/// An address written as text, for the few forms these tests use.
fn ip(s: &str) -> IpAddress {
    match s {
        "::1" => IpAddress::V6(1),
        "2001:db8::1" => IpAddress::V6(0x2001_0db8_0000_0000_0000_0000_0000_0001),
        _ => {
            let o: Vec<u32> = s.split('.').map(|p| p.parse().unwrap()).collect();
            IpAddress::V4((o[0] << 24) | (o[1] << 16) | (o[2] << 8) | o[3])
        },
    }
}

#[test]
fn credentials_verify_correct() {
    let cfg = make_auth(&["alice:hunter2"]);
    assert!(cfg.credentials.verify("alice", "hunter2"));
}

#[test]
fn credentials_verify_wrong_password() {
    let cfg = make_auth(&["alice:hunter2"]);
    assert!(!cfg.credentials.verify("alice", "wrong"));
}

#[test]
fn credentials_verify_unknown_user() {
    let cfg = make_auth(&["alice:hunter2"]);
    assert!(!cfg.credentials.verify("bob", "hunter2"));
}

#[test]
fn credentials_verify_constant_time_uses_subtle() {
    let cfg = make_auth(&["alice:abc"]);
    assert!(cfg.credentials.verify("alice", "abc"));
    assert!(!cfg.credentials.verify("alice", "abd"));
    assert!(!cfg.credentials.verify("alice", "ab"));
    assert!(!cfg.credentials.verify("alice", "abcd"));
}

#[test]
fn skip_prefixes_loopback_always_skipped() {
    let cfg = parse_auth_config(Some(&["alice:pass".to_string()]), None).unwrap();
    assert!(cfg.should_skip(&ip("127.0.0.1")));
    assert!(cfg.should_skip(&ip("::1")));
    assert!(!cfg.should_skip(&ip("192.168.1.1")));
}

#[test]
fn parse_authentication_valid() {
    let cfg = make_auth(&["alice:hunter2", "bob:s3cr3t"]);
    assert!(cfg.credentials.verify("alice", "hunter2"));
    assert!(cfg.credentials.verify("bob", "s3cr3t"));
}

#[test]
fn parse_authentication_malformed_no_colon() {
    let err = parse_auth_config(Some(&["userpassword".to_string()]), None).err().unwrap();
    assert!(err.contains("malformed"), "expected malformed error, got: {err}");
}

#[test]
fn parse_authentication_empty_password_accepted() {
    let cfg = parse_auth_config(Some(&["user:".to_string()]), None).unwrap();
    assert!(cfg.credentials.verify("user", ""));
    assert!(!cfg.credentials.verify("user", "x"));
}

#[test]
fn parse_skip_auth_prefixes_valid_cidr() {
    let cfg = parse_auth_config(
        None,
        Some(&["192.168.0.0/24".to_string(), "10.0.0.0/8".to_string()]),
    )
    .unwrap();
    assert!(cfg.should_skip(&ip("192.168.0.5")));
    assert!(cfg.should_skip(&ip("10.1.2.3")));
    assert!(!cfg.should_skip(&ip("172.16.0.1")));
}

#[test]
fn parse_skip_auth_prefixes_invalid_cidr() {
    let err = parse_auth_config(None, Some(&["not-a-cidr".to_string()])).err().unwrap();
    assert!(err.contains("invalid CIDR"), "got: {err}");
}

#[test]
fn error_messages_exact() {
    let err = parse_auth_config(Some(&["a:b".to_string(), "nocolon".to_string()]), None)
        .err()
        .unwrap();
    assert_eq!(
        err,
        "authentication: malformed entry \"nocolon\" — expected 'user:pass' format (Class A divergence from upstream: NOT silently ignored)"
    );
    let err = parse_auth_config(None, Some(&["1.2.3.4".to_string()])).err().unwrap();
    assert_eq!(err, "skip-auth-prefixes: invalid CIDR \"1.2.3.4\": invalid IP address syntax");
}

#[test]
fn later_entry_replaces_earlier_and_colon_in_password() {
    let cfg = make_auth(&["u:one", "u:two:three"]);
    assert!(!cfg.credentials.verify("u", "one"));
    assert!(cfg.credentials.verify("u", "two:three"));
}

#[test]
fn default_config_and_cidr_edges() {
    let d = AuthConfig::default();
    assert!(d.credentials.is_empty());
    assert_eq!(d.skip_prefixes.len(), 2);
    assert!(d.should_skip(&ip("127.0.0.1")));
    assert!(!d.should_skip(&ip("127.0.0.2")));
    let all4 = IpCidr::new(IpAddress::V4(0), 0).unwrap();
    assert!(all4.contains(ip("8.8.8.8")));
    assert!(!all4.contains(ip("::1")));
    let all6 = IpCidr::new(IpAddress::V6(0), 0).unwrap();
    assert!(all6.contains(ip("2001:db8::1")));
    let net = IpCidr::new(ip("10.1.2.3"), 16).unwrap();
    assert_eq!(net.prefix(), 16);
    assert!(net.contains(ip("10.1.255.255")));
    assert!(!net.contains(ip("10.2.0.0")));
    assert!(IpCidr::new(IpAddress::V4(0), 33).is_none());
    let mut m = StringMap::new();
    m.insert("x".to_string(), "y".to_string());
    let c = Credentials::new(m);
    assert!(!c.is_empty());
    assert!(c.verify("x", "y"));
}

use meow::common::adapter_type::AdapterType;
use meow::common::error::MeowError;
use meow::common::ip::IpAddress;
use meow::proxy::anytls::{build_server_name, AnytlsAdapter, SniTarget};

#[test]
fn anytls_defaults_sni_to_server() {
    let a = AnytlsAdapter::new("a", "example.com", 443, "pw", None, false).unwrap();
    assert_eq!(a.name(), "a");
    assert_eq!(a.addr(), "example.com:443");
    assert_eq!(a.adapter_type(), AdapterType::Anytls);
    assert!(!a.support_udp());
    assert_eq!(a.server_name(), &SniTarget::Name("example.com".to_string()));
    assert_eq!(a.password(), "pw");
    assert!(!a.skip_cert_verify());
}

#[test]
fn anytls_blank_sni_falls_back_to_server() {
    let a = AnytlsAdapter::new("a", "10.0.0.1", 8443, "pw", Some("   "), true).unwrap();
    assert_eq!(a.server_name(), &SniTarget::Ip(IpAddress::V4(0x0a00_0001)));
    assert!(a.skip_cert_verify());
}

#[test]
fn anytls_sni_brackets_and_spaces_are_stripped() {
    assert_eq!(build_server_name(" [::1] ").unwrap(), SniTarget::Ip(IpAddress::V6(1)));
    assert_eq!(build_server_name("[[cdn.example.org]]").unwrap(), SniTarget::Name("cdn.example.org".to_string()));
}

#[test]
fn anytls_bad_sni_is_an_error() {
    assert_eq!(
        AnytlsAdapter::new("a", "example.com", 443, "pw", Some("bad name!"), false).err().unwrap(),
        "anytls[a]: invalid SNI 'bad name!'"
    );
    assert_eq!(
        AnytlsAdapter::new("b", "", 443, "pw", None, false).err().unwrap(),
        "anytls[b]: SNI cannot be empty"
    );
    assert_eq!(build_server_name("[]").err().unwrap(), "SNI cannot be empty");
}

#[test]
fn anytls_udp_is_refused() {
    match AnytlsAdapter::udp_unsupported() {
        MeowError::Proxy(m) => assert_eq!(m, "anytls: UDP not implemented yet"),
        other => panic!("unexpected {:?}", other),
    }
}

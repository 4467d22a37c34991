use meow::common::adapter_type::AdapterType;
use meow::common::error::MeowError;
use meow::common::ip::IpAddress;
use meow::proxy::direct::{no_address_error, DirectAdapter, TargetPlan};

#[test]
fn direct_adapter_defaults() {
    let a: DirectAdapter<u8> = DirectAdapter::new();
    assert_eq!(a.name(), "DIRECT");
    assert_eq!(a.adapter_type(), AdapterType::Direct);
    assert_eq!(a.addr(), "");
    assert!(a.support_udp());
    assert_eq!(a.routing_mark(), None);
    assert!(a.resolver().is_none());
    assert!(a.connect_timeout().is_none());
}

#[test]
fn direct_adapter_builders_keep_other_settings() {
    let a: DirectAdapter<u8> = DirectAdapter::new()
        .with_routing_mark(255)
        .with_connect_timeout(std::time::Duration::from_millis(200))
        .with_resolver(7);
    assert_eq!(a.routing_mark(), Some(255));
    assert_eq!(a.resolver(), Some(&7));
    assert_eq!(a.connect_timeout(), Some(std::time::Duration::from_millis(200)));
}

#[test]
fn plan_prefers_resolved_address() {
    let a: DirectAdapter<u8> = DirectAdapter::new().with_resolver(1);
    let ip = IpAddress::V4(0x0a00_0001);
    let plan = a.plan_target(Some(ip), "example.com", 443).unwrap();
    assert_eq!(plan, TargetPlan::Connect(ip, 443));
}

#[test]
fn plan_uses_ip_literal_host() {
    let a: DirectAdapter<u8> = DirectAdapter::new().with_resolver(1);
    let plan = a.plan_target(None, "192.168.1.2", 80).unwrap();
    assert_eq!(plan, TargetPlan::Connect(IpAddress::V4(0xc0a8_0102), 80));
    let plan6 = a.plan_target(None, "::1", 53).unwrap();
    assert_eq!(plan6, TargetPlan::Connect(IpAddress::V6(1), 53));
}

#[test]
fn plan_resolves_host_with_injected_resolver() {
    let a: DirectAdapter<u8> = DirectAdapter::new().with_resolver(1);
    let plan = a.plan_target(None, "example.com", 8443).unwrap();
    assert_eq!(plan, TargetPlan::Resolve("example.com".to_string(), 8443));
}

#[test]
fn plan_falls_back_to_system_lookup() {
    let a: DirectAdapter<u8> = DirectAdapter::new();
    let plan = a.plan_target(None, "example.com", 8443).unwrap();
    assert_eq!(plan, TargetPlan::SystemLookup("example.com:8443".to_string()));
}

#[test]
fn plan_without_destination_is_an_error() {
    let a: DirectAdapter<u8> = DirectAdapter::new();
    match a.plan_target(None, "", 80) {
        Err(MeowError::Proxy(m)) => assert_eq!(m, "direct: metadata has no destination"),
        other => panic!("unexpected {:?}", other),
    }
}

#[test]
fn resolved_outcomes() {
    let a: DirectAdapter<u8> = DirectAdapter::new().with_resolver(1);
    let ip = IpAddress::V4(0x0102_0304);
    assert_eq!(a.resolved("h.example", 22, Some(ip)).unwrap(), (ip, 22));
    match a.resolved("h.example", 22, None) {
        Err(MeowError::Dns(m)) => assert_eq!(m, "direct: failed to resolve h.example"),
        other => panic!("unexpected {:?}", other),
    }
}

#[test]
fn no_address_error_names_the_address() {
    match no_address_error("example.com:80") {
        MeowError::Dns(m) => assert_eq!(m, "direct: no address for example.com:80"),
        other => panic!("unexpected {:?}", other),
    }
}

#[test]
fn direct_default_matches_new() {
    let a: DirectAdapter<u8> = Default::default();
    assert_eq!(a.routing_mark(), None);
    assert!(a.resolver().is_none());
}

use meow::common::adapter_type::{AdapterType, ConnType};
use meow::common::error::MeowError;
use meow::common::tunnel_mode::TunnelMode;

#[test]
fn test_adapter_type_display() {
    let cases = vec![
        (AdapterType::Direct, "Direct"),
        (AdapterType::Reject, "Reject"),
        (AdapterType::RejectDrop, "RejectDrop"),
        (AdapterType::Selector, "Selector"),
        (AdapterType::Fallback, "Fallback"),
        (AdapterType::UrlTest, "URLTest"),
        (AdapterType::Shadowsocks, "Shadowsocks"),
        (AdapterType::Socks5, "Socks5"),
        (AdapterType::Http, "Http"),
        (AdapterType::Vless, "Vless"),
        (AdapterType::Trojan, "Trojan"),
        (AdapterType::Hysteria2, "Hysteria2"),
    ];
    for (variant, expected) in cases {
        assert_eq!(variant.to_string(), expected, "AdapterType::{variant:?}");
    }
}

#[test]
fn test_conn_type_display() {
    let cases = vec![
        (ConnType::Http, "HTTP"),
        (ConnType::Https, "HTTPS"),
        (ConnType::Socks4, "Socks4"),
        (ConnType::Socks5, "Socks5"),
        (ConnType::Shadowsocks, "Shadowsocks"),
        (ConnType::Vmess, "Vmess"),
        (ConnType::Vless, "Vless"),
        (ConnType::Redir, "Redir"),
        (ConnType::TProxy, "TProxy"),
        (ConnType::Trojan, "Trojan"),
        (ConnType::Tunnel, "Tunnel"),
        (ConnType::Tuic, "Tuic"),
        (ConnType::Hysteria2, "Hysteria2"),
        (ConnType::Inner, "Inner"),
    ];
    for (variant, expected) in cases {
        assert_eq!(variant.to_string(), expected, "ConnType::{variant:?}");
    }
}

#[test]
fn test_tunnel_mode_display() {
    assert_eq!(TunnelMode::Global.to_string(), "global");
    assert_eq!(TunnelMode::Rule.to_string(), "rule");
    assert_eq!(TunnelMode::Direct.to_string(), "direct");
}

#[test]
fn test_tunnel_mode_default() {
    assert_eq!(TunnelMode::default(), TunnelMode::Rule);
}

#[test]
fn test_tunnel_mode_from_str() {
    assert_eq!("global".parse::<TunnelMode>().unwrap(), TunnelMode::Global);
    assert_eq!("rule".parse::<TunnelMode>().unwrap(), TunnelMode::Rule);
    assert_eq!("direct".parse::<TunnelMode>().unwrap(), TunnelMode::Direct);
}

#[test]
fn test_tunnel_mode_from_str_case_insensitive() {
    assert_eq!("GLOBAL".parse::<TunnelMode>().unwrap(), TunnelMode::Global);
    assert_eq!("Rule".parse::<TunnelMode>().unwrap(), TunnelMode::Rule);
    assert_eq!("DIRECT".parse::<TunnelMode>().unwrap(), TunnelMode::Direct);
}

#[test]
fn test_tunnel_mode_from_str_invalid() {
    let err = "unknown".parse::<TunnelMode>().unwrap_err();
    assert!(err.contains("unknown tunnel mode"));
}

#[test]
fn test_error_display() {
    let err = MeowError::Config("bad config".to_string());
    assert_eq!(err.to_string(), "Config error: bad config");

    let err = MeowError::Dns("lookup failed".to_string());
    assert_eq!(err.to_string(), "DNS error: lookup failed");

    let err = MeowError::Proxy("connection refused".to_string());
    assert_eq!(err.to_string(), "Proxy error: connection refused");

    let err = MeowError::NotSupported("udp".to_string());
    assert_eq!(err.to_string(), "Not supported: udp");

    let err = MeowError::Other("something".to_string());
    assert_eq!(err.to_string(), "something");
}

#[test]
fn test_error_from_io() {
    let io_err = std::io::Error::new(std::io::ErrorKind::NotFound, "not found");
    let err: MeowError = io_err.into();
    assert!(err.to_string().contains("not found"));
}

#[test]
fn error_display_codes_and_relay_hops() {
    assert_eq!(
        MeowError::HttpConnectFailed(407).to_string(),
        "HTTP CONNECT failed with status 407"
    );
    assert_eq!(
        MeowError::Socks5ConnectFailed(5).to_string(),
        "SOCKS5 connect failed with reply code 0x05"
    );
    assert_eq!(
        MeowError::Socks5ConnectFailed(0xab).to_string(),
        "SOCKS5 connect failed with reply code 0xab"
    );
    let hop = MeowError::RelayHopFailed {
        hop: 12,
        source: Box::new(MeowError::NoProxyAvailable),
    };
    assert_eq!(hop.to_string(), "relay chain failed at hop 12: no proxy available");
    assert_eq!(
        MeowError::Io(std::io::Error::new(std::io::ErrorKind::Other, "boom")).to_string(),
        "IO error: boom"
    );
}

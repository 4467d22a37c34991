use meow::common::ip::IpAddress;
use meow::dns::upstream::{HostOrIp, NameServerEntry, NameServerParseError, NameServerUrl};

fn ip4(a: u8, b: u8, c: u8, d: u8) -> HostOrIp {
    HostOrIp::Ip(IpAddress::V4(u32::from_be_bytes([a, b, c, d])))
}

fn host(s: &str) -> HostOrIp {
    HostOrIp::Host(s.to_string())
}

#[test]
fn parse_plain_bare_ip() {
    let url = NameServerUrl::parse("8.8.8.8").unwrap();
    assert_eq!(url, NameServerUrl::Udp { addr: ip4(8, 8, 8, 8), port: 53 });
}

#[test]
fn parse_plain_bare_ip_with_port() {
    let url = NameServerUrl::parse("8.8.8.8:5353").unwrap();
    assert_eq!(url, NameServerUrl::Udp { addr: ip4(8, 8, 8, 8), port: 5353 });
}

#[test]
fn parse_udp_scheme() {
    let url = NameServerUrl::parse("udp://1.1.1.1").unwrap();
    assert_eq!(url, NameServerUrl::Udp { addr: ip4(1, 1, 1, 1), port: 53 });
}

#[test]
fn parse_udp_scheme_with_port() {
    let url = NameServerUrl::parse("udp://1.1.1.1:5353").unwrap();
    assert_eq!(url, NameServerUrl::Udp { addr: ip4(1, 1, 1, 1), port: 5353 });
}

#[test]
fn parse_tcp_scheme() {
    let url = NameServerUrl::parse("tcp://1.1.1.1:53").unwrap();
    assert_eq!(url, NameServerUrl::Tcp { addr: ip4(1, 1, 1, 1), port: 53 });
}

#[test]
fn parse_tls_default_port_and_sni() {
    let url = NameServerUrl::parse("tls://dns.google").unwrap();
    assert_eq!(
        url,
        NameServerUrl::Tls { addr: host("dns.google"), port: 853, sni: "dns.google".to_string() }
    );
}

#[test]
fn parse_tls_explicit_port() {
    let url = NameServerUrl::parse("tls://dns.google:8853").unwrap();
    assert_eq!(
        url,
        NameServerUrl::Tls { addr: host("dns.google"), port: 8853, sni: "dns.google".to_string() }
    );
}

#[test]
fn parse_tls_explicit_sni() {
    let url = NameServerUrl::parse("tls://8.8.8.8:853#dns.google").unwrap();
    assert_eq!(
        url,
        NameServerUrl::Tls { addr: ip4(8, 8, 8, 8), port: 853, sni: "dns.google".to_string() }
    );
}

#[test]
fn parse_tls_ip_literal_no_sni_uses_ip_string() {
    let url = NameServerUrl::parse("tls://8.8.8.8:853").unwrap();
    match &url {
        NameServerUrl::Tls { addr, sni, .. } => {
            assert_eq!(addr, &ip4(8, 8, 8, 8));
            assert!(!sni.is_empty());
        }
        _ => panic!("expected Tls"),
    }
    assert_eq!(url.needs_bootstrap(), None);
}

#[test]
fn parse_https_default_path_and_port() {
    let url = NameServerUrl::parse("https://cloudflare-dns.com").unwrap();
    assert_eq!(
        url,
        NameServerUrl::Https {
            addr: host("cloudflare-dns.com"),
            port: 443,
            path: "/dns-query".to_string(),
            sni: "cloudflare-dns.com".to_string(),
        }
    );
}

#[test]
fn parse_https_explicit_path() {
    let url = NameServerUrl::parse("https://dns.quad9.net/dns-query").unwrap();
    match &url {
        NameServerUrl::Https { path, .. } => assert_eq!(path, "/dns-query"),
        _ => panic!("expected Https"),
    }
}

#[test]
fn parse_https_explicit_port_and_path() {
    let url = NameServerUrl::parse("https://1.1.1.1:8443/custom-path").unwrap();
    assert_eq!(
        url,
        NameServerUrl::Https {
            addr: ip4(1, 1, 1, 1),
            port: 8443,
            path: "/custom-path".to_string(),
            sni: "1.1.1.1".to_string(),
        }
    );
}

#[test]
fn parse_https_explicit_sni_on_ip() {
    let url = NameServerUrl::parse("https://1.1.1.1/dns-query#cloudflare-dns.com").unwrap();
    assert_eq!(
        url,
        NameServerUrl::Https {
            addr: ip4(1, 1, 1, 1),
            port: 443,
            path: "/dns-query".to_string(),
            sni: "cloudflare-dns.com".to_string(),
        }
    );
}

#[test]
fn parse_https_hostname_sni_override() {
    let url = NameServerUrl::parse("https://dns.google/dns-query#override.example").unwrap();
    match &url {
        NameServerUrl::Https { addr, sni, .. } => {
            assert_eq!(addr, &host("dns.google"));
            assert_eq!(sni, "override.example");
        }
        _ => panic!("expected Https"),
    }
}

#[test]
fn parse_https_ipv6_bracketed() {
    let url = NameServerUrl::parse("https://[2606:4700:4700::1111]/dns-query").unwrap();
    match &url {
        NameServerUrl::Https { addr, .. } => {
            let expected: u128 = 0x2606_4700_4700_0000_0000_0000_0000_1111;
            assert_eq!(addr, &HostOrIp::Ip(IpAddress::V6(expected)));
        }
        _ => panic!("expected Https"),
    }
}

#[test]
fn parse_https_ipv6_with_port_bracketed() {
    let url = NameServerUrl::parse("https://[::1]:853/dns-query").unwrap();
    match &url {
        NameServerUrl::Https { addr, port, .. } => {
            assert_eq!(addr, &HostOrIp::Ip(IpAddress::V6(1)));
            assert_eq!(*port, 853);
        }
        _ => panic!("expected Https"),
    }
}

#[test]
fn parse_quic_rejected() {
    let err = NameServerUrl::parse("quic://dns.adguard.com").unwrap_err();
    assert!(matches!(err, NameServerParseError::QuicNotSupported));
    assert!(err.to_string().contains("M1.E-6"), "error message must cite M1.E-6 roadmap item");
}

#[test]
fn parse_unknown_scheme() {
    let err = NameServerUrl::parse("sdns://something").unwrap_err();
    assert!(matches!(err, NameServerParseError::UnsupportedScheme(ref s) if s == "sdns"));
}

#[test]
fn parse_empty_string_errors() {
    assert!(matches!(NameServerUrl::parse("").unwrap_err(), NameServerParseError::EmptyInput));
}

#[test]
fn parse_invalid_port_errors() {
    assert!(matches!(
        NameServerUrl::parse("1.1.1.1:99999").unwrap_err(),
        NameServerParseError::InvalidPort(_)
    ));
}

#[test]
fn parse_bare_hostname_no_scheme() {
    let url = NameServerUrl::parse("dns.google").unwrap();
    assert_eq!(url, NameServerUrl::Udp { addr: host("dns.google"), port: 53 });
    assert_eq!(url.needs_bootstrap(), Some("dns.google"));
}

#[test]
fn needs_bootstrap_ip_literal_returns_none() {
    let udp = NameServerUrl::parse("8.8.8.8").unwrap();
    assert_eq!(udp.needs_bootstrap(), None);
    let tls = NameServerUrl::parse("tls://8.8.8.8:853#dns.google").unwrap();
    assert_eq!(tls.needs_bootstrap(), None);
    let https = NameServerUrl::parse("https://1.1.1.1/dns-query#cloudflare-dns.com").unwrap();
    assert_eq!(https.needs_bootstrap(), None);
}

#[test]
fn needs_bootstrap_hostname_returns_some() {
    let tls = NameServerUrl::parse("tls://dns.google").unwrap();
    assert_eq!(tls.needs_bootstrap(), Some("dns.google"));
    let https = NameServerUrl::parse("https://cloudflare-dns.com").unwrap();
    assert_eq!(https.needs_bootstrap(), Some("cloudflare-dns.com"));
}

#[test]
fn all_url_forms_display_contains_host() {
    let cases = [
        "udp://8.8.8.8:53",
        "tcp://8.8.8.8:53",
        "tls://dns.google:853#dns.google",
        "https://cloudflare-dns.com:443/dns-query#cloudflare-dns.com",
    ];
    for s in &cases {
        let url = NameServerUrl::parse(s).unwrap();
        let display = url.to_string();
        assert!(!display.is_empty(), "display must not be empty for {s}");
    }
}

#[test]
fn parse_error_is_non_exhaustive_match() {
    let err = NameServerUrl::parse("").unwrap_err();
    let _msg = match err {
        NameServerParseError::EmptyInput => "empty",
        NameServerParseError::QuicNotSupported => "quic",
        NameServerParseError::UnsupportedScheme(_) => "unsupported",
        NameServerParseError::InvalidHost(_) => "invalid host",
        NameServerParseError::InvalidPort(_) => "invalid port",
        _ => "other",
    };
}

#[test]
fn entry_no_proxy_default() {
    let e = NameServerEntry::parse("8.8.8.8").unwrap();
    assert!(e.proxy.is_none());
    assert_eq!(e.url, NameServerUrl::Udp { addr: ip4(8, 8, 8, 8), port: 53 });
}

#[test]
fn entry_plain_udp_with_proxy_tag() {
    let e = NameServerEntry::parse("1.1.1.1#PROXY-JP").unwrap();
    assert_eq!(e.proxy.as_deref(), Some("PROXY-JP"));
    assert_eq!(e.url, NameServerUrl::Udp { addr: ip4(1, 1, 1, 1), port: 53 });
}

#[test]
fn entry_tcp_scheme_with_proxy_tag() {
    let e = NameServerEntry::parse("tcp://1.1.1.1:53#PROXY-JP").unwrap();
    assert_eq!(e.proxy.as_deref(), Some("PROXY-JP"));
    assert!(matches!(e.url, NameServerUrl::Tcp { .. }));
}

#[test]
fn entry_tls_fragment_is_sni_not_proxy() {
    let e = NameServerEntry::parse("tls://1.1.1.1:853#dns.google").unwrap();
    assert!(e.proxy.is_none());
    assert!(matches!(e.url, NameServerUrl::Tls { .. }));
}

#[test]
fn entry_empty_proxy_tag_errors() {
    let err = NameServerEntry::parse("1.1.1.1#").unwrap_err();
    assert!(matches!(err, NameServerParseError::InvalidHost(_)));
}

#[test]
fn display_forms_exact() {
    let u = NameServerUrl::parse("udp://8.8.8.8:53").unwrap();
    assert_eq!(u.to_string(), "udp://8.8.8.8:53");
    let t = NameServerUrl::parse("tls://dns.google").unwrap();
    assert_eq!(t.to_string(), "tls://dns.google:853#dns.google");
    let h = NameServerUrl::parse("https://1.1.1.1").unwrap();
    assert_eq!(h.to_string(), "https://1.1.1.1:443/dns-query#1.1.1.1");
    assert!(u.is_plain());
    assert!(!t.is_plain());
}

#[test]
fn error_cases_and_messages() {
    assert_eq!(
        NameServerUrl::parse("[::1").unwrap_err(),
        NameServerParseError::InvalidHost("[::1".to_string())
    );
    assert_eq!(
        NameServerUrl::parse("[::1]x").unwrap_err(),
        NameServerParseError::InvalidHost("[::1]x".to_string())
    );
    assert_eq!(
        NameServerUrl::parse("host:0").unwrap_err(),
        NameServerParseError::InvalidPort("0".to_string())
    );
    assert_eq!(
        NameServerUrl::parse("a b").unwrap_err(),
        NameServerParseError::InvalidHost("a b".to_string())
    );
    assert_eq!(
        NameServerUrl::parse("udp://").unwrap_err(),
        NameServerParseError::InvalidHost(String::new())
    );
    assert_eq!(
        NameServerUrl::parse("  8.8.4.4:+53  ").unwrap(),
        NameServerUrl::Udp { addr: host("8.8.4.4:+53"), port: 53 }
    );
    assert_eq!(
        NameServerUrl::parse("tcp://[::1]:+53").unwrap(),
        NameServerUrl::Tcp { addr: HostOrIp::Ip(IpAddress::V6(1)), port: 53 }
    );
    assert_eq!(
        NameServerParseError::InvalidPort("x".to_string()).to_string(),
        "invalid port in nameserver: 'x'"
    );
    assert!(NameServerParseError::EncryptedFeatureDisabled.to_string().contains("encrypted"));
}

#[test]
fn ip_helpers() {
    assert_eq!(HostOrIp::Ip(IpAddress::V4(0x0808_0808)).to_string(), "8.8.8.8");
    assert_eq!(HostOrIp::Ip(IpAddress::V6(1)).to_string(), "::1");
    assert_eq!(
        NameServerUrl::parse("tcp://[::1]:53").unwrap(),
        NameServerUrl::Tcp { addr: HostOrIp::Ip(IpAddress::V6(1)), port: 53 }
    );
    assert_eq!(
        NameServerUrl::parse("10.0.0.1").unwrap(),
        NameServerUrl::Udp { addr: HostOrIp::Ip(IpAddress::V4(0x0a00_0001)), port: 53 }
    );
    assert_eq!(
        NameServerEntry::from(NameServerUrl::parse("1.1.1.1").unwrap()).proxy,
        None
    );
}

use meow::bench::socks5_client::{check_auth_reply, check_connect_reply, connect_request, greeting};
use meow::common::conn::ProxyConn;
use meow::common::ip::IpAddress;

#[test]
fn greeting_offers_no_auth() {
    assert_eq!(greeting(), vec![0x05, 0x01, 0x00]);
}

#[test]
fn auth_reply_accepts_no_auth_only() {
    assert!(check_auth_reply([0x05, 0x00]).is_ok());
    assert_eq!(check_auth_reply([0x05, 0xff]).unwrap_err(), "SOCKS5 auth failed: 05 ff");
    assert_eq!(check_auth_reply([0x04, 0x00]).unwrap_err(), "SOCKS5 auth failed: 04 00");
}

#[test]
fn connect_request_ipv4() {
    let req = connect_request(IpAddress::V4(0x7f00_0001), 8080);
    assert_eq!(req, vec![0x05, 0x01, 0x00, 0x01, 127, 0, 0, 1, 0x1f, 0x90]);
}

#[test]
fn connect_request_ipv6() {
    let addr: u128 = 0x2001_0db8_0000_0000_0000_0000_0000_0001;
    let req = connect_request(IpAddress::V6(addr), 443);
    let mut want = vec![0x05, 0x01, 0x00, 0x04];
    want.extend_from_slice(&addr.to_be_bytes());
    want.extend_from_slice(&[0x01, 0xbb]);
    assert_eq!(req.len(), 22);
    assert_eq!(req, want);
}

#[test]
fn connect_reply_status() {
    assert!(check_connect_reply([0x05, 0x00, 0, 0x01, 0, 0, 0, 0, 0, 0]).is_ok());
    assert_eq!(
        check_connect_reply([0x05, 0x05, 0, 0x01, 0, 0, 0, 0, 0, 0]).unwrap_err(),
        "SOCKS5 connect failed: reply status 05"
    );
    assert_eq!(
        check_connect_reply([0x00, 0x00, 0, 0x01, 0, 0, 0, 0, 0, 0]).unwrap_err(),
        "SOCKS5 connect failed: reply status 00"
    );
}

struct Plain;
impl ProxyConn for Plain {}

struct Named;
impl ProxyConn for Named {
    fn remote_destination(&self) -> String {
        "example.com:443".to_string()
    }
}

#[test]
fn remote_destination_defaults_to_empty() {
    assert_eq!(Plain.remote_destination(), "");
    assert_eq!(Named.remote_destination(), "example.com:443");
}

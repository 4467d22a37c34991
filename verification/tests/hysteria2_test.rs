use meow::common::error::MeowError;
use meow::proxy::hysteria2::{
    decode_tcp_response, encode_tcp_request, varint_decode, varint_encode, Hy2Adapter,
    TCP_STATUS_ERROR, TCP_STATUS_OK, VARINT_MAX,
};

#[test]
fn varint_roundtrip_corner_cases() {
    for v in [
        0u64,
        1,
        0x3F,
        0x40,
        0x3FFF,
        0x4000,
        0x3FFF_FFFF,
        0x4000_0000,
    ] {
        let mut buf = Vec::new();
        varint_encode(&mut buf, v);
        let (got, n) = varint_decode(&buf).expect("decode");
        assert_eq!(got, v, "value");
        assert_eq!(n, buf.len(), "consumed");
    }
}

#[test]
fn varint_decode_truncated_returns_none() {
    let mut buf = Vec::new();
    varint_encode(&mut buf, 0x100);
    buf.truncate(1);
    assert!(varint_decode(&buf).is_none());
}

#[test]
fn varint_exact_bytes_and_extremes() {
    let mut buf = Vec::new();
    varint_encode(&mut buf, 0x25);
    assert_eq!(buf, vec![0x25]);
    let mut buf = Vec::new();
    varint_encode(&mut buf, 15293);
    assert_eq!(buf, vec![0x7b, 0xbd]);
    let mut buf = Vec::new();
    varint_encode(&mut buf, 494878333);
    assert_eq!(buf, vec![0x9d, 0x7f, 0x3e, 0x7d]);
    let mut buf = Vec::new();
    varint_encode(&mut buf, 151288809941952652);
    assert_eq!(buf, vec![0xc2, 0x19, 0x7c, 0x5e, 0xff, 0x14, 0xe8, 0x8c]);
    let mut buf = vec![9u8];
    varint_encode(&mut buf, VARINT_MAX);
    assert_eq!(buf.len(), 9);
    assert_eq!(buf[0], 9);
    assert_eq!(varint_decode(&buf[1..]), Some((VARINT_MAX, 8)));
    assert_eq!(varint_decode(&[]), None);
    // Trailing bytes are not consumed.
    assert_eq!(varint_decode(&[0x40, 0x25, 0xff]), Some((0x25, 2)));
}

#[test]
fn tcp_request_frame_shape() {
    let frame = encode_tcp_request("example.com:443", b"abc");
    assert_eq!(&frame[..2], &[0x44, 0x01], "frame ID prefix");
    assert_eq!(frame[2], 0x0F, "address length varint");
    assert_eq!(&frame[3..3 + 15], b"example.com:443");
    assert_eq!(frame[3 + 15], 0x03);
    assert_eq!(&frame[3 + 15 + 1..], b"abc");
}

#[test]
fn tcp_response_ok_round_trip() {
    let bytes = [TCP_STATUS_OK, 0x00, 0x00];
    let resp = decode_tcp_response(&bytes).unwrap().unwrap();
    assert!(resp.ok);
    assert_eq!(resp.message, "");
    assert_eq!(resp.consumed, 3);
}

#[test]
fn tcp_response_error_with_message() {
    let bytes = [TCP_STATUS_ERROR, 0x03, b'b', b'a', b'd', 0x00];
    let resp = decode_tcp_response(&bytes).unwrap().unwrap();
    assert!(!resp.ok);
    assert_eq!(resp.message, "bad");
    assert_eq!(resp.consumed, 6);
}

#[test]
fn tcp_response_short_buffer_yields_none() {
    let bytes = [TCP_STATUS_OK];
    assert!(decode_tcp_response(&bytes).unwrap().is_none());
}

#[test]
fn tcp_response_invalid_status_errors() {
    let bytes = [0x05, 0x00, 0x00];
    let err = decode_tcp_response(&bytes).unwrap_err();
    assert!(err.contains("unknown TCPResponse status"), "got: {err}");
}

#[test]
fn tcp_response_non_utf8_message_errors() {
    let bytes = [TCP_STATUS_OK, 0x02, 0xFF, 0xFE, 0x00];
    let err = decode_tcp_response(&bytes).unwrap_err();
    assert!(err.contains("not UTF-8"), "got: {err}");
}

#[test]
fn tcp_response_framing_prefixes_and_trailing_bytes() {
    let frame = [TCP_STATUS_ERROR, 0x02, b'n', b'o', 0x02, 0xaa, 0xbb];
    for k in 0..frame.len() {
        assert_eq!(decode_tcp_response(&frame[..k]).unwrap(), None, "prefix {k}");
    }
    let mut longer = frame.to_vec();
    longer.extend_from_slice(b"payload");
    let resp = decode_tcp_response(&longer).unwrap().unwrap();
    assert!(!resp.ok);
    assert_eq!(resp.message, "no");
    assert_eq!(resp.consumed, frame.len());
    let err = decode_tcp_response(&[0xff]).unwrap_err();
    assert_eq!(err, "hysteria2: unknown TCPResponse status 0xff");
}

#[test]
fn adapter_constructor_rejects_empty_password() {
    let Err(err) = Hy2Adapter::new("name", "1.2.3.4", 443, "", None, false) else {
        panic!("must fail");
    };
    assert!(err.contains("password must not be empty"));
}

#[test]
fn adapter_constructor_defaults_sni_to_server() {
    let a = Hy2Adapter::new("n", "example.com", 443, "secret", None, false).unwrap();
    assert_eq!(a.sni(), "example.com");
}

#[test]
fn adapter_constructor_uses_explicit_sni() {
    let a = Hy2Adapter::new(
        "n",
        "1.2.3.4",
        443,
        "secret",
        Some("masq.example.com"),
        false,
    )
    .unwrap();
    assert_eq!(a.sni(), "masq.example.com");
}

#[test]
fn adapter_constructor_address_and_blank_sni() {
    let a = Hy2Adapter::new("n", "example.com", 8443, "secret", Some("  \t"), true).unwrap();
    assert_eq!(a.addr(), "example.com:8443");
    assert_eq!(a.sni(), "example.com");
    assert_eq!(a.name(), "n");
    assert!(a.skip_cert_verify());
    assert!(!a.support_udp());
    assert_eq!(a.adapter_type(), meow::common::adapter_type::AdapterType::Hysteria2);
}

#[test]
fn hysteria2_dials_are_refused_for_now() {
    match Hy2Adapter::tcp_unsupported() {
        MeowError::Proxy(m) => assert!(m.starts_with("hysteria2: data plane not implemented yet")),
        other => panic!("unexpected {:?}", other),
    }
    match Hy2Adapter::udp_unsupported() {
        MeowError::Proxy(m) => assert_eq!(m, "hysteria2: UDP not implemented yet"),
        other => panic!("unexpected {:?}", other),
    }
}

#[test]
fn decoded_frame_is_decided_by_its_own_bytes() {
    // A message length written as a two-byte varint, then empty padding.
    let frame = vec![TCP_STATUS_OK, 0x40, 0x02, b'h', b'i', 0x00];
    let r = decode_tcp_response(&frame).unwrap().unwrap();
    assert_eq!(r.consumed, 6);
    assert_eq!(r.message, "hi");
    for k in 0..r.consumed {
        assert_eq!(decode_tcp_response(&frame[..k]).unwrap(), None);
    }
    let mut longer = frame.clone();
    longer.extend_from_slice(&[0xff, 0x00, 0x17]);
    assert_eq!(decode_tcp_response(&longer).unwrap().unwrap(), r);
}

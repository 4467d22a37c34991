use meow::proxy::simple_obfs::{
    build_client_hello, build_http_request, client_hello_bytes, find_double_crlf, frame_app_data,
    http_request_bytes, DrainStep, HeaderStep, HttpObfs, ReadRequest, ReadStep, TlsObfs,
    TlsReader, WritePlan, TLS_CHUNK_SIZE, TLS_FIRST_RESPONSE_DISCARD,
};

#[test]
fn http_request_contains_body_and_headers() {
    let body = b"hello world";
    let req = build_http_request("example.com", 80, body);
    let s = std::str::from_utf8(&req[..req.len() - body.len()]).unwrap();
    assert!(s.starts_with("GET / HTTP/1.1\r\n"));
    assert!(s.contains("Host: example.com\r\n"));
    assert!(!s.contains("Host: example.com:80\r\n"));
    assert!(s.contains("Upgrade: websocket\r\n"));
    assert!(s.contains("Connection: Upgrade\r\n"));
    assert!(s.contains(&format!("Content-Length: {}\r\n", body.len())));
    assert!(s.contains("Sec-WebSocket-Key: "));
    assert!(s.ends_with("\r\n\r\n"));
    assert_eq!(&req[req.len() - body.len()..], body);
}

#[test]
fn http_request_uses_host_port_when_not_80() {
    let req = build_http_request("example.com", 8080, b"x");
    let s = std::str::from_utf8(&req).unwrap();
    assert!(s.contains("Host: example.com:8080\r\n"));
}

#[test]
fn tls_client_hello_layout_matches_reference() {
    let data = b"the secret payload";
    let server = "example.com";
    let hello = build_client_hello(data, server);

    assert_eq!(hello[0], 0x16);
    assert_eq!(&hello[1..3], &[0x03, 0x01]);
    let record_len = u16::from_be_bytes([hello[3], hello[4]]) as usize;
    assert_eq!(record_len, hello.len() - 5);
    assert_eq!(record_len, 212 + data.len() + server.len());

    assert_eq!(hello[5], 0x01);
    assert_eq!(hello[6], 0x00);
    let handshake_len = u16::from_be_bytes([hello[7], hello[8]]) as usize;
    assert_eq!(handshake_len, 208 + data.len() + server.len());

    assert_eq!(&hello[9..11], &[0x03, 0x03]);
    assert_eq!(hello[43], 32);

    assert!(hello.windows(data.len()).any(|w| w == data));
    assert!(hello.windows(server.len()).any(|w| w == server.as_bytes()));
}

#[test]
fn http_request_bytes_exact_text() {
    let req = http_request_bytes("h", 81, b"ab", "KEY", 12, 1);
    let expected = b"GET / HTTP/1.1\r\nHost: h:81\r\nUser-Agent: curl/7.12.1\r\nUpgrade: websocket\r\nConnection: Upgrade\r\nSec-WebSocket-Key: KEY\r\nContent-Length: 2\r\n\r\nab";
    assert_eq!(req, expected.to_vec());
}

#[test]
fn http_request_key_is_base64_of_sixteen_bytes() {
    let req = build_http_request("example.com", 80, b"");
    let s = std::str::from_utf8(&req).unwrap();
    let start = s.find("Sec-WebSocket-Key: ").unwrap() + "Sec-WebSocket-Key: ".len();
    let end = start + s[start..].find("\r\n").unwrap();
    let key = &s[start..end];
    assert_eq!(key.len(), 24);
    assert!(key.ends_with("=="));
    assert!(key[..22]
        .chars()
        .all(|c| c.is_ascii_alphanumeric() || c == '-' || c == '_'));
}

#[test]
fn client_hello_bytes_places_fields() {
    let random = [7u8; 28];
    let session = [9u8; 32];
    let hello = client_hello_bytes(b"D", "sv", 0x0102_0304, &random, &session);
    assert_eq!(hello.len(), 5 + 212 + 1 + 2);
    assert_eq!(&hello[11..15], &[1, 2, 3, 4]);
    assert_eq!(&hello[15..43], &random);
    assert_eq!(&hello[44..76], &session);
    // session ticket extension carries the data
    let pos = hello.windows(2).position(|w| w == [0x00, 0x23]).unwrap();
    assert_eq!(&hello[pos + 2..pos + 5], &[0x00, 0x01, b'D']);
}

#[test]
fn find_double_crlf_first_match() {
    assert_eq!(find_double_crlf(b""), None);
    assert_eq!(find_double_crlf(b"\r\n\r"), None);
    assert_eq!(find_double_crlf(b"\r\n\r\n"), Some(0));
    assert_eq!(find_double_crlf(b"ab\r\n\r\ncd\r\n\r\n"), Some(2));
}

#[test]
fn frame_app_data_layout() {
    assert_eq!(frame_app_data(b"SECOND"), b"\x17\x03\x03\x00\x06SECOND".to_vec());
    assert_eq!(frame_app_data(b""), vec![0x17, 0x03, 0x03, 0x00, 0x00]);
}

fn drain<S>(w: &mut Vec<u8>, obfs_unsent: &[u8]) -> usize {
    w.extend_from_slice(obfs_unsent);
    obfs_unsent.len()
}

#[test]
fn http_obfs_first_write_framed_then_passthrough() {
    let mut obfs = HttpObfs::new((), "example.com".to_string(), 80);
    let mut wire = Vec::new();
    assert_eq!(obfs.begin_write(b"PAYLOAD1"), WritePlan::Drain);
    let n = drain::<()>(&mut wire, obfs.unsent());
    assert_eq!(obfs.record_written(n), DrainStep::Done);
    assert_eq!(obfs.take_pending(), 8);
    assert_eq!(obfs.begin_write(b"PAYLOAD2"), WritePlan::Passthrough);
    wire.extend_from_slice(b"PAYLOAD2");
    let s = std::str::from_utf8(&wire).unwrap();
    assert!(s.starts_with("GET / HTTP/1.1\r\n"));
    let idx = find_double_crlf(&wire).unwrap();
    assert_eq!(&wire[idx + 4..], b"PAYLOAD1PAYLOAD2");
}

#[test]
fn http_obfs_partial_write_resumes() {
    let mut obfs = HttpObfs::new((), "h".to_string(), 80);
    assert_eq!(obfs.begin_write(b"xy"), WritePlan::Drain);
    let total = obfs.unsent().len();
    assert_eq!(obfs.record_written(0), DrainStep::WriteZero);
    assert_eq!(obfs.record_written(3), DrainStep::More);
    assert_eq!(obfs.unsent().len(), total - 3);
    assert_eq!(obfs.begin_write(b"other"), WritePlan::ResumeDrain);
    let rest = obfs.unsent().len();
    assert_eq!(obfs.record_written(rest), DrainStep::Done);
    assert_eq!(obfs.take_pending(), 2);
}

#[test]
fn http_obfs_strips_first_response_header() {
    let mut obfs = HttpObfs::new((), "example.com".to_string(), 80);
    assert!(obfs.awaiting_response_header());
    let part1 = b"HTTP/1.1 101 Switching Protocols\r\nServer: nginx\r\n";
    assert!(matches!(obfs.on_response_bytes(part1, 100), HeaderStep::NeedMore));
    let part2 = b"Upgrade: websocket\r\n\r\nHELLO_BODY_BYTES";
    let mut got = Vec::new();
    match obfs.on_response_bytes(part2, 5) {
        HeaderStep::Deliver(out) => got.extend_from_slice(&out),
        _ => panic!("header should have ended"),
    }
    assert!(!obfs.awaiting_response_header());
    while let Some(more) = obfs.take_leftover(4) {
        assert!(more.len() <= 4);
        got.extend_from_slice(&more);
    }
    assert_eq!(got, b"HELLO_BODY_BYTES");
    assert!(obfs.take_leftover(4).is_none());
}

#[test]
fn http_obfs_header_limit_and_eof() {
    let mut obfs = HttpObfs::new((), "h".to_string(), 80);
    assert!(matches!(obfs.on_response_bytes(b"", 10), HeaderStep::Eof));
    let big = vec![b'a'; 16385];
    assert!(matches!(obfs.on_response_bytes(&big, 10), HeaderStep::TooLarge));
}

fn read_all(reader: &mut TlsReader, wire: &[u8], room: usize) -> Vec<u8> {
    let mut pos = 0;
    let mut out = Vec::new();
    loop {
        let want = match reader.request(room) {
            ReadRequest::Skip(n) | ReadRequest::Length(n) | ReadRequest::Payload(n) => n,
            ReadRequest::Full => panic!("room is never zero here"),
        };
        let end = (pos + want).min(wire.len());
        let data = &wire[pos..end];
        pos = end;
        match reader.on_read(data) {
            ReadStep::Eof => return out,
            ReadStep::Continue => {}
            ReadStep::Deliver => out.extend_from_slice(data),
        }
    }
}

#[test]
fn tls_reader_strips_framing() {
    let mut wire = vec![0xAAu8; TLS_FIRST_RESPONSE_DISCARD];
    let payload1 = b"hello-from-server";
    wire.extend_from_slice(&(payload1.len() as u16).to_be_bytes());
    wire.extend_from_slice(payload1);
    wire.extend_from_slice(&frame_app_data(b"second-frame"));
    let mut reader = TlsReader::new();
    let got = read_all(&mut reader, &wire, 7);
    let mut expected = payload1.to_vec();
    expected.extend_from_slice(b"second-frame");
    assert_eq!(got, expected);
}

#[test]
fn tls_reader_handles_empty_records_and_full_buffer() {
    let mut wire = vec![0u8; TLS_FIRST_RESPONSE_DISCARD];
    wire.extend_from_slice(&[0, 0]);
    wire.extend_from_slice(&frame_app_data(b""));
    wire.extend_from_slice(&frame_app_data(b"z"));
    let mut reader = TlsReader::new();
    assert_eq!(read_all(&mut reader, &wire, 1), b"z".to_vec());
    let mut r2 = TlsReader::new();
    let mut w2 = vec![0u8; TLS_FIRST_RESPONSE_DISCARD];
    w2.extend_from_slice(&[0, 3]);
    let _ = read_all(&mut r2, &w2, 1);
    assert_eq!(r2.request(0), ReadRequest::Full);
}

#[test]
fn tls_obfs_write_first_then_records() {
    let mut obfs = TlsObfs::new((), "example.com".to_string());
    let mut wire = Vec::new();
    assert_eq!(obfs.begin_write(b""), WritePlan::Nothing);
    assert_eq!(obfs.begin_write(b"FIRST"), WritePlan::Drain);
    let n = drain::<()>(&mut wire, obfs.unsent());
    assert_eq!(obfs.record_written(n), DrainStep::Done);
    assert_eq!(obfs.take_pending(), 5);
    assert_eq!(obfs.begin_write(b"SECOND"), WritePlan::Drain);
    let n = drain::<()>(&mut wire, obfs.unsent());
    assert_eq!(obfs.record_written(n), DrainStep::Done);
    assert_eq!(obfs.take_pending(), 6);

    assert_eq!(wire[0], 0x16);
    let rec_len = u16::from_be_bytes([wire[3], wire[4]]) as usize;
    let hello_end = 5 + rec_len;
    assert!(wire[..hello_end].windows(5).any(|w| w == b"FIRST"));
    assert_eq!(&wire[hello_end..], b"\x17\x03\x03\x00\x06SECOND");
}

#[test]
fn tls_obfs_splits_large_writes() {
    let mut obfs = TlsObfs::new((), "s".to_string());
    let big = vec![1u8; TLS_CHUNK_SIZE + 10];
    assert_eq!(obfs.begin_write(&big), WritePlan::Drain);
    let n = obfs.unsent().len();
    assert_eq!(obfs.record_written(n), DrainStep::Done);
    assert_eq!(obfs.take_pending(), TLS_CHUNK_SIZE);
    assert_eq!(obfs.begin_write(&big[TLS_CHUNK_SIZE..]), WritePlan::Drain);
    assert_eq!(obfs.unsent().len(), 5 + 10);
}

#[test]
fn tls_obfs_reads_through_reader() {
    let mut obfs = TlsObfs::new((), "s".to_string());
    let mut wire = vec![0u8; TLS_FIRST_RESPONSE_DISCARD];
    wire.extend_from_slice(&[0, 2, b'o', b'k']);
    let mut pos = 0;
    let mut out = Vec::new();
    loop {
        let want = match obfs.read_request(64) {
            ReadRequest::Skip(n) | ReadRequest::Length(n) | ReadRequest::Payload(n) => n,
            ReadRequest::Full => break,
        };
        let end = (pos + want).min(wire.len());
        let data = wire[pos..end].to_vec();
        pos = end;
        match obfs.on_read(&data) {
            ReadStep::Eof => break,
            ReadStep::Continue => {}
            ReadStep::Deliver => out.extend_from_slice(&data),
        }
    }
    assert_eq!(out, b"ok".to_vec());
}

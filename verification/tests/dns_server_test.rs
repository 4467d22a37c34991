use meow::common::ip::IpAddress;
use meow::dns::server::{
    answer_from_hosts, answer_from_lookup, build_noerror_empty, build_nxdomain, build_response,
    next_worker, parse_question, plan_query, QueryError, QueryPlan, DEFAULT_ANSWER_TTL_SECS,
    DNS_WORKERS,
};

fn query(id: u16, name: &str, qtype: u16) -> Vec<u8> {
    let mut q = Vec::new();
    q.extend_from_slice(&id.to_be_bytes());
    q.extend_from_slice(&[0x01, 0x00, 0x00, 0x01, 0x00, 0x00, 0x00, 0x00, 0x00, 0x00]);
    for label in name.split('.') {
        q.push(label.len() as u8);
        q.extend_from_slice(label.as_bytes());
    }
    q.push(0);
    q.extend_from_slice(&qtype.to_be_bytes());
    q.extend_from_slice(&[0x00, 0x01]);
    q
}

#[test]
fn parse_question_reads_name_and_type() {
    let q = query(7, "www.example.com", 1);
    let (name, qtype, len) = parse_question(&q[12..]).unwrap();
    assert_eq!(name, "www.example.com");
    assert_eq!(qtype, 1);
    assert_eq!(len, q.len() - 12);
}

#[test]
fn parse_question_errors() {
    assert_eq!(parse_question(&[]), Err(QueryError::QuestionTruncated));
    assert_eq!(parse_question(&[3, b'a']), Err(QueryError::LabelTruncated));
    assert_eq!(parse_question(&[1, b'a', 0, 0]), Err(QueryError::TypeClassTruncated));
    assert_eq!(QueryError::LabelTruncated.to_string(), "DNS label truncated");
}

#[test]
fn parse_question_invalid_utf8_is_lossy() {
    let (name, _, _) = parse_question(&[2, 0xff, b'a', 0, 0, 28, 0, 1]).unwrap();
    assert_eq!(name, "\u{fffd}a");
}

#[test]
fn plan_query_classifies() {
    assert_eq!(plan_query(&[0u8; 5]), Err(QueryError::TooShort));
    let mut no_q = query(1, "a", 1);
    no_q[5] = 0;
    assert_eq!(plan_query(&no_q), Err(QueryError::NoQuestion));
    match plan_query(&query(0x1234, "a.b", 28)).unwrap() {
        QueryPlan::Lookup { id, domain, qtype } => {
            assert_eq!((id, domain.as_str(), qtype), (0x1234, "a.b", 28));
        }
        other => panic!("unexpected {other:?}"),
    }
    match plan_query(&query(9, "mx.example", 15)).unwrap() {
        QueryPlan::Forward { qtype, .. } => assert_eq!(qtype, 15),
        other => panic!("unexpected {other:?}"),
    }
}

#[test]
fn build_response_v4_layout() {
    let q = query(0xabcd, "a.io", 1);
    let r = build_response(0xabcd, &q, 1, IpAddress::V4(0x0102_0304), 60);
    assert_eq!(&r[0..2], &[0xab, 0xcd]);
    assert_eq!(&r[2..4], &[0x81, 0x80]);
    assert_eq!(&r[4..12], &[0, 1, 0, 1, 0, 0, 0, 0]);
    assert_eq!(&r[12..q.len()], &q[12..]);
    let ans = &r[q.len()..];
    assert_eq!(ans, &[0xc0, 0x0c, 0, 1, 0, 1, 0, 0, 0, 60, 0, 4, 1, 2, 3, 4]);
}

#[test]
fn build_response_v6_layout() {
    let q = query(1, "a", 28);
    let v6: u128 = 0x2001_0db8_0000_0000_0000_0000_0000_0001;
    let r = build_response(1, &q, 28, IpAddress::V6(v6), 5);
    let ans = &r[q.len()..];
    assert_eq!(&ans[10..12], &[0, 16]);
    assert_eq!(&ans[12..], &v6.to_be_bytes());
}

#[test]
fn nxdomain_and_noerror_empty() {
    let q = query(3, "x.y", 1);
    let nx = build_nxdomain(3, &q);
    assert_eq!(&nx[2..4], &[0x81, 0x83]);
    assert_eq!(&nx[6..8], &[0, 0]);
    assert_eq!(&nx[12..], &q[12..]);
    let ne = build_noerror_empty(3, &q);
    assert_eq!(&ne[2..4], &[0x81, 0x80]);
    // truncated question: only the header comes back
    let short = &q[..14];
    assert_eq!(build_nxdomain(3, short).len(), 12);
}

#[test]
fn answers_from_hosts_and_lookup() {
    let q4 = query(5, "h", 1);
    let q6 = query(5, "h", 28);
    let ips = [IpAddress::V6(1), IpAddress::V4(0x7f00_0001)];
    let r = answer_from_hosts(5, &q4, 1, &ips);
    assert_eq!(&r[r.len() - 4..], &[127, 0, 0, 1]);
    let r = answer_from_hosts(5, &q6, 28, &[IpAddress::V4(1)]);
    assert_eq!(&r[2..4], &[0x81, 0x80]);
    assert_eq!(&r[6..8], &[0, 0]);
    let r = answer_from_lookup(5, &q4, 1, Some(IpAddress::V4(0x0a00_0001)), true, true, 0);
    let ttl = &r[q4.len() + 6..q4.len() + 10];
    assert_eq!(ttl, &[0, 0, 0, 1]);
    let r = answer_from_lookup(5, &q4, 1, Some(IpAddress::V4(0x0a00_0001)), false, true, 0);
    let ttl = &r[q4.len() + 6..q4.len() + 10];
    assert_eq!(ttl, &DEFAULT_ANSWER_TTL_SECS.to_be_bytes());
    let r = answer_from_lookup(5, &q6, 28, None, true, false, 0);
    assert_eq!(&r[2..4], &[0x81, 0x80]);
    let r = answer_from_lookup(5, &q6, 28, None, false, false, 0);
    assert_eq!(&r[2..4], &[0x81, 0x83]);
}

#[test]
fn workers_take_packets_in_turn() {
    let mut rr: usize = 0;
    let mut seen = Vec::new();
    for _ in 0..6 {
        let (w, next) = next_worker(rr);
        seen.push(w);
        rr = next;
    }
    assert_eq!(seen, vec![0, 1, 2, 3, 0, 1]);
    assert_eq!(DNS_WORKERS, 4);
    assert_eq!(next_worker(usize::MAX), (usize::MAX % 4, 0));
}

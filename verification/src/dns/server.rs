//! The DNS server's wire work: reading the question of a query and building
//! the answer, NXDOMAIN and empty-NOERROR responses.

use vstd::prelude::*;
use crate::bytes::{be_bytes, pow256, push_be_bytes};
use crate::common::ip::IpAddress;
use crate::text::{owned, string_append};

verus! {

/// TTL stamped on regular (not fake-IP) answers.
pub const DEFAULT_ANSWER_TTL_SECS: u32 = 60;

/// Workers that answer queries; each received packet goes to the next in
/// turn.
pub const DNS_WORKERS: usize = 4;

/// Packets a worker may have waiting before more are dropped.
pub const DNS_WORKER_QUEUE: usize = 256;

/// The worker for the packet numbered `rr`, and the number of the next
/// packet (counting wraps around).
pub fn next_worker(rr: usize) -> (r: (usize, usize))
    ensures
        r.0 == rr % DNS_WORKERS,
        r.0 < DNS_WORKERS,
        r.1 == if rr == usize::MAX {
            0
        } else {
            rr + 1
        },
{
    let next = if rr == usize::MAX {
        0
    } else {
        rr + 1
    };
    (rr % DNS_WORKERS, next)
}

/// Query type of an IPv4 address record.
pub const QTYPE_A: u16 = 1;

/// Query type of an IPv6 address record.
pub const QTYPE_AAAA: u16 = 28;

/// Why a query could not be read.
#[derive(Debug, Clone, Copy, PartialEq, Eq, Structural)]
pub enum QueryError {
    TooShort,
    NoQuestion,
    QuestionTruncated,
    LabelTruncated,
    TypeClassTruncated,
}

pub open spec fn query_error_text(e: QueryError) -> Seq<char> {
    match e {
        QueryError::TooShort => "DNS packet too short"@,
        QueryError::NoQuestion => "No questions in DNS query"@,
        QueryError::QuestionTruncated => "DNS question truncated"@,
        QueryError::LabelTruncated => "DNS label truncated"@,
        QueryError::TypeClassTruncated => "DNS question type/class truncated"@,
    }
}

impl QueryError {
    pub fn to_string(&self) -> (r: String)
        ensures
            r@ == query_error_text(*self),
    {
        match self {
            QueryError::TooShort => owned("DNS packet too short"),
            QueryError::NoQuestion => owned("No questions in DNS query"),
            QueryError::QuestionTruncated => owned("DNS question truncated"),
            QueryError::LabelTruncated => owned("DNS label truncated"),
            QueryError::TypeClassTruncated => owned("DNS question type/class truncated"),
        }
    }
}

/// What `String::from_utf8_lossy` gives for `bytes`.
pub uninterp spec fn spec_utf8_lossy(bytes: Seq<u8>) -> Seq<char>;

/// The text of `bytes` with each invalid UTF-8 sequence replaced by U+FFFD
/// (`String::from_utf8_lossy`); valid UTF-8 is decoded as it is.
#[verifier::external_body]
pub(crate) fn utf8_lossy(bytes: &[u8]) -> (r: String)
    ensures
        r@ == spec_utf8_lossy(bytes@),
        vstd::utf8::valid_utf8(bytes@) ==> r@ == vstd::utf8::decode_utf8(bytes@),
{
    String::from_utf8_lossy(bytes).into_owned()
}

/// The labels of a question name starting at `pos`, and the index just past
/// its terminating zero.
pub open spec fn question_labels(d: Seq<u8>, pos: int) -> Result<(Seq<Seq<u8>>, int), QueryError>
    decreases d.len() - pos,
{
    if pos < 0 || pos >= d.len() {
        Err(QueryError::QuestionTruncated)
    } else if d[pos] == 0 {
        Ok((Seq::empty(), pos + 1))
    } else if pos + 1 + d[pos] > d.len() {
        Err(QueryError::LabelTruncated)
    } else {
        match question_labels(d, pos + 1 + d[pos]) {
            Ok((ls, end)) => Ok((seq![d.subrange(pos + 1, pos + 1 + d[pos])] + ls, end)),
            Err(e) => Err(e),
        }
    }
}

/// Texts joined by dots.
pub open spec fn join_dots(parts: Seq<Seq<char>>) -> Seq<char>
    decreases parts.len(),
{
    if parts.len() == 0 {
        Seq::empty()
    } else if parts.len() == 1 {
        parts[0]
    } else {
        join_dots(parts.drop_last()) + "."@ + parts.last()
    }
}

/// A question read from the bytes after the header: its name (labels read
/// as lossy UTF-8, joined by dots), its type, and the bytes it took.
pub open spec fn spec_parse_question(d: Seq<u8>) -> Result<(Seq<char>, u16, int), QueryError> {
    match question_labels(d, 0) {
        Err(e) => Err(e),
        Ok((labels, end)) => if end + 4 > d.len() {
            Err(QueryError::TypeClassTruncated)
        } else {
            Ok((
                join_dots(labels.map_values(|l: Seq<u8>| spec_utf8_lossy(l))),
                (d[end] as nat * 256 + d[end + 1] as nat) as u16,
                end + 4,
            ))
        },
    }
}

/// Reads the question (name, type, length) from the bytes after the header.
pub fn parse_question(data: &[u8]) -> (r: Result<(String, u16, usize), QueryError>)
    ensures
        match spec_parse_question(data@) {
            Ok((name, qtype, len)) => (r matches Ok((n, t, l)) && n@ == name && t == qtype && l == len),
            Err(e) => r == Err::<(String, u16, usize), QueryError>(e),
        },
{
    let mut labels: Vec<String> = Vec::new();
    let ghost raw: Seq<Seq<u8>> = Seq::empty();
    let mut pos: usize = 0;
    loop
        invariant_except_break
            pos <= data@.len(),
            question_labels(data@, 0) == match question_labels(data@, pos as int) {
                Ok((ls, end)) => Ok((raw + ls, end)),
                Err(e) => Err(e),
            },
            labels@.map_values(|s: String| s@) == raw.map_values(|l: Seq<u8>| spec_utf8_lossy(l)),
        ensures
            pos <= data@.len(),
            question_labels(data@, 0) == Ok::<(Seq<Seq<u8>>, int), QueryError>((raw, pos as int)),
            labels@.map_values(|s: String| s@) == raw.map_values(|l: Seq<u8>| spec_utf8_lossy(l)),
        decreases data@.len() - pos,
    {
        if pos >= data.len() {
            return Err(QueryError::QuestionTruncated);
        }
        let len = data[pos] as usize;
        if len == 0 {
            proof {
                assert(raw + Seq::<Seq<u8>>::empty() =~= raw);
            }
            pos = pos + 1;
            break ;
        }
        if len > data.len() - pos - 1 {
            return Err(QueryError::LabelTruncated);
        }
        let label_bytes = vstd::slice::slice_subrange(data, pos + 1, pos + 1 + len);
        let label = utf8_lossy(label_bytes);
        let ghost lb = data@.subrange(pos + 1, pos + 1 + len);
        let ghost old_labels = labels@;
        labels.push(label);
        proof {
            match question_labels(data@, pos + 1 + len) {
                Ok((ls, end)) => {
                    assert(raw + (seq![lb] + ls) =~= raw.push(lb) + ls);
                },
                Err(_) => {},
            }
            assert(labels@.map_values(|s: String| s@) =~= old_labels.map_values(|s: String| s@).push(
                label@,
            ));
            assert(raw.push(lb).map_values(|l: Seq<u8>| spec_utf8_lossy(l)) =~= raw.map_values(
                |l: Seq<u8>| spec_utf8_lossy(l),
            ).push(spec_utf8_lossy(lb)));
            raw = raw.push(lb);
        }
        pos = pos + 1 + len;
    }
    if data.len() < 4 || pos > data.len() - 4 {
        return Err(QueryError::TypeClassTruncated);
    }
    let qtype = (data[pos] as u16) * 256 + data[pos + 1] as u16;
    let name = join_labels(&labels);
    Ok((name, qtype, pos + 4))
}

/// The labels joined by dots.
fn join_labels(labels: &Vec<String>) -> (r: String)
    ensures
        r@ == join_dots(labels@.map_values(|s: String| s@)),
{
    let ghost parts = labels@.map_values(|s: String| s@);
    let mut out = String::new();
    let mut i: usize = 0;
    while i < labels.len()
        invariant
            i <= labels@.len(),
            parts == labels@.map_values(|s: String| s@),
            out@ == join_dots(parts.take(i as int)),
        decreases labels.len() - i,
    {
        if i > 0 {
            string_append(&mut out, ".");
        }
        string_append(&mut out, labels[i].as_str());
        proof {
            let t = parts.take(i as int + 1);
            assert(t.drop_last() =~= parts.take(i as int));
            assert(t.last() == labels@[i as int]@);
            if i == 0 {
                assert(t =~= seq![labels@[0]@]);
                assert(Seq::<char>::empty() + labels@[0]@ =~= labels@[0]@);
            }
        }
        i = i + 1;
    }
    assert(parts.take(labels@.len() as int) =~= parts);
    out
}

// ---------------------------------------------------------------------------
// Responses
// ---------------------------------------------------------------------------

/// Skips the labels of the question name from `pos` up to its zero byte
/// (or the end of the bytes).
pub open spec fn skip_labels(q: Seq<u8>, pos: int) -> int
    decreases (if 0 <= pos < q.len() {
        q.len() - pos
    } else {
        0
    }),
{
    if 0 <= pos < q.len() && q[pos] != 0 {
        skip_labels(q, pos + 1 + q[pos])
    } else {
        pos
    }
}

/// End of the question section of a query: its name, then type and class.
pub open spec fn question_end(q: Seq<u8>) -> int {
    skip_labels(q, 12) + 5
}

/// The question section as the query carries it.
pub open spec fn question_section(q: Seq<u8>) -> Seq<u8> {
    q.subrange(12, question_end(q))
}

/// A response header: id, flags, one question, `ancount` answers.
pub open spec fn response_header(id: u16, flags: Seq<u8>, ancount: u8) -> Seq<u8> {
    be_bytes(id as nat, 2) + flags + seq![0x00u8, 0x01, 0x00, ancount, 0x00, 0x00, 0x00, 0x00]
}

/// The record data of an address: its length, then its bytes, most
/// significant first (an IPv6 address as its high and low eight bytes).
pub open spec fn address_rdata(addr: IpAddress) -> Seq<u8> {
    match addr {
        IpAddress::V4(v) => be_bytes(4, 2) + be_bytes(v as nat, 4),
        IpAddress::V6(v) => be_bytes(16, 2) + be_bytes(v as nat / 0x1_0000_0000_0000_0000, 8)
            + be_bytes(v as nat % 0x1_0000_0000_0000_0000, 8),
    }
}

/// One answer naming `addr` for the question.
pub open spec fn spec_answer_response(id: u16, q: Seq<u8>, qtype: u16, addr: IpAddress, ttl: u32) -> Seq<
    u8,
> {
    response_header(id, seq![0x81u8, 0x80], 1) + question_section(q) + seq![0xc0u8, 0x0c] + be_bytes(
        qtype as nat,
        2,
    ) + seq![0x00u8, 0x01] + be_bytes(ttl as nat, 4) + address_rdata(addr)
}

/// A response with no answers and the question copied when it fits.
pub open spec fn spec_empty_response(id: u16, q: Seq<u8>, flags: Seq<u8>) -> Seq<u8> {
    response_header(id, flags, 0) + if question_end(q) <= q.len() {
        question_section(q)
    } else {
        Seq::empty()
    }
}

/// Where the question section of `query` ends.
fn question_end_exec(query: &[u8]) -> (r: u128)
    requires
        query@.len() >= 12,
    ensures
        r == question_end(query@),
        r >= 17,
{
    let len = query.len() as u128;
    let mut pos: u128 = 12;
    while pos < len && query[pos as usize] != 0
        invariant
            len == query@.len(),
            len <= usize::MAX,
            12 <= pos <= len + 256,
            skip_labels(query@, 12) == skip_labels(query@, pos as int),
        decreases len + 256 - pos,
    {
        pos = pos + 1 + query[pos as usize] as u128;
    }
    pos + 5
}

fn push_rdata(out: &mut Vec<u8>, addr: IpAddress)
    ensures
        final(out)@ == old(out)@ + address_rdata(addr),
{
    match addr {
        IpAddress::V4(v) => {
            push_be_bytes(out, 4, 2);
            push_be_bytes(out, v as u64, 4);
            assert(old(out)@ + be_bytes(4, 2) + be_bytes(v as nat, 4) =~= old(out)@ + address_rdata(addr));
        },
        IpAddress::V6(v) => {
            push_be_bytes(out, 16, 2);
            let hi = #[verifier::truncate] ((v >> 64u128) as u64);
            let lo = #[verifier::truncate] (v as u64);
            assert(hi == v / 0x1_0000_0000_0000_0000) by (bit_vector)
                requires
                    hi == (v >> 64u128) as u64,
            ;
            assert(lo == v % 0x1_0000_0000_0000_0000) by (bit_vector)
                requires
                    lo == v as u64,
            ;
            push_be_bytes(out, hi, 8);
            push_be_bytes(out, lo, 8);
            assert(old(out)@ + be_bytes(16, 2) + be_bytes(hi as nat, 8) + be_bytes(lo as nat, 8)
                =~= old(out)@ + address_rdata(addr));
        },
    }
}

/// Appends the question section of `query` (up to `end`).
fn push_question(out: &mut Vec<u8>, query: &[u8], end: usize)
    requires
        12 <= end <= query@.len(),
    ensures
        final(out)@ == old(out)@ + query@.subrange(12, end as int),
{
    out.extend_from_slice(vstd::slice::slice_subrange(query, 12, end));
}

/// The header of a response.
fn push_header(out: &mut Vec<u8>, id: u16, flags_lo: u8, ancount: u8)
    ensures
        final(out)@ == old(out)@ + response_header(id, seq![0x81u8, flags_lo], ancount),
{
    push_be_bytes(out, id as u64, 2);
    out.push(0x81u8);
    out.push(flags_lo);
    out.extend_from_slice(&[0x00u8, 0x01, 0x00]);
    out.push(ancount);
    out.extend_from_slice(&[0x00u8, 0x00, 0x00, 0x00]);
    assert(final(out)@ =~= old(out)@ + response_header(id, seq![0x81u8, flags_lo], ancount));
}

/// One A or AAAA answer for the query's question.
pub fn build_response(id: u16, query: &[u8], qtype: u16, addr: IpAddress, ttl_secs: u32) -> (r: Vec<u8>)
    requires
        query@.len() >= 12,
        question_end(query@) <= query@.len(),
    ensures
        r@ == spec_answer_response(id, query@, qtype, addr, ttl_secs),
{
    let qlen = query.len();
    let mut response: Vec<u8> = Vec::new();
    push_header(&mut response, id, 0x80, 1);
    let end = question_end_exec(query) as usize;
    push_question(&mut response, query, end);
    response.extend_from_slice(&[0xc0u8, 0x0c]);
    push_be_bytes(&mut response, qtype as u64, 2);
    response.extend_from_slice(&[0x00u8, 0x01]);
    push_be_bytes(&mut response, ttl_secs as u64, 4);
    push_rdata(&mut response, addr);
    assert(response@ =~= spec_answer_response(id, query@, qtype, addr, ttl_secs));
    response
}

/// A response with no answers and the given low flags byte.
fn build_empty(id: u16, query: &[u8], flags_lo: u8) -> (r: Vec<u8>)
    requires
        query@.len() >= 12,
    ensures
        r@ == spec_empty_response(id, query@, seq![0x81u8, flags_lo]),
{
    let mut response: Vec<u8> = Vec::new();
    push_header(&mut response, id, flags_lo, 0);
    let end = question_end_exec(query);
    if end <= query.len() as u128 {
        push_question(&mut response, query, end as usize);
    }
    assert(response@ =~= spec_empty_response(id, query@, seq![0x81u8, flags_lo]));
    response
}

/// NXDOMAIN: no such name.
pub fn build_nxdomain(id: u16, query: &[u8]) -> (r: Vec<u8>)
    requires
        query@.len() >= 12,
    ensures
        r@ == spec_empty_response(id, query@, seq![0x81u8, 0x83]),
{
    build_empty(id, query, 0x83)
}

/// NOERROR with no answers: the name exists without an address of the
/// asked family, and clients do not retry it.
pub fn build_noerror_empty(id: u16, query: &[u8]) -> (r: Vec<u8>)
    requires
        query@.len() >= 12,
    ensures
        r@ == spec_empty_response(id, query@, seq![0x81u8, 0x80]),
{
    build_empty(id, query, 0x80)
}

// ---------------------------------------------------------------------------
// Deciding on a query
// ---------------------------------------------------------------------------

/// What to do with a query.
#[derive(Debug, Clone, PartialEq, Eq)]
pub enum QueryPlan {
    /// Not an address query: forward it through the resolver as it is.
    Forward { id: u16, domain: String, qtype: u16 },
    /// An A or AAAA query: answer it from the hosts table or a lookup.
    Lookup { id: u16, domain: String, qtype: u16 },
}

/// The query's id (its first two bytes).
pub open spec fn query_id(q: Seq<u8>) -> u16 {
    (q[0] as nat * 256 + q[1] as nat) as u16
}

/// The query's question count.
pub open spec fn query_qdcount(q: Seq<u8>) -> nat {
    q[4] as nat * 256 + q[5] as nat
}

proof fn lemma_labels_end(q: Seq<u8>, pos: int)
    requires
        q.len() >= 12,
        pos >= 0,
    ensures
        question_labels(q.skip(12), pos) matches Ok((_, end)) ==> skip_labels(q, 12 + pos) == 12 + end - 1,
    decreases q.len() - 12 - pos,
{
    let d = q.skip(12);
    if pos < d.len() && d[pos] != 0 && pos + 1 + d[pos] <= d.len() {
        lemma_labels_end(q, pos + 1 + d[pos]);
        assert(q[12 + pos] == d[pos]);
    } else if pos < d.len() {
        assert(q[12 + pos] == d[pos]);
    }
}

/// Reads a query's header and question and decides how to answer it.
pub fn plan_query(data: &[u8]) -> (r: Result<QueryPlan, QueryError>)
    ensures
        data@.len() < 12 ==> r == Err::<QueryPlan, QueryError>(QueryError::TooShort),
        data@.len() >= 12 && query_qdcount(data@) == 0 ==> r == Err::<QueryPlan, QueryError>(
            QueryError::NoQuestion,
        ),
        data@.len() >= 12 && query_qdcount(data@) != 0 ==> match spec_parse_question(data@.skip(12)) {
            Err(e) => r == Err::<QueryPlan, QueryError>(e),
            Ok((name, qtype, _)) => if qtype == QTYPE_A || qtype == QTYPE_AAAA {
                (r matches Ok(QueryPlan::Lookup { id, domain, qtype: t }) && id == query_id(data@)
                    && domain@ == name && t == qtype && question_end(data@) <= data@.len())
            } else {
                (r matches Ok(QueryPlan::Forward { id, domain, qtype: t }) && id == query_id(data@)
                    && domain@ == name && t == qtype)
            },
        },
{
    if data.len() < 12 {
        return Err(QueryError::TooShort);
    }
    let id = (data[0] as u16) * 256 + data[1] as u16;
    let qdcount = (data[4] as u16) * 256 + data[5] as u16;
    if qdcount == 0 {
        return Err(QueryError::NoQuestion);
    }
    let rest = vstd::slice::slice_subrange(data, 12, data.len());
    assert(rest@ =~= data@.skip(12));
    match parse_question(rest) {
        Err(e) => Err(e),
        Ok((domain, qtype, _len)) => {
            if qtype != QTYPE_A && qtype != QTYPE_AAAA {
                Ok(QueryPlan::Forward { id, domain, qtype })
            } else {
                proof {
                    lemma_labels_end(data@, 0);
                }
                Ok(QueryPlan::Lookup { id, domain, qtype })
            }
        },
    }
}

/// The first address of the asked family (IPv4 for A, else IPv6).
pub open spec fn first_of_family(ips: Seq<IpAddress>, qtype: u16) -> Option<IpAddress>
    decreases ips.len(),
{
    if ips.len() == 0 {
        None
    } else if (qtype == QTYPE_A && ips[0] is V4) || (qtype != QTYPE_A && ips[0] is V6) {
        Some(ips[0])
    } else {
        first_of_family(ips.drop_first(), qtype)
    }
}

/// The answer from a hosts-table entry: its first address of the asked
/// family, else NOERROR without answers (never NXDOMAIN, which clients retry).
pub fn answer_from_hosts(id: u16, query: &[u8], qtype: u16, ips: &[IpAddress]) -> (r: Vec<u8>)
    requires
        query@.len() >= 12,
        question_end(query@) <= query@.len(),
    ensures
        r@ == match first_of_family(ips@, qtype) {
            Some(addr) => spec_answer_response(id, query@, qtype, addr, DEFAULT_ANSWER_TTL_SECS),
            None => spec_empty_response(id, query@, seq![0x81u8, 0x80]),
        },
{
    let mut i: usize = 0;
    assert(ips@.skip(0) =~= ips@);
    while i < ips.len()
        invariant
            i <= ips@.len(),
            query@.len() >= 12,
            question_end(query@) <= query@.len(),
            first_of_family(ips@, qtype) == first_of_family(ips@.skip(i as int), qtype),
        decreases ips.len() - i,
    {
        let ip = ips[i];
        let fits = match ip {
            IpAddress::V4(_) => qtype == QTYPE_A,
            IpAddress::V6(_) => qtype != QTYPE_A,
        };
        assert(ips@.skip(i as int)[0] == ip);
        if fits {
            return build_response(id, query, qtype, ip, DEFAULT_ANSWER_TTL_SECS);
        }
        assert(ips@.skip(i as int).drop_first() =~= ips@.skip(i as int + 1));
        i = i + 1;
    }
    build_noerror_empty(id, query)
}

/// The TTL of an answer: a fake address's own TTL in whole seconds,
/// clamped to 1..=u32::MAX; otherwise the default.
pub open spec fn answer_ttl(fake: bool, fake_ttl_secs: u64) -> u32 {
    if !fake {
        DEFAULT_ANSWER_TTL_SECS
    } else if fake_ttl_secs < 1 {
        1
    } else if fake_ttl_secs > u32::MAX {
        u32::MAX
    } else {
        fake_ttl_secs as u32
    }
}

/// The answer from a lookup. `fake` says whether the address came from the
/// fake-IP pool (in fake-IP mode); in fake-IP mode an AAAA query without an
/// address gets NOERROR without answers so clients fall back to IPv4,
/// otherwise no address is NXDOMAIN.
pub fn answer_from_lookup(
    id: u16,
    query: &[u8],
    qtype: u16,
    ip: Option<IpAddress>,
    fake_ip_mode: bool,
    fake: bool,
    fake_ttl_secs: u64,
) -> (r: Vec<u8>)
    requires
        query@.len() >= 12,
        question_end(query@) <= query@.len(),
    ensures
        r@ == match ip {
            Some(addr) => spec_answer_response(
                id,
                query@,
                qtype,
                addr,
                answer_ttl(fake_ip_mode && fake, fake_ttl_secs),
            ),
            None => if qtype == QTYPE_AAAA && fake_ip_mode {
                spec_empty_response(id, query@, seq![0x81u8, 0x80])
            } else {
                spec_empty_response(id, query@, seq![0x81u8, 0x83])
            },
        },
{
    let ttl: u32 = if fake_ip_mode && fake {
        if fake_ttl_secs < 1 {
            1
        } else if fake_ttl_secs > u32::MAX as u64 {
            u32::MAX
        } else {
            fake_ttl_secs as u32
        }
    } else {
        DEFAULT_ANSWER_TTL_SECS
    };
    match ip {
        Some(addr) => build_response(id, query, qtype, addr, ttl),
        None => if qtype == QTYPE_AAAA && fake_ip_mode {
            build_noerror_empty(id, query)
        } else {
            build_nxdomain(id, query)
        },
    }
}

/// The TTL field of an answer (the four bytes after the name pointer, the
/// type and the class) reads back as the TTL the answer was built with.
pub proof fn lemma_answer_ttl_field(id: u16, q: Seq<u8>, qtype: u16, addr: IpAddress, ttl: u32)
    ensures
        ({
            let r = spec_answer_response(id, q, qtype, addr, ttl);
            let off = (12 + question_section(q).len() + 6) as int;
            r.len() >= off + 4 && crate::bytes::be_value(r.subrange(off, off + 4)) == ttl
        }),
{
    let r = spec_answer_response(id, q, qtype, addr, ttl);
    let h = response_header(id, seq![0x81u8, 0x80], 1);
    let qs = question_section(q);
    crate::bytes::lemma_be_bytes_len(id as nat, 2);
    crate::bytes::lemma_be_bytes_len(qtype as nat, 2);
    crate::bytes::lemma_be_bytes_len(ttl as nat, 4);
    assert(h.len() == 12);
    let off = (12 + qs.len() + 6) as int;
    let pre = h + qs + seq![0xc0u8, 0x0c] + be_bytes(qtype as nat, 2) + seq![0x00u8, 0x01];
    assert(pre.len() == off);
    assert(r == pre + be_bytes(ttl as nat, 4) + address_rdata(addr));
    assert(r.subrange(off, off + 4) =~= be_bytes(ttl as nat, 4));
    crate::bytes::lemma_be_value_of_bytes(ttl as nat, 4);
    assert(pow256(4) == 0x1_0000_0000) by {
        reveal_with_fuel(crate::bytes::pow256, 5);
    }
}

/// A fake-IP answer carries the configured fake-IP TTL: the TTL field is
/// the configured number of seconds whenever it fits in the field, 1 for a
/// zero TTL and `u32::MAX` beyond; any other answer carries the default.
pub proof fn lemma_fake_answer_ttl(id: u16, q: Seq<u8>, qtype: u16, addr: IpAddress, fake: bool, secs: u64)
    ensures
        ({
            let r = spec_answer_response(id, q, qtype, addr, answer_ttl(fake, secs));
            let field = crate::bytes::be_value(
                r.subrange((12 + question_section(q).len() + 6) as int, (12 + question_section(q).len() + 10) as int),
            );
            &&& fake && 1 <= secs <= u32::MAX ==> field == secs
            &&& fake && secs == 0 ==> field == 1
            &&& fake && secs > u32::MAX ==> field == u32::MAX
            &&& !fake ==> field == DEFAULT_ANSWER_TTL_SECS
        }),
{
    lemma_answer_ttl_field(id, q, qtype, addr, answer_ttl(fake, secs));
}

} // verus!

//! simple-obfs client (HTTP and TLS modes): the bytes that disguise the first
//! request and response, and the state machines that frame a byte stream.

use vstd::prelude::*;
use vstd::string::StringSliceAdditionalSpecFns;
use vstd::utf8::encode_utf8;
use crate::bytes::{be_bytes, push_be_bytes};
use crate::text::{decimal, owned, push_decimal, string_append};

verus! {

/// Most bytes one TLS application-data record carries.
pub const TLS_CHUNK_SIZE: usize = 16384;

/// Bytes of the server's fake handshake skipped before the first record length.
pub const TLS_FIRST_RESPONSE_DISCARD: usize = 105;

/// Bytes of a record header (type and version) skipped before each later length.
pub const TLS_RECORD_HEADER_DISCARD: usize = 3;

/// Largest first-response header an HTTP-mode reader buffers.
pub const MAX_HTTP_HEADER: usize = 16384;

// ---------------------------------------------------------------------------
// Fake TLS ClientHello
// ---------------------------------------------------------------------------

pub open spec fn cipher_suites() -> Seq<u8> {
    seq![
        0xc0u8, 0x2c, 0xc0, 0x30, 0x00, 0x9f, 0xcc, 0xa9, 0xcc, 0xa8, 0xcc, 0xaa, 0xc0, 0x2b,
        0xc0, 0x2f, 0x00, 0x9e, 0xc0, 0x24, 0xc0, 0x28, 0x00, 0x6b, 0xc0, 0x23, 0xc0, 0x27,
        0x00, 0x67, 0xc0, 0x0a, 0xc0, 0x14, 0x00, 0x39, 0xc0, 0x09, 0xc0, 0x13, 0x00, 0x33,
        0x00, 0x9d, 0x00, 0x9c, 0x00, 0x3d, 0x00, 0x3c, 0x00, 0x35, 0x00, 0x2f, 0x00, 0xff,
    ]
}

/// ec_point_formats, supported_groups, signature_algorithms, encrypt_then_mac
/// and extended_master_secret extensions.
pub open spec fn trailing_extensions() -> Seq<u8> {
    seq![
        0x00u8, 0x0b, 0x00, 0x04, 0x03, 0x01, 0x00, 0x02, 0x00, 0x0a, 0x00, 0x0a, 0x00, 0x08,
        0x00, 0x1d, 0x00, 0x17, 0x00, 0x19, 0x00, 0x18, 0x00, 0x0d, 0x00, 0x20, 0x00, 0x1e,
        0x06, 0x01, 0x06, 0x02, 0x06, 0x03, 0x05, 0x01, 0x05, 0x02, 0x05, 0x03, 0x04, 0x01,
        0x04, 0x02, 0x04, 0x03, 0x03, 0x01, 0x03, 0x02, 0x03, 0x03, 0x02, 0x01, 0x02, 0x02,
        0x02, 0x03, 0x00, 0x16, 0x00, 0x00, 0x00, 0x17, 0x00, 0x00,
    ]
}

/// A fake TLS 1.2 ClientHello record carrying `data` in the SessionTicket
/// extension and `server` in the SNI extension; `now` is the timestamp of the
/// hello's random field, `random` its other 28 bytes.
pub open spec fn tls_client_hello(
    data: Seq<u8>,
    server: Seq<u8>,
    now: u32,
    random: Seq<u8>,
    session_id: Seq<u8>,
) -> Seq<u8> {
    let d = data.len();
    let s = server.len();
    seq![0x16u8, 0x03, 0x01] + be_bytes(212 + d + s, 2) + seq![0x01u8, 0x00] + be_bytes(
        208 + d + s,
        2,
    ) + seq![0x03u8, 0x03] + be_bytes(now as nat, 4) + random + seq![32u8] + session_id
        + seq![0x00u8, 0x38] + cipher_suites() + seq![0x01u8, 0x00] + be_bytes(79 + d + s, 2)
        + seq![0x00u8, 0x23] + be_bytes(d, 2) + data + seq![0x00u8, 0x00] + be_bytes(s + 5, 2)
        + be_bytes(s + 3, 2) + seq![0x00u8] + be_bytes(s, 2) + server + trailing_extensions()
}

/// The ClientHello for the given timestamp and random bytes.
pub fn client_hello_bytes(
    data: &[u8],
    server: &str,
    now: u32,
    random: &[u8],
    session_id: &[u8],
) -> (r: Vec<u8>)
    requires
        random@.len() == 28,
        session_id@.len() == 32,
        212 + data@.len() + server.spec_bytes().len() <= 0xFFFF,
    ensures
        r@ == tls_client_hello(data@, server.spec_bytes(), now, random@, session_id@),
{
    let sb = server.as_bytes();
    let d = data.len() as u64;
    let s = sb.len() as u64;
    let mut buf: Vec<u8> = Vec::new();
    buf.extend_from_slice(&[0x16u8, 0x03, 0x01]);
    push_be_bytes(&mut buf, 212 + d + s, 2);
    buf.extend_from_slice(&[0x01u8, 0x00]);
    push_be_bytes(&mut buf, 208 + d + s, 2);
    buf.extend_from_slice(&[0x03u8, 0x03]);
    push_be_bytes(&mut buf, now as u64, 4);
    buf.extend_from_slice(random);
    buf.push(32u8);
    buf.extend_from_slice(session_id);
    buf.extend_from_slice(&[0x00u8, 0x38]);
    buf.extend_from_slice(
        &[
            0xc0u8, 0x2c, 0xc0, 0x30, 0x00, 0x9f, 0xcc, 0xa9, 0xcc, 0xa8, 0xcc, 0xaa, 0xc0, 0x2b,
            0xc0, 0x2f, 0x00, 0x9e, 0xc0, 0x24, 0xc0, 0x28, 0x00, 0x6b, 0xc0, 0x23, 0xc0, 0x27,
            0x00, 0x67, 0xc0, 0x0a, 0xc0, 0x14, 0x00, 0x39, 0xc0, 0x09, 0xc0, 0x13, 0x00, 0x33,
            0x00, 0x9d, 0x00, 0x9c, 0x00, 0x3d, 0x00, 0x3c, 0x00, 0x35, 0x00, 0x2f, 0x00, 0xff,
        ],
    );
    buf.extend_from_slice(&[0x01u8, 0x00]);
    push_be_bytes(&mut buf, 79 + d + s, 2);
    buf.extend_from_slice(&[0x00u8, 0x23]);
    push_be_bytes(&mut buf, d, 2);
    buf.extend_from_slice(data);
    buf.extend_from_slice(&[0x00u8, 0x00]);
    push_be_bytes(&mut buf, s + 5, 2);
    push_be_bytes(&mut buf, s + 3, 2);
    buf.push(0x00u8);
    push_be_bytes(&mut buf, s, 2);
    buf.extend_from_slice(sb);
    buf.extend_from_slice(
        &[
            0x00u8, 0x0b, 0x00, 0x04, 0x03, 0x01, 0x00, 0x02, 0x00, 0x0a, 0x00, 0x0a, 0x00, 0x08,
            0x00, 0x1d, 0x00, 0x17, 0x00, 0x19, 0x00, 0x18, 0x00, 0x0d, 0x00, 0x20, 0x00, 0x1e,
            0x06, 0x01, 0x06, 0x02, 0x06, 0x03, 0x05, 0x01, 0x05, 0x02, 0x05, 0x03, 0x04, 0x01,
            0x04, 0x02, 0x04, 0x03, 0x03, 0x01, 0x03, 0x02, 0x03, 0x03, 0x02, 0x01, 0x02, 0x02,
            0x02, 0x03, 0x00, 0x16, 0x00, 0x00, 0x00, 0x17, 0x00, 0x00,
        ],
    );
    assert(buf@ =~= tls_client_hello(data@, server.spec_bytes(), now, random@, session_id@));
    buf
}


// ---------------------------------------------------------------------------
// Randomness, time and encoding from outside the library
// ---------------------------------------------------------------------------

/// `n` bytes from the thread-local generator (`rand::rng().fill_bytes`);
/// nothing is promised of their values.
#[verifier::external_body]
fn random_bytes(n: usize) -> (r: Vec<u8>)
    ensures
        r@.len() == n,
{
    let mut v = vec![0u8; n];
    rand::RngCore::fill_bytes(&mut rand::rng(), &mut v);
    v
}

/// A number from the thread-local generator (`RngCore::next_u32`); nothing is
/// promised of it.
#[verifier::external_body]
fn random_u32() -> u32 {
    rand::RngCore::next_u32(&mut rand::rng())
}

/// Whole seconds since the Unix epoch by the system clock
/// (`SystemTime::now().duration_since(UNIX_EPOCH)`), or `None` when the clock
/// reads earlier; nothing is promised of the value.
#[verifier::external_body]
fn unix_time_secs() -> Option<u64> {
    match std::time::SystemTime::now().duration_since(std::time::UNIX_EPOCH) {
        Ok(d) => Some(d.as_secs()),
        Err(_) => None,
    }
}

/// Character of a six-bit value in the URL-safe base64 alphabet.
pub open spec fn base64_url_char(v: nat) -> char {
    if v < 26 {
        (65 + v) as char
    } else if v < 52 {
        (97 + v - 26) as char
    } else if v < 62 {
        (48 + v - 52) as char
    } else if v == 62 {
        '-'
    } else {
        '_'
    }
}

/// RFC 4648 §5 base64 with the URL-safe alphabet and `=` padding.
pub open spec fn spec_base64_url_safe(s: Seq<u8>) -> Seq<char>
    decreases s.len(),
{
    if s.len() == 0 {
        Seq::empty()
    } else if s.len() == 1 {
        seq![base64_url_char(s[0] as nat / 4), base64_url_char((s[0] as nat % 4) * 16), '=', '=']
    } else if s.len() == 2 {
        seq![
            base64_url_char(s[0] as nat / 4),
            base64_url_char((s[0] as nat % 4) * 16 + s[1] as nat / 16),
            base64_url_char((s[1] as nat % 16) * 4),
            '=',
        ]
    } else {
        seq![
            base64_url_char(s[0] as nat / 4),
            base64_url_char((s[0] as nat % 4) * 16 + s[1] as nat / 16),
            base64_url_char((s[1] as nat % 16) * 4 + s[2] as nat / 64),
            base64_url_char(s[2] as nat % 64),
        ] + spec_base64_url_safe(s.skip(3))
    }
}

/// Base64 text of `bytes` (`base64::engine::general_purpose::URL_SAFE.encode`):
/// the URL-safe alphabet with `=` padding.
#[verifier::external_body]
fn base64_url_safe(bytes: &[u8]) -> (r: String)
    ensures
        r@ == spec_base64_url_safe(bytes@),
{
    base64::Engine::encode(&base64::engine::general_purpose::URL_SAFE, bytes)
}

/// A ClientHello stamped with the system clock and fresh random bytes.
pub fn build_client_hello(data: &[u8], server: &str) -> (r: Vec<u8>)
    requires
        212 + data@.len() + server.spec_bytes().len() <= 0xFFFF,
    ensures
        exists|now: u32, random: Seq<u8>, session_id: Seq<u8>|
            random.len() == 28 && session_id.len() == 32 && r@ == tls_client_hello(
                data@,
                server.spec_bytes(),
                now,
                random,
                session_id,
            ),
{
    let random = random_bytes(28);
    let session_id = random_bytes(32);
    let now: u32 = match unix_time_secs() {
        Some(secs) => (secs % 0x1_0000_0000) as u32,
        None => 0,
    };
    client_hello_bytes(data, server, now, &random, &session_id)
}

// ---------------------------------------------------------------------------
// Fake HTTP upgrade request
// ---------------------------------------------------------------------------

/// The `Host` header: the host alone on port 80, else `host:port`.
pub open spec fn http_host_header(host: Seq<char>, port: u16) -> Seq<char> {
    if port == 80 {
        host
    } else {
        host + ":"@ + decimal(port as nat)
    }
}

/// Head of the fake WebSocket upgrade request.
pub open spec fn http_request_head(
    host: Seq<char>,
    port: u16,
    key: Seq<char>,
    ua_major: nat,
    ua_minor: nat,
    body_len: nat,
) -> Seq<char> {
    "GET / HTTP/1.1\r\nHost: "@ + http_host_header(host, port) + "\r\nUser-Agent: curl/7."@
        + decimal(ua_major) + "."@ + decimal(ua_minor)
        + "\r\nUpgrade: websocket\r\nConnection: Upgrade\r\nSec-WebSocket-Key: "@ + key
        + "\r\nContent-Length: "@ + decimal(body_len) + "\r\n\r\n"@
}

/// The request bytes: the UTF-8 head followed by the body.
pub open spec fn http_request(
    host: Seq<char>,
    port: u16,
    body: Seq<u8>,
    key: Seq<char>,
    ua_major: nat,
    ua_minor: nat,
) -> Seq<u8> {
    encode_utf8(http_request_head(host, port, key, ua_major, ua_minor, body.len())) + body
}

/// The request for a given WebSocket key and User-Agent version.
pub fn http_request_bytes(
    host: &str,
    port: u16,
    body: &[u8],
    key: &str,
    ua_major: u32,
    ua_minor: u32,
) -> (r: Vec<u8>)
    ensures
        r@ == http_request(host@, port, body@, key@, ua_major as nat, ua_minor as nat),
{
    let mut head = owned("GET / HTTP/1.1\r\nHost: ");
    string_append(&mut head, host);
    if port != 80 {
        string_append(&mut head, ":");
        push_decimal(&mut head, port as u64);
    }
    string_append(&mut head, "\r\nUser-Agent: curl/7.");
    push_decimal(&mut head, ua_major as u64);
    string_append(&mut head, ".");
    push_decimal(&mut head, ua_minor as u64);
    string_append(&mut head, "\r\nUpgrade: websocket\r\nConnection: Upgrade\r\nSec-WebSocket-Key: ");
    string_append(&mut head, key);
    string_append(&mut head, "\r\nContent-Length: ");
    push_decimal(&mut head, body.len() as u64);
    string_append(&mut head, "\r\n\r\n");
    assert(head@ =~= http_request_head(host@, port, key@, ua_major as nat, ua_minor as nat, body@.len()));
    let mut req: Vec<u8> = Vec::new();
    req.extend_from_slice(head.as_str().as_bytes());
    req.extend_from_slice(body);
    req
}

/// `bytes` is the request for `host`, `port` and `body` with some WebSocket key
/// made of 16 bytes and some curl version `7.M.m` with `M < 54`, `m < 2`.
pub open spec fn is_http_request_for(bytes: Seq<u8>, host: Seq<char>, port: u16, body: Seq<u8>) -> bool {
    exists|key_bytes: Seq<u8>, ua_major: nat, ua_minor: nat|
        key_bytes.len() == 16 && ua_major < 54 && ua_minor < 2 && bytes == http_request(
            host,
            port,
            body,
            spec_base64_url_safe(key_bytes),
            ua_major,
            ua_minor,
        )
}

/// The request with a fresh random WebSocket key (16 random bytes in base64)
/// and a random curl version `7.M.m` with `M < 54`, `m < 2`.
pub fn build_http_request(host: &str, port: u16, body: &[u8]) -> (r: Vec<u8>)
    ensures
        is_http_request_for(r@, host@, port, body@),
{
    let key_bytes = random_bytes(16);
    let key = base64_url_safe(&key_bytes);
    let ua_major = random_u32() % 54;
    let ua_minor = random_u32() % 2;
    let r = http_request_bytes(host, port, body, key.as_str(), ua_major, ua_minor);
    assert(key_bytes@.len() == 16 && ua_major < 54 && ua_minor < 2 && r@ == http_request(
        host@,
        port,
        body@,
        spec_base64_url_safe(key_bytes@),
        ua_major as nat,
        ua_minor as nat,
    ));
    r
}

/// A CR LF CR LF sequence starts at `i` in `data`.
pub open spec fn double_crlf_at(data: Seq<u8>, i: int) -> bool {
    0 <= i && i + 4 <= data.len() && data[i] == 13 && data[i + 1] == 10 && data[i + 2] == 13
        && data[i + 3] == 10
}

/// Index of the first CR LF CR LF in `data`.
#[verifier::opaque]
pub open spec fn first_double_crlf(data: Seq<u8>) -> Option<int> {
    if exists|i: int| double_crlf_at(data, i) {
        Some(choose|i: int| double_crlf_at(data, i) && forall|j: int| 0 <= j < i ==> !double_crlf_at(data, j))
    } else {
        None
    }
}

pub proof fn lemma_first_double_crlf(data: Seq<u8>, k: int)
    requires
        double_crlf_at(data, k),
        forall|j: int| 0 <= j < k ==> !double_crlf_at(data, j),
    ensures
        first_double_crlf(data) == Some(k),
{
    reveal(first_double_crlf);
    let c = choose|i: int| double_crlf_at(data, i) && forall|j: int| 0 <= j < i ==> !double_crlf_at(data, j);
    assert(double_crlf_at(data, c) && forall|j: int| 0 <= j < c ==> !double_crlf_at(data, j));
    if c < k {
    } else if c > k {
    }
}

/// Index of the first CR LF CR LF in `data` (the end of an HTTP header).
pub fn find_double_crlf(data: &[u8]) -> (r: Option<usize>)
    ensures
        match first_double_crlf(data@) {
            Some(i) => r is Some && r->0 == i,
            None => r is None,
        },
        r matches Some(i) ==> double_crlf_at(data@, i as int),
{
    if data.len() < 4 {
        assert(forall|i: int| !double_crlf_at(data@, i));
        reveal(first_double_crlf);
        return None;
    }
    let mut i: usize = 0;
    while i <= data.len() - 4
        invariant
            4 <= data.len(),
            i <= data.len() - 3,
            forall|j: int| 0 <= j < i ==> !double_crlf_at(data@, j),
        decreases data.len() - i,
    {
        if data[i] == 13 && data[i + 1] == 10 && data[i + 2] == 13 && data[i + 3] == 10 {
            proof {
                lemma_first_double_crlf(data@, i as int);
            }
            return Some(i);
        }
        i = i + 1;
    }
    assert(forall|j: int| !double_crlf_at(data@, j));
    reveal(first_double_crlf);
    None
}


// ---------------------------------------------------------------------------
// Framed bytes waiting to be written
// ---------------------------------------------------------------------------

/// Bytes framed by the first (or a TLS) write and not yet accepted by the
/// inner stream, with the input length to report once they are.
pub struct PendingWrite {
    buf: Vec<u8>,
    off: usize,
    pending_input: usize,
}

/// What one inner write did to the pending bytes.
#[derive(Debug, Clone, Copy, PartialEq, Eq, Structural)]
pub enum DrainStep {
    /// The inner stream accepted nothing: an error.
    WriteZero,
    /// Bytes remain.
    More,
    /// Everything has been written.
    Done,
}

impl PendingWrite {
    /// Well-formedness: an offset inside the buffer while bytes remain.
    pub closed spec fn wf(&self) -> bool {
        &&& self.off <= self.buf@.len()
        &&& self.buf@.len() > 0 ==> self.off < self.buf@.len()
        &&& self.buf@.len() == 0 ==> self.off == 0
    }

    /// Bytes still to be written.
    pub closed spec fn unsent_bytes(&self) -> Seq<u8> {
        self.buf@.skip(self.off as int)
    }

    /// Input length reported when the bytes are written.
    pub closed spec fn pending(&self) -> nat {
        self.pending_input as nat
    }

    pub fn new() -> (r: PendingWrite)
        ensures
            r.unsent_bytes() == Seq::<u8>::empty(),
            r.pending() == 0,
            r.wf(),
    {
        PendingWrite { buf: Vec::new(), off: 0, pending_input: 0 }
    }

    /// Nothing is waiting.
    pub fn is_idle(&self) -> (r: bool)
        requires
            self.wf(),
        ensures
            r == (self.unsent_bytes().len() == 0),
    {
        self.buf.len() == 0
    }

    /// The bytes still to be written.
    pub fn unsent(&self) -> (r: &[u8])
        requires
            self.wf(),
        ensures
            r@ == self.unsent_bytes(),
    {
        &self.buf[self.off..self.buf.len()]
    }

    /// Queues `bytes`, reporting `consumed` input once they are written.
    pub fn start(&mut self, bytes: Vec<u8>, consumed: usize)
        requires
            old(self).unsent_bytes().len() == 0,
            bytes@.len() > 0,
        ensures
            final(self).wf(),
            final(self).unsent_bytes() == bytes@,
            final(self).pending() == consumed,
    {
        self.buf = bytes;
        self.off = 0;
        self.pending_input = consumed;
        assert(self.buf@.skip(0) =~= self.buf@);
    }

    /// Records that the inner stream accepted `n` of the unsent bytes.
    pub fn record_written(&mut self, n: usize) -> (r: DrainStep)
        requires
            old(self).wf(),
            n <= old(self).unsent_bytes().len(),
            old(self).unsent_bytes().len() > 0,
        ensures
            final(self).wf(),
            final(self).pending() == old(self).pending(),
            n == 0 ==> r == DrainStep::WriteZero && final(self).unsent_bytes() == old(self).unsent_bytes(),
            n > 0 ==> final(self).unsent_bytes() == old(self).unsent_bytes().skip(n as int),
            n > 0 ==> (r == DrainStep::Done <==> final(self).unsent_bytes().len() == 0),
            n > 0 ==> r != DrainStep::WriteZero,
    {
        if n == 0 {
            return DrainStep::WriteZero;
        }
        let ghost before = self.buf@.skip(self.off as int);
        let len = self.buf.len();
        assert(self.off + n <= len);
        let new_off = self.off + n;
        if new_off >= len {
            let mut empty: Vec<u8> = Vec::new();
            std::mem::swap(&mut empty, &mut self.buf);
            self.off = 0;
            assert(before.skip(n as int) =~= Seq::<u8>::empty());
            assert(self.buf@.skip(0) =~= Seq::<u8>::empty());
            DrainStep::Done
        } else {
            self.off = new_off;
            assert(self.buf@.skip(new_off as int) =~= before.skip(n as int));
            DrainStep::More
        }
    }

    /// The input length to report, which is then cleared.
    pub fn take_pending(&mut self) -> (r: usize)
        requires
            old(self).wf(),
        ensures
            final(self).wf(),
            r == old(self).pending(),
            final(self).pending() == 0,
            final(self).unsent_bytes() == old(self).unsent_bytes(),
    {
        let r = self.pending_input;
        self.pending_input = 0;
        r
    }
}

// ---------------------------------------------------------------------------
// HTTP mode
// ---------------------------------------------------------------------------

/// The smaller of two integers.
pub open spec fn min_int(a: int, b: int) -> int {
    if a < b {
        a
    } else {
        b
    }
}

/// What a write call should do.
#[derive(Debug, Clone, Copy, PartialEq, Eq, Structural)]
pub enum WritePlan {
    /// Earlier framed bytes are still pending: write them, then report their input length.
    ResumeDrain,
    /// The input has just been framed: write it, then report its length.
    Drain,
    /// Hand the input to the inner stream unchanged.
    Passthrough,
    /// The input is empty: report 0.
    Nothing,
}

/// What the first response's bytes gave.
pub enum HeaderStep {
    /// The stream ended before the header did.
    Eof,
    /// The header has not ended yet.
    NeedMore,
    /// The header grew beyond its limit.
    TooLarge,
    /// The header ended; these body bytes go to the reader.
    Deliver(Vec<u8>),
}

/// Strips the first response's HTTP header: buffers what is read until
/// CR LF CR LF, then hands out the body bytes that followed it.
pub struct HeaderStripper {
    ended: bool,
    scratch: Vec<u8>,
    leftover: Vec<u8>,
    leftover_off: usize,
    /// Every byte read before the header ended, and the read that ended it.
    received: Ghost<Seq<u8>>,
    /// Every body byte handed out so far.
    delivered: Ghost<Seq<u8>>,
}

impl HeaderStripper {
    /// Before the header ends everything read is buffered and nothing was
    /// handed out; after, what was handed out and what is buffered make up
    /// the response after its header.
    pub closed spec fn wf(&self) -> bool {
        &&& self.leftover_off <= self.leftover@.len()
        &&& !self.ended ==> {
            &&& self.scratch@ == self.received@
            &&& first_double_crlf(self.received@) is None
            &&& self.delivered@ == Seq::<u8>::empty()
            &&& self.leftover@.len() == 0
        }
        &&& self.ended ==> {
            &&& first_double_crlf(self.received@) is Some
            &&& self.delivered@ + self.leftover@.skip(self.leftover_off as int) == self.received@.skip(
                first_double_crlf(self.received@).unwrap() + 4,
            )
        }
    }

    /// The header has ended.
    pub closed spec fn header_ended(&self) -> bool {
        self.ended
    }

    /// Response bytes read so far (up to the read that ended the header).
    pub closed spec fn received(&self) -> Seq<u8> {
        self.received@
    }

    /// Body bytes handed out so far.
    pub closed spec fn delivered(&self) -> Seq<u8> {
        self.delivered@
    }

    /// Body bytes read and not yet handed out.
    pub closed spec fn leftover(&self) -> Seq<u8> {
        self.leftover@.skip(self.leftover_off as int)
    }

    pub fn new() -> (r: HeaderStripper)
        ensures
            r.wf(),
            !r.header_ended(),
            r.received() == Seq::<u8>::empty(),
            r.delivered() == Seq::<u8>::empty(),
            r.leftover() == Seq::<u8>::empty(),
    {
        let r = HeaderStripper {
            ended: false,
            scratch: Vec::new(),
            leftover: Vec::new(),
            leftover_off: 0,
            received: Ghost(Seq::empty()),
            delivered: Ghost(Seq::empty()),
        };
        assert(forall|i: int| !double_crlf_at(Seq::<u8>::empty(), i));
        reveal(first_double_crlf);
        assert(r.leftover@.skip(0) =~= Seq::<u8>::empty());
        r
    }

    /// The header has ended.
    pub fn is_ended(&self) -> (r: bool)
        ensures
            r == self.header_ended(),
    {
        self.ended
    }

    /// Hands out up to `room` leftover body bytes, if any remain.
    pub fn take_leftover(&mut self, room: usize) -> (r: Option<Vec<u8>>)
        requires
            old(self).wf(),
        ensures
            final(self).wf(),
            final(self).header_ended() == old(self).header_ended(),
            final(self).received() == old(self).received(),
            old(self).leftover().len() == 0 ==> r is None && *final(self) == *old(self),
            old(self).leftover().len() > 0 ==> (r matches Some(out) && out@ == old(self).leftover().take(
                min_int(room as int, old(self).leftover().len() as int),
            ) && final(self).leftover() == old(self).leftover().skip(out@.len() as int)
                && final(self).delivered() == old(self).delivered() + out@),
    {
        if self.leftover_off >= self.leftover.len() {
            return None;
        }
        let avail = self.leftover.len() - self.leftover_off;
        let take = if room < avail {
            room
        } else {
            avail
        };
        let end = self.leftover_off + take;
        let mut out: Vec<u8> = Vec::new();
        out.extend_from_slice(&self.leftover[self.leftover_off..end]);
        let ghost old_rest = self.leftover@.skip(self.leftover_off as int);
        assert(out@ =~= old_rest.take(take as int));
        let ghost old_delivered = self.delivered@;
        let ghost new_delivered = self.delivered@ + out@;
        if end >= self.leftover.len() {
            self.leftover = Vec::new();
            self.leftover_off = 0;
            self.delivered = Ghost(new_delivered);
            assert(old_rest.skip(take as int) =~= Seq::<u8>::empty());
            assert(self.leftover@.skip(0) =~= Seq::<u8>::empty());
            assert(old_rest =~= out@ + Seq::<u8>::empty());
        } else {
            self.leftover_off = end;
            self.delivered = Ghost(new_delivered);
            assert(self.leftover@.skip(end as int) =~= old_rest.skip(take as int));
            assert(old_rest =~= out@ + old_rest.skip(take as int));
        }
        assert(self.delivered@ + self.leftover@.skip(self.leftover_off as int) =~= old_delivered
            + old_rest);
        Some(out)
    }

    /// Feeds bytes read while the header has not ended; `room` is what the
    /// reader can take now. Empty input means the stream ended.
    pub fn feed(&mut self, data: &[u8], room: usize) -> (r: HeaderStep)
        requires
            old(self).wf(),
            !old(self).header_ended(),
        ensures
            final(self).wf(),
            data@.len() == 0 ==> r is Eof && *final(self) == *old(self),
            data@.len() > 0 ==> final(self).received() == old(self).received() + data@,
            data@.len() > 0 ==> (match first_double_crlf(final(self).received()) {
                Some(h) => r matches HeaderStep::Deliver(out) && final(self).header_ended()
                    && out@ == final(self).received().skip(h + 4).take(
                    min_int(room as int, final(self).received().len() - (h + 4)),
                ) && final(self).delivered() == out@ && final(self).leftover()
                    == final(self).received().skip(h + 4).skip(out@.len() as int),
                None => !final(self).header_ended() && (if final(self).received().len()
                    > MAX_HTTP_HEADER {
                    r is TooLarge
                } else {
                    r is NeedMore
                }),
            }),
    {
        if data.len() == 0 {
            return HeaderStep::Eof;
        }
        let ghost received = self.received@ + data@;
        self.scratch.extend_from_slice(data);
        self.received = Ghost(received);
        assert(self.scratch@ =~= received);
        let found = find_double_crlf(&self.scratch);
        match found {
            Some(idx) => {
                assert(first_double_crlf(received) == Some(idx as int));
                let n = self.scratch.len();
                let body_start = idx + 4;
                let body_len = n - body_start;
                let take = if room < body_len {
                    room
                } else {
                    body_len
                };
                let mut out: Vec<u8> = Vec::new();
                out.extend_from_slice(&self.scratch[body_start..body_start + take]);
                let mut rest: Vec<u8> = Vec::new();
                rest.extend_from_slice(&self.scratch[body_start + take..n]);
                let ghost body = received.skip(body_start as int);
                assert(out@ =~= body.take(take as int));
                assert(rest@ =~= body.skip(take as int));
                self.ended = true;
                self.leftover = rest;
                self.leftover_off = 0;
                self.delivered = Ghost(out@);
                self.scratch = Vec::new();
                assert(self.leftover@.skip(0) =~= rest@);
                assert(out@ + rest@ =~= body);
                HeaderStep::Deliver(out)
            },
            None => {
                if self.scratch.len() > MAX_HTTP_HEADER {
                    HeaderStep::TooLarge
                } else {
                    HeaderStep::NeedMore
                }
            },
        }
    }

    /// Once the header has ended, what was handed out followed by what is
    /// still buffered is exactly the response after its header; before, no
    /// CR LF CR LF has been read and nothing was handed out.
    pub proof fn lemma_header_stripped(&self)
        requires
            self.wf(),
        ensures
            self.header_ended() ==> (first_double_crlf(self.received()) matches Some(h)
                && self.delivered() + self.leftover() == self.received().skip(h + 4)),
            !self.header_ended() ==> first_double_crlf(self.received()) is None
                && self.delivered() == Seq::<u8>::empty(),
    {
    }
}

/// HTTP simple-obfs client: the first write travels as the body of a fake
/// WebSocket upgrade request; the first response's header is stripped; after
/// that both directions pass through.
pub struct HttpObfs<S> {
    inner: S,
    host: String,
    port: u16,
    first_request: bool,
    write: PendingWrite,
    response: HeaderStripper,
}

impl<S> HttpObfs<S> {
    pub closed spec fn wf(&self) -> bool {
        self.write.wf() && self.response.wf()
    }

    pub closed spec fn spec_host(&self) -> Seq<char> {
        self.host@
    }

    pub closed spec fn spec_port(&self) -> u16 {
        self.port
    }

    /// The first write has not happened yet.
    pub closed spec fn spec_first_request(&self) -> bool {
        self.first_request
    }

    /// The framed bytes waiting to be written.
    pub closed spec fn spec_write(&self) -> PendingWrite {
        self.write
    }

    /// The first response's header stripping.
    pub closed spec fn spec_response(&self) -> HeaderStripper {
        self.response
    }

    /// Wraps `inner`, announcing `host` (and `port`) in the fake request.
    pub fn new(inner: S, host: String, port: u16) -> (r: Self)
        ensures
            r.wf(),
            r.spec_host() == host@,
            r.spec_port() == port,
            r.spec_first_request(),
            r.spec_write().unsent_bytes().len() == 0,
            r.spec_write().pending() == 0,
            !r.spec_response().header_ended(),
            r.spec_response().received() == Seq::<u8>::empty(),
            r.spec_response().delivered() == Seq::<u8>::empty(),
    {
        HttpObfs {
            inner,
            host,
            port,
            first_request: true,
            write: PendingWrite::new(),
            response: HeaderStripper::new(),
        }
    }

    /// The wrapped stream.
    pub closed spec fn spec_inner(&self) -> S {
        self.inner
    }

    /// The wrapped stream, to read from or write to; nothing else changes.
    pub fn inner_mut(&mut self) -> (r: &mut S)
        ensures
            *r == old(self).spec_inner(),
            final(self).spec_inner() == *final(r),
            final(self).wf() == old(self).wf(),
            final(self).spec_host() == old(self).spec_host(),
            final(self).spec_port() == old(self).spec_port(),
            final(self).spec_first_request() == old(self).spec_first_request(),
            final(self).spec_write() == old(self).spec_write(),
            final(self).spec_response() == old(self).spec_response(),
    {
        &mut self.inner
    }

    /// Framed bytes still to be written to the inner stream.
    pub fn unsent(&self) -> (r: &[u8])
        requires
            self.wf(),
        ensures
            r@ == self.spec_write().unsent_bytes(),
    {
        self.write.unsent()
    }

    /// Records an inner write of `n` framed bytes.
    pub fn record_written(&mut self, n: usize) -> (r: DrainStep)
        requires
            old(self).wf(),
            n <= old(self).spec_write().unsent_bytes().len(),
            old(self).spec_write().unsent_bytes().len() > 0,
        ensures
            final(self).wf(),
            final(self).spec_write().pending() == old(self).spec_write().pending(),
            n == 0 ==> r == DrainStep::WriteZero && final(self).spec_write().unsent_bytes()
                == old(self).spec_write().unsent_bytes(),
            n > 0 ==> final(self).spec_write().unsent_bytes() == old(self).spec_write().unsent_bytes().skip(
                n as int,
            ),
            n > 0 ==> (r == DrainStep::Done <==> final(self).spec_write().unsent_bytes().len() == 0),
            n > 0 ==> r != DrainStep::WriteZero,
            final(self).spec_first_request() == old(self).spec_first_request(),
            final(self).spec_response() == old(self).spec_response(),
    {
        self.write.record_written(n)
    }

    /// Input length to report once the framed bytes are written; cleared.
    pub fn take_pending(&mut self) -> (r: usize)
        requires
            old(self).wf(),
        ensures
            final(self).wf(),
            r == old(self).spec_write().pending(),
            final(self).spec_write().pending() == 0,
            final(self).spec_write().unsent_bytes() == old(self).spec_write().unsent_bytes(),
            final(self).spec_first_request() == old(self).spec_first_request(),
            final(self).spec_response() == old(self).spec_response(),
    {
        self.write.take_pending()
    }

    /// The fake request for a first write of `body` (fresh random key).
    pub fn build_request(&self, body: &[u8]) -> (r: Vec<u8>)
        ensures
            is_http_request_for(r@, self.spec_host(), self.spec_port(), body@),
    {
        build_http_request(self.host.as_str(), self.port, body)
    }

    /// Decides a write of `buf`: finish earlier pending bytes, frame the very
    /// first write as a request, or pass through.
    pub fn begin_write(&mut self, buf: &[u8]) -> (r: WritePlan)
        requires
            old(self).wf(),
        ensures
            final(self).wf(),
            final(self).spec_host() == old(self).spec_host(),
            final(self).spec_port() == old(self).spec_port(),
            final(self).spec_response() == old(self).spec_response(),
            old(self).spec_write().unsent_bytes().len() > 0 ==> r == WritePlan::ResumeDrain
                && final(self).spec_write() == old(self).spec_write()
                && final(self).spec_first_request() == old(self).spec_first_request(),
            old(self).spec_write().unsent_bytes().len() == 0 && old(self).spec_first_request() ==> r
                == WritePlan::Drain && !final(self).spec_first_request()
                && final(self).spec_write().pending() == buf@.len() && is_http_request_for(
                final(self).spec_write().unsent_bytes(),
                old(self).spec_host(),
                old(self).spec_port(),
                buf@,
            ),
            old(self).spec_write().unsent_bytes().len() == 0 && !old(self).spec_first_request() ==> r
                == WritePlan::Passthrough && final(self).spec_write() == old(self).spec_write()
                && !final(self).spec_first_request(),
    {
        if !self.write.is_idle() {
            return WritePlan::ResumeDrain;
        }
        if self.first_request {
            self.first_request = false;
            let req = self.build_request(buf);
            proof {
                lemma_http_request_nonempty(req@, self.host@, self.port, buf@);
            }
            self.write.start(req, buf.len());
            WritePlan::Drain
        } else {
            WritePlan::Passthrough
        }
    }

    /// Hands out up to `room` bytes of the first response's body left over
    /// from an earlier read, if any remain.
    pub fn take_leftover(&mut self, room: usize) -> (r: Option<Vec<u8>>)
        requires
            old(self).wf(),
        ensures
            final(self).wf(),
            final(self).spec_write() == old(self).spec_write(),
            final(self).spec_first_request() == old(self).spec_first_request(),
            final(self).spec_response().header_ended() == old(self).spec_response().header_ended(),
            final(self).spec_response().received() == old(self).spec_response().received(),
            old(self).spec_response().leftover().len() == 0 ==> r is None && final(self).spec_response()
                == old(self).spec_response(),
            old(self).spec_response().leftover().len() > 0 ==> (r matches Some(out) && out@ == old(self).spec_response().leftover().take(
                min_int(room as int, old(self).spec_response().leftover().len() as int),
            ) && final(self).spec_response().leftover() == old(self).spec_response().leftover().skip(
                out@.len() as int,
            ) && final(self).spec_response().delivered() == old(self).spec_response().delivered()
                + out@),
    {
        self.response.take_leftover(room)
    }

    /// Feeds bytes of the first response read from the inner stream; `room`
    /// is what the reader can take now. Empty input means the stream ended.
    pub fn on_response_bytes(&mut self, data: &[u8], room: usize) -> (r: HeaderStep)
        requires
            old(self).wf(),
            !old(self).spec_response().header_ended(),
        ensures
            final(self).wf(),
            final(self).spec_write() == old(self).spec_write(),
            final(self).spec_first_request() == old(self).spec_first_request(),
            data@.len() == 0 ==> r is Eof && final(self).spec_response() == old(self).spec_response(),
            data@.len() > 0 ==> final(self).spec_response().received() == old(self).spec_response().received()
                + data@,
            data@.len() > 0 ==> (match first_double_crlf(final(self).spec_response().received()) {
                Some(h) => r matches HeaderStep::Deliver(out) && final(self).spec_response().header_ended()
                    && out@ == final(self).spec_response().received().skip(h + 4).take(
                    min_int(room as int, final(self).spec_response().received().len() - (h + 4)),
                ) && final(self).spec_response().delivered() == out@
                    && final(self).spec_response().leftover() == final(self).spec_response().received().skip(
                    h + 4,
                ).skip(out@.len() as int),
                None => !final(self).spec_response().header_ended() && (if final(self).spec_response().received().len() > MAX_HTTP_HEADER {
                    r is TooLarge
                } else {
                    r is NeedMore
                }),
            }),
    {
        self.response.feed(data, room)
    }

    /// Bytes of the first response's header are still being read.
    pub fn awaiting_response_header(&self) -> (r: bool)
        ensures
            r == !self.spec_response().header_ended(),
    {
        !self.response.is_ended()
    }
}

/// A request made by `http_request` is never empty.
proof fn lemma_http_request_nonempty(bytes: Seq<u8>, host: Seq<char>, port: u16, body: Seq<u8>)
    requires
        is_http_request_for(bytes, host, port, body),
    ensures
        bytes.len() > 0,
{
    let w = choose|key_bytes: Seq<u8>, ua_major: nat, ua_minor: nat|
        key_bytes.len() == 16 && ua_major < 54 && ua_minor < 2 && bytes == http_request(
            host,
            port,
            body,
            spec_base64_url_safe(key_bytes),
            ua_major,
            ua_minor,
        );
    let head = http_request_head(host, port, spec_base64_url_safe(w.0), w.1, w.2, body.len());
    reveal_strlit("GET / HTTP/1.1\r\nHost: ");
    assert(head.len() > 0);
    assert(encode_utf8(head).len() > 0);
}

// ---------------------------------------------------------------------------
// TLS mode: reading
// ---------------------------------------------------------------------------

/// Where the reader is in the server's byte stream.
#[derive(Debug, Clone, Copy, PartialEq, Eq, Structural)]
pub enum TlsReadPhase {
    /// Skipping this many more bytes (the fake handshake, or a record header).
    Discard(usize),
    /// Reading the two-byte big-endian payload length.
    Length,
    /// This many payload bytes of the current record remain.
    Payload(usize),
}

/// The reader's state: its phase, and the high length byte once it is read.
#[derive(Debug, Clone, Copy, PartialEq, Eq, Structural)]
pub struct FrameState {
    pub phase: TlsReadPhase,
    pub len_hi: u8,
    pub len_progress: usize,
}

/// Before anything is read: the fake server handshake is to be skipped.
pub open spec fn initial_frame_state() -> FrameState {
    FrameState {
        phase: TlsReadPhase::Discard(TLS_FIRST_RESPONSE_DISCARD),
        len_hi: 0,
        len_progress: 0,
    }
}

/// Between records: the next record's type and version are to be skipped.
pub open spec fn record_boundary() -> FrameState {
    FrameState { phase: TlsReadPhase::Discard(TLS_RECORD_HEADER_DISCARD), len_hi: 0, len_progress: 0 }
}

/// About to read a payload length.
pub open spec fn length_start() -> FrameState {
    FrameState { phase: TlsReadPhase::Length, len_hi: 0, len_progress: 0 }
}

/// A state in `phase` with no length byte held.
pub open spec fn phase_state(phase: TlsReadPhase) -> FrameState {
    FrameState { phase, len_hi: 0, len_progress: 0 }
}

/// Moves past a phase with nothing left: an exhausted skip reads a length
/// next, an exhausted payload skips the next record header.
pub open spec fn settle(st: FrameState) -> FrameState {
    match st.phase {
        TlsReadPhase::Discard(n) => if n == 0 {
            length_start()
        } else {
            st
        },
        TlsReadPhase::Payload(n) => if n == 0 {
            record_boundary()
        } else {
            st
        },
        TlsReadPhase::Length => st,
    }
}

/// A state the reader can be in between reads.
pub open spec fn settled(st: FrameState) -> bool {
    match st.phase {
        TlsReadPhase::Discard(n) => n > 0 && st.len_hi == 0 && st.len_progress == 0,
        TlsReadPhase::Length => st.len_progress < 2 && (st.len_progress == 0 ==> st.len_hi == 0),
        TlsReadPhase::Payload(n) => n > 0 && st.len_hi == 0 && st.len_progress == 0,
    }
}

/// How many bytes the current phase can still take.
pub open spec fn phase_capacity(st: FrameState) -> nat {
    match st.phase {
        TlsReadPhase::Discard(n) => n as nat,
        TlsReadPhase::Length => (2 - st.len_progress) as nat,
        TlsReadPhase::Payload(n) => n as nat,
    }
}

/// One byte read in state `st`: the next state and the payload it yields.
pub open spec fn frame_step(st: FrameState, b: u8) -> (FrameState, Seq<u8>) {
    match st.phase {
        TlsReadPhase::Discard(n) => (
            settle(phase_state(TlsReadPhase::Discard((n - 1) as usize))),
            Seq::empty(),
        ),
        TlsReadPhase::Length => if st.len_progress == 0 {
            (FrameState { phase: TlsReadPhase::Length, len_hi: b, len_progress: 1 }, Seq::empty())
        } else {
            (
                settle(
                    phase_state(TlsReadPhase::Payload((st.len_hi as nat * 256 + b as nat) as usize)),
                ),
                Seq::empty(),
            )
        },
        TlsReadPhase::Payload(n) => (
            settle(phase_state(TlsReadPhase::Payload((n - 1) as usize))),
            seq![b],
        ),
    }
}

/// The bytes `bytes` read in turn from state `st`: the state reached and the
/// payload yielded.
pub open spec fn frame_run(st: FrameState, bytes: Seq<u8>) -> (FrameState, Seq<u8>)
    decreases bytes.len(),
{
    if bytes.len() == 0 {
        (st, Seq::empty())
    } else {
        let prev = frame_run(st, bytes.drop_last());
        let next = frame_step(prev.0, bytes.last());
        (next.0, prev.1 + next.1)
    }
}

/// The payload the reader yields for the server's byte stream `wire`.
pub open spec fn deframe(wire: Seq<u8>) -> Seq<u8> {
    frame_run(initial_frame_state(), wire).1
}

/// The state after a read of `c` that stays within the current phase.
pub open spec fn chunk_state(st: FrameState, c: Seq<u8>) -> FrameState {
    match st.phase {
        TlsReadPhase::Discard(n) => settle(phase_state(TlsReadPhase::Discard((n - c.len()) as usize))),
        TlsReadPhase::Length => if st.len_progress == 0 && c.len() == 1 {
            FrameState { phase: TlsReadPhase::Length, len_hi: c[0], len_progress: 1 }
        } else if st.len_progress == 0 {
            settle(phase_state(TlsReadPhase::Payload((c[0] as nat * 256 + c[1] as nat) as usize)))
        } else {
            settle(phase_state(TlsReadPhase::Payload((st.len_hi as nat * 256 + c[0] as nat) as usize)))
        },
        TlsReadPhase::Payload(n) => settle(phase_state(TlsReadPhase::Payload((n - c.len()) as usize))),
    }
}

/// The payload a read of `c` within the current phase yields.
pub open spec fn chunk_output(st: FrameState, c: Seq<u8>) -> Seq<u8> {
    if st.phase is Payload {
        c
    } else {
        Seq::empty()
    }
}

/// Reading `a` then `b` is reading `a + b`.
pub proof fn lemma_frame_run_append(st: FrameState, a: Seq<u8>, b: Seq<u8>)
    ensures
        frame_run(st, a + b) == (
            frame_run(frame_run(st, a).0, b).0,
            frame_run(st, a).1 + frame_run(frame_run(st, a).0, b).1,
        ),
    decreases b.len(),
{
    let mid = frame_run(st, a);
    if b.len() == 0 {
        assert(a + b =~= a);
        assert(mid.1 + Seq::<u8>::empty() =~= mid.1);
    } else {
        lemma_frame_run_append(st, a, b.drop_last());
        assert((a + b).drop_last() =~= a + b.drop_last());
        assert((a + b).last() == b.last());
        let rest = frame_run(mid.0, b.drop_last());
        let next = frame_step(rest.0, b.last());
        assert(mid.1 + rest.1 + next.1 =~= mid.1 + (rest.1 + next.1));
    }
}

/// A settled state stays settled after a byte.
pub proof fn lemma_frame_step_settled(st: FrameState, b: u8)
    requires
        settled(st),
    ensures
        settled(frame_step(st, b).0),
{
}

/// Reading a chunk that fits the current phase moves by `chunk_state` and
/// yields `chunk_output`.
pub proof fn lemma_frame_run_chunk(st: FrameState, c: Seq<u8>)
    requires
        settled(st),
        1 <= c.len() <= phase_capacity(st),
    ensures
        frame_run(st, c) == (chunk_state(st, c), chunk_output(st, c)),
        settled(chunk_state(st, c)),
    decreases c.len(),
{
    assert(c.drop_last().len() == c.len() - 1);
    if c.len() == 1 {
        assert(c.drop_last() =~= Seq::<u8>::empty());
        assert(c.last() == c[0]);
        assert(Seq::<u8>::empty() + frame_step(st, c[0]).1 =~= frame_step(st, c[0]).1);
        assert(seq![c[0]] =~= c);
    } else {
        let c1 = c.drop_last();
        lemma_frame_run_chunk(st, c1);
        assert(c1[0] == c[0]);
        assert(c.last() == c[c.len() - 1]);
        let prev = frame_run(st, c1);
        let next = frame_step(prev.0, c.last());
        assert(frame_run(st, c) == (next.0, prev.1 + next.1));
        assert(next.0 == chunk_state(st, c));
        assert(prev.1 + next.1 =~= chunk_output(st, c));
    }
}

/// The two-byte length prefix of `len` reads as `len`.
pub proof fn lemma_be16(len: nat)
    requires
        len <= 0xFFFF,
    ensures
        be_bytes(len, 2).len() == 2,
        be_bytes(len, 2)[0] as nat * 256 + be_bytes(len, 2)[1] as nat == len,
{
    reveal_with_fuel(be_bytes, 3);
    assert(be_bytes(len, 2) =~= seq![(len / 256) as u8, (len % 256) as u8]);
}

/// A TLS application-data record carrying `p`.
pub open spec fn app_record(p: Seq<u8>) -> Seq<u8> {
    seq![0x17u8, 0x03, 0x03] + be_bytes(p.len(), 2) + p
}

/// Records carrying each payload in turn.
pub open spec fn app_records(ps: Seq<Seq<u8>>) -> Seq<u8>
    decreases ps.len(),
{
    if ps.len() == 0 {
        Seq::empty()
    } else {
        app_record(ps[0]) + app_records(ps.drop_first())
    }
}

/// The payloads one after another.
pub open spec fn concat_all(ps: Seq<Seq<u8>>) -> Seq<u8>
    decreases ps.len(),
{
    if ps.len() == 0 {
        Seq::empty()
    } else {
        ps[0] + concat_all(ps.drop_first())
    }
}

/// From a record boundary, a length prefix then a payload yields the payload
/// and ends at the next boundary.
proof fn lemma_frame_run_length_payload(p: Seq<u8>)
    requires
        p.len() <= 0xFFFF,
    ensures
        frame_run(length_start(), be_bytes(p.len(), 2) + p) == (record_boundary(), p),
{
    let lp = be_bytes(p.len(), 2);
    lemma_be16(p.len());
    lemma_frame_run_chunk(length_start(), lp);
    let after_len = chunk_state(length_start(), lp);
    assert(after_len == settle(phase_state(TlsReadPhase::Payload(p.len() as usize))));
    lemma_frame_run_append(length_start(), lp, p);
    assert(frame_run(length_start(), lp).1 =~= Seq::<u8>::empty());
    if p.len() == 0 {
        assert(after_len == record_boundary());
        assert(Seq::<u8>::empty() + Seq::<u8>::empty() =~= p);
    } else {
        lemma_frame_run_chunk(after_len, p);
        assert(Seq::<u8>::empty() + p =~= p);
    }
}

/// From a record boundary, application-data records yield their payloads.
proof fn lemma_frame_run_records(ps: Seq<Seq<u8>>)
    requires
        forall|i: int| 0 <= i < ps.len() ==> (#[trigger] ps[i]).len() <= 0xFFFF,
    ensures
        frame_run(record_boundary(), app_records(ps)) == (record_boundary(), concat_all(ps)),
    decreases ps.len(),
{
    if ps.len() == 0 {
    } else {
        let p = ps[0];
        let hdr = seq![0x17u8, 0x03, 0x03];
        let body = be_bytes(p.len(), 2) + p;
        let tail = app_records(ps.drop_first());
        assert(app_records(ps) =~= hdr + (body + tail));
        lemma_frame_run_chunk(record_boundary(), hdr);
        assert(chunk_state(record_boundary(), hdr) == length_start());
        lemma_frame_run_append(record_boundary(), hdr, body + tail);
        lemma_frame_run_append(length_start(), body, tail);
        lemma_frame_run_length_payload(p);
        assert forall|i: int| 0 <= i < ps.drop_first().len() implies (
        #[trigger] ps.drop_first()[i]).len() <= 0xFFFF by {
            assert(ps.drop_first()[i] == ps[i + 1]);
        }
        lemma_frame_run_records(ps.drop_first());
        assert(Seq::<u8>::empty() + (p + concat_all(ps.drop_first())) =~= concat_all(ps));
    }
}

/// The reader inverts the framing: after the server's fake handshake, a
/// length-prefixed first payload and then application-data records (as the
/// writer frames them) yield exactly the payloads in order, ending between
/// records.
pub proof fn lemma_deframe_records(handshake: Seq<u8>, first: Seq<u8>, rest: Seq<Seq<u8>>)
    requires
        handshake.len() == TLS_FIRST_RESPONSE_DISCARD,
        first.len() <= 0xFFFF,
        forall|i: int| 0 <= i < rest.len() ==> (#[trigger] rest[i]).len() <= 0xFFFF,
    ensures
        frame_run(initial_frame_state(), handshake + be_bytes(first.len(), 2) + first + app_records(rest))
            == (record_boundary(), first + concat_all(rest)),
        deframe(handshake + be_bytes(first.len(), 2) + first + app_records(rest)) == first
            + concat_all(rest),
{
    let lp = be_bytes(first.len(), 2) + first;
    let tail = app_records(rest);
    assert(handshake + be_bytes(first.len(), 2) + first + tail =~= handshake + (lp + tail));
    lemma_frame_run_chunk(initial_frame_state(), handshake);
    assert(chunk_state(initial_frame_state(), handshake) == length_start());
    lemma_frame_run_append(initial_frame_state(), handshake, lp + tail);
    lemma_frame_run_append(length_start(), lp, tail);
    lemma_frame_run_length_payload(first);
    lemma_frame_run_records(rest);
    assert(Seq::<u8>::empty() + (first + concat_all(rest)) =~= first + concat_all(rest));
}

/// What the next read from the inner stream should be.
#[derive(Debug, Clone, Copy, PartialEq, Eq, Structural)]
pub enum ReadRequest {
    /// Read at most this many bytes and drop them.
    Skip(usize),
    /// Read at most this many bytes of the payload length.
    Length(usize),
    /// Read at most this many payload bytes straight for the reader.
    Payload(usize),
    /// The reader has no room: return without reading.
    Full,
}

/// What a read from the inner stream gave.
#[derive(Debug, Clone, Copy, PartialEq, Eq, Structural)]
pub enum ReadStep {
    /// The inner stream ended.
    Eof,
    /// Framing bytes were consumed: read again.
    Continue,
    /// The bytes read are payload: hand them to the reader and return.
    Deliver,
}

/// Strips simple-obfs TLS framing from the server's byte stream.
pub struct TlsReader {
    st: FrameState,
    /// Every byte read from the server so far.
    fed: Ghost<Seq<u8>>,
    /// Every payload byte yielded so far.
    out: Ghost<Seq<u8>>,
}

impl TlsReader {
    /// The state is the one reached by reading everything so far.
    pub closed spec fn wf(&self) -> bool {
        &&& settled(self.st)
        &&& frame_run(initial_frame_state(), self.fed@) == (self.st, self.out@)
    }

    pub closed spec fn state(&self) -> FrameState {
        self.st
    }

    /// Bytes read from the server so far.
    pub closed spec fn fed(&self) -> Seq<u8> {
        self.fed@
    }

    /// Payload bytes yielded so far.
    pub closed spec fn yielded(&self) -> Seq<u8> {
        self.out@
    }

    pub fn new() -> (r: TlsReader)
        ensures
            r.wf(),
            r.state() == initial_frame_state(),
            r.fed() == Seq::<u8>::empty(),
            r.yielded() == Seq::<u8>::empty(),
    {
        TlsReader {
            st: FrameState {
                phase: TlsReadPhase::Discard(TLS_FIRST_RESPONSE_DISCARD),
                len_hi: 0,
                len_progress: 0,
            },
            fed: Ghost(Seq::empty()),
            out: Ghost(Seq::empty()),
        }
    }

    /// The next read to make when the reader has `room` bytes free.
    pub fn request(&self, room: usize) -> (r: ReadRequest)
        requires
            self.wf(),
        ensures
            match self.state().phase {
                TlsReadPhase::Discard(n) => r == ReadRequest::Skip(
                    min_int(n as int, 256) as usize,
                ),
                TlsReadPhase::Length => r == ReadRequest::Length(
                    (2 - self.state().len_progress) as usize,
                ),
                TlsReadPhase::Payload(n) => if min_int(room as int, n as int) == 0 {
                    r == ReadRequest::Full
                } else {
                    r == ReadRequest::Payload(min_int(room as int, n as int) as usize)
                },
            },
    {
        match self.st.phase {
            TlsReadPhase::Discard(n) => ReadRequest::Skip(
                if n < 256 {
                    n
                } else {
                    256
                },
            ),
            TlsReadPhase::Length => ReadRequest::Length(2 - self.st.len_progress),
            TlsReadPhase::Payload(n) => {
                let space = if room < n {
                    room
                } else {
                    n
                };
                if space == 0 {
                    ReadRequest::Full
                } else {
                    ReadRequest::Payload(space)
                }
            },
        }
    }

    /// Takes the bytes of one read, at most what the current phase can
    /// hold; no bytes means the inner stream ended.
    pub fn on_read(&mut self, data: &[u8]) -> (r: ReadStep)
        requires
            old(self).wf(),
            data@.len() <= phase_capacity(old(self).state()),
        ensures
            final(self).wf(),
            data@.len() == 0 ==> r == ReadStep::Eof && *final(self) == *old(self),
            data@.len() > 0 ==> final(self).fed() == old(self).fed() + data@
                && final(self).state() == chunk_state(old(self).state(), data@)
                && final(self).yielded() == old(self).yielded() + chunk_output(old(self).state(), data@)
                && (r == ReadStep::Deliver <==> old(self).state().phase is Payload)
                && (r == ReadStep::Continue <==> !(old(self).state().phase is Payload)),
    {
        if data.len() == 0 {
            return ReadStep::Eof;
        }
        let ghost old_st = self.st;
        proof {
            lemma_frame_run_chunk(old_st, data@);
            lemma_frame_run_append(initial_frame_state(), self.fed@, data@);
        }
        let k = data.len();
        let r = match self.st.phase {
            TlsReadPhase::Discard(n) => {
                let left = n - k;
                self.st = if left == 0 {
                    FrameState { phase: TlsReadPhase::Length, len_hi: 0, len_progress: 0 }
                } else {
                    FrameState { phase: TlsReadPhase::Discard(left), len_hi: 0, len_progress: 0 }
                };
                ReadStep::Continue
            },
            TlsReadPhase::Length => {
                if self.st.len_progress == 0 && k == 1 {
                    self.st = FrameState { phase: TlsReadPhase::Length, len_hi: data[0], len_progress: 1 };
                } else {
                    let len: usize = if self.st.len_progress == 0 {
                        data[0] as usize * 256 + data[1] as usize
                    } else {
                        self.st.len_hi as usize * 256 + data[0] as usize
                    };
                    self.st = if len == 0 {
                        FrameState {
                            phase: TlsReadPhase::Discard(TLS_RECORD_HEADER_DISCARD),
                            len_hi: 0,
                            len_progress: 0,
                        }
                    } else {
                        FrameState { phase: TlsReadPhase::Payload(len), len_hi: 0, len_progress: 0 }
                    };
                }
                ReadStep::Continue
            },
            TlsReadPhase::Payload(n) => {
                let left = n - k;
                self.st = if left == 0 {
                    FrameState { phase: TlsReadPhase::Discard(TLS_RECORD_HEADER_DISCARD), len_hi: 0, len_progress: 0 }
                } else {
                    FrameState { phase: TlsReadPhase::Payload(left), len_hi: 0, len_progress: 0 }
                };
                ReadStep::Deliver
            },
        };
        self.fed = Ghost(self.fed@ + data@);
        self.out = Ghost(self.out@ + chunk_output(old_st, data@));
        r
    }

    /// Everything yielded is the deframing of everything read.
    pub proof fn lemma_yielded_is_deframed(&self)
        requires
            self.wf(),
        ensures
            self.yielded() == deframe(self.fed()),
    {
    }
}

// ---------------------------------------------------------------------------
// TLS mode: writing, and the whole client
// ---------------------------------------------------------------------------

/// The application-data record carrying `chunk`.
pub fn frame_app_data(chunk: &[u8]) -> (r: Vec<u8>)
    requires
        chunk@.len() <= 0xFFFF,
    ensures
        r@ == app_record(chunk@),
{
    let mut framed: Vec<u8> = Vec::new();
    framed.extend_from_slice(&[0x17u8, 0x03, 0x03]);
    push_be_bytes(&mut framed, chunk.len() as u64, 2);
    framed.extend_from_slice(chunk);
    framed
}

/// `bytes` is a ClientHello carrying `data` for `server`, with some
/// timestamp and some random and session-id bytes.
pub open spec fn is_client_hello_for(bytes: Seq<u8>, data: Seq<u8>, server: Seq<u8>) -> bool {
    exists|now: u32, random: Seq<u8>, session_id: Seq<u8>|
        random.len() == 28 && session_id.len() == 32 && bytes == tls_client_hello(
            data,
            server,
            now,
            random,
            session_id,
        )
}

/// A ClientHello is never empty.
proof fn lemma_client_hello_nonempty(bytes: Seq<u8>, data: Seq<u8>, server: Seq<u8>)
    requires
        is_client_hello_for(bytes, data, server),
    ensures
        bytes.len() > 0,
{
    let w = choose|now: u32, random: Seq<u8>, session_id: Seq<u8>|
        random.len() == 28 && session_id.len() == 32 && bytes == tls_client_hello(
            data,
            server,
            now,
            random,
            session_id,
        );
    assert(bytes[0] == 0x16u8);
}

/// How much of a write of `len` bytes one record carries.
pub open spec fn tls_take(len: nat) -> nat {
    if len < TLS_CHUNK_SIZE {
        len
    } else {
        TLS_CHUNK_SIZE as nat
    }
}

/// TLS simple-obfs client: the first write travels inside a fake
/// ClientHello, later writes as application-data records of at most
/// `TLS_CHUNK_SIZE` bytes; reads strip the server's framing.
pub struct TlsObfs<S> {
    inner: S,
    server: String,
    first_request: bool,
    write: PendingWrite,
    reader: TlsReader,
}

impl<S> TlsObfs<S> {
    pub closed spec fn wf(&self) -> bool {
        self.write.wf() && self.reader.wf()
    }

    pub closed spec fn spec_inner(&self) -> S {
        self.inner
    }

    pub closed spec fn spec_server(&self) -> Seq<u8> {
        encode_utf8(self.server@)
    }

    /// The first write has not happened yet.
    pub closed spec fn spec_first_request(&self) -> bool {
        self.first_request
    }

    /// The framed bytes waiting to be written.
    pub closed spec fn spec_write(&self) -> PendingWrite {
        self.write
    }

    /// The read side.
    pub closed spec fn spec_reader(&self) -> TlsReader {
        self.reader
    }

    /// Wraps `inner`, naming `server` in the fake ClientHello.
    pub fn new(inner: S, server: String) -> (r: Self)
        ensures
            r.wf(),
            r.spec_server() == encode_utf8(server@),
            r.spec_first_request(),
            r.spec_write().unsent_bytes().len() == 0,
            r.spec_write().pending() == 0,
            r.spec_reader().state() == initial_frame_state(),
            r.spec_reader().fed() == Seq::<u8>::empty(),
            r.spec_reader().yielded() == Seq::<u8>::empty(),
    {
        TlsObfs {
            inner,
            server,
            first_request: true,
            write: PendingWrite::new(),
            reader: TlsReader::new(),
        }
    }

    /// The wrapped stream, to read from or write to; nothing else changes.
    pub fn inner_mut(&mut self) -> (r: &mut S)
        ensures
            *r == old(self).spec_inner(),
            final(self).spec_inner() == *final(r),
            final(self).wf() == old(self).wf(),
            final(self).spec_server() == old(self).spec_server(),
            final(self).spec_first_request() == old(self).spec_first_request(),
            final(self).spec_write() == old(self).spec_write(),
            final(self).spec_reader() == old(self).spec_reader(),
    {
        &mut self.inner
    }

    /// Framed bytes still to be written to the inner stream.
    pub fn unsent(&self) -> (r: &[u8])
        requires
            self.wf(),
        ensures
            r@ == self.spec_write().unsent_bytes(),
    {
        self.write.unsent()
    }

    /// Records an inner write of `n` framed bytes.
    pub fn record_written(&mut self, n: usize) -> (r: DrainStep)
        requires
            old(self).wf(),
            n <= old(self).spec_write().unsent_bytes().len(),
            old(self).spec_write().unsent_bytes().len() > 0,
        ensures
            final(self).wf(),
            final(self).spec_write().pending() == old(self).spec_write().pending(),
            n == 0 ==> r == DrainStep::WriteZero && final(self).spec_write().unsent_bytes()
                == old(self).spec_write().unsent_bytes(),
            n > 0 ==> final(self).spec_write().unsent_bytes() == old(self).spec_write().unsent_bytes().skip(
                n as int,
            ),
            n > 0 ==> (r == DrainStep::Done <==> final(self).spec_write().unsent_bytes().len() == 0),
            n > 0 ==> r != DrainStep::WriteZero,
            final(self).spec_first_request() == old(self).spec_first_request(),
            final(self).spec_reader() == old(self).spec_reader(),
    {
        self.write.record_written(n)
    }

    /// Input length to report once the framed bytes are written; cleared.
    pub fn take_pending(&mut self) -> (r: usize)
        requires
            old(self).wf(),
        ensures
            final(self).wf(),
            r == old(self).spec_write().pending(),
            final(self).spec_write().pending() == 0,
            final(self).spec_write().unsent_bytes() == old(self).spec_write().unsent_bytes(),
            final(self).spec_first_request() == old(self).spec_first_request(),
            final(self).spec_reader() == old(self).spec_reader(),
    {
        self.write.take_pending()
    }

    /// Decides a write of `buf`: finish earlier pending bytes, report 0 for
    /// empty input, or frame up to `TLS_CHUNK_SIZE` bytes of it (inside the
    /// ClientHello the first time, as an application-data record after).
    pub fn begin_write(&mut self, buf: &[u8]) -> (r: WritePlan)
        requires
            old(self).wf(),
            old(self).spec_first_request() ==> 212 + tls_take(buf@.len()) + old(self).spec_server().len() <= 0xFFFF,
        ensures
            final(self).wf(),
            final(self).spec_server() == old(self).spec_server(),
            final(self).spec_reader() == old(self).spec_reader(),
            old(self).spec_write().unsent_bytes().len() > 0 ==> r == WritePlan::ResumeDrain
                && final(self).spec_write() == old(self).spec_write()
                && final(self).spec_first_request() == old(self).spec_first_request(),
            old(self).spec_write().unsent_bytes().len() == 0 && buf@.len() == 0 ==> r
                == WritePlan::Nothing && final(self).spec_write() == old(self).spec_write()
                && final(self).spec_first_request() == old(self).spec_first_request(),
            old(self).spec_write().unsent_bytes().len() == 0 && buf@.len() > 0 ==> r == WritePlan::Drain
                && !final(self).spec_first_request() && final(self).spec_write().pending()
                == tls_take(buf@.len()),
            old(self).spec_write().unsent_bytes().len() == 0 && buf@.len() > 0
                && old(self).spec_first_request() ==> is_client_hello_for(
                final(self).spec_write().unsent_bytes(),
                buf@.take(tls_take(buf@.len()) as int),
                old(self).spec_server(),
            ),
            old(self).spec_write().unsent_bytes().len() == 0 && buf@.len() > 0
                && !old(self).spec_first_request() ==> final(self).spec_write().unsent_bytes()
                == app_record(buf@.take(tls_take(buf@.len()) as int)),
    {
        if !self.write.is_idle() {
            return WritePlan::ResumeDrain;
        }
        if buf.len() == 0 {
            return WritePlan::Nothing;
        }
        let take = if buf.len() < TLS_CHUNK_SIZE {
            buf.len()
        } else {
            TLS_CHUNK_SIZE
        };
        let chunk = slice_prefix(buf, take);
        if self.first_request {
            self.first_request = false;
            let hello = build_client_hello(chunk, self.server.as_str());
            proof {
                lemma_client_hello_nonempty(hello@, chunk@, encode_utf8(self.server@));
            }
            self.write.start(hello, take);
        } else {
            let framed = frame_app_data(chunk);
            self.write.start(framed, take);
        }
        WritePlan::Drain
    }

    /// The next read to make when the reader has `room` bytes free.
    pub fn read_request(&self, room: usize) -> (r: ReadRequest)
        requires
            self.wf(),
        ensures
            match self.spec_reader().state().phase {
                TlsReadPhase::Discard(n) => r == ReadRequest::Skip(min_int(n as int, 256) as usize),
                TlsReadPhase::Length => r == ReadRequest::Length(
                    (2 - self.spec_reader().state().len_progress) as usize,
                ),
                TlsReadPhase::Payload(n) => if min_int(room as int, n as int) == 0 {
                    r == ReadRequest::Full
                } else {
                    r == ReadRequest::Payload(min_int(room as int, n as int) as usize)
                },
            },
    {
        self.reader.request(room)
    }

    /// Takes the bytes of one read made as `read_request` asked; no bytes
    /// means the inner stream ended.
    pub fn on_read(&mut self, data: &[u8]) -> (r: ReadStep)
        requires
            old(self).wf(),
            data@.len() <= phase_capacity(old(self).spec_reader().state()),
        ensures
            final(self).wf(),
            final(self).spec_write() == old(self).spec_write(),
            final(self).spec_first_request() == old(self).spec_first_request(),
            final(self).spec_server() == old(self).spec_server(),
            data@.len() == 0 ==> r == ReadStep::Eof && final(self).spec_reader() == old(self).spec_reader(),
            data@.len() > 0 ==> final(self).spec_reader().fed() == old(self).spec_reader().fed() + data@
                && final(self).spec_reader().state() == chunk_state(old(self).spec_reader().state(), data@)
                && final(self).spec_reader().yielded() == old(self).spec_reader().yielded()
                + chunk_output(old(self).spec_reader().state(), data@)
                && (r == ReadStep::Deliver <==> old(self).spec_reader().state().phase is Payload)
                && (r == ReadStep::Continue <==> !(old(self).spec_reader().state().phase is Payload)),
    {
        self.reader.on_read(data)
    }
}

/// The first `n` bytes of `s`.
fn slice_prefix(s: &[u8], n: usize) -> (r: &[u8])
    requires
        n <= s@.len(),
    ensures
        r@ == s@.take(n as int),
{
    vstd::slice::slice_subrange(s, 0, n)
}

} // verus!

//! Hysteria 2 outbound: QUIC variable-length integers and the
//! TCPRequest / TCPResponse frame codec.

use vstd::prelude::*;
use crate::common::adapter_type::AdapterType;
use crate::common::error::MeowError;
use vstd::string::StringSliceAdditionalSpecFns;
use vstd::utf8::{decode_utf8, encode_utf8, valid_utf8};
use crate::text::{
    decimal, hex_lower, owned, push_decimal, push_hex_lower, string_append, trim, trimmed,
};
use crate::bytes::{
    be_bytes, be_value, lemma_be_bytes_len, lemma_be_value_bound, lemma_be_value_of_bytes,
    lemma_be_value_prepend, lemma_pow256_values, pow256, push_be_bytes,
};

verus! {

/// Largest value a QUIC varint can carry.
pub const VARINT_MAX: u64 = 0x3FFF_FFFF_FFFF_FFFF;

/// Number of bytes the varint encoding of `v` occupies.
pub open spec fn varint_len(v: nat) -> nat {
    if v < 0x40 {
        1
    } else if v < 0x4000 {
        2
    } else if v < 0x4000_0000 {
        4
    } else {
        8
    }
}

/// The two-bit length tag placed in the top bits of an encoding of `len` bytes.
pub open spec fn varint_tag(len: nat) -> nat {
    if len == 1 {
        0
    } else if len == 2 {
        0x4000
    } else if len == 4 {
        0x8000_0000
    } else {
        0xC000_0000_0000_0000
    }
}

/// RFC 9000 §16: the value with its length tag in the top two bits, big-endian.
pub open spec fn spec_varint_encode(v: nat) -> Seq<u8> {
    be_bytes(v + varint_tag(varint_len(v)), varint_len(v))
}

/// Length announced by the first byte of an encoding.
pub open spec fn varint_len_of_first(first: u8) -> nat {
    if first < 0x40 {
        1
    } else if first < 0x80 {
        2
    } else if first < 0xC0 {
        4
    } else {
        8
    }
}

/// Decoding of a varint at the start of `buf`: the value and the number of
/// bytes it occupies, or `None` when `buf` is shorter than announced.
pub open spec fn spec_varint_decode(buf: Seq<u8>) -> Option<(nat, nat)> {
    if buf.len() == 0 {
        None
    } else {
        let len = varint_len_of_first(buf[0]);
        if buf.len() < len {
            None
        } else {
            Some((be_value(seq![(buf[0] % 64) as u8] + buf.subrange(1, len as int)), len))
        }
    }
}


/// Decoding an encoded value, whatever follows it, gives the value back
/// together with the length of its encoding.
pub proof fn lemma_varint_roundtrip(v: nat, rest: Seq<u8>)
    requires
        v <= VARINT_MAX,
    ensures
        spec_varint_decode(spec_varint_encode(v) + rest) == Some((v, varint_len(v))),
        spec_varint_encode(v).len() == varint_len(v),
{
    let len = varint_len(v);
    let t = v + varint_tag(len);
    let e = be_bytes(t, len);
    lemma_be_bytes_len(t, len);
    lemma_pow256_values();
    let p = pow256((len - 1) as nat);
    assert(t < pow256(len));
    lemma_be_value_of_bytes(t, len);
    assert(be_value(e) == t) by {
        vstd::arithmetic::div_mod::lemma_small_mod(t, pow256(len));
    }
    let sub = e.subrange(1, len as int);
    assert(e =~= seq![e[0]] + sub);
    lemma_be_value_prepend(e[0], sub);
    lemma_be_value_bound(sub);
    assert(e[0] as nat == t / p) by {
        vstd::arithmetic::div_mod::lemma_fundamental_div_mod_converse_div(
            t as int,
            p as int,
            e[0] as int,
            be_value(sub) as int,
        );
    }
    let first = e[0];
    let buf = e + rest;
    assert(buf[0] == first);
    assert(buf.subrange(1, len as int) =~= sub);
    lemma_be_value_prepend((first % 64) as u8, sub);
    let c: nat = if len == 1 {
        0
    } else if len == 2 {
        64
    } else if len == 4 {
        128
    } else {
        192
    };
    assert(varint_tag(len) == c * p && (c == 0 || c == 64 || c == 128 || c == 192)) by {
        if len == 1 {
        } else if len == 2 {
        } else if len == 4 {
        } else {
        }
    }
    assert(v < 64 * p);
    vstd::arithmetic::div_mod::lemma_fundamental_div_mod(v as int, p as int);
    let q = v / p;
    let r = v % p;
    assert(q < 64) by (nonlinear_arith)
        requires
            v < 64 * p,
            v == p * q + r,
            0 <= r,
            p > 0,
    ;
    assert(t == (c + q) * p + r) by (nonlinear_arith)
        requires
            t == v + c * p,
            v == p * q + r,
    ;
    vstd::arithmetic::div_mod::lemma_fundamental_div_mod_converse_div(t as int, p as int, (c + q) as int, r as int);
    assert(first as nat == c + q);
    assert((first % 64) as nat == q);
    assert(varint_len_of_first(first) == len);
    assert(be_value(sub) == r) by (nonlinear_arith)
        requires
            be_value(e) == first as nat * p + be_value(sub),
            be_value(e) == t,
            t == (c + q) * p + r,
            first as nat == c + q,
    ;
    assert(spec_varint_decode(buf) == Some((be_value(seq![(first % 64) as u8] + sub), len)));
    assert(be_value(seq![(first % 64) as u8] + sub) == q * p + r);
    assert(q * p + r == v) by (nonlinear_arith)
        requires
            v == p * q + r,
    ;
}

/// Appends the QUIC varint encoding of `value` to `out`.
pub fn varint_encode(out: &mut Vec<u8>, value: u64)
    requires
        value <= VARINT_MAX,
    ensures
        final(out)@ == old(out)@ + spec_varint_encode(value as nat),
{
    if value < 0x40 {
        push_be_bytes(out, value, 1);
    } else if value < 0x4000 {
        push_be_bytes(out, value + 0x4000, 2);
    } else if value < 0x4000_0000 {
        push_be_bytes(out, value + 0x8000_0000, 4);
    } else {
        push_be_bytes(out, value + 0xC000_0000_0000_0000, 8);
    }
}

/// Decodes a QUIC varint at the start of `buf`: the value and the number of
/// bytes consumed, or `None` when `buf` is shorter than the first byte announces.
pub fn varint_decode(buf: &[u8]) -> (r: Option<(u64, usize)>)
    ensures
        r is None <==> spec_varint_decode(buf@) is None,
        r matches Some((v, n)) ==> spec_varint_decode(buf@) == Some((v as nat, n as nat))
            && v <= VARINT_MAX,
{
    if buf.len() == 0 {
        return None;
    }
    let first = buf[0];
    let len: usize = if first < 0x40 {
        1
    } else if first < 0x80 {
        2
    } else if first < 0xC0 {
        4
    } else {
        8
    };
    if buf.len() < len {
        return None;
    }
    let ghost masked = seq![(first % 64) as u8] + buf@.subrange(1, len as int);
    let mut acc: u64 = (first % 64) as u64;
    let mut i: usize = 1;
    proof {
        lemma_pow256_values();
        assert(masked.take(1) =~= seq![(first % 64) as u8]);
        assert(seq![(first % 64) as u8].drop_last() =~= Seq::<u8>::empty());
        assert(be_value(Seq::<u8>::empty()) == 0);
    }
    while i < len
        invariant
            1 <= i <= len <= 8,
            len <= buf.len(),
            masked.len() == len,
            masked == seq![(first % 64) as u8] + buf@.subrange(1, len as int),
            acc as nat == be_value(masked.take(i as int)),
            acc < 64 * pow256((i - 1) as nat),
        decreases len - i,
    {
        let b = buf[i];
        proof {
            assert(masked.take(i as int + 1) =~= masked.take(i as int).push(b));
            assert(masked.take(i as int + 1).drop_last() =~= masked.take(i as int));
            lemma_pow256_values();
            let p = pow256((i - 1) as nat);
            assert(pow256(i as nat) == 256 * p);
            assert(p <= 0x1_0000_0000_0000) by {
                if i == 1 {
                } else if i == 2 {
                } else if i <= 4 {
                    assert(pow256(2) == 0x1_0000);
                    assert(pow256(3) == 0x100_0000);
                } else {
                    reveal_with_fuel(pow256, 8);
                }
            }
            assert((acc as int + 1) * 256 <= 64 * p * 256) by (nonlinear_arith)
                requires
                    acc as int + 1 <= 64 * p,
            ;
        }
        acc = acc * 256 + b as u64;
        i = i + 1;
    }
    proof {
        assert(masked.take(len as int) =~= masked);
        lemma_pow256_values();
        reveal_with_fuel(pow256, 8);
    }
    Some((acc, len))
}


/// Frame id of a TCPRequest.
pub const FRAME_ID_TCP_REQUEST: u64 = 0x401;

/// TCPResponse status: connection established.
pub const TCP_STATUS_OK: u8 = 0x00;

/// TCPResponse status: connection refused by the server.
pub const TCP_STATUS_ERROR: u8 = 0x01;

/// `[0x401 varint][addr_len varint][addr][pad_len varint][padding]`.
pub open spec fn spec_tcp_request(addr: Seq<u8>, padding: Seq<u8>) -> Seq<u8> {
    spec_varint_encode(FRAME_ID_TCP_REQUEST as nat) + spec_varint_encode(addr.len()) + addr
        + spec_varint_encode(padding.len()) + padding
}

/// Encodes a TCPRequest frame for `target` (in `host:port` form) followed by
/// `padding`, appended literally.
pub fn encode_tcp_request(target: &str, padding: &[u8]) -> (r: Vec<u8>)
    requires
        target.spec_bytes().len() <= VARINT_MAX,
        padding@.len() <= VARINT_MAX,
    ensures
        r@ == spec_tcp_request(target.spec_bytes(), padding@),
{
    let addr = target.as_bytes();
    let mut out: Vec<u8> = Vec::new();
    varint_encode(&mut out, FRAME_ID_TCP_REQUEST);
    varint_encode(&mut out, addr.len() as u64);
    out.extend_from_slice(addr);
    varint_encode(&mut out, padding.len() as u64);
    out.extend_from_slice(padding);
    assert(out@ =~= spec_tcp_request(target.spec_bytes(), padding@));
    out
}

/// What a buffer holds at its start, read as a TCPResponse
/// `[u8 status][msg_len varint][msg][pad_len varint][padding]`.
pub enum ResponseParse {
    /// The buffer ends before the frame does.
    Incomplete,
    /// The status byte is neither OK nor Error.
    UnknownStatus(u8),
    /// The message bytes are not UTF-8.
    BadMessage,
    /// A whole frame of `consumed` bytes.
    Frame { ok: bool, message: Seq<u8>, consumed: nat },
}

pub open spec fn spec_decode_tcp_response(buf: Seq<u8>) -> ResponseParse {
    if buf.len() == 0 {
        ResponseParse::Incomplete
    } else if buf[0] != TCP_STATUS_OK && buf[0] != TCP_STATUS_ERROR {
        ResponseParse::UnknownStatus(buf[0])
    } else {
        match spec_varint_decode(buf.subrange(1, buf.len() as int)) {
            None => ResponseParse::Incomplete,
            Some((msg_len, n1)) => {
                let c1 = 1 + n1;
                if buf.len() < c1 + msg_len {
                    ResponseParse::Incomplete
                } else {
                    let message = buf.subrange(c1 as int, (c1 + msg_len) as int);
                    if !valid_utf8(message) {
                        ResponseParse::BadMessage
                    } else {
                        let c2 = c1 + msg_len;
                        match spec_varint_decode(buf.subrange(c2 as int, buf.len() as int)) {
                            None => ResponseParse::Incomplete,
                            Some((pad_len, n2)) => {
                                if buf.len() < c2 + n2 + pad_len {
                                    ResponseParse::Incomplete
                                } else {
                                    ResponseParse::Frame {
                                        ok: buf[0] == TCP_STATUS_OK,
                                        message,
                                        consumed: c2 + n2 + pad_len,
                                    }
                                }
                            },
                        }
                    }
                }
            },
        }
    }
}

/// A decoded TCPResponse frame.
#[derive(Debug, Clone, PartialEq, Eq)]
pub struct TcpResponse {
    pub ok: bool,
    pub message: String,
    /// Byte count of the whole frame.
    pub consumed: usize,
}

pub open spec fn unknown_status_message(status: u8) -> Seq<char> {
    "hysteria2: unknown TCPResponse status 0x"@ + hex_lower(status as nat)
}

pub open spec fn bad_message_prefix() -> Seq<char> {
    "hysteria2: TCPResponse message is not UTF-8: "@
}

/// UTF-8 decoding of a byte slice (`std::str::from_utf8`, then an owned copy);
/// on failure, the text of the decoding error.
#[verifier::external_body]
fn utf8_string(bytes: &[u8]) -> (r: Result<String, String>)
    ensures
        r is Ok <==> valid_utf8(bytes@),
        r matches Ok(s) ==> s@ == decode_utf8(bytes@),
{
    match std::str::from_utf8(bytes) {
        Ok(s) => Ok(s.to_string()),
        Err(e) => Err(e.to_string()),
    }
}

/// Decodes a TCPResponse at the start of `buf`: `Ok(Some(..))` on a whole
/// frame, `Ok(None)` when `buf` ends first, `Err` on an unknown status byte or
/// a message that is not UTF-8.
pub fn decode_tcp_response(buf: &[u8]) -> (r: Result<Option<TcpResponse>, String>)
    ensures
        match spec_decode_tcp_response(buf@) {
            ResponseParse::Incomplete => r == Ok::<Option<TcpResponse>, String>(None),
            ResponseParse::UnknownStatus(status) => r matches Err(e) && e@
                == unknown_status_message(status),
            ResponseParse::BadMessage => r matches Err(e) && e@.len() >= bad_message_prefix().len()
                && e@.take(bad_message_prefix().len() as int) == bad_message_prefix(),
            ResponseParse::Frame { ok, message, consumed } => r matches Ok(Some(resp)) && resp.ok
                == ok && resp.message@ == decode_utf8(message) && resp.consumed == consumed,
        },
        r matches Ok(Some(resp)) ==> resp.consumed <= buf@.len(),
{
    proof {
        if spec_decode_tcp_response(buf@) is Frame {
            lemma_tcp_response_prefix(buf@, 0);
        }
    }
    if buf.len() == 0 {
        return Ok(None);
    }
    let status = buf[0];
    if status != TCP_STATUS_OK && status != TCP_STATUS_ERROR {
        let mut e = owned("hysteria2: unknown TCPResponse status 0x");
        push_hex_lower(&mut e, status as u64);
        return Err(e);
    }
    let ok = status == TCP_STATUS_OK;
    let (msg_len, n1) = match varint_decode(&buf[1..buf.len()]) {
        Some(x) => x,
        None => return Ok(None),
    };
    let c1 = 1 + n1;
    if (buf.len() as u64) < c1 as u64 + msg_len {
        return Ok(None);
    }
    let msg_end = c1 + msg_len as usize;
    let message = match utf8_string(&buf[c1..msg_end]) {
        Ok(m) => m,
        Err(detail) => {
            let mut e = owned("hysteria2: TCPResponse message is not UTF-8: ");
            string_append(&mut e, detail.as_str());
            assert(e@.take(bad_message_prefix().len() as int) =~= bad_message_prefix());
            return Err(e);
        },
    };
    let (pad_len, n2) = match varint_decode(&buf[msg_end..buf.len()]) {
        Some(x) => x,
        None => return Ok(None),
    };
    if ((buf.len() - msg_end) as u64) < n2 as u64 + pad_len {
        return Ok(None);
    }
    let consumed = msg_end + n2 + pad_len as usize;
    Ok(Some(TcpResponse { ok, message, consumed }))
}


/// Bytes after a complete varint do not change its decoding.
pub proof fn lemma_varint_decode_extend(buf: Seq<u8>, more: Seq<u8>)
    requires
        spec_varint_decode(buf) is Some,
    ensures
        spec_varint_decode(buf + more) == spec_varint_decode(buf),
{
    let len = varint_len_of_first(buf[0]);
    assert((buf + more)[0] == buf[0]);
    assert((buf + more).subrange(1, len as int) =~= buf.subrange(1, len as int));
}

/// A varint encoding cut short decodes to `None`; cut anywhere at or past
/// its end, it decodes to the encoded value.
pub proof fn lemma_varint_decode_cut(v: nat, more: Seq<u8>, k: nat)
    requires
        v <= VARINT_MAX,
        k <= varint_len(v) + more.len(),
    ensures
        k < varint_len(v) ==> spec_varint_decode((spec_varint_encode(v) + more).take(k as int))
            is None,
        k >= varint_len(v) ==> spec_varint_decode((spec_varint_encode(v) + more).take(k as int))
            == Some((v, varint_len(v))),
{
    let e = spec_varint_encode(v);
    lemma_varint_roundtrip(v, more);
    lemma_varint_roundtrip(v, Seq::empty());
    assert(e + Seq::<u8>::empty() =~= e);
    if k < varint_len(v) {
        assert((e + more).take(k as int) =~= e.take(k as int));
        if k > 0 {
            assert(e.take(k as int)[0] == e[0]);
        }
    } else {
        assert((e + more).take(k as int) =~= e + more.take(k - varint_len(v)));
        lemma_varint_roundtrip(v, more.take(k - varint_len(v)));
    }
}

/// A TCPResponse frame as the protocol lays it out.
pub open spec fn spec_tcp_response_frame(ok: bool, message: Seq<u8>, padding: Seq<u8>) -> Seq<u8> {
    seq![if ok { TCP_STATUS_OK } else { TCP_STATUS_ERROR }] + spec_varint_encode(message.len())
        + message + spec_varint_encode(padding.len()) + padding
}

proof fn lemma_frame_parts(ok: bool, message: Seq<u8>, padding: Seq<u8>, more: Seq<u8>, k: nat)
    requires
        message.len() <= VARINT_MAX,
        padding.len() <= VARINT_MAX,
        1 <= k,
        k <= spec_tcp_response_frame(ok, message, padding).len() + more.len(),
    ensures
        ({
            let f = spec_tcp_response_frame(ok, message, padding);
            let buf = (f + more).take(k as int);
            let e1 = spec_varint_encode(message.len());
            let c2 = 1 + e1.len() + message.len();
            &&& buf[0] == f[0]
            &&& buf.subrange(1, buf.len() as int) == (e1 + (message + spec_varint_encode(padding.len())
                + padding + more)).take(k - 1)
            &&& k >= c2 ==> buf.subrange(c2 as int, buf.len() as int) == (spec_varint_encode(
                padding.len(),
            ) + (padding + more)).take(k - c2)
            &&& k >= c2 ==> buf.subrange((1 + e1.len()) as int, c2 as int) == message
        }),
{
    let f = spec_tcp_response_frame(ok, message, padding);
    let e1 = spec_varint_encode(message.len());
    let e2 = spec_varint_encode(padding.len());
    let buf = (f + more).take(k as int);
    let c2 = 1 + e1.len() + message.len();
    assert(f + more =~= seq![f[0]] + (e1 + (message + e2 + padding + more)));
    assert(buf.subrange(1, buf.len() as int) =~= (e1 + (message + e2 + padding + more)).take(
        k - 1,
    ));
    if k >= c2 {
        assert(f + more =~= (seq![f[0]] + e1 + message) + (e2 + (padding + more)));
        assert(buf.subrange(c2 as int, buf.len() as int) =~= (e2 + (padding + more)).take(k - c2));
        assert(buf.subrange((1 + e1.len()) as int, c2 as int) =~= message);
    }
}

/// A frame laid out as the protocol says decodes to its status and message,
/// whatever follows it, and consumes exactly its own bytes.
pub proof fn lemma_tcp_response_decodes_frame(
    ok: bool,
    message: Seq<u8>,
    padding: Seq<u8>,
    more: Seq<u8>,
)
    requires
        valid_utf8(message),
        message.len() <= VARINT_MAX,
        padding.len() <= VARINT_MAX,
    ensures
        spec_decode_tcp_response(spec_tcp_response_frame(ok, message, padding) + more)
            == (ResponseParse::Frame {
            ok,
            message,
            consumed: spec_tcp_response_frame(ok, message, padding).len(),
        }),
{
    let f = spec_tcp_response_frame(ok, message, padding);
    let k = f.len() + more.len();
    let e1 = spec_varint_encode(message.len());
    let e2 = spec_varint_encode(padding.len());
    lemma_varint_roundtrip(message.len(), Seq::empty());
    lemma_varint_roundtrip(padding.len(), Seq::empty());
    assert(e1 + Seq::<u8>::empty() =~= e1);
    assert(e2 + Seq::<u8>::empty() =~= e2);
    assert((f + more).take(k as int) =~= f + more);
    lemma_frame_parts(ok, message, padding, more, k);
    lemma_varint_decode_cut(message.len(), message + e2 + padding + more, (k - 1) as nat);
    lemma_varint_decode_cut(padding.len(), padding + more, (k - (1 + e1.len() + message.len())) as nat);
}

/// A response written for a text message reads back as that message: the
/// frame (status, then the message's UTF-8 bytes and the padding, each after
/// its length as `varint_encode` writes it) decodes, whatever follows it, to
/// the same status and text and consumes exactly the frame.
pub proof fn lemma_tcp_response_round_trip(ok: bool, m: Seq<char>, padding: Seq<u8>, more: Seq<u8>)
    requires
        encode_utf8(m).len() <= VARINT_MAX,
        padding.len() <= VARINT_MAX,
    ensures
        spec_decode_tcp_response(spec_tcp_response_frame(ok, encode_utf8(m), padding) + more) matches ResponseParse::Frame { ok: o, message, consumed }
            && o == ok && decode_utf8(message) == m && consumed == spec_tcp_response_frame(
            ok,
            encode_utf8(m),
            padding,
        ).len(),
{
    vstd::utf8::encode_utf8_valid_utf8(m);
    vstd::utf8::encode_utf8_decode_utf8(m);
    lemma_tcp_response_decodes_frame(ok, encode_utf8(m), padding, more);
}

/// Every proper prefix of a frame is reported as incomplete.
pub proof fn lemma_tcp_response_prefix_incomplete(
    ok: bool,
    message: Seq<u8>,
    padding: Seq<u8>,
    k: nat,
)
    requires
        valid_utf8(message),
        message.len() <= VARINT_MAX,
        padding.len() <= VARINT_MAX,
        k < spec_tcp_response_frame(ok, message, padding).len(),
    ensures
        spec_decode_tcp_response(spec_tcp_response_frame(ok, message, padding).take(k as int))
            == ResponseParse::Incomplete,
{
    let f = spec_tcp_response_frame(ok, message, padding);
    let e1 = spec_varint_encode(message.len());
    let e2 = spec_varint_encode(padding.len());
    lemma_varint_roundtrip(message.len(), Seq::empty());
    lemma_varint_roundtrip(padding.len(), Seq::empty());
    assert(e1 + Seq::<u8>::empty() =~= e1);
    assert(e2 + Seq::<u8>::empty() =~= e2);
    assert(f + Seq::<u8>::empty() =~= f);
    if k >= 1 {
        lemma_frame_parts(ok, message, padding, Seq::empty(), k);
        lemma_varint_decode_cut(message.len(), message + e2 + padding + Seq::<u8>::empty(), (k - 1) as nat);
        let c2 = 1 + e1.len() + message.len();
        if k >= c2 {
            lemma_varint_decode_cut(padding.len(), padding + Seq::<u8>::empty(), (k - c2) as nat);
        }
    }
}

/// Once a buffer decides (a frame or an error), more bytes do not change it.
pub proof fn lemma_tcp_response_extend(buf: Seq<u8>, more: Seq<u8>)
    requires
        !(spec_decode_tcp_response(buf) is Incomplete),
    ensures
        spec_decode_tcp_response(buf + more) == spec_decode_tcp_response(buf),
{
    let b2 = buf + more;
    assert(b2[0] == buf[0]);
    if buf[0] == TCP_STATUS_OK || buf[0] == TCP_STATUS_ERROR {
        let s1 = buf.subrange(1, buf.len() as int);
        assert(b2.subrange(1, b2.len() as int) =~= s1 + more);
        lemma_varint_decode_extend(s1, more);
        let (msg_len, n1) = spec_varint_decode(s1).unwrap();
        let c1 = 1 + n1;
        assert(b2.subrange(c1 as int, (c1 + msg_len) as int) =~= buf.subrange(
            c1 as int,
            (c1 + msg_len) as int,
        ));
        if valid_utf8(buf.subrange(c1 as int, (c1 + msg_len) as int)) {
            let c2 = c1 + msg_len;
            let s2 = buf.subrange(c2 as int, buf.len() as int);
            assert(b2.subrange(c2 as int, b2.len() as int) =~= s2 + more);
            lemma_varint_decode_extend(s2, more);
        }
    }
}

/// A varint read from a prefix of a buffer: the same value once the prefix
/// holds the whole encoding, nothing before.
pub proof fn lemma_varint_decode_prefix(buf: Seq<u8>, j: int)
    requires
        spec_varint_decode(buf) is Some,
        0 <= j <= buf.len(),
    ensures
        j >= spec_varint_decode(buf).unwrap().1 ==> spec_varint_decode(buf.take(j))
            == spec_varint_decode(buf),
        j < spec_varint_decode(buf).unwrap().1 ==> spec_varint_decode(buf.take(j)) is None,
{
    if j > 0 {
        let len = varint_len_of_first(buf[0]);
        assert(buf.take(j)[0] == buf[0]);
        if j >= len {
            assert(buf.take(j).subrange(1, len as int) =~= buf.subrange(1, len as int));
        }
    }
}

/// Reading a prefix of a buffer that holds a whole frame: short of the
/// frame's end the prefix is incomplete; from its end on it reads as the
/// same frame.
pub proof fn lemma_tcp_response_prefix(buf: Seq<u8>, k: int)
    requires
        spec_decode_tcp_response(buf) is Frame,
        0 <= k <= buf.len(),
    ensures
        spec_decode_tcp_response(buf)->consumed <= buf.len(),
        k < spec_decode_tcp_response(buf)->consumed ==> spec_decode_tcp_response(buf.take(k)) is Incomplete,
        k >= spec_decode_tcp_response(buf)->consumed ==> spec_decode_tcp_response(buf.take(k))
            == spec_decode_tcp_response(buf),
{
    let t = buf.take(k);
    if k > 0 {
        assert(t[0] == buf[0]);
        let s1 = buf.subrange(1, buf.len() as int);
        assert(t.subrange(1, t.len() as int) =~= s1.take(k - 1));
        lemma_varint_decode_prefix(s1, k - 1);
        let (msg_len, n1) = spec_varint_decode(s1)->0;
        let c1 = 1 + n1;
        if k - 1 >= n1 && k >= c1 + msg_len {
            assert(t.subrange(c1 as int, (c1 + msg_len) as int) =~= buf.subrange(
                c1 as int,
                (c1 + msg_len) as int,
            ));
            let c2 = c1 + msg_len;
            let s2 = buf.subrange(c2 as int, buf.len() as int);
            assert(t.subrange(c2 as int, t.len() as int) =~= s2.take(k - c2));
            lemma_varint_decode_prefix(s2, k - c2);
        }
    }
}

/// A decoded frame is decided by its own bytes: it lies inside the buffer,
/// every shorter prefix is incomplete, and its bytes followed by anything
/// decode to the same frame.
pub proof fn lemma_tcp_response_decided(buf: Seq<u8>, k: int, more: Seq<u8>)
    requires
        spec_decode_tcp_response(buf) is Frame,
        0 <= k < spec_decode_tcp_response(buf)->consumed,
    ensures
        spec_decode_tcp_response(buf)->consumed <= buf.len(),
        spec_decode_tcp_response(buf.take(k)) is Incomplete,
        spec_decode_tcp_response(buf.take(spec_decode_tcp_response(buf)->consumed as int) + more)
            == spec_decode_tcp_response(buf),
{
    let c = spec_decode_tcp_response(buf)->consumed;
    lemma_tcp_response_prefix(buf, k);
    lemma_tcp_response_prefix(buf, c as int);
    lemma_tcp_response_extend(buf.take(c as int), more);
}

/// Hysteria 2 outbound adapter settings.
pub struct Hy2Adapter {
    name: String,
    addr: String,
    password: String,
    sni: String,
    skip_cert_verify: bool,
}

/// SNI in effect: the given one unless it is absent or blank, else the server.
pub open spec fn effective_sni(sni: Option<Seq<char>>, server: Seq<char>) -> Seq<char> {
    match sni {
        Some(s) => if trim(s).len() == 0 {
            server
        } else {
            s
        },
        None => server,
    }
}

/// Text of the `host:port` address.
pub open spec fn host_port(host: Seq<char>, port: u16) -> Seq<char> {
    host + ":"@ + decimal(port as nat)
}

impl Hy2Adapter {
    pub closed spec fn spec_name(&self) -> Seq<char> {
        self.name@
    }

    pub closed spec fn spec_addr(&self) -> Seq<char> {
        self.addr@
    }

    pub closed spec fn spec_password(&self) -> Seq<char> {
        self.password@
    }

    pub closed spec fn spec_sni(&self) -> Seq<char> {
        self.sni@
    }

    pub closed spec fn spec_skip_cert_verify(&self) -> bool {
        self.skip_cert_verify
    }

    /// Builds the adapter; an empty password is refused.
    pub fn new(
        name: &str,
        server: &str,
        port: u16,
        password: &str,
        sni: Option<&str>,
        skip_cert_verify: bool,
    ) -> (r: Result<Self, String>)
        ensures
            r is Err <==> password@.len() == 0,
            r matches Err(e) ==> e@ == "hysteria2["@ + name@ + "]: password must not be empty"@,
            r matches Ok(a) ==> a.spec_name() == name@ && a.spec_addr() == host_port(server@, port)
                && a.spec_password() == password@ && a.spec_sni() == effective_sni(
                match sni {
                    Some(s) => Some(s@),
                    None => None,
                },
                server@,
            ) && a.spec_skip_cert_verify() == skip_cert_verify,
    {
        if password.is_empty() {
            let mut e = owned("hysteria2[");
            string_append(&mut e, name);
            string_append(&mut e, "]: password must not be empty");
            return Err(e);
        }
        let sni_text = match sni {
            Some(s) => {
                let t = trimmed(s);
                if t.as_str().is_empty() {
                    owned(server)
                } else {
                    owned(s)
                }
            },
            None => owned(server),
        };
        let mut addr = owned(server);
        string_append(&mut addr, ":");
        push_decimal(&mut addr, port as u64);
        Ok(Hy2Adapter {
            name: owned(name),
            addr,
            password: owned(password),
            sni: sni_text,
            skip_cert_verify,
        })
    }

    pub fn name(&self) -> (r: &str)
        ensures
            r@ == self.spec_name(),
    {
        self.name.as_str()
    }

    pub fn addr(&self) -> (r: &str)
        ensures
            r@ == self.spec_addr(),
    {
        self.addr.as_str()
    }

    /// SNI sent in the TLS handshake.
    pub fn sni(&self) -> (r: &str)
        ensures
            r@ == self.spec_sni(),
    {
        self.sni.as_str()
    }

    pub fn skip_cert_verify(&self) -> (r: bool)
        ensures
            r == self.spec_skip_cert_verify(),
    {
        self.skip_cert_verify
    }

    pub fn adapter_type(&self) -> (r: AdapterType)
        ensures
            r == AdapterType::Hysteria2,
    {
        AdapterType::Hysteria2
    }

    /// UDP relaying is not offered by this outbound.
    pub fn support_udp(&self) -> (r: bool)
        ensures
            !r,
    {
        false
    }

    /// The answer to a TCP dial: the data plane is not carried yet.
    pub fn tcp_unsupported() -> (r: MeowError)
        ensures
            r matches MeowError::Proxy(m) && m@ == "hysteria2: data plane not implemented yet — this PR only ships the frame codec and config wiring (issue #72). HTTP/3 auth + QUIC streaming land in the next PR."@,
    {
        MeowError::Proxy(
            owned(
                "hysteria2: data plane not implemented yet — this PR only ships the frame codec and config wiring (issue #72). HTTP/3 auth + QUIC streaming land in the next PR.",
            ),
        )
    }

    /// The answer to a UDP dial.
    pub fn udp_unsupported() -> (r: MeowError)
        ensures
            r matches MeowError::Proxy(m) && m@ == "hysteria2: UDP not implemented yet"@,
    {
        MeowError::Proxy(owned("hysteria2: UDP not implemented yet"))
    }
}

} // verus!

//! A minimal SOCKS5 CONNECT client, as the bytes it sends and the checks it
//! makes on the replies; the connection itself is driven by the caller.

use vstd::prelude::*;
use crate::bytes::{be_bytes, push_be_bytes};
use crate::common::error::{hex2, push_hex2};
use crate::common::ip::IpAddress;
use crate::text::{owned, string_append};

verus! {

/// Version 5, one method offered, "no authentication".
pub open spec fn spec_greeting() -> Seq<u8> {
    seq![0x05u8, 0x01, 0x00]
}

/// The greeting that opens the method negotiation.
pub fn greeting() -> (r: Vec<u8>)
    ensures
        r@ == spec_greeting(),
{
    let r: Vec<u8> = vec![0x05u8, 0x01, 0x00];
    assert(r@ =~= spec_greeting());
    r
}

/// The message when the proxy does not accept "no authentication".
pub open spec fn auth_failed_message(reply: Seq<u8>) -> Seq<char> {
    "SOCKS5 auth failed: "@ + hex2(reply[0]) + " "@ + hex2(reply[1])
}

/// Checks the two-byte method-selection reply: version 5, method 0.
pub fn check_auth_reply(reply: [u8; 2]) -> (r: Result<(), String>)
    ensures
        r is Ok <==> (reply@[0] == 0x05 && reply@[1] == 0x00),
        r matches Err(m) ==> m@ == auth_failed_message(reply@),
{
    let a = reply[0];
    let b = reply[1];
    if a != 0x05 || b != 0x00 {
        let mut m = owned("SOCKS5 auth failed: ");
        push_hex2(&mut m, a);
        string_append(&mut m, " ");
        push_hex2(&mut m, b);
        return Err(m);
    }
    Ok(())
}

/// The CONNECT request for `target:port`: version 5, command 1, a reserved
/// zero, the address type (1 for IPv4, 4 for IPv6), the address and the port,
/// most significant byte first (an IPv6 address as its high and low halves).
pub open spec fn connect_request_bytes(target: IpAddress, port: u16) -> Seq<u8> {
    match target {
        IpAddress::V4(a) => seq![0x05u8, 0x01, 0x00, 0x01] + be_bytes(a as nat, 4) + be_bytes(
            port as nat,
            2,
        ),
        IpAddress::V6(a) => seq![0x05u8, 0x01, 0x00, 0x04] + be_bytes(
            a as nat / 0x1_0000_0000_0000_0000,
            8,
        ) + be_bytes(a as nat % 0x1_0000_0000_0000_0000, 8) + be_bytes(port as nat, 2),
    }
}

/// Builds the CONNECT request for `target:port`.
pub fn connect_request(target: IpAddress, port: u16) -> (r: Vec<u8>)
    ensures
        r@ == connect_request_bytes(target, port),
{
    let mut out: Vec<u8> = Vec::new();
    out.push(0x05);
    out.push(0x01);
    out.push(0x00);
    match target {
        IpAddress::V4(a) => {
            out.push(0x01);
            let ghost head = out@;
            push_be_bytes(&mut out, a as u64, 4);
            push_be_bytes(&mut out, port as u64, 2);
            assert(head =~= seq![0x05u8, 0x01, 0x00, 0x01]);
            assert(out@ =~= connect_request_bytes(target, port));
        },
        IpAddress::V6(a) => {
            out.push(0x04);
            let ghost head = out@;
            let hi = #[verifier::truncate] ((a >> 64u128) as u64);
            let lo = #[verifier::truncate] (a as u64);
            assert(hi == a / 0x1_0000_0000_0000_0000) by (bit_vector)
                requires
                    hi == (a >> 64u128) as u64,
            ;
            assert(lo == a % 0x1_0000_0000_0000_0000) by (bit_vector)
                requires
                    lo == a as u64,
            ;
            push_be_bytes(&mut out, hi, 8);
            push_be_bytes(&mut out, lo, 8);
            push_be_bytes(&mut out, port as u64, 2);
            assert(head =~= seq![0x05u8, 0x01, 0x00, 0x04]);
            assert(out@ =~= connect_request_bytes(target, port));
        },
    }
    out
}

/// The message when the proxy refuses the CONNECT.
pub open spec fn connect_failed_message(status: u8) -> Seq<char> {
    "SOCKS5 connect failed: reply status "@ + hex2(status)
}

/// Checks the ten-byte CONNECT reply: version 5, status 0 (succeeded).
pub fn check_connect_reply(reply: [u8; 10]) -> (r: Result<(), String>)
    ensures
        r is Ok <==> (reply@[0] == 0x05 && reply@[1] == 0x00),
        r matches Err(m) ==> m@ == connect_failed_message(reply@[1]),
{
    let v = reply[0];
    let status = reply[1];
    if v != 0x05 || status != 0x00 {
        let mut m = owned("SOCKS5 connect failed: reply status ");
        push_hex2(&mut m, status);
        return Err(m);
    }
    Ok(())
}

} // verus!

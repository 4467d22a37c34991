//! The error type shared by adapters, resolvers and configuration.

use vstd::prelude::*;
use crate::text::{decimal, hex_lower, owned, push_decimal, push_hex_lower, string_append, string_push};

verus! {

#[verifier::external_type_specification]
#[verifier::external_body]
pub struct ExIoError(std::io::Error);

/// Errors of the proxy core.
#[derive(Debug)]
pub enum MeowError {
    Io(std::io::Error),
    Config(String),
    Dns(String),
    Proxy(String),
    NotSupported(String),
    ProxyAuthFailed,
    HttpConnectFailed(u16),
    Socks5ConnectFailed(u8),
    NoAcceptableMethod,
    NoProxyAvailable,
    RelayHopFailed { hop: usize, source: Box<MeowError> },
    UdpNotSupported,
    Other(String),
}

/// Two lower-case hexadecimal digits of a byte.
pub open spec fn hex2(b: u8) -> Seq<char> {
    if b < 16 {
        seq!['0'] + hex_lower(b as nat)
    } else {
        hex_lower(b as nat)
    }
}

/// Appends the two lower-case hexadecimal digits of `b` (`{:02x}`).
pub fn push_hex2(s: &mut String, b: u8)
    ensures
        final(s)@ == old(s)@ + hex2(b),
{
    let ghost before = s@;
    if b < 16 {
        string_push(s, '0');
    }
    push_hex_lower(s, b as u64);
    proof {
        if b < 16 {
            assert(s@ =~= before + hex2(b));
        }
    }
}

/// The message of an error; for an I/O error, the part after the prefix comes
/// from the I/O error itself and is left open here.
pub open spec fn error_message(e: MeowError) -> Option<Seq<char>>
    decreases e,
{
    match e {
        MeowError::Io(_) => None,
        MeowError::Config(s) => Some("Config error: "@ + s@),
        MeowError::Dns(s) => Some("DNS error: "@ + s@),
        MeowError::Proxy(s) => Some("Proxy error: "@ + s@),
        MeowError::NotSupported(s) => Some("Not supported: "@ + s@),
        MeowError::ProxyAuthFailed => Some("proxy authentication failed"@),
        MeowError::HttpConnectFailed(code) => Some(
            "HTTP CONNECT failed with status "@ + decimal(code as nat),
        ),
        MeowError::Socks5ConnectFailed(code) => Some(
            "SOCKS5 connect failed with reply code 0x"@ + hex2(code),
        ),
        MeowError::NoAcceptableMethod => Some("SOCKS5: no acceptable authentication method"@),
        MeowError::NoProxyAvailable => Some("no proxy available"@),
        MeowError::RelayHopFailed { hop, source } => match error_message(*source) {
            Some(m) => Some("relay chain failed at hop "@ + decimal(hop as nat) + ": "@ + m),
            None => None,
        },
        MeowError::UdpNotSupported => Some("UDP not supported by this relay chain"@),
        MeowError::Other(s) => Some(s@),
    }
}

/// Text of an I/O error (its `Display`).
#[verifier::external_body]
fn io_error_text(e: &std::io::Error) -> String {
    e.to_string()
}

impl MeowError {
    /// The human-readable message.
    pub fn to_string(&self) -> (r: String)
        ensures
            error_message(*self) matches Some(m) ==> r@ == m,
        decreases self,
    {
        match self {
            MeowError::Io(e) => {
                let mut s = owned("IO error: ");
                let t = io_error_text(e);
                string_append(&mut s, t.as_str());
                s
            },
            MeowError::Config(m) => {
                let mut s = owned("Config error: ");
                string_append(&mut s, m.as_str());
                s
            },
            MeowError::Dns(m) => {
                let mut s = owned("DNS error: ");
                string_append(&mut s, m.as_str());
                s
            },
            MeowError::Proxy(m) => {
                let mut s = owned("Proxy error: ");
                string_append(&mut s, m.as_str());
                s
            },
            MeowError::NotSupported(m) => {
                let mut s = owned("Not supported: ");
                string_append(&mut s, m.as_str());
                s
            },
            MeowError::ProxyAuthFailed => owned("proxy authentication failed"),
            MeowError::HttpConnectFailed(code) => {
                let mut s = owned("HTTP CONNECT failed with status ");
                push_decimal(&mut s, *code as u64);
                s
            },
            MeowError::Socks5ConnectFailed(code) => {
                let mut s = owned("SOCKS5 connect failed with reply code 0x");
                push_hex2(&mut s, *code);
                s
            },
            MeowError::NoAcceptableMethod => owned("SOCKS5: no acceptable authentication method"),
            MeowError::NoProxyAvailable => owned("no proxy available"),
            MeowError::RelayHopFailed { hop, source } => {
                let mut s = owned("relay chain failed at hop ");
                push_decimal(&mut s, *hop as u64);
                string_append(&mut s, ": ");
                let inner = source.to_string();
                string_append(&mut s, inner.as_str());
                s
            },
            MeowError::UdpNotSupported => owned("UDP not supported by this relay chain"),
            MeowError::Other(m) => owned(m.as_str()),
        }
    }
}

impl From<std::io::Error> for MeowError {
    fn from(e: std::io::Error) -> (r: MeowError) {
        MeowError::Io(e)
    }
}

impl vstd::std_specs::convert::FromSpecImpl<std::io::Error> for MeowError {
    open spec fn obeys_from_spec() -> bool {
        true
    }

    open spec fn from_spec(v: std::io::Error) -> MeowError {
        MeowError::Io(v)
    }
}

} // verus!

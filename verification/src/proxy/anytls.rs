//! The AnyTLS outbound: its endpoint and the server name its TLS handshake
//! presents. The protocol session itself is run by the caller.

use vstd::prelude::*;
use crate::common::adapter_type::AdapterType;
use crate::common::error::MeowError;
use crate::common::ip::{parse_ip, spec_parse_ip, IpAddress};
use crate::proxy::hysteria2::{effective_sni, host_port};
use crate::text::{
    chars_of, owned, push_decimal, string_append, substring, trim, trim_bounds,
};

verus! {

/// Whether `rustls` accepts `name` as a server name.
pub uninterp spec fn spec_server_name_ok(name: Seq<char>) -> bool;

/// `rustls::pki_types::ServerName::try_from(String)` succeeds: `name` is a
/// valid DNS name or an IP address as that crate reads them.
#[verifier::external_body]
fn server_name_ok(name: &str) -> (r: bool)
    ensures
        r == spec_server_name_ok(name@),
{
    rustls::pki_types::ServerName::try_from(name.to_string()).is_ok()
}

/// `s` without any leading `c`.
pub open spec fn strip_leading(s: Seq<char>, c: char) -> Seq<char>
    decreases s.len(),
{
    if s.len() > 0 && s[0] == c {
        strip_leading(s.drop_first(), c)
    } else {
        s
    }
}

/// `s` without any trailing `c`.
pub open spec fn strip_trailing(s: Seq<char>, c: char) -> Seq<char>
    decreases s.len(),
{
    if s.len() > 0 && s.last() == c {
        strip_trailing(s.drop_last(), c)
    } else {
        s
    }
}

/// A configured server name trimmed, without the brackets of an IPv6
/// literal (`[::1]`).
pub open spec fn sni_normalized(v: Seq<char>) -> Seq<char> {
    strip_trailing(strip_leading(trim(v), '['), ']')
}

/// The server name the TLS handshake presents.
#[derive(Debug, Clone, PartialEq, Eq)]
pub enum SniTarget {
    /// An IP address.
    Ip(IpAddress),
    /// A DNS name (as `rustls` accepts it).
    Name(String),
}

/// The server name for a configured value, or why there is none.
pub open spec fn spec_server_name(v: Seq<char>) -> Result<Result<IpAddress, Seq<char>>, Seq<char>> {
    let n = sni_normalized(v);
    if n.len() == 0 {
        Err("SNI cannot be empty"@)
    } else {
        match spec_parse_ip(n) {
            Some(ip) => Ok(Ok(ip)),
            None => if spec_server_name_ok(n) {
                Ok(Err(n))
            } else {
                Err("invalid SNI '"@ + n + "'"@)
            },
        }
    }
}

/// The server name for a configured value: an IP address when it reads as
/// one, else a DNS name that `rustls` accepts.
pub fn build_server_name(value: &str) -> (r: Result<SniTarget, String>)
    ensures
        match spec_server_name(value@) {
            Ok(Ok(ip)) => r == Ok::<SniTarget, String>(SniTarget::Ip(ip)),
            Ok(Err(n)) => (r matches Ok(SniTarget::Name(s)) && s@ == n),
            Err(e) => (r matches Err(m) && m@ == e),
        },
{
    let cs = chars_of(value);
    proof {
        assert(cs@.subrange(0, cs@.len() as int) =~= value@);
    }
    let (lo0, hi0) = trim_bounds(&cs, 0, cs.len());
    let ghost t = trim(value@);
    let mut lo = lo0;
    while lo < hi0 && cs[lo] == '['
        invariant
            lo0 <= lo <= hi0 <= cs@.len(),
            cs@.subrange(lo0 as int, hi0 as int) == t,
            strip_leading(t, '[') == strip_leading(cs@.subrange(lo as int, hi0 as int), '['),
        decreases hi0 - lo,
    {
        assert(cs@.subrange(lo as int, hi0 as int).drop_first() =~= cs@.subrange(
            lo as int + 1,
            hi0 as int,
        ));
        lo = lo + 1;
    }
    let ghost u = cs@.subrange(lo as int, hi0 as int);
    assert(strip_leading(u, '[') == u);
    let mut hi = hi0;
    while hi > lo && cs[hi - 1] == ']'
        invariant
            lo <= hi <= hi0 <= cs@.len(),
            u == cs@.subrange(lo as int, hi0 as int),
            strip_trailing(u, ']') == strip_trailing(cs@.subrange(lo as int, hi as int), ']'),
        decreases hi - lo,
    {
        assert(cs@.subrange(lo as int, hi as int).drop_last() =~= cs@.subrange(
            lo as int,
            hi as int - 1,
        ));
        hi = hi - 1;
    }
    let normalized = substring(&cs, lo, hi);
    assert(normalized@ == sni_normalized(value@));
    if lo == hi {
        return Err(owned("SNI cannot be empty"));
    }
    if let Some(ip) = parse_ip(normalized.as_str()) {
        return Ok(SniTarget::Ip(ip));
    }
    if server_name_ok(normalized.as_str()) {
        return Ok(SniTarget::Name(normalized));
    }
    let mut m = owned("invalid SNI '");
    string_append(&mut m, normalized.as_str());
    string_append(&mut m, "'");
    Err(m)
}

/// An AnyTLS outbound: its name, the server's `host:port`, the server
/// name of the TLS handshake, the shared password, and whether the
/// server's certificate goes unchecked.
pub struct AnytlsAdapter {
    name: String,
    addr: String,
    server_name: SniTarget,
    password: String,
    skip_cert_verify: bool,
}

impl AnytlsAdapter {
    pub closed spec fn spec_name(&self) -> Seq<char> {
        self.name@
    }

    pub closed spec fn spec_addr(&self) -> Seq<char> {
        self.addr@
    }

    pub closed spec fn spec_server_name(&self) -> SniTarget {
        self.server_name
    }

    pub closed spec fn spec_password(&self) -> Seq<char> {
        self.password@
    }

    pub closed spec fn spec_skip_cert_verify(&self) -> bool {
        self.skip_cert_verify
    }

    /// Builds the adapter for `server:port`; `sni` names the handshake's
    /// server (the server itself when missing or blank). An unusable server
    /// name is an error naming the adapter.
    pub fn new(
        name: &str,
        server: &str,
        port: u16,
        password: &str,
        sni: Option<&str>,
        skip_cert_verify: bool,
    ) -> (r: Result<AnytlsAdapter, String>)
        ensures
            ({
                let eff = effective_sni(
                    match sni {
                        Some(s) => Some(s@),
                        None => None,
                    },
                    server@,
                );
                match spec_server_name(eff) {
                    Err(e) => (r matches Err(m) && m@ == "anytls["@ + name@ + "]: "@ + e),
                    Ok(target) => (r matches Ok(a) && a.spec_name() == name@ && a.spec_addr()
                        == host_port(server@, port) && a.spec_password() == password@
                        && a.spec_skip_cert_verify() == skip_cert_verify && match target {
                        Ok(ip) => a.spec_server_name() == SniTarget::Ip(ip),
                        Err(n) => (a.spec_server_name() matches SniTarget::Name(s) && s@ == n),
                    }),
                }
            }),
    {
        let mut addr = owned(server);
        string_append(&mut addr, ":");
        push_decimal(&mut addr, port as u64);
        let eff: &str = match sni {
            Some(s) => {
                let t = crate::text::trimmed(s);
                if t.as_str().is_empty() {
                    server
                } else {
                    s
                }
            },
            None => server,
        };
        match build_server_name(eff) {
            Ok(server_name) => Ok(
                AnytlsAdapter {
                    name: owned(name),
                    addr,
                    server_name,
                    password: owned(password),
                    skip_cert_verify,
                },
            ),
            Err(e) => {
                let mut m = owned("anytls[");
                string_append(&mut m, name);
                string_append(&mut m, "]: ");
                string_append(&mut m, e.as_str());
                Err(m)
            },
        }
    }

    pub fn name(&self) -> (r: &str)
        ensures
            r@ == self.spec_name(),
    {
        self.name.as_str()
    }

    pub fn adapter_type(&self) -> (r: AdapterType)
        ensures
            r == AdapterType::Anytls,
    {
        AdapterType::Anytls
    }

    pub fn addr(&self) -> (r: &str)
        ensures
            r@ == self.spec_addr(),
    {
        self.addr.as_str()
    }

    /// UDP is not carried yet.
    pub fn support_udp(&self) -> (r: bool)
        ensures
            !r,
    {
        false
    }

    pub fn server_name(&self) -> (r: &SniTarget)
        ensures
            *r == self.spec_server_name(),
    {
        &self.server_name
    }

    pub fn password(&self) -> (r: &str)
        ensures
            r@ == self.spec_password(),
    {
        self.password.as_str()
    }

    pub fn skip_cert_verify(&self) -> (r: bool)
        ensures
            r == self.spec_skip_cert_verify(),
    {
        self.skip_cert_verify
    }

    /// The answer to a UDP dial.
    pub fn udp_unsupported() -> (r: MeowError)
        ensures
            r matches MeowError::Proxy(m) && m@ == "anytls: UDP not implemented yet"@,
    {
        MeowError::Proxy(owned("anytls: UDP not implemented yet"))
    }
}

} // verus!

//! Nameserver addresses: `8.8.8.8`, `udp://host:53`, `tcp://…`,
//! `tls://host[:port][#sni]`, `https://host[:port][/path][#sni]`, with an
//! optional `#PROXY` tag on the plain forms.

use vstd::prelude::*;
use crate::common::ip::{ip_text, parse_ip, spec_ip_text, spec_parse_ip, IpAddress};
use crate::text::{
    all_ascii_digits, chars_all_digits, chars_of, decimal, digits_value, find_char, find_last_char,
    find_seq, find_str, first_index, last_index, owned, push_decimal, starts_with, string_append,
    strip_prefix_at, substring, trim, trim_bounds,
};

verus! {

// ---------------------------------------------------------------------------
// Types and their views
// ---------------------------------------------------------------------------

/// Either a resolved IP address or a hostname that needs bootstrap resolution.
#[derive(Debug, Clone, PartialEq, Eq)]
pub enum HostOrIp {
    Ip(IpAddress),
    Host(String),
}

pub enum HostView {
    Ip(IpAddress),
    Host(Seq<char>),
}

impl View for HostOrIp {
    type V = HostView;

    open spec fn view(&self) -> HostView {
        match self {
            HostOrIp::Ip(ip) => HostView::Ip(*ip),
            HostOrIp::Host(h) => HostView::Host(h@),
        }
    }
}

/// A parsed nameserver URL in one of the supported transport forms.
#[derive(Debug, Clone, PartialEq, Eq)]
#[non_exhaustive]
pub enum NameServerUrl {
    Udp { addr: HostOrIp, port: u16 },
    Tcp { addr: HostOrIp, port: u16 },
    Tls { addr: HostOrIp, port: u16, sni: String },
    Https { addr: HostOrIp, port: u16, path: String, sni: String },
}

pub enum UrlView {
    Udp { addr: HostView, port: u16 },
    Tcp { addr: HostView, port: u16 },
    Tls { addr: HostView, port: u16, sni: Seq<char> },
    Https { addr: HostView, port: u16, path: Seq<char>, sni: Seq<char> },
}

impl View for NameServerUrl {
    type V = UrlView;

    open spec fn view(&self) -> UrlView {
        match self {
            NameServerUrl::Udp { addr, port } => UrlView::Udp { addr: addr@, port: *port },
            NameServerUrl::Tcp { addr, port } => UrlView::Tcp { addr: addr@, port: *port },
            NameServerUrl::Tls { addr, port, sni } => UrlView::Tls {
                addr: addr@,
                port: *port,
                sni: sni@,
            },
            NameServerUrl::Https { addr, port, path, sni } => UrlView::Https {
                addr: addr@,
                port: *port,
                path: path@,
                sni: sni@,
            },
        }
    }
}

/// Why a nameserver string was refused.
#[derive(Debug, Clone, PartialEq, Eq)]
#[non_exhaustive]
pub enum NameServerParseError {
    EmptyInput,
    QuicNotSupported,
    UnsupportedScheme(String),
    InvalidHost(String),
    InvalidPort(String),
    EncryptedFeatureDisabled,
}

pub enum ParseErrorView {
    EmptyInput,
    QuicNotSupported,
    UnsupportedScheme(Seq<char>),
    InvalidHost(Seq<char>),
    InvalidPort(Seq<char>),
    EncryptedFeatureDisabled,
}

impl View for NameServerParseError {
    type V = ParseErrorView;

    open spec fn view(&self) -> ParseErrorView {
        match self {
            NameServerParseError::EmptyInput => ParseErrorView::EmptyInput,
            NameServerParseError::QuicNotSupported => ParseErrorView::QuicNotSupported,
            NameServerParseError::UnsupportedScheme(s) => ParseErrorView::UnsupportedScheme(s@),
            NameServerParseError::InvalidHost(s) => ParseErrorView::InvalidHost(s@),
            NameServerParseError::InvalidPort(s) => ParseErrorView::InvalidPort(s@),
            NameServerParseError::EncryptedFeatureDisabled => ParseErrorView::EncryptedFeatureDisabled,
        }
    }
}

/// A result taken by the views of what it holds.
pub open spec fn result_view<T: View, E: View>(r: Result<T, E>) -> Result<T::V, E::V> {
    match r {
        Ok(t) => Ok(t@),
        Err(e) => Err(e@),
    }
}

// ---------------------------------------------------------------------------
// The grammar
// ---------------------------------------------------------------------------

/// A port: decimal digits (after an optional `+`) worth 1 to 65535.
pub open spec fn spec_parse_port(s: Seq<char>) -> Option<u16> {
    let d = if s.len() > 0 && s[0] == '+' {
        s.skip(1)
    } else {
        s
    };
    if d.len() > 0 && all_ascii_digits(d) && 1 <= digits_value(d) <= 65535 {
        Some(digits_value(d) as u16)
    } else {
        None
    }
}

/// An IP literal, else a hostname without `/` or space.
pub open spec fn spec_host_or_ip(s: Seq<char>) -> Result<HostView, ParseErrorView> {
    if s.len() == 0 {
        Err(ParseErrorView::InvalidHost(s))
    } else {
        match spec_parse_ip(s) {
            Some(ip) => Ok(HostView::Ip(ip)),
            None => if first_index(s, '/') is Some || first_index(s, ' ') is Some {
                Err(ParseErrorView::InvalidHost(s))
            } else {
                Ok(HostView::Host(s))
            },
        }
    }
}

/// `[ipv6]` or `[ipv6]:port`, else `host:port` when all after the last `:`
/// is digits, else a bare host with `default_port`.
pub open spec fn spec_host_port(s: Seq<char>, default_port: u16) -> Result<
    (HostView, u16),
    ParseErrorView,
> {
    if s.len() > 0 && s[0] == '[' {
        match first_index(s, ']') {
            None => Err(ParseErrorView::InvalidHost(s)),
            Some(close) => match spec_parse_ip(s.subrange(1, close)) {
                None => Err(ParseErrorView::InvalidHost(s)),
                Some(ip) => if close + 1 < s.len() {
                    if s[close + 1] == ':' {
                        match spec_parse_port(s.skip(close + 2)) {
                            Some(p) => Ok((HostView::Ip(ip), p)),
                            None => Err(ParseErrorView::InvalidPort(s.skip(close + 2))),
                        }
                    } else {
                        Err(ParseErrorView::InvalidHost(s))
                    }
                } else {
                    Ok((HostView::Ip(ip), default_port))
                },
            },
        }
    } else {
        match last_index(s, ':') {
            Some(idx) if all_ascii_digits(s.skip(idx + 1)) => match spec_parse_port(
                s.skip(idx + 1),
            ) {
                None => Err(ParseErrorView::InvalidPort(s.skip(idx + 1))),
                Some(p) => match spec_host_or_ip(s.take(idx)) {
                    Ok(a) => Ok((a, p)),
                    Err(e) => Err(e),
                },
            },
            _ => match spec_host_or_ip(s) {
                Ok(a) => Ok((a, default_port)),
                Err(e) => Err(e),
            },
        }
    }
}

/// The text of a host: the IP's text or the hostname.
pub open spec fn host_text(h: HostView) -> Seq<char> {
    match h {
        HostView::Ip(ip) => spec_ip_text(ip),
        HostView::Host(s) => s,
    }
}

/// The SNI: a non-empty fragment, else the host's text.
pub open spec fn spec_sni(addr: HostView, fragment: Option<Seq<char>>) -> Seq<char> {
    match fragment {
        Some(f) if f.len() > 0 => f,
        _ => host_text(addr),
    }
}

pub open spec fn spec_parse_tls(rest: Seq<char>, fragment: Option<Seq<char>>) -> Result<
    UrlView,
    ParseErrorView,
> {
    match spec_host_port(rest, 853) {
        Ok((addr, port)) => Ok(UrlView::Tls { addr, port, sni: spec_sni(addr, fragment) }),
        Err(e) => Err(e),
    }
}

/// The host part ends at the first `/`, which starts the path
/// (`/dns-query` when there is none).
pub open spec fn spec_parse_https(rest: Seq<char>, fragment: Option<Seq<char>>) -> Result<
    UrlView,
    ParseErrorView,
> {
    let (hostport, path) = match first_index(rest, '/') {
        Some(i) => (rest.take(i), rest.skip(i)),
        None => (rest, "/dns-query"@),
    };
    match spec_host_port(hostport, 443) {
        Ok((addr, port)) => Ok(UrlView::Https { addr, port, path, sni: spec_sni(addr, fragment) }),
        Err(e) => Err(e),
    }
}

/// A character allowed in a scheme name.
pub open spec fn scheme_char(c: char) -> bool {
    ('a' <= c <= 'z') || ('A' <= c <= 'Z') || ('0' <= c <= '9') || c == '+' || c == '-' || c == '.'
}

/// The URL without its `#fragment`, dispatched on its scheme.
pub open spec fn spec_parse_base(b: Seq<char>, fragment: Option<Seq<char>>) -> Result<
    UrlView,
    ParseErrorView,
> {
    if starts_with(b, "tls://"@) {
        spec_parse_tls(b.skip("tls://"@.len() as int), fragment)
    } else if starts_with(b, "https://"@) {
        spec_parse_https(b.skip("https://"@.len() as int), fragment)
    } else if starts_with(b, "udp://"@) {
        match spec_host_port(b.skip("udp://"@.len() as int), 53) {
            Ok((addr, port)) => Ok(UrlView::Udp { addr, port }),
            Err(e) => Err(e),
        }
    } else if starts_with(b, "tcp://"@) {
        match spec_host_port(b.skip("tcp://"@.len() as int), 53) {
            Ok((addr, port)) => Ok(UrlView::Tcp { addr, port }),
            Err(e) => Err(e),
        }
    } else if starts_with(b, "quic://"@) {
        Err(ParseErrorView::QuicNotSupported)
    } else {
        match find_seq(b, "://"@) {
            Some(c) if (forall|i: int| 0 <= i < c ==> scheme_char(#[trigger] b[i])) && c <= 20 => Err(
                ParseErrorView::UnsupportedScheme(b.take(c)),
            ),
            _ => match spec_host_port(b, 53) {
                Ok((addr, port)) => Ok(UrlView::Udp { addr, port }),
                Err(e) => Err(e),
            },
        }
    }
}

/// A nameserver URL: trimmed; the part after the first `#` is the fragment.
pub open spec fn spec_parse_url(s: Seq<char>) -> Result<UrlView, ParseErrorView> {
    let t = trim(s);
    if t.len() == 0 {
        Err(ParseErrorView::EmptyInput)
    } else {
        match first_index(t, '#') {
            Some(i) => spec_parse_base(t.take(i), Some(t.skip(i + 1))),
            None => spec_parse_base(t, None),
        }
    }
}

/// The scheme prefixes and what follows them.
proof fn lemma_scheme_prefix(scheme: Seq<char>, h: Seq<char>)
    requires
        scheme == "udp://"@ || scheme == "tcp://"@ || scheme == "tls://"@,
    ensures
        starts_with(scheme + h, "tls://"@) <==> scheme == "tls://"@,
        !starts_with(scheme + h, "https://"@),
        starts_with(scheme + h, "udp://"@) <==> scheme == "udp://"@,
        starts_with(scheme + h, "tcp://"@) <==> scheme == "tcp://"@,
        (scheme + h).skip(6) == h,
{
    reveal_strlit("udp://");
    reveal_strlit("tcp://");
    reveal_strlit("tls://");
    reveal_strlit("https://");
    let b = scheme + h;
    assert(b.take(6) =~= scheme);
    assert(b.skip(6) =~= h);
    if b.len() >= 8 {
        assert(b.take(8)[0] == b[0]);
        assert(b.take(8)[1] == b[1]);
    }
}

/// `tcp://` and `udp://` read what follows them alike, default port
/// included: a TCP nameserver is the UDP one with the other transport,
/// and both are refused for the same reason.
pub proof fn lemma_tcp_reads_like_udp(h: Seq<char>, fragment: Option<Seq<char>>)
    ensures
        match spec_parse_base("udp://"@ + h, fragment) {
            Ok(UrlView::Udp { addr, port }) => spec_parse_base("tcp://"@ + h, fragment) == Ok::<
                UrlView,
                ParseErrorView,
            >(UrlView::Tcp { addr, port }),
            Err(e) => spec_parse_base("tcp://"@ + h, fragment) == Err::<UrlView, ParseErrorView>(e),
            _ => false,
        },
{
    reveal_strlit("udp://");
    reveal_strlit("tcp://");
    reveal_strlit("tls://");
    assert("tcp://"@[0] != "udp://"@[0] && "tcp://"@[1] != "tls://"@[1] && "udp://"@[0] != "tls://"@[0]);
    lemma_scheme_prefix("udp://"@, h);
    lemma_scheme_prefix("tcp://"@, h);
}

/// Text without a colon holds no scheme separator.
proof fn lemma_no_colon_no_scheme(s: Seq<char>)
    requires
        forall|i: int| 0 <= i < s.len() ==> s[i] != ':',
    ensures
        find_seq(s, "://"@) is None,
        !starts_with(s, "tls://"@),
        !starts_with(s, "https://"@),
        !starts_with(s, "udp://"@),
        !starts_with(s, "tcp://"@),
        !starts_with(s, "quic://"@),
    decreases s.len(),
{
    reveal_strlit("://");
    reveal_strlit("tls://");
    reveal_strlit("https://");
    reveal_strlit("udp://");
    reveal_strlit("tcp://");
    reveal_strlit("quic://");
    if s.len() >= 3 {
        assert(s.take(3)[0] == s[0]);
        if s.len() >= 6 {
            assert(s.take(6)[3] == s[3]);
        }
        if s.len() >= 7 {
            assert(s.take(7)[4] == s[4]);
        }
        if s.len() >= 8 {
            assert(s.take(8)[5] == s[5]);
        }
        lemma_no_colon_no_scheme(s.drop_first());
    }
}

/// `https://` and what follows it.
proof fn lemma_https_prefix(h: Seq<char>)
    ensures
        starts_with("https://"@ + h, "https://"@),
        !starts_with("https://"@ + h, "tls://"@),
        ("https://"@ + h).skip(8) == h,
{
    reveal_strlit("https://");
    reveal_strlit("tls://");
    let b = "https://"@ + h;
    assert(b.take(8) =~= "https://"@);
    assert(b.skip(8) =~= h);
    assert(b.take(6)[0] == b[0]);
}

/// A nameserver written without a port gets its transport's well-known
/// port: 53 for a bare address, `udp://` and `tcp://`, 853 for `tls://`,
/// and 443 with the path `/dns-query` for `https://`.
pub proof fn lemma_default_ports(h: Seq<char>, fragment: Option<Seq<char>>)
    requires
        h.len() > 0,
        h[0] != '[',
        forall|i: int| 0 <= i < h.len() ==> h[i] != ':',
        spec_host_or_ip(h) is Ok,
    ensures
        spec_parse_base(h, fragment) == Ok::<UrlView, ParseErrorView>(
            UrlView::Udp { addr: spec_host_or_ip(h)->Ok_0, port: 53 },
        ),
        (forall|i: int| 0 <= i < h.len() ==> h[i] != '/') ==> (spec_parse_base(
            "https://"@ + h,
            fragment,
        ) matches Ok(UrlView::Https { addr, port, path, .. }) && addr == spec_host_or_ip(h)->Ok_0
            && port == 443 && path == "/dns-query"@),
        spec_parse_base("udp://"@ + h, fragment) == Ok::<UrlView, ParseErrorView>(
            UrlView::Udp { addr: spec_host_or_ip(h)->Ok_0, port: 53 },
        ),
        spec_parse_base("tcp://"@ + h, fragment) == Ok::<UrlView, ParseErrorView>(
            UrlView::Tcp { addr: spec_host_or_ip(h)->Ok_0, port: 53 },
        ),
        spec_parse_base("tls://"@ + h, fragment) matches Ok(UrlView::Tls { addr, port, .. })
            && addr == spec_host_or_ip(h)->Ok_0 && port == 853,
{
    reveal_strlit("udp://");
    reveal_strlit("tcp://");
    reveal_strlit("tls://");
    assert("tcp://"@[0] != "udp://"@[0] && "tcp://"@[1] != "tls://"@[1] && "udp://"@[0] != "tls://"@[0]);
    lemma_scheme_prefix("udp://"@, h);
    lemma_scheme_prefix("tcp://"@, h);
    lemma_scheme_prefix("tls://"@, h);
    crate::text::lemma_last_index(h, ':', -1);
    lemma_no_colon_no_scheme(h);
    lemma_https_prefix(h);
    reveal_strlit("https://");
    if forall|i: int| 0 <= i < h.len() ==> h[i] != '/' {
        crate::text::lemma_first_index(h, '/', h.len() as int);
    }
}

// ---------------------------------------------------------------------------
// Parsing
// ---------------------------------------------------------------------------

/// Leading digits never denote more than all of them.
proof fn lemma_digits_value_prefix(s: Seq<char>, k: int)
    requires
        all_ascii_digits(s),
        0 <= k <= s.len(),
    ensures
        digits_value(s.take(k)) <= digits_value(s),
    decreases s.len() - k,
{
    if k < s.len() {
        lemma_digits_value_prefix(s, k + 1);
        assert(s.take(k + 1).drop_last() =~= s.take(k));
        assert(s.take(k + 1).last() == s[k]);
    } else {
        assert(s.take(k) =~= s);
    }
}

/// The port `cs[from..to]`.
fn parse_port_at(cs: &[char], from: usize, to: usize) -> (r: Result<u16, NameServerParseError>)
    requires
        from <= to <= cs.len(),
    ensures
        match spec_parse_port(cs@.subrange(from as int, to as int)) {
            Some(p) => r == Ok::<u16, NameServerParseError>(p),
            None => r matches Err(e) && e@ == ParseErrorView::InvalidPort(
                cs@.subrange(from as int, to as int),
            ),
        },
{
    let ghost s = cs@.subrange(from as int, to as int);
    let mut start = from;
    if start < to && cs[start] == '+' {
        start = start + 1;
    }
    let ghost d = cs@.subrange(start as int, to as int);
    assert(d =~= (if s.len() > 0 && s[0] == '+' {
        s.skip(1)
    } else {
        s
    }));
    if start == to {
        return Err(NameServerParseError::InvalidPort(substring(cs, from, to)));
    }
    let mut v: u32 = 0;
    let mut i = start;
    while i < to
        invariant
            from <= start <= i <= to <= cs.len(),
            d == cs@.subrange(start as int, to as int),
            s == cs@.subrange(from as int, to as int),
            d == (if s.len() > 0 && s[0] == '+' {
                s.skip(1)
            } else {
                s
            }),
            all_ascii_digits(cs@.subrange(start as int, i as int)),
            v == digits_value(cs@.subrange(start as int, i as int)),
            v <= 65535,
        decreases to - i,
    {
        let c = cs[i];
        if !('0' <= c && c <= '9') {
            assert(d[i - start] == c);
            assert(!all_ascii_digits(d));
            return Err(NameServerParseError::InvalidPort(substring(cs, from, to)));
        }
        let ghost prev = cs@.subrange(start as int, i as int);
        let ghost next = cs@.subrange(start as int, i as int + 1);
        assert(next.drop_last() =~= prev);
        assert(next.last() == c);
        v = v * 10 + (c as u32 - 48);
        assert(all_ascii_digits(next)) by {
            assert forall|j: int| 0 <= j < next.len() implies crate::text::is_ascii_digit(
                #[trigger] next[j],
            ) by {
                if j < prev.len() {
                    assert(next[j] == prev[j]);
                }
            }
        }
        if v > 65535 {
            proof {
                if all_ascii_digits(d) {
                    assert(d.take(i + 1 - start) =~= next);
                    lemma_digits_value_prefix(d, i + 1 - start);
                }
            }
            return Err(NameServerParseError::InvalidPort(substring(cs, from, to)));
        }
        i = i + 1;
    }
    assert(cs@.subrange(start as int, i as int) =~= d);
    if v == 0 {
        return Err(NameServerParseError::InvalidPort(substring(cs, from, to)));
    }
    Ok(v as u16)
}

/// An IP literal or hostname from `cs[from..to]`.
fn host_or_ip_at(cs: &[char], from: usize, to: usize) -> (r: Result<HostOrIp, NameServerParseError>)
    requires
        from <= to <= cs.len(),
    ensures
        result_view(r) == spec_host_or_ip(cs@.subrange(from as int, to as int)),
{
    let text = substring(cs, from, to);
    if from == to {
        return Err(NameServerParseError::InvalidHost(text));
    }
    match parse_ip(text.as_str()) {
        Some(ip) => {
            return Ok(HostOrIp::Ip(ip));
        },
        None => {},
    }
    if find_char(cs, from, to, '/').is_some() || find_char(cs, from, to, ' ').is_some() {
        return Err(NameServerParseError::InvalidHost(text));
    }
    Ok(HostOrIp::Host(text))
}

/// `host[:port]` or `[ipv6][:port]` from `cs[from..to]`.
fn host_port_at(cs: &[char], from: usize, to: usize, default_port: u16) -> (r: Result<
    (HostOrIp, u16),
    NameServerParseError,
>)
    requires
        from <= to <= cs.len(),
    ensures
        result_view(r) == spec_host_port(cs@.subrange(from as int, to as int), default_port),
{
    let ghost s = cs@.subrange(from as int, to as int);
    if from < to && cs[from] == '[' {
        assert(s[0] == cs@[from as int]);
        let close = match find_char(cs, from, to, ']') {
            None => {
                return Err(NameServerParseError::InvalidHost(substring(cs, from, to)));
            },
            Some(c) => c,
        };
        assert(close > from);
        assert(s.subrange(1, close - from) =~= cs@.subrange(from + 1, close as int));
        let inner = substring(cs, from + 1, close);
        let ip = match parse_ip(inner.as_str()) {
            None => {
                return Err(NameServerParseError::InvalidHost(substring(cs, from, to)));
            },
            Some(ip) => ip,
        };
        if close + 1 < to {
            assert(s[close + 1 - from] == cs@[close + 1]);
            if cs[close + 1] != ':' {
                return Err(NameServerParseError::InvalidHost(substring(cs, from, to)));
            }
            assert(s.skip(close + 2 - from) =~= cs@.subrange(close + 2, to as int));
            return match parse_port_at(cs, close + 2, to) {
                Ok(port) => Ok((HostOrIp::Ip(ip), port)),
                Err(e) => Err(e),
            };
        }
        return Ok((HostOrIp::Ip(ip), default_port));
    }
    match find_last_char(cs, from, to, ':') {
        Some(idx) => {
            assert(s.skip(idx + 1 - from) =~= cs@.subrange(idx + 1, to as int));
            assert(s.take(idx - from) =~= cs@.subrange(from as int, idx as int));
            if chars_all_digits(cs, idx + 1, to) {
                let port = match parse_port_at(cs, idx + 1, to) {
                    Ok(p) => p,
                    Err(e) => {
                        return Err(e);
                    },
                };
                return match host_or_ip_at(cs, from, idx) {
                    Ok(a) => Ok((a, port)),
                    Err(e) => Err(e),
                };
            }
        },
        None => {},
    }
    match host_or_ip_at(cs, from, to) {
        Ok(a) => Ok((a, default_port)),
        Err(e) => Err(e),
    }
}

impl HostOrIp {
    /// The host's text: the IP's text or the hostname.
    pub fn to_string(&self) -> (r: String)
        ensures
            r@ == host_text(self@),
    {
        match self {
            HostOrIp::Ip(ip) => ip_text(*ip),
            HostOrIp::Host(h) => owned(h.as_str()),
        }
    }
}

/// A fragment `cs[a..b]`, if any, as text.
pub open spec fn fragment_view(cs: Seq<char>, fragment: Option<(usize, usize)>) -> Option<Seq<char>> {
    match fragment {
        Some((a, b)) => Some(cs.subrange(a as int, b as int)),
        None => None,
    }
}

/// The SNI for `addr`: the fragment when non-empty, else the host's text.
fn sni_at(cs: &[char], fragment: Option<(usize, usize)>, addr: &HostOrIp) -> (r: String)
    requires
        fragment matches Some((a, b)) ==> a <= b <= cs@.len(),
    ensures
        r@ == spec_sni(addr@, fragment_view(cs@, fragment)),
{
    match fragment {
        Some((a, b)) => {
            if a < b {
                substring(cs, a, b)
            } else {
                addr.to_string()
            }
        },
        None => addr.to_string(),
    }
}

impl NameServerUrl {
    fn parse_tls(cs: &[char], from: usize, to: usize, fragment: Option<(usize, usize)>) -> (r: Result<
        NameServerUrl,
        NameServerParseError,
    >)
        requires
            from <= to <= cs.len(),
            fragment matches Some((a, b)) ==> a <= b <= cs@.len(),
        ensures
            result_view(r) == spec_parse_tls(
                cs@.subrange(from as int, to as int),
                fragment_view(cs@, fragment),
            ),
    {
        match host_port_at(cs, from, to, 853) {
            Ok((addr, port)) => {
                let sni = sni_at(cs, fragment, &addr);
                Ok(NameServerUrl::Tls { addr, port, sni })
            },
            Err(e) => Err(e),
        }
    }

    fn parse_https(cs: &[char], from: usize, to: usize, fragment: Option<(usize, usize)>) -> (r: Result<
        NameServerUrl,
        NameServerParseError,
    >)
        requires
            from <= to <= cs.len(),
            fragment matches Some((a, b)) ==> a <= b <= cs@.len(),
        ensures
            result_view(r) == spec_parse_https(
                cs@.subrange(from as int, to as int),
                fragment_view(cs@, fragment),
            ),
    {
        let ghost rest = cs@.subrange(from as int, to as int);
        let (host_end, path) = match find_char(cs, from, to, '/') {
            Some(i) => {
                assert(rest.take(i - from) =~= cs@.subrange(from as int, i as int));
                assert(rest.skip(i - from) =~= cs@.subrange(i as int, to as int));
                (i, substring(cs, i, to))
            },
            None => {
                assert(rest =~= cs@.subrange(from as int, to as int));
                (to, owned("/dns-query"))
            },
        };
        match host_port_at(cs, from, host_end, 443) {
            Ok((addr, port)) => {
                let sni = sni_at(cs, fragment, &addr);
                Ok(NameServerUrl::Https { addr, port, path, sni })
            },
            Err(e) => Err(e),
        }
    }

    /// The URL `cs[from..to]` (without its fragment), by scheme.
    fn parse_base(cs: &[char], from: usize, to: usize, fragment: Option<(usize, usize)>) -> (r: Result<
        NameServerUrl,
        NameServerParseError,
    >)
        requires
            from <= to <= cs.len(),
            fragment matches Some((a, b)) ==> a <= b <= cs@.len(),
        ensures
            result_view(r) == spec_parse_base(
                cs@.subrange(from as int, to as int),
                fragment_view(cs@, fragment),
            ),
    {
        let ghost b = cs@.subrange(from as int, to as int);
        if let Some(k) = strip_prefix_at(cs, from, to, "tls://") {
            assert(b.skip("tls://"@.len() as int) =~= cs@.subrange(k as int, to as int));
            return NameServerUrl::parse_tls(cs, k, to, fragment);
        }
        if let Some(k) = strip_prefix_at(cs, from, to, "https://") {
            assert(b.skip("https://"@.len() as int) =~= cs@.subrange(k as int, to as int));
            return NameServerUrl::parse_https(cs, k, to, fragment);
        }
        if let Some(k) = strip_prefix_at(cs, from, to, "udp://") {
            assert(b.skip("udp://"@.len() as int) =~= cs@.subrange(k as int, to as int));
            return match host_port_at(cs, k, to, 53) {
                Ok((addr, port)) => Ok(NameServerUrl::Udp { addr, port }),
                Err(e) => Err(e),
            };
        }
        if let Some(k) = strip_prefix_at(cs, from, to, "tcp://") {
            assert(b.skip("tcp://"@.len() as int) =~= cs@.subrange(k as int, to as int));
            return match host_port_at(cs, k, to, 53) {
                Ok((addr, port)) => Ok(NameServerUrl::Tcp { addr, port }),
                Err(e) => Err(e),
            };
        }
        if strip_prefix_at(cs, from, to, "quic://").is_some() {
            return Err(NameServerParseError::QuicNotSupported);
        }
        if let Some(c) = find_str(cs, from, to, "://") {
            let scheme_ok = scheme_chars_at(cs, from, c);
            if scheme_ok && c - from <= 20 {
                assert(b.take(c - from) =~= cs@.subrange(from as int, c as int));
                return Err(NameServerParseError::UnsupportedScheme(substring(cs, from, c)));
            }
        }
        match host_port_at(cs, from, to, 53) {
            Ok((addr, port)) => Ok(NameServerUrl::Udp { addr, port }),
            Err(e) => Err(e),
        }
    }

    /// Parses a nameserver string: `8.8.8.8`, `8.8.8.8:53`, `dns.google`,
    /// `udp://host[:port]`, `tcp://host[:port]`, `tls://host[:port][#sni]`
    /// or `https://host[:port][/path][#sni]`.
    pub fn parse(s: &str) -> (r: Result<NameServerUrl, NameServerParseError>)
        ensures
            result_view(r) == spec_parse_url(s@),
    {
        let cs = chars_of(s);
        let (lo, hi) = trim_bounds(&cs, 0, cs.len());
        assert(cs@.subrange(0, cs@.len() as int) =~= s@);
        let ghost t = cs@.subrange(lo as int, hi as int);
        if lo == hi {
            return Err(NameServerParseError::EmptyInput);
        }
        match find_char(&cs, lo, hi, '#') {
            Some(i) => {
                assert(t.take(i - lo) =~= cs@.subrange(lo as int, i as int));
                assert(t.skip(i - lo + 1) =~= cs@.subrange(i + 1, hi as int));
                NameServerUrl::parse_base(&cs, lo, i, Some((i + 1, hi)))
            },
            None => NameServerUrl::parse_base(&cs, lo, hi, None),
        }
    }

    /// The hostname to resolve first, or `None` when the address is an IP.
    pub fn needs_bootstrap(&self) -> (r: Option<&str>)
        ensures
            match url_addr(self@) {
                HostView::Host(h) => r matches Some(x) && x@ == h,
                HostView::Ip(_) => r is None,
            },
    {
        let addr = match self {
            NameServerUrl::Udp { addr, .. } => addr,
            NameServerUrl::Tcp { addr, .. } => addr,
            NameServerUrl::Tls { addr, .. } => addr,
            NameServerUrl::Https { addr, .. } => addr,
        };
        match addr {
            HostOrIp::Host(h) => Some(h.as_str()),
            HostOrIp::Ip(_) => None,
        }
    }

    /// A plain (unencrypted) nameserver: UDP or TCP.
    pub fn is_plain(&self) -> (r: bool)
        ensures
            r == (self@ is Udp || self@ is Tcp),
    {
        match self {
            NameServerUrl::Udp { .. } => true,
            NameServerUrl::Tcp { .. } => true,
            _ => false,
        }
    }

    /// `udp://addr:port`, `tcp://addr:port`, `tls://addr:port#sni` or
    /// `https://addr:port/path#sni`.
    pub fn to_string(&self) -> (r: String)
        ensures
            r@ == url_text(self@),
    {
        let mut out = String::new();
        match self {
            NameServerUrl::Udp { addr, port } => {
                string_append(&mut out, "udp://");
                let a = addr.to_string();
                string_append(&mut out, a.as_str());
                string_append(&mut out, ":");
                push_decimal(&mut out, *port as u64);
            },
            NameServerUrl::Tcp { addr, port } => {
                string_append(&mut out, "tcp://");
                let a = addr.to_string();
                string_append(&mut out, a.as_str());
                string_append(&mut out, ":");
                push_decimal(&mut out, *port as u64);
            },
            NameServerUrl::Tls { addr, port, sni } => {
                string_append(&mut out, "tls://");
                let a = addr.to_string();
                string_append(&mut out, a.as_str());
                string_append(&mut out, ":");
                push_decimal(&mut out, *port as u64);
                string_append(&mut out, "#");
                string_append(&mut out, sni.as_str());
            },
            NameServerUrl::Https { addr, port, path, sni } => {
                string_append(&mut out, "https://");
                let a = addr.to_string();
                string_append(&mut out, a.as_str());
                string_append(&mut out, ":");
                push_decimal(&mut out, *port as u64);
                string_append(&mut out, path.as_str());
                string_append(&mut out, "#");
                string_append(&mut out, sni.as_str());
            },
        }
        assert(out@ =~= url_text(self@));
        out
    }
}

/// Every character of `cs[from..to]` may stand in a scheme name.
fn scheme_chars_at(cs: &[char], from: usize, to: usize) -> (r: bool)
    requires
        from <= to <= cs.len(),
    ensures
        r == forall|i: int| 0 <= i < to - from ==> scheme_char(#[trigger] cs@.subrange(from as int, to as int)[i]),
{
    let mut i = from;
    while i < to
        invariant
            from <= i <= to <= cs.len(),
            forall|j: int| from <= j < i ==> scheme_char(#[trigger] cs@[j]),
        decreases to - i,
    {
        let c = cs[i];
        let ok = ('a' <= c && c <= 'z') || ('A' <= c && c <= 'Z') || ('0' <= c && c <= '9') || c
            == '+' || c == '-' || c == '.';
        if !ok {
            assert(cs@.subrange(from as int, to as int)[i - from] == c);
            return false;
        }
        i = i + 1;
    }
    assert forall|j: int| 0 <= j < to - from implies scheme_char(
        #[trigger] cs@.subrange(from as int, to as int)[j],
    ) by {
        assert(cs@.subrange(from as int, to as int)[j] == cs@[from + j]);
    }
    true
}

/// The address a URL names.
pub open spec fn url_addr(u: UrlView) -> HostView {
    match u {
        UrlView::Udp { addr, .. } => addr,
        UrlView::Tcp { addr, .. } => addr,
        UrlView::Tls { addr, .. } => addr,
        UrlView::Https { addr, .. } => addr,
    }
}

/// The text of a URL.
pub open spec fn url_text(u: UrlView) -> Seq<char> {
    match u {
        UrlView::Udp { addr, port } => "udp://"@ + host_text(addr) + ":"@ + decimal(port as nat),
        UrlView::Tcp { addr, port } => "tcp://"@ + host_text(addr) + ":"@ + decimal(port as nat),
        UrlView::Tls { addr, port, sni } => "tls://"@ + host_text(addr) + ":"@ + decimal(port as nat)
            + "#"@ + sni,
        UrlView::Https { addr, port, path, sni } => "https://"@ + host_text(addr) + ":"@ + decimal(
            port as nat,
        ) + path + "#"@ + sni,
    }
}

// ---------------------------------------------------------------------------
// Entries with a proxy tag, and error messages
// ---------------------------------------------------------------------------

/// A nameserver URL plus the proxy (from a `#PROXY` tag on a plain form)
/// that queries go through.
#[derive(Debug, Clone, PartialEq, Eq)]
pub struct NameServerEntry {
    pub url: NameServerUrl,
    pub proxy: Option<String>,
}

pub struct EntryView {
    pub url: UrlView,
    pub proxy: Option<Seq<char>>,
}

impl View for NameServerEntry {
    type V = EntryView;

    open spec fn view(&self) -> EntryView {
        EntryView {
            url: self.url@,
            proxy: match self.proxy {
                Some(p) => Some(p@),
                None => None,
            },
        }
    }
}

/// On the plain forms (not `tls://` or `https://`) a `#` starts a proxy
/// name, which must not be blank; otherwise the whole string is the URL.
pub open spec fn spec_parse_entry(s: Seq<char>) -> Result<EntryView, ParseErrorView> {
    let t = trim(s);
    if t.len() == 0 {
        Err(ParseErrorView::EmptyInput)
    } else if !(starts_with(t, "tls://"@) || starts_with(t, "https://"@)) && first_index(t, '#') is Some {
        let i = first_index(t, '#')->0;
        let proxy = trim(t.skip(i + 1));
        if proxy.len() == 0 {
            Err(ParseErrorView::InvalidHost(t))
        } else {
            match spec_parse_url(t.take(i)) {
                Ok(url) => Ok(EntryView { url, proxy: Some(proxy) }),
                Err(e) => Err(e),
            }
        }
    } else {
        match spec_parse_url(t) {
            Ok(url) => Ok(EntryView { url, proxy: None }),
            Err(e) => Err(e),
        }
    }
}

impl NameServerEntry {
    /// An entry without a proxy.
    pub fn plain(url: NameServerUrl) -> (r: NameServerEntry)
        ensures
            r.url == url,
            r.proxy is None,
    {
        NameServerEntry { url, proxy: None }
    }

    /// Parses a nameserver string with an optional `#PROXY` tag.
    pub fn parse(s: &str) -> (r: Result<NameServerEntry, NameServerParseError>)
        ensures
            result_view(r) == spec_parse_entry(s@),
    {
        let cs = chars_of(s);
        let (lo, hi) = trim_bounds(&cs, 0, cs.len());
        assert(cs@.subrange(0, cs@.len() as int) =~= s@);
        let ghost t = cs@.subrange(lo as int, hi as int);
        if lo == hi {
            return Err(NameServerParseError::EmptyInput);
        }
        let is_tls = strip_prefix_at(&cs, lo, hi, "tls://").is_some();
        let is_https = strip_prefix_at(&cs, lo, hi, "https://").is_some();
        if !(is_tls || is_https) {
            if let Some(idx) = find_char(&cs, lo, hi, '#') {
                let (plo, phi) = trim_bounds(&cs, idx + 1, hi);
                assert(t.skip(idx - lo + 1) =~= cs@.subrange(idx + 1, hi as int));
                if plo == phi {
                    return Err(NameServerParseError::InvalidHost(substring(&cs, lo, hi)));
                }
                let head = substring(&cs, lo, idx);
                assert(t.take(idx - lo) =~= head@);
                let url = match NameServerUrl::parse(head.as_str()) {
                    Ok(u) => u,
                    Err(e) => {
                        return Err(e);
                    },
                };
                return Ok(NameServerEntry { url, proxy: Some(substring(&cs, plo, phi)) });
            }
        }
        let whole = substring(&cs, lo, hi);
        match NameServerUrl::parse(whole.as_str()) {
            Ok(url) => {
                proof {
                    crate::text::lemma_trim_idempotent(t);
                }
                Ok(NameServerEntry::plain(url))
            },
            Err(e) => {
                proof {
                    crate::text::lemma_trim_idempotent(t);
                }
                Err(e)
            },
        }
    }
}

impl From<NameServerUrl> for NameServerEntry {
    fn from(url: NameServerUrl) -> (r: NameServerEntry) {
        NameServerEntry::plain(url)
    }
}

impl vstd::std_specs::convert::FromSpecImpl<NameServerUrl> for NameServerEntry {
    open spec fn obeys_from_spec() -> bool {
        true
    }

    open spec fn from_spec(v: NameServerUrl) -> NameServerEntry {
        NameServerEntry { url: v, proxy: None }
    }
}

/// The message of a parse error.
pub open spec fn parse_error_text(e: ParseErrorView) -> Seq<char> {
    match e {
        ParseErrorView::EmptyInput => "nameserver string is empty"@,
        ParseErrorView::QuicNotSupported => "nameserver uses the 'quic' scheme which is not yet supported; tracked as roadmap M1.E-6 / M2. Use 'tls://' or 'https://' for now."@,
        ParseErrorView::UnsupportedScheme(s) => "nameserver uses unsupported scheme '"@ + s + "'"@,
        ParseErrorView::InvalidHost(s) => "invalid host in nameserver: '"@ + s + "'"@,
        ParseErrorView::InvalidPort(s) => "invalid port in nameserver: '"@ + s + "'"@,
        ParseErrorView::EncryptedFeatureDisabled => "encrypted DNS (tls:// / https://) requires the 'encrypted' Cargo feature to be enabled"@,
    }
}

impl NameServerParseError {
    /// The error's message.
    pub fn to_string(&self) -> (r: String)
        ensures
            r@ == parse_error_text(self@),
    {
        match self {
            NameServerParseError::EmptyInput => owned("nameserver string is empty"),
            NameServerParseError::QuicNotSupported => owned(
                "nameserver uses the 'quic' scheme which is not yet supported; tracked as roadmap M1.E-6 / M2. Use 'tls://' or 'https://' for now.",
            ),
            NameServerParseError::UnsupportedScheme(s) => {
                let mut out = owned("nameserver uses unsupported scheme '");
                string_append(&mut out, s.as_str());
                string_append(&mut out, "'");
                out
            },
            NameServerParseError::InvalidHost(s) => {
                let mut out = owned("invalid host in nameserver: '");
                string_append(&mut out, s.as_str());
                string_append(&mut out, "'");
                out
            },
            NameServerParseError::InvalidPort(s) => {
                let mut out = owned("invalid port in nameserver: '");
                string_append(&mut out, s.as_str());
                string_append(&mut out, "'");
                out
            },
            NameServerParseError::EncryptedFeatureDisabled => owned(
                "encrypted DNS (tls:// / https://) requires the 'encrypted' Cargo feature to be enabled",
            ),
        }
    }
}

} // verus!

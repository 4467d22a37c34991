//! The `authentication:` and `skip-auth-prefixes:` settings.

use vstd::prelude::*;
use std::sync::Arc;
use crate::common::auth::{loopback_v4, loopback_v6, AuthConfig, Credentials};
use crate::common::ip::{parse_ip_net, spec_parse_ip_net, IpAddress, IpCidr};
use crate::string_map::StringMap;
use crate::text::{chars_of, debug_str, find_char, first_index, owned, spec_debug_str, string_append, substring};

verus! {

/// The texts of an optional list of strings (none when absent).
pub open spec fn opt_texts(o: Option<&[String]>) -> Seq<Seq<char>> {
    match o {
        Some(s) => s@.map_values(|x: String| x@),
        None => Seq::empty(),
    }
}

pub open spec fn malformed_entry_message(entry: Seq<char>) -> Seq<char> {
    "authentication: malformed entry "@ + spec_debug_str(entry)
        + " — expected 'user:pass' format (Class A divergence from upstream: NOT silently ignored)"@
}

pub open spec fn invalid_cidr_message(cidr: Seq<char>) -> Seq<char> {
    "skip-auth-prefixes: invalid CIDR "@ + spec_debug_str(cidr) + ": "@ + "invalid IP address syntax"@
}

/// `user:pass` entries in order (a later user replaces an earlier one);
/// the first entry without `:` is refused.
pub open spec fn spec_credentials(entries: Seq<Seq<char>>) -> Result<Map<Seq<char>, Seq<char>>, Seq<char>>
    decreases entries.len(),
{
    if entries.len() == 0 {
        Ok(Map::empty())
    } else {
        match spec_credentials(entries.drop_last()) {
            Err(e) => Err(e),
            Ok(m) => {
                let entry = entries.last();
                match first_index(entry, ':') {
                    None => Err(malformed_entry_message(entry)),
                    Some(p) => Ok(m.insert(entry.take(p), entry.skip(p + 1))),
                }
            },
        }
    }
}

/// The configured networks in order; the first that does not parse is
/// refused.
pub open spec fn spec_skip_prefixes(cidrs: Seq<Seq<char>>) -> Result<Seq<(IpAddress, u8)>, Seq<char>>
    decreases cidrs.len(),
{
    if cidrs.len() == 0 {
        Ok(Seq::empty())
    } else {
        match spec_skip_prefixes(cidrs.drop_last()) {
            Err(e) => Err(e),
            Ok(ps) => match spec_parse_ip_net(cidrs.last()) {
                None => Err(invalid_cidr_message(cidrs.last())),
                Some(n) => Ok(ps.push(n)),
            },
        }
    }
}

/// Networks as address and prefix length.
pub open spec fn cidr_views(ns: Seq<IpCidr>) -> Seq<(IpAddress, u8)> {
    ns.map_values(|n: IpCidr| (n.addr(), n.prefix_len()))
}

/// The loopback networks that always bypass authentication.
pub open spec fn loopback_views() -> Seq<(IpAddress, u8)> {
    seq![(IpAddress::V4(0x7f00_0001), 32u8), (IpAddress::V6(1), 128u8)]
}

/// Builds the authentication settings from the raw `authentication:` and
/// `skip-auth-prefixes:` lists; the loopback networks always come first.
pub fn parse_auth_config(authentication: Option<&[String]>, skip_auth_prefixes: Option<&[String]>) -> (r:
    Result<AuthConfig, String>)
    ensures
        match spec_credentials(opt_texts(authentication)) {
            Err(m) => (r matches Err(e) && e@ == m),
            Ok(creds) => match spec_skip_prefixes(opt_texts(skip_auth_prefixes)) {
                Err(m) => (r matches Err(e) && e@ == m),
                Ok(ps) => (r matches Ok(cfg) && cfg.credentials@ == creds && cidr_views(
                    cfg.skip_prefixes@,
                ) == loopback_views() + ps),
            },
        },
{
    let mut cred_map = StringMap::new();
    let ghost ents = opt_texts(authentication);
    let entries: &[String] = match authentication {
        Some(a) => a,
        None => &[],
    };
    assert(entries@.map_values(|x: String| x@) =~= ents);
    let mut i: usize = 0;
    while i < entries.len()
        invariant
            i <= entries@.len(),
            ents == entries@.map_values(|x: String| x@),
            ents == opt_texts(authentication),
            spec_credentials(ents.take(i as int)) == Ok::<Map<Seq<char>, Seq<char>>, Seq<char>>(
                cred_map@,
            ),
        decreases entries.len() - i,
    {
        let entry = entries[i].as_str();
        let cs = chars_of(entry);
        assert(ents.take(i as int + 1).drop_last() =~= ents.take(i as int));
        assert(ents.take(i as int + 1).last() == entry@);
        assert(cs@.subrange(0, cs@.len() as int) =~= cs@);
        match find_char(&cs, 0, cs.len(), ':') {
            None => {
                assert(spec_credentials(ents.take(i as int + 1)) == Err::<
                    Map<Seq<char>, Seq<char>>,
                    Seq<char>,
                >(malformed_entry_message(entry@)));
                proof {
                    lemma_credentials_error_stays(ents, (i + 1) as int);
                }
                let mut msg = owned("authentication: malformed entry ");
                let d = debug_str(entry);
                string_append(&mut msg, d.as_str());
                string_append(
                    &mut msg,
                    " — expected 'user:pass' format (Class A divergence from upstream: NOT silently ignored)",
                );
                return Err(msg);
            },
            Some(pos) => {
                let username = substring(&cs, 0, pos);
                let password = substring(&cs, pos + 1, cs.len());
                assert(cs@.take(pos as int) =~= username@);
                assert(cs@.skip(pos as int + 1) =~= password@);
                cred_map.insert(username, password);
            },
        }
        i = i + 1;
    }
    assert(ents.take(entries@.len() as int) =~= ents);

    let mut skip_prefixes: Vec<IpCidr> = Vec::new();
    skip_prefixes.push(loopback_v4());
    skip_prefixes.push(loopback_v6());
    assert(cidr_views(skip_prefixes@) =~= loopback_views());
    let ghost cids = opt_texts(skip_auth_prefixes);
    let cidrs: &[String] = match skip_auth_prefixes {
        Some(a) => a,
        None => &[],
    };
    assert(cidrs@.map_values(|x: String| x@) =~= cids);
    let mut k: usize = 0;
    while k < cidrs.len()
        invariant
            k <= cidrs@.len(),
            cids == cidrs@.map_values(|x: String| x@),
            cids == opt_texts(skip_auth_prefixes),
            spec_credentials(opt_texts(authentication)) == Ok::<
                Map<Seq<char>, Seq<char>>,
                Seq<char>,
            >(cred_map@),
            spec_skip_prefixes(cids.take(k as int)) matches Ok(ps) && cidr_views(skip_prefixes@)
                == loopback_views() + ps,
        decreases cidrs.len() - k,
    {
        let cidr = cidrs[k].as_str();
        assert(cids.take(k as int + 1).drop_last() =~= cids.take(k as int));
        assert(cids.take(k as int + 1).last() == cidr@);
        let ghost before = skip_prefixes@;
        match parse_ip_net(cidr) {
            Ok(net) => {
                skip_prefixes.push(net);
                proof {
                    let ps = spec_skip_prefixes(cids.take(k as int))->Ok_0;
                    assert(cidr_views(skip_prefixes@) =~= cidr_views(before).push(
                        (net.addr(), net.prefix_len()),
                    ));
                    assert(loopback_views() + ps.push((net.addr(), net.prefix_len())) =~= (
                    loopback_views() + ps).push((net.addr(), net.prefix_len())));
                }
            },
            Err(e) => {
                assert(spec_skip_prefixes(cids.take(k as int + 1)) == Err::<
                    Seq<(IpAddress, u8)>,
                    Seq<char>,
                >(invalid_cidr_message(cidr@)));
                proof {
                    lemma_skip_prefixes_error_stays(cids, (k + 1) as int);
                }
                let mut msg = owned("skip-auth-prefixes: invalid CIDR ");
                let d = debug_str(cidr);
                string_append(&mut msg, d.as_str());
                string_append(&mut msg, ": ");
                string_append(&mut msg, e.as_str());
                return Err(msg);
            },
        }
        k = k + 1;
    }
    assert(cids.take(cidrs@.len() as int) =~= cids);
    Ok(AuthConfig::new(Arc::new(Credentials::new(cred_map)), skip_prefixes))
}

/// Once a prefix of the entries is refused, so are the entries.
proof fn lemma_credentials_error_stays(ents: Seq<Seq<char>>, k: int)
    requires
        0 <= k <= ents.len(),
        spec_credentials(ents.take(k)) is Err,
    ensures
        spec_credentials(ents) == spec_credentials(ents.take(k)),
    decreases ents.len() - k,
{
    if k < ents.len() {
        assert(ents.take(k + 1).drop_last() =~= ents.take(k));
        lemma_credentials_error_stays(ents, k + 1);
    } else {
        assert(ents.take(k) =~= ents);
    }
}

/// Once a prefix of the networks is refused, so are the networks.
proof fn lemma_skip_prefixes_error_stays(cids: Seq<Seq<char>>, k: int)
    requires
        0 <= k <= cids.len(),
        spec_skip_prefixes(cids.take(k)) is Err,
    ensures
        spec_skip_prefixes(cids) == spec_skip_prefixes(cids.take(k)),
    decreases cids.len() - k,
{
    if k < cids.len() {
        assert(cids.take(k + 1).drop_last() =~= cids.take(k));
        lemma_skip_prefixes_error_stays(cids, k + 1);
    } else {
        assert(cids.take(k) =~= cids);
    }
}

} // verus!

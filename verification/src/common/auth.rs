//! Proxy authentication: user credentials and the source ranges that skip them.

use vstd::prelude::*;
use std::sync::Arc;
use vstd::string::StringSliceAdditionalSpecFns;
use crate::common::ip::{prefix_contains, IpAddress, IpCidr};
use crate::string_map::StringMap;

verus! {

broadcast use vstd::utf8::group_utf8_lib;

/// `a` and `b` hold the same bytes, compared in time that does not depend on
/// their contents (`subtle::ConstantTimeEq::ct_eq` on slices, then `bool::from`).
#[verifier::external_body]
fn ct_eq_bytes(a: &[u8], b: &[u8]) -> (r: bool)
    ensures
        r == (a@ == b@),
{
    bool::from(subtle::ConstantTimeEq::ct_eq(a, b))
}

/// Credential store: username → plain-text password.
pub struct Credentials {
    inner: StringMap,
}

impl View for Credentials {
    type V = Map<Seq<char>, Seq<char>>;

    closed spec fn view(&self) -> Map<Seq<char>, Seq<char>> {
        self.inner@
    }
}

impl Credentials {
    pub fn new(inner: StringMap) -> (r: Credentials)
        ensures
            r@ == inner@,
    {
        Credentials { inner }
    }

    /// `username` is known and `password` is its password; the passwords are
    /// compared in constant time.
    pub fn verify(&self, username: &str, password: &str) -> (r: bool)
        ensures
            r == (self@.contains_key(username@) && self@[username@] == password@),
    {
        match self.inner.get(username) {
            Some(stored) => {
                let sb = stored.as_str().as_bytes();
                let pb = password.as_bytes();
                let r = ct_eq_bytes(sb, pb);
                proof {
                    if sb@ == pb@ {
                        vstd::utf8::encode_utf8_decode_utf8(stored@);
                        vstd::utf8::encode_utf8_decode_utf8(password@);
                    }
                }
                r
            },
            None => false,
        }
    }

    /// No user is configured.
    pub fn is_empty(&self) -> (r: bool)
        ensures
            r == (self@ == Map::<Seq<char>, Seq<char>>::empty()),
    {
        self.inner.is_empty()
    }
}

/// Authentication settings: the credentials, and the source networks that
/// bypass them.
pub struct AuthConfig {
    pub credentials: Arc<Credentials>,
    pub skip_prefixes: Vec<IpCidr>,
}

/// `ip` lies in one of `prefixes`.
pub open spec fn in_any_prefix(prefixes: Seq<IpCidr>, ip: IpAddress) -> bool {
    exists|i: int|
        0 <= i < prefixes.len() && prefix_contains(
            #[trigger] prefixes[i].addr(),
            prefixes[i].prefix_len() as nat,
            ip,
        )
}

/// `127.0.0.1/32`, which always bypasses authentication.
pub fn loopback_v4() -> (r: IpCidr)
    ensures
        r.addr() == IpAddress::V4(0x7f00_0001),
        r.prefix_len() == 32,
{
    IpCidr::new(IpAddress::V4(0x7f00_0001), 32).unwrap()
}

/// `::1/128`, which always bypasses authentication.
pub fn loopback_v6() -> (r: IpCidr)
    ensures
        r.addr() == IpAddress::V6(1),
        r.prefix_len() == 128,
{
    IpCidr::new(IpAddress::V6(1), 128).unwrap()
}

impl AuthConfig {
    pub fn new(credentials: Arc<Credentials>, skip_prefixes: Vec<IpCidr>) -> (r: AuthConfig)
        ensures
            r.credentials@ == credentials@,
            r.skip_prefixes@ == skip_prefixes@,
    {
        AuthConfig { credentials, skip_prefixes }
    }

    /// The source `src_ip` bypasses authentication.
    pub fn should_skip(&self, src_ip: &IpAddress) -> (r: bool)
        ensures
            r == in_any_prefix(self.skip_prefixes@, *src_ip),
    {
        let mut i: usize = 0;
        while i < self.skip_prefixes.len()
            invariant
                i <= self.skip_prefixes@.len(),
                forall|j: int|
                    0 <= j < i ==> !prefix_contains(
                        #[trigger] self.skip_prefixes@[j].addr(),
                        self.skip_prefixes@[j].prefix_len() as nat,
                        *src_ip,
                    ),
            decreases self.skip_prefixes.len() - i,
        {
            if self.skip_prefixes[i].contains(*src_ip) {
                return true;
            }
            i = i + 1;
        }
        false
    }
}

impl Default for AuthConfig {
    /// No users; only the loopback addresses bypass authentication.
    fn default() -> (r: AuthConfig)
        ensures
            r.credentials@ == Map::<Seq<char>, Seq<char>>::empty(),
            r.skip_prefixes@.len() == 2,
            r.skip_prefixes@[0].addr() == IpAddress::V4(0x7f00_0001),
            r.skip_prefixes@[0].prefix_len() == 32,
            r.skip_prefixes@[1].addr() == IpAddress::V6(1),
            r.skip_prefixes@[1].prefix_len() == 128,
    {
        let mut prefixes: Vec<IpCidr> = Vec::new();
        prefixes.push(loopback_v4());
        prefixes.push(loopback_v6());
        AuthConfig::new(Arc::new(Credentials::new(StringMap::new())), prefixes)
    }
}

} // verus!

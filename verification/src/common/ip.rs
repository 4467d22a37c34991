//! IP addresses and CIDR prefixes.

use vstd::prelude::*;
use vstd::arithmetic::power2::{lemma2_to64, lemma_pow2_adds, lemma_pow2_pos, lemma_pow2_strictly_increases, lemma_pow2_unfold, pow2};

verus! {

// ---------------------------------------------------------------------------
// IP addresses (parsed and printed by the standard library)
// ---------------------------------------------------------------------------

/// An IP address: IPv4 as its 32-bit value, IPv6 as its 128-bit value.
#[derive(Debug, Clone, Copy, PartialEq, Eq, Hash, Structural)]
pub enum IpAddress {
    V4(u32),
    V6(u128),
}

/// What `IpAddr`'s `FromStr` gives for `s`.
pub uninterp spec fn spec_parse_ip(s: Seq<char>) -> Option<IpAddress>;

/// What `IpAddr`'s `Display` prints for `ip`.
pub uninterp spec fn spec_ip_text(ip: IpAddress) -> Seq<char>;

/// `s` read as an IP address (`core::net::IpAddr::from_str`): dotted IPv4
/// or IPv6 text, `None` when it is neither.
#[verifier::external_body]
pub(crate) fn parse_ip(s: &str) -> (r: Option<IpAddress>)
    ensures
        r == spec_parse_ip(s@),
{
    match s.parse::<core::net::IpAddr>() {
        Ok(core::net::IpAddr::V4(a)) => Some(IpAddress::V4(u32::from(a))),
        Ok(core::net::IpAddr::V6(a)) => Some(IpAddress::V6(u128::from(a))),
        Err(_) => None,
    }
}

/// The text of `ip` (`Display` of `core::net::IpAddr`).
#[verifier::external_body]
pub(crate) fn ip_text(ip: IpAddress) -> (r: String)
    ensures
        r@ == spec_ip_text(ip),
{
    match ip {
        IpAddress::V4(v) => core::net::IpAddr::V4(core::net::Ipv4Addr::from(v)).to_string(),
        IpAddress::V6(v) => core::net::IpAddr::V6(core::net::Ipv6Addr::from(v)).to_string(),
    }
}

/// The value of an address as a number.
pub open spec fn addr_value(a: IpAddress) -> nat {
    match a {
        IpAddress::V4(v) => v as nat,
        IpAddress::V6(v) => v as nat,
    }
}

/// Number of bits in an address of this family.
pub open spec fn addr_bits(a: IpAddress) -> nat {
    match a {
        IpAddress::V4(_) => 32,
        IpAddress::V6(_) => 128,
    }
}

/// An IP network: an address and how many of its leading bits name the
/// network (at most the address's bits).
#[derive(Debug, Clone, Copy, PartialEq, Eq)]
pub struct IpCidr {
    addr: IpAddress,
    prefix_len: u8,
}

/// `ip` is in the network `addr/prefix_len`: same family, and the leading
/// `prefix_len` bits agree (between the network and broadcast addresses).
pub open spec fn prefix_contains(addr: IpAddress, prefix_len: nat, ip: IpAddress) -> bool {
    match (addr, ip) {
        (IpAddress::V4(a), IpAddress::V4(b)) => a as nat / pow2((32 - prefix_len) as nat) == b as nat
            / pow2((32 - prefix_len) as nat),
        (IpAddress::V6(a), IpAddress::V6(b)) => a as nat / pow2((128 - prefix_len) as nat) == b as nat
            / pow2((128 - prefix_len) as nat),
        _ => false,
    }
}

/// What `ipnet::IpNet`'s `FromStr` gives for `s`, as address and prefix length.
pub uninterp spec fn spec_parse_ip_net(s: Seq<char>) -> Option<(IpAddress, u8)>;

/// `s` read as `address/prefix` (`ipnet::IpNet::from_str`); the prefix
/// length never exceeds the address's bits. A refusal carries the parse
/// error's text, which is always "invalid IP address syntax".
#[verifier::external_body]
pub(crate) fn parse_ip_net(s: &str) -> (r: Result<IpCidr, String>)
    ensures
        match spec_parse_ip_net(s@) {
            Some((a, p)) => (r matches Ok(n) && n.addr() == a && n.prefix_len() == p),
            None => (r matches Err(e) && e@ == "invalid IP address syntax"@),
        },
        r matches Ok(n) ==> n.prefix_len() <= addr_bits(n.addr()),
{
    match s.parse::<ipnet::IpNet>() {
        Ok(ipnet::IpNet::V4(n)) => Ok(
            IpCidr { addr: IpAddress::V4(u32::from(n.addr())), prefix_len: n.prefix_len() },
        ),
        Ok(ipnet::IpNet::V6(n)) => Ok(
            IpCidr { addr: IpAddress::V6(u128::from(n.addr())), prefix_len: n.prefix_len() },
        ),
        Err(e) => Err(e.to_string()),
    }
}

/// `2^k` for `k` below 128.
fn two_pow_u128(k: u32) -> (r: u128)
    requires
        k < 128,
    ensures
        r as nat == pow2(k as nat),
        r > 0,
{
    proof {
        lemma_pow2_127();
    }
    let mut r: u128 = 1;
    let mut i: u32 = 0;
    proof {
        lemma2_to64();
    }
    while i < k
        invariant
            i <= k < 128,
            r as nat == pow2(i as nat),
            pow2(127) == 0x8000_0000_0000_0000_0000_0000_0000_0000,
        decreases k - i,
    {
        proof {
            lemma_pow2_unfold((i + 1) as nat);
            if i + 1 < 127 {
                lemma_pow2_strictly_increases((i + 1) as nat, 127);
            }
        }
        r = r * 2;
        i = i + 1;
    }
    proof {
        lemma_pow2_pos(k as nat);
    }
    r
}

proof fn lemma_pow2_127()
    ensures
        pow2(127) == 0x8000_0000_0000_0000_0000_0000_0000_0000,
        pow2(128) == 0x1_0000_0000_0000_0000_0000_0000_0000_0000,
{
    lemma2_to64();
    vstd::arithmetic::power2::lemma2_to64_rest();
    lemma_pow2_adds(64, 63);
    lemma_pow2_adds(64, 64);
}

impl IpCidr {
    #[verifier::type_invariant]
    closed spec fn prefix_fits(self) -> bool {
        self.prefix_len as nat <= addr_bits(self.addr)
    }

    pub closed spec fn addr(self) -> IpAddress {
        self.addr
    }

    pub closed spec fn prefix_len(self) -> u8 {
        self.prefix_len
    }

    /// The network `addr/prefix_len`, or `None` when the prefix is longer
    /// than the address.
    pub fn new(addr: IpAddress, prefix_len: u8) -> (r: Option<IpCidr>)
        ensures
            prefix_len <= addr_bits(addr) ==> (r matches Some(n) && n.addr() == addr
                && n.prefix_len() == prefix_len),
            prefix_len > addr_bits(addr) ==> r is None,
    {
        let bits: u8 = match addr {
            IpAddress::V4(_) => 32,
            IpAddress::V6(_) => 128,
        };
        if prefix_len <= bits {
            Some(IpCidr { addr, prefix_len })
        } else {
            None
        }
    }

    /// The address as written.
    pub fn address(&self) -> (r: IpAddress)
        ensures
            r == self.addr(),
    {
        self.addr
    }

    /// The prefix length.
    pub fn prefix(&self) -> (r: u8)
        ensures
            r == self.prefix_len(),
            r <= addr_bits(self.addr()),
    {
        proof {
            use_type_invariant(self);
        }
        self.prefix_len
    }

    /// `ip` lies in this network.
    pub fn contains(&self, ip: IpAddress) -> (r: bool)
        ensures
            r == prefix_contains(self.addr(), self.prefix_len() as nat, ip),
    {
        proof {
            use_type_invariant(self);
        }
        match (self.addr, ip) {
            (IpAddress::V4(a), IpAddress::V4(b)) => {
                let d = two_pow_u128((32 - self.prefix_len) as u32);
                (a as u128) / d == (b as u128) / d
            },
            (IpAddress::V6(a), IpAddress::V6(b)) => {
                if self.prefix_len == 0 {
                    proof {
                        lemma_pow2_127();
                        assert(a as nat / pow2(128) == 0);
                        assert(b as nat / pow2(128) == 0);
                    }
                    true
                } else {
                    let d = two_pow_u128((128 - self.prefix_len) as u32);
                    a / d == b / d
                }
            },
            _ => false,
        }
    }
}

/// Bit `i` of `x`, counting from the least significant.
pub open spec fn bit(x: nat, i: nat) -> nat {
    (x / pow2(i)) % 2
}

/// Numbers below `2^n` have the same quotient by `2^k` exactly when they
/// agree on bits `k` to `n - 1`.
proof fn lemma_same_high_bits(x: nat, y: nat, k: nat, n: nat)
    requires
        x < pow2(n),
        y < pow2(n),
        k <= n,
    ensures
        (x / pow2(k) == y / pow2(k)) <==> (forall|i: nat| k <= i < n ==> #[trigger] bit(x, i) == bit(y, i)),
    decreases n - k,
{
    lemma_pow2_pos(k);
    if k == n {
        vstd::arithmetic::div_mod::lemma_basic_div(x as int, pow2(n) as int);
        vstd::arithmetic::div_mod::lemma_basic_div(y as int, pow2(n) as int);
    } else {
        lemma_same_high_bits(x, y, k + 1, n);
        lemma_pow2_unfold(k + 1);
        vstd::arithmetic::div_mod::lemma_div_denominator(x as int, pow2(k) as int, 2);
        vstd::arithmetic::div_mod::lemma_div_denominator(y as int, pow2(k) as int, 2);
        vstd::arithmetic::mul::lemma_mul_is_commutative(pow2(k) as int, 2);
        let xq = x / pow2(k);
        let yq = y / pow2(k);
        vstd::arithmetic::div_mod::lemma_fundamental_div_mod(xq as int, 2);
        vstd::arithmetic::div_mod::lemma_fundamental_div_mod(yq as int, 2);
        assert(x / pow2(k + 1) == xq / 2);
        assert(y / pow2(k + 1) == yq / 2);
        if xq == yq {
            assert forall|i: nat| k <= i < n implies #[trigger] bit(x, i) == bit(y, i) by {
                if i > k {
                    assert(k + 1 <= i);
                }
            }
        }
        if forall|i: nat| k <= i < n ==> #[trigger] bit(x, i) == bit(y, i) {
            assert(bit(x, k) == bit(y, k));
            assert forall|i: nat| k + 1 <= i < n implies #[trigger] bit(x, i) == bit(y, i) by {
                assert(k <= i);
            }
        }
    }
}

/// Network membership reads the leading bits: an address is in the
/// network `a/p` exactly when it has the network's family and agrees with
/// `a` on the top `p` bits (bits `width - p` to `width - 1`).
pub proof fn lemma_prefix_contains_top_bits(a: IpAddress, p: nat, b: IpAddress)
    requires
        p <= addr_bits(a),
    ensures
        prefix_contains(a, p, b) <==> ({
            &&& addr_bits(a) == addr_bits(b)
            &&& forall|i: nat|
                addr_bits(a) - p <= i < addr_bits(a) ==> #[trigger] bit(addr_value(a), i) == bit(addr_value(b), i)
        }),
{
    lemma_pow2_127();
    lemma2_to64();
    match (a, b) {
        (IpAddress::V4(x), IpAddress::V4(y)) => {
            lemma_same_high_bits(x as nat, y as nat, (32 - p) as nat, 32);
            assert(addr_value(a) == x as nat && addr_value(b) == y as nat);
            assert((forall|i: nat| (32 - p) as nat <= i < 32 ==> #[trigger] bit(x as nat, i) == bit(y as nat, i))
                <==> (forall|i: nat| addr_bits(a) - p <= i < addr_bits(a) ==> #[trigger] bit(addr_value(a), i) == bit(addr_value(b), i)));
        },
        (IpAddress::V6(x), IpAddress::V6(y)) => {
            lemma_same_high_bits(x as nat, y as nat, (128 - p) as nat, 128);
            assert(addr_value(a) == x as nat && addr_value(b) == y as nat);
            assert((forall|i: nat| (128 - p) as nat <= i < 128 ==> #[trigger] bit(x as nat, i) == bit(y as nat, i))
                <==> (forall|i: nat| addr_bits(a) - p <= i < addr_bits(a) ==> #[trigger] bit(addr_value(a), i) == bit(addr_value(b), i)));
        },
        _ => {},
    }
}

} // verus!

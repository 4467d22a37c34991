//! The DNS answer cache: domain → addresses with an expiry, and the reverse
//! address → domain map, each split into shards of least-recently-used
//! caches (the `lru` crate).

use vstd::prelude::*;
use crate::common::ip::IpAddress;
use crate::text::owned;

verus! {

/// Number of shards of each map.
pub const SHARDS: usize = 16;

/// Reverse entries per forward entry when sizing the reverse map.
pub const REVERSE_CAP_MULTIPLIER: usize = 4;

// ---------------------------------------------------------------------------
// Shard choice
// ---------------------------------------------------------------------------

/// FNV-1a, 32 bits, over `bytes`.
pub open spec fn spec_fnv1a32(bytes: Seq<u8>) -> u32
    decreases bytes.len(),
{
    if bytes.len() == 0 {
        0x811c_9dc5
    } else {
        (((spec_fnv1a32(bytes.drop_last()) ^ (bytes.last() as u32)) as nat * 0x0100_0193) % 0x1_0000_0000) as u32
    }
}

/// FNV-1a hash (32 bits) of `bytes`.
pub fn fnv1a32(bytes: &[u8]) -> (r: u32)
    ensures
        r == spec_fnv1a32(bytes@),
{
    let mut h: u32 = 0x811c_9dc5;
    let mut i: usize = 0;
    while i < bytes.len()
        invariant
            i <= bytes@.len(),
            h == spec_fnv1a32(bytes@.take(i as int)),
        decreases bytes.len() - i,
    {
        assert(bytes@.take(i as int + 1).drop_last() =~= bytes@.take(i as int));
        h = h ^ (bytes[i] as u32);
        h = h.wrapping_mul(0x0100_0193);
        i = i + 1;
    }
    assert(bytes@.take(bytes@.len() as int) =~= bytes@);
    h
}

/// The shard of a hash.
pub open spec fn shard_of(h: u32) -> int {
    (h % 16) as int
}

/// The shard of a domain: its UTF-8 bytes hashed.
pub open spec fn spec_shard_str(s: Seq<char>) -> int {
    shard_of(spec_fnv1a32(vstd::utf8::encode_utf8(s)))
}

/// The bytes of an address, most significant first.
pub open spec fn ip_octets(ip: IpAddress) -> Seq<u8> {
    match ip {
        IpAddress::V4(v) => crate::bytes::be_bytes(v as nat, 4),
        IpAddress::V6(v) => crate::bytes::be_bytes(v as nat / 0x1_0000_0000_0000_0000, 8)
            + crate::bytes::be_bytes(v as nat % 0x1_0000_0000_0000_0000, 8),
    }
}

/// The shard of an address: its bytes hashed.
pub open spec fn spec_shard_ip(ip: IpAddress) -> int {
    shard_of(spec_fnv1a32(ip_octets(ip)))
}

pub fn shard_str(s: &str) -> (r: usize)
    ensures
        r == spec_shard_str(s@),
        r < SHARDS,
{
    let h = fnv1a32(s.as_bytes());
    assert(h & 15 == h % 16) by (bit_vector);
    (h & 15) as usize
}

pub fn shard_ip(ip: IpAddress) -> (r: usize)
    ensures
        r == spec_shard_ip(ip),
        r < SHARDS,
{
    let mut octets: Vec<u8> = Vec::new();
    match ip {
        IpAddress::V4(v) => {
            crate::bytes::push_be_bytes(&mut octets, v as u64, 4);
            assert(octets@ =~= ip_octets(ip));
        },
        IpAddress::V6(v) => {
            let hi = #[verifier::truncate] ((v >> 64u128) as u64);
            let lo = #[verifier::truncate] (v as u64);
            assert(hi == v / 0x1_0000_0000_0000_0000) by (bit_vector)
                requires
                    hi == (v >> 64u128) as u64,
            ;
            assert(lo == v % 0x1_0000_0000_0000_0000) by (bit_vector)
                requires
                    lo == v as u64,
            ;
            crate::bytes::push_be_bytes(&mut octets, hi, 8);
            crate::bytes::push_be_bytes(&mut octets, lo, 8);
            assert(octets@ =~= ip_octets(ip));
        },
    }
    let h = fnv1a32(octets.as_slice());
    assert(h & 15 == h % 16) by (bit_vector);
    (h & 15) as usize
}

/// Capacity of each shard: the total split evenly, but at least `min`.
pub open spec fn spec_per_shard_cap(total: nat, min: nat) -> nat {
    if total / 16 > min {
        total / 16
    } else {
        min
    }
}

pub fn per_shard_cap(total: usize, min: usize) -> (r: usize)
    requires
        min > 0,
    ensures
        r == spec_per_shard_cap(total as nat, min as nat),
        r > 0,
        min <= 16 ==> r * 16 <= usize::MAX,
{
    let per = total / SHARDS;
    if per > min {
        per
    } else {
        min
    }
}

// ---------------------------------------------------------------------------
// The LRU caches (the `lru` crate), as ordered entry lists
// ---------------------------------------------------------------------------

/// The first entry with key `k`.
pub open spec fn key_index<K, V>(s: Seq<(K, V)>, k: K) -> Option<int>
    decreases s.len(),
{
    if s.len() == 0 {
        None
    } else if s[0].0 == k {
        Some(0)
    } else {
        match key_index(s.drop_first(), k) {
            Some(i) => Some(i + 1),
            None => None,
        }
    }
}

/// No key occurs twice.
pub open spec fn keys_distinct<K, V>(s: Seq<(K, V)>) -> bool {
    forall|i: int, j: int| 0 <= i < j < s.len() ==> (#[trigger] s[i]).0 != (#[trigger] s[j]).0
}

/// Entry `i` used: it moves to the front (most recently used).
pub open spec fn touch<K, V>(s: Seq<(K, V)>, i: int) -> Seq<(K, V)> {
    seq![s[i]] + s.remove(i)
}

/// `lru::LruCache::put`: an existing key gets the new value and moves to the
/// front; a new key goes to the front, and when the cache is full the least
/// recently used entry (the last) leaves.
pub open spec fn lru_put<K, V>(s: Seq<(K, V)>, cap: nat, k: K, v: V) -> Seq<(K, V)> {
    match key_index(s, k) {
        Some(i) => seq![(k, v)] + s.remove(i),
        None => if s.len() >= cap {
            seq![(k, v)] + s.drop_last()
        } else {
            seq![(k, v)] + s
        },
    }
}

/// `lru::LruCache::pop`: the entry with key `k` leaves.
pub open spec fn lru_pop<K, V>(s: Seq<(K, V)>, k: K) -> Seq<(K, V)> {
    match key_index(s, k) {
        Some(i) => s.remove(i),
        None => s,
    }
}

#[verifier::external_type_specification]
#[verifier::external_body]
#[verifier::reject_recursive_types(K)]
#[verifier::reject_recursive_types(V)]
#[verifier::reject_recursive_types(S)]
pub struct ExLruCache<K, V, S>(lru::LruCache<K, V, S>);

#[verifier::external_type_specification]
#[verifier::external_body]
pub struct ExInstant(std::time::Instant);

/// A forward entry: the addresses and when they expire (in nanoseconds of
/// the cache's clock).
pub struct ForwardEntry {
    ips: Vec<IpAddress>,
    expire_at: u64,
}

/// A reverse entry: the domain and when it expires.
pub struct ReverseEntry {
    domain: String,
    expire_at: u64,
}

/// A forward shard: domain → entry.
pub type ForwardShard = lru::LruCache<String, ForwardEntry, std::collections::hash_map::RandomState>;

/// A reverse shard: address → entry.
pub type ReverseShard = lru::LruCache<IpAddress, ReverseEntry, std::collections::hash_map::RandomState>;

/// The entries of a forward shard, most recently used first.
pub uninterp spec fn forward_entries(c: ForwardShard) -> Seq<(Seq<char>, (Seq<IpAddress>, u64))>;

/// The capacity a forward shard was made with.
pub uninterp spec fn forward_cap(c: ForwardShard) -> nat;

/// The entries of a reverse shard, most recently used first.
pub uninterp spec fn reverse_entries(c: ReverseShard) -> Seq<(IpAddress, (Seq<char>, u64))>;

/// The capacity a reverse shard was made with.
pub uninterp spec fn reverse_cap(c: ReverseShard) -> nat;

/// A shard's entries respect its capacity and keys are distinct.
pub open spec fn lru_shape<K, V>(s: Seq<(K, V)>, cap: nat) -> bool {
    s.len() <= cap && keys_distinct(s)
}

/// An empty forward shard holding `cap` entries (`LruCache::new`).
#[verifier::external_body]
fn forward_new(cap: usize) -> (r: ForwardShard)
    requires
        cap > 0,
    ensures
        forward_entries(r) == Seq::<(Seq<char>, (Seq<IpAddress>, u64))>::empty(),
        forward_cap(r) == cap,
{
    lru::LruCache::with_hasher(
        std::num::NonZeroUsize::new(cap).unwrap(),
        std::collections::hash_map::RandomState::new(),
    )
}

/// Looks `k` up, marking it used (`LruCache::get`), and copies the entry out.
#[verifier::external_body]
fn forward_get(c: &mut ForwardShard, k: &str) -> (r: Option<(Vec<IpAddress>, u64)>)
    ensures
        forward_cap(*final(c)) == forward_cap(*old(c)),
        lru_shape(forward_entries(*final(c)), forward_cap(*final(c))),
        match key_index(forward_entries(*old(c)), k@) {
            Some(i) => (r matches Some((ips, exp)) && ips@ == forward_entries(*old(c))[i].1.0 && exp
                == forward_entries(*old(c))[i].1.1 && forward_entries(*final(c)) == touch(
                forward_entries(*old(c)),
                i,
            )),
            None => r is None && forward_entries(*final(c)) == forward_entries(*old(c)),
        },
{
    match c.get(k) {
        Some(e) => Some((e.ips.clone(), e.expire_at)),
        None => None,
    }
}

/// Removes `k` (`LruCache::pop`).
#[verifier::external_body]
fn forward_pop(c: &mut ForwardShard, k: &str)
    ensures
        forward_cap(*final(c)) == forward_cap(*old(c)),
        lru_shape(forward_entries(*final(c)), forward_cap(*final(c))),
        forward_entries(*final(c)) == lru_pop(forward_entries(*old(c)), k@),
{
    c.pop(k);
}

/// Stores `k` (`LruCache::put`).
#[verifier::external_body]
fn forward_put(c: &mut ForwardShard, k: String, ips: Vec<IpAddress>, expire_at: u64)
    ensures
        forward_cap(*final(c)) == forward_cap(*old(c)),
        lru_shape(forward_entries(*final(c)), forward_cap(*final(c))),
        forward_entries(*final(c)) == lru_put(
            forward_entries(*old(c)),
            forward_cap(*old(c)),
            k@,
            (ips@, expire_at),
        ),
{
    c.put(k, ForwardEntry { ips, expire_at });
}

/// Empties the shard (`LruCache::clear`).
#[verifier::external_body]
fn forward_clear(c: &mut ForwardShard)
    ensures
        forward_cap(*final(c)) == forward_cap(*old(c)),
        forward_entries(*final(c)) == Seq::<(Seq<char>, (Seq<IpAddress>, u64))>::empty(),
{
    c.clear();
}

/// Number of entries (`LruCache::len`).
#[verifier::external_body]
fn forward_len(c: &ForwardShard) -> (r: usize)
    ensures
        r == forward_entries(*c).len(),
{
    c.len()
}

/// An empty reverse shard holding `cap` entries (`LruCache::new`).
#[verifier::external_body]
fn reverse_new(cap: usize) -> (r: ReverseShard)
    requires
        cap > 0,
    ensures
        reverse_entries(r) == Seq::<(IpAddress, (Seq<char>, u64))>::empty(),
        reverse_cap(r) == cap,
{
    lru::LruCache::with_hasher(
        std::num::NonZeroUsize::new(cap).unwrap(),
        std::collections::hash_map::RandomState::new(),
    )
}

/// Looks `k` up, marking it used (`LruCache::get`), and copies the entry out.
#[verifier::external_body]
fn reverse_get(c: &mut ReverseShard, k: IpAddress) -> (r: Option<(String, u64)>)
    ensures
        reverse_cap(*final(c)) == reverse_cap(*old(c)),
        lru_shape(reverse_entries(*final(c)), reverse_cap(*final(c))),
        match key_index(reverse_entries(*old(c)), k) {
            Some(i) => (r matches Some((d, exp)) && d@ == reverse_entries(*old(c))[i].1.0 && exp
                == reverse_entries(*old(c))[i].1.1 && reverse_entries(*final(c)) == touch(
                reverse_entries(*old(c)),
                i,
            )),
            None => r is None && reverse_entries(*final(c)) == reverse_entries(*old(c)),
        },
{
    match c.get(&k) {
        Some(e) => Some((e.domain.clone(), e.expire_at)),
        None => None,
    }
}

/// Removes `k` (`LruCache::pop`).
#[verifier::external_body]
fn reverse_pop(c: &mut ReverseShard, k: IpAddress)
    ensures
        reverse_cap(*final(c)) == reverse_cap(*old(c)),
        lru_shape(reverse_entries(*final(c)), reverse_cap(*final(c))),
        reverse_entries(*final(c)) == lru_pop(reverse_entries(*old(c)), k),
{
    c.pop(&k);
}

/// Stores `k` (`LruCache::put`).
#[verifier::external_body]
fn reverse_put(c: &mut ReverseShard, k: IpAddress, domain: String, expire_at: u64)
    ensures
        reverse_cap(*final(c)) == reverse_cap(*old(c)),
        lru_shape(reverse_entries(*final(c)), reverse_cap(*final(c))),
        reverse_entries(*final(c)) == lru_put(
            reverse_entries(*old(c)),
            reverse_cap(*old(c)),
            k,
            (domain@, expire_at),
        ),
{
    c.put(k, ReverseEntry { domain, expire_at });
}

/// Empties the shard (`LruCache::clear`).
#[verifier::external_body]
fn reverse_clear(c: &mut ReverseShard)
    ensures
        reverse_cap(*final(c)) == reverse_cap(*old(c)),
        reverse_entries(*final(c)) == Seq::<(IpAddress, (Seq<char>, u64))>::empty(),
{
    c.clear();
}

/// Number of entries (`LruCache::len`).
#[verifier::external_body]
fn reverse_len(c: &ReverseShard) -> (r: usize)
    ensures
        r == reverse_entries(*c).len(),
{
    c.len()
}

// ---------------------------------------------------------------------------
// The clock
// ---------------------------------------------------------------------------

/// Nanoseconds elapsed since `epoch` on the monotonic clock
/// (`Instant::elapsed`), saturating at `u64::MAX`; nothing is promised of
/// the value.
#[verifier::external_body]
fn nanos_since(epoch: &std::time::Instant) -> u64 {
    u64::try_from(epoch.elapsed().as_nanos()).unwrap_or(u64::MAX)
}

/// The clock's reading now (`Instant::now`).
#[verifier::external_body]
fn instant_now() -> std::time::Instant {
    std::time::Instant::now()
}

/// `d` in nanoseconds (`Duration::as_nanos`), saturating at `u64::MAX`.
#[verifier::external_body]
fn duration_nanos(d: std::time::Duration) -> u64 {
    u64::try_from(d.as_nanos()).unwrap_or(u64::MAX)
}

// ---------------------------------------------------------------------------
// The cache
// ---------------------------------------------------------------------------

/// Forward entries as the cache's views: the domain, then the addresses and
/// their expiry.
pub type ForwardEntries = Seq<(Seq<char>, (Seq<IpAddress>, u64))>;

/// Reverse entries as the cache's views: the address, then the domain and
/// its expiry.
pub type ReverseEntries = Seq<(IpAddress, (Seq<char>, u64))>;

/// Domain → addresses with expiry, and address → domain, each in
/// `SHARDS` least-recently-used shards chosen by an FNV-1a hash.
pub struct DnsCache {
    cache: Vec<ForwardShard>,
    reverse: Vec<ReverseShard>,
    epoch: std::time::Instant,
    capacity: Ghost<nat>,
}

/// `capacity` times the reverse multiplier, saturating at `usize::MAX`.
pub open spec fn reverse_scaled(capacity: nat) -> nat {
    if capacity * 4 > usize::MAX {
        usize::MAX as nat
    } else {
        capacity * 4
    }
}

/// Capacity of each forward shard of a cache made for `capacity` domains:
/// `max(max(capacity, 16) / 16, 8)`.
pub open spec fn forward_shard_cap(capacity: nat) -> nat {
    spec_per_shard_cap(
        if capacity > SHARDS {
            capacity
        } else {
            SHARDS as nat
        },
        8,
    )
}

/// Capacity of each reverse shard of a cache made for `capacity` domains:
/// `max(max(4 * capacity, 16) / 16, 16)`, the product saturating.
pub open spec fn reverse_shard_cap(capacity: nat) -> nat {
    spec_per_shard_cap(
        if reverse_scaled(capacity) > SHARDS {
            reverse_scaled(capacity)
        } else {
            SHARDS as nat
        },
        16,
    )
}

/// Stores a reverse entry for each address in turn.
pub open spec fn reverse_puts(
    state: Seq<ReverseEntries>,
    caps: Seq<nat>,
    ips: Seq<IpAddress>,
    domain: Seq<char>,
    expire_at: u64,
) -> Seq<ReverseEntries>
    decreases ips.len(),
{
    if ips.len() == 0 {
        state
    } else {
        let st = reverse_puts(state, caps, ips.drop_last(), domain, expire_at);
        let sh = spec_shard_ip(ips.last());
        st.update(sh, lru_put(st[sh], caps[sh], ips.last(), (domain, expire_at)))
    }
}

/// The total of the lengths.
pub open spec fn total_len<T>(shards: Seq<Seq<T>>) -> nat
    decreases shards.len(),
{
    if shards.len() == 0 {
        0
    } else {
        total_len(shards.drop_last()) + shards.last().len()
    }
}

impl DnsCache {
    /// Sixteen shards each way, each within its capacity, which is the one
    /// that `new` gave it for the cache's capacity.
    pub closed spec fn wf(&self) -> bool {
        &&& self.cache@.len() == SHARDS
        &&& self.reverse@.len() == SHARDS
        &&& forall|i: int| 0 <= i < SHARDS ==> forward_cap(#[trigger] self.cache@[i]) == forward_shard_cap(self.capacity@)
        &&& forall|i: int| 0 <= i < SHARDS ==> reverse_cap(#[trigger] self.reverse@[i]) == reverse_shard_cap(self.capacity@)
        &&& forall|i: int|
            0 <= i < SHARDS ==> forward_cap(#[trigger] self.cache@[i]) > 0 && forward_cap(self.cache@[i]) * 16
                <= usize::MAX && lru_shape(
                forward_entries(self.cache@[i]),
                forward_cap(self.cache@[i]),
            )
        &&& forall|i: int|
            0 <= i < SHARDS ==> reverse_cap(#[trigger] self.reverse@[i]) > 0 && reverse_cap(self.reverse@[i]) * 16
                <= usize::MAX && lru_shape(
                reverse_entries(self.reverse@[i]),
                reverse_cap(self.reverse@[i]),
            )
    }

    /// The number of domains the cache was made for.
    pub closed spec fn capacity(&self) -> nat {
        self.capacity@
    }

    /// The forward shards' entries.
    pub closed spec fn forward(&self) -> Seq<ForwardEntries> {
        self.cache@.map_values(|c: ForwardShard| forward_entries(c))
    }

    /// The forward shards' capacities.
    pub closed spec fn forward_caps(&self) -> Seq<nat> {
        self.cache@.map_values(|c: ForwardShard| forward_cap(c))
    }

    /// The reverse shards' entries.
    pub closed spec fn reverse(&self) -> Seq<ReverseEntries> {
        self.reverse@.map_values(|c: ReverseShard| reverse_entries(c))
    }

    /// The reverse shards' capacities.
    pub closed spec fn reverse_caps(&self) -> Seq<nat> {
        self.reverse@.map_values(|c: ReverseShard| reverse_cap(c))
    }

    /// A cache for about `capacity` domains: each forward shard holds
    /// `max(max(capacity, 16) / 16, 8)` entries, each reverse shard
    /// `max(max(4 * capacity, 16) / 16, 16)` (the product saturating).
    pub fn new(capacity: usize) -> (r: DnsCache)
        ensures
            r.wf(),
            r.capacity() == capacity,
            r.forward().len() == SHARDS,
            r.reverse().len() == SHARDS,
            forall|i: int| 0 <= i < SHARDS ==> (#[trigger] r.forward()[i]).len() == 0,
            forall|i: int| 0 <= i < SHARDS ==> (#[trigger] r.reverse()[i]).len() == 0,
            forall|i: int| 0 <= i < SHARDS ==> #[trigger] r.forward_caps()[i] == forward_shard_cap(capacity as nat),
            forall|i: int| 0 <= i < SHARDS ==> #[trigger] r.reverse_caps()[i] == reverse_shard_cap(capacity as nat),
    {
        let fwd_total = if capacity > SHARDS {
            capacity
        } else {
            SHARDS
        };
        let rev_scaled: usize = if capacity > usize::MAX / REVERSE_CAP_MULTIPLIER {
            usize::MAX
        } else {
            capacity * REVERSE_CAP_MULTIPLIER
        };
        let rev_total = if rev_scaled > SHARDS {
            rev_scaled
        } else {
            SHARDS
        };
        let fwd_cap = per_shard_cap(fwd_total, 8);
        let rev_cap = per_shard_cap(rev_total, 16);
        let mut cache: Vec<ForwardShard> = Vec::new();
        let mut reverse: Vec<ReverseShard> = Vec::new();
        let mut i: usize = 0;
        while i < SHARDS
            invariant
                i <= SHARDS,
                fwd_cap > 0,
                rev_cap > 0,
                cache@.len() == i,
                reverse@.len() == i,
                forall|j: int|
                    0 <= j < i ==> forward_cap(#[trigger] cache@[j]) == fwd_cap && forward_entries(
                        cache@[j],
                    ).len() == 0,
                forall|j: int|
                    0 <= j < i ==> reverse_cap(#[trigger] reverse@[j]) == rev_cap && reverse_entries(
                        reverse@[j],
                    ).len() == 0,
            decreases SHARDS - i,
        {
            cache.push(forward_new(fwd_cap));
            reverse.push(reverse_new(rev_cap));
            i = i + 1;
        }
        let r = DnsCache { cache, reverse, epoch: instant_now(), capacity: Ghost(capacity as nat) };
        assert forall|i: int| 0 <= i < SHARDS implies (#[trigger] r.forward()[i]).len() == 0 by {
            assert(r.forward()[i] == forward_entries(r.cache@[i]));
        }
        assert forall|i: int| 0 <= i < SHARDS implies (#[trigger] r.reverse()[i]).len() == 0 by {
            assert(r.reverse()[i] == reverse_entries(r.reverse@[i]));
        }
        r
    }

    /// The addresses stored for `domain` if they have not expired at `now`
    /// (nanoseconds of the cache's clock). The entry becomes the most
    /// recently used; an expired one is dropped.
    pub fn get_at(&mut self, domain: &str, now: u64) -> (r: Option<Vec<IpAddress>>)
        requires
            old(self).wf(),
        ensures
            final(self).wf(),
            forward_lookup_done(*old(self), *final(self), domain@, now, opt_seq(r)),
    {
        let sh = shard_str(domain);
        let ghost s = forward_entries(self.cache@[sh as int]);
        let ghost before = self.cache@;
        let found = forward_get(&mut self.cache[sh], domain);
        let r = match found {
            Some((ips, expire_at)) => {
                if expire_at > now {
                    Some(ips)
                } else {
                    let ghost touched = forward_entries(self.cache@[sh as int]);
                    proof {
                        let i = key_index(s, domain@)->0;
                        lemma_key_index_bounds(s, domain@);
                        assert(touched[0].0 == domain@);
                        assert(touched.remove(0) =~= s.remove(i));
                    }
                    forward_pop(&mut self.cache[sh], domain);
                    None
                }
            },
            None => {
                forward_pop(&mut self.cache[sh], domain);
                proof {
                    lemma_key_index_bounds(s, domain@);
                }
                None
            },
        };
        proof {
            assert forall|j: int| 0 <= j < SHARDS && j != sh implies #[trigger] self.forward()[j] == old(
                self,
            ).forward()[j] by {
                assert(self.cache@[j] == before[j]);
            }
            assert(self.forward_caps() =~= old(self).forward_caps());
            lemma_key_index_bounds(s, domain@);
            assert(self.forward() =~= old(self).forward().update(sh as int, forward_after_lookup(s, domain@, now)));
        }
        r
    }

    /// Reads the clock, then `get_at`.
    pub fn get(&mut self, domain: &str) -> (r: Option<Vec<IpAddress>>)
        requires
            old(self).wf(),
        ensures
            final(self).wf(),
            exists|now: u64| #[trigger] forward_lookup_done(*old(self), *final(self), domain@, now, opt_seq(r)),
    {
        let now = nanos_since(&self.epoch);
        let r = self.get_at(domain, now);
        assert(forward_lookup_done(*old(self), *self, domain@, now, opt_seq(r)));
        r
    }
}

/// An optional vector as an optional sequence.
pub open spec fn opt_seq<T>(o: Option<Vec<T>>) -> Option<Seq<T>> {
    match o {
        Some(v) => Some(v@),
        None => None,
    }
}

/// What a lookup of `domain` in shard entries `s` at time `now` answers: the
/// stored addresses while they have not expired, else nothing.
pub open spec fn lookup_outcome(s: ForwardEntries, domain: Seq<char>, now: u64, r: Option<Seq<IpAddress>>) -> bool {
    match key_index(s, domain) {
        Some(i) => if s[i].1.1 > now {
            r == Some(s[i].1.0)
        } else {
            r is None
        },
        None => r is None,
    }
}

/// A found key lies inside the entries and is the first with that key.
pub proof fn lemma_key_index_bounds<K, V>(s: Seq<(K, V)>, k: K)
    ensures
        key_index(s, k) matches Some(i) ==> 0 <= i < s.len() && s[i].0 == k && forall|j: int|
            0 <= j < i ==> (#[trigger] s[j]).0 != k,
        key_index(s, k) is None ==> forall|j: int| 0 <= j < s.len() ==> (#[trigger] s[j]).0 != k,
    decreases s.len(),
{
    if s.len() > 0 {
        lemma_key_index_bounds(s.drop_first(), k);
        if s[0].0 != k {
            assert forall|j: int| 1 <= j < s.len() implies (#[trigger] s[j]).0 == s.drop_first()[j - 1].0 by {}
        }
    }
}

impl DnsCache {
    /// Stores `ips` for `domain` until `expire_at` (nanoseconds of the cache's
    /// clock): first a reverse entry for each address in turn, then the
    /// forward entry; each becomes its shard's most recently used, and a full
    /// shard drops its least recently used entry.
    pub fn put_at(&mut self, domain: &str, ips: &[IpAddress], expire_at: u64)
        requires
            old(self).wf(),
        ensures
            final(self).wf(),
            final(self).capacity() == old(self).capacity(),
            final(self).forward_caps() == old(self).forward_caps(),
            final(self).reverse_caps() == old(self).reverse_caps(),
            final(self).reverse() == reverse_puts(
                old(self).reverse(),
                old(self).reverse_caps(),
                ips@,
                domain@,
                expire_at,
            ),
            final(self).forward() == old(self).forward().update(
                spec_shard_str(domain@),
                lru_put(
                    old(self).forward()[spec_shard_str(domain@)],
                    old(self).forward_caps()[spec_shard_str(domain@)],
                    domain@,
                    (ips@, expire_at),
                ),
            ),
    {
        let mut i: usize = 0;
        while i < ips.len()
            invariant
                i <= ips@.len(),
                self.wf(),
                self.capacity@ == old(self).capacity@,
                self.cache@ == old(self).cache@,
                self.reverse_caps() == old(self).reverse_caps(),
                self.reverse() == reverse_puts(
                    old(self).reverse(),
                    old(self).reverse_caps(),
                    ips@.take(i as int),
                    domain@,
                    expire_at,
                ),
            decreases ips.len() - i,
        {
            let ip = ips[i];
            let sh = shard_ip(ip);
            let ghost before = self.reverse@;
            reverse_put(&mut self.reverse[sh], ip, owned(domain), expire_at);
            proof {
                assert(ips@.take(i as int + 1).drop_last() =~= ips@.take(i as int));
                assert(ips@.take(i as int + 1).last() == ip);
                assert(self.reverse@ =~= before.update(sh as int, self.reverse@[sh as int]));
                assert(self.reverse() =~= reverse_puts(
                    old(self).reverse(),
                    old(self).reverse_caps(),
                    ips@.take(i as int + 1),
                    domain@,
                    expire_at,
                ));
                assert(self.reverse_caps() =~= old(self).reverse_caps());
            }
            i = i + 1;
        }
        assert(ips@.take(ips@.len() as int) =~= ips@);
        let sh = shard_str(domain);
        let ghost before = self.cache@;
        let copy = vstd::slice::slice_to_vec(ips);
        forward_put(&mut self.cache[sh], owned(domain), copy, expire_at);
        proof {
            assert(self.cache@ =~= before.update(sh as int, self.cache@[sh as int]));
            assert(self.forward() =~= old(self).forward().update(
                sh as int,
                lru_put(
                    old(self).forward()[sh as int],
                    old(self).forward_caps()[sh as int],
                    domain@,
                    (ips@, expire_at),
                ),
            ));
            assert(self.forward_caps() =~= old(self).forward_caps());
        }
    }

    /// Reads the clock, then `put_at` with the expiry `ttl` from now
    /// (saturating at the clock's end).
    pub fn put(&mut self, domain: &str, ips: &[IpAddress], ttl: std::time::Duration)
        requires
            old(self).wf(),
        ensures
            final(self).wf(),
            exists|expire_at: u64|
                #[trigger] stored_for(*old(self), *final(self), domain@, ips@, expire_at),
    {
        let now = nanos_since(&self.epoch);
        let expire_at = now.saturating_add(duration_nanos(ttl));
        self.put_at(domain, ips, expire_at);
        assert(stored_for(*old(self), *self, domain@, ips@, expire_at));
    }

    /// The domain stored for `ip` if it has not expired at `now`. The entry
    /// becomes the most recently used; an expired one is dropped.
    pub fn reverse_lookup_at(&mut self, ip: IpAddress, now: u64) -> (r: Option<String>)
        requires
            old(self).wf(),
        ensures
            final(self).wf(),
            reverse_lookup_done(*old(self), *final(self), ip, now, opt_text(r)),
    {
        let sh = shard_ip(ip);
        let ghost s = reverse_entries(self.reverse@[sh as int]);
        let ghost before = self.reverse@;
        let found = reverse_get(&mut self.reverse[sh], ip);
        let r = match found {
            Some((d, expire_at)) => {
                if expire_at > now {
                    Some(d)
                } else {
                    let ghost touched = reverse_entries(self.reverse@[sh as int]);
                    proof {
                        let i = key_index(s, ip)->0;
                        lemma_key_index_bounds(s, ip);
                        assert(touched[0].0 == ip);
                        assert(touched.remove(0) =~= s.remove(i));
                    }
                    reverse_pop(&mut self.reverse[sh], ip);
                    None
                }
            },
            None => None,
        };
        proof {
            assert forall|j: int| 0 <= j < SHARDS && j != sh implies #[trigger] self.reverse()[j] == old(
                self,
            ).reverse()[j] by {
                assert(self.reverse@[j] == before[j]);
            }
            assert(self.reverse_caps() =~= old(self).reverse_caps());
            lemma_key_index_bounds(s, ip);
            assert(self.reverse() =~= old(self).reverse().update(sh as int, reverse_after_lookup(s, ip, now)));
        }
        r
    }

    /// Reads the clock, then `reverse_lookup_at`.
    pub fn reverse_lookup(&mut self, ip: IpAddress) -> (r: Option<String>)
        requires
            old(self).wf(),
        ensures
            final(self).wf(),
            exists|now: u64| #[trigger] reverse_lookup_done(*old(self), *final(self), ip, now, opt_text(r)),
    {
        let now = nanos_since(&self.epoch);
        let r = self.reverse_lookup_at(ip, now);
        assert(reverse_lookup_done(*old(self), *self, ip, now, opt_text(r)));
        r
    }

    /// Empties every shard.
    pub fn clear(&mut self)
        requires
            old(self).wf(),
        ensures
            final(self).wf(),
            final(self).capacity() == old(self).capacity(),
            final(self).forward_caps() == old(self).forward_caps(),
            final(self).reverse_caps() == old(self).reverse_caps(),
            forall|i: int| 0 <= i < SHARDS ==> (#[trigger] final(self).forward()[i]).len() == 0,
            forall|i: int| 0 <= i < SHARDS ==> (#[trigger] final(self).reverse()[i]).len() == 0,
            final(self).forward().len() == SHARDS,
            final(self).reverse().len() == SHARDS,
    {
        let mut i: usize = 0;
        while i < SHARDS
            invariant
                i <= SHARDS,
                self.wf(),
                self.capacity@ == old(self).capacity@,
                self.forward_caps() == old(self).forward_caps(),
                self.reverse_caps() == old(self).reverse_caps(),
                forall|j: int| 0 <= j < i ==> (#[trigger] self.forward()[j]).len() == 0,
                forall|j: int| 0 <= j < i ==> (#[trigger] self.reverse()[j]).len() == 0,
            decreases SHARDS - i,
        {
            let ghost fb = self.cache@;
            let ghost rb = self.reverse@;
            let ghost pf = self.forward();
            let ghost pr = self.reverse();
            forward_clear(&mut self.cache[i]);
            reverse_clear(&mut self.reverse[i]);
            proof {
                assert forall|j: int| 0 <= j < i + 1 implies (#[trigger] self.forward()[j]).len() == 0 by {
                    if j < i {
                        assert(self.cache@[j] == fb[j]);
                        assert(pf[j] == forward_entries(fb[j]));
                        assert(pf[j].len() == 0);
                    }
                    assert(self.forward()[j] == forward_entries(self.cache@[j]));
                }
                assert forall|j: int| 0 <= j < i + 1 implies (#[trigger] self.reverse()[j]).len() == 0 by {
                    if j < i {
                        assert(self.reverse@[j] == rb[j]);
                        assert(pr[j] == reverse_entries(rb[j]));
                        assert(pr[j].len() == 0);
                    }
                    assert(self.reverse()[j] == reverse_entries(self.reverse@[j]));
                }
                assert(self.forward_caps() =~= old(self).forward_caps());
                assert(self.reverse_caps() =~= old(self).reverse_caps());
                assert forall|j: int| 0 <= j < SHARDS implies forward_cap(#[trigger] self.cache@[j]) > 0
                    && forward_cap(self.cache@[j]) * 16 <= usize::MAX && lru_shape(
                    forward_entries(self.cache@[j]),
                    forward_cap(self.cache@[j]),
                ) by {
                    assert(self.forward_caps()[j] == old(self).forward_caps()[j]);
                }
                assert forall|j: int| 0 <= j < SHARDS implies reverse_cap(#[trigger] self.reverse@[j]) > 0
                    && reverse_cap(self.reverse@[j]) * 16 <= usize::MAX && lru_shape(
                    reverse_entries(self.reverse@[j]),
                    reverse_cap(self.reverse@[j]),
                ) by {
                    assert(self.reverse_caps()[j] == old(self).reverse_caps()[j]);
                }
            }
            i = i + 1;
        }
    }

    /// Number of forward entries.
    pub fn forward_len(&self) -> (r: usize)
        requires
            self.wf(),
        ensures
            r == total_len(self.forward()),
            r <= SHARDS * forward_shard_cap(self.capacity()),
    {
        proof {
            self.lemma_size_bound();
        }
        let mut total: usize = 0;
        let mut i: usize = 0;
        while i < SHARDS
            invariant
                i <= SHARDS,
                self.wf(),
                total == total_len(self.forward().take(i as int)),
                total <= i * (usize::MAX / 16),
            decreases SHARDS - i,
        {
            let n = forward_len(&self.cache[i]);
            proof {
                assert(self.forward().take(i as int + 1).drop_last() =~= self.forward().take(i as int));
                assert(self.forward()[i as int] == forward_entries(self.cache@[i as int]));
                assert(forward_cap(self.cache@[i as int]) > 0);
                let k = usize::MAX / 16;
                assert((i + 1) * k == i * k + k) by (nonlinear_arith);
                assert(i * k + k <= 16 * k) by (nonlinear_arith)
                    requires
                        i < 16,
                ;
            }
            total = total + n;
            i = i + 1;
        }
        assert(self.forward().take(SHARDS as int) =~= self.forward());
        total
    }

    /// Number of reverse entries.
    pub fn reverse_len(&self) -> (r: usize)
        requires
            self.wf(),
        ensures
            r == total_len(self.reverse()),
            r <= SHARDS * reverse_shard_cap(self.capacity()),
    {
        proof {
            self.lemma_size_bound();
        }
        let mut total: usize = 0;
        let mut i: usize = 0;
        while i < SHARDS
            invariant
                i <= SHARDS,
                self.wf(),
                total == total_len(self.reverse().take(i as int)),
                total <= i * (usize::MAX / 16),
            decreases SHARDS - i,
        {
            let n = reverse_len(&self.reverse[i]);
            proof {
                assert(self.reverse().take(i as int + 1).drop_last() =~= self.reverse().take(i as int));
                assert(self.reverse()[i as int] == reverse_entries(self.reverse@[i as int]));
                assert(reverse_cap(self.reverse@[i as int]) > 0);
                let k = usize::MAX / 16;
                assert((i + 1) * k == i * k + k) by (nonlinear_arith);
                assert(i * k + k <= 16 * k) by (nonlinear_arith)
                    requires
                        i < 16,
                ;
            }
            total = total + n;
            i = i + 1;
        }
        assert(self.reverse().take(SHARDS as int) =~= self.reverse());
        total
    }
}

/// `after` is `before` with `ips` stored for `domain` until `expire_at`.
pub open spec fn stored_for(before: DnsCache, after: DnsCache, domain: Seq<char>, ips: Seq<IpAddress>, expire_at: u64) -> bool {
    &&& after.capacity() == before.capacity()
    &&& after.forward_caps() == before.forward_caps()
    &&& after.reverse_caps() == before.reverse_caps()
    &&& after.reverse() == reverse_puts(before.reverse(), before.reverse_caps(), ips, domain, expire_at)
    &&& after.forward() == before.forward().update(
        spec_shard_str(domain),
        lru_put(
            before.forward()[spec_shard_str(domain)],
            before.forward_caps()[spec_shard_str(domain)],
            domain,
            (ips, expire_at),
        ),
    )
}

/// An optional string as optional text.
pub open spec fn opt_text(o: Option<String>) -> Option<Seq<char>> {
    match o {
        Some(s) => Some(s@),
        None => None,
    }
}

/// What a reverse lookup of `ip` in shard entries `s` at time `now`
/// answers: the stored domain while it has not expired, else nothing.
pub open spec fn reverse_outcome(s: ReverseEntries, ip: IpAddress, now: u64, r: Option<Seq<char>>) -> bool {
    match key_index(s, ip) {
        Some(i) => if s[i].1.1 > now {
            r == Some(s[i].1.0)
        } else {
            r is None
        },
        None => r is None,
    }
}

/// A read right after a store finds what was stored: the stored entry is
/// its shard's first, so a lookup before `expire_at` answers the stored
/// value; and the shard keeps its capacity and distinct keys.
pub proof fn lemma_lookup_after_store<K, V>(s: Seq<(K, V)>, cap: nat, k: K, v: V)
    requires
        cap > 0,
        lru_shape(s, cap),
    ensures
        key_index(lru_put(s, cap, k, v), k) == Some(0int),
        lru_put(s, cap, k, v)[0] == (k, v),
{
}

/// A stored forward entry is read back until it expires.
pub proof fn lemma_get_after_put(
    s: ForwardEntries,
    cap: nat,
    domain: Seq<char>,
    ips: Seq<IpAddress>,
    expire_at: u64,
    now: u64,
)
    requires
        cap > 0,
        lru_shape(s, cap),
    ensures
        lookup_outcome(lru_put(s, cap, domain, (ips, expire_at)), domain, now, if now < expire_at {
            Some(ips)
        } else {
            None
        }),
{
    lemma_lookup_after_store(s, cap, domain, (ips, expire_at));
}

/// A shard's entries after looking `k` up at `now`: a live entry becomes
/// the most recently used, an expired one is dropped, a missing one
/// changes nothing.
pub open spec fn after_lookup<K, V>(s: Seq<(K, (V, u64))>, k: K, now: u64) -> Seq<(K, (V, u64))> {
    match key_index(s, k) {
        Some(i) => if s[i].1.1 > now {
            touch(s, i)
        } else {
            s.remove(i)
        },
        None => s,
    }
}

pub open spec fn forward_after_lookup(s: ForwardEntries, domain: Seq<char>, now: u64) -> ForwardEntries {
    after_lookup(s, domain, now)
}

pub open spec fn reverse_after_lookup(s: ReverseEntries, ip: IpAddress, now: u64) -> ReverseEntries {
    after_lookup(s, ip, now)
}

/// What looking `domain` up at `now` does: it answers what `lookup_outcome`
/// says, changes only the domain's shard (as `after_lookup` says), and
/// leaves the reverse index and every capacity as they were.
pub open spec fn forward_lookup_done(
    before: DnsCache,
    after: DnsCache,
    domain: Seq<char>,
    now: u64,
    r: Option<Seq<IpAddress>>,
) -> bool {
    let sh = spec_shard_str(domain);
    let s = before.forward()[sh];
    &&& lookup_outcome(s, domain, now, r)
    &&& after.capacity() == before.capacity()
    &&& after.forward() == before.forward().update(sh, forward_after_lookup(s, domain, now))
    &&& after.reverse() == before.reverse()
    &&& after.forward_caps() == before.forward_caps()
    &&& after.reverse_caps() == before.reverse_caps()
}

/// What looking `ip` up in the reverse index at `now` does.
pub open spec fn reverse_lookup_done(
    before: DnsCache,
    after: DnsCache,
    ip: IpAddress,
    now: u64,
    r: Option<Seq<char>>,
) -> bool {
    let sh = spec_shard_ip(ip);
    let s = before.reverse()[sh];
    &&& reverse_outcome(s, ip, now, r)
    &&& after.capacity() == before.capacity()
    &&& after.reverse() == before.reverse().update(sh, reverse_after_lookup(s, ip, now))
    &&& after.forward() == before.forward()
    &&& after.forward_caps() == before.forward_caps()
    &&& after.reverse_caps() == before.reverse_caps()
}

/// Shards each within `b` entries hold at most `b` entries per shard in all.
pub proof fn lemma_total_len_bound<T>(shards: Seq<Seq<T>>, b: nat)
    requires
        forall|i: int| 0 <= i < shards.len() ==> (#[trigger] shards[i]).len() <= b,
    ensures
        total_len(shards) <= shards.len() * b,
    decreases shards.len(),
{
    if shards.len() > 0 {
        let d = shards.drop_last();
        assert forall|i: int| 0 <= i < d.len() implies (#[trigger] d[i]).len() <= b by {
            assert(d[i] == shards[i]);
        }
        lemma_total_len_bound(d, b);
        assert(shards.last().len() <= b);
        assert((d.len() + 1) * b == d.len() * b + b) by (nonlinear_arith);
    }
}

impl DnsCache {
    /// The cache never holds more than the capacity it was made for allows:
    /// at most `16 * max(max(capacity, 16) / 16, 8)` forward entries and
    /// `16 * max(max(4 * capacity, 16) / 16, 16)` reverse entries. `new`
    /// sets the capacity and every operation keeps it and the cache's
    /// well-formedness, so this holds after any sequence of calls.
    pub proof fn lemma_size_bound(&self)
        requires
            self.wf(),
        ensures
            total_len(self.forward()) <= SHARDS * forward_shard_cap(self.capacity()),
            total_len(self.reverse()) <= SHARDS * reverse_shard_cap(self.capacity()),
    {
        let fb = forward_shard_cap(self.capacity());
        let rb = reverse_shard_cap(self.capacity());
        assert forall|i: int| 0 <= i < self.forward().len() implies (#[trigger] self.forward()[i]).len()
            <= fb by {
            assert(self.forward()[i] == forward_entries(self.cache@[i]));
        }
        assert forall|i: int| 0 <= i < self.reverse().len() implies (#[trigger] self.reverse()[i]).len()
            <= rb by {
            assert(self.reverse()[i] == reverse_entries(self.reverse@[i]));
        }
        lemma_total_len_bound(self.forward(), fb);
        lemma_total_len_bound(self.reverse(), rb);
    }
}

} // verus!

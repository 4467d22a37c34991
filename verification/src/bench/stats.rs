//! The arithmetic of the benchmark reports that needs no floating point.

use vstd::prelude::*;
use crate::text::starts_with;

verus! {

/// The steady-state sampling window of a run of `duration_secs`: from the
/// end of the first third to the end of the second.
pub fn sampling_window(duration_secs: u64) -> (r: (u64, u64))
    requires
        2 * duration_secs <= u64::MAX,
    ensures
        r.0 == duration_secs / 3,
        r.1 == 2 * duration_secs / 3,
{
    (duration_secs / 3, 2 * duration_secs / 3)
}

/// Ascending order.
pub open spec fn ascending(s: Seq<u64>) -> bool {
    forall|i: int, j: int| 0 <= i <= j < s.len() ==> s[i] <= s[j]
}

/// Exchanging two neighbours keeps the values.
proof fn lemma_swap_keeps_values(s: Seq<u64>, k: int)
    requires
        0 < k < s.len(),
    ensures
        s.update(k - 1, s[k]).update(k, s[k - 1]).to_multiset() == s.to_multiset(),
{
    broadcast use vstd::seq_lib::to_multiset_update;
    broadcast use vstd::multiset::group_multiset_axioms;

    let x = s[k - 1];
    let y = s[k];
    let s1 = s.update(k - 1, y);
    assert(s1[k] == y);
    s.to_multiset_ensures();
    assert(s.to_multiset().count(x) > 0) by {
        assert(s.contains(x));
    }
    assert(s1.to_multiset().insert(x).remove(y) =~= s.to_multiset());
}

/// Sorts `v` in place by insertion: the same values, in ascending order.
fn sort_u64(v: &mut Vec<u64>)
    ensures
        final(v)@.to_multiset() == old(v)@.to_multiset(),
        ascending(final(v)@),
{
    let n = v.len();
    let mut i: usize = 0;
    while i < n
        invariant
            i <= n,
            v@.len() == n,
            v@.to_multiset() == old(v)@.to_multiset(),
            forall|a: int, b: int| 0 <= a <= b < i ==> v@[a] <= v@[b],
        decreases n - i,
    {
        let mut j: usize = i;
        while j > 0 && v[j - 1] > v[j]
            invariant
                j <= i < n,
                v@.len() == n,
                v@.to_multiset() == old(v)@.to_multiset(),
                forall|a: int, b: int| 0 <= a <= b <= i && a != j && b != j ==> v@[a] <= v@[b],
                forall|b: int| j < b <= i ==> v@[j as int] <= v@[b],
            decreases j,
        {
            let x = v[j - 1];
            let y = v[j];
            proof {
                lemma_swap_keeps_values(v@, j as int);
            }
            v.set(j - 1, y);
            v.set(j, x);
            j = j - 1;
        }
        i = i + 1;
    }
}

/// The middle sample (the upper one of an even count): the element at
/// index `n / 2` of the samples in ascending order; 0 for no samples.
pub fn median_u64(samples: Vec<u64>) -> (r: u64)
    ensures
        samples@.len() == 0 ==> r == 0,
        samples@.len() > 0 ==> exists|s: Seq<u64>|
            #![trigger s.to_multiset()]
            s.to_multiset() == samples@.to_multiset() && ascending(s) && s.len() == samples@.len()
                && r == s[(s.len() / 2) as int],
{
    let mut v = samples;
    if v.len() == 0 {
        return 0;
    }
    let ghost before = v@;
    sort_u64(&mut v);
    proof {
        before.to_multiset_ensures();
        v@.to_multiset_ensures();
    }
    let r = v[v.len() / 2];
    assert(v@.to_multiset() == before.to_multiset());
    r
}

/// The headline row of a throughput table: the first labelled `64 MB...`,
/// else the last.
pub fn headline_row(labels: &Vec<String>) -> (r: usize)
    requires
        labels@.len() > 0,
    ensures
        r < labels@.len(),
        starts_with(labels@[r as int]@, "64 MB"@) ==> forall|j: int|
            0 <= j < r ==> !starts_with(#[trigger] labels@[j]@, "64 MB"@),
        !starts_with(labels@[r as int]@, "64 MB"@) ==> r == labels@.len() - 1 && forall|j: int|
            0 <= j < labels@.len() ==> !starts_with(#[trigger] labels@[j]@, "64 MB"@),
{
    let mut i: usize = 0;
    while i < labels.len()
        invariant
            i <= labels@.len(),
            forall|j: int| 0 <= j < i ==> !starts_with(#[trigger] labels@[j]@, "64 MB"@),
        decreases labels.len() - i,
    {
        if crate::text::str_starts_with(labels[i].as_str(), "64 MB") {
            return i;
        }
        i = i + 1;
    }
    labels.len() - 1
}

} // verus!

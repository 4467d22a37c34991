//! Url-test group: the member with the lowest measured delay, switched only
//! when a rival is faster by more than a tolerance or the current one died.

use vstd::prelude::*;
use crate::common::adapter_type::AdapterType;
use crate::proxy::group::{
    distinct_names, first_member, first_named_at, flatten, flatten_members, lemma_first_named_at_bounds,
    member_names_of, named_index, named_pick, names_of, opt_text, Member,
};
use crate::text::{owned, str_eq};

verus! {

/// A member that competes for fastest: alive, with a measured delay below
/// the largest one.
pub open spec fn measured(m: Member) -> bool {
    m.alive && 0 < m.last_delay < 65535
}

/// Among the first `k` members, `b` is the first of the measured ones with
/// the least delay.
pub open spec fn is_best_upto(ms: Seq<Member>, b: int, k: int) -> bool {
    &&& 0 <= b < k <= ms.len()
    &&& measured(ms[b])
    &&& forall|j: int|
        0 <= j < k && measured(#[trigger] ms[j]) ==> ms[b].last_delay <= ms[j].last_delay && (j < b
            ==> ms[j].last_delay > ms[b].last_delay)
}

/// Some of the first `k` members is measured.
pub open spec fn any_measured_upto(ms: Seq<Member>, k: int) -> bool {
    exists|j: int| 0 <= j < k && measured(#[trigger] ms[j])
}

/// Among the first `k` members, `c` is the last alive one called `n`.
pub open spec fn is_current_upto(ms: Seq<Member>, n: Seq<char>, c: int, k: int) -> bool {
    &&& 0 <= c < k <= ms.len()
    &&& ms[c].alive && ms[c].name@ == n
    &&& forall|j: int| c < j < k ==> !((#[trigger] ms[j]).alive && ms[j].name@ == n)
}

/// Some of the first `k` members is alive and called `n`.
pub open spec fn any_current_upto(ms: Seq<Member>, n: Seq<char>, k: int) -> bool {
    exists|j: int| 0 <= j < k && (#[trigger] ms[j]).alive && ms[j].name@ == n
}

/// The fastest member.
pub open spec fn best_index(ms: Seq<Member>) -> int {
    choose|b: int| is_best_upto(ms, b, ms.len() as int)
}

/// The alive member called `n` (the last such).
pub open spec fn current_index(ms: Seq<Member>, n: Seq<char>) -> int {
    choose|c: int| is_current_upto(ms, n, c, ms.len() as int)
}

/// `a + b`, capped at the largest `u16`.
pub open spec fn sat_add(a: u16, b: u16) -> nat {
    if a + b > 65535 {
        65535
    } else {
        (a + b) as nat
    }
}

/// The current pick is still alive.
pub open spec fn current_alive(ms: Seq<Member>, cur: Option<Seq<char>>) -> bool {
    cur is Some && any_current_upto(ms, cur->0, ms.len() as int)
}

/// What a dial uses, and what the group then remembers as its pick
/// (`None` in the second place: the pick stays).
///
/// The fastest member replaces the current pick when its delay plus the
/// tolerance is still below the current pick's, or when the current pick
/// is dead; without any measured member a dead pick falls back to the
/// first member.
pub open spec fn url_test_pick(ms: Seq<Member>, cur: Option<Seq<char>>, tolerance: u16) -> (
    Option<int>,
    Option<Option<Seq<char>>>,
) {
    let alive = current_alive(ms, cur);
    let c = current_index(ms, cur->0);
    let cur_delay: nat = if alive {
        ms[c].last_delay as nat
    } else {
        65535
    };
    if any_measured_upto(ms, ms.len() as int) {
        let b = best_index(ms);
        if sat_add(ms[b].last_delay, tolerance) < cur_delay || !alive {
            (Some(b), Some(Some(ms[b].name@)))
        } else {
            (Some(c), None)
        }
    } else if !alive {
        match first_member(ms) {
            Some(i) => (Some(i), Some(Some(ms[i].name@))),
            None => (None, Some(None)),
        }
    } else {
        (Some(c), None)
    }
}

/// The pick after a dial.
pub open spec fn pick_after(ms: Seq<Member>, cur: Option<Seq<char>>, tolerance: u16) -> Option<Seq<char>> {
    match url_test_pick(ms, cur, tolerance).1 {
        Some(n) => n,
        None => cur,
    }
}

proof fn lemma_best_unique(ms: Seq<Member>, b1: int, b2: int)
    requires
        is_best_upto(ms, b1, ms.len() as int),
        is_best_upto(ms, b2, ms.len() as int),
    ensures
        b1 == b2,
{
    assert(measured(ms[b1]) && measured(ms[b2]));
}

proof fn lemma_current_unique(ms: Seq<Member>, n: Seq<char>, c1: int, c2: int)
    requires
        is_current_upto(ms, n, c1, ms.len() as int),
        is_current_upto(ms, n, c2, ms.len() as int),
    ensures
        c1 == c2,
{
    if c1 < c2 {
        assert(ms[c2].alive && ms[c2].name@ == n);
    }
    if c2 < c1 {
        assert(ms[c1].alive && ms[c1].name@ == n);
    }
}

/// Url-test group: dials the member with the lowest measured delay,
/// sticking with its current pick unless a rival beats it by more than the
/// tolerance or it died.
pub struct UrlTestGroup {
    name: String,
    members: Vec<Member>,
    tolerance: u16,
    fastest: Option<String>,
}

impl UrlTestGroup {
    pub closed spec fn spec_name(&self) -> Seq<char> {
        self.name@
    }

    /// The members, in order.
    pub closed spec fn spec_members(&self) -> Seq<Member> {
        self.members@
    }

    pub closed spec fn spec_tolerance(&self) -> u16 {
        self.tolerance
    }

    /// The remembered pick, if any.
    pub closed spec fn spec_fastest(&self) -> Option<Seq<char>> {
        opt_text(self.fastest)
    }

    pub fn new(name: &str, proxies: Vec<Member>, tolerance: u16) -> (r: UrlTestGroup)
        ensures
            r.spec_name() == name@,
            r.spec_members() == proxies@,
            r.spec_tolerance() == tolerance,
            r.spec_fastest() is None,
    {
        UrlTestGroup { name: owned(name), members: proxies, tolerance, fastest: None }
    }

    /// A group whose members are `proxies` followed by each provider's.
    pub fn new_with_providers(
        name: &str,
        proxies: Vec<Member>,
        tolerance: u16,
        slots: Vec<Vec<Member>>,
    ) -> (r: UrlTestGroup)
        ensures
            r.spec_name() == name@,
            r.spec_members() == flatten_members(proxies@, slots@),
            r.spec_tolerance() == tolerance,
            r.spec_fastest() is None,
    {
        UrlTestGroup { name: owned(name), members: flatten(proxies, slots), tolerance, fastest: None }
    }

    /// Replaces the members (a fresh snapshot after health checks or a
    /// provider refresh); the pick is kept by name.
    pub fn set_members(&mut self, members: Vec<Member>)
        ensures
            final(self).spec_members() == members@,
            final(self).spec_name() == old(self).spec_name(),
            final(self).spec_tolerance() == old(self).spec_tolerance(),
            final(self).spec_fastest() == old(self).spec_fastest(),
    {
        self.members = members;
    }

    pub fn name(&self) -> (r: &str)
        ensures
            r@ == self.spec_name(),
    {
        self.name.as_str()
    }

    pub fn adapter_type(&self) -> (r: AdapterType)
        ensures
            r == AdapterType::UrlTest,
    {
        AdapterType::UrlTest
    }

    /// Chooses the member for a dial, updating the remembered pick.
    pub fn pick_for_dial(&mut self) -> (r: Option<usize>)
        ensures
            match url_test_pick(old(self).spec_members(), old(self).spec_fastest(), old(self).spec_tolerance()).0 {
                Some(i) => (r matches Some(k) && k == i && 0 <= i < old(self).spec_members().len()),
                None => r is None,
            },
            final(self).spec_fastest() == pick_after(
                old(self).spec_members(),
                old(self).spec_fastest(),
                old(self).spec_tolerance(),
            ),
            final(self).spec_members() == old(self).spec_members(),
            final(self).spec_name() == old(self).spec_name(),
            final(self).spec_tolerance() == old(self).spec_tolerance(),
    {
        let ghost ms = self.members@;
        let ghost cur = opt_text(self.fastest);
        let mut best: Option<usize> = None;
        let mut best_delay: u16 = 65535;
        let mut current: Option<usize> = None;
        let mut i: usize = 0;
        while i < self.members.len()
            invariant
                ms == self.members@,
                cur == opt_text(self.fastest),
                i <= ms.len(),
                match best {
                    Some(b) => is_best_upto(ms, b as int, i as int) && best_delay == ms[b as int].last_delay,
                    None => !any_measured_upto(ms, i as int) && best_delay == 65535,
                },
                match current {
                    Some(c) => cur is Some && is_current_upto(ms, cur->0, c as int, i as int),
                    None => !current_alive_upto(ms, cur, i as int),
                },
            decreases self.members.len() - i,
        {
            let m = &self.members[i];
            if m.alive {
                let d = m.last_delay;
                if let Some(n) = &self.fastest {
                    if str_eq(m.name.as_str(), n.as_str()) {
                        current = Some(i);
                    }
                }
                if d > 0 && d < best_delay {
                    best_delay = d;
                    best = Some(i);
                }
            }
            proof {
                assert(ms[i as int] == *m);
            }
            i = i + 1;
        }
        let ghost alive = current_alive(ms, cur);
        proof {
            assert(alive == current.is_some());
            if let Some(c) = current {
                if let Some(c2) = Some(current_index(ms, cur->0)) {
                    assert(is_current_upto(ms, cur->0, c as int, ms.len() as int));
                    lemma_current_unique(ms, cur->0, c as int, current_index(ms, cur->0));
                }
            }
            if let Some(b) = best {
                assert(is_best_upto(ms, b as int, ms.len() as int));
                lemma_best_unique(ms, b as int, best_index(ms));
            }
        }
        let cur_delay: u16 = match current {
            Some(c) => self.members[c].last_delay,
            None => 65535,
        };
        match best {
            Some(b) => {
                if best_delay.saturating_add(self.tolerance) < cur_delay || current.is_none() {
                    self.fastest = Some(owned(self.members[b].name.as_str()));
                    return Some(b);
                }
            },
            None => {
                if current.is_none() {
                    if self.members.len() > 0 {
                        self.fastest = Some(owned(self.members[0].name.as_str()));
                        return Some(0);
                    } else {
                        self.fastest = None;
                        return None;
                    }
                }
            },
        }
        if current.is_some() {
            current
        } else if best.is_some() {
            best
        } else if self.members.len() > 0 {
            Some(0)
        } else {
            None
        }
    }

    /// The remembered pick's member, else the first member (no dial, no update).
    pub fn fastest_proxy(&self) -> (r: Option<&Member>)
        ensures
            match named_pick(self.spec_members(), self.spec_fastest()) {
                Some(i) => r == Some(&self.spec_members()[i]),
                None => r is None,
            },
    {
        match named_index(&self.members, &self.fastest) {
            Some(i) => Some(&self.members[i]),
            None => None,
        }
    }

    /// The members' names, in order.
    pub fn member_names(&self) -> (r: Vec<String>)
        ensures
            r@.map_values(|s: String| s@) == member_names_of(self.spec_members()),
    {
        names_of(&self.members)
    }

    /// The members' names, in order.
    pub fn members(&self) -> (r: Option<Vec<String>>)
        ensures
            r matches Some(v) && v@.map_values(|s: String| s@) == member_names_of(self.spec_members()),
    {
        Some(self.member_names())
    }

    /// The remembered member carries UDP.
    pub fn support_udp(&self) -> (r: bool)
        ensures
            r == (named_pick(self.spec_members(), self.spec_fastest()) matches Some(i)
                && self.spec_members()[i].udp),
    {
        match self.fastest_proxy() {
            Some(m) => m.udp,
            None => false,
        }
    }

    /// The remembered member is alive.
    pub fn alive(&self) -> (r: bool)
        ensures
            r == (named_pick(self.spec_members(), self.spec_fastest()) matches Some(i)
                && self.spec_members()[i].alive),
    {
        match self.fastest_proxy() {
            Some(m) => m.alive,
            None => false,
        }
    }

    /// The remembered member's last delay, 0 without members.
    pub fn last_delay(&self) -> (r: u16)
        ensures
            match named_pick(self.spec_members(), self.spec_fastest()) {
                Some(i) => r == self.spec_members()[i].last_delay,
                None => r == 0,
            },
    {
        match self.fastest_proxy() {
            Some(m) => m.last_delay,
            None => 0,
        }
    }

    /// The remembered member's name.
    pub fn current(&self) -> (r: Option<String>)
        ensures
            match named_pick(self.spec_members(), self.spec_fastest()) {
                Some(i) => r matches Some(n) && n@ == self.spec_members()[i].name@,
                None => r is None,
            },
    {
        match self.fastest_proxy() {
            Some(m) => Some(owned(m.name.as_str())),
            None => None,
        }
    }
}

/// Some of the first `k` members is alive and carries the pick's name.
pub open spec fn current_alive_upto(ms: Seq<Member>, cur: Option<Seq<char>>, k: int) -> bool {
    cur is Some && any_current_upto(ms, cur->0, k)
}


proof fn lemma_best_exists(ms: Seq<Member>, k: int)
    requires
        0 <= k <= ms.len(),
        any_measured_upto(ms, k),
    ensures
        exists|b: int| is_best_upto(ms, b, k),
    decreases k,
{
    let j = choose|j: int| 0 <= j < k && measured(#[trigger] ms[j]);
    if any_measured_upto(ms, k - 1) {
        lemma_best_exists(ms, k - 1);
        let b = choose|b: int| #[trigger] is_best_upto(ms, b, k - 1);
        if measured(ms[k - 1]) && ms[k - 1].last_delay < ms[b].last_delay {
            assert(is_best_upto(ms, k - 1, k));
        } else {
            assert(is_best_upto(ms, b, k));
        }
    } else {
        assert(j == k - 1);
        assert(is_best_upto(ms, k - 1, k));
    }
}

proof fn lemma_current_exists(ms: Seq<Member>, n: Seq<char>, k: int)
    requires
        0 <= k <= ms.len(),
        any_current_upto(ms, n, k),
    ensures
        exists|c: int| is_current_upto(ms, n, c, k),
    decreases k,
{
    if ms[k - 1].alive && ms[k - 1].name@ == n {
        assert(is_current_upto(ms, n, k - 1, k));
    } else {
        let j = choose|j: int| 0 <= j < k && (#[trigger] ms[j]).alive && ms[j].name@ == n;
        assert(j < k - 1);
        assert(any_current_upto(ms, n, k - 1));
        lemma_current_exists(ms, n, k - 1);
        let c = choose|c: int| #[trigger] is_current_upto(ms, n, c, k - 1);
        assert(is_current_upto(ms, n, c, k));
    }
}

/// With distinct names, an alive member is the current pick when its name
/// is remembered, and a dead one never is.
proof fn lemma_current_by_name(ms: Seq<Member>, i: int)
    requires
        distinct_names(ms),
        0 <= i < ms.len(),
    ensures
        ms[i].alive ==> current_alive(ms, Some(ms[i].name@)) && current_index(ms, ms[i].name@) == i,
        !ms[i].alive ==> !current_alive(ms, Some(ms[i].name@)),
{
    let n = ms[i].name@;
    if ms[i].alive {
        assert forall|j: int| i < j < ms.len() implies !((#[trigger] ms[j]).alive && ms[j].name@ == n) by {
            assert(ms[i].name@ != ms[j].name@);
        }
        assert(is_current_upto(ms, n, i, ms.len() as int));
        assert(any_current_upto(ms, n, ms.len() as int));
        lemma_current_exists(ms, n, ms.len() as int);
        lemma_current_unique(ms, n, i, current_index(ms, n));
    } else {
        if any_current_upto(ms, n, ms.len() as int) {
            let j = choose|j: int| 0 <= j < ms.len() && (#[trigger] ms[j]).alive && ms[j].name@ == n;
            if j < i {
                assert(ms[j].name@ != ms[i].name@);
            } else if j > i {
                assert(ms[i].name@ != ms[j].name@);
            }
        }
    }
}

/// With distinct names, a member's name picks that member.
proof fn lemma_named_pick_by_name(ms: Seq<Member>, i: int)
    requires
        distinct_names(ms),
        0 <= i < ms.len(),
    ensures
        named_pick(ms, Some(ms[i].name@)) == Some(i),
{
    let n = ms[i].name@;
    lemma_first_named_at_bounds(ms, n, 0);
    lemma_first_named_first(ms, n, 0);
    match first_named_at(ms, n, 0) {
        Some(k) => {
            if k < i {
                assert(ms[k].name@ != ms[i].name@);
            } else if k > i {
                assert(ms[k].name@ != n);
            }
        },
        None => {
            assert(ms[i].name@ != n);
        },
    }
}

proof fn lemma_first_named_first(ms: Seq<Member>, n: Seq<char>, k: int)
    requires
        k >= 0,
    ensures
        first_named_at(ms, n, k) matches Some(i) ==> forall|j: int|
            k <= j < i ==> (#[trigger] ms[j]).name@ != n,
    decreases ms.len() - k,
{
    if 0 <= k < ms.len() {
        lemma_first_named_first(ms, n, k + 1);
    }
}

/// With distinct names, what a dial uses is what the remembered pick then
/// names, so `fastest_proxy` and the other read-only methods report the
/// member that was dialed.
pub proof fn lemma_pick_then_fastest(ms: Seq<Member>, cur: Option<Seq<char>>, tolerance: u16)
    requires
        distinct_names(ms),
    ensures
        url_test_pick(ms, cur, tolerance).0 matches Some(i) ==> named_pick(
            ms,
            pick_after(ms, cur, tolerance),
        ) == Some(i),
{
    if any_measured_upto(ms, ms.len() as int) {
        lemma_best_exists(ms, ms.len() as int);
    }
    if current_alive(ms, cur) {
        lemma_current_exists(ms, cur->0, ms.len() as int);
    }
    match url_test_pick(ms, cur, tolerance).0 {
        Some(i) => {
            if url_test_pick(ms, cur, tolerance).1 is Some {
                lemma_named_pick_by_name(ms, i);
            } else {
                let c = current_index(ms, cur->0);
                assert(is_current_upto(ms, cur->0, c, ms.len() as int));
                lemma_named_pick_by_name(ms, c);
            }
        },
        None => {},
    }
}

/// With distinct names a dial's choice is stable: dialing again over the
/// same members uses the same member and leaves the pick as it was.
pub proof fn lemma_pick_stable(ms: Seq<Member>, cur: Option<Seq<char>>, tolerance: u16)
    requires
        distinct_names(ms),
    ensures
        url_test_pick(ms, pick_after(ms, cur, tolerance), tolerance).0 == url_test_pick(
            ms,
            cur,
            tolerance,
        ).0,
        pick_after(ms, pick_after(ms, cur, tolerance), tolerance) == pick_after(ms, cur, tolerance),
{
    let first = url_test_pick(ms, cur, tolerance);
    if any_measured_upto(ms, ms.len() as int) {
        lemma_best_exists(ms, ms.len() as int);
        let b = best_index(ms);
        assert(is_best_upto(ms, b, ms.len() as int));
    }
    if current_alive(ms, cur) {
        lemma_current_exists(ms, cur->0, ms.len() as int);
    }
    if first.1 is Some {
        match first.0 {
            Some(i) => {
                lemma_current_by_name(ms, i);
            },
            None => {},
        }
    }
}

} // verus!

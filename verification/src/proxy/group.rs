//! Proxy groups: which member a fallback, selector or url-test group uses.
//!
//! A group decides on a snapshot of its members, in order (the static
//! members first, then each provider's): their names, whether they are
//! alive, their last measured delay and whether they carry UDP.

use vstd::prelude::*;
use crate::text::{owned, str_eq};

pub mod fallback;
pub mod selector;
pub mod selector_store;
pub mod urltest;

verus! {

/// What a group reads of one member proxy.
#[derive(Debug, Clone)]
pub struct Member {
    pub name: String,
    pub alive: bool,
    /// Last measured delay in milliseconds; 0 when not measured.
    pub last_delay: u16,
    pub udp: bool,
}

impl Member {
    /// An alive, TCP-only member with no measured delay.
    pub fn new(name: &str) -> (r: Member)
        ensures
            r.name@ == name@,
            r.alive,
            r.last_delay == 0,
            !r.udp,
    {
        Member { name: owned(name), alive: true, last_delay: 0, udp: false }
    }

    /// An alive, UDP-capable member with no measured delay.
    pub fn new_udp(name: &str) -> (r: Member)
        ensures
            r.name@ == name@,
            r.alive,
            r.last_delay == 0,
            r.udp,
    {
        Member { name: owned(name), alive: true, last_delay: 0, udp: true }
    }

    pub fn name(&self) -> (r: &str)
        ensures
            r@ == self.name@,
    {
        self.name.as_str()
    }
}

/// The members' names, in order.
pub open spec fn member_names_of(ms: Seq<Member>) -> Seq<Seq<char>> {
    ms.map_values(|m: Member| m.name@)
}

/// No two members share a name.
pub open spec fn distinct_names(ms: Seq<Member>) -> bool {
    forall|i: int, j: int| 0 <= i < j < ms.len() ==> #[trigger] ms[i].name@ != #[trigger] ms[j].name@
}

// ---------------------------------------------------------------------------
// Shared scans
// ---------------------------------------------------------------------------

/// The first alive member at or after `k`.
pub open spec fn first_alive_at(ms: Seq<Member>, k: int) -> Option<int>
    decreases ms.len() - k,
{
    if k < 0 || k >= ms.len() {
        None
    } else if ms[k].alive {
        Some(k)
    } else {
        first_alive_at(ms, k + 1)
    }
}

/// The first member, if there is one.
pub open spec fn first_member(ms: Seq<Member>) -> Option<int> {
    if ms.len() > 0 {
        Some(0)
    } else {
        None
    }
}

/// The fallback choice: the first alive member, else the first member.
pub open spec fn fallback_pick(ms: Seq<Member>) -> Option<int> {
    match first_alive_at(ms, 0) {
        Some(i) => Some(i),
        None => first_member(ms),
    }
}

/// The first member called `n` at or after `k`.
pub open spec fn first_named_at(ms: Seq<Member>, n: Seq<char>, k: int) -> Option<int>
    decreases ms.len() - k,
{
    if k < 0 || k >= ms.len() {
        None
    } else if ms[k].name@ == n {
        Some(k)
    } else {
        first_named_at(ms, n, k + 1)
    }
}

/// The member a name selects: the first member called so, else the first
/// member; with no name, the first member.
pub open spec fn named_pick(ms: Seq<Member>, name: Option<Seq<char>>) -> Option<int> {
    match name {
        Some(n) => match first_named_at(ms, n, 0) {
            Some(i) => Some(i),
            None => first_member(ms),
        },
        None => first_member(ms),
    }
}

/// A found index lies inside the members.
pub proof fn lemma_first_alive_at_bounds(ms: Seq<Member>, k: int)
    requires
        k >= 0,
    ensures
        first_alive_at(ms, k) matches Some(i) ==> k <= i < ms.len() && ms[i].alive,
        first_alive_at(ms, k) is None ==> forall|j: int| k <= j < ms.len() ==> !(#[trigger] ms[j]).alive,
    decreases ms.len() - k,
{
    if 0 <= k < ms.len() {
        lemma_first_alive_at_bounds(ms, k + 1);
    }
}

/// A found index lies inside the members and carries the name.
pub proof fn lemma_first_named_at_bounds(ms: Seq<Member>, n: Seq<char>, k: int)
    requires
        k >= 0,
    ensures
        first_named_at(ms, n, k) matches Some(i) ==> k <= i < ms.len() && ms[i].name@ == n,
        first_named_at(ms, n, k) is None ==> forall|j: int|
            k <= j < ms.len() ==> (#[trigger] ms[j]).name@ != n,
    decreases ms.len() - k,
{
    if 0 <= k < ms.len() {
        lemma_first_named_at_bounds(ms, n, k + 1);
    }
}

/// The first alive member, or the first member when none is alive.
pub fn first_alive_index(ms: &Vec<Member>) -> (r: Option<usize>)
    ensures
        match fallback_pick(ms@) {
            Some(i) => (r matches Some(k) && k == i && 0 <= i < ms@.len()),
            None => r is None,
        },
{
    let mut i: usize = 0;
    while i < ms.len()
        invariant
            i <= ms@.len(),
            first_alive_at(ms@, 0) == first_alive_at(ms@, i as int),
        decreases ms.len() - i,
    {
        if ms[i].alive {
            return Some(i);
        }
        i = i + 1;
    }
    if ms.len() > 0 {
        Some(0)
    } else {
        None
    }
}

/// The text of an optional name.
pub open spec fn opt_text(o: Option<String>) -> Option<Seq<char>> {
    match o {
        Some(s) => Some(s@),
        None => None,
    }
}

/// The first member called `name`, else the first member.
pub fn named_index(ms: &Vec<Member>, name: &Option<String>) -> (r: Option<usize>)
    ensures
        match named_pick(ms@, opt_text(*name)) {
            Some(i) => (r matches Some(k) && k == i && 0 <= i < ms@.len()),
            None => r is None,
        },
{
    if let Some(n) = name {
        assert(opt_text(*name) == Some(n@));
        let mut i: usize = 0;
        while i < ms.len()
            invariant
                i <= ms@.len(),
                opt_text(*name) == Some(n@),
                first_named_at(ms@, n@, 0) == first_named_at(ms@, n@, i as int),
            decreases ms.len() - i,
        {
            if str_eq(ms[i].name.as_str(), n.as_str()) {
                return Some(i);
            }
            i = i + 1;
        }
    }
    if ms.len() > 0 {
        Some(0)
    } else {
        None
    }
}

/// Some member is called `n`.
pub open spec fn has_name(ms: Seq<Member>, n: Seq<char>) -> bool {
    exists|i: int| 0 <= i < ms.len() && #[trigger] ms[i].name@ == n
}

/// The first member called `name`, if any.
pub fn position_of(ms: &Vec<Member>, name: &str) -> (r: Option<usize>)
    ensures
        r matches Some(i) ==> i < ms@.len() && ms@[i as int].name@ == name@ && forall|j: int|
            0 <= j < i ==> (#[trigger] ms@[j]).name@ != name@,
        r is None ==> !has_name(ms@, name@),
{
    let mut i: usize = 0;
    while i < ms.len()
        invariant
            i <= ms@.len(),
            forall|j: int| 0 <= j < i ==> (#[trigger] ms@[j]).name@ != name@,
        decreases ms.len() - i,
    {
        if str_eq(ms[i].name.as_str(), name) {
            return Some(i);
        }
        i = i + 1;
    }
    None
}

/// Copies of the members' names, in order.
pub fn names_of(ms: &Vec<Member>) -> (r: Vec<String>)
    ensures
        r@.map_values(|s: String| s@) == member_names_of(ms@),
{
    let mut out: Vec<String> = Vec::new();
    let mut i: usize = 0;
    while i < ms.len()
        invariant
            i <= ms@.len(),
            out@.map_values(|s: String| s@) == member_names_of(ms@).take(i as int),
        decreases ms.len() - i,
    {
        let ghost before = out@;
        let nm = owned(ms[i].name.as_str());
        out.push(nm);
        assert(out@ == before.push(nm));
        assert(out@.map_values(|s: String| s@) =~= before.map_values(|s: String| s@).push(nm@));
        assert(out@.map_values(|s: String| s@) =~= member_names_of(ms@).take(i as int + 1));
        i = i + 1;
    }
    assert(member_names_of(ms@).take(ms@.len() as int) =~= member_names_of(ms@));
    out
}

/// All members, in order: the static ones, then each provider's.
pub open spec fn flatten_members(first: Seq<Member>, slots: Seq<Vec<Member>>) -> Seq<Member>
    decreases slots.len(),
{
    if slots.len() == 0 {
        first
    } else {
        flatten_members(first + slots[0]@, slots.drop_first())
    }
}

/// Appends each provider's members after the static ones.
pub fn flatten(proxies: Vec<Member>, slots: Vec<Vec<Member>>) -> (r: Vec<Member>)
    ensures
        r@ == flatten_members(proxies@, slots@),
{
    let mut out = proxies;
    let mut rest = slots;
    let ghost orig_first = out@;
    let ghost orig_slots = rest@;
    while rest.len() > 0
        invariant
            flatten_members(out@, rest@) == flatten_members(orig_first, orig_slots),
        decreases rest.len(),
    {
        let ghost before_out = out@;
        let ghost before_rest = rest@;
        let mut s = rest.remove(0);
        out.append(&mut s);
        assert(rest@ =~= before_rest.drop_first());
    }
    out
}

impl Member {
    /// A copy of this member.
    pub fn clone_member(&self) -> (r: Member)
        ensures
            r.name@ == self.name@,
            r.alive == self.alive,
            r.last_delay == self.last_delay,
            r.udp == self.udp,
    {
        Member {
            name: owned(self.name.as_str()),
            alive: self.alive,
            last_delay: self.last_delay,
            udp: self.udp,
        }
    }
}

} // verus!

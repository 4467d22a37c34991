//! Fallback group: the first alive member.

use vstd::prelude::*;
use crate::common::adapter_type::AdapterType;
use crate::proxy::group::{
    fallback_pick, first_alive_at, first_alive_index, flatten, flatten_members, lemma_first_alive_at_bounds,
    member_names_of, names_of, Member,
};
use crate::text::owned;

verus! {

/// Dials through the first alive member; when every member is dead, still
/// the first member, so the dial can fail with a real network error.
pub struct FallbackGroup {
    name: String,
    members: Vec<Member>,
}

impl FallbackGroup {
    pub closed spec fn spec_name(&self) -> Seq<char> {
        self.name@
    }

    /// The members, in order.
    pub closed spec fn spec_members(&self) -> Seq<Member> {
        self.members@
    }

    pub fn new(name: &str, proxies: Vec<Member>) -> (r: FallbackGroup)
        ensures
            r.spec_name() == name@,
            r.spec_members() == proxies@,
    {
        FallbackGroup { name: owned(name), members: proxies }
    }

    /// A group whose members are `proxies` followed by each provider's.
    pub fn new_with_providers(name: &str, proxies: Vec<Member>, slots: Vec<Vec<Member>>) -> (r:
        FallbackGroup)
        ensures
            r.spec_name() == name@,
            r.spec_members() == flatten_members(proxies@, slots@),
    {
        FallbackGroup { name: owned(name), members: flatten(proxies, slots) }
    }

    /// Replaces the members (a fresh snapshot after health checks or a
    /// provider refresh).
    pub fn set_members(&mut self, members: Vec<Member>)
        ensures
            final(self).spec_members() == members@,
            final(self).spec_name() == old(self).spec_name(),
    {
        self.members = members;
    }

    /// The members, to update in place.
    pub fn members_mut(&mut self) -> (r: &mut Vec<Member>)
        ensures
            r@ == old(self).spec_members(),
            final(self).spec_members() == final(r)@,
            final(self).spec_name() == old(self).spec_name(),
    {
        &mut self.members
    }

    pub fn name(&self) -> (r: &str)
        ensures
            r@ == self.spec_name(),
    {
        self.name.as_str()
    }

    pub fn adapter_type(&self) -> (r: AdapterType)
        ensures
            r == AdapterType::Fallback,
    {
        AdapterType::Fallback
    }

    /// The member to dial: the first alive one, else the first one.
    pub fn first_alive(&self) -> (r: Option<&Member>)
        ensures
            match fallback_pick(self.spec_members()) {
                Some(i) => r == Some(&self.spec_members()[i]),
                None => r is None,
            },
    {
        match first_alive_index(&self.members) {
            Some(i) => Some(&self.members[i]),
            None => None,
        }
    }

    /// The members' names, in order.
    pub fn member_names(&self) -> (r: Vec<String>)
        ensures
            r@.map_values(|s: String| s@) == member_names_of(self.spec_members()),
    {
        names_of(&self.members)
    }

    /// The members' names, in order.
    pub fn members(&self) -> (r: Option<Vec<String>>)
        ensures
            r matches Some(v) && v@.map_values(|s: String| s@) == member_names_of(self.spec_members()),
    {
        Some(self.member_names())
    }

    /// The chosen member carries UDP.
    pub fn support_udp(&self) -> (r: bool)
        ensures
            r == (fallback_pick(self.spec_members()) matches Some(i) && self.spec_members()[i].udp),
    {
        match self.first_alive() {
            Some(m) => m.udp,
            None => false,
        }
    }

    /// The chosen member is alive.
    pub fn alive(&self) -> (r: bool)
        ensures
            r == (fallback_pick(self.spec_members()) matches Some(i) && self.spec_members()[i].alive),
    {
        match self.first_alive() {
            Some(m) => m.alive,
            None => false,
        }
    }

    /// The chosen member's last delay, 0 without members.
    pub fn last_delay(&self) -> (r: u16)
        ensures
            match fallback_pick(self.spec_members()) {
                Some(i) => r == self.spec_members()[i].last_delay,
                None => r == 0,
            },
    {
        match self.first_alive() {
            Some(m) => m.last_delay,
            None => 0,
        }
    }

    /// The chosen member's name.
    pub fn current(&self) -> (r: Option<String>)
        ensures
            match fallback_pick(self.spec_members()) {
                Some(i) => r matches Some(n) && n@ == self.spec_members()[i].name@,
                None => r is None,
            },
    {
        match self.first_alive() {
            Some(m) => Some(owned(m.name.as_str())),
            None => None,
        }
    }
}

/// The fallback choice is the earliest alive member: an alive member is
/// never passed over for a later one, and when none is alive the first
/// member is still chosen.
pub proof fn lemma_fallback_prefers_earliest_alive(ms: Seq<Member>, i: int)
    requires
        0 <= i < ms.len(),
    ensures
        ms[i].alive ==> (fallback_pick(ms) matches Some(k) && k <= i && ms[k].alive && forall|j: int|
            0 <= j < k ==> !(#[trigger] ms[j]).alive),
        (forall|j: int| 0 <= j < ms.len() ==> !(#[trigger] ms[j]).alive) ==> fallback_pick(ms) == Some(
            0int,
        ),
{
    lemma_first_alive_at_bounds(ms, 0);
    lemma_first_alive_is_first(ms, 0);
}

proof fn lemma_first_alive_is_first(ms: Seq<Member>, k: int)
    requires
        k >= 0,
    ensures
        first_alive_at(ms, k) matches Some(i) ==> forall|j: int| k <= j < i ==> !(#[trigger] ms[j]).alive,
    decreases ms.len() - k,
{
    if 0 <= k < ms.len() {
        lemma_first_alive_is_first(ms, k + 1);
    }
}

} // verus!

//! Selector group: the member the user picked, by name.

use vstd::prelude::*;
use crate::common::adapter_type::AdapterType;
use crate::proxy::group::{
    first_named_at, flatten, flatten_members, has_name, lemma_first_named_at_bounds, member_names_of,
    named_index, named_pick, names_of, opt_text, position_of, Member,
};
use crate::proxy::group::selector_store::{spec_selected, SelectorStore};
use crate::text::owned;

verus! {

/// Dials through the member picked by name; with no pick, or a pick that
/// names no current member, the first member.
pub struct SelectorGroup {
    name: String,
    members: Vec<Member>,
    selected: Option<String>,
}

impl SelectorGroup {
    pub closed spec fn spec_name(&self) -> Seq<char> {
        self.name@
    }

    /// The members, in order.
    pub closed spec fn spec_members(&self) -> Seq<Member> {
        self.members@
    }

    /// The picked name, if any.
    pub closed spec fn spec_selected(&self) -> Option<Seq<char>> {
        opt_text(self.selected)
    }

    pub fn new(name: &str, proxies: Vec<Member>) -> (r: SelectorGroup)
        ensures
            r.spec_name() == name@,
            r.spec_members() == proxies@,
            r.spec_selected() is None,
    {
        SelectorGroup { name: owned(name), members: proxies, selected: None }
    }

    /// A group whose members are `proxies` followed by each provider's.
    pub fn new_with_providers(name: &str, proxies: Vec<Member>, slots: Vec<Vec<Member>>) -> (r:
        SelectorGroup)
        ensures
            r.spec_name() == name@,
            r.spec_members() == flatten_members(proxies@, slots@),
            r.spec_selected() is None,
    {
        SelectorGroup { name: owned(name), members: flatten(proxies, slots), selected: None }
    }

    /// Primes the pick with the one the store remembers for this group, if
    /// any.
    pub fn with_store(self, store: &SelectorStore) -> (r: SelectorGroup)
        ensures
            r.spec_name() == self.spec_name(),
            r.spec_members() == self.spec_members(),
            r.spec_selected() == (match spec_selected(store@, self.spec_name()) {
                Some(s) => Some(s),
                None => self.spec_selected(),
            }),
    {
        let mut g = self;
        if let Some(prev) = store.get(g.name.as_str()) {
            g.selected = Some(prev);
        }
        g
    }

    /// Replaces the members (a fresh snapshot after health checks or a
    /// provider refresh); the pick is kept by name.
    pub fn set_members(&mut self, members: Vec<Member>)
        ensures
            final(self).spec_members() == members@,
            final(self).spec_name() == old(self).spec_name(),
            final(self).spec_selected() == old(self).spec_selected(),
    {
        self.members = members;
    }

    /// The members, to update in place.
    pub fn members_mut(&mut self) -> (r: &mut Vec<Member>)
        ensures
            r@ == old(self).spec_members(),
            final(self).spec_members() == final(r)@,
            final(self).spec_name() == old(self).spec_name(),
            final(self).spec_selected() == old(self).spec_selected(),
    {
        &mut self.members
    }

    pub fn name(&self) -> (r: &str)
        ensures
            r@ == self.spec_name(),
    {
        self.name.as_str()
    }

    pub fn adapter_type(&self) -> (r: AdapterType)
        ensures
            r == AdapterType::Selector,
    {
        AdapterType::Selector
    }

    /// Some member is called `name`.
    pub fn contains_name(&self, name: &str) -> (r: bool)
        ensures
            r == has_name(self.spec_members(), name@),
    {
        position_of(&self.members, name).is_some()
    }

    /// Picks the member called `name`; `true` when there is one. An unknown
    /// name leaves the pick as it was.
    pub fn select(&mut self, name: &str) -> (r: bool)
        ensures
            r == has_name(old(self).spec_members(), name@),
            r ==> final(self).spec_selected() == Some(name@),
            r ==> (named_pick(final(self).spec_members(), final(self).spec_selected()) matches Some(
                i,
            ) && final(self).spec_members()[i].name@ == name@),
            !r ==> final(self).spec_selected() == old(self).spec_selected(),
            final(self).spec_members() == old(self).spec_members(),
            final(self).spec_name() == old(self).spec_name(),
    {
        if self.contains_name(name) {
            self.selected = Some(owned(name));
            proof {
                lemma_selected_is_named(self.members@, name@);
            }
            true
        } else {
            false
        }
    }

    /// Picks the member called `name` and, when there is one, remembers the
    /// pick in `store` under this group's name. Answers whether the member
    /// was found and whether the store changed (and so is to be written back).
    /// Found exactly when a member (static or from a provider) is so called;
    /// then the group dials that member and the store answers `name` for
    /// the group. A name no member has leaves the pick and the store as they
    /// were.
    pub fn select_in_store(&mut self, name: &str, store: &mut SelectorStore) -> (r: (bool, bool))
        ensures
            r.0 == has_name(old(self).spec_members(), name@),
            r.0 ==> final(self).spec_selected() == Some(name@),
            r.0 ==> (named_pick(final(self).spec_members(), final(self).spec_selected()) matches Some(
                i,
            ) && final(self).spec_members()[i].name@ == name@),
            !r.0 ==> final(self).spec_selected() == old(self).spec_selected(),
            final(self).spec_members() == old(self).spec_members(),
            final(self).spec_name() == old(self).spec_name(),
            r.0 ==> final(store)@ == old(store)@.insert(old(self).spec_name(), name@),
            r.0 ==> r.1 == (spec_selected(old(store)@, old(self).spec_name()) != Some(name@)),
            !r.0 ==> final(store)@ == old(store)@ && !r.1,
    {
        if self.select(name) {
            let changed = store.set(self.name.as_str(), name);
            (true, changed)
        } else {
            (false, false)
        }
    }

    /// The member to dial: the first called by the pick, else the first one.
    pub fn selected_proxy(&self) -> (r: Option<&Member>)
        ensures
            match named_pick(self.spec_members(), self.spec_selected()) {
                Some(i) => r == Some(&self.spec_members()[i]),
                None => r is None,
            },
    {
        match named_index(&self.members, &self.selected) {
            Some(i) => Some(&self.members[i]),
            None => None,
        }
    }

    /// The members' names, in order.
    pub fn proxy_names(&self) -> (r: Vec<String>)
        ensures
            r@.map_values(|s: String| s@) == member_names_of(self.spec_members()),
    {
        names_of(&self.members)
    }

    /// The members' names, in order.
    pub fn members(&self) -> (r: Option<Vec<String>>)
        ensures
            r matches Some(v) && v@.map_values(|s: String| s@) == member_names_of(self.spec_members()),
    {
        Some(self.proxy_names())
    }

    /// The selected member carries UDP.
    pub fn support_udp(&self) -> (r: bool)
        ensures
            r == (named_pick(self.spec_members(), self.spec_selected()) matches Some(i)
                && self.spec_members()[i].udp),
    {
        match self.selected_proxy() {
            Some(m) => m.udp,
            None => false,
        }
    }

    /// The selected member is alive.
    pub fn alive(&self) -> (r: bool)
        ensures
            r == (named_pick(self.spec_members(), self.spec_selected()) matches Some(i)
                && self.spec_members()[i].alive),
    {
        match self.selected_proxy() {
            Some(m) => m.alive,
            None => false,
        }
    }

    /// The selected member's last delay, 0 without members.
    pub fn last_delay(&self) -> (r: u16)
        ensures
            match named_pick(self.spec_members(), self.spec_selected()) {
                Some(i) => r == self.spec_members()[i].last_delay,
                None => r == 0,
            },
    {
        match self.selected_proxy() {
            Some(m) => m.last_delay,
            None => 0,
        }
    }

    /// The selected member's name.
    pub fn current(&self) -> (r: Option<String>)
        ensures
            match named_pick(self.spec_members(), self.spec_selected()) {
                Some(i) => r matches Some(n) && n@ == self.spec_members()[i].name@,
                None => r is None,
            },
    {
        match self.selected_proxy() {
            Some(m) => Some(owned(m.name.as_str())),
            None => None,
        }
    }
}

/// A pick stored by name finds its member in any member list that has
/// one so called (the first of them), so a successful `select` is what the
/// group dials, and it survives a refresh that keeps the member.
pub proof fn lemma_selected_is_named(ms: Seq<Member>, n: Seq<char>)
    requires
        has_name(ms, n),
    ensures
        named_pick(ms, Some(n)) matches Some(i) && 0 <= i < ms.len() && ms[i].name@ == n && forall|j: int|
            0 <= j < i ==> (#[trigger] ms[j]).name@ != n,
{
    lemma_first_named_at_bounds(ms, n, 0);
    lemma_first_named_is_first(ms, n, 0);
}

proof fn lemma_first_named_is_first(ms: Seq<Member>, n: Seq<char>, k: int)
    requires
        k >= 0,
    ensures
        first_named_at(ms, n, k) matches Some(i) ==> forall|j: int|
            k <= j < i ==> (#[trigger] ms[j]).name@ != n,
    decreases ms.len() - k,
{
    if 0 <= k < ms.len() {
        lemma_first_named_is_first(ms, n, k + 1);
    }
}

} // verus!

//! The remembered choice of each selector group: group name to the name of
//! the member the user picked. The store lives in memory; the caller reads
//! it from a JSON object of strings at start and writes it back after each
//! change, so a pick survives a restart.

use vstd::prelude::*;
use crate::string_map::{distinct_keys, map_of, StringMap};
use crate::text::owned;

verus! {

/// What `serde_json` makes of `bytes` as an object of strings (`None` when
/// the bytes are not such an object).
pub uninterp spec fn spec_json_string_map(bytes: Seq<u8>) -> Option<Map<Seq<char>, Seq<char>>>;

/// `serde_json::from_slice::<HashMap<String, String>>`: the object's entries
/// as pairs, each key once, in the order the map hands them out.
#[verifier::external_body]
fn json_string_map(bytes: &[u8]) -> (r: Option<Vec<(String, String)>>)
    ensures
        r is Some <==> spec_json_string_map(bytes@) is Some,
        r matches Some(v) ==> distinct_keys(v@) && map_of(v@) == spec_json_string_map(
            bytes@,
        )->0,
{
    match serde_json::from_slice::<std::collections::HashMap<String, String>>(bytes) {
        Ok(m) => Some(m.into_iter().collect()),
        Err(_) => None,
    }
}

/// `serde_json::to_vec_pretty` of the pairs as one JSON object of strings
/// (through `serde_json::Map`, keys in sorted order). Reading the bytes back
/// gives the same map: each string is written escaped as JSON requires.
#[verifier::external_body]
fn json_object_bytes(entries: &Vec<(String, String)>) -> (r: Vec<u8>)
    requires
        distinct_keys(entries@),
    ensures
        spec_json_string_map(r@) == Some(map_of(entries@)),
{
    let map: serde_json::Map<String, serde_json::Value> = entries
        .iter()
        .map(|(k, v)| (k.clone(), serde_json::Value::String(v.clone())))
        .collect();
    serde_json::to_vec_pretty(&map).unwrap_or_default()
}

/// The answer of the store for `group`.
pub open spec fn spec_selected(m: Map<Seq<char>, Seq<char>>, group: Seq<char>) -> Option<
    Seq<char>,
> {
    if m.contains_key(group) {
        Some(m[group])
    } else {
        None
    }
}

/// The contents that a file's bytes give: the object when they hold one,
/// otherwise nothing (a missing or malformed file starts the store empty).
pub open spec fn spec_loaded(bytes: Seq<u8>) -> Map<Seq<char>, Seq<char>> {
    match spec_json_string_map(bytes) {
        Some(m) => m,
        None => Map::empty(),
    }
}

/// Group name to selected member name.
pub struct SelectorStore {
    map: StringMap,
}

impl View for SelectorStore {
    type V = Map<Seq<char>, Seq<char>>;

    closed spec fn view(&self) -> Map<Seq<char>, Seq<char>> {
        self.map@
    }
}

impl SelectorStore {
    /// A store that remembers nothing.
    pub fn empty() -> (r: SelectorStore)
        ensures
            r@ == Map::<Seq<char>, Seq<char>>::empty(),
    {
        SelectorStore { map: StringMap::new() }
    }

    /// The store that reading its file gave: the file's contents when it
    /// could be read, `None` when it is missing or unreadable (then the
    /// store starts empty, as it does for contents that are no JSON object
    /// of strings).
    pub fn open(contents: Option<Vec<u8>>) -> (r: SelectorStore)
        ensures
            r@ == match contents {
                Some(b) => spec_loaded(b@),
                None => Map::<Seq<char>, Seq<char>>::empty(),
            },
    {
        match contents {
            Some(b) => SelectorStore::from_json(b.as_slice()),
            None => SelectorStore::empty(),
        }
    }

    /// The store a file's contents give: a JSON object of strings, or
    /// nothing when the contents are not one.
    pub fn from_json(bytes: &[u8]) -> (r: SelectorStore)
        ensures
            r@ == spec_loaded(bytes@),
    {
        let mut map = StringMap::new();
        match json_string_map(bytes) {
            Some(pairs) => {
                let mut i: usize = 0;
                while i < pairs.len()
                    invariant
                        i <= pairs@.len(),
                        map@ == map_of(pairs@.take(i as int)),
                    decreases pairs.len() - i,
                {
                    let k = owned(pairs[i].0.as_str());
                    let v = owned(pairs[i].1.as_str());
                    map.insert(k, v);
                    proof {
                        assert(pairs@.take(i + 1).drop_last() =~= pairs@.take(i as int));
                    }
                    i = i + 1;
                }
                proof {
                    assert(pairs@.take(pairs@.len() as int) =~= pairs@);
                }
            },
            None => {},
        }
        SelectorStore { map }
    }

    /// The member remembered for `group`.
    pub fn get(&self, group: &str) -> (r: Option<String>)
        ensures
            r matches Some(s) ==> spec_selected(self@, group@) == Some(s@),
            r is None ==> spec_selected(self@, group@) is None,
    {
        match self.map.get(group) {
            Some(v) => Some(owned(v.as_str())),
            None => None,
        }
    }

    /// Remembers `selected` for `group`. Says whether anything changed: when
    /// `group` already has `selected` the store is left as it is, and there
    /// is nothing to write back.
    pub fn set(&mut self, group: &str, selected: &str) -> (changed: bool)
        ensures
            final(self)@ == old(self)@.insert(group@, selected@),
            changed == (spec_selected(old(self)@, group@) != Some(selected@)),
    {
        match self.map.get(group) {
            Some(v) => {
                if crate::text::str_eq(v.as_str(), selected) {
                    proof {
                        assert(self@.insert(group@, selected@) =~= self@);
                    }
                    return false;
                }
            },
            None => {},
        }
        self.map.insert(owned(group), owned(selected));
        true
    }

    /// Everything remembered, as pairs with distinct group names: what is
    /// written back after a change.
    pub fn entries(&self) -> (r: Vec<(String, String)>)
        ensures
            distinct_keys(r@),
            map_of(r@) == self@,
    {
        let pairs = self.map.pairs();
        let mut out: Vec<(String, String)> = Vec::new();
        let mut i: usize = 0;
        while i < pairs.len()
            invariant
                i <= pairs@.len(),
                out@.len() == i,
                forall|j: int| 0 <= j < i ==> (#[trigger] out@[j]).0@ == pairs@[j].0@ && out@[j].1@
                    == pairs@[j].1@,
            decreases pairs.len() - i,
        {
            out.push((owned(pairs[i].0.as_str()), owned(pairs[i].1.as_str())));
            i = i + 1;
        }
        proof {
            lemma_same_views(out@, pairs@);
        }
        out
    }
}

impl SelectorStore {
    /// The file contents that hold everything remembered: a JSON object of
    /// strings, which `open` reads back as the same store.
    pub fn to_json(&self) -> (r: Vec<u8>)
        ensures
            spec_loaded(r@) == self@,
    {
        let pairs = self.map.pairs();
        json_object_bytes(pairs)
    }
}

/// Two lists whose pairs have the same views denote the same map.
proof fn lemma_same_views(a: Seq<(String, String)>, b: Seq<(String, String)>)
    requires
        a.len() == b.len(),
        forall|j: int| 0 <= j < a.len() ==> (#[trigger] a[j]).0@ == b[j].0@ && a[j].1@ == b[j].1@,
    ensures
        map_of(a) == map_of(b),
        distinct_keys(b) ==> distinct_keys(a),
    decreases a.len(),
{
    if a.len() > 0 {
        lemma_same_views(a.drop_last(), b.drop_last());
        assert(a.last() == a[a.len() - 1]);
    }
    if distinct_keys(b) {
        assert forall|i: int, j: int| 0 <= i < j < a.len() implies #[trigger] a[i].0@
            != #[trigger] a[j].0@ by {
            assert(a[i].0@ == b[i].0@ && a[j].0@ == b[j].0@);
        }
    }
}

/// A read gives back the last write: after `set(group, selected)`, `get`
/// answers `selected` for `group` and what it answered before for every
/// other group.
pub proof fn lemma_get_after_set(
    before: Map<Seq<char>, Seq<char>>,
    group: Seq<char>,
    selected: Seq<char>,
    other: Seq<char>,
)
    ensures
        spec_selected(before.insert(group, selected), group) == Some(selected),
        other != group ==> spec_selected(before.insert(group, selected), other) == spec_selected(
            before,
            other,
        ),
{
}

/// Setting what is already remembered changes nothing.
pub proof fn lemma_set_same_is_unchanged(
    before: Map<Seq<char>, Seq<char>>,
    group: Seq<char>,
    selected: Seq<char>,
)
    requires
        spec_selected(before, group) == Some(selected),
    ensures
        before.insert(group, selected) == before,
{
    assert(before.insert(group, selected) =~= before);
}

} // verus!

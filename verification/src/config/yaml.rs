//! YAML documents as the configuration code reads them: a tree of plain
//! values that `serde_yaml` fills.

use vstd::prelude::*;

verus! {

#[verifier::external_type_specification]
#[verifier::external_body]
pub struct ExYamlNumber(serde_yaml::Number);

/// A YAML value. Numbers are carried as `serde_yaml` reads them; nothing
/// here looks inside them.
#[derive(Debug, PartialEq)]
pub enum YamlNode {
    Null,
    Bool(bool),
    Number(serde_yaml::Number),
    Str(String),
    Sequence(Vec<YamlNode>),
    Mapping(Vec<(YamlNode, YamlNode)>),
    Tagged(String, Box<YamlNode>),
}

/// The value under any tags (`!tag value`).
pub open spec fn untag(n: YamlNode) -> YamlNode
    decreases n,
{
    match n {
        YamlNode::Tagged(_, b) => untag(*b),
        _ => n,
    }
}

/// The entries of a mapping whose key is a string (seen through tags),
/// with that string, in order.
pub open spec fn string_pairs(m: Seq<(YamlNode, YamlNode)>) -> Seq<(String, YamlNode)>
    decreases m.len(),
{
    if m.len() == 0 {
        Seq::empty()
    } else {
        let rest = string_pairs(m.drop_last());
        match untag(m.last().0) {
            YamlNode::Str(s) => rest.push((s, m.last().1)),
            _ => rest,
        }
    }
}

/// Takes the value out from under its tags.
pub fn untag_owned(n: YamlNode) -> (r: YamlNode)
    ensures
        r == untag(n),
    decreases n,
{
    match n {
        YamlNode::Tagged(_, b) => untag_owned(*b),
        _ => n,
    }
}

/// The value under any tags, borrowed.
pub fn untag_ref(n: &YamlNode) -> (r: &YamlNode)
    ensures
        *r == untag(*n),
    decreases n,
{
    match n {
        YamlNode::Tagged(_, b) => untag_ref(&**b),
        _ => n,
    }
}

/// The string-keyed entries of a mapping, keys taken out of their tags.
pub fn take_string_pairs(m: Vec<(YamlNode, YamlNode)>) -> (r: Vec<(String, YamlNode)>)
    ensures
        r@ == string_pairs(m@),
{
    let ghost all = m@;
    let mut out: Vec<(String, YamlNode)> = Vec::new();
    for e in it: m.into_iter()
        invariant
            it.seq() == all,
            out@ == string_pairs(all.take(it.index())),
    {
        let (k, v) = e;
        proof {
            assert(all.take(it.index() + 1).drop_last() =~= all.take(it.index()));
        }
        match untag_owned(k) {
            YamlNode::Str(s) => out.push((s, v)),
            _ => {},
        }
    }
    proof {
        assert(all.take(all.len() as int) =~= all);
    }
    out
}

/// Every tag in the tree has a name (what `serde_yaml` writes for a tag
/// always does).
pub open spec fn tags_named(n: YamlNode) -> bool
    decreases n,
{
    match n {
        YamlNode::Tagged(t, b) => t@.len() > 0 && tags_named(*b),
        YamlNode::Sequence(v) => forall|i: int| 0 <= i < v@.len() ==> tags_named(#[trigger] v@[i]),
        YamlNode::Mapping(m) => forall|i: int| 0 <= i < m@.len() ==> pair_named(#[trigger] m@[i]),
        _ => true,
    }
}

/// Converts `serde_yaml`'s tree into this one, node for node; a tag is
/// carried as its text (`!name`).
#[verifier::external_body]
fn node_of(v: serde_yaml::Value) -> YamlNode {
    match v {
        serde_yaml::Value::Null => YamlNode::Null,
        serde_yaml::Value::Bool(b) => YamlNode::Bool(b),
        serde_yaml::Value::Number(n) => YamlNode::Number(n),
        serde_yaml::Value::String(s) => YamlNode::Str(s),
        serde_yaml::Value::Sequence(s) => YamlNode::Sequence(s.into_iter().map(node_of).collect()),
        serde_yaml::Value::Mapping(m) => YamlNode::Mapping(
            m.into_iter().map(|(k, x)| (node_of(k), node_of(x))).collect(),
        ),
        serde_yaml::Value::Tagged(t) => YamlNode::Tagged(t.tag.to_string(), Box::new(node_of(t.value))),
    }
}

/// Converts this tree into `serde_yaml`'s, node for node. Every tag must
/// have a name: `serde_yaml::value::Tag::new` panics on an empty one.
#[verifier::external_body]
fn value_of(n: YamlNode) -> serde_yaml::Value
    requires
        tags_named(n),
{
    match n {
        YamlNode::Null => serde_yaml::Value::Null,
        YamlNode::Bool(b) => serde_yaml::Value::Bool(b),
        YamlNode::Number(x) => serde_yaml::Value::Number(x),
        YamlNode::Str(s) => serde_yaml::Value::String(s),
        YamlNode::Sequence(v) => serde_yaml::Value::Sequence(v.into_iter().map(value_of).collect()),
        YamlNode::Mapping(m) => serde_yaml::Value::Mapping(
            m.into_iter().map(|(k, x)| (value_of(k), value_of(x))).collect(),
        ),
        YamlNode::Tagged(t, b) => serde_yaml::Value::Tagged(Box::new(serde_yaml::value::TaggedValue {
            tag: serde_yaml::value::Tag::new(t),
            value: value_of(*b),
        })),
    }
}

/// What `serde_yaml::from_str` reads from `text`: the document, or the
/// text of the error.
pub uninterp spec fn spec_yaml_document(text: Seq<char>) -> Result<YamlNode, Seq<char>>;

/// `serde_yaml::from_str::<serde_yaml::Value>`. Tags it reads are written
/// `!name`, so none is empty.
#[verifier::external_body]
pub(crate) fn yaml_document(text: &str) -> (r: Result<YamlNode, String>)
    ensures
        r is Ok <==> spec_yaml_document(text@) is Ok,
        r matches Ok(n) ==> (spec_yaml_document(text@) matches Ok(d) && d == n) && tags_named(n),
        r matches Err(e) ==> (spec_yaml_document(text@) matches Err(t) && t == e@),
{
    match serde_yaml::from_str::<serde_yaml::Value>(text) {
        Ok(v) => Ok(node_of(v)),
        Err(e) => Err(e.to_string()),
    }
}

/// What `serde_yaml`'s `apply_merge` makes of `doc` (merge keys `<<`
/// expanded), or the text of its error.
pub uninterp spec fn spec_yaml_merged(doc: YamlNode) -> Result<YamlNode, Seq<char>>;

/// `serde_yaml::Value::apply_merge`; it keeps the tags of the document.
#[verifier::external_body]
pub(crate) fn yaml_merged(doc: YamlNode) -> (r: Result<YamlNode, String>)
    requires
        tags_named(doc),
    ensures
        r is Ok <==> spec_yaml_merged(doc) is Ok,
        r matches Ok(n) ==> (spec_yaml_merged(doc) matches Ok(d) && d == n) && tags_named(n),
        r matches Err(e) ==> (spec_yaml_merged(doc) matches Err(t) && t == e@),
{
    let mut v = value_of(doc);
    match v.apply_merge() {
        Ok(()) => Ok(node_of(v)),
        Err(e) => Err(e.to_string()),
    }
}

/// The map denoted by a list of pairs; a later pair wins over an earlier one.
pub open spec fn node_map_of(s: Seq<(String, YamlNode)>) -> Map<Seq<char>, YamlNode>
    decreases s.len(),
{
    if s.len() == 0 {
        Map::empty()
    } else {
        node_map_of(s.drop_last()).insert(s.last().0@, s.last().1)
    }
}

/// No key occurs twice.
pub open spec fn node_keys_distinct(s: Seq<(String, YamlNode)>) -> bool {
    forall|i: int, j: int| 0 <= i < j < s.len() ==> #[trigger] s[i].0@ != #[trigger] s[j].0@
}

/// What `serde_yaml::from_value` makes of `list` as a list of maps from
/// string keys to values (`None` when it is not one).
pub uninterp spec fn spec_proxy_maps(list: YamlNode) -> Option<Seq<Map<Seq<char>, YamlNode>>>;

/// `serde_yaml::from_value::<Vec<HashMap<String, serde_yaml::Value>>>`:
/// each map's entries as pairs, each key once, in the order the map hands
/// them out.
#[verifier::external_body]
pub(crate) fn proxy_maps(list: YamlNode) -> (r: Option<Vec<Vec<(String, YamlNode)>>>)
    requires
        tags_named(list),
    ensures
        r is Some <==> spec_proxy_maps(list) is Some,
        r matches Some(v) ==> v@.len() == spec_proxy_maps(list)->0.len() && forall|i: int|
            0 <= i < v@.len() ==> node_keys_distinct(#[trigger] v@[i]@) && node_map_of(v@[i]@)
                == spec_proxy_maps(list)->0[i],
{
    serde_yaml::from_value::<Vec<std::collections::HashMap<String, serde_yaml::Value>>>(value_of(list))
        .ok()
        .map(|v| v.into_iter().map(|m| m.into_iter().map(|(k, x)| (k, node_of(x))).collect()).collect())
}

/// A key that is exactly the string `name` (no tag).
pub open spec fn key_is(k: YamlNode, name: Seq<char>) -> bool {
    k matches YamlNode::Str(s) && s@ == name
}

/// The value under the first key that is exactly `name`.
pub open spec fn entry_value(m: Seq<(YamlNode, YamlNode)>, name: Seq<char>) -> Option<YamlNode>
    decreases m.len(),
{
    if m.len() == 0 {
        None
    } else {
        match entry_value(m.drop_last(), name) {
            Some(v) => Some(v),
            None => if key_is(m.last().0, name) {
                Some(m.last().1)
            } else {
                None
            },
        }
    }
}

/// `Value::get(name)`: the value under `name` when the node (seen through
/// tags) is a mapping holding that key.
pub open spec fn get_key(n: YamlNode, name: Seq<char>) -> Option<YamlNode> {
    match untag(n) {
        YamlNode::Mapping(m) => entry_value(m@, name),
        _ => None,
    }
}

/// The text of a string node (seen through tags).
pub open spec fn str_of(n: YamlNode) -> Option<Seq<char>> {
    match untag(n) {
        YamlNode::Str(s) => Some(s@),
        _ => None,
    }
}

/// The string keys of a mapping's entries (seen through tags), in order.
pub open spec fn str_keys(m: Seq<(YamlNode, YamlNode)>) -> Seq<Seq<char>>
    decreases m.len(),
{
    if m.len() == 0 {
        Seq::empty()
    } else {
        match str_of(m.last().0) {
            Some(s) => str_keys(m.drop_last()).push(s),
            None => str_keys(m.drop_last()),
        }
    }
}

/// The text of a string node, borrowed.
pub fn as_str(n: &YamlNode) -> (r: Option<&String>)
    ensures
        r is Some <==> str_of(*n) is Some,
        r matches Some(s) ==> str_of(*n) == Some(s@),
{
    match untag_ref(n) {
        YamlNode::Str(s) => Some(s),
        _ => None,
    }
}

/// The key is exactly the string `name`.
pub fn is_key(k: &YamlNode, name: &str) -> (r: bool)
    ensures
        r == key_is(*k, name@),
{
    match k {
        YamlNode::Str(s) => crate::text::str_eq(s.as_str(), name),
        _ => false,
    }
}

/// Takes the value under the first key that is exactly `name`.
pub fn take_entry(m: Vec<(YamlNode, YamlNode)>, name: &str) -> (r: Option<YamlNode>)
    ensures
        r == entry_value(m@, name@),
{
    let ghost all = m@;
    let mut slot: Option<YamlNode> = None;
    for e in it: m.into_iter()
        invariant
            it.seq() == all,
            slot == entry_value(all.take(it.index()), name@),
    {
        let (k, v) = e;
        proof {
            assert(all.take(it.index() + 1).drop_last() =~= all.take(it.index()));
        }
        if slot.is_none() && is_key(&k, name) {
            slot = Some(v);
        }
    }
    proof {
        assert(all.take(all.len() as int) =~= all);
    }
    slot
}

/// Both the key and the value of an entry are well-tagged.
pub open spec fn pair_named(p: (YamlNode, YamlNode)) -> bool
    decreases p,
{
    tags_named(p.0) && tags_named(p.1)
}

/// The children of a well-tagged node are well-tagged.
pub proof fn lemma_tags_named_untag(n: YamlNode)
    requires
        tags_named(n),
    ensures
        tags_named(untag(n)),
    decreases n,
{
    if let YamlNode::Tagged(_, b) = n {
        lemma_tags_named_untag(*b);
    }
}

/// A value found in a well-tagged mapping is well-tagged.
pub proof fn lemma_tags_named_entry(m: Seq<(YamlNode, YamlNode)>, name: Seq<char>)
    requires
        forall|i: int| 0 <= i < m.len() ==> pair_named(#[trigger] m[i]),
    ensures
        entry_value(m, name) matches Some(v) ==> tags_named(v),
    decreases m.len(),
{
    if m.len() > 0 {
        let d = m.drop_last();
        assert forall|i: int| 0 <= i < d.len() implies pair_named(#[trigger] d[i]) by {
            assert(d[i] == m[i]);
            assert(pair_named(m[i]));
        }
        lemma_tags_named_entry(d, name);
        assert(pair_named(m[m.len() - 1]));
    }
}

pub proof fn lemma_node_map_of_lookup(s: Seq<(String, YamlNode)>, j: int)
    requires
        node_keys_distinct(s),
        0 <= j < s.len(),
    ensures
        node_map_of(s).contains_key(s[j].0@),
        node_map_of(s)[s[j].0@] == s[j].1,
    decreases s.len(),
{
    if j < s.len() - 1 {
        lemma_node_map_of_lookup(s.drop_last(), j);
        assert(s.drop_last()[j] == s[j]);
        assert(s.last().0@ != s[j].0@);
    }
}

pub proof fn lemma_node_map_of_absent(s: Seq<(String, YamlNode)>, k: Seq<char>)
    requires
        forall|i: int| 0 <= i < s.len() ==> #[trigger] s[i].0@ != k,
    ensures
        !node_map_of(s).contains_key(k),
    decreases s.len(),
{
    if s.len() > 0 {
        assert forall|i: int| 0 <= i < s.drop_last().len() implies #[trigger] s.drop_last()[i].0@
            != k by {
            assert(s.drop_last()[i] == s[i]);
        }
        lemma_node_map_of_absent(s.drop_last(), k);
    }
}

/// The text under `key` in a map of fields: the string there (seen through
/// tags), or empty when there is none.
pub open spec fn field_str(m: Map<Seq<char>, YamlNode>, key: Seq<char>) -> Seq<char> {
    if m.contains_key(key) {
        match str_of(m[key]) {
            Some(s) => s,
            None => Seq::empty(),
        }
    } else {
        Seq::empty()
    }
}

/// The text under `key` among fields with distinct keys.
pub fn pair_field_str(p: &Vec<(String, YamlNode)>, key: &str) -> (r: String)
    requires
        node_keys_distinct(p@),
    ensures
        r@ == field_str(node_map_of(p@), key@),
{
    let mut i: usize = 0;
    while i < p.len()
        invariant
            i <= p@.len(),
            node_keys_distinct(p@),
            forall|j: int| 0 <= j < i ==> #[trigger] p@[j].0@ != key@,
        decreases p.len() - i,
    {
        if crate::text::str_eq(p[i].0.as_str(), key) {
            proof {
                lemma_node_map_of_lookup(p@, i as int);
            }
            return match as_str(&p[i].1) {
                Some(s) => crate::text::owned(s.as_str()),
                None => String::new(),
            };
        }
        i = i + 1;
    }
    proof {
        lemma_node_map_of_absent(p@, key@);
    }
    String::new()
}

/// Some entry's key is exactly `name`.
pub fn has_entry(m: &Vec<(YamlNode, YamlNode)>, name: &str) -> (r: bool)
    ensures
        r == entry_value(m@, name@) is Some,
{
    let mut i: usize = 0;
    while i < m.len()
        invariant
            i <= m@.len(),
            entry_value(m@.take(i as int), name@) is None,
        decreases m.len() - i,
    {
        proof {
            assert(m@.take(i + 1).drop_last() =~= m@.take(i as int));
        }
        if is_key(&m[i].0, name) {
            proof {
                lemma_entry_value_prefix(m@, name@, i + 1);
            }
            return true;
        }
        i = i + 1;
    }
    proof {
        assert(m@.take(m@.len() as int) =~= m@);
    }
    false
}

/// A key found in a prefix is the one found in the whole.
pub proof fn lemma_entry_value_prefix(m: Seq<(YamlNode, YamlNode)>, name: Seq<char>, k: int)
    requires
        0 <= k <= m.len(),
        entry_value(m.take(k), name) is Some,
    ensures
        entry_value(m, name) == entry_value(m.take(k), name),
    decreases m.len() - k,
{
    if k < m.len() {
        assert(m.take(k + 1).drop_last() =~= m.take(k));
        lemma_entry_value_prefix(m, name, k + 1);
    } else {
        assert(m.take(k) =~= m);
    }
}

/// The value under `name` of a node (seen through tags), taken out of the
/// node; the node itself when it holds no such key.
pub fn take_key_or_self(n: YamlNode, name: &str) -> (r: YamlNode)
    ensures
        r == match get_key(n, name@) {
            Some(v) => v,
            None => n,
        },
{
    let found = match untag_ref(&n) {
        YamlNode::Mapping(m) => has_entry(m, name),
        _ => false,
    };
    if found {
        match untag_owned(n) {
            YamlNode::Mapping(m) => match take_entry(m, name) {
                Some(v) => v,
                None => YamlNode::Null,
            },
            _ => YamlNode::Null,
        }
    } else {
        n
    }
}

/// What is taken from a well-tagged node is well-tagged.
pub proof fn lemma_tags_named_key_or_self(n: YamlNode, name: Seq<char>)
    requires
        tags_named(n),
    ensures
        tags_named(
            match get_key(n, name) {
                Some(v) => v,
                None => n,
            },
        ),
{
    lemma_tags_named_untag(n);
    if let YamlNode::Mapping(m) = untag(n) {
        lemma_tags_named_entry(m@, name);
    }
}

} // verus!

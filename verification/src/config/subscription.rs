//! What a Clash YAML subscription holds: its proxies, proxy groups and
//! rules. Fetching it is the caller's; this reads the text.

use vstd::prelude::*;
use crate::config::yaml::{
    as_str, entry_value, is_key, spec_yaml_document, spec_yaml_merged, str_keys, string_pairs,
    take_string_pairs, untag, untag_owned, yaml_document, yaml_merged, YamlNode,
};
use crate::text::{debug_str, owned, spec_debug_str, string_append};

verus! {

/// The parts of a subscription.
#[derive(Debug)]
pub struct SubscriptionData {
    /// Each proxy entry that is a mapping, as its string-keyed fields.
    pub proxies: Vec<Vec<(String, YamlNode)>>,
    /// The entries of the `proxy-groups` sequence, as YAML. They are not
    /// read into typed group records here: the record type (its fields and
    /// how each entry deserialises into it) is defined outside this crate's
    /// sources, so a list with a malformed entry is handed on whole rather
    /// than dropped; the caller that deserialises the groups decides.
    pub proxy_groups: Vec<YamlNode>,
    /// The string entries of the `rules` sequence.
    pub rules: Vec<String>,
}

/// `{:?}` of a list of strings: `["a", "b"]`.
pub open spec fn debug_list(ks: Seq<Seq<char>>) -> Seq<char> {
    "["@ + debug_items(ks) + "]"@
}

pub open spec fn debug_items(ks: Seq<Seq<char>>) -> Seq<char>
    decreases ks.len(),
{
    if ks.len() == 0 {
        Seq::empty()
    } else if ks.len() == 1 {
        spec_debug_str(ks[0])
    } else {
        debug_items(ks.drop_last()) + ", "@ + spec_debug_str(ks.last())
    }
}

/// The entries of a sequence node (seen through tags); nothing for any
/// other node or for no node.
pub open spec fn sequence_items(n: Option<YamlNode>) -> Seq<YamlNode> {
    match n {
        Some(v) => match untag(v) {
            YamlNode::Sequence(items) => items@,
            _ => Seq::empty(),
        },
        None => Seq::empty(),
    }
}

/// The proxies of a `proxies` sequence: each entry that is a mapping (as
/// written, without a tag), as its string-keyed fields.
pub open spec fn proxy_entries(items: Seq<YamlNode>) -> Seq<Seq<(String, YamlNode)>>
    decreases items.len(),
{
    if items.len() == 0 {
        Seq::empty()
    } else {
        match items.last() {
            YamlNode::Mapping(m) => proxy_entries(items.drop_last()).push(string_pairs(m@)),
            _ => proxy_entries(items.drop_last()),
        }
    }
}

/// The strings among some entries (seen through tags), in order.
pub open spec fn string_items(items: Seq<YamlNode>) -> Seq<String>
    decreases items.len(),
{
    if items.len() == 0 {
        Seq::empty()
    } else {
        match untag(items.last()) {
            YamlNode::Str(s) => string_items(items.drop_last()).push(s),
            _ => string_items(items.drop_last()),
        }
    }
}

/// What a subscription text holds: its proxies, groups and rules, or the
/// message of the first problem found.
pub open spec fn spec_subscription(text: Seq<char>) -> Result<
    (Seq<Seq<(String, YamlNode)>>, Seq<YamlNode>, Seq<String>),
    Seq<char>,
> {
    match spec_yaml_document(text) {
        Err(e) => Err("YAML parse error: "@ + e),
        Ok(doc) => match spec_yaml_merged(doc) {
            Err(e) => Err("YAML merge expand error: "@ + e),
            Ok(root) => match untag(root) {
                YamlNode::Mapping(m) => match entry_value(m@, "proxies"@) {
                    None => Err(
                        "subscription missing 'proxies' key; found keys: "@ + debug_list(
                            str_keys(m@),
                        ),
                    ),
                    Some(p) => match untag(p) {
                        YamlNode::Sequence(items) => Ok(
                            (
                                proxy_entries(items@),
                                sequence_items(entry_value(m@, "proxy-groups"@)),
                                string_items(sequence_items(entry_value(m@, "rules"@))),
                            ),
                        ),
                        _ => Err("'proxies' is not a sequence"@),
                    },
                },
                _ => Err("subscription root is not a mapping"@),
            },
        },
    }
}

/// The views of a list of pair lists.
pub open spec fn pair_lists(v: Seq<Vec<(String, YamlNode)>>) -> Seq<Seq<(String, YamlNode)>> {
    v.map_values(|p: Vec<(String, YamlNode)>| p@)
}

fn push_debug_list(out: &mut String, ks: &Vec<String>)
    ensures
        final(out)@ == old(out)@ + debug_list(ks@.map_values(|k: String| k@)),
{
    let ghost views = ks@.map_values(|k: String| k@);
    let ghost start = out@;
    string_append(out, "[");
    let mut i: usize = 0;
    while i < ks.len()
        invariant
            i <= ks@.len(),
            views == ks@.map_values(|k: String| k@),
            out@ == start + "["@ + debug_items(views.take(i as int)),
        decreases ks.len() - i,
    {
        if i > 0 {
            string_append(out, ", ");
        }
        let d = debug_str(ks[i].as_str());
        string_append(out, d.as_str());
        proof {
            let t = views.take(i + 1);
            assert(t.drop_last() =~= views.take(i as int));
            assert(t.last() == ks@[i as int]@);
            if i == 0 {
                assert(out@ =~= start + "["@ + debug_items(t));
            } else {
                assert(out@ =~= start + "["@ + debug_items(t));
            }
        }
        i = i + 1;
    }
    string_append(out, "]");
    proof {
        assert(views.take(ks@.len() as int) =~= views);
    }
}

/// The proxies of a `proxies` sequence.
fn take_proxy_entries(items: Vec<YamlNode>) -> (r: Vec<Vec<(String, YamlNode)>>)
    ensures
        pair_lists(r@) == proxy_entries(items@),
{
    let ghost all = items@;
    let mut out: Vec<Vec<(String, YamlNode)>> = Vec::new();
    for item in it: items.into_iter()
        invariant
            it.seq() == all,
            pair_lists(out@) == proxy_entries(all.take(it.index())),
    {
        proof {
            assert(all.take(it.index() + 1).drop_last() =~= all.take(it.index()));
        }
        match item {
            YamlNode::Mapping(m) => {
                let pairs = take_string_pairs(m);
                let ghost before = out@;
                out.push(pairs);
                proof {
                    assert(pair_lists(out@) =~= pair_lists(before).push(pairs@));
                }
            },
            _ => {},
        }
    }
    proof {
        assert(all.take(all.len() as int) =~= all);
    }
    out
}

/// The strings among some entries.
fn take_string_items(items: Vec<YamlNode>) -> (r: Vec<String>)
    ensures
        r@ == string_items(items@),
{
    let ghost all = items@;
    let mut out: Vec<String> = Vec::new();
    for item in it: items.into_iter()
        invariant
            it.seq() == all,
            out@ == string_items(all.take(it.index())),
    {
        proof {
            assert(all.take(it.index() + 1).drop_last() =~= all.take(it.index()));
        }
        match untag_owned(item) {
            YamlNode::Str(s) => out.push(s),
            _ => {},
        }
    }
    proof {
        assert(all.take(all.len() as int) =~= all);
    }
    out
}

/// The entries of a sequence node, if it is one.
fn take_sequence(n: Option<YamlNode>) -> (r: Vec<YamlNode>)
    ensures
        r@ == sequence_items(n),
{
    match n {
        Some(v) => match untag_owned(v) {
            YamlNode::Sequence(items) => items,
            _ => Vec::new(),
        },
        None => Vec::new(),
    }
}

/// Reads a subscription: the document's `proxies` (required, a sequence),
/// `proxy-groups` and `rules` (both optional). Merge keys (`<<: *anchor`)
/// are expanded first.
pub fn parse_subscription_yaml(text: &str) -> (r: Result<SubscriptionData, String>)
    ensures
        match spec_subscription(text@) {
            Ok((p, g, rl)) => (r matches Ok(d) && pair_lists(d.proxies@) == p && d.proxy_groups@ == g
                && d.rules@ == rl),
            Err(e) => (r matches Err(m) && m@ == e),
        },
{
    let doc = match yaml_document(text) {
        Ok(d) => d,
        Err(e) => {
            let mut m = owned("YAML parse error: ");
            string_append(&mut m, e.as_str());
            return Err(m);
        },
    };
    let root = match yaml_merged(doc) {
        Ok(d) => d,
        Err(e) => {
            let mut m = owned("YAML merge expand error: ");
            string_append(&mut m, e.as_str());
            return Err(m);
        },
    };
    let entries = match untag_owned(root) {
        YamlNode::Mapping(m) => m,
        _ => return Err(owned("subscription root is not a mapping")),
    };
    let ghost all = entries@;
    proof {
        reveal_strlit("proxies");
        reveal_strlit("proxy-groups");
        reveal_strlit("rules");
    }
    let mut proxies_v: Option<YamlNode> = None;
    let mut groups_v: Option<YamlNode> = None;
    let mut rules_v: Option<YamlNode> = None;
    let mut keys: Vec<String> = Vec::new();
    for e in it: entries.into_iter()
        invariant
            it.seq() == all,
            "proxies"@.len() == 7,
            "proxy-groups"@.len() == 12,
            "rules"@.len() == 5,
            proxies_v == entry_value(all.take(it.index()), "proxies"@),
            groups_v == entry_value(all.take(it.index()), "proxy-groups"@),
            rules_v == entry_value(all.take(it.index()), "rules"@),
            keys@.map_values(|k: String| k@) == str_keys(all.take(it.index())),
    {
        let (k, v) = e;
        proof {
            assert(all.take(it.index() + 1).drop_last() =~= all.take(it.index()));
            assert(all.take(it.index() + 1).last() == (k, v));
        }
        if let Some(s) = as_str(&k) {
            let ghost before = keys@;
            keys.push(owned(s.as_str()));
            proof {
                assert(keys@.map_values(|k: String| k@) =~= before.map_values(|k: String| k@).push(
                    s@,
                ));
            }
        } else {
            proof {
                assert(keys@.map_values(|k: String| k@) == str_keys(all.take(it.index() + 1)));
            }
        }
        if is_key(&k, "proxies") {
            if proxies_v.is_none() {
                proxies_v = Some(v);
            }
        } else if is_key(&k, "proxy-groups") {
            if groups_v.is_none() {
                groups_v = Some(v);
            }
        } else if is_key(&k, "rules") {
            if rules_v.is_none() {
                rules_v = Some(v);
            }
        }
    }
    proof {
        assert(all.take(all.len() as int) =~= all);
    }
    let pv = match proxies_v {
        Some(v) => v,
        None => {
            let mut m = owned("subscription missing 'proxies' key; found keys: ");
            push_debug_list(&mut m, &keys);
            return Err(m);
        },
    };
    let items = match untag_owned(pv) {
        YamlNode::Sequence(items) => items,
        _ => return Err(owned("'proxies' is not a sequence")),
    };
    let proxies = take_proxy_entries(items);
    let proxy_groups = take_sequence(groups_v);
    let rules = take_string_items(take_sequence(rules_v));
    Ok(SubscriptionData { proxies, proxy_groups, rules })
}

} // verus!

use meow::common::adapter_type::AdapterType;
use meow::proxy::group::fallback::FallbackGroup;
use meow::proxy::group::selector::SelectorGroup;
use meow::proxy::group::selector_store::SelectorStore;
use meow::proxy::group::urltest::UrlTestGroup;
use meow::proxy::group::{flatten, Member};

fn dead(name: &str) -> Member {
    let mut m = Member::new(name);
    m.alive = false;
    m
}

fn timed(name: &str, delay: u16) -> Member {
    let mut m = Member::new(name);
    m.last_delay = delay;
    m
}

#[test]
fn picks_first_when_all_alive() {
    let g = FallbackGroup::new("fb", vec![Member::new("a"), Member::new("b")]);
    assert_eq!(g.first_alive().unwrap().name(), "a");
}

#[test]
fn skips_dead_to_next_alive() {
    let g = FallbackGroup::new("fb", vec![dead("a"), Member::new("b"), Member::new("c")]);
    assert_eq!(g.first_alive().unwrap().name(), "b");
}

#[test]
fn all_dead_returns_first_proxy_as_last_resort() {
    let g = FallbackGroup::new("fb", vec![dead("a"), dead("b")]);
    assert_eq!(g.first_alive().unwrap().name(), "a");
}

#[test]
fn recovery_promotes_revived_member_back_to_head() {
    let mut g = FallbackGroup::new("fb", vec![dead("a"), Member::new("b")]);
    assert_eq!(g.first_alive().unwrap().name(), "b");
    g.members_mut()[0].alive = true;
    assert_eq!(
        g.first_alive().unwrap().name(),
        "a",
        "head proxy regaining health must reclaim primary slot"
    );
}

#[test]
fn member_names_preserve_declaration_order() {
    let g = FallbackGroup::new("fb", vec![Member::new("a"), Member::new("b"), Member::new("c")]);
    assert_eq!(g.member_names(), vec!["a", "b", "c"]);
}

#[test]
fn support_udp_reflects_first_alive() {
    let mut g = FallbackGroup::new("fb", vec![Member::new("a"), Member::new_udp("b")]);
    assert!(!g.support_udp(), "a is alive and tcp-only");
    g.members_mut()[0].alive = false;
    assert!(g.support_udp(), "fallback to udp-capable b");
}

#[test]
fn unselected_falls_back_to_first_static() {
    let g = SelectorGroup::new("sel", vec![Member::new("a"), Member::new("b")]);
    assert_eq!(g.selected_proxy().unwrap().name(), "a");
    assert_eq!(g.proxy_names(), vec!["a", "b"]);
}

#[test]
fn select_changes_target_and_returns_true_only_when_present() {
    let mut g = SelectorGroup::new("sel", vec![Member::new("a"), Member::new("b")]);
    assert!(g.select("b"));
    assert_eq!(g.selected_proxy().unwrap().name(), "b");
    assert!(!g.select("nope"));
    assert_eq!(g.selected_proxy().unwrap().name(), "b");
}

#[test]
fn selection_falls_back_when_named_proxy_disappears() {
    let mut g = SelectorGroup::new("sel", vec![Member::new("a"), Member::new("ghost")]);
    assert!(g.select("ghost"));
    g.set_members(vec![Member::new("a")]);
    assert_eq!(g.selected_proxy().unwrap().name(), "a");
}

#[test]
fn support_udp_reflects_selected_target() {
    let mut g = SelectorGroup::new("sel", vec![Member::new("tcp-only"), Member::new_udp("udp-able")]);
    assert!(!g.support_udp(), "default selection is tcp-only");
    assert!(g.select("udp-able"));
    assert!(g.support_udp(), "switching selection updates udp support");
}

/// What writing the store back and reading the file again gives.
fn reopen(store: &SelectorStore) -> SelectorStore {
    SelectorStore::open(Some(store.to_json()))
}

#[test]
fn store_primes_initial_selection_and_persists_changes() {
    let mut store = SelectorStore::open(None);
    store.set("sel", "b");

    let mut g = SelectorGroup::new("sel", vec![Member::new("a"), Member::new("b")]).with_store(&store);
    assert_eq!(
        g.selected_proxy().unwrap().name(),
        "b",
        "primed selection should load from store"
    );

    let (found, changed) = g.select_in_store("a", &mut store);
    assert!(found);
    assert!(changed);
    let store2 = reopen(&store);
    assert_eq!(store2.get("sel").as_deref(), Some("a"));
}

#[test]
fn store_without_entry_keeps_first_member() {
    let store = SelectorStore::empty();
    let g2 = SelectorGroup::new("sel", vec![Member::new("a")]).with_store(&store);
    assert_eq!(g2.current(), Some("a".to_string()));
    assert_eq!(g2.adapter_type(), AdapterType::Selector);
}

#[test]
fn select_in_store_unknown_member_leaves_store() {
    let mut store = SelectorStore::empty();
    let mut g = SelectorGroup::new("sel", vec![Member::new("a")]);
    assert_eq!(g.select_in_store("zzz", &mut store), (false, false));
    assert!(store.get("sel").is_none());
    assert_eq!(g.select_in_store("a", &mut store), (true, true));
    assert_eq!(g.select_in_store("a", &mut store), (true, false));
}

#[test]
fn round_trip_via_disk() {
    let mut s = SelectorStore::open(None);
    assert!(s.get("g").is_none());
    s.set("g", "node-a");
    assert_eq!(s.get("g").as_deref(), Some("node-a"));

    // Reopen, value survives.
    let s2 = reopen(&s);
    assert_eq!(s2.get("g").as_deref(), Some("node-a"));
}

#[test]
fn missing_file_is_empty() {
    let s = SelectorStore::open(None);
    assert!(s.get("anything").is_none());
}

#[test]
fn malformed_file_is_empty() {
    let mut s = SelectorStore::open(Some(b"{ not json".to_vec()));
    assert!(s.get("anything").is_none());
    // And it recovers: a later set() is remembered.
    s.set("g", "x");
    assert_eq!(s.get("g").as_deref(), Some("x"));
}

#[test]
fn store_reads_json_object_of_strings() {
    let s = SelectorStore::from_json(br#"{"proxy":"hk-1","auto":"jp"}"#);
    assert_eq!(s.get("proxy").as_deref(), Some("hk-1"));
    assert_eq!(s.get("auto").as_deref(), Some("jp"));
    assert!(s.get("other").is_none());
    assert_eq!(s.entries().len(), 2);
    let not_strings = SelectorStore::from_json(br#"{"proxy":1}"#);
    assert!(not_strings.entries().is_empty());
}

#[test]
fn store_written_with_escapes_reopens_the_same() {
    let mut s = SelectorStore::empty();
    s.set("quote\"group", "node \\ ü");
    s.set("", "empty-name");
    let text = String::from_utf8(s.to_json()).unwrap();
    assert!(text.starts_with('{'));
    let back = reopen(&s);
    assert_eq!(back.get("quote\"group").as_deref(), Some("node \\ ü"));
    assert_eq!(back.get("").as_deref(), Some("empty-name"));
    assert_eq!(back.entries().len(), 2);
    assert_eq!(String::from_utf8(SelectorStore::empty().to_json()).unwrap(), "{}");
}

#[test]
fn store_set_reports_change() {
    let mut s = SelectorStore::empty();
    assert!(s.set("g", "a"));
    assert!(!s.set("g", "a"));
    assert!(s.set("g", "b"));
    assert_eq!(s.get("g").as_deref(), Some("b"));
    assert!(s.set("h", "b"));
    assert_eq!(s.entries().len(), 2);
}

#[test]
fn providers_follow_static_members() {
    let g = FallbackGroup::new_with_providers(
        "fb",
        vec![dead("s")],
        vec![vec![dead("p1")], vec![], vec![Member::new("p2")]],
    );
    assert_eq!(g.member_names(), vec!["s", "p1", "p2"]);
    assert_eq!(g.first_alive().unwrap().name(), "p2");
    let flat = flatten(vec![], vec![vec![Member::new("x")]]);
    assert_eq!(flat.len(), 1);
    let empty = FallbackGroup::new("e", vec![]);
    assert!(empty.first_alive().is_none());
    assert!(!empty.alive());
    assert_eq!(empty.last_delay(), 0);
}

#[test]
fn url_test_picks_fastest_then_sticks_within_tolerance() {
    let mut g = UrlTestGroup::new("ut", vec![timed("a", 120), timed("b", 80)], 50);
    assert_eq!(g.pick_for_dial(), Some(1));
    assert_eq!(g.current(), Some("b".to_string()));
    // a becomes faster, but not by more than the tolerance: keep b
    g.set_members(vec![timed("a", 40), timed("b", 80)]);
    assert_eq!(g.pick_for_dial(), Some(1));
    // a becomes faster by more than the tolerance: switch
    g.set_members(vec![timed("a", 10), timed("b", 80)]);
    assert_eq!(g.pick_for_dial(), Some(0));
    assert_eq!(g.fastest_proxy().unwrap().name(), "a");
}

#[test]
fn url_test_switches_when_current_dies() {
    let mut g = UrlTestGroup::new("ut", vec![timed("a", 10), timed("b", 80)], 0);
    assert_eq!(g.pick_for_dial(), Some(0));
    let mut a = timed("a", 10);
    a.alive = false;
    g.set_members(vec![a, timed("b", 80)]);
    assert_eq!(g.pick_for_dial(), Some(1));
    assert!(g.alive());
}

#[test]
fn url_test_without_measurements_uses_first() {
    let mut g = UrlTestGroup::new("ut", vec![dead("a"), Member::new("b")], 0);
    assert_eq!(g.fastest_proxy().unwrap().name(), "a");
    assert_eq!(g.pick_for_dial(), Some(0));
    assert_eq!(g.current(), Some("a".to_string()));
    let mut none = UrlTestGroup::new("ut", vec![], 0);
    assert_eq!(none.pick_for_dial(), None);
    assert_eq!(none.member_names(), Vec::<String>::new());
}

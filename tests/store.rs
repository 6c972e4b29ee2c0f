use instrument::store::{by_prefix, FieldValue, Goal, Store};

fn text(store: &Store, key: &str) -> Option<String> {
    match store.get(key) {
        Some(FieldValue::Text(t)) => Some(t.clone()),
        _ => None,
    }
}

fn store_of(pairs: &[(&str, &str)]) -> Store {
    let mut s = Store::new();
    for (k, v) in pairs {
        s.record_str(k, v);
    }
    s
}

#[test]
fn insert_keeps_the_later_value() {
    let mut s = Store::new();
    s.record_i64("a", 1);
    s.record_i64("a", 2);
    assert_eq!(s.len(), 1);
    assert!(matches!(s.get("a"), Some(FieldValue::Int(2))));
}

#[test]
fn typed_recorders_keep_their_kind() {
    let mut s = Store::new();
    s.record_i64("i", -5);
    s.record_u64("u", 7);
    s.record_bool("b", true);
    s.record_str("s", "hi");
    s.record_error("e", "broken pipe");
    s.record_debug("d", "Some(3)");
    s.record_f64_bits("f", 1.5f64.to_bits());
    assert!(matches!(s.get("i"), Some(FieldValue::Int(-5))));
    assert!(matches!(s.get("u"), Some(FieldValue::UInt(7))));
    assert!(matches!(s.get("b"), Some(FieldValue::Bool(true))));
    assert_eq!(text(&s, "s").as_deref(), Some("hi"));
    assert_eq!(text(&s, "e").as_deref(), Some("broken pipe"));
    assert_eq!(text(&s, "d").as_deref(), Some("Some(3)"));
    match s.get("f") {
        Some(FieldValue::Float(bits)) => assert_eq!(f64::from_bits(*bits), 1.5),
        other => panic!("unexpected {:?}", other),
    }
    assert_eq!(s.len(), 7);
}

#[test]
fn remove_entry_takes_the_field_out() {
    let mut s = store_of(&[("a", "1"), ("b", "2")]);
    let (k, v) = s.remove_entry("a").unwrap();
    assert_eq!(k, "a");
    assert!(matches!(v, FieldValue::Text(t) if t == "1"));
    assert!(s.get("a").is_none());
    assert!(s.remove_entry("a").is_none());
    assert_eq!(s.len(), 1);
}

#[test]
fn port_moves_named_keys_only() {
    let mut from = store_of(&[("a", "1"), ("b", "2"), ("c", "3")]);
    let mut to = store_of(&[("a", "old")]);
    let goal = to.port(&mut from, vec!["a", "c", "z"]);
    assert!(goal.is_hit());
    assert_eq!(text(&to, "a").as_deref(), Some("1"));
    assert_eq!(text(&to, "c").as_deref(), Some("3"));
    assert_eq!(to.len(), 2);
    assert_eq!(from.len(), 1);
    assert_eq!(text(&from, "b").as_deref(), Some("2"));
}

#[test]
fn port_misses_when_no_key_is_there() {
    let mut from = store_of(&[("a", "1")]);
    let mut to = Store::new();
    let goal = to.port(&mut from, vec!["x", "y"]);
    assert!(!goal.is_hit());
    assert!(to.is_empty());
    assert_eq!(from.len(), 1);
}

#[test]
fn port_by_renames_and_removes() {
    let mut from = store_of(&[("panic.line", "10"), ("panic.file", "x"), ("panic.other", "o"), ("line", "m")]);
    let mut to = Store::new();
    let rule = by_prefix("panic.", vec!["line", "file"]);
    assert_eq!(rule.rename("panic.line").as_deref(), Some("line"));
    assert_eq!(rule.rename("panic.other"), None);
    assert_eq!(rule.rename("log.line"), None);
    let goal = to.port_by(&mut from, &rule);
    assert!(goal.is_hit());
    assert_eq!(text(&to, "line").as_deref(), Some("10"));
    assert_eq!(text(&to, "file").as_deref(), Some("x"));
    assert_eq!(to.len(), 2);
    assert_eq!(text(&from, "panic.other").as_deref(), Some("o"));
    assert_eq!(text(&from, "line").as_deref(), Some("m"));
    assert_eq!(from.len(), 2);
}

#[test]
fn port_by_misses_without_matching_keys() {
    let mut from = store_of(&[("log.target", "t")]);
    let mut to = Store::new();
    let goal = to.port_by(&mut from, &by_prefix("panic.", vec!["line", "file"]));
    assert!(!goal.is_hit());
    assert!(to.is_empty());
    assert_eq!(from.len(), 1);
}

#[test]
fn port_all_prefers_the_source() {
    let mut to = store_of(&[("a", "1"), ("b", "2")]);
    let mut from = store_of(&[("a", "3"), ("c", "4")]);
    to.port_all(&mut from);
    assert!(from.is_empty());
    assert_eq!(text(&to, "a").as_deref(), Some("3"));
    assert_eq!(text(&to, "b").as_deref(), Some("2"));
    assert_eq!(text(&to, "c").as_deref(), Some("4"));
    assert_eq!(to.len(), 3);
}

#[test]
fn push_nests_only_non_empty_groups() {
    let mut root = Store::new();
    root.push("empty", Store::new());
    assert!(root.get("empty").is_none());
    root.push("group", store_of(&[("k", "v")]));
    match root.get("group") {
        Some(FieldValue::Object(g)) => assert_eq!(text(g, "k").as_deref(), Some("v")),
        other => panic!("unexpected {:?}", other),
    }
}

#[test]
fn copy_keeps_every_field() {
    let s = store_of(&[("a", "1"), ("b", "2")]);
    let c = s.copy();
    assert_eq!(c.len(), 2);
    assert_eq!(text(&c, "a").as_deref(), Some("1"));
    assert_eq!(text(&c, "b").as_deref(), Some("2"));
    assert_eq!(c.fields().len(), 2);
}

#[test]
fn goal_combinators() {
    let hit: Goal<u32> = Goal::Hit;
    assert!(hit.or_else(|_| Goal::<u32>::Miss(1)).is_hit());
    let miss: Goal<u32> = Goal::Miss(4);
    match miss.or_else(|x| Goal::<u32>::Miss(x + 1)) {
        Goal::Miss(5) => {}
        _ => panic!("expected Miss(5)"),
    }
    let miss: Goal<u32> = Goal::Miss(4);
    match miss.map_miss(|x| x * 2) {
        Goal::Miss(8) => {}
        _ => panic!("expected Miss(8)"),
    }
    let hit: Goal<u32> = Goal::Hit;
    assert!(hit.map_miss(|x| x * 2).is_hit());
}

use instrument::spans::{SpanError, SpanTable};
use instrument::store::{FieldValue, Store};

fn ints(pairs: &[(&str, i64)]) -> Store {
    let mut s = Store::new();
    for (k, v) in pairs {
        s.record_i64(k, *v);
    }
    s
}

fn int_at(store: &Store, key: &str) -> Option<i64> {
    match store.get(key) {
        Some(FieldValue::Int(v)) => Some(*v),
        _ => None,
    }
}

#[test]
fn recording_a_key_twice_keeps_the_later_value() {
    let mut t = SpanTable::new();
    t.on_span_create(1, None, ints(&[("a", 1)])).unwrap();
    t.on_record(1, ints(&[("k", 1)])).unwrap();
    t.on_record(1, ints(&[("k", 2)])).unwrap();
    let s = t.get(1).unwrap();
    assert_eq!(int_at(s, "k"), Some(2));
    assert_eq!(s.len(), 2);
}

#[test]
fn root_to_leaf_precedence() {
    let mut t = SpanTable::new();
    t.on_span_create(1, None, ints(&[("a", 1)])).unwrap();
    t.on_span_create(2, Some(1), ints(&[("b", 2)])).unwrap();
    t.on_span_create(3, Some(2), ints(&[("a", 3)])).unwrap();
    let acc = t.accumulate(3);
    assert_eq!(int_at(&acc, "a"), Some(3));
    assert_eq!(int_at(&acc, "b"), Some(2));
    assert_eq!(acc.len(), 2);
    let mid = t.accumulate(2);
    assert_eq!(int_at(&mid, "a"), Some(1));
    assert_eq!(int_at(&mid, "b"), Some(2));
}

#[test]
fn accumulate_of_unknown_span_is_empty() {
    let t = SpanTable::new();
    assert!(t.accumulate(9).is_empty());
}

#[test]
fn record_on_unknown_span_is_not_found() {
    let mut t = SpanTable::new();
    assert_eq!(t.on_record(7, ints(&[("a", 1)])), Err(SpanError::NotFound));
    assert!(matches!(t.on_close(7), Err(SpanError::NotFound)));
}

#[test]
fn creating_an_open_span_again_is_a_duplicate() {
    let mut t = SpanTable::new();
    t.on_span_create(1, None, ints(&[("a", 1)])).unwrap();
    assert_eq!(t.on_span_create(1, None, ints(&[("a", 2)])), Err(SpanError::Duplicate));
    assert_eq!(int_at(t.get(1).unwrap(), "a"), Some(1));
}

#[test]
fn unknown_parent_starts_a_new_chain() {
    let mut t = SpanTable::new();
    t.on_span_create(5, Some(42), ints(&[("x", 1)])).unwrap();
    t.on_span_create(42, None, ints(&[("y", 2)])).unwrap();
    let acc = t.accumulate(5);
    assert_eq!(acc.len(), 1);
    assert_eq!(int_at(&acc, "x"), Some(1));
}

#[test]
fn closing_a_parent_cuts_its_children_loose() {
    let mut t = SpanTable::new();
    t.on_span_create(1, None, ints(&[("a", 1)])).unwrap();
    t.on_span_create(2, Some(1), ints(&[("b", 2)])).unwrap();
    let closed = t.on_close(1).unwrap();
    assert_eq!(int_at(&closed, "a"), Some(1));
    assert!(!t.contains(1));
    assert!(t.contains(2));
    let acc = t.accumulate(2);
    assert_eq!(acc.len(), 1);
    assert_eq!(int_at(&acc, "b"), Some(2));
    t.on_span_create(1, None, ints(&[("c", 3)])).unwrap();
    assert_eq!(t.accumulate(2).len(), 1);
}

use scene_core::canvas::{new_canvas, CanvasId};
use scene_core::lww::{lww_merge_property, LwwEntry, LwwToken, PropertyStore};
use serde_json::Value;

#[test]
fn canvas_id_constructors_and_display() {
    let from_str = CanvasId::from("a");
    let from_string = CanvasId::from(String::from("a"));
    assert_eq!(from_str, from_string);
    assert_eq!(from_str.to_string(), "a");
    assert_eq!(CanvasId::from("board-1").to_string(), "board-1");
}

#[test]
fn new_canvas_uses_now_for_both_timestamps() {
    let c = new_canvas("c-1", "Untitled", "2026-06-07T00:00:00Z");
    assert_eq!(c.id, CanvasId::from("c-1"));
    assert_eq!(c.title, "Untitled");
    assert_eq!(c.created_at, "2026-06-07T00:00:00Z");
    assert_eq!(c.updated_at, "2026-06-07T00:00:00Z");
}

#[test]
fn merge_into_empty_always_wins() {
    let incoming = LwwEntry::new(Value::from("a"), 1);
    assert!(lww_merge_property(None, &incoming));
}

#[test]
fn higher_seq_wins() {
    let current = LwwEntry::new(Value::from("a"), 5);
    let incoming = LwwEntry::new(Value::from("b"), 6);
    assert!(lww_merge_property(Some(&current), &incoming));

    let mut store = PropertyStore::new();
    assert!(store.apply("obj1", "title", Value::from("a"), 5));
    assert!(store.apply("obj1", "title", Value::from("b"), 6));
    assert_eq!(store.get_value("obj1", "title"), Some(&Value::from("b")));
    assert_eq!(store.get("obj1", "title").unwrap().seq, 6);
}

#[test]
fn lower_seq_loses() {
    let current = LwwEntry::new(Value::from("winner"), 10);
    let incoming = LwwEntry::new(Value::from("stale"), 3);
    assert!(!lww_merge_property(Some(&current), &incoming));

    let mut store = PropertyStore::new();
    assert!(store.apply("obj1", "x", Value::from("winner"), 10));
    assert!(!store.apply("obj1", "x", Value::from("stale"), 3));
    assert_eq!(store.get_value("obj1", "x"), Some(&Value::from("winner")));
}

#[test]
fn distinct_properties_are_independent() {
    let mut store = PropertyStore::new();
    store.apply("obj1", "title", Value::from("hi"), 1);
    store.apply("obj1", "x", Value::from(42), 2);
    assert_eq!(store.get_value("obj1", "title"), Some(&Value::from("hi")));
    assert_eq!(store.get_value("obj1", "x"), Some(&Value::from(42)));
    assert!(store.apply("obj1", "title", Value::from("bye"), 3));
    assert_eq!(store.get_value("obj1", "x"), Some(&Value::from(42)));
    assert_eq!(store.object("obj1").unwrap().len(), 2);
}

#[test]
fn token_ordering_matches_seq() {
    let a = LwwToken::new(7, 2);
    let b = LwwToken::new(99, 1);
    assert!(a.wins_over(&b));
    assert!(!b.wins_over(&a));
}

#[test]
fn equal_seq_does_not_flip() {
    let current = LwwEntry::new(Value::from("original"), 4);
    let incoming = LwwEntry::new(Value::from("replayed"), 4);
    assert!(!lww_merge_property(Some(&current), &incoming));
    assert!(!LwwToken::new(0, 4).wins_over(&LwwToken::new(0, 4)));

    let mut store = PropertyStore::new();
    assert!(store.apply("obj1", "title", Value::from("original"), 4));
    assert!(!store.apply("obj1", "title", Value::from("replayed"), 4));
    assert_eq!(store.get_value("obj1", "title"), Some(&Value::from("original")));
}

#[test]
fn other_objects_are_untouched_by_a_write() {
    let mut store = PropertyStore::new();
    store.apply("a", "p", Value::from(1), 1);
    store.apply("b", "p", Value::from(2), 1);
    assert_eq!(store.get_value("a", "p"), Some(&Value::from(1)));
    assert_eq!(store.get_value("b", "p"), Some(&Value::from(2)));
    assert!(store.get("c", "p").is_none());
    assert!(store.object("c").is_none());
}

#[test]
fn object_properties_come_out_in_key_order() {
    let mut store = PropertyStore::new();
    store.apply("o", "zeta", serde_json::Value::from(1), 1);
    store.apply("o", "alpha", serde_json::Value::from(2), 2);
    store.apply("o", "mid", serde_json::Value::from(3), 3);
    store.apply("b", "x", serde_json::Value::from(4), 4);
    let keys: Vec<&str> = store.object("o").unwrap().iter().map(|(k, _)| k.as_str()).collect();
    assert_eq!(keys, vec!["alpha", "mid", "zeta"]);
    let ids: Vec<&str> = store.entries().iter().map(|(k, _)| k.as_str()).collect();
    assert_eq!(ids, vec!["b", "o"]);
}

#[test]
fn stores_written_in_different_orders_are_equal() {
    let mut a = PropertyStore::new();
    a.apply("o", "x", serde_json::Value::from(1), 1);
    a.apply("o", "y", serde_json::Value::from(2), 2);
    let mut b = PropertyStore::new();
    b.apply("o", "y", serde_json::Value::from(2), 2);
    b.apply("o", "x", serde_json::Value::from(1), 1);
    assert_eq!(a, b);
}

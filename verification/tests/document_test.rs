use expman::document::{load_document, merge_write, save_document, Document};
use expman::order::reversed;
use expman::error::ExpmanError;
use serde_yaml::Value;

fn whole(i: i64) -> Value {
    Value::Number(serde_yaml::Number::from(i))
}

fn entries(pairs: &[(&str, i64)]) -> Vec<(String, Value)> {
    pairs.iter().map(|(k, v)| (k.to_string(), whole(*v))).collect()
}

fn shown(doc: &Document) -> Vec<(String, Value)> {
    doc.entries.clone()
}

#[test]
fn merge_write_overlays_key_by_key() {
    let first = merge_write(None, entries(&[("a", 1), ("b", 2)])).unwrap();
    assert_eq!(first, "a: 1\nb: 2\n");
    let second = merge_write(Some(&first), entries(&[("b", 3), ("c", 4)])).unwrap();
    let loaded = load_document(Some(&second)).unwrap();
    assert_eq!(shown(&loaded), entries(&[("a", 1), ("b", 3), ("c", 4)]));
    assert_eq!(loaded.get("a"), Some(&whole(1)));
    assert_eq!(loaded.get("b"), Some(&whole(3)));
    assert_eq!(loaded.get("c"), Some(&whole(4)));
    assert_eq!(loaded.get("d"), None);
    assert!(loaded.contains_key("c"));
    assert!(!loaded.contains_key("d"));
}

#[test]
fn merging_the_same_updates_twice_changes_nothing() {
    let once = merge_write(None, entries(&[("a", 1), ("b", 2)])).unwrap();
    let twice = merge_write(Some(&once), entries(&[("a", 1), ("b", 2)])).unwrap();
    assert_eq!(once, twice);
}

#[test]
fn a_key_that_is_updated_twice_in_one_call_gets_the_last_value() {
    let mut doc = Document::new();
    doc.merge(entries(&[("k", 1), ("other", 5), ("k", 2)]));
    assert_eq!(shown(&doc), entries(&[("k", 2), ("other", 5)]));
}

#[test]
fn an_update_keeps_the_place_of_its_key() {
    let mut doc = Document::new();
    doc.insert("z".to_string(), whole(1));
    doc.insert("a".to_string(), whole(2));
    doc.insert("z".to_string(), whole(3));
    assert_eq!(shown(&doc), entries(&[("z", 3), ("a", 2)]));
    assert_eq!(doc.position("a"), Some(1));
    assert_eq!(doc.position("nope"), None);
    assert_eq!(save_document(&doc).unwrap(), "z: 3\na: 2\n");
}

#[test]
fn a_document_with_a_key_twice_is_not_well_formed() {
    let good = Document { entries: entries(&[("a", 1), ("b", 2), ("c", 3)]) };
    assert!(good.is_well_formed());
    let bad = Document { entries: entries(&[("a", 1), ("b", 2), ("a", 3)]) };
    assert!(!bad.is_well_formed());
    assert!(Document::new().is_well_formed());
}

#[test]
fn a_missing_file_is_the_empty_document() {
    let doc = load_document(None).unwrap();
    assert!(doc.entries.is_empty());
    assert_eq!(save_document(&doc).unwrap(), "{}\n");
}

#[test]
fn loading_sorts_by_key_and_keeps_nested_values() {
    let doc = load_document(Some("zeta: [1, 2]\nalpha:\n  inner: true\nmid: text\n")).unwrap();
    let keys: Vec<&str> = doc.entries.iter().map(|(k, _)| k.as_str()).collect();
    assert_eq!(keys, vec!["alpha", "mid", "zeta"]);
    assert_eq!(doc.get("mid"), Some(&Value::String("text".to_string())));
    assert!(matches!(doc.get("zeta"), Some(Value::Sequence(items)) if items.len() == 2));
    assert!(matches!(doc.get("alpha"), Some(Value::Mapping(m)) if m.len() == 1));
}

#[test]
fn text_that_is_no_mapping_fails_to_load() {
    match load_document(Some("- just\n- a list\n")) {
        Err(ExpmanError::Yaml(message)) => assert!(!message.is_empty()),
        other => panic!("expected a Yaml error, got {:?}", other.map(|d| d.entries.len())),
    }
    assert!(matches!(load_document(Some("a: [unclosed")), Err(ExpmanError::Yaml(_))));
    assert!(matches!(load_document(Some("[a, b]: key that is a list\n")), Err(ExpmanError::Yaml(_))));
    // A scalar key is read as text, whatever it looks like.
    let doc = load_document(Some("1: numeric key\ntrue: truth\n")).unwrap();
    let keys: Vec<&str> = doc.entries.iter().map(|(k, _)| k.as_str()).collect();
    assert_eq!(keys, vec!["1", "true"]);
}

#[test]
fn merge_write_starts_afresh_on_a_file_that_cannot_be_parsed() {
    let text = merge_write(Some("- just\n- a list\n"), entries(&[("a", 1)])).unwrap();
    assert_eq!(text, "a: 1\n");
}

#[test]
fn reversed_turns_the_order_round() {
    assert_eq!(reversed(vec![1, 2, 3]), vec![3, 2, 1]);
    assert_eq!(reversed(Vec::<u8>::new()), Vec::<u8>::new());
}

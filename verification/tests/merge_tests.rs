use host::json::parse;
use host::merge::{merge, merge_mappings};
use host::value::{Mapping, StructuredValue};

fn doc(text: &str) -> StructuredValue {
    parse(text.as_bytes()).expect("well-formed document")
}

fn merged(base: &str, overlay: &str) -> StructuredValue {
    let mut a = doc(base);
    merge(&mut a, &doc(overlay));
    a
}

#[test]
fn overlay_scalar_replaces_base_scalar() {
    assert_eq!(merged("1", "2"), doc("2"));
    assert_eq!(merged(r#""text""#, "true"), doc("true"));
}

#[test]
fn nested_mappings_merge_key_by_key() {
    let r = merged(
        r#"{"a": {"x": 1, "y": 2}, "b": [1, 2]}"#,
        r#"{"a": {"y": 3, "z": 4}, "b": [9]}"#,
    );
    assert_eq!(r, doc(r#"{"b": [9], "a": {"z": 4, "y": 3, "x": 1}}"#));
}

#[test]
fn merge_is_idempotent_on_nested_documents() {
    let a = r#"{"a": {"x": 1, "y": {"deep": [1, 2, 3]}}, "b": null, "c": "kept"}"#;
    let b = r#"{"a": {"y": {"deep": [4], "more": true}, "z": 4}, "b": {"new": 1}, "d": 7}"#;
    let once = merged(a, b);
    let mut twice = once.clone();
    merge(&mut twice, &doc(b));
    assert_eq!(twice, once);
    assert_eq!(
        once,
        doc(
            r#"{"a": {"x": 1, "y": {"deep": [4], "more": true}, "z": 4},
                "b": {"new": 1}, "c": "kept", "d": 7}"#
        )
    );
}

#[test]
fn merge_is_idempotent_when_the_overlay_replaces_a_scalar() {
    let b = r#"{"k": {"inner": 1}}"#;
    let once = merged("5", b);
    let mut twice = once.clone();
    merge(&mut twice, &doc(b));
    assert_eq!(twice, once);
    assert_eq!(once, doc(b));
}

#[test]
fn overlay_value_wins_under_a_shared_key() {
    let r = merged(r#"{"k": {"was": "a mapping"}, "other": 1}"#, r#"{"k": "now a string"}"#);
    match &r {
        StructuredValue::Mapping(m) => {
            assert_eq!(m.get("k"), Some(&StructuredValue::String("now a string".to_string())));
            assert_eq!(m.get("other"), Some(&doc("1")));
            assert_eq!(m.len(), 2);
        }
        other => panic!("not a mapping: {:?}", other),
    }
}

#[test]
fn keys_absent_from_the_overlay_are_kept_at_every_depth() {
    let r = merged(
        r#"{"l1": {"keep1": 1, "l2": {"keep2": 2, "l3": {"keep3": 3, "hit": 0}}}, "top": "t"}"#,
        r#"{"l1": {"l2": {"l3": {"hit": 9}}}}"#,
    );
    assert_eq!(
        r,
        doc(r#"{"l1": {"keep1": 1, "l2": {"keep2": 2, "l3": {"keep3": 3, "hit": 9}}}, "top": "t"}"#)
    );
}

#[test]
fn null_overlay_replaces_with_null() {
    assert_eq!(merged(r#"{"a": 1}"#, "null"), StructuredValue::Null);
    assert_eq!(merged(r#"{"a": {"b": 1}, "c": 2}"#, r#"{"a": null}"#), doc(r#"{"a": null, "c": 2}"#));
}

#[test]
fn sequences_are_replaced_whole() {
    assert_eq!(merged("[1, 2, 3]", "[4]"), doc("[4]"));
    assert_eq!(
        merged(r#"{"list": [{"a": 1}, {"b": 2}]}"#, r#"{"list": [{"c": 3}]}"#),
        doc(r#"{"list": [{"c": 3}]}"#)
    );
}

#[test]
fn a_mismatch_of_kinds_replaces_the_base() {
    assert_eq!(merged(r#"{"a": 1}"#, "[1]"), doc("[1]"));
    assert_eq!(merged("[1]", r#"{"a": 1}"#), doc(r#"{"a": 1}"#));
    assert_eq!(merged("null", r#"{"a": {"b": 1}}"#), doc(r#"{"a": {"b": 1}}"#));
}

#[test]
fn a_key_new_to_the_base_is_inserted() {
    assert_eq!(merged("{}", r#"{"a": {"b": {"c": 1}}}"#), doc(r#"{"a": {"b": {"c": 1}}}"#));
    assert_eq!(merged(r#"{"x": 1}"#, "{}"), doc(r#"{"x": 1}"#));
}

#[test]
fn the_overlay_is_left_as_it_is() {
    let overlay = doc(r#"{"a": {"y": 3}}"#);
    let mut base = doc(r#"{"a": {"x": 1}}"#);
    merge(&mut base, &overlay);
    assert_eq!(overlay, doc(r#"{"a": {"y": 3}}"#));
}

#[test]
fn merge_keeps_the_order_of_the_keys_of_the_base() {
    let mut base = Mapping::new();
    base.insert("first".to_string(), doc("1"));
    base.insert("second".to_string(), doc("2"));
    let mut overlay = Mapping::new();
    overlay.insert("third".to_string(), doc("3"));
    overlay.insert("first".to_string(), doc("10"));
    merge_mappings(&mut base, &overlay);
    assert_eq!(base.len(), 3);
    assert_eq!(base.key_at(0), "first");
    assert_eq!(base.key_at(1), "second");
    assert_eq!(base.key_at(2), "third");
    assert_eq!(base.value_at(0), &doc("10"));
    assert_eq!(base.value_at(1), &doc("2"));
    assert_eq!(base.value_at(2), &doc("3"));
}

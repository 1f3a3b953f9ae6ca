use cloudevents::json::{JsonObject, JsonValue};

fn text(s: &str) -> JsonValue {
    JsonValue::String(s.to_string())
}

#[test]
fn insert_replaces_in_place() {
    let mut o = JsonObject::new();
    o.insert("a".to_string(), JsonValue::Bool(true));
    o.insert("b".to_string(), JsonValue::Null);
    o.insert("a".to_string(), JsonValue::Bool(false));
    assert_eq!(o.len(), 2);
    assert_eq!(o.get("a"), Some(&JsonValue::Bool(false)));
    assert_eq!(o.entry(0).map(|e| e.0.as_str()), Some("a"));
    assert_eq!(o.entry(1).map(|e| e.0.as_str()), Some("b"));
    assert!(o.entry(2).is_none());
    assert_eq!(o.get("c"), None);
    assert!(o.contains_key("b"));
    assert!(!o.contains_key("B"));
}

#[test]
fn new_object_is_empty() {
    let o = JsonObject::new();
    assert_eq!(o.len(), 0);
    assert!(o.entry(0).is_none());
    assert!(!o.contains_key(""));
}

#[test]
fn duplicate_copies_nested_values() {
    let mut inner = JsonObject::new();
    inner.insert("k".to_string(), JsonValue::Array(vec![JsonValue::Number("1".to_string()), text("x")]));
    let v = JsonValue::Array(vec![JsonValue::Object(inner), JsonValue::Null, JsonValue::Bool(true)]);
    let copy = v.duplicate();
    assert_eq!(copy, v);
}

#[test]
fn objects_compare_in_order() {
    let mut a = JsonObject::new();
    a.insert("x".to_string(), JsonValue::Null);
    a.insert("y".to_string(), JsonValue::Null);
    let mut b = JsonObject::new();
    b.insert("y".to_string(), JsonValue::Null);
    b.insert("x".to_string(), JsonValue::Null);
    assert_ne!(a, b);
    assert_eq!(a.duplicate(), a);
}

#[test]
fn is_string_tells_strings_apart() {
    assert!(text("").is_string());
    assert!(!JsonValue::Null.is_string());
    assert!(!JsonValue::Number("1".to_string()).is_string());
}

use fmq::path::Query;
use fmq::value::{get_value, Value};

fn text(s: &str) -> Value {
    Value::String(s.to_string())
}

#[test]
fn test_get_value() {
    let query = Query::parse("key").unwrap();
    let meta = Value::Mapping(vec![("key".to_string(), text("value"))]);
    let result = get_value(&query, &meta);
    assert_eq!(result, Some(&text("value")));
}

#[test]
fn test_get_value_nested() {
    let query = Query::parse("key.nested").unwrap();
    let nested = Value::Mapping(vec![("nested".to_string(), text("value"))]);
    let meta = Value::Mapping(vec![("key".to_string(), nested)]);
    let result = get_value(&query, &meta);
    assert_eq!(result, Some(&text("value")));
}

#[test]
fn resolve_twice_gives_same_result() {
    let query = Query::parse("a[1]").unwrap();
    let meta = Value::Mapping(vec![(
        "a".to_string(),
        Value::Sequence(vec![text("x"), text("y")]),
    )]);
    let first = get_value(&query, &meta);
    let second = get_value(&query, &meta);
    assert_eq!(first, second);
    assert_eq!(first, Some(&text("y")));
}

#[test]
fn missing_key_resolves_to_null() {
    let query = Query::parse("missing").unwrap();
    let meta = Value::Mapping(vec![("title".to_string(), text("A"))]);
    assert_eq!(get_value(&query, &meta), Some(&Value::Null));
}

#[test]
fn key_on_non_mapping_resolves_to_null() {
    let query = Query::parse("a.b").unwrap();
    let meta = Value::Mapping(vec![("a".to_string(), Value::Integer(3))]);
    assert_eq!(get_value(&query, &meta), Some(&Value::Null));
}

#[test]
fn index_past_end_resolves_to_null() {
    let query = Query::parse("a[2]").unwrap();
    let meta = Value::Mapping(vec![(
        "a".to_string(),
        Value::Sequence(vec![text("x"), text("y")]),
    )]);
    assert_eq!(get_value(&query, &meta), Some(&Value::Null));
}

#[test]
fn index_on_non_sequence_is_not_found() {
    let query = Query::parse("a[0]").unwrap();
    let meta = Value::Mapping(vec![("a".to_string(), text("x"))]);
    assert_eq!(get_value(&query, &meta), None);
}

#[test]
fn index_after_missing_key_is_not_found() {
    let query = Query::parse("missing[0]").unwrap();
    let meta = Value::Mapping(vec![("a".to_string(), text("x"))]);
    assert_eq!(get_value(&query, &meta), None);
}

#[test]
fn empty_path_resolves_to_root() {
    let query = Query::parse("").unwrap();
    let meta = Value::Mapping(vec![("a".to_string(), text("x"))]);
    assert_eq!(get_value(&query, &meta), Some(&meta));
}

use core::cmp::Ordering;
use fmq::condition::{compare_text, Condition, ConditionError, Ops};
use fmq::path::QueryError;
use fmq::value::Value;

fn doc(title: Value) -> Value {
    Value::Mapping(vec![("title".to_string(), title)])
}

fn text(s: &str) -> Value {
    Value::String(s.to_string())
}

#[test]
fn condition_parses_three_parts() {
    let c = Condition::parse("title == Lorem Ipsum").unwrap();
    assert_eq!(c.op, Ops::Eq);
    assert_eq!(c.value, "Lorem Ipsum".to_string());
    assert_eq!(c.query.0.len(), 1);
}

#[test]
fn condition_missing_operator() {
    assert_eq!(
        Condition::parse("title").unwrap_err(),
        ConditionError::MissingOperator
    );
}

#[test]
fn condition_missing_value() {
    assert_eq!(
        Condition::parse("title ==").unwrap_err(),
        ConditionError::MissingValue
    );
}

#[test]
fn condition_unknown_operator() {
    assert_eq!(
        Condition::parse("title ~ x").unwrap_err(),
        ConditionError::UnknownOperator("~".to_string())
    );
}

#[test]
fn condition_bad_path() {
    assert_eq!(
        Condition::parse("a[ == x").unwrap_err(),
        ConditionError::Query(QueryError::UnclosedBracket)
    );
}

#[test]
fn operator_tokens() {
    assert_eq!(Ops::from_token("=="), Some(Ops::Eq));
    assert_eq!(Ops::from_token("!="), Some(Ops::Neq));
    assert_eq!(Ops::from_token(">"), Some(Ops::Gt));
    assert_eq!(Ops::from_token(">="), Some(Ops::Gte));
    assert_eq!(Ops::from_token("<"), Some(Ops::Lt));
    assert_eq!(Ops::from_token("<="), Some(Ops::Lte));
    assert_eq!(Ops::from_token("="), None);
}

#[test]
fn equality_condition_on_texts() {
    let c = Condition::parse("title == A").unwrap();
    assert!(c.evaluate(&doc(text("A"))));
    assert!(!c.evaluate(&doc(text("B"))));
}

#[test]
fn non_text_values_pass() {
    let c = Condition::parse("title == A").unwrap();
    assert!(c.evaluate(&doc(Value::Integer(5))));
    assert!(c.evaluate(&doc(Value::Bool(true))));
    let missing = Condition::parse("other == A").unwrap();
    assert!(missing.evaluate(&doc(text("B"))));
}

#[test]
fn stopped_path_rejects_for_every_operator() {
    for op in ["==", "!=", ">", ">=", "<", "<="] {
        let c = Condition::parse(&format!("title[0] {} A", op)).unwrap();
        assert!(!c.evaluate(&doc(text("A"))));
    }
}

#[test]
fn ordering_operators_are_lexicographic() {
    let d = doc(text("2023-09-26"));
    assert!(Condition::parse("title > 2023-01-01").unwrap().evaluate(&d));
    assert!(!Condition::parse("title < 2023-01-01").unwrap().evaluate(&d));
    assert!(Condition::parse("title >= 2023-09-26").unwrap().evaluate(&d));
    assert!(Condition::parse("title <= 2023-09-26").unwrap().evaluate(&d));
    assert!(Condition::parse("title != 2023").unwrap().evaluate(&d));
    assert!(!Condition::parse("title > 2023-09-26").unwrap().evaluate(&d));
}

#[test]
fn text_comparison() {
    assert_eq!(compare_text("abc", "abd"), Ordering::Less);
    assert_eq!(compare_text("ab", "abc"), Ordering::Less);
    assert_eq!(compare_text("b", "abc"), Ordering::Greater);
    assert_eq!(compare_text("", ""), Ordering::Equal);
    assert_eq!(compare_text("Z", "a"), Ordering::Less);
}

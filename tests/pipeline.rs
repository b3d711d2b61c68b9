use core::cmp::Ordering;
use fmq::condition::Condition;
use fmq::front_matter::extract_front_matter;
use fmq::order::compare_values;
use fmq::path::Query;
use fmq::pipeline::{project, select_documents, sort_documents, Document};
use fmq::record::{format_record, join_fields, record_line};
use fmq::value::{well_formed, Value};

fn text(s: &str) -> Value {
    Value::String(s.to_string())
}

fn titled(location: &str, title: &str) -> Document {
    Document::new(location.to_string(), vec![("title".to_string(), text(title))])
}

fn locations(docs: &[Document]) -> Vec<String> {
    docs.iter().map(|d| d.location.clone()).collect()
}

fn rendered(v: Option<&Value>) -> Option<String> {
    match v {
        None => None,
        Some(Value::String(s)) => Some(s.clone()),
        Some(Value::Integer(n)) => Some(n.to_string()),
        Some(Value::Null) => Some("null".to_string()),
        Some(other) => Some(format!("{:?}", other)),
    }
}

fn full() -> Document {
    Document::new(
        "./tests/fixtures/full.md".to_string(),
        vec![
            ("title".to_string(), text("Lorem Ipsum")),
            ("date".to_string(), text("2023-09-26")),
            ("tags".to_string(), Value::Sequence(vec![text("asdf jkl")])),
            ("count".to_string(), Value::Integer(0)),
        ],
    )
}

#[test]
fn value_order_by_kind_then_value() {
    assert_eq!(compare_values(&Value::Null, &Value::Bool(false)), Ordering::Less);
    assert_eq!(compare_values(&Value::Bool(true), &Value::Integer(-5)), Ordering::Less);
    assert_eq!(compare_values(&Value::Integer(-5), &Value::Integer(3)), Ordering::Less);
    assert_eq!(compare_values(&Value::Integer(3), &text("1")), Ordering::Less);
    assert_eq!(compare_values(&text("b"), &text("a")), Ordering::Greater);
    assert_eq!(compare_values(&text("a"), &text("a")), Ordering::Equal);
    assert_eq!(
        compare_values(&Value::Sequence(vec![]), &Value::Mapping(vec![])),
        Ordering::Less
    );
}

#[test]
fn sort_puts_a_before_b() {
    let docs = vec![titled("b.md", "B"), titled("a.md", "A")];
    let sorted = sort_documents(docs, "title");
    assert_eq!(locations(&sorted), vec!["a.md", "b.md"]);
}

#[test]
fn sort_is_stable_on_equal_values() {
    let docs = vec![
        titled("1.md", "B"),
        titled("2.md", "A"),
        titled("3.md", "B"),
        titled("4.md", "A"),
        Document::new("5.md".to_string(), vec![]),
    ];
    let sorted = sort_documents(docs, "title");
    assert_eq!(locations(&sorted), vec!["5.md", "2.md", "4.md", "1.md", "3.md"]);
}

#[test]
fn select_filters_then_sorts() {
    let docs = vec![titled("c.md", "C"), titled("b.md", "B"), titled("a.md", "A")];
    let cond = Condition::parse("title != B").unwrap();
    let out = select_documents(docs, Some(&cond), Some("title"));
    assert_eq!(locations(&out), vec!["a.md", "c.md"]);
}

#[test]
fn select_without_condition_or_order_keeps_input() {
    let docs = vec![titled("c.md", "C"), titled("a.md", "A")];
    let out = select_documents(docs, None, None);
    assert_eq!(locations(&out), vec!["c.md", "a.md"]);
}

#[test]
fn record_of_selected_fields() {
    let d = full();
    let queries = vec![Query::parse("title").unwrap(), Query::parse("date").unwrap()];
    let values = project(&d, &queries);
    let fields: Vec<Option<String>> = values.into_iter().map(rendered).collect();
    assert_eq!(
        format_record(&d.location, &fields),
        "./tests/fixtures/full.md, Lorem Ipsum, 2023-09-26"
    );
}

#[test]
fn missing_field_reads_null() {
    let d = full();
    let queries = vec![
        Query::parse("title").unwrap(),
        Query::parse("date").unwrap(),
        Query::parse("missing").unwrap(),
        Query::parse("title[0]").unwrap(),
    ];
    let values = project(&d, &queries);
    assert_eq!(values[2], Some(&Value::Null));
    assert_eq!(values[3], None);
    let fields: Vec<Option<String>> = values.into_iter().map(rendered).collect();
    assert_eq!(
        format_record(&d.location, &fields),
        "./tests/fixtures/full.md, Lorem Ipsum, 2023-09-26, null, null"
    );
}

#[test]
fn record_escapes_special_characters() {
    let fields = vec![Some("a\"b".to_string()), Some("line\nbreak".to_string())];
    assert_eq!(format_record("x.md", &fields), "x.md, a\\\"b, line\\nbreak");
}

#[test]
fn join_and_line() {
    let fields = vec![Some("a".to_string()), None, Some("".to_string())];
    assert_eq!(join_fields(&fields), "a, null, ");
    assert_eq!(join_fields(&vec![]), "");
    assert_eq!(record_line("p.md", "x, y"), "p.md, x, y");
}

#[test]
fn front_matter_between_delimiters() {
    let doc = "---\ntitle: Lorem Ipsum\ndate: 2023-09-26\n---\nbody\n";
    assert_eq!(
        extract_front_matter(doc),
        Some("title: Lorem Ipsum\ndate: 2023-09-26\n".to_string())
    );
}

#[test]
fn front_matter_with_crlf_lines() {
    let doc = "---\r\ntitle: A\r\n---\r\nbody";
    assert_eq!(extract_front_matter(doc), Some("title: A\n".to_string()));
}

#[test]
fn front_matter_closing_at_end_of_text() {
    assert_eq!(extract_front_matter("---\na: 1\n---"), Some("a: 1\n".to_string()));
    assert_eq!(extract_front_matter("---\n---\n"), Some("".to_string()));
}

#[test]
fn no_front_matter() {
    assert_eq!(extract_front_matter("# Title\n---\na: 1\n---\n"), None);
    assert_eq!(extract_front_matter("---\na: 1\n"), None);
    assert_eq!(extract_front_matter("---"), None);
    assert_eq!(extract_front_matter(""), None);
}

#[test]
fn document_without_front_matter_is_left_out() {
    let texts = vec![
        ("good.md", "---\ntitle: A\n---\n"),
        ("none.md", "just text\n"),
        ("open.md", "---\ntitle: B\n"),
    ];
    let kept: Vec<&str> = texts
        .iter()
        .filter(|(_, t)| extract_front_matter(t).is_some())
        .map(|(p, _)| *p)
        .collect();
    assert_eq!(kept, vec!["good.md"]);
}

#[test]
fn composite_values_compare_element_by_element() {
    let a = Value::Sequence(vec![Value::Integer(1), text("b")]);
    let b = Value::Sequence(vec![Value::Integer(1), text("c")]);
    let prefix = Value::Sequence(vec![Value::Integer(1)]);
    assert_eq!(compare_values(&a, &b), Ordering::Less);
    assert_eq!(compare_values(&b, &a), Ordering::Greater);
    assert_eq!(compare_values(&prefix, &a), Ordering::Less);
    assert_eq!(compare_values(&a, &a), Ordering::Equal);
    let m1 = Value::Mapping(vec![("k".to_string(), Value::Integer(2))]);
    let m2 = Value::Mapping(vec![("k".to_string(), Value::Integer(3))]);
    let m3 = Value::Mapping(vec![("j".to_string(), Value::Integer(9))]);
    assert_eq!(compare_values(&m1, &m2), Ordering::Less);
    assert_eq!(compare_values(&m3, &m1), Ordering::Less);
    assert_eq!(compare_values(&m1, &m1), Ordering::Equal);
}

#[test]
fn non_integer_numbers_follow_integers() {
    let r = Value::Real("0.5".to_string());
    assert_eq!(compare_values(&Value::Integer(100), &r), Ordering::Less);
    assert_eq!(compare_values(&r, &text("a")), Ordering::Less);
    assert_eq!(compare_values(&r, &Value::Real("0.75".to_string())), Ordering::Less);
}

#[test]
fn opening_line_must_be_exactly_the_delimiter() {
    assert_eq!(extract_front_matter("----\ntitle: x\n---\n"), None);
    assert_eq!(extract_front_matter("---x\ntitle: x\n---\n"), None);
    assert_eq!(extract_front_matter("--- \ntitle: x\n---\n"), None);
    assert_eq!(
        extract_front_matter("---\r\ntitle: x\n---\n"),
        Some("title: x\n".to_string())
    );
}

#[test]
fn record_escapes_tab_quote_and_non_ascii() {
    let fields = vec![Some("a\tb".to_string()), Some("it's é".to_string())];
    assert_eq!(format_record("y.md", &fields), "y.md, a\\tb, it\\'s \\u{e9}");
}

#[test]
fn well_formed_needs_unique_keys() {
    let dup = Value::Mapping(vec![
        ("a".to_string(), Value::Null),
        ("a".to_string(), Value::Null),
    ]);
    let nested = Value::Sequence(vec![dup]);
    assert!(!well_formed(&nested));
    let ok = Value::Mapping(vec![
        ("a".to_string(), Value::Null),
        ("b".to_string(), Value::Sequence(vec![Value::Mapping(vec![])])),
    ]);
    assert!(well_formed(&ok));
}

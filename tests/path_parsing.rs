use fmq::path::{parse_index, Query, QueryAccessor, QueryError};

#[test]
fn test_single_key() {
    let query = Query::parse("key").unwrap();
    assert_eq!(query.0, vec![QueryAccessor::Key("key".to_string())]);
}

#[test]
fn test_nested_key() {
    let query = Query::parse("key.nested").unwrap();
    assert_eq!(
        query.0,
        vec![
            QueryAccessor::Key("key".to_string()),
            QueryAccessor::Key("nested".to_string())
        ]
    );
}

#[test]
fn test_key_with_index() {
    let query = Query::parse("key[0]").unwrap();
    assert_eq!(
        query.0,
        vec![
            QueryAccessor::Key("key".to_string()),
            QueryAccessor::Index(0)
        ]
    );
}

#[test]
fn test_nested_key_with_index() {
    let query = Query::parse("key.nested[0]");
    match query {
        Ok(q) => assert_eq!(
            q.0,
            vec![
                QueryAccessor::Key("key".to_string()),
                QueryAccessor::Key("nested".to_string()),
                QueryAccessor::Index(0)
            ]
        ),
        Err(e) => panic!("{:?}", e),
    }
}

#[test]
fn test_invalid_index() {
    let query = Query::parse("key.nested[invalid_index]");
    assert!(query.is_err());
}

#[test]
fn test_unclosed_bracket() {
    let query = Query::parse("key.nested[");
    assert!(query.is_err());
}

#[test]
fn parse_dotted_key_with_index() {
    let q = Query::parse("a.b[0]").unwrap();
    assert_eq!(
        q.0,
        vec![
            QueryAccessor::Key("a".to_string()),
            QueryAccessor::Key("b".to_string()),
            QueryAccessor::Index(0)
        ]
    );
}

#[test]
fn parse_empty_text_gives_no_steps() {
    let q = Query::parse("").unwrap();
    assert!(q.0.is_empty());
}

#[test]
fn parse_open_bracket_is_unclosed() {
    assert_eq!(Query::parse("a[").unwrap_err(), QueryError::UnclosedBracket);
}

#[test]
fn parse_empty_brackets_is_unclosed() {
    assert_eq!(Query::parse("a[]").unwrap_err(), QueryError::UnclosedBracket);
}

#[test]
fn parse_missing_close_with_digits_is_unclosed() {
    assert_eq!(Query::parse("a[12").unwrap_err(), QueryError::UnclosedBracket);
}

#[test]
fn parse_signed_index_is_invalid_index() {
    assert_eq!(
        Query::parse("a[+5]").unwrap_err(),
        QueryError::InvalidIndex("+5".to_string())
    );
}

#[test]
fn parse_letters_in_brackets_is_invalid_index() {
    assert_eq!(
        Query::parse("a[x]").unwrap_err(),
        QueryError::InvalidIndex("x".to_string())
    );
}

#[test]
fn parse_consecutive_dots_give_no_empty_keys() {
    let q = Query::parse("a..b.").unwrap();
    assert_eq!(
        q.0,
        vec![
            QueryAccessor::Key("a".to_string()),
            QueryAccessor::Key("b".to_string())
        ]
    );
}

#[test]
fn parse_leading_and_repeated_indices() {
    let q = Query::parse("[3][14].c").unwrap();
    assert_eq!(
        q.0,
        vec![
            QueryAccessor::Index(3),
            QueryAccessor::Index(14),
            QueryAccessor::Key("c".to_string())
        ]
    );
}

#[test]
fn parse_index_values() {
    assert_eq!(parse_index("0"), Some(0));
    assert_eq!(parse_index("1234"), Some(1234));
    assert_eq!(parse_index("+7"), None);
    assert_eq!(parse_index(""), None);
    assert_eq!(parse_index("+"), None);
    assert_eq!(parse_index("-1"), None);
    assert_eq!(parse_index("1a"), None);
    assert_eq!(parse_index("18446744073709551615"), Some(usize::MAX));
    assert_eq!(parse_index("18446744073709551616"), None);
}

#[test]
fn selection_splits_at_spaces() {
    let qs = fmq::path::parse_selection("title date missing").unwrap();
    assert_eq!(qs.len(), 3);
    assert_eq!(qs[1].0, vec![QueryAccessor::Key("date".to_string())]);
    let with_gap = fmq::path::parse_selection("a  b").unwrap();
    assert_eq!(with_gap.len(), 3);
    assert!(with_gap[1].0.is_empty());
    assert_eq!(
        fmq::path::parse_selection("a b[x]").unwrap_err(),
        QueryError::InvalidIndex("x".to_string())
    );
}

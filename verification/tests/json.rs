use maelstrom::json::Json;
use maelstrom::Error;

fn text(s: &str) -> Json {
    Json::Text(s.to_string())
}

#[test]
fn parse_reads_scalars() {
    assert_eq!(Json::parse("null"), Ok(Json::Null));
    assert_eq!(Json::parse("true"), Ok(Json::Bool(true)));
    assert_eq!(Json::parse("false"), Ok(Json::Bool(false)));
    assert_eq!(Json::parse("7"), Ok(Json::Number(7)));
    assert_eq!(Json::parse("18446744073709551615"), Ok(Json::Number(u64::MAX)));
    assert_eq!(Json::parse("\"n1\""), Ok(text("n1")));
}

#[test]
fn parse_reads_other_numbers_without_their_value() {
    assert_eq!(Json::parse("-1"), Ok(Json::OtherNumber));
    assert_eq!(Json::parse("1.5"), Ok(Json::OtherNumber));
}

#[test]
fn parse_reads_arrays_and_objects() {
    assert_eq!(
        Json::parse("[1, \"a\", [null]]"),
        Ok(Json::List(vec![Json::Number(1), text("a"), Json::List(vec![Json::Null])]))
    );
    assert_eq!(
        Json::parse("{\"b\": 1, \"a\": {\"c\": true}}"),
        Ok(Json::Object(vec![
            ("a".to_string(), Json::Object(vec![("c".to_string(), Json::Bool(true))])),
            ("b".to_string(), Json::Number(1)),
        ]))
    );
}

#[test]
fn parse_keeps_the_later_of_two_members_of_one_name() {
    assert_eq!(
        Json::parse("{\"a\": 1, \"a\": 2}"),
        Ok(Json::Object(vec![("a".to_string(), Json::Number(2))]))
    );
}

#[test]
fn parse_refuses_what_is_no_document() {
    assert_eq!(Json::parse(""), Err(Error::Malformed));
    assert_eq!(Json::parse("{"), Err(Error::Malformed));
    assert_eq!(Json::parse("{\"a\": 1} x"), Err(Error::Malformed));
    assert_eq!(Json::parse("nil"), Err(Error::Malformed));
}

#[test]
fn print_writes_one_line() {
    assert_eq!(Json::Null.print(), Ok("null".to_string()));
    assert_eq!(Json::Number(42).print(), Ok("42".to_string()));
    assert_eq!(text("a\"b\n").print(), Ok("\"a\\\"b\\n\"".to_string()));
    assert_eq!(
        Json::List(vec![Json::Number(1), Json::Bool(false)]).print(),
        Ok("[1,false]".to_string())
    );
    assert_eq!(
        Json::Object(vec![
            ("src".to_string(), text("n1")),
            ("dest".to_string(), text("n2")),
        ])
        .print(),
        Ok("{\"dest\":\"n2\",\"src\":\"n1\"}".to_string())
    );
}

#[test]
fn print_takes_the_later_of_two_members_of_one_name() {
    let doc = Json::Object(vec![
        ("a".to_string(), Json::Number(1)),
        ("a".to_string(), Json::Number(2)),
    ]);
    assert_eq!(doc.print(), Ok("{\"a\":2}".to_string()));
    assert_eq!(doc.field("a"), Some(&Json::Number(2)));
}

#[test]
fn print_refuses_a_number_without_value() {
    assert_eq!(Json::OtherNumber.print(), Err(Error::Unprintable));
    assert_eq!(
        Json::List(vec![Json::Number(1), Json::OtherNumber]).print(),
        Err(Error::Unprintable)
    );
}

#[test]
fn print_then_parse_gives_the_document_back() {
    let doc = Json::Object(vec![
        ("a".to_string(), Json::List(vec![Json::Number(1), text("x"), Json::Null])),
        ("b".to_string(), Json::Object(vec![("c".to_string(), Json::Bool(true))])),
    ]);
    let line = doc.print().expect("prints");
    assert_eq!(Json::parse(&line), Ok(doc));
}

#[test]
fn field_finds_members_of_objects_only() {
    let doc = Json::Object(vec![("a".to_string(), Json::Number(1))]);
    assert_eq!(doc.field("a"), Some(&Json::Number(1)));
    assert_eq!(doc.field("b"), None);
    assert_eq!(Json::Number(1).field("a"), None);
}

#[test]
fn numbers_are_read_where_they_fit() {
    assert_eq!(Json::Number(4294967295).as_u32(), Some(u32::MAX));
    assert_eq!(Json::Number(4294967296).as_u32(), None);
    assert_eq!(text("1").as_u32(), None);
    assert_eq!(
        Json::List(vec![Json::Number(1), Json::Number(2)]).as_u32_list(),
        Some(vec![1, 2])
    );
    assert_eq!(Json::List(vec![Json::Number(1), text("2")]).as_u32_list(), None);
    assert_eq!(Json::numbers(&vec![3, 4]), Json::List(vec![Json::Number(3), Json::Number(4)]));
}

#[test]
fn texts_are_read_where_all_items_are_texts() {
    assert_eq!(
        Json::List(vec![text("a"), text("b")]).as_text_list(),
        Some(vec!["a".to_string(), "b".to_string()])
    );
    assert_eq!(Json::List(vec![text("a"), Json::Null]).as_text_list(), None);
    assert_eq!(
        Json::texts(&vec!["x".to_string()]),
        Json::List(vec![text("x")])
    );
}

#[test]
fn duplicate_is_a_copy() {
    let doc = Json::Object(vec![("a".to_string(), Json::List(vec![Json::Number(1)]))]);
    assert_eq!(doc.duplicate(), doc);
    assert_eq!(doc.clone(), doc);
}

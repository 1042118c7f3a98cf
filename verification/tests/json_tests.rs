use host::error::ConfigError;
use host::json::{from_value, parse};
use host::value::{Mapping, StructuredValue};

fn number(text: &str) -> StructuredValue {
    StructuredValue::Number(text.to_string())
}

#[test]
fn parse_reads_every_kind_of_value() {
    assert_eq!(parse(b"null"), Ok(StructuredValue::Null));
    assert_eq!(parse(b"true"), Ok(StructuredValue::Bool(true)));
    assert_eq!(parse(b"false"), Ok(StructuredValue::Bool(false)));
    assert_eq!(parse(b"12"), Ok(number("12")));
    assert_eq!(parse(b"\"hi\""), Ok(StructuredValue::String("hi".to_string())));
    assert_eq!(
        parse(b"[1, \"two\", null]"),
        Ok(StructuredValue::Sequence(vec![
            number("1"),
            StructuredValue::String("two".to_string()),
            StructuredValue::Null,
        ]))
    );
    let mut m = Mapping::new();
    m.insert("x".to_string(), number("1"));
    m.insert("y".to_string(), StructuredValue::Sequence(vec![]));
    assert_eq!(parse(b"{\"x\": 1, \"y\": []}"), Ok(StructuredValue::Mapping(m)));
}

#[test]
fn parse_keeps_the_text_of_numbers() {
    assert_eq!(parse(b"0"), Ok(number("0")));
    assert_eq!(parse(b"-5"), Ok(number("-5")));
    assert_eq!(parse(b"18446744073709551615"), Ok(number("18446744073709551615")));
    assert_eq!(parse(b"-9223372036854775808"), Ok(number("-9223372036854775808")));
    assert_eq!(parse(b"1.5"), Ok(number("1.5")));
    assert_eq!(parse(b"1.0"), Ok(number("1.0")));
}

#[test]
fn parse_reads_nested_documents() {
    let v = parse(br#"{"a": {"b": {"c": [true, {"d": "e"}]}}}"#).unwrap();
    let mut d = Mapping::new();
    d.insert("d".to_string(), StructuredValue::String("e".to_string()));
    let mut b = Mapping::new();
    b.insert(
        "c".to_string(),
        StructuredValue::Sequence(vec![StructuredValue::Bool(true), StructuredValue::Mapping(d)]),
    );
    let mut a = Mapping::new();
    a.insert("b".to_string(), StructuredValue::Mapping(b));
    let mut top = Mapping::new();
    top.insert("a".to_string(), StructuredValue::Mapping(a));
    assert_eq!(v, StructuredValue::Mapping(top));
}

#[test]
fn parse_takes_the_last_of_a_repeated_key() {
    let v = parse(br#"{"a": 1, "b": 2, "a": 3}"#).unwrap();
    match &v {
        StructuredValue::Mapping(m) => {
            assert_eq!(m.len(), 2);
            assert_eq!(m.get("a"), Some(&number("3")));
            assert_eq!(m.get("b"), Some(&number("2")));
        }
        other => panic!("not a mapping: {:?}", other),
    }
}

#[test]
fn parse_reads_escapes_and_other_scripts_in_strings() {
    assert_eq!(
        parse("\"a\\n\\u00e9 \u{4e2d}\"".as_bytes()),
        Ok(StructuredValue::String("a\n\u{e9} \u{4e2d}".to_string()))
    );
}

#[test]
fn parse_skips_whitespace_around_the_document() {
    assert_eq!(parse(b" \n\t{ } \r\n"), Ok(StructuredValue::Mapping(Mapping::new())));
}

#[test]
fn parse_refuses_what_is_no_document() {
    assert_eq!(parse(b""), Err(ConfigError::Parse));
    assert_eq!(parse(b"   "), Err(ConfigError::Parse));
    assert_eq!(parse(b"{"), Err(ConfigError::Parse));
    assert_eq!(parse(b"{\"a\": }"), Err(ConfigError::Parse));
    assert_eq!(parse(b"{\"a\": 1,}"), Err(ConfigError::Parse));
    assert_eq!(parse(b"[1, 2"), Err(ConfigError::Parse));
    assert_eq!(parse(b"{} {}"), Err(ConfigError::Parse));
    assert_eq!(parse(b"nul"), Err(ConfigError::Parse));
    assert_eq!(parse(b"'single'"), Err(ConfigError::Parse));
    assert_eq!(parse(b"01"), Err(ConfigError::Parse));
    assert_eq!(parse(&[0xff, 0xfe]), Err(ConfigError::Parse));
    assert_eq!(parse(&[b'"', 0xff, b'"']), Err(ConfigError::Parse));
}

#[test]
fn from_value_reads_scalars() {
    assert_eq!(from_value(&serde_json::Value::Null), StructuredValue::Null);
    assert_eq!(from_value(&serde_json::Value::Bool(true)), StructuredValue::Bool(true));
    assert_eq!(from_value(&serde_json::Value::Bool(false)), StructuredValue::Bool(false));
    assert_eq!(
        from_value(&serde_json::Value::String("s".to_string())),
        StructuredValue::String("s".to_string())
    );
    assert_eq!(from_value(&serde_json::Value::from(42u64)), number("42"));
    assert_eq!(from_value(&serde_json::Value::from(-42i64)), number("-42"));
}

#[test]
fn from_value_reads_arrays_in_order() {
    let v = serde_json::Value::Array(vec![
        serde_json::Value::from(3u64),
        serde_json::Value::Null,
        serde_json::Value::Array(vec![serde_json::Value::Bool(true)]),
    ]);
    assert_eq!(
        from_value(&v),
        StructuredValue::Sequence(vec![
            number("3"),
            StructuredValue::Null,
            StructuredValue::Sequence(vec![StructuredValue::Bool(true)]),
        ])
    );
}

#[test]
fn from_value_reads_every_entry_of_an_object() {
    let mut inner = serde_json::Map::new();
    inner.insert("deep".to_string(), serde_json::Value::Bool(false));
    let mut object = serde_json::Map::new();
    object.insert("z".to_string(), serde_json::Value::from(1u64));
    object.insert("a".to_string(), serde_json::Value::Object(inner));
    object.insert("m".to_string(), serde_json::Value::Null);
    let v = from_value(&serde_json::Value::Object(object));
    match &v {
        StructuredValue::Mapping(m) => {
            assert_eq!(m.len(), 3);
            assert_eq!(m.get("z"), Some(&number("1")));
            assert_eq!(m.get("m"), Some(&StructuredValue::Null));
            let mut deep = Mapping::new();
            deep.insert("deep".to_string(), StructuredValue::Bool(false));
            assert_eq!(m.get("a"), Some(&StructuredValue::Mapping(deep)));
            assert_eq!(m.get("deep"), None);
        }
        other => panic!("not a mapping: {:?}", other),
    }
}

#[test]
fn from_value_agrees_with_parse() {
    let text = r#"{"a": [1, 2.5, {"b": null}], "c": "d", "e": {"f": {"g": false}}}"#;
    let through_serde: serde_json::Value = serde_json::from_str(text).unwrap();
    assert_eq!(Ok(from_value(&through_serde)), parse(text.as_bytes()));
}

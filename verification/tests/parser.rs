use parson::json::JsonValue;
use parson::parser::{parse_json, ParseError};

fn number(n: u64) -> JsonValue {
    JsonValue::Number(serde_json::Number::from(n))
}

fn member(key: &str, value: JsonValue) -> (String, JsonValue) {
    (key.to_string(), value)
}

#[test]
fn parses_each_kind_of_value() {
    assert_eq!(parse_json("null"), Ok(JsonValue::Null));
    assert_eq!(parse_json("true"), Ok(JsonValue::Bool(true)));
    assert_eq!(parse_json("false"), Ok(JsonValue::Bool(false)));
    assert_eq!(parse_json("42"), Ok(number(42)));
    assert_eq!(parse_json("\"hi\""), Ok(JsonValue::String("hi".to_string())));
    assert_eq!(parse_json("[]"), Ok(JsonValue::Array(Vec::new())));
    assert_eq!(parse_json("{}"), Ok(JsonValue::Object(Vec::new())));
}

#[test]
fn parses_numbers_as_the_decoder_reads_them() {
    assert_eq!(
        parse_json("-7"),
        Ok(JsonValue::Number(serde_json::Number::from(-7i64)))
    );
    assert_eq!(
        parse_json("1.5"),
        Ok(JsonValue::Number(serde_json::Number::from_f64(1.5).unwrap()))
    );
    assert_ne!(parse_json("1"), parse_json("1.0"));
}

#[test]
fn parses_nested_documents() {
    let expected = JsonValue::Object(vec![
        member("items", JsonValue::Array(vec![number(10), number(20), number(30)])),
        member(
            "inner",
            JsonValue::Object(vec![member("flag", JsonValue::Bool(false)), member("none", JsonValue::Null)]),
        ),
    ]);
    assert_eq!(
        parse_json(r#" { "items" : [10, 20, 30], "inner": {"flag": false, "none": null} } "#),
        Ok(expected)
    );
}

#[test]
fn keeps_members_in_document_order() {
    let parsed = parse_json(r#"{"zebra": 1, "apple": 2, "mango": 3}"#).unwrap();
    assert_eq!(
        parsed,
        JsonValue::Object(vec![
            member("zebra", number(1)),
            member("apple", number(2)),
            member("mango", number(3)),
        ])
    );
}

#[test]
fn repeated_key_leaves_one_member() {
    let parsed = parse_json(r#"{"a": 1, "b": 2, "a": 3}"#).unwrap();
    assert_eq!(
        parsed,
        JsonValue::Object(vec![member("a", number(3)), member("b", number(2))])
    );
    assert!(parsed.is_well_formed());
}

#[test]
fn parsed_documents_are_well_formed() {
    for json in ["1", "[]", r#"{"a": {"a": {"a": [{"a": 1, "b": 2}]}}}"#, r#"[{"x": 1, "x": 2}]"#] {
        assert!(parse_json(json).unwrap().is_well_formed(), "document {}", json);
    }
}

#[test]
fn malformed_text_gives_the_decoders_message() {
    for json in ["", "{", "[1, 2", "{\"a\" 1}", "nul", "1 2", "{'a': 1}", "[1,]"] {
        let expected = serde_json::from_str::<serde_json::Value>(json).unwrap_err().to_string();
        assert_eq!(parse_json(json), Err(ParseError { message: expected }), "text {:?}", json);
    }
}

#[test]
fn message_names_the_place_of_the_fault() {
    let failure = parse_json("{\n  \"a\": ,\n}").unwrap_err();
    assert_eq!(failure.message, "expected value at line 2 column 8");
}

#[test]
fn parses_escapes_in_strings_and_keys() {
    assert_eq!(
        parse_json(r#"{"tab\t": "line\nbreak é"}"#),
        Ok(JsonValue::Object(vec![member(
            "tab\t",
            JsonValue::String("line\nbreak é".to_string())
        )]))
    );
}

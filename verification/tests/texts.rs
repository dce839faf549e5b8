use e_agent::json::{from_value, parse, Json};
use e_agent::text::{
    char_bytes_count, contains_text, decimal_text, same_text, spaces_text, to_ascii_lowercase,
};

#[test]
fn texts_are_compared_and_searched() {
    assert!(same_text("é", "é"));
    assert!(!same_text("a", "ab"));
    assert!(contains_text("reasoning_effort", "reasoning"));
    assert!(contains_text("abc", ""));
    assert!(!contains_text("ab", "abc"));
    assert!(!contains_text("acb", "ab"));
}

#[test]
fn ascii_capitals_alone_are_lowered() {
    assert_eq!(to_ascii_lowercase("Stream_OPTIONS É"), "stream_options É");
}

#[test]
fn numbers_are_written_in_decimal() {
    assert_eq!(decimal_text(0), "0");
    assert_eq!(decimal_text(10), "10");
    assert_eq!(decimal_text(u64::MAX), "18446744073709551615");
    assert_eq!(spaces_text(3), "   ");
}

#[test]
fn characters_take_one_to_four_bytes() {
    for c in ['a', 'é', '日', '😀', '\u{7f}', '\u{80}', '\u{7ff}', '\u{800}', '\u{ffff}'] {
        assert_eq!(char_bytes_count(c), c.len_utf8());
    }
}

#[test]
fn documents_are_read() {
    let json = parse(r#" {"b": [1, -2, 2.5, "x", null, true], "a": {}} "#).unwrap();
    // The fields come in the order of their names.
    let expected = Json::object().with("a", Json::object()).with(
        "b",
        Json::Array(vec![
            Json::Unsigned(1),
            Json::Number("-2".to_string()),
            Json::Number("2.5".to_string()),
            Json::text("x"),
            Json::Null,
            Json::Bool(true),
        ]),
    );
    assert_eq!(json, expected);
    assert_eq!(parse("{"), None);
    assert_eq!(parse(""), None);
    assert_eq!(parse("[DONE]"), None);
    assert_eq!(parse("18446744073709551615"), Some(Json::Unsigned(u64::MAX)));
    // Of two fields of one name the last one holds.
    assert_eq!(parse(r#"{"a":1,"a":2}"#).unwrap().get("a"), Some(&Json::Unsigned(2)));
}

#[test]
fn values_are_taken_apart() {
    assert_eq!(from_value(serde_json::Value::Null), Json::Null);
    let list = serde_json::Value::from(vec![1u64, 2]);
    assert_eq!(from_value(list), Json::Array(vec![Json::Unsigned(1), Json::Unsigned(2)]));
}

#[test]
fn documents_are_looked_into() {
    let json = parse(r#"{"a":["x",7],"n":null}"#).unwrap();
    let a = json.get("a").unwrap();
    assert_eq!(a.item(0).unwrap().as_str(), Some("x"));
    assert_eq!(a.item(1).unwrap().as_u64(), Some(7));
    assert_eq!(a.item(1).unwrap().as_str(), None);
    assert_eq!(a.item(0).unwrap().as_u64(), None);
    assert!(a.item(2).is_none());
    assert!(a.get("a").is_none());
    assert!(json.item(0).is_none());
    assert_eq!(a.as_array().unwrap().len(), 2);
    assert!(json.as_array().is_none());
    assert!(json.is_object() && !a.is_object());
    assert!(json.get("n").unwrap().is_null());
    assert_eq!(json.without("a"), Json::object().with("n", Json::Null));
}

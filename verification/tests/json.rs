use zedit::syntax::json_parser::JsonValue;

#[test]
fn test_null() {
    assert!(matches!(JsonValue::parse("null").unwrap(), JsonValue::Null));
}

#[test]
fn test_booleans() {
    assert!(matches!(JsonValue::parse("true").unwrap(), JsonValue::Bool(true)));
    assert!(matches!(JsonValue::parse("false").unwrap(), JsonValue::Bool(false)));
}

#[test]
fn test_simple_string() {
    assert_eq!(
        JsonValue::parse(r#""hello""#).unwrap().as_str(),
        Some("hello")
    );
}

#[test]
fn test_string_escapes() {
    let val = JsonValue::parse(r#""a\nb\t\\\"\/""#).unwrap();
    assert_eq!(val.as_str(), Some("a\nb\t\\\"/"));
}

#[test]
fn test_unicode_escape() {
    let val = JsonValue::parse(r#""\u0041\u00e9""#).unwrap();
    assert_eq!(val.as_str(), Some("A\u{00e9}"));
}

#[test]
fn test_surrogate_pair() {
    // U+1F600 = D83D DE00
    let val = JsonValue::parse(r#""\uD83D\uDE00""#).unwrap();
    assert_eq!(val.as_str(), Some("\u{1F600}"));
}

#[test]
fn test_empty_array() {
    let val = JsonValue::parse("[]").unwrap();
    assert_eq!(val.as_array().unwrap().len(), 0);
}

#[test]
fn test_nested_array() {
    let val = JsonValue::parse("[1, [2, 3], []]").unwrap();
    let arr = val.as_array().unwrap();
    assert_eq!(arr.len(), 3);
    assert_eq!(arr[1].as_array().unwrap().len(), 2);
}

#[test]
fn test_empty_object() {
    let val = JsonValue::parse("{}").unwrap();
    assert_eq!(val.as_object().unwrap().len(), 0);
}

#[test]
fn test_object_order_preserved() {
    let val = JsonValue::parse(r#"{"z": 1, "a": 2, "m": 3}"#).unwrap();
    let pairs = val.as_object().unwrap();
    assert_eq!(pairs[0].0, "z");
    assert_eq!(pairs[1].0, "a");
    assert_eq!(pairs[2].0, "m");
}

#[test]
fn test_accessor_miss() {
    let val = JsonValue::parse("42").unwrap();
    assert_eq!(val.as_str(), None);
    assert_eq!(val.as_bool(), None);
    assert!(val.as_array().is_none());
    assert!(val.as_object().is_none());
    assert!(val.get("x").is_none());
}

#[test]
fn test_error_unexpected_eof() {
    assert!(JsonValue::parse("").is_err());
    assert!(JsonValue::parse("[1,").is_err());
}

#[test]
fn test_error_invalid_token() {
    assert!(JsonValue::parse("tru").is_err());
    assert!(JsonValue::parse("nulx").is_err());
}

#[test]
fn test_error_trailing_content() {
    assert!(JsonValue::parse("1 2").is_err());
}

#[test]
fn test_textmate_grammar_snippet() {
    let json = r#"{
        "name": "source.example",
        "scopeName": "source.example",
        "patterns": [
            {
                "match": "\\b(if|else|while)\\b",
                "name": "keyword.control"
            },
            {
                "begin": "\"",
                "end": "\"",
                "name": "string.quoted.double",
                "patterns": [
                    {"match": "\\\\.", "name": "constant.character.escape"}
                ]
            }
        ],
        "repository": {
            "comments": {
                "match": "//.*$",
                "name": "comment.line"
            }
        }
    }"#;
    let val = JsonValue::parse(json).unwrap();
    assert_eq!(val.get("name").unwrap().as_str(), Some("source.example"));
    let patterns = val.get("patterns").unwrap().as_array().unwrap();
    assert_eq!(patterns.len(), 2);
    assert_eq!(
        patterns[0].get("name").unwrap().as_str(),
        Some("keyword.control")
    );
    let inner = patterns[1].get("patterns").unwrap().as_array().unwrap();
    assert_eq!(inner.len(), 1);
    let repo = val.get("repository").unwrap();
    assert!(repo.get("comments").is_some());
}

#[test]
fn numbers_keep_their_text() {
    let val = JsonValue::parse("[-2.5E-3, 0, 42]").unwrap();
    let arr = val.as_array().unwrap();
    match &arr[0] {
        JsonValue::Number(t) => assert_eq!(t, "-2.5E-3"),
        _ => panic!("expected a number"),
    }
    match &arr[2] {
        JsonValue::Number(t) => assert_eq!(t, "42"),
        _ => panic!("expected a number"),
    }
}

#[test]
fn duplicate_keys_first_wins_on_get() {
    let val = JsonValue::parse(r#"{"k": 1, "k": true}"#).unwrap();
    assert!(matches!(val.get("k").unwrap(), JsonValue::Number(_)));
    assert_eq!(val.as_object().unwrap().len(), 2);
}

#[test]
fn errors_name_their_cause() {
    let e = JsonValue::parse("1 2").unwrap_err();
    assert!(!e.is_empty());
    assert!(JsonValue::parse("01x").is_err());
    assert!(JsonValue::parse("\"abc").is_err());
    assert!(JsonValue::parse("\"\\q\"").is_err());
    assert!(JsonValue::parse("1.").is_err());
    assert!(JsonValue::parse("1e").is_err());
    assert!(JsonValue::parse("{\"a\" 1}").is_err());
    assert!(JsonValue::parse("\"\\uD83D\"").is_err());
}

#[test]
fn whitespace_around_values() {
    let val = JsonValue::parse(" \t\n{ \"a\" : [ true , false ] }\r\n").unwrap();
    let a = val.get("a").unwrap().as_array().unwrap();
    assert_eq!(a[0].as_bool(), Some(true));
    assert_eq!(a[1].as_bool(), Some(false));
}

#[test]
fn pretty_writing_escapes_and_indents() {
    let v = JsonValue::parse(r#"{"a": [1, "q\"\n\u0001"], "b": {}, "c": []}"#).unwrap();
    let text = v.to_json_pretty(2);
    assert_eq!(
        text,
        "{\n  \"a\": [\n    1,\n    \"q\\\"\\n\\u0001\"\n  ],\n  \"b\": {},\n  \"c\": []\n}"
    );
    let back = JsonValue::parse(&text).unwrap();
    assert_eq!(back.get("a").unwrap().as_array().unwrap()[1].as_str(), Some("q\"\n\u{1}"));
    assert_eq!(JsonValue::parse("null").unwrap().to_json_pretty(4), "null");
}

#[test]
fn clone_keeps_the_value() {
    let v = JsonValue::parse(r#"{"k": [true, null, "s", 2]}"#).unwrap();
    let c = v.clone();
    assert_eq!(c.to_json_pretty(0), v.to_json_pretty(0));
}

//! Parsing and serializing JSON documents.

use mcp_proxy_tool::json::{chars_of, json_to_text, parse_document, Json};

fn cv(s: &str) -> Vec<char> {
    s.chars().collect()
}

fn rt(s: &str) -> Option<String> {
    parse_document(&cv(s)).map(|v| json_to_text(&v).into_iter().collect())
}

#[test]
fn parses_scalars() {
    assert_eq!(rt("null"), Some("null".to_string()));
    assert_eq!(rt("true"), Some("true".to_string()));
    assert_eq!(rt("false"), Some("false".to_string()));
    assert_eq!(rt("0"), Some("0".to_string()));
    assert_eq!(rt("-12"), Some("-12".to_string()));
    assert_eq!(rt("\"hi\""), Some("\"hi\"".to_string()));
}

#[test]
fn number_lexemes_stay_verbatim() {
    assert_eq!(rt("1.50e2"), Some("1.50e2".to_string()));
    assert_eq!(rt("-0.5"), Some("-0.5".to_string()));
    assert_eq!(rt("1E+10"), Some("1E+10".to_string()));
}

#[test]
fn whitespace_around_and_inside_is_insignificant() {
    assert_eq!(
        rt("  { \"a\" : [ 1 , 2 ] , \"b\" : { } }\r\n"),
        Some("{\"a\":[1,2],\"b\":{}}".to_string())
    );
}

#[test]
fn string_escapes_decode_and_reencode() {
    assert_eq!(rt("\"a\\u0041b\""), Some("\"aAb\"".to_string()));
    assert_eq!(rt("\"q\\\"w\\\\e\\/r\""), Some("\"q\\\"w\\\\e/r\"".to_string()));
    assert_eq!(rt("\"x\\n\\t\\r\\b\\fy\""), Some("\"x\\n\\t\\r\\b\\fy\"".to_string()));
    // A control character comes back as a four-digit escape.
    assert_eq!(rt("\"\\u0001\""), Some("\"\\u0001\"".to_string()));
}

#[test]
fn surrogate_pairs_combine() {
    let out = rt("\"\\ud83d\\ude00\"").unwrap();
    assert_eq!(out, "\"\u{1F600}\"");
}

#[test]
fn lone_surrogates_are_rejected() {
    assert_eq!(rt("\"\\ud83d\""), None);
    assert_eq!(rt("\"\\ude00x\""), None);
}

#[test]
fn malformed_documents_are_rejected() {
    assert_eq!(rt(""), None);
    assert_eq!(rt("   "), None);
    assert_eq!(rt("{"), None);
    assert_eq!(rt("{\"a\":}"), None);
    assert_eq!(rt("[1,]"), None);
    assert_eq!(rt("01"), None);
    assert_eq!(rt("1 2"), None);
    assert_eq!(rt("nul"), None);
    assert_eq!(rt("\"unterminated"), None);
    assert_eq!(rt("{\"a\" 1}"), None);
}

#[test]
fn nested_structures_round_trip() {
    let s = "{\"a\":[{\"b\":[[]],\"c\":null},-1.5,\"d\"],\"e\":{\"f\":{\"g\":true}}}";
    assert_eq!(rt(s), Some(s.to_string()));
}

#[test]
fn duplicate_keys_are_kept_in_order() {
    let s = "{\"a\":1,\"a\":2}";
    assert_eq!(rt(s), Some(s.to_string()));
}

#[test]
fn chars_of_matches_str() {
    let v = chars_of("abc\u{00e9}");
    assert_eq!(v, vec!['a', 'b', 'c', '\u{00e9}']);
}

#[test]
fn serializes_built_values() {
    let j = Json::Arr(vec![Json::Null, Json::Bool(true), Json::Str(cv("x"))]);
    let out: String = json_to_text(&j).into_iter().collect();
    assert_eq!(out, "[null,true,\"x\"]");
}

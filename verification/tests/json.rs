use laya_candle::json::{
    collect_object, compact_text, from_serde, object, parse_json, pretty_text, push_pair, text_of,
    to_serde,
};
use laya_candle::object::find;
use laya_candle::value::JsonValue;

fn string(s: &str) -> JsonValue {
    JsonValue::String(s.to_string())
}

fn number(n: i64) -> JsonValue {
    JsonValue::Number(serde_json::Number::from(n))
}

fn float(x: f64) -> JsonValue {
    JsonValue::Number(serde_json::Number::from_f64(x).unwrap())
}

fn parse(text: &str) -> JsonValue {
    parse_json(text).unwrap()
}

#[test]
fn objects_are_ordered_by_key() {
    let pairs = vec![
        ("b".to_string(), number(1)),
        ("a".to_string(), number(2)),
        ("\u{e9}".to_string(), number(3)),
        ("B".to_string(), number(4)),
        ("ab".to_string(), number(5)),
    ];
    let entries = collect_object(&pairs);
    let keys: Vec<&str> = entries.iter().map(|e| e.0.as_str()).collect();
    assert_eq!(keys, vec!["B", "a", "ab", "b", "\u{e9}"]);
}

#[test]
fn keys_beyond_the_basic_plane_come_last() {
    let pairs = vec![
        ("\u{1f600}".to_string(), number(1)),
        ("\u{ffee}".to_string(), number(2)),
    ];
    let entries = collect_object(&pairs);
    assert_eq!(entries[0].0, "\u{ffee}");
    assert_eq!(entries[1].0, "\u{1f600}");
}

#[test]
fn last_pair_with_a_key_counts() {
    let pairs = vec![
        ("k".to_string(), number(1)),
        ("j".to_string(), number(2)),
        ("k".to_string(), number(3)),
    ];
    let entries = collect_object(&pairs);
    assert_eq!(entries.len(), 2);
    assert_eq!(find(&entries, "k"), Some(&number(3)));
    assert_eq!(find(&entries, "j"), Some(&number(2)));
    assert_eq!(find(&entries, "i"), None);
}

#[test]
fn no_pairs_make_an_empty_object() {
    let none: Vec<(String, JsonValue)> = vec![];
    assert_eq!(object(&none), JsonValue::Object(vec![]));
    assert_eq!(compact_text(&object(&none)), "{}");
}

#[test]
fn pairs_are_added_in_turn() {
    let mut pairs: Vec<(String, JsonValue)> = vec![];
    push_pair(&mut pairs, "x", JsonValue::Null);
    push_pair(&mut pairs, "a", JsonValue::Bool(true));
    assert_eq!(pairs[0], ("x".to_string(), JsonValue::Null));
    assert_eq!(pairs[1], ("a".to_string(), JsonValue::Bool(true)));
    assert_eq!(compact_text(&object(&pairs)), "{\"a\":true,\"x\":null}");
}

#[test]
fn scalars_are_written() {
    assert_eq!(compact_text(&JsonValue::Null), "null");
    assert_eq!(compact_text(&JsonValue::Bool(true)), "true");
    assert_eq!(compact_text(&JsonValue::Bool(false)), "false");
    assert_eq!(compact_text(&number(-12)), "-12");
    assert_eq!(compact_text(&float(0.5)), "0.5");
    assert_eq!(compact_text(&float(1.0)), "1.0");
}

#[test]
fn strings_are_escaped() {
    assert_eq!(compact_text(&string("a\"b\\c\n\u{1}\u{e9}")), "\"a\\\"b\\\\c\\n\\u0001\u{e9}\"");
}

#[test]
fn lists_and_objects_are_written_compactly() {
    let value = parse("{ \"b\": [1, 2.5, \"x\", null], \"a\": { } }");
    assert_eq!(compact_text(&value), "{\"a\":{},\"b\":[1,2.5,\"x\",null]}");
}

#[test]
fn plain_text_leaves_strings_bare() {
    assert_eq!(text_of(&string("as \"is\"")), "as \"is\"");
    assert_eq!(text_of(&JsonValue::Array(vec![string("a")])), "[\"a\"]");
    assert_eq!(text_of(&JsonValue::Null), "null");
}

#[test]
fn text_is_parsed() {
    assert_eq!(parse(" [true, {\"k\": \"v\"}] "), JsonValue::Array(vec![
        JsonValue::Bool(true),
        JsonValue::Object(vec![("k".to_string(), string("v"))]),
    ]));
    assert_eq!(parse("\"\\u00e9\""), string("\u{e9}"));
    assert_eq!(parse("{\"z\":1,\"a\":2,\"z\":3}"), JsonValue::Object(vec![
        ("a".to_string(), number(2)),
        ("z".to_string(), number(3)),
    ]));
}

#[test]
fn complaints_about_text_are_handed_on() {
    let e = parse_json("[1,").unwrap_err();
    assert_eq!(e, "EOF while parsing a value at line 1 column 3");
    assert!(parse_json("").is_err());
    assert!(parse_json("{'a': 1}").is_err());
}

#[test]
fn pretty_text_is_indented() {
    let value = parse("{\"b\":[1],\"a\":{}}");
    assert_eq!(pretty_text(&value).unwrap(), "{\n  \"a\": {},\n  \"b\": [\n    1\n  ]\n}");
}

#[test]
fn values_go_there_and_back() {
    let value = parse("[null,false,3,-0.25,\"s\",[],{\"k\":[{}]}]");
    let made = to_serde(&value);
    assert!(made.is_array());
    assert_eq!(made.as_array().unwrap().len(), 7);
    assert_eq!(made[2].as_i64(), Some(3));
    assert_eq!(made[6]["k"][0], serde_json::Value::Object(serde_json::Map::new()));
    assert_eq!(from_serde(&made), value);
}

#[test]
fn copies_are_equal() {
    let value = parse("{\"a\":[1,\"x\",{\"b\":null}]}");
    assert_eq!(value.clone(), value);
}

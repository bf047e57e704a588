use json_split_aom::name::filename;
use json_split_aom::render::json;
use json_split_aom::value::JsonValue;

fn s(x: &str) -> String {
    x.to_string()
}

fn obj(members: Vec<(&str, JsonValue)>) -> JsonValue {
    JsonValue::Obj(members.into_iter().map(|(k, v)| (s(k), v)).collect())
}

fn num(x: &str) -> JsonValue {
    JsonValue::Num(s(x))
}

#[test]
fn compact_scalars() {
    assert_eq!(json(&JsonValue::Null, false), "null");
    assert_eq!(json(&JsonValue::Bool(true), false), "true");
    assert_eq!(json(&JsonValue::Bool(false), false), "false");
    assert_eq!(json(&num("-12.5"), false), "-12.5");
    assert_eq!(json(&JsonValue::Str(s("hi")), false), "\"hi\"");
}

#[test]
fn compact_containers() {
    let v = obj(vec![
        ("a", JsonValue::Arr(vec![num("1"), JsonValue::Bool(true), JsonValue::Null])),
        ("b", obj(vec![])),
    ]);
    assert_eq!(json(&v, false), "{\"a\":[1,true,null],\"b\":{}}");
    assert_eq!(json(&JsonValue::Arr(vec![]), false), "[]");
}

#[test]
fn compact_escapes() {
    let v = JsonValue::Str(s("a\"b\\c\nd\te\r\u{8}\u{c}\u{1}f"));
    assert_eq!(json(&v, false), "\"a\\\"b\\\\c\\nd\\te\\r\\b\\f\\u0001f\"");
}

#[test]
fn pretty_containers() {
    let v = obj(vec![
        ("a", JsonValue::Arr(vec![num("1"), num("2")])),
        ("b", obj(vec![("c", JsonValue::Null)])),
        ("d", JsonValue::Arr(vec![])),
    ]);
    let expected = "{\n  \"a\": [\n    1,\n    2\n  ],\n  \"b\": {\n    \"c\": null\n  },\n  \"d\": []\n}";
    assert_eq!(json(&v, true), expected);
}

#[test]
fn pretty_scalar_is_compact() {
    assert_eq!(json(&num("3"), true), "3");
    assert_eq!(json(&JsonValue::Str(s("x")), true), "\"x\"");
}

#[test]
fn matches_serde_compact() {
    let text = "{\"b\":[1,2.5,{\"x\":null,\"y\":\"s\\n\"}],\"a\":true}";
    let theirs: serde_json::Value = serde_json::from_str(text).unwrap();
    let ours = json_split_aom::parse::parse_document(text).unwrap();
    assert_eq!(json(&ours, false), serde_json::to_string(&theirs).unwrap());
}

#[test]
fn matches_serde_pretty() {
    let text = "{\"b\":[1,2.5,{\"x\":null,\"y\":\"s\\n\"}],\"a\":true,\"e\":[],\"o\":{}}";
    let theirs: serde_json::Value = serde_json::from_str(text).unwrap();
    let ours = json_split_aom::parse::parse_document(text).unwrap();
    assert_eq!(json(&ours, true), serde_json::to_string_pretty(&theirs).unwrap());
}

#[test]
fn filename_deterministic() {
    let a = filename("Apple.Banana", "id", "12", ".json");
    assert_eq!(a, "Apple.Banana-id-12.json");
    let b = filename("Apple.Banana", "id", "12", ".json");
    assert_eq!(a, b);
}

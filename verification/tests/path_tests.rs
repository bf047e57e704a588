use json_split_aom::error::SplitError;
use json_split_aom::path::descend;
use json_split_aom::path::split_dotted_exec;
use json_split_aom::value::JsonValue;

fn s(x: &str) -> String {
    x.to_string()
}

fn obj(members: Vec<(&str, JsonValue)>) -> JsonValue {
    JsonValue::Obj(members.into_iter().map(|(k, v)| (s(k), v)).collect())
}

fn num(x: &str) -> JsonValue {
    JsonValue::Num(s(x))
}

#[test]
fn resolve_nested_value() {
    let doc = obj(vec![("A", obj(vec![("B", num("5"))]))]);
    let got = descend("A.B", &doc).unwrap();
    assert_eq!(*got, num("5"));
}

#[test]
fn resolve_single_segment() {
    let doc = obj(vec![("A", JsonValue::Bool(true))]);
    let got = descend("A", &doc).unwrap();
    assert_eq!(*got, JsonValue::Bool(true));
}

#[test]
fn empty_path_identity() {
    let values = vec![
        JsonValue::Null,
        JsonValue::Bool(false),
        num("12"),
        JsonValue::Str(s("hello")),
        JsonValue::Arr(vec![num("1")]),
        obj(vec![("k", JsonValue::Null)]),
    ];
    for v in values {
        let got = descend("", &v).unwrap();
        assert_eq!(*got, v);
    }
}

#[test]
fn missing_key_fails() {
    let doc = obj(vec![("A", obj(vec![]))]);
    let err = descend("A.B", &doc).unwrap_err();
    assert_eq!(err, SplitError::InvalidKey(s("B")));
}

#[test]
fn missing_top_key_fails() {
    let doc = obj(vec![("A", num("1"))]);
    let err = descend("B", &doc).unwrap_err();
    assert_eq!(err, SplitError::InvalidKey(s("B")));
}

#[test]
fn non_object_descent_fails() {
    let doc = obj(vec![("A", num("1"))]);
    let err = descend("A.B", &doc).unwrap_err();
    assert_eq!(err, SplitError::NotAnObject);
}

#[test]
fn split_keeps_empty_segments() {
    let segs = split_dotted_exec("A..B.");
    assert_eq!(segs, vec![s("A"), s(""), s("B"), s("")]);
}

#[test]
fn trailing_dot_looks_up_empty_key() {
    let doc = obj(vec![("A", obj(vec![("", num("1"))]))]);
    let got = descend("A.", &doc).unwrap();
    assert_eq!(*got, num("1"));
}

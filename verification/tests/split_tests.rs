use json_split_aom::error::SplitError;
use json_split_aom::parse::parse_document;
use json_split_aom::render::json;
use json_split_aom::split::SeenIds;
use json_split_aom::split::element_output;
use json_split_aom::split::get_array;
use json_split_aom::value::JsonValue;

fn s(x: &str) -> String {
    x.to_string()
}

#[test]
fn non_array_fails() {
    let doc = parse_document("{\"A\":5}").unwrap();
    let err = get_array(&doc, "A").unwrap_err();
    assert_eq!(err, SplitError::NotAnArray);
}

#[test]
fn array_found() {
    let doc = parse_document("{\"A\":{\"B\":[{\"id\":\"x\"}]}}").unwrap();
    let items = get_array(&doc, "A.B").unwrap();
    assert_eq!(items.len(), 1);
}

#[test]
fn collision_aborts() {
    let doc = parse_document("{\"a\":[{\"id\":\"x\"},{\"id\":\"x\"}]}").unwrap();
    let items = get_array(&doc, "a").unwrap();
    let mut seen = SeenIds::new();
    let first = element_output(&items[0], "a", "id", false, false, &mut seen).unwrap();
    assert_eq!(first.name, "a-id-x.json");
    assert!(!first.dupe);
    let err = element_output(&items[1], "a", "id", false, false, &mut seen).unwrap_err();
    assert_eq!(err, SplitError::IdCollision(s("x")));
}

#[test]
fn collision_tolerated_overwrites() {
    let doc = parse_document("{\"a\":[{\"id\":\"x\",\"n\":1},{\"id\":\"x\",\"n\":2}]}").unwrap();
    let items = get_array(&doc, "a").unwrap();
    let mut seen = SeenIds::new();
    let first = element_output(&items[0], "a", "id", false, true, &mut seen).unwrap();
    let second = element_output(&items[1], "a", "id", false, true, &mut seen).unwrap();
    assert!(!first.dupe);
    assert!(second.dupe);
    assert_eq!(first.name, second.name);
    assert_eq!(second.content, json(&items[1], false));
    assert_eq!(second.content, "{\"id\":\"x\",\"n\":2}");
}

#[test]
fn cross_file_collision() {
    let doc_one = parse_document("{\"a\":[{\"id\":\"same\"}]}").unwrap();
    let doc_two = parse_document("{\"a\":[{\"id\":\"same\"}]}").unwrap();
    let mut seen = SeenIds::new();
    let items_one = get_array(&doc_one, "a").unwrap();
    element_output(&items_one[0], "a", "id", false, false, &mut seen).unwrap();
    let items_two = get_array(&doc_two, "a").unwrap();
    let err = element_output(&items_two[0], "a", "id", false, false, &mut seen).unwrap_err();
    assert_eq!(err, SplitError::IdCollision(s("same")));
}

#[test]
fn id_not_string_fails() {
    let doc = parse_document("{\"a\":[{\"id\":7}]}").unwrap();
    let items = get_array(&doc, "a").unwrap();
    let mut seen = SeenIds::new();
    let err = element_output(&items[0], "a", "id", false, false, &mut seen).unwrap_err();
    assert_eq!(err, SplitError::IdNotString);
}

#[test]
fn id_path_missing_fails() {
    let doc = parse_document("{\"a\":[{\"other\":\"x\"}]}").unwrap();
    let items = get_array(&doc, "a").unwrap();
    let mut seen = SeenIds::new();
    let err = element_output(&items[0], "a", "id", false, false, &mut seen).unwrap_err();
    assert_eq!(err, SplitError::InvalidKey(s("id")));
}

#[test]
fn element_output_names_and_content() {
    let doc = parse_document("{\"A\":{\"B\":[{\"Cherry\":{\"id\":\"12\"},\"v\":null}]}}").unwrap();
    let items = get_array(&doc, "A.B").unwrap();
    let mut seen = SeenIds::new();
    let out = element_output(&items[0], "A.B", "Cherry.id", true, false, &mut seen).unwrap();
    assert_eq!(out.name, "A.B-Cherry.id-12.json");
    assert_eq!(out.content, json(&items[0], true));
}

#[test]
fn seen_ids_tracks_insertions() {
    let mut seen = SeenIds::new();
    assert!(!seen.contains(&s("a")));
    seen.insert(&s("a"));
    assert!(seen.contains(&s("a")));
    assert!(!seen.contains(&s("b")));
    seen.insert(&s("b"));
    assert!(seen.contains(&s("a")));
    assert!(seen.contains(&s("b")));
}

#[test]
fn empty_array_path_takes_whole_document() {
    let doc = parse_document("[{\"id\":\"x\"}]").unwrap();
    let items = get_array(&doc, "").unwrap();
    assert_eq!(items.len(), 1);
}

#[test]
fn empty_id_path_takes_whole_element() {
    let doc = parse_document("{\"a\":[\"x\"]}").unwrap();
    let items = get_array(&doc, "a").unwrap();
    let mut seen = SeenIds::new();
    let out = element_output(&items[0], "a", "", false, false, &mut seen).unwrap();
    assert_eq!(out.name, "a--x.json");
    assert_eq!(out.content, "\"x\"");
}

#[test]
fn parse_error_reported() {
    let err = parse_document("not json").unwrap_err();
    assert_eq!(err, SplitError::ParseError);
}

#[test]
fn parse_models_numbers_as_text() {
    let doc = parse_document("{\"n\":1.5,\"m\":3}").unwrap();
    match &doc {
        JsonValue::Obj(members) => {
            assert_eq!(members[0], (s("m"), JsonValue::Num(s("3"))));
            assert_eq!(members[1], (s("n"), JsonValue::Num(s("1.5"))));
        }
        other => panic!("expected an object, got {:?}", other),
    }
}

#[test]
fn round_trip_serialization() {
    let text = "{\"z\":[1,2.5,null,true,{\"k\":\"a\\nb\"}],\"y\":{\"w\":[]}}";
    for pretty in [false, true] {
        let first = json(&parse_document(text).unwrap(), pretty);
        let second = json(&parse_document(&first).unwrap(), pretty);
        assert_eq!(first, second);
    }
}

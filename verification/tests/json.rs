use grok_hooks::json::{Json, JsonObject};
use grok_hooks::wire::{compact_text, into_value, parse_json, parse_stream, pretty_text};

fn compact(json: Json) -> String {
    compact_text(json).unwrap()
}

#[test]
fn every_kind_of_value_survives_reading_and_writing() {
    let text = r#"{"a":[null,true,false,0,15,18446744073709551615,-1,-9223372036854775808,1.5,"x\n\u0000\"y"],"b":{"c":{}}}"#;
    assert_eq!(compact(parse_json(text).unwrap()), text);
}

#[test]
fn members_are_written_in_the_order_of_their_keys() {
    let mut object = JsonObject::new();
    object.insert("zeta", Json::unsigned(2));
    object.insert("alpha", Json::string("one"));
    assert_eq!(compact(Json::Object(object)), r#"{"alpha":"one","zeta":2}"#);
}

#[test]
fn pretty_text_is_indented_and_reads_back() {
    let json = parse_json(r#"{"hooks":{"Stop":[]}}"#).unwrap();
    let text = pretty_text(json).unwrap();
    assert_eq!(text, "{\n  \"hooks\": {\n    \"Stop\": []\n  }\n}");
    assert_eq!(compact(parse_json(&text).unwrap()), r#"{"hooks":{"Stop":[]}}"#);
}

#[test]
fn what_is_no_json_is_refused() {
    assert!(parse_json("").is_err());
    assert!(parse_json("{").is_err());
    assert!(parse_json("{} {}").is_err());
    assert!(parse_json("nul").is_err());
}

#[test]
fn nesting_is_read_up_to_its_limit() {
    let deep = |n: usize| format!("{}{}", "[".repeat(n), "]".repeat(n));
    assert_eq!(compact(parse_json(&deep(127)).unwrap()), deep(127));
    assert!(parse_json(&deep(128)).is_err());
}

#[test]
fn of_two_members_with_one_key_the_later_counts() {
    let json = parse_json(r#"{"a":1,"a":2}"#).unwrap();
    assert_eq!(compact(json), r#"{"a":2}"#);
}

#[test]
fn objects_insert_take_and_look_up() {
    let mut object = JsonObject::new();
    assert!(object.is_empty());
    object.insert("a", Json::Null);
    object.insert("a", Json::Bool(true));
    object.insert("b", Json::string("x"));
    assert!(!object.is_empty());
    assert!(matches!(object.get("a"), Some(Json::Bool(true))));
    assert!(object.get("c").is_none());
    assert!(object.has_key_besides("a", "c"));
    assert!(!object.has_key_besides("a", "b"));
    assert!(matches!(object.take("a"), Some(Json::Bool(true))));
    assert!(object.take("a").is_none());
    assert_eq!(compact(Json::Object(object)), r#"{"b":"x"}"#);
}

#[test]
fn a_clone_is_equal_and_apart() {
    let json = parse_json(r#"{"a":[1.25,{"b":"c"}]}"#).unwrap();
    let copy = json.clone();
    assert_eq!(compact(copy), compact(json));
}

#[test]
fn members_of_a_value() {
    let json = parse_json(r#"{"s":"t","n":1,"l":["x"]}"#).unwrap();
    assert_eq!(json.str_at("s"), Some("t"));
    assert_eq!(json.str_at("n"), None);
    assert_eq!(json.str_at("missing"), None);
    assert_eq!(json.array_at("l").map(|l| l.len()), Some(1));
    assert!(json.array_at("s").is_none());
    assert!(json.get("l").unwrap().as_array().unwrap()[0].as_str() == Some("x"));
    assert!(Json::Null.get("s").is_none());
}

#[test]
fn entries_go_out_and_in() {
    let mut object = JsonObject::new();
    object.insert("k", Json::unsigned(7));
    let entries = object.into_entries();
    assert_eq!(entries.len(), 1);
    assert_eq!(entries[0].0, "k");
    assert_eq!(compact(Json::Object(JsonObject::from_entries(entries))), r#"{"k":7}"#);
}

#[test]
fn a_stream_is_read_like_a_text() {
    let text = r#"{"a":[null,true,-1,1.5,"\u00e9"],"b":{}}"#;
    let json = parse_stream(&text.as_bytes().to_vec()).unwrap();
    assert_eq!(compact(json), compact(parse_json(text).unwrap()));
    assert!(parse_stream(&vec![b'"', 0xff, b'"']).is_err());
    assert!(parse_stream(&vec![]).is_err());
}

#[test]
fn a_value_in_the_form_of_serde_json() {
    let text = r#"{"b":[1,-2,2.5,null,true,"x"],"a":{"c":{}}}"#;
    let value: serde_json::Value = serde_json::from_str(text).unwrap();
    assert_eq!(into_value(parse_json(text).unwrap()), value);
}

use chatbox::json::{comment_event_of, json_string_array_of, json_string_of, room_detail_json_of};

#[test]
fn plain_string_literal() {
    assert_eq!(json_string_of("hello"), "\"hello\"");
    assert_eq!(json_string_of(""), "\"\"");
}

#[test]
fn quote_and_backslash_are_escaped() {
    let encoded = json_string_of("a\"b\\c");
    assert_eq!(encoded, "\"a\\\"b\\\\c\"");
    let back: String = serde_json::from_str(&encoded).unwrap();
    assert_eq!(back, "a\"b\\c");
}

#[test]
fn control_characters_are_escaped() {
    let encoded = json_string_of("line\nbreak\tand\u{1}end");
    assert_eq!(encoded, "\"line\\u000abreak\\u0009and\\u0001end\"");
    let back: String = serde_json::from_str(&encoded).unwrap();
    assert_eq!(back, "line\nbreak\tand\u{1}end");
}

#[test]
fn non_ascii_passes_through() {
    let encoded = json_string_of("héllo ✓");
    assert_eq!(encoded, "\"héllo ✓\"");
    let back: String = serde_json::from_str(&encoded).unwrap();
    assert_eq!(back, "héllo ✓");
}

#[test]
fn string_arrays() {
    assert_eq!(json_string_array_of(&vec![]), "[]");
    assert_eq!(json_string_array_of(&vec![String::from("one")]), "[\"one\"]");
    assert_eq!(
        json_string_array_of(&vec![String::from("one"), String::from("two")]),
        "[\"one\",\"two\"]"
    );
    let back: Vec<String> = serde_json::from_str(&json_string_array_of(&vec![
        String::from("a,b"),
        String::from("c\"d"),
    ]))
    .unwrap();
    assert_eq!(back, vec![String::from("a,b"), String::from("c\"d")]);
}

#[test]
fn comment_event_shape() {
    assert_eq!(
        comment_event_of("lobby", "hi"),
        "{\"topic\":\"comment\",\"room\":\"lobby\",\"comment\":\"hi\"}"
    );
}

#[test]
fn comment_event_survives_hostile_text() {
    let event = comment_event_of("lo\"bby", "hi\",\"comment\":\"forged");
    let parsed: serde_json::Value = serde_json::from_str(&event).unwrap();
    assert_eq!(parsed["topic"].as_str().unwrap(), "comment");
    assert_eq!(parsed["room"].as_str().unwrap(), "lo\"bby");
    assert_eq!(parsed["comment"].as_str().unwrap(), "hi\",\"comment\":\"forged");
    assert_eq!(parsed.as_object().unwrap().len(), 3);
}

#[test]
fn room_detail_shape() {
    let detail = room_detail_json_of(
        "den",
        &vec![String::from("alice")],
        &vec![String::from("hi"), String::from("yo")],
    );
    assert_eq!(
        detail,
        "{\"name\":\"den\",\"members\":[\"alice\"],\"comments\":[\"hi\",\"yo\"]}"
    );
    let parsed: serde_json::Value = serde_json::from_str(&detail).unwrap();
    assert_eq!(parsed["comments"][1].as_str().unwrap(), "yo");
}

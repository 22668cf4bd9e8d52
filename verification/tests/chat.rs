use chatbox::chatbox::{ChatBox, RoomSelection};
use chatbox::rooms::CreateStatus;

fn sel(room: &str) -> RoomSelection {
    RoomSelection { room: String::from(room) }
}

#[test]
fn lobby_scenario() {
    let mut cb = ChatBox::new();
    assert_eq!(cb.create_room(&sel("lobby")), CreateStatus::Created);
    assert!(cb.post_comment(&sel("lobby"), String::from("hi")).is_some());
    assert_eq!(cb.comments_json(&sel("lobby")).unwrap(), "[\"hi\"]");
    assert!(cb.post_comment(&sel("lobby"), String::from("yo")).is_some());
    assert_eq!(cb.comments_json(&sel("lobby")).unwrap(), "[\"hi\",\"yo\"]");
    assert!(cb.comments_json(&sel("absent")).is_none());
    assert_eq!(ChatBox::missing_room_message(), "That room does not exist");
}

#[test]
fn create_room_idempotent() {
    let mut cb = ChatBox::new();
    assert_eq!(cb.create_room(&sel("den")), CreateStatus::Created);
    assert!(cb.post_comment(&sel("den"), String::from("first")).is_some());
    assert_eq!(cb.join_room(&sel("den"), String::from("alice")), Some(true));
    let comments_before = cb.comments_json(&sel("den")).unwrap();
    let room_before = cb.room_json(&sel("den")).unwrap();
    assert_eq!(cb.create_room(&sel("den")), CreateStatus::AlreadyExists);
    assert_eq!(cb.comments_json(&sel("den")).unwrap(), comments_before);
    assert_eq!(cb.room_json(&sel("den")).unwrap(), room_before);
}

#[test]
fn isolation_between_rooms() {
    let mut cb = ChatBox::new();
    cb.create_room(&sel("a"));
    cb.create_room(&sel("b"));
    cb.join_room(&sel("b"), String::from("bob"));
    assert!(cb.post_comment(&sel("b"), String::from("kept")).is_some());
    let b_before = cb.room_json(&sel("b")).unwrap();
    assert!(cb.post_comment(&sel("a"), String::from("noise")).is_some());
    assert!(cb.post_comment(&sel("a"), String::from("more noise")).is_some());
    assert_eq!(cb.room_json(&sel("b")).unwrap(), b_before);
    assert_eq!(cb.comments_json(&sel("b")).unwrap(), "[\"kept\"]");
}

#[test]
fn fanout_one_of_two_members() {
    let mut cb = ChatBox::new();
    cb.create_room(&sel("park"));
    assert_eq!(cb.join_room(&sel("park"), String::from("m1")), Some(true));
    assert_eq!(cb.join_room(&sel("park"), String::from("m2")), Some(true));
    cb.register_connection(String::from("m1"), 7);
    let deliveries = cb.post_comment(&sel("park"), String::from("hi")).unwrap();
    assert_eq!(deliveries.len(), 1);
    assert_eq!(deliveries[0].handle, 7);
    assert_eq!(
        deliveries[0].payload,
        "{\"topic\":\"comment\",\"room\":\"park\",\"comment\":\"hi\"}"
    );
    assert_eq!(cb.comments_json(&sel("park")).unwrap(), "[\"hi\"]");
}

#[test]
fn fanout_skips_unregistered_after_disconnect() {
    let mut cb = ChatBox::new();
    cb.create_room(&sel("park"));
    cb.join_room(&sel("park"), String::from("m1"));
    cb.register_connection(String::from("m1"), 3);
    cb.register_connection(String::from("m1"), 9);
    let deliveries = cb.post_comment(&sel("park"), String::from("x")).unwrap();
    assert_eq!(deliveries.len(), 1);
    assert_eq!(deliveries[0].handle, 9);
    cb.unregister_connection(&String::from("m1"));
    let deliveries = cb.post_comment(&sel("park"), String::from("y")).unwrap();
    assert_eq!(deliveries.len(), 0);
}

#[test]
fn append_only_in_call_order() {
    let mut cb = ChatBox::new();
    cb.create_room(&sel("log"));
    let mut previous_len = 0;
    for k in 0..10 {
        assert!(cb.post_comment(&sel("log"), format!("entry {}", k)).is_some());
        let parsed: Vec<String> =
            serde_json::from_str(&cb.comments_json(&sel("log")).unwrap()).unwrap();
        assert!(parsed.len() >= previous_len);
        previous_len = parsed.len();
    }
    let parsed: Vec<String> =
        serde_json::from_str(&cb.comments_json(&sel("log")).unwrap()).unwrap();
    assert_eq!(parsed.len(), 10);
    for k in 0..10 {
        assert_eq!(parsed[k], format!("entry {}", k));
    }
}

#[test]
fn post_to_missing_room_changes_nothing() {
    let mut cb = ChatBox::new();
    cb.create_room(&sel("only"));
    assert!(cb.post_comment(&sel("ghost"), String::from("lost")).is_none());
    assert_eq!(cb.room_list_json(), "[{\"name\":\"only\",\"members\":[]}]");
    assert_eq!(cb.comments_json(&sel("only")).unwrap(), "[]");
}

#[test]
fn join_room_is_a_set() {
    let mut cb = ChatBox::new();
    cb.create_room(&sel("club"));
    assert_eq!(cb.join_room(&sel("club"), String::from("kim")), Some(true));
    assert_eq!(cb.join_room(&sel("club"), String::from("kim")), Some(false));
    assert_eq!(cb.join_room(&sel("ghost"), String::from("kim")), None);
    assert_eq!(
        cb.room_json(&sel("club")).unwrap(),
        "{\"name\":\"club\",\"members\":[\"kim\"],\"comments\":[]}"
    );
}

#[test]
fn room_list_empty_is_valid_json() {
    let cb = ChatBox::new();
    let listed = cb.room_list_json();
    assert_eq!(listed, "[]");
    let parsed: Vec<serde_json::Value> = serde_json::from_str(&listed).unwrap();
    assert!(parsed.is_empty());
}

#[test]
fn room_list_two_rooms() {
    let mut cb = ChatBox::new();
    cb.create_room(&sel("a"));
    cb.create_room(&sel("b"));
    cb.join_room(&sel("b"), String::from("m"));
    let listed = cb.room_list_json();
    assert_eq!(
        listed,
        "[{\"name\":\"a\",\"members\":[]},{\"name\":\"b\",\"members\":[\"m\"]}]"
    );
    let parsed: serde_json::Value = serde_json::from_str(&listed).unwrap();
    assert_eq!(parsed[0]["name"].as_str().unwrap(), "a");
    assert_eq!(parsed[1]["members"][0].as_str().unwrap(), "m");
}

#[test]
fn room_primitives() {
    let mut room = chatbox::room::Room::new(String::from("den"));
    assert!(room.snapshot_comments().is_empty());
    assert!(room.snapshot_members().is_empty());
    room.add_comment(String::from("hi"));
    room.add_comment(String::from("yo"));
    assert_eq!(room.snapshot_comments(), vec![String::from("hi"), String::from("yo")]);
    assert!(room.add_member(String::from("kim")));
    assert!(!room.add_member(String::from("kim")));
    assert_eq!(room.snapshot_members(), vec![String::from("kim")]);
}

#[test]
fn connection_registry_resolves_live_handles_only() {
    let mut registry = chatbox::connections::ConnectionRegistry::new();
    assert_eq!(registry.resolve(&String::from("kim")), None);
    registry.register(String::from("kim"), 4);
    registry.register(String::from("ada"), 5);
    assert_eq!(registry.resolve(&String::from("kim")), Some(4));
    registry.register(String::from("kim"), 6);
    assert_eq!(registry.resolve(&String::from("kim")), Some(6));
    registry.unregister(&String::from("kim"));
    assert_eq!(registry.resolve(&String::from("kim")), None);
    assert_eq!(registry.resolve(&String::from("ada")), Some(5));
}

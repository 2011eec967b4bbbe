use rably::json::JsonValue;
use rably::protocol::ActionKind;
use rably::protocol::Role;
use rably::protocol::parse_client_message;

fn obj(pairs: Vec<(&str, JsonValue)>) -> JsonValue {
    JsonValue::Obj(pairs.into_iter().map(|(k, v)| (k.to_owned(), v)).collect())
}

fn s(text: &str) -> JsonValue {
    JsonValue::Str(text.to_owned())
}

#[test]
fn parses_subscribe_with_role() {
    let msg = parse_client_message(obj(vec![
        ("action", s("subscribe")),
        ("channel", s("room")),
        ("role", s("teacher")),
    ]))
    .unwrap();
    assert_eq!(msg.action, ActionKind::Subscribe);
    assert_eq!(msg.channel, "room");
    assert_eq!(msg.role, Some(Role::Teacher));
    assert!(msg.data.is_none());
}

#[test]
fn role_defaults_by_absence_and_null() {
    let msg = parse_client_message(obj(vec![
        ("action", s("publish")),
        ("channel", s("room")),
    ]))
    .unwrap();
    assert_eq!(msg.role, None);
    let msg = parse_client_message(obj(vec![
        ("action", s("publish")),
        ("channel", s("room")),
        ("role", JsonValue::Null),
    ]))
    .unwrap();
    assert_eq!(msg.role, None);
}

#[test]
fn keeps_payload_and_drops_null_payload() {
    let msg = parse_client_message(obj(vec![
        ("action", s("publish")),
        ("channel", s("room")),
        ("data", obj(vec![("slide", JsonValue::Int(3))])),
    ]))
    .unwrap();
    assert!(matches!(msg.data, Some(JsonValue::Obj(_))));
    let msg = parse_client_message(obj(vec![
        ("action", s("publish")),
        ("channel", s("room")),
        ("data", JsonValue::Null),
    ]))
    .unwrap();
    assert!(msg.data.is_none());
}

#[test]
fn unrecognized_action_is_kept_as_unknown() {
    let msg = parse_client_message(obj(vec![
        ("action", s("shout")),
        ("channel", s("room")),
    ]))
    .unwrap();
    assert_eq!(msg.action, ActionKind::Unknown);
}

#[test]
fn malformed_messages_are_dropped() {
    assert!(parse_client_message(JsonValue::Int(3)).is_none());
    assert!(parse_client_message(JsonValue::Arr(vec![])).is_none());
    // missing channel
    assert!(parse_client_message(obj(vec![("action", s("publish"))])).is_none());
    // action not a string
    assert!(
        parse_client_message(obj(vec![("action", JsonValue::Int(1)), ("channel", s("r"))]))
            .is_none()
    );
    // role outside the enum
    assert!(parse_client_message(obj(vec![
        ("action", s("subscribe")),
        ("channel", s("r")),
        ("role", s("admin")),
    ]))
    .is_none());
    // role of the wrong shape
    assert!(parse_client_message(obj(vec![
        ("action", s("subscribe")),
        ("channel", s("r")),
        ("role", JsonValue::Bool(true)),
    ]))
    .is_none());
}

#[test]
fn repeated_keys_let_the_last_one_win() {
    let msg = parse_client_message(obj(vec![
        ("action", s("publish")),
        ("channel", s("first")),
        ("channel", s("second")),
    ]))
    .unwrap();
    assert_eq!(msg.channel, "second");
}

use rably::json::JsonValue;
use rably::json::encode_json;
use rably::protocol::ClientInfo;
use rably::protocol::EventKind;
use rably::protocol::Role;
use rably::protocol::ServerMessage;
use rably::protocol::encode_server_message;
use rably::surface::health_json;
use rably::surface::presence_json;

#[test]
fn encodes_scalars() {
    assert_eq!(encode_json(&JsonValue::Null), "null");
    assert_eq!(encode_json(&JsonValue::Bool(true)), "true");
    assert_eq!(encode_json(&JsonValue::Bool(false)), "false");
    assert_eq!(encode_json(&JsonValue::Int(0)), "0");
    assert_eq!(encode_json(&JsonValue::Int(-42)), "-42");
    assert_eq!(encode_json(&JsonValue::Int(i64::MAX)), "9223372036854775807");
    assert_eq!(encode_json(&JsonValue::Int(i64::MIN)), "-9223372036854775808");
}

#[test]
fn encodes_strings_with_escapes() {
    assert_eq!(encode_json(&JsonValue::Str("plain".to_owned())), "\"plain\"");
    assert_eq!(
        encode_json(&JsonValue::Str("a\"b\\c\nd\re\tf".to_owned())),
        "\"a\\\"b\\\\c\\nd\\re\\tf\""
    );
    assert_eq!(encode_json(&JsonValue::Str("\u{1}\u{1f}".to_owned())), "\"\\u0001\\u001f\"");
    assert_eq!(encode_json(&JsonValue::Str("\u{8}\u{c}".to_owned())), "\"\\b\\f\"");
    assert_eq!(encode_json(&JsonValue::Str("héllo ∀".to_owned())), "\"héllo ∀\"");
}

#[test]
fn relays_number_tokens_beyond_i64() {
    assert_eq!(encode_json(&JsonValue::Num("2.5".to_owned())), "2.5");
    assert_eq!(encode_json(&JsonValue::Num("1e10".to_owned())), "1e10");
    assert_eq!(
        encode_json(&JsonValue::Num("18446744073709551615".to_owned())),
        "18446744073709551615"
    );
    let doc = JsonValue::Obj(vec![("ratio".to_owned(), JsonValue::Num("0.75".to_owned()))]);
    assert_eq!(encode_json(&doc), "{\"ratio\":0.75}");
}

#[test]
fn encodes_nested_structures() {
    let doc = JsonValue::Obj(vec![
        ("items".to_owned(), JsonValue::Arr(vec![
            JsonValue::Int(1),
            JsonValue::Str("two".to_owned()),
            JsonValue::Arr(vec![]),
        ])),
        ("empty".to_owned(), JsonValue::Obj(vec![])),
        ("deep".to_owned(), JsonValue::Obj(vec![(
            "k".to_owned(),
            JsonValue::Null,
        )])),
    ]);
    assert_eq!(
        encode_json(&doc),
        "{\"items\":[1,\"two\",[]],\"empty\":{},\"deep\":{\"k\":null}}"
    );
}

#[test]
fn encodes_server_message() {
    let msg = ServerMessage {
        kind: EventKind::SlideChange,
        channel: "lecture1".to_owned(),
        data: JsonValue::Obj(vec![("slide".to_owned(), JsonValue::Int(3))]),
        timestamp: 1700000000,
    };
    assert_eq!(
        encode_server_message(&msg),
        "{\"type\":\"slide_change\",\"channel\":\"lecture1\",\"data\":{\"slide\":3},\"timestamp\":1700000000}"
    );
}

#[test]
fn health_body_is_exact() {
    assert_eq!(
        health_json(1700000001),
        "{\"status\":\"healthy\",\"service\":\"rably-websocket\",\"timestamp\":1700000001}"
    );
}

#[test]
fn presence_body_lists_records_in_join_order() {
    let records = vec![
        ClientInfo { id: "a".to_owned(), role: Role::Teacher, joined_at: 1 },
        ClientInfo { id: "b".to_owned(), role: Role::Student, joined_at: 2 },
    ];
    assert_eq!(
        presence_json(&"room".to_owned(), &records),
        "{\"channel\":\"room\",\"participants\":[{\"id\":\"a\",\"role\":\"teacher\",\"joined_at\":1},{\"id\":\"b\",\"role\":\"student\",\"joined_at\":2}]}"
    );
    assert_eq!(
        presence_json(&"empty".to_owned(), &Vec::new()),
        "{\"channel\":\"empty\",\"participants\":[]}"
    );
}

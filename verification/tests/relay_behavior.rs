use rably::json::JsonValue;
use rably::protocol::ActionKind;
use rably::protocol::ClientMessage;
use rably::protocol::EventKind;
use rably::protocol::Role;
use rably::relay::RelayState;

fn subscribe_msg(channel: &str, role: Option<Role>) -> ClientMessage {
    ClientMessage {
        action: ActionKind::Subscribe,
        channel: channel.to_owned(),
        data: None,
        role,
    }
}

#[test]
fn two_references_one_topic() {
    let mut state = RelayState::new();
    let channel = "room".to_owned();
    state.subscribe_action(&"a".to_owned(), 1, &channel, None, 0);
    state.subscribe_action(&"b".to_owned(), 2, &channel, None, 0);
    assert_eq!(state.registry.topics.len(), 1);
    assert_eq!(state.registry.topics[0].subs.len(), 2);
}

#[test]
fn subscriber_receives_own_join() {
    let mut state = RelayState::new();
    let channel = "room".to_owned();
    state.subscribe_action(&"client-1".to_owned(), 7, &channel, Some(Role::Teacher), 42);
    let topic = &state.registry.topics[0];
    assert_eq!(topic.subs.len(), 1);
    assert_eq!(topic.subs[0].session, 7);
    assert_eq!(topic.subs[0].queue.len(), 1);
    assert_eq!(
        topic.subs[0].queue[0],
        "{\"type\":\"user_joined\",\"channel\":\"room\",\"data\":{\"id\":\"client-1\",\"role\":\"teacher\",\"joined_at\":42},\"timestamp\":42}"
    );
}

#[test]
fn publish_reaches_all_subscribers_of_channel_only() {
    let mut state = RelayState::new();
    let room = "room".to_owned();
    let other = "other".to_owned();
    state.subscribe_action(&"a".to_owned(), 1, &room, None, 0);
    state.subscribe_action(&"b".to_owned(), 2, &room, None, 0);
    state.subscribe_action(&"c".to_owned(), 3, &other, None, 0);
    state.publish_action(EventKind::Message, &room, Some(JsonValue::Int(5)), 9);
    let expected = "{\"type\":\"message\",\"channel\":\"room\",\"data\":5,\"timestamp\":9}";
    let room_topic = &state.registry.topics[0];
    for sub in &room_topic.subs {
        assert_eq!(sub.queue.last().unwrap(), expected);
    }
    let other_topic = &state.registry.topics[1];
    assert_eq!(other_topic.name, "other");
    for sub in &other_topic.subs {
        assert!(!sub.queue.iter().any(|t| t == expected));
    }
}

#[test]
fn presence_counts_joins_and_defaults_role() {
    let mut state = RelayState::new();
    let channel = "room".to_owned();
    for (i, id) in ["x", "y", "z"].iter().enumerate() {
        state.subscribe_action(&id.to_string(), i as u64, &channel, None, 100 + i as i64);
    }
    let snap = state.presence.snapshot(&channel);
    assert_eq!(snap.len(), 3);
    for rec in &snap {
        assert_eq!(rec.role, Role::Student);
    }
    assert_eq!(snap[0].id, "x");
    assert_eq!(snap[2].joined_at, 102);
}

#[test]
fn rejoin_overwrites_record_instead_of_duplicating() {
    let mut state = RelayState::new();
    let channel = "room".to_owned();
    state.subscribe_action(&"a".to_owned(), 1, &channel, None, 1);
    state.subscribe_action(&"a".to_owned(), 2, &channel, Some(Role::Teacher), 2);
    let snap = state.presence.snapshot(&channel);
    assert_eq!(snap.len(), 1);
    assert_eq!(snap[0].role, Role::Teacher);
    assert_eq!(snap[0].joined_at, 2);
}

#[test]
fn slow_subscriber_drops_oldest_but_keeps_receiving() {
    let mut state = RelayState::new();
    let channel = "room".to_owned();
    state.subscribe_action(&"a".to_owned(), 1, &channel, None, 0);
    let total = 1002u32;
    for i in 0..total {
        state.publish_action(EventKind::Message, &channel, Some(JsonValue::Int(i as i64)), 0);
    }
    let queue = &state.registry.topics[0].subs[0].queue;
    assert_eq!(queue.len(), 1000);
    // the join event and the two oldest messages fell out; the newest is there
    let msg_text = |i: u32| {
        format!("{{\"type\":\"message\",\"channel\":\"room\",\"data\":{},\"timestamp\":0}}", i)
    };
    assert_eq!(queue[0], msg_text(2));
    assert_eq!(*queue.last().unwrap(), msg_text(total - 1));
}

#[test]
fn lecture_scenario_slide_change_reaches_both() {
    let mut state = RelayState::new();
    let channel = "lecture1".to_owned();
    state.subscribe_action(&"A".to_owned(), 1, &channel, Some(Role::Teacher), 0);
    state.subscribe_action(&"B".to_owned(), 2, &channel, Some(Role::Student), 1);
    // B receives its own join
    let b_sub = &state.registry.topics[0].subs[1];
    assert_eq!(
        b_sub.queue[0],
        "{\"type\":\"user_joined\",\"channel\":\"lecture1\",\"data\":{\"id\":\"B\",\"role\":\"student\",\"joined_at\":1},\"timestamp\":1}"
    );
    let slide = JsonValue::Obj(vec![("slide".to_owned(), JsonValue::Int(3))]);
    state.publish_action(EventKind::SlideChange, &channel, Some(slide), 2);
    let expected =
        "{\"type\":\"slide_change\",\"channel\":\"lecture1\",\"data\":{\"slide\":3},\"timestamp\":2}";
    for sub in &state.registry.topics[0].subs {
        assert_eq!(sub.queue.last().unwrap(), expected);
    }
}

#[test]
fn publish_to_unreferenced_channel_is_a_silent_no_op() {
    let mut state = RelayState::new();
    let room = "room".to_owned();
    state.subscribe_action(&"a".to_owned(), 1, &room, None, 0);
    let ghost_town = "nobody".to_owned();
    state.publish_action(EventKind::Message, &ghost_town, Some(JsonValue::Int(1)), 0);
    // the first reference lazily created a topic, but an inert one:
    // nobody subscribes to it, so no client observes anything
    assert_eq!(state.registry.topics.len(), 2);
    assert_eq!(state.registry.topics[1].name, "nobody");
    assert!(state.registry.topics[1].subs.is_empty());
    assert_eq!(state.registry.topics[0].subs[0].queue.len(), 1);
}

#[test]
fn publish_first_reference_creates_the_topic_a_subscribe_reuses() {
    let mut state = RelayState::new();
    let room = "room".to_owned();
    state.publish_action(EventKind::Message, &room, None, 0);
    assert_eq!(state.registry.topics.len(), 1);
    state.subscribe_action(&"a".to_owned(), 1, &room, None, 1);
    assert_eq!(state.registry.topics.len(), 1);
    assert_eq!(state.registry.topics[0].subs.len(), 1);
}

#[test]
fn publish_without_payload_sends_empty_object() {
    let mut state = RelayState::new();
    let room = "room".to_owned();
    state.subscribe_action(&"a".to_owned(), 1, &room, None, 0);
    state.publish_action(EventKind::Message, &room, None, 3);
    assert_eq!(
        state.registry.topics[0].subs[0].queue.last().unwrap(),
        "{\"type\":\"message\",\"channel\":\"room\",\"data\":{},\"timestamp\":3}"
    );
}

#[test]
fn unknown_action_changes_nothing() {
    let mut state = RelayState::new();
    let room = "room".to_owned();
    state.handle_action(&"a".to_owned(), 1, subscribe_msg("room", None), 0);
    let msg = ClientMessage {
        action: ActionKind::Unknown,
        channel: room.clone(),
        data: Some(JsonValue::Int(1)),
        role: None,
    };
    state.handle_action(&"a".to_owned(), 1, msg, 5);
    assert_eq!(state.registry.topics.len(), 1);
    assert_eq!(state.registry.topics[0].subs[0].queue.len(), 1);
    assert_eq!(state.presence.snapshot(&room).len(), 1);
}

#[test]
fn handle_action_dispatches_by_kind() {
    let mut state = RelayState::new();
    state.handle_action(&"a".to_owned(), 1, subscribe_msg("room", Some(Role::Teacher)), 0);
    let publish = ClientMessage {
        action: ActionKind::Publish,
        channel: "room".to_owned(),
        data: Some(JsonValue::Str("hi".to_owned())),
        role: None,
    };
    state.handle_action(&"a".to_owned(), 1, publish, 1);
    let slide = ClientMessage {
        action: ActionKind::SlideChange,
        channel: "room".to_owned(),
        data: None,
        role: None,
    };
    state.handle_action(&"a".to_owned(), 1, slide, 2);
    let queue = &state.registry.topics[0].subs[0].queue;
    assert_eq!(queue.len(), 3);
    assert_eq!(queue[1], "{\"type\":\"message\",\"channel\":\"room\",\"data\":\"hi\",\"timestamp\":1}");
    assert_eq!(
        queue[2],
        "{\"type\":\"slide_change\",\"channel\":\"room\",\"data\":{},\"timestamp\":2}"
    );
}

use rably::json::JsonValue;
use rably::live::Dispatched;
use rably::live::TopicMap;
use rably::live::live_dispatch;
use rably::live::live_publish;
use rably::live::live_subscribe;
use rably::live::new_client_id;
use rably::live::send_text;
use rably::live::subscribe_topic;
use rably::presence::PresenceTable;
use rably::protocol::EventKind;
use rably::protocol::Role;

#[test]
fn client_ids_are_hyphenated_and_fresh() {
    let a = new_client_id();
    let b = new_client_id();
    assert_eq!(a.chars().count(), 36);
    assert_eq!(a.chars().filter(|c| *c == '-').count(), 4);
    assert_ne!(a, b);
}

#[test]
fn racing_references_share_one_topic() {
    let topics = TopicMap::new();
    let name = "room".to_owned();
    let first = topics.get_or_create(&name);
    let second = topics.get_or_create(&name);
    let mut rx = subscribe_topic(&first);
    // a message sent through the second handle arrives at a receiver of the first
    let hello = "hello".to_owned();
    assert_eq!(send_text(&second, &hello), Some(1));
    assert_eq!(rx.try_recv().unwrap(), "hello");
}

#[test]
fn subscriber_sees_own_join_through_the_live_map() {
    let topics = TopicMap::new();
    let mut presence = PresenceTable::new();
    let channel = "lecture1".to_owned();
    let (mut rx, sent) = live_subscribe(
        &topics,
        &mut presence,
        &"client-9".to_owned(),
        &channel,
        Some(Role::Teacher),
        77,
    );
    let expected = "{\"type\":\"user_joined\",\"channel\":\"lecture1\",\"data\":{\"id\":\"client-9\",\"role\":\"teacher\",\"joined_at\":77},\"timestamp\":77}";
    assert_eq!(sent, expected);
    assert_eq!(rx.try_recv().unwrap(), expected);
    let snap = presence.snapshot(&channel);
    assert_eq!(snap.len(), 1);
    assert_eq!(snap[0].id, "client-9");
}

#[test]
fn dispatch_publish_sends_the_event_it_reports() {
    let topics = TopicMap::new();
    let mut presence = PresenceTable::new();
    let channel = "room".to_owned();
    let subscribe = rably::protocol::ClientMessage {
        action: rably::protocol::ActionKind::Subscribe,
        channel: channel.clone(),
        data: None,
        role: None,
    };
    let outcome = live_dispatch(&topics, &mut presence, &"a".to_owned(), subscribe, 0);
    let mut rx = match outcome {
        Dispatched::Subscribed(rx, _) => rx,
        _ => panic!("subscribe must yield a receiver"),
    };
    let _ = rx.try_recv().unwrap();
    let publish = rably::protocol::ClientMessage {
        action: rably::protocol::ActionKind::Publish,
        channel: channel.clone(),
        data: Some(JsonValue::Num("2.5".to_owned())),
        role: None,
    };
    let outcome = live_dispatch(&topics, &mut presence, &"a".to_owned(), publish, 1);
    let sent = match outcome {
        Dispatched::Published(t) => t,
        _ => panic!("publish must report its event"),
    };
    assert_eq!(sent, "{\"type\":\"message\",\"channel\":\"room\",\"data\":2.5,\"timestamp\":1}");
    assert_eq!(rx.try_recv().unwrap(), sent);
}

#[test]
fn live_publish_reaches_subscribers_and_first_references_are_inert() {
    let topics = TopicMap::new();
    let mut presence = PresenceTable::new();
    let channel = "room".to_owned();
    let (mut rx, _) =
        live_subscribe(&topics, &mut presence, &"a".to_owned(), &channel, None, 0);
    let _ = rx.try_recv().unwrap();
    let sent = live_publish(
        &topics,
        EventKind::Message,
        &channel,
        Some(JsonValue::Int(5)),
        1,
    );
    assert_eq!(sent, "{\"type\":\"message\",\"channel\":\"room\",\"data\":5,\"timestamp\":1}");
    assert_eq!(rx.try_recv().unwrap(), sent);
    // a publish first-reference lazily creates the channel's topic, but an
    // inert one: a later subscriber sees only events sent after it joined
    let fresh = "nobody".to_owned();
    let _ = live_publish(&topics, EventKind::Message, &fresh, None, 1);
    let (mut rx2, join) =
        live_subscribe(&topics, &mut presence, &"b".to_owned(), &fresh, None, 2);
    assert_eq!(rx2.try_recv().unwrap(), join);
    assert!(rx2.try_recv().is_err());
}

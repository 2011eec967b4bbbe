//! The live side of the relay: the concurrent topic map and the calls
//! into it.
//!
//! Topics are held in a concurrent map from channel name to a broadcast
//! sender, created atomically on first reference and never removed; each
//! subscription is a broadcast receiver handed to the caller, who drains
//! it into the connection's outgoing queue.  The map and the handles are
//! opaque here; what each call does is stated over the channel a handle
//! belongs to, and everything around the calls — presence, event
//! construction, wire text — is verified.

use vstd::prelude::*;
use dashmap::DashMap;
use tokio::sync::broadcast::Receiver;
use tokio::sync::broadcast::Sender;
use crate::json::JsonValue;
use crate::presence::PresenceTable;
use crate::presence::spec_join;
use crate::protocol::ActionKind;
use crate::protocol::ClientInfo;
use crate::protocol::ClientMessage;
use crate::protocol::EventKind;
use crate::protocol::Role;
use crate::protocol::ServerMessage;
use crate::protocol::client_info_json;
use crate::protocol::encode_server_message;
use crate::relay::joined_event_text;
use crate::relay::joined_record;
use crate::relay::message_event_text;
use crate::relay::payload_text;
use crate::registry::TOPIC_CAPACITY;

verus! {

#[verifier::external_type_specification]
#[verifier::external_body]
#[verifier::reject_recursive_types(T)]
pub struct ExSender<T>(Sender<T>);

#[verifier::external_type_specification]
#[verifier::external_body]
#[verifier::reject_recursive_types(T)]
pub struct ExReceiver<T>(Receiver<T>);

/// The channel name whose one topic a sender handle belongs to.  Every
/// handle the map hands out for a name is a handle to that name's
/// single broadcast channel.
pub uninterp spec fn sender_channel(tx: &Sender<String>) -> Seq<char>;

/// The channel name whose topic a receiver handle is attached to.
pub uninterp spec fn receiver_channel(rx: &Receiver<String>) -> Seq<char>;

/// The concurrent map from channel name to that channel's broadcast
/// sender.  Shared by every connection; lazy creation under concurrent
/// access is the map's own atomic insert-if-absent.
#[verifier::external_body]
pub struct TopicMap {
    inner: DashMap<String, Sender<String>>,
}

impl TopicMap {
    /// Relies on `dashmap::DashMap::new`: an empty map.
    #[verifier::external_body]
    pub fn new() -> (r: TopicMap) {
        TopicMap { inner: DashMap::new() }
    }

    /// Relies on `dashmap::DashMap::entry` and `Entry::or_insert`
    /// (atomic insert-if-absent) and `tokio::sync::broadcast::channel`:
    /// however many callers race on one name, exactly one topic is
    /// created for it, and every call returns a handle to that topic.
    #[verifier::external_body]
    pub fn get_or_create(&self, name: &String) -> (r: Sender<String>)
        ensures
            sender_channel(&r) == name@,
    {
        self.inner.entry(name.clone()).or_insert(
            tokio::sync::broadcast::channel(TOPIC_CAPACITY).0,
        ).clone()
    }

}

/// Relies on `tokio::sync::broadcast::Sender::subscribe`: a new receiver
/// attached to the sender's own channel, seeing messages sent after it.
#[verifier::external_body]
pub fn subscribe_topic(tx: &Sender<String>) -> (r: Receiver<String>)
    ensures
        receiver_channel(&r) == sender_channel(tx),
{
    tx.subscribe()
}

/// Relies on `tokio::sync::broadcast::Sender::send`: queues the text for
/// the channel's current receivers, dropping the oldest entry for a
/// receiver that lags behind the capacity; `None` when no receiver is
/// attached, in which case nobody observes the text, and a `Some` count
/// is the number of receivers at the send, at least one.
#[verifier::external_body]
pub fn send_text(tx: &Sender<String>, text: &String) -> (r: Option<usize>)
    ensures
        r matches Some(n) ==> n >= 1,
{
    match tx.send(text.clone()) {
        Ok(n) => Some(n),
        Err(_) => None,
    }
}

/// Relies on `uuid::Uuid::new_v4` and its `Display`: a fresh random id
/// in the hyphenated form, 36 characters long.  Uniqueness is the
/// generator's (collision probability treated as zero); nothing more is
/// assumed.
#[verifier::external_body]
pub fn new_client_id() -> (r: String)
    ensures
        r@.len() == 36,
{
    uuid::Uuid::new_v4().to_string()
}

/// Relies on `chrono::Utc::now` and `timestamp`: the current time in
/// epoch seconds.  Nothing can be promised of the clock.
#[verifier::external_body]
pub fn now_timestamp() -> (r: i64) {
    chrono::Utc::now().timestamp()
}

/// A subscribe against the live map: resolves (or creates) the
/// channel's topic, attaches a receiver, records presence with the role
/// defaulted to student, and sends the `user_joined` event into the
/// topic, so the new receiver — attached first — sees the client's own
/// join.  Returns the receiver and the event's wire text.
pub fn live_subscribe(
    topics: &TopicMap,
    presence: &mut PresenceTable,
    client_id: &String,
    channel: &String,
    role: Option<Role>,
    now: i64,
) -> (r: (Receiver<String>, String))
    requires
        old(presence).wf(),
    ensures
        final(presence).wf(),
        receiver_channel(&r.0) == channel@,
        r.1@ == joined_event_text(joined_record(*client_id, role, now), channel@, now),
        final(presence).records_of(channel@) == spec_join(
            old(presence).records_of(channel@),
            joined_record(*client_id, role, now),
        ),
        forall|c: Seq<char>|
            c != channel@ ==> final(presence).records_of(c) == old(presence).records_of(c),
{
    let tx = topics.get_or_create(channel);
    let rx = subscribe_topic(&tx);
    let role_value = match role {
        Some(r) => r,
        None => Role::Student,
    };
    let rec = ClientInfo { id: client_id.clone(), role: role_value, joined_at: now };
    presence.record_join(
        channel,
        ClientInfo { id: rec.id.clone(), role: rec.role, joined_at: rec.joined_at },
    );
    let data = client_info_json(&rec);
    let message = ServerMessage {
        kind: EventKind::UserJoined,
        channel: channel.clone(),
        data,
        timestamp: now,
    };
    let text = encode_server_message(&message);
    proof {
        assert(rec == joined_record(*client_id, role, now));
        assert(text@ == joined_event_text(rec, channel@, now));
    }
    let _ = send_text(&tx, &text);
    (rx, text)
}

/// A publish or slide change against the live map: the channel's topic
/// is resolved — a publish first-reference lazily creates it, inert
/// until someone subscribes — and the event is sent to its subscribers.
/// Returns the event's wire text.
pub fn live_publish(
    topics: &TopicMap,
    kind: EventKind,
    channel: &String,
    data: Option<JsonValue>,
    now: i64,
) -> (r: String)
    ensures
        r@ == message_event_text(kind, channel@, data, now),
{
    let tx = topics.get_or_create(channel);
    let payload = match data {
        Some(v) => v,
        None => JsonValue::Obj(Vec::new()),
    };
    proof {
        if data is None {
            assert(crate::json::obj_text(Seq::<(String, JsonValue)>::empty()) == Seq::<
                char,
            >::empty());
            assert(crate::json::json_text(payload) =~= seq!['{', '}']);
        }
        assert(crate::json::json_text(payload) == payload_text(data));
    }
    let message = ServerMessage { kind, channel: channel.clone(), data: payload, timestamp: now };
    let text = encode_server_message(&message);
    let _ = send_text(&tx, &text);
    text
}

/// What one dispatch step did: a subscribe hands back the new receiver
/// to drain and the join event's wire text; a publish or slide change
/// hands back the wire text it sent; an unknown action is ignored.
pub enum Dispatched {
    Subscribed(Receiver<String>, String),
    Published(String),
    Ignored,
}

/// One step of a connection's dispatch loop against the live map: a
/// subscribe yields the new receiver to drain, a publish or slide
/// change sends its event, an unknown action does nothing.
pub fn live_dispatch(
    topics: &TopicMap,
    presence: &mut PresenceTable,
    client_id: &String,
    msg: ClientMessage,
    now: i64,
) -> (r: Dispatched)
    requires
        old(presence).wf(),
    ensures
        final(presence).wf(),
        (r is Subscribed) <==> msg.action == ActionKind::Subscribe,
        r matches Dispatched::Subscribed(rx, jt) ==> receiver_channel(&rx) == msg.channel@ && jt@
            == joined_event_text(joined_record(*client_id, msg.role, now), msg.channel@, now),
        msg.action == ActionKind::Subscribe ==> final(presence).records_of(msg.channel@)
            == spec_join(
            old(presence).records_of(msg.channel@),
            joined_record(*client_id, msg.role, now),
        ) && (forall|c: Seq<char>|
            c != msg.channel@ ==> final(presence).records_of(c) == old(presence).records_of(c)),
        msg.action == ActionKind::Publish ==> (r matches Dispatched::Published(sent)
            && sent@ == message_event_text(EventKind::Message, msg.channel@, msg.data, now)),
        msg.action == ActionKind::SlideChange ==> (r matches Dispatched::Published(sent)
            && sent@ == message_event_text(EventKind::SlideChange, msg.channel@, msg.data, now)),
        msg.action == ActionKind::Unknown ==> r is Ignored,
        msg.action != ActionKind::Subscribe ==> *final(presence) == *old(presence),
{
    match msg.action {
        ActionKind::Subscribe => {
            let (rx, text) = live_subscribe(topics, presence, client_id, &msg.channel, msg.role, now);
            Dispatched::Subscribed(rx, text)
        },
        ActionKind::Publish => {
            let sent = live_publish(topics, EventKind::Message, &msg.channel, msg.data, now);
            Dispatched::Published(sent)
        },
        ActionKind::SlideChange => {
            let sent = live_publish(topics, EventKind::SlideChange, &msg.channel, msg.data, now);
            Dispatched::Published(sent)
        },
        ActionKind::Unknown => Dispatched::Ignored,
    }
}

} // verus!

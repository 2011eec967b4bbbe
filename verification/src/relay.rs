//! The relay engine: what each inbound action does to the shared state.
//!
//! A subscribe resolves (or creates) the channel's topic, attaches a new
//! subscription, records presence with the role defaulted to student,
//! and broadcasts a `user_joined` event through the topic — so the
//! joining client sees its own join echoed.  A publish or slide change
//! resolves the topic — a first reference lazily creates it — and
//! broadcasts the payload; a channel nobody has subscribed to gains only
//! an inert topic, so nobody observes such a broadcast.  An unknown
//! action changes nothing at all.

use vstd::prelude::*;
use crate::json::JsonValue;
use crate::json::json_text;
use crate::json::obj_text;
use crate::json::int_text;
use crate::json::escaped_text;
use crate::protocol::ActionKind;
use crate::protocol::ClientInfo;
use crate::protocol::ClientMessage;
use crate::protocol::EventKind;
use crate::protocol::Role;
use crate::protocol::ServerMessage;
use crate::protocol::client_info_json;
use crate::protocol::client_info_text;
use crate::protocol::default_role;
use crate::protocol::encode_server_message;
use crate::protocol::event_kind_text;
use crate::presence::PresenceTable;
use crate::presence::spec_join;
use crate::registry::Registry;
use crate::registry::enqueue;
use crate::registry::lemma_topic_at;
use crate::registry::texts;
use crate::registry::TOPIC_CAPACITY;

verus! {

/// The shared state of the relay: one topic registry and one presence
/// table, injected into every connection's dispatch.
pub struct RelayState {
    pub registry: Registry,
    pub presence: PresenceTable,
}

/// The presence record a subscribe writes: the client's id, the stated
/// role or student, and the join time.
pub open spec fn joined_record(id: String, role: Option<Role>, now: i64) -> ClientInfo {
    ClientInfo { id, role: default_role(role), joined_at: now }
}

/// The wire text of the `user_joined` event announcing `rec` on `channel`.
pub open spec fn joined_event_text(rec: ClientInfo, channel: Seq<char>, ts: i64) -> Seq<char> {
    "{\"type\":\""@ + event_kind_text(EventKind::UserJoined) + "\",\"channel\":\""@
        + escaped_text(channel) + "\",\"data\":"@ + client_info_text(rec) + ",\"timestamp\":"@
        + int_text(ts as int) + "}"@
}

/// The payload a publish carries on the wire: the given document, or an
/// empty object when none was given.
pub open spec fn payload_text(data: Option<JsonValue>) -> Seq<char> {
    match data {
        Some(v) => json_text(v),
        None => seq!['{', '}'],
    }
}

/// The wire text of a `message` or `slide_change` event.
pub open spec fn message_event_text(
    kind: EventKind,
    channel: Seq<char>,
    data: Option<JsonValue>,
    ts: i64,
) -> Seq<char> {
    "{\"type\":\""@ + event_kind_text(kind) + "\",\"channel\":\""@ + escaped_text(channel)
        + "\",\"data\":"@ + payload_text(data) + ",\"timestamp\":"@ + int_text(ts as int) + "}"@
}

/// Everything a subscribe promises.  The joining client's new
/// subscription holds exactly its own `user_joined` event — it always
/// receives its own join.  Every subscriber the channel already had gets
/// the event enqueued too; presence gains (or overwrites) the client's
/// record with the role defaulted to student; every other channel's
/// presence and subscribers stay exactly as they were.
pub open spec fn subscribe_post(
    pre: RelayState,
    post: RelayState,
    id: String,
    session: u64,
    channel: Seq<char>,
    role: Option<Role>,
    now: i64,
) -> bool {
    let rec = joined_record(id, role, now);
    let jt = joined_event_text(rec, channel, now);
    &&& post.presence.records_of(channel) == spec_join(pre.presence.records_of(channel), rec)
    &&& forall|c: Seq<char>|
        c != channel ==> post.presence.records_of(c) == pre.presence.records_of(c)
    &&& post.registry.has_topic(channel)
    &&& post.registry.subs_of(channel).len() == pre.registry.subs_of(channel).len() + 1
    &&& post.registry.subs_of(channel).last().session == session
    &&& texts(post.registry.subs_of(channel).last().queue@) == seq![jt]
    &&& forall|j: int|
        0 <= j < pre.registry.subs_of(channel).len()
            ==> #[trigger] post.registry.subs_of(channel)[j].session == pre.registry.subs_of(
            channel,
        )[j].session && texts(post.registry.subs_of(channel)[j].queue@) == enqueue(
            texts(pre.registry.subs_of(channel)[j].queue@),
            jt,
        )
    &&& forall|c: Seq<char>|
        c != channel ==> post.registry.subs_of(c) == pre.registry.subs_of(c)
    &&& forall|c: Seq<char>|
        #[trigger] post.registry.has_topic(c) <==> (pre.registry.has_topic(c) || c == channel)
}

/// Everything a publish or slide change promises.  The channel's topic
/// is resolved — a publish first-reference lazily creates it — and every
/// subscriber the channel has gets the event enqueued; every subscriber
/// of any other channel gets nothing, and presence does not change.  A
/// channel nobody has ever subscribed to gains an inert topic with no
/// subscribers, so no message is observable by anyone and no error
/// arises.
pub open spec fn publish_post(
    pre: RelayState,
    post: RelayState,
    kind: EventKind,
    channel: Seq<char>,
    data: Option<JsonValue>,
    now: i64,
) -> bool {
    let mt = message_event_text(kind, channel, data, now);
    &&& post.presence == pre.presence
    &&& post.registry.has_topic(channel)
    &&& forall|c: Seq<char>|
        #[trigger] post.registry.has_topic(c) <==> (pre.registry.has_topic(c) || c == channel)
    &&& post.registry.subs_of(channel).len() == pre.registry.subs_of(channel).len()
    &&& forall|j: int|
        0 <= j < pre.registry.subs_of(channel).len()
            ==> #[trigger] post.registry.subs_of(channel)[j].session == pre.registry.subs_of(
            channel,
        )[j].session && texts(post.registry.subs_of(channel)[j].queue@) == enqueue(
            texts(pre.registry.subs_of(channel)[j].queue@),
            mt,
        )
    &&& forall|c: Seq<char>|
        c != channel ==> post.registry.subs_of(c) == pre.registry.subs_of(c)
}

/// `subscribe_post` holds once each of its parts does.
pub proof fn lemma_subscribe_post_intro(
    pre: RelayState,
    post: RelayState,
    id: String,
    session: u64,
    channel: Seq<char>,
    role: Option<Role>,
    now: i64,
)
    requires
        post.presence.records_of(channel) == spec_join(
            pre.presence.records_of(channel),
            joined_record(id, role, now),
        ),
        forall|c: Seq<char>|
            c != channel ==> post.presence.records_of(c) == pre.presence.records_of(c),
        post.registry.has_topic(channel),
        post.registry.subs_of(channel).len() == pre.registry.subs_of(channel).len() + 1,
        post.registry.subs_of(channel).last().session == session,
        texts(post.registry.subs_of(channel).last().queue@) == seq![
            joined_event_text(joined_record(id, role, now), channel, now),
        ],
        forall|j: int|
            0 <= j < pre.registry.subs_of(channel).len()
                ==> #[trigger] post.registry.subs_of(channel)[j].session == pre.registry.subs_of(
                channel,
            )[j].session,
        forall|j: int|
            0 <= j < pre.registry.subs_of(channel).len() ==> #[trigger] texts(
                post.registry.subs_of(channel)[j].queue@,
            ) == enqueue(
                texts(pre.registry.subs_of(channel)[j].queue@),
                joined_event_text(joined_record(id, role, now), channel, now),
            ),
        forall|c: Seq<char>| c != channel ==> post.registry.subs_of(c) == pre.registry.subs_of(c),
        forall|c: Seq<char>|
            #[trigger] post.registry.has_topic(c) <==> (pre.registry.has_topic(c) || c == channel),
    ensures
        subscribe_post(pre, post, id, session, channel, role, now),
{
}

impl RelayState {
    /// Both shared structures are well-formed.
    pub open spec fn wf(self) -> bool {
        self.registry.wf() && self.presence.wf()
    }

    /// A fresh relay: no topics, no presence.
    pub fn new() -> (r: Self)
        ensures
            r.wf(),
            r.registry.topics@.len() == 0,
            r.presence.channels@.len() == 0,
            forall|c: Seq<char>| !r.registry.has_topic(c),
            forall|c: Seq<char>| #[trigger] r.presence.records_of(c) == Seq::<ClientInfo>::empty(),
    {
        RelayState { registry: Registry::new(), presence: PresenceTable::new() }
    }

    /// Joins `channel`: topic resolved or created, a new subscription
    /// attached for `session`, presence recorded, and the `user_joined`
    /// event broadcast through the topic.
    #[verifier::rlimit(100)]
    #[verifier::spinoff_prover]
    pub fn subscribe_action(
        &mut self,
        client_id: &String,
        session: u64,
        channel: &String,
        role: Option<Role>,
        now: i64,
    )
        requires
            old(self).wf(),
        ensures
            final(self).wf(),
            subscribe_post(*old(self), *final(self), *client_id, session, channel@, role, now),
    {
        let idx = self.registry.get_or_create(channel);
        let ghost r1 = self.registry;
        self.registry.add_subscriber(idx, session);
        let ghost r2 = self.registry;
        let role_value = match role {
            Some(r) => r,
            None => Role::Student,
        };
        let rec = ClientInfo { id: client_id.clone(), role: role_value, joined_at: now };
        self.presence.record_join(
            channel,
            ClientInfo { id: rec.id.clone(), role: rec.role, joined_at: rec.joined_at },
        );
        let data = client_info_json(&rec);
        let message = ServerMessage {
            kind: EventKind::UserJoined,
            channel: channel.clone(),
            data,
            timestamp: now,
        };
        let text = encode_server_message(&message);
        proof {
            assert(rec == joined_record(*client_id, role, now));
            assert(text@ == joined_event_text(rec, channel@, now));
        }
        self.registry.broadcast(channel, &text);
        proof {
            let r0 = old(self).registry;
            let r3 = self.registry;
            let k = idx as int;
            let jt = joined_event_text(joined_record(*client_id, role, now), channel@, now);
            lemma_topic_at(r1, channel@, k);
            lemma_topic_at(r2, channel@, k);
            lemma_topic_at(r3, channel@, k);
            assert(r2.topics@[k].subs@ == r1.topics@[k].subs@.push(r2.topics@[k].subs@.last()));
            if r0.has_topic(channel@) {
                lemma_topic_at(r0, channel@, k);
            } else {
                assert(r0.subs_of(channel@) =~= r1.topics@[k].subs@);
            }
            assert(r1.subs_of(channel@) == r0.subs_of(channel@));
            assert(texts(r2.topics@[k].subs@.last().queue@) =~= Seq::<Seq<char>>::empty());
            let lastj = r2.topics@[k].subs@.len() - 1;
            assert(r3.topics@[k].subs@[lastj].session == r2.topics@[k].subs@[lastj].session);
            assert(texts(r3.topics@[k].subs@[lastj].queue@) =~= enqueue(
                texts(r2.topics@[k].subs@[lastj].queue@),
                jt,
            ));
            assert(r3.topics@[k].subs@.len() == r2.topics@[k].subs@.len());
            assert(texts(r3.topics@[k].subs@.last().queue@) =~= seq![jt]);
            assert forall|c: Seq<char>| c != channel@ implies r3.subs_of(c) == r0.subs_of(c) by {
                lemma_subs_unchanged(r0, r1, r2, r3, channel@, k, c);
            }
            assert forall|j: int| 0 <= j < r0.subs_of(channel@).len() implies #[trigger] r3.subs_of(
                channel@,
            )[j].session == r0.subs_of(channel@)[j].session by {
                assert(r2.topics@[k].subs@[j] == r1.topics@[k].subs@[j]);
                assert(r3.topics@[k].subs@[j].session == r2.topics@[k].subs@[j].session);
            }
            assert forall|j: int| 0 <= j < r0.subs_of(channel@).len() implies #[trigger] texts(
                r3.subs_of(channel@)[j].queue@,
            ) == enqueue(texts(r0.subs_of(channel@)[j].queue@), jt) by {
                assert(r2.topics@[k].subs@[j] == r1.topics@[k].subs@[j]);
                assert(r3.topics@[k].subs@[j].session == r2.topics@[k].subs@[j].session);
                assert(texts(r3.topics@[k].subs@[j].queue@) =~= enqueue(
                    texts(r2.topics@[k].subs@[j].queue@),
                    jt,
                ));
            }
            assert forall|c: Seq<char>|
                #[trigger] r3.has_topic(c) <==> (r0.has_topic(c) || c == channel@) by {
                assert(r2.has_topic(c) <==> r1.has_topic(c));
                assert(r3.has_topic(c) <==> r2.has_topic(c));
                assert(r1.has_topic(c) <==> (r0.has_topic(c) || c == channel@));
            }
            lemma_subscribe_post_intro(
                *old(self),
                *self,
                *client_id,
                session,
                channel@,
                role,
                now,
            );
        }
    }

    /// Publishes a payload (or a slide change) to `channel`: the topic
    /// is resolved, created on a first reference, and the event broadcast
    /// to its subscribers; a channel nobody has subscribed to gains only
    /// an inert, unobserved topic.
    #[verifier::rlimit(100)]
    #[verifier::spinoff_prover]
    pub fn publish_action(
        &mut self,
        kind: EventKind,
        channel: &String,
        data: Option<JsonValue>,
        now: i64,
    )
        requires
            old(self).wf(),
        ensures
            final(self).wf(),
            publish_post(*old(self), *final(self), kind, channel@, data, now),
    {
        let idx = self.registry.get_or_create(channel);
        let ghost r1 = self.registry;
        let payload = match data {
            Some(v) => v,
            None => JsonValue::Obj(Vec::new()),
        };
        proof {
            if data is None {
                assert(obj_text(Seq::<(String, JsonValue)>::empty()) == Seq::<char>::empty());
                assert(json_text(payload) =~= seq!['{', '}']);
            }
            assert(json_text(payload) == payload_text(data));
        }
        let message = ServerMessage { kind, channel: channel.clone(), data: payload, timestamp: now };
        let text = encode_server_message(&message);
        proof {
            assert(text@ == message_event_text(kind, channel@, data, now));
        }
        self.registry.broadcast(channel, &text);
        proof {
            let r0 = old(self).registry;
            let r3 = self.registry;
            let k = idx as int;
            let mt = message_event_text(kind, channel@, data, now);
            lemma_topic_at(r1, channel@, k);
            assert(r3.topics@[k].name == r1.topics@[k].name);
            lemma_topic_at(r3, channel@, k);
            if r0.has_topic(channel@) {
                lemma_topic_at(r0, channel@, k);
            } else {
                assert(r0.subs_of(channel@) =~= r1.topics@[k].subs@);
            }
            assert(r1.subs_of(channel@) == r0.subs_of(channel@));
            assert(r3.subs_of(channel@).len() == r0.subs_of(channel@).len());
            assert forall|j: int| 0 <= j < r0.subs_of(channel@).len() implies #[trigger] r3.subs_of(
                channel@,
            )[j].session == r0.subs_of(channel@)[j].session && texts(
                r3.subs_of(channel@)[j].queue@,
            ) == enqueue(texts(r0.subs_of(channel@)[j].queue@), mt) by {
                assert(r3.topics@[k].subs@[j].session == r1.topics@[k].subs@[j].session);
                assert(texts(r3.topics@[k].subs@[j].queue@) =~= enqueue(
                    texts(r1.topics@[k].subs@[j].queue@),
                    mt,
                ));
            }
            assert forall|c: Seq<char>| c != channel@ implies r3.subs_of(c) == r0.subs_of(c) by {
                lemma_subs_unchanged(r0, r1, r1, r3, channel@, k, c);
            }
            assert forall|c: Seq<char>|
                #[trigger] r3.has_topic(c) <==> (r0.has_topic(c) || c == channel@) by {
                assert(r3.has_topic(c) <==> r1.has_topic(c));
                assert(r1.has_topic(c) <==> (r0.has_topic(c) || c == channel@));
            }
            assert(publish_post(*old(self), *self, kind, channel@, data, now));
        }
    }

    /// One step of the dispatch loop: what a decoded inbound message
    /// does to the relay.  Subscribe joins; publish and slide change
    /// broadcast, tagged with their own event kind; an unrecognized
    /// action is a no-op.
    pub fn handle_action(&mut self, client_id: &String, session: u64, msg: ClientMessage, now: i64)
        requires
            old(self).wf(),
        ensures
            final(self).wf(),
            msg.action == ActionKind::Subscribe ==> subscribe_post(
                *old(self),
                *final(self),
                *client_id,
                session,
                msg.channel@,
                msg.role,
                now,
            ),
            msg.action == ActionKind::Publish ==> publish_post(
                *old(self),
                *final(self),
                EventKind::Message,
                msg.channel@,
                msg.data,
                now,
            ),
            msg.action == ActionKind::SlideChange ==> publish_post(
                *old(self),
                *final(self),
                EventKind::SlideChange,
                msg.channel@,
                msg.data,
                now,
            ),
            msg.action == ActionKind::Unknown ==> *final(self) == *old(self),
    {
        match msg.action {
            ActionKind::Subscribe => {
                self.subscribe_action(client_id, session, &msg.channel, msg.role, now);
            },
            ActionKind::Publish => {
                self.publish_action(EventKind::Message, &msg.channel, msg.data, now);
            },
            ActionKind::SlideChange => {
                self.publish_action(EventKind::SlideChange, &msg.channel, msg.data, now);
            },
            ActionKind::Unknown => {},
        }
    }
}

/// Subscribers of a channel other than the one a subscribe touched are
/// exactly as they were, across topic creation, attachment and the join
/// broadcast.
proof fn lemma_subs_unchanged(
    r0: Registry,
    r1: Registry,
    r2: Registry,
    r3: Registry,
    channel: Seq<char>,
    k: int,
    c: Seq<char>,
)
    requires
        r0.wf(),
        r1.wf(),
        r2.wf(),
        r3.wf(),
        c != channel,
        0 <= k < r1.topics@.len(),
        r1.topics@[k].name@ == channel,
        r0.has_topic(channel) ==> r1.topics == r0.topics && k == r0.topic_at(channel),
        !r0.has_topic(channel) ==> r1.topics@.len() == r0.topics@.len() + 1 && k
            == r0.topics@.len() && (forall|i: int|
            0 <= i < r0.topics@.len() ==> #[trigger] r1.topics@[i] == r0.topics@[i]),
        r2.topics@.len() == r1.topics@.len(),
        forall|i: int|
            0 <= i < r1.topics@.len() && i != k ==> #[trigger] r2.topics@[i] == r1.topics@[i],
        r2.topics@[k].name == r1.topics@[k].name,
        r3.topics@.len() == r2.topics@.len(),
        forall|i: int|
            0 <= i < r2.topics@.len() ==> #[trigger] r3.topics@[i].name == r2.topics@[i].name,
        forall|i: int|
            0 <= i < r2.topics@.len() && r2.topics@[i].name@ != channel
                ==> #[trigger] r3.topics@[i] == r2.topics@[i],
    ensures
        r3.subs_of(c) == r0.subs_of(c),
{
    if r3.has_topic(c) {
        let j = r3.topic_at(c);
        assert(r3.topics@[j].name@ == c);
        assert(r2.topics@[j].name@ == c);
        assert(j != k);
        assert(r3.topics@[j] == r2.topics@[j]);
        assert(r1.topics@[j].name@ == c);
        assert(j < r0.topics@.len());
        assert(r0.topics@[j] == r1.topics@[j]);
        lemma_topic_at(r0, c, j);
        lemma_topic_at(r3, c, j);
    } else {
        if r0.has_topic(c) {
            let j = r0.topic_at(c);
            assert(r0.topics@[j].name@ == c);
            assert(r1.topics@[j].name@ == c);
            assert(j != k);
            assert(r2.topics@[j].name@ == c);
            assert(r3.topics@[j].name@ == c);
            assert(r3.has_topic(c));
        }
    }
}

/// Subscribers of a channel other than the one broadcast to are exactly
/// as they were.
proof fn lemma_subs_same_topics(r0: Registry, r3: Registry, channel: Seq<char>, c: Seq<char>)
    requires
        r0.wf(),
        r3.wf(),
        c != channel,
        r3.topics@.len() == r0.topics@.len(),
        forall|i: int|
            0 <= i < r0.topics@.len() ==> #[trigger] r3.topics@[i].name == r0.topics@[i].name,
        forall|i: int|
            0 <= i < r0.topics@.len() && r0.topics@[i].name@ != channel
                ==> #[trigger] r3.topics@[i] == r0.topics@[i],
    ensures
        r3.subs_of(c) == r0.subs_of(c),
{
    if r3.has_topic(c) {
        let j = r3.topic_at(c);
        assert(r3.topics@[j].name@ == c);
        assert(r0.topics@[j].name@ == c);
        assert(r3.topics@[j] == r0.topics@[j]);
        lemma_topic_at(r0, c, j);
        lemma_topic_at(r3, c, j);
    } else {
        if r0.has_topic(c) {
            let j = r0.topic_at(c);
            assert(r0.topics@[j].name@ == c);
            assert(r3.topics@[j].name@ == c);
            assert(r3.has_topic(c));
        }
    }
}

/// A wire text tagged with channel `c`: one of the relay's own events
/// carrying that channel.
pub open spec fn tagged_with(t: Seq<char>, c: Seq<char>) -> bool {
    ||| exists|rec: ClientInfo, ts: i64| t == #[trigger] joined_event_text(rec, c, ts)
    ||| exists|kind: EventKind, data: Option<JsonValue>, ts: i64|
        t == #[trigger] message_event_text(kind, c, data, ts)
}

/// Every pending text in every subscriber queue carries the queue's own
/// channel: a session never holds a message tagged with a channel it did
/// not subscribe to.
pub open spec fn queues_channel_tagged(reg: Registry) -> bool {
    forall|i: int, j: int, k: int|
        #![trigger reg.topics@[i].subs@[j].queue@[k]]
        0 <= i < reg.topics@.len() && 0 <= j < reg.topics@[i].subs@.len() && 0 <= k
            < reg.topics@[i].subs@[j].queue@.len() ==> tagged_with(
            reg.topics@[i].subs@[j].queue@[k]@,
            reg.topics@[i].name@,
        )
}

/// Each entry of an enqueued queue is the new text or one of the old
/// entries.
proof fn lemma_enqueue_entries(q: Seq<Seq<char>>, m: Seq<char>, k: int)
    requires
        0 <= k < enqueue(q, m).len(),
    ensures
        enqueue(q, m)[k] == m || exists|k0: int|
            0 <= k0 < q.len() && q[k0] == #[trigger] enqueue(q, m)[k],
{
    if q.len() < TOPIC_CAPACITY as int {
        if k < q.len() {
            assert(q[k] == enqueue(q, m)[k]);
        }
    } else {
        if k < enqueue(q, m).len() - 1 {
            assert(q[k + 1] == enqueue(q, m)[k]);
        }
    }
}

/// The tagging invariant survives a queue that just received the text
/// `m`, itself tagged with the queue's channel.
proof fn lemma_enqueue_keeps_tagging(qpre: Seq<String>, qpost: Seq<String>, m: Seq<char>, c: Seq<char>, k: int)
    requires
        texts(qpost) == enqueue(texts(qpre), m),
        tagged_with(m, c),
        forall|k0: int| 0 <= k0 < qpre.len() ==> tagged_with(#[trigger] qpre[k0]@, c),
        0 <= k < qpost.len(),
    ensures
        tagged_with(qpost[k]@, c),
{
    assert(texts(qpost)[k] == qpost[k]@);
    lemma_enqueue_entries(texts(qpre), m, k);
    if qpost[k]@ != m {
        let k0 = choose|k0: int| 0 <= k0 < texts(qpre).len() && texts(qpre)[k0] == enqueue(
            texts(qpre),
            m,
        )[k];
        assert(texts(qpre)[k0] == qpre[k0]@);
        assert(tagged_with(qpre[k0]@, c));
    }
}

/// A subscribe keeps every queue tagged with its own channel: the join
/// event carries the channel it is broadcast on, and every other entry
/// was already in place.
pub proof fn lemma_subscribe_keeps_tagging(
    pre: RelayState,
    post: RelayState,
    id: String,
    session: u64,
    channel: Seq<char>,
    role: Option<Role>,
    now: i64,
)
    requires
        pre.registry.wf(),
        post.registry.wf(),
        queues_channel_tagged(pre.registry),
        subscribe_post(pre, post, id, session, channel, role, now),
    ensures
        queues_channel_tagged(post.registry),
{
    let jt = joined_event_text(joined_record(id, role, now), channel, now);
    assert(tagged_with(jt, channel));
    assert forall|i: int, j: int, k: int|
        0 <= i < post.registry.topics@.len() && 0 <= j < post.registry.topics@[i].subs@.len() && 0
            <= k < post.registry.topics@[i].subs@[j].queue@.len() implies tagged_with(
        #[trigger] post.registry.topics@[i].subs@[j].queue@[k]@,
        post.registry.topics@[i].name@,
    ) by {
        let c = post.registry.topics@[i].name@;
        lemma_topic_at(post.registry, c, i);
        if c == channel {
            let n0 = pre.registry.subs_of(channel).len() as int;
            if j < n0 {
                assert(post.registry.subs_of(channel)[j].session == pre.registry.subs_of(
                    channel,
                )[j].session);
                assert(texts(post.registry.subs_of(channel)[j].queue@) == enqueue(
                    texts(pre.registry.subs_of(channel)[j].queue@),
                    jt,
                ));
                let qpre = pre.registry.subs_of(channel)[j].queue@;
                assert forall|k0: int| 0 <= k0 < qpre.len() implies tagged_with(
                    #[trigger] qpre[k0]@,
                    channel,
                ) by {
                    let i0 = pre.registry.topic_at(channel);
                    lemma_topic_at(pre.registry, channel, i0);
                    assert(pre.registry.topics@[i0].subs@[j].queue@[k0]
                        == pre.registry.subs_of(channel)[j].queue@[k0]);
                }
                lemma_enqueue_keeps_tagging(
                    qpre,
                    post.registry.subs_of(channel)[j].queue@,
                    jt,
                    channel,
                    k,
                );
            } else {
                assert(j == post.registry.subs_of(channel).len() - 1);
                assert(post.registry.subs_of(channel)[j] == post.registry.subs_of(channel).last());
                assert(texts(post.registry.subs_of(channel)[j].queue@) == seq![jt]);
                assert(texts(post.registry.subs_of(channel)[j].queue@).len()
                    == post.registry.subs_of(channel)[j].queue@.len());
                assert(texts(post.registry.subs_of(channel)[j].queue@)[k]
                    == post.registry.subs_of(channel)[j].queue@[k]@);
                assert(k == 0);
                assert(post.registry.topics@[i].subs@[j].queue@[k]@ == jt);
            }
        } else {
            assert(post.registry.subs_of(c) == pre.registry.subs_of(c));
            if pre.registry.has_topic(c) {
                let i0 = pre.registry.topic_at(c);
                lemma_topic_at(pre.registry, c, i0);
                assert(pre.registry.topics@[i0].subs@[j].queue@[k]
                    == post.registry.topics@[i].subs@[j].queue@[k]);
                assert(tagged_with(pre.registry.topics@[i0].subs@[j].queue@[k]@, c));
            } else {
                assert(pre.registry.subs_of(c).len() == 0);
            }
        }
    }
}

/// A publish or slide change keeps every queue tagged with its own
/// channel: the event carries the channel it is broadcast on, a
/// first-reference topic starts with no queues at all, and every other
/// entry was already in place.
pub proof fn lemma_publish_keeps_tagging(
    pre: RelayState,
    post: RelayState,
    kind: EventKind,
    channel: Seq<char>,
    data: Option<JsonValue>,
    now: i64,
)
    requires
        pre.registry.wf(),
        post.registry.wf(),
        queues_channel_tagged(pre.registry),
        publish_post(pre, post, kind, channel, data, now),
    ensures
        queues_channel_tagged(post.registry),
{
    let mt = message_event_text(kind, channel, data, now);
    assert(tagged_with(mt, channel));
    assert forall|i: int, j: int, k: int|
        0 <= i < post.registry.topics@.len() && 0 <= j < post.registry.topics@[i].subs@.len() && 0
            <= k < post.registry.topics@[i].subs@[j].queue@.len() implies tagged_with(
        #[trigger] post.registry.topics@[i].subs@[j].queue@[k]@,
        post.registry.topics@[i].name@,
    ) by {
        let c = post.registry.topics@[i].name@;
        lemma_topic_at(post.registry, c, i);
        if c == channel {
            assert(j < pre.registry.subs_of(channel).len());
            assert(post.registry.subs_of(channel)[j].session == pre.registry.subs_of(
                channel,
            )[j].session);
            assert(texts(post.registry.subs_of(channel)[j].queue@) == enqueue(
                texts(pre.registry.subs_of(channel)[j].queue@),
                mt,
            ));
            let qpre = pre.registry.subs_of(channel)[j].queue@;
            assert forall|k0: int| 0 <= k0 < qpre.len() implies tagged_with(
                #[trigger] qpre[k0]@,
                channel,
            ) by {
                let i0 = pre.registry.topic_at(channel);
                lemma_topic_at(pre.registry, channel, i0);
                assert(pre.registry.topics@[i0].subs@[j].queue@[k0]
                    == pre.registry.subs_of(channel)[j].queue@[k0]);
            }
            lemma_enqueue_keeps_tagging(
                qpre,
                post.registry.subs_of(channel)[j].queue@,
                mt,
                channel,
                k,
            );
        } else {
            assert(post.registry.subs_of(c) == pre.registry.subs_of(c));
            if pre.registry.has_topic(c) {
                let i0 = pre.registry.topic_at(c);
                lemma_topic_at(pre.registry, c, i0);
                assert(pre.registry.topics@[i0].subs@[j].queue@[k]
                    == post.registry.topics@[i].subs@[j].queue@[k]);
                assert(tagged_with(pre.registry.topics@[i0].subs@[j].queue@[k]@, c));
            } else {
                assert(pre.registry.subs_of(c).len() == 0);
            }
        }
    }
}

/// The invariant every dispatch step keeps: a session never receives a
/// message tagged with a channel it did not subscribe to, because every
/// queue only ever holds texts tagged with its own channel.  A fresh
/// relay has no queues, and each action's contract preserves the
/// property.
pub proof fn lemma_dispatch_keeps_tagging(
    pre: RelayState,
    post: RelayState,
    id: String,
    session: u64,
    msg: ClientMessage,
    now: i64,
)
    requires
        pre.registry.wf(),
        post.registry.wf(),
        queues_channel_tagged(pre.registry),
        msg.action == ActionKind::Subscribe ==> subscribe_post(
            pre,
            post,
            id,
            session,
            msg.channel@,
            msg.role,
            now,
        ),
        msg.action == ActionKind::Publish ==> publish_post(
            pre,
            post,
            EventKind::Message,
            msg.channel@,
            msg.data,
            now,
        ),
        msg.action == ActionKind::SlideChange ==> publish_post(
            pre,
            post,
            EventKind::SlideChange,
            msg.channel@,
            msg.data,
            now,
        ),
        msg.action == ActionKind::Unknown ==> post == pre,
    ensures
        queues_channel_tagged(post.registry),
{
    match msg.action {
        ActionKind::Subscribe => {
            lemma_subscribe_keeps_tagging(pre, post, id, session, msg.channel@, msg.role, now);
        },
        ActionKind::Publish => {
            lemma_publish_keeps_tagging(pre, post, EventKind::Message, msg.channel@, msg.data, now);
        },
        ActionKind::SlideChange => {
            lemma_publish_keeps_tagging(
                pre,
                post,
                EventKind::SlideChange,
                msg.channel@,
                msg.data,
                now,
            );
        },
        ActionKind::Unknown => {},
    }
}

} // verus!
//! The wire protocol: inbound client messages, outbound server events,
//! and the exact text each outbound event serializes to.

use vstd::prelude::*;
use crate::json::JsonValue;
use crate::json::escaped_text;
use crate::json::int_text;
use crate::json::json_text;
use crate::json::obj_lookup;
use crate::json::obj_text;
use crate::json::member_text;
use crate::json::plain_char;
use crate::json::lemma_escaped_plain;
use crate::json::write_escaped;
use crate::json::write_json;
use crate::json::write_i64;
use crate::json::write_raw;
use crate::json::chars_string;

verus! {

broadcast use vstd::string::group_string_axioms;

/// A participant's role in a channel.
#[derive(Clone, Copy, PartialEq, Eq, Structural, Debug)]
pub enum Role {
    Teacher,
    Student,
}

/// What an inbound message asks for.
#[derive(Clone, Copy, PartialEq, Eq, Structural, Debug)]
pub enum ActionKind {
    Subscribe,
    Publish,
    SlideChange,
    Unknown,
}

/// What an outbound event announces.
#[derive(Clone, Copy, PartialEq, Eq, Structural, Debug)]
pub enum EventKind {
    UserJoined,
    Message,
    SlideChange,
}

/// A decoded inbound message: an action on a channel, with an optional
/// payload and an optional role.
pub struct ClientMessage {
    pub action: ActionKind,
    pub channel: String,
    pub data: Option<JsonValue>,
    pub role: Option<Role>,
}

/// One presence record: who joined, as what, and when (epoch seconds).
pub struct ClientInfo {
    pub id: String,
    pub role: Role,
    pub joined_at: i64,
}

/// An outbound event bound for every subscriber of a channel.
pub struct ServerMessage {
    pub kind: EventKind,
    pub channel: String,
    pub data: JsonValue,
    pub timestamp: i64,
}

/// The wire text of a role.
pub open spec fn role_text(r: Role) -> Seq<char> {
    match r {
        Role::Teacher => "teacher"@,
        Role::Student => "student"@,
    }
}

/// The wire text of an outbound event's kind.
pub open spec fn event_kind_text(k: EventKind) -> Seq<char> {
    match k {
        EventKind::UserJoined => "user_joined"@,
        EventKind::Message => "message"@,
        EventKind::SlideChange => "slide_change"@,
    }
}

/// The serialized presence record: `{"id":...,"role":...,"joined_at":...}`.
pub open spec fn client_info_text(c: ClientInfo) -> Seq<char> {
    "{\"id\":\""@ + escaped_text(c.id@) + "\",\"role\":\""@ + role_text(c.role)
        + "\",\"joined_at\":"@ + int_text(c.joined_at as int) + "}"@
}

/// The serialized outbound event:
/// `{"type":...,"channel":...,"data":...,"timestamp":...}`.
pub open spec fn server_message_text(m: ServerMessage) -> Seq<char> {
    "{\"type\":\""@ + event_kind_text(m.kind) + "\",\"channel\":\""@ + escaped_text(m.channel@)
        + "\",\"data\":"@ + json_text(m.data) + ",\"timestamp\":"@ + int_text(m.timestamp as int)
        + "}"@
}

/// Serializes an outbound event to its wire text.
pub fn encode_server_message(m: &ServerMessage) -> (r: String)
    ensures
        r@ == server_message_text(*m),
{
    let mut out: Vec<char> = Vec::new();
    write_raw("{\"type\":\"", &mut out);
    match m.kind {
        EventKind::UserJoined => write_raw("user_joined", &mut out),
        EventKind::Message => write_raw("message", &mut out),
        EventKind::SlideChange => write_raw("slide_change", &mut out),
    }
    write_raw("\",\"channel\":\"", &mut out);
    write_escaped(m.channel.as_str(), &mut out);
    write_raw("\",\"data\":", &mut out);
    write_json(&m.data, &mut out);
    write_raw(",\"timestamp\":", &mut out);
    write_i64(m.timestamp, &mut out);
    write_raw("}", &mut out);
    let r = chars_string(&out);
    proof {
        assert(r@ =~= server_message_text(*m));
    }
    r
}

/// Builds the JSON payload of a `user_joined` event from a presence
/// record; its text is exactly `client_info_text`.
pub fn client_info_json(c: &ClientInfo) -> (r: JsonValue)
    ensures
        json_text(r) == client_info_text(*c),
{
    let mut pairs: Vec<(String, JsonValue)> = Vec::new();
    pairs.push(("id".to_owned(), JsonValue::Str(c.id.clone())));
    let role: &str = match c.role {
        Role::Teacher => "teacher",
        Role::Student => "student",
    };
    pairs.push(("role".to_owned(), JsonValue::Str(role.to_owned())));
    pairs.push(("joined_at".to_owned(), JsonValue::Int(c.joined_at)));
    let r = JsonValue::Obj(pairs);
    proof {
        reveal_with_fuel(obj_text, 4);
        reveal_strlit("id");
        reveal_strlit("role");
        reveal_strlit("teacher");
        reveal_strlit("student");
        reveal_strlit("joined_at");
        reveal_strlit("{\"id\":\"");
        reveal_strlit("\",\"role\":\"");
        reveal_strlit("\",\"joined_at\":");
        reveal_strlit("}");
        assert(forall|i: int| 0 <= i < ("id"@).len() ==> plain_char(#[trigger] ("id"@)[i]));
        assert(forall|i: int| 0 <= i < ("role"@).len() ==> plain_char(#[trigger] ("role"@)[i]));
        assert(forall|i: int| 0 <= i < ("joined_at"@).len() ==> plain_char(#[trigger] ("joined_at"@)[i]));
        assert(forall|i: int| 0 <= i < ("teacher"@).len() ==> plain_char(#[trigger] ("teacher"@)[i]));
        assert(forall|i: int| 0 <= i < ("student"@).len() ==> plain_char(#[trigger] ("student"@)[i]));
        lemma_escaped_plain("id"@);
        lemma_escaped_plain("role"@);
        lemma_escaped_plain("joined_at"@);
        lemma_escaped_plain(role_text(c.role));
        let ps = r->Obj_0@;
        let body = client_info_text(*c);
        assert(ps.drop_last() =~= ps.take(2));
        assert(ps.take(2).drop_last() =~= ps.take(1));
        assert(ps.take(1)[0] == ps[0]);
        assert(json_text(ps[0].1) == seq!['"'] + escaped_text(c.id@) + seq!['"']);
        assert(json_text(ps[1].1) == seq!['"'] + role_text(c.role) + seq!['"']);
        assert(json_text(ps[2].1) == int_text(c.joined_at as int));
        assert(member_text(ps[0]) == seq!['"'] + "id"@ + seq!['"', ':'] + (seq!['"'] + escaped_text(c.id@) + seq!['"']));
        assert(member_text(ps[1]) == seq!['"'] + "role"@ + seq!['"', ':'] + (seq!['"'] + role_text(c.role) + seq!['"']));
        assert(member_text(ps[2]) == seq!['"'] + "joined_at"@ + seq!['"', ':'] + int_text(c.joined_at as int));
        assert(obj_text(ps.take(1)) == member_text(ps[0]));
        assert(obj_text(ps.take(2)) == obj_text(ps.take(1)) + seq![','] + member_text(ps[1]));
        assert(obj_text(ps) == obj_text(ps.take(2)) + seq![','] + member_text(ps[2]));
        assert(json_text(r) == seq!['{'] + obj_text(ps) + seq!['}']);
        assert(json_text(r) =~= body);
    }
    r
}

/// The role meant by an inbound message: the stated one, else student.
pub open spec fn default_role(r: Option<Role>) -> Role {
    match r {
        Some(role) => role,
        None => Role::Student,
    }
}

/// The action named by the inbound `action` string.
pub open spec fn action_of_text(s: Seq<char>) -> ActionKind {
    if s == "subscribe"@ {
        ActionKind::Subscribe
    } else if s == "publish"@ {
        ActionKind::Publish
    } else if s == "slide_change"@ {
        ActionKind::SlideChange
    } else {
        ActionKind::Unknown
    }
}

/// The role named by an inbound `role` string, if it names one.
pub open spec fn role_of_text(s: Seq<char>) -> Option<Role> {
    if s == "teacher"@ {
        Some(Role::Teacher)
    } else if s == "student"@ {
        Some(Role::Student)
    } else {
        None
    }
}

/// What a decoded JSON document means as an inbound message, if
/// anything: it must be an object whose `action` and `channel` members
/// are strings; `data` is kept as given (an absent or null `data` is no
/// payload); `role` may be absent, null, or one of the two role names.
/// Anything else is malformed and dropped.
pub open spec fn spec_parse_client_message(v: JsonValue) -> Option<ClientMessage> {
    match v {
        JsonValue::Obj(pairs) => {
            match (obj_lookup(pairs@, "action"@), obj_lookup(pairs@, "channel"@)) {
                (Some(JsonValue::Str(action)), Some(JsonValue::Str(channel))) => {
                    let data = match obj_lookup(pairs@, "data"@) {
                        Some(JsonValue::Null) => None,
                        Some(d) => Some(d),
                        None => None,
                    };
                    match obj_lookup(pairs@, "role"@) {
                        Some(JsonValue::Str(r)) => match role_of_text(r@) {
                            Some(role) => Some(ClientMessage {
                                action: action_of_text(action@),
                                channel,
                                data,
                                role: Some(role),
                            }),
                            None => None,
                        },
                        Some(JsonValue::Null) | None => Some(ClientMessage {
                            action: action_of_text(action@),
                            channel,
                            data,
                            role: None,
                        }),
                        Some(_) => None,
                    }
                },
                _ => None,
            }
        },
        _ => None,
    }
}

/// Chopping the first member off an object changes a lookup only when
/// no later member has the key: the last member with it wins.
pub proof fn lemma_obj_lookup_cons(s: Seq<(String, JsonValue)>, key: Seq<char>)
    requires
        s.len() > 0,
    ensures
        obj_lookup(s, key) == (match obj_lookup(s.drop_first(), key) {
            Some(v) => Some::<JsonValue>(v),
            None => if s[0].0@ == key { Some::<JsonValue>(s[0].1) } else { None::<JsonValue> },
        }),
    decreases s.len(),
{
    if s.len() == 1 {
        assert(s.drop_first() =~= Seq::<(String, JsonValue)>::empty());
        assert(s.last() == s[0]);
    } else {
        let t = s.drop_last();
        lemma_obj_lookup_cons(t, key);
        assert(s.drop_first().last() == s.last());
        assert(s.drop_first().drop_last() =~= t.drop_first());
        assert(t[0] == s[0]);
    }
}

/// Decodes an inbound message from its JSON document, dropping
/// malformed ones exactly as `spec_parse_client_message` says.
pub fn parse_client_message(v: JsonValue) -> (r: Option<ClientMessage>)
    ensures
        r == spec_parse_client_message(v),
{
    let key_action: String = "action".to_owned();
    let key_channel: String = "channel".to_owned();
    let key_data: String = "data".to_owned();
    let key_role: String = "role".to_owned();
    let mut pairs = match v {
        JsonValue::Obj(pairs) => pairs,
        _ => {
            return None;
        },
    };
    let ghost all = pairs@;
    let mut action: Option<JsonValue> = None;
    let mut channel: Option<JsonValue> = None;
    let mut data: Option<JsonValue> = None;
    let mut role: Option<JsonValue> = None;
    loop
        invariant
            pairs@.len() <= all.len(),
            action == obj_lookup(all.skip(pairs@.len() as int), "action"@),
            channel == obj_lookup(all.skip(pairs@.len() as int), "channel"@),
            data == obj_lookup(all.skip(pairs@.len() as int), "data"@),
            role == obj_lookup(all.skip(pairs@.len() as int), "role"@),
            all.take(pairs@.len() as int) == pairs@,
            key_action@ == "action"@,
            key_channel@ == "channel"@,
            key_data@ == "data"@,
            key_role@ == "role"@,
        ensures
            pairs@.len() == 0,
        decreases pairs@.len(),
    {
        let last = match pairs.pop() {
            Some(p) => p,
            None => {
                break;
            },
        };
        proof {
            reveal_strlit("action");
            reveal_strlit("channel");
            reveal_strlit("data");
            reveal_strlit("role");
            assert("action"@.len() == 6);
            assert("channel"@.len() == 7);
            assert("data"@.len() == 4);
            assert("role"@.len() == 4);
            assert(("data"@)[0] == 'd' && ("role"@)[0] == 'r');
            assert("action"@ != "channel"@);
            assert("action"@ != "data"@);
            assert("action"@ != "role"@);
            assert("channel"@ != "data"@);
            assert("channel"@ != "role"@);
            assert("data"@ != "role"@);
            let k = pairs@.len() as int;
            assert(all.take(k + 1).last() == all[k]);
            assert(all.take(k + 1).drop_last() =~= all.take(k));
            assert(all.skip(k)[0] == all[k]);
            assert(all.skip(k).drop_first() =~= all.skip(k + 1));
            lemma_obj_lookup_cons(all.skip(k), "action"@);
            lemma_obj_lookup_cons(all.skip(k), "channel"@);
            lemma_obj_lookup_cons(all.skip(k), "data"@);
            lemma_obj_lookup_cons(all.skip(k), "role"@);
        }
        let (key, value) = last;
        if key == key_action {
            if action.is_none() {
                action = Some(value);
            }
        } else if key == key_channel {
            if channel.is_none() {
                channel = Some(value);
            }
        } else if key == key_data {
            if data.is_none() {
                data = Some(value);
            }
        } else if key == key_role {
            if role.is_none() {
                role = Some(value);
            }
        }
    }
    proof {
        assert(all.skip(0) =~= all);
    }
    let action_s = match action {
        Some(JsonValue::Str(s)) => s,
        _ => {
            return None;
        },
    };
    let channel_s = match channel {
        Some(JsonValue::Str(s)) => s,
        _ => {
            return None;
        },
    };
    let data_v = match data {
        Some(JsonValue::Null) => None,
        Some(d) => Some(d),
        None => None,
    };
    let role_v = match role {
        Some(JsonValue::Str(r)) => {
            if r == "teacher".to_owned() {
                Some(Role::Teacher)
            } else if r == "student".to_owned() {
                Some(Role::Student)
            } else {
                return None;
            }
        },
        Some(JsonValue::Null) | None => None,
        Some(_) => {
            return None;
        },
    };
    let kind = parse_action(&action_s);
    Some(ClientMessage { action: kind, channel: channel_s, data: data_v, role: role_v })
}

/// Classifies an inbound `action` string.
pub fn parse_action(s: &String) -> (r: ActionKind)
    ensures
        r == action_of_text(s@),
{
    if *s == "subscribe".to_owned() {
        ActionKind::Subscribe
    } else if *s == "publish".to_owned() {
        ActionKind::Publish
    } else if *s == "slide_change".to_owned() {
        ActionKind::SlideChange
    } else {
        ActionKind::Unknown
    }
}

} // verus!

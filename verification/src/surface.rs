//! The read-only query surface: the JSON bodies served for a channel's
//! presence and for the health check.

use vstd::prelude::*;
use crate::json::chars_string;
use crate::json::escaped_text;
use crate::json::int_text;
use crate::json::write_escaped;
use crate::json::write_i64;
use crate::json::write_raw;
use crate::protocol::ClientInfo;
use crate::protocol::client_info_text;

verus! {

/// The comma-separated serialized presence records.
pub open spec fn participants_text(records: Seq<ClientInfo>) -> Seq<char>
    decreases records.len(),
{
    if records.len() == 0 {
        Seq::empty()
    } else if records.len() == 1 {
        client_info_text(records[0])
    } else {
        participants_text(records.drop_last()) + seq![','] + client_info_text(records.last())
    }
}

/// The body served for a channel's presence:
/// `{"channel":...,"participants":[...]}`.
pub open spec fn presence_text(channel: Seq<char>, records: Seq<ClientInfo>) -> Seq<char> {
    "{\"channel\":\""@ + escaped_text(channel) + "\",\"participants\":["@ + participants_text(
        records,
    ) + "]}"@
}

/// The body served for the health check:
/// `{"status":"healthy","service":"rably-websocket","timestamp":...}`.
pub open spec fn health_text(now: i64) -> Seq<char> {
    "{\"status\":\"healthy\",\"service\":\"rably-websocket\",\"timestamp\":"@ + int_text(
        now as int,
    ) + "}"@
}

/// Appends one serialized presence record.
fn write_client_info(rec: &ClientInfo, out: &mut Vec<char>)
    ensures
        final(out)@ == old(out)@ + client_info_text(*rec),
{
    write_raw("{\"id\":\"", out);
    write_escaped(rec.id.as_str(), out);
    write_raw("\",\"role\":\"", out);
    match rec.role {
        crate::protocol::Role::Teacher => write_raw("teacher", out),
        crate::protocol::Role::Student => write_raw("student", out),
    }
    write_raw("\",\"joined_at\":", out);
    write_i64(rec.joined_at, out);
    write_raw("}", out);
    assert(out@ =~= old(out)@ + client_info_text(*rec));
}

/// Serializes a presence snapshot for one channel, exactly as
/// `presence_text` says.
pub fn presence_json(channel: &String, records: &Vec<ClientInfo>) -> (r: String)
    ensures
        r@ == presence_text(channel@, records@),
{
    let mut out: Vec<char> = Vec::new();
    write_raw("{\"channel\":\"", &mut out);
    write_escaped(channel.as_str(), &mut out);
    write_raw("\",\"participants\":[", &mut out);
    let ghost head = out@;
    let n = records.len();
    let mut i: usize = 0;
    while i < n
        invariant
            n == records@.len(),
            i <= n,
            out@ == head + participants_text(records@.take(i as int)),
        decreases n - i,
    {
        if i > 0 {
            write_raw(",", &mut out);
        }
        write_client_info(&records[i], &mut out);
        proof {
            let t = records@.take(i + 1 as int);
            assert(t.drop_last() =~= records@.take(i as int));
            assert(t.last() == records@[i as int]);
            if i == 0 {
                assert(records@.take(0int) =~= Seq::<ClientInfo>::empty());
            }
            reveal_strlit(",");
            assert(out@ =~= head + participants_text(t));
        }
        i = i + 1;
    }
    write_raw("]}", &mut out);
    let r = chars_string(&out);
    proof {
        assert(records@.take(n as int) =~= records@);
        assert(r@ =~= presence_text(channel@, records@));
    }
    r
}

/// Serializes the health body, exactly as `health_text` says.
pub fn health_json(now: i64) -> (r: String)
    ensures
        r@ == health_text(now),
{
    let mut out: Vec<char> = Vec::new();
    write_raw("{\"status\":\"healthy\",\"service\":\"rably-websocket\",\"timestamp\":", &mut out);
    write_i64(now, &mut out);
    write_raw("}", &mut out);
    let r = chars_string(&out);
    proof {
        assert(r@ =~= health_text(now));
    }
    r
}

} // verus!

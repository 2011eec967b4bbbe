//! The presence table: which client records are currently recorded as
//! joined to each channel.
//!
//! Records are written on join and never removed; a snapshot is a
//! point-in-time copy of one channel's records.  A join overwrites the
//! record with the same client id, so a channel never lists one client
//! twice.

use vstd::prelude::*;
use crate::protocol::ClientInfo;

verus! {

/// The records of one channel, in join order.
pub struct ChannelPresence {
    pub name: String,
    pub records: Vec<ClientInfo>,
}

/// All channels' presence records.
pub struct PresenceTable {
    pub channels: Vec<ChannelPresence>,
}

/// No two records carry the same client id.
pub open spec fn ids_unique(recs: Seq<ClientInfo>) -> bool {
    forall|i: int, j: int| 0 <= i < j < recs.len() ==> recs[i].id@ != recs[j].id@
}

/// Some record carries this client id.
pub open spec fn has_id(recs: Seq<ClientInfo>, id: Seq<char>) -> bool {
    exists|i: int| 0 <= i < recs.len() && #[trigger] recs[i].id@ == id
}

/// The position of the record with this client id.
pub open spec fn id_index(recs: Seq<ClientInfo>, id: Seq<char>) -> int {
    choose|i: int| 0 <= i < recs.len() && #[trigger] recs[i].id@ == id
}

/// What one join does to a channel's records: overwrite the record with
/// the same client id, else append.
pub open spec fn spec_join(recs: Seq<ClientInfo>, rec: ClientInfo) -> Seq<ClientInfo> {
    if has_id(recs, rec.id@) {
        recs.update(id_index(recs, rec.id@), rec)
    } else {
        recs.push(rec)
    }
}

impl PresenceTable {
    /// Channel names are unique, and so are client ids within a channel.
    pub open spec fn wf(self) -> bool {
        &&& forall|i: int, j: int|
            0 <= i < j < self.channels@.len() ==> self.channels@[i].name@
                != self.channels@[j].name@
        &&& forall|i: int|
            0 <= i < self.channels@.len() ==> ids_unique(#[trigger] self.channels@[i].records@)
    }

    /// Some channel entry carries this name.
    pub open spec fn has_channel(self, name: Seq<char>) -> bool {
        exists|i: int|
            0 <= i < self.channels@.len() && #[trigger] self.channels@[i].name@ == name
    }

    /// The position of the channel entry with this name.
    pub open spec fn channel_at(self, name: Seq<char>) -> int {
        choose|i: int|
            0 <= i < self.channels@.len() && #[trigger] self.channels@[i].name@ == name
    }

    /// The records of a channel; a channel never joined has none.
    pub open spec fn records_of(self, name: Seq<char>) -> Seq<ClientInfo> {
        if self.has_channel(name) {
            self.channels@[self.channel_at(name)].records@
        } else {
            Seq::empty()
        }
    }

    /// An empty table: no channel has any record.
    pub fn new() -> (r: Self)
        ensures
            r.wf(),
            r.channels@.len() == 0,
            forall|c: Seq<char>| #[trigger] r.records_of(c) == Seq::<ClientInfo>::empty(),
    {
        PresenceTable { channels: Vec::new() }
    }

    /// The position of the channel entry named `name`, if there is one.
    fn find_channel(&self, name: &String) -> (r: Option<usize>)
        ensures
            match r {
                Some(i) => i < self.channels@.len() && self.channels@[i as int].name@ == name@,
                None => !self.has_channel(name@),
            },
    {
        let n = self.channels.len();
        let mut i: usize = 0;
        while i < n
            invariant
                n == self.channels@.len(),
                i <= n,
                forall|k: int| 0 <= k < i ==> #[trigger] self.channels@[k].name@ != name@,
            decreases n - i,
        {
            if self.channels[i].name == *name {
                return Some(i);
            }
            i = i + 1;
        }
        None
    }

    /// Records the join of `rec` to `channel`: the record with the same
    /// client id is overwritten, else the record is appended; no other
    /// channel changes.
    pub fn record_join(&mut self, channel: &String, rec: ClientInfo)
        requires
            old(self).wf(),
        ensures
            final(self).wf(),
            final(self).has_channel(channel@),
            final(self).records_of(channel@) == spec_join(old(self).records_of(channel@), rec),
            forall|c: Seq<char>|
                c != channel@ ==> final(self).records_of(c) == old(self).records_of(c),
            forall|c: Seq<char>|
                #[trigger] final(self).has_channel(c) <==> (old(self).has_channel(c) || c
                    == channel@),
    {
        let found = self.find_channel(channel);
        match found {
            None => {
                let mut records: Vec<ClientInfo> = Vec::new();
                records.push(rec);
                self.channels.push(ChannelPresence { name: channel.clone(), records });
                proof {
                    let n = old(self).channels@.len() as int;
                    assert(forall|i: int|
                        0 <= i < n ==> #[trigger] self.channels@[i] == old(self).channels@[i]);
                    lemma_channel_at(*self, channel@, n);
                    assert(!has_id(Seq::<ClientInfo>::empty(), self.channels@[n].records@[0].id@));
                    assert(self.channels@[n].records@
                        =~= spec_join(Seq::<ClientInfo>::empty(), rec));
                    assert forall|c: Seq<char>| c != channel@ implies final(self).records_of(c)
                        == old(self).records_of(c) by {
                        lemma_other_channels(*old(self), *self, c, n);
                    }
                    assert forall|c: Seq<char>|
                        #[trigger] final(self).has_channel(c) <==> (old(self).has_channel(c) || c
                            == channel@) by {
                        if old(self).has_channel(c) {
                            let j = old(self).channel_at(c);
                            assert(self.channels@[j].name@ == c);
                        }
                        if c == channel@ {
                            assert(self.channels@[n].name@ == c);
                        }
                        if final(self).has_channel(c) && c != channel@ {
                            let j = final(self).channel_at(c);
                            assert(self.channels@[j].name@ == c);
                            assert(j != n);
                            assert(old(self).channels@[j].name@ == c);
                        }
                    }
                }
            },
            Some(ci) => {
                let id_hit = find_record(&self.channels[ci].records, &rec.id);
                let ghost before = *self;
                match id_hit {
                    Some(ri) => {
                        self.channels[ci].records[ri] = rec;
                    },
                    None => {
                        self.channels[ci].records.push(rec);
                    },
                }
                proof {
                    let k = ci as int;
                    lemma_channel_at(*old(self), channel@, k);
                    lemma_channel_at(*self, channel@, k);
                    let olds = old(self).channels@[k].records@;
                    if has_id(olds, rec.id@) {
                        let w = id_index(olds, rec.id@);
                        assert(olds[w].id@ == rec.id@);
                        assert(self.channels@[k].records@ =~= olds.update(w, rec));
                    } else {
                        assert(self.channels@[k].records@ =~= olds.push(rec));
                    }
                    assert forall|c: Seq<char>| c != channel@ implies final(self).records_of(c)
                        == old(self).records_of(c) by {
                        lemma_other_channels_same_len(*old(self), *self, c, k);
                    }
                    assert forall|c: Seq<char>|
                        #[trigger] final(self).has_channel(c) <==> (old(self).has_channel(c) || c
                            == channel@) by {
                        if old(self).has_channel(c) {
                            let j = old(self).channel_at(c);
                            assert(self.channels@[j].name@ == c);
                        }
                        if final(self).has_channel(c) {
                            let j = final(self).channel_at(c);
                            assert(old(self).channels@[j].name@ == c);
                        }
                        if c == channel@ {
                            assert(self.channels@[k].name@ == c);
                        }
                    }
                }
            },
        }
    }

    /// A point-in-time copy of a channel's records; a channel never
    /// joined yields an empty list.
    pub fn snapshot(&self, channel: &String) -> (r: Vec<ClientInfo>)
        requires
            self.wf(),
        ensures
            r@ == self.records_of(channel@),
    {
        let found = self.find_channel(channel);
        match found {
            None => Vec::new(),
            Some(ci) => {
                proof {
                    lemma_channel_at(*self, channel@, ci as int);
                }
                let recs = &self.channels[ci].records;
                let n = recs.len();
                let mut out: Vec<ClientInfo> = Vec::new();
                let mut i: usize = 0;
                while i < n
                    invariant
                        n == recs@.len(),
                        i <= n,
                        out@ =~= recs@.take(i as int),
                    decreases n - i,
                {
                    let x = &recs[i];
                    out.push(ClientInfo { id: x.id.clone(), role: x.role, joined_at: x.joined_at });
                    proof {
                        assert(out@ =~= recs@.take(i + 1 as int));
                    }
                    i = i + 1;
                }
                proof {
                    assert(recs@.take(n as int) =~= recs@);
                }
                out
            },
        }
    }
}

/// The position of the record carrying `id`, if one does.
fn find_record(recs: &Vec<ClientInfo>, id: &String) -> (r: Option<usize>)
    ensures
        match r {
            Some(i) => i < recs@.len() && recs@[i as int].id@ == id@,
            None => !has_id(recs@, id@),
        },
{
    let n = recs.len();
    let mut i: usize = 0;
    while i < n
        invariant
            n == recs@.len(),
            i <= n,
            forall|k: int| 0 <= k < i ==> #[trigger] recs@[k].id@ != id@,
        decreases n - i,
    {
        if recs[i].id == *id {
            return Some(i);
        }
        i = i + 1;
    }
    None
}

/// In a well-formed table the entry at a name's position is the only
/// one with that name.
pub proof fn lemma_channel_at(t: PresenceTable, name: Seq<char>, i: int)
    requires
        t.wf(),
        0 <= i < t.channels@.len(),
        t.channels@[i].name@ == name,
    ensures
        t.has_channel(name),
        t.channel_at(name) == i,
        t.records_of(name) == t.channels@[i].records@,
{
    assert(t.has_channel(name));
    let j = t.channel_at(name);
    if j != i {
        if i < j {
            assert(t.channels@[i].name@ != t.channels@[j].name@);
        } else {
            assert(t.channels@[j].name@ != t.channels@[i].name@);
        }
    }
}

/// A channel other than the one just created reads the same before and
/// after the new entry is appended at position `n`.
proof fn lemma_other_channels(before: PresenceTable, after: PresenceTable, c: Seq<char>, n: int)
    requires
        before.wf(),
        after.wf(),
        after.channels@.len() == n + 1,
        before.channels@.len() == n,
        forall|i: int| 0 <= i < n ==> #[trigger] after.channels@[i] == before.channels@[i],
        after.channels@[n].name@ != c,
    ensures
        after.records_of(c) == before.records_of(c),
{
    if after.has_channel(c) {
        let j = after.channel_at(c);
        assert(after.channels@[j].name@ == c);
        assert(j < n);
        assert(before.channels@[j] == after.channels@[j]);
        lemma_channel_at(before, c, j);
        lemma_channel_at(after, c, j);
    } else {
        if before.has_channel(c) {
            let j = before.channel_at(c);
            assert(before.channels@[j].name@ == c);
            assert(after.channels@[j].name@ == c);
            assert(after.has_channel(c));
        }
    }
}

/// A channel other than the one whose entry at position `k` changed
/// reads the same before and after.
proof fn lemma_other_channels_same_len(
    before: PresenceTable,
    after: PresenceTable,
    c: Seq<char>,
    k: int,
)
    requires
        before.wf(),
        after.wf(),
        after.channels@.len() == before.channels@.len(),
        forall|i: int|
            0 <= i < before.channels@.len() && i != k ==> after.channels@[i]
                == before.channels@[i],
        0 <= k < before.channels@.len(),
        after.channels@[k].name@ == before.channels@[k].name@,
        before.channels@[k].name@ != c,
    ensures
        after.records_of(c) == before.records_of(c),
{
    if after.has_channel(c) {
        let j = after.channel_at(c);
        assert(after.channels@[j].name@ == c);
        assert(j != k);
        lemma_channel_at(before, c, j);
        lemma_channel_at(after, c, j);
    } else {
        if before.has_channel(c) {
            let j = before.channel_at(c);
            assert(before.channels@[j].name@ == c);
            assert(j != k);
            assert(after.channels@[j] == before.channels@[j]);
            assert(after.has_channel(c));
        }
    }
}

/// The records after a run of joins, applied in order.
pub open spec fn join_all(recs: Seq<ClientInfo>, joins: Seq<ClientInfo>) -> Seq<ClientInfo>
    decreases joins.len(),
{
    if joins.len() == 0 {
        recs
    } else {
        join_all(spec_join(recs, joins[0]), joins.drop_first())
    }
}

/// A run of joins whose client ids are pairwise distinct and fresh
/// appends exactly those records, in join order: after `N` such joins
/// the channel holds exactly `N` records, each as it was joined.
pub proof fn lemma_join_all_fresh(recs: Seq<ClientInfo>, joins: Seq<ClientInfo>)
    requires
        forall|i: int, j: int| 0 <= i < j < joins.len() ==> joins[i].id@ != joins[j].id@,
        forall|i: int| 0 <= i < joins.len() ==> !has_id(recs, #[trigger] joins[i].id@),
    ensures
        join_all(recs, joins) == recs + joins,
    decreases joins.len(),
{
    if joins.len() == 0 {
        assert(join_all(recs, joins) =~= recs + joins);
    } else {
        let first = joins[0];
        assert(!has_id(recs, first.id@));
        assert(spec_join(recs, first) == recs.push(first));
        let recs2 = recs.push(first);
        let rest = joins.drop_first();
        assert forall|i: int| 0 <= i < rest.len() implies !has_id(recs2, #[trigger] rest[i].id@) by {
            assert(rest[i] == joins[i + 1]);
            assert(joins[0].id@ != joins[i + 1].id@);
            if has_id(recs2, rest[i].id@) {
                let w = choose|w: int|
                    0 <= w < recs2.len() && #[trigger] recs2[w].id@ == rest[i].id@;
                if w < recs.len() {
                    assert(recs[w].id@ == rest[i].id@);
                    assert(has_id(recs, rest[i].id@));
                } else {
                    assert(recs2[w] == first);
                }
            }
        }
        lemma_join_all_fresh(recs2, rest);
        assert(recs2 + rest =~= recs + joins);
    }
}

/// Starting from nothing, a run of joins with pairwise distinct client
/// ids records exactly those joins.
pub proof fn lemma_joins_from_empty(joins: Seq<ClientInfo>)
    requires
        forall|i: int, j: int| 0 <= i < j < joins.len() ==> joins[i].id@ != joins[j].id@,
    ensures
        join_all(Seq::empty(), joins) == joins,
        join_all(Seq::empty(), joins).len() == joins.len(),
{
    lemma_join_all_fresh(Seq::empty(), joins);
    assert(Seq::empty() + joins =~= joins);
}

} // verus!

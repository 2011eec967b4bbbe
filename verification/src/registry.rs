//! The topic registry and its fan-out model.
//!
//! One topic per channel name, created on first reference and never
//! removed.  Each subscriber of a topic owns a bounded queue of pending
//! wire texts; a broadcast appends the text to every subscriber's queue,
//! dropping the oldest entry first when a queue is full, so a slow
//! subscriber loses old messages but keeps receiving new ones.

use vstd::prelude::*;

verus! {

/// How many pending texts a subscriber's queue holds at most.
pub const TOPIC_CAPACITY: usize = 1000;

/// One subscription: who holds it and what it has not yet drained.
pub struct Subscriber {
    pub session: u64,
    pub queue: Vec<String>,
}

/// The fan-out endpoint of one channel.
pub struct Topic {
    pub name: String,
    pub subs: Vec<Subscriber>,
}

/// All topics, one per channel name ever referenced by a subscribe.
pub struct Registry {
    pub topics: Vec<Topic>,
}

/// The pending texts of a queue, as character sequences.
pub open spec fn texts(q: Seq<String>) -> Seq<Seq<char>> {
    q.map_values(|s: String| s@)
}

/// What a broadcast does to one queue: append the text; a full queue
/// first drops its oldest entry.
pub open spec fn enqueue(q: Seq<Seq<char>>, m: Seq<char>) -> Seq<Seq<char>> {
    if q.len() < TOPIC_CAPACITY as int {
        q.push(m)
    } else {
        q.drop_first().push(m)
    }
}

/// Everything a broadcast of `m` to `name` promises the subscribers:
/// each subscriber of that channel keeps its session and has `m`
/// enqueued; every other topic's entry is untouched.
pub open spec fn fanout_ok(pre: Registry, post: Registry, name: Seq<char>, m: Seq<char>) -> bool {
    forall|i: int, j: int|
        0 <= i < pre.topics@.len() && pre.topics@[i].name@ == name && 0 <= j
            < pre.topics@[i].subs@.len()
            ==> #[trigger] post.topics@[i].subs@[j].session == pre.topics@[i].subs@[j].session
            && texts(post.topics@[i].subs@[j].queue@) == enqueue(
            texts(pre.topics@[i].subs@[j].queue@),
            m,
        )
}

impl Registry {
    /// Topic names are unique and every queue is within capacity.
    pub open spec fn wf(self) -> bool {
        &&& forall|i: int, j: int|
            0 <= i < j < self.topics@.len() ==> self.topics@[i].name@ != self.topics@[j].name@
        &&& forall|i: int, j: int|
            0 <= i < self.topics@.len() && 0 <= j < self.topics@[i].subs@.len()
                ==> #[trigger] self.topics@[i].subs@[j].queue@.len() <= TOPIC_CAPACITY as int
    }

    /// Some topic carries this channel name.
    pub open spec fn has_topic(self, name: Seq<char>) -> bool {
        exists|i: int| 0 <= i < self.topics@.len() && #[trigger] self.topics@[i].name@ == name
    }

    /// The position of the topic with this channel name.
    pub open spec fn topic_at(self, name: Seq<char>) -> int {
        choose|i: int| 0 <= i < self.topics@.len() && #[trigger] self.topics@[i].name@ == name
    }

    /// The subscribers of a channel's topic; none when the channel has
    /// never been referenced.
    pub open spec fn subs_of(self, name: Seq<char>) -> Seq<Subscriber> {
        if self.has_topic(name) {
            self.topics@[self.topic_at(name)].subs@
        } else {
            Seq::empty()
        }
    }

    /// An empty registry: no channel has a topic.
    pub fn new() -> (r: Self)
        ensures
            r.wf(),
            r.topics@.len() == 0,
            forall|c: Seq<char>| !r.has_topic(c),
    {
        Registry { topics: Vec::new() }
    }

    /// The position of the topic named `name`, if there is one.
    pub fn find_topic(&self, name: &String) -> (r: Option<usize>)
        ensures
            match r {
                Some(i) => i < self.topics@.len() && self.topics@[i as int].name@ == name@,
                None => !self.has_topic(name@),
            },
    {
        let n = self.topics.len();
        let mut i: usize = 0;
        while i < n
            invariant
                n == self.topics@.len(),
                i <= n,
                forall|k: int| 0 <= k < i ==> #[trigger] self.topics@[k].name@ != name@,
            decreases n - i,
        {
            if self.topics[i].name == *name {
                return Some(i);
            }
            i = i + 1;
        }
        None
    }

    /// The topic for a channel, created on first reference: exactly one
    /// topic exists per distinct channel name, however often this is
    /// called; a second reference returns the topic the first one made,
    /// with the registry unchanged.
    pub fn get_or_create(&mut self, name: &String) -> (idx: usize)
        requires
            old(self).wf(),
        ensures
            final(self).wf(),
            idx < final(self).topics@.len(),
            final(self).topics@[idx as int].name@ == name@,
            final(self).topic_at(name@) == idx as int,
            final(self).has_topic(name@),
            old(self).has_topic(name@) ==> final(self).topics == old(self).topics && idx as int
                == old(self).topic_at(name@),
            !old(self).has_topic(name@) ==> final(self).topics@.len() == old(self).topics@.len()
                + 1 && idx as int == old(self).topics@.len() && (forall|i: int|
                0 <= i < old(self).topics@.len() ==> #[trigger] final(self).topics@[i] == old(
                    self,
                ).topics@[i]) && final(self).topics@[idx as int].subs@.len() == 0,
            forall|c: Seq<char>|
                #[trigger] final(self).has_topic(c) <==> (old(self).has_topic(c) || c == name@),
    {
        let found = self.find_topic(name);
        match found {
            Some(i) => {
                proof {
                    lemma_topic_at(*self, name@, i as int);
                    assert forall|c: Seq<char>|
                        #[trigger] final(self).has_topic(c) <==> (old(self).has_topic(c) || c
                            == name@) by {
                        if c == name@ {
                            assert(self.topics@[i as int].name@ == c);
                        }
                    }
                }
                i
            },
            None => {
                let idx = self.topics.len();
                self.topics.push(Topic { name: name.clone(), subs: Vec::new() });
                proof {
                    let n = idx as int;
                    assert(forall|i: int|
                        0 <= i < n ==> #[trigger] self.topics@[i] == old(self).topics@[i]);
                    lemma_topic_at(*self, name@, n);
                    assert forall|c: Seq<char>|
                        #[trigger] final(self).has_topic(c) <==> (old(self).has_topic(c) || c
                            == name@) by {
                        if old(self).has_topic(c) {
                            let j = old(self).topic_at(c);
                            assert(self.topics@[j].name@ == c);
                        }
                        if c == name@ {
                            assert(self.topics@[n].name@ == c);
                        }
                        if final(self).has_topic(c) && c != name@ {
                            let j = final(self).topic_at(c);
                            assert(self.topics@[j].name@ == c);
                            assert(j != n);
                            assert(old(self).topics@[j].name@ == c);
                        }
                    }
                }
                idx
            },
        }
    }

    /// Attaches a new subscription for `session` to the topic at `idx`:
    /// its queue starts empty, and nothing else changes.
    pub fn add_subscriber(&mut self, idx: usize, session: u64)
        requires
            old(self).wf(),
            idx < old(self).topics@.len(),
        ensures
            final(self).wf(),
            final(self).topics@.len() == old(self).topics@.len(),
            forall|i: int|
                0 <= i < old(self).topics@.len() && i != idx as int
                    ==> #[trigger] final(self).topics@[i] == old(self).topics@[i],
            final(self).topics@[idx as int].name == old(self).topics@[idx as int].name,
            final(self).topics@[idx as int].subs@.len() == old(self).topics@[idx as int].subs@.len()
                + 1,
            forall|j: int|
                0 <= j < old(self).topics@[idx as int].subs@.len()
                    ==> #[trigger] final(self).topics@[idx as int].subs@[j] == old(
                    self,
                ).topics@[idx as int].subs@[j],
            final(self).topics@[idx as int].subs@.last().session == session,
            final(self).topics@[idx as int].subs@.last().queue@.len() == 0,
            forall|c: Seq<char>|
                #[trigger] final(self).has_topic(c) <==> old(self).has_topic(c),
    {
        self.topics[idx].subs.push(Subscriber { session, queue: Vec::new() });
        proof {
            assert forall|c: Seq<char>|
                #[trigger] final(self).has_topic(c) <==> old(self).has_topic(c) by {
                if old(self).has_topic(c) {
                    let j = old(self).topic_at(c);
                    assert(self.topics@[j].name@ == c);
                }
                if final(self).has_topic(c) {
                    let j = final(self).topic_at(c);
                    assert(old(self).topics@[j].name@ == c);
                }
            }
        }
    }

    /// Broadcasts `text` to the channel named `name`: every subscriber
    /// of that topic gets it appended to its queue (a full queue drops
    /// its oldest entry first); subscribers of every other channel, and
    /// the set of topics, stay exactly as they were.  Broadcasting to a
    /// channel that has no topic changes nothing.
    #[verifier::rlimit(100)]
    #[verifier::spinoff_prover]
    pub fn broadcast(&mut self, name: &String, text: &String)
        requires
            old(self).wf(),
        ensures
            final(self).wf(),
            final(self).topics@.len() == old(self).topics@.len(),
            forall|i: int|
                0 <= i < old(self).topics@.len() ==> #[trigger] final(self).topics@[i].name == old(
                    self,
                ).topics@[i].name,
            forall|i: int|
                0 <= i < old(self).topics@.len() && old(self).topics@[i].name@ != name@
                    ==> #[trigger] final(self).topics@[i] == old(self).topics@[i],
            forall|i: int|
                0 <= i < old(self).topics@.len() && old(self).topics@[i].name@ == name@
                    ==> #[trigger] final(self).topics@[i].subs@.len() == old(
                    self,
                ).topics@[i].subs@.len(),
            fanout_ok(*old(self), *final(self), name@, text@),
            forall|c: Seq<char>| #[trigger] final(self).has_topic(c) <==> old(self).has_topic(c),
            !old(self).has_topic(name@) ==> final(self).topics == old(self).topics,
    {
        let found = self.find_topic(name);
        match found {
            None => {
                proof {
                    assert forall|i: int, j: int|
                        0 <= i < old(self).topics@.len() && old(self).topics@[i].name@ == name@
                            && 0 <= j < old(self).topics@[i].subs@.len() implies
                        #[trigger] self.topics@[i].subs@[j].session == old(
                            self,
                        ).topics@[i].subs@[j].session && texts(self.topics@[i].subs@[j].queue@)
                            == enqueue(texts(old(self).topics@[i].subs@[j].queue@), text@) by {
                        assert(old(self).has_topic(name@));
                        assert(false);
                    }
                    assert(fanout_ok(*old(self), *self, name@, text@));
                    assert forall|i: int|
                        0 <= i < old(self).topics@.len() && old(self).topics@[i].name@
                            == name@ implies false by {
                        assert(old(self).has_topic(name@));
                    }
                    assert forall|c: Seq<char>|
                        #[trigger] final(self).has_topic(c) <==> old(self).has_topic(c) by {
                        if old(self).has_topic(c) {
                            let w = old(self).topic_at(c);
                            assert(self.topics@[w].name == old(self).topics@[w].name);
                            assert(self.topics@[w].name@ == c);
                        }
                        if final(self).has_topic(c) {
                            let w = final(self).topic_at(c);
                            assert(self.topics@[w].name == old(self).topics@[w].name);
                            assert(old(self).topics@[w].name@ == c);
                        }
                    }
                }
            },
            Some(ti) => {
                let n = self.topics[ti].subs.len();
                let mut j: usize = 0;
                while j < n
                    invariant
                        old(self).wf(),
                        ti < old(self).topics@.len(),
                        n == old(self).topics@[ti as int].subs@.len(),
                        j <= n,
                        self.topics@.len() == old(self).topics@.len(),
                        forall|i: int|
                            0 <= i < old(self).topics@.len() && i != ti as int
                                ==> #[trigger] self.topics@[i] == old(self).topics@[i],
                        self.topics@[ti as int].name == old(self).topics@[ti as int].name,
                        self.topics@[ti as int].subs@.len() == n,
                        forall|k: int|
                            0 <= k < j ==> #[trigger] self.topics@[ti as int].subs@[k].session
                                == old(self).topics@[ti as int].subs@[k].session && texts(
                                self.topics@[ti as int].subs@[k].queue@,
                            ) == enqueue(
                                texts(old(self).topics@[ti as int].subs@[k].queue@),
                                text@,
                            ),
                        forall|k: int|
                            j <= k < n ==> #[trigger] self.topics@[ti as int].subs@[k] == old(
                                self,
                            ).topics@[ti as int].subs@[k],
                    decreases n - j,
                {
                    let ghost qold = self.topics@[ti as int].subs@[j as int].queue@;
                    if self.topics[ti].subs[j].queue.len() >= TOPIC_CAPACITY {
                        let _oldest = self.topics[ti].subs[j].queue.remove(0);
                        self.topics[ti].subs[j].queue.push(text.clone());
                        proof {
                            let qnew = self.topics@[ti as int].subs@[j as int].queue@;
                            assert(qnew =~= qold.drop_first().push(*text));
                            lemma_texts_push(qold.drop_first(), *text);
                            lemma_texts_drop_first(qold);
                            assert(texts(qnew) =~= enqueue(texts(qold), text@));
                        }
                    } else {
                        self.topics[ti].subs[j].queue.push(text.clone());
                        proof {
                            let qnew = self.topics@[ti as int].subs@[j as int].queue@;
                            assert(qnew =~= qold.push(*text));
                            lemma_texts_push(qold, *text);
                            assert(texts(qold).len() == qold.len());
                            assert(texts(qnew) =~= enqueue(texts(qold), text@));
                        }
                    }
                    j = j + 1;
                }
                proof {
                    lemma_topic_at(*old(self), name@, ti as int);
                    assert forall|i: int|
                        0 <= i < old(self).topics@.len() && old(self).topics@[i].name@ == name@
                            && i != ti as int implies false by {
                        assert(old(self).topics@[i].name@ != old(self).topics@[ti as int].name@);
                    }
                    assert forall|i: int|
                        0 <= i < self.topics@.len() implies #[trigger] self.topics@[i].name == old(
                            self,
                        ).topics@[i].name by {
                        if i != ti as int {
                            assert(self.topics@[i] == old(self).topics@[i]);
                        }
                    }
                    assert forall|c: Seq<char>|
                        #[trigger] final(self).has_topic(c) <==> old(self).has_topic(c) by {
                        if old(self).has_topic(c) {
                            let w = old(self).topic_at(c);
                            assert(self.topics@[w].name == old(self).topics@[w].name);
                            assert(self.topics@[w].name@ == c);
                        }
                        if final(self).has_topic(c) {
                            let w = final(self).topic_at(c);
                            assert(self.topics@[w].name == old(self).topics@[w].name);
                            assert(old(self).topics@[w].name@ == c);
                        }
                    }
                    assert forall|i: int, j: int|
                        0 <= i < old(self).topics@.len() && old(self).topics@[i].name@ == name@
                            && 0 <= j < old(self).topics@[i].subs@.len() implies
                        #[trigger] self.topics@[i].subs@[j].session == old(
                            self,
                        ).topics@[i].subs@[j].session && texts(self.topics@[i].subs@[j].queue@)
                            == enqueue(texts(old(self).topics@[i].subs@[j].queue@), text@) by {
                        if i != ti as int {
                            assert(old(self).topics@[i].name@ != old(
                                self,
                            ).topics@[ti as int].name@);
                        }
                        assert(i == ti as int);
                        assert(self.topics@[ti as int].subs@[j].session == old(
                            self,
                        ).topics@[ti as int].subs@[j].session);
                    }
                    assert(fanout_ok(*old(self), *self, name@, text@));
                    assert forall|i: int, j: int|
                        0 <= i < self.topics@.len() && 0 <= j < self.topics@[i].subs@.len() implies
                        #[trigger] self.topics@[i].subs@[j].queue@.len() <= TOPIC_CAPACITY as int by {
                        if i == ti as int {
                            assert(self.topics@[ti as int].subs@[j].session == old(
                                self,
                            ).topics@[ti as int].subs@[j].session);
                            let qo = old(self).topics@[i].subs@[j].queue@;
                            let qn = self.topics@[i].subs@[j].queue@;
                            assert(texts(qn) == enqueue(texts(qo), text@));
                            assert(texts(qn).len() == qn.len());
                            assert(texts(qo).len() == qo.len());
                            assert(qo.len() <= TOPIC_CAPACITY as int);
                        } else {
                            assert(self.topics@[i] == old(self).topics@[i]);
                        }
                    }
                }
            },
        }
    }
}

/// In a well-formed registry the topic at a name's position is the only
/// one with that name: however many callers race to first-reference a
/// channel, they all reach this one topic.
pub proof fn lemma_topic_at(r: Registry, name: Seq<char>, i: int)
    requires
        r.wf(),
        0 <= i < r.topics@.len(),
        r.topics@[i].name@ == name,
    ensures
        r.has_topic(name),
        r.topic_at(name) == i,
        r.subs_of(name) == r.topics@[i].subs@,
{
    assert(r.has_topic(name));
    let j = r.topic_at(name);
    if j != i {
        if i < j {
            assert(r.topics@[i].name@ != r.topics@[j].name@);
        } else {
            assert(r.topics@[j].name@ != r.topics@[i].name@);
        }
    }
}

/// At most one topic instance exists per channel name: two positions
/// that both carry the name are the same position.
pub proof fn lemma_one_topic_per_channel(r: Registry, name: Seq<char>, i: int, j: int)
    requires
        r.wf(),
        0 <= i < r.topics@.len(),
        0 <= j < r.topics@.len(),
        r.topics@[i].name@ == name,
        r.topics@[j].name@ == name,
    ensures
        i == j,
{
    lemma_topic_at(r, name, i);
    lemma_topic_at(r, name, j);
}

/// Mapping queues to their texts commutes with appending.
proof fn lemma_texts_push(q: Seq<String>, s: String)
    ensures
        texts(q.push(s)) == texts(q).push(s@),
{
    assert(texts(q.push(s)) =~= texts(q).push(s@));
}

/// Mapping queues to their texts commutes with dropping the oldest.
proof fn lemma_texts_drop_first(q: Seq<String>)
    requires
        q.len() > 0,
    ensures
        texts(q.drop_first()) == texts(q).drop_first(),
{
    assert(texts(q.drop_first()) =~= texts(q).drop_first());
}

/// However full a queue is, a broadcast text lands at its end: a slow
/// subscriber misses old entries, never new ones, and the queue never
/// grows past capacity.
pub proof fn lemma_lagging_subscriber(q: Seq<Seq<char>>, m: Seq<char>)
    requires
        q.len() <= TOPIC_CAPACITY as int,
    ensures
        enqueue(q, m).len() <= TOPIC_CAPACITY as int,
        enqueue(q, m).last() == m,
        q.len() == TOPIC_CAPACITY as int ==> enqueue(q, m) == q.drop_first().push(m),
{
}

} // verus!

//! The relay hub's registry: who is subscribed, and what waits to be
//! written to each of them.
//!
//! The registry is the hub's only shared state. A line published by one
//! peer is queued for every other subscribed peer that has room; a peer
//! without room misses that line, and nobody else is affected.

use vstd::prelude::*;
use vstd::string::StrSliceExecFns;

verus! {

/// How many lines can wait for one subscriber.
pub const QUEUE_DEPTH: usize = 10;

/// A line on its way through the relay, tagged with the peer it came from.
#[derive(Debug, Clone, PartialEq, Eq)]
pub struct MsgType {
    pub sender: u64,
    pub payload: String,
}

/// Mathematical value of a [`MsgType`].
pub struct MsgView {
    pub sender: u64,
    pub payload: Seq<char>,
}

impl View for MsgType {
    type V = MsgView;

    open spec fn view(&self) -> MsgView {
        MsgView { sender: self.sender, payload: self.payload@ }
    }
}

/// The values of a queue of messages, oldest first.
pub open spec fn msg_views(queue: Seq<MsgType>) -> Seq<MsgView> {
    queue.map_values(|m: MsgType| m@)
}

/// The registry as a mathematical object: each subscribed peer with the
/// lines that wait for it, oldest first.
pub type Registry = Map<u64, Seq<MsgView>>;

/// No queue is over its depth, and no peer has a line of its own waiting.
pub open spec fn registry_ok(reg: Registry) -> bool {
    forall|id: u64| #[trigger]
        reg.contains_key(id) ==> reg[id].len() <= QUEUE_DEPTH && forall|k: int|
            0 <= k < reg[id].len() ==> (#[trigger] reg[id][k]).sender != id
}

/// Whether `msg` is queued for `id`: it came from another peer, and the
/// queue has room.
pub open spec fn accepts(reg: Registry, id: u64, msg: MsgView) -> bool {
    reg.contains_key(id) && id != msg.sender && reg[id].len() < QUEUE_DEPTH
}

/// The registry after `msg` was published: it is appended to the queue of
/// every subscriber that accepts it; every other queue, and the set of
/// subscribers, stay as they were.
pub open spec fn published(reg: Registry, msg: MsgView) -> Registry {
    Map::new(
        |id: u64| reg.contains_key(id),
        |id: u64|
            if accepts(reg, id, msg) {
                reg[id].push(msg)
            } else {
                reg[id]
            },
    )
}

/// Whether a line from `sender` finds room with every other subscriber.
pub open spec fn reaches_all(reg: Registry, sender: u64) -> bool {
    forall|id: u64| #[trigger] reg.contains_key(id) && id != sender ==> reg[id].len() < QUEUE_DEPTH
}

/// A whole line: text that ends in a line feed.
pub open spec fn is_whole_line(text: Seq<char>) -> bool {
    text.len() > 0 && text.last() == '\n'
}

/// What a read from a peer's socket led to.
#[derive(Debug, Clone, Copy, PartialEq, Eq, Structural)]
pub enum ReadOutcome {
    /// Nothing was read: the peer is gone and was taken off the registry.
    Closed,
    /// The stream ended in the middle of a line. What was read of it is
    /// dropped: nothing was published.
    Fragment,
    /// The line was published to the other peers; `complete` says whether
    /// every one of them had room for it.
    Published { complete: bool },
}

struct Subscriber {
    id: u64,
    queue: Vec<MsgType>,
}

/// The relay hub's subscriber registry. It gives each admitted peer an
/// identity of its own, which no later peer gets again.
pub struct Hub {
    subscribers: Vec<Subscriber>,
    next_id: u64,
}

impl Hub {
    spec fn has(&self, id: u64) -> bool {
        exists|i: int| 0 <= i < self.subscribers@.len() && self.subscribers@[i].id == id
    }

    spec fn index_of(&self, id: u64) -> int {
        choose|i: int| 0 <= i < self.subscribers@.len() && self.subscribers@[i].id == id
    }

    spec fn distinct(&self) -> bool {
        forall|i: int, j: int|
            0 <= i < j < self.subscribers@.len() ==> self.subscribers@[i].id
                != self.subscribers@[j].id
    }

    /// The registry this hub holds.
    pub closed spec fn view(&self) -> Registry {
        Map::new(
            |id: u64| self.has(id),
            |id: u64| msg_views(self.subscribers@[self.index_of(id)].queue@),
        )
    }

    /// How many identities the hub has given out: the next peer gets this
    /// number.
    pub closed spec fn issued(&self) -> nat {
        self.next_id as nat
    }

    spec fn ids_issued(&self) -> bool {
        forall|i: int| 0 <= i < self.subscribers@.len() ==> self.subscribers@[i].id < self.next_id
    }

    /// The hub's invariant: each peer is listed once, under an identity
    /// that was given out, and the registry is in order.
    pub closed spec fn wf(&self) -> bool {
        self.distinct() && self.ids_issued() && registry_ok(self@)
    }

    /// In every hub the registry is in order: no queue is over its depth,
    /// and no peer has a line of its own waiting.
    pub proof fn lemma_registry_in_order(&self)
        requires
            self.wf(),
        ensures
            registry_ok(self@),
    {
    }

    /// Every subscribed peer has an identity that was given out before.
    pub proof fn lemma_subscribers_were_admitted(&self)
        requires
            self.wf(),
        ensures
            forall|id: u64| #[trigger] self@.contains_key(id) ==> id < self.issued(),
    {
        assert forall|id: u64| #[trigger] self@.contains_key(id) implies id < self.issued() by {
            let i = self.index_of(id);
            self.lemma_entry(i);
        }
    }

    proof fn lemma_entry(&self, i: int)
        requires
            self.distinct(),
            0 <= i < self.subscribers@.len(),
        ensures
            self.has(self.subscribers@[i].id),
            self.index_of(self.subscribers@[i].id) == i,
            self@.contains_key(self.subscribers@[i].id),
            self@[self.subscribers@[i].id] == msg_views(self.subscribers@[i].queue@),
    {
    }

    /// A hub without subscribers.
    pub fn new() -> (hub: Hub)
        ensures
            hub@ == Map::<u64, Seq<MsgView>>::empty(),
            hub.issued() == 0,
            hub.wf(),
    {
        let hub = Hub { subscribers: Vec::new(), next_id: 0 };
        assert(hub@ =~= Map::<u64, Seq<MsgView>>::empty());
        hub
    }

    fn position(&self, id: u64) -> (r: Option<usize>)
        requires
            self.distinct(),
        ensures
            r is Some <==> self@.contains_key(id),
            r matches Some(i) ==> i < self.subscribers@.len() && self.subscribers@[i as int].id
                == id && self.index_of(id) == i,
    {
        let mut i: usize = 0;
        while i < self.subscribers.len()
            invariant
                self.distinct(),
                i <= self.subscribers@.len(),
                forall|k: int| 0 <= k < i ==> self.subscribers@[k].id != id,
            decreases self.subscribers@.len() - i,
        {
            if self.subscribers[i].id == id {
                proof {
                    self.lemma_entry(i as int);
                }
                return Some(i);
            }
            i += 1;
        }
        None
    }

    /// Whether a peer is subscribed.
    pub fn is_subscribed(&self, id: u64) -> (r: bool)
        requires
            self.wf(),
        ensures
            r == self@.contains_key(id),
    {
        self.position(id).is_some()
    }

    /// How many peers are subscribed.
    pub fn subscriber_count(&self) -> (r: usize)
        requires
            self.wf(),
        ensures
            r == self@.dom().len(),
            self@.dom().finite(),
    {
        proof {
            self.lemma_count(self.subscribers@.len() as int);
            assert(self.ids_below(self.subscribers@.len() as int) =~= self@.dom());
        }
        self.subscribers.len()
    }

    spec fn ids_below(&self, n: int) -> Set<u64> {
        Set::new(|id: u64| exists|i: int| 0 <= i < n && self.subscribers@[i].id == id)
    }

    proof fn lemma_count(&self, n: int)
        requires
            self.distinct(),
            0 <= n <= self.subscribers@.len(),
        ensures
            self.ids_below(n).finite(),
            self.ids_below(n).len() == n,
        decreases n,
    {
        if n == 0 {
            assert(self.ids_below(0) =~= Set::<u64>::empty());
        } else {
            self.lemma_count(n - 1);
            let last = self.subscribers@[n - 1].id;
            assert(self.ids_below(n) =~= self.ids_below(n - 1).insert(last));
            assert(!self.ids_below(n - 1).contains(last));
        }
    }

    /// How many lines wait for a peer; none for one that is not subscribed.
    pub fn waiting(&self, id: u64) -> (r: usize)
        requires
            self.wf(),
        ensures
            r == if self@.contains_key(id) {
                self@[id].len()
            } else {
                0
            },
            r <= QUEUE_DEPTH,
    {
        match self.position(id) {
            Some(i) => self.subscribers[i].queue.len(),
            None => 0,
        }
    }

    /// Admits a peer: gives it the next identity and an empty queue. Only
    /// when the identities are used up is nobody admitted.
    pub fn accept(&mut self) -> (r: Option<u64>)
        requires
            old(self).wf(),
        ensures
            final(self).wf(),
            match r {
                Some(id) => {
                    &&& id == old(self).issued()
                    &&& !old(self)@.contains_key(id)
                    &&& final(self).issued() == id + 1
                    &&& final(self)@ == old(self)@.insert(id, Seq::empty())
                },
                None => {
                    &&& old(self).issued() == u64::MAX
                    &&& final(self).issued() == old(self).issued()
                    &&& final(self)@ == old(self)@
                },
            },
    {
        if self.next_id == u64::MAX {
            return None;
        }
        let ghost before = *self;
        let id = self.next_id;
        proof {
            before.lemma_subscribers_were_admitted();
        }
        self.subscribers.push(Subscriber { id, queue: Vec::new() });
        self.next_id = id + 1;
        proof {
            let n = before.subscribers@.len() as int;
            assert(self.distinct()) by {
                assert forall|a: int, b: int|
                0 <= a < b < self.subscribers@.len() implies self.subscribers@[a].id
                    != self.subscribers@[b].id by {
                    if b < n {
                        assert(self.subscribers@[a] == before.subscribers@[a]);
                        assert(self.subscribers@[b] == before.subscribers@[b]);
                    } else {
                        assert(self.subscribers@[a] == before.subscribers@[a]);
                        assert(before.subscribers@[a].id < id);
                    }
                }
            }
            assert(self.ids_issued());
            assert forall|other: u64| #[trigger] self@.contains_key(other) implies (
            before@.insert(id, Seq::empty()).contains_key(other) && self@[other] == before@.insert(
                id,
                Seq::empty(),
            )[other]) by {
                let i = self.index_of(other);
                self.lemma_entry(i);
                if i < n {
                    before.lemma_entry(i);
                } else {
                    assert(msg_views(self.subscribers@[i].queue@) =~= Seq::empty());
                }
            }
            assert forall|other: u64| #[trigger]
                before@.insert(id, Seq::empty()).contains_key(other) implies self@.contains_key(
                other,
            ) by {
                if other == id {
                    self.lemma_entry(n);
                } else {
                    let i = before.index_of(other);
                    before.lemma_entry(i);
                    self.lemma_entry(i);
                }
            }
            assert(self@ =~= before@.insert(id, Seq::empty()));
        }
        Some(id)
    }

    /// Takes a peer off the registry, with whatever still waited for it.
    /// Every other peer's queue stays as it was.
    pub fn unsubscribe(&mut self, id: u64) -> (was_subscribed: bool)
        requires
            old(self).wf(),
        ensures
            final(self).wf(),
            final(self).issued() == old(self).issued(),
            was_subscribed == old(self)@.contains_key(id),
            final(self)@ == old(self)@.remove(id),
    {
        let ghost before = *self;
        match self.position(id) {
            None => {
                assert(self@ =~= before@.remove(id));
                false
            },
            Some(at) => {
                self.subscribers.remove(at);
                proof {
                    assert(self.distinct());
                    assert forall|other: u64| #[trigger] self@.contains_key(other) implies (
                    before@.remove(id).contains_key(other) && self@[other] == before@.remove(
                        id,
                    )[other]) by {
                        let i = self.index_of(other);
                        self.lemma_entry(i);
                        if i < at {
                            before.lemma_entry(i);
                        } else {
                            before.lemma_entry(i + 1);
                        }
                    }
                    assert forall|other: u64| #[trigger]
                        before@.remove(id).contains_key(other) implies self@.contains_key(
                        other,
                    ) by {
                        let i = before.index_of(other);
                        before.lemma_entry(i);
                        if i < at {
                            self.lemma_entry(i);
                        } else {
                            self.lemma_entry(i - 1);
                        }
                    }
                    assert(self@ =~= before@.remove(id));
                }
                true
            },
        }
    }

    /// Publishes a line from `sender` to every other subscribed peer that
    /// has room for it. Never fails and never waits: a peer without room
    /// misses the line. Says whether no peer missed it.
    pub fn publish(&mut self, sender: u64, payload: &str) -> (complete: bool)
        requires
            old(self).wf(),
        ensures
            final(self).wf(),
            final(self).issued() == old(self).issued(),
            final(self)@ == published(old(self)@, MsgView { sender, payload: payload@ }),
            complete == reaches_all(old(self)@, sender),
    {
        let ghost before = *self;
        let ghost msg = MsgView { sender, payload: payload@ };
        let n = self.subscribers.len();
        let mut i: usize = 0;
        let mut complete = true;
        while i < n
            invariant
                before.wf(),
                self.next_id == before.next_id,
                complete == (forall|k: int|
                    0 <= k < i && before.subscribers@[k].id != sender ==> (
                    #[trigger] before.subscribers@[k]).queue@.len() < QUEUE_DEPTH),
                i <= n,
                n == before.subscribers@.len(),
                self.subscribers@.len() == n,
                msg == (MsgView { sender, payload: payload@ }),
                forall|k: int| 0 <= k < n ==> self.subscribers@[k].id == before.subscribers@[k].id,
                forall|k: int| i <= k < n ==> self.subscribers@[k] == before.subscribers@[k],
                forall|k: int|
                    0 <= k < i ==> msg_views(#[trigger] self.subscribers@[k].queue@) == published(
                        before@,
                        msg,
                    )[before.subscribers@[k].id],
            decreases n - i,
        {
            proof {
                before.lemma_entry(i as int);
            }
            let ghost prev = self.subscribers@;
            let ghost queue = prev[i as int].queue@;
            let ghost id = before.subscribers@[i as int].id;
            assert(before@[id] == msg_views(queue));
            if self.subscribers[i].id != sender {
                if self.subscribers[i].queue.len() < QUEUE_DEPTH {
                    let m = MsgType { sender, payload: payload.to_owned() };
                    self.subscribers[i].queue.push(m);
                    assert(msg_views(queue.push(m)) =~= msg_views(queue).push(msg));
                    assert(accepts(before@, id, msg));
                } else {
                    complete = false;
                    assert(!accepts(before@, id, msg));
                }
            } else {
                assert(!accepts(before@, id, msg));
            }
            assert(msg_views(self.subscribers@[i as int].queue@) == published(before@, msg)[id]);
            assert forall|k: int| 0 <= k <= i implies msg_views(
                #[trigger] self.subscribers@[k].queue@,
            ) == published(before@, msg)[before.subscribers@[k].id] by {
                if k < i {
                    assert(self.subscribers@[k] == prev[k]);
                    assert(msg_views(prev[k].queue@) == published(
                        before@,
                        msg,
                    )[before.subscribers@[k].id]);
                }
            }
            i += 1;
        }
        proof {
            if complete {
                assert forall|id: u64| #[trigger]
                    before@.contains_key(id) && id != sender implies before@[id].len()
                    < QUEUE_DEPTH by {
                    let k = before.index_of(id);
                    before.lemma_entry(k);
                    assert(before.subscribers@[k].queue@.len() < QUEUE_DEPTH);
                }
            } else {
                let k = choose|k: int|
                    0 <= k < n && before.subscribers@[k].id != sender && !((
                    #[trigger] before.subscribers@[k]).queue@.len() < QUEUE_DEPTH);
                before.lemma_entry(k);
                assert(before@.contains_key(before.subscribers@[k].id));
            }
            assert(before.distinct());
            assert forall|a: int, b: int|
                0 <= a < b < self.subscribers@.len() implies self.subscribers@[a].id
                != self.subscribers@[b].id by {
                assert(self.subscribers@[a].id == before.subscribers@[a].id);
                assert(self.subscribers@[b].id == before.subscribers@[b].id);
            }
            assert(self.distinct());
            assert(before.ids_issued());
            assert forall|a: int| 0 <= a < self.subscribers@.len() implies self.subscribers@[a].id
                < self.next_id by {
                assert(self.subscribers@[a].id == before.subscribers@[a].id);
            }
            let target = published(before@, msg);
            assert forall|id: u64| #[trigger] self@.contains_key(id) implies (target.contains_key(
                id,
            ) && self@[id] == target[id]) by {
                let k = self.index_of(id);
                self.lemma_entry(k);
                before.lemma_entry(k);
            }
            assert forall|id: u64| #[trigger] target.contains_key(id) implies self@.contains_key(
                id,
            ) by {
                let k = before.index_of(id);
                before.lemma_entry(k);
                self.lemma_entry(k);
            }
            assert(self@ =~= target);
            lemma_publish_keeps_order(before@, msg);
        }
        complete
    }

    /// Takes the oldest line that waits for a peer, if there is one. It
    /// never comes from that peer itself.
    pub fn poll(&mut self, id: u64) -> (r: Option<MsgType>)
        requires
            old(self).wf(),
        ensures
            final(self).wf(),
            final(self).issued() == old(self).issued(),
            match r {
                Some(m) => {
                    &&& old(self)@.contains_key(id)
                    &&& old(self)@[id].len() > 0
                    &&& m@ == old(self)@[id][0]
                    &&& m.sender != id
                    &&& final(self)@ == old(self)@.insert(id, old(self)@[id].drop_first())
                },
                None => {
                    &&& !old(self)@.contains_key(id) || old(self)@[id].len() == 0
                    &&& final(self)@ == old(self)@
                },
            },
    {
        let ghost before = *self;
        match self.position(id) {
            None => None,
            Some(at) => {
                if self.subscribers[at].queue.len() == 0 {
                    return None;
                }
                let ghost queue = self.subscribers@[at as int].queue@;
                let m = self.subscribers[at].queue.remove(0);
                proof {
                    before.lemma_entry(at as int);
                    assert(msg_views(queue.remove(0)) =~= msg_views(queue).drop_first());
                    assert(self.subscribers@.len() == before.subscribers@.len());
                    assert(forall|k: int|
                        0 <= k < self.subscribers@.len() ==> self.subscribers@[k].id
                            == before.subscribers@[k].id);
                    assert(self.distinct());
                    let target = before@.insert(id, before@[id].drop_first());
                    assert forall|other: u64| #[trigger] self@.contains_key(other) implies (
                    target.contains_key(other) && self@[other] == target[other]) by {
                        let k = self.index_of(other);
                        self.lemma_entry(k);
                        before.lemma_entry(k);
                    }
                    assert forall|other: u64| #[trigger]
                        target.contains_key(other) implies self@.contains_key(other) by {
                        let k = before.index_of(other);
                        before.lemma_entry(k);
                        self.lemma_entry(k);
                    }
                    assert(self@ =~= target);
                    assert(before@[id][0].sender != id);
                    assert forall|other: u64| #[trigger] target.contains_key(other) implies (
                    target[other].len() <= QUEUE_DEPTH && forall|k: int|
                        0 <= k < target[other].len() ==> (#[trigger] target[other][k]).sender
                            != other) by {
                        assert(before@.contains_key(other));
                        if other == id {
                            assert forall|k: int| 0 <= k < target[other].len() implies (
                            #[trigger] target[other][k]).sender != other by {
                                assert(target[other][k] == before@[id][k + 1]);
                            }
                        }
                    }
                }
                Some(m)
            },
        }
    }

    /// Handles what was read from a peer's socket. An empty read means the
    /// peer has closed: it is taken off the registry. A whole line is
    /// published, as it is, to the other peers. Text that does not end in a
    /// line feed is the rest of a stream that broke off: it reaches nobody,
    /// so that what the other peers receive stays a sequence of whole lines.
    pub fn line_read(&mut self, id: u64, line: &str) -> (r: ReadOutcome)
        requires
            old(self).wf(),
        ensures
            final(self).wf(),
            final(self).issued() == old(self).issued(),
            line@.len() == 0 ==> r == ReadOutcome::Closed && final(self)@ == old(self)@.remove(id),
            is_whole_line(line@) ==> r == (ReadOutcome::Published {
                complete: reaches_all(old(self)@, id),
            }) && final(self)@ == published(old(self)@, MsgView { sender: id, payload: line@ }),
            line@.len() != 0 && !is_whole_line(line@) ==> {
                &&& r == ReadOutcome::Fragment
                &&& final(self)@ == old(self)@
            },
    {
        let n = line.unicode_len();
        if n == 0 {
            self.unsubscribe(id);
            ReadOutcome::Closed
        } else if line.get_char(n - 1) == '\n' {
            let complete = self.publish(id, line);
            ReadOutcome::Published { complete }
        } else {
            ReadOutcome::Fragment
        }
    }
}

/// Publishing keeps the registry in order: no queue grows over its depth,
/// and no peer gets a line of its own.
pub proof fn lemma_publish_keeps_order(reg: Registry, msg: MsgView)
    requires
        registry_ok(reg),
    ensures
        registry_ok(published(reg, msg)),
{
    let after = published(reg, msg);
    assert forall|id: u64| #[trigger] after.contains_key(id) implies (after[id].len()
        <= QUEUE_DEPTH && forall|k: int|
        0 <= k < after[id].len() ==> (#[trigger] after[id][k]).sender != id) by {
        assert(reg.contains_key(id));
        assert forall|k: int| 0 <= k < after[id].len() implies (#[trigger] after[id][k]).sender
            != id by {
            if k < reg[id].len() {
                assert(after[id][k] == reg[id][k]);
            }
        }
    }
}

/// Self-exclusion: a published line reaches every other subscribed peer
/// with room, as the newest entry of its queue, and never the peer it came
/// from; the set of subscribers is the same afterwards.
pub proof fn lemma_self_exclusion(reg: Registry, msg: MsgView, id: u64)
    requires
        reg.contains_key(id),
    ensures
        published(reg, msg).dom() == reg.dom(),
        id == msg.sender ==> published(reg, msg)[id] == reg[id],
        id != msg.sender && reg[id].len() < QUEUE_DEPTH ==> published(reg, msg)[id]
            == reg[id].push(msg),
        id != msg.sender && reg[id].len() >= QUEUE_DEPTH ==> published(reg, msg)[id] == reg[id],
{
    assert(published(reg, msg).dom() =~= reg.dom());
}

/// Fault isolation: whether a peer leaves before or after a line is
/// published makes no difference to what any other peer receives, and a
/// peer's leaving changes no other queue.
pub proof fn lemma_fault_isolation(reg: Registry, gone: u64, msg: MsgView)
    ensures
        published(reg.remove(gone), msg) == published(reg, msg).remove(gone),
        forall|id: u64|
            id != gone && reg.contains_key(id) ==> #[trigger] reg.remove(gone)[id] == reg[id],
{
    assert(published(reg.remove(gone), msg) =~= published(reg, msg).remove(gone));
}

/// Whole lines stay whole lines: where only whole lines wait for a peer,
/// publishing a whole line leaves only whole lines waiting for it. As
/// `line_read` publishes nothing else, what a peer is sent is a sequence
/// of whole lines, whatever another peer's stream broke off with.
pub proof fn lemma_whole_lines_stay(reg: Registry, msg: MsgView, id: u64)
    requires
        reg.contains_key(id),
        forall|k: int| 0 <= k < reg[id].len() ==> is_whole_line(#[trigger] reg[id][k].payload),
        is_whole_line(msg.payload),
    ensures
        forall|k: int|
            0 <= k < published(reg, msg)[id].len() ==> is_whole_line(
                #[trigger] published(reg, msg)[id][k].payload,
            ),
{
    let after = published(reg, msg)[id];
    assert forall|k: int| 0 <= k < after.len() implies is_whole_line(
        #[trigger] after[k].payload,
    ) by {
        if k < reg[id].len() {
            assert(after[k] == reg[id][k]);
        }
    }
}

} // verus!

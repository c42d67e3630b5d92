//! Per-destination queues. A queue holds the messages that wait for their
//! next attempt, ordered by when they are due, and the messages that are
//! due, first come first served.

use vstd::prelude::*;
use crate::message::{Message, SpoolId};
use crate::schedule::QueueConfig;

verus! {

/// The order in which messages come due: by `next_due`, then the earliest
/// reception, then the smaller identifier, which is the one whose text
/// comes first in the dictionary.
pub open spec fn precedes(a: Message, b: Message) -> bool {
    a.next_due < b.next_due || (a.next_due == b.next_due && (a.received_at < b.received_at || (
    a.received_at == b.received_at && a.id.value <= b.id.value)))
}

/// Whether `a` comes due before `b` or at the same rank.
pub fn comes_before(a: &Message, b: &Message) -> (r: bool)
    ensures
        r == precedes(*a, *b),
{
    a.next_due < b.next_due || (a.next_due == b.next_due && (a.received_at < b.received_at || (
    a.received_at == b.received_at && a.id.value <= b.id.value)))
}

/// Every message comes due no later than the messages behind it.
pub open spec fn sorted(s: Seq<Message>) -> bool {
    forall|i: int, j: int| 0 <= i < j < s.len() ==> precedes(#[trigger] s[i], #[trigger] s[j])
}

/// Whether a message with identifier `id` is among `s`.
pub open spec fn has_id(s: Seq<Message>, id: SpoolId) -> bool {
    exists|i: int| 0 <= i < s.len() && (#[trigger] s[i]).id == id
}

/// No identifier occurs twice in `s`.
pub open spec fn distinct_ids(s: Seq<Message>) -> bool {
    forall|i: int, j: int| 0 <= i < j < s.len() ==> (#[trigger] s[i]).id != (#[trigger] s[j]).id
}

/// Whether `due1` and `scheduled1` are `due0` and `scheduled0` with `msg`
/// in its place: at the end of the due messages if it is due by `now`,
/// else among the waiting ones.
pub open spec fn placed(
    due0: Seq<Message>,
    scheduled0: Seq<Message>,
    now: u64,
    due1: Seq<Message>,
    scheduled1: Seq<Message>,
    msg: Message,
) -> bool {
    if msg.next_due <= now {
        due1 == due0.push(msg) && scheduled1 == scheduled0
    } else {
        due1 == due0 && exists|k: int|
            0 <= k <= scheduled0.len() && scheduled1 == #[trigger] scheduled0.insert(k, msg)
    }
}

/// Whether a message with identifier `id` is among `v`.
pub fn find_id(v: &Vec<Message>, id: SpoolId) -> (r: bool)
    ensures
        r == has_id(v@, id),
{
    let mut i: usize = 0;
    while i < v.len()
        invariant
            i <= v.len(),
            forall|j: int| 0 <= j < i ==> (#[trigger] v@[j]).id != id,
        decreases v.len() - i,
    {
        if v[i].id == id {
            return true;
        }
        i += 1;
    }
    false
}

/// After an insertion the identifiers are those of before and the new one.
pub proof fn lemma_ids_after_insert(before: Seq<Message>, after: Seq<Message>, at: int, msg: Message)
    requires
        0 <= at <= before.len(),
        after == before.insert(at, msg),
    ensures
        forall|id: SpoolId| #[trigger] has_id(after, id) <==> has_id(before, id) || id == msg.id,
{
    assert forall|id: SpoolId| #[trigger] has_id(after, id) <==> has_id(before, id) || id
        == msg.id by {
        if has_id(after, id) {
            let i = choose|i: int| 0 <= i < after.len() && (#[trigger] after[i]).id == id;
            if i < at {
                assert(before[i].id == id);
            } else if i > at {
                assert(before[i - 1].id == id);
            }
        }
        if has_id(before, id) {
            let i = choose|i: int| 0 <= i < before.len() && (#[trigger] before[i]).id == id;
            if i < at {
                assert(after[i].id == id);
            } else {
                assert(after[i + 1].id == id);
            }
        }
        if id == msg.id {
            assert(after[at].id == id);
        }
    }
}

/// Why a queue did not take a message.
#[derive(Debug, Clone, Copy, PartialEq, Eq, Structural)]
pub enum QueueError {
    /// A message with this identifier is queued already.
    Duplicate,
    /// The manager has no queue at that index.
    NoSuchQueue,
}

/// The queue of one destination.
pub struct Queue {
    pub name: String,
    pub config: QueueConfig,
    /// The messages whose next attempt lies in the future, soonest first.
    pub scheduled: Vec<Message>,
    /// The messages that are due, in the order in which they came due.
    pub due: Vec<Message>,
    /// The latest time that the queue has seen.
    pub now: u64,
    /// The number of attempts under way.
    pub in_flight: usize,
    /// How many attempts may be under way at once.
    pub connection_limit: usize,
}

impl Queue {
    /// The queue's invariant: a valid schedule; the waiting messages in
    /// order and all due after `now`; the due messages all due by `now`; no
    /// identifier twice.
    pub open spec fn wf(&self) -> bool {
        &&& self.config.valid()
        &&& sorted(self.scheduled@)
        &&& forall|i: int|
            0 <= i < self.scheduled@.len() ==> (#[trigger] self.scheduled@[i]).next_due > self.now
        &&& forall|i: int| 0 <= i < self.due@.len() ==> (#[trigger] self.due@[i]).next_due <= self.now
        &&& distinct_ids(self.due@ + self.scheduled@)
    }

    /// Whether the queue holds a message with identifier `id`.
    pub open spec fn holds(&self, id: SpoolId) -> bool {
        has_id(self.due@ + self.scheduled@, id)
    }

    /// Whether the queue holds the message `m`.
    pub open spec fn has(&self, m: Message) -> bool {
        exists|i: int|
            0 <= i < (self.due@ + self.scheduled@).len() && #[trigger] (self.due@
                + self.scheduled@)[i] == m
    }

    /// Whether this queue is `before` with `msg` taken in: at the end of
    /// the due messages if it is due by the time the queue has seen, else
    /// among the waiting ones; nothing else has changed.
    pub open spec fn took(&self, before: Queue, msg: Message) -> bool {
        &&& self.name == before.name
        &&& self.config == before.config
        &&& self.now == before.now
        &&& self.in_flight == before.in_flight
        &&& self.connection_limit == before.connection_limit
        &&& placed(before.due@, before.scheduled@, before.now, self.due@, self.scheduled@, msg)
    }

    /// An empty queue at time `now`.
    pub fn new(name: String, config: QueueConfig, connection_limit: usize, now: u64) -> (q: Queue)
        requires
            config.valid(),
        ensures
            q.wf(),
            q.name == name,
            q.config == config,
            q.scheduled@.len() == 0,
            q.due@.len() == 0,
            q.now == now,
            q.in_flight == 0,
            q.connection_limit == connection_limit,
    {
        Queue {
            name,
            config,
            scheduled: Vec::new(),
            due: Vec::new(),
            now,
            in_flight: 0,
            connection_limit,
        }
    }

    pub fn get_config(&self) -> (c: QueueConfig)
        ensures
            c == self.config,
    {
        self.config
    }

    /// Whether the queue holds a message with identifier `id`.
    pub fn contains(&self, id: SpoolId) -> (r: bool)
        ensures
            r == self.holds(id),
    {
        let in_due = find_id(&self.due, id);
        let in_scheduled = find_id(&self.scheduled, id);
        proof {
            let all = self.due@ + self.scheduled@;
            if in_due {
                let i = choose|i: int| 0 <= i < self.due@.len() && (#[trigger] self.due@[i]).id == id;
                assert(all[i].id == id);
            }
            if in_scheduled {
                let i = choose|i: int|
                    0 <= i < self.scheduled@.len() && (#[trigger] self.scheduled@[i]).id == id;
                assert(all[i + self.due@.len()].id == id);
            }
            if has_id(all, id) {
                let i = choose|i: int| 0 <= i < all.len() && (#[trigger] all[i]).id == id;
                if i < self.due@.len() {
                    assert(self.due@[i].id == id);
                } else {
                    assert(self.scheduled@[i - self.due@.len()].id == id);
                }
            }
        }
        in_due || in_scheduled
    }

    /// Takes a message into the queue. A message that is due by the time
    /// the queue has seen joins the due messages at the end; any other takes
    /// its place among the waiting ones. A message whose identifier is
    /// queued already is refused, and the queue stays as it is.
    pub fn insert(&mut self, msg: Message) -> (r: Result<(), QueueError>)
        requires
            old(self).wf(),
        ensures
            final(self).wf(),
            final(self).name == old(self).name,
            final(self).config == old(self).config,
            final(self).now == old(self).now,
            final(self).in_flight == old(self).in_flight,
            final(self).connection_limit == old(self).connection_limit,
            r is Err <==> old(self).holds(msg.id),
            r is Ok ==> final(self).has(msg) && final(self).took(*old(self), msg),
            forall|id: SpoolId| #[trigger]
                final(self).holds(id) <==> old(self).holds(id) || id == msg.id,
            r is Err ==> r == Err::<(), QueueError>(QueueError::Duplicate) && final(self).scheduled@
                == old(self).scheduled@ && final(self).due@ == old(self).due@,
    {
        if self.contains(msg.id) {
            return Err(QueueError::Duplicate);
        }
        let ghost due0 = self.due@;
        let ghost sch0 = self.scheduled@;
        let ghost all0 = due0 + sch0;
        if msg.next_due <= self.now {
            self.due.push(msg);
            proof {
                let all1 = self.due@ + self.scheduled@;
                assert(all1 =~= all0.insert(due0.len() as int, msg));
                assert forall|i: int, j: int| 0 <= i < j < all1.len() implies (#[trigger] all1[i]).id
                    != (#[trigger] all1[j]).id by {
                    let d = due0.len() as int;
                    let a = if i < d {
                        i
                    } else {
                        i - 1
                    };
                    let b = if j < d {
                        j
                    } else {
                        j - 1
                    };
                    if i != d {
                        assert(all1[i] == all0[a]);
                    }
                    if j != d {
                        assert(all1[j] == all0[b]);
                    }
                }
                lemma_ids_after_insert(all0, all1, due0.len() as int, msg);
                assert(all1[due0.len() as int] == msg);
            }
            return Ok(());
        }
        let mut k: usize = 0;
        while k < self.scheduled.len() && comes_before(&self.scheduled[k], &msg)
            invariant
                k <= self.scheduled@.len(),
                self.scheduled@ == sch0,
                forall|j: int| 0 <= j < k ==> precedes(#[trigger] sch0[j], msg),
            decreases self.scheduled@.len() - k,
        {
            k += 1;
        }
        self.scheduled.insert(k, msg);
        proof {
            let sch1 = self.scheduled@;
            let all1 = self.due@ + sch1;
            let p = k as int;
            assert(sch1.len() == sch0.len() + 1);
            assert forall|i: int| 0 <= i < sch1.len() implies #[trigger] sch1[i] == (if i < p {
                sch0[i]
            } else if i == p {
                msg
            } else {
                sch0[i - 1]
            }) by {}
            assert forall|i: int, j: int| 0 <= i < j < sch1.len() implies precedes(
                #[trigger] sch1[i],
                #[trigger] sch1[j],
            ) by {
                if i < p && j > p {
                    assert(precedes(sch0[i], sch0[j - 1]));
                } else if i < p && j < p {
                    assert(precedes(sch0[i], sch0[j]));
                } else if i > p {
                    assert(precedes(sch0[i - 1], sch0[j - 1]));
                } else if i == p {
                    assert(!precedes(sch0[p], msg));
                    if j - 1 > p {
                        assert(precedes(sch0[p], sch0[j - 1]));
                    }
                }
            }
            assert forall|i: int, j: int| 0 <= i < j < all1.len() implies (#[trigger] all1[i]).id
                != (#[trigger] all1[j]).id by {
                let at = due0.len() + p;
                let a = if i < at {
                    i
                } else {
                    i - 1
                };
                let b = if j < at {
                    j
                } else {
                    j - 1
                };
                if i != at {
                    assert(all1[i] == all0[a]);
                }
                if j != at {
                    assert(all1[j] == all0[b]);
                }
            }
            assert(all1 =~= all0.insert(due0.len() + p, msg));
            lemma_ids_after_insert(all0, all1, due0.len() + p, msg);
            assert(all1[due0.len() + p] == msg);
        }
        Ok(())
    }

    /// When the next waiting message comes due: the time for which the
    /// timer of the queue is to be set. No waiting message comes due sooner.
    pub fn next_wakeup(&self) -> (r: Option<u64>)
        requires
            self.wf(),
        ensures
            match r {
                Some(t) => self.scheduled@.len() > 0 && t == self.scheduled@[0].next_due && t
                    > self.now && forall|i: int|
                    0 <= i < self.scheduled@.len() ==> t <= (#[trigger] self.scheduled@[i]).next_due,
                None => self.scheduled@.len() == 0,
            },
    {
        if self.scheduled.len() == 0 {
            None
        } else {
            proof {
                assert forall|i: int| 0 <= i < self.scheduled@.len() implies self.scheduled@[0].next_due
                    <= (#[trigger] self.scheduled@[i]).next_due by {
                    if i > 0 {
                        assert(precedes(self.scheduled@[0], self.scheduled@[i]));
                    }
                }
            }
            Some(self.scheduled[0].next_due)
        }
    }

    /// Lets time pass: the waiting messages that are due by `now` join the
    /// due messages in their order, and stay due. Nothing else moves. A
    /// clock that runs backwards changes nothing.
    pub fn promote(&mut self, now: u64)
        requires
            old(self).wf(),
        ensures
            final(self).wf(),
            final(self).now == if now >= old(self).now {
                now
            } else {
                old(self).now
            },
            final(self).due@ + final(self).scheduled@ == old(self).due@ + old(self).scheduled@,
            final(self).due@.len() >= old(self).due@.len(),
            final(self).name == old(self).name,
            final(self).config == old(self).config,
            final(self).in_flight == old(self).in_flight,
            final(self).connection_limit == old(self).connection_limit,
    {
        if now <= self.now {
            return ;
        }
        let ghost due0 = self.due@;
        let ghost sch0 = self.scheduled@;
        let mut k: usize = 0;
        while k < self.scheduled.len() && self.scheduled[k].next_due <= now
            invariant
                k <= self.scheduled@.len(),
                self.scheduled@ == sch0,
                forall|j: int| 0 <= j < k ==> (#[trigger] sch0[j]).next_due <= now,
            decreases self.scheduled@.len() - k,
        {
            k += 1;
        }
        let rest = self.scheduled.split_off(k);
        self.due.append(&mut self.scheduled);
        self.scheduled = rest;
        self.now = now;
        proof {
            let p = k as int;
            assert(self.due@ + self.scheduled@ =~= due0 + sch0);
            assert forall|i: int| 0 <= i < self.scheduled@.len() implies (
            #[trigger] self.scheduled@[i]).next_due > now by {
                assert(self.scheduled@[i] == sch0[i + p]);
                if i > 0 {
                    assert(precedes(sch0[p], sch0[i + p]));
                }
            }
            assert forall|i: int, j: int| 0 <= i < j < self.scheduled@.len() implies precedes(
                #[trigger] self.scheduled@[i],
                #[trigger] self.scheduled@[j],
            ) by {
                assert(precedes(sch0[i + p], sch0[j + p]));
            }
            assert forall|i: int| 0 <= i < self.due@.len() implies (#[trigger] self.due@[i]).next_due
                <= now by {
                if i < due0.len() {
                    assert(self.due@[i] == due0[i]);
                } else {
                    assert(self.due@[i] == sch0[i - due0.len()]);
                }
            }
        }
    }

    /// Hands out the message that has been due the longest, for one
    /// attempt, unless none is due or as many attempts are under way as
    /// may be.
    pub fn pop_due(&mut self) -> (r: Option<Message>)
        requires
            old(self).wf(),
        ensures
            final(self).wf(),
            final(self).scheduled@ == old(self).scheduled@,
            final(self).now == old(self).now,
            final(self).name == old(self).name,
            final(self).config == old(self).config,
            final(self).connection_limit == old(self).connection_limit,
            r is Some <==> old(self).due@.len() > 0 && old(self).in_flight < old(self).connection_limit,
            r is Some ==> r.unwrap() == old(self).due@[0] && final(self).due@ == old(self).due@.drop_first() && final(self).in_flight == old(self).in_flight + 1 && r.unwrap().next_due
                <= old(self).now,
            r is None ==> final(self).due@ == old(self).due@ && final(self).in_flight == old(self).in_flight,
    {
        if self.due.len() == 0 || self.in_flight >= self.connection_limit {
            return None;
        }
        let ghost due0 = self.due@;
        let ghost all0 = self.due@ + self.scheduled@;
        let m = self.due.remove(0);
        self.in_flight = self.in_flight + 1;
        proof {
            assert(self.due@ =~= due0.drop_first());
            let all1 = self.due@ + self.scheduled@;
            assert forall|i: int, j: int| 0 <= i < j < all1.len() implies (#[trigger] all1[i]).id
                != (#[trigger] all1[j]).id by {
                assert(all1[i] == all0[i + 1]);
                assert(all1[j] == all0[j + 1]);
            }
            assert forall|i: int| 0 <= i < self.due@.len() implies (#[trigger] self.due@[i]).next_due
                <= self.now by {
                assert(self.due@[i] == due0[i + 1]);
            }
            assert(m == due0[0]);
        }
        Some(m)
    }

    /// Notes that one attempt has ended.
    pub fn attempt_done(&mut self)
        requires
            old(self).wf(),
        ensures
            final(self).wf(),
            final(self).in_flight == if old(self).in_flight > 0 {
                old(self).in_flight - 1
            } else {
                0
            },
            final(self).scheduled@ == old(self).scheduled@,
            final(self).due@ == old(self).due@,
            final(self).now == old(self).now,
            final(self).name == old(self).name,
            final(self).config == old(self).config,
            final(self).connection_limit == old(self).connection_limit,
    {
        if self.in_flight > 0 {
            self.in_flight = self.in_flight - 1;
        }
    }
}

/// At every time that a queue has seen, every due message is due by that
/// time and every waiting message is due after it.
pub proof fn due_and_scheduled_are_apart(q: Queue)
    requires
        q.wf(),
    ensures
        forall|i: int| 0 <= i < q.due@.len() ==> (#[trigger] q.due@[i]).next_due <= q.now,
        forall|i: int| 0 <= i < q.scheduled@.len() ==> (#[trigger] q.scheduled@[i]).next_due > q.now,
{
}

/// Promotion is monotonic: a message that is due stays where it is among
/// the due messages when time passes.
pub proof fn promoted_stays_due(before: Queue, after: Queue, i: int)
    requires
        after.due@ + after.scheduled@ == before.due@ + before.scheduled@,
        after.due@.len() >= before.due@.len(),
        0 <= i < before.due@.len(),
    ensures
        after.due@[i] == before.due@[i],
{
    assert((after.due@ + after.scheduled@)[i] == after.due@[i]);
    assert((before.due@ + before.scheduled@)[i] == before.due@[i]);
}

} // verus!

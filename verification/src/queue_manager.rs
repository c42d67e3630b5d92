//! The queues of the process, by name. A message is in at most one of them.

use vstd::prelude::*;
use crate::logging::{
    AttemptContext, LogDisposition, RecordType, Response, attempt_record, expiration_record,
};
use crate::message::{Message, SpoolId, later, one_more};
use crate::queue::{Queue, QueueError, placed};
use crate::schedule::QueueConfig;

verus! {

/// The queues, in the order in which they were first resolved.
pub struct QueueManager {
    pub queues: Vec<Queue>,
}

/// How a delivery attempt ended.
#[derive(Debug, Clone, PartialEq, Eq)]
pub enum AttemptOutcome {
    /// The destination took the message.
    Delivered(Response),
    /// The destination may take the message later.
    TransientFailure(Response),
    /// The destination will never take the message.
    PermanentFailure(Response),
}

/// The record of what came of an attempt on the message `msg_id` at `now`.
pub open spec fn attempt_record_of(
    kind: RecordType,
    msg_id: SpoolId,
    response: Response,
    context: AttemptContext,
    now: u64,
) -> LogDisposition {
    LogDisposition {
        kind,
        msg_id,
        site: context.site,
        peer_address: context.peer_address,
        response,
        egress_pool: context.egress_pool,
        egress_source: context.egress_source,
        delivery_protocol: context.delivery_protocol,
        timestamp: now,
    }
}

/// What is to be done once the queues have dealt with a message: the
/// records to write, in order, and whether the message leaves the spools.
#[derive(Debug, Clone, PartialEq, Eq)]
pub struct Disposal {
    pub records: Vec<LogDisposition>,
    pub remove_from_spool: bool,
}

impl Disposal {
    /// Whether an expiration is among the records.
    pub open spec fn expires(&self) -> bool {
        exists|i: int|
            0 <= i < self.records@.len() && (#[trigger] self.records@[i]).kind
                == RecordType::Expiration
    }

    /// An expiration is recorded once, and the expired message leaves the spools.
    pub open spec fn expires_once_and_for_all(&self) -> bool {
        &&& self.expires() ==> self.remove_from_spool
        &&& forall|i: int, j: int|
            0 <= i < j < self.records@.len() ==> !((#[trigger] self.records@[i]).kind
                == RecordType::Expiration && (#[trigger] self.records@[j]).kind
                == RecordType::Expiration)
    }
}

impl QueueManager {
    /// The manager's invariant: every queue is well formed, no two queues
    /// share a name, and no identifier is in two queues.
    pub open spec fn wf(&self) -> bool {
        &&& forall|i: int| 0 <= i < self.queues@.len() ==> (#[trigger] self.queues@[i]).wf()
        &&& forall|i: int, j: int|
            0 <= i < j < self.queues@.len() ==> (#[trigger] self.queues@[i]).name@ != (
            #[trigger] self.queues@[j]).name@
        &&& forall|i: int, j: int, id: SpoolId|
            0 <= i < self.queues@.len() && 0 <= j < self.queues@.len() && i != j
                && #[trigger] self.queues@[i].holds(id) ==> !#[trigger] self.queues@[j].holds(id)
    }

    /// Whether some queue holds a message with identifier `id`.
    pub open spec fn holds(&self, id: SpoolId) -> bool {
        exists|i: int| 0 <= i < self.queues@.len() && #[trigger] self.queues@[i].holds(id)
    }

    /// Whether a queue is named `name`.
    pub open spec fn has_queue(&self, name: Seq<char>) -> bool {
        exists|i: int| 0 <= i < self.queues@.len() && (#[trigger] self.queues@[i]).name@ == name
    }

    pub fn new() -> (m: QueueManager)
        ensures
            m.wf(),
            m.queues@.len() == 0,
    {
        QueueManager { queues: Vec::new() }
    }

    /// The index of the queue named `name`.
    pub fn find(&self, name: &str) -> (r: Option<usize>)
        ensures
            match r {
                Some(i) => i < self.queues@.len() && self.queues@[i as int].name@ == name@ && forall|j: int|
                    0 <= j < i ==> (#[trigger] self.queues@[j]).name@ != name@,
                None => !self.has_queue(name@),
            },
    {
        let key = String::from_str(name);
        let mut i: usize = 0;
        while i < self.queues.len()
            invariant
                i <= self.queues@.len(),
                key@ == name@,
                forall|j: int| 0 <= j < i ==> (#[trigger] self.queues@[j]).name@ != name@,
            decreases self.queues@.len() - i,
        {
            if self.queues[i].name == key {
                return Some(i);
            }
            i += 1;
        }
        None
    }

    /// The queue named `name`: the one there is, else a new, empty one with
    /// the configuration that was looked up for it. Without a queue and
    /// without a valid configuration there is nothing to resolve to, and
    /// the manager stays as it is.
    pub fn resolve(
        &mut self,
        name: &str,
        config: Option<QueueConfig>,
        connection_limit: usize,
        now: u64,
    ) -> (r: Option<usize>)
        requires
            old(self).wf(),
        ensures
            final(self).wf(),
            r is None <==> !old(self).has_queue(name@) && (config is None || !config.unwrap().valid()),
            old(self).has_queue(name@) || r is None ==> final(self).queues@ == old(self).queues@,
            match r {
                Some(i) => i < final(self).queues@.len() && final(self).queues@[i as int].name@
                    == name@,
                None => true,
            },
            r is Some && !old(self).has_queue(name@) ==> {
                let q = final(self).queues@[r.unwrap() as int];
                &&& r.unwrap() == old(self).queues@.len()
                &&& final(self).queues@ == old(self).queues@.push(q)
                &&& q.config == config.unwrap()
                &&& q.connection_limit == connection_limit
                &&& q.now == now
                &&& q.due@.len() == 0
                &&& q.scheduled@.len() == 0
                &&& q.in_flight == 0
            },
    {
        match self.find(name) {
            Some(i) => Some(i),
            None => {
                match config {
                    Some(c) => {
                        if c.retry_interval == 0 || c.max_retry_interval == Some(0) {
                            return None;
                        }
                        let q = Queue::new(String::from_str(name), c, connection_limit, now);
                        let ghost before = self.queues@;
                        assert forall|id: SpoolId| !q.holds(id) by {
                            assert((q.due@ + q.scheduled@).len() == 0);
                        }
                        self.queues.push(q);
                        assert forall|i: int, j: int, id: SpoolId|
                            0 <= i < self.queues@.len() && 0 <= j < self.queues@.len() && i != j
                                && #[trigger] self.queues@[i].holds(id) implies !#[trigger] self.queues@[j].holds(
                            id,
                        ) by {
                            if i < before.len() && j < before.len() {
                                assert(before[i].holds(id) ==> !before[j].holds(id));
                            }
                        }
                        Some(self.queues.len() - 1)
                    },
                    None => None,
                }
            },
        }
    }

    /// Whether some queue holds a message with identifier `id`.
    pub fn contains(&self, id: SpoolId) -> (r: bool)
        requires
            self.wf(),
        ensures
            r == self.holds(id),
    {
        let mut i: usize = 0;
        while i < self.queues.len()
            invariant
                i <= self.queues@.len(),
                forall|j: int| 0 <= j < i ==> !#[trigger] self.queues@[j].holds(id),
            decreases self.queues@.len() - i,
        {
            if self.queues[i].contains(id) {
                return true;
            }
            i += 1;
        }
        false
    }

    /// Takes a message into the queue at `index`, unless a message with its
    /// identifier is in some queue already or there is no such queue; the
    /// manager then stays as it is.
    pub fn insert(&mut self, index: usize, msg: Message) -> (r: Result<(), QueueError>)
        requires
            old(self).wf(),
        ensures
            final(self).wf(),
            final(self).queues@.len() == old(self).queues@.len(),
            match r {
                Ok(()) => index < old(self).queues@.len() && !old(self).holds(msg.id) && final(self).queues@[index as int].holds(msg.id) && final(self).queues@[index as int].has(msg)
                    && final(self).queues@[index as int].took(old(self).queues@[index as int], msg),
                Err(QueueError::NoSuchQueue) => index >= old(self).queues@.len() && final(self).queues@ == old(self).queues@,
                Err(QueueError::Duplicate) => index < old(self).queues@.len() && old(self).holds(
                    msg.id,
                ) && final(self).queues@ == old(self).queues@,
            },
            forall|i: int|
                0 <= i < old(self).queues@.len() && i != index ==> #[trigger] final(self).queues@[i]
                    == old(self).queues@[i],
            forall|i: int|
                0 <= i < old(self).queues@.len() ==> (#[trigger] final(self).queues@[i]).name == old(self).queues@[i].name && final(self).queues@[i].config == old(self).queues@[i].config
                    && final(self).queues@[i].now == old(self).queues@[i].now
                    && final(self).queues@[i].in_flight == old(self).queues@[i].in_flight,
            forall|id: SpoolId| #[trigger]
                final(self).holds(id) <==> old(self).holds(id) || (r is Ok && id == msg.id),
    {
        if index >= self.queues.len() {
            return Err(QueueError::NoSuchQueue);
        }
        if self.contains(msg.id) {
            return Err(QueueError::Duplicate);
        }
        let ghost before = self.queues@;
        let ghost mid = msg.id;
        let mut q = self.queues.remove(index);
        let r = q.insert(msg);
        self.queues.insert(index, q);
        proof {
            let after = self.queues@;
            let x = index as int;
            assert(after.len() == before.len());
            assert forall|i: int| 0 <= i < after.len() && i != x implies #[trigger] after[i]
                == before[i] by {}
            assert(after[x] == q);
            assert(!before[x].holds(mid));
            assert(r is Ok);
            assert forall|i: int, j: int, id: SpoolId|
                0 <= i < after.len() && 0 <= j < after.len() && i != j && #[trigger] after[i].holds(
                    id,
                ) implies !#[trigger] after[j].holds(id) by {
                if i == x {
                    if id == mid {
                        assert(!before[j].holds(id));
                    } else {
                        assert(before[x].holds(id));
                        assert(before[i].holds(id) ==> !before[j].holds(id));
                    }
                } else if j == x {
                    assert(before[i].holds(id));
                    if id != mid {
                        assert(before[i].holds(id) ==> !before[x].holds(id));
                    }
                } else {
                    assert(before[i].holds(id) ==> !before[j].holds(id));
                }
            }
            assert forall|i: int, j: int| 0 <= i < j < after.len() implies (#[trigger] after[i]).name@
                != (#[trigger] after[j]).name@ by {
                assert(before[i].name@ != before[j].name@);
            }
            assert forall|id: SpoolId| #[trigger]
                self.holds(id) <==> old(self).holds(id) || id == mid by {
                if self.holds(id) {
                    let i = choose|i: int| 0 <= i < after.len() && #[trigger] after[i].holds(id);
                    if i != x {
                        assert(before[i].holds(id));
                    } else if id != mid {
                        assert(before[x].holds(id));
                    }
                }
                if old(self).holds(id) {
                    let i = choose|i: int| 0 <= i < before.len() && #[trigger] before[i].holds(id);
                    if i != x {
                        assert(after[i].holds(id));
                    } else {
                        assert(after[x].holds(id));
                    }
                }
                if id == mid {
                    assert(after[x].holds(id));
                }
            }
        }
        r
    }
    /// Lets time pass in every queue.
    pub fn promote(&mut self, now: u64)
        requires
            old(self).wf(),
        ensures
            final(self).wf(),
            final(self).queues@.len() == old(self).queues@.len(),
            forall|i: int|
                0 <= i < old(self).queues@.len() ==> {
                    let before = old(self).queues@[i];
                    let after = #[trigger] final(self).queues@[i];
                    &&& after.name == before.name
                    &&& after.config == before.config
                    &&& after.due@ + after.scheduled@ == before.due@ + before.scheduled@
                    &&& after.due@.len() >= before.due@.len()
                    &&& after.now == if now >= before.now {
                        now
                    } else {
                        before.now
                    }
                },
    {
        let ghost before = self.queues@;
        let n = self.queues.len();
        let mut i: usize = 0;
        while i < n
            invariant
                i <= n,
                n == before.len(),
                self.queues@.len() == n,
                forall|j: int| 0 <= j < n ==> (#[trigger] self.queues@[j]).wf(),
                forall|j: int| i <= j < n ==> #[trigger] self.queues@[j] == before[j],
                forall|j: int|
                    0 <= j < i ==> {
                        let b = before[j];
                        let a = #[trigger] self.queues@[j];
                        &&& a.name == b.name
                        &&& a.config == b.config
                        &&& a.due@ + a.scheduled@ == b.due@ + b.scheduled@
                        &&& a.due@.len() >= b.due@.len()
                        &&& a.now == if now >= b.now {
                            now
                        } else {
                            b.now
                        }
                    },
            decreases n - i,
        {
            let ghost prev = self.queues@;
            let mut q = self.queues.remove(i);
            q.promote(now);
            self.queues.insert(i, q);
            proof {
                let x = i as int;
                assert forall|j: int| 0 <= j < n && j != x implies #[trigger] self.queues@[j]
                    == prev[j] by {}
                assert(self.queues@[x] == q);
            }
            i += 1;
        }
        proof {
            let after = self.queues@;
            assert forall|i: int, id: SpoolId| 0 <= i < n implies (#[trigger] after[i].holds(id)
                <==> before[i].holds(id)) by {}
            assert forall|i: int, j: int, id: SpoolId|
                0 <= i < after.len() && 0 <= j < after.len() && i != j && #[trigger] after[i].holds(
                    id,
                ) implies !#[trigger] after[j].holds(id) by {
                assert(before[i].holds(id));
                assert(before[i].holds(id) ==> !before[j].holds(id));
                assert(after[j].holds(id) <==> before[j].holds(id));
            }
            assert forall|i: int, j: int| 0 <= i < j < after.len() implies (#[trigger] after[i]).name@
                != (#[trigger] after[j]).name@ by {
                assert(before[i].name@ != before[j].name@);
            }
        }
    }

    /// Hands out the message that has been due the longest in the queue at
    /// `index`, for one attempt.
    pub fn pop_due(&mut self, index: usize) -> (r: Option<Message>)
        requires
            old(self).wf(),
        ensures
            final(self).wf(),
            final(self).queues@.len() == old(self).queues@.len(),
            forall|i: int|
                0 <= i < old(self).queues@.len() && i != index ==> #[trigger] final(self).queues@[i]
                    == old(self).queues@[i],
            r is Some <==> index < old(self).queues@.len() && old(self).queues@[index as int].due@.len()
                > 0 && old(self).queues@[index as int].in_flight < old(self).queues@[index as int].connection_limit,
            r is Some ==> {
                let before = old(self).queues@[index as int];
                let after = final(self).queues@[index as int];
                &&& r.unwrap() == before.due@[0]
                &&& after.due@ == before.due@.drop_first()
                &&& after.scheduled@ == before.scheduled@
                &&& after.in_flight == before.in_flight + 1
                &&& !final(self).holds(r.unwrap().id)
            },
            r is None ==> final(self).queues@ == old(self).queues@,
    {
        if index >= self.queues.len() {
            return None;
        }
        if self.queues[index].due.len() == 0 || self.queues[index].in_flight
            >= self.queues[index].connection_limit {
            return None;
        }
        let ghost before = self.queues@;
        let mut q = self.queues.remove(index);
        let r = q.pop_due();
        self.queues.insert(index, q);
        proof {
            let after = self.queues@;
            let x = index as int;
            let m = r.unwrap();
            assert forall|i: int| 0 <= i < after.len() && i != x implies #[trigger] after[i]
                == before[i] by {}
            assert(after[x] == q);
            let all0 = before[x].due@ + before[x].scheduled@;
            let all1 = q.due@ + q.scheduled@;
            assert(all1 =~= all0.drop_first());
            assert(all0[0] == m);
            assert forall|id: SpoolId| #[trigger] q.holds(id) implies before[x].holds(id) && id
                != m.id by {
                let i = choose|i: int| 0 <= i < all1.len() && (#[trigger] all1[i]).id == id;
                assert(all0[i + 1].id == id);
            }
            assert(before[x].holds(m.id));
            assert forall|i: int, j: int, id: SpoolId|
                0 <= i < after.len() && 0 <= j < after.len() && i != j && #[trigger] after[i].holds(
                    id,
                ) implies !#[trigger] after[j].holds(id) by {
                assert(before[i].holds(id));
                assert(before[i].holds(id) ==> !before[j].holds(id));
            }
            assert forall|i: int, j: int| 0 <= i < j < after.len() implies (#[trigger] after[i]).name@
                != (#[trigger] after[j]).name@ by {
                assert(before[i].name@ != before[j].name@);
            }
            if self.holds(m.id) {
                let i = choose|i: int| 0 <= i < after.len() && #[trigger] after[i].holds(m.id);
                if i != x {
                    assert(before[x].holds(m.id) ==> !before[i].holds(m.id));
                }
            }
        }
        r
    }

    /// Deals with the end of an attempt on `msg`, which came from the queue
    /// at `index` and was made as `context` says.
    ///
    /// A delivered message is recorded as delivered and leaves the spools; a
    /// permanent failure is recorded as a bounce and the message leaves the
    /// spools. After a transient failure the message counts one more
    /// attempt; if it has reached the queue's maximum age it expires, with
    /// one expiration record, and leaves the spools; else it waits in the
    /// queue for the delay that its schedule gives.
    pub fn complete_attempt(
        &mut self,
        index: usize,
        msg: Message,
        outcome: AttemptOutcome,
        context: AttemptContext,
        now: u64,
    ) -> (d: Disposal)
        requires
            old(self).wf(),
            index < old(self).queues@.len(),
        ensures
            final(self).wf(),
            final(self).queues@.len() == old(self).queues@.len(),
            forall|i: int|
                0 <= i < old(self).queues@.len() ==> (#[trigger] final(self).queues@[i]).name == old(self).queues@[i].name && final(self).queues@[i].config == old(self).queues@[i].config,
            final(self).queues@[index as int].in_flight == if old(self).queues@[index as int].in_flight
                > 0 {
                old(self).queues@[index as int].in_flight - 1
            } else {
                0
            },
            forall|i: int|
                0 <= i < old(self).queues@.len() && i != index ==> #[trigger] final(self).queues@[i]
                    == old(self).queues@[i],
            final(self).queues@[index as int].now == old(self).queues@[index as int].now,
            final(self).queues@[index as int].connection_limit == old(self).queues@[index as int].connection_limit,
            d.expires_once_and_for_all(),
            d.records@.len() >= 1,
            match outcome {
                AttemptOutcome::Delivered(resp) => {
                    &&& d.records@.len() == 1
                    &&& d.records@[0] == attempt_record_of(
                        RecordType::Delivery,
                        msg.id,
                        resp,
                        context,
                        now,
                    )
                    &&& d.remove_from_spool
                    &&& forall|id: SpoolId| #[trigger] final(self).holds(id) <==> old(self).holds(id)
                    &&& final(self).queues@[index as int].due@ == old(self).queues@[index as int].due@
                    &&& final(self).queues@[index as int].scheduled@ == old(self).queues@[index as int].scheduled@
                },
                AttemptOutcome::PermanentFailure(resp) => {
                    &&& d.records@.len() == 1
                    &&& d.records@[0] == attempt_record_of(
                        RecordType::Bounce,
                        msg.id,
                        resp,
                        context,
                        now,
                    )
                    &&& d.remove_from_spool
                    &&& forall|id: SpoolId| #[trigger] final(self).holds(id) <==> old(self).holds(id)
                    &&& final(self).queues@[index as int].due@ == old(self).queues@[index as int].due@
                    &&& final(self).queues@[index as int].scheduled@ == old(self).queues@[index as int].scheduled@
                },
                AttemptOutcome::TransientFailure(resp) => {
                    let config = old(self).queues@[index as int].config;
                    let expired = msg.age_at(now) >= config.max_age;
                    &&& d.expires() == expired
                    &&& d.records@[0] == attempt_record_of(
                        RecordType::TransientFailure,
                        msg.id,
                        resp,
                        context,
                        now,
                    )
                    &&& d.records@.len() == if expired {
                        2int
                    } else {
                        1int
                    }
                    &&& expired ==> d.records@[1].is_expiration(
                        msg.id,
                        now,
                        4,
                        7,
                        "Delivery time exceeded the maximum age"@,
                    )
                    &&& d.remove_from_spool == (expired || old(self).holds(msg.id))
                    &&& forall|id: SpoolId| #[trigger]
                        final(self).holds(id) <==> old(self).holds(id) || (!expired && id == msg.id)
                    &&& !expired && !old(self).holds(msg.id) ==> placed(
                        old(self).queues@[index as int].due@,
                        old(self).queues@[index as int].scheduled@,
                        old(self).queues@[index as int].now,
                        final(self).queues@[index as int].due@,
                        final(self).queues@[index as int].scheduled@,
                        Message {
                            num_attempts: one_more(msg.num_attempts),
                            next_due: later(
                                now,
                                config.due_in(one_more(msg.num_attempts) as nat, msg.age_at(now)),
                            ),
                            ..msg
                        },
                    )
                    &&& expired || old(self).holds(msg.id) ==> final(self).queues@[index as int].due@
                        == old(self).queues@[index as int].due@ && final(self).queues@[index as int].scheduled@ == old(self).queues@[index as int].scheduled@
                },
            },
    {
        let ghost before = self.queues@;
        let id = msg.id;
        // the attempt is over, whatever came of it
        let mut q = self.queues.remove(index);
        q.attempt_done();
        self.queues.insert(index, q);
        proof {
            let after = self.queues@;
            let x = index as int;
            assert forall|i: int| 0 <= i < after.len() && i != x implies #[trigger] after[i]
                == before[i] by {}
            assert(after[x] == q);
            assert forall|i: int, id: SpoolId| 0 <= i < after.len() implies (#[trigger] after[i].holds(
                id,
            ) <==> before[i].holds(id)) by {}
            assert forall|i: int, j: int, id: SpoolId|
                0 <= i < after.len() && 0 <= j < after.len() && i != j && #[trigger] after[i].holds(
                    id,
                ) implies !#[trigger] after[j].holds(id) by {
                assert(before[i].holds(id));
                assert(before[i].holds(id) ==> !before[j].holds(id));
                assert(after[j].holds(id) <==> before[j].holds(id));
            }
            assert forall|i: int, j: int| 0 <= i < j < after.len() implies (#[trigger] after[i]).name@
                != (#[trigger] after[j]).name@ by {
                assert(before[i].name@ != before[j].name@);
            }
            assert forall|id: SpoolId| #[trigger] self.holds(id) <==> old(self).holds(id) by {
                if self.holds(id) {
                    let i = choose|i: int| 0 <= i < after.len() && #[trigger] after[i].holds(id);
                    assert(before[i].holds(id));
                }
                if old(self).holds(id) {
                    let i = choose|i: int| 0 <= i < before.len() && #[trigger] before[i].holds(id);
                    assert(after[i].holds(id));
                }
            }
        }
        let mut records: Vec<LogDisposition> = Vec::new();
        match outcome {
            AttemptOutcome::Delivered(resp) => {
                records.push(attempt_record(RecordType::Delivery, id, resp, context, now));
                Disposal { records, remove_from_spool: true }
            },
            AttemptOutcome::PermanentFailure(resp) => {
                records.push(attempt_record(RecordType::Bounce, id, resp, context, now));
                Disposal { records, remove_from_spool: true }
            },
            AttemptOutcome::TransientFailure(resp) => {
                records.push(attempt_record(RecordType::TransientFailure, id, resp, context, now));
                let config = self.queues[index].get_config();
                let mut msg = msg;
                msg.increment_num_attempts();
                let age = msg.age(now);
                match config.compute_delay_based_on_age(msg.num_attempts, age) {
                    None => {
                        records.push(expiration_record(id, now));
                        assert(records@[0].kind == RecordType::TransientFailure);
                        assert(records@[1].kind == RecordType::Expiration);
                        Disposal { records, remove_from_spool: true }
                    },
                    Some(delay) => {
                        msg.delay_by(delay, now);
                        let requeued = self.insert(index, msg);
                        assert(records@[0].kind == RecordType::TransientFailure);
                        Disposal { records, remove_from_spool: requeued.is_err() }
                    },
                }
            },
        }
    }
}

} // verus!

//! What becomes of the messages that the meta spool holds at startup.
//!
//! Every entry of the enumeration is dealt with in two steps, with the
//! hooks between them: the message is rebuilt from its blob; then, with
//! the name of its queue, it is counted, scheduled and queued, or it
//! expires. What cannot be rebuilt or queued leaves the spools.

use vstd::prelude::*;
use crate::blob::message_of;
use crate::logging::{
    EnhancedStatusCode, LogDisposition, RecordType, Response, expiration_record, local_record,
};
use crate::message::{Message, SpoolId, later};
use crate::queue::placed;
use crate::queue_manager::{Disposal, QueueManager};
use crate::schedule::QueueConfig;
use crate::spool::SpoolEntry;

verus! {

/// What an entry of the enumeration turned out to be.
#[derive(Debug, Clone, PartialEq, Eq)]
pub enum Recovery {
    /// A message, rebuilt from its metadata.
    Recovered(Message),
    /// Nothing that can be used: what the spools hold under this identifier
    /// is to be removed.
    Discard(SpoolId),
}

/// Rebuilds the message of one entry of the enumeration. A record that the
/// spool could not read, and a blob that holds no message, are discarded.
pub fn recover_entry(entry: SpoolEntry) -> (r: Recovery)
    ensures
        match entry {
            SpoolEntry::Item { id, data } => match message_of(id, data@) {
                Some(m) => match r {
                    Recovery::Recovered(got) => got@ == m,
                    Recovery::Discard(_) => false,
                },
                None => r == Recovery::Discard(id),
            },
            SpoolEntry::Corrupt { id, error } => r == Recovery::Discard(id),
        },
{
    match entry {
        SpoolEntry::Item { id, data } => match Message::new_from_spool(id, data.as_slice()) {
            Ok(m) => Recovery::Recovered(m),
            Err(_) => Recovery::Discard(id),
        },
        SpoolEntry::Corrupt { id, error } => Recovery::Discard(id),
    }
}

/// The larger of two counts.
pub open spec fn at_least(a: u64, b: nat) -> nat {
    if b >= a {
        b
    } else {
        a as nat
    }
}

/// The record of a message whose queue has no name: an expiration with
/// SMTP code 551 and enhanced code 5.1.3.
pub fn unroutable_record(msg_id: SpoolId, timestamp: u64) -> (r: LogDisposition)
    ensures
        r.is_expiration(msg_id, timestamp, 1, 3, "Failed to compute queue name"@),
{
    let response = Response::new(
        551,
        Some(EnhancedStatusCode { class: 5, subject: 1, detail: 3 }),
        "Failed to compute queue name",
    );
    local_record(RecordType::Expiration, msg_id, response, timestamp)
}

/// Takes a recovered message into its queue.
///
/// `queue_name` is what the naming hook gave for the message, `config` what
/// was looked up for a queue of that name. Without a name the message
/// expires with enhanced code 5.1.3. Without a queue of that name and
/// without a valid configuration for a new one, the message leaves the
/// spools unrecorded. Else the message counts the attempts that its age
/// stands for, and no fewer than it counted before; at the queue's maximum
/// age it expires with enhanced code 5.4.7; short of that it waits in the
/// queue until its schedule says it is due. A message that the queues
/// hold already leaves the spools.
pub fn admit_recovered(
    queues: &mut QueueManager,
    msg: Message,
    queue_name: Result<String, String>,
    config: Option<QueueConfig>,
    connection_limit: usize,
    now: u64,
) -> (d: Disposal)
    requires
        old(queues).wf(),
    ensures
        final(queues).wf(),
        d.expires_once_and_for_all(),
        forall|k: int| 0 <= k < d.records@.len() ==> (#[trigger] d.records@[k]).msg_id == msg.id,
        match queue_name {
            Err(_) => {
                &&& d.remove_from_spool
                &&& d.records@.len() == 1
                &&& d.records@[0].is_expiration(msg.id, now, 1, 3, "Failed to compute queue name"@)
                &&& final(queues).queues@ == old(queues).queues@
            },
            Ok(name) => if !old(queues).has_queue(name@) && (config is None
                || !config.unwrap().valid()) {
                &&& d.remove_from_spool
                &&& d.records@.len() == 0
                &&& final(queues).queues@ == old(queues).queues@
            } else {
                let at = choose|i: int|
                    0 <= i < final(queues).queues@.len() && (#[trigger] final(queues).queues@[i]).name@
                        == name@;
                let c = final(queues).queues@[at].config;
                let age = msg.age_at(now);
                let attempts = at_least(msg.num_attempts, c.attempts_for(age));
                &&& final(queues).has_queue(name@)
                &&& old(queues).has_queue(name@) ==> exists|i: int|
                    0 <= i < old(queues).queues@.len() && (#[trigger] old(queues).queues@[i]).name@
                        == name@ && old(queues).queues@[i].config == c
                &&& !old(queues).has_queue(name@) ==> c == config.unwrap() && at == old(queues).queues@.len() && final(queues).queues@.len() == at + 1
                &&& old(queues).has_queue(name@) ==> final(queues).queues@.len() == old(queues).queues@.len() && old(queues).queues@[at].name@ == name@
                &&& forall|i: int|
                    0 <= i < old(queues).queues@.len() && i != at ==> #[trigger] final(queues).queues@[i]
                        == old(queues).queues@[i]
                &&& if age >= c.max_age {
                    &&& d.remove_from_spool
                    &&& d.records@.len() == 1
                    &&& d.records@[0].is_expiration(
                        msg.id,
                        now,
                        4,
                        7,
                        "Delivery time exceeded the maximum age"@,
                    )
                    &&& forall|id: SpoolId| #[trigger] final(queues).holds(id) <==> old(queues).holds(id)
                    &&& final(queues).queues@[at].due@ + final(queues).queues@[at].scheduled@
                        == if old(queues).has_queue(name@) {
                        old(queues).queues@[at].due@ + old(queues).queues@[at].scheduled@
                    } else {
                        Seq::empty()
                    }
                } else {
                    &&& d.records@.len() == 0
                    &&& d.remove_from_spool == old(queues).holds(msg.id)
                    &&& forall|id: SpoolId| #[trigger]
                        final(queues).holds(id) <==> old(queues).holds(id) || id == msg.id
                    &&& !old(queues).holds(msg.id) ==> placed(
                        if old(queues).has_queue(name@) {
                            old(queues).queues@[at].due@
                        } else {
                            Seq::empty()
                        },
                        if old(queues).has_queue(name@) {
                            old(queues).queues@[at].scheduled@
                        } else {
                            Seq::empty()
                        },
                        if old(queues).has_queue(name@) {
                            old(queues).queues@[at].now
                        } else {
                            now
                        },
                        final(queues).queues@[at].due@,
                        final(queues).queues@[at].scheduled@,
                        Message {
                            num_attempts: attempts as u64,
                            next_due: later(now, c.due_in(attempts, age)),
                            ..msg
                        },
                    )
                }
            },
        },
{
    let id = msg.id;
    let mut records: Vec<LogDisposition> = Vec::new();
    let name = match queue_name {
        Ok(name) => name,
        Err(_) => {
            records.push(unroutable_record(id, now));
            return Disposal { records, remove_from_spool: true };
        },
    };
    let ghost before = queues.queues@;
    let ghost had = queues.has_queue(name@);
    let index = match queues.resolve(name.as_str(), config, connection_limit, now) {
        Some(i) => i,
        None => {
            return Disposal { records, remove_from_spool: true };
        },
    };
    let ghost mid = *queues;
    proof {
        // the queue of that name is the one that was resolved
        let at = choose|i: int|
            0 <= i < mid.queues@.len() && (#[trigger] mid.queues@[i]).name@ == name@;
        if at < index {
            assert(mid.queues@[at].name@ != mid.queues@[index as int].name@);
        }
        if index < at {
            assert(mid.queues@[index as int].name@ != mid.queues@[at].name@);
        }
        assert(at == index);
        assert forall|i: SpoolId| #[trigger] mid.holds(i) <==> old(queues).holds(i) by {
            if mid.holds(i) {
                let k = choose|k: int| 0 <= k < mid.queues@.len() && #[trigger] mid.queues@[k].holds(i);
                if k >= before.len() {
                    let q = mid.queues@[k];
                    assert((q.due@ + q.scheduled@).len() == 0);
                } else {
                    assert(before[k].holds(i));
                }
            }
            if old(queues).holds(i) {
                let k = choose|k: int| 0 <= k < before.len() && #[trigger] before[k].holds(i);
                assert(mid.queues@[k].holds(i));
            }
        }
        if had {
            assert(mid.queues@ == before);
        }
    }
    let c = queues.queues[index].get_config();
    let mut msg = msg;
    let age = msg.age(now);
    let inferred = c.infer_num_attempts(age);
    msg.set_num_attempts(inferred);
    match c.compute_delay_based_on_age(msg.num_attempts, age) {
        None => {
            records.push(expiration_record(id, now));
            Disposal { records, remove_from_spool: true }
        },
        Some(delay) => {
            msg.delay_by(delay, now);
            let taken = queues.insert(index, msg);
            proof {
                let after = queues.queues@;
                assert(after[index as int].name@ == name@) by {
                    if taken is Ok {
                        assert(after[index as int].has(msg));
                    }
                }
                let at = choose|i: int|
                    0 <= i < after.len() && (#[trigger] after[i]).name@ == name@;
                if at < index {
                    assert(after[at].name@ != after[index as int].name@);
                }
                if index < at {
                    assert(after[index as int].name@ != after[at].name@);
                }
                assert(at == index);
                let q0 = mid.queues@[index as int];
                if !had {
                    assert(q0.due@ =~= Seq::<Message>::empty());
                    assert(q0.scheduled@ =~= Seq::<Message>::empty());
                }
                assert forall|i: int| 0 <= i < before.len() && i != at implies #[trigger] after[i]
                    == before[i] by {
                    assert(after[i] == mid.queues@[i]);
                }
            }
            Disposal { records, remove_from_spool: taken.is_err() }
        },
    }
}

} // verus!

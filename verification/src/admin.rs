//! Administrative bounces: entries that bounce the messages of matching
//! queues until they expire or are cancelled.
//!
//! Cancelling an entry keeps it from matching new messages. It does not
//! bring back the messages that the entry has bounced: those have left the
//! queues and the spools.

use vstd::prelude::*;

verus! {

/// What an entry applies to.
#[derive(Debug, Clone, PartialEq, Eq)]
pub struct BounceCriteria {
    /// The queue that the entry applies to; every queue if there is none.
    pub queue_name: Option<String>,
}

/// One administrative bounce.
#[derive(Debug, Clone, PartialEq, Eq)]
pub struct AdminBounce {
    pub id: u128,
    pub criteria: BounceCriteria,
    pub reason: String,
    /// The time at which the entry stops matching, in seconds since the epoch.
    pub expires: u64,
}

/// The administrative bounces that are entered, oldest first.
pub struct AdminBounces {
    pub entries: Vec<AdminBounce>,
}

/// Whether an entry applies to the queue `name` at `now`.
pub open spec fn applies(e: AdminBounce, name: Seq<char>, now: u64) -> bool {
    e.expires > now && match e.criteria.queue_name {
        Some(q) => q@ == name,
        None => true,
    }
}

impl AdminBounces {
    /// No identifier is entered twice.
    pub open spec fn wf(&self) -> bool {
        forall|i: int, j: int|
            0 <= i < j < self.entries@.len() ==> (#[trigger] self.entries@[i]).id != (
            #[trigger] self.entries@[j]).id
    }

    /// Whether an entry with identifier `id` is entered.
    pub open spec fn has(&self, id: u128) -> bool {
        exists|i: int| 0 <= i < self.entries@.len() && (#[trigger] self.entries@[i]).id == id
    }

    pub fn new() -> (r: AdminBounces)
        ensures
            r.wf(),
            r.entries@.len() == 0,
    {
        AdminBounces { entries: Vec::new() }
    }

    fn find(&self, id: u128) -> (r: Option<usize>)
        ensures
            match r {
                Some(i) => i < self.entries@.len() && self.entries@[i as int].id == id,
                None => !self.has(id),
            },
    {
        let mut i: usize = 0;
        while i < self.entries.len()
            invariant
                i <= self.entries@.len(),
                forall|j: int| 0 <= j < i ==> (#[trigger] self.entries@[j]).id != id,
            decreases self.entries@.len() - i,
        {
            if self.entries[i].id == id {
                return Some(i);
            }
            i += 1;
        }
        None
    }

    /// Enters a bounce that lasts `duration` seconds from `now`. An
    /// identifier that is entered already is not entered again.
    pub fn set_bounce(
        &mut self,
        id: u128,
        criteria: BounceCriteria,
        reason: String,
        duration: u64,
        now: u64,
    ) -> (entered: bool)
        requires
            old(self).wf(),
        ensures
            final(self).wf(),
            entered == !old(self).has(id),
            !entered ==> final(self).entries@ == old(self).entries@,
            entered ==> final(self).entries@ == old(self).entries@.push(
                AdminBounce {
                    id,
                    criteria,
                    reason,
                    expires: if now + duration <= u64::MAX {
                        (now + duration) as u64
                    } else {
                        u64::MAX
                    },
                },
            ),
    {
        match self.find(id) {
            Some(_) => false,
            None => {
                let ghost before = self.entries@;
                let expires = now.saturating_add(duration);
                self.entries.push(AdminBounce { id, criteria, reason, expires });
                proof {
                    assert forall|a: int, b: int| 0 <= a < b < self.entries@.len() implies (
                    #[trigger] self.entries@[a]).id != (#[trigger] self.entries@[b]).id by {
                        if b < before.len() {
                            assert(before[a].id != before[b].id);
                        } else {
                            assert(self.entries@[a] == before[a]);
                        }
                    }
                }
                true
            },
        }
    }

    /// Cancels the entry with identifier `id`, and says whether there was
    /// one. The other entries stay, in their order. To cancel again
    /// changes nothing.
    pub fn cancel(&mut self, id: u128) -> (cancelled: bool)
        requires
            old(self).wf(),
        ensures
            final(self).wf(),
            cancelled == old(self).has(id),
            !final(self).has(id),
            !cancelled ==> final(self).entries@ == old(self).entries@,
            cancelled ==> exists|i: int|
                0 <= i < old(self).entries@.len() && (#[trigger] old(self).entries@[i]).id == id
                    && final(self).entries@ == old(self).entries@.remove(i),
    {
        match self.find(id) {
            Some(i) => {
                let ghost before = self.entries@;
                self.entries.remove(i);
                proof {
                    let x = i as int;
                    assert forall|k: int| 0 <= k < self.entries@.len() implies #[trigger] self.entries@[k]
                        == (if k < x {
                        before[k]
                    } else {
                        before[k + 1]
                    }) by {}
                    assert forall|a: int, b: int| 0 <= a < b < self.entries@.len() implies (
                    #[trigger] self.entries@[a]).id != (#[trigger] self.entries@[b]).id by {
                        let a0 = if a < x {
                            a
                        } else {
                            a + 1
                        };
                        let b0 = if b < x {
                            b
                        } else {
                            b + 1
                        };
                        assert(before[a0].id != before[b0].id);
                    }
                    if self.has(id) {
                        let k = choose|k: int|
                            0 <= k < self.entries@.len() && (#[trigger] self.entries@[k]).id == id;
                        let k0 = if k < x {
                            k
                        } else {
                            k + 1
                        };
                        if k0 < x {
                            assert(before[k0].id != before[x].id);
                        } else {
                            assert(before[x].id != before[k0].id);
                        }
                    }
                    assert(before[x].id == id);
                }
                true
            },
            None => false,
        }
    }

    /// The first entry that applies to the queue `name` at `now`.
    pub fn matching(&self, name: &str, now: u64) -> (r: Option<usize>)
        ensures
            match r {
                Some(i) => i < self.entries@.len() && applies(self.entries@[i as int], name@, now)
                    && forall|j: int| 0 <= j < i ==> !applies(#[trigger] self.entries@[j], name@, now),
                None => forall|j: int|
                    0 <= j < self.entries@.len() ==> !applies(#[trigger] self.entries@[j], name@, now),
            },
    {
        let key = String::from_str(name);
        let mut i: usize = 0;
        while i < self.entries.len()
            invariant
                i <= self.entries@.len(),
                key@ == name@,
                forall|j: int| 0 <= j < i ==> !applies(#[trigger] self.entries@[j], name@, now),
            decreases self.entries@.len() - i,
        {
            let e = &self.entries[i];
            let named = match &e.criteria.queue_name {
                Some(q) => *q == key,
                None => true,
            };
            if e.expires > now && named {
                return Some(i);
            }
            i += 1;
        }
        None
    }
}

/// A cancelled entry matches no queue at any time.
pub proof fn cancelled_matches_nothing(b: AdminBounces, id: u128, i: int)
    requires
        !b.has(id),
        0 <= i < b.entries@.len(),
    ensures
        b.entries@[i].id != id,
{
}

/// What a cancellation by way of the control plane comes to: the answer of
/// the server if it refused, as an error; else what is to be shown, which
/// is the answer, or `OK` for an empty one.
pub fn cancel_report(success: bool, response: String) -> (r: Result<String, String>)
    ensures
        match r {
            Ok(shown) => success && if response@.len() == 0 {
                shown@ == "OK"@
            } else {
                shown == response
            },
            Err(e) => !success && e == response,
        },
{
    if !success {
        return Err(response);
    }
    if response.as_str().is_empty() {
        Ok(String::from_str("OK"))
    } else {
        Ok(response)
    }
}

} // verus!

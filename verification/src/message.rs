//! A message in flight: its identifier, its envelope, and where it stands
//! in its schedule.

use vstd::prelude::*;
use crate::command::texts_of;

verus! {

/// The identifier of a message in the spool: 128 bits.
#[derive(Debug, Clone, Copy, PartialEq, Eq, Structural, Hash)]
pub struct SpoolId {
    pub value: u128,
}

/// The metadata of a message. Its body lies in the data spool.
#[derive(Debug, Clone, PartialEq, Eq)]
pub struct Message {
    pub id: SpoolId,
    /// When the message was received, in seconds since the epoch.
    pub received_at: u64,
    pub num_attempts: u64,
    /// When the next attempt is due, in seconds since the epoch.
    pub next_due: u64,
    /// The reverse path, in its wire form.
    pub sender: String,
    /// The forward paths, in their wire form.
    pub recipients: Vec<String>,
    /// What hooks have noted on the message, by name.
    pub meta: Vec<(String, String)>,
    /// Fields of the metadata blob that this version does not know, by tag.
    /// They are written back as they were read.
    pub extra: Vec<(u8, Vec<u8>)>,
}

/// What a message is, whatever memory holds it.
pub struct MessageView {
    pub id: SpoolId,
    pub received_at: u64,
    pub num_attempts: u64,
    pub next_due: u64,
    pub sender: Seq<char>,
    pub recipients: Seq<Seq<char>>,
    pub meta: Seq<(Seq<char>, Seq<char>)>,
    pub extra: Seq<(u8, Seq<u8>)>,
}

/// The names and values of a list of notes.
pub open spec fn pairs_of(v: Seq<(String, String)>) -> Seq<(Seq<char>, Seq<char>)> {
    v.map_values(|p: (String, String)| (p.0@, p.1@))
}

/// The tags and payloads of a list of fields.
pub open spec fn fields_view(v: Seq<(u8, Vec<u8>)>) -> Seq<(u8, Seq<u8>)> {
    v.map_values(|f: (u8, Vec<u8>)| (f.0, f.1@))
}

impl View for Message {
    type V = MessageView;

    open spec fn view(&self) -> MessageView {
        MessageView {
            id: self.id,
            received_at: self.received_at,
            num_attempts: self.num_attempts,
            next_due: self.next_due,
            sender: self.sender@,
            recipients: texts_of(self.recipients@),
            meta: pairs_of(self.meta@),
            extra: fields_view(self.extra@),
        }
    }
}

/// The time that lies `delay` seconds after `now`, or the end of time.
pub open spec fn later(now: u64, delay: nat) -> u64 {
    if now + delay <= u64::MAX {
        (now + delay) as u64
    } else {
        u64::MAX
    }
}

/// A count and one more, up to the largest count there is.
pub open spec fn one_more(n: u64) -> u64 {
    if n < u64::MAX {
        (n + 1) as u64
    } else {
        u64::MAX
    }
}

impl Message {
    /// The age of the message at `now`: nothing while the clock is behind
    /// the reception.
    pub open spec fn age_at(&self, now: u64) -> nat {
        if now >= self.received_at {
            (now - self.received_at) as nat
        } else {
            0
        }
    }

    /// A message that has just been received: no attempt made, due at once.
    pub fn new(id: SpoolId, received_at: u64, sender: String, recipients: Vec<String>) -> (m:
        Message)
        ensures
            m.id == id,
            m.received_at == received_at,
            m.num_attempts == 0,
            m.next_due == received_at,
            m.sender == sender,
            m.recipients == recipients,
            m.meta@.len() == 0,
            m.extra@.len() == 0,
    {
        Message {
            id,
            received_at,
            num_attempts: 0,
            next_due: received_at,
            sender,
            recipients,
            meta: Vec::new(),
            extra: Vec::new(),
        }
    }

    pub fn age(&self, now: u64) -> (r: u64)
        ensures
            r == self.age_at(now),
    {
        if now >= self.received_at {
            now - self.received_at
        } else {
            0
        }
    }

    /// Raises the number of attempts to `n`. The number never decreases: a
    /// lower `n` leaves it as it is.
    pub fn set_num_attempts(&mut self, n: u64)
        ensures
            final(self).num_attempts == if n >= old(self).num_attempts {
                n
            } else {
                old(self).num_attempts
            },
            final(self).num_attempts >= old(self).num_attempts,
            final(self).id == old(self).id,
            final(self).received_at == old(self).received_at,
            final(self).next_due == old(self).next_due,
            final(self).sender == old(self).sender,
            final(self).recipients == old(self).recipients,
            final(self).meta == old(self).meta,
            final(self).extra == old(self).extra,
    {
        if n > self.num_attempts {
            self.num_attempts = n;
        }
    }

    /// Counts one more attempt, up to the largest number there is.
    pub fn increment_num_attempts(&mut self)
        ensures
            final(self).num_attempts == one_more(old(self).num_attempts),
            *final(self) == (Message { num_attempts: one_more(old(self).num_attempts), ..*old(self) }),
            final(self).num_attempts >= old(self).num_attempts,
            final(self).id == old(self).id,
            final(self).received_at == old(self).received_at,
            final(self).next_due == old(self).next_due,
            final(self).sender == old(self).sender,
            final(self).recipients == old(self).recipients,
            final(self).meta == old(self).meta,
            final(self).extra == old(self).extra,
    {
        if self.num_attempts < u64::MAX {
            self.num_attempts = self.num_attempts + 1;
        }
    }

    /// Makes the message due `delay` seconds after `now`, or at the end of
    /// time if that is sooner.
    pub fn delay_by(&mut self, delay: u64, now: u64)
        ensures
            final(self).next_due == later(now, delay as nat),
            *final(self) == (Message { next_due: later(now, delay as nat), ..*old(self) }),
            final(self).id == old(self).id,
            final(self).received_at == old(self).received_at,
            final(self).num_attempts == old(self).num_attempts,
            final(self).sender == old(self).sender,
            final(self).recipients == old(self).recipients,
            final(self).meta == old(self).meta,
            final(self).extra == old(self).extra,
    {
        self.next_due = now.saturating_add(delay);
    }
}

} // verus!

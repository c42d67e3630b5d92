//! What a configuration script may define: spools, and handlers for the
//! events that the core raises.

use vstd::prelude::*;

verus! {

/// The backing of a spool.
#[derive(Debug, Clone, Copy, PartialEq, Eq, Structural)]
pub enum SpoolKind {
    /// Files in a two-level directory tree.
    LocalDisk,
    /// An embedded key-value store.
    RocksDB,
}

impl Default for SpoolKind {
    fn default() -> (k: SpoolKind)
        ensures
            k == SpoolKind::LocalDisk,
    {
        SpoolKind::LocalDisk
    }
}

/// Tuning of the embedded key-value store.
#[derive(Debug, Clone, Copy, PartialEq, Eq, Structural)]
pub struct RocksSpoolParams {
    pub paranoid_checks: bool,
    pub increase_parallelism: Option<i32>,
}

/// The definition of one named spool.
#[derive(Debug, Clone, PartialEq, Eq)]
pub struct DefineSpoolParams {
    pub name: String,
    pub path: String,
    pub kind: SpoolKind,
    /// Whether every write is synced to the medium before it is acknowledged.
    pub flush: bool,
    pub rocks_params: Option<RocksSpoolParams>,
}

/// Where a handler was defined.
#[derive(Debug, Clone, PartialEq, Eq)]
pub struct SourceLocation {
    pub source: String,
    pub line: i32,
}

/// One registered handler: the event it is for and, if known, where it was
/// defined.
#[derive(Debug, Clone, PartialEq, Eq)]
pub struct Registration {
    pub name: String,
    pub location: Option<SourceLocation>,
}

/// Why a handler was not registered: the event has one already. The error
/// carries where that one was defined.
#[derive(Debug, Clone, PartialEq, Eq)]
pub struct AlreadyRegistered {
    pub name: String,
    pub location: Option<SourceLocation>,
}

/// The events that the core raises.
#[derive(Debug, Clone, Copy, PartialEq, Eq, Structural)]
pub enum HookKind {
    SmtpServerMailFrom,
    SmtpServerRcptTo,
    SmtpServerMessageReceived,
    SpoolMessageEnumerated,
    GetQueueName,
    ShouldEnqueueLogRecord,
}

/// The event that a name stands for.
pub open spec fn hook_of(name: Seq<char>) -> Option<HookKind> {
    if name == "smtp_server_mail_from"@ {
        Some(HookKind::SmtpServerMailFrom)
    } else if name == "smtp_server_rcpt_to"@ {
        Some(HookKind::SmtpServerRcptTo)
    } else if name == "smtp_server_message_received"@ {
        Some(HookKind::SmtpServerMessageReceived)
    } else if name == "spool_message_enumerated"@ {
        Some(HookKind::SpoolMessageEnumerated)
    } else if name == "get_queue_name"@ {
        Some(HookKind::GetQueueName)
    } else if name == "should_enqueue_log_record"@ {
        Some(HookKind::ShouldEnqueueLogRecord)
    } else {
        None
    }
}

impl HookKind {
    /// The event that `name` stands for, if the core raises one of that name.
    pub fn from_name(name: &str) -> (r: Option<HookKind>)
        ensures
            r == hook_of(name@),
    {
        let key = String::from_str(name);
        if key == String::from_str("smtp_server_mail_from") {
            Some(HookKind::SmtpServerMailFrom)
        } else if key == String::from_str("smtp_server_rcpt_to") {
            Some(HookKind::SmtpServerRcptTo)
        } else if key == String::from_str("smtp_server_message_received") {
            Some(HookKind::SmtpServerMessageReceived)
        } else if key == String::from_str("spool_message_enumerated") {
            Some(HookKind::SpoolMessageEnumerated)
        } else if key == String::from_str("get_queue_name") {
            Some(HookKind::GetQueueName)
        } else if key == String::from_str("should_enqueue_log_record") {
            Some(HookKind::ShouldEnqueueLogRecord)
        } else {
            None
        }
    }
}

/// The handlers that a configuration has registered, by event. An event
/// has one handler at most, and keeps the one it got first.
pub struct HookRegistry {
    pub registered: Vec<Registration>,
}

impl HookRegistry {
    /// No event has two handlers.
    pub open spec fn wf(&self) -> bool {
        forall|i: int, j: int|
            0 <= i < j < self.registered@.len() ==> (#[trigger] self.registered@[i]).name@ != (
            #[trigger] self.registered@[j]).name@
    }

    /// Whether the event `name` has a handler.
    pub open spec fn has(&self, name: Seq<char>) -> bool {
        exists|i: int| 0 <= i < self.registered@.len() && (#[trigger] self.registered@[i]).name@ == name
    }

    pub fn new() -> (r: HookRegistry)
        ensures
            r.wf(),
            r.registered@.len() == 0,
    {
        HookRegistry { registered: Vec::new() }
    }

    /// The slot of the handler of the event `name`.
    pub fn lookup(&self, name: &str) -> (r: Option<usize>)
        ensures
            match r {
                Some(i) => i < self.registered@.len() && self.registered@[i as int].name@ == name@ && forall|j: int|
                    0 <= j < i ==> (#[trigger] self.registered@[j]).name@ != name@,
                None => !self.has(name@),
            },
    {
        let key = String::from_str(name);
        let mut i: usize = 0;
        while i < self.registered.len()
            invariant
                i <= self.registered@.len(),
                key@ == name@,
                forall|j: int| 0 <= j < i ==> (#[trigger] self.registered@[j]).name@ != name@,
            decreases self.registered@.len() - i,
        {
            if self.registered[i].name == key {
                return Some(i);
            }
            i += 1;
        }
        None
    }

    /// Registers the handler of the event `name`, defined at `location`.
    /// An event that has a handler keeps it: the registry stays as it is,
    /// and the error says where the first handler was defined.
    pub fn on(&mut self, name: &str, location: Option<SourceLocation>) -> (r: Result<
        usize,
        AlreadyRegistered,
    >)
        requires
            old(self).wf(),
        ensures
            final(self).wf(),
            match r {
                Ok(slot) => {
                    &&& !old(self).has(name@)
                    &&& slot == old(self).registered@.len()
                    &&& final(self).registered@.len() == slot + 1
                    &&& final(self).registered@[slot as int].name@ == name@
                    &&& final(self).registered@[slot as int].location == location
                    &&& forall|i: int|
                        0 <= i < slot ==> #[trigger] final(self).registered@[i] == old(self).registered@[i]
                },
                Err(e) => {
                    &&& old(self).has(name@)
                    &&& final(self).registered@ == old(self).registered@
                    &&& e.name@ == name@
                    &&& exists|i: int|
                        0 <= i < old(self).registered@.len() && (#[trigger] old(self).registered@[i]).name@ == name@ && e.location == old(self).registered@[i].location
                },
            },
    {
        match self.lookup(name) {
            Some(i) => {
                let location = match &self.registered[i].location {
                    Some(l) => Some(SourceLocation { source: l.source.clone(), line: l.line }),
                    None => None,
                };
                Err(AlreadyRegistered { name: String::from_str(name), location })
            },
            None => {
                let ghost before = self.registered@;
                self.registered.push(Registration { name: String::from_str(name), location });
                proof {
                    assert forall|a: int, b: int| 0 <= a < b < self.registered@.len() implies (
                    #[trigger] self.registered@[a]).name@ != (#[trigger] self.registered@[b]).name@ by {
                        if b < before.len() {
                            assert(before[a].name@ != before[b].name@);
                        } else {
                            assert(self.registered@[a] == before[a]);
                        }
                    }
                }
                Ok(self.registered.len() - 1)
            },
        }
    }
}

/// The name under which the handler of the event `name` is kept.
pub fn decorated_name(name: &str) -> (r: String)
    ensures
        r@ == "kumomta-on-"@ + name@,
{
    let mut r = String::from_str("kumomta-on-");
    r.append(name);
    r
}

} // verus!

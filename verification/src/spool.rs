//! The spools of the process, by name, and what is to be done with them
//! at startup and when a message leaves.
//!
//! The manager keeps the definitions; the stores themselves live outside,
//! one per slot, and a handle names a slot. Two names are distinguished:
//! `meta` holds the metadata blob of every message and `data` its body.

use vstd::prelude::*;
use crate::message::SpoolId;
use crate::mod_kumo::{DefineSpoolParams, RocksSpoolParams, SpoolKind};

verus! {

/// How many entries an enumeration may be ahead of their consumer.
pub const ENUMERATION_CHANNEL_CAPACITY: usize = 32;

/// The seconds between two cleanups of a spool.
pub const CLEANUP_INTERVAL_SECONDS: u64 = 600;

/// One defined spool.
#[derive(Debug, Clone, PartialEq, Eq)]
pub struct Spool {
    pub name: String,
    pub path: String,
    pub kind: SpoolKind,
    pub flush: bool,
    pub rocks_params: Option<RocksSpoolParams>,
}

/// A reference to a defined spool: its slot in the manager.
#[derive(Debug, Clone, Copy, PartialEq, Eq, Structural)]
pub struct SpoolHandle {
    pub slot: usize,
}

/// What a spool hands out for one entry when it is enumerated.
#[derive(Debug, Clone, PartialEq, Eq)]
pub enum SpoolEntry {
    /// The bytes stored under `id`.
    Item { id: SpoolId, data: Vec<u8> },
    /// A record that could not be read.
    Corrupt { id: SpoolId, error: String },
}

/// Why the spools cannot do what was asked.
#[derive(Debug, Clone, PartialEq, Eq)]
pub enum SpoolError {
    /// No spools have been defined.
    NoSpoolsDefined,
    /// No spool of this name has been defined.
    NotDefined(String),
}

/// What a spool is to the core.
#[derive(Debug, Clone, Copy, PartialEq, Eq, Structural)]
pub enum SpoolRole {
    /// The spool named `meta`.
    Meta,
    /// The spool named `data`.
    Data,
    /// A spool that the core does not use.
    Other,
}

/// What is to be started for one spool: its maintenance, which cleans up
/// at a fixed interval, and before that, for the `meta` spool alone, its
/// enumeration.
#[derive(Debug, Clone, Copy, PartialEq, Eq, Structural)]
pub struct MaintainerPlan {
    pub handle: SpoolHandle,
    pub role: SpoolRole,
    pub enumerate: bool,
}

/// The removal of what one spool holds for one message.
#[derive(Debug, Clone, Copy, PartialEq, Eq, Structural)]
pub struct SpoolRemoval {
    pub handle: SpoolHandle,
    pub id: SpoolId,
}

/// The defined spools, by slot, and whether startup has come to its end.
pub struct SpoolManager {
    pub named: Vec<Spool>,
    pub spooled_in: bool,
}

/// The role that a name stands for.
pub open spec fn role_of(name: Seq<char>) -> SpoolRole {
    if name == "meta"@ {
        SpoolRole::Meta
    } else if name == "data"@ {
        SpoolRole::Data
    } else {
        SpoolRole::Other
    }
}

impl SpoolManager {
    /// No two spools share a name.
    pub open spec fn wf(&self) -> bool {
        forall|i: int, j: int|
            0 <= i < j < self.named@.len() ==> (#[trigger] self.named@[i]).name@ != (
            #[trigger] self.named@[j]).name@
    }

    /// Whether a spool named `name` has been defined.
    pub open spec fn defines(&self, name: Seq<char>) -> bool {
        exists|i: int| 0 <= i < self.named@.len() && (#[trigger] self.named@[i]).name@ == name
    }

    pub fn new() -> (m: SpoolManager)
        ensures
            m.wf(),
            m.named@.len() == 0,
            !m.spooled_in,
    {
        SpoolManager { named: Vec::new(), spooled_in: false }
    }

    /// The slot of the spool named `name`.
    pub fn find(&self, name: &str) -> (r: Option<usize>)
        ensures
            match r {
                Some(i) => i < self.named@.len() && self.named@[i as int].name@ == name@ && forall|j: int|
                    0 <= j < i ==> (#[trigger] self.named@[j]).name@ != name@,
                None => !self.defines(name@),
            },
    {
        let key = String::from_str(name);
        let mut i: usize = 0;
        while i < self.named.len()
            invariant
                i <= self.named@.len(),
                key@ == name@,
                forall|j: int| 0 <= j < i ==> (#[trigger] self.named@[j]).name@ != name@,
            decreases self.named@.len() - i,
        {
            if self.named[i].name == key {
                return Some(i);
            }
            i += 1;
        }
        None
    }

    /// Defines a spool. A spool of the same name that was defined before
    /// gives way to the new one, in its slot; every other spool stays.
    pub fn new_local_disk(&mut self, params: DefineSpoolParams) -> (h: SpoolHandle)
        requires
            old(self).wf(),
        ensures
            final(self).wf(),
            final(self).spooled_in == old(self).spooled_in,
            h.slot < final(self).named@.len(),
            final(self).named@[h.slot as int].name == params.name,
            final(self).named@[h.slot as int].path == params.path,
            final(self).named@[h.slot as int].kind == params.kind,
            final(self).named@[h.slot as int].flush == params.flush,
            final(self).named@[h.slot as int].rocks_params == params.rocks_params,
            old(self).defines(params.name@) ==> final(self).named@.len() == old(self).named@.len()
                && old(self).named@[h.slot as int].name@ == params.name@,
            !old(self).defines(params.name@) ==> final(self).named@.len() == old(self).named@.len()
                + 1 && h.slot == old(self).named@.len(),
            forall|i: int|
                0 <= i < old(self).named@.len() && i != h.slot ==> #[trigger] final(self).named@[i]
                    == old(self).named@[i],
    {
        let found = self.find(params.name.as_str());
        let spool = Spool {
            name: params.name,
            path: params.path,
            kind: params.kind,
            flush: params.flush,
            rocks_params: params.rocks_params,
        };
        let ghost before = self.named@;
        match found {
            Some(i) => {
                self.named.set(i, spool);
                proof {
                    assert forall|a: int, b: int| 0 <= a < b < self.named@.len() implies (
                    #[trigger] self.named@[a]).name@ != (#[trigger] self.named@[b]).name@ by {
                        assert(before[a].name@ != before[b].name@);
                    }
                }
                SpoolHandle { slot: i }
            },
            None => {
                self.named.push(spool);
                proof {
                    assert forall|a: int, b: int| 0 <= a < b < self.named@.len() implies (
                    #[trigger] self.named@[a]).name@ != (#[trigger] self.named@[b]).name@ by {
                        if b < before.len() {
                            assert(before[a].name@ != before[b].name@);
                        } else {
                            assert(self.named@[a] == before[a]);
                        }
                    }
                }
                SpoolHandle { slot: self.named.len() - 1 }
            },
        }
    }

    /// The spool named `name`, or the error that names what is missing.
    pub fn get_named_impl(&self, name: &str) -> (r: Result<SpoolHandle, SpoolError>)
        ensures
            match r {
                Ok(h) => h.slot < self.named@.len() && self.named@[h.slot as int].name@ == name@,
                Err(SpoolError::NotDefined(n)) => !self.defines(name@) && n@ == name@,
                Err(SpoolError::NoSpoolsDefined) => false,
            },
    {
        match self.find(name) {
            Some(i) => Ok(SpoolHandle { slot: i }),
            None => Err(SpoolError::NotDefined(String::from_str(name))),
        }
    }

    /// The definition behind a handle.
    pub fn definition(&self, h: SpoolHandle) -> (r: Option<&Spool>)
        ensures
            match r {
                Some(s) => h.slot < self.named@.len() && *s == self.named@[h.slot as int],
                None => h.slot >= self.named@.len(),
            },
    {
        if h.slot < self.named.len() {
            Some(&self.named[h.slot])
        } else {
            None
        }
    }

    /// Whether the spools have been enumerated to their end.
    pub fn spool_started(&self) -> (r: bool)
        ensures
            r == self.spooled_in,
    {
        self.spooled_in
    }

    /// What removes a message from the spools: its body from `data`, then
    /// its metadata from `meta`. Both are attempted, whatever comes of the
    /// first. Without both spools nothing is removed.
    pub fn remove_from_spool_impl(&self, id: SpoolId) -> (r: Result<Vec<SpoolRemoval>, SpoolError>)
        ensures
            match r {
                Ok(v) => {
                    &&& v@.len() == 2
                    &&& v@[0].id == id
                    &&& v@[1].id == id
                    &&& v@[0].handle.slot < self.named@.len()
                    &&& v@[1].handle.slot < self.named@.len()
                    &&& self.named@[v@[0].handle.slot as int].name@ == "data"@
                    &&& self.named@[v@[1].handle.slot as int].name@ == "meta"@
                },
                Err(SpoolError::NotDefined(n)) => if self.defines("data"@) {
                    !self.defines("meta"@) && n@ == "meta"@
                } else {
                    n@ == "data"@
                },
                Err(SpoolError::NoSpoolsDefined) => false,
            },
    {
        let data = match self.get_named_impl("data") {
            Ok(h) => h,
            Err(e) => {
                return Err(e);
            },
        };
        let meta = match self.get_named_impl("meta") {
            Ok(h) => h,
            Err(e) => {
                return Err(e);
            },
        };
        let mut v: Vec<SpoolRemoval> = Vec::new();
        v.push(SpoolRemoval { handle: data, id });
        v.push(SpoolRemoval { handle: meta, id });
        Ok(v)
    }

    /// What is to be started at startup: for every spool, in the order of
    /// the slots, its maintenance; the `meta` spool alone is enumerated.
    /// Without any spool, and without `data` or `meta`, nothing starts.
    pub fn start_spool(&self) -> (r: Result<Vec<MaintainerPlan>, SpoolError>)
        requires
            self.wf(),
        ensures
            match r {
                Ok(v) => {
                    &&& self.defines("data"@)
                    &&& self.defines("meta"@)
                    &&& v@.len() == self.named@.len()
                    &&& forall|i: int|
                        0 <= i < v@.len() ==> {
                            let p = #[trigger] v@[i];
                            &&& p.handle.slot == i
                            &&& p.role == role_of(self.named@[i].name@)
                            &&& p.enumerate == (p.role == SpoolRole::Meta)
                        }
                },
                Err(SpoolError::NoSpoolsDefined) => self.named@.len() == 0,
                Err(SpoolError::NotDefined(n)) => self.named@.len() > 0 && if self.defines(
                    "data"@,
                ) {
                    !self.defines("meta"@) && n@ == "meta"@
                } else {
                    n@ == "data"@
                },
            },
    {
        if self.named.len() == 0 {
            return Err(SpoolError::NoSpoolsDefined);
        }
        match self.get_named_impl("data") {
            Ok(_) => {},
            Err(e) => {
                return Err(e);
            },
        }
        match self.get_named_impl("meta") {
            Ok(_) => {},
            Err(e) => {
                return Err(e);
            },
        }
        let meta = String::from_str("meta");
        let data = String::from_str("data");
        let mut v: Vec<MaintainerPlan> = Vec::new();
        let mut i: usize = 0;
        while i < self.named.len()
            invariant
                i <= self.named@.len(),
                v@.len() == i,
                meta@ == "meta"@,
                data@ == "data"@,
                forall|j: int|
                    0 <= j < i ==> {
                        let p = #[trigger] v@[j];
                        &&& p.handle.slot == j
                        &&& p.role == role_of(self.named@[j].name@)
                        &&& p.enumerate == (p.role == SpoolRole::Meta)
                    },
            decreases self.named@.len() - i,
        {
            let role = if self.named[i].name == meta {
                SpoolRole::Meta
            } else if self.named[i].name == data {
                SpoolRole::Data
            } else {
                SpoolRole::Other
            };
            let enumerate = match role {
                SpoolRole::Meta => true,
                _ => false,
            };
            v.push(MaintainerPlan { handle: SpoolHandle { slot: i }, role, enumerate });
            i += 1;
        }
        Ok(v)
    }

    /// Notes that the enumeration has come to its end.
    pub fn finish_start(&mut self)
        ensures
            final(self).spooled_in,
            final(self).named == old(self).named,
    {
        self.spooled_in = true;
    }
}

/// At startup exactly one spool is enumerated: the one named `meta`.
pub proof fn only_meta_is_enumerated(m: SpoolManager, plans: Seq<MaintainerPlan>, i: int, j: int)
    requires
        m.wf(),
        plans.len() == m.named@.len(),
        forall|k: int|
            0 <= k < plans.len() ==> (#[trigger] plans[k]).enumerate == (m.named@[k].name@
                == "meta"@),
        0 <= i < plans.len(),
        0 <= j < plans.len(),
        plans[i].enumerate,
        plans[j].enumerate,
    ensures
        i == j,
{
    if i < j {
        assert(m.named@[i].name@ != m.named@[j].name@);
    }
    if j < i {
        assert(m.named@[j].name@ != m.named@[i].name@);
    }
}

} // verus!

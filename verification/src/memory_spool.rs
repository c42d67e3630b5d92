//! A spool that lives in memory: what a store does, without a medium.

use vstd::prelude::*;
use crate::message::SpoolId;
use crate::spool::SpoolEntry;

verus! {

/// What is stored, in the order in which the identifiers were first stored.
pub struct MemorySpool {
    pub entries: Vec<(SpoolId, Vec<u8>)>,
}

impl MemorySpool {
    /// No identifier is stored twice.
    pub open spec fn wf(&self) -> bool {
        forall|i: int, j: int|
            0 <= i < j < self.entries@.len() ==> (#[trigger] self.entries@[i]).0 != (
            #[trigger] self.entries@[j]).0
    }

    /// Whether something is stored under `id`.
    pub open spec fn has(&self, id: SpoolId) -> bool {
        exists|i: int| 0 <= i < self.entries@.len() && (#[trigger] self.entries@[i]).0 == id
    }

    /// What is stored under `id`.
    pub open spec fn stored(&self, id: SpoolId) -> Option<Seq<u8>> {
        if self.has(id) {
            let i = choose|i: int| 0 <= i < self.entries@.len() && (#[trigger] self.entries@[i]).0
                == id;
            Some(self.entries@[i].1@)
        } else {
            None
        }
    }

    /// What is stored under the identifier of an entry is that entry's bytes.
    pub proof fn lemma_stored_at(&self, i: int)
        requires
            self.wf(),
            0 <= i < self.entries@.len(),
        ensures
            self.stored(self.entries@[i].0) == Some(self.entries@[i].1@),
    {
        let id = self.entries@[i].0;
        let k = choose|k: int| 0 <= k < self.entries@.len() && (#[trigger] self.entries@[k]).0
            == id;
        if k < i {
            assert(self.entries@[k].0 != self.entries@[i].0);
        }
        if i < k {
            assert(self.entries@[i].0 != self.entries@[k].0);
        }
    }

    pub fn new() -> (s: MemorySpool)
        ensures
            s.wf(),
            s.entries@.len() == 0,
            forall|id: SpoolId| s.stored(id) is None,
    {
        MemorySpool { entries: Vec::new() }
    }

    fn find(&self, id: SpoolId) -> (r: Option<usize>)
        ensures
            match r {
                Some(i) => i < self.entries@.len() && self.entries@[i as int].0 == id,
                None => !self.has(id),
            },
    {
        let mut i: usize = 0;
        while i < self.entries.len()
            invariant
                i <= self.entries@.len(),
                forall|j: int| 0 <= j < i ==> (#[trigger] self.entries@[j]).0 != id,
            decreases self.entries@.len() - i,
        {
            if self.entries[i].0 == id {
                return Some(i);
            }
            i += 1;
        }
        None
    }

    /// Stores `data` under `id`, in place of what was there.
    pub fn put(&mut self, id: SpoolId, data: Vec<u8>)
        requires
            old(self).wf(),
        ensures
            final(self).wf(),
            final(self).stored(id) == Some(data@),
            forall|other: SpoolId|
                other != id ==> #[trigger] final(self).stored(other) == old(self).stored(other),
    {
        let ghost before = *self;
        let ghost bytes = data@;
        match self.find(id) {
            Some(i) => {
                self.entries.set(i, (id, data));
                proof {
                    let x = i as int;
                    assert forall|a: int, b: int| 0 <= a < b < self.entries@.len() implies (
                    #[trigger] self.entries@[a]).0 != (#[trigger] self.entries@[b]).0 by {
                        assert(before.entries@[a].0 != before.entries@[b].0);
                    }
                    self.lemma_stored_at(x);
                    assert forall|other: SpoolId| other != id implies #[trigger] self.stored(other)
                        == before.stored(other) by {
                        if before.has(other) {
                            let k = choose|k: int|
                                0 <= k < before.entries@.len() && (#[trigger] before.entries@[k]).0
                                    == other;
                            assert(self.entries@[k] == before.entries@[k]);
                            before.lemma_stored_at(k);
                            self.lemma_stored_at(k);
                        } else if self.has(other) {
                            let k = choose|k: int|
                                0 <= k < self.entries@.len() && (#[trigger] self.entries@[k]).0
                                    == other;
                            assert(before.entries@[k].0 == other);
                        }
                    }
                }
            },
            None => {
                self.entries.push((id, data));
                proof {
                    let x = before.entries@.len() as int;
                    assert forall|a: int, b: int| 0 <= a < b < self.entries@.len() implies (
                    #[trigger] self.entries@[a]).0 != (#[trigger] self.entries@[b]).0 by {
                        if b < x {
                            assert(before.entries@[a].0 != before.entries@[b].0);
                        } else {
                            assert(self.entries@[a] == before.entries@[a]);
                        }
                    }
                    self.lemma_stored_at(x);
                    assert forall|other: SpoolId| other != id implies #[trigger] self.stored(other)
                        == before.stored(other) by {
                        if before.has(other) {
                            let k = choose|k: int|
                                0 <= k < before.entries@.len() && (#[trigger] before.entries@[k]).0
                                    == other;
                            assert(self.entries@[k] == before.entries@[k]);
                            before.lemma_stored_at(k);
                            self.lemma_stored_at(k);
                        } else if self.has(other) {
                            let k = choose|k: int|
                                0 <= k < self.entries@.len() && (#[trigger] self.entries@[k]).0
                                    == other;
                            assert(before.entries@[k].0 == other);
                        }
                    }
                }
            },
        }
    }

    /// What is stored under `id`.
    pub fn get(&self, id: SpoolId) -> (r: Option<Vec<u8>>)
        requires
            self.wf(),
        ensures
            match r {
                Some(v) => self.stored(id) == Some(v@),
                None => self.stored(id) is None,
            },
    {
        match self.find(id) {
            Some(i) => {
                proof {
                    self.lemma_stored_at(i as int);
                }
                Some(copy_bytes(&self.entries[i].1))
            },
            None => None,
        }
    }

    /// Removes what is stored under `id`, and says whether there was anything.
    pub fn remove(&mut self, id: SpoolId) -> (r: bool)
        requires
            old(self).wf(),
        ensures
            final(self).wf(),
            r == old(self).stored(id) is Some,
            final(self).stored(id) is None,
            forall|other: SpoolId|
                other != id ==> #[trigger] final(self).stored(other) == old(self).stored(other),
    {
        let ghost before = *self;
        match self.find(id) {
            Some(i) => {
                self.entries.remove(i);
                proof {
                    let x = i as int;
                    assert forall|k: int| 0 <= k < self.entries@.len() implies #[trigger] self.entries@[k]
                        == (if k < x {
                        before.entries@[k]
                    } else {
                        before.entries@[k + 1]
                    }) by {}
                    assert forall|a: int, b: int| 0 <= a < b < self.entries@.len() implies (
                    #[trigger] self.entries@[a]).0 != (#[trigger] self.entries@[b]).0 by {
                        let a0 = if a < x {
                            a
                        } else {
                            a + 1
                        };
                        let b0 = if b < x {
                            b
                        } else {
                            b + 1
                        };
                        assert(before.entries@[a0].0 != before.entries@[b0].0);
                    }
                    if self.has(id) {
                        let k = choose|k: int|
                            0 <= k < self.entries@.len() && (#[trigger] self.entries@[k]).0 == id;
                        let k0 = if k < x {
                            k
                        } else {
                            k + 1
                        };
                        if k0 < x {
                            assert(before.entries@[k0].0 != before.entries@[x].0);
                        } else {
                            assert(before.entries@[x].0 != before.entries@[k0].0);
                        }
                    }
                    assert forall|other: SpoolId| other != id implies #[trigger] self.stored(other)
                        == before.stored(other) by {
                        if before.has(other) {
                            let k = choose|k: int|
                                0 <= k < before.entries@.len() && (#[trigger] before.entries@[k]).0
                                    == other;
                            let k1 = if k < x {
                                k
                            } else {
                                k - 1
                            };
                            assert(self.entries@[k1] == before.entries@[k]);
                            before.lemma_stored_at(k);
                            self.lemma_stored_at(k1);
                        } else if self.has(other) {
                            let k = choose|k: int|
                                0 <= k < self.entries@.len() && (#[trigger] self.entries@[k]).0
                                    == other;
                            let k0 = if k < x {
                                k
                            } else {
                                k + 1
                            };
                            assert(before.entries@[k0].0 == other);
                        }
                    }
                }
                true
            },
            None => false,
        }
    }

    /// Tidies the store up. In memory there is nothing to tidy.
    pub fn cleanup(&mut self)
        ensures
            *final(self) == *old(self),
    {
    }

    /// Walks the whole store: one item for every entry, in the order in
    /// which the identifiers were first stored.
    pub fn enumerate(&self) -> (v: Vec<SpoolEntry>)
        ensures
            v@.len() == self.entries@.len(),
            forall|i: int|
                0 <= i < v@.len() ==> match #[trigger] v@[i] {
                    SpoolEntry::Item { id, data } => id == self.entries@[i].0 && data@
                        == self.entries@[i].1@,
                    SpoolEntry::Corrupt { .. } => false,
                },
    {
        let mut v: Vec<SpoolEntry> = Vec::new();
        let mut i: usize = 0;
        while i < self.entries.len()
            invariant
                i <= self.entries@.len(),
                v@.len() == i,
                forall|j: int|
                    0 <= j < i ==> match #[trigger] v@[j] {
                        SpoolEntry::Item { id, data } => id == self.entries@[j].0 && data@
                            == self.entries@[j].1@,
                        SpoolEntry::Corrupt { .. } => false,
                    },
            decreases self.entries@.len() - i,
        {
            let id = self.entries[i].0;
            let data = copy_bytes(&self.entries[i].1);
            v.push(SpoolEntry::Item { id, data });
            i += 1;
        }
        v
    }
}

/// A copy of `src`.
pub fn copy_bytes(src: &Vec<u8>) -> (out: Vec<u8>)
    ensures
        out@ == src@,
{
    let mut out: Vec<u8> = Vec::new();
    let mut i: usize = 0;
    while i < src.len()
        invariant
            i <= src@.len(),
            out@ == src@.subrange(0, i as int),
        decreases src@.len() - i,
    {
        out.push(src[i]);
        assert(out@ =~= src@.subrange(0, i + 1));
        i += 1;
    }
    assert(src@.subrange(0, src@.len() as int) =~= src@);
    out
}

} // verus!

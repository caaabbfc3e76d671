//! The table of chunks that are wanted but not yet resident.

use vstd::prelude::*;

use crate::coords::ChunkPos;
use crate::table::assoc_lookup;
use crate::table::lemma_lookup_index;
use crate::table::lemma_lookup_push;
use crate::table::lemma_lookup_remove;
use crate::table::lemma_lookup_some_index;
use crate::table::lemma_lookup_update;
use crate::table::lemma_unique_push;
use crate::table::unique_keys;

verus! {

/// The order in which chunks should be processed by the worker pool. Smaller
/// values are sent first. A priority is the squared chunk distance to the
/// nearest observer that requested the chunk.
pub type Priority = u64;

/// How one queued request changes the recorded state of its coordinate:
/// a fresh coordinate is recorded unscheduled with the request's priority, an
/// unscheduled one keeps the smaller of the two priorities (closer observers
/// promote, never demote), and a scheduled one is left untouched.
pub open spec fn queue_step(cur: Option<Option<Priority>>, pri: Priority) -> Option<
    Option<Priority>,
> {
    match cur {
        None => Some(Some(pri)),
        Some(Some(p0)) => Some(Some(if pri < p0 { pri } else { p0 })),
        Some(None) => Some(None),
    }
}

/// Chunks that need to be generated, keyed by coordinate. An entry holds
/// `Some(priority)` while the request is unscheduled and `None` once the
/// coordinate has been sent to the worker pool.
pub struct PendingTable {
    entries: Vec<(ChunkPos, Option<Priority>)>,
}

impl View for PendingTable {
    type V = Seq<(ChunkPos, Option<Priority>)>;

    closed spec fn view(&self) -> Seq<(ChunkPos, Option<Priority>)> {
        self.entries@
    }
}

impl PendingTable {
    /// Keys are pairwise distinct: one entry per coordinate.
    pub open spec fn wf(self) -> bool {
        unique_keys(self@)
    }

    /// The recorded state of a coordinate: absent, unscheduled with a
    /// priority, or scheduled.
    pub open spec fn spec_get(self, pos: ChunkPos) -> Option<Option<Priority>> {
        assoc_lookup(self@, pos)
    }

    pub fn new() -> (r: PendingTable)
        ensures
            r.wf(),
            r@ == Seq::<(ChunkPos, Option<Priority>)>::empty(),
    {
        let r = PendingTable { entries: Vec::new() };
        proof {
            assert(r@ =~= Seq::<(ChunkPos, Option<Priority>)>::empty());
        }
        r
    }

    pub fn len(&self) -> (r: usize)
        ensures
            r == self@.len(),
    {
        self.entries.len()
    }

    /// Index of the entry for `pos`, if one exists.
    fn find(&self, pos: ChunkPos) -> (r: Option<usize>)
        ensures
            match r {
                Some(i) => i < self@.len() && self@[i as int].0 == pos,
                None => self.spec_get(pos) is None,
            },
    {
        let mut i: usize = 0;
        proof {
            assert(self@.skip(0) =~= self@);
        }
        while i < self.entries.len()
            invariant
                i <= self@.len(),
                assoc_lookup(self@.skip(i as int), pos) == assoc_lookup(self@, pos),
                forall|j: int| 0 <= j < i ==> (#[trigger] self@[j]).0 != pos,
            decreases self@.len() - i,
        {
            if self.entries[i].0 == pos {
                return Some(i);
            }
            proof {
                assert(self@.skip(i as int)[0] == self@[i as int]);
                assert(self@.skip(i as int).drop_first() =~= self@.skip(i + 1));
            }
            i = i + 1;
        }
        proof {
            assert(self@.skip(i as int) =~= Seq::<(ChunkPos, Option<Priority>)>::empty());
        }
        None
    }

    /// The recorded state of a coordinate.
    pub fn get(&self, pos: ChunkPos) -> (r: Option<Option<Priority>>)
        requires
            self.wf(),
        ensures
            r == self.spec_get(pos),
    {
        match self.find(pos) {
            Some(i) => {
                proof {
                    lemma_lookup_index(self@, i as int);
                }
                Some(self.entries[i].1)
            },
            None => None,
        }
    }

    /// Record one observer's request for `pos` at squared distance `pri`.
    pub fn queue(&mut self, pos: ChunkPos, pri: Priority)
        requires
            old(self).wf(),
        ensures
            final(self).wf(),
            final(self).spec_get(pos) == queue_step(old(self).spec_get(pos), pri),
            forall|q: ChunkPos| q != pos ==> final(self).spec_get(q) == old(self).spec_get(q),
    {
        let ghost s0 = self@;
        match self.find(pos) {
            None => {
                self.entries.push((pos, Some(pri)));
                proof {
                    lemma_unique_push(s0, pos, Some(pri));
                    assert forall|q: ChunkPos| true implies assoc_lookup(self@, q) == (if q == pos {
                        Some(Some(pri))
                    } else {
                        assoc_lookup(s0, q)
                    }) by {
                        lemma_lookup_push(s0, pos, Some(pri), q);
                    }
                }
            },
            Some(i) => {
                proof {
                    lemma_lookup_index(s0, i as int);
                }
                match self.entries[i].1 {
                    None => {},
                    Some(p0) => {
                        let np = if pri < p0 {
                            pri
                        } else {
                            p0
                        };
                        self.entries.set(i, (pos, Some(np)));
                        proof {
                            assert forall|q: ChunkPos| true implies assoc_lookup(self@, q) == (if q
                                == pos {
                                Some(Some(np))
                            } else {
                                assoc_lookup(s0, q)
                            }) by {
                                lemma_lookup_update(s0, i as int, Some(np), q);
                            }
                        }
                    },
                }
            },
        }
    }

    /// Mark a pending coordinate as sent to the worker pool.
    pub fn mark_scheduled(&mut self, pos: ChunkPos)
        requires
            old(self).wf(),
            old(self).spec_get(pos) is Some,
        ensures
            final(self).wf(),
            final(self).spec_get(pos) == Some(None::<Priority>),
            forall|q: ChunkPos| q != pos ==> final(self).spec_get(q) == old(self).spec_get(q),
    {
        let ghost s0 = self@;
        match self.find(pos) {
            Some(i) => {
                self.entries.set(i, (pos, None));
                proof {
                    assert forall|q: ChunkPos| true implies assoc_lookup(self@, q) == (if q == pos {
                        Some(None::<Priority>)
                    } else {
                        assoc_lookup(s0, q)
                    }) by {
                        lemma_lookup_update(s0, i as int, None, q);
                    }
                }
            },
            None => {},
        }
    }

    /// Every unscheduled entry, as a (priority, coordinate) pair, in table
    /// order: exactly the requests that have not yet been sent to the
    /// worker pool.
    pub fn unscheduled(&self) -> (r: Vec<(Priority, ChunkPos)>)
        requires
            self.wf(),
        ensures
            forall|k: int|
                0 <= k < r@.len() ==> self.spec_get((#[trigger] r@[k]).1) == Some(
                    Some(r@[k].0),
                ),
            forall|pos: ChunkPos, pri: Priority|
                self.spec_get(pos) == Some(Some(pri)) ==> r@.contains((pri, pos)),
    {
        let mut r: Vec<(Priority, ChunkPos)> = Vec::new();
        let mut i: usize = 0;
        while i < self.entries.len()
            invariant
                i <= self@.len(),
                self.wf(),
                forall|k: int|
                    0 <= k < r@.len() ==> self.spec_get((#[trigger] r@[k]).1) == Some(
                        Some(r@[k].0),
                    ),
                forall|j: int|
                    0 <= j < i && (#[trigger] self@[j]).1 is Some ==> r@.contains(
                        (self@[j].1->Some_0, self@[j].0),
                    ),
            decreases self@.len() - i,
        {
            let ghost r0 = r@;
            match self.entries[i].1 {
                Some(pri) => {
                    proof {
                        lemma_lookup_index(self@, i as int);
                    }
                    r.push((pri, self.entries[i].0));
                    proof {
                        assert(r@[r@.len() - 1] == (pri, self@[i as int].0));
                        assert forall|j: int|
                            0 <= j < i + 1 && (#[trigger] self@[j]).1 is Some implies r@.contains(
                            (self@[j].1->Some_0, self@[j].0),
                        ) by {
                            if j < i {
                                let k = choose|k: int|
                                    0 <= k < r0.len() && r0[k] == (
                                    self@[j].1->Some_0,
                                    self@[j].0,
                                    );
                                assert(r@[k] == r0[k]);
                            } else {
                                assert(r@[r@.len() - 1] == (self@[j].1->Some_0, self@[j].0));
                            }
                        }
                    }
                },
                None => {},
            }
            i = i + 1;
        }
        proof {
            assert forall|pos: ChunkPos, pri: Priority|
                self.spec_get(pos) == Some(Some(pri)) implies r@.contains((pri, pos)) by {
                lemma_lookup_some_index(self@, pos);
                let j = choose|j: int|
                    0 <= j < self@.len() && (#[trigger] self@[j]).0 == pos && self@[j].1
                        == self.spec_get(pos)->Some_0;
            }
        }
        r
    }

    /// Drop the entry for `pos`, if any. Returns the removed state.
    pub fn remove(&mut self, pos: ChunkPos) -> (r: Option<Option<Priority>>)
        requires
            old(self).wf(),
        ensures
            final(self).wf(),
            r == old(self).spec_get(pos),
            final(self).spec_get(pos) is None,
            forall|q: ChunkPos| q != pos ==> final(self).spec_get(q) == old(self).spec_get(q),
    {
        let ghost s0 = self@;
        match self.find(pos) {
            Some(i) => {
                proof {
                    lemma_lookup_index(s0, i as int);
                }
                let (_, st) = self.entries.remove(i);
                proof {
                    assert forall|q: ChunkPos| true implies assoc_lookup(self@, q) == (if q == pos {
                        None::<Option<Priority>>
                    } else {
                        assoc_lookup(s0, q)
                    }) by {
                        lemma_lookup_remove(s0, i as int, q);
                    }
                }
                Some(st)
            },
            None => None,
        }
    }
}

} // verus!

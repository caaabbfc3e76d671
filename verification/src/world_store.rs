//! World chunk storage: the resident chunks and their viewer counts.

use vstd::prelude::*;

use crate::block::Chunk;
use crate::coords::ChunkPos;
use crate::table::assoc_lookup;
use crate::table::lemma_lookup_index;
use crate::table::lemma_lookup_push;
use crate::table::lemma_lookup_remove;
use crate::table::lemma_lookup_some_index;
use crate::table::lemma_lookup_update;
use crate::table::lemma_unique_push;
use crate::table::unique_keys;

verus! {

/// Chunks currently held in world storage. Each resident chunk carries the
/// number of observers that currently see it; eviction removes the chunks
/// whose count is zero.
pub struct WorldStore {
    entries: Vec<(ChunkPos, (u32, Chunk))>,
}

impl View for WorldStore {
    type V = Seq<(ChunkPos, (u32, Chunk))>;

    closed spec fn view(&self) -> Seq<(ChunkPos, (u32, Chunk))> {
        self.entries@
    }
}

impl WorldStore {
    /// One entry per coordinate.
    pub open spec fn wf(self) -> bool {
        unique_keys(self@)
    }

    /// The viewer count and chunk resident at `pos`, if any.
    pub open spec fn spec_get(self, pos: ChunkPos) -> Option<(u32, Chunk)> {
        assoc_lookup(self@, pos)
    }

    /// Whether a chunk is resident at `pos`.
    pub open spec fn spec_has(self, pos: ChunkPos) -> bool {
        self.spec_get(pos) is Some
    }

    pub fn new() -> (r: WorldStore)
        ensures
            r.wf(),
            r@ == Seq::<(ChunkPos, (u32, Chunk))>::empty(),
    {
        let r = WorldStore { entries: Vec::new() };
        proof {
            assert(r@ =~= Seq::<(ChunkPos, (u32, Chunk))>::empty());
        }
        r
    }

    pub fn len(&self) -> (r: usize)
        ensures
            r == self@.len(),
    {
        self.entries.len()
    }

    /// Index of the entry for `pos`, if one exists.
    fn find(&self, pos: ChunkPos) -> (r: Option<usize>)
        ensures
            match r {
                Some(i) => i < self@.len() && self@[i as int].0 == pos,
                None => self.spec_get(pos) is None,
            },
    {
        let mut i: usize = 0;
        proof {
            assert(self@.skip(0) =~= self@);
        }
        while i < self.entries.len()
            invariant
                i <= self@.len(),
                assoc_lookup(self@.skip(i as int), pos) == assoc_lookup(self@, pos),
            decreases self@.len() - i,
        {
            if self.entries[i].0 == pos {
                return Some(i);
            }
            proof {
                assert(self@.skip(i as int)[0] == self@[i as int]);
                assert(self@.skip(i as int).drop_first() =~= self@.skip(i + 1));
            }
            i = i + 1;
        }
        proof {
            assert(self@.skip(i as int) =~= Seq::<(ChunkPos, (u32, Chunk))>::empty());
        }
        None
    }

    pub fn has(&self, pos: ChunkPos) -> (r: bool)
        ensures
            r == self.spec_has(pos),
    {
        match self.find(pos) {
            Some(i) => {
                proof {
                    crate::table::lemma_lookup_present(self@, i as int);
                }
                true
            },
            None => false,
        }
    }

    /// Make the chunk at `pos` resident. A fresh coordinate starts with a
    /// viewer count of zero; re-inserting replaces the chunk data and keeps
    /// the count.
    pub fn insert(&mut self, pos: ChunkPos, chunk: Chunk)
        requires
            old(self).wf(),
        ensures
            final(self).wf(),
            final(self).spec_get(pos) == Some(
                (
                    match old(self).spec_get(pos) {
                        Some((v, _)) => v,
                        None => 0u32,
                    },
                    chunk,
                ),
            ),
            forall|q: ChunkPos| q != pos ==> final(self).spec_get(q) == old(self).spec_get(q),
    {
        let ghost s0 = self@;
        match self.find(pos) {
            None => {
                self.entries.push((pos, (0, chunk)));
                proof {
                    lemma_unique_push(s0, pos, (0u32, chunk));
                    assert forall|q: ChunkPos| true implies assoc_lookup(self@, q) == (if q == pos {
                        Some((0u32, chunk))
                    } else {
                        assoc_lookup(s0, q)
                    }) by {
                        lemma_lookup_push(s0, pos, (0u32, chunk), q);
                    }
                }
            },
            Some(i) => {
                proof {
                    lemma_lookup_index(s0, i as int);
                }
                let viewers = self.entries[i].1.0;
                self.entries.set(i, (pos, (viewers, chunk)));
                proof {
                    assert forall|q: ChunkPos| true implies assoc_lookup(self@, q) == (if q == pos {
                        Some((viewers, chunk))
                    } else {
                        assoc_lookup(s0, q)
                    }) by {
                        lemma_lookup_update(s0, i as int, (viewers, chunk), q);
                    }
                }
            },
        }
    }

    /// Drop the chunk at `pos` from world storage, if resident.
    pub fn remove(&mut self, pos: ChunkPos)
        requires
            old(self).wf(),
        ensures
            final(self).wf(),
            final(self).spec_get(pos) is None,
            forall|q: ChunkPos| q != pos ==> final(self).spec_get(q) == old(self).spec_get(q),
    {
        let ghost s0 = self@;
        match self.find(pos) {
            Some(i) => {
                self.entries.remove(i);
                proof {
                    assert forall|q: ChunkPos| true implies assoc_lookup(self@, q) == (if q == pos {
                        None::<(u32, Chunk)>
                    } else {
                        assoc_lookup(s0, q)
                    }) by {
                        lemma_lookup_remove(s0, i as int, q);
                    }
                }
            },
            None => {},
        }
    }

    /// The number of observers that currently see the chunk at `pos`, or
    /// zero when no chunk is resident there.
    pub fn viewer_count(&self, pos: ChunkPos) -> (r: u32)
        requires
            self.wf(),
        ensures
            r == match self.spec_get(pos) {
                Some((v, _)) => v,
                None => 0u32,
            },
    {
        match self.find(pos) {
            Some(i) => {
                proof {
                    lemma_lookup_index(self@, i as int);
                }
                self.entries[i].1.0
            },
            None => 0,
        }
    }

    /// Record how many observers currently see the chunk at `pos`.
    pub fn set_viewer_count(&mut self, pos: ChunkPos, viewers: u32)
        requires
            old(self).wf(),
            old(self).spec_has(pos),
        ensures
            final(self).wf(),
            final(self).spec_get(pos) == Some(
                (viewers, old(self).spec_get(pos)->Some_0.1),
            ),
            forall|q: ChunkPos| q != pos ==> final(self).spec_get(q) == old(self).spec_get(q),
    {
        let ghost s0 = self@;
        match self.find(pos) {
            Some(i) => {
                proof {
                    lemma_lookup_index(s0, i as int);
                }
                let chunk = self.entries.remove(i);
                let (_, (_, c)) = chunk;
                self.entries.insert(i, (pos, (viewers, c)));
                proof {
                    assert(self@ =~= s0.update(i as int, (pos, (viewers, c))));
                    assert forall|q: ChunkPos| true implies assoc_lookup(self@, q) == (if q == pos {
                        Some((viewers, c))
                    } else {
                        assoc_lookup(s0, q)
                    }) by {
                        lemma_lookup_update(s0, i as int, (viewers, c), q);
                    }
                }
            },
            None => {},
        }
    }

    /// A borrow of the chunk resident at `pos`.
    pub fn get(&self, pos: ChunkPos) -> (r: Option<&Chunk>)
        requires
            self.wf(),
        ensures
            match r {
                Some(c) => self.spec_get(pos) is Some && *c == self.spec_get(pos)->Some_0.1,
                None => self.spec_get(pos) is None,
            },
    {
        match self.find(pos) {
            Some(i) => {
                proof {
                    lemma_lookup_index(self@, i as int);
                }
                Some(&self.entries[i].1.1)
            },
            None => None,
        }
    }

    /// The coordinates of all resident chunks, in storage order.
    pub fn resident_coordinates(&self) -> (r: Vec<ChunkPos>)
        ensures
            r@.len() == self@.len(),
            forall|i: int| 0 <= i < r@.len() ==> r@[i] == self@[i].0,
    {
        let mut r: Vec<ChunkPos> = Vec::new();
        let mut i: usize = 0;
        while i < self.entries.len()
            invariant
                i <= self@.len(),
                r@.len() == i,
                forall|j: int| 0 <= j < i ==> r@[j] == self@[j].0,
            decreases self@.len() - i,
        {
            r.push(self.entries[i].0);
            i = i + 1;
        }
        r
    }
}

/// The entries of `s` whose viewer count is positive, in order.
pub open spec fn keep_viewed(s: Seq<(ChunkPos, (u32, Chunk))>) -> Seq<(ChunkPos, (u32, Chunk))>
    decreases s.len(),
{
    if s.len() == 0 {
        Seq::empty()
    } else {
        keep_viewed(s.drop_last()) + if s.last().1.0 > 0 {
            seq![s.last()]
        } else {
            Seq::<(ChunkPos, (u32, Chunk))>::empty()
        }
    }
}

proof fn lemma_keep_viewed_lookup(s: Seq<(ChunkPos, (u32, Chunk))>, q: ChunkPos)
    requires
        unique_keys(s),
    ensures
        unique_keys(keep_viewed(s)),
        assoc_lookup(keep_viewed(s), q) == match assoc_lookup(s, q) {
            Some((v, c)) => if v > 0 {
                Some((v, c))
            } else {
                None::<(u32, Chunk)>
            },
            None => None::<(u32, Chunk)>,
        },
    decreases s.len(),
{
    if s.len() > 0 {
        let d = s.drop_last();
        let last = s.last();
        assert(unique_keys(d)) by {
            assert(forall|i: int| 0 <= i < d.len() ==> d[i] == s[i]);
        }
        lemma_keep_viewed_lookup(d, q);
        lemma_keep_viewed_lookup(d, last.0);
        assert(s =~= d.push(last));
        lemma_lookup_push(d, last.0, last.1, q);
        assert(assoc_lookup(d, last.0) is None) by {
            if assoc_lookup(d, last.0) is Some {
                lemma_lookup_some_index(d, last.0);
                let i = choose|i: int| 0 <= i < d.len() && (#[trigger] d[i]).0 == last.0;
                assert(s[i] == d[i] && s[s.len() - 1] == last);
                assert(false);
            }
        }
        if last.1.0 > 0 {
            assert(keep_viewed(s) =~= keep_viewed(d).push(last));
            lemma_unique_push(keep_viewed(d), last.0, last.1);
            lemma_lookup_push(keep_viewed(d), last.0, last.1, q);
        } else {
            assert(keep_viewed(s) =~= keep_viewed(d));
        }
    }
}

/// Evict every resident chunk that no observer currently sees. Chunks with a
/// positive viewer count stay untouched, with their data and counts.
pub fn remove_unviewed_chunks(world: &mut WorldStore)
    requires
        old(world).wf(),
    ensures
        final(world).wf(),
        forall|q: ChunkPos|
            #[trigger] final(world).spec_get(q) == match old(world).spec_get(q) {
                Some((v, c)) => if v > 0 {
                    Some((v, c))
                } else {
                    None::<(u32, Chunk)>
                },
                None => None::<(u32, Chunk)>,
            },
{
    let ghost s0 = world@;
    let mut pending_entries: Vec<(ChunkPos, (u32, Chunk))> = Vec::new();
    std::mem::swap(&mut pending_entries, &mut world.entries);
    let mut kept: Vec<(ChunkPos, (u32, Chunk))> = Vec::new();
    let ghost mut i: int = 0;
    proof {
        assert(kept@ =~= keep_viewed(s0.take(0)));
        assert(pending_entries@ =~= s0.skip(0));
    }
    while pending_entries.len() > 0
        invariant
            0 <= i <= s0.len(),
            pending_entries@ == s0.skip(i),
            kept@ == keep_viewed(s0.take(i)),
        decreases pending_entries@.len(),
    {
        let e = pending_entries.remove(0);
        proof {
            assert(s0.skip(i)[0] == s0[i]);
            assert(e == s0[i]);
            assert(s0.take(i + 1).drop_last() =~= s0.take(i));
            assert(s0.take(i + 1).last() == s0[i]);
            assert(pending_entries@ =~= s0.skip(i + 1));
        }
        if e.1.0 > 0 {
            kept.push(e);
            proof {
                assert(kept@ =~= keep_viewed(s0.take(i + 1)));
            }
        } else {
            proof {
                assert(kept@ =~= keep_viewed(s0.take(i + 1)));
            }
        }
        proof {
            i = i + 1;
        }
    }
    proof {
        assert(i == s0.len());
        assert(s0.take(s0.len() as int) =~= s0);
    }
    world.entries = kept;
    proof {
        assert forall|q: ChunkPos| true implies #[trigger] world.spec_get(q) == (match assoc_lookup(
            s0,
            q,
        ) {
            Some((v, c)) => if v > 0 {
                Some((v, c))
            } else {
                None::<(u32, Chunk)>
            },
            None => None::<(u32, Chunk)>,
        }) by {
            lemma_keep_viewed_lookup(s0, q);
        }
        assert(unique_keys(world@)) by {
            lemma_keep_viewed_lookup(s0, ChunkPos { x: 0, z: 0 });
        }
    }
}

} // verus!

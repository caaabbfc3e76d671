//! Association sequences keyed by chunk position.
//!
//! Both the pending-request table and the world storage hold their entries as
//! a vector of key/value pairs with pairwise-distinct keys. The spec
//! functions and lemmas here describe lookups in such a sequence and how they
//! change under `push`, `update` and `remove`.

use vstd::prelude::*;

use crate::coords::ChunkPos;

verus! {

/// The value of the first entry of `s` keyed by `p`, if any.
pub open spec fn assoc_lookup<V>(s: Seq<(ChunkPos, V)>, p: ChunkPos) -> Option<V>
    decreases s.len(),
{
    if s.len() == 0 {
        None
    } else if s[0].0 == p {
        Some(s[0].1)
    } else {
        assoc_lookup(s.drop_first(), p)
    }
}

/// No two entries of `s` share a key.
pub open spec fn unique_keys<V>(s: Seq<(ChunkPos, V)>) -> bool {
    forall|i: int, j: int| 0 <= i < j < s.len() ==> (#[trigger] s[i]).0 != (#[trigger] s[j]).0
}

/// An entry at index `i` is what lookup by its key finds, when keys are
/// distinct.
pub proof fn lemma_lookup_index<V>(s: Seq<(ChunkPos, V)>, i: int)
    requires
        unique_keys(s),
        0 <= i < s.len(),
    ensures
        assoc_lookup(s, s[i].0) == Some(s[i].1),
    decreases s.len(),
{
    if i > 0 {
        assert(s[0].0 != s[i].0);
        assert(s.drop_first()[i - 1] == s[i]);
        lemma_lookup_index(s.drop_first(), i - 1);
    }
}

/// A lookup that fails means no entry carries the key.
pub proof fn lemma_lookup_absent<V>(s: Seq<(ChunkPos, V)>, p: ChunkPos)
    requires
        assoc_lookup(s, p) is None,
    ensures
        forall|i: int| 0 <= i < s.len() ==> (#[trigger] s[i]).0 != p,
    decreases s.len(),
{
    if s.len() > 0 {
        lemma_lookup_absent(s.drop_first(), p);
        assert forall|i: int| 0 <= i < s.len() implies (#[trigger] s[i]).0 != p by {
            if i > 0 {
                assert(s.drop_first()[i - 1] == s[i]);
            }
        }
    }
}

/// How lookups change when a fresh key is pushed.
pub proof fn lemma_lookup_push<V>(s: Seq<(ChunkPos, V)>, p: ChunkPos, v: V, q: ChunkPos)
    ensures
        assoc_lookup(s.push((p, v)), q) == if assoc_lookup(s, q) is Some {
            assoc_lookup(s, q)
        } else if q == p {
            Some(v)
        } else {
            None::<V>
        },
    decreases s.len(),
{
    let t = s.push((p, v));
    if s.len() == 0 {
        assert(t.len() == 1 && t[0] == (p, v));
        assert(t.drop_first() =~= Seq::<(ChunkPos, V)>::empty());
        assert(assoc_lookup(Seq::<(ChunkPos, V)>::empty(), q) is None);
    } else {
        assert(t[0] == s[0]);
        assert(t.drop_first() =~= s.drop_first().push((p, v)));
        lemma_lookup_push(s.drop_first(), p, v, q);
        if t[0].0 == q {
            assert(assoc_lookup(t, q) == Some(s[0].1));
            assert(assoc_lookup(s, q) == Some(s[0].1));
        } else {
            assert(assoc_lookup(t, q) == assoc_lookup(s.drop_first().push((p, v)), q));
            assert(assoc_lookup(s, q) == assoc_lookup(s.drop_first(), q));
        }
    }
}

/// Pushing a fresh key keeps keys distinct.
pub proof fn lemma_unique_push<V>(s: Seq<(ChunkPos, V)>, p: ChunkPos, v: V)
    requires
        unique_keys(s),
        assoc_lookup(s, p) is None,
    ensures
        unique_keys(s.push((p, v))),
{
    lemma_lookup_absent(s, p);
}

/// How lookups change when the entry at index `i` is given a new value.
pub proof fn lemma_lookup_update<V>(s: Seq<(ChunkPos, V)>, i: int, v: V, q: ChunkPos)
    requires
        unique_keys(s),
        0 <= i < s.len(),
    ensures
        assoc_lookup(s.update(i, (s[i].0, v)), q) == if q == s[i].0 {
            Some(v)
        } else {
            assoc_lookup(s, q)
        },
        unique_keys(s.update(i, (s[i].0, v))),
    decreases s.len(),
{
    let t = s.update(i, (s[i].0, v));
    assert(unique_keys(t)) by {
        assert forall|a: int, b: int| 0 <= a < b < t.len() implies (#[trigger] t[a]).0 != (
        #[trigger] t[b]).0 by {
            assert(t[a].0 == s[a].0 && t[b].0 == s[b].0);
        }
    }
    if i == 0 {
        if q != s[0].0 {
            assert(t.drop_first() =~= s.drop_first());
        }
    } else {
        assert(t[0] == s[0]);
        if q == s[0].0 {
        } else {
            assert(t.drop_first() =~= s.drop_first().update(i - 1, (s[i].0, v)));
            assert(s.drop_first()[i - 1] == s[i]);
            lemma_lookup_update(s.drop_first(), i - 1, v, q);
        }
    }
}

/// How lookups change when the entry at index `i` is removed.
pub proof fn lemma_lookup_remove<V>(s: Seq<(ChunkPos, V)>, i: int, q: ChunkPos)
    requires
        unique_keys(s),
        0 <= i < s.len(),
    ensures
        assoc_lookup(s.remove(i), q) == if q == s[i].0 {
            None::<V>
        } else {
            assoc_lookup(s, q)
        },
        unique_keys(s.remove(i)),
    decreases s.len(),
{
    let t = s.remove(i);
    assert(unique_keys(t)) by {
        assert forall|a: int, b: int| 0 <= a < b < t.len() implies (#[trigger] t[a]).0 != (
        #[trigger] t[b]).0 by {
            let a0 = if a < i {
                a
            } else {
                a + 1
            };
            let b0 = if b < i {
                b
            } else {
                b + 1
            };
            assert(t[a] == s[a0] && t[b] == s[b0]);
        }
    }
    if i == 0 {
        assert(t =~= s.drop_first());
        if q == s[0].0 {
            lemma_lookup_key_absent_after_head(s, q);
        }
    } else {
        assert(t[0] == s[0]);
        if q != s[0].0 {
            assert(t.drop_first() =~= s.drop_first().remove(i - 1));
            assert(s.drop_first()[i - 1] == s[i]);
            lemma_lookup_remove(s.drop_first(), i - 1, q);
        } else {
            assert(assoc_lookup(t, q) == Some(t[0].1));
        }
    }
}

/// With distinct keys, the tail holds no entry for the head's key.
proof fn lemma_lookup_key_absent_after_head<V>(s: Seq<(ChunkPos, V)>, q: ChunkPos)
    requires
        unique_keys(s),
        s.len() > 0,
        s[0].0 == q,
    ensures
        assoc_lookup(s.drop_first(), q) is None,
{
    let t = s.drop_first();
    if assoc_lookup(t, q) is Some {
        lemma_lookup_some_index(t, q);
        let i = choose|i: int| 0 <= i < t.len() && (#[trigger] t[i]).0 == q;
        assert(s[i + 1] == t[i]);
        assert(false);
    }
}

/// Any entry's key is found by lookup, distinct keys or not.
pub proof fn lemma_lookup_present<V>(s: Seq<(ChunkPos, V)>, i: int)
    requires
        0 <= i < s.len(),
    ensures
        assoc_lookup(s, s[i].0) is Some,
    decreases s.len(),
{
    if s[0].0 != s[i].0 {
        assert(s.drop_first()[i - 1] == s[i]);
        lemma_lookup_present(s.drop_first(), i - 1);
    }
}

/// A successful lookup names some entry's key.
pub proof fn lemma_lookup_some_index<V>(s: Seq<(ChunkPos, V)>, p: ChunkPos)
    requires
        assoc_lookup(s, p) is Some,
    ensures
        exists|i: int| 0 <= i < s.len() && (#[trigger] s[i]).0 == p && s[i].1
            == assoc_lookup(s, p)->Some_0,
    decreases s.len(),
{
    if s.len() > 0 && s[0].0 != p {
        lemma_lookup_some_index(s.drop_first(), p);
        let i = choose|i: int|
            0 <= i < s.drop_first().len() && (#[trigger] s.drop_first()[i]).0 == p
                && s.drop_first()[i].1 == assoc_lookup(s.drop_first(), p)->Some_0;
        assert(s[i + 1] == s.drop_first()[i]);
    }
}

} // verus!

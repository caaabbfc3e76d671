//! The streaming scheduler: interest intake, result merging, eviction of
//! pending state, and dispatch of generation requests to the worker pool.

use vstd::multiset::Multiset;
use vstd::prelude::*;

use crate::block::Chunk;
use crate::coords::dist_sq;
use crate::coords::ChunkPos;
use crate::coords::ObserverView;
use crate::pending::queue_step;
use crate::pending::PendingTable;
use crate::pending::Priority;
use crate::world_store::WorldStore;

verus! {

#[verifier::external_type_specification]
#[verifier::external_body]
#[verifier::reject_recursive_types(T)]
pub struct ExSender<T>(flume::Sender<T>);

#[verifier::external_type_specification]
#[verifier::external_body]
#[verifier::reject_recursive_types(T)]
pub struct ExReceiver<T>(flume::Receiver<T>);

/// Relies on `flume::Sender::try_send`: hands one generation request to the
/// worker pool. On the unbounded channel used here it fails only when every
/// worker-side receiver is gone; nothing can be promised of the outcome, so
/// the caller re-queues the request when `false` comes back.
#[verifier::external_body]
fn try_send_request(sender: &flume::Sender<ChunkPos>, pos: ChunkPos) -> (r: bool) {
    sender.try_send(pos).is_ok()
}

/// Relies on `flume::Receiver::drain`: takes the finished chunks sitting in
/// the result channel right now, without blocking. Which results have
/// arrived, and in what order, depends on the workers, so nothing is assumed
/// of the returned pairs; the merge handles every value.
#[verifier::external_body]
fn drain_results(receiver: &flume::Receiver<(ChunkPos, Chunk)>) -> (r: Vec<(ChunkPos, Chunk)>) {
    receiver.drain().collect()
}

/// Scheduler-owned streaming state: the pending table, the request queue
/// into the worker pool, and the result queue out of it.
pub struct GameState {
    /// Chunks that need to be generated. Entries without a priority have
    /// already been sent to the worker pool.
    pub pending: PendingTable,
    /// Request queue endpoint: coordinates to generate.
    pub sender: flume::Sender<ChunkPos>,
    /// Result queue endpoint: finished chunks.
    pub receiver: flume::Receiver<(ChunkPos, Chunk)>,
}

/// No coordinate is both resident in world storage and present in the
/// pending table.
pub open spec fn exclusive(p: PendingTable, w: WorldStore) -> bool {
    forall|pos: ChunkPos| w.spec_has(pos) ==> (#[trigger] p.spec_get(pos)) is None
}

impl GameState {
    pub fn new(
        sender: flume::Sender<ChunkPos>,
        receiver: flume::Receiver<(ChunkPos, Chunk)>,
    ) -> (r: GameState)
        ensures
            r.pending.wf(),
            r.pending@ == Seq::<(ChunkPos, Option<Priority>)>::empty(),
    {
        GameState { pending: PendingTable::new(), sender, receiver }
    }
}

/// The set of coordinates resident in world storage.
pub open spec fn resident_set(w: WorldStore) -> Set<ChunkPos> {
    Set::new(|p: ChunkPos| w.spec_has(p))
}

/// The requests one observer contributes this tick: each newly visible
/// coordinate, at its squared chunk distance from the observer.
pub open spec fn observer_requests(o: ObserverView) -> Seq<(ChunkPos, Priority)> {
    o.delta_seq().map(|i: int, p: ChunkPos| (p, dist_sq(o.view.pos, p) as Priority))
}

/// The requests of all observers, in observer order.
pub open spec fn all_requests(os: Seq<ObserverView>) -> Seq<(ChunkPos, Priority)>
    decreases os.len(),
{
    if os.len() == 0 {
        Seq::empty()
    } else {
        all_requests(os.drop_last()) + observer_requests(os.last())
    }
}

/// What a run of requests leaves recorded for one coordinate: requests for
/// other coordinates, and requests for resident coordinates, change nothing;
/// each remaining request passes through `queue_step`.
pub open spec fn intake_at(
    init: Option<Option<Priority>>,
    reqs: Seq<(ChunkPos, Priority)>,
    pos: ChunkPos,
    resident: Set<ChunkPos>,
) -> Option<Option<Priority>>
    decreases reqs.len(),
{
    if reqs.len() == 0 {
        init
    } else {
        let cur = intake_at(init, reqs.drop_last(), pos, resident);
        let r = reqs.last();
        if r.0 == pos && !resident.contains(pos) {
            queue_step(cur, r.1)
        } else {
            cur
        }
    }
}

/// Queue every chunk coordinate that came newly into some observer's view
/// this tick, skipping coordinates that are already resident. A fresh
/// coordinate is recorded at the observer's squared distance; a repeated one
/// keeps the smallest distance of all its requesters; one already sent to
/// the workers is left untouched.
pub fn update_client_views(
    state: &mut GameState,
    world: &WorldStore,
    observers: &Vec<ObserverView>,
)
    requires
        old(state).pending.wf(),
        forall|i: int| 0 <= i < observers@.len() ==> (#[trigger] observers@[i]).wf(),
    ensures
        final(state).pending.wf(),
        final(state).sender == old(state).sender,
        final(state).receiver == old(state).receiver,
        forall|pos: ChunkPos| #[trigger]
            final(state).pending.spec_get(pos) == intake_at(
                old(state).pending.spec_get(pos),
                all_requests(observers@),
                pos,
                resident_set(*world),
            ),
        exclusive(old(state).pending, *world) ==> exclusive(final(state).pending, *world),
{
    let ghost init = old(state).pending;
    let ghost rs = resident_set(*world);
    let mut oi: usize = 0;
    proof {
        assert(all_requests(observers@.take(0)) =~= Seq::<(ChunkPos, Priority)>::empty());
    }
    while oi < observers.len()
        invariant
            oi <= observers@.len(),
            forall|i: int| 0 <= i < observers@.len() ==> (#[trigger] observers@[i]).wf(),
            state.pending.wf(),
            state.sender == old(state).sender,
            state.receiver == old(state).receiver,
            init == old(state).pending,
            rs == resident_set(*world),
            forall|pos: ChunkPos| #[trigger]
                state.pending.spec_get(pos) == intake_at(
                    init.spec_get(pos),
                    all_requests(observers@.take(oi as int)),
                    pos,
                    rs,
                ),
        decreases observers@.len() - oi,
    {
        let o = &observers[oi];
        let ghost base = all_requests(observers@.take(oi as int));
        let ghost oreqs = observer_requests(*o);
        let ps = o.delta_positions();
        let mut j: usize = 0;
        proof {
            assert(base + oreqs.take(0) =~= base);
        }
        while j < ps.len()
            invariant
                j <= ps@.len(),
                o.wf(),
                ps@ == o.delta_seq(),
                oreqs == observer_requests(*o),
                state.pending.wf(),
                state.sender == old(state).sender,
                state.receiver == old(state).receiver,
                init == old(state).pending,
                rs == resident_set(*world),
                forall|pos: ChunkPos| #[trigger]
                    state.pending.spec_get(pos) == intake_at(
                        init.spec_get(pos),
                        base + oreqs.take(j as int),
                        pos,
                        rs,
                    ),
            decreases ps@.len() - j,
        {
            let p = ps[j];
            proof {
                assert(o.delta_seq().contains(p));
                o.lemma_delta_contains(p);
                let dx = o.view.pos.x - p.x;
                let dz = o.view.pos.z - p.z;
                assert(dx * dx <= 65025 && dz * dz <= 65025) by (nonlinear_arith)
                    requires
                        -255 <= dx <= 255,
                        -255 <= dz <= 255,
                ;
            }
            let d = o.view.pos.distance_squared(p);
            let ghost reqs_pre = base + oreqs.take(j as int);
            let ghost reqs_post = base + oreqs.take(j + 1);
            proof {
                assert(oreqs[j as int] == (p, dist_sq(o.view.pos, p) as Priority));
                assert(d == dist_sq(o.view.pos, p) as Priority);
                assert(reqs_post =~= reqs_pre.push((p, d)));
                assert(reqs_post.drop_last() =~= reqs_pre);
            }
            if !world.has(p) {
                state.pending.queue(p, d);
                proof {
                    assert(!rs.contains(p));
                    assert forall|pos: ChunkPos| true implies #[trigger] state.pending.spec_get(pos)
                        == intake_at(init.spec_get(pos), reqs_post, pos, rs) by {
                        if pos == p {
                            assert(intake_at(init.spec_get(pos), reqs_post, pos, rs) == queue_step(
                                intake_at(init.spec_get(pos), reqs_pre, pos, rs),
                                d,
                            ));
                        } else {
                            assert(intake_at(init.spec_get(pos), reqs_post, pos, rs) == intake_at(
                                init.spec_get(pos),
                                reqs_pre,
                                pos,
                                rs,
                            ));
                        }
                    }
                }
            } else {
                proof {
                    assert(rs.contains(p));
                    assert forall|pos: ChunkPos| true implies #[trigger] state.pending.spec_get(pos)
                        == intake_at(init.spec_get(pos), reqs_post, pos, rs) by {
                        assert(intake_at(init.spec_get(pos), reqs_post, pos, rs) == intake_at(
                            init.spec_get(pos),
                            reqs_pre,
                            pos,
                            rs,
                        ));
                    }
                }
            }
            j = j + 1;
        }
        proof {
            assert(oreqs.take(ps@.len() as int) =~= oreqs);
            assert(observers@.take(oi + 1).drop_last() =~= observers@.take(oi as int));
            assert(observers@.take(oi + 1).last() == observers@[oi as int]);
            lemma_all_requests_append(observers@.take(oi as int), observers@[oi as int]);
            assert(all_requests(observers@.take(oi + 1)) =~= base + oreqs);
        }
        oi = oi + 1;
    }
    proof {
        assert(observers@.take(observers@.len() as int) =~= observers@);
        assert forall|pos: ChunkPos|
            exclusive(init, *world) && world.spec_has(pos) implies (
        #[trigger] state.pending.spec_get(pos)) is None by {
            assert(rs.contains(pos));
            lemma_intake_at_resident(
                init.spec_get(pos),
                all_requests(observers@),
                pos,
                rs,
            );
        }
    }
}

/// Requests for a resident coordinate change nothing.
proof fn lemma_intake_at_resident(
    init: Option<Option<Priority>>,
    reqs: Seq<(ChunkPos, Priority)>,
    pos: ChunkPos,
    resident: Set<ChunkPos>,
)
    requires
        resident.contains(pos),
    ensures
        intake_at(init, reqs, pos, resident) == init,
    decreases reqs.len(),
{
    if reqs.len() > 0 {
        lemma_intake_at_resident(init, reqs.drop_last(), pos, resident);
    }
}

/// Unfolding `all_requests` one observer at a time.
proof fn lemma_all_requests_append(os: Seq<ObserverView>, o: ObserverView)
    ensures
        all_requests(os.push(o)) == all_requests(os) + observer_requests(o),
{
    assert(os.push(o).drop_last() =~= os);
    assert(os.push(o).last() == o);
}

/// A fresh scheduler state is exclusive with any world storage: its
/// pending table is empty.
pub proof fn lemma_new_state_exclusive(p: PendingTable, w: WorldStore)
    requires
        p@ == Seq::<(ChunkPos, Option<Priority>)>::empty(),
    ensures
        exclusive(p, w),
{
}

/// Exclusivity survives eviction: removing resident chunks can only shrink
/// world storage, so no coordinate becomes both resident and pending.
pub proof fn lemma_eviction_preserves_exclusive(p: PendingTable, w0: WorldStore, w1: WorldStore)
    requires
        exclusive(p, w0),
        forall|q: ChunkPos| #[trigger] w1.spec_has(q) ==> w0.spec_has(q),
    ensures
        exclusive(p, w1),
{
}

/// The least priority among the requests in `reqs` that name `pos`, if any.
pub open spec fn min_request(reqs: Seq<(ChunkPos, Priority)>, pos: ChunkPos) -> Option<Priority>
    decreases reqs.len(),
{
    if reqs.len() == 0 {
        None
    } else {
        let m = min_request(reqs.drop_last(), pos);
        let r = reqs.last();
        if r.0 == pos {
            match m {
                None => Some(r.1),
                Some(v) => Some(
                    if r.1 < v {
                        r.1
                    } else {
                        v
                    },
                ),
            }
        } else {
            m
        }
    }
}

/// Priority monotonicity, first half: what intake records for a
/// non-resident coordinate is the least squared distance over all its
/// requests, combined with what was recorded before — a fresh coordinate
/// gets that minimum, an unscheduled one keeps the smaller of old and new,
/// and a scheduled one is never touched.
pub proof fn lemma_priority_is_minimum(
    init: Option<Option<Priority>>,
    reqs: Seq<(ChunkPos, Priority)>,
    pos: ChunkPos,
    resident: Set<ChunkPos>,
)
    requires
        !resident.contains(pos),
    ensures
        intake_at(init, reqs, pos, resident) == match min_request(reqs, pos) {
            None => init,
            Some(m) => match init {
                None => Some(Some(m)),
                Some(Some(p0)) => Some(
                    Some(
                        if m < p0 {
                            m
                        } else {
                            p0
                        },
                    ),
                ),
                Some(None) => Some(None::<Priority>),
            },
        },
    decreases reqs.len(),
{
    if reqs.len() > 0 {
        lemma_priority_is_minimum(init, reqs.drop_last(), pos, resident);
    }
}

/// The minimum request priority, characterized without an order: it is a
/// requested priority for `pos`, and no request for `pos` is smaller.
pub proof fn lemma_min_request_characterize(reqs: Seq<(ChunkPos, Priority)>, pos: ChunkPos)
    ensures
        match min_request(reqs, pos) {
            None => forall|k: int| 0 <= k < reqs.len() ==> (#[trigger] reqs[k]).0 != pos,
            Some(m) => reqs.contains((pos, m)) && forall|k: int|
                0 <= k < reqs.len() && (#[trigger] reqs[k]).0 == pos ==> m <= reqs[k].1,
        },
    decreases reqs.len(),
{
    if reqs.len() > 0 {
        let d = reqs.drop_last();
        lemma_min_request_characterize(d, pos);
        assert(forall|k: int| 0 <= k < d.len() ==> d[k] == reqs[k]);
        match min_request(reqs, pos) {
            None => {},
            Some(m) => {
                if reqs.last().0 == pos {
                    match min_request(d, pos) {
                        None => {
                            assert(reqs[reqs.len() - 1] == (pos, m));
                        },
                        Some(v) => {
                            if m == reqs.last().1 {
                                assert(reqs[reqs.len() - 1] == (pos, m));
                            } else {
                                let k = choose|k: int| 0 <= k < d.len() && d[k] == (pos, m);
                                assert(reqs[k] == (pos, m));
                            }
                        },
                    }
                } else {
                    let k = choose|k: int| 0 <= k < d.len() && d[k] == (pos, m);
                    assert(reqs[k] == (pos, m));
                }
            },
        }
    }
}

/// Priority monotonicity, second half: the recorded minimum does not depend
/// on the order in which observers' requests arrive. Two request runs that
/// are permutations of one another leave the same recorded priority for
/// every non-resident coordinate.
pub proof fn lemma_priority_monotonic(
    init: Option<Option<Priority>>,
    reqs1: Seq<(ChunkPos, Priority)>,
    reqs2: Seq<(ChunkPos, Priority)>,
    pos: ChunkPos,
    resident: Set<ChunkPos>,
)
    requires
        reqs1.to_multiset() == reqs2.to_multiset(),
        !resident.contains(pos),
    ensures
        intake_at(init, reqs1, pos, resident) == intake_at(init, reqs2, pos, resident),
{
    lemma_priority_is_minimum(init, reqs1, pos, resident);
    lemma_priority_is_minimum(init, reqs2, pos, resident);
    lemma_min_request_characterize(reqs1, pos);
    lemma_min_request_characterize(reqs2, pos);
    assert forall|r: (ChunkPos, Priority)| true implies (reqs1.contains(r) <==> reqs2.contains(
        r,
    )) by {
        vstd::seq_lib::to_multiset_contains(reqs1, r);
        vstd::seq_lib::to_multiset_contains(reqs2, r);
    }
    match (min_request(reqs1, pos), min_request(reqs2, pos)) {
        (None, None) => {},
        (None, Some(m2)) => {
            assert(reqs2.contains((pos, m2)));
            let k = choose|k: int| 0 <= k < reqs1.len() && reqs1[k] == (pos, m2);
            assert(false);
        },
        (Some(m1), None) => {
            assert(reqs1.contains((pos, m1)));
            let k = choose|k: int| 0 <= k < reqs2.len() && reqs2[k] == (pos, m1);
            assert(false);
        },
        (Some(m1), Some(m2)) => {
            assert(reqs2.contains((pos, m1)));
            assert(reqs1.contains((pos, m2)));
            let k1 = choose|k: int| 0 <= k < reqs1.len() && reqs1[k] == (pos, m2);
            let k2 = choose|k: int| 0 <= k < reqs2.len() && reqs2[k] == (pos, m1);
            assert(m1 <= m2 && m2 <= m1);
        },
    }
}

/// Sort a dispatch batch by ascending priority. The result is a permutation
/// of the input.
fn sort_batch(input: Vec<(Priority, ChunkPos)>) -> (r: Vec<(Priority, ChunkPos)>)
    ensures
        r@.to_multiset() == input@.to_multiset(),
        forall|a: int, b: int| 0 <= a < b < r@.len() ==> (#[trigger] r@[a]).0 <= (#[trigger] r@[b]).0,
{
    broadcast use vstd::seq_lib::group_to_multiset_ensures;

    let mut src = input;
    let mut r: Vec<(Priority, ChunkPos)> = Vec::new();
    proof {
        assert(r@.to_multiset() =~= Multiset::<(Priority, ChunkPos)>::empty());
        assert(r@.to_multiset().add(src@.to_multiset()) =~= src@.to_multiset());
    }
    while src.len() > 0
        invariant
            r@.to_multiset().add(src@.to_multiset()) == input@.to_multiset(),
            forall|a: int, b: int|
                0 <= a < b < r@.len() ==> (#[trigger] r@[a]).0 <= (#[trigger] r@[b]).0,
        decreases src@.len(),
    {
        let ghost src0 = src@;
        let ghost r0 = r@;
        let e = src.remove(0);
        proof {
            vstd::seq_lib::to_multiset_remove(src0, 0);
            assert(e == src0[0]);
            assert(src@.to_multiset() == src0.to_multiset().remove(e));
        }
        let mut k: usize = 0;
        while k < r.len() && r[k].0 <= e.0
            invariant
                k <= r@.len(),
                r@ == r0,
                forall|i: int| 0 <= i < k ==> (#[trigger] r@[i]).0 <= e.0,
            decreases r@.len() - k,
        {
            k = k + 1;
        }
        r.insert(k, e);
        proof {
            vstd::seq_lib::to_multiset_insert(r0, k as int, e);
            assert(r@.to_multiset() == r0.to_multiset().insert(e));
            assert(src0.contains(e));
            vstd::seq_lib::to_multiset_contains(src0, e);
            assert(src0.to_multiset().count(e) > 0);
            assert forall|x: (Priority, ChunkPos)| true implies r@.to_multiset().add(
                src@.to_multiset(),
            ).count(x) == input@.to_multiset().count(x) by {
                assert(r@.to_multiset().count(x) == r0.to_multiset().count(x) + (if x == e {
                    1int
                } else {
                    0int
                }));
                assert(src@.to_multiset().count(x) == src0.to_multiset().count(x) - (if x == e {
                    1int
                } else {
                    0int
                }));
            }
            assert(r@.to_multiset().add(src@.to_multiset()) =~= input@.to_multiset());
            assert forall|a: int, b: int| 0 <= a < b < r@.len() implies (#[trigger] r@[a]).0 <= (
            #[trigger] r@[b]).0 by {
                if b < k {
                    assert(r@[a] == r0[a] && r@[b] == r0[b]);
                } else if a > k {
                    assert(r@[a] == r0[a - 1] && r@[b] == r0[b - 1]);
                } else if a == k {
                    assert(r@[a] == e && r@[b] == r0[b - 1]);
                    assert(r0[k as int].0 > e.0);
                } else if b == k {
                    assert(r@[a] == r0[a] && r@[b] == e);
                } else {
                    assert(r@[a] == r0[a] && r@[b] == r0[b - 1]);
                    if b - 1 == k {
                        assert(r0[k as int].0 > e.0 && r@[a].0 <= e.0);
                    }
                }
            }
        }
    }
    proof {
        assert(src@.to_multiset() =~= Multiset::<(Priority, ChunkPos)>::empty());
        assert(r@.to_multiset().add(Multiset::<(Priority, ChunkPos)>::empty()) =~= r@.to_multiset());
    }
    r
}

/// What one run of worker results leaves at a coordinate, over the pending
/// entry and the world entry there: a result whose coordinate is pending in
/// scheduled state removes that entry and makes its chunk resident; any
/// other result is discarded as an internal invariant violation.
pub open spec fn merge_at(
    pe: Option<Option<Priority>>,
    we: Option<(u32, Chunk)>,
    results: Seq<(ChunkPos, Chunk)>,
    pos: ChunkPos,
) -> (Option<Option<Priority>>, Option<(u32, Chunk)>)
    decreases results.len(),
{
    if results.len() == 0 {
        (pe, we)
    } else {
        let (pe1, we1) = merge_at(pe, we, results.drop_last(), pos);
        let r = results.last();
        if r.0 == pos && pe1 == Some(None::<Priority>) {
            (
                None,
                Some(
                    (
                        match we1 {
                            Some((v, _)) => v,
                            None => 0u32,
                        },
                        r.1,
                    ),
                ),
            )
        } else {
            (pe1, we1)
        }
    }
}

/// Merging never creates a scheduled entry.
proof fn lemma_merge_at_no_new_scheduled(
    pe: Option<Option<Priority>>,
    we: Option<(u32, Chunk)>,
    results: Seq<(ChunkPos, Chunk)>,
    pos: ChunkPos,
)
    ensures
        merge_at(pe, we, results, pos).0 == Some(None::<Priority>) ==> pe == Some(
            None::<Priority>,
        ),
    decreases results.len(),
{
    if results.len() > 0 {
        lemma_merge_at_no_new_scheduled(pe, we, results.drop_last(), pos);
    }
}

/// A merge makes a coordinate resident only where its request was pending
/// in scheduled state: an evicted chunk cannot reappear until it is
/// re-requested and re-dispatched.
pub proof fn lemma_merge_no_spontaneous_resident(
    pe: Option<Option<Priority>>,
    we: Option<(u32, Chunk)>,
    results: Seq<(ChunkPos, Chunk)>,
    pos: ChunkPos,
)
    ensures
        merge_at(pe, we, results, pos).1 is Some ==> (we is Some || pe == Some(None::<Priority>)),
    decreases results.len(),
{
    if results.len() > 0 {
        lemma_merge_no_spontaneous_resident(pe, we, results.drop_last(), pos);
        lemma_merge_at_no_new_scheduled(pe, we, results.drop_last(), pos);
    }
}

/// Merging keeps a coordinate from being both resident and pending.
proof fn lemma_merge_at_exclusive(
    pe: Option<Option<Priority>>,
    we: Option<(u32, Chunk)>,
    results: Seq<(ChunkPos, Chunk)>,
    pos: ChunkPos,
)
    requires
        we is Some ==> pe is None,
    ensures
        merge_at(pe, we, results, pos).1 is Some ==> merge_at(pe, we, results, pos).0 is None,
    decreases results.len(),
{
    if results.len() > 0 {
        lemma_merge_at_exclusive(pe, we, results.drop_last(), pos);
    }
}

/// Merge a batch of finished chunks into world storage: each result whose
/// coordinate is pending in scheduled state becomes resident and leaves the
/// pending table; a result for any other coordinate is discarded and
/// reported, never fatal. The returned list holds the discarded coordinates.
pub fn merge_results(
    state: &mut GameState,
    world: &mut WorldStore,
    results: Vec<(ChunkPos, Chunk)>,
) -> (discarded: Vec<ChunkPos>)
    requires
        old(state).pending.wf(),
        old(world).wf(),
    ensures
        final(state).pending.wf(),
        final(world).wf(),
        final(state).sender == old(state).sender,
        final(state).receiver == old(state).receiver,
        forall|pos: ChunkPos| #[trigger]
            final(state).pending.spec_get(pos) == merge_at(
                old(state).pending.spec_get(pos),
                old(world).spec_get(pos),
                results@,
                pos,
            ).0,
        forall|pos: ChunkPos| #[trigger]
            final(world).spec_get(pos) == merge_at(
                old(state).pending.spec_get(pos),
                old(world).spec_get(pos),
                results@,
                pos,
            ).1,
        discarded@.len() <= results@.len(),
        exclusive(old(state).pending, *old(world)) ==> exclusive(
            final(state).pending,
            *final(world),
        ),
{
    let ghost p0 = old(state).pending;
    let ghost w0 = *old(world);
    let ghost all = results@;
    let mut results = results;
    let mut discarded: Vec<ChunkPos> = Vec::new();
    let ghost mut i: int = 0;
    proof {
        assert(results@ =~= all.skip(0));
    }
    while results.len() > 0
        invariant
            0 <= i <= all.len(),
            results@ == all.skip(i),
            discarded@.len() <= i,
            state.pending.wf(),
            world.wf(),
            state.sender == old(state).sender,
            state.receiver == old(state).receiver,
            p0 == old(state).pending,
            w0 == *old(world),
            forall|pos: ChunkPos| #[trigger]
                state.pending.spec_get(pos) == merge_at(
                    p0.spec_get(pos),
                    w0.spec_get(pos),
                    all.take(i),
                    pos,
                ).0,
            forall|pos: ChunkPos| #[trigger]
                world.spec_get(pos) == merge_at(
                    p0.spec_get(pos),
                    w0.spec_get(pos),
                    all.take(i),
                    pos,
                ).1,
        decreases results@.len(),
    {
        let (pos, chunk) = results.remove(0);
        proof {
            assert(all.skip(i)[0] == all[i]);
            assert((pos, chunk) == all[i]);
            assert(results@ =~= all.skip(i + 1));
            assert(all.take(i + 1).drop_last() =~= all.take(i));
            assert(all.take(i + 1).last() == all[i]);
        }
        let ghost p_mid = state.pending;
        let ghost w_mid = *world;
        let scheduled = match state.pending.get(pos) {
            Some(st) => st.is_none(),
            None => false,
        };
        if scheduled {
            state.pending.remove(pos);
            world.insert(pos, chunk);
            proof {
                assert forall|q: ChunkPos| true implies #[trigger] state.pending.spec_get(q)
                    == merge_at(p0.spec_get(q), w0.spec_get(q), all.take(i + 1), q).0
                    && #[trigger] world.spec_get(q) == merge_at(
                    p0.spec_get(q),
                    w0.spec_get(q),
                    all.take(i + 1),
                    q,
                ).1 by {
                    if q != pos {
                        assert(state.pending.spec_get(q) == p_mid.spec_get(q));
                        assert(world.spec_get(q) == w_mid.spec_get(q));
                    }
                }
            }
        } else {
            discarded.push(pos);
            proof {
                assert forall|q: ChunkPos| true implies #[trigger] state.pending.spec_get(q)
                    == merge_at(p0.spec_get(q), w0.spec_get(q), all.take(i + 1), q).0
                    && #[trigger] world.spec_get(q) == merge_at(
                    p0.spec_get(q),
                    w0.spec_get(q),
                    all.take(i + 1),
                    q,
                ).1 by {
                }
            }
        }
        proof {
            i = i + 1;
        }
    }
    proof {
        assert(i == all.len());
        assert(all.take(all.len() as int) =~= all);
        if exclusive(p0, w0) {
            assert forall|pos: ChunkPos| world.spec_has(pos) implies (
            #[trigger] state.pending.spec_get(pos)) is None by {
                lemma_merge_at_exclusive(p0.spec_get(pos), w0.spec_get(pos), all, pos);
            }
        }
    }
    discarded
}

/// Collect every unscheduled request, send the coordinates to the worker
/// pool in ascending priority order (closest first), and mark each
/// successfully sent coordinate as scheduled. A coordinate whose send fails
/// keeps its priority, so the request is retried on a later tick rather than
/// stranded. Returns the coordinates sent, in send order.
pub fn dispatch_requests(state: &mut GameState) -> (sent: Vec<ChunkPos>)
    requires
        old(state).pending.wf(),
    ensures
        final(state).pending.wf(),
        final(state).sender == old(state).sender,
        final(state).receiver == old(state).receiver,
        forall|pos: ChunkPos| #[trigger]
            final(state).pending.spec_get(pos) == if sent@.contains(pos) {
                Some(None::<Priority>)
            } else {
                old(state).pending.spec_get(pos)
            },
        forall|k: int|
            0 <= k < sent@.len() ==> old(state).pending.spec_get(#[trigger] sent@[k]) matches Some(
                Some(_),
            ),
        forall|a: int, b: int|
            0 <= a < b < sent@.len() ==> old(state).pending.spec_get(
                sent@[a],
            )->Some_0->Some_0 <= old(state).pending.spec_get(sent@[b])->Some_0->Some_0,
{
    broadcast use vstd::seq_lib::group_to_multiset_ensures;

    let ghost p0 = old(state).pending;
    let batch = state.pending.unscheduled();
    let sorted = sort_batch(batch);
    proof {
        assert forall|k: int| 0 <= k < sorted@.len() implies p0.spec_get(
            (#[trigger] sorted@[k]).1,
        ) == Some(Some(sorted@[k].0)) by {
            assert(sorted@.to_multiset().contains(sorted@[k]));
            assert(batch@.to_multiset().contains(sorted@[k]));
            assert(batch@.contains(sorted@[k]));
            let j = choose|j: int| 0 <= j < batch@.len() && batch@[j] == sorted@[k];
        }
    }
    let mut sent: Vec<ChunkPos> = Vec::new();
    let mut i: usize = 0;
    while i < sorted.len()
        invariant
            i <= sorted@.len(),
            state.pending.wf(),
            state.sender == old(state).sender,
            state.receiver == old(state).receiver,
            p0 == old(state).pending,
            forall|k: int|
                0 <= k < sorted@.len() ==> p0.spec_get((#[trigger] sorted@[k]).1) == Some(
                    Some(sorted@[k].0),
                ),
            forall|a: int, b: int|
                0 <= a < b < sorted@.len() ==> (#[trigger] sorted@[a]).0 <= (
                #[trigger] sorted@[b]).0,
            forall|pos: ChunkPos| #[trigger]
                state.pending.spec_get(pos) == if sent@.contains(pos) {
                    Some(None::<Priority>)
                } else {
                    p0.spec_get(pos)
                },
            forall|k: int|
                0 <= k < sent@.len() ==> p0.spec_get(#[trigger] sent@[k]) matches Some(Some(_)),
            forall|a: int, b: int|
                0 <= a < b < sent@.len() ==> p0.spec_get(sent@[a])->Some_0->Some_0 <= p0.spec_get(
                    sent@[b],
                )->Some_0->Some_0,
            forall|k: int, j: int|
                0 <= k < sent@.len() && i <= j < sorted@.len() ==> p0.spec_get(
                    #[trigger] sent@[k],
                )->Some_0->Some_0 <= (#[trigger] sorted@[j]).0,
        decreases sorted@.len() - i,
    {
        let (pri, pos) = sorted[i];
        let ghost sent0 = sent@;
        if try_send_request(&state.sender, pos) {
            state.pending.mark_scheduled(pos);
            sent.push(pos);
            proof {
                assert(sent@ =~= sent0.push(pos));
                assert(sent@[sent@.len() - 1] == pos);
                assert forall|pos2: ChunkPos| true implies #[trigger] state.pending.spec_get(pos2)
                    == (if sent@.contains(pos2) {
                    Some(None::<Priority>)
                } else {
                    p0.spec_get(pos2)
                }) by {
                    if pos2 == pos {
                    } else {
                        assert(sent@.contains(pos2) == sent0.contains(pos2)) by {
                            if sent0.contains(pos2) {
                                let k = choose|k: int|
                                    0 <= k < sent0.len() && sent0[k] == pos2;
                                assert(sent@[k] == pos2);
                            }
                            if sent@.contains(pos2) {
                                let k = choose|k: int| 0 <= k < sent@.len() && sent@[k] == pos2;
                                assert(k < sent0.len() && sent0[k] == pos2);
                            }
                        }
                    }
                }
            }
        }
        i = i + 1;
    }
    sent
}

/// What one tick of `send_recv_chunks` reports: the coordinates dispatched
/// to the worker pool this tick, in send order, and the coordinates of
/// results that were discarded as internal invariant violations.
pub struct TickReport {
    pub dispatched: Vec<ChunkPos>,
    pub discarded: Vec<ChunkPos>,
}

/// One tick of the scheduler's queue work, in order: drain and merge every
/// finished chunk into world storage, then send all unscheduled requests to
/// the worker pool, closest first. A coordinate ends this tick marked
/// scheduled only if it already was, or if its request was sent this tick:
/// no request is stranded.
pub fn send_recv_chunks(state: &mut GameState, world: &mut WorldStore) -> (r: TickReport)
    requires
        old(state).pending.wf(),
        old(world).wf(),
    ensures
        final(state).pending.wf(),
        final(world).wf(),
        final(state).sender == old(state).sender,
        final(state).receiver == old(state).receiver,
        exclusive(old(state).pending, *old(world)) ==> exclusive(
            final(state).pending,
            *final(world),
        ),
        forall|pos: ChunkPos|
            #[trigger] final(state).pending.spec_get(pos) == Some(None::<Priority>) ==> (old(
                state,
            ).pending.spec_get(pos) == Some(None::<Priority>) || r.dispatched@.contains(pos)),
        forall|k: int|
            0 <= k < r.dispatched@.len() ==> final(state).pending.spec_get(
                #[trigger] r.dispatched@[k],
            ) == Some(None::<Priority>),
{
    let ghost p0 = old(state).pending;
    let results = drain_results(&state.receiver);
    let ghost rs = results@;
    let discarded = merge_results(state, world, results);
    let ghost p_mid = state.pending;
    let dispatched = dispatch_requests(state);
    proof {
        assert forall|pos: ChunkPos|
            #[trigger] state.pending.spec_get(pos) == Some(None::<Priority>) implies (p0.spec_get(
            pos,
        ) == Some(None::<Priority>) || dispatched@.contains(pos)) by {
            if !dispatched@.contains(pos) {
                assert(p_mid.spec_get(pos) == Some(None::<Priority>));
                lemma_merge_at_no_new_scheduled(
                    p0.spec_get(pos),
                    old(world).spec_get(pos),
                    rs,
                    pos,
                );
            }
        }
        assert forall|k: int| 0 <= k < dispatched@.len() implies state.pending.spec_get(
            #[trigger] dispatched@[k],
        ) == Some(None::<Priority>) by {
            assert(dispatched@.contains(dispatched@[k]));
        }
    }
    TickReport { dispatched, discarded }
}

} // verus!

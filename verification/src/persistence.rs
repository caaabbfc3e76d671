//! The persistence-backed chunk source: loads arriving from on-disk storage
//! instead of the procedural generator.
//!
//! A load event carries one of Success, Empty or Failed. Empty fills in a
//! fallback platform chunk; Failed surfaces a warning for connected
//! observers and still inserts a safe fallback chunk, so the visible world
//! never keeps a hole. Successful loads are inserted by the storage layer
//! itself and pass through untouched. This path does not use the worker
//! pool or the pending table.

use vstd::prelude::*;

use crate::block::BlockKind;
use crate::block::Chunk;
use crate::coords::ChunkPos;
use crate::world_store::WorldStore;

verus! {

/// The outcome of loading one chunk from persisted storage.
pub enum ChunkLoadStatus {
    /// The store held the chunk; the storage layer has inserted it already.
    Success,
    /// The store holds nothing for this coordinate.
    Empty,
    /// The load failed; the message says why.
    Failed(String),
}

/// One chunk-load outcome from the persistence collaborator.
pub struct ChunkLoadEvent {
    pub pos: ChunkPos,
    pub status: ChunkLoadStatus,
}

/// A warning to surface to connected observers: a load failed at `pos`.
pub struct LoadWarning {
    pub pos: ChunkPos,
    pub message: String,
}

/// Number of elevations the Empty-fallback platform fills with sandstone.
pub const PLATFORM_FILL: usize = 144;

/// Number of elevations the anvil Failed-fallback fills with liquid.
pub const FAILED_FILL: usize = 128;

/// The chunk `c` is `height` tall and holds `material` strictly below
/// `fill_to` and air at and above it, in every column.
pub open spec fn platform_chunk(c: Chunk, height: usize, fill_to: usize, material: BlockKind) -> bool {
    &&& c.wf()
    &&& c.spec_height() == height
    &&& forall|x: int, y: int, z: int|
        0 <= x < 16 && 0 <= y < height && 0 <= z < 16 ==> #[trigger] c.spec_block(x, y, z) == (if y
            < fill_to {
            material
        } else {
            BlockKind::Air
        })
}

/// The last Empty or Failed event for `pos`, which decides what ends up
/// resident there; Success events decide nothing here.
pub open spec fn last_fallback(events: Seq<ChunkLoadEvent>, pos: ChunkPos) -> Option<
    ChunkLoadStatus,
>
    decreases events.len(),
{
    if events.len() == 0 {
        None
    } else {
        let e = events.last();
        if e.pos == pos && !(e.status is Success) {
            Some(e.status)
        } else {
            last_fallback(events.drop_last(), pos)
        }
    }
}

/// One warning per Failed event, in event order, each carrying the event's
/// coordinate and message.
pub open spec fn failed_warnings(events: Seq<ChunkLoadEvent>) -> Seq<LoadWarning>
    decreases events.len(),
{
    if events.len() == 0 {
        Seq::empty()
    } else {
        failed_warnings(events.drop_last()) + match events.last().status {
            ChunkLoadStatus::Failed(m) => seq![
                LoadWarning { pos: events.last().pos, message: m },
            ],
            _ => Seq::<LoadWarning>::empty(),
        }
    }
}

/// The viewer count a coordinate keeps through fallback insertion.
pub open spec fn kept_viewers(w: WorldStore, pos: ChunkPos) -> u32 {
    match w.spec_get(pos) {
        Some((v, _)) => v,
        None => 0u32,
    }
}

/// Apply a batch of load events with the given Failed-fallback shape.
fn apply_chunk_loads(
    world: &mut WorldStore,
    events: Vec<ChunkLoadEvent>,
    max_height: usize,
    failed_height: usize,
    failed_fill: usize,
    failed_material: BlockKind,
) -> (warnings: Vec<LoadWarning>)
    requires
        old(world).wf(),
        PLATFORM_FILL <= max_height,
        failed_fill <= failed_height,
    ensures
        final(world).wf(),
        forall|q: ChunkPos|
            last_fallback(events@, q) is None ==> #[trigger] final(world).spec_get(q) == old(
                world,
            ).spec_get(q),
        forall|q: ChunkPos|
            (#[trigger] last_fallback(events@, q)) matches Some(st) ==> {
                &&& final(world).spec_get(q) is Some
                &&& final(world).spec_get(q)->Some_0.0 == kept_viewers(*old(world), q)
                &&& match st {
                    ChunkLoadStatus::Empty => platform_chunk(
                        final(world).spec_get(q)->Some_0.1,
                        max_height,
                        PLATFORM_FILL,
                        BlockKind::Sandstone,
                    ),
                    ChunkLoadStatus::Failed(_) => platform_chunk(
                        final(world).spec_get(q)->Some_0.1,
                        failed_height,
                        failed_fill,
                        failed_material,
                    ),
                    ChunkLoadStatus::Success => false,
                }
            },
        warnings@ == failed_warnings(events@),
{
    let ghost w0 = *world;
    let ghost all = events@;
    let mut events = events;
    let mut warnings: Vec<LoadWarning> = Vec::new();
    let ghost mut i: int = 0;
    proof {
        assert(events@ =~= all.skip(0));
        assert(warnings@ =~= failed_warnings(all.take(0)));
    }
    while events.len() > 0
        invariant
            0 <= i <= all.len(),
            events@ == all.skip(i),
            world.wf(),
            w0.wf(),
            PLATFORM_FILL <= max_height,
            failed_fill <= failed_height,
            warnings@ == failed_warnings(all.take(i)),
            forall|q: ChunkPos|
                last_fallback(all.take(i), q) is None ==> #[trigger] world.spec_get(q)
                    == w0.spec_get(q),
            forall|q: ChunkPos|
                (#[trigger] last_fallback(all.take(i), q)) matches Some(st) ==> {
                    &&& world.spec_get(q) is Some
                    &&& world.spec_get(q)->Some_0.0 == kept_viewers(w0, q)
                    &&& match st {
                        ChunkLoadStatus::Empty => platform_chunk(
                            world.spec_get(q)->Some_0.1,
                            max_height,
                            PLATFORM_FILL,
                            BlockKind::Sandstone,
                        ),
                        ChunkLoadStatus::Failed(_) => platform_chunk(
                            world.spec_get(q)->Some_0.1,
                            failed_height,
                            failed_fill,
                            failed_material,
                        ),
                        ChunkLoadStatus::Success => false,
                    }
                },
        decreases events@.len(),
    {
        let e = events.remove(0);
        proof {
            assert(all.skip(i)[0] == all[i]);
            assert(e == all[i]);
            assert(events@ =~= all.skip(i + 1));
            assert(all.take(i + 1).drop_last() =~= all.take(i));
            assert(all.take(i + 1).last() == all[i]);
        }
        let ghost w_mid = *world;
        let ChunkLoadEvent { pos, status } = e;
        match status {
            ChunkLoadStatus::Success => {},
            ChunkLoadStatus::Empty => {
                let chunk = Chunk::filled(max_height, PLATFORM_FILL, BlockKind::Sandstone);
                world.insert(pos, chunk);
            },
            ChunkLoadStatus::Failed(message) => {
                let chunk = Chunk::filled(failed_height, failed_fill, failed_material);
                world.insert(pos, chunk);
                warnings.push(LoadWarning { pos, message });
            },
        }
        proof {
            assert(warnings@ =~= failed_warnings(all.take(i + 1)));
            assert forall|q: ChunkPos| q != pos implies world.spec_get(q) == w_mid.spec_get(
                q,
            ) by {}
            assert forall|q: ChunkPos|
                last_fallback(all.take(i + 1), q) is None implies #[trigger] world.spec_get(q)
                == w0.spec_get(q) by {
                assert(last_fallback(all.take(i), q) is None);
            }
            i = i + 1;
        }
    }
    proof {
        assert(i == all.len());
        assert(all.take(all.len() as int) =~= all);
    }
    warnings
}

/// Apply load events for a flat world: Empty inserts the sandstone platform
/// fallback; Failed reports a warning and inserts an empty chunk, so the
/// coordinate is resident either way and never left a hole.
pub fn handle_chunk_loads_flat(
    world: &mut WorldStore,
    events: Vec<ChunkLoadEvent>,
    world_max_height: usize,
) -> (warnings: Vec<LoadWarning>)
    requires
        old(world).wf(),
        PLATFORM_FILL <= world_max_height,
    ensures
        final(world).wf(),
        forall|q: ChunkPos|
            last_fallback(events@, q) is None ==> #[trigger] final(world).spec_get(q) == old(
                world,
            ).spec_get(q),
        forall|q: ChunkPos|
            (#[trigger] last_fallback(events@, q)) matches Some(st) ==> {
                &&& final(world).spec_has(q)
                &&& final(world).spec_get(q)->Some_0.0 == kept_viewers(*old(world), q)
                &&& match st {
                    ChunkLoadStatus::Empty => platform_chunk(
                        final(world).spec_get(q)->Some_0.1,
                        world_max_height,
                        PLATFORM_FILL,
                        BlockKind::Sandstone,
                    ),
                    ChunkLoadStatus::Failed(_) => platform_chunk(
                        final(world).spec_get(q)->Some_0.1,
                        0,
                        0,
                        BlockKind::Air,
                    ),
                    ChunkLoadStatus::Success => false,
                }
            },
        warnings@ == failed_warnings(events@),
{
    apply_chunk_loads(world, events, world_max_height, 0, 0, BlockKind::Air)
}

/// Apply load events for a persisted (region-file) world: Empty inserts the
/// sandstone platform fallback; Failed reports a warning and inserts a
/// liquid-filled fallback, so the coordinate is resident either way.
pub fn handle_chunk_loads_anvil(
    world: &mut WorldStore,
    events: Vec<ChunkLoadEvent>,
    world_max_height: usize,
) -> (warnings: Vec<LoadWarning>)
    requires
        old(world).wf(),
        PLATFORM_FILL <= world_max_height,
    ensures
        final(world).wf(),
        forall|q: ChunkPos|
            last_fallback(events@, q) is None ==> #[trigger] final(world).spec_get(q) == old(
                world,
            ).spec_get(q),
        forall|q: ChunkPos|
            (#[trigger] last_fallback(events@, q)) matches Some(st) ==> {
                &&& final(world).spec_has(q)
                &&& final(world).spec_get(q)->Some_0.0 == kept_viewers(*old(world), q)
                &&& match st {
                    ChunkLoadStatus::Empty => platform_chunk(
                        final(world).spec_get(q)->Some_0.1,
                        world_max_height,
                        PLATFORM_FILL,
                        BlockKind::Sandstone,
                    ),
                    ChunkLoadStatus::Failed(_) => platform_chunk(
                        final(world).spec_get(q)->Some_0.1,
                        world_max_height,
                        FAILED_FILL,
                        BlockKind::Water,
                    ),
                    ChunkLoadStatus::Success => false,
                }
            },
        warnings@ == failed_warnings(events@),
{
    apply_chunk_loads(world, events, world_max_height, world_max_height, FAILED_FILL, BlockKind::Water)
}

} // verus!

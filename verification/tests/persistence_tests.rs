use chunkstream::block::BlockKind;
use chunkstream::coords::ChunkPos;
use chunkstream::persistence::{
    handle_chunk_loads_anvil, handle_chunk_loads_flat, ChunkLoadEvent, ChunkLoadStatus,
};
use chunkstream::world_store::WorldStore;

const HEIGHT: usize = 384;

#[test]
fn empty_load_inserts_sandstone_platform() {
    let mut world = WorldStore::new();
    let pos = ChunkPos::new(4, -2);
    let warnings = handle_chunk_loads_flat(
        &mut world,
        vec![ChunkLoadEvent {
            pos,
            status: ChunkLoadStatus::Empty,
        }],
        HEIGHT,
    );
    assert!(warnings.is_empty());
    let chunk = world.get(pos).expect("fallback chunk must be resident");
    assert_eq!(chunk.height(), HEIGHT);
    assert_eq!(chunk.block(0, 0, 0), BlockKind::Sandstone);
    assert_eq!(chunk.block(15, 143, 15), BlockKind::Sandstone);
    assert_eq!(chunk.block(8, 144, 8), BlockKind::Air);
}

#[test]
fn failed_flat_load_still_leaves_coordinate_resident() {
    let mut world = WorldStore::new();
    let pos = ChunkPos::new(0, 9);
    let warnings = handle_chunk_loads_flat(
        &mut world,
        vec![ChunkLoadEvent {
            pos,
            status: ChunkLoadStatus::Failed(String::from("corrupt region file")),
        }],
        HEIGHT,
    );
    assert_eq!(warnings.len(), 1);
    assert_eq!(warnings[0].pos, pos);
    assert_eq!(warnings[0].message, "corrupt region file");
    // Never left absent: the coordinate is resident, as an empty chunk.
    let chunk = world.get(pos).expect("failed load must leave a chunk");
    assert_eq!(chunk.height(), 0);
}

#[test]
fn failed_anvil_load_inserts_liquid_fallback() {
    let mut world = WorldStore::new();
    let pos = ChunkPos::new(-7, 1);
    let warnings = handle_chunk_loads_anvil(
        &mut world,
        vec![ChunkLoadEvent {
            pos,
            status: ChunkLoadStatus::Failed(String::from("bad header")),
        }],
        HEIGHT,
    );
    assert_eq!(warnings.len(), 1);
    let chunk = world.get(pos).expect("failed load must leave a chunk");
    assert_eq!(chunk.height(), HEIGHT);
    assert_eq!(chunk.block(8, 0, 8), BlockKind::Water);
    assert_eq!(chunk.block(8, 127, 8), BlockKind::Water);
    assert_eq!(chunk.block(8, 128, 8), BlockKind::Air);
}

#[test]
fn successful_load_changes_nothing_here() {
    let mut world = WorldStore::new();
    let pos = ChunkPos::new(1, 1);
    let warnings = handle_chunk_loads_anvil(
        &mut world,
        vec![ChunkLoadEvent {
            pos,
            status: ChunkLoadStatus::Success,
        }],
        HEIGHT,
    );
    assert!(warnings.is_empty());
    assert!(!world.has(pos));
}

#[test]
fn later_event_for_same_coordinate_wins() {
    let mut world = WorldStore::new();
    let pos = ChunkPos::new(6, 6);
    let warnings = handle_chunk_loads_anvil(
        &mut world,
        vec![
            ChunkLoadEvent {
                pos,
                status: ChunkLoadStatus::Empty,
            },
            ChunkLoadEvent {
                pos,
                status: ChunkLoadStatus::Failed(String::from("late failure")),
            },
        ],
        HEIGHT,
    );
    assert_eq!(warnings.len(), 1);
    let chunk = world.get(pos).unwrap();
    assert_eq!(chunk.block(0, 0, 0), BlockKind::Water);
}

#[test]
fn mixed_events_each_take_effect() {
    let mut world = WorldStore::new();
    let a = ChunkPos::new(0, 0);
    let b = ChunkPos::new(1, 0);
    let c = ChunkPos::new(2, 0);
    let warnings = handle_chunk_loads_anvil(
        &mut world,
        vec![
            ChunkLoadEvent {
                pos: a,
                status: ChunkLoadStatus::Empty,
            },
            ChunkLoadEvent {
                pos: b,
                status: ChunkLoadStatus::Success,
            },
            ChunkLoadEvent {
                pos: c,
                status: ChunkLoadStatus::Failed(String::from("truncated")),
            },
        ],
        HEIGHT,
    );
    assert_eq!(warnings.len(), 1);
    assert_eq!(warnings[0].pos, c);
    assert!(world.has(a));
    assert!(!world.has(b));
    assert!(world.has(c));
    assert_eq!(world.get(a).unwrap().block(0, 0, 0), BlockKind::Sandstone);
    assert_eq!(world.get(c).unwrap().block(0, 0, 0), BlockKind::Water);
}

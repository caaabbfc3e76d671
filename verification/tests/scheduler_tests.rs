use chunkstream::block::{BlockKind, Chunk};
use chunkstream::coords::{ChunkPos, ChunkView, ObserverView};
use chunkstream::scheduler::{
    dispatch_requests, merge_results, send_recv_chunks, update_client_views, GameState,
};
use chunkstream::world_store::{remove_unviewed_chunks, WorldStore};

fn new_state() -> (
    GameState,
    flume::Receiver<ChunkPos>,
    flume::Sender<(ChunkPos, Chunk)>,
) {
    let (req_tx, req_rx) = flume::unbounded();
    let (res_tx, res_rx) = flume::unbounded();
    (GameState::new(req_tx, res_rx), req_rx, res_tx)
}

#[test]
fn dispatch_order_is_ascending_priority() {
    let (mut state, req_rx, _res_tx) = new_state();
    let a = ChunkPos::new(5, 0);
    let b = ChunkPos::new(1, 0);
    let c = ChunkPos::new(3, 0);
    state.pending.queue(a, 50);
    state.pending.queue(b, 10);
    state.pending.queue(c, 30);

    let sent = dispatch_requests(&mut state);
    assert_eq!(sent, vec![b, c, a]);

    // The requests really went out over the queue, in that order.
    let received: Vec<ChunkPos> = req_rx.drain().collect();
    assert_eq!(received, vec![b, c, a]);

    // All three are now marked scheduled.
    assert_eq!(state.pending.get(a), Some(None));
    assert_eq!(state.pending.get(b), Some(None));
    assert_eq!(state.pending.get(c), Some(None));
}

#[test]
fn priority_is_minimum_regardless_of_order() {
    let pos = ChunkPos::new(7, -3);

    let (mut s1, _rx1, _tx1) = new_state();
    s1.pending.queue(pos, 50);
    s1.pending.queue(pos, 10);
    assert_eq!(s1.pending.get(pos), Some(Some(10)));

    let (mut s2, _rx2, _tx2) = new_state();
    s2.pending.queue(pos, 10);
    s2.pending.queue(pos, 50);
    assert_eq!(s2.pending.get(pos), Some(Some(10)));
}

#[test]
fn scheduled_entry_keeps_no_priority() {
    let (mut state, _req_rx, _res_tx) = new_state();
    let pos = ChunkPos::new(0, 0);
    state.pending.queue(pos, 20);
    let sent = dispatch_requests(&mut state);
    assert_eq!(sent, vec![pos]);
    // A later, closer request must not resurrect a priority.
    state.pending.queue(pos, 1);
    assert_eq!(state.pending.get(pos), Some(None));
}

#[test]
fn merge_makes_resident_and_clears_pending() {
    let (mut state, _req_rx, _res_tx) = new_state();
    let mut world = WorldStore::new();
    let pos = ChunkPos::new(2, 2);
    state.pending.queue(pos, 4);
    dispatch_requests(&mut state);

    let chunk = Chunk::filled(16, 8, BlockKind::Stone);
    let discarded = merge_results(&mut state, &mut world, vec![(pos, chunk)]);
    assert!(discarded.is_empty());
    assert!(world.has(pos));
    assert_eq!(state.pending.get(pos), None);
}

#[test]
fn merge_discards_result_not_in_scheduled_state() {
    let (mut state, _req_rx, _res_tx) = new_state();
    let mut world = WorldStore::new();
    let unknown = ChunkPos::new(9, 9);
    let unsent = ChunkPos::new(4, 4);
    state.pending.queue(unsent, 11);

    let discarded = merge_results(
        &mut state,
        &mut world,
        vec![
            (unknown, Chunk::filled(16, 8, BlockKind::Stone)),
            (unsent, Chunk::filled(16, 8, BlockKind::Stone)),
        ],
    );
    assert_eq!(discarded, vec![unknown, unsent]);
    assert!(!world.has(unknown));
    assert!(!world.has(unsent));
    // The unscheduled entry survives untouched.
    assert_eq!(state.pending.get(unsent), Some(Some(11)));
}

#[test]
fn send_recv_chunks_round_trip() {
    let (mut state, req_rx, res_tx) = new_state();
    let mut world = WorldStore::new();
    let pos = ChunkPos::new(-1, 3);
    state.pending.queue(pos, 2);

    // First tick: nothing to merge, the request goes out.
    let report = send_recv_chunks(&mut state, &mut world);
    assert_eq!(report.dispatched, vec![pos]);
    assert_eq!(req_rx.drain().collect::<Vec<_>>(), vec![pos]);
    assert_eq!(state.pending.get(pos), Some(None));

    // A worker finishes the chunk; the next tick merges it.
    res_tx
        .send((pos, Chunk::filled(16, 8, BlockKind::Stone)))
        .unwrap();
    let report = send_recv_chunks(&mut state, &mut world);
    assert!(report.dispatched.is_empty());
    assert!(report.discarded.is_empty());
    assert!(world.has(pos));
    assert_eq!(state.pending.get(pos), None);
}

#[test]
fn eviction_removes_only_unviewed_chunks() {
    let mut world = WorldStore::new();
    let seen = ChunkPos::new(0, 0);
    let unseen = ChunkPos::new(1, 0);
    world.insert(seen, Chunk::filled(16, 8, BlockKind::Stone));
    world.insert(unseen, Chunk::filled(16, 8, BlockKind::Stone));
    world.set_viewer_count(seen, 2);

    remove_unviewed_chunks(&mut world);
    assert!(world.has(seen));
    assert!(!world.has(unseen));
    assert_eq!(world.viewer_count(seen), 2);

    // The evicted chunk stays gone on a later pass until re-requested.
    remove_unviewed_chunks(&mut world);
    assert!(!world.has(unseen));
}

#[test]
fn first_tick_queues_whole_view_at_squared_distance() {
    let (mut state, _req_rx, _res_tx) = new_state();
    let world = WorldStore::new();
    let center = ChunkPos::new(0, 0);
    let observers = vec![ObserverView {
        view: ChunkView::new(center, 1),
        old_view: None,
    }];

    update_client_views(&mut state, &world, &observers);
    assert_eq!(state.pending.len(), 9);
    assert_eq!(state.pending.get(ChunkPos::new(0, 0)), Some(Some(0)));
    assert_eq!(state.pending.get(ChunkPos::new(1, 0)), Some(Some(1)));
    assert_eq!(state.pending.get(ChunkPos::new(-1, 1)), Some(Some(2)));
    assert_eq!(state.pending.get(ChunkPos::new(2, 0)), None);
}

#[test]
fn unchanged_view_queues_nothing() {
    let (mut state, _req_rx, _res_tx) = new_state();
    let world = WorldStore::new();
    let view = ChunkView::new(ChunkPos::new(3, 3), 2);
    let observers = vec![ObserverView {
        view,
        old_view: Some(view),
    }];

    update_client_views(&mut state, &world, &observers);
    assert_eq!(state.pending.len(), 0);
}

#[test]
fn moved_view_queues_only_new_positions() {
    let (mut state, _req_rx, _res_tx) = new_state();
    let world = WorldStore::new();
    let old = ChunkView::new(ChunkPos::new(0, 0), 1);
    let new = ChunkView::new(ChunkPos::new(1, 0), 1);
    let observers = vec![ObserverView {
        view: new,
        old_view: Some(old),
    }];

    update_client_views(&mut state, &world, &observers);
    // Only the fresh column x == 2 appears.
    assert_eq!(state.pending.len(), 3);
    assert_eq!(state.pending.get(ChunkPos::new(2, -1)), Some(Some(2)));
    assert_eq!(state.pending.get(ChunkPos::new(2, 0)), Some(Some(1)));
    assert_eq!(state.pending.get(ChunkPos::new(2, 1)), Some(Some(2)));
    assert_eq!(state.pending.get(ChunkPos::new(0, 0)), None);
}

#[test]
fn resident_chunks_are_never_queued() {
    let (mut state, _req_rx, _res_tx) = new_state();
    let mut world = WorldStore::new();
    let resident = ChunkPos::new(0, 0);
    world.insert(resident, Chunk::filled(16, 8, BlockKind::Stone));
    let observers = vec![ObserverView {
        view: ChunkView::new(resident, 1),
        old_view: None,
    }];

    update_client_views(&mut state, &world, &observers);
    // The resident coordinate is skipped; its eight neighbours are queued.
    assert_eq!(state.pending.len(), 8);
    assert_eq!(state.pending.get(resident), None);
}

#[test]
fn two_observers_promote_to_closest_distance() {
    let (mut state, _req_rx, _res_tx) = new_state();
    let world = WorldStore::new();
    let near = ObserverView {
        view: ChunkView::new(ChunkPos::new(0, 0), 1),
        old_view: None,
    };
    let far = ObserverView {
        view: ChunkView::new(ChunkPos::new(2, 0), 2),
        old_view: None,
    };
    let target = ChunkPos::new(1, 0);

    update_client_views(&mut state, &world, &vec![near, far]);
    // near sees target at distance 1, far at distance 1 as well; the corner
    // (0, 1) is seen at 1 by near and 5 by far: the minimum wins.
    assert_eq!(state.pending.get(target), Some(Some(1)));
    assert_eq!(state.pending.get(ChunkPos::new(0, 1)), Some(Some(1)));

    let (mut state2, _rx2, _tx2) = new_state();
    update_client_views(&mut state2, &world, &vec![far, near]);
    assert_eq!(state2.pending.get(ChunkPos::new(0, 1)), Some(Some(1)));
}

use bevy_ggrs::{
    ConfirmedFrameCount, GgrsComponentSnapshot, GgrsComponentSnapshots, GgrsResourceSnapshots,
    GgrsSnapshots, MaxPredictionWindow, RollbackFrameCount, RollbackId, DEFAULT_FPS,
};

type Snap = GgrsSnapshots<u32, u32>;

fn snap_with_depth(depth: usize) -> Snap {
    let mut s = Snap::default();
    s.set_depth(depth);
    s
}

// --- push ---

/// When depth is exceeded, the oldest frames are evicted.
#[test]
fn push_evicts_oldest_when_depth_exceeded() {
    let mut s = snap_with_depth(3);
    for i in 0..5_i32 {
        s.push(i, i as u32);
    }
    // Only frames 2, 3, 4 should survive
    assert!(s.peek(0).is_none());
    assert!(s.peek(1).is_none());
    assert_eq!(s.peek(2), Some(&2));
    assert_eq!(s.peek(3), Some(&3));
    assert_eq!(s.peek(4), Some(&4));
}

/// Pushing the same frame twice replaces the old snapshot.
#[test]
fn push_same_frame_replaces() {
    let mut s = snap_with_depth(8);
    s.push(3, 10);
    s.push(3, 20);
    assert_eq!(s.peek(3), Some(&20));
}

/// A frame older than everything in a full storage does not get in.
#[test]
fn push_older_than_a_full_storage_is_evicted_at_once() {
    let mut s = snap_with_depth(2);
    s.push(5, 50).push(6, 60).push(1, 10);
    assert!(s.peek(1).is_none());
    assert_eq!(s.peek(5), Some(&50));
    assert_eq!(s.peek(6), Some(&60));
}

#[test]
fn push_into_depth_zero_keeps_nothing() {
    let mut s = snap_with_depth(0);
    s.push(1, 10);
    assert!(s.peek(1).is_none());
}

/// The default depth is one second.
#[test]
fn default_depth_is_one_second() {
    let mut s = Snap::default();
    assert_eq!(s.depth(), Some(60));
    assert_eq!(DEFAULT_FPS, 60);
    for i in 0..61_i32 {
        s.push(i, i as u32);
    }
    assert!(s.peek(0).is_none());
    assert_eq!(s.peek(1), Some(&1));
    assert_eq!(s.peek(60), Some(&60));
}

#[test]
fn unbounded_storage_keeps_everything() {
    let mut s = snap_with_depth(1);
    s.set_unbounded();
    assert_eq!(s.depth(), None);
    for i in 0..500_i32 {
        s.push(i, i as u32);
    }
    assert_eq!(s.peek(0), Some(&0));
    assert_eq!(s.peek(499), Some(&499));
}

/// Lowering the depth takes effect with the next push.
#[test]
fn lower_depth_takes_effect_with_the_next_push() {
    let mut s = snap_with_depth(8);
    for i in 0..6_i32 {
        s.push(i, i as u32);
    }
    s.set_depth(2);
    assert_eq!(s.peek(0), Some(&0));
    s.push(6, 6);
    assert!(s.peek(4).is_none());
    assert_eq!(s.peek(5), Some(&5));
    assert_eq!(s.peek(6), Some(&6));
}

// --- confirm ---

/// Confirming a frame prunes all snapshots strictly before it.
#[test]
fn confirm_prunes_older_frames() {
    let mut s = snap_with_depth(8);
    for i in 0..6_i32 {
        s.push(i, i as u32);
    }
    s.confirm(3);
    assert!(s.peek(0).is_none());
    assert!(s.peek(1).is_none());
    assert!(s.peek(2).is_none());
    // Frame 3 itself is kept (confirm is exclusive lower bound)
    assert_eq!(s.peek(3), Some(&3));
    assert_eq!(s.peek(4), Some(&4));
    assert_eq!(s.peek(5), Some(&5));
}

/// Confirming beyond all stored frames leaves the storage empty.
#[test]
fn confirm_beyond_all_frames_empties_storage() {
    let mut s = snap_with_depth(8);
    for i in 0..4_i32 {
        s.push(i, i as u32);
    }
    s.confirm(100);
    for i in 0..4_i32 {
        assert!(s.peek(i).is_none());
    }
}

/// Confirming on an empty storage does not panic.
#[test]
fn confirm_on_empty_does_not_panic() {
    let mut s: Snap = snap_with_depth(8);
    s.confirm(5); // should not panic
}

/// Of two confirmations, the later frame counts.
#[test]
fn confirming_twice_is_confirming_the_later_frame() {
    let mut a = snap_with_depth(8);
    let mut b = snap_with_depth(8);
    for i in 0..6_i32 {
        a.push(i, i as u32);
        b.push(i, i as u32);
    }
    a.confirm(4).confirm(2);
    b.confirm(4);
    for i in 0..6_i32 {
        assert_eq!(a.peek(i), b.peek(i));
    }
}

// --- rollback ---

/// Rollback to an existing frame succeeds and positions the cursor there.
#[test]
fn rollback_to_existing_frame() {
    let mut s = snap_with_depth(8);
    for i in 0..5_i32 {
        s.push(i, i as u32 * 10);
    }
    s.rollback(2);
    assert_eq!(s.get(), &20);
}

/// The selected snapshot outlives a confirmation up to its frame.
#[test]
fn rollback_after_confirm() {
    let mut s = snap_with_depth(8);
    for i in 0..5_i32 {
        s.push(i, i as u32 * 10);
    }
    s.confirm(2).rollback(2);
    assert_eq!(s.get(), &20);
    s.rollback(4);
    assert_eq!(s.get(), &40);
}

// --- i32 wraparound ---

/// Pushing i32::MIN after i32::MAX is a forward step across the wrap boundary.
/// History frames near i32::MAX are retained (they're older context), and i32::MIN
/// is prepended as the newest snapshot.
#[test]
fn push_wraps_i32_max_to_min_retains_history() {
    let mut s = snap_with_depth(8);
    s.push(i32::MAX - 2, 1);
    s.push(i32::MAX - 1, 2);
    s.push(i32::MAX, 3);
    // i32::MIN is "after" i32::MAX in GGRS frame counting (forward wrap).
    // The old frames are history and must be retained.
    s.push(i32::MIN, 4);
    assert_eq!(s.peek(i32::MAX - 2), Some(&1));
    assert_eq!(s.peek(i32::MAX - 1), Some(&2));
    assert_eq!(s.peek(i32::MAX), Some(&3));
    assert_eq!(s.peek(i32::MIN), Some(&4));
}

// --- systems ---

#[test]
fn discard_old_snapshots_confirms_if_there_is_a_confirmed_frame() {
    let mut s = snap_with_depth(8);
    s.push(1, 1).push(2, 2);
    s.discard_old_snapshots(None);
    assert_eq!(s.peek(1), Some(&1));
    s.discard_old_snapshots(Some(ConfirmedFrameCount(2)));
    assert!(s.peek(1).is_none());
    assert_eq!(s.peek(2), Some(&2));
}

#[test]
fn sync_depth_follows_the_prediction_window() {
    let mut s = Snap::default();
    s.sync_depth(None);
    assert_eq!(s.depth(), Some(60));
    s.sync_depth(Some(MaxPredictionWindow(200)));
    assert_eq!(s.depth(), Some(200));
}

/// A storage as deep as the prediction window keeps every frame within it.
#[test]
fn frames_within_the_prediction_window_are_kept() {
    let mut s = Snap::default();
    s.sync_depth(Some(MaxPredictionWindow(100)));
    for frame in 0..250_i32 {
        s.push(frame, frame as u32 * 3);
    }
    for frame in 150..250_i32 {
        assert_eq!(s.peek(frame), Some(&(frame as u32 * 3)));
    }
    assert!(s.peek(149).is_none());
}

/// Frames that are saved anew after a rollback count once.
#[test]
fn saving_frames_anew_keeps_the_window() {
    let mut s = snap_with_depth(4);
    s.set_unbounded();
    for frame in 0..10_i32 {
        s.push(frame, 1);
    }
    s.sync_depth(Some(MaxPredictionWindow(5)));
    assert_eq!(s.peek(0), Some(&1));
    for frame in 7..12_i32 {
        s.push(frame, 2);
    }
    for frame in 7..12_i32 {
        assert_eq!(s.peek(frame), Some(&2));
    }
    assert!(s.peek(6).is_none());
}

/// Pushes in any order keep the newest frames.
#[test]
fn pushes_in_any_order_keep_the_newest() {
    let mut s = snap_with_depth(2);
    for frame in [3, 9, 1, 7, 9, 8_i32] {
        s.push(frame, frame as u32);
    }
    assert_eq!(s.peek(9), Some(&9));
    assert_eq!(s.peek(8), Some(&8));
    for frame in [1, 3, 7] {
        assert!(s.peek(frame).is_none());
    }
}

#[test]
fn resource_snapshots_hold_absent_resources() {
    let mut s: GgrsResourceSnapshots<u8> = GgrsSnapshots::default();
    s.push(0, None).push(1, Some(7));
    assert_eq!(s.peek(0), Some(&None));
    assert_eq!(s.rollback(1).get(), &Some(7));
}

#[test]
fn frame_counts_are_frame_numbers() {
    assert_eq!(i32::from(RollbackFrameCount(7)), 7);
    assert_eq!(i32::from(ConfirmedFrameCount(-1)), -1);
    assert_eq!(RollbackFrameCount::default(), RollbackFrameCount(0));
    assert_eq!(ConfirmedFrameCount::default(), ConfirmedFrameCount(0));
}

// --- component snapshots ---

#[test]
fn component_snapshot_is_by_entity() {
    let a = RollbackId::new(4294967296);
    let b = RollbackId::new(4294967297);
    let mut s: GgrsComponentSnapshot<u32> = GgrsComponentSnapshot::new(vec![(a, 1), (b, 2)]);
    assert_eq!(s.get(&a), Some(&1));
    assert_eq!(s.get(&b), Some(&2));
    assert_eq!(s.get(&RollbackId::new(3)), None);
    s.insert(a, 10);
    assert_eq!(s.get(&a), Some(&10));
    let mut items: Vec<(u64, u32)> = s.iter().into_iter().map(|(id, v)| (id.0, *v)).collect();
    items.sort();
    assert_eq!(items, vec![(4294967296, 10), (4294967297, 2)]);
}

/// Of several components for one entity, the last one counts.
#[test]
fn component_snapshot_takes_the_last_of_several() {
    let a = RollbackId::new(1);
    let s: GgrsComponentSnapshot<u32> = GgrsComponentSnapshot::new(vec![(a, 1), (a, 2), (a, 3)]);
    assert_eq!(s.get(&a), Some(&3));
    assert_eq!(s.iter().len(), 1);
}

#[test]
fn component_snapshot_starts_empty() {
    let s: GgrsComponentSnapshot<u32> = GgrsComponentSnapshot::default();
    assert_eq!(s.iter().len(), 0);
    assert_eq!(s.get(&RollbackId::new(0)), None);
}

#[test]
fn component_snapshots_roll_back_by_entity() {
    let a = RollbackId::new(1);
    let mut s: GgrsComponentSnapshots<u32> = GgrsSnapshots::default();
    s.push(0, GgrsComponentSnapshot::new(vec![(a, 100)]));
    s.push(1, GgrsComponentSnapshot::new(vec![(a, 99)]));
    assert_eq!(s.rollback(0).get().get(&a), Some(&100));
}

use bevy_ggrs::schedule_systems::{
    advance_frame, handle_request, FrameCounts, Request, RequestAction,
};
use bevy_ggrs::{
    rollback_entity_observer, GgrsComponentSnapshot, GgrsComponentSnapshots, RollbackFrameCount,
    RollbackId, RollbackOrdered,
};

/// An entity that gets a marker gets a RollbackId automatically.
#[test]
fn observer_creates_rollback_id() {
    let mut ordered = RollbackOrdered::default();

    // An entity with only a marker
    let id = rollback_entity_observer(4294967299, None, &mut ordered);

    // RollbackId should have been created by the observer
    assert!(id.is_some(), "RollbackId should be created by observer");
    assert_eq!(id, Some(RollbackId(4294967299)));

    // RollbackOrdered should have one entry
    assert_eq!(ordered.len(), 1);
}

/// Entities with a RollbackId are saved and restored during rollback.
#[test]
fn observer_entity_rollback() {
    let mut ordered = RollbackOrdered::default();
    let id = rollback_entity_observer(1, None, &mut ordered).unwrap();
    let mut health: u32 = 0;
    let mut snapshots: GgrsComponentSnapshots<u32> = GgrsComponentSnapshots::default();
    let mut counts = FrameCounts {
        rollback: Some(RollbackFrameCount::default()),
        confirmed: None,
    };

    // save frame 0
    let save = handle_request(&mut counts, None, Request::SaveGameState { frame: 0 });
    assert_eq!(save, RequestAction::SaveWorld { frame: 0 });
    snapshots.push(0, GgrsComponentSnapshot::new(vec![(id, health)]));

    // frame 1: health becomes 1
    let advance = handle_request(&mut counts, None, Request::AdvanceFrame);
    assert_eq!(advance, RequestAction::AdvanceWorld);
    assert_eq!(counts.rollback, Some(RollbackFrameCount(1)));
    health += 1;
    assert_eq!(health, 1);

    // Roll back to frame 0
    let load = handle_request(&mut counts, None, Request::LoadGameState { frame: 0 });
    assert_eq!(load, RequestAction::LoadWorld);
    assert_eq!(counts.rollback, Some(RollbackFrameCount(0)));
    health = *snapshots.rollback(0).get().get(&id).unwrap();
    assert_eq!(health, 0);
}

/// Idempotent push when an entity has multiple registered component types.
#[test]
fn multiple_observers_idempotent() {
    let mut ordered = RollbackOrdered::default();

    // Two markers are added at once: neither observer sees the id of the other
    let first = rollback_entity_observer(10, None, &mut ordered);
    let second = rollback_entity_observer(10, None, &mut ordered);
    assert_eq!(first, second);

    // Should only have one entry in RollbackOrdered despite two observers
    assert_eq!(ordered.len(), 1);
}

/// An entity that was respawned by a rollback carries its id already.
#[test]
fn respawned_entity_keeps_its_id() {
    let mut ordered = RollbackOrdered::default();
    let id = rollback_entity_observer(10, None, &mut ordered);
    assert_eq!(rollback_entity_observer(11, id, &mut ordered), None);
    assert_eq!(ordered.len(), 1);
}

#[test]
fn different_entities_are_registered_apart() {
    let mut ordered = RollbackOrdered::default();
    ordered
        .push(RollbackId::new(1))
        .push(RollbackId::new(2))
        .push(RollbackId::new(1));
    assert_eq!(ordered.len(), 2);
}

#[test]
fn the_next_frame_is_one_further() {
    assert_eq!(advance_frame(RollbackFrameCount(41)), RollbackFrameCount(42));
    assert_eq!(advance_frame(RollbackFrameCount(-1)), RollbackFrameCount(0));
}

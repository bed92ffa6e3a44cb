use bevy_ggrs::snapshot::checksum::checksum_bytes;
use bevy_ggrs::{checksum_hasher, ChecksumDiagnostics, ChecksumDiagnosticsPlugin};
use std::hash::Hasher;

#[test]
fn ring_buffer_evicts_oldest() {
    let mut diag = ChecksumDiagnostics::new(3);

    for frame in 0..5 {
        diag.begin_frame(frame);
        diag.record_type_checksum("TestType", frame as u128 * 100);
        diag.commit_frame();
    }

    // Should only have frames 2, 3, 4
    assert_eq!(diag.len(), 3);
    assert!(diag.frame(0).is_none());
    assert!(diag.frame(1).is_none());
    assert!(diag.frame(2).is_some());
    assert!(diag.frame(3).is_some());
    assert!(diag.frame(4).is_some());
}

#[test]
fn resimulation_overwrites_frame() {
    let mut diag = ChecksumDiagnostics::new(10);

    // Simulate frame 5
    diag.begin_frame(5);
    diag.record_type_checksum("Pos", 0xAAAA);
    diag.commit_frame();

    // Resimulate frame 5 with different data
    diag.begin_frame(5);
    diag.record_type_checksum("Pos", 0xBBBB);
    diag.commit_frame();

    assert_eq!(diag.len(), 1);
    let detail = diag.frame(5).unwrap();
    assert_eq!(detail.type_checksums.get("Pos"), Some(&0xBBBB));
}

#[test]
fn per_entity_recording() {
    let mut diag = ChecksumDiagnostics::new(10);

    diag.begin_frame(0);
    diag.record_entity_hash("Position", 0, 0x1111);
    diag.record_entity_hash("Position", 1, 0x2222);
    diag.record_entity_hash("Velocity", 0, 0x3333);
    diag.record_type_checksum("Position", 0xAABB);
    diag.record_type_checksum("Velocity", 0xCCDD);
    diag.commit_frame();

    let detail = diag.frame(0).unwrap();
    assert_eq!(detail.entity_checksums.get(0, "Position"), Some(0x1111));
    assert_eq!(detail.entity_checksums.get(1, "Position"), Some(0x2222));
    assert_eq!(detail.entity_checksums.get(0, "Velocity"), Some(0x3333));
    assert_eq!(detail.type_checksums.get("Position"), Some(&0xAABB));
    assert_eq!(detail.type_checksums.get("Velocity"), Some(&0xCCDD));
}

#[test]
fn no_pending_is_safe() {
    let mut diag = ChecksumDiagnostics::new(10);
    // Recording without begin_frame should be a no-op, not panic
    diag.record_type_checksum("Foo", 42);
    diag.record_entity_hash("Foo", 0, 42);
    diag.commit_frame();
    assert!(diag.is_empty());
}

/// A resimulated frame counts as the latest one.
#[test]
fn resimulated_frame_is_evicted_last() {
    let mut diag = ChecksumDiagnostics::new(3);
    for frame in [0, 1, 2, 0, 3] {
        diag.begin_frame(frame);
        diag.commit_frame();
    }
    let frames: Vec<i32> = diag.iter().into_iter().map(|(frame, _)| frame).collect();
    assert_eq!(frames, vec![2, 0, 3]);
    assert!(diag.frame(1).is_none());
}

#[test]
fn history_of_length_zero_stays_empty() {
    let mut diag = ChecksumDiagnostics::new(0);
    diag.begin_frame(1);
    diag.record_type_checksum("Foo", 42);
    diag.commit_frame();
    assert!(diag.is_empty());
    assert_eq!(diag.len(), 0);
    assert!(diag.frame(1).is_none());
}

/// A frame that is begun again starts over.
#[test]
fn beginning_again_forgets_what_was_not_committed() {
    let mut diag = ChecksumDiagnostics::new(3);
    diag.begin_frame(1);
    diag.record_type_checksum("Foo", 42);
    diag.begin_frame(2);
    diag.record_type_checksum("Bar", 43);
    diag.commit_frame();
    assert!(diag.frame(1).is_none());
    let detail = diag.frame(2).unwrap();
    assert_eq!(detail.type_checksums.get("Foo"), None);
    assert_eq!(detail.type_checksums.get("Bar"), Some(&43));
}

/// Of several recordings for one key, the last one counts.
#[test]
fn recording_again_overwrites() {
    let mut diag = ChecksumDiagnostics::new(3);
    diag.begin_frame(1);
    diag.record_type_checksum("Foo", 1);
    diag.record_type_checksum("Bar", 2);
    diag.record_type_checksum("Foo", 3);
    diag.record_entity_hash("Foo", 7, 1);
    diag.record_entity_hash("Foo", 7, 2);
    diag.record_entity_hash("Foo", 8, 3);
    diag.commit_frame();
    let detail = diag.frame(1).unwrap();
    assert_eq!(detail.type_checksums.entries(), &vec![("Foo", 3), ("Bar", 2)]);
    assert_eq!(
        detail.entity_checksums.entries(),
        &vec![((7, "Foo"), 2), ((8, "Foo"), 3)]
    );
    assert_eq!(detail.entity_checksums.get(9, "Foo"), None);
    assert_eq!(detail.entity_checksums.get(7, "Bar"), None);
}

#[test]
fn default_history_is_two_seconds() {
    assert_eq!(ChecksumDiagnosticsPlugin::default().history_length, 120);
}

#[test]
fn checksums_are_portable() {
    let mut hasher = checksum_hasher();
    hasher.write(b"to be or not to be");
    assert_eq!(hasher.finish(), 1988685042348123509);
    assert_eq!(checksum_bytes(&vec![b"to be or not to be".to_vec()]), 1988685042348123509);
}

/// How the bytes are cut into pieces makes no difference.
#[test]
fn checksum_does_not_depend_on_the_pieces() {
    let pieces = vec![b"to be".to_vec(), b"".to_vec(), b" or not ".to_vec(), b"to be".to_vec()];
    assert_eq!(checksum_bytes(&pieces), seahash::hash(b"to be or not to be"));
    assert_eq!(checksum_bytes(&vec![]), seahash::hash(b""));
    let long: Vec<u8> = (0..200).map(|i| (i * 7) as u8).collect();
    for cut in 0..200 {
        let pieces = vec![long[..cut].to_vec(), long[cut..].to_vec()];
        assert_eq!(checksum_bytes(&pieces), seahash::hash(&long));
    }
}

/// The history holds the frames that were committed last, whatever their numbers.
#[test]
fn history_is_of_the_latest_commits() {
    let mut diag = ChecksumDiagnostics::new(3);
    for (i, frame) in [5, 2, 9, 5, 1, 2, 7_i32].into_iter().enumerate() {
        diag.begin_frame(frame);
        diag.record_type_checksum("T", i as u128);
        diag.commit_frame();
        assert!(diag.len() <= 3);
    }
    let held: Vec<(i32, Option<u128>)> = diag
        .iter()
        .into_iter()
        .map(|(frame, detail)| (frame, detail.type_checksums.get("T").copied()))
        .collect();
    assert_eq!(held, vec![(1, Some(4)), (2, Some(5)), (7, Some(6))]);
}

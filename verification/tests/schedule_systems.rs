use bevy_ggrs::schedule_systems::{
    confirmed_frame, handle_request, polls_remotes, run_p2p, run_spectator, run_synctest,
    saved_checksum, synctest_players, AdvanceOutcome, FixedTimestepData, FrameCounts, Request,
    RequestAction, SessionProgress, SessionStep, StepAction, UpdateAction, UpdateEvent, MAX_SPAN,
};
use bevy_ggrs::{ConfirmedFrameCount, RollbackFrameCount};
use std::time::Duration;

fn clock(accumulator: u128, run_slow: bool) -> FixedTimestepData {
    FixedTimestepData {
        fps: 60,
        accumulator,
        run_slow,
    }
}

#[test]
fn longest_span_is_that_of_a_duration() {
    assert_eq!(MAX_SPAN, Duration::MAX.as_nanos());
}

#[test]
fn accumulating_saturates() {
    let mut time = clock(5, true);
    time.accumulate(7);
    assert_eq!(time, clock(12, true));
    time.accumulate(MAX_SPAN);
    assert_eq!(time, clock(MAX_SPAN, true));
}

#[test]
fn steps_use_up_the_accumulated_time() {
    let mut time = clock(35, false);
    assert_eq!(time.take_step(16, Some(SessionStep::SyncTest)), StepAction::RunSyncTest);
    assert_eq!(time.accumulator, 19);
    assert_eq!(time.take_step(16, Some(SessionStep::Spectator)), StepAction::RunSpectator);
    assert_eq!(time.accumulator, 3);
    assert_eq!(time.take_step(16, Some(SessionStep::Spectator)), StepAction::RunSpectator);
    assert_eq!(time.accumulator, 0);
}

#[test]
fn a_peer_that_is_ahead_runs_slow() {
    let mut time = clock(100, false);
    let ahead = SessionStep::P2P { frames_ahead: 1 };
    assert_eq!(time.take_step(10, Some(ahead)), StepAction::RunP2P);
    assert!(time.run_slow);
    assert_eq!(time.take_step(10, Some(SessionStep::Spectator)), StepAction::RunSpectator);
    assert!(time.run_slow);
    let level = SessionStep::P2P { frames_ahead: 0 };
    assert_eq!(time.take_step(10, Some(level)), StepAction::RunP2P);
    assert!(!time.run_slow);
    let behind = SessionStep::P2P { frames_ahead: -3 };
    time.take_step(10, Some(behind));
    assert!(!time.run_slow);
    assert_eq!(time.accumulator, 60);
}

#[test]
fn without_a_session_everything_starts_over() {
    let mut time = clock(100, true);
    assert_eq!(
        time.take_step(10, None),
        StepAction::Reset {
            frame: RollbackFrameCount(0),
            confirmed: ConfirmedFrameCount(-1),
        }
    );
    assert_eq!(time, clock(0, false));
}

#[test]
fn only_sessions_with_remotes_are_polled() {
    assert!(polls_remotes(Some(SessionStep::P2P { frames_ahead: 0 })));
    assert!(polls_remotes(Some(SessionStep::Spectator)));
    assert!(!polls_remotes(Some(SessionStep::SyncTest)));
    assert!(!polls_remotes(None));
}

#[test]
fn all_players_of_a_sync_test_are_local() {
    assert_eq!(synctest_players(3), vec![0, 1, 2]);
    assert_eq!(synctest_players(0), vec![]);
}

#[test]
fn sync_test_update() {
    for running in [false, true] {
        assert_eq!(run_synctest(UpdateEvent::Started { running }), UpdateAction::ReadInputs);
    }
    assert_eq!(run_synctest(UpdateEvent::InputsRegistered), UpdateAction::AdvanceSession);
    assert_eq!(
        run_synctest(UpdateEvent::Advanced(AdvanceOutcome::Requests)),
        UpdateAction::HandleRequests
    );
    for outcome in [AdvanceOutcome::PredictionThreshold, AdvanceOutcome::Failed] {
        assert_eq!(run_synctest(UpdateEvent::Advanced(outcome)), UpdateAction::ReportError);
    }
}

#[test]
fn spectator_update() {
    let cases = [
        (UpdateEvent::Started { running: false }, UpdateAction::Finish),
        (UpdateEvent::Started { running: true }, UpdateAction::AdvanceSession),
        (UpdateEvent::Advanced(AdvanceOutcome::Requests), UpdateAction::HandleRequests),
        (
            UpdateEvent::Advanced(AdvanceOutcome::PredictionThreshold),
            UpdateAction::ReportWaiting,
        ),
        (UpdateEvent::Advanced(AdvanceOutcome::Failed), UpdateAction::ReportError),
    ];
    for (event, action) in cases {
        assert_eq!(run_spectator(event), action);
    }
}

#[test]
fn p2p_update() {
    let cases = [
        (UpdateEvent::Started { running: false }, UpdateAction::Finish),
        (UpdateEvent::Started { running: true }, UpdateAction::ReadInputs),
        (UpdateEvent::InputsRegistered, UpdateAction::AdvanceSession),
        (UpdateEvent::Advanced(AdvanceOutcome::Requests), UpdateAction::HandleRequests),
        (
            UpdateEvent::Advanced(AdvanceOutcome::PredictionThreshold),
            UpdateAction::ReportWaiting,
        ),
        (UpdateEvent::Advanced(AdvanceOutcome::Failed), UpdateAction::ReportError),
    ];
    for (event, action) in cases {
        assert_eq!(run_p2p(event), action);
    }
}

#[test]
fn confirmed_frames() {
    let p2p = SessionProgress::P2P { confirmed_frame: 12 };
    assert_eq!(confirmed_frame(Some(p2p), 20), Some(12));
    assert_eq!(confirmed_frame(Some(SessionProgress::Spectator), 20), Some(20));
    assert_eq!(confirmed_frame(None, 20), None);
    let sync_test = SessionProgress::SyncTest { max_prediction: 8 };
    assert_eq!(confirmed_frame(Some(sync_test), 3), Some(-5));
    assert_eq!(confirmed_frame(Some(sync_test), 7), Some(-1));
    assert_eq!(confirmed_frame(Some(sync_test), 8), None);
    assert_eq!(confirmed_frame(Some(sync_test), 20), None);
}

/// A rollback by three frames: load, then save and simulate up to where it was.
#[test]
fn rollback_resimulates_up_to_the_current_frame() {
    let mut counts = FrameCounts {
        rollback: Some(RollbackFrameCount(10)),
        confirmed: Some(ConfirmedFrameCount(4)),
    };
    let session = Some(SessionProgress::P2P { confirmed_frame: 6 });
    let requests = [
        (Request::LoadGameState { frame: 7 }, RequestAction::LoadWorld, 7),
        (Request::AdvanceFrame, RequestAction::AdvanceWorld, 8),
        (Request::SaveGameState { frame: 8 }, RequestAction::SaveWorld { frame: 8 }, 8),
        (Request::AdvanceFrame, RequestAction::AdvanceWorld, 9),
        (Request::SaveGameState { frame: 9 }, RequestAction::SaveWorld { frame: 9 }, 9),
        (Request::AdvanceFrame, RequestAction::AdvanceWorld, 10),
    ];
    for (request, action, frame) in requests {
        assert_eq!(handle_request(&mut counts, session, request), action);
        assert_eq!(counts.rollback, Some(RollbackFrameCount(frame)));
        assert_eq!(counts.confirmed, Some(ConfirmedFrameCount(6)));
    }
}

/// The confirmed frame is that of before the request.
#[test]
fn spectator_confirms_the_frame_before_the_request() {
    let mut counts = FrameCounts {
        rollback: Some(RollbackFrameCount(10)),
        confirmed: None,
    };
    let spectator = Some(SessionProgress::Spectator);
    handle_request(&mut counts, spectator, Request::AdvanceFrame);
    assert_eq!(counts.confirmed, Some(ConfirmedFrameCount(10)));
    assert_eq!(counts.rollback, Some(RollbackFrameCount(11)));
}

/// A world without a frame count can still be saved.
#[test]
fn saving_needs_no_frame_count() {
    let mut counts = FrameCounts {
        rollback: None,
        confirmed: Some(ConfirmedFrameCount(3)),
    };
    let action = handle_request(&mut counts, None, Request::SaveGameState { frame: 5 });
    assert_eq!(action, RequestAction::SaveWorld { frame: 5 });
    assert_eq!(
        counts,
        FrameCounts {
            rollback: None,
            confirmed: Some(ConfirmedFrameCount(3)),
        }
    );
}

#[test]
fn checksum_is_widened() {
    assert_eq!(saved_checksum(None), None);
    assert_eq!(saved_checksum(Some(u64::MAX)), Some(18446744073709551615));
}

/// It does not matter how requests are split into lists.
#[test]
fn request_lists_join() {
    let requests = [
        (Some(SessionProgress::SyncTest { max_prediction: 8 }), Request::SaveGameState { frame: 3 }),
        (Some(SessionProgress::P2P { confirmed_frame: 1 }), Request::AdvanceFrame),
        (None, Request::LoadGameState { frame: 2 }),
        (Some(SessionProgress::Spectator), Request::AdvanceFrame),
    ];
    let start = FrameCounts {
        rollback: Some(RollbackFrameCount(3)),
        confirmed: None,
    };
    let handle = |counts: &mut FrameCounts, list: &[(Option<SessionProgress>, Request)]| {
        list.iter()
            .map(|(session, request)| handle_request(counts, *session, *request))
            .collect::<Vec<RequestAction>>()
    };
    let mut joined = start;
    let actions = handle(&mut joined, &requests);
    assert_eq!(joined.rollback, Some(RollbackFrameCount(3)));
    assert_eq!(joined.confirmed, Some(ConfirmedFrameCount(2)));
    for cut in 0..=requests.len() {
        let mut counts = start;
        let mut in_turn = handle(&mut counts, &requests[..cut]);
        in_turn.extend(handle(&mut counts, &requests[cut..]));
        assert_eq!(counts, joined);
        assert_eq!(in_turn, actions);
    }
}

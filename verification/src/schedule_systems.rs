//! The decisions of the rollback loop.
//!
//! A session does network work and the world runs its schedules; what comes next, and what becomes
//! of the frame counts and the clock, is decided here. The driver of the loop performs the action
//! that a function returns and hands back what came of it.

use crate::frames::{ConfirmedFrameCount, RollbackFrameCount};
use vstd::prelude::*;

verus! {

/// Nanoseconds in the longest time span that a clock can hold: 2^64 - 1 seconds and 999,999,999
/// nanoseconds.
pub const MAX_SPAN: u128 = 18_446_744_073_709_551_615_999_999_999;

/// The clock of the rollback loop.
#[derive(Debug, Clone, Copy, PartialEq, Eq, Structural)]
pub struct FixedTimestepData {
    /// Frames per second of the simulation.
    pub fps: usize,
    /// Time that has passed and was not simulated yet, in nanoseconds.
    pub accumulator: u128,
    /// Whether this peer is ahead of the others and should run slow.
    pub run_slow: bool,
}

/// What the clock needs to know of a started session.
#[derive(Debug, Clone, Copy, PartialEq, Eq, Structural)]
pub enum SessionStep {
    /// A session that compares resimulated frames.
    SyncTest,
    /// A session with remote players, of whom this peer is `frames_ahead` frames ahead.
    P2P { frames_ahead: i32 },
    /// A session that only watches.
    Spectator,
}

/// What one step of the clock asks for.
#[derive(Debug, Clone, Copy, PartialEq, Eq, Structural)]
pub enum StepAction {
    /// Update the sync test session.
    RunSyncTest,
    /// Update the session with remote players.
    RunP2P,
    /// Update the spectator session.
    RunSpectator,
    /// No session has been started: forget the local players and put the frame counts back to
    /// these.
    Reset { frame: RollbackFrameCount, confirmed: ConfirmedFrameCount },
}

/// The time that is left when a step is taken off; a step takes no more than there is.
pub open spec fn time_left(accumulated: int, step: int) -> int {
    if step <= accumulated {
        accumulated - step
    } else {
        0
    }
}

/// The time that is left after a number of steps.
pub open spec fn time_left_after(accumulated: int, step: int, steps: nat) -> int
    decreases steps,
{
    if steps == 0 {
        accumulated
    } else {
        time_left(time_left_after(accumulated, step, (steps - 1) as nat), step)
    }
}

impl FixedTimestepData {
    /// The accumulated time is one that a clock can hold.
    pub open spec fn valid(&self) -> bool {
        self.accumulator <= MAX_SPAN
    }

    /// Adds the time that has passed since the last update, up to the longest span.
    pub fn accumulate(&mut self, delta: u128)
        requires
            old(self).valid(),
            delta <= MAX_SPAN,
        ensures
            final(self).valid(),
            final(self).accumulator == (if old(self).accumulator + delta <= MAX_SPAN {
                old(self).accumulator + delta
            } else {
                MAX_SPAN as int
            }),
            final(self).fps == old(self).fps,
            final(self).run_slow == old(self).run_slow,
    {
        let sum: u128 = self.accumulator + delta;
        self.accumulator = if sum <= MAX_SPAN {
            sum
        } else {
            MAX_SPAN
        };
    }

    /// Takes one step of the given length off the accumulated time and says what the step is. A
    /// session that is ahead makes the clock run slow; without a session the clock starts over.
    pub fn take_step(&mut self, step: u128, session: Option<SessionStep>) -> (action: StepAction)
        requires
            old(self).valid(),
        ensures
            final(self).valid(),
            final(self).fps == old(self).fps,
            session is Some ==> final(self).accumulator == time_left(
                old(self).accumulator as int,
                step as int,
            ),
            match session {
                Some(SessionStep::SyncTest) => action is RunSyncTest && final(self).run_slow
                    == old(self).run_slow,
                Some(SessionStep::P2P { frames_ahead }) => action is RunP2P
                    && final(self).run_slow == (frames_ahead > 0),
                Some(SessionStep::Spectator) => action is RunSpectator && final(self).run_slow
                    == old(self).run_slow,
                None => {
                    &&& action matches StepAction::Reset { frame, confirmed } && frame.0 == 0
                        && confirmed.0 == -1
                    &&& final(self).accumulator == 0
                    &&& !final(self).run_slow
                },
            },
    {
        self.accumulator = if step <= self.accumulator {
            self.accumulator - step
        } else {
            0
        };
        match session {
            Some(SessionStep::SyncTest) => StepAction::RunSyncTest,
            Some(SessionStep::P2P { frames_ahead }) => {
                // if we are ahead, run slow
                self.run_slow = frames_ahead > 0;
                StepAction::RunP2P
            },
            Some(SessionStep::Spectator) => StepAction::RunSpectator,
            None => {
                self.accumulator = 0;
                self.run_slow = false;
                StepAction::Reset {
                    frame: RollbackFrameCount(0),
                    confirmed: ConfirmedFrameCount(-1),
                }
            },
        }
    }
}

/// Whether a session has remote peers to poll, which is done at every update, due or not.
pub fn polls_remotes(session: Option<SessionStep>) -> (polls: bool)
    ensures
        polls <==> session is Some && session != Some(SessionStep::SyncTest),
{
    match session {
        Some(SessionStep::P2P { .. }) => true,
        Some(SessionStep::Spectator) => true,
        _ => false,
    }
}

/// How an attempt to advance a session ended.
#[derive(Debug, Clone, Copy, PartialEq, Eq, Structural)]
pub enum AdvanceOutcome {
    /// The session has requests.
    Requests,
    /// The session waits for input of others.
    PredictionThreshold,
    /// The session failed in another way.
    Failed,
}

/// What has happened in the update of a session.
#[derive(Debug, Clone, Copy, PartialEq, Eq, Structural)]
pub enum UpdateEvent {
    /// The update has begun; `running` tells whether the session is synchronized.
    Started { running: bool },
    /// The inputs of the local players were read and registered in the session.
    InputsRegistered,
    /// The session was asked to advance.
    Advanced(AdvanceOutcome),
}

/// What is to be done next in the update of a session.
#[derive(Debug, Clone, Copy, PartialEq, Eq, Structural)]
pub enum UpdateAction {
    /// Read the inputs of the local players and register them in the session.
    ReadInputs,
    /// Ask the session to advance.
    AdvanceSession,
    /// Handle the requests of the session, which ends the update.
    HandleRequests,
    /// Tell that the session waits for others, which ends the update.
    ReportWaiting,
    /// Warn of the error, which ends the update.
    ReportError,
    /// Nothing is left to be done.
    Finish,
}

/// The players of a sync test session, who are all local.
pub fn synctest_players(num_players: usize) -> (players: Vec<usize>)
    ensures
        players@ == Seq::new(num_players as nat, |i: int| i as usize),
{
    let mut players: Vec<usize> = Vec::new();
    let mut player: usize = 0;
    while player < num_players
        invariant
            player <= num_players,
            players@ == Seq::new(player as nat, |i: int| i as usize),
        decreases num_players - player,
    {
        players.push(player);
        player += 1;
    }
    players
}

/// The update of a sync test session: it is always ready, and it waits for nobody.
pub fn run_synctest(event: UpdateEvent) -> (action: UpdateAction)
    ensures
        action is ReadInputs <==> event is Started,
        action is AdvanceSession <==> event is InputsRegistered,
        action is HandleRequests <==> event == UpdateEvent::Advanced(AdvanceOutcome::Requests),
        action is ReportError <==> event is Advanced && event != UpdateEvent::Advanced(
            AdvanceOutcome::Requests,
        ),
{
    match event {
        UpdateEvent::Started { .. } => UpdateAction::ReadInputs,
        UpdateEvent::InputsRegistered => UpdateAction::AdvanceSession,
        UpdateEvent::Advanced(AdvanceOutcome::Requests) => UpdateAction::HandleRequests,
        UpdateEvent::Advanced(_) => UpdateAction::ReportError,
    }
}

/// The update of a spectator session: it has no local players, so it goes straight on.
pub fn run_spectator(event: UpdateEvent) -> (action: UpdateAction)
    requires
        event !is InputsRegistered,
    ensures
        action is AdvanceSession <==> event == (UpdateEvent::Started { running: true }),
        action is Finish <==> event == (UpdateEvent::Started { running: false }),
        action is HandleRequests <==> event == UpdateEvent::Advanced(AdvanceOutcome::Requests),
        action is ReportWaiting <==> event == UpdateEvent::Advanced(
            AdvanceOutcome::PredictionThreshold,
        ),
        action is ReportError <==> event == UpdateEvent::Advanced(AdvanceOutcome::Failed),
{
    match event {
        UpdateEvent::Started { running } => if running {
            UpdateAction::AdvanceSession
        } else {
            UpdateAction::Finish
        },
        UpdateEvent::InputsRegistered => UpdateAction::Finish,
        UpdateEvent::Advanced(AdvanceOutcome::Requests) => UpdateAction::HandleRequests,
        UpdateEvent::Advanced(AdvanceOutcome::PredictionThreshold) => UpdateAction::ReportWaiting,
        UpdateEvent::Advanced(AdvanceOutcome::Failed) => UpdateAction::ReportError,
    }
}

/// The update of a session with remote players: once it runs, it takes the local inputs first.
pub fn run_p2p(event: UpdateEvent) -> (action: UpdateAction)
    ensures
        action is ReadInputs <==> event == (UpdateEvent::Started { running: true }),
        action is Finish <==> event == (UpdateEvent::Started { running: false }),
        action is AdvanceSession <==> event is InputsRegistered,
        action is HandleRequests <==> event == UpdateEvent::Advanced(AdvanceOutcome::Requests),
        action is ReportWaiting <==> event == UpdateEvent::Advanced(
            AdvanceOutcome::PredictionThreshold,
        ),
        action is ReportError <==> event == UpdateEvent::Advanced(AdvanceOutcome::Failed),
{
    match event {
        UpdateEvent::Started { running } => if running {
            UpdateAction::ReadInputs
        } else {
            UpdateAction::Finish
        },
        UpdateEvent::InputsRegistered => UpdateAction::AdvanceSession,
        UpdateEvent::Advanced(AdvanceOutcome::Requests) => UpdateAction::HandleRequests,
        UpdateEvent::Advanced(AdvanceOutcome::PredictionThreshold) => UpdateAction::ReportWaiting,
        UpdateEvent::Advanced(AdvanceOutcome::Failed) => UpdateAction::ReportError,
    }
}

/// What a session tells about confirmed frames.
#[derive(Debug, Clone, Copy, PartialEq, Eq, Structural)]
pub enum SessionProgress {
    /// A session with remote players knows which frame all of them have confirmed.
    P2P { confirmed_frame: i32 },
    /// A sync test session goes back as far as its prediction window.
    SyncTest { max_prediction: usize },
    /// Whatever a spectator simulates is confirmed.
    Spectator,
}

/// A sync test session's reach back from the current frame.
pub open spec fn synctest_reach(current_frame: i32, max_prediction: usize) -> int {
    current_frame - (max_prediction as i32)
}

/// The confirmed frame can be told: it is a frame number.
pub open spec fn progress_in_range(session: Option<SessionProgress>, current_frame: i32) -> bool {
    session matches Some(SessionProgress::SyncTest { max_prediction }) ==> i32::MIN
        <= synctest_reach(current_frame, max_prediction) <= i32::MAX
}

/// The frame that a session has confirmed. A sync test session tells one only while it reaches back
/// before the first frame.
pub open spec fn session_confirmed(
    session: Option<SessionProgress>,
    current_frame: i32,
) -> Option<i32> {
    match session {
        Some(SessionProgress::P2P { confirmed_frame }) => Some(confirmed_frame),
        Some(SessionProgress::SyncTest { max_prediction }) => {
            let reach = synctest_reach(current_frame, max_prediction);
            if reach < 0 {
                Some(reach as i32)
            } else {
                None
            }
        },
        Some(SessionProgress::Spectator) => Some(current_frame),
        None => None,
    }
}

/// Works out which frame a session has confirmed, if it tells one.
pub fn confirmed_frame(session: Option<SessionProgress>, current_frame: i32) -> (confirmed: Option<
    i32,
>)
    requires
        progress_in_range(session, current_frame),
    ensures
        confirmed == session_confirmed(session, current_frame),
        session is None ==> confirmed is None,
        session is Some && session->0 is P2P ==> confirmed == Some(
            session->0->P2P_confirmed_frame,
        ),
        session is Some && session->0 is Spectator ==> confirmed == Some(current_frame),
        session is Some && session->0 is SyncTest && confirmed is Some ==> confirmed->0 < 0
            && confirmed->0 + (session->0->max_prediction as i32) == current_frame,
        session is Some && session->0 is SyncTest && confirmed is None ==> (
        session->0->max_prediction as i32) <= current_frame,
{
    match session {
        Some(SessionProgress::P2P { confirmed_frame }) => Some(confirmed_frame),
        Some(SessionProgress::SyncTest { max_prediction }) => {
            let window: i32 = #[verifier::truncate]
            (max_prediction as i32);
            let reach: i32 = current_frame - window;
            if reach < 0 {
                Some(reach)
            } else {
                None
            }
        },
        Some(SessionProgress::Spectator) => Some(current_frame),
        None => None,
    }
}

/// The frame counts of a world, as far as it has them.
#[derive(Debug, Clone, Copy, PartialEq, Eq, Structural)]
pub struct FrameCounts {
    pub rollback: Option<RollbackFrameCount>,
    pub confirmed: Option<ConfirmedFrameCount>,
}

impl FrameCounts {
    /// The frame that the simulation is in; the first one if the world has no count.
    pub open spec fn current(self) -> i32 {
        match self.rollback {
            Some(count) => count.0,
            None => 0,
        }
    }
}

/// A request of a session.
#[derive(Debug, Clone, Copy, PartialEq, Eq, Structural)]
pub enum Request {
    /// Save the state of the world for a frame.
    SaveGameState { frame: i32 },
    /// Load the state of the world for a frame.
    LoadGameState { frame: i32 },
    /// Simulate one frame.
    AdvanceFrame,
}

/// What the world has to do for a request.
#[derive(Debug, Clone, Copy, PartialEq, Eq, Structural)]
pub enum RequestAction {
    /// Run the saving schedule and hand the checksum to the session for this frame.
    SaveWorld { frame: i32 },
    /// Run the loading schedule.
    LoadWorld,
    /// Run the simulation schedule.
    AdvanceWorld,
}

/// The frame that the simulation is in after a request.
pub open spec fn frame_after(frame: int, request: Request) -> int {
    match request {
        Request::SaveGameState { .. } => frame,
        Request::LoadGameState { frame: loaded } => loaded as int,
        Request::AdvanceFrame => frame + 1,
    }
}

/// The frame that the simulation is in after some requests.
pub open spec fn frame_after_all(frame: int, requests: Seq<Request>) -> int
    decreases requests.len(),
{
    if requests.len() == 0 {
        frame
    } else {
        frame_after(frame_after_all(frame, requests.drop_last()), requests.last())
    }
}

/// The frame counts after a request, when the session tells what it tells at that time.
pub open spec fn counts_after(
    counts: FrameCounts,
    session: Option<SessionProgress>,
    request: Request,
) -> FrameCounts {
    FrameCounts {
        rollback: match request {
            Request::SaveGameState { .. } => counts.rollback,
            _ => Some(RollbackFrameCount(frame_after(counts.current() as int, request) as i32)),
        },
        confirmed: match session_confirmed(session, counts.current()) {
            Some(frame) => Some(ConfirmedFrameCount(frame)),
            None => counts.confirmed,
        },
    }
}

/// What the world has to do for a request.
pub open spec fn action_for(request: Request) -> RequestAction {
    match request {
        Request::SaveGameState { frame } => RequestAction::SaveWorld { frame },
        Request::LoadGameState { .. } => RequestAction::LoadWorld,
        Request::AdvanceFrame => RequestAction::AdvanceWorld,
    }
}

/// A request can be handled: the confirmed frame can be told, a world that is loaded or simulated has
/// a count of its frame, and there is a frame after one that is simulated.
pub open spec fn can_handle(
    counts: FrameCounts,
    session: Option<SessionProgress>,
    request: Request,
) -> bool {
    &&& progress_in_range(session, counts.current())
    &&& request !is SaveGameState ==> counts.rollback is Some
    &&& request is AdvanceFrame ==> counts.current() < i32::MAX
}

/// The frame counts after some requests, each with what the session tells at its time.
pub open spec fn counts_after_all(
    counts: FrameCounts,
    requests: Seq<(Option<SessionProgress>, Request)>,
) -> FrameCounts
    decreases requests.len(),
{
    if requests.len() == 0 {
        counts
    } else {
        let (session, request) = requests.last();
        counts_after(counts_after_all(counts, requests.drop_last()), session, request)
    }
}

/// Some requests can be handled one after another.
pub open spec fn can_handle_all(
    counts: FrameCounts,
    requests: Seq<(Option<SessionProgress>, Request)>,
) -> bool
    decreases requests.len(),
{
    requests.len() > 0 ==> {
        let (session, request) = requests.last();
        &&& can_handle_all(counts, requests.drop_last())
        &&& can_handle(counts_after_all(counts, requests.drop_last()), session, request)
    }
}

/// What the world has to do for some requests, in turn.
pub open spec fn actions_for_all(requests: Seq<(Option<SessionProgress>, Request)>) -> Seq<
    RequestAction,
> {
    requests.map_values(|request: (Option<SessionProgress>, Request)| action_for(request.1))
}

/// The requests themselves.
pub open spec fn requests_of(requests: Seq<(Option<SessionProgress>, Request)>) -> Seq<Request> {
    requests.map_values(|request: (Option<SessionProgress>, Request)| request.1)
}

/// How many of the requests simulate a frame.
pub open spec fn count_advances(requests: Seq<Request>) -> nat {
    requests.filter(|request: Request| request is AdvanceFrame).len()
}

/// The count of the next frame.
pub fn advance_frame(count: RollbackFrameCount) -> (next: RollbackFrameCount)
    requires
        count.0 < i32::MAX,
    ensures
        next.0 == count.0 + 1,
{
    RollbackFrameCount(count.0 + 1)
}

/// Brings the frame counts up to date for one request, and says what the world has to do for it.
///
/// The confirmed frame is the session's at the time of the request, before the request moves the
/// simulation to another frame.
pub fn handle_request(
    counts: &mut FrameCounts,
    session: Option<SessionProgress>,
    request: Request,
) -> (action: RequestAction)
    requires
        can_handle(*old(counts), session, request),
    ensures
        *final(counts) == counts_after(*old(counts), session, request),
        final(counts).current() == frame_after(old(counts).current() as int, request),
        action == action_for(request),
        action is SaveWorld <==> request is SaveGameState,
        action is LoadWorld <==> request is LoadGameState,
        action is AdvanceWorld <==> request is AdvanceFrame,
        request is SaveGameState ==> action->frame == request->SaveGameState_frame
            && final(counts).rollback == old(counts).rollback,
        request is LoadGameState ==> final(counts).rollback == Some(
            RollbackFrameCount(request->LoadGameState_frame),
        ),
        request is AdvanceFrame ==> final(counts).rollback is Some && (final(counts).rollback->0).0
            == (old(counts).rollback->0).0 + 1,
{
    let current_frame: i32 = match counts.rollback {
        Some(count) => count.0,
        None => 0,
    };
    if let Some(frame) = confirmed_frame(session, current_frame) {
        counts.confirmed = Some(ConfirmedFrameCount(frame));
    }
    match request {
        Request::SaveGameState { frame } => RequestAction::SaveWorld { frame },
        Request::LoadGameState { frame } => {
            counts.rollback = Some(RollbackFrameCount(frame));
            RequestAction::LoadWorld
        },
        Request::AdvanceFrame => {
            counts.rollback = Some(advance_frame(RollbackFrameCount(current_frame)));
            RequestAction::AdvanceWorld
        },
    }
}

/// The checksum that a save hands to the session: that of the world, if it has one.
pub fn saved_checksum(checksum: Option<u64>) -> (saved: Option<u128>)
    ensures
        saved is Some <==> checksum is Some,
        saved matches Some(value) ==> value == checksum->0,
{
    match checksum {
        Some(checksum) => Some(checksum as u128),
        None => None,
    }
}

/// Steps use up the accumulated time evenly: together they take off their sum, and no more than
/// there was.
pub proof fn law_steps_use_up_time(accumulated: int, step: int, steps: nat)
    requires
        accumulated >= 0,
        step >= 0,
    ensures
        time_left_after(accumulated, step, steps) == (if step * steps <= accumulated {
            accumulated - step * steps
        } else {
            0
        }),
    decreases steps,
{
    if steps > 0 {
        law_steps_use_up_time(accumulated, step, (steps - 1) as nat);
        assert(step * steps == step * (steps - 1) + step) by (nonlinear_arith);
        assert(step * (steps - 1) >= 0) by (nonlinear_arith)
            requires
                step >= 0,
                steps >= 1,
        ;
    } else {
        assert(step * steps == 0) by (nonlinear_arith)
            requires
                steps == 0,
        ;
    }
}

/// Simulating on from a frame counts the frames: without a load among them, requests move the
/// simulation by one frame for each advance.
pub proof fn law_advances_count_frames(frame: int, requests: Seq<Request>)
    requires
        forall|i: int| 0 <= i < requests.len() ==> #[trigger] requests[i] !is LoadGameState,
    ensures
        frame_after_all(frame, requests) == frame + count_advances(requests),
    decreases requests.len(),
{
    reveal(Seq::filter);
    if requests.len() > 0 {
        law_advances_count_frames(frame, requests.drop_last());
    }
}

/// A rollback decides by itself where the simulation ends up: a load and then some requests without
/// a load lead to the loaded frame and one further for each advance, whatever the frame was before.
pub proof fn law_rollback_resimulates(frame: int, loaded: i32, requests: Seq<Request>)
    requires
        forall|i: int| 0 <= i < requests.len() ==> #[trigger] requests[i] !is LoadGameState,
    ensures
        frame_after_all(frame, seq![Request::LoadGameState { frame: loaded }] + requests) == loaded
            + count_advances(requests),
    decreases requests.len(),
{
    reveal(Seq::filter);
    let load = seq![Request::LoadGameState { frame: loaded }];
    if requests.len() > 0 {
        assert((load + requests).drop_last() =~= load + requests.drop_last());
        law_rollback_resimulates(frame, loaded, requests.drop_last());
    }
}

/// Handling two lists of requests in turn comes to the same as handling them joined: the frame, both
/// frame counts and what the world has to do are the same, and the one can be done exactly if the
/// other can. No requests change nothing.
pub proof fn law_request_lists_join(
    counts: FrameCounts,
    first: Seq<(Option<SessionProgress>, Request)>,
    second: Seq<(Option<SessionProgress>, Request)>,
)
    ensures
        counts_after_all(counts, first + second) == counts_after_all(
            counts_after_all(counts, first),
            second,
        ),
        actions_for_all(first + second) == actions_for_all(first) + actions_for_all(second),
        can_handle_all(counts, first + second) <==> can_handle_all(counts, first)
            && can_handle_all(counts_after_all(counts, first), second),
        counts_after_all(counts, seq![]) == counts,
        actions_for_all(seq![]) == Seq::<RequestAction>::empty(),
        can_handle_all(counts, seq![]),
    decreases second.len(),
{
    if second.len() > 0 {
        assert((first + second).drop_last() =~= first + second.drop_last());
        law_request_lists_join(counts, first, second.drop_last());
    } else {
        assert(first + second =~= first);
    }
    assert(actions_for_all(first + second) =~= actions_for_all(first) + actions_for_all(second));
}

/// The frame after two lists of requests in turn is that after the lists joined.
pub proof fn law_frames_join(frame: int, first: Seq<Request>, second: Seq<Request>)
    ensures
        frame_after_all(frame, first + second) == frame_after_all(
            frame_after_all(frame, first),
            second,
        ),
        frame_after_all(frame, seq![]) == frame,
    decreases second.len(),
{
    if second.len() > 0 {
        assert((first + second).drop_last() =~= first + second.drop_last());
        law_frames_join(frame, first, second.drop_last());
    } else {
        assert(first + second =~= first);
    }
}

/// As long as requests can be handled, the frame count goes where the requests lead.
pub proof fn law_count_follows_requests(
    counts: FrameCounts,
    requests: Seq<(Option<SessionProgress>, Request)>,
)
    requires
        can_handle_all(counts, requests),
    ensures
        counts_after_all(counts, requests).current() == frame_after_all(
            counts.current() as int,
            requests_of(requests),
        ),
    decreases requests.len(),
{
    if requests.len() > 0 {
        law_count_follows_requests(counts, requests.drop_last());
        assert(requests_of(requests).drop_last() =~= requests_of(requests.drop_last()));
    }
}

/// One step takes its length off the accumulated time, and never more than there is.
pub proof fn law_step_takes_its_length(accumulated: int, step: int)
    requires
        accumulated >= 0,
        step >= 0,
    ensures
        0 <= time_left(accumulated, step) <= accumulated,
        step <= accumulated ==> time_left(accumulated, step) + step == accumulated,
        accumulated < step ==> time_left(accumulated, step) == 0,
{
}

/// A session with remote players confirms the frame that it reports, whatever frame the simulation is
/// in. A spectator confirms the frame that it is in, and without a session nothing is confirmed.
pub proof fn law_sessions_tell_what_they_confirm(reported: i32, current_frame: i32)
    ensures
        session_confirmed(
            Some(SessionProgress::P2P { confirmed_frame: reported }),
            current_frame,
        ) == Some(reported),
        session_confirmed(Some(SessionProgress::Spectator), current_frame) == Some(current_frame),
        session_confirmed(None, current_frame) is None,
{
}

/// A sync test session tells a confirmed frame exactly while the window reaches back before the first
/// frame, and then the window lies between the told frame and the current one.
pub proof fn law_sync_test_tells_its_reach(max_prediction: usize, current_frame: i32)
    requires
        max_prediction <= i32::MAX,
        i32::MIN <= current_frame - max_prediction,
    ensures
        ({
            let told = session_confirmed(
                Some(SessionProgress::SyncTest { max_prediction }),
                current_frame,
            );
            &&& told is Some <==> current_frame < max_prediction
            &&& told is Some ==> told->0 + max_prediction == current_frame
        }),
{
}

/// The confirmed frame can always be told, but for a sync test session whose window reaches back
/// beyond the least frame number.
pub proof fn law_confirmed_frame_can_be_told(
    session: Option<SessionProgress>,
    current_frame: i32,
)
    ensures
        !(session is Some && session->0 is SyncTest) ==> progress_in_range(session, current_frame),
        session is Some && session->0 is SyncTest && session->0->max_prediction <= i32::MAX ==> (
        progress_in_range(session, current_frame) <==> i32::MIN <= current_frame
            - session->0->max_prediction),
{
}

/// The frame of a world is the one that it counts, and the first one where it counts none.
pub proof fn law_frame_is_counted(counts: FrameCounts)
    ensures
        counts.rollback is Some ==> counts.current() == (counts.rollback->0).0,
        counts.rollback is None ==> counts.current() == 0,
{
}

/// What the world has to do depends on the kind of the request alone: it is loaded for a load, whatever
/// the frame, simulated for an advance, and saved for a save, under the frame of the request.
pub proof fn law_action_is_of_the_kind_requested(request: Request)
    ensures
        action_for(request) is LoadWorld <==> request is LoadGameState,
        action_for(request) is AdvanceWorld <==> request is AdvanceFrame,
        action_for(request) is SaveWorld <==> request is SaveGameState,
        request is SaveGameState ==> action_for(request)->frame == request->SaveGameState_frame,
{
}

/// What a request does to the counts. A save leaves the frame, a load goes to the frame of the request,
/// and an advance goes one further. The confirmed frame becomes the one that the session tells at that
/// time, of the frame before the request, and stays if it tells none.
pub proof fn law_request_moves_counts(
    counts: FrameCounts,
    session: Option<SessionProgress>,
    request: Request,
)
    requires
        can_handle(counts, session, request),
    ensures
        ({
            let after = counts_after(counts, session, request);
            let told = session_confirmed(session, counts.current());
            &&& request is SaveGameState ==> after.rollback == counts.rollback
            &&& request is LoadGameState ==> after.rollback is Some && (after.rollback->0).0
                == request->LoadGameState_frame
            &&& request is AdvanceFrame ==> after.rollback is Some && counts.rollback is Some
                && (after.rollback->0).0 == (counts.rollback->0).0 + 1
            &&& told is Some ==> after.confirmed is Some && (after.confirmed->0).0 == told->0
            &&& told is None ==> after.confirmed == counts.confirmed
        }),
{
}

/// A save can be handled whenever the confirmed frame can be told. A load needs a count of the frame
/// besides, and an advance a frame that is not the last there is.
pub proof fn law_what_can_be_handled(
    counts: FrameCounts,
    session: Option<SessionProgress>,
    request: Request,
)
    requires
        progress_in_range(session, counts.current()),
    ensures
        request is SaveGameState ==> can_handle(counts, session, request),
        request is LoadGameState ==> (can_handle(counts, session, request)
            <==> counts.rollback is Some),
        request is AdvanceFrame ==> (can_handle(counts, session, request) <==> counts.rollback is Some
            && (counts.rollback->0).0 < i32::MAX),
{
}

/// Requests are counted as what they are: an advance for one, and any other for none.
pub proof fn law_advances_are_counted(requests: Seq<Request>, request: Request)
    ensures
        count_advances(seq![]) == 0,
        count_advances(requests.push(request)) == count_advances(requests) + (
        if request is AdvanceFrame {
            1nat
        } else {
            0nat
        }),
{
    reveal(Seq::filter);
    assert(requests.push(request).drop_last() =~= requests);
}

} // verus!

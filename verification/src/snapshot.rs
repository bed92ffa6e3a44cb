//! Snapshot storage.
//!
//! [`GgrsSnapshots`] keeps one snapshot per frame, up to a depth, and hands back the one that a
//! rollback selects. [`GgrsComponentSnapshot`](component::GgrsComponentSnapshot) is a snapshot of
//! one component type, by entity.

use crate::frames::{ConfirmedFrameCount, MaxPredictionWindow};
use crate::platform_map::MAX_RESERVED;
use crate::DEFAULT_FPS;
use frame_store::FrameStore;
use std::marker::PhantomData;
use vstd::prelude::*;
use vstd::set_lib::{lemma_len_subset, lemma_subset_equality};

pub mod by_entity;
pub mod by_name;
pub mod checksum;
pub mod checksum_diagnostics;
pub mod component;
mod frame_store;
pub mod rollback_entity;

verus! {

/// The frames of `all` after `frame`.
pub open spec fn newer_frames<As>(all: Map<i32, As>, frame: i32) -> Set<i32> {
    all.dom().filter(|other: i32| other > frame)
}

/// The `depth` newest snapshots of `all`: those with fewer than `depth` frames after them.
pub open spec fn newest<As>(all: Map<i32, As>, depth: nat) -> Map<i32, As> {
    all.restrict(Set::new(|frame: i32| newer_frames(all, frame).len() < depth))
}

/// What a snapshot storage holds.
pub struct SnapshotsView<As> {
    /// The snapshots, by frame.
    pub snapshots: Map<i32, As>,
    /// How many of them a push may leave; `None` for any number.
    pub depth: Option<usize>,
    /// The frame that a rollback selected.
    pub current_frame: Option<i32>,
}

impl<As> SnapshotsView<As> {
    /// Storage as it starts out.
    pub open spec fn initial() -> Self {
        SnapshotsView {
            snapshots: Map::empty(),
            depth: Some(DEFAULT_FPS),
            current_frame: None,
        }
    }

    /// A snapshot added, then the oldest ones beyond the depth gone.
    pub open spec fn push(self, frame: i32, snapshot: As) -> Self {
        let all = self.snapshots.insert(frame, snapshot);
        SnapshotsView {
            snapshots: match self.depth {
                Some(depth) => newest(all, depth as nat),
                None => all,
            },
            ..self
        }
    }

    /// Several snapshots added, one after another.
    pub open spec fn push_all(self, pushes: Seq<(i32, As)>) -> Self
        decreases pushes.len(),
    {
        if pushes.len() == 0 {
            self
        } else {
            self.push_all(pushes.drop_last()).push(pushes.last().0, pushes.last().1)
        }
    }

    /// Another depth set.
    pub open spec fn with_depth(self, depth: usize) -> Self {
        SnapshotsView { depth: Some(depth), ..self }
    }

    /// Everything before `confirmed_frame` gone.
    pub open spec fn confirm(self, confirmed_frame: i32) -> Self {
        SnapshotsView {
            snapshots: self.snapshots.restrict(Set::new(|frame: i32| frame >= confirmed_frame)),
            ..self
        }
    }

    /// A frame selected.
    pub open spec fn rollback(self, frame: i32) -> Self {
        SnapshotsView { current_frame: Some(frame), ..self }
    }

    /// Whether the selected frame has a snapshot.
    pub open spec fn has_current(self) -> bool {
        self.current_frame matches Some(frame) && self.snapshots.contains_key(frame)
    }
}

/// Collection of snapshots for a type `For`, stored as `As`.
pub struct GgrsSnapshots<For, As = For> {
    snapshots: FrameStore<As>,
    /// Maximum number of snapshots to store. `None` means unbounded.
    depth: Option<usize>,
    /// The frame selected by `rollback()`, used by `get()`.
    current_frame: Option<i32>,
    _phantom: PhantomData<For>,
}

/// Typical storage for snapshots of a resource `R` as the type `As`. For most types, the default
/// `As = R` will suffice.
pub type GgrsResourceSnapshots<R, As = R> = GgrsSnapshots<R, Option<As>>;

impl<For, As> View for GgrsSnapshots<For, As> {
    type V = SnapshotsView<As>;

    closed spec fn view(&self) -> SnapshotsView<As> {
        SnapshotsView {
            snapshots: self.snapshots@,
            depth: self.depth,
            current_frame: self.current_frame,
        }
    }
}

impl<For, As> Default for GgrsSnapshots<For, As> {
    fn default() -> (storage: Self)
        ensures
            storage.wf(),
            storage@ == SnapshotsView::<As>::initial(),
            storage@.snapshots == Map::<i32, As>::empty(),
            storage@.depth == Some(DEFAULT_FPS),
            storage@.current_frame is None,
    {
        GgrsSnapshots {
            snapshots: FrameStore::with_capacity(DEFAULT_FPS),
            depth: Some(DEFAULT_FPS),
            current_frame: None,
            _phantom: PhantomData,
        }
    }
}

/// `kept` holds the `depth` newest snapshots of `all`: as many as there are, up to `depth`, and
/// none of them older than one that is missing.
spec fn keeps_newest<As>(all: Map<i32, As>, kept: Map<i32, As>, depth: nat) -> bool {
    &&& kept.submap_of(all)
    &&& kept.dom().finite()
    &&& kept.len() <= depth
    &&& kept.len() == depth || kept == all
    &&& all_older(all, kept)
}

/// Every frame of `all` that `kept` lacks is older than every frame of `kept`.
spec fn all_older<As>(all: Map<i32, As>, kept: Map<i32, As>) -> bool {
    forall|gone: i32, held: i32|
        #![trigger all.contains_key(gone), kept.contains_key(held)]
        all.contains_key(gone) && !kept.contains_key(gone) && kept.contains_key(held) ==> gone
            < held
}

/// Being the `depth` newest snapshots fixes which ones are kept.
proof fn lemma_newest<As>(all: Map<i32, As>, kept: Map<i32, As>, depth: nat)
    requires
        all.dom().finite(),
        keeps_newest(all, kept, depth),
    ensures
        kept == newest(all, depth),
{
    assert forall|frame: i32| all.contains_key(frame) implies (kept.contains_key(frame)
        <==> #[trigger] newer_frames(all, frame).len() < depth) by {
        let newer = newer_frames(all, frame);
        if kept.contains_key(frame) {
            lemma_len_subset(newer, kept.dom().remove(frame));
        } else {
            lemma_len_subset(kept.dom(), newer);
        }
    }
}

/// The other way: `newest` keeps as many as there are, up to `depth`, and nothing older than
/// what it leaves out.
proof fn lemma_newest_keeps<As>(all: Map<i32, As>, depth: nat)
    requires
        all.dom().finite(),
    ensures
        keeps_newest(all, newest(all, depth), depth),
    decreases all.dom().len(),
{
    let kept = newest(all, depth);
    if all.len() <= depth {
        assert forall|frame: i32| all.contains_key(frame) implies newer_frames(all, frame).len()
            < depth by {
            let newer = newer_frames(all, frame);
            lemma_len_subset(newer, all.dom().remove(frame));
        }
        assert(kept =~= all);
    } else {
        let oldest = lemma_oldest(all);
        let rest = all.remove(oldest);
        lemma_newest_keeps(rest, depth);
        lemma_newest(all, newest(rest, depth), depth);
    }
}

/// It makes no difference whether the snapshots beyond the newest go before a push or only after it.
proof fn lemma_newest_early<As>(all: Map<i32, As>, frame: i32, snapshot: As, depth: nat)
    requires
        all.dom().finite(),
    ensures
        newest(newest(all, depth).insert(frame, snapshot), depth) == newest(
            all.insert(frame, snapshot),
            depth,
        ),
{
    let once = newest(all, depth);
    lemma_newest_keeps(all, depth);
    let again = once.insert(frame, snapshot);
    lemma_newest_keeps(again, depth);
    let kept = newest(again, depth);
    let pushed = all.insert(frame, snapshot);
    assert(all_older(pushed, kept)) by {
        assert forall|gone: i32, held: i32|
            pushed.contains_key(gone) && !kept.contains_key(gone) && kept.contains_key(
                held,
            ) implies gone < held by {
            if !again.contains_key(gone) && !once.contains_key(held) {
                // Then `held` is the pushed frame, which is new among `depth` others. It displaced one
                // of them, which is older than it and newer than `gone`.
                assert(exists|other: i32| once.contains_key(other) && !kept.contains_key(other))
                    by {
                    if forall|other: i32| once.contains_key(other) ==> kept.contains_key(other) {
                        lemma_len_subset(again.dom(), kept.dom());
                    }
                }
            }
        }
    }
    if kept.len() != depth {
        if once.len() == depth {
            lemma_len_subset(once.dom(), again.dom());
        }
        assert(kept =~= pushed);
    }
    lemma_newest(pushed, kept, depth);
}

/// A finite, non-empty map has an oldest frame.
proof fn lemma_oldest<As>(all: Map<i32, As>) -> (oldest: i32)
    requires
        all.dom().finite(),
        all.len() > 0,
    ensures
        all.contains_key(oldest),
        forall|frame: i32| #[trigger] all.contains_key(frame) ==> oldest <= frame,
    decreases all.dom().len(),
{
    let some = all.dom().choose();
    let rest = all.remove(some);
    if rest.len() == 0 {
        some
    } else {
        let other = lemma_oldest(rest);
        if some < other {
            some
        } else {
            other
        }
    }
}

impl<For, As> GgrsSnapshots<For, As> {
    /// The storage is in order.
    pub closed spec fn wf(&self) -> bool {
        self.snapshots.wf()
    }

    /// There are finitely many snapshots at any time.
    pub proof fn law_storage_is_finite(&self)
        requires
            self.wf(),
        ensures
            self@.snapshots.dom().finite(),
    {
        self.snapshots.lemma_finite();
    }

    /// Updates the maximum number of snapshots to store, pre-allocating capacity.
    pub fn set_depth(&mut self, depth: usize) -> (storage: &mut Self)
        requires
            old(self).wf(),
            depth <= MAX_RESERVED,
        ensures
            storage.wf(),
            storage@ == old(self)@.with_depth(depth),
            *final(self) == *final(storage),
    {
        self.depth = Some(depth);
        // Greedy allocation to avoid allocating at a more sensitive time.
        self.snapshots.reserve_total(depth);
        self
    }

    /// Removes the snapshot depth limit, allowing unbounded storage.
    pub fn set_unbounded(&mut self) -> (storage: &mut Self)
        requires
            old(self).wf(),
        ensures
            storage.wf(),
            storage@ == (SnapshotsView { depth: None, ..old(self)@ }),
            *final(self) == *final(storage),
    {
        self.depth = None;
        self
    }

    /// Get the current depth limit of this snapshot storage, or `None` if unbounded.
    pub fn depth(&self) -> (depth: Option<usize>)
        ensures
            depth == self@.depth,
    {
        self.depth
    }

    /// Store a snapshot for the provided frame, replacing any existing snapshot at that frame. If
    /// the number of stored snapshots exceeds `depth`, the oldest frames are evicted.
    pub fn push(&mut self, frame: i32, snapshot: As) -> (storage: &mut Self)
        requires
            old(self).wf(),
        ensures
            storage.wf(),
            storage@ == old(self)@.push(frame, snapshot),
            *final(self) == *final(storage),
    {
        let ghost all = self.snapshots@.insert(frame, snapshot);
        self.snapshots.insert(frame, snapshot);

        if let Some(depth) = self.depth {
            let mut len: usize = self.snapshots.len();
            while len > depth
                invariant
                    self.snapshots.wf(),
                    self.depth == old(self).depth,
                    self.current_frame == old(self).current_frame,
                    all.dom().finite(),
                    self.snapshots@.submap_of(all),
                    self.snapshots@.dom().finite(),
                    len == self.snapshots@.len(),
                    len >= depth || self.snapshots@ == all,
                    all_older(all, self.snapshots@),
                decreases len,
            {
                if let Some(oldest) = self.snapshots.oldest() {
                    self.snapshots.remove(oldest);
                }
                len = self.snapshots.len();
            }
            proof {
                lemma_newest(all, self.snapshots@, depth as nat);
            }
        }
        self
    }

    /// Discards snapshots from before `confirmed_frame` as no longer required.
    pub fn confirm(&mut self, confirmed_frame: i32) -> (storage: &mut Self)
        requires
            old(self).wf(),
        ensures
            storage.wf(),
            storage@ == old(self)@.confirm(confirmed_frame),
            *final(self) == *final(storage),
    {
        self.snapshots.retain_from(confirmed_frame);
        self
    }

    /// Selects a frame to rollback to. Use `get()` to retrieve the snapshot.
    pub fn rollback(&mut self, frame: i32) -> (storage: &mut Self)
        requires
            old(self).wf(),
            old(self)@.snapshots.contains_key(frame),
        ensures
            storage.wf(),
            storage@ == old(self)@.rollback(frame),
            *final(self) == *final(storage),
    {
        self.current_frame = Some(frame);
        self
    }

    /// The frame selected by `rollback()`, if any.
    pub fn current_frame(&self) -> (frame: Option<i32>)
        ensures
            frame == self@.current_frame,
    {
        self.current_frame
    }

    /// Get the snapshot for the frame selected by `rollback()`.
    pub fn get(&self) -> (snapshot: &As)
        requires
            self.wf(),
            self@.has_current(),
        ensures
            *snapshot == self@.snapshots[self@.current_frame->0],
    {
        let frame = self.current_frame.unwrap();
        self.snapshots.get(frame).unwrap()
    }

    /// Get a snapshot for a specific frame, if it exists.
    pub fn peek(&self, frame: i32) -> (snapshot: Option<&As>)
        requires
            self.wf(),
        ensures
            snapshot == (if self@.snapshots.contains_key(frame) {
                Some(&self@.snapshots[frame])
            } else {
                None
            }),
    {
        self.snapshots.get(frame)
    }

    /// Confirms the frame in [`ConfirmedFrameCount`], if there is one, discarding older snapshots.
    pub fn discard_old_snapshots(&mut self, confirmed_frame: Option<ConfirmedFrameCount>)
        requires
            old(self).wf(),
        ensures
            final(self).wf(),
            final(self)@ == (match confirmed_frame {
                Some(confirmed) => old(self)@.confirm(confirmed.0),
                None => old(self)@,
            }),
    {
        if let Some(confirmed) = confirmed_frame {
            self.confirm(confirmed.0);
        }
    }

    /// Syncs the snapshot depth to [`MaxPredictionWindow`], if there is one. Run before each save,
    /// it makes sure that snapshots are never evicted prematurely when the prediction window
    /// exceeds the default depth.
    pub fn sync_depth(&mut self, max_prediction: Option<MaxPredictionWindow>)
        requires
            old(self).wf(),
            max_prediction matches Some(window) ==> window.0 <= MAX_RESERVED,
        ensures
            final(self).wf(),
            final(self)@ == (match max_prediction {
                Some(window) => old(self)@.with_depth(window.0),
                None => old(self)@,
            }),
    {
        if let Some(window) = max_prediction {
            self.set_depth(window.0);
        }
    }
}

/// A push leaves at most `depth` snapshots: all that there are, while they fit.
pub proof fn law_push_stays_within_depth<As>(
    storage: SnapshotsView<As>,
    frame: i32,
    snapshot: As,
)
    requires
        storage.snapshots.dom().finite(),
    ensures
        ({
            let all = storage.snapshots.insert(frame, snapshot);
            let kept = storage.push(frame, snapshot).snapshots;
            &&& kept.dom().finite()
            &&& kept.len() == (match storage.depth {
                Some(depth) => if all.len() <= depth {
                    all.len()
                } else {
                    depth as nat
                },
                None => all.len(),
            })
        }),
{
    if let Some(depth) = storage.depth {
        let all = storage.snapshots.insert(frame, snapshot);
        lemma_newest_keeps(all, depth as nat);
        lemma_len_subset(newest(all, depth as nat).dom(), all.dom());
    }
}

/// What a push evicts is older than everything that it keeps, and what it keeps is unchanged.
pub proof fn law_push_evicts_oldest<As>(storage: SnapshotsView<As>, frame: i32, snapshot: As)
    requires
        storage.snapshots.dom().finite(),
    ensures
        ({
            let all = storage.snapshots.insert(frame, snapshot);
            let kept = storage.push(frame, snapshot).snapshots;
            &&& kept.submap_of(all)
            &&& forall|gone: i32, held: i32|
                #![trigger all.contains_key(gone), kept.contains_key(held)]
                all.contains_key(gone) && !kept.contains_key(gone) && kept.contains_key(held)
                    ==> gone < held
        }),
{
    if let Some(depth) = storage.depth {
        lemma_newest_keeps(storage.snapshots.insert(frame, snapshot), depth as nat);
    }
}

/// A pushed snapshot is there afterwards exactly if fewer than `depth` newer frames are stored,
/// and then it is the one that was pushed.
pub proof fn law_push_reads_back<As>(storage: SnapshotsView<As>, frame: i32, snapshot: As)
    requires
        storage.snapshots.dom().finite(),
    ensures
        ({
            let kept = storage.push(frame, snapshot).snapshots;
            &&& kept.contains_key(frame) <==> (storage.depth matches Some(depth) ==> newer_frames(
                storage.snapshots,
                frame,
            ).len() < depth)
            &&& kept.contains_key(frame) ==> kept[frame] == snapshot
        }),
{
    let all = storage.snapshots.insert(frame, snapshot);
    assert(newer_frames(all, frame) =~= newer_frames(storage.snapshots, frame));
}

/// Pushing a frame again comes to the same as pushing only the second snapshot.
pub proof fn law_push_same_frame_replaces<As>(
    storage: SnapshotsView<As>,
    frame: i32,
    first: As,
    second: As,
)
    requires
        storage.snapshots.dom().finite(),
    ensures
        storage.push(frame, first).push(frame, second) == storage.push(frame, second),
{
    let all = storage.snapshots.insert(frame, first);
    assert(all.insert(frame, second) =~= storage.snapshots.insert(frame, second));
    if let Some(depth) = storage.depth {
        lemma_newest_early(all, frame, second, depth as nat);
    }
}

/// While there is room, a push loses nothing, wherever the new frame lies among the stored ones.
pub proof fn law_push_with_room_keeps_history<As>(
    storage: SnapshotsView<As>,
    frame: i32,
    snapshot: As,
)
    requires
        storage.snapshots.dom().finite(),
        storage.depth matches Some(depth) ==> storage.snapshots.insert(frame, snapshot).len()
            <= depth,
    ensures
        storage.push(frame, snapshot).snapshots == storage.snapshots.insert(frame, snapshot),
{
    law_push_stays_within_depth(storage, frame, snapshot);
    if let Some(depth) = storage.depth {
        let all = storage.snapshots.insert(frame, snapshot);
        let kept = newest(all, depth as nat);
        lemma_subset_equality(kept.dom(), all.dom());
    }
}

/// With the depth set to the prediction window, a push of the latest frame loses no frame within the
/// window.
pub proof fn law_prediction_window_is_kept<As>(
    storage: SnapshotsView<As>,
    window: usize,
    frame: i32,
    snapshot: As,
    within: i32,
)
    requires
        storage.snapshots.dom().finite(),
        storage.depth == Some(window),
        forall|stored: i32| #[trigger] storage.snapshots.contains_key(stored) ==> stored <= frame,
        storage.snapshots.contains_key(within),
        within < frame,
        frame - within < window,
    ensures
        storage.push(frame, snapshot).snapshots.contains_key(within),
        storage.push(frame, snapshot).snapshots[within] == storage.snapshots[within],
{
    let all = storage.snapshots.insert(frame, snapshot);
    let newer = newer_frames(all, within);
    lemma_frames_between(newer, within, frame);
}

/// Some snapshots put over others, the later ones over the earlier ones.
pub open spec fn overlaid<As>(snapshots: Map<i32, As>, pushes: Seq<(i32, As)>) -> Map<i32, As>
    decreases pushes.len(),
{
    if pushes.len() == 0 {
        snapshots
    } else {
        overlaid(snapshots, pushes.drop_last()).insert(pushes.last().0, pushes.last().1)
    }
}

/// A run of pushes, whatever their frames, keeps the newest of everything that was stored or pushed.
pub proof fn law_pushes_keep_newest<As>(storage: SnapshotsView<As>, pushes: Seq<(i32, As)>)
    requires
        storage.snapshots.dom().finite(),
        pushes.len() > 0,
    ensures
        ({
            let all = overlaid(storage.snapshots, pushes);
            &&& all.dom().finite()
            &&& storage.push_all(pushes) == (SnapshotsView {
                snapshots: match storage.depth {
                    Some(depth) => newest(all, depth as nat),
                    None => all,
                },
                ..storage
            })
        }),
    decreases pushes.len(),
{
    let rest = pushes.drop_last();
    if rest.len() > 0 {
        law_pushes_keep_newest(storage, rest);
        if let Some(depth) = storage.depth {
            let all = overlaid(storage.snapshots, rest);
            lemma_newest_early(all, pushes.last().0, pushes.last().1, depth as nat);
        }
    } else {
        assert(overlaid(storage.snapshots, rest) == storage.snapshots);
        assert(storage.push_all(rest) == storage);
    }
}

/// The frames of pushes ascend.
pub open spec fn ascending<As>(pushes: Seq<(i32, As)>) -> bool {
    forall|i: int, j: int|
        0 <= i < j < pushes.len() ==> (#[trigger] pushes[i]).0 < (#[trigger] pushes[j]).0
}

/// A frame is among those of pushes.
pub open spec fn is_pushed<As>(pushes: Seq<(i32, As)>, frame: i32) -> bool {
    exists|i: int| 0 <= i < pushes.len() && (#[trigger] pushes[i]).0 == frame
}

/// Once the depth is that of the prediction window, whatever it was before, a run of pushes of
/// ascending frames keeps exactly the last of them, as many as the window has. They may lie beyond
/// all stored frames, or some of those may be saved anew, up to the last one. The setting itself loses
/// no snapshot.
pub proof fn law_window_of_pushes_is_kept<As>(
    storage: SnapshotsView<As>,
    window: usize,
    pushes: Seq<(i32, As)>,
)
    requires
        storage.snapshots.dom().finite(),
        ascending(pushes),
        forall|stored: i32| #[trigger]
            storage.snapshots.contains_key(stored) && pushes.len() > 0 && stored > pushes[0].0
                ==> is_pushed(pushes, stored),
    ensures
        storage.with_depth(window).snapshots == storage.snapshots,
        storage.with_depth(window).depth == Some(window),
        ({
            let kept = storage.with_depth(window).push_all(pushes).snapshots;
            forall|i: int|
                0 <= i < pushes.len() ==> {
                    &&& kept.contains_key((#[trigger] pushes[i]).0) <==> pushes.len() - i <= window
                    &&& kept.contains_key(pushes[i].0) ==> kept[pushes[i].0] == pushes[i].1
                }
        }),
{
    if pushes.len() > 0 {
        law_pushes_keep_newest(storage.with_depth(window), pushes);
        let all = overlaid(storage.snapshots, pushes);
        lemma_overlaid(storage.snapshots, pushes);
        assert forall|i: int| 0 <= i < pushes.len() implies newer_frames(
            all,
            (#[trigger] pushes[i]).0,
        ).len() == pushes.len() - i - 1 by {
            let later = pushes.skip(i + 1).map_values(|push: (i32, As)| push.0);
            later.unique_seq_to_set();
            assert(newer_frames(all, pushes[i].0) =~= later.to_set()) by {
                assert forall|frame: i32| newer_frames(all, pushes[i].0).contains(
                    frame,
                ) implies later.to_set().contains(frame) by {
                    let j = choose|j: int| 0 <= j < pushes.len() && (#[trigger] pushes[j]).0 == frame;
                    assert(later[j - i - 1] == frame);
                }
                assert forall|frame: i32| later.to_set().contains(frame) implies newer_frames(
                    all,
                    pushes[i].0,
                ).contains(frame) by {
                    let k = choose|k: int| 0 <= k < later.len() && later[k] == frame;
                    assert(pushes[i + 1 + k].0 == frame);
                }
            }
        }
    }
}

/// What ascending pushes put over stored snapshots: each of them is there, beside the stored ones.
proof fn lemma_overlaid<As>(snapshots: Map<i32, As>, pushes: Seq<(i32, As)>)
    requires
        ascending(pushes),
    ensures
        ({
            let all = overlaid(snapshots, pushes);
            &&& forall|i: int|
                0 <= i < pushes.len() ==> all.contains_key((#[trigger] pushes[i]).0)
                    && all[pushes[i].0] == pushes[i].1
            &&& forall|frame: i32| #[trigger]
                all.contains_key(frame) ==> snapshots.contains_key(frame) || is_pushed(
                    pushes,
                    frame,
                )
        }),
    decreases pushes.len(),
{
    if pushes.len() > 0 {
        let rest = pushes.drop_last();
        assert(forall|i: int| 0 <= i < rest.len() ==> #[trigger] rest[i] == pushes[i]);
        lemma_overlaid(snapshots, rest);
        let all = overlaid(snapshots, pushes);
        let last = pushes.len() - 1;
        assert forall|i: int| 0 <= i < pushes.len() implies all.contains_key(
            (#[trigger] pushes[i]).0,
        ) && all[pushes[i].0] == pushes[i].1 by {
            if i < last {
                assert(rest[i] == pushes[i]);
            }
        }
        assert forall|frame: i32| #[trigger] all.contains_key(frame) implies snapshots.contains_key(
            frame,
        ) || is_pushed(pushes, frame) by {
            if frame == pushes.last().0 {
                assert(pushes[last].0 == frame);
            } else if !snapshots.contains_key(frame) {
                assert(overlaid(snapshots, rest).contains_key(frame));
                let i = choose|i: int| 0 <= i < rest.len() && (#[trigger] rest[i]).0 == frame;
                assert(pushes[i].0 == frame);
            }
        }
    }
}

/// There are only so many frames after one and up to another.
proof fn lemma_frames_between(frames: Set<i32>, after: i32, last: i32)
    requires
        frames.finite(),
        after <= last,
        forall|frame: i32| #[trigger] frames.contains(frame) ==> after < frame <= last,
    ensures
        frames.len() <= last - after,
    decreases last - after,
{
    if after == last {
        assert(frames =~= Set::empty());
    } else {
        lemma_frames_between(frames.remove(last), after, (last - 1) as i32);
    }
}

/// Confirming two frames comes to the same as confirming the later one.
pub proof fn law_confirm_composes<As>(storage: SnapshotsView<As>, first: i32, second: i32)
    ensures
        storage.confirm(first).confirm(second) == storage.confirm(
            if first >= second {
                first
            } else {
                second
            },
        ),
{
    let later = if first >= second {
        first
    } else {
        second
    };
    assert(storage.confirm(first).confirm(second).snapshots =~= storage.confirm(later).snapshots);
}

/// Confirming a frame beyond all stored ones leaves no snapshot.
pub proof fn law_confirm_beyond_all_empties<As>(storage: SnapshotsView<As>, confirmed_frame: i32)
    requires
        forall|frame: i32| #[trigger]
            storage.snapshots.contains_key(frame) ==> frame < confirmed_frame,
    ensures
        storage.confirm(confirmed_frame).snapshots == Map::<i32, As>::empty(),
{
}

/// What is saved for a frame is what a rollback to it gives back, also after any frame up to it
/// was confirmed.
pub proof fn law_rollback_reads_back_push<As>(
    storage: SnapshotsView<As>,
    frame: i32,
    snapshot: As,
    confirmed_frame: i32,
)
    requires
        storage.snapshots.dom().finite(),
        storage.depth matches Some(depth) ==> newer_frames(storage.snapshots, frame).len() < depth,
        confirmed_frame <= frame,
    ensures
        ({
            let rolled_back = storage.push(frame, snapshot).confirm(confirmed_frame).rollback(
                frame,
            );
            &&& rolled_back.has_current()
            &&& rolled_back.snapshots[rolled_back.current_frame->0] == snapshot
        }),
{
    law_push_reads_back(storage, frame, snapshot);
}

/// A push is nobody else's business: it neither changes the depth nor selects another frame.
pub proof fn law_push_changes_snapshots_only<As>(
    storage: SnapshotsView<As>,
    frame: i32,
    snapshot: As,
)
    ensures
        storage.push(frame, snapshot).depth == storage.depth,
        storage.push(frame, snapshot).current_frame == storage.current_frame,
{
}

/// Setting a depth loses no snapshot, even if there are more than it allows, and no selection.
pub proof fn law_depth_alone_changes<As>(storage: SnapshotsView<As>, depth: usize)
    ensures
        storage.with_depth(depth).depth == Some(depth),
        storage.with_depth(depth).snapshots == storage.snapshots,
        storage.with_depth(depth).current_frame == storage.current_frame,
{
}

/// The frames after a frame are those stored ones that are greater.
pub proof fn law_newer_frames_are_greater<As>(all: Map<i32, As>, frame: i32, other: i32)
    ensures
        newer_frames(all, frame).contains(other) <==> all.contains_key(other) && frame < other,
{
}

/// Selecting a frame loses nothing: all snapshots and the depth stay as they are. So any other stored
/// frame, also an earlier one, can be rolled back to afterwards and gives back its snapshot.
pub proof fn law_rollback_loses_nothing<As>(storage: SnapshotsView<As>, frame: i32, other: i32)
    ensures
        storage.rollback(frame).snapshots == storage.snapshots,
        storage.rollback(frame).depth == storage.depth,
        storage.rollback(frame).current_frame == Some(frame),
        storage.snapshots.contains_key(other) ==> {
            let again = storage.rollback(frame).rollback(other);
            &&& again.has_current()
            &&& again.current_frame == Some(other)
            &&& again.snapshots[other] == storage.snapshots[other]
        },
{
}

/// There is a snapshot to get exactly if a frame was selected and has one.
pub proof fn law_selected_frame_is_readable<As>(storage: SnapshotsView<As>)
    ensures
        storage.current_frame is None ==> !storage.has_current(),
        storage.current_frame is Some ==> (storage.has_current()
            <==> storage.snapshots.contains_key(storage.current_frame->0)),
{
}

/// After a frame is confirmed, a frame has a snapshot exactly if it had one and is not before the
/// confirmed frame, and then the one that it had. This is so whatever frame is selected, and whatever
/// the depth; neither changes.
pub proof fn law_confirm_discards_exactly_what_is_older<As>(
    storage: SnapshotsView<As>,
    confirmed_frame: i32,
    frame: i32,
)
    ensures
        ({
            let after = storage.confirm(confirmed_frame);
            &&& after.snapshots.contains_key(frame) <==> storage.snapshots.contains_key(frame)
                && confirmed_frame <= frame
            &&& after.snapshots.contains_key(frame) ==> after.snapshots[frame]
                == storage.snapshots[frame]
            &&& after.depth == storage.depth
            &&& after.current_frame == storage.current_frame
        }),
{
}

} // verus!

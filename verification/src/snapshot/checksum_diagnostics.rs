//! A history of checksum contributions, to find out which entity and component type diverged when
//! a desync is detected.

use super::by_entity::ByEntity;
use super::by_name::ByName;
use std::collections::{HashMap, VecDeque};
use vstd::prelude::*;

verus! {

/// Per-frame breakdown of checksum contributions.
///
/// Stored by [`ChecksumDiagnostics`] for each frame in the history ring buffer. Contains both
/// per-type aggregate checksums and per-entity per-type individual hashes, allowing users to
/// pinpoint exactly which entity and component type diverged when a desync is detected.
#[derive(Debug)]
pub struct FrameChecksumDetail {
    /// Per-type checksum, by type name.
    ///
    /// Includes components, resources, and the entity metadata checksum.
    pub type_checksums: ByName<u128>,
    /// Per-entity per-type hash, by rollback order and type name.
    ///
    /// Only populated for component checksums (not resources). The rollback order is the stable
    /// insertion index of [`RollbackOrdered`](super::rollback_entity::RollbackOrdered). The hash is
    /// the individual entity's contribution before aggregation.
    pub entity_checksums: ByEntity,
}

/// What a [`FrameChecksumDetail`] holds.
#[verifier::ext_equal]
pub struct DetailView {
    pub type_checksums: Map<Seq<char>, u128>,
    pub entity_checksums: Map<(u64, Seq<char>), u64>,
}

impl DetailView {
    /// Nothing recorded.
    pub open spec fn empty() -> Self {
        DetailView { type_checksums: Map::empty(), entity_checksums: Map::empty() }
    }
}

impl View for FrameChecksumDetail {
    type V = DetailView;

    open spec fn view(&self) -> DetailView {
        DetailView {
            type_checksums: self.type_checksums@,
            entity_checksums: self.entity_checksums@,
        }
    }
}

impl FrameChecksumDetail {
    /// Both tables are in order.
    pub open spec fn wf(&self) -> bool {
        self.type_checksums.wf() && self.entity_checksums.wf()
    }
}

impl Default for FrameChecksumDetail {
    fn default() -> (detail: Self)
        ensures
            detail.wf(),
            detail@ == DetailView::empty(),
    {
        FrameChecksumDetail { type_checksums: ByName::new(), entity_checksums: ByEntity::new() }
    }
}

/// What a [`ChecksumDiagnostics`] holds.
#[verifier::ext_equal]
pub struct DiagnosticsView {
    /// The frames in the history, the one committed longest ago first.
    pub order: Seq<i32>,
    /// What was recorded for each of them.
    pub history: Map<i32, DetailView>,
    /// How many frames the history may have.
    pub history_length: usize,
    /// The frame that is being recorded.
    pub pending: Option<(i32, DetailView)>,
}

/// The last `count` items, or all of them if there are fewer.
pub open spec fn latest(order: Seq<i32>, count: nat) -> Seq<i32> {
    if order.len() <= count {
        order
    } else {
        order.skip(order.len() - count)
    }
}

/// The frames other than `frame`, in the order that they had.
pub open spec fn without(order: Seq<i32>, frame: i32) -> Seq<i32> {
    order.filter(|other: i32| other != frame)
}

/// The frames in the order of their last commit, when `frame` has just been committed.
pub open spec fn committed(order: Seq<i32>, frame: i32) -> Seq<i32> {
    without(order, frame).push(frame)
}

impl DiagnosticsView {
    /// An empty history.
    pub open spec fn initial(history_length: usize) -> Self {
        DiagnosticsView {
            order: Seq::empty(),
            history: Map::empty(),
            history_length,
            pending: None,
        }
    }

    /// The order names the frames of the history, each once, and no more than may be there.
    pub open spec fn valid(self) -> bool {
        &&& self.order.no_duplicates()
        &&& self.order.to_set() == self.history.dom()
        &&& self.order.len() <= self.history_length
    }

    /// A fresh frame to record into, in place of one that was not committed.
    pub open spec fn begin_frame(self, frame: i32) -> Self {
        DiagnosticsView { pending: Some((frame, DetailView::empty())), ..self }
    }

    /// A type's checksum recorded, if a frame has begun.
    pub open spec fn record_type_checksum(self, ty: Seq<char>, checksum: u128) -> Self {
        DiagnosticsView {
            pending: match self.pending {
                Some((frame, detail)) => Some(
                    (
                        frame,
                        DetailView {
                            type_checksums: detail.type_checksums.insert(ty, checksum),
                            ..detail
                        },
                    ),
                ),
                None => None,
            },
            ..self
        }
    }

    /// An entity's hash recorded, if a frame has begun.
    pub open spec fn record_entity_hash(
        self,
        ty: Seq<char>,
        rollback_order: u64,
        hash: u64,
    ) -> Self {
        DiagnosticsView {
            pending: match self.pending {
                Some((frame, detail)) => Some(
                    (
                        frame,
                        DetailView {
                            entity_checksums: detail.entity_checksums.insert(
                                (rollback_order, ty),
                                hash,
                            ),
                            ..detail
                        },
                    ),
                ),
                None => None,
            },
            ..self
        }
    }

    /// The begun frame, if any, put into the history as its latest one; then only as many of the
    /// latest frames left as the history may have.
    pub open spec fn commit_frame(self) -> Self {
        match self.pending {
            Some((frame, detail)) => {
                let order = latest(committed(self.order, frame), self.history_length as nat);
                DiagnosticsView {
                    order,
                    history: self.history.insert(frame, detail).restrict(order.to_set()),
                    pending: None,
                    ..self
                }
            },
            None => self,
        }
    }
}

/// Opt-in diagnostics that retain per-type and per-entity checksum history in a ring buffer.
///
/// This is **not** rolled back: it is diagnostic state that persists across rollback and
/// resimulation cycles.
pub struct ChecksumDiagnostics {
    history: HashMap<i32, FrameChecksumDetail>,
    history_length: usize,
    frame_order: VecDeque<i32>,
    /// Current frame being built.
    pending: Option<(i32, FrameChecksumDetail)>,
}

impl View for ChecksumDiagnostics {
    type V = DiagnosticsView;

    closed spec fn view(&self) -> DiagnosticsView {
        DiagnosticsView {
            order: self.frame_order@,
            history: self.history@.map_values(|detail: FrameChecksumDetail| detail@),
            history_length: self.history_length,
            pending: match self.pending {
                Some((frame, detail)) => Some((frame, detail@)),
                None => None,
            },
        }
    }
}

impl ChecksumDiagnostics {
    /// Order and history agree, and every detail is in order.
    pub closed spec fn wf(&self) -> bool {
        &&& self@.valid()
        &&& forall|frame: i32| #[trigger]
            self.history@.contains_key(frame) ==> self.history@[frame].wf()
        &&& self.pending matches Some((_, detail)) ==> detail.wf()
    }

    /// Order and history agree at all times.
    pub proof fn law_history_is_valid(&self)
        requires
            self.wf(),
        ensures
            self@.valid(),
    {
    }

    /// Create new diagnostics with the given history length.
    pub fn new(history_length: usize) -> (diagnostics: Self)
        ensures
            diagnostics.wf(),
            diagnostics@ == DiagnosticsView::initial(history_length),
            diagnostics@.order == Seq::<i32>::empty(),
            diagnostics@.history == Map::<i32, DetailView>::empty(),
            diagnostics@.history_length == history_length,
            diagnostics@.pending is None,
    {
        let diagnostics = ChecksumDiagnostics {
            history: HashMap::new(),
            history_length,
            frame_order: VecDeque::new(),
            pending: None,
        };
        assert(diagnostics@.order.to_set() =~= diagnostics@.history.dom());
        diagnostics
    }

    /// Look up the checksum detail for a specific frame.
    pub fn frame(&self, frame: i32) -> (detail: Option<&FrameChecksumDetail>)
        requires
            self.wf(),
        ensures
            match detail {
                Some(detail) => {
                    &&& detail.wf()
                    &&& self@.history.contains_key(frame)
                    &&& detail@ == self@.history[frame]
                },
                None => !self@.history.contains_key(frame),
            },
    {
        self.history.get(&frame)
    }

    /// All stored frames and their details, the one committed longest ago first.
    pub fn iter(&self) -> (items: Vec<(i32, &FrameChecksumDetail)>)
        requires
            self.wf(),
        ensures
            items@.len() == self@.order.len(),
            forall|i: int|
                0 <= i < items@.len() ==> {
                    &&& (#[trigger] items@[i]).0 == self@.order[i]
                    &&& items@[i].1.wf()
                    &&& items@[i].1@ == self@.history[self@.order[i]]
                },
    {
        let mut items: Vec<(i32, &FrameChecksumDetail)> = Vec::new();
        let mut i: usize = 0;
        while i < self.frame_order.len()
            invariant
                self.wf(),
                i <= self.frame_order@.len(),
                items@.len() == i,
                forall|j: int|
                    0 <= j < i ==> {
                        &&& (#[trigger] items@[j]).0 == self@.order[j]
                        &&& items@[j].1.wf()
                        &&& items@[j].1@ == self@.history[self@.order[j]]
                    },
            decreases self.frame_order@.len() - i,
        {
            let frame = self.frame_order[i];
            assert(self@.order.to_set().contains(frame));
            items.push((frame, self.history.get(&frame).unwrap()));
            i += 1;
        }
        items
    }

    /// Number of frames currently in the history.
    pub fn len(&self) -> (len: usize)
        requires
            self.wf(),
        ensures
            len == self@.order.len(),
            len == self@.history.len(),
    {
        proof {
            self@.order.unique_seq_to_set();
            assert(self.history@.dom() =~= self@.history.dom());
        }
        self.history.len()
    }

    /// Whether the history is empty.
    pub fn is_empty(&self) -> (empty: bool)
        requires
            self.wf(),
        ensures
            empty <==> self@.order.len() == 0,
    {
        self.len() == 0
    }

    /// Prepare a new frame entry, to be recorded into before it is committed.
    pub fn begin_frame(&mut self, frame: i32)
        requires
            old(self).wf(),
        ensures
            final(self).wf(),
            final(self)@ == old(self)@.begin_frame(frame),
    {
        self.pending = Some((frame, FrameChecksumDetail::default()));
    }

    /// Record a per-type aggregate checksum.
    pub fn record_type_checksum(&mut self, ty: &'static str, checksum: u128)
        requires
            old(self).wf(),
        ensures
            final(self).wf(),
            final(self)@ == old(self)@.record_type_checksum(ty@, checksum),
    {
        if let Some((_, detail)) = &mut self.pending {
            detail.type_checksums.insert(ty, checksum);
        }
    }

    /// Record a per-entity hash contribution.
    pub fn record_entity_hash(&mut self, ty: &'static str, rollback_order: u64, hash: u64)
        requires
            old(self).wf(),
        ensures
            final(self).wf(),
            final(self)@ == old(self)@.record_entity_hash(ty@, rollback_order, hash),
    {
        if let Some((_, detail)) = &mut self.pending {
            detail.entity_checksums.insert(rollback_order, ty, hash);
        }
    }

    /// Move the pending frame into the history ring buffer, evicting the oldest frame if over
    /// capacity.
    pub fn commit_frame(&mut self)
        requires
            old(self).wf(),
        ensures
            final(self).wf(),
            final(self)@ == old(self)@.commit_frame(),
    {
        let pending = self.pending.take();
        if let Some((frame, detail)) = pending {
            // If this frame was already in history (resimulation), remove the old entry from
            // frame_order to avoid duplicates.
            if self.history.contains_key(&frame) {
                remove_frame(&mut self.frame_order, frame);
            } else {
                proof {
                    assert(!self@.order.to_set().contains(frame));
                    lemma_filter_absent(self@.order, frame);
                }
            }
            self.history.insert(frame, detail);
            self.frame_order.push_back(frame);

            let ghost order = committed(old(self)@.order, frame);
            let ghost history = self.history@;
            proof {
                lemma_committed(old(self)@.order, frame);
                assert(order.skip(0) =~= order);
            }
            // Evict oldest frames beyond capacity.
            while self.frame_order.len() > self.history_length
                invariant
                    self.pending is None,
                    self.history_length == old(self).history_length,
                    order.no_duplicates(),
                    order.to_set() == history.dom(),
                    self.frame_order@.len() <= order.len(),
                    self.frame_order@ == order.skip(order.len() - self.frame_order@.len()),
                    self.frame_order@.len() == order.len() || self.frame_order@.len()
                        >= self.history_length,
                    self.history@ == history.restrict(self.frame_order@.to_set()),
                decreases self.frame_order@.len(),
            {
                let ghost before = self.frame_order@;
                if let Some(oldest) = self.frame_order.pop_front() {
                    self.history.remove(&oldest);
                    proof {
                        lemma_without_first(before);
                    }
                }
            }
            proof {
                assert(self@.order.to_set() =~= self@.history.dom());
            }
        }
    }
}

/// What enables checksum diagnostics in an app.
#[derive(Debug, Clone, Copy, PartialEq, Eq, Structural)]
pub struct ChecksumDiagnosticsPlugin {
    /// Number of frames to retain in the ring buffer. Default: 120.
    pub history_length: usize,
}

impl Default for ChecksumDiagnosticsPlugin {
    fn default() -> (plugin: Self)
        ensures
            plugin.history_length == 120,
    {
        ChecksumDiagnosticsPlugin { history_length: 120 }
    }
}

/// Takes a frame out of the order.
fn remove_frame(order: &mut VecDeque<i32>, frame: i32)
    ensures
        final(order)@ == without(old(order)@, frame),
{
    let mut kept: VecDeque<i32> = VecDeque::new();
    let mut i: usize = 0;
    while i < order.len()
        invariant
            order@ == old(order)@,
            i <= order@.len(),
            kept@ == without(order@.take(i as int), frame),
        decreases order@.len() - i,
    {
        let other = order[i];
        proof {
            reveal(Seq::filter);
            assert(order@.take(i + 1).drop_last() =~= order@.take(i as int));
        }
        if other != frame {
            kept.push_back(other);
        }
        i += 1;
    }
    assert(order@.take(order@.len() as int) =~= order@);
    *order = kept;
}

/// Nothing is taken out of an order that lacks the frame.
proof fn lemma_filter_absent(order: Seq<i32>, frame: i32)
    requires
        !order.contains(frame),
    ensures
        without(order, frame) == order,
    decreases order.len(),
{
    reveal(Seq::filter);
    if order.len() > 0 {
        lemma_filter_absent(order.drop_last(), frame);
    }
}

/// A committed frame is in the order once, beside the frames that were there.
proof fn lemma_committed(order: Seq<i32>, frame: i32)
    requires
        order.no_duplicates(),
    ensures
        committed(order, frame).no_duplicates(),
        committed(order, frame).to_set() == order.to_set().insert(frame),
        committed(order, frame).len() <= order.len() + 1,
        order.contains(frame) ==> committed(order, frame).len() == order.len(),
{
    lemma_filtered(order, frame);
    let kept = without(order, frame);
    assert(committed(order, frame).to_set() =~= order.to_set().insert(frame)) by {
        assert forall|other: i32|
            committed(order, frame).to_set().contains(other) == order.to_set().insert(
                frame,
            ).contains(other) by {
            if kept.contains(other) {
                let i = choose|i: int| 0 <= i < kept.len() && kept[i] == other;
                assert(committed(order, frame)[i] == other);
            }
            assert(committed(order, frame)[kept.len() as int] == frame);
        }
    }
}

/// What is left of an order without a frame.
proof fn lemma_filtered(order: Seq<i32>, frame: i32)
    requires
        order.no_duplicates(),
    ensures
        ({
            let kept = without(order, frame);
            &&& kept.no_duplicates()
            &&& forall|other: i32| #[trigger]
                kept.contains(other) <==> order.contains(other) && other != frame
            &&& kept.len() == order.len() - (if order.contains(frame) {
                1int
            } else {
                0int
            })
        }),
    decreases order.len(),
{
    reveal(Seq::filter);
    let kept = without(order, frame);
    if order.len() > 0 {
        let rest = order.drop_last();
        let last = order.last();
        let kept_rest = without(rest, frame);
        lemma_filtered(rest, frame);
        assert(forall|other: i32| #[trigger]
            order.contains(other) <==> rest.contains(other) || other == last) by {
            broadcast use vstd::seq_lib::group_seq_properties;

        }
        assert(forall|other: i32| #[trigger]
            kept.contains(other) <==> kept_rest.contains(other) || (other == last && last
                != frame)) by {
            broadcast use vstd::seq_lib::group_seq_properties;

        }
        if last != frame {
            assert(!kept_rest.contains(last));
        }
    }
}

/// An order without its first frame.
proof fn lemma_without_first(order: Seq<i32>)
    requires
        order.len() > 0,
        order.no_duplicates(),
    ensures
        order.subrange(1, order.len() as int).to_set() == order.to_set().remove(order[0]),
{
    let rest = order.subrange(1, order.len() as int);
    assert forall|frame: i32| rest.to_set().contains(frame) == order.to_set().remove(
        order[0],
    ).contains(frame) by {
        if order.contains(frame) && frame != order[0] {
            let i = choose|i: int| 0 <= i < order.len() && order[i] == frame;
            assert(rest[i - 1] == frame);
        }
    }
}

/// A commit keeps order and history in agreement, and within the history length.
pub proof fn law_commit_stays_valid(diagnostics: DiagnosticsView)
    requires
        diagnostics.valid(),
    ensures
        diagnostics.commit_frame().valid(),
{
    if let Some((frame, _)) = diagnostics.pending {
        let after = diagnostics.commit_frame();
        lemma_committed(diagnostics.order, frame);
        assert(after.order.to_set() =~= after.history.dom());
    }
}

/// A committed frame is the latest one of the history, with what was recorded for it, unless the
/// history may have no frames at all.
pub proof fn law_commit_reads_back(diagnostics: DiagnosticsView, frame: i32, detail: DetailView)
    requires
        diagnostics.valid(),
        diagnostics.pending == Some((frame, detail)),
        diagnostics.history_length > 0,
    ensures
        ({
            let after = diagnostics.commit_frame();
            &&& after.order.last() == frame
            &&& after.history.contains_key(frame)
            &&& after.history[frame] == detail
            &&& after.pending is None
        }),
{
    let after = diagnostics.commit_frame();
    assert(after.order[after.order.len() - 1] == frame);
}

/// What is recorded for a frame between its beginning and its commit is what the history tells
/// of it.
pub proof fn law_recordings_read_back(
    diagnostics: DiagnosticsView,
    frame: i32,
    ty: Seq<char>,
    checksum: u128,
    rollback_order: u64,
    hash: u64,
)
    requires
        diagnostics.valid(),
        diagnostics.history_length > 0,
    ensures
        ({
            let after = diagnostics.begin_frame(frame).record_type_checksum(
                ty,
                checksum,
            ).record_entity_hash(ty, rollback_order, hash).commit_frame();
            &&& after.history.contains_key(frame)
            &&& after.history[frame].type_checksums == DetailView::empty().type_checksums.insert(
                ty,
                checksum,
            )
            &&& after.history[frame].entity_checksums == DetailView::empty().entity_checksums.insert(
                (rollback_order, ty),
                hash,
            )
        }),
{
    let before = diagnostics.begin_frame(frame).record_type_checksum(
        ty,
        checksum,
    ).record_entity_hash(ty, rollback_order, hash);
    if let Some((_, detail)) = before.pending {
        law_commit_reads_back(before, frame, detail);
    }
}

/// Committing a frame that is in the history (resimulation) overwrites it: no frame comes in and
/// none goes.
pub proof fn law_resimulation_overwrites(
    diagnostics: DiagnosticsView,
    frame: i32,
    detail: DetailView,
)
    requires
        diagnostics.valid(),
        diagnostics.pending == Some((frame, detail)),
        diagnostics.history.contains_key(frame),
    ensures
        diagnostics.commit_frame().history == diagnostics.history.insert(frame, detail),
        diagnostics.commit_frame().order.len() == diagnostics.order.len(),
{
    lemma_committed(diagnostics.order, frame);
}

/// Committing a new frame evicts the frame that was committed longest ago if the history is full,
/// and nothing otherwise.
pub proof fn law_commit_evicts_oldest_when_full(
    diagnostics: DiagnosticsView,
    frame: i32,
    detail: DetailView,
)
    requires
        diagnostics.valid(),
        diagnostics.pending == Some((frame, detail)),
        !diagnostics.history.contains_key(frame),
        diagnostics.history_length > 0,
    ensures
        ({
            let after = diagnostics.commit_frame();
            if diagnostics.order.len() == diagnostics.history_length {
                &&& after.order == diagnostics.order.drop_first().push(frame)
                &&& after.history == diagnostics.history.remove(diagnostics.order[0]).insert(
                    frame,
                    detail,
                )
            } else {
                &&& after.order == diagnostics.order.push(frame)
                &&& after.history == diagnostics.history.insert(frame, detail)
            }
        }),
{
    let order = diagnostics.order;
    lemma_filter_absent(order, frame);
    lemma_committed(order, frame);
    if order.len() == diagnostics.history_length {
        lemma_without_first(order.push(frame));
    }
}

/// Without a begun frame, recording and committing change nothing.
pub proof fn law_nothing_pending_is_safe(
    diagnostics: DiagnosticsView,
    ty: Seq<char>,
    checksum: u128,
    rollback_order: u64,
    hash: u64,
)
    requires
        diagnostics.pending is None,
    ensures
        diagnostics.record_type_checksum(ty, checksum) == diagnostics,
        diagnostics.record_entity_hash(ty, rollback_order, hash) == diagnostics,
        diagnostics.commit_frame() == diagnostics,
{
}

/// A call that changes diagnostics.
pub enum DiagnosticsCall {
    BeginFrame { frame: i32 },
    RecordTypeChecksum { ty: Seq<char>, checksum: u128 },
    RecordEntityHash { ty: Seq<char>, rollback_order: u64, hash: u64 },
    CommitFrame,
}

impl DiagnosticsView {
    /// What a call makes of the diagnostics.
    pub open spec fn after(self, call: DiagnosticsCall) -> Self {
        match call {
            DiagnosticsCall::BeginFrame { frame } => self.begin_frame(frame),
            DiagnosticsCall::RecordTypeChecksum { ty, checksum } => self.record_type_checksum(
                ty,
                checksum,
            ),
            DiagnosticsCall::RecordEntityHash { ty, rollback_order, hash } => {
                self.record_entity_hash(ty, rollback_order, hash)
            },
            DiagnosticsCall::CommitFrame => self.commit_frame(),
        }
    }

    /// What calls make of the diagnostics, one after another.
    pub open spec fn after_all(self, calls: Seq<DiagnosticsCall>) -> Self
        decreases calls.len(),
    {
        if calls.len() == 0 {
            self
        } else {
            self.after_all(calls.drop_last()).after(calls.last())
        }
    }
}

/// The frame that calls leave being recorded: the one begun last, if it was not committed since, with
/// what was recorded since.
pub open spec fn being_recorded(calls: Seq<DiagnosticsCall>) -> Option<(i32, DetailView)>
    decreases calls.len(),
{
    if calls.len() == 0 {
        None
    } else {
        let before = being_recorded(calls.drop_last());
        match calls.last() {
            DiagnosticsCall::BeginFrame { frame } => Some((frame, DetailView::empty())),
            DiagnosticsCall::RecordTypeChecksum { ty, checksum } => match before {
                Some((frame, detail)) => Some(
                    (
                        frame,
                        DetailView {
                            type_checksums: detail.type_checksums.insert(ty, checksum),
                            ..detail
                        },
                    ),
                ),
                None => None,
            },
            DiagnosticsCall::RecordEntityHash { ty, rollback_order, hash } => match before {
                Some((frame, detail)) => Some(
                    (
                        frame,
                        DetailView {
                            entity_checksums: detail.entity_checksums.insert(
                                (rollback_order, ty),
                                hash,
                            ),
                            ..detail
                        },
                    ),
                ),
                None => None,
            },
            DiagnosticsCall::CommitFrame => None,
        }
    }
}

/// The frames that calls commit, one after another, each with what was recorded for it.
pub open spec fn commits(calls: Seq<DiagnosticsCall>) -> Seq<(i32, DetailView)>
    decreases calls.len(),
{
    if calls.len() == 0 {
        Seq::empty()
    } else {
        let before = commits(calls.drop_last());
        match (calls.last(), being_recorded(calls.drop_last())) {
            (DiagnosticsCall::CommitFrame, Some(recorded)) => before.push(recorded),
            _ => before,
        }
    }
}

/// The committed frames, each once, the one whose last commit is longest ago first.
pub open spec fn by_last_commit(commits: Seq<(i32, DetailView)>) -> Seq<i32>
    decreases commits.len(),
{
    if commits.len() == 0 {
        Seq::empty()
    } else {
        committed(by_last_commit(commits.drop_last()), commits.last().0)
    }
}

/// What was recorded for each committed frame at its last commit.
pub open spec fn last_recorded(commits: Seq<(i32, DetailView)>) -> Map<i32, DetailView>
    decreases commits.len(),
{
    if commits.len() == 0 {
        Map::empty()
    } else {
        last_recorded(commits.drop_last()).insert(commits.last().0, commits.last().1)
    }
}

/// The commit in this place is the last one of its frame.
pub open spec fn is_last_commit(commits: Seq<(i32, DetailView)>, place: int) -> bool {
    &&& 0 <= place < commits.len()
    &&& forall|later: int|
        place < later < commits.len() ==> (#[trigger] commits[later]).0 != commits[place].0
}

/// It makes no difference whether the frames beyond the latest go before a commit or only after it.
pub proof fn law_latest_early(order: Seq<i32>, frame: i32, count: nat)
    requires
        order.no_duplicates(),
    ensures
        latest(committed(latest(order, count), frame), count) == latest(
            committed(order, frame),
            count,
        ),
{
    if order.len() > count {
        let cut = order.len() - count;
        let gone = order.take(cut);
        let held = order.skip(cut);
        assert(gone + held =~= order);
        Seq::filter_distributes_over_add(gone, held, |other: i32| other != frame);
        lemma_committed(held, frame);
        if held.contains(frame) {
            assert(!gone.contains(frame));
        } else {
            lemma_filter_absent(held, frame);
        }
        assert(committed(order, frame) =~= without(gone, frame) + committed(held, frame));
        assert(latest(committed(order, frame), count) =~= latest(committed(held, frame), count));
    }
}

/// Commits name every committed frame once, and in the order of the last commits.
pub proof fn law_order_is_of_last_commits(commits: Seq<(i32, DetailView)>)
    ensures
        by_last_commit(commits).no_duplicates(),
        by_last_commit(commits).to_set() == last_recorded(commits).dom(),
        forall|place: int| #[trigger]
            is_last_commit(commits, place) ==> by_last_commit(commits).contains(commits[place].0)
                && last_recorded(commits)[commits[place].0] == commits[place].1,
        forall|first: int, second: int|
            #![trigger is_last_commit(commits, first), is_last_commit(commits, second)]
            is_last_commit(commits, first) && is_last_commit(commits, second) && first < second
                ==> by_last_commit(commits).index_of(commits[first].0) < by_last_commit(
                commits,
            ).index_of(commits[second].0),
    decreases commits.len(),
{
    let order = by_last_commit(commits);
    if commits.len() == 0 {
        assert(order.to_set() =~= last_recorded(commits).dom());
    } else {
        let rest = commits.drop_last();
        let before = by_last_commit(rest);
        let frame = commits.last().0;
        law_order_is_of_last_commits(rest);
        lemma_committed(before, frame);
        lemma_places(before, frame);
        assert(order.to_set() =~= last_recorded(commits).dom());
        let last = commits.len() - 1;
        assert forall|place: int| #[trigger] is_last_commit(commits, place) && place
            < last implies is_last_commit(rest, place) && commits[place].0 != frame
            && rest[place] == commits[place] by {
            assert(commits[last].0 == frame);
            assert forall|later: int| place < later < rest.len() implies (#[trigger] rest[later]).0
                != rest[place].0 by {
                assert(commits[later] == rest[later]);
            }
        }
        assert forall|place: int| #[trigger] is_last_commit(commits, place) implies order.contains(
            commits[place].0,
        ) && last_recorded(commits)[commits[place].0] == commits[place].1 by {
            if place < last {
                assert(is_last_commit(rest, place));
                assert(order.to_set().contains(commits[place].0));
            } else {
                assert(order.last() == frame);
            }
        }
        assert forall|first: int, second: int|
            #![trigger is_last_commit(commits, first), is_last_commit(commits, second)]
            is_last_commit(commits, first) && is_last_commit(commits, second) && first
                < second implies order.index_of(commits[first].0) < order.index_of(
            commits[second].0,
        ) by {
            assert(is_last_commit(rest, first));
            if second < last {
                assert(is_last_commit(rest, second));
            }
        }
    }
}

/// A commit puts its frame last and leaves the others in the order that they had.
proof fn lemma_places(order: Seq<i32>, frame: i32)
    requires
        order.no_duplicates(),
    ensures
        forall|first: i32, second: i32|
            #![trigger order.index_of(first), order.index_of(second)]
            order.contains(first) && order.contains(second) && first != frame && second != frame
                && order.index_of(first) < order.index_of(second) ==> committed(
                order,
                frame,
            ).index_of(first) < committed(order, frame).index_of(second),
        forall|first: i32| #[trigger]
            order.contains(first) && first != frame ==> committed(order, frame).index_of(first)
                < committed(order, frame).index_of(frame),
{
    let kept = without(order, frame);
    let after = committed(order, frame);
    lemma_committed(order, frame);
    lemma_filtered(order, frame);
    assert forall|first: i32, second: i32|
        #![trigger order.index_of(first), order.index_of(second)]
        order.contains(first) && order.contains(second) && first != frame && second != frame
            && order.index_of(first) < order.index_of(second) implies after.index_of(first)
        < after.index_of(second) by {
        let (i, j) = lemma_kept_in_order(order, frame, order.index_of(first), order.index_of(second));
        assert(after[i] == first && after[j] == second);
    }
    assert forall|first: i32| #[trigger] order.contains(first) && first
        != frame implies after.index_of(first) < after.index_of(frame) by {
        assert(kept.contains(first));
        let i = kept.index_of(first);
        assert(after[i] == first && after[kept.len() as int] == frame);
    }
}

/// Where two frames stand once another frame is taken out: still the one before the other.
proof fn lemma_kept_in_order(order: Seq<i32>, frame: i32, first: int, second: int) -> (places: (
    int,
    int,
))
    requires
        order.no_duplicates(),
        0 <= first < second < order.len(),
        order[first] != frame,
        order[second] != frame,
    ensures
        0 <= places.0 < places.1 < without(order, frame).len(),
        without(order, frame)[places.0] == order[first],
        without(order, frame)[places.1] == order[second],
    decreases order.len(),
{
    reveal(Seq::filter);
    let rest = order.drop_last();
    if second < rest.len() {
        lemma_kept_in_order(rest, frame, first, second)
    } else {
        lemma_filtered(rest, frame);
        assert(rest.contains(rest[first]));
        assert(without(rest, frame).contains(order[first]));
        (without(rest, frame).index_of(order[first]), without(rest, frame).len() as int)
    }
}

/// Whatever calls are made of fresh diagnostics, the history holds the frames with the most recent
/// last commits, as many as it may have, and of each what was recorded for its last commit.
pub proof fn law_history_is_of_latest_commits(history_length: usize, calls: Seq<DiagnosticsCall>)
    ensures
        ({
            let after = DiagnosticsView::initial(history_length).after_all(calls);
            let all = by_last_commit(commits(calls));
            &&& after.valid()
            &&& after.history_length == history_length
            &&& after.pending == being_recorded(calls)
            &&& after.order == latest(all, history_length as nat)
            &&& after.order.len() == (if all.len() <= history_length {
                all.len()
            } else {
                history_length as nat
            })
            &&& after.history == last_recorded(commits(calls)).restrict(after.order.to_set())
        }),
    decreases calls.len(),
{
    let start = DiagnosticsView::initial(history_length);
    let made = commits(calls);
    law_order_is_of_last_commits(made);
    if calls.len() == 0 {
        assert(start.order.to_set() =~= start.history.dom());
        assert(start.history =~= last_recorded(made).restrict(start.order.to_set()));
    } else {
        let rest = calls.drop_last();
        let before = start.after_all(rest);
        law_history_is_of_latest_commits(history_length, rest);
        law_commit_stays_valid(before);
        if let (DiagnosticsCall::CommitFrame, Some((frame, detail))) = (
            calls.last(),
            being_recorded(rest),
        ) {
            let all = by_last_commit(commits(rest));
            law_order_is_of_last_commits(commits(rest));
            law_latest_early(all, frame, history_length as nat);
            assert(made.drop_last() =~= commits(rest));
            let after = before.commit_frame();
            assert(after.history =~= last_recorded(made).restrict(after.order.to_set())) by {
                assert forall|held: i32| after.order.to_set().contains(held) && held
                    != frame implies before.order.to_set().contains(held) by {
                    lemma_committed(before.order, frame);
                    assert(committed(before.order, frame).to_set().contains(held));
                }
            }
        }
    }
}

/// Valid diagnostics name each frame of the history once, no other frame, and no more than the history
/// may have.
pub proof fn law_valid_history(diagnostics: DiagnosticsView, frame: i32)
    requires
        diagnostics.valid(),
    ensures
        diagnostics.order.no_duplicates(),
        diagnostics.order.contains(frame) <==> diagnostics.history.contains_key(frame),
        diagnostics.order.len() <= diagnostics.history_length,
        diagnostics.history.dom().finite(),
        diagnostics.history.dom().len() == diagnostics.order.len(),
{
    diagnostics.order.unique_seq_to_set();
    assert(diagnostics.order.to_set().contains(frame) <==> diagnostics.history.dom().contains(frame));
}

/// A frame begins with nothing recorded, whatever was recorded before, and the history stays as it is.
pub proof fn law_begin_starts_afresh(diagnostics: DiagnosticsView, frame: i32)
    ensures
        ({
            let after = diagnostics.begin_frame(frame);
            &&& after.pending is Some
            &&& (after.pending->0).0 == frame
            &&& (after.pending->0).1.type_checksums == Map::<Seq<char>, u128>::empty()
            &&& (after.pending->0).1.entity_checksums == Map::<(u64, Seq<char>), u64>::empty()
            &&& after.order == diagnostics.order
            &&& after.history == diagnostics.history
            &&& after.history_length == diagnostics.history_length
        }),
{
}

/// Recording a type's checksum sets that one and leaves everything else: the checksums of other types,
/// the hashes of entities, which frame is being recorded, and the history.
pub proof fn law_type_checksum_sets_one(
    diagnostics: DiagnosticsView,
    frame: i32,
    detail: DetailView,
    ty: Seq<char>,
    checksum: u128,
    other: Seq<char>,
)
    requires
        diagnostics.pending == Some((frame, detail)),
    ensures
        ({
            let after = diagnostics.record_type_checksum(ty, checksum);
            &&& after.pending is Some
            &&& (after.pending->0).0 == frame
            &&& (after.pending->0).1.type_checksums.contains_key(ty)
            &&& (after.pending->0).1.type_checksums[ty] == checksum
            &&& other != ty ==> ((after.pending->0).1.type_checksums.contains_key(other)
                <==> detail.type_checksums.contains_key(other))
            &&& other != ty && detail.type_checksums.contains_key(other)
                ==> (after.pending->0).1.type_checksums[other] == detail.type_checksums[other]
            &&& (after.pending->0).1.entity_checksums == detail.entity_checksums
            &&& after.order == diagnostics.order
            &&& after.history == diagnostics.history
            &&& after.history_length == diagnostics.history_length
        }),
{
}

/// Recording an entity's hash sets that one and leaves everything else: the hashes of other entities
/// and other types, the checksums of types, which frame is being recorded, and the history.
pub proof fn law_entity_hash_sets_one(
    diagnostics: DiagnosticsView,
    frame: i32,
    detail: DetailView,
    ty: Seq<char>,
    rollback_order: u64,
    hash: u64,
    other: (u64, Seq<char>),
)
    requires
        diagnostics.pending == Some((frame, detail)),
    ensures
        ({
            let after = diagnostics.record_entity_hash(ty, rollback_order, hash);
            let key = (rollback_order, ty);
            &&& after.pending is Some
            &&& (after.pending->0).0 == frame
            &&& (after.pending->0).1.entity_checksums.contains_key(key)
            &&& (after.pending->0).1.entity_checksums[key] == hash
            &&& other != key ==> ((after.pending->0).1.entity_checksums.contains_key(other)
                <==> detail.entity_checksums.contains_key(other))
            &&& other != key && detail.entity_checksums.contains_key(other)
                ==> (after.pending->0).1.entity_checksums[other] == detail.entity_checksums[other]
            &&& (after.pending->0).1.type_checksums == detail.type_checksums
            &&& after.order == diagnostics.order
            &&& after.history == diagnostics.history
            &&& after.history_length == diagnostics.history_length
        }),
{
}

/// A commit leaves nothing pending and the history length as it was. The frames other than the
/// committed one that it leaves are ones that were there, with the same details and in the same order,
/// and the committed frame stands behind them.
pub proof fn law_commit_keeps_the_others(
    diagnostics: DiagnosticsView,
    frame: i32,
    detail: DetailView,
    first: i32,
    second: i32,
)
    requires
        diagnostics.valid(),
        diagnostics.pending == Some((frame, detail)),
    ensures
        ({
            let before = diagnostics.order;
            let after = diagnostics.commit_frame();
            &&& after.pending is None
            &&& after.history_length == diagnostics.history_length
            &&& first != frame && after.history.contains_key(first)
                ==> diagnostics.history.contains_key(first) && after.history[first]
                == diagnostics.history[first]
            &&& first != frame && after.order.contains(first) ==> after.order.index_of(first)
                < after.order.index_of(frame)
            &&& first != frame && second != frame && after.order.contains(first)
                && after.order.contains(second) && before.index_of(first) < before.index_of(second)
                ==> after.order.index_of(first) < after.order.index_of(second)
        }),
{
    let before = diagnostics.order;
    let after = diagnostics.commit_frame();
    let whole = committed(before, frame);
    lemma_committed(before, frame);
    lemma_places(before, frame);
    let cut = whole.len() - after.order.len();
    assert forall|held: i32| #[trigger] after.order.contains(held) implies whole.contains(held)
        && after.order.index_of(held) == whole.index_of(held) - cut by {
        let i = after.order.index_of(held);
        assert(whole[i + cut] == held);
    }
    assert forall|held: i32| #[trigger] after.order.contains(held) && held
        != frame implies before.contains(held) by {
        assert(whole.to_set().contains(held));
        assert(before.to_set().contains(held));
    }
    if after.order.len() > 0 {
        assert(after.order[after.order.len() - 1] == frame);
    }
    if first != frame && after.history.contains_key(first) {
        assert(after.order.to_set().contains(first));
        assert(diagnostics.order.to_set().contains(first));
    }
}

} // verus!

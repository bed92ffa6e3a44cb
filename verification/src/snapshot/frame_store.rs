//! Values by frame number.

use crate::platform_map::{
    frame_index_capacity, frame_index_get, frame_index_insert, frame_index_remove,
    frame_index_reserve, frame_index_with_capacity, frame_positions, FrameIndex, MAX_RESERVED,
};
use vstd::prelude::*;

verus! {

/// A map from frame numbers to values. The values lie in `entries` in no particular order, each
/// beside its frame; `index` has the position of every frame.
pub struct FrameStore<As> {
    index: FrameIndex,
    entries: Vec<(i32, As)>,
}

impl<As> View for FrameStore<As> {
    type V = Map<i32, As>;

    closed spec fn view(&self) -> Map<i32, As> {
        Map::new(
            |frame: i32| frame_positions(self.index).contains_key(frame),
            |frame: i32| self.entries@[frame_positions(self.index)[frame] as int].1,
        )
    }
}

impl<As> FrameStore<As> {
    /// The index and the entries tell the same.
    pub closed spec fn wf(&self) -> bool {
        &&& forall|frame: i32| #[trigger]
            frame_positions(self.index).contains_key(frame) ==> {
                &&& frame_positions(self.index)[frame] < self.entries@.len()
                &&& self.entries@[frame_positions(self.index)[frame] as int].0 == frame
            }
        &&& forall|i: int|
            0 <= i < self.entries@.len() ==> {
                &&& frame_positions(self.index).contains_key((#[trigger] self.entries@[i]).0)
                &&& frame_positions(self.index)[self.entries@[i].0] == i
            }
    }

    /// The frames of the store, in the order of the entries.
    spec fn frames(&self) -> Seq<i32> {
        self.entries@.map_values(|entry: (i32, As)| entry.0)
    }

    /// There is one entry for each frame.
    proof fn lemma_len(&self)
        requires
            self.wf(),
        ensures
            self@.dom().finite(),
            self@.len() == self.entries@.len(),
            frame_positions(self.index).dom() == self@.dom(),
    {
        let frames = self.frames();
        frames.unique_seq_to_set();
        assert(self@.dom() =~= frames.to_set()) by {
            assert forall|frame: i32| self@.dom().contains(frame) implies frames.to_set().contains(
                frame,
            ) by {
                let i = frame_positions(self.index)[frame] as int;
                assert(frames[i] == frame);
            }
        }
    }

    /// A store holds finitely many frames.
    pub proof fn lemma_finite(&self)
        requires
            self.wf(),
        ensures
            self@.dom().finite(),
    {
        self.lemma_len();
    }

    /// A store without frames, with room for some.
    pub fn with_capacity(capacity: usize) -> (store: Self)
        requires
            capacity <= MAX_RESERVED,
        ensures
            store.wf(),
            store@ == Map::<i32, As>::empty(),
    {
        let store = FrameStore {
            index: frame_index_with_capacity(capacity),
            entries: Vec::with_capacity(capacity),
        };
        store
    }

    /// Makes room for `count` frames in all, ahead of time. The store holds what it held; what was
    /// allocated is left unsaid.
    pub fn reserve_total(&mut self, count: usize)
        requires
            old(self).wf(),
            count <= MAX_RESERVED,
        ensures
            final(self).wf(),
            final(self)@ == old(self)@,
    {
        proof {
            self.lemma_len();
        }
        let len = self.entries.len();
        if frame_index_capacity(&self.index) < count {
            frame_index_reserve(&mut self.index, count - len);
        }
        if len < count {
            // Where this early allocation is refused, `insert` makes room entry by entry.
            let _ = self.entries.try_reserve(count - len);
        }
    }

    /// Number of frames in the store.
    pub fn len(&self) -> (len: usize)
        requires
            self.wf(),
        ensures
            self@.dom().finite(),
            len == self@.len(),
    {
        proof {
            self.lemma_len();
        }
        self.entries.len()
    }

    /// The value of a frame.
    pub fn get(&self, frame: i32) -> (value: Option<&As>)
        requires
            self.wf(),
        ensures
            value == (if self@.contains_key(frame) {
                Some(&self@[frame])
            } else {
                None
            }),
    {
        match frame_index_get(&self.index, frame) {
            Some(position) => Some(&self.entries[position].1),
            None => None,
        }
    }

    /// Gives a frame a value, in place of any that it had.
    pub fn insert(&mut self, frame: i32, value: As)
        requires
            old(self).wf(),
        ensures
            final(self).wf(),
            final(self)@ == old(self)@.insert(frame, value),
    {
        match frame_index_get(&self.index, frame) {
            Some(position) => {
                self.entries[position] = (frame, value);
            },
            None => {
                let position = self.entries.len();
                self.entries.push((frame, value));
                frame_index_insert(&mut self.index, frame, position);
            },
        }
    }

    /// Drops the entry at a position; the last entry takes its place.
    fn remove_at(&mut self, position: usize)
        requires
            old(self).wf(),
            position < old(self).entries@.len(),
        ensures
            final(self).wf(),
            final(self)@ == old(self)@.remove(old(self).entries@[position as int].0),
            final(self).entries@ == old(self).entries@.update(
                position as int,
                old(self).entries@.last(),
            ).drop_last(),
    {
        let frame = self.entries[position].0;
        frame_index_remove(&mut self.index, frame);
        self.entries.swap_remove(position);
        if position < self.entries.len() {
            let moved = self.entries[position].0;
            frame_index_insert(&mut self.index, moved, position);
        }
    }

    /// Forgets a frame.
    pub fn remove(&mut self, frame: i32)
        requires
            old(self).wf(),
        ensures
            final(self).wf(),
            final(self)@ == old(self)@.remove(frame),
    {
        if let Some(position) = frame_index_get(&self.index, frame) {
            self.remove_at(position);
        }
    }

    /// The least frame number in the store.
    pub fn oldest(&self) -> (oldest: Option<i32>)
        requires
            self.wf(),
        ensures
            match oldest {
                Some(frame) => self@.contains_key(frame) && forall|other: i32| #[trigger]
                    self@.contains_key(other) ==> frame <= other,
                None => self@ == Map::<i32, As>::empty(),
            },
    {
        if self.entries.len() == 0 {
            return None;
        }
        let mut oldest: i32 = self.entries[0].0;
        let mut i: usize = 1;
        while i < self.entries.len()
            invariant
                self.wf(),
                1 <= i <= self.entries@.len(),
                self@.contains_key(oldest),
                forall|j: int| 0 <= j < i ==> oldest <= (#[trigger] self.entries@[j]).0,
            decreases self.entries@.len() - i,
        {
            if self.entries[i].0 < oldest {
                oldest = self.entries[i].0;
            }
            i += 1;
        }
        Some(oldest)
    }

    /// Forgets every frame before `first`.
    pub fn retain_from(&mut self, first: i32)
        requires
            old(self).wf(),
        ensures
            final(self).wf(),
            final(self)@ == old(self)@.restrict(Set::new(|frame: i32| frame >= first)),
    {
        let mut i: usize = 0;
        while i < self.entries.len()
            invariant
                self.wf(),
                i <= self.entries@.len(),
                self@.submap_of(old(self)@),
                forall|frame: i32| #[trigger]
                    old(self)@.contains_key(frame) && frame >= first ==> self@.contains_key(frame),
                forall|j: int| 0 <= j < i ==> (#[trigger] self.entries@[j]).0 >= first,
            decreases self.entries@.len() - i,
        {
            if self.entries[i].0 < first {
                self.remove_at(i);
            } else {
                i += 1;
            }
        }
    }
}

} // verus!

//! Frame numbers that the rollback loop keeps.

use vstd::prelude::*;
use vstd::std_specs::convert::FromSpecImpl;

verus! {

/// Keeps track of the current frame the rollback simulation is in.
#[derive(Debug, Clone, Copy, PartialEq, Eq, PartialOrd, Ord, Hash, Structural)]
pub struct RollbackFrameCount(pub i32);

/// The most recently confirmed frame. Any information for frames stored before this point can be
/// safely discarded.
#[derive(Debug, Clone, Copy, PartialEq, Eq, PartialOrd, Ord, Hash, Structural)]
pub struct ConfirmedFrameCount(pub i32);

/// How many frames a session may run ahead of the last confirmed frame.
#[derive(Debug, Clone, Copy, PartialEq, Eq, PartialOrd, Ord, Hash, Structural)]
pub struct MaxPredictionWindow(pub usize);

impl Default for RollbackFrameCount {
    fn default() -> (count: Self)
        ensures
            count == RollbackFrameCount(0),
    {
        RollbackFrameCount(0)
    }
}

impl Default for ConfirmedFrameCount {
    fn default() -> (count: Self)
        ensures
            count == ConfirmedFrameCount(0),
    {
        ConfirmedFrameCount(0)
    }
}

impl From<RollbackFrameCount> for i32 {
    fn from(value: RollbackFrameCount) -> (frame: i32)
        ensures
            frame == value.0,
    {
        value.0
    }
}

impl FromSpecImpl<RollbackFrameCount> for i32 {
    open spec fn obeys_from_spec() -> bool {
        true
    }

    open spec fn from_spec(value: RollbackFrameCount) -> i32 {
        value.0
    }
}

impl From<ConfirmedFrameCount> for i32 {
    fn from(value: ConfirmedFrameCount) -> (frame: i32)
        ensures
            frame == value.0,
    {
        value.0
    }
}

impl FromSpecImpl<ConfirmedFrameCount> for i32 {
    open spec fn obeys_from_spec() -> bool {
        true
    }

    open spec fn from_spec(value: ConfirmedFrameCount) -> i32 {
        value.0
    }
}

} // verus!

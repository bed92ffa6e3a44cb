//! Rollback bookkeeping for GGRS sessions in a Bevy world.
//!
//! [`snapshot`] keeps what a rollback needs: snapshots by frame and by entity, the entities that take
//! part, and a history of checksums. [`schedule_systems`] decides what the rollback loop does next.
//! [`derive`] works out how a type with `#[rollback(...)]` attributes is registered.
#![allow(unused_imports)]

use vstd::prelude::*;

pub mod derive;
pub mod frames;
mod platform_map;
pub mod schedule_systems;
pub mod snapshot;

pub use frames::{ConfirmedFrameCount, MaxPredictionWindow, RollbackFrameCount};
pub use platform_map::MAX_RESERVED;
pub use snapshot::checksum::checksum_hasher;
pub use snapshot::checksum_diagnostics::{
    ChecksumDiagnostics, ChecksumDiagnosticsPlugin, FrameChecksumDetail,
};
pub use snapshot::component::{GgrsComponentSnapshot, GgrsComponentSnapshots};
pub use snapshot::rollback_entity::{rollback_entity_observer, RollbackId, RollbackOrdered};
pub use snapshot::{GgrsResourceSnapshots, GgrsSnapshots};

verus! {

/// Frames per second that a session runs at unless told otherwise.
pub const DEFAULT_FPS: usize = 60;

} // verus!

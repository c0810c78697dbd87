//! Snapshot interpolation and client-side prediction for replicated entities.
//!
//! Remote entities are rendered by blending between the two most recent
//! authoritative snapshots; the local player's entity is predicted by replaying
//! the inputs the server has not yet acknowledged on top of the newest snapshot.
//!
//! Durations are counted in whole microseconds and blend positions in
//! millionths, so every step of the pipeline is exact integer arithmetic.
use crate::interpolation::SnapshotInterpolationConfig;
use vstd::prelude::*;

pub mod interpolation;
pub mod prediction;

verus! {

/// The stages of the per-frame work, in the order they run.
#[derive(PartialEq, Eq, Structural, Debug, Clone, Copy, Hash)]
pub enum InterpolationSet {
    /// Tags newly replicated entities and gives their values a snapshot buffer.
    Init,
    /// Blends interpolated entities and advances the clocks of predicted ones.
    Interpolate,
}

/// The settings that a host installs once for the whole pipeline.
pub struct SnapshotInterpolationPlugin {
    /// The server's maximum tick rate, in ticks per second.
    pub max_tick_rate: u16,
}

impl SnapshotInterpolationPlugin {
    /// The interpolation settings that this plugin installs.
    pub fn config(&self) -> (r: SnapshotInterpolationConfig)
        ensures
            r.max_tick_rate == self.max_tick_rate,
    {
        SnapshotInterpolationConfig { max_tick_rate: self.max_tick_rate }
    }
}

/// The identifier of the client that controls an entity.
pub struct NetworkOwner(pub u64);

} // verus!

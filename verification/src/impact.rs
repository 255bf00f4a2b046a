//! Authoritative impact feedback — the one-shot "a shot landed here" event
//! (server→client).

use vstd::prelude::*;
use bevy::ecs::entity::Entity;
use bevy::math::Vec3;

verus! {

/// The one-shot "a shot landed here" event.
#[derive(Clone, Copy, Debug, PartialEq)]
pub struct ImpactEvent {
    /// Where the shot authoritatively impacted, in world space.
    pub at: Vec3,
    /// Cosmetic key: the global id of the ability whose shot landed; `0` means
    /// no specific visual.
    pub vfx: u32,
    /// The unit the shot struck, if it struck one.
    pub victim: Option<Entity>,
    /// The shot this impact ended, or `0` when no shot produced it.
    pub shot: u32,
}

/// Reliable channel the one-shot impact events ride.
pub struct ImpactChannel;

} // verus!

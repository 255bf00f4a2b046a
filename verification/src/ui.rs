//! The interface's own wire request: a declared widget raising a mod-defined
//! event. It carries no entity and no payload — only the event's global id.

use vstd::prelude::*;

verus! {

/// Client→server request: raise the mod-defined event with this global id.
#[derive(Clone, Copy, Debug, PartialEq, Eq, Structural)]
pub struct UiTrigger {
    /// The event's opaque global id.
    pub event: u32,
}

/// Reliable channel the UI triggers ride.
pub struct UiTriggerChannel;

} // verus!

//! Replicated unit identity: the (global) id of the unit descriptor a
//! replicated entity was spawned from. An opaque number, never a name.

use vstd::prelude::*;

verus! {

/// The (global) id of the `UnitDescriptor` a replicated unit was spawned from.
/// Set once at spawn and never mutated.
#[derive(Clone, Copy, Debug, PartialEq, Eq, Hash, Structural)]
pub struct UnitTag(pub u32);

} // verus!

//! A unit's level — the public half of progression.
//!
//! The owner's progress toward the next level is fractional and lives with the
//! application's floating-point state; the level itself is a small integer.

use vstd::prelude::*;

verus! {

/// The level every unit stands at before it has earned anything.
pub const FIRST_LEVEL: u8 = 1;

/// A unit's current level. Defaults to [`FIRST_LEVEL`], not zero.
#[derive(Clone, Copy, Debug, PartialEq, Eq, Structural)]
pub struct UnitLevel(pub u8);

impl Default for UnitLevel {
    fn default() -> (l: Self)
        ensures
            l == UnitLevel(FIRST_LEVEL),
    {
        UnitLevel(FIRST_LEVEL)
    }
}

} // verus!

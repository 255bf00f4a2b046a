//! The replicated alive/dead state of a unit.

use vstd::prelude::*;

verus! {

/// Whether a replicated unit is up or down. Absent means alive.
#[derive(Clone, Copy, Debug, PartialEq, Eq, Structural)]
pub enum LifeState {
    /// Up and acting.
    Alive,
    /// Killed, and not yet returned.
    Downed,
}

impl Default for LifeState {
    /// A unit that has never died is alive.
    fn default() -> (s: Self)
        ensures
            s == LifeState::Alive,
    {
        LifeState::Alive
    }
}

impl LifeState {
    /// Whether this reads as dead.
    pub fn is_downed(self) -> (r: bool)
        ensures
            r <==> self == LifeState::Downed,
    {
        match self {
            LifeState::Downed => true,
            LifeState::Alive => false,
        }
    }
}

} // verus!

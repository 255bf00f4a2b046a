//! The cast intent (client→server): cast the ability bound to a slot, aimed at
//! a unit, a point, a direction, or nothing. Only a request; the server
//! validates and resolves it.

use vstd::prelude::*;
use bevy::ecs::entity::Entity;
use bevy::math::Vec3;

verus! {

/// How a cast is aimed.
#[derive(Clone, Copy, Debug, PartialEq)]
pub enum Aim {
    /// No target — a self-cast or an ability that needs no aim.
    Untargeted,
    /// A target unit, mapped to the receiver's id on arrival.
    Unit(Entity),
    /// A world-space ground point.
    Point(Vec3),
    /// A world-space aim direction.
    Vector(Vec3),
}

/// The unit an aim names, if it names one.
pub open spec fn spec_aim_unit(aim: Aim) -> Option<Entity> {
    match aim {
        Aim::Unit(e) => Some(e),
        _ => None,
    }
}

/// An aim with the unit it names replaced by `e`; an aim that names no unit
/// is left as it is.
pub open spec fn spec_aim_retarget(aim: Aim, e: Entity) -> Aim {
    match aim {
        Aim::Unit(_) => Aim::Unit(e),
        _ => aim,
    }
}

impl Aim {
    /// The unit this aim names, if it names one — the only part of an aim that
    /// has to be mapped into the receiver's own entities.
    pub fn unit(&self) -> (r: Option<Entity>)
        ensures
            r == spec_aim_unit(*self),
    {
        match self {
            Aim::Unit(e) => Some(*e),
            _ => None,
        }
    }

    /// This aim with the unit it names replaced by `e`; points, directions and
    /// an empty aim cross untouched.
    pub fn retarget(self, e: Entity) -> (r: Aim)
        ensures
            r == spec_aim_retarget(self, e),
    {
        match self {
            Aim::Unit(_) => Aim::Unit(e),
            other => other,
        }
    }
}

/// Client→server request to cast the ability in `slot`, aimed by `aim`.
#[derive(Clone, Copy, Debug, PartialEq)]
pub struct CastIntent {
    /// The raw slot index, interpreted against the caster's loadout server-side.
    pub slot: u8,
    /// How the cast is aimed.
    pub aim: Aim,
}

impl CastIntent {
    /// The unit this intent names, if any.
    pub fn unit_target(&self) -> (r: Option<Entity>)
        ensures
            r == spec_aim_unit(self.aim),
    {
        self.aim.unit()
    }

    /// This intent with the unit it names replaced by `e`; the slot never
    /// changes.
    pub fn retarget(self, e: Entity) -> (r: CastIntent)
        ensures
            r == (CastIntent { slot: self.slot, aim: spec_aim_retarget(self.aim, e) }),
    {
        CastIntent { slot: self.slot, aim: self.aim.retarget(e) }
    }
}

/// Reliable channel the cast intents ride.
pub struct CastIntentChannel;

/// Mapping an intent rewrites exactly a unit aim: an intent that names no unit
/// is unchanged by any mapping, one that names a unit names the mapped unit
/// afterwards, and mapping it back restores it.
pub proof fn law_cast_mapping_touches_only_a_unit_aim(intent: CastIntent, e: Entity)
    ensures
        spec_aim_unit(intent.aim) is None ==> spec_aim_retarget(intent.aim, e) == intent.aim,
        spec_aim_unit(intent.aim) is Some ==> spec_aim_unit(spec_aim_retarget(intent.aim, e))
            == Some(e),
        spec_aim_unit(intent.aim) matches Some(t) ==> spec_aim_retarget(
            spec_aim_retarget(intent.aim, e),
            t,
        ) == intent.aim,
{
}

} // verus!

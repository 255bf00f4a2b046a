//! The engine types the protocol carries but never looks inside: entity
//! handles and world-space vectors. The library moves them through its logic
//! as opaque values; what they hold is the engine's business.

use vstd::prelude::*;

verus! {

/// A handle to an engine entity, mapped across the wire by the receiver.
#[verifier::external_type_specification]
#[verifier::external_body]
pub struct ExEntity(bevy::ecs::entity::Entity);

/// A world-space point or direction.
#[verifier::external_type_specification]
#[verifier::external_body]
pub struct ExVec3(bevy::math::Vec3);

/// A ground point on the XZ world plane, stored as `(x, z)`.
#[verifier::external_type_specification]
#[verifier::external_body]
pub struct ExVec2(bevy::math::Vec2);

} // verus!

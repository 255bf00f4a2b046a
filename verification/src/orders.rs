//! Player orders on the wire (client→server).
//!
//! Every intent is an entry of the same kind ([`OrderKind`]), travelling with
//! whether it replaces the plan or is appended to it ([`OrderMode`]). Every
//! order is a request; the server owns the queue.

use vstd::prelude::*;
use bevy::ecs::entity::Entity;
use bevy::math::Vec3;
use crate::cast::{Aim, spec_aim_unit, spec_aim_retarget};

verus! {

/// What a single order tells a unit to do.
#[derive(Clone, Copy, Debug, PartialEq)]
pub enum OrderKind {
    /// Walk to a world-space ground point.
    Move { target: Vec3 },
    /// Engage a specific unit until it dies or stops being a legal target.
    Attack { target: Entity },
    /// Walk to a ground point, engaging legal targets on the way.
    AttackMove { target: Vec3 },
    /// Cast the ability in `slot`, aimed by `aim`, when this entry comes up.
    Cast { slot: u8, aim: Aim },
    /// Drop everything: clear the queue and abandon the current action.
    Stop,
    /// Clear the queue and hold position.
    Hold,
}

/// Whether an order replaces the plan or extends it.
#[derive(Clone, Copy, Debug, Default, PartialEq, Eq, Structural)]
pub enum OrderMode {
    /// Clear the queue and start this order now — a plain click.
    #[default]
    Replace,
    /// Add this order to the end of the plan — a queued click.
    Append,
}

/// Client→server request to give the sender's controlled unit an order.
#[derive(Clone, Copy, Debug, PartialEq)]
pub struct OrderRequest {
    /// What to do.
    pub kind: OrderKind,
    /// Whether it replaces the plan or is appended to it.
    pub mode: OrderMode,
}

/// The unit an order names, if it names one: an attack's target, or a queued
/// cast aimed at a unit.
pub open spec fn spec_kind_unit(kind: OrderKind) -> Option<Entity> {
    match kind {
        OrderKind::Attack { target } => Some(target),
        OrderKind::Cast { aim, .. } => spec_aim_unit(aim),
        _ => None,
    }
}

/// An order kind with the unit it names replaced by `e`.
pub open spec fn spec_kind_retarget(kind: OrderKind, e: Entity) -> OrderKind {
    match kind {
        OrderKind::Attack { .. } => OrderKind::Attack { target: e },
        OrderKind::Cast { slot, aim } => OrderKind::Cast { slot, aim: spec_aim_retarget(aim, e) },
        _ => kind,
    }
}

impl OrderRequest {
    /// A plain (queue-replacing) order.
    pub fn now(kind: OrderKind) -> (r: Self)
        ensures
            r == (OrderRequest { kind, mode: OrderMode::Replace }),
    {
        OrderRequest { kind, mode: OrderMode::Replace }
    }

    /// A queued order, appended behind whatever is already planned.
    pub fn queued(kind: OrderKind) -> (r: Self)
        ensures
            r == (OrderRequest { kind, mode: OrderMode::Append }),
    {
        OrderRequest { kind, mode: OrderMode::Append }
    }

    /// The unit this order names, if any — exactly the part of an order that
    /// must be mapped into the receiver's own entities.
    pub fn unit_target(&self) -> (r: Option<Entity>)
        ensures
            r == spec_kind_unit(self.kind),
    {
        match &self.kind {
            OrderKind::Attack { target } => Some(*target),
            OrderKind::Cast { aim, .. } => aim.unit(),
            OrderKind::Move { .. } | OrderKind::AttackMove { .. } | OrderKind::Stop
            | OrderKind::Hold => None,
        }
    }

    /// This order with the unit it names replaced by `e`. Points, slots and
    /// the mode cross untouched.
    pub fn retarget(self, e: Entity) -> (r: OrderRequest)
        ensures
            r == (OrderRequest { kind: spec_kind_retarget(self.kind, e), mode: self.mode }),
    {
        let kind = match self.kind {
            OrderKind::Attack { .. } => OrderKind::Attack { target: e },
            OrderKind::Cast { slot, aim } => OrderKind::Cast { slot, aim: aim.retarget(e) },
            other => other,
        };
        OrderRequest { kind, mode: self.mode }
    }
}

/// Reliable, ordered channel the orders ride.
pub struct OrderChannel;

/// Mapping an order rewrites exactly the kinds that name a unit: an order that
/// names none is unchanged by any mapping, one that names a unit names the
/// mapped unit afterwards, the mode never changes, and mapping back restores
/// the order.
pub proof fn law_order_mapping_touches_only_named_units(order: OrderRequest, e: Entity)
    ensures
        spec_kind_unit(order.kind) is None ==> spec_kind_retarget(order.kind, e) == order.kind,
        spec_kind_unit(order.kind) is Some ==> spec_kind_unit(spec_kind_retarget(order.kind, e))
            == Some(e),
        spec_kind_unit(order.kind) matches Some(t) ==> spec_kind_retarget(
            spec_kind_retarget(order.kind, e),
            t,
        ) == order.kind,
{
}

} // verus!

//! Entity mapping of orders and cast intents: exactly the parts that name a
//! unit are rewritten, and nothing else.

use bevy::ecs::entity::Entity;
use bevy::math::Vec3;
use stormlight_shared::cast::{Aim, CastIntent};
use stormlight_shared::orders::{OrderKind, OrderMode, OrderRequest};

fn unit(n: u32) -> Entity {
    Entity::from_raw_u32(n).expect("a valid entity index")
}

fn kinds() -> Vec<OrderKind> {
    let p = Vec3::new(1.0, 2.0, 3.0);
    vec![
        OrderKind::Move { target: p },
        OrderKind::Attack { target: unit(32) },
        OrderKind::AttackMove { target: p },
        OrderKind::Cast { slot: 2, aim: Aim::Untargeted },
        OrderKind::Cast { slot: 2, aim: Aim::Unit(unit(32)) },
        OrderKind::Cast { slot: 2, aim: Aim::Point(p) },
        OrderKind::Cast { slot: 2, aim: Aim::Vector(p) },
        OrderKind::Stop,
        OrderKind::Hold,
    ]
}

fn same_kind(a: &OrderKind, b: &OrderKind) -> bool {
    match (a, b) {
        (OrderKind::Move { target: x }, OrderKind::Move { target: y }) => x == y,
        (OrderKind::Attack { target: x }, OrderKind::Attack { target: y }) => x == y,
        (OrderKind::AttackMove { target: x }, OrderKind::AttackMove { target: y }) => x == y,
        (OrderKind::Cast { slot: s, aim: x }, OrderKind::Cast { slot: t, aim: y }) => {
            s == t && same_aim(x, y)
        }
        (OrderKind::Stop, OrderKind::Stop) | (OrderKind::Hold, OrderKind::Hold) => true,
        _ => false,
    }
}

fn same_aim(a: &Aim, b: &Aim) -> bool {
    match (a, b) {
        (Aim::Untargeted, Aim::Untargeted) => true,
        (Aim::Unit(x), Aim::Unit(y)) => x == y,
        (Aim::Point(x), Aim::Point(y)) | (Aim::Vector(x), Aim::Vector(y)) => x == y,
        _ => false,
    }
}

#[test]
fn exactly_the_kinds_that_name_a_unit_are_retargeted() {
    let mapped = unit(777);
    for kind in kinds() {
        for mode in [OrderMode::Replace, OrderMode::Append] {
            let order = OrderRequest { kind, mode };
            let after = order.retarget(mapped);
            assert_eq!(after.mode, mode, "the mode must never be remapped");
            match order.unit_target() {
                Some(_) => {
                    assert_eq!(after.unit_target(), Some(mapped));
                    assert!(!same_kind(&after.kind, &order.kind));
                    let back = after.retarget(order.unit_target().unwrap());
                    assert!(same_kind(&back.kind, &order.kind), "mapping back must restore the order");
                }
                None => {
                    assert!(same_kind(&after.kind, &order.kind), "an order naming no unit crosses untouched");
                    assert_eq!(after.unit_target(), None);
                }
            }
        }
    }
}

#[test]
fn an_attack_and_a_unit_aimed_cast_name_their_unit() {
    assert_eq!(OrderRequest::now(OrderKind::Attack { target: unit(5) }).unit_target(), Some(unit(5)));
    assert_eq!(
        OrderRequest::queued(OrderKind::Cast { slot: 1, aim: Aim::Unit(unit(6)) }).unit_target(),
        Some(unit(6))
    );
    assert_eq!(OrderRequest::now(OrderKind::Stop).unit_target(), None);
    assert_eq!(OrderRequest::now(OrderKind::Hold).mode, OrderMode::Replace);
    assert_eq!(OrderRequest::queued(OrderKind::Hold).mode, OrderMode::Append);
    assert_eq!(OrderMode::default(), OrderMode::Replace);
}

#[test]
fn a_cast_intent_maps_only_a_unit_aim() {
    let at_unit = CastIntent { slot: 3, aim: Aim::Unit(unit(1)) };
    let mapped = at_unit.retarget(unit(2));
    assert_eq!(mapped.slot, 3, "slot must never be remapped");
    assert_eq!(mapped.unit_target(), Some(unit(2)));

    let at_point = CastIntent { slot: 4, aim: Aim::Point(Vec3::X) };
    let same = at_point.retarget(unit(2));
    assert_eq!(same.slot, 4);
    assert!(same_aim(&same.aim, &at_point.aim), "non-unit aim must be untouched");
    assert_eq!(at_point.unit_target(), None);
    assert_eq!(Aim::Untargeted.unit(), None);
}

/// A small deterministic stream of seeds for the scenario tests below.
struct Seeds(u64);

impl Seeds {
    fn next(&mut self) -> u64 {
        let mut x = self.0;
        x ^= x >> 12;
        x ^= x << 25;
        x ^= x >> 27;
        self.0 = x;
        x.wrapping_mul(0x2545_F491_4F6C_DD1D)
    }
}

fn coord(seed: u16) -> f32 {
    (f32::from(seed) / f32::from(u16::MAX) - 0.5) * 200.0
}

fn entity(bits: u32) -> Entity {
    Entity::from_bits(u64::from(bits) | (1 << 32))
}

/// One scenario of the property tests: the raw seeds a case is built from.
struct Scenario {
    kind: u8,
    aim: u8,
    slot: u8,
    append: bool,
    entity_bits: u32,
    v: (u16, u16, u16),
}

impl Scenario {
    fn draw(seeds: &mut Seeds) -> Scenario {
        let a = seeds.next();
        let b = seeds.next();
        Scenario {
            kind: a as u8,
            aim: (a >> 8) as u8,
            slot: (a >> 16) as u8,
            append: (a >> 24) & 1 == 1,
            // An index of all ones is no entity at all: keep below it.
            entity_bits: ((a >> 32) as u32) % u32::MAX,
            v: (b as u16, (b >> 16) as u16, (b >> 32) as u16),
        }
    }

    fn point(&self) -> Vec3 {
        Vec3::new(coord(self.v.0), coord(self.v.1), coord(self.v.2))
    }

    fn aim(&self) -> Aim {
        match self.aim % 4 {
            0 => Aim::Untargeted,
            1 => Aim::Unit(entity(self.entity_bits)),
            2 => Aim::Point(self.point()),
            _ => Aim::Vector(self.point()),
        }
    }

    fn intent(&self) -> CastIntent {
        CastIntent { slot: self.slot, aim: self.aim() }
    }

    fn order(&self) -> OrderRequest {
        let kind = match self.kind % 6 {
            0 => OrderKind::Move { target: self.point() },
            1 => OrderKind::Attack { target: entity(self.entity_bits) },
            2 => OrderKind::AttackMove { target: self.point() },
            3 => OrderKind::Cast { slot: self.slot, aim: self.aim() },
            4 => OrderKind::Stop,
            _ => OrderKind::Hold,
        };
        let mode = if self.append { OrderMode::Append } else { OrderMode::Replace };
        OrderRequest { kind, mode }
    }
}

/// Entity mapping as the receiving side performs it: the unit an intent
/// names, if any, is replaced by what `mapper` gives for it.
fn map_intent(intent: CastIntent, mapper: impl Fn(Entity) -> Entity) -> CastIntent {
    match intent.unit_target() {
        Some(e) => intent.retarget(mapper(e)),
        None => intent,
    }
}

/// The same for an order.
fn map_order(order: OrderRequest, mapper: impl Fn(Entity) -> Entity) -> OrderRequest {
    match order.unit_target() {
        Some(e) => order.retarget(mapper(e)),
        None => order,
    }
}

#[test]
fn map_entities_only_rewrites_a_unit_aim() {
    let mut seeds = Seeds(0x5EED_CA57_1A7E_0001);
    for _ in 0..512 {
        let original = Scenario::draw(&mut seeds).intent();

        // Identity mapping never changes anything, for any aim.
        let id = map_intent(original, |e| e);
        assert_eq!(id, original, "identity mapping must be a no-op");

        // A redirecting mapping changes exactly the Unit case (to the target),
        // and leaves slot + non-unit aims untouched.
        let target = Entity::from_bits((1 << 32) | 777);
        let mapped = map_intent(original, |_| target);
        assert_eq!(mapped.slot, original.slot, "slot must never be remapped");
        match original.aim {
            Aim::Unit(_) => {
                assert_eq!(mapped.aim, Aim::Unit(target), "unit target must be remapped")
            }
            other => assert_eq!(mapped.aim, other, "non-unit aim must be untouched"),
        }
    }
}

#[test]
fn map_entities_rewrites_exactly_the_kinds_that_name_a_unit() {
    let mut seeds = Seeds(0x0DDE_12ED_5EED_0002);
    for _ in 0..512 {
        let original = Scenario::draw(&mut seeds).order();

        // Identity mapping never changes anything, for any kind.
        let id = map_order(original, |e| e);
        assert_eq!(id, original, "identity mapping must be a no-op");

        let target = entity(777);
        let mapped = map_order(original, |_| target);
        assert_eq!(mapped.mode, original.mode, "the mode must never be remapped");

        match &original.kind {
            OrderKind::Attack { .. } => assert_eq!(
                mapped.kind,
                OrderKind::Attack { target },
                "an attack order's target must be remapped into the server's id space",
            ),
            OrderKind::Cast { slot, aim: Aim::Unit(_) } => assert_eq!(
                mapped.kind,
                OrderKind::Cast { slot: *slot, aim: Aim::Unit(target) },
                "a queued cast aimed at a unit must be remapped",
            ),
            other => assert_eq!(
                &mapped.kind, other,
                "an order that names no unit must cross the wire untouched",
            ),
        }
    }
}

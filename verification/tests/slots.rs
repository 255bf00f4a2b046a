//! Invariants of the owner-scoped ability-slot view: the frame, the deadline
//! and the local sweep toward it. Each property is checked over a
//! deterministic spread of generated slot sets.

use stormlight_shared::slots::{
    decode, encode, ReplicatedSlots, SlotState, Tick, AFFORDABLE, MAX_COOLDOWN_TICKS, MAX_SLOTS,
    SLOT_ENTRY_LEN, UNGATED,
};

/// A small deterministic generator (xorshift64*).
struct Gen(u64);

impl Gen {
    fn new(seed: u64) -> Self {
        Gen(seed.wrapping_mul(0x9E37_79B9_7F4A_7C15) | 1)
    }
    fn next(&mut self) -> u64 {
        let mut x = self.0;
        x ^= x >> 12;
        x ^= x << 25;
        x ^= x >> 27;
        self.0 = x;
        x.wrapping_mul(0x2545_F491_4F6C_DD1D)
    }
    fn u8(&mut self) -> u8 {
        self.next() as u8
    }
    fn u16(&mut self) -> u16 {
        self.next() as u16
    }
    fn u32(&mut self) -> u32 {
        self.next() as u32
    }
    fn len(&mut self, max: usize) -> usize {
        (self.next() % (max as u64 + 1)) as usize
    }
}

/// The fill fraction a cooldown sweep draws: remaining over length, clamped,
/// and empty for a slot with no cooldown length.
fn fraction(slot: &SlotState, now: Tick) -> f32 {
    if slot.cooldown_ticks == 0 {
        return 0.0;
    }
    (f32::from(slot.remaining_ticks(now)) / f32::from(slot.cooldown_ticks)).clamp(0.0, 1.0)
}

/// Raw seeds for one slot.
struct SlotSeed {
    slot: u8,
    ability: u32,
    cooldown: u16,
    elapsed: u8,
    charges: u8,
    flags: u8,
}

fn slot_seed(g: &mut Gen) -> SlotSeed {
    SlotSeed {
        slot: g.u8() % 6,
        ability: g.u32(),
        cooldown: g.u16(),
        elapsed: g.u8(),
        charges: g.u8(),
        flags: g.u8(),
    }
}

fn slot_of(seed: &SlotSeed, now: Tick) -> SlotState {
    let cooldown = seed.cooldown.min(MAX_COOLDOWN_TICKS);
    let remaining =
        u16::try_from(u32::from(cooldown) * u32::from(seed.elapsed) / u32::from(u8::MAX))
            .unwrap_or(cooldown);
    SlotState {
        slot: seed.slot,
        ability: seed.ability,
        ready_at: Tick(now.0.wrapping_add(remaining)),
        cooldown_ticks: cooldown,
        charges: seed.charges,
        flags: seed.flags,
    }
}

fn scenario(g: &mut Gen) -> (ReplicatedSlots, Tick) {
    let n = if g.next() % 16 == 0 { 250 + g.len(20) } else { g.len(12) };
    let seeds: Vec<SlotSeed> = (0..n).map(|_| slot_seed(g)).collect();
    let now = Tick(g.u16());
    (ReplicatedSlots(seeds.iter().map(|s| slot_of(s, now)).collect()), now)
}

const CASES: u64 = 300;

#[test]
fn the_frame_length_follows_from_the_slot_count() {
    for seed in 0..CASES {
        let (slots, _) = scenario(&mut Gen::new(seed));
        let kept = slots.0.len().min(MAX_SLOTS);
        assert_eq!(
            encode(&slots).len(),
            1 + kept * SLOT_ENTRY_LEN,
            "frame must be a count byte plus one fixed entry per replicated slot"
        );
    }
}

#[test]
fn a_slot_binding_survives_the_wire_exactly() {
    for seed in 0..CASES {
        let (slots, _) = scenario(&mut Gen::new(seed));
        let back = decode(&encode(&slots));
        let kept = slots.0.len().min(MAX_SLOTS);
        assert_eq!(back.0.len(), kept, "slot count must survive the wire");
        for (before, after) in slots.0.iter().take(kept).zip(back.0.iter()) {
            assert_eq!(before.slot, after.slot, "slot index must survive exactly");
            assert_eq!(before.ability, after.ability, "ability id must survive exactly");
            assert_eq!(before.charges, after.charges, "charge count must survive exactly");
            assert_eq!(before.flags, after.flags, "the castability verdict must survive exactly");
        }
    }
}

#[test]
fn the_deadline_survives_the_wire_exactly() {
    for seed in 0..CASES {
        let (slots, _) = scenario(&mut Gen::new(seed));
        let back = decode(&encode(&slots));
        for (before, after) in slots.0.iter().zip(back.0.iter()) {
            assert_eq!(before.ready_at, after.ready_at, "the deadline tick must survive exactly");
            assert_eq!(
                before.cooldown_ticks, after.cooldown_ticks,
                "the cooldown length must survive exactly"
            );
        }
    }
}

#[test]
fn the_local_sweep_never_reports_ready_before_the_deadline() {
    for seed in 0..CASES * 4 {
        let mut g = Gen::new(seed);
        let s = slot_seed(&mut g);
        let now = Tick(g.u16());
        let advance = g.u16() % MAX_COOLDOWN_TICKS;
        let slot = slot_of(&s, now);
        let later = Tick(now.0.wrapping_add(advance));

        let remaining_now = slot.remaining_ticks(now);
        if advance < remaining_now {
            assert!(
                !slot.ready(later),
                "slot {} reported ready {} ticks before its deadline",
                slot.slot,
                remaining_now - advance
            );
            assert!(
                slot.remaining_ticks(later) > 0,
                "a slot short of its deadline must still report time remaining"
            );
        }
        if advance >= remaining_now {
            assert!(slot.ready(later), "a slot past its deadline must report ready");
            assert_eq!(slot.remaining_ticks(later), 0, "a ready slot has no time remaining");
        }
    }
}

#[test]
fn the_local_sweep_only_ever_runs_down() {
    for seed in 0..CASES * 4 {
        let mut g = Gen::new(seed);
        let s = slot_seed(&mut g);
        let now = Tick(g.u16());
        let early = g.u16();
        let extra = g.u16();
        let slot = slot_of(&s, now);
        let first = Tick(now.0.wrapping_add(early % (MAX_COOLDOWN_TICKS / 2)));
        let second = Tick(first.0.wrapping_add(extra % (MAX_COOLDOWN_TICKS / 2)));

        assert!(
            slot.remaining_ticks(second) <= slot.remaining_ticks(first),
            "the local sweep ran backwards on slot {}",
            slot.slot
        );
        assert!(
            fraction(&slot, second) <= fraction(&slot, first) + f32::EPSILON,
            "the cooldown fill fraction ran backwards on slot {}",
            slot.slot
        );
        for at in [first, second] {
            assert!(
                (0.0..=1.0).contains(&fraction(&slot, at)),
                "the fill fraction must stay in [0, 1]"
            );
        }
        assert!(slot.ready(second) || !slot.ready(first), "a ready slot must not un-ready itself");
    }
}

#[test]
fn castability_needs_the_cooldown_and_every_flag() {
    for seed in 0..CASES {
        let (slots, now) = scenario(&mut Gen::new(seed));
        for slot in &slots.0 {
            let expected = slot.ready(now) && slot.affordable() && slot.ungated();
            assert_eq!(
                slot.castable(now),
                expected,
                "slot {} disagreed with its own parts (ready {}, affordable {}, ungated {})",
                slot.slot,
                slot.ready(now),
                slot.affordable(),
                slot.ungated()
            );
            if !slot.ready(now) {
                assert!(!slot.castable(now), "a slot on cooldown may never read castable");
            }
        }
    }
}

#[test]
fn the_flags_are_independent_bits() {
    for bits in 0..=u8::MAX {
        let slot = SlotState { flags: bits, ..SlotState::default() };
        assert_eq!(slot.affordable(), bits & AFFORDABLE != 0);
        assert_eq!(slot.ungated(), bits & UNGATED != 0);
    }
}

#[test]
fn slots_every_byte_sequence_decodes_without_panicking() {
    for seed in 0..CASES * 4 {
        let mut g = Gen::new(seed);
        let n = g.len(80);
        let bytes: Vec<u8> = (0..n).map(|_| g.u8()).collect();
        let now = Tick(g.u16());
        let slots = decode(&bytes);
        let available = bytes.len().saturating_sub(1) / SLOT_ENTRY_LEN;
        assert!(
            slots.0.len() <= available,
            "decoded {} slots from a frame carrying at most {available}",
            slots.0.len()
        );
        for slot in &slots.0 {
            let f = fraction(slot, now);
            assert!(f.is_finite() && (0.0..=1.0).contains(&f), "fill fraction escaped [0, 1]");
            assert!(
                slot.remaining_ticks(now) <= MAX_COOLDOWN_TICKS,
                "a decoded deadline must stay inside the representable window"
            );
        }
    }
}

#[test]
fn decoding_arbitrary_slot_frames_stays_sane() {
    for seed in 0..CASES * 4 {
        let mut g = Gen::new(seed ^ 0xF00D);
        let n = g.len(80);
        let bytes: Vec<u8> = (0..n).map(|_| g.u8()).collect();
        let now = Tick(g.u16());
        let advance = g.u16();
        let slots = decode(&bytes);
        assert!(
            slots.0.len() <= bytes.len().saturating_sub(1) / SLOT_ENTRY_LEN,
            "the count byte must never be trusted past the bytes that follow it"
        );
        let later = Tick(now.0.wrapping_add(advance % (MAX_COOLDOWN_TICKS / 2)));
        for slot in &slots.0 {
            for at in [now, later] {
                let fill = fraction(slot, at);
                assert!(fill.is_finite(), "a decoded slot produced a non-finite fill fraction");
                assert!((0.0..=1.0).contains(&fill), "fill fraction escaped [0, 1]");
                assert!(
                    slot.remaining_ticks(at) <= MAX_COOLDOWN_TICKS,
                    "a decoded deadline must stay inside the representable window"
                );
                assert!(slot.ready(at) || !slot.castable(at));
            }
            if slot.remaining_ticks(now) > 0 {
                assert!(slot.remaining_ticks(later) <= slot.remaining_ticks(now));
            }
        }
    }
}

#[test]
fn the_tick_difference_is_signed_and_wraps() {
    assert_eq!(Tick(2).diff(Tick(1)), 1);
    assert_eq!(Tick(1).diff(Tick(2)), -1);
    assert_eq!(Tick(0).diff(Tick(65535)), 1);
    assert_eq!(Tick(65535).diff(Tick(0)), -1);
    assert_eq!(Tick(32767).diff(Tick(0)), 32767);
    assert_eq!(Tick(32768).diff(Tick(0)), -32768);
}

#[test]
fn a_deadline_counts_down_to_ready_across_the_wrap() {
    let slot = SlotState {
        slot: 2,
        ability: 77,
        ready_at: Tick(5),
        cooldown_ticks: 20,
        charges: 0,
        flags: AFFORDABLE | UNGATED,
    };
    assert_eq!(slot.remaining_ticks(Tick(65530)), 11);
    assert!(!slot.ready(Tick(65530)));
    assert!(!slot.castable(Tick(65530)));
    assert_eq!(slot.remaining_ticks(Tick(5)), 0);
    assert!(slot.castable(Tick(5)));
    assert_eq!(slot.remaining_ticks(Tick(100)), 0);
    let unpaid = SlotState { flags: UNGATED, ..slot };
    assert!(unpaid.ready(Tick(5)) && !unpaid.castable(Tick(5)));
}

#[test]
fn a_slot_frame_has_the_documented_byte_layout() {
    let slots = ReplicatedSlots(vec![SlotState {
        slot: 3,
        ability: 0x0102_0304,
        ready_at: Tick(0x0506),
        cooldown_ticks: 0x0708,
        charges: 9,
        flags: 2,
    }]);
    assert_eq!(encode(&slots), vec![1, 3, 1, 2, 3, 4, 5, 6, 7, 8, 9, 2]);
    assert_eq!(slots.slot(3).map(|s| s.ability), Some(0x0102_0304));
    assert_eq!(slots.slot(4), None);
}

#[test]
fn a_decoded_slot_frame_re_encodes_to_the_same_bytes() {
    for seed in 0..CASES {
        let mut g = Gen::new(seed ^ 0xBEEF);
        let count = g.len(5) as u8;
        let mut bytes = vec![count];
        for _ in 0..usize::from(count) * SLOT_ENTRY_LEN {
            bytes.push(g.u8());
        }
        assert_eq!(encode(&decode(&bytes)), bytes);
    }
}

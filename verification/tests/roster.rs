//! Invariants of the roster frame — who is playing, on which side, driving
//! which unit. Each property is checked over a deterministic spread of
//! generated rosters.

use stormlight_shared::roster::{
    decode, encode, Roster, RosterEntry, MAX_SEATED, ROSTER_ENTRY_LEN,
};

/// A small deterministic generator (xorshift64*).
struct Gen(u64);

impl Gen {
    fn new(seed: u64) -> Self {
        Gen(seed.wrapping_mul(0x9E37_79B9_7F4A_7C15) | 1)
    }
    fn next(&mut self) -> u64 {
        let mut x = self.0;
        x ^= x >> 12;
        x ^= x << 25;
        x ^= x >> 27;
        self.0 = x;
        x.wrapping_mul(0x2545_F491_4F6C_DD1D)
    }
    fn u8(&mut self) -> u8 {
        self.next() as u8
    }
    fn u16(&mut self) -> u16 {
        self.next() as u16
    }
    fn u32(&mut self) -> u32 {
        self.next() as u32
    }
    fn bool(&mut self) -> bool {
        self.next() & 1 == 1
    }
    fn len(&mut self, max: usize) -> usize {
        (self.next() % (max as u64 + 1)) as usize
    }
}

/// Raw seeds for one seated player.
struct SeatSeed {
    seat: u16,
    side: u16,
    unit: u32,
    drives: bool,
}

fn seat_seed(g: &mut Gen) -> SeatSeed {
    // Small seat numbers so lookups and collisions actually happen.
    SeatSeed { seat: g.u16() % 8, side: g.u16(), unit: g.u32() % 3, drives: g.bool() }
}

fn entry_of(seed: &SeatSeed) -> RosterEntry {
    RosterEntry { seat: seed.seat, side: seed.side, unit: seed.drives.then_some(seed.unit) }
}

fn scenario(g: &mut Gen) -> Vec<SeatSeed> {
    // Mostly short lists, now and then one past the count byte's range.
    let n = if g.next() % 16 == 0 { 250 + g.len(20) } else { g.len(12) };
    (0..n).map(|_| seat_seed(g)).collect()
}

fn roster_of(seeds: &[SeatSeed]) -> Roster {
    Roster(seeds.iter().map(entry_of).collect())
}

const CASES: u64 = 300;

#[test]
fn the_frame_length_follows_from_the_seat_count() {
    for seed in 0..CASES {
        let mut g = Gen::new(seed);
        let roster = roster_of(&scenario(&mut g));
        let kept = roster.0.len().min(MAX_SEATED);
        assert_eq!(
            encode(&roster).len(),
            1 + kept * ROSTER_ENTRY_LEN,
            "frame must be a count byte plus one fixed entry per seated player"
        );
    }
}

#[test]
fn a_seated_player_survives_the_wire_exactly() {
    for seed in 0..CASES {
        let mut g = Gen::new(seed);
        let roster = roster_of(&scenario(&mut g));
        let back = decode(&encode(&roster));
        let kept = roster.0.len().min(MAX_SEATED);
        assert_eq!(back.0.len(), kept, "the seat count must survive the wire");
        for (before, after) in roster.0.iter().take(kept).zip(back.0.iter()) {
            assert_eq!(before.seat, after.seat, "the seat must survive exactly");
            assert_eq!(before.side, after.side, "the side must survive exactly");
            assert_eq!(before.unit, after.unit, "the unit link must survive exactly");
        }
    }
}

#[test]
fn a_seat_with_no_unit_stays_absent_rather_than_becoming_a_unit() {
    for seed in 0..CASES {
        let mut g = Gen::new(seed);
        let roster = roster_of(&scenario(&mut g));
        let back = decode(&encode(&roster));
        for (before, after) in roster.0.iter().zip(back.0.iter()) {
            assert_eq!(
                before.unit.is_none(),
                after.unit.is_none(),
                "an absent unit must stay absent across the wire, whatever id sits beside it"
            );
        }
    }
}

#[test]
fn a_seat_is_found_by_its_own_number_and_nothing_else() {
    for seed in 0..CASES {
        let mut g = Gen::new(seed);
        let roster = roster_of(&scenario(&mut g));
        let seat = g.u16() % 10;
        match roster.entry(seat) {
            Some(entry) => {
                assert_eq!(entry.seat, seat, "a lookup answered with a different seat");
                assert_eq!(
                    roster.side_of(seat),
                    Some(entry.side),
                    "the side lookup must agree with the entry it came from"
                );
            }
            None => {
                assert!(
                    !roster.0.iter().any(|e| e.seat == seat),
                    "a seated player was not found by their own seat"
                );
                assert_eq!(roster.side_of(seat), None, "an unseated seat has no side");
            }
        }
    }
}

#[test]
fn seating_and_unseating_one_player_leaves_the_others_untouched() {
    for seed in 0..CASES {
        let mut g = Gen::new(seed);
        let before = roster_of(&scenario(&mut g));
        let joiner = seat_seed(&mut g);
        let leaves = g.u8();
        if before.0.len() >= MAX_SEATED {
            continue;
        }

        let mut joined = before.clone();
        joined.0.push(entry_of(&joiner));
        let joined_back = decode(&encode(&joined));
        for (i, entry) in before.0.iter().enumerate() {
            assert_eq!(joined_back.0[i], *entry, "seating a player disturbed seat index {i}");
        }

        if before.0.is_empty() {
            continue;
        }
        let gone = usize::from(leaves) % before.0.len();
        let mut left = before.clone();
        left.0.remove(gone);
        let left_back = decode(&encode(&left));
        for (i, entry) in before.0.iter().enumerate() {
            if i == gone {
                continue;
            }
            let moved = usize::from(i > gone);
            assert_eq!(
                left_back.0[i - moved],
                *entry,
                "unseating index {gone} disturbed the player at index {i}"
            );
        }
    }
}

#[test]
fn roster_every_byte_sequence_decodes_without_panicking() {
    for seed in 0..CASES * 4 {
        let mut g = Gen::new(seed);
        let n = g.len(64);
        let bytes: Vec<u8> = (0..n).map(|_| g.u8()).collect();
        let seat = g.u16() % 4;
        let roster = decode(&bytes);
        let available = bytes.len().saturating_sub(1) / ROSTER_ENTRY_LEN;
        assert!(
            roster.0.len() <= available,
            "decoded {} seats from a frame carrying at most {available}",
            roster.0.len()
        );
        assert!(roster.0.len() <= MAX_SEATED, "decoded more seats than the count byte can hold");
        assert_eq!(
            roster.entry(seat).map(|e| e.side),
            roster.side_of(seat),
            "the two lookups disagreed about a decoded roster"
        );
    }
}

#[test]
fn a_roster_frame_has_the_documented_byte_layout() {
    let roster = Roster(vec![
        RosterEntry { seat: 0x0102, side: 0x0304, unit: Some(0x0506_0708) },
        RosterEntry { seat: 7, side: 1, unit: None },
    ]);
    assert_eq!(
        encode(&roster),
        vec![2, 0x01, 0x02, 0x03, 0x04, 0x05, 0x06, 0x07, 0x08, 1, 0, 7, 0, 1, 0, 0, 0, 0, 0]
    );
    assert_eq!(roster.len(), 2);
    assert!(!roster.is_empty());
    assert!(Roster::default().is_empty());
}

#[test]
fn unit_zero_is_an_ordinary_unit_on_the_wire() {
    let roster = Roster(vec![RosterEntry { seat: 3, side: 0, unit: Some(0) }]);
    assert_eq!(decode(&encode(&roster)), roster);
}

#[test]
fn an_empty_frame_and_an_empty_roster_agree() {
    assert_eq!(encode(&Roster::default()), vec![0]);
    assert!(decode(&[]).is_empty());
    assert!(decode(&[0]).is_empty());
    // A count byte claiming three seats but carrying one yields the one.
    let mut frame = encode(&Roster(vec![RosterEntry { seat: 1, side: 2, unit: Some(9) }]));
    frame[0] = 3;
    frame.extend_from_slice(&[0xAA; 5]);
    assert_eq!(decode(&frame).0, vec![RosterEntry { seat: 1, side: 2, unit: Some(9) }]);
}

#[test]
fn the_first_of_two_entries_for_a_seat_answers() {
    let roster = Roster(vec![
        RosterEntry { seat: 4, side: 1, unit: None },
        RosterEntry { seat: 4, side: 2, unit: Some(5) },
    ]);
    assert_eq!(roster.entry(4), Some(&RosterEntry { seat: 4, side: 1, unit: None }));
    assert_eq!(roster.side_of(4), Some(1));
    assert_eq!(roster.side_of(5), None);
}

//! The fixed-layout frames: vitals, resource pools and the transform, plus
//! the smallest-three rotation word.

use stormlight_shared::pools::{decode_frame as decode_pools, pair_with_previous, encode_frame as encode_pools,
    PoolWire, MAX_POOLS, POOL_ENTRY_LEN};
use stormlight_shared::quantize::{decode_frame as decode_transform,
    encode_frame as encode_transform, pack_components, unpack_components, TransformWire,
    QUANTIZED_LEN};
use stormlight_shared::vitals::{decode_frame as decode_vitals, encode_frame as encode_vitals,
    VitalsWire, VITALS_LEN};

/// A small deterministic generator (xorshift64*).
struct Gen(u64);

impl Gen {
    fn new(seed: u64) -> Self {
        Gen(seed.wrapping_mul(0x9E37_79B9_7F4A_7C15) | 1)
    }
    fn next(&mut self) -> u64 {
        let mut x = self.0;
        x ^= x >> 12;
        x ^= x << 25;
        x ^= x >> 27;
        self.0 = x;
        x.wrapping_mul(0x2545_F491_4F6C_DD1D)
    }
}

#[test]
fn a_vitals_frame_has_the_documented_layout_and_round_trips() {
    let v = VitalsWire { max_hp: 0x0102_0304, hp: 0x0506, shield: 0x0708_090A };
    let frame = encode_vitals(&v);
    assert_eq!(frame, [1, 2, 3, 4, 5, 6, 7, 8, 9, 10]);
    assert_eq!(frame.len(), VITALS_LEN);
    assert_eq!(decode_vitals(&frame), v);
}

#[test]
fn every_vitals_frame_re_encodes_to_itself() {
    for seed in 0..500 {
        let mut g = Gen::new(seed);
        let mut frame = [0u8; VITALS_LEN];
        for b in frame.iter_mut() {
            *b = g.next() as u8;
        }
        assert_eq!(encode_vitals(&decode_vitals(&frame)), frame);
    }
}

#[test]
fn a_pool_frame_has_the_documented_layout() {
    let pools = vec![PoolWire { id: 7, max: 0x0000_0100, fill: 0xFFFF }];
    assert_eq!(encode_pools(&pools), vec![1, 0, 0, 0, 7, 0, 0, 1, 0, 0xFF, 0xFF]);
    assert_eq!(encode_pools(&Vec::new()), vec![0], "no pools cost one byte");
    assert!(decode_pools(&[0]).is_empty(), "no pools decode to no pools");
    assert!(decode_pools(&[]).is_empty());
}

#[test]
fn pool_identity_order_and_steps_survive_the_frame() {
    for seed in 0..300 {
        let mut g = Gen::new(seed);
        let n = if seed % 20 == 0 { 260 } else { (g.next() % 6) as usize };
        let pools: Vec<PoolWire> = (0..n)
            .map(|_| PoolWire { id: g.next() as u32, max: g.next() as u32, fill: g.next() as u16 })
            .collect();
        let frame = encode_pools(&pools);
        let kept = n.min(MAX_POOLS);
        assert_eq!(frame.len(), 1 + kept * POOL_ENTRY_LEN);
        assert_eq!(decode_pools(&frame), pools[..kept].to_vec());
    }
}

#[test]
fn a_pool_frame_is_trusted_only_as_far_as_its_bytes() {
    for seed in 0..500 {
        let mut g = Gen::new(seed ^ 0x5EED);
        let n = (g.next() % 48) as usize;
        let bytes: Vec<u8> = (0..n).map(|_| g.next() as u8).collect();
        let pools = decode_pools(&bytes);
        assert!(pools.len() <= bytes.len().saturating_sub(1) / POOL_ENTRY_LEN);
    }
}

#[test]
fn a_transform_frame_has_the_documented_layout_and_round_trips() {
    let w = TransformWire { translation: [1, -1, 1024], rotation: 0x8000_0001, scale: [256, -256, 0] };
    let frame = encode_transform(&w);
    assert_eq!(frame.len(), QUANTIZED_LEN);
    assert_eq!(
        frame,
        [
            0, 0, 0, 1, 0xFF, 0xFF, 0xFF, 0xFF, 0, 0, 4, 0, 0x80, 0, 0, 1, 1, 0, 0xFF, 0, 0, 0
        ]
    );
    assert_eq!(decode_transform(&frame), w);
}

#[test]
fn every_transform_frame_re_encodes_to_itself() {
    for seed in 0..500 {
        let mut g = Gen::new(seed);
        let mut frame = [0u8; QUANTIZED_LEN];
        for b in frame.iter_mut() {
            *b = g.next() as u8;
        }
        assert_eq!(encode_transform(&decode_transform(&frame)), frame);
    }
}

#[test]
fn the_rotation_word_packs_index_then_three_ten_bit_components() {
    assert_eq!(pack_components(3, [1023, 0, 1]), (3 << 30) | (1023 << 20) | 1);
    assert_eq!(pack_components(1, [5, 6, 7]), (1 << 30) | (5 << 20) | (6 << 10) | 7);
    // Components are kept to their ten bits.
    assert_eq!(pack_components(0, [1024 + 9, 0, 0]), 9 << 20);
    assert_eq!(unpack_components((2 << 30) | (511 << 20) | (512 << 10) | 3), (2, [511, 512, 3]));
}

#[test]
fn every_rotation_word_round_trips() {
    for seed in 0..2000 {
        let mut g = Gen::new(seed);
        let bits = g.next() as u32;
        let (largest, stored) = unpack_components(bits);
        assert!(largest < 4);
        assert_eq!(pack_components(largest, stored), bits);
        let l = (g.next() % 4) as u32;
        let c = [(g.next() % 1024) as u32, (g.next() % 1024) as u32, (g.next() % 1024) as u32];
        assert_eq!(unpack_components(pack_components(l, c)), (l, c));
    }
}

#[test]
fn an_incoming_pool_is_paired_with_its_first_namesake_or_nothing() {
    assert_eq!(pair_with_previous(&vec![3, 5, 3], &vec![5, 9, 3]), vec![Some(1), None, Some(0)]);
    assert_eq!(pair_with_previous(&vec![], &vec![1, 2]), vec![None, None]);
    assert!(pair_with_previous(&vec![1, 2], &vec![]).is_empty());
}

/// The quantized entry a pool seeded with a ceiling and a fill share crosses
/// the wire as: the ceiling in sixteenths, the share in `u16` steps, and an
/// empty share for a pool with no ceiling.
fn pool_of(id: u32, max: u16, fill: u16) -> PoolWire {
    PoolWire { id, max: u32::from(max) * 16, fill: if max == 0 { 0 } else { fill } }
}

/// A seeded pool list: mostly a handful of pools, empty now and then, and
/// once in a while more than a frame can carry.
fn pools_of(g: &mut Gen) -> Vec<PoolWire> {
    let n = match g.next() % 16 {
        0 => 0,
        1 => 300,
        k => (k % 6) as usize,
    };
    (0..n).map(|_| {
        let r = g.next();
        pool_of(r as u32, (r >> 32) as u16, (r >> 48) as u16)
    }).collect()
}

#[test]
fn the_frame_length_follows_from_the_pool_count() {
    for seed in 0..400 {
        let pools = pools_of(&mut Gen::new(seed));
        let frame = encode_pools(&pools);
        let kept = pools.len().min(MAX_POOLS);
        assert_eq!(
            frame.len(),
            1 + kept * POOL_ENTRY_LEN,
            "frame must be a count byte plus one fixed entry per replicated pool"
        );
    }
}

#[test]
fn emptiness_round_trips_exactly() {
    for seed in 0..400 {
        let pools = pools_of(&mut Gen::new(seed));
        let back = decode_pools(&encode_pools(&pools));
        assert_eq!(
            back.is_empty(),
            pools.is_empty(),
            "whether a unit has pools at all must survive the wire exactly"
        );
    }
    let empty: Vec<PoolWire> = Vec::new();
    assert!(decode_pools(&encode_pools(&empty)).is_empty(), "an empty list must decode back to empty");
    assert_eq!(encode_pools(&empty).len(), 1, "an empty list must cost only its count byte");
}

#[test]
fn pool_identity_and_order_survive_the_wire() {
    for seed in 0..400 {
        let pools = pools_of(&mut Gen::new(seed));
        let back = decode_pools(&encode_pools(&pools));
        let kept = pools.len().min(MAX_POOLS);
        assert_eq!(back.len(), kept, "pool count must survive the wire");
        for (before, after) in pools.iter().take(kept).zip(back.iter()) {
            assert_eq!(before.id, after.id, "pool id must survive the wire exactly");
        }
    }
}

#[test]
fn pools_every_byte_sequence_decodes_without_panicking() {
    for seed in 0..1000 {
        let mut g = Gen::new(seed);
        let len = (g.next() % 64) as usize;
        let bytes: Vec<u8> = (0..len).map(|_| g.next() as u8).collect();
        let back = decode_pools(&bytes);
        let available = bytes.len().saturating_sub(1) / POOL_ENTRY_LEN;
        assert!(
            back.len() <= available,
            "decoded {} pools from a frame that carries at most {available}",
            back.len()
        );
        let claimed = bytes.first().map_or(0, |&c| usize::from(c));
        assert_eq!(back.len(), claimed.min(available), "exactly the entries present are read");
    }
}

/// The quantized vitals a unit seeded with a ceiling, a fill share and a
/// shield crosses the wire as.
fn vitals_of(max: u16, fill: u16, shield: u16) -> VitalsWire {
    VitalsWire {
        max_hp: u32::from(max) * 16,
        hp: if max == 0 { 0 } else { fill },
        shield: u32::from(shield) * 16,
    }
}

#[test]
fn the_frame_is_fixed_length_and_smaller_than_the_raw_form() {
    for seed in 0..400 {
        let r = Gen::new(seed).next();
        let v = vitals_of(r as u16, (r >> 16) as u16, (r >> 32) as u16);
        assert_eq!(
            encode_vitals(&v).len(),
            VITALS_LEN,
            "encoder must emit a fixed {VITALS_LEN}-byte frame"
        );
        assert!(
            VITALS_LEN < 3 * std::mem::size_of::<f32>(),
            "quantized frame ({VITALS_LEN} B) must be smaller than the raw f32 triple"
        );
    }
}

#[test]
fn a_decoded_frame_is_a_stable_fixed_point() {
    for seed in 0..400 {
        let r = Gen::new(seed).next();
        let once = encode_vitals(&vitals_of(r as u16, (r >> 16) as u16, (r >> 32) as u16));
        let twice = encode_vitals(&decode_vitals(&once));
        assert_eq!(once, twice, "re-encoding a decoded frame must be byte-identical");
    }
}

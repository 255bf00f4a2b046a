//! The compact wire frame of a transform (translation, rotation, scale).
//!
//! | field       | encoding                                    | bytes |
//! | ----------- | ------------------------------------------- | ----- |
//! | translation | `i32` fixed-point per axis                   | 12    |
//! | rotation    | smallest-three unit quaternion in one `u32`  | 4     |
//! | scale       | `i16` fixed-point per axis                   | 6     |
//!
//! The rotation word packs the index of the quaternion's largest component in
//! its top two bits and the other three components at [`QUAT_COMPONENT_BITS`]
//! bits each below it. Turning floats into those integers is the application's
//! floating-point work; this module owns the integer layout.

use vstd::prelude::*;
use crate::bytes::{lemma_be16_value, lemma_be32_value};
use lightyear_serde::SerializationError;
use lightyear_serde::reader::Reader;
use lightyear_serde::writer::Writer;
use crate::bytes::{be16, be32, push_u16, push_u32, read_u16, read_u32, u16_at, u32_at, i16_bits,
    i16_of_bits, i32_bits, i32_of_bits, i16_to_bits, i16_from_bits, i32_to_bits, i32_from_bits,
    lemma_u16_round_trip, lemma_u32_round_trip, lemma_u16_bytes_round_trip,
    lemma_u32_bytes_round_trip, lemma_signed_bits_round_trip};
use crate::wire::{unread, written, room, after_write, write_frame, read_exact_frame};

verus! {

/// Bits per stored quaternion component in the smallest-three packing.
pub const QUAT_COMPONENT_BITS: u32 = 10;

/// Mask for one packed quaternion component.
pub const QUAT_COMPONENT_MASK: u32 = 1023;

/// Size of one encoded frame: 12 (position) + 4 (rotation) + 6 (scale).
pub const QUANTIZED_LEN: usize = 22;

/// The rotation word for a largest-component index and three stored
/// components, each kept to its low bits: the index in bits 30..32, then the
/// components at bits 20..30, 10..20 and 0..10.
pub open spec fn spec_pack(largest: u32, c0: u32, c1: u32, c2: u32) -> u32 {
    ((largest % 4) * 0x4000_0000 + (c0 % 1024) * 0x10_0000 + (c1 % 1024) * 0x400 + (c2 % 1024))
        as u32
}

/// Pack a largest-component index and the three other quantized components
/// into one rotation word. Each component is masked to its ten bits.
pub fn pack_components(largest: u32, stored: [u32; 3]) -> (bits: u32)
    ensures
        bits == spec_pack(largest, stored@[0], stored@[1], stored@[2]),
{
    let c0 = stored[0] % (QUAT_COMPONENT_MASK + 1);
    let c1 = stored[1] % (QUAT_COMPONENT_MASK + 1);
    let c2 = stored[2] % (QUAT_COMPONENT_MASK + 1);
    (largest % 4) * 0x4000_0000 + c0 * 0x10_0000 + c1 * 0x400 + c2
}

/// The largest-component index a rotation word holds.
pub open spec fn spec_largest(bits: u32) -> u32 {
    bits / 0x4000_0000
}

/// The `slot`-th stored component a rotation word holds.
pub open spec fn spec_stored(bits: u32, slot: int) -> u32 {
    if slot == 0 {
        (bits / 0x10_0000) % 1024
    } else if slot == 1 {
        (bits / 0x400) % 1024
    } else {
        bits % 1024
    }
}

/// Unpack a rotation word into its largest-component index (0..4) and its
/// three stored ten-bit components.
pub fn unpack_components(bits: u32) -> (r: (u32, [u32; 3]))
    ensures
        r.0 == spec_largest(bits),
        r.1@ == seq![spec_stored(bits, 0), spec_stored(bits, 1), spec_stored(bits, 2)],
        r.0 < 4,
        r.1@[0] <= QUAT_COMPONENT_MASK && r.1@[1] <= QUAT_COMPONENT_MASK && r.1@[2] <= QUAT_COMPONENT_MASK,
{
    let stored: [u32; 3] = [(bits / 0x10_0000) % 1024, (bits / 0x400) % 1024, bits % 1024];
    assert(stored@ =~= seq![spec_stored(bits, 0), spec_stored(bits, 1), spec_stored(bits, 2)]);
    (bits / 0x4000_0000, stored)
}

/// Packing then unpacking gives back the index and the components, for any
/// index below four and components within ten bits; and every word is the
/// packing of what it unpacks to.
pub proof fn law_rotation_word_round_trip(largest: u32, c0: u32, c1: u32, c2: u32, bits: u32)
    ensures
        largest < 4 && c0 < 1024 && c1 < 1024 && c2 < 1024 ==> {
            let w = spec_pack(largest, c0, c1, c2);
            &&& spec_largest(w) == largest
            &&& spec_stored(w, 0) == c0
            &&& spec_stored(w, 1) == c1
            &&& spec_stored(w, 2) == c2
        },
        spec_pack(spec_largest(bits), spec_stored(bits, 0), spec_stored(bits, 1), spec_stored(bits, 2))
            == bits,
{
    if largest < 4 && c0 < 1024 && c1 < 1024 && c2 < 1024 {
        let w = largest * 0x4000_0000 + c0 * 0x10_0000 + c1 * 0x400 + c2;
        assert(w / 0x4000_0000 == largest) by (nonlinear_arith)
            requires
                w == largest * 0x4000_0000 + c0 * 0x10_0000 + c1 * 0x400 + c2,
                c0 < 1024,
                c1 < 1024,
                c2 < 1024,
        ;
        assert((w / 0x10_0000) % 1024 == c0) by (nonlinear_arith)
            requires
                w == largest * 0x4000_0000 + c0 * 0x10_0000 + c1 * 0x400 + c2,
                largest < 4,
                c0 < 1024,
                c1 < 1024,
                c2 < 1024,
        ;
        assert((w / 0x400) % 1024 == c1) by (nonlinear_arith)
            requires
                w == largest * 0x4000_0000 + c0 * 0x10_0000 + c1 * 0x400 + c2,
                largest < 4,
                c0 < 1024,
                c1 < 1024,
                c2 < 1024,
        ;
        assert(w % 1024 == c2) by (nonlinear_arith)
            requires
                w == largest * 0x4000_0000 + c0 * 0x10_0000 + c1 * 0x400 + c2,
                largest < 4,
                c0 < 1024,
                c1 < 1024,
                c2 < 1024,
        ;
    }
    let b = bits as int;
    assert(b == (b / 0x4000_0000) * 0x4000_0000 + ((b / 0x10_0000) % 1024) * 0x10_0000 + ((b
        / 0x400) % 1024) * 0x400 + b % 1024) by (nonlinear_arith)
        requires
            0 <= b < 0x1_0000_0000,
    ;
}

/// Where packing puts each part of a rotation word, whatever it is given: the
/// index (modulo four) in the top two bits, the first stored component's low
/// ten bits in bits 20..30, the second's in bits 10..20 and the third's in
/// bits 0..10.
pub proof fn law_rotation_word_layout(largest: u32, c0: u32, c1: u32, c2: u32)
    ensures
        spec_pack(largest, c0, c1, c2) / 0x4000_0000 == largest % 4,
        (spec_pack(largest, c0, c1, c2) / 0x10_0000) % 1024 == c0 % 1024,
        (spec_pack(largest, c0, c1, c2) / 0x400) % 1024 == c1 % 1024,
        spec_pack(largest, c0, c1, c2) % 1024 == c2 % 1024,
{
    let l = (largest % 4) as int;
    let a = (c0 % 1024) as int;
    let b = (c1 % 1024) as int;
    let c = (c2 % 1024) as int;
    let w = l * 0x4000_0000 + a * 0x10_0000 + b * 0x400 + c;
    assert(0 <= w < 0x1_0000_0000) by (nonlinear_arith)
        requires
            w == l * 0x4000_0000 + a * 0x10_0000 + b * 0x400 + c,
            0 <= l < 4,
            0 <= a < 1024,
            0 <= b < 1024,
            0 <= c < 1024,
    ;
    assert(w / 0x4000_0000 == l && (w / 0x10_0000) % 1024 == a && (w / 0x400) % 1024 == b && w
        % 1024 == c) by (nonlinear_arith)
        requires
            w == l * 0x4000_0000 + a * 0x10_0000 + b * 0x400 + c,
            0 <= l < 4,
            0 <= a < 1024,
            0 <= b < 1024,
            0 <= c < 1024,
    ;
}

/// Where unpacking reads each part of any rotation word: the index from the
/// top two bits, and stored component `k` from the ten bits starting at bit
/// `10 * (2 - k)`.
pub proof fn law_rotation_word_fields(bits: u32)
    ensures
        spec_largest(bits) == bits / 0x4000_0000,
        spec_stored(bits, 0) == (bits / 0x10_0000) % 1024,
        spec_stored(bits, 1) == (bits / 0x400) % 1024,
        spec_stored(bits, 2) == bits % 1024,
{
}

/// A transform as it crosses the wire, already quantized: fixed-point
/// translation, the packed rotation word, fixed-point scale.
#[derive(Clone, Copy, Debug, Default, PartialEq, Eq)]
pub struct TransformWire {
    /// Translation per axis, in position steps.
    pub translation: [i32; 3],
    /// The smallest-three rotation word.
    pub rotation: u32,
    /// Scale per axis, in scale steps.
    pub scale: [i16; 3],
}

/// The twenty-two bytes a transform frame is written as.
pub open spec fn spec_encode(w: TransformWire) -> Seq<u8> {
    be32(i32_bits(w.translation@[0])) + be32(i32_bits(w.translation@[1])) + be32(
        i32_bits(w.translation@[2]),
    ) + be32(w.rotation) + be16(i16_bits(w.scale@[0])) + be16(i16_bits(w.scale@[1])) + be16(
        i16_bits(w.scale@[2]),
    )
}

/// Whether `w` is what the twenty-two bytes `b` hold.
pub open spec fn decodes_to(b: Seq<u8>, w: TransformWire) -> bool {
    &&& w.translation@ == seq![
        i32_of_bits(u32_at(b, 0)),
        i32_of_bits(u32_at(b, 4)),
        i32_of_bits(u32_at(b, 8)),
    ]
    &&& w.rotation == u32_at(b, 12)
    &&& w.scale@ == seq![
        i16_of_bits(u16_at(b, 16)),
        i16_of_bits(u16_at(b, 18)),
        i16_of_bits(u16_at(b, 20)),
    ]
}

/// Encode a quantized transform into its fixed-length wire frame.
pub fn encode_frame(w: &TransformWire) -> (out: [u8; QUANTIZED_LEN])
    ensures
        out@ == spec_encode(*w),
{
    let mut v: Vec<u8> = Vec::with_capacity(QUANTIZED_LEN);
    push_u32(&mut v, i32_to_bits(w.translation[0]));
    push_u32(&mut v, i32_to_bits(w.translation[1]));
    push_u32(&mut v, i32_to_bits(w.translation[2]));
    push_u32(&mut v, w.rotation);
    push_u16(&mut v, i16_to_bits(w.scale[0]));
    push_u16(&mut v, i16_to_bits(w.scale[1]));
    push_u16(&mut v, i16_to_bits(w.scale[2]));
    assert(v@ =~= spec_encode(*w));
    let out: [u8; QUANTIZED_LEN] = [
        v[0], v[1], v[2], v[3], v[4], v[5], v[6], v[7], v[8], v[9], v[10],
        v[11], v[12], v[13], v[14], v[15], v[16], v[17], v[18], v[19], v[20], v[21],
    ];
    assert(out@ =~= v@);
    out
}

/// Decode a wire frame back into a quantized transform. Total: every
/// twenty-two-byte frame decodes.
pub fn decode_frame(bytes: &[u8; QUANTIZED_LEN]) -> (w: TransformWire)
    ensures
        decodes_to(bytes@, w),
{
    let s = bytes.as_slice();
    let translation: [i32; 3] = [
        i32_from_bits(read_u32(s, 0)),
        i32_from_bits(read_u32(s, 4)),
        i32_from_bits(read_u32(s, 8)),
    ];
    let scale: [i16; 3] = [
        i16_from_bits(read_u16(s, 16)),
        i16_from_bits(read_u16(s, 18)),
        i16_from_bits(read_u16(s, 20)),
    ];
    let w = TransformWire { translation, rotation: read_u32(s, 12), scale };
    assert(w.translation@ =~= seq![
        i32_of_bits(u32_at(bytes@, 0)),
        i32_of_bits(u32_at(bytes@, 4)),
        i32_of_bits(u32_at(bytes@, 8)),
    ]);
    assert(w.scale@ =~= seq![
        i16_of_bits(u16_at(bytes@, 16)),
        i16_of_bits(u16_at(bytes@, 18)),
        i16_of_bits(u16_at(bytes@, 20)),
    ]);
    w
}

/// Serialize a quantized transform into the replication buffer.
pub fn serialize_frame(w: &TransformWire, writer: &mut Writer) -> (r: Result<
    (),
    SerializationError,
>)
    ensures
        r is Ok <==> spec_encode(*w).len() <= room(written(*old(writer))),
        written(*final(writer)) == after_write(written(*old(writer)), spec_encode(*w)),
{
    let frame = encode_frame(w);
    write_frame(frame.as_slice(), writer)
}

/// Deserialize a quantized transform from the replication buffer: exactly
/// twenty-two bytes. Fails exactly when fewer are left.
pub fn deserialize_frame(reader: &mut Reader) -> (r: Result<TransformWire, SerializationError>)
    ensures
        r is Ok <==> unread(*old(reader)).len() >= QUANTIZED_LEN,
        r matches Ok(w) ==> {
            &&& decodes_to(unread(*old(reader)).take(QUANTIZED_LEN as int), w)
            &&& unread(*final(reader)) == unread(*old(reader)).skip(QUANTIZED_LEN as int)
        },
{
    match read_exact_frame(reader, QUANTIZED_LEN) {
        Ok(b) => {
            let frame: [u8; QUANTIZED_LEN] = [
                b[0], b[1], b[2], b[3], b[4], b[5], b[6], b[7], b[8], b[9], b[10],
                b[11], b[12], b[13], b[14], b[15], b[16], b[17], b[18], b[19], b[20], b[21],
            ];
            assert(frame@ =~= b@);
            Ok(decode_frame(&frame))
        },
        Err(e) => Err(e),
    }
}

/// The quantized frame is exact: decoding an encoded transform gives back
/// every step count and the rotation word unchanged.
pub proof fn law_transform_frame_round_trip(w: TransformWire)
    ensures
        spec_encode(w).len() == QUANTIZED_LEN,
        decodes_to(spec_encode(w), w),
{
    let b = spec_encode(w);
    lemma_u32_round_trip(i32_bits(w.translation@[0]));
    lemma_u32_round_trip(i32_bits(w.translation@[1]));
    lemma_u32_round_trip(i32_bits(w.translation@[2]));
    lemma_u32_round_trip(w.rotation);
    lemma_u16_round_trip(i16_bits(w.scale@[0]));
    lemma_u16_round_trip(i16_bits(w.scale@[1]));
    lemma_u16_round_trip(i16_bits(w.scale@[2]));
    lemma_signed_bits_round_trip(w.scale@[0], 0, w.translation@[0], 0);
    lemma_signed_bits_round_trip(w.scale@[1], 0, w.translation@[1], 0);
    lemma_signed_bits_round_trip(w.scale@[2], 0, w.translation@[2], 0);
    assert(w.translation@ =~= seq![w.translation@[0], w.translation@[1], w.translation@[2]]);
    assert(w.scale@ =~= seq![w.scale@[0], w.scale@[1], w.scale@[2]]);
}

/// Every twenty-two-byte frame is the encoding of what it decodes to:
/// re-encoding a decoded frame is byte-identical.
pub proof fn law_transform_frame_is_stable(b: Seq<u8>, w: TransformWire)
    requires
        b.len() == QUANTIZED_LEN,
        decodes_to(b, w),
    ensures
        spec_encode(w) == b,
{
    lemma_u32_bytes_round_trip(b[0], b[1], b[2], b[3]);
    lemma_u32_bytes_round_trip(b[4], b[5], b[6], b[7]);
    lemma_u32_bytes_round_trip(b[8], b[9], b[10], b[11]);
    lemma_u32_bytes_round_trip(b[12], b[13], b[14], b[15]);
    lemma_u16_bytes_round_trip(b[16], b[17]);
    lemma_u16_bytes_round_trip(b[18], b[19]);
    lemma_u16_bytes_round_trip(b[20], b[21]);
    lemma_signed_bits_round_trip(0, 0, 0, u32_at(b, 0));
    lemma_signed_bits_round_trip(0, 0, 0, u32_at(b, 4));
    lemma_signed_bits_round_trip(0, 0, 0, u32_at(b, 8));
    lemma_signed_bits_round_trip(0, u16_at(b, 16), 0, 0);
    lemma_signed_bits_round_trip(0, u16_at(b, 18), 0, 0);
    lemma_signed_bits_round_trip(0, u16_at(b, 20), 0, 0);
    assert(spec_encode(w) =~= b);
}

/// The documented layout of a transform frame, each field most significant
/// byte first and signed ones in two's complement: the three translation
/// components in bytes 0..12 (four bytes each), the rotation word in bytes
/// 12..16, and the three scale components in bytes 16..22 (two bytes each).
pub proof fn law_transform_layout(w: TransformWire)
    ensures
        spec_encode(w).len() == QUANTIZED_LEN,
        spec_encode(w)[0] * 0x100_0000 + spec_encode(w)[1] * 0x1_0000 + spec_encode(w)[2] * 0x100 + spec_encode(w)[3] == if w.translation@[0] >= 0 {
            w.translation@[0] as int
        } else {
            w.translation@[0] + 0x1_0000_0000
        },
        spec_encode(w)[4] * 0x100_0000 + spec_encode(w)[5] * 0x1_0000 + spec_encode(w)[6] * 0x100 + spec_encode(w)[7] == if w.translation@[1] >= 0 {
            w.translation@[1] as int
        } else {
            w.translation@[1] + 0x1_0000_0000
        },
        spec_encode(w)[8] * 0x100_0000 + spec_encode(w)[9] * 0x1_0000 + spec_encode(w)[10] * 0x100 + spec_encode(w)[11] == if w.translation@[2] >= 0 {
            w.translation@[2] as int
        } else {
            w.translation@[2] + 0x1_0000_0000
        },
        spec_encode(w)[12] * 0x100_0000 + spec_encode(w)[13] * 0x1_0000 + spec_encode(w)[14] * 0x100 + spec_encode(w)[15] == w.rotation,
        spec_encode(w)[16] * 0x100 + spec_encode(w)[17] == if w.scale@[0] >= 0 {
            w.scale@[0] as int
        } else {
            w.scale@[0] + 0x1_0000
        },
        spec_encode(w)[18] * 0x100 + spec_encode(w)[19] == if w.scale@[1] >= 0 {
            w.scale@[1] as int
        } else {
            w.scale@[1] + 0x1_0000
        },
        spec_encode(w)[20] * 0x100 + spec_encode(w)[21] == if w.scale@[2] >= 0 {
            w.scale@[2] as int
        } else {
            w.scale@[2] + 0x1_0000
        },
{
    let b = spec_encode(w);
    let t0 = i32_bits(w.translation@[0]);
    let t1 = i32_bits(w.translation@[1]);
    let t2 = i32_bits(w.translation@[2]);
    let s0 = i16_bits(w.scale@[0]);
    let s1 = i16_bits(w.scale@[1]);
    let s2 = i16_bits(w.scale@[2]);
    lemma_be32_value(t0);
    lemma_be32_value(t1);
    lemma_be32_value(t2);
    lemma_be32_value(w.rotation);
    lemma_be16_value(s0);
    lemma_be16_value(s1);
    lemma_be16_value(s2);
    assert(b =~= be32(t0) + be32(t1) + be32(t2) + be32(w.rotation) + be16(s0) + be16(s1)
        + be16(s2));
    assert(b[0] == be32(t0)[0] && b[1] == be32(t0)[1] && b[2] == be32(t0)[2] && b[3] == be32(t0)[3]);
    assert(b[4] == be32(t1)[0] && b[5] == be32(t1)[1] && b[6] == be32(t1)[2] && b[7] == be32(t1)[3]);
    assert(b[8] == be32(t2)[0] && b[9] == be32(t2)[1] && b[10] == be32(t2)[2] && b[11] == be32(t2)[3]);
    assert(b[12] == be32(w.rotation)[0] && b[13] == be32(w.rotation)[1] && b[14] == be32(w.rotation)[2] && b[15] == be32(w.rotation)[3]);
    assert(b[16] == be16(s0)[0] && b[17] == be16(s0)[1]);
    assert(b[18] == be16(s1)[0] && b[19] == be16(s1)[1]);
    assert(b[20] == be16(s2)[0] && b[21] == be16(s2)[1]);
}

} // verus!

//! The wire frame of a unit's combat vitals.
//!
//! A health bar is a ratio first and a number second, so the frame stores the
//! ceiling absolutely (fixed-point steps) and the current value as a fraction
//! of it (ratio steps), then the shield absolutely:
//!
//! | field     | encoding                 | bytes |
//! | --------- | ------------------------ | ----- |
//! | `max_hp`  | `u32` fixed-point steps  | 4     |
//! | `hp`      | `u16` fraction of max    | 2     |
//! | `shield`  | `u32` fixed-point steps  | 4     |
//!
//! Turning health into steps is floating-point work done by the application;
//! this module owns the frame those steps travel in.

use vstd::prelude::*;
use lightyear_serde::SerializationError;
use lightyear_serde::reader::Reader;
use lightyear_serde::writer::Writer;
use crate::bytes::{be16, be32, u16_at, u32_at, read_u16, read_u32, lemma_u16_round_trip,
    lemma_u32_round_trip, lemma_u16_bytes_round_trip, lemma_u32_bytes_round_trip, lemma_be16_value, lemma_be32_value};
use crate::wire::{unread, written, room, after_write, write_frame, read_exact_frame};

verus! {

/// Size of one encoded vitals frame: 4 (`max_hp`) + 2 (`hp`) + 4 (`shield`).
pub const VITALS_LEN: usize = 10;

/// A unit's vitals as they cross the wire, already quantized.
#[derive(Clone, Copy, Debug, Default, PartialEq, Eq, Structural)]
pub struct VitalsWire {
    /// The health ceiling, in fixed-point steps.
    pub max_hp: u32,
    /// Current health as a fraction of the ceiling, in ratio steps.
    pub hp: u16,
    /// The absorbing shield, in fixed-point steps.
    pub shield: u32,
}

/// The ten bytes a vitals frame is written as.
pub open spec fn spec_encode(v: VitalsWire) -> Seq<u8> {
    be32(v.max_hp) + be16(v.hp) + be32(v.shield)
}

/// The vitals a ten-byte frame holds.
pub open spec fn spec_decode(b: Seq<u8>) -> VitalsWire {
    VitalsWire { max_hp: u32_at(b, 0), hp: u16_at(b, 4), shield: u32_at(b, 6) }
}

/// Encode vitals into their fixed-length wire frame.
pub fn encode_frame(v: &VitalsWire) -> (out: [u8; VITALS_LEN])
    ensures
        out@ == spec_encode(*v),
{
    let out: [u8; VITALS_LEN] = [
        (v.max_hp / 0x100_0000) as u8,
        ((v.max_hp / 0x1_0000) % 256) as u8,
        ((v.max_hp / 0x100) % 256) as u8,
        (v.max_hp % 256) as u8,
        (v.hp / 256) as u8,
        (v.hp % 256) as u8,
        (v.shield / 0x100_0000) as u8,
        ((v.shield / 0x1_0000) % 256) as u8,
        ((v.shield / 0x100) % 256) as u8,
        (v.shield % 256) as u8,
    ];
    assert(out@ =~= spec_encode(*v));
    out
}

/// Decode a wire frame back into vitals. Total: every ten-byte frame decodes.
pub fn decode_frame(bytes: &[u8; VITALS_LEN]) -> (v: VitalsWire)
    ensures
        v == spec_decode(bytes@),
{
    let s = bytes.as_slice();
    VitalsWire { max_hp: read_u32(s, 0), hp: read_u16(s, 4), shield: read_u32(s, 6) }
}

/// Serialize vitals into the replication buffer as their ten-byte frame.
pub fn serialize_frame(v: &VitalsWire, writer: &mut Writer) -> (r: Result<(), SerializationError>)
    ensures
        r is Ok <==> spec_encode(*v).len() <= room(written(*old(writer))),
        written(*final(writer)) == after_write(written(*old(writer)), spec_encode(*v)),
{
    let frame = encode_frame(v);
    write_frame(frame.as_slice(), writer)
}

/// Deserialize vitals from the replication buffer: exactly ten bytes. Fails
/// exactly when fewer are left.
pub fn deserialize_frame(reader: &mut Reader) -> (r: Result<VitalsWire, SerializationError>)
    ensures
        r is Ok <==> unread(*old(reader)).len() >= VITALS_LEN,
        r matches Ok(v) ==> {
            &&& v == spec_decode(unread(*old(reader)).take(VITALS_LEN as int))
            &&& unread(*final(reader)) == unread(*old(reader)).skip(VITALS_LEN as int)
        },
{
    match read_exact_frame(reader, VITALS_LEN) {
        Ok(b) => {
            let frame: [u8; VITALS_LEN] = [b[0], b[1], b[2], b[3], b[4], b[5], b[6], b[7], b[8], b[9]];
            assert(frame@ =~= b@);
            Ok(decode_frame(&frame))
        },
        Err(e) => Err(e),
    }
}

/// Every quantized field survives the frame exactly.
pub proof fn law_vitals_round_trip(v: VitalsWire)
    ensures
        spec_encode(v).len() == VITALS_LEN,
        spec_decode(spec_encode(v)) == v,
{
    let b = spec_encode(v);
    lemma_u32_round_trip(v.max_hp);
    lemma_u16_round_trip(v.hp);
    lemma_u32_round_trip(v.shield);
    assert(b[0] == be32(v.max_hp)[0] && b[3] == be32(v.max_hp)[3]);
    assert(b[4] == be16(v.hp)[0] && b[5] == be16(v.hp)[1]);
    assert(b[6] == be32(v.shield)[0] && b[9] == be32(v.shield)[3]);
}

/// Each field of a vitals frame sits at its documented offset, most
/// significant byte first: the health ceiling in bytes 0..4, current health as
/// a share of it in bytes 4..6, and the shield in bytes 6..10.
pub proof fn law_vitals_layout(v: VitalsWire)
    ensures
        spec_encode(v).len() == VITALS_LEN,
        spec_encode(v)[0] * 0x100_0000 + spec_encode(v)[1] * 0x1_0000 + spec_encode(v)[2] * 0x100
            + spec_encode(v)[3] == v.max_hp,
        spec_encode(v)[4] * 0x100 + spec_encode(v)[5] == v.hp,
        spec_encode(v)[6] * 0x100_0000 + spec_encode(v)[7] * 0x1_0000 + spec_encode(v)[8] * 0x100
            + spec_encode(v)[9] == v.shield,
{
    lemma_be32_value(v.max_hp);
    lemma_be16_value(v.hp);
    lemma_be32_value(v.shield);
    let b = spec_encode(v);
    assert(b[0] == be32(v.max_hp)[0] && b[1] == be32(v.max_hp)[1] && b[2] == be32(v.max_hp)[2]
        && b[3] == be32(v.max_hp)[3]);
    assert(b[4] == be16(v.hp)[0] && b[5] == be16(v.hp)[1]);
    assert(b[6] == be32(v.shield)[0] && b[7] == be32(v.shield)[1] && b[8] == be32(v.shield)[2]
        && b[9] == be32(v.shield)[3]);
}

/// Every ten-byte frame is the encoding of what it decodes to: re-encoding a
/// decoded frame is byte-identical.
pub proof fn law_vitals_frame_is_stable(b: Seq<u8>)
    requires
        b.len() == VITALS_LEN,
    ensures
        spec_encode(spec_decode(b)) == b,
{
    lemma_u32_bytes_round_trip(b[0], b[1], b[2], b[3]);
    lemma_u16_bytes_round_trip(b[4], b[5]);
    lemma_u32_bytes_round_trip(b[6], b[7], b[8], b[9]);
    assert(spec_encode(spec_decode(b)) =~= b);
}

} // verus!

//! Big-endian integer framing shared by every hand-rolled wire codec.
//!
//! Each codec in this crate writes its integers most significant byte first.
//! The spec functions here say what those bytes are; the exec helpers append
//! them to a frame or read them back, and the lemmas state that reading what
//! was written gives the value back.

use vstd::prelude::*;

verus! {

/// The two big-endian bytes of a `u16`.
pub open spec fn be16(v: u16) -> Seq<u8> {
    seq![(v / 256) as u8, (v % 256) as u8]
}

/// The four big-endian bytes of a `u32`.
pub open spec fn be32(v: u32) -> Seq<u8> {
    seq![
        (v / 0x100_0000) as u8,
        ((v / 0x1_0000) % 256) as u8,
        ((v / 0x100) % 256) as u8,
        (v % 256) as u8,
    ]
}

/// The `u16` whose big-endian bytes are `hi, lo`.
pub open spec fn u16_of(hi: u8, lo: u8) -> u16 {
    (hi * 256 + lo) as u16
}

/// The `u32` whose big-endian bytes are `a, b, c, d`.
pub open spec fn u32_of(a: u8, b: u8, c: u8, d: u8) -> u32 {
    (a * 0x100_0000 + b * 0x1_0000 + c * 0x100 + d) as u32
}

/// The `u16` stored big-endian at `at` in `s`.
pub open spec fn u16_at(s: Seq<u8>, at: int) -> u16 {
    u16_of(s[at], s[at + 1])
}

/// The `u32` stored big-endian at `at` in `s`.
pub open spec fn u32_at(s: Seq<u8>, at: int) -> u32 {
    u32_of(s[at], s[at + 1], s[at + 2], s[at + 3])
}

/// The two bytes of `be16(v)`, weighed most significant first, add up to `v`.
pub proof fn lemma_be16_value(v: u16)
    ensures
        be16(v).len() == 2,
        be16(v)[0] * 0x100 + be16(v)[1] == v,
{
}

/// The four bytes of `be32(v)`, weighed most significant first, add up to `v`.
pub proof fn lemma_be32_value(v: u32)
    ensures
        be32(v).len() == 4,
        be32(v)[0] * 0x100_0000 + be32(v)[1] * 0x1_0000 + be32(v)[2] * 0x100 + be32(v)[3] == v,
{
    let x = v as int;
    assert(x == (x / 0x100_0000) * 0x100_0000 + ((x / 0x1_0000) % 256) * 0x1_0000 + ((x / 0x100)
        % 256) * 0x100 + x % 256) by (nonlinear_arith)
        requires
            0 <= x < 0x1_0000_0000,
    ;
}

/// Reading back a written `u16` gives the value.
pub proof fn lemma_u16_round_trip(v: u16)
    ensures
        u16_of(be16(v)[0], be16(v)[1]) == v,
{
}

/// Reading back a written `u32` gives the value.
pub proof fn lemma_u32_round_trip(v: u32)
    ensures
        u32_of(be32(v)[0], be32(v)[1], be32(v)[2], be32(v)[3]) == v,
{
}

/// Writing a read `u16` gives the bytes back.
pub proof fn lemma_u16_bytes_round_trip(hi: u8, lo: u8)
    ensures
        be16(u16_of(hi, lo)) == seq![hi, lo],
{
    assert(be16(u16_of(hi, lo)) =~= seq![hi, lo]);
}

/// Writing a read `u32` gives the bytes back.
pub proof fn lemma_u32_bytes_round_trip(a: u8, b: u8, c: u8, d: u8)
    ensures
        be32(u32_of(a, b, c, d)) == seq![a, b, c, d],
{
    let v = a * 0x100_0000 + b * 0x1_0000 + c * 0x100 + d;
    assert(v / 0x100_0000 == a) by (nonlinear_arith)
        requires
            v == a * 0x100_0000 + b * 0x1_0000 + c * 0x100 + d,
            0 <= b < 256,
            0 <= c < 256,
            0 <= d < 256,
    ;
    assert((v / 0x1_0000) % 256 == b) by (nonlinear_arith)
        requires
            v == a * 0x100_0000 + b * 0x1_0000 + c * 0x100 + d,
            0 <= a < 256,
            0 <= b < 256,
            0 <= c < 256,
            0 <= d < 256,
    ;
    assert((v / 0x100) % 256 == c) by (nonlinear_arith)
        requires
            v == a * 0x100_0000 + b * 0x1_0000 + c * 0x100 + d,
            0 <= a < 256,
            0 <= b < 256,
            0 <= c < 256,
            0 <= d < 256,
    ;
    assert(v % 256 == d) by (nonlinear_arith)
        requires
            v == a * 0x100_0000 + b * 0x1_0000 + c * 0x100 + d,
            0 <= a < 256,
            0 <= b < 256,
            0 <= c < 256,
            0 <= d < 256,
    ;
    assert(be32(u32_of(a, b, c, d)) =~= seq![a, b, c, d]);
}

/// Append the big-endian bytes of `v`.
pub fn push_u16(out: &mut Vec<u8>, v: u16)
    ensures
        final(out)@ == old(out)@ + be16(v),
{
    out.push((v / 256) as u8);
    out.push((v % 256) as u8);
    assert(final(out)@ =~= old(out)@ + be16(v));
}

/// Append the big-endian bytes of `v`.
pub fn push_u32(out: &mut Vec<u8>, v: u32)
    ensures
        final(out)@ == old(out)@ + be32(v),
{
    out.push((v / 0x100_0000) as u8);
    out.push(((v / 0x1_0000) % 256) as u8);
    out.push(((v / 0x100) % 256) as u8);
    out.push((v % 256) as u8);
    assert(final(out)@ =~= old(out)@ + be32(v));
}

/// The `u16` stored big-endian at `at`.
pub fn read_u16(bytes: &[u8], at: usize) -> (v: u16)
    requires
        at + 2 <= bytes@.len(),
    ensures
        v == u16_at(bytes@, at as int),
{
    (bytes[at] as u16) * 256 + (bytes[at + 1] as u16)
}

/// The `u32` stored big-endian at `at`.
pub fn read_u32(bytes: &[u8], at: usize) -> (v: u32)
    requires
        at + 4 <= bytes@.len(),
    ensures
        v == u32_at(bytes@, at as int),
{
    (bytes[at] as u32) * 0x100_0000 + (bytes[at + 1] as u32) * 0x1_0000 + (bytes[at + 2] as u32)
        * 0x100 + (bytes[at + 3] as u32)
}

/// The two's-complement bit pattern of an `i16`, as an unsigned number.
pub open spec fn i16_bits(v: i16) -> u16 {
    if v >= 0 { v as u16 } else { (v + 0x1_0000) as u16 }
}

/// The `i16` whose two's-complement bit pattern is `u`.
pub open spec fn i16_of_bits(u: u16) -> i16 {
    if u < 0x8000 { u as i16 } else { (u - 0x1_0000) as i16 }
}

/// The two's-complement bit pattern of an `i32`, as an unsigned number.
pub open spec fn i32_bits(v: i32) -> u32 {
    if v >= 0 { v as u32 } else { (v + 0x1_0000_0000) as u32 }
}

/// The `i32` whose two's-complement bit pattern is `u`.
pub open spec fn i32_of_bits(u: u32) -> i32 {
    if u < 0x8000_0000 { u as i32 } else { (u - 0x1_0000_0000) as i32 }
}

/// The bit pattern of an `i16` as an unsigned number.
pub fn i16_to_bits(v: i16) -> (u: u16)
    ensures
        u == i16_bits(v),
{
    if v >= 0 {
        v as u16
    } else {
        (v as i32 + 0x1_0000) as u16
    }
}

/// The `i16` with a given bit pattern.
pub fn i16_from_bits(u: u16) -> (v: i16)
    ensures
        v == i16_of_bits(u),
{
    if u < 0x8000 {
        u as i16
    } else {
        (u as i32 - 0x1_0000) as i16
    }
}

/// The bit pattern of an `i32` as an unsigned number.
pub fn i32_to_bits(v: i32) -> (u: u32)
    ensures
        u == i32_bits(v),
{
    if v >= 0 {
        v as u32
    } else {
        (v as i64 + 0x1_0000_0000) as u32
    }
}

/// The `i32` with a given bit pattern.
pub fn i32_from_bits(u: u32) -> (v: i32)
    ensures
        v == i32_of_bits(u),
{
    if u < 0x8000_0000 {
        u as i32
    } else {
        (u as i64 - 0x1_0000_0000) as i32
    }
}

/// Bit patterns of signed integers round-trip both ways.
pub proof fn lemma_signed_bits_round_trip(a: i16, b: u16, c: i32, d: u32)
    ensures
        i16_of_bits(i16_bits(a)) == a,
        i16_bits(i16_of_bits(b)) == b,
        i32_of_bits(i32_bits(c)) == c,
        i32_bits(i32_of_bits(d)) == d,
{
}

} // verus!

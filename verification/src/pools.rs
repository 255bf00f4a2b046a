//! The wire frame of a unit's resource pools.
//!
//! A pool is `(opaque id → current/max)`. Its frame entry stores the id, the
//! ceiling in fixed-point steps and the balance as a fraction of the ceiling in
//! ratio steps — the same ceiling-and-fraction pair the vitals use. A unit's
//! pool count is content-defined, so the frame is a `u8` count followed by that
//! many [`POOL_ENTRY_LEN`]-byte entries; a unit with no pools costs one byte.
//!
//! Quantizing a balance into steps is floating-point work done by the
//! application; this module owns the frame the steps travel in.

use vstd::prelude::*;
use crate::bytes::{lemma_be16_value, lemma_be32_value};
use lightyear_serde::SerializationError;
use lightyear_serde::reader::Reader;
use lightyear_serde::writer::Writer;
use crate::wire::{unread, written, room, after_write, write_frame, read_counted_frame, counted_frame_len};
use crate::frame::{MAX_ENTRIES, kept_count, concat_map, frame_of, decoded_count, entry_at,
    lemma_frame_layout, lemma_decoded_count_bounded};
use crate::bytes::{be16, be32, push_u16, push_u32, read_u16, read_u32, u16_at, u32_at,
    lemma_u16_round_trip, lemma_u32_round_trip, lemma_u16_bytes_round_trip,
    lemma_u32_bytes_round_trip};

verus! {

/// Bytes per encoded pool: 4 (id) + 4 (ceiling) + 2 (fraction of it).
pub const POOL_ENTRY_LEN: usize = 10;

/// Most pools one unit can replicate — the `u8` count's range.
pub const MAX_POOLS: usize = MAX_ENTRIES;

/// One pool as it crosses the wire, already quantized.
#[derive(Clone, Copy, Debug, Default, PartialEq, Eq, Structural)]
pub struct PoolWire {
    /// The pool's opaque (mod-global) resource id.
    pub id: u32,
    /// The pool's ceiling, in fixed-point steps.
    pub max: u32,
    /// The balance as a fraction of the ceiling, in ratio steps.
    pub fill: u16,
}

/// The ten bytes one pool is written as.
pub open spec fn pool_bytes(p: PoolWire) -> Seq<u8> {
    be32(p.id) + be32(p.max) + be16(p.fill)
}

/// The pool writer, as a function value for the frame layout.
pub open spec fn pool_writer() -> spec_fn(PoolWire) -> Seq<u8> {
    |p: PoolWire| pool_bytes(p)
}

/// The frame a pool list is encoded as.
pub open spec fn spec_encode(s: Seq<PoolWire>) -> Seq<u8> {
    frame_of(s, pool_writer())
}

/// The pool stored at byte offset `at`.
pub open spec fn parse_pool(b: Seq<u8>, at: int) -> PoolWire {
    PoolWire { id: u32_at(b, at), max: u32_at(b, at + 4), fill: u16_at(b, at + 8) }
}

/// The pool list a frame decodes to.
pub open spec fn spec_decode(b: Seq<u8>) -> Seq<PoolWire> {
    Seq::new(
        decoded_count(b, POOL_ENTRY_LEN as nat),
        |i: int| parse_pool(b, entry_at(POOL_ENTRY_LEN as nat, i)),
    )
}

/// Encode a pool list into its self-describing wire frame.
pub fn encode_frame(pools: &Vec<PoolWire>) -> (out: Vec<u8>)
    ensures
        out@ == spec_encode(pools@),
{
    let n = pools.len();
    let kept = if n < MAX_POOLS { n } else { MAX_POOLS };
    let mut out: Vec<u8> = Vec::with_capacity(1 + kept * POOL_ENTRY_LEN);
    out.push(kept as u8);
    let ghost s = pools@;
    let mut i: usize = 0;
    while i < kept
        invariant
            kept == kept_count(s.len()),
            kept <= MAX_POOLS,
            i <= kept,
            s == pools@,
            out@ == seq![kept as u8] + concat_map(s.take(i as int), pool_writer()),
        decreases kept - i,
    {
        let p = &pools[i];
        push_u32(&mut out, p.id);
        push_u32(&mut out, p.max);
        push_u16(&mut out, p.fill);
        proof {
            assert(s.take(i + 1).drop_last() =~= s.take(i as int));
            assert(s.take(i + 1).last() == s[i as int]);
            assert(out@ =~= seq![kept as u8] + concat_map(s.take(i + 1), pool_writer()));
        }
        i += 1;
    }
    out
}

/// Decode a pool frame. Total: a truncated or hostile frame yields only the
/// entries actually present, never an over-read or a panic.
pub fn decode_frame(bytes: &[u8]) -> (r: Vec<PoolWire>)
    ensures
        r@ == spec_decode(bytes@),
{
    if bytes.len() == 0 {
        let r: Vec<PoolWire> = Vec::new();
        assert(r@ =~= spec_decode(bytes@));
        return r;
    }
    let avail = (bytes.len() - 1) / POOL_ENTRY_LEN;
    let claimed = bytes[0] as usize;
    let count = if claimed < avail { claimed } else { avail };
    let mut pools: Vec<PoolWire> = Vec::with_capacity(count);
    let mut i: usize = 0;
    while i < count
        invariant
            count == decoded_count(bytes@, POOL_ENTRY_LEN as nat),
            count <= avail,
            avail == (bytes@.len() - 1) / POOL_ENTRY_LEN as int,
            bytes@.len() >= 1,
            i <= count,
            pools@ =~= spec_decode(bytes@).take(i as int),
        decreases count - i,
    {
        let at = 1 + POOL_ENTRY_LEN * i;
        pools.push(
            PoolWire {
                id: read_u32(bytes, at),
                max: read_u32(bytes, at + 4),
                fill: read_u16(bytes, at + 8),
            },
        );
        i += 1;
    }
    pools
}

/// Serialize a pool list into the replication buffer as its frame.
pub fn serialize_frame(pools: &Vec<PoolWire>, writer: &mut Writer) -> (r: Result<
    (),
    SerializationError,
>)
    ensures
        r is Ok <==> spec_encode(pools@).len() <= room(written(*old(writer))),
        written(*final(writer)) == after_write(written(*old(writer)), spec_encode(pools@)),
{
    let frame = encode_frame(pools);
    write_frame(frame.as_slice(), writer)
}

/// Deserialize a pool list from the replication buffer: the count byte, then
/// exactly as many entries as it claims. Fails exactly when the buffer holds
/// fewer bytes than the frame claims.
pub fn deserialize_frame(reader: &mut Reader) -> (r: Result<Vec<PoolWire>, SerializationError>)
    ensures
        r is Ok <==> (unread(*old(reader)).len() >= 1 && unread(*old(reader)).len()
            >= counted_frame_len(unread(*old(reader))[0], POOL_ENTRY_LEN as nat)),
        r matches Ok(v) ==> {
            let n = counted_frame_len(unread(*old(reader))[0], POOL_ENTRY_LEN as nat) as int;
            &&& v@ == spec_decode(unread(*old(reader)).take(n))
            &&& unread(*final(reader)) == unread(*old(reader)).skip(n)
        },
{
    match read_counted_frame(reader, POOL_ENTRY_LEN) {
        Ok(frame) => Ok(decode_frame(frame.as_slice())),
        Err(e) => Err(e),
    }
}

/// Decoding the bytes of one pool gives the pool back.
pub proof fn lemma_parse_pool_bytes(b: Seq<u8>, at: int, p: PoolWire)
    requires
        0 <= at,
        at + POOL_ENTRY_LEN <= b.len(),
        forall|k: int| 0 <= k < POOL_ENTRY_LEN ==> b[at + k] == #[trigger] pool_bytes(p)[k],
    ensures
        parse_pool(b, at) == p,
{
    let eb = pool_bytes(p);
    assert(b[at] == eb[0] && b[at + 1] == eb[1] && b[at + 2] == eb[2] && b[at + 3] == eb[3]);
    assert(b[at + 4] == eb[4] && b[at + 5] == eb[5] && b[at + 6] == eb[6] && b[at + 7] == eb[7]);
    assert(b[at + 8] == eb[8] && b[at + 9] == eb[9]);
    lemma_u32_round_trip(p.id);
    lemma_u32_round_trip(p.max);
    lemma_u16_round_trip(p.fill);
}

/// Writing a decoded pool gives back the bytes it was read from.
pub proof fn lemma_pool_bytes_of_parse(b: Seq<u8>, at: int)
    requires
        0 <= at,
        at + POOL_ENTRY_LEN <= b.len(),
    ensures
        pool_bytes(parse_pool(b, at)) == b.subrange(at, at + POOL_ENTRY_LEN),
{
    lemma_u32_bytes_round_trip(b[at], b[at + 1], b[at + 2], b[at + 3]);
    lemma_u32_bytes_round_trip(b[at + 4], b[at + 5], b[at + 6], b[at + 7]);
    lemma_u16_bytes_round_trip(b[at + 8], b[at + 9]);
    assert(pool_bytes(parse_pool(b, at)) =~= b.subrange(at, at + POOL_ENTRY_LEN));
}

/// Pool identity, order and quantized values survive the frame exactly:
/// decoding an encoded list gives its kept prefix. An empty list decodes back
/// to no pools at all.
pub proof fn law_pools_round_trip(s: Seq<PoolWire>)
    ensures
        spec_decode(spec_encode(s)) == s.take(kept_count(s.len()) as int),
{
    let k = kept_count(s.len());
    let t = s.take(k as int);
    let b = spec_encode(s);
    let len = POOL_ENTRY_LEN as nat;
    lemma_frame_layout(s, pool_writer(), len);
    assert forall|i: int| 0 <= i < k implies #[trigger] spec_decode(b)[i] == t[i] by {
        assert forall|j: int| 0 <= j < POOL_ENTRY_LEN implies b[entry_at(len, i) + j]
            == #[trigger] pool_bytes(t[i])[j] by {
            assert(pool_writer()(s[i]) == pool_bytes(t[i]));
        }
        lemma_parse_pool_bytes(b, entry_at(len, i), t[i]);
    }
    assert(spec_decode(b) =~= t);
}

/// A frame is a count byte plus one fixed entry per kept pool.
pub proof fn law_pools_frame_length(s: Seq<PoolWire>)
    ensures
        spec_encode(s).len() == 1 + POOL_ENTRY_LEN * kept_count(s.len()),
{
    lemma_frame_layout(s, pool_writer(), POOL_ENTRY_LEN as nat);
}

/// Whatever bytes arrive, the decoder yields no more pools than whole entries
/// follow the count byte.
pub proof fn law_pools_decode_bounded(b: Seq<u8>)
    ensures
        b.len() >= 1 ==> spec_decode(b).len() <= (b.len() - 1) / POOL_ENTRY_LEN as int,
        b.len() == 0 ==> spec_decode(b).len() == 0,
        spec_decode(b).len() <= MAX_POOLS,
{
    lemma_decoded_count_bounded(b, POOL_ENTRY_LEN as nat);
}

/// A decoded frame re-encodes to the canonical frame it was read from.
pub proof fn law_pools_decoded_frame_is_stable(b: Seq<u8>)
    requires
        b.len() >= 1,
    ensures
        spec_encode(spec_decode(b)) == seq![decoded_count(b, POOL_ENTRY_LEN as nat) as u8]
            + b.subrange(1, 1 + POOL_ENTRY_LEN * decoded_count(b, POOL_ENTRY_LEN as nat)),
{
    let len = POOL_ENTRY_LEN as nat;
    let c = decoded_count(b, len);
    let d = spec_decode(b);
    lemma_decoded_count_bounded(b, len);
    lemma_frame_layout(d, pool_writer(), len);
    let lhs = spec_encode(d);
    let rhs = seq![c as u8] + b.subrange(1, 1 + POOL_ENTRY_LEN * c);
    assert forall|p: int| 0 <= p < lhs.len() implies lhs[p] == rhs[p] by {
        if p > 0 {
            let i = (p - 1) / POOL_ENTRY_LEN as int;
            let k = (p - 1) % POOL_ENTRY_LEN as int;
            assert(p == entry_at(len, i) + k);
            assert(0 <= i < c) by (nonlinear_arith)
                requires
                    p == 1 + 10 * i + k,
                    0 <= k < 10,
                    1 <= p < 1 + 10 * c,
            ;
            lemma_pool_bytes_of_parse(b, entry_at(len, i));
            assert(pool_writer()(d[i]) == pool_bytes(parse_pool(b, entry_at(len, i))));
            assert(lhs[p] == pool_bytes(parse_pool(b, entry_at(len, i)))[k]);
        }
    }
    assert(lhs =~= rhs);
}

/// What a pool list serializes to is read back whole by deserialize, whatever
/// follows it in the buffer.
pub proof fn law_pools_wire_round_trip(s: Seq<PoolWire>, rest: Seq<u8>)
    ensures
        ({
            let u = spec_encode(s) + rest;
            &&& u.len() >= 1
            &&& counted_frame_len(u[0], POOL_ENTRY_LEN as nat) == spec_encode(s).len()
            &&& spec_decode(u.take(spec_encode(s).len() as int)) == s.take(
                kept_count(s.len()) as int,
            )
            &&& u.skip(spec_encode(s).len() as int) == rest
        }),
{
    let e = spec_encode(s);
    let u = e + rest;
    lemma_frame_layout(s, pool_writer(), POOL_ENTRY_LEN as nat);
    law_pools_round_trip(s);
    assert(u.take(e.len() as int) =~= e);
    assert(u.skip(e.len() as int) =~= rest);
}

/// Whether `j` is the first position in `start` carrying `id`.
pub open spec fn first_id_at(start: Seq<u32>, id: u32, j: int) -> bool {
    &&& 0 <= j < start.len()
    &&& start[j] == id
    &&& forall|k: int| 0 <= k < j ==> start[k] != id
}

/// Pair each pool of an incoming snapshot with the same pool in the previous
/// one, by id: for pool `i` of `end_ids`, the position of the first pool of
/// `start_ids` with the same id, or `None` for a pool the previous snapshot did
/// not carry. The incoming snapshot alone decides which pools exist — one
/// answer per incoming pool, in its order — so easing between the two can
/// neither invent nor drop a pool, and a pool is only ever eased toward
/// itself.
pub fn pair_with_previous(start_ids: &Vec<u32>, end_ids: &Vec<u32>) -> (r: Vec<Option<usize>>)
    ensures
        r@.len() == end_ids@.len(),
        forall|i: int|
            0 <= i < end_ids@.len() ==> match #[trigger] r@[i] {
                Some(j) => first_id_at(start_ids@, end_ids@[i], j as int),
                None => forall|k: int| 0 <= k < start_ids@.len() ==> start_ids@[k] != end_ids@[i],
            },
{
    let mut out: Vec<Option<usize>> = Vec::with_capacity(end_ids.len());
    let mut i: usize = 0;
    while i < end_ids.len()
        invariant
            i <= end_ids@.len(),
            out@.len() == i,
            forall|p: int|
                0 <= p < i ==> match #[trigger] out@[p] {
                    Some(j) => first_id_at(start_ids@, end_ids@[p], j as int),
                    None => forall|k: int|
                        0 <= k < start_ids@.len() ==> start_ids@[k] != end_ids@[p],
                },
        decreases end_ids@.len() - i,
    {
        let id = end_ids[i];
        let mut j: usize = 0;
        let mut found: Option<usize> = None;
        while j < start_ids.len() && found.is_none()
            invariant
                j <= start_ids@.len(),
                i < end_ids@.len(),
                id == end_ids@[i as int],
                found matches Some(jj) ==> first_id_at(start_ids@, id, jj as int),
                found is None ==> forall|k: int| 0 <= k < j ==> start_ids@[k] != id,
            decreases start_ids@.len() - j + if found is None { 1int } else { 0int },
        {
            if start_ids[j] == id {
                found = Some(j);
            } else {
                j += 1;
            }
        }
        out.push(found);
        i += 1;
    }
    out
}

/// The documented layout of a pool frame: the count byte holds how many pools
/// are kept, and pool `i` sits at byte `1 + 10 * i` as its id (four bytes),
/// its ceiling (four bytes) and its fill share (two bytes), each most
/// significant byte first.
pub proof fn law_pools_layout(s: Seq<PoolWire>, i: int)
    ensures
        spec_encode(s)[0] == kept_count(s.len()),
        0 <= i < kept_count(s.len()) ==> {
            let b = spec_encode(s);
            let o = 1 + 10 * i;
            &&& b[o] * 0x100_0000 + b[o + 1] * 0x1_0000 + b[o + 2] * 0x100 + b[o + 3] == s[i].id
            &&& b[o + 4] * 0x100_0000 + b[o + 5] * 0x1_0000 + b[o + 6] * 0x100 + b[o + 7]
                == s[i].max
            &&& b[o + 8] * 0x100 + b[o + 9] == s[i].fill
        },
{
    let f = pool_writer();
    assert forall|x: PoolWire| #[trigger] f(x).len() == POOL_ENTRY_LEN as nat by {}
    lemma_frame_layout(s, f, POOL_ENTRY_LEN as nat);
    if 0 <= i < kept_count(s.len()) {
        let b = spec_encode(s);
        let e = f(s[i]);
        assert(e == pool_bytes(s[i]));
        assert forall|k: int| 0 <= k < 10 implies b[1 + 10 * i + k] == e[k] by {
            assert(b[entry_at(POOL_ENTRY_LEN as nat, i) + k] == f(s[i])[k]);
        }
        lemma_be32_value(s[i].id);
        lemma_be32_value(s[i].max);
        lemma_be16_value(s[i].fill);
        assert(b[1 + 10 * i] == e[0] && b[1 + 10 * i + 1] == e[1] && b[1 + 10 * i + 2] == e[2]
            && b[1 + 10 * i + 3] == e[3]);
        assert(b[1 + 10 * i + 4] == e[4] && b[1 + 10 * i + 5] == e[5] && b[1 + 10 * i + 6] == e[6]
            && b[1 + 10 * i + 7] == e[7]);
        assert(b[1 + 10 * i + 8] == e[8] && b[1 + 10 * i + 9] == e[9]);
    }
}

/// How many pools any byte string decodes to: none from no bytes, else as many
/// as its count byte claims, but never more than the whole 10-byte entries
/// that follow it.
pub proof fn law_pools_decoded_count(b: Seq<u8>)
    ensures
        b.len() == 0 ==> spec_decode(b).len() == 0,
        b.len() > 0 ==> spec_decode(b).len() == if (b[0] as int) < (b.len() - 1) / 10 {
            b[0] as int
        } else {
            (b.len() - 1) / 10
        },
{
}

} // verus!

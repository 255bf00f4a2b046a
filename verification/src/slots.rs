//! The owner's ability slots — what each key is bound to and whether it is
//! ready.
//!
//! A cooldown is replicated as the tick it becomes **ready at**, plus the length
//! it started from; the client sweeps toward that deadline against its own
//! timeline. [`Tick`] is a wrapping `u16` compared by signed difference, so a
//! deadline stays meaningful across the wrap within [`MAX_COOLDOWN_TICKS`].
//!
//! # Encoding
//!
//! A `u8` count followed by that many [`SLOT_ENTRY_LEN`]-byte entries:
//! `slot: u8`, `ability: u32`, `ready_at: u16`, `cooldown_ticks: u16`,
//! `charges: u8`, `flags: u8`.

use vstd::prelude::*;
use crate::bytes::{lemma_be16_value, lemma_be32_value};
use lightyear_serde::SerializationError;
use lightyear_serde::reader::Reader;
use lightyear_serde::writer::Writer;
use crate::wire::{unread, written, room, after_write, write_frame, read_counted_frame, counted_frame_len};
use crate::frame::{MAX_ENTRIES, kept_count, concat_map, frame_of, decoded_count, entry_at,
    lemma_frame_layout, lemma_decoded_count_bounded};
use crate::bytes::{be16, be32, push_u16, push_u32, read_u16, read_u32, u16_at, u32_at, u16_of,
    u32_of, lemma_u16_round_trip, lemma_u32_round_trip, lemma_u16_bytes_round_trip,
    lemma_u32_bytes_round_trip};

verus! {

/// Bytes per encoded slot: 1 + 4 + 2 + 2 + 1 + 1.
pub const SLOT_ENTRY_LEN: usize = 11;

/// Most slots one caster can replicate — the `u8` count's range.
pub const MAX_SLOTS: usize = MAX_ENTRIES;

/// Furthest a deadline may sit ahead of the current tick: half the wrapping
/// window, past which a deadline would read as being in the past.
pub const MAX_COOLDOWN_TICKS: u16 = 32767;

/// Flag bit: the caster can currently pay this slot's costs.
pub const AFFORDABLE: u8 = 1;

/// Flag bit: nothing is blocking the cast.
pub const UNGATED: u8 = 2;

/// A simulation tick: a `u16` that wraps, ordered by signed difference.
#[derive(Clone, Copy, Debug, Default, PartialEq, Eq, Hash, Structural)]
pub struct Tick(pub u16);

/// The signed wrapping difference `later - earlier`: the distance from
/// `earlier` to `later` modulo 2^16, read as an `i16`.
pub open spec fn tick_diff(later: Tick, earlier: Tick) -> int {
    let m = (later.0 - earlier.0) % 0x1_0000;
    if m < 0x8000 { m } else { m - 0x1_0000 }
}

/// The tick `n` ticks after `t`, wrapping.
pub open spec fn tick_after(t: Tick, n: int) -> Tick {
    Tick(((t.0 + n) % 0x1_0000) as u16)
}

impl Tick {
    /// The signed wrapping difference `self - earlier`.
    pub fn diff(self, earlier: Tick) -> (d: i16)
        ensures
            d == tick_diff(self, earlier),
    {
        let m: u16 = self.0.wrapping_sub(earlier.0);
        if m < 0x8000 {
            m as i16
        } else {
            (m as i32 - 0x1_0000) as i16
        }
    }
}

/// One ability slot as its owner sees it.
#[derive(Clone, Copy, Debug, Default, PartialEq, Eq, Structural)]
pub struct SlotState {
    /// The slot index this binding sits in — the raw key the player presses.
    pub slot: u8,
    /// The bound ability's opaque global id; `0` means no binding.
    pub ability: u32,
    /// The tick the slot comes off cooldown.
    pub ready_at: Tick,
    /// The cooldown's full length in ticks; `0` for a slot with no cooldown.
    pub cooldown_ticks: u16,
    /// Charges the caster can spend on this slot.
    pub charges: u8,
    /// [`AFFORDABLE`] / [`UNGATED`].
    pub flags: u8,
}

/// Ticks left before a deadline at `ready_at`, read at `now`: the wrapping
/// difference when the deadline is ahead, zero when it has passed.
pub open spec fn spec_remaining(ready_at: Tick, now: Tick) -> nat {
    let d = tick_diff(ready_at, now);
    if d > 0 { d as nat } else { 0 }
}

impl SlotState {
    /// Ticks left before the slot is ready, at `now`. Saturates at zero: a
    /// deadline already passed reports no time remaining.
    pub fn remaining_ticks(&self, now: Tick) -> (r: u16)
        ensures
            r == spec_remaining(self.ready_at, now),
    {
        let d = self.ready_at.diff(now);
        if d > 0 {
            d as u16
        } else {
            0
        }
    }

    /// Whether the cooldown has elapsed at `now`.
    pub fn ready(&self, now: Tick) -> (b: bool)
        ensures
            b <==> spec_remaining(self.ready_at, now) == 0,
    {
        self.remaining_ticks(now) == 0
    }

    /// Whether the caster can currently pay this slot's costs.
    pub fn affordable(&self) -> (b: bool)
        ensures
            b <==> self.flags & AFFORDABLE != 0,
    {
        self.flags & AFFORDABLE != 0
    }

    /// Whether the cast gate and the caster's status allow the cast.
    pub fn ungated(&self) -> (b: bool)
        ensures
            b <==> self.flags & UNGATED != 0,
    {
        self.flags & UNGATED != 0
    }

    /// The verdict a bar greys out on: off cooldown, affordable, and unblocked.
    pub fn castable(&self, now: Tick) -> (b: bool)
        ensures
            b <==> (spec_remaining(self.ready_at, now) == 0 && self.flags & AFFORDABLE != 0
                && self.flags & UNGATED != 0),
    {
        self.ready(now) && self.affordable() && self.ungated()
    }
}

/// A caster's replicated slot set, in slot order.
#[derive(Clone, Debug, Default, PartialEq, Eq)]
pub struct ReplicatedSlots(pub Vec<SlotState>);

impl View for ReplicatedSlots {
    type V = Seq<SlotState>;

    open spec fn view(&self) -> Seq<SlotState> {
        self.0@
    }
}

/// Whether `i` is the first position in `s` bound to slot index `slot`.
pub open spec fn first_slot_at(s: Seq<SlotState>, slot: u8, i: int) -> bool {
    &&& 0 <= i < s.len()
    &&& s[i].slot == slot
    &&& forall|j: int| 0 <= j < i ==> s[j].slot != slot
}

impl ReplicatedSlots {
    /// The state of one slot, if the caster binds it: the first entry with it.
    pub fn slot(&self, slot: u8) -> (r: Option<&SlotState>)
        ensures
            r is None <==> forall|i: int| 0 <= i < self@.len() ==> self@[i].slot != slot,
            r matches Some(e) ==> exists|i: int| first_slot_at(self@, slot, i) && *e == self@[i],
    {
        let mut i: usize = 0;
        while i < self.0.len()
            invariant
                i <= self.0@.len(),
                forall|j: int| 0 <= j < i ==> self.0@[j].slot != slot,
            decreases self.0@.len() - i,
        {
            if self.0[i].slot == slot {
                assert(first_slot_at(self@, slot, i as int));
                return Some(&self.0[i]);
            }
            i += 1;
        }
        None
    }
}

/// The eleven bytes one slot is written as.
pub open spec fn slot_bytes(e: SlotState) -> Seq<u8> {
    seq![e.slot] + be32(e.ability) + be16(e.ready_at.0) + be16(e.cooldown_ticks) + seq![
        e.charges,
        e.flags,
    ]
}

/// The slot writer, as a function value for the frame layout.
pub open spec fn slot_writer() -> spec_fn(SlotState) -> Seq<u8> {
    |e: SlotState| slot_bytes(e)
}

/// The frame a slot set is encoded as.
pub open spec fn spec_encode(s: Seq<SlotState>) -> Seq<u8> {
    frame_of(s, slot_writer())
}

/// The slot stored at byte offset `at`.
pub open spec fn parse_slot(b: Seq<u8>, at: int) -> SlotState {
    SlotState {
        slot: b[at],
        ability: u32_at(b, at + 1),
        ready_at: Tick(u16_at(b, at + 5)),
        cooldown_ticks: u16_at(b, at + 7),
        charges: b[at + 9],
        flags: b[at + 10],
    }
}

/// The slot set a frame decodes to.
pub open spec fn spec_decode(b: Seq<u8>) -> Seq<SlotState> {
    Seq::new(
        decoded_count(b, SLOT_ENTRY_LEN as nat),
        |i: int| parse_slot(b, entry_at(SLOT_ENTRY_LEN as nat, i)),
    )
}

/// Encode a slot set into its self-describing wire frame.
pub fn encode(slots: &ReplicatedSlots) -> (out: Vec<u8>)
    ensures
        out@ == spec_encode(slots@),
{
    let n = slots.0.len();
    let kept = if n < MAX_SLOTS { n } else { MAX_SLOTS };
    let mut out: Vec<u8> = Vec::with_capacity(1 + kept * SLOT_ENTRY_LEN);
    out.push(kept as u8);
    let ghost s = slots@;
    let mut i: usize = 0;
    while i < kept
        invariant
            kept == kept_count(s.len()),
            kept <= MAX_SLOTS,
            i <= kept,
            s == slots@,
            out@ == seq![kept as u8] + concat_map(s.take(i as int), slot_writer()),
        decreases kept - i,
    {
        let e = &slots.0[i];
        out.push(e.slot);
        push_u32(&mut out, e.ability);
        push_u16(&mut out, e.ready_at.0);
        push_u16(&mut out, e.cooldown_ticks);
        out.push(e.charges);
        out.push(e.flags);
        proof {
            assert(s.take(i + 1).drop_last() =~= s.take(i as int));
            assert(s.take(i + 1).last() == s[i as int]);
            assert(out@ =~= seq![kept as u8] + concat_map(s.take(i + 1), slot_writer()));
        }
        i += 1;
    }
    out
}

/// Decode a slot frame. Total: a truncated or hostile frame yields only the
/// entries actually present, never an over-read or a panic.
pub fn decode(bytes: &[u8]) -> (r: ReplicatedSlots)
    ensures
        r@ == spec_decode(bytes@),
{
    if bytes.len() == 0 {
        let r = ReplicatedSlots(Vec::new());
        assert(r@ =~= spec_decode(bytes@));
        return r;
    }
    let avail = (bytes.len() - 1) / SLOT_ENTRY_LEN;
    let claimed = bytes[0] as usize;
    let count = if claimed < avail { claimed } else { avail };
    let mut slots: Vec<SlotState> = Vec::with_capacity(count);
    let mut i: usize = 0;
    while i < count
        invariant
            count == decoded_count(bytes@, SLOT_ENTRY_LEN as nat),
            count <= avail,
            avail == (bytes@.len() - 1) / SLOT_ENTRY_LEN as int,
            bytes@.len() >= 1,
            i <= count,
            slots@ =~= spec_decode(bytes@).take(i as int),
        decreases count - i,
    {
        let at = 1 + SLOT_ENTRY_LEN * i;
        let e = SlotState {
            slot: bytes[at],
            ability: read_u32(bytes, at + 1),
            ready_at: Tick(read_u16(bytes, at + 5)),
            cooldown_ticks: read_u16(bytes, at + 7),
            charges: bytes[at + 9],
            flags: bytes[at + 10],
        };
        slots.push(e);
        i += 1;
    }
    ReplicatedSlots(slots)
}

/// Decoding the bytes of one slot gives the slot back.
pub proof fn lemma_parse_slot_bytes(b: Seq<u8>, at: int, e: SlotState)
    requires
        0 <= at,
        at + SLOT_ENTRY_LEN <= b.len(),
        forall|k: int| 0 <= k < SLOT_ENTRY_LEN ==> b[at + k] == #[trigger] slot_bytes(e)[k],
    ensures
        parse_slot(b, at) == e,
{
    let eb = slot_bytes(e);
    assert(b[at] == eb[0] && b[at + 1] == eb[1] && b[at + 2] == eb[2] && b[at + 3] == eb[3]);
    assert(b[at + 4] == eb[4] && b[at + 5] == eb[5] && b[at + 6] == eb[6] && b[at + 7] == eb[7]);
    assert(b[at + 8] == eb[8] && b[at + 9] == eb[9] && b[at + 10] == eb[10]);
    lemma_u32_round_trip(e.ability);
    lemma_u16_round_trip(e.ready_at.0);
    lemma_u16_round_trip(e.cooldown_ticks);
}

/// Writing a decoded slot gives back the bytes it was read from.
pub proof fn lemma_slot_bytes_of_parse(b: Seq<u8>, at: int)
    requires
        0 <= at,
        at + SLOT_ENTRY_LEN <= b.len(),
    ensures
        slot_bytes(parse_slot(b, at)) == b.subrange(at, at + SLOT_ENTRY_LEN),
{
    lemma_u32_bytes_round_trip(b[at + 1], b[at + 2], b[at + 3], b[at + 4]);
    lemma_u16_bytes_round_trip(b[at + 5], b[at + 6]);
    lemma_u16_bytes_round_trip(b[at + 7], b[at + 8]);
    assert(slot_bytes(parse_slot(b, at)) =~= b.subrange(at, at + SLOT_ENTRY_LEN));
}

/// Every binding, deadline, cooldown length, charge count and flag byte a frame
/// kept comes back exactly: decoding an encoded slot set gives its kept prefix.
pub proof fn law_slots_round_trip(s: Seq<SlotState>)
    ensures
        spec_decode(spec_encode(s)) == s.take(kept_count(s.len()) as int),
{
    let k = kept_count(s.len());
    let t = s.take(k as int);
    let b = spec_encode(s);
    let len = SLOT_ENTRY_LEN as nat;
    lemma_frame_layout(s, slot_writer(), len);
    assert forall|i: int| 0 <= i < k implies #[trigger] spec_decode(b)[i] == t[i] by {
        assert forall|j: int| 0 <= j < SLOT_ENTRY_LEN implies b[entry_at(len, i) + j]
            == #[trigger] slot_bytes(t[i])[j] by {
            assert(slot_writer()(s[i]) == slot_bytes(t[i]));
        }
        lemma_parse_slot_bytes(b, entry_at(len, i), t[i]);
    }
    assert(spec_decode(b) =~= t);
}

/// A frame is a count byte plus one fixed entry per kept slot.
pub proof fn law_slots_frame_length(s: Seq<SlotState>)
    ensures
        spec_encode(s).len() == 1 + SLOT_ENTRY_LEN * kept_count(s.len()),
{
    lemma_frame_layout(s, slot_writer(), SLOT_ENTRY_LEN as nat);
}

/// Whatever bytes arrive, the decoder yields no more slots than whole entries
/// follow the count byte.
pub proof fn law_slots_decode_bounded(b: Seq<u8>)
    ensures
        b.len() >= 1 ==> spec_decode(b).len() <= (b.len() - 1) / SLOT_ENTRY_LEN as int,
        b.len() == 0 ==> spec_decode(b).len() == 0,
        spec_decode(b).len() <= MAX_SLOTS,
{
    lemma_decoded_count_bounded(b, SLOT_ENTRY_LEN as nat);
}

/// A decoded frame re-encodes to the canonical frame it was read from: the
/// count it yielded, then exactly the bytes of those entries.
pub proof fn law_slots_decoded_frame_is_stable(b: Seq<u8>)
    requires
        b.len() >= 1,
    ensures
        spec_encode(spec_decode(b)) == seq![decoded_count(b, SLOT_ENTRY_LEN as nat) as u8]
            + b.subrange(1, 1 + SLOT_ENTRY_LEN * decoded_count(b, SLOT_ENTRY_LEN as nat)),
{
    let len = SLOT_ENTRY_LEN as nat;
    let c = decoded_count(b, len);
    let d = spec_decode(b);
    lemma_decoded_count_bounded(b, len);
    lemma_frame_layout(d, slot_writer(), len);
    assert(kept_count(d.len()) == c);
    let lhs = spec_encode(d);
    let rhs = seq![c as u8] + b.subrange(1, 1 + SLOT_ENTRY_LEN * c);
    assert forall|p: int| 0 <= p < lhs.len() implies lhs[p] == rhs[p] by {
        if p > 0 {
            let i = (p - 1) / SLOT_ENTRY_LEN as int;
            let k = (p - 1) % SLOT_ENTRY_LEN as int;
            assert(p == entry_at(len, i) + k);
            assert(0 <= i < c) by (nonlinear_arith)
                requires
                    p == 1 + 11 * i + k,
                    0 <= k < 11,
                    1 <= p < 1 + 11 * c,
            ;
            lemma_slot_bytes_of_parse(b, entry_at(len, i));
            assert(slot_writer()(d[i]) == slot_bytes(parse_slot(b, entry_at(len, i))));
            assert(lhs[p] == slot_bytes(parse_slot(b, entry_at(len, i)))[k]);
        }
    }
    assert(lhs =~= rhs);
}

/// The sweep at a later tick: for a deadline that is not behind `now`, reading
/// it `a` ticks later, for any advance within half the wrapping window, leaves
/// exactly the time that was left minus the advance, and none once the advance
/// reaches it. So a slot never reads ready before its deadline, a ready slot
/// stays ready, and the remaining time only ever runs down.
pub proof fn law_sweep_runs_down(ready_at: Tick, now: Tick, a: int)
    requires
        tick_diff(ready_at, now) >= 0,
        0 <= a <= MAX_COOLDOWN_TICKS,
    ensures
        spec_remaining(ready_at, tick_after(now, a)) == if a < spec_remaining(ready_at, now) {
            spec_remaining(ready_at, now) - a
        } else {
            0
        },
{
    let r = ready_at.0 as int;
    let n = now.0 as int;
    let w = 0x1_0000int;
    let m = (r - n) % w;
    let n2 = (n + a) % w;
    let m2 = (r - n2) % w;
    // Both moduli are the same residue class shifted by `a`.
    assert(m == if r - n >= 0 { r - n } else { r - n + w });
    assert(n2 == if n + a < w { n + a } else { n + a - w });
    let x = m - a;
    assert(m2 == if x >= 0 { x } else { x + w }) by {
        assert(-w < x < w);
        assert(r - n2 == x || r - n2 == x + w || r - n2 == x - w || r - n2 == x + 2 * w);
    }
}

/// The signed difference of two ticks is the one step, within half a wrap
/// either way, that leads from the earlier tick to the later one.
pub proof fn law_tick_diff_is_the_short_way_round(later: Tick, earlier: Tick)
    ensures
        -0x8000 <= tick_diff(later, earlier) < 0x8000,
        tick_after(earlier, tick_diff(later, earlier)) == later,
{
    let r = later.0 as int;
    let n = earlier.0 as int;
    let w = 0x1_0000int;
    let m = (r - n) % w;
    assert(m == if r - n >= 0 { r - n } else { r - n + w });
    let d = tick_diff(later, earlier);
    assert(n + d == r || n + d == r + w || n + d == r - w);
    assert((n + d) % w == r);
}

/// The remaining time is the distance to the deadline: when the deadline is
/// `k` ticks ahead of `now` (counting around the wrap) for some `k` in the
/// forward half of the window, exactly `k` ticks remain; and whenever any time
/// remains, the deadline lies exactly that many ticks ahead.
pub proof fn law_remaining_is_the_distance_to_the_deadline(ready_at: Tick, now: Tick, k: int)
    ensures
        0 < k <= MAX_COOLDOWN_TICKS && tick_after(now, k) == ready_at ==> spec_remaining(
            ready_at,
            now,
        ) == k,
        spec_remaining(ready_at, now) > 0 ==> tick_after(now, spec_remaining(ready_at, now) as int)
            == ready_at,
{
    let r = ready_at.0 as int;
    let n = now.0 as int;
    let w = 0x1_0000int;
    let m = (r - n) % w;
    assert(m == if r - n >= 0 { r - n } else { r - n + w });
    if 0 < k <= MAX_COOLDOWN_TICKS && tick_after(now, k) == ready_at {
        assert((n + k) % w == r);
        assert(r == if n + k < w { n + k } else { n + k - w });
    }
    if spec_remaining(ready_at, now) > 0 {
        assert(0 < m < 0x8000);
        assert((n + m) % w == r);
    }
}

/// Whatever a frame holds and whenever it is read, the remaining time stays
/// inside the representable window.
pub proof fn law_remaining_within_window(ready_at: Tick, now: Tick)
    ensures
        spec_remaining(ready_at, now) <= MAX_COOLDOWN_TICKS,
{
}

/// Serialize a slot set into the replication buffer as its [`encode`]d frame.
pub fn serialize(value: &ReplicatedSlots, writer: &mut Writer) -> (r: Result<(), SerializationError>)
    ensures
        r is Ok <==> spec_encode(value@).len() <= room(written(*old(writer))),
        written(*final(writer)) == after_write(written(*old(writer)), spec_encode(value@)),
{
    let frame = encode(value);
    write_frame(frame.as_slice(), writer)
}

/// Deserialize a slot set from the replication buffer: the count byte, then
/// exactly as many entries as it claims, decoded with [`decode`]. Fails exactly
/// when the buffer holds fewer bytes than the frame claims.
pub fn deserialize(reader: &mut Reader) -> (r: Result<ReplicatedSlots, SerializationError>)
    ensures
        r is Ok <==> (unread(*old(reader)).len() >= 1 && unread(*old(reader)).len()
            >= counted_frame_len(unread(*old(reader))[0], SLOT_ENTRY_LEN as nat)),
        r matches Ok(v) ==> {
            let n = counted_frame_len(unread(*old(reader))[0], SLOT_ENTRY_LEN as nat) as int;
            &&& v@ == spec_decode(unread(*old(reader)).take(n))
            &&& unread(*final(reader)) == unread(*old(reader)).skip(n)
        },
{
    match read_counted_frame(reader, SLOT_ENTRY_LEN) {
        Ok(frame) => Ok(decode(frame.as_slice())),
        Err(e) => Err(e),
    }
}

/// What a slot set serializes to is read back whole by deserialize, whatever
/// follows it in the buffer: the reader takes exactly the written frame and
/// yields every entry that frame kept.
pub proof fn law_slots_wire_round_trip(s: Seq<SlotState>, rest: Seq<u8>)
    ensures
        ({
            let u = spec_encode(s) + rest;
            &&& u.len() >= 1
            &&& counted_frame_len(u[0], SLOT_ENTRY_LEN as nat) == spec_encode(s).len()
            &&& spec_decode(u.take(spec_encode(s).len() as int)) == s.take(kept_count(s.len()) as int)
            &&& u.skip(spec_encode(s).len() as int) == rest
        }),
{
    let e = spec_encode(s);
    let u = e + rest;
    lemma_frame_layout(s, slot_writer(), SLOT_ENTRY_LEN as nat);
    law_slots_round_trip(s);
    assert(u.take(e.len() as int) =~= e);
    assert(u.skip(e.len() as int) =~= rest);
}

/// The documented layout of a slot frame: the count byte holds how many slots
/// are kept, and slot `i` sits at byte `1 + 11 * i` as its slot index (one
/// byte), its ability id (four bytes), its deadline tick and its cooldown
/// length (two bytes each, most significant first), its charges and its flags
/// (one byte each).
pub proof fn law_slots_layout(s: Seq<SlotState>, i: int)
    ensures
        spec_encode(s)[0] == kept_count(s.len()),
        0 <= i < kept_count(s.len()) ==> {
            let b = spec_encode(s);
            let o = 1 + 11 * i;
            &&& b[o] == s[i].slot
            &&& b[o + 1] * 0x100_0000 + b[o + 2] * 0x1_0000 + b[o + 3] * 0x100 + b[o + 4]
                == s[i].ability
            &&& b[o + 5] * 0x100 + b[o + 6] == s[i].ready_at.0
            &&& b[o + 7] * 0x100 + b[o + 8] == s[i].cooldown_ticks
            &&& b[o + 9] == s[i].charges
            &&& b[o + 10] == s[i].flags
        },
{
    let f = slot_writer();
    assert forall|x: SlotState| #[trigger] f(x).len() == SLOT_ENTRY_LEN as nat by {}
    lemma_frame_layout(s, f, SLOT_ENTRY_LEN as nat);
    if 0 <= i < kept_count(s.len()) {
        let b = spec_encode(s);
        let e = f(s[i]);
        assert(e == slot_bytes(s[i]));
        assert forall|k: int| 0 <= k < 11 implies b[1 + 11 * i + k] == e[k] by {
            assert(b[entry_at(SLOT_ENTRY_LEN as nat, i) + k] == f(s[i])[k]);
        }
        lemma_be32_value(s[i].ability);
        lemma_be16_value(s[i].ready_at.0);
        lemma_be16_value(s[i].cooldown_ticks);
        assert(b[1 + 11 * i] == e[0] && b[1 + 11 * i + 1] == e[1] && b[1 + 11 * i + 2] == e[2]
            && b[1 + 11 * i + 3] == e[3] && b[1 + 11 * i + 4] == e[4]);
        assert(b[1 + 11 * i + 5] == e[5] && b[1 + 11 * i + 6] == e[6] && b[1 + 11 * i + 7] == e[7]
            && b[1 + 11 * i + 8] == e[8]);
        assert(b[1 + 11 * i + 9] == e[9] && b[1 + 11 * i + 10] == e[10]);
    }
}

/// How many slots any byte string decodes to: none from no bytes, else as many
/// as its count byte claims, but never more than the whole 11-byte entries
/// that follow it.
pub proof fn law_slots_decoded_count(b: Seq<u8>)
    ensures
        b.len() == 0 ==> spec_decode(b).len() == 0,
        b.len() > 0 ==> spec_decode(b).len() == if (b[0] as int) < (b.len() - 1) / 11 {
            b[0] as int
        } else {
            (b.len() - 1) / 11
        },
{
}

} // verus!

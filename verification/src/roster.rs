//! Who is playing this match, on which side, driving which unit.
//!
//! A roster is the one replicated fact that is not about a body: it outlives a
//! unit and reaches clients that cannot see it. Entries are joined to bodies by
//! [`Seat`], a small stable number, never by an entity reference.
//!
//! # Encoding
//!
//! A `u8` count followed by that many fixed [`ROSTER_ENTRY_LEN`]-byte entries:
//! `seat: u16`, `side: u16`, `unit: u32`, then a flag byte whose [`DRIVING`] bit
//! says whether the unit id means anything (unit id `0` is an ordinary unit).

use vstd::prelude::*;
use crate::bytes::{lemma_be16_value, lemma_be32_value};
use lightyear_serde::SerializationError;
use lightyear_serde::reader::Reader;
use lightyear_serde::writer::Writer;
use crate::wire::{unread, written, room, after_write, write_frame, read_counted_frame, counted_frame_len};
use crate::frame::{MAX_ENTRIES, kept_count, concat_map, frame_of, decoded_count, entry_at,
    lemma_frame_layout, lemma_decoded_count_bounded};
use crate::bytes::{be16, be32, push_u16, push_u32, read_u16, read_u32, u16_at, u32_at,
    lemma_u16_round_trip, lemma_u32_round_trip};

verus! {

/// Bytes per encoded seat: 2 (seat) + 2 (side) + 4 (unit) + 1 (flags).
pub const ROSTER_ENTRY_LEN: usize = 9;

/// Most players one roster can replicate — the `u8` count's range.
pub const MAX_SEATED: usize = MAX_ENTRIES;

/// Flag bit: this seat currently has a body, so its `unit` id is meaningful.
pub const DRIVING: u8 = 1;

/// Which seated player drives a unit — the key a roster entry is joined to its
/// body by. Stable across a respawn.
#[derive(Clone, Copy, Debug, PartialEq, Eq, Hash, Structural)]
pub struct Seat(pub u16);

/// One seated player, as everybody in the match sees them.
#[derive(Clone, Copy, Debug, Default, PartialEq, Eq, Structural)]
pub struct RosterEntry {
    /// The seat they hold — stable for as long as they are in the match.
    pub seat: u16,
    /// Which side they fight for; two players are on the same side iff equal.
    pub side: u16,
    /// The global id of the unit descriptor they currently drive, or `None`
    /// while they have no body at all.
    pub unit: Option<u32>,
}

/// Everyone seated in this match, in seat order.
#[derive(Clone, Debug, Default, PartialEq, Eq)]
pub struct Roster(pub Vec<RosterEntry>);

impl View for Roster {
    type V = Seq<RosterEntry>;

    open spec fn view(&self) -> Seq<RosterEntry> {
        self.0@
    }
}

/// Whether `i` is the first position in `s` holding `seat`.
pub open spec fn first_seat_at(s: Seq<RosterEntry>, seat: u16, i: int) -> bool {
    &&& 0 <= i < s.len()
    &&& s[i].seat == seat
    &&& forall|j: int| 0 <= j < i ==> s[j].seat != seat
}

/// Whether `s` holds `seat` at all.
pub open spec fn holds_seat(s: Seq<RosterEntry>, seat: u16) -> bool {
    exists|i: int| 0 <= i < s.len() && s[i].seat == seat
}

impl Roster {
    /// The player holding `seat`, if anybody does: the first entry with it.
    pub fn entry(&self, seat: u16) -> (r: Option<&RosterEntry>)
        ensures
            r is None <==> !holds_seat(self@, seat),
            r matches Some(e) ==> exists|i: int| first_seat_at(self@, seat, i) && *e == self@[i],
    {
        let mut i: usize = 0;
        while i < self.0.len()
            invariant
                i <= self.0@.len(),
                forall|j: int| 0 <= j < i ==> self.0@[j].seat != seat,
            decreases self.0@.len() - i,
        {
            if self.0[i].seat == seat {
                assert(first_seat_at(self@, seat, i as int));
                return Some(&self.0[i]);
            }
            i += 1;
        }
        None
    }

    /// Which side the player holding `seat` fights for, if anybody holds it.
    pub fn side_of(&self, seat: u16) -> (r: Option<u16>)
        ensures
            r is None <==> !holds_seat(self@, seat),
            r matches Some(side) ==> exists|i: int|
                first_seat_at(self@, seat, i) && side == self@[i].side,
    {
        match self.entry(seat) {
            Some(e) => Some(e.side),
            None => None,
        }
    }

    /// How many players are seated.
    pub fn len(&self) -> (n: usize)
        ensures
            n == self@.len(),
    {
        self.0.len()
    }

    /// Whether nobody has joined yet.
    pub fn is_empty(&self) -> (b: bool)
        ensures
            b <==> self@.len() == 0,
    {
        self.0.len() == 0
    }
}

/// The unit id field as written: the id when driving, `0` otherwise.
pub open spec fn unit_field(e: RosterEntry) -> u32 {
    match e.unit {
        Some(u) => u,
        None => 0,
    }
}

/// The flag byte as written.
pub open spec fn flag_field(e: RosterEntry) -> u8 {
    if e.unit is Some { DRIVING } else { 0 }
}

/// The nine bytes one entry is written as.
pub open spec fn entry_bytes(e: RosterEntry) -> Seq<u8> {
    be16(e.seat) + be16(e.side) + be32(unit_field(e)) + seq![flag_field(e)]
}

/// The entry writer, as a function value for the frame layout.
pub open spec fn entry_writer() -> spec_fn(RosterEntry) -> Seq<u8> {
    |e: RosterEntry| entry_bytes(e)
}

/// The frame a roster is encoded as: its kept count, then its kept entries.
pub open spec fn spec_encode(s: Seq<RosterEntry>) -> Seq<u8> {
    frame_of(s, entry_writer())
}

/// The entry stored at byte offset `at`.
pub open spec fn parse_entry(b: Seq<u8>, at: int) -> RosterEntry {
    RosterEntry {
        seat: u16_at(b, at),
        side: u16_at(b, at + 2),
        unit: if b[at + 8] & DRIVING != 0 { Some(u32_at(b, at + 4)) } else { None },
    }
}

/// The roster a frame decodes to: as many entries as the count byte claims and
/// the bytes can hold, entry `i` read from offset `1 + 9 * i`.
pub open spec fn spec_decode(b: Seq<u8>) -> Seq<RosterEntry> {
    Seq::new(
        decoded_count(b, ROSTER_ENTRY_LEN as nat),
        |i: int| parse_entry(b, entry_at(ROSTER_ENTRY_LEN as nat, i)),
    )
}

/// Decoding the bytes of one entry gives the entry back.
pub proof fn lemma_parse_entry_bytes(b: Seq<u8>, at: int, e: RosterEntry)
    requires
        0 <= at,
        at + ROSTER_ENTRY_LEN <= b.len(),
        forall|k: int| 0 <= k < ROSTER_ENTRY_LEN ==> b[at + k] == #[trigger] entry_bytes(e)[k],
    ensures
        parse_entry(b, at) == e,
{
    let eb = entry_bytes(e);
    assert(b[at] == eb[0] && b[at + 1] == eb[1] && b[at + 2] == eb[2] && b[at + 3] == eb[3]);
    assert(b[at + 4] == eb[4] && b[at + 5] == eb[5] && b[at + 6] == eb[6] && b[at + 7] == eb[7]);
    assert(b[at + 8] == eb[8]);
    lemma_u16_round_trip(e.seat);
    lemma_u16_round_trip(e.side);
    lemma_u32_round_trip(unit_field(e));
    assert(DRIVING & DRIVING != 0) by (bit_vector);
    assert(0u8 & DRIVING == 0) by (bit_vector);
}

/// Encode a roster into its self-describing wire frame.
pub fn encode(roster: &Roster) -> (out: Vec<u8>)
    ensures
        out@ == spec_encode(roster@),
{
    let n = roster.0.len();
    let kept = if n < MAX_SEATED { n } else { MAX_SEATED };
    let mut out: Vec<u8> = Vec::with_capacity(1 + kept * ROSTER_ENTRY_LEN);
    out.push(kept as u8);
    let ghost s = roster@;
    let mut i: usize = 0;
    while i < kept
        invariant
            kept == kept_count(s.len()),
            kept <= MAX_SEATED,
            i <= kept,
            s == roster@,
            out@ == seq![kept as u8] + concat_map(s.take(i as int), entry_writer()),
        decreases kept - i,
    {
        let entry = &roster.0[i];
        let ghost before = out@;
        push_u16(&mut out, entry.seat);
        push_u16(&mut out, entry.side);
        let unit: u32 = match entry.unit {
            Some(u) => u,
            None => 0,
        };
        push_u32(&mut out, unit);
        let flag: u8 = if entry.unit.is_some() { DRIVING } else { 0 };
        out.push(flag);
        proof {
            assert(s.take(i + 1).drop_last() =~= s.take(i as int));
            assert(s.take(i + 1).last() == s[i as int]);
            assert(out@ =~= seq![kept as u8] + concat_map(s.take(i + 1), entry_writer()));
        }
        i += 1;
    }
    out
}

/// Decode a roster frame. Total: a truncated or hostile frame yields only the
/// entries actually present, never an over-read or a panic.
pub fn decode(bytes: &[u8]) -> (r: Roster)
    ensures
        r@ == spec_decode(bytes@),
{
    if bytes.len() == 0 {
        let r = Roster(Vec::new());
        assert(r@ =~= spec_decode(bytes@));
        return r;
    }
    let avail = (bytes.len() - 1) / ROSTER_ENTRY_LEN;
    let claimed = bytes[0] as usize;
    let count = if claimed < avail { claimed } else { avail };
    let mut seats: Vec<RosterEntry> = Vec::with_capacity(count);
    let mut i: usize = 0;
    while i < count
        invariant
            count == decoded_count(bytes@, ROSTER_ENTRY_LEN as nat),
            count <= avail,
            avail == (bytes@.len() - 1) / ROSTER_ENTRY_LEN as int,
            bytes@.len() >= 1,
            i <= count,
            seats@ =~= spec_decode(bytes@).take(i as int),
        decreases count - i,
    {
        let at = 1 + ROSTER_ENTRY_LEN * i;
        let unit = read_u32(bytes, at + 4);
        let flags = bytes[at + 8];
        let entry = RosterEntry {
            seat: read_u16(bytes, at),
            side: read_u16(bytes, at + 2),
            unit: if flags & DRIVING != 0 { Some(unit) } else { None },
        };
        seats.push(entry);
        i += 1;
    }
    Roster(seats)
}

/// Decoding an encoded roster gives back every entry the frame kept, exactly —
/// seat, side, and whether (and which) unit it drives.
pub proof fn law_roster_round_trip(s: Seq<RosterEntry>)
    ensures
        spec_decode(spec_encode(s)) == s.take(kept_count(s.len()) as int),
{
    let k = kept_count(s.len());
    let t = s.take(k as int);
    let b = spec_encode(s);
    let len = ROSTER_ENTRY_LEN as nat;
    lemma_frame_layout(s, entry_writer(), len);
    assert forall|i: int| 0 <= i < k implies #[trigger] spec_decode(b)[i] == t[i] by {
        assert forall|j: int| 0 <= j < ROSTER_ENTRY_LEN implies b[entry_at(len, i) + j]
            == #[trigger] entry_bytes(t[i])[j] by {
            assert(entry_writer()(s[i]) == entry_bytes(t[i]));
        }
        lemma_parse_entry_bytes(b, entry_at(len, i), t[i]);
    }
    assert(spec_decode(b) =~= t);
}

/// A frame is a count byte plus one fixed entry per kept player.
pub proof fn law_roster_frame_length(s: Seq<RosterEntry>)
    ensures
        spec_encode(s).len() == 1 + ROSTER_ENTRY_LEN * kept_count(s.len()),
{
    lemma_frame_layout(s, entry_writer(), ROSTER_ENTRY_LEN as nat);
}

/// Whatever bytes arrive, the decoder never yields more seats than whole
/// entries follow the count byte, nor more than the count byte can claim.
pub proof fn law_roster_decode_bounded(b: Seq<u8>)
    ensures
        b.len() >= 1 ==> spec_decode(b).len() <= (b.len() - 1) / ROSTER_ENTRY_LEN as int,
        b.len() == 0 ==> spec_decode(b).len() == 0,
        spec_decode(b).len() <= MAX_SEATED,
{
    lemma_decoded_count_bounded(b, ROSTER_ENTRY_LEN as nat);
}

/// Serialize a roster into the replication buffer as its [`encode`]d frame.
pub fn serialize(value: &Roster, writer: &mut Writer) -> (r: Result<(), SerializationError>)
    ensures
        r is Ok <==> spec_encode(value@).len() <= room(written(*old(writer))),
        written(*final(writer)) == after_write(written(*old(writer)), spec_encode(value@)),
{
    let frame = encode(value);
    write_frame(frame.as_slice(), writer)
}

/// Deserialize a roster from the replication buffer: the count byte, then
/// exactly as many entries as it claims, decoded with [`decode`]. Fails exactly
/// when the buffer holds fewer bytes than the frame claims.
pub fn deserialize(reader: &mut Reader) -> (r: Result<Roster, SerializationError>)
    ensures
        r is Ok <==> (unread(*old(reader)).len() >= 1 && unread(*old(reader)).len()
            >= counted_frame_len(unread(*old(reader))[0], ROSTER_ENTRY_LEN as nat)),
        r matches Ok(v) ==> {
            let n = counted_frame_len(unread(*old(reader))[0], ROSTER_ENTRY_LEN as nat) as int;
            &&& v@ == spec_decode(unread(*old(reader)).take(n))
            &&& unread(*final(reader)) == unread(*old(reader)).skip(n)
        },
{
    match read_counted_frame(reader, ROSTER_ENTRY_LEN) {
        Ok(frame) => Ok(decode(frame.as_slice())),
        Err(e) => Err(e),
    }
}

/// What a roster serializes to is read back whole by deserialize, whatever
/// follows it in the buffer: the reader takes exactly the written frame and
/// yields every entry that frame kept.
pub proof fn law_roster_wire_round_trip(s: Seq<RosterEntry>, rest: Seq<u8>)
    ensures
        ({
            let u = spec_encode(s) + rest;
            &&& u.len() >= 1
            &&& counted_frame_len(u[0], ROSTER_ENTRY_LEN as nat) == spec_encode(s).len()
            &&& spec_decode(u.take(spec_encode(s).len() as int)) == s.take(kept_count(s.len()) as int)
            &&& u.skip(spec_encode(s).len() as int) == rest
        }),
{
    let e = spec_encode(s);
    let u = e + rest;
    lemma_frame_layout(s, entry_writer(), ROSTER_ENTRY_LEN as nat);
    law_roster_round_trip(s);
    assert(u.take(e.len() as int) =~= e);
    assert(u.skip(e.len() as int) =~= rest);
}

/// The documented layout of a roster frame: the count byte holds how many
/// seats are kept, and seat `i` sits at byte `1 + 9 * i` as its seat number and
/// its side (two bytes each), the unit it drives (four bytes, zero when it
/// drives none), each most significant byte first, and a flag byte that is
/// one exactly when it drives a unit.
pub proof fn law_roster_layout(s: Seq<RosterEntry>, i: int)
    ensures
        spec_encode(s)[0] == kept_count(s.len()),
        0 <= i < kept_count(s.len()) ==> {
            let b = spec_encode(s);
            let o = 1 + 9 * i;
            &&& b[o] * 0x100 + b[o + 1] == s[i].seat
            &&& b[o + 2] * 0x100 + b[o + 3] == s[i].side
            &&& b[o + 4] * 0x100_0000 + b[o + 5] * 0x1_0000 + b[o + 6] * 0x100 + b[o + 7] == match s[i].unit {
                Some(u) => u,
                None => 0,
            }
            &&& b[o + 8] == if s[i].unit is Some { 1u8 } else { 0u8 }
        },
{
    let f = entry_writer();
    assert forall|x: RosterEntry| #[trigger] f(x).len() == ROSTER_ENTRY_LEN as nat by {}
    lemma_frame_layout(s, f, ROSTER_ENTRY_LEN as nat);
    if 0 <= i < kept_count(s.len()) {
        let b = spec_encode(s);
        let e = f(s[i]);
        assert(e == entry_bytes(s[i]));
        assert forall|k: int| 0 <= k < 9 implies b[1 + 9 * i + k] == e[k] by {
            assert(b[entry_at(ROSTER_ENTRY_LEN as nat, i) + k] == f(s[i])[k]);
        }
        lemma_be16_value(s[i].seat);
        lemma_be16_value(s[i].side);
        lemma_be32_value(unit_field(s[i]));
        assert(b[1 + 9 * i] == e[0] && b[1 + 9 * i + 1] == e[1] && b[1 + 9 * i + 2] == e[2]
            && b[1 + 9 * i + 3] == e[3]);
        assert(b[1 + 9 * i + 4] == e[4] && b[1 + 9 * i + 5] == e[5] && b[1 + 9 * i + 6] == e[6]
            && b[1 + 9 * i + 7] == e[7] && b[1 + 9 * i + 8] == e[8]);
    }
}

/// How many seats any byte string decodes to: none from no bytes, else as many
/// as its count byte claims, but never more than the whole 9-byte entries
/// that follow it.
pub proof fn law_roster_decoded_count(b: Seq<u8>)
    ensures
        b.len() == 0 ==> spec_decode(b).len() == 0,
        b.len() > 0 ==> spec_decode(b).len() == if (b[0] as int) < (b.len() - 1) / 9 {
            b[0] as int
        } else {
            (b.len() - 1) / 9
        },
{
}

/// What each seat of any byte string decodes to: seat `i` is read from byte
/// `1 + 9 * i` as its seat number and side (two bytes each, most significant
/// first), and drives the unit in the next four bytes exactly when the low bit
/// of the flag byte after them is set.
pub proof fn law_roster_reads_each_seat(b: Seq<u8>, i: int)
    ensures
        0 <= i < spec_decode(b).len() ==> {
            let e = spec_decode(b)[i];
            let o = 1 + 9 * i;
            &&& e.seat == b[o] * 0x100 + b[o + 1]
            &&& e.side == b[o + 2] * 0x100 + b[o + 3]
            &&& e.unit == if b[o + 8] % 2 == 1 {
                Some((b[o + 4] * 0x100_0000 + b[o + 5] * 0x1_0000 + b[o + 6] * 0x100 + b[o + 7]) as u32)
            } else {
                None::<u32>
            }
        },
{
    if 0 <= i < spec_decode(b).len() {
        let o = 1 + 9 * i;
        lemma_decoded_count_bounded(b, ROSTER_ENTRY_LEN as nat);
        assert(o + 9 <= b.len()) by (nonlinear_arith)
            requires
                o == 1 + 9 * i,
                0 <= i < spec_decode(b).len(),
                1 + 9 * spec_decode(b).len() <= b.len(),
        ;
        let f = b[o + 8];
        assert((f & DRIVING != 0) == (f % 2 == 1)) by (bit_vector);
        let (a0, a1, a2, a3) = (b[o + 4], b[o + 5], b[o + 6], b[o + 7]);
        assert(a0 * 0x100_0000 + a1 * 0x1_0000 + a2 * 0x100 + a3 < 0x1_0000_0000) by (nonlinear_arith)
            requires
                a0 < 256,
                a1 < 256,
                a2 < 256,
                a3 < 256,
        ;
    }
}

} // verus!

//! Self-describing frames of fixed-size entries.
//!
//! Every variable-length codec in this crate (roster, ability slots, resource
//! pools) uses the same shape: one count byte, then that many entries of a fixed
//! byte length. The count is written as the list length capped at
//! [`MAX_ENTRIES`]; on decode it is trusted only as far as the whole entries that
//! actually follow it.

use vstd::prelude::*;

verus! {

/// Most entries one frame can carry — the `u8` count's range.
pub const MAX_ENTRIES: usize = 255;

/// How many entries of a list of `n` a frame keeps.
pub open spec fn kept_count(n: nat) -> nat {
    if n < MAX_ENTRIES { n } else { MAX_ENTRIES as nat }
}

/// The bytes of a run of entries, each written by `f`, one after another.
pub open spec fn concat_map<T>(s: Seq<T>, f: spec_fn(T) -> Seq<u8>) -> Seq<u8>
    decreases s.len(),
{
    if s.len() == 0 {
        Seq::empty()
    } else {
        concat_map(s.drop_last(), f) + f(s.last())
    }
}

/// The frame a list is written as: its kept count, then its kept entries.
pub open spec fn frame_of<T>(s: Seq<T>, f: spec_fn(T) -> Seq<u8>) -> Seq<u8> {
    seq![kept_count(s.len()) as u8] + concat_map(s.take(kept_count(s.len()) as int), f)
}

/// How many entries of length `len` a frame yields: its count byte, trusted
/// only as far as the whole entries that actually follow it.
pub open spec fn decoded_count(b: Seq<u8>, len: nat) -> nat
    recommends
        len > 0,
{
    if b.len() == 0 {
        0
    } else {
        let avail = ((b.len() - 1) / len as int) as nat;
        if (b[0] as nat) < avail { b[0] as nat } else { avail }
    }
}

/// Byte offset of entry `i` in a frame of entries of length `len`.
pub open spec fn entry_at(len: nat, i: int) -> int {
    1 + len * i
}

/// The layout of a run of entries that all have length `len`: entry `i` sits at
/// offset `len * i`.
pub proof fn lemma_concat_layout<T>(s: Seq<T>, f: spec_fn(T) -> Seq<u8>, len: nat)
    requires
        forall|x: T| #[trigger] f(x).len() == len,
    ensures
        concat_map(s, f).len() == len * s.len(),
        forall|i: int, k: int|
            0 <= i < s.len() && 0 <= k < len ==> #[trigger] concat_map(s, f)[len * i + k]
                == #[trigger] f(s[i])[k],
    decreases s.len(),
{
    if s.len() > 0 {
        let init = s.drop_last();
        lemma_concat_layout(init, f, len);
        assert(len * s.len() == len * init.len() + len) by (nonlinear_arith)
            requires
                s.len() == init.len() + 1,
        ;
        assert forall|i: int, k: int|
            0 <= i < s.len() && 0 <= k < len implies #[trigger] concat_map(s, f)[len * i + k]
                == #[trigger] f(s[i])[k] by {
            if i < s.len() - 1 {
                assert(init[i] == s[i]);
                assert(len * i + k < len * init.len()) by (nonlinear_arith)
                    requires
                        i < init.len(),
                        k < len,
                ;
            } else {
                assert(len * i == len * init.len());
            }
        }
    }
}

/// The frame of a list has a count byte plus one `len`-byte entry per kept
/// element, and entry `i` of the frame is the `i`-th element's bytes.
pub proof fn lemma_frame_layout<T>(s: Seq<T>, f: spec_fn(T) -> Seq<u8>, len: nat)
    requires
        len > 0,
        forall|x: T| #[trigger] f(x).len() == len,
    ensures
        frame_of(s, f).len() == 1 + len * kept_count(s.len()),
        frame_of(s, f)[0] == kept_count(s.len()) as u8,
        decoded_count(frame_of(s, f), len) == kept_count(s.len()),
        forall|i: int, k: int|
            0 <= i < kept_count(s.len()) && 0 <= k < len ==> #[trigger] frame_of(s, f)[entry_at(
                len,
                i,
            ) + k] == #[trigger] f(s[i])[k],
{
    let t = s.take(kept_count(s.len()) as int);
    lemma_concat_layout(t, f, len);
    let b = frame_of(s, f);
    let n = kept_count(s.len());
    assert(((len * n) as int) / (len as int) == n as int) by (nonlinear_arith)
        requires
            len > 0,
    ;
    assert forall|i: int, k: int| 0 <= i < n && 0 <= k < len implies #[trigger] b[entry_at(len, i)
        + k] == #[trigger] f(s[i])[k] by {
        assert(t[i] == s[i]);
        assert(len * i + k < len * n) by (nonlinear_arith)
            requires
                0 <= i < n,
                0 <= k < len,
        ;
        assert(b[entry_at(len, i) + k] == concat_map(t, f)[len * i + k]);
    }
}

/// Whatever bytes arrive, a decoded frame never claims more entries than whole
/// entries follow the count byte, nor more than the count byte can say.
pub proof fn lemma_decoded_count_bounded(b: Seq<u8>, len: nat)
    requires
        len > 0,
    ensures
        decoded_count(b, len) <= MAX_ENTRIES,
        b.len() >= 1 ==> decoded_count(b, len) <= (b.len() - 1) / len as int,
        b.len() >= 1 ==> 1 + len * decoded_count(b, len) <= b.len(),
        b.len() == 0 ==> decoded_count(b, len) == 0,
{
    if b.len() >= 1 {
        let c = decoded_count(b, len);
        assert(c <= (b.len() - 1) / len as int);
        assert(len * c <= b.len() - 1) by (nonlinear_arith)
            requires
                c <= (b.len() - 1) / len as int,
                len > 0,
                b.len() >= 1,
        ;
    }
}

} // verus!

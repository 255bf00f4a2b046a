//! Talent picking — the player's choice, and the owner-scoped view they choose
//! from.
//!
//! A [`TalentPick`] is only a request: the server checks it against the unit the
//! sender drives. [`ReplicatedTalents`] is the owner's tree state: which tiers
//! are open and what has been chosen; whether a tier is *waiting* is derived
//! from those two rather than sent.

use vstd::prelude::*;

verus! {

/// Client→server request: take `talent` from the tier at index `tier`.
#[derive(Clone, Copy, Debug, PartialEq, Eq, Structural)]
pub struct TalentPick {
    /// Which tier of the unit's tree the choice is being made in.
    pub tier: u8,
    /// The chosen talent's opaque global id.
    pub talent: u32,
}

/// Reliable channel the talent picks ride.
pub struct TalentPickChannel;

/// One tier as its owner sees it.
#[derive(Clone, Copy, Debug, Default, PartialEq, Eq, Structural)]
pub struct TierView {
    /// The tier's index in the unit's tree — the number a [`TalentPick`] names.
    pub tier: u8,
    /// Whether the unit's current level has opened this tier.
    pub unlocked: bool,
    /// The talent chosen here, if any — an opaque global id.
    pub chosen: Option<u32>,
}

/// Whether a tier is waiting on the player: open, and nothing taken yet.
pub open spec fn spec_pending(row: TierView) -> bool {
    row.unlocked && row.chosen is None
}

impl TierView {
    /// Whether this tier is waiting on the player: open, and nothing taken yet.
    pub fn pending(&self) -> (b: bool)
        ensures
            b == spec_pending(*self),
    {
        self.unlocked && self.chosen.is_none()
    }
}

/// The owner's whole talent state, one row per reachable tier, in tier order.
#[derive(Clone, Debug, Default, PartialEq, Eq)]
pub struct ReplicatedTalents(pub Vec<TierView>);

impl View for ReplicatedTalents {
    type V = Seq<TierView>;

    open spec fn view(&self) -> Seq<TierView> {
        self.0@
    }
}

/// The tiers of `rows` still waiting on a choice, in row order.
pub open spec fn pending_tiers(rows: Seq<TierView>) -> Seq<u8>
    decreases rows.len(),
{
    if rows.len() == 0 {
        Seq::empty()
    } else {
        pending_tiers(rows.drop_last()) + if spec_pending(rows.last()) {
            seq![rows.last().tier]
        } else {
            Seq::empty()
        }
    }
}

/// The talents chosen in `rows`, in row order.
pub open spec fn chosen_talents(rows: Seq<TierView>) -> Seq<u32>
    decreases rows.len(),
{
    if rows.len() == 0 {
        Seq::empty()
    } else {
        chosen_talents(rows.drop_last()) + match rows.last().chosen {
            Some(t) => seq![t],
            None => Seq::empty(),
        }
    }
}

/// Whether `i` is the first row of `rows` for tier `tier`.
pub open spec fn first_tier_at(rows: Seq<TierView>, tier: u8, i: int) -> bool {
    &&& 0 <= i < rows.len()
    &&& rows[i].tier == tier
    &&& forall|j: int| 0 <= j < i ==> rows[j].tier != tier
}

impl ReplicatedTalents {
    /// The row for one tier, if the tree has it. Total: any index may be asked.
    pub fn tier(&self, tier: u8) -> (r: Option<&TierView>)
        ensures
            r is None <==> forall|i: int| 0 <= i < self@.len() ==> self@[i].tier != tier,
            r matches Some(row) ==> exists|i: int| first_tier_at(self@, tier, i) && *row == self@[i],
    {
        let mut i: usize = 0;
        while i < self.0.len()
            invariant
                i <= self.0@.len(),
                forall|j: int| 0 <= j < i ==> self.0@[j].tier != tier,
            decreases self.0@.len() - i,
        {
            if self.0[i].tier == tier {
                assert(first_tier_at(self@, tier, i as int));
                return Some(&self.0[i]);
            }
            i += 1;
        }
        None
    }

    /// Every tier still waiting on a choice — what a HUD badges.
    pub fn pending(&self) -> (out: Vec<u8>)
        ensures
            out@ == pending_tiers(self@),
    {
        let mut out: Vec<u8> = Vec::new();
        let mut i: usize = 0;
        while i < self.0.len()
            invariant
                i <= self.0@.len(),
                out@ == pending_tiers(self@.take(i as int)),
            decreases self.0@.len() - i,
        {
            let row = &self.0[i];
            if row.pending() {
                out.push(row.tier);
            }
            proof {
                assert(self@.take(i + 1).drop_last() =~= self@.take(i as int));
                assert(self@.take(i + 1).last() == self@[i as int]);
            }
            i += 1;
        }
        assert(self@.take(self@.len() as int) =~= self@);
        out
    }

    /// Every talent chosen so far, in tier order.
    pub fn chosen(&self) -> (out: Vec<u32>)
        ensures
            out@ == chosen_talents(self@),
    {
        let mut out: Vec<u32> = Vec::new();
        let mut i: usize = 0;
        while i < self.0.len()
            invariant
                i <= self.0@.len(),
                out@ == chosen_talents(self@.take(i as int)),
            decreases self.0@.len() - i,
        {
            match self.0[i].chosen {
                Some(t) => out.push(t),
                None => {},
            }
            proof {
                assert(self@.take(i + 1).drop_last() =~= self@.take(i as int));
                assert(self@.take(i + 1).last() == self@[i as int]);
            }
            i += 1;
        }
        assert(self@.take(self@.len() as int) =~= self@);
        out
    }
}

/// A tier is listed as pending exactly when some row for it is open and has
/// nothing chosen.
pub proof fn law_pending_lists_exactly_the_waiting_tiers(rows: Seq<TierView>, tier: u8)
    ensures
        pending_tiers(rows).contains(tier) <==> exists|i: int|
            0 <= i < rows.len() && rows[i].tier == tier && spec_pending(rows[i]),
    decreases rows.len(),
{
    if rows.len() > 0 {
        let init = rows.drop_last();
        law_pending_lists_exactly_the_waiting_tiers(init, tier);
        let tail: Seq<u8> = if spec_pending(rows.last()) {
            seq![rows.last().tier]
        } else {
            Seq::empty()
        };
        assert(pending_tiers(rows) == pending_tiers(init) + tail);
        if pending_tiers(rows).contains(tier) {
            let k = choose|k: int| 0 <= k < pending_tiers(rows).len() && pending_tiers(rows)[k] == tier;
            if k < pending_tiers(init).len() {
                assert(pending_tiers(init)[k] == tier);
                let i = choose|i: int| 0 <= i < init.len() && init[i].tier == tier && spec_pending(init[i]);
                assert(rows[i] == init[i]);
            } else {
                assert(rows[rows.len() - 1] == rows.last());
            }
        }
        if exists|i: int| 0 <= i < rows.len() && rows[i].tier == tier && spec_pending(rows[i]) {
            let i = choose|i: int| 0 <= i < rows.len() && rows[i].tier == tier && spec_pending(rows[i]);
            if i < rows.len() - 1 {
                assert(init[i] == rows[i]);
                let k = choose|k: int| 0 <= k < pending_tiers(init).len() && pending_tiers(init)[k] == tier;
                assert(pending_tiers(rows)[k] == tier);
            } else {
                assert(pending_tiers(rows)[pending_tiers(init).len() as int] == tier);
            }
        }
    }
}

/// A talent is listed as chosen exactly when some row holds it, and the list
/// has one entry per row with a choice.
pub proof fn law_chosen_lists_every_choice(rows: Seq<TierView>, talent: u32)
    ensures
        chosen_talents(rows).contains(talent) <==> exists|i: int|
            0 <= i < rows.len() && rows[i].chosen == Some(talent),
        chosen_talents(rows).len() == rows.filter(|r: TierView| r.chosen is Some).len(),
    decreases rows.len(),
{
    reveal_with_fuel(Seq::filter, 1);
    if rows.len() > 0 {
        let init = rows.drop_last();
        law_chosen_lists_every_choice(init, talent);
        assert(rows.filter(|r: TierView| r.chosen is Some) == init.filter(
            |r: TierView| r.chosen is Some,
        ) + if rows.last().chosen is Some {
            seq![rows.last()]
        } else {
            Seq::<TierView>::empty()
        });
        let tail: Seq<u32> = match rows.last().chosen {
            Some(t) => seq![t],
            None => Seq::empty(),
        };
        assert(chosen_talents(rows) == chosen_talents(init) + tail);
        if chosen_talents(rows).contains(talent) {
            let k = choose|k: int| 0 <= k < chosen_talents(rows).len() && chosen_talents(rows)[k] == talent;
            if k < chosen_talents(init).len() {
                assert(chosen_talents(init)[k] == talent);
                let i = choose|i: int| 0 <= i < init.len() && init[i].chosen == Some(talent);
                assert(rows[i] == init[i]);
            } else {
                assert(rows[rows.len() - 1] == rows.last());
            }
        }
        if exists|i: int| 0 <= i < rows.len() && rows[i].chosen == Some(talent) {
            let i = choose|i: int| 0 <= i < rows.len() && rows[i].chosen == Some(talent);
            if i < rows.len() - 1 {
                assert(init[i] == rows[i]);
                let k = choose|k: int| 0 <= k < chosen_talents(init).len() && chosen_talents(init)[k] == talent;
                assert(chosen_talents(rows)[k] == talent);
            } else {
                assert(chosen_talents(rows)[chosen_talents(init).len() as int] == talent);
            }
        }
    }
}

/// The chosen list is, position by position, the choices of the rows that
/// hold one, in row order: no choice is dropped, added or moved.
pub proof fn law_chosen_keeps_row_order(rows: Seq<TierView>)
    ensures
        chosen_talents(rows) == rows.filter(|r: TierView| r.chosen is Some).map_values(
            |r: TierView| r.chosen->0,
        ),
    decreases rows.len(),
{
    reveal_with_fuel(Seq::filter, 1);
    if rows.len() > 0 {
        let init = rows.drop_last();
        law_chosen_keeps_row_order(init);
        let fi = init.filter(|r: TierView| r.chosen is Some);
        let fr = rows.filter(|r: TierView| r.chosen is Some);
        if rows.last().chosen is Some {
            assert(fr == fi.push(rows.last()));
            assert(fr.map_values(|r: TierView| r.chosen->0) =~= fi.map_values(
                |r: TierView| r.chosen->0,
            ) + seq![rows.last().chosen->0]);
        } else {
            assert(fr == fi);
            assert(chosen_talents(rows) =~= chosen_talents(init));
        }
    }
}

/// The pending list is, position by position, the tiers of the rows that are
/// open with nothing chosen, in row order.
pub proof fn law_pending_keeps_row_order(rows: Seq<TierView>)
    ensures
        pending_tiers(rows) == rows.filter(|r: TierView| r.unlocked && r.chosen is None).map_values(
            |r: TierView| r.tier,
        ),
    decreases rows.len(),
{
    reveal_with_fuel(Seq::filter, 1);
    if rows.len() > 0 {
        let init = rows.drop_last();
        law_pending_keeps_row_order(init);
        let fi = init.filter(|r: TierView| r.unlocked && r.chosen is None);
        let fr = rows.filter(|r: TierView| r.unlocked && r.chosen is None);
        if rows.last().unlocked && rows.last().chosen is None {
            assert(fr == fi.push(rows.last()));
            assert(fr.map_values(|r: TierView| r.tier) =~= fi.map_values(|r: TierView| r.tier)
                + seq![rows.last().tier]);
        } else {
            assert(fr == fi);
            assert(pending_tiers(rows) =~= pending_tiers(init));
        }
    }
}

} // verus!

//! What holds of account resolution for all slots and all candidates.

use vstd::prelude::*;
use crate::accounts::{bound, candidate_names, resolution, resolving, Candidate, ResolvedAccount};
use crate::errors::ResolutionError;
use crate::idl::AccountSlot;
use crate::names::index_of;

verus! {

/// The slot at index `i` has a candidate.
pub open spec fn supplied(slots: Seq<AccountSlot>, candidates: Seq<Candidate>, i: int) -> bool {
    index_of(candidate_names(candidates), slots[i].name@).is_some()
}

/// The candidate that the slot at index `i` takes: the first of its name.
pub open spec fn candidate_for(slots: Seq<AccountSlot>, candidates: Seq<Candidate>, i: int)
    -> Candidate {
    candidates[index_of(candidate_names(candidates), slots[i].name@).unwrap()]
}

/// `account` is the slot at index `i` bound to its candidate.
pub open spec fn binds(
    slots: Seq<AccountSlot>,
    candidates: Seq<Candidate>,
    account: ResolvedAccount,
    i: int,
) -> bool {
    supplied(slots, candidates, i) && account == bound(
        slots[i],
        candidate_for(slots, candidates, i),
    )
}

/// The slot at index `i` is optional and has no candidate.
pub open spec fn omitted(slots: Seq<AccountSlot>, candidates: Seq<Candidate>, i: int) -> bool {
    slots[i].is_optional && !supplied(slots, candidates, i)
}

/// The slot at index `i` has a candidate, which can sign if the slot asks
/// for it.
pub open spec fn fillable(slots: Seq<AccountSlot>, candidates: Seq<Candidate>, i: int) -> bool {
    supplied(slots, candidates, i) && (slots[i].is_signer ==> candidate_for(
        slots,
        candidates,
        i,
    ).can_sign)
}

proof fn lemma_resolving(
    slots: Seq<AccountSlot>,
    candidates: Seq<Candidate>,
    from: int,
    gap: Option<int>,
)
    requires
        0 <= from <= slots.len(),
        resolving(slots, candidates, from, gap).is_ok(),
    ensures
        ({
            let list = resolving(slots, candidates, from, gap)->Ok_0;
            &&& list.len() <= slots.len() - from
            &&& gap.is_some() ==> list.len() == 0
            &&& forall|i: int|
                0 <= i < list.len() ==> binds(slots, candidates, #[trigger] list[i], from + i)
            &&& forall|i: int|
                from + list.len() <= i < slots.len() ==> #[trigger] omitted(slots, candidates, i)
        }),
    decreases slots.len() - from,
{
    if from < slots.len() {
        let list = resolving(slots, candidates, from, gap)->Ok_0;
        match index_of(candidate_names(candidates), slots[from].name@) {
            None => {
                let next_gap = if gap.is_some() {
                    gap
                } else {
                    Some(from)
                };
                lemma_resolving(slots, candidates, from + 1, next_gap);
            },
            Some(k) => {
                lemma_resolving(slots, candidates, from + 1, None);
                let rest = resolving(slots, candidates, from + 1, None)->Ok_0;
                assert forall|i: int| 0 <= i < list.len() implies binds(
                    slots,
                    candidates,
                    #[trigger] list[i],
                    from + i,
                ) by {
                    if i > 0 {
                        assert(list[i] == rest[i - 1]);
                        assert(binds(slots, candidates, rest[i - 1], from + 1 + (i - 1)));
                    }
                }
            },
        }
    }
}

/// Account ordering. Where resolution succeeds, the list holds the
/// accounts of the first slots, one for one and in slot order: the account
/// at index `i` is slot `i` bound to the first candidate of its name. The
/// slots that follow are optional and have no candidate. Every candidate
/// fills a slot.
pub proof fn resolved_in_slot_order(slots: Seq<AccountSlot>, candidates: Seq<Candidate>)
    requires
        resolution(slots, candidates).is_ok(),
    ensures
        ({
            let list = resolution(slots, candidates)->Ok_0;
            &&& list.len() <= slots.len()
            &&& list.len() == candidates.len()
            &&& forall|i: int|
                0 <= i < list.len() ==> binds(slots, candidates, #[trigger] list[i], i)
            &&& forall|i: int|
                list.len() <= i < slots.len() ==> #[trigger] omitted(slots, candidates, i)
        }),
{
    lemma_resolving(slots, candidates, 0, None);
}

/// A slot may be left out only at the tail: where a slot without a
/// candidate stands before a slot with one, resolution fails.
pub proof fn omission_before_supplied_fails(
    slots: Seq<AccountSlot>,
    candidates: Seq<Candidate>,
    g: int,
    h: int,
)
    requires
        0 <= g < h < slots.len(),
        !supplied(slots, candidates, g),
        supplied(slots, candidates, h),
    ensures
        resolution(slots, candidates).is_err(),
{
    if resolution(slots, candidates).is_ok() {
        resolved_in_slot_order(slots, candidates);
        let list = resolution(slots, candidates)->Ok_0;
        if g < list.len() {
            assert(binds(slots, candidates, list[g], g));
        } else {
            assert(omitted(slots, candidates, h));
        }
    }
}

/// The slots from `from` up to `to` can all be filled.
pub open spec fn filled(slots: Seq<AccountSlot>, candidates: Seq<Candidate>, from: int, to: int)
    -> bool {
    forall|i: int| from <= i < to ==> #[trigger] fillable(slots, candidates, i)
}

/// The slots from `from` up to `to` are optional and have no candidate.
pub open spec fn left_out(slots: Seq<AccountSlot>, candidates: Seq<Candidate>, from: int, to: int)
    -> bool {
    forall|i: int| from <= i < to ==> #[trigger] omitted(slots, candidates, i)
}

proof fn lemma_resolving_gap(
    slots: Seq<AccountSlot>,
    candidates: Seq<Candidate>,
    from: int,
    g: int,
    h: int,
)
    requires
        0 <= g < from <= h < slots.len() <= usize::MAX,
        left_out(slots, candidates, from, h),
        supplied(slots, candidates, h),
    ensures
        resolving(slots, candidates, from, Some(g)) == Err::<
            Seq<ResolvedAccount>,
            ResolutionError,
        >(ResolutionError::InvalidOptionalPosition(g as usize)),
    decreases h - from,
{
    if from < h {
        assert(omitted(slots, candidates, from));
        lemma_resolving_gap(slots, candidates, from + 1, g, h);
    }
}

proof fn lemma_resolving_filled(
    slots: Seq<AccountSlot>,
    candidates: Seq<Candidate>,
    from: int,
    g: int,
    e: ResolutionError,
)
    requires
        0 <= from <= g <= slots.len(),
        filled(slots, candidates, from, g),
        resolving(slots, candidates, g, None) == Err::<Seq<ResolvedAccount>, ResolutionError>(e),
    ensures
        resolving(slots, candidates, from, None) == Err::<Seq<ResolvedAccount>, ResolutionError>(e),
    decreases g - from,
{
    if from < g {
        assert(fillable(slots, candidates, from));
        lemma_resolving_filled(slots, candidates, from + 1, g, e);
    }
}

/// An optional slot left out of the middle is `InvalidOptionalPosition`:
/// where the slots before `g` can be filled, the slots from `g` up to `h`
/// are optional and have no candidate, and the slot `h` has one,
/// resolution fails with that error, at slot `g`.
pub proof fn omitted_in_the_middle(
    slots: Seq<AccountSlot>,
    candidates: Seq<Candidate>,
    g: int,
    h: int,
)
    requires
        0 <= g < h < slots.len() <= usize::MAX,
        candidates.len() <= slots.len(),
        filled(slots, candidates, 0, g),
        left_out(slots, candidates, g, h),
        supplied(slots, candidates, h),
    ensures
        resolution(slots, candidates) == Err::<Seq<ResolvedAccount>, ResolutionError>(
            ResolutionError::InvalidOptionalPosition(g as usize),
        ),
{
    assert(omitted(slots, candidates, g));
    lemma_resolving_gap(slots, candidates, g + 1, g, h);
    lemma_resolving_filled(
        slots,
        candidates,
        0,
        g,
        ResolutionError::InvalidOptionalPosition(g as usize),
    );
}

} // verus!

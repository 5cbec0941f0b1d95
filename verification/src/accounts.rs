//! Binding the account slots of an instruction to the addresses that a
//! caller supplies.

use vstd::prelude::*;
use crate::errors::ResolutionError;
use crate::idl::{AccountSlot, Address};
use crate::names::{index_from, index_of};

verus! {

/// An address that the caller offers for the slot of the same name.
#[derive(Debug, PartialEq, Eq)]
pub struct Candidate {
    pub name: String,
    pub address: Address,
    /// Whether the caller can sign for this address.
    pub can_sign: bool,
}

/// A slot bound to an address, with the slot's flags.
#[derive(Clone, Copy, Debug, PartialEq, Eq)]
pub struct ResolvedAccount {
    pub address: Address,
    pub is_signer: bool,
    pub is_writable: bool,
}

pub open spec fn candidate_names(candidates: Seq<Candidate>) -> Seq<Seq<char>> {
    Seq::new(candidates.len(), |i: int| candidates[i].name@)
}

/// The slot `slot` bound to the candidate `c`.
pub open spec fn bound(slot: AccountSlot, c: Candidate) -> ResolvedAccount {
    ResolvedAccount {
        address: c.address,
        is_signer: slot.is_signer,
        is_writable: slot.is_writable,
    }
}

/// The accounts of the slots from index `from` on, in slot order, where
/// `gap` is the first optional slot before `from` that was left out, if one
/// was. A slot takes the first candidate of its name. Once a slot has been
/// left out, a slot that is supplied is an error.
pub open spec fn resolving(
    slots: Seq<AccountSlot>,
    candidates: Seq<Candidate>,
    from: int,
    gap: Option<int>,
) -> Result<Seq<ResolvedAccount>, ResolutionError>
    decreases slots.len() - from,
{
    if from < 0 || from >= slots.len() {
        Ok(Seq::empty())
    } else {
        match index_of(candidate_names(candidates), slots[from].name@) {
            None => if slots[from].is_optional {
                resolving(
                    slots,
                    candidates,
                    from + 1,
                    if gap.is_some() {
                        gap
                    } else {
                        Some(from)
                    },
                )
            } else {
                Err(ResolutionError::MissingAccount(from as usize))
            },
            Some(k) => if gap.is_some() {
                Err(ResolutionError::InvalidOptionalPosition(gap.unwrap() as usize))
            } else if slots[from].is_signer && !candidates[k].can_sign {
                Err(ResolutionError::MissingSigner(from as usize))
            } else {
                match resolving(slots, candidates, from + 1, None) {
                    Ok(rest) => Ok(seq![bound(slots[from], candidates[k])] + rest),
                    Err(e) => Err(e),
                }
            },
        }
    }
}

/// The accounts of an instruction with the slots `slots`, for a caller who
/// supplies `candidates`: one account for each slot supplied, in slot
/// order. More candidates than slots, or a candidate that fills no slot,
/// is `AccountCountMismatch`.
pub open spec fn resolution(slots: Seq<AccountSlot>, candidates: Seq<Candidate>) -> Result<
    Seq<ResolvedAccount>,
    ResolutionError,
> {
    if candidates.len() > slots.len() {
        Err(ResolutionError::AccountCountMismatch)
    } else {
        match resolving(slots, candidates, 0, None) {
            Err(e) => Err(e),
            Ok(list) => if list.len() == candidates.len() {
                Ok(list)
            } else {
                Err(ResolutionError::AccountCountMismatch)
            },
        }
    }
}

/// `m`, with `done` in front of its accounts.
pub open spec fn after_accounts(
    done: Seq<ResolvedAccount>,
    m: Result<Seq<ResolvedAccount>, ResolutionError>,
) -> Result<Seq<ResolvedAccount>, ResolutionError> {
    match m {
        Ok(rest) => Ok(done + rest),
        Err(e) => Err(e),
    }
}

/// The name of the slot that `error` finds at fault, where it finds one.
pub fn offending_slot<'a>(slots: &'a Vec<AccountSlot>, error: ResolutionError) -> (r: Option<
    &'a String,
>)
    ensures
        match error.slot_index() {
            Some(i) => if i < slots.len() {
                r == Some(&slots[i as int].name)
            } else {
                r.is_none()
            },
            None => r.is_none(),
        },
{
    match error.slot() {
        Some(i) => {
            if i < slots.len() {
                Some(&slots[i].name)
            } else {
                None
            }
        },
        None => None,
    }
}

/// Index of the first candidate named `name`.
fn find_candidate(candidates: &Vec<Candidate>, name: &String) -> (r: Option<usize>)
    ensures
        match r {
            Some(k) => k < candidates.len() && index_of(candidate_names(candidates@), name@)
                == Some(k as int),
            None => index_of(candidate_names(candidates@), name@).is_none(),
        },
{
    let ghost names = candidate_names(candidates@);
    let mut i: usize = 0;
    while i < candidates.len()
        invariant
            i <= candidates.len(),
            names == candidate_names(candidates@),
            index_of(names, name@) == index_from(names, name@, i as int),
        decreases candidates.len() - i,
    {
        if candidates[i].name == *name {
            return Some(i);
        }
        i += 1;
    }
    None
}

/// Binds the slots of an instruction to the candidates of their names.
///
/// The result holds one account for each slot that has a candidate, in
/// slot order, with the slot's flags. Optional slots may be left out at the
/// tail of the slot list. The errors, each with the index of the first
/// slot at fault in slot order: `MissingAccount` for a slot that is not
/// optional and has no candidate; `MissingSigner` for a slot that must
/// sign whose candidate cannot; `InvalidOptionalPosition`, with the index
/// of the slot left out, where a slot is supplied after an optional slot
/// that was left out. `AccountCountMismatch` where there are more
/// candidates than slots, or where a candidate fills no slot.
pub fn resolve_accounts(slots: &Vec<AccountSlot>, candidates: &Vec<Candidate>) -> (r: Result<
    Vec<ResolvedAccount>,
    ResolutionError,
>)
    ensures
        match r {
            Ok(list) => resolution(slots@, candidates@) == Ok::<
                Seq<ResolvedAccount>,
                ResolutionError,
            >(list@),
            Err(e) => resolution(slots@, candidates@) == Err::<
                Seq<ResolvedAccount>,
                ResolutionError,
            >(e),
        },
{
    if candidates.len() > slots.len() {
        return Err(ResolutionError::AccountCountMismatch);
    }
    let ghost whole = resolving(slots@, candidates@, 0, None);
    let mut list: Vec<ResolvedAccount> = Vec::new();
    let mut gap: Option<usize> = None;
    let mut i: usize = 0;
    proof {
        if whole.is_ok() {
            assert(list@ + whole->Ok_0 =~= whole->Ok_0);
        }
    }
    while i < slots.len()
        invariant
            i <= slots.len(),
            candidates.len() <= slots.len(),
            list@.len() <= i,
            whole == resolving(slots@, candidates@, 0, None),
            gap.is_some() ==> gap.unwrap() < i,
            whole == after_accounts(
                list@,
                resolving(
                    slots@,
                    candidates@,
                    i as int,
                    match gap {
                        Some(g) => Some(g as int),
                        None => None,
                    },
                ),
            ),
        decreases slots.len() - i,
    {
        match find_candidate(candidates, &slots[i].name) {
            None => {
                if !slots[i].is_optional {
                    return Err(ResolutionError::MissingAccount(i));
                }
                if gap.is_none() {
                    gap = Some(i);
                }
            },
            Some(k) => {
                match gap {
                    Some(g) => {
                        return Err(ResolutionError::InvalidOptionalPosition(g));
                    },
                    None => {},
                }
                if slots[i].is_signer && !candidates[k].can_sign {
                    return Err(ResolutionError::MissingSigner(i));
                }
                let ghost done = list@;
                let account = ResolvedAccount {
                    address: candidates[k].address,
                    is_signer: slots[i].is_signer,
                    is_writable: slots[i].is_writable,
                };
                proof {
                    let next = resolving(slots@, candidates@, i + 1, None);
                    if next.is_ok() {
                        assert(done + (seq![account] + next->Ok_0) =~= done.push(account)
                            + next->Ok_0);
                    }
                }
                list.push(account);
            },
        }
        i += 1;
    }
    proof {
        assert(list@ + Seq::<ResolvedAccount>::empty() =~= list@);
    }
    if list.len() != candidates.len() {
        return Err(ResolutionError::AccountCountMismatch);
    }
    Ok(list)
}

} // verus!

use aqd_solana::accounts::{offending_slot, resolve_accounts, Candidate, ResolvedAccount};
use aqd_solana::errors::ResolutionError;
use aqd_solana::idl::{AccountSlot, Address};

fn slot(name: &str, is_signer: bool, is_writable: bool, is_optional: bool) -> AccountSlot {
    AccountSlot { name: name.to_string(), is_signer, is_writable, is_optional }
}

fn address(byte: u8) -> Address {
    Address { bytes: [byte; 32] }
}

fn candidate(name: &str, byte: u8, can_sign: bool) -> Candidate {
    Candidate { name: name.to_string(), address: address(byte), can_sign }
}

fn abc() -> Vec<AccountSlot> {
    vec![
        slot("A", true, false, false),
        slot("B", false, true, false),
        slot("C", false, true, true),
    ]
}

#[test]
fn a_trailing_optional_slot_may_be_left_out() {
    let r = resolve_accounts(&abc(), &vec![candidate("A", 1, true), candidate("B", 2, false)]);
    assert_eq!(
        r,
        Ok(vec![
            ResolvedAccount { address: address(1), is_signer: true, is_writable: false },
            ResolvedAccount { address: address(2), is_signer: false, is_writable: true },
        ])
    );
}

#[test]
fn accounts_come_out_in_slot_order() {
    let r = resolve_accounts(
        &abc(),
        &vec![candidate("C", 3, false), candidate("B", 2, true), candidate("A", 1, true)],
    );
    assert_eq!(
        r,
        Ok(vec![
            ResolvedAccount { address: address(1), is_signer: true, is_writable: false },
            ResolvedAccount { address: address(2), is_signer: false, is_writable: true },
            ResolvedAccount { address: address(3), is_signer: false, is_writable: true },
        ])
    );
}

#[test]
fn an_optional_slot_left_out_of_the_middle_is_an_error() {
    let slots = vec![
        slot("A", true, false, false),
        slot("C", false, true, true),
        slot("B", false, true, false),
    ];
    let r = resolve_accounts(&slots, &vec![candidate("A", 1, true), candidate("B", 2, false)]);
    assert_eq!(r, Err(ResolutionError::InvalidOptionalPosition(1)));
    let all = resolve_accounts(
        &slots,
        &vec![candidate("A", 1, true), candidate("B", 2, false), candidate("C", 3, false)],
    );
    assert_eq!(all.map(|list| list.len()), Ok(3));
}

#[test]
fn a_required_slot_without_a_candidate_is_missing() {
    let r = resolve_accounts(&abc(), &vec![candidate("A", 1, true)]);
    assert_eq!(r, Err(ResolutionError::MissingAccount(1)));
    let r = resolve_accounts(&abc(), &vec![]);
    assert_eq!(r, Err(ResolutionError::MissingAccount(0)));
}

#[test]
fn a_signer_slot_needs_a_candidate_that_can_sign() {
    let r = resolve_accounts(&abc(), &vec![candidate("A", 1, false), candidate("B", 2, false)]);
    assert_eq!(r, Err(ResolutionError::MissingSigner(0)));
}

#[test]
fn more_candidates_than_slots_is_a_count_mismatch() {
    let r = resolve_accounts(
        &abc(),
        &vec![
            candidate("A", 1, true),
            candidate("B", 2, false),
            candidate("C", 3, false),
            candidate("D", 4, false),
        ],
    );
    assert_eq!(r, Err(ResolutionError::AccountCountMismatch));
}

#[test]
fn a_candidate_that_fills_no_slot_is_a_count_mismatch() {
    let r = resolve_accounts(
        &abc(),
        &vec![candidate("A", 1, true), candidate("B", 2, false), candidate("X", 9, false)],
    );
    assert_eq!(r, Err(ResolutionError::AccountCountMismatch));
    let r = resolve_accounts(
        &abc(),
        &vec![candidate("A", 1, true), candidate("B", 2, false), candidate("B", 9, false)],
    );
    assert_eq!(r, Err(ResolutionError::AccountCountMismatch));
}

#[test]
fn no_slots_and_no_candidates_resolve_to_nothing() {
    assert_eq!(resolve_accounts(&vec![], &vec![]), Ok(vec![]));
    let optional = vec![slot("O", true, true, true)];
    assert_eq!(resolve_accounts(&optional, &vec![]), Ok(vec![]));
}

#[test]
fn errors_name_the_slot_at_fault() {
    let slots = abc();
    assert_eq!(
        offending_slot(&slots, ResolutionError::MissingAccount(1)),
        Some(&"B".to_string())
    );
    assert_eq!(
        offending_slot(&slots, ResolutionError::MissingSigner(0)),
        Some(&"A".to_string())
    );
    assert_eq!(
        offending_slot(&slots, ResolutionError::InvalidOptionalPosition(2)),
        Some(&"C".to_string())
    );
    assert_eq!(offending_slot(&slots, ResolutionError::AccountCountMismatch), None);
    assert_eq!(offending_slot(&slots, ResolutionError::MissingAccount(3)), None);
    assert_eq!(ResolutionError::MissingSigner(4).slot(), Some(4));
    assert_eq!(ResolutionError::AccountCountMismatch.slot(), None);
}

use aqd_solana::accounts::{resolve_accounts, Candidate, ResolvedAccount};
use aqd_solana::builder::{build, discriminator_of_digest, instruction_discriminator};
use aqd_solana::errors::{BuildError, CodecError};
use aqd_solana::idl::{AccountSlot, Address, IdlDefinition, IdlInstruction};
use aqd_solana::loader::assemble;
use aqd_solana::schema::{Field, PrimitiveKind, TypeDescriptor};
use aqd_solana::value::{FieldValue, Value};
use sha2::{Digest, Sha256};

fn name(s: &str) -> String {
    s.to_string()
}

fn address(byte: u8) -> Address {
    Address { bytes: [byte; 32] }
}

fn arg(n: &str, v: Value) -> FieldValue {
    FieldValue { name: name(n), value: v }
}

fn transfer_idl() -> IdlDefinition {
    let transfer = IdlInstruction {
        name: name("transfer"),
        accounts: vec![
            AccountSlot { name: name("from"), is_signer: true, is_writable: true, is_optional: false },
            AccountSlot { name: name("to"), is_signer: false, is_writable: true, is_optional: false },
        ],
        args: vec![Field { name: name("amount"), ty: TypeDescriptor::Primitive(PrimitiveKind::U64) }],
        returns: None,
    };
    let swap = IdlInstruction {
        name: name("swap"),
        accounts: vec![],
        args: vec![
            Field { name: name("a"), ty: TypeDescriptor::Primitive(PrimitiveKind::U8) },
            Field { name: name("b"), ty: TypeDescriptor::Primitive(PrimitiveKind::U16) },
        ],
        returns: Some(TypeDescriptor::Primitive(PrimitiveKind::Bool)),
    };
    assemble(address(42), vec![transfer, swap], vec![]).unwrap()
}

#[test]
fn discriminators_are_the_start_of_a_hash() {
    assert_eq!(
        instruction_discriminator(&name("transfer")),
        vec![163, 52, 200, 231, 140, 3, 69, 186]
    );
    assert_eq!(
        instruction_discriminator(&name("initialize")),
        vec![175, 175, 109, 31, 13, 152, 155, 237]
    );
    assert_eq!(
        instruction_discriminator(&name("flip")),
        Sha256::digest(b"global:flip")[..8].to_vec()
    );
    let digest: Vec<u8> = (10u8..42).collect();
    assert_eq!(discriminator_of_digest(&digest), vec![10, 11, 12, 13, 14, 15, 16, 17]);
}

#[test]
fn transfer_end_to_end() {
    let idl = transfer_idl();
    let slots = &idl.instruction(&name("transfer")).unwrap().accounts;
    let accounts = resolve_accounts(
        slots,
        &vec![
            Candidate { name: name("to"), address: address(2), can_sign: false },
            Candidate { name: name("from"), address: address(1), can_sign: true },
        ],
    )
    .unwrap();
    let built = build(&idl, &name("transfer"), &vec![arg("amount", Value::Int(1000))], accounts)
        .unwrap();
    assert_eq!(built.program_id, address(42));
    assert_eq!(
        built.data,
        vec![163, 52, 200, 231, 140, 3, 69, 186, 0xE8, 0x03, 0, 0, 0, 0, 0, 0]
    );
    assert_eq!(
        built.accounts,
        vec![
            ResolvedAccount { address: address(1), is_signer: true, is_writable: true },
            ResolvedAccount { address: address(2), is_signer: false, is_writable: true },
        ]
    );
    assert!(built.accounts[0].is_signer);
}

#[test]
fn arguments_are_encoded_in_declared_order() {
    let idl = transfer_idl();
    let built = build(
        &idl,
        &name("swap"),
        &vec![arg("b", Value::Int(0x0302)), arg("a", Value::Int(1))],
        vec![],
    )
    .unwrap();
    assert_eq!(built.data[8..], [1, 2, 3]);
    assert_eq!(built.data[..8], instruction_discriminator(&name("swap"))[..]);
    assert!(built.accounts.is_empty());
}

#[test]
fn a_missing_argument_is_a_mismatch() {
    let idl = transfer_idl();
    assert_eq!(
        build(&idl, &name("transfer"), &vec![], vec![]),
        Err(BuildError::ArgumentMismatch)
    );
    assert_eq!(
        build(&idl, &name("swap"), &vec![arg("a", Value::Int(1))], vec![]),
        Err(BuildError::ArgumentMismatch)
    );
    assert_eq!(
        build(&idl, &name("swap"), &vec![arg("a", Value::Int(1)), arg("a", Value::Int(1))], vec![]),
        Err(BuildError::ArgumentMismatch)
    );
}

#[test]
fn an_extra_argument_is_a_mismatch() {
    let idl = transfer_idl();
    assert_eq!(
        build(
            &idl,
            &name("transfer"),
            &vec![arg("amount", Value::Int(1)), arg("memo", Value::Int(2))],
            vec![]
        ),
        Err(BuildError::ArgumentMismatch)
    );
    assert_eq!(
        build(&idl, &name("transfer"), &vec![arg("memo", Value::Int(2))], vec![]),
        Err(BuildError::ArgumentMismatch)
    );
}

#[test]
fn an_unknown_instruction_is_not_found() {
    let idl = transfer_idl();
    assert_eq!(
        build(&idl, &name("mint"), &vec![arg("amount", Value::Int(1))], vec![]),
        Err(BuildError::NotFound)
    );
}

#[test]
fn an_argument_of_the_wrong_type_is_an_encoding_error() {
    let idl = transfer_idl();
    assert_eq!(
        build(&idl, &name("transfer"), &vec![arg("amount", Value::Bool(true))], vec![]),
        Err(BuildError::Encoding(CodecError::TypeMismatch))
    );
    assert_eq!(
        build(&idl, &name("transfer"), &vec![arg("amount", Value::Int(-1))], vec![]),
        Err(BuildError::Encoding(CodecError::TypeMismatch))
    );
}

//! Building the instruction that calls a program: the discriminator of
//! the instruction's name, the bytes of its arguments, and its accounts.

use sha2::{Digest, Sha256};
use vstd::prelude::*;
use vstd::utf8::encode_utf8;
use crate::accounts::ResolvedAccount;
use crate::codec::{find_field, write_fields};
use crate::errors::BuildError;
use crate::format::{encoding_fields, value_names};
use crate::idl::{instruction_names, Address, IdlDefinition};
use crate::names::{find_named, index_of, names_of};
use crate::schema::{field_names, Field};
use crate::value::{struct_model, FieldValue, ValueModel};
use crate::wire::{append_bytes, copy_range};

verus! {

/// The SHA-256 hash of `data`.
pub uninterp spec fn sha256(data: Seq<u8>) -> Seq<u8>;

/// The SHA-256 hash of `data`, computed by `sha2::Sha256::digest`. It
/// depends on `data` alone and has 32 bytes.
#[verifier::external_body]
fn sha256_digest(data: &[u8]) -> (out: Vec<u8>)
    ensures
        out@ == sha256(data@),
        out@.len() == 32,
{
    Sha256::digest(data).to_vec()
}

/// The bytes of `global:`, the namespace of instruction names.
pub open spec fn namespace() -> Seq<u8> {
    seq![0x67u8, 0x6c, 0x6f, 0x62, 0x61, 0x6c, 0x3a]
}

/// The discriminator of the instruction `name`: the first eight bytes of
/// the SHA-256 hash of `global:` followed by the name in UTF-8.
pub open spec fn discriminator(name: Seq<char>) -> Seq<u8> {
    sha256(namespace() + encode_utf8(name)).subrange(0, 8)
}

/// The first eight bytes of a hash.
pub fn discriminator_of_digest(digest: &[u8]) -> (r: Vec<u8>)
    requires
        digest@.len() >= 8,
    ensures
        r@ == digest@.subrange(0, 8),
{
    copy_range(digest, 0, 8)
}

/// The discriminator of the instruction `name`.
pub fn instruction_discriminator(name: &String) -> (r: Vec<u8>)
    ensures
        r@ == discriminator(name@),
        r@.len() == 8,
{
    let mut preimage: Vec<u8> = Vec::new();
    preimage.push(0x67u8);
    preimage.push(0x6cu8);
    preimage.push(0x6fu8);
    preimage.push(0x62u8);
    preimage.push(0x61u8);
    preimage.push(0x6cu8);
    preimage.push(0x3au8);
    assert(preimage@ =~= namespace());
    append_bytes(&mut preimage, name.as_str().as_bytes());
    let digest = sha256_digest(preimage.as_slice());
    discriminator_of_digest(digest.as_slice())
}

/// An instruction, ready to be put into a transaction.
#[derive(Debug, PartialEq, Eq)]
pub struct EncodedInstruction {
    pub program_id: Address,
    pub accounts: Vec<ResolvedAccount>,
    /// The discriminator, then the arguments.
    pub data: Vec<u8>,
}

/// The argument declared at index `i` is among those given.
pub open spec fn argument_given(given: Seq<(Seq<char>, ValueModel)>, args: Seq<Field>, i: int)
    -> bool {
    index_of(value_names(given), args[i].name@).is_some()
}

/// The argument given at index `i` is among those declared.
pub open spec fn argument_declared(given: Seq<(Seq<char>, ValueModel)>, args: Seq<Field>, i: int)
    -> bool {
    index_of(field_names(args), given[i].0).is_some()
}

/// The arguments given are exactly those declared: as many, each declared
/// argument among those given, and each given argument among those
/// declared.
pub open spec fn arguments_match(given: Seq<(Seq<char>, ValueModel)>, args: Seq<Field>) -> bool {
    &&& given.len() == args.len()
    &&& forall|i: int| 0 <= i < args.len() ==> #[trigger] argument_given(given, args, i)
    &&& forall|i: int| 0 <= i < given.len() ==> #[trigger] argument_declared(given, args, i)
}

/// The payload of a call of the instruction `name` with the arguments
/// `given`: the discriminator, then the arguments in the order of their
/// declaration.
pub open spec fn building(
    idl: &IdlDefinition,
    name: Seq<char>,
    given: Seq<(Seq<char>, ValueModel)>,
) -> Result<Seq<u8>, BuildError> {
    match index_of(instruction_names(idl.instructions@), name) {
        None => Err(BuildError::NotFound),
        Some(i) => if !arguments_match(given, idl.instructions[i].args@) {
            Err(BuildError::ArgumentMismatch)
        } else {
            match encoding_fields(given, &idl.instructions[i].args, &idl.types, 0) {
                Err(e) => Err(BuildError::Encoding(e)),
                Ok(b) => Ok(discriminator(name) + b),
            }
        },
    }
}

/// Whether each declared argument is among those given.
fn all_given(given: &Vec<FieldValue>, args: &Vec<Field>) -> (r: bool)
    ensures
        r == (forall|i: int|
            0 <= i < args.len() ==> #[trigger] argument_given(struct_model(given), args@, i)),
{
    let mut i: usize = 0;
    while i < args.len()
        invariant
            i <= args.len(),
            forall|j: int| 0 <= j < i ==> #[trigger] argument_given(struct_model(given), args@, j),
        decreases args.len() - i,
    {
        if find_field(given, &args[i].name).is_none() {
            assert(!argument_given(struct_model(given), args@, i as int));
            return false;
        }
        i += 1;
    }
    true
}

/// Whether each given argument is among those declared.
fn all_declared(given: &Vec<FieldValue>, args: &Vec<Field>) -> (r: bool)
    ensures
        r == (forall|i: int|
            0 <= i < given.len() ==> #[trigger] argument_declared(struct_model(given), args@, i)),
{
    assert(names_of(args@) =~= field_names(args@));
    let mut i: usize = 0;
    while i < given.len()
        invariant
            i <= given.len(),
            names_of(args@) == field_names(args@),
            forall|j: int|
                0 <= j < i ==> #[trigger] argument_declared(struct_model(given), args@, j),
        decreases given.len() - i,
    {
        if find_named(args, &given[i].name).is_none() {
            assert(!argument_declared(struct_model(given), args@, i as int));
            return false;
        }
        i += 1;
    }
    true
}

/// Builds the instruction `instruction_name` of `idl`.
///
/// The arguments are looked up by name and encoded in the order of their
/// declaration, after the discriminator. The accounts are attached as they
/// are given. Fails with `NotFound` where the definition has no such
/// instruction, with `ArgumentMismatch` where the arguments given are not
/// exactly those declared, and with `Encoding` where an argument does not
/// fit its type, in that order.
pub fn build(
    idl: &IdlDefinition,
    instruction_name: &String,
    args_by_name: &Vec<FieldValue>,
    resolved_accounts: Vec<ResolvedAccount>,
) -> (r: Result<EncodedInstruction, BuildError>)
    requires
        idl.wf(),
    ensures
        match r {
            Ok(built) => building(idl, instruction_name@, struct_model(args_by_name)) == Ok::<
                Seq<u8>,
                BuildError,
            >(built.data@) && built.program_id == idl.program_id && built.accounts
                == resolved_accounts,
            Err(e) => building(idl, instruction_name@, struct_model(args_by_name)) == Err::<
                Seq<u8>,
                BuildError,
            >(e),
        },
{
    let instruction = match idl.instruction(instruction_name) {
        Ok(found) => found,
        Err(_) => {
            return Err(BuildError::NotFound);
        },
    };
    if args_by_name.len() != instruction.args.len() || !all_given(
        args_by_name,
        &instruction.args,
    ) || !all_declared(args_by_name, &instruction.args) {
        return Err(BuildError::ArgumentMismatch);
    }
    let mut data: Vec<u8> = instruction_discriminator(instruction_name);
    match write_fields(args_by_name, &instruction.args, &idl.types, &mut data) {
        Ok(_) => Ok(
            EncodedInstruction { program_id: idl.program_id, accounts: resolved_accounts, data },
        ),
        Err(e) => Err(BuildError::Encoding(e)),
    }
}

/// Argument completeness. Where a declared argument of the instruction
/// is not among those given, building fails with `ArgumentMismatch`.
pub proof fn missing_argument_is_rejected(
    idl: &IdlDefinition,
    name: Seq<char>,
    given: Seq<(Seq<char>, ValueModel)>,
    missing: int,
)
    requires
        index_of(instruction_names(idl.instructions@), name).is_some(),
        ({
            let args = idl.instructions[index_of(
                instruction_names(idl.instructions@),
                name,
            ).unwrap()].args@;
            0 <= missing < args.len() && !argument_given(given, args, missing)
        }),
    ensures
        building(idl, name, given) == Err::<Seq<u8>, BuildError>(BuildError::ArgumentMismatch),
{
}

/// Argument completeness. Where an argument is given that the
/// instruction does not declare, building fails with `ArgumentMismatch`.
pub proof fn extra_argument_is_rejected(
    idl: &IdlDefinition,
    name: Seq<char>,
    given: Seq<(Seq<char>, ValueModel)>,
    extra: int,
)
    requires
        index_of(instruction_names(idl.instructions@), name).is_some(),
        ({
            let args = idl.instructions[index_of(
                instruction_names(idl.instructions@),
                name,
            ).unwrap()].args@;
            0 <= extra < given.len() && !argument_declared(given, args, extra)
        }),
    ensures
        building(idl, name, given) == Err::<Seq<u8>, BuildError>(BuildError::ArgumentMismatch),
{
}

} // verus!

//! The interface definition of a program: its instructions, their account
//! slots and arguments, and its named types.

use vstd::prelude::*;
use crate::errors::SchemaError;
use crate::names::{distinct, index_from, index_of, Named};
use crate::schema::{field_names, valid, valid_fields, Field, TypeDescriptor, TypeTable};

verus! {

/// A key of 32 bytes: the address of an account or of a program.
#[derive(Clone, Copy, Debug, PartialEq, Eq)]
pub struct Address {
    pub bytes: [u8; 32],
}

/// The address made of `bytes`, if they are 32.
pub fn address_from_bytes(bytes: &[u8]) -> (r: Option<Address>)
    ensures
        match r {
            Some(address) => address.bytes@ == bytes@,
            None => bytes@.len() != 32,
        },
{
    if bytes.len() != 32 {
        return None;
    }
    let mut out: [u8; 32] = [0u8; 32];
    let mut i: usize = 0;
    while i < 32
        invariant
            i <= 32,
            bytes@.len() == 32,
            forall|j: int| 0 <= j < i ==> out@[j] == bytes@[j],
        decreases 32 - i,
    {
        out[i] = bytes[i];
        i += 1;
    }
    assert(out@ =~= bytes@);
    Some(Address { bytes: out })
}

/// An account that an instruction requires.
#[derive(Debug, PartialEq, Eq)]
pub struct AccountSlot {
    pub name: String,
    pub is_signer: bool,
    pub is_writable: bool,
    pub is_optional: bool,
}

/// An argument that an instruction takes: a name and a type.
pub type ArgSlot = Field;

#[derive(Debug, PartialEq, Eq)]
pub struct IdlInstruction {
    pub name: String,
    pub accounts: Vec<AccountSlot>,
    pub args: Vec<ArgSlot>,
    pub returns: Option<TypeDescriptor>,
}

#[derive(Debug, PartialEq, Eq)]
pub struct IdlDefinition {
    pub program_id: Address,
    pub instructions: Vec<IdlInstruction>,
    pub types: TypeTable,
}

impl Named for AccountSlot {
    open spec fn name_model(&self) -> Seq<char> {
        self.name@
    }

    fn name_ref(&self) -> (r: &String) {
        &self.name
    }
}

impl Named for IdlInstruction {
    open spec fn name_model(&self) -> Seq<char> {
        self.name@
    }

    fn name_ref(&self) -> (r: &String) {
        &self.name
    }
}

pub open spec fn slot_names(slots: Seq<AccountSlot>) -> Seq<Seq<char>> {
    Seq::new(slots.len(), |i: int| slots[i].name@)
}

pub open spec fn instruction_names(instructions: Seq<IdlInstruction>) -> Seq<Seq<char>> {
    Seq::new(instructions.len(), |i: int| instructions[i].name@)
}

impl IdlInstruction {
    /// No two slots and no two arguments share a name, and every type is
    /// valid in the table `t`.
    pub open spec fn wf(&self, t: &TypeTable) -> bool {
        &&& distinct(slot_names(self.accounts@))
        &&& distinct(field_names(self.args@))
        &&& valid_fields(&self.args, t, 0)
        &&& match self.returns {
            Some(r) => valid(&r, t),
            None => true,
        }
    }
}

impl IdlDefinition {
    /// The type table is well-formed, no two instructions share a name, and
    /// every instruction is well-formed.
    pub open spec fn wf(&self) -> bool {
        &&& self.types.wf()
        &&& distinct(instruction_names(self.instructions@))
        &&& forall|i: int|
            0 <= i < self.instructions.len() ==> (#[trigger] self.instructions[i]).wf(&self.types)
    }

    /// The instruction named `name`, or `NotFound`.
    pub fn instruction(&self, name: &String) -> (r: Result<&IdlInstruction, SchemaError>)
        ensures
            match r {
                Ok(found) => match index_of(instruction_names(self.instructions@), name@) {
                    Some(i) => 0 <= i < self.instructions.len() && *found == self.instructions[i],
                    None => false,
                },
                Err(e) => e == SchemaError::NotFound && index_of(
                    instruction_names(self.instructions@),
                    name@,
                ).is_none(),
            },
    {
        let ghost names = instruction_names(self.instructions@);
        let mut i: usize = 0;
        while i < self.instructions.len()
            invariant
                i <= self.instructions.len(),
                names == instruction_names(self.instructions@),
                index_of(names, name@) == index_from(names, name@, i as int),
            decreases self.instructions.len() - i,
        {
            if self.instructions[i].name == *name {
                return Ok(&self.instructions[i]);
            }
            i += 1;
        }
        Err(SchemaError::NotFound)
    }

    /// The type defined under `name`, or `NotFound`.
    pub fn named_type(&self, name: &String) -> (r: Result<&TypeDescriptor, SchemaError>)
        ensures
            match r {
                Ok(found) => match index_of(self.types.names(), name@) {
                    Some(j) => 0 <= j < self.types.entries.len() && *found
                        == self.types.entries[j].ty,
                    None => false,
                },
                Err(e) => e == SchemaError::NotFound && index_of(
                    self.types.names(),
                    name@,
                ).is_none(),
            },
    {
        match self.types.find(name) {
            Some(j) => Ok(&self.types.entries[j].ty),
            None => Err(SchemaError::NotFound),
        }
    }
}

} // verus!

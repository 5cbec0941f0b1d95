//! The kinds of failure, one enum for each layer.

use vstd::prelude::*;
use crate::idl::Address;

verus! {

/// A value, or a run of bytes, does not fit the type it is held against.
#[derive(Clone, Copy, Debug, PartialEq, Eq, Structural)]
pub enum CodecError {
    /// The value's shape is not the descriptor's.
    TypeMismatch,
    /// The bytes end before the descriptor is satisfied.
    TruncatedInput,
    /// A leading index or flag matches no declared alternative.
    InvalidDiscriminant,
}

/// An interface definition is not usable, or lacks what was asked of it.
#[derive(Clone, Copy, Debug, PartialEq, Eq, Structural)]
pub enum SchemaError {
    /// The document's structure is not that of an interface definition.
    MalformedIdl,
    /// A type is of a kind that is not known.
    UnsupportedType,
    /// No instruction, or no type, has the name.
    NotFound,
}

/// The accounts supplied do not fill the slots declared. Each variant but
/// `AccountCountMismatch` holds the index of the slot at fault.
#[derive(Clone, Copy, Debug, PartialEq, Eq, Structural)]
pub enum ResolutionError {
    /// A slot that is not optional has no candidate.
    MissingAccount(usize),
    /// A slot that must sign has a candidate that cannot.
    MissingSigner(usize),
    /// More candidates were supplied than slots were filled.
    AccountCountMismatch,
    /// An optional slot was left out though one after it was supplied.
    InvalidOptionalPosition(usize),
}

impl ResolutionError {
    /// The index of the slot at fault, where one slot is at fault.
    pub open spec fn slot_index(self) -> Option<usize> {
        match self {
            ResolutionError::MissingAccount(i) => Some(i),
            ResolutionError::MissingSigner(i) => Some(i),
            ResolutionError::AccountCountMismatch => None,
            ResolutionError::InvalidOptionalPosition(i) => Some(i),
        }
    }

    /// The index of the slot at fault, where one slot is at fault.
    pub fn slot(&self) -> (r: Option<usize>)
        ensures
            r == self.slot_index(),
    {
        match self {
            ResolutionError::MissingAccount(i) => Some(*i),
            ResolutionError::MissingSigner(i) => Some(*i),
            ResolutionError::AccountCountMismatch => None,
            ResolutionError::InvalidOptionalPosition(i) => Some(*i),
        }
    }
}

/// An instruction could not be built.
#[derive(Clone, Copy, Debug, PartialEq, Eq, Structural)]
pub enum BuildError {
    /// The definition has no instruction of the name.
    NotFound,
    /// The arguments supplied are not exactly those declared.
    ArgumentMismatch,
    /// An argument does not fit its declared type.
    Encoding(CodecError),
}

/// Why a submission did not go through.
#[derive(Clone, Copy, Debug, PartialEq, Eq, Structural)]
pub enum Cause {
    /// The network or the endpoint failed.
    Transport,
    /// The ledger did not confirm in time.
    Timeout,
    /// The ledger rejected the transaction, with this code.
    Rejected(u32),
    /// An event arrived that the pipeline was not waiting for.
    OutOfTurn,
}

/// A deployment came to a halt.
#[derive(Clone, Copy, Debug, PartialEq, Eq, Structural)]
pub enum DeployError {
    /// A submission failed when `offset` bytes had been written.
    DeploymentFailed { offset: usize, cause: Cause },
    /// Another deployment is writing to the same buffer account.
    AccountInUse,
}

/// A transport failure that retrying did not cure.
#[derive(Clone, Copy, Debug, PartialEq, Eq, Structural)]
pub enum TransportFault {
    /// The network or the endpoint kept failing.
    Network,
    /// The ledger found the blockhash stale again after a rebuild.
    StaleBlockhash,
}

/// A transaction did not yield an outcome.
#[derive(Debug, PartialEq, Eq)]
pub enum TxError {
    /// The program failed; its code and its log lines are kept.
    ProgramExecutionError { program_id: Address, error_code: u32, logs: Vec<String> },
    /// The data returned is not a value of the declared return type.
    ReturnDecodeError,
    /// The ledger did not finalize the transaction in time.
    ConfirmationTimeout,
    /// The transport failed, and retrying within bounds did not help.
    Transport(TransportFault),
}

} // verus!

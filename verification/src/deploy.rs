//! Deploying a program: the command, and the upload of the binary chunk by
//! chunk, as a state machine that is told what happened and says what to do
//! next.

use vstd::prelude::*;
use vstd::string::StringExecFns;
use crate::errors::{Cause, DeployError};
use crate::idl::Address;
use crate::wire::copy_range;

verus! {

/// The `deploy` command: where the program file lies, and how the program
/// identifier is to be printed.
#[derive(Clone, Debug)]
pub struct SolanaDeploy {
    pub program_location: String,
    pub output_json: bool,
}

/// Why the command stops before it deploys.
#[derive(Debug, PartialEq, Eq)]
pub enum Halt {
    /// The command fails with this message.
    Failure(String),
    /// The process exits with this code.
    Exit(i32),
}

/// The line that reports the identifier `program_id`.
pub open spec fn report_line(output_json: bool, program_id: Seq<char>) -> Seq<char> {
    if output_json {
        "{\"program_id\": \""@ + program_id + "\"}"@
    } else {
        "Program ID: "@ + program_id
    }
}

impl SolanaDeploy {
    /// What the check of the working directory means for the command: on
    /// with the deployment where the directory is that of a project for
    /// this target, exit code 1 where it is not, and failure where the
    /// check itself failed.
    pub fn after_target_check(target_match: Result<bool, String>) -> (r: Result<(), Halt>)
        ensures
            match target_match {
                Ok(true) => r.is_ok(),
                Ok(false) => r == Err::<(), Halt>(Halt::Exit(1)),
                Err(e) => match r {
                    Err(Halt::Failure(message)) => message@
                        == "Failed to check current directory: "@ + e@,
                    _ => false,
                },
            },
    {
        match target_match {
            Ok(true) => Ok(()),
            Ok(false) => Err(Halt::Exit(1)),
            Err(e) => {
                let message = String::from_str("Failed to check current directory: ").concat(
                    e.as_str(),
                );
                Err(Halt::Failure(message))
            },
        }
    }

    /// The line to print once the program is deployed under `program_id`:
    /// a JSON object where JSON was asked for, a sentence where not.
    pub fn report(&self, program_id: &str) -> (line: String)
        ensures
            line@ == report_line(self.output_json, program_id@),
    {
        if self.output_json {
            String::from_str("{\"program_id\": \"").concat(program_id).concat("\"}")
        } else {
            String::from_str("Program ID: ").concat(program_id)
        }
    }
}

/// Where a deployment stands.
#[derive(Clone, Copy, Debug, PartialEq, Eq)]
pub enum DeployPhase {
    /// The buffer account is being allocated.
    Init,
    /// Chunks are being written.
    Writing,
    /// Every chunk is written and the program is being activated.
    Finalizing,
    /// The program is active under this identifier.
    Done(Address),
    /// The deployment has halted.
    Failed(DeployError),
}

/// What happened to the last action.
#[derive(Clone, Copy, Debug, PartialEq, Eq)]
pub enum DeployEvent {
    /// The buffer account was allocated at this address.
    BufferAllocated(Address),
    /// The chunk was written and confirmed.
    ChunkConfirmed,
    /// The buffer was activated as the program of this identifier.
    ProgramActivated(Address),
    /// The submission failed.
    SubmissionFailed(Cause),
    /// The buffer account is in use by another deployment.
    AccountInUse,
}

/// What to do next.
#[derive(Debug, PartialEq, Eq)]
pub enum DeployAction {
    /// Allocate a buffer account of this size.
    AllocateBuffer { size: usize },
    /// Write `data` into the buffer at `offset`.
    WriteChunk { buffer: Address, offset: usize, data: Vec<u8> },
    /// Activate the buffer as the program.
    Finalize { buffer: Address },
    /// Nothing: the program is deployed under this identifier.
    Finished(Address),
    /// Nothing: the deployment has halted.
    Halted(DeployError),
}

/// One deployment of one binary.
#[derive(Debug)]
pub struct DeploymentSession {
    pub binary: Vec<u8>,
    pub chunk_size: usize,
    /// How many bytes of the binary are written and confirmed.
    pub offset: usize,
    pub buffer: Option<Address>,
    pub phase: DeployPhase,
}

/// A chunk of `chunk_size` bytes, encoded, fits a transaction.
pub open spec fn chunk_fits(chunk_size: int, encode_overhead: int, max_tx_size: int) -> bool {
    0 < chunk_size && chunk_size * encode_overhead <= max_tx_size
}

/// The session `s` with the phase `phase`.
pub open spec fn in_phase(s: DeploymentSession, phase: DeployPhase) -> DeploymentSession {
    DeploymentSession { phase, ..s }
}

/// The session `s` halted by a failure of cause `cause`.
pub open spec fn halted(s: DeploymentSession, cause: Cause) -> DeploymentSession {
    in_phase(
        s,
        DeployPhase::Failed(DeployError::DeploymentFailed { offset: s.offset, cause }),
    )
}

/// Where the chunk that starts at `offset` ends.
pub open spec fn chunk_end(s: DeploymentSession, offset: int) -> int {
    if s.binary.len() - offset < s.chunk_size {
        s.binary.len() as int
    } else {
        offset + s.chunk_size
    }
}

/// The session after the event `e`.
///
/// Any failure halts the session at its offset. An event that the phase
/// was not waiting for halts it too. A session that is done or halted
/// stays as it is.
pub open spec fn transition(s: DeploymentSession, e: DeployEvent) -> DeploymentSession {
    match s.phase {
        DeployPhase::Done(_) => s,
        DeployPhase::Failed(_) => s,
        _ => match e {
            DeployEvent::AccountInUse => in_phase(
                s,
                DeployPhase::Failed(DeployError::AccountInUse),
            ),
            DeployEvent::SubmissionFailed(cause) => halted(s, cause),
            DeployEvent::BufferAllocated(buffer) => if s.phase == DeployPhase::Init {
                DeploymentSession {
                    buffer: Some(buffer),
                    phase: if s.binary.len() == 0 {
                        DeployPhase::Finalizing
                    } else {
                        DeployPhase::Writing
                    },
                    ..s
                }
            } else {
                halted(s, Cause::OutOfTurn)
            },
            DeployEvent::ChunkConfirmed => if s.phase == DeployPhase::Writing {
                DeploymentSession {
                    offset: chunk_end(s, s.offset as int) as usize,
                    phase: if chunk_end(s, s.offset as int) == s.binary.len() {
                        DeployPhase::Finalizing
                    } else {
                        DeployPhase::Writing
                    },
                    ..s
                }
            } else {
                halted(s, Cause::OutOfTurn)
            },
            DeployEvent::ProgramActivated(program) => if s.phase == DeployPhase::Finalizing {
                in_phase(s, DeployPhase::Done(program))
            } else {
                halted(s, Cause::OutOfTurn)
            },
        },
    }
}

/// The action `a` is what the session `s` asks for.
pub open spec fn is_action_of(s: DeploymentSession, a: DeployAction) -> bool {
    match s.phase {
        DeployPhase::Init => a == (DeployAction::AllocateBuffer { size: s.binary.len() }),
        DeployPhase::Writing => match a {
            DeployAction::WriteChunk { buffer, offset, data } => s.buffer == Some(buffer) && offset
                == s.offset && data@ == s.binary@.subrange(
                s.offset as int,
                chunk_end(s, s.offset as int),
            ),
            _ => false,
        },
        DeployPhase::Finalizing => match a {
            DeployAction::Finalize { buffer } => s.buffer == Some(buffer),
            _ => false,
        },
        DeployPhase::Done(program) => a == DeployAction::Finished(program),
        DeployPhase::Failed(e) => a == DeployAction::Halted(e),
    }
}

impl DeploymentSession {
    /// The offset is within the binary, chunks are not empty, and the
    /// phase agrees with both: while writing, a buffer is allocated and
    /// bytes are left to write; while finalizing, a buffer is allocated
    /// and every byte is written.
    pub open spec fn wf(&self) -> bool {
        &&& self.chunk_size > 0
        &&& self.offset <= self.binary.len()
        &&& match self.phase {
            DeployPhase::Init => self.offset == 0 && self.buffer.is_none(),
            DeployPhase::Writing => self.buffer.is_some() && self.offset < self.binary.len(),
            DeployPhase::Finalizing => self.buffer.is_some() && self.offset == self.binary.len(),
            _ => true,
        }
    }

    /// A session for `binary`, with nothing written, if a chunk of
    /// `chunk_size` bytes fits a transaction: that is, if `chunk_size` is
    /// not 0 and `chunk_size * encode_overhead` is at most `max_tx_size`.
    pub fn new(
        binary: Vec<u8>,
        chunk_size: usize,
        encode_overhead: usize,
        max_tx_size: usize,
    ) -> (r: Option<DeploymentSession>)
        ensures
            r.is_some() == chunk_fits(
                chunk_size as int,
                encode_overhead as int,
                max_tx_size as int,
            ),
            match r {
                Some(s) => s.wf() && s.binary == binary && s.chunk_size == chunk_size && s.phase
                    == DeployPhase::Init,
                None => true,
            },
    {
        if chunk_size == 0 {
            return None;
        }
        let fits = match chunk_size.checked_mul(encode_overhead) {
            Some(encoded) => encoded <= max_tx_size,
            None => false,
        };
        if fits {
            Some(
                DeploymentSession {
                    binary,
                    chunk_size,
                    offset: 0,
                    buffer: None,
                    phase: DeployPhase::Init,
                },
            )
        } else {
            None
        }
    }

    /// Whether the program is deployed.
    pub fn is_complete(&self) -> (r: bool)
        ensures
            r == (self.phase is Done),
    {
        matches!(self.phase, DeployPhase::Done(_))
    }

    /// What to do next.
    pub fn next_action(&self) -> (a: DeployAction)
        requires
            self.wf(),
        ensures
            is_action_of(*self, a),
    {
        match self.phase {
            DeployPhase::Init => DeployAction::AllocateBuffer { size: self.binary.len() },
            DeployPhase::Writing => {
                let end: usize = if self.binary.len() - self.offset < self.chunk_size {
                    self.binary.len()
                } else {
                    self.offset + self.chunk_size
                };
                match self.buffer {
                    Some(buffer) => DeployAction::WriteChunk {
                        buffer,
                        offset: self.offset,
                        data: copy_range(self.binary.as_slice(), self.offset, end),
                    },
                    None => {
                        assert(false);
                        DeployAction::Halted(DeployError::AccountInUse)
                    },
                }
            },
            DeployPhase::Finalizing => match self.buffer {
                Some(buffer) => DeployAction::Finalize { buffer },
                None => {
                    assert(false);
                    DeployAction::Halted(DeployError::AccountInUse)
                },
            },
            DeployPhase::Done(program) => DeployAction::Finished(program),
            DeployPhase::Failed(e) => DeployAction::Halted(e),
        }
    }

    /// Takes in what happened to the last action.
    pub fn advance(&mut self, event: DeployEvent)
        requires
            old(self).wf(),
        ensures
            *final(self) == transition(*old(self), event),
            final(self).wf(),
    {
        match self.phase {
            DeployPhase::Done(_) => {},
            DeployPhase::Failed(_) => {},
            _ => match event {
                DeployEvent::AccountInUse => {
                    self.phase = DeployPhase::Failed(DeployError::AccountInUse);
                },
                DeployEvent::SubmissionFailed(cause) => {
                    self.fail(cause);
                },
                DeployEvent::BufferAllocated(buffer) => {
                    if matches!(self.phase, DeployPhase::Init) {
                        self.buffer = Some(buffer);
                        self.phase = if self.binary.len() == 0 {
                            DeployPhase::Finalizing
                        } else {
                            DeployPhase::Writing
                        };
                    } else {
                        self.fail(Cause::OutOfTurn);
                    }
                },
                DeployEvent::ChunkConfirmed => {
                    if matches!(self.phase, DeployPhase::Writing) {
                        let end: usize = if self.binary.len() - self.offset < self.chunk_size {
                            self.binary.len()
                        } else {
                            self.offset + self.chunk_size
                        };
                        self.offset = end;
                        self.phase = if end == self.binary.len() {
                            DeployPhase::Finalizing
                        } else {
                            DeployPhase::Writing
                        };
                    } else {
                        self.fail(Cause::OutOfTurn);
                    }
                },
                DeployEvent::ProgramActivated(program) => {
                    if matches!(self.phase, DeployPhase::Finalizing) {
                        self.phase = DeployPhase::Done(program);
                    } else {
                        self.fail(Cause::OutOfTurn);
                    }
                },
            },
        }
    }

    fn fail(&mut self, cause: Cause)
        requires
            old(self).wf(),
        ensures
            *final(self) == halted(*old(self), cause),
            final(self).wf(),
    {
        self.phase = DeployPhase::Failed(
            DeployError::DeploymentFailed { offset: self.offset, cause },
        );
    }

    /// Takes in what happened to the last action, and says what to do next.
    pub fn step(&mut self, event: DeployEvent) -> (a: DeployAction)
        requires
            old(self).wf(),
        ensures
            *final(self) == transition(*old(self), event),
            final(self).wf(),
            is_action_of(*final(self), a),
    {
        self.advance(event);
        self.next_action()
    }
}

} // verus!

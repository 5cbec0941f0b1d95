//! Submitting a transaction: what to do after each answer of the
//! transport, and what the program returned.

use base64::Engine;
use vstd::prelude::*;
use vstd::utf8::encode_utf8;
use crate::codec::decode;
use crate::errors::{TransportFault, TxError};
use crate::format::decoding;
use crate::idl::Address;
use crate::schema::{TypeDescriptor, TypeTable};
use crate::value::Value;
use crate::wire::copy_range;

verus! {

/// How final a transaction must be to count as confirmed.
#[derive(Clone, Copy, Debug, PartialEq, Eq, Structural)]
pub enum Commitment {
    Processed,
    Confirmed,
    Finalized,
}

/// What the pipeline is configured with.
#[derive(Clone, Debug, PartialEq, Eq)]
pub struct PipelineConfig {
    pub endpoint: String,
    pub commitment: Commitment,
    /// How long to wait for confirmation, in milliseconds.
    pub timeout_ms: u64,
}

/// Whether a call only reads what the program returns, or changes state.
#[derive(Clone, Copy, Debug, PartialEq, Eq, Structural)]
pub enum Intent {
    Simulate,
    SendAndConfirm,
}

/// How many times a transaction is submitted in the face of transient
/// failures, the first time included.
pub const MAX_ATTEMPTS: u32 = 3;

/// The wait before the first retry, in milliseconds.
pub const BASE_DELAY_MS: u64 = 250;

/// The longest wait before a retry, in milliseconds.
pub const MAX_DELAY_MS: u64 = 2000;

/// The submission of one transaction.
#[derive(Clone, Copy, Debug, PartialEq, Eq, Structural)]
pub struct Submission {
    pub intent: Intent,
    /// How many submissions have failed transiently.
    pub failures: u32,
    /// Whether the transaction was rebuilt with a fresh blockhash.
    pub rebuilt: bool,
}

/// An answer of the transport to a submission.
#[derive(Debug, PartialEq, Eq)]
pub enum TransportEvent {
    /// The transaction ran, or was simulated, and the program succeeded.
    Completed { signature: Vec<u8>, logs: Vec<String> },
    /// The transaction ran, or was simulated, and the program failed.
    ProgramFailed { error_code: u32, logs: Vec<String> },
    /// The network or the endpoint failed.
    TransientFailure,
    /// The ledger rejected the transaction because its blockhash is stale.
    StaleBlockhash,
    /// The ledger did not finalize the transaction within the timeout.
    TimedOut,
}

/// What to do next with a submission.
#[derive(Debug, PartialEq, Eq)]
pub enum Directive {
    /// Wait `delay_ms` milliseconds, then submit; with a fresh blockhash
    /// where `rebuild` is set.
    Submit { intent: Intent, delay_ms: u64, rebuild: bool },
    /// The transaction is through: these are its signature and its logs.
    Deliver { signature: Vec<u8>, logs: Vec<String> },
    /// Give up.
    Fail(TxError),
}

/// The wait before the retry that follows `failures` transient failures:
/// the base delay, doubled with each failure after the first, and never
/// more than the longest delay.
pub open spec fn backoff(failures: nat) -> nat
    decreases failures,
{
    if failures == 0 {
        0
    } else if failures == 1 {
        BASE_DELAY_MS as nat
    } else if 2 * backoff((failures - 1) as nat) > MAX_DELAY_MS {
        MAX_DELAY_MS as nat
    } else {
        2 * backoff((failures - 1) as nat)
    }
}

/// No wait is longer than the longest delay.
pub proof fn backoff_is_bounded(failures: nat)
    ensures
        backoff(failures) <= MAX_DELAY_MS,
    decreases failures,
{
    if failures > 1 {
        backoff_is_bounded((failures - 1) as nat);
    }
}

/// The wait before the retry that follows `failures` transient failures.
pub fn backoff_delay(failures: u32) -> (delay: u64)
    ensures
        delay == backoff(failures as nat),
{
    if failures == 0 {
        return 0;
    }
    let mut delay: u64 = BASE_DELAY_MS;
    let mut n: u32 = 1;
    while n < failures
        invariant
            1 <= n <= failures,
            delay == backoff(n as nat),
            delay <= MAX_DELAY_MS,
        decreases failures - n,
    {
        delay = if 2 * delay > MAX_DELAY_MS {
            MAX_DELAY_MS
        } else {
            2 * delay
        };
        n += 1;
    }
    delay
}

/// The submission after the answer `event`, and what to do next.
///
/// Success is delivered and a failure of the program is reported with its
/// code and logs. A transient failure is answered by a retry after a
/// wait, until `MAX_ATTEMPTS` submissions have failed. A stale blockhash is
/// answered once by a rebuild with a fresh blockhash, at once. A
/// timeout is final.
pub open spec fn decision(s: Submission, program_id: Address, event: TransportEvent) -> (
    Submission,
    Directive,
) {
    match event {
        TransportEvent::Completed { signature, logs } => (
            s,
            Directive::Deliver { signature, logs },
        ),
        TransportEvent::ProgramFailed { error_code, logs } => (
            s,
            Directive::Fail(TxError::ProgramExecutionError { program_id, error_code, logs }),
        ),
        TransportEvent::TransientFailure => if s.failures + 1 < MAX_ATTEMPTS {
            (
                Submission { failures: (s.failures + 1) as u32, ..s },
                Directive::Submit {
                    intent: s.intent,
                    delay_ms: backoff((s.failures + 1) as nat) as u64,
                    rebuild: false,
                },
            )
        } else {
            (s, Directive::Fail(TxError::Transport(TransportFault::Network)))
        },
        TransportEvent::StaleBlockhash => if !s.rebuilt {
            (
                Submission { rebuilt: true, ..s },
                Directive::Submit { intent: s.intent, delay_ms: 0, rebuild: true },
            )
        } else {
            (s, Directive::Fail(TxError::Transport(TransportFault::StaleBlockhash)))
        },
        TransportEvent::TimedOut => (s, Directive::Fail(TxError::ConfirmationTimeout)),
    }
}

impl Submission {
    /// A submission that has not been tried.
    pub fn new(intent: Intent) -> (s: Submission)
        ensures
            s == (Submission { intent, failures: 0, rebuilt: false }),
    {
        Submission { intent, failures: 0, rebuilt: false }
    }

    /// The first thing to do: submit at once.
    pub fn begin(&self) -> (d: Directive)
        ensures
            d == (Directive::Submit { intent: self.intent, delay_ms: 0, rebuild: false }),
    {
        Directive::Submit { intent: self.intent, delay_ms: 0, rebuild: false }
    }

    /// Takes in an answer of the transport, and says what to do next.
    pub fn on_event(&mut self, program_id: Address, event: TransportEvent) -> (d: Directive)
        ensures
            (*final(self), d) == decision(*old(self), program_id, event),
    {
        match event {
            TransportEvent::Completed { signature, logs } => Directive::Deliver { signature, logs },
            TransportEvent::ProgramFailed { error_code, logs } => Directive::Fail(
                TxError::ProgramExecutionError { program_id, error_code, logs },
            ),
            TransportEvent::TransientFailure => {
                if self.failures < MAX_ATTEMPTS - 1 {
                    self.failures = self.failures + 1;
                    Directive::Submit {
                        intent: self.intent,
                        delay_ms: backoff_delay(self.failures),
                        rebuild: false,
                    }
                } else {
                    Directive::Fail(TxError::Transport(TransportFault::Network))
                }
            },
            TransportEvent::StaleBlockhash => {
                if !self.rebuilt {
                    self.rebuilt = true;
                    Directive::Submit { intent: self.intent, delay_ms: 0, rebuild: true }
                } else {
                    Directive::Fail(TxError::Transport(TransportFault::StaleBlockhash))
                }
            },
            TransportEvent::TimedOut => Directive::Fail(TxError::ConfirmationTimeout),
        }
    }
}

/// How many of the answers `events` are answered by another submission.
pub open spec fn resubmissions(s: Submission, program_id: Address, events: Seq<TransportEvent>)
    -> nat
    decreases events.len(),
{
    if events.len() == 0 {
        0
    } else {
        resubmissions(
            decision(s, program_id, events[0]).0,
            program_id,
            events.subrange(1, events.len() as int),
        ) + if decision(s, program_id, events[0]).1 is Submit {
            1nat
        } else {
            0nat
        }
    }
}

/// How many submissions a submission in the state `s` may still ask for.
pub open spec fn budget(s: Submission) -> nat {
    (if s.failures + 1 < MAX_ATTEMPTS {
        (MAX_ATTEMPTS - 1 - s.failures) as nat
    } else {
        0nat
    }) + if s.rebuilt {
        0nat
    } else {
        1nat
    }
}

/// Retries are bounded. Whatever the transport answers, and however
/// often, a submission is made again at most as often as its budget
/// allows: for a new submission, twice after transient failures and once
/// after a stale blockhash.
pub proof fn retries_are_bounded(s: Submission, program_id: Address, events: Seq<TransportEvent>)
    ensures
        resubmissions(s, program_id, events) <= budget(s),
        budget(s) <= MAX_ATTEMPTS,
    decreases events.len(),
{
    if events.len() > 0 {
        retries_are_bounded(
            decision(s, program_id, events[0]).0,
            program_id,
            events.subrange(1, events.len() as int),
        );
    }
}

/// The bytes that `text` stands for in base64, if it is base64.
pub uninterp spec fn base64_decoded(text: Seq<u8>) -> Option<Seq<u8>>;

/// The bytes that `text` stands for, as `decode` of the standard engine of
/// the `base64` crate finds them: the standard alphabet, with padding.
/// `None` where that function reports an error. The result depends on
/// `text` alone.
#[verifier::external_body]
fn base64_decode(text: &[u8]) -> (r: Option<Vec<u8>>)
    ensures
        match r {
            Some(bytes) => base64_decoded(text@) == Some(bytes@),
            None => base64_decoded(text@).is_none(),
        },
{
    base64::engine::general_purpose::STANDARD.decode(text).ok()
}

/// The bytes of `Program return: `, which begins the log line that
/// carries what a program returned.
pub open spec fn return_marker() -> Seq<u8> {
    seq![
        0x50u8, 0x72, 0x6f, 0x67, 0x72, 0x61, 0x6d, 0x20, 0x72, 0x65, 0x74, 0x75, 0x72, 0x6e, 0x3a,
        0x20,
    ]
}

/// What the log line `line` says that the program `program` returned, as
/// text: the rest of a line made of the marker, the program's identifier, a
/// space, and that text.
pub open spec fn return_text(line: Seq<u8>, program: Seq<u8>) -> Option<Seq<u8>> {
    let end = 16 + program.len() as int;
    if line.len() >= end + 1 && line.subrange(0, 16) == return_marker() && line.subrange(16, end)
        == program && line[end] == 0x20 {
        Some(line.subrange(end + 1, line.len() as int))
    } else {
        None
    }
}

/// The bytes of each log line.
pub open spec fn line_bytes(logs: Seq<String>) -> Seq<Seq<u8>> {
    Seq::new(logs.len(), |i: int| encode_utf8(logs[i]@))
}

/// What the last of the first `upto` lines that carry a return of
/// `program` says it returned.
pub open spec fn last_return_text(lines: Seq<Seq<u8>>, program: Seq<u8>, upto: int) -> Option<
    Seq<u8>,
>
    decreases upto,
{
    if upto <= 0 {
        None
    } else {
        match return_text(lines[upto - 1], program) {
            Some(text) => Some(text),
            None => last_return_text(lines, program, upto - 1),
        }
    }
}

/// Whether `part` stands in `line` at `pos`.
fn stands_at(line: &[u8], pos: usize, part: &[u8]) -> (r: bool)
    requires
        pos + part@.len() <= line@.len(),
    ensures
        r == (line@.subrange(pos as int, pos + part@.len()) == part@),
{
    let total: usize = line.len();
    let mut i: usize = 0;
    while i < part.len()
        invariant
            i <= part@.len(),
            pos + part@.len() <= total,
            total == line@.len(),
            line@.subrange(pos as int, pos + i) == part@.subrange(0, i as int),
        decreases part@.len() - i,
    {
        if line[pos + i] != part[i] {
            assert(line@.subrange(pos as int, pos + part@.len())[i as int] != part@[i as int]);
            return false;
        }
        assert(line@.subrange(pos as int, pos + i + 1) =~= line@.subrange(
            pos as int,
            pos + i,
        ).push(line@[pos + i]));
        assert(part@.subrange(0, i + 1) =~= part@.subrange(0, i as int).push(part@[i as int]));
        i += 1;
    }
    assert(part@.subrange(0, part@.len() as int) =~= part@);
    true
}

/// What the log line `line` says that `program` returned, as text.
pub fn return_text_of(line: &[u8], program: &[u8]) -> (r: Option<Vec<u8>>)
    ensures
        match r {
            Some(text) => return_text(line@, program@) == Some(text@),
            None => return_text(line@, program@).is_none(),
        },
{
    let marker: Vec<u8> = vec![
        0x50u8, 0x72, 0x6f, 0x67, 0x72, 0x61, 0x6d, 0x20, 0x72, 0x65, 0x74, 0x75, 0x72, 0x6e, 0x3a,
        0x20,
    ];
    assert(marker@ =~= return_marker());
    if line.len() < 17 || line.len() - 17 < program.len() {
        return None;
    }
    if stands_at(line, 0, marker.as_slice()) && stands_at(line, 16, program) && line[16
        + program.len()] == 0x20 {
        Some(copy_range(line, 16 + program.len() + 1, line.len()))
    } else {
        None
    }
}

/// What the logs say that `program` returned last, as text.
pub fn find_return_text(logs: &Vec<String>, program: &str) -> (r: Option<Vec<u8>>)
    ensures
        match r {
            Some(text) => last_return_text(
                line_bytes(logs@),
                encode_utf8(program@),
                logs.len() as int,
            ) == Some(text@),
            None => last_return_text(
                line_bytes(logs@),
                encode_utf8(program@),
                logs.len() as int,
            ).is_none(),
        },
{
    let ghost lines = line_bytes(logs@);
    let ghost whole = last_return_text(lines, encode_utf8(program@), logs.len() as int);
    let mut i: usize = logs.len();
    while i > 0
        invariant
            i <= logs.len(),
            lines == line_bytes(logs@),
            whole == last_return_text(lines, encode_utf8(program@), logs.len() as int),
            whole == last_return_text(lines, encode_utf8(program@), i as int),
        decreases i,
    {
        i -= 1;
        assert(lines[i as int] == encode_utf8(logs@[i as int]@));
        match return_text_of(logs[i].as_str().as_bytes(), program.as_bytes()) {
            Some(text) => {
                return Some(text);
            },
            None => {},
        }
    }
    None
}

/// The bytes that `program` returned, going by the logs: what the last
/// line that carries a return of it holds in base64, and no bytes where
/// there is no such line. `None` where the line does not hold base64.
pub open spec fn returned_bytes(lines: Seq<Seq<u8>>, program: Seq<u8>) -> Option<Seq<u8>> {
    match last_return_text(lines, program, lines.len() as int) {
        None => Some(Seq::empty()),
        Some(text) => base64_decoded(text),
    }
}

/// `r` is the value of type `return_type` that `bytes` begins with, or the
/// error that there is none.
pub open spec fn is_return_of(
    r: Result<Value, TxError>,
    bytes: Seq<u8>,
    return_type: &TypeDescriptor,
    table: &TypeTable,
) -> bool {
    match decoding(bytes, 0, return_type, table) {
        Ok((m, _)) => r.is_ok() && r->Ok_0@ == m,
        Err(_) => r == Err::<Value, TxError>(TxError::ReturnDecodeError),
    }
}

/// The value of type `return_type` that the returned bytes hold, or
/// `ReturnDecodeError` where they hold none.
pub fn decode_return_bytes(bytes: &[u8], return_type: &TypeDescriptor, table: &TypeTable) -> (r:
    Result<Value, TxError>)
    requires
        table.wf(),
    ensures
        is_return_of(r, bytes@, return_type, table),
{
    match decode(bytes, return_type, table) {
        Ok((value, _)) => Ok(value),
        Err(_) => Err(TxError::ReturnDecodeError),
    }
}

/// The value that `program` returned, going by the logs, for an
/// instruction that declares the return type `return_type`; `None` for an
/// instruction that declares none. `ReturnDecodeError` where the line that
/// carries the return does not hold base64, or the bytes are not a value
/// of the declared type.
pub fn decode_return(
    logs: &Vec<String>,
    program: &str,
    return_type: &Option<TypeDescriptor>,
    table: &TypeTable,
) -> (r: Result<Option<Value>, TxError>)
    requires
        table.wf(),
    ensures
        match *return_type {
            None => r == Ok::<Option<Value>, TxError>(None),
            Some(ty) => match returned_bytes(line_bytes(logs@), encode_utf8(program@)) {
                None => r == Err::<Option<Value>, TxError>(TxError::ReturnDecodeError),
                Some(bytes) => match decoding(bytes, 0, &ty, table) {
                    Ok((m, _)) => r.is_ok() && r->Ok_0.is_some() && r->Ok_0->Some_0@ == m,
                    Err(_) => r == Err::<Option<Value>, TxError>(TxError::ReturnDecodeError),
                },
            },
        },
{
    let ty = match return_type {
        None => {
            return Ok(None);
        },
        Some(ty) => ty,
    };
    let bytes: Vec<u8> = match find_return_text(logs, program) {
        None => Vec::new(),
        Some(text) => match base64_decode(text.as_slice()) {
            Some(bytes) => bytes,
            None => {
                return Err(TxError::ReturnDecodeError);
            },
        },
    };
    match decode_return_bytes(bytes.as_slice(), ty, table) {
        Ok(value) => Ok(Some(value)),
        Err(e) => Err(TxError::ReturnDecodeError),
    }
}

/// What a transaction that went through yields.
#[derive(Debug, PartialEq, Eq)]
pub struct TxOutcome {
    pub signature: Vec<u8>,
    pub logs: Vec<String>,
    pub decoded_return: Option<Value>,
}

/// The outcome of a transaction that went through with the signature
/// `signature` and the logs `logs`: both as they are, and the value that
/// `program` returned.
pub fn conclude(
    signature: Vec<u8>,
    logs: Vec<String>,
    program: &str,
    return_type: &Option<TypeDescriptor>,
    table: &TypeTable,
) -> (r: Result<TxOutcome, TxError>)
    requires
        table.wf(),
    ensures
        match *return_type {
            None => r.is_ok() && r->Ok_0.decoded_return.is_none(),
            Some(ty) => match returned_bytes(line_bytes(logs@), encode_utf8(program@)) {
                None => r == Err::<TxOutcome, TxError>(TxError::ReturnDecodeError),
                Some(bytes) => match decoding(bytes, 0, &ty, table) {
                    Ok((m, _)) => r.is_ok() && r->Ok_0.decoded_return.is_some()
                        && r->Ok_0.decoded_return->Some_0@ == m,
                    Err(_) => r == Err::<TxOutcome, TxError>(TxError::ReturnDecodeError),
                },
            },
        },
        r.is_ok() ==> r->Ok_0.signature == signature && r->Ok_0.logs == logs,
{
    match decode_return(&logs, program, return_type, table) {
        Ok(decoded_return) => Ok(TxOutcome { signature, logs, decoded_return }),
        Err(e) => Err(TxError::ReturnDecodeError),
    }
}

} // verus!

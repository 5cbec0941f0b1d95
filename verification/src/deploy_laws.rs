//! What holds of a deployment whatever happens to its submissions.

use vstd::prelude::*;
use crate::deploy::{
    chunk_fits, is_action_of, transition, DeployAction, DeployEvent, DeployPhase,
    DeploymentSession,
};
use crate::errors::{Cause, DeployError};

verus! {

/// The session after the events `events`, one after the other.
pub open spec fn run(s: DeploymentSession, events: Seq<DeployEvent>) -> DeploymentSession
    decreases events.len(),
{
    if events.len() == 0 {
        s
    } else {
        run(transition(s, events[0]), events.subrange(1, events.len() as int))
    }
}

/// A well-formed session stays well-formed.
pub proof fn transition_preserves_wf(s: DeploymentSession, e: DeployEvent)
    requires
        s.wf(),
    ensures
        transition(s, e).wf(),
{
}

/// A well-formed session stays well-formed through any events.
pub proof fn run_preserves_wf(s: DeploymentSession, events: Seq<DeployEvent>)
    requires
        s.wf(),
    ensures
        run(s, events).wf(),
    decreases events.len(),
{
    if events.len() > 0 {
        transition_preserves_wf(s, events[0]);
        run_preserves_wf(transition(s, events[0]), events.subrange(1, events.len() as int));
    }
}

/// The write offset never goes back: no event lowers it, and no events
/// do.
pub proof fn offset_never_decreases(s: DeploymentSession, events: Seq<DeployEvent>)
    requires
        s.wf(),
    ensures
        s.offset <= run(s, events).offset,
    decreases events.len(),
{
    if events.len() > 0 {
        transition_preserves_wf(s, events[0]);
        offset_never_decreases(transition(s, events[0]), events.subrange(1, events.len() as int));
    }
}

/// A halted session stays halted, as it is, whatever happens.
pub proof fn halt_is_final(s: DeploymentSession, events: Seq<DeployEvent>)
    requires
        s.phase is Failed,
    ensures
        run(s, events) == s,
    decreases events.len(),
{
    if events.len() > 0 {
        halt_is_final(s, events.subrange(1, events.len() as int));
    }
}

/// Once a submission has failed, no finalize follows. Where a session
/// that is under way is told that a submission failed, it is halted at the
/// offset it had reached, with the cause it was told; and after any later
/// events the only action it asks for is to halt with that error: not to
/// write, and not to finalize.
pub proof fn no_finalize_after_failure(
    s: DeploymentSession,
    cause: Cause,
    later: Seq<DeployEvent>,
    a: DeployAction,
)
    requires
        !(s.phase is Done),
        !(s.phase is Failed),
        is_action_of(run(transition(s, DeployEvent::SubmissionFailed(cause)), later), a),
    ensures
        run(transition(s, DeployEvent::SubmissionFailed(cause)), later).phase
            == DeployPhase::Failed(DeployError::DeploymentFailed { offset: s.offset, cause }),
        a == DeployAction::Halted(DeployError::DeploymentFailed { offset: s.offset, cause }),
        !(a is Finalize),
{
    halt_is_final(transition(s, DeployEvent::SubmissionFailed(cause)), later);
}

/// A partial upload is never finalized: a well-formed session asks to
/// finalize only when every byte of the binary is written, and that
/// remains so through any events.
pub proof fn finalize_only_when_complete(
    s: DeploymentSession,
    events: Seq<DeployEvent>,
    a: DeployAction,
)
    requires
        s.wf(),
        is_action_of(run(s, events), a),
        a is Finalize,
    ensures
        run(s, events).offset == run(s, events).binary.len(),
        run(s, events).binary == s.binary,
{
    run_preserves_wf(s, events);
    lemma_run_keeps_binary(s, events);
}

/// Chunks fit transactions. A session whose chunk size fits a
/// transaction asks to write chunks that fit: each holds at least one
/// byte and at most a chunk's size, so that, encoded, it is no larger than
/// a transaction may be.
pub proof fn chunks_fit_transactions(
    s: DeploymentSession,
    a: DeployAction,
    encode_overhead: int,
    max_tx_size: int,
)
    requires
        s.wf(),
        0 <= encode_overhead,
        chunk_fits(s.chunk_size as int, encode_overhead, max_tx_size),
        is_action_of(s, a),
        a is WriteChunk,
    ensures
        0 < a->WriteChunk_data.len() <= s.chunk_size,
        a->WriteChunk_data.len() * encode_overhead <= max_tx_size,
{
    let n = a->WriteChunk_data@.len() as int;
    let c = s.chunk_size as int;
    assert(n * encode_overhead <= c * encode_overhead) by (nonlinear_arith)
        requires
            0 <= n <= c,
            0 <= encode_overhead,
    ;
}

proof fn lemma_run_keeps_binary(s: DeploymentSession, events: Seq<DeployEvent>)
    ensures
        run(s, events).binary == s.binary,
        run(s, events).chunk_size == s.chunk_size,
    decreases events.len(),
{
    if events.len() > 0 {
        lemma_run_keeps_binary(transition(s, events[0]), events.subrange(1, events.len() as int));
    }
}

} // verus!

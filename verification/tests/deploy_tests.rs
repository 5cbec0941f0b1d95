use aqd_solana::deploy::{
    DeployAction, DeployEvent, DeployPhase, DeploymentSession, Halt, SolanaDeploy,
};
use aqd_solana::errors::{Cause, DeployError};
use aqd_solana::idl::Address;

fn buffer() -> Address {
    Address { bytes: [5; 32] }
}

fn program() -> Address {
    Address { bytes: [6; 32] }
}

#[test]
fn the_program_id_is_reported_as_a_sentence_or_as_json() {
    let plain = SolanaDeploy { program_location: "a.so".to_string(), output_json: false };
    let json = SolanaDeploy { program_location: "a.so".to_string(), output_json: true };
    assert_eq!(plain.report("Abc123"), "Program ID: Abc123");
    assert_eq!(json.report("Abc123"), "{\"program_id\": \"Abc123\"}");
    assert_eq!(plain.clone().program_location, "a.so");
}

#[test]
fn the_target_check_decides_whether_to_go_on() {
    assert_eq!(SolanaDeploy::after_target_check(Ok(true)), Ok(()));
    assert_eq!(SolanaDeploy::after_target_check(Ok(false)), Err(Halt::Exit(1)));
    assert_eq!(
        SolanaDeploy::after_target_check(Err("no config".to_string())),
        Err(Halt::Failure("Failed to check current directory: no config".to_string()))
    );
}

#[test]
fn a_chunk_must_fit_a_transaction() {
    assert!(DeploymentSession::new(vec![1], 100, 2, 200).is_some());
    assert!(DeploymentSession::new(vec![1], 101, 2, 200).is_none());
    assert!(DeploymentSession::new(vec![1], 0, 2, 200).is_none());
    assert!(DeploymentSession::new(vec![1], usize::MAX, 2, usize::MAX).is_none());
    assert!(DeploymentSession::new(vec![1], 5, 0, 0).is_some());
}

#[test]
fn a_binary_is_written_chunk_by_chunk_and_then_finalized() {
    let binary: Vec<u8> = (0u8..10).collect();
    let mut s = DeploymentSession::new(binary, 4, 1, 4).unwrap();
    assert_eq!(s.phase, DeployPhase::Init);
    assert!(!s.is_complete());
    assert_eq!(s.next_action(), DeployAction::AllocateBuffer { size: 10 });
    assert_eq!(
        s.step(DeployEvent::BufferAllocated(buffer())),
        DeployAction::WriteChunk { buffer: buffer(), offset: 0, data: vec![0, 1, 2, 3] }
    );
    assert_eq!(
        s.step(DeployEvent::ChunkConfirmed),
        DeployAction::WriteChunk { buffer: buffer(), offset: 4, data: vec![4, 5, 6, 7] }
    );
    assert_eq!(
        s.step(DeployEvent::ChunkConfirmed),
        DeployAction::WriteChunk { buffer: buffer(), offset: 8, data: vec![8, 9] }
    );
    assert_eq!(s.step(DeployEvent::ChunkConfirmed), DeployAction::Finalize { buffer: buffer() });
    assert_eq!(s.offset, 10);
    assert_eq!(s.phase, DeployPhase::Finalizing);
    assert_eq!(
        s.step(DeployEvent::ProgramActivated(program())),
        DeployAction::Finished(program())
    );
    assert_eq!(s.phase, DeployPhase::Done(program()));
    assert!(s.is_complete());
    assert_eq!(s.step(DeployEvent::ChunkConfirmed), DeployAction::Finished(program()));
}

#[test]
fn an_empty_binary_is_finalized_at_once() {
    let mut s = DeploymentSession::new(vec![], 4, 1, 4).unwrap();
    assert_eq!(s.next_action(), DeployAction::AllocateBuffer { size: 0 });
    assert_eq!(
        s.step(DeployEvent::BufferAllocated(buffer())),
        DeployAction::Finalize { buffer: buffer() }
    );
}

#[test]
fn no_finalize_follows_a_failed_chunk() {
    let binary: Vec<u8> = (0u8..10).collect();
    let mut s = DeploymentSession::new(binary, 4, 1, 4).unwrap();
    s.advance(DeployEvent::BufferAllocated(buffer()));
    s.advance(DeployEvent::ChunkConfirmed);
    let failed = DeployError::DeploymentFailed { offset: 4, cause: Cause::Rejected(17) };
    assert_eq!(
        s.step(DeployEvent::SubmissionFailed(Cause::Rejected(17))),
        DeployAction::Halted(failed)
    );
    for event in [
        DeployEvent::ChunkConfirmed,
        DeployEvent::ChunkConfirmed,
        DeployEvent::ProgramActivated(program()),
        DeployEvent::BufferAllocated(buffer()),
        DeployEvent::AccountInUse,
        DeployEvent::SubmissionFailed(Cause::Timeout),
    ] {
        let action = s.step(event);
        assert_eq!(action, DeployAction::Halted(failed));
        assert!(!matches!(action, DeployAction::Finalize { .. }));
        assert_eq!(s.offset, 4);
    }
}

#[test]
fn failures_halt_in_every_phase() {
    let mut s = DeploymentSession::new(vec![1, 2], 4, 1, 4).unwrap();
    assert_eq!(
        s.step(DeployEvent::SubmissionFailed(Cause::Transport)),
        DeployAction::Halted(DeployError::DeploymentFailed { offset: 0, cause: Cause::Transport })
    );
    let mut s = DeploymentSession::new(vec![1, 2], 4, 1, 4).unwrap();
    s.advance(DeployEvent::BufferAllocated(buffer()));
    s.advance(DeployEvent::ChunkConfirmed);
    assert_eq!(
        s.step(DeployEvent::SubmissionFailed(Cause::Timeout)),
        DeployAction::Halted(DeployError::DeploymentFailed { offset: 2, cause: Cause::Timeout })
    );
    let mut s = DeploymentSession::new(vec![1, 2], 4, 1, 4).unwrap();
    s.advance(DeployEvent::BufferAllocated(buffer()));
    assert_eq!(
        s.step(DeployEvent::AccountInUse),
        DeployAction::Halted(DeployError::AccountInUse)
    );
}

#[test]
fn events_out_of_turn_halt_the_deployment() {
    let mut s = DeploymentSession::new(vec![1, 2], 4, 1, 4).unwrap();
    assert_eq!(
        s.step(DeployEvent::ChunkConfirmed),
        DeployAction::Halted(DeployError::DeploymentFailed { offset: 0, cause: Cause::OutOfTurn })
    );
    let mut s = DeploymentSession::new(vec![1, 2], 4, 1, 4).unwrap();
    s.advance(DeployEvent::BufferAllocated(buffer()));
    assert_eq!(
        s.step(DeployEvent::ProgramActivated(program())),
        DeployAction::Halted(DeployError::DeploymentFailed { offset: 0, cause: Cause::OutOfTurn })
    );
    let mut s = DeploymentSession::new(vec![1, 2], 4, 1, 4).unwrap();
    s.advance(DeployEvent::BufferAllocated(buffer()));
    s.advance(DeployEvent::ChunkConfirmed);
    assert_eq!(
        s.step(DeployEvent::BufferAllocated(buffer())),
        DeployAction::Halted(DeployError::DeploymentFailed { offset: 2, cause: Cause::OutOfTurn })
    );
}

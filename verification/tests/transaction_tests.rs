use aqd_solana::errors::{TransportFault, TxError};
use aqd_solana::idl::Address;
use aqd_solana::schema::{PrimitiveKind, TypeDescriptor, TypeTable};
use aqd_solana::transaction::{
    backoff_delay, conclude, decode_return, decode_return_bytes, find_return_text, return_text_of,
    Directive, Intent, Submission, TransportEvent, TxOutcome, BASE_DELAY_MS, MAX_ATTEMPTS,
    MAX_DELAY_MS,
};
use aqd_solana::value::Value;

const PROGRAM: &str = "US517G5965aydkZ46HS38QLi7UQiSojurfbQfKCELFx";

fn program() -> Address {
    Address { bytes: [7; 32] }
}

fn lines(all: &[&str]) -> Vec<String> {
    all.iter().map(|s| s.to_string()).collect()
}

fn optional_u64() -> Option<TypeDescriptor> {
    Some(TypeDescriptor::Optional(Box::new(TypeDescriptor::Primitive(PrimitiveKind::U64))))
}

#[test]
fn the_first_submission_is_made_at_once() {
    let s = Submission::new(Intent::Simulate);
    assert_eq!(s, Submission { intent: Intent::Simulate, failures: 0, rebuilt: false });
    assert_eq!(
        s.begin(),
        Directive::Submit { intent: Intent::Simulate, delay_ms: 0, rebuild: false }
    );
}

#[test]
fn success_is_delivered() {
    let mut s = Submission::new(Intent::SendAndConfirm);
    let d = s.on_event(
        program(),
        TransportEvent::Completed { signature: vec![1, 2], logs: lines(&["ok"]) },
    );
    assert_eq!(d, Directive::Deliver { signature: vec![1, 2], logs: lines(&["ok"]) });
    assert_eq!(s, Submission::new(Intent::SendAndConfirm));
}

#[test]
fn a_failure_of_the_program_keeps_code_and_logs() {
    let mut s = Submission::new(Intent::SendAndConfirm);
    let d = s.on_event(
        program(),
        TransportEvent::ProgramFailed { error_code: 6001, logs: lines(&["a", "b"]) },
    );
    assert_eq!(
        d,
        Directive::Fail(TxError::ProgramExecutionError {
            program_id: program(),
            error_code: 6001,
            logs: lines(&["a", "b"]),
        })
    );
}

#[test]
fn transient_failures_are_retried_a_bounded_number_of_times() {
    assert_eq!(MAX_ATTEMPTS, 3);
    let mut s = Submission::new(Intent::SendAndConfirm);
    assert_eq!(
        s.on_event(program(), TransportEvent::TransientFailure),
        Directive::Submit { intent: Intent::SendAndConfirm, delay_ms: 250, rebuild: false }
    );
    assert_eq!(
        s.on_event(program(), TransportEvent::TransientFailure),
        Directive::Submit { intent: Intent::SendAndConfirm, delay_ms: 500, rebuild: false }
    );
    assert_eq!(s.failures, 2);
    assert_eq!(
        s.on_event(program(), TransportEvent::TransientFailure),
        Directive::Fail(TxError::Transport(TransportFault::Network))
    );
    assert_eq!(s.failures, 2);
}

#[test]
fn the_wait_doubles_up_to_a_limit() {
    assert_eq!(BASE_DELAY_MS, 250);
    assert_eq!(MAX_DELAY_MS, 2000);
    assert_eq!(backoff_delay(0), 0);
    assert_eq!(backoff_delay(1), 250);
    assert_eq!(backoff_delay(2), 500);
    assert_eq!(backoff_delay(3), 1000);
    assert_eq!(backoff_delay(4), 2000);
    assert_eq!(backoff_delay(5), 2000);
    assert_eq!(backoff_delay(1000), 2000);
}

#[test]
fn a_stale_blockhash_is_answered_by_one_rebuild() {
    let mut s = Submission::new(Intent::Simulate);
    assert_eq!(
        s.on_event(program(), TransportEvent::StaleBlockhash),
        Directive::Submit { intent: Intent::Simulate, delay_ms: 0, rebuild: true }
    );
    assert!(s.rebuilt);
    assert_eq!(
        s.on_event(program(), TransportEvent::StaleBlockhash),
        Directive::Fail(TxError::Transport(TransportFault::StaleBlockhash))
    );
    assert_eq!(
        s.on_event(program(), TransportEvent::TransientFailure),
        Directive::Submit { intent: Intent::Simulate, delay_ms: 250, rebuild: false }
    );
}

#[test]
fn a_timeout_is_final() {
    let mut s = Submission::new(Intent::SendAndConfirm);
    assert_eq!(
        s.on_event(program(), TransportEvent::TimedOut),
        Directive::Fail(TxError::ConfirmationTimeout)
    );
}

#[test]
fn the_return_line_is_recognised() {
    let line = format!("Program return: {} ASoAAAAAAAAA", PROGRAM);
    assert_eq!(
        return_text_of(line.as_bytes(), PROGRAM.as_bytes()),
        Some(b"ASoAAAAAAAAA".to_vec())
    );
    assert_eq!(return_text_of(line.as_bytes(), b"Other"), None);
    assert_eq!(return_text_of(b"Program log: hello", PROGRAM.as_bytes()), None);
    assert_eq!(return_text_of(b"", b""), None);
    assert_eq!(return_text_of(b"Program return: P ", b"P"), Some(vec![]));
    assert_eq!(return_text_of(b"Program return: P", b"P"), None);
    assert_eq!(return_text_of(b"Program return: PQ x", b"P"), None);
    assert_eq!(return_text_of(b"program return: P x", b"P"), None);
}

#[test]
fn the_last_return_line_counts() {
    let logs = vec![
        "Program log: start".to_string(),
        format!("Program return: {} AA==", PROGRAM),
        "Program return: Other ASoAAAAAAAAA".to_string(),
        format!("Program return: {} ASoAAAAAAAAA", PROGRAM),
        "Program log: end".to_string(),
    ];
    assert_eq!(find_return_text(&logs, PROGRAM), Some(b"ASoAAAAAAAAA".to_vec()));
    assert_eq!(find_return_text(&logs, "Other"), Some(b"ASoAAAAAAAAA".to_vec()));
    assert_eq!(find_return_text(&logs, "Nobody"), None);
    assert_eq!(find_return_text(&vec![], PROGRAM), None);
}

#[test]
fn returned_values_are_decoded() {
    let t = TypeTable::empty();
    let present = vec![format!("Program return: {} ASoAAAAAAAAA", PROGRAM)];
    assert_eq!(
        decode_return(&present, PROGRAM, &optional_u64(), &t),
        Ok(Some(Value::Optional(Some(Box::new(Value::Int(42))))))
    );
    let absent = vec![format!("Program return: {} AA==", PROGRAM)];
    assert_eq!(
        decode_return(&absent, PROGRAM, &optional_u64(), &t),
        Ok(Some(Value::Optional(None)))
    );
    assert_eq!(decode_return(&present, PROGRAM, &None, &t), Ok(None));
    assert_eq!(
        decode_return_bytes(&[1, 42, 0, 0, 0, 0, 0, 0, 0], &optional_u64().unwrap(), &t),
        Ok(Value::Optional(Some(Box::new(Value::Int(42)))))
    );
}

#[test]
fn returns_that_do_not_decode_are_reported() {
    let t = TypeTable::empty();
    let not_base64 = vec![format!("Program return: {} ***", PROGRAM)];
    assert_eq!(
        decode_return(&not_base64, PROGRAM, &optional_u64(), &t),
        Err(TxError::ReturnDecodeError)
    );
    let short = vec![format!("Program return: {} ASo=", PROGRAM)];
    assert_eq!(
        decode_return(&short, PROGRAM, &optional_u64(), &t),
        Err(TxError::ReturnDecodeError)
    );
    assert_eq!(
        decode_return(&vec![], PROGRAM, &optional_u64(), &t),
        Err(TxError::ReturnDecodeError)
    );
    assert_eq!(
        decode_return_bytes(&[2], &optional_u64().unwrap(), &t),
        Err(TxError::ReturnDecodeError)
    );
    let nothing = Some(TypeDescriptor::Struct(vec![]));
    assert_eq!(decode_return(&vec![], PROGRAM, &nothing, &t), Ok(Some(Value::Struct(vec![]))));
}

#[test]
fn an_outcome_keeps_signature_and_logs() {
    let t = TypeTable::empty();
    let logs = vec![format!("Program return: {} ASoAAAAAAAAA", PROGRAM)];
    assert_eq!(
        conclude(vec![9; 64], logs.clone(), PROGRAM, &optional_u64(), &t),
        Ok(TxOutcome {
            signature: vec![9; 64],
            logs: logs.clone(),
            decoded_return: Some(Value::Optional(Some(Box::new(Value::Int(42))))),
        })
    );
    assert_eq!(
        conclude(vec![9; 64], logs.clone(), PROGRAM, &None, &t),
        Ok(TxOutcome { signature: vec![9; 64], logs, decoded_return: None })
    );
    assert_eq!(
        conclude(vec![], lines(&["Program return: US517G5965aydkZ46HS38QLi7UQiSojurfbQfKCELFx !"]), PROGRAM, &optional_u64(), &t),
        Err(TxError::ReturnDecodeError)
    );
}

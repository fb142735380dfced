use lakepipe::AttemptOutcome;
use lakepipe::ErrorKind;
use lakepipe::RetryPolicy;
use lakepipe::delay_for_attempt;
use lakepipe::run_fetch;

fn policy(max_attempts: u32) -> RetryPolicy {
    RetryPolicy { max_attempts, base_delay_ms: 100, max_delay_ms: 800 }
}

#[test]
fn backoff_doubles_and_caps() {
    let p = policy(10);
    assert_eq!(delay_for_attempt(&p, 0), 100);
    assert_eq!(delay_for_attempt(&p, 1), 200);
    assert_eq!(delay_for_attempt(&p, 2), 400);
    assert_eq!(delay_for_attempt(&p, 3), 800);
    assert_eq!(delay_for_attempt(&p, 4), 800);
    assert_eq!(delay_for_attempt(&p, 30), 800);
}

#[test]
fn backoff_base_above_cap_is_cap() {
    let p = RetryPolicy { max_attempts: 3, base_delay_ms: 5000, max_delay_ms: 800 };
    assert_eq!(delay_for_attempt(&p, 0), 800);
    assert_eq!(delay_for_attempt(&p, 1), 800);
}

#[test]
fn transient_twice_then_success() {
    let p = policy(3);
    let outcomes = vec![
        AttemptOutcome::Transient,
        AttemptOutcome::Transient,
        AttemptOutcome::Payload(b"payload-bytes".to_vec()),
    ];
    let r = run_fetch(&p, true, outcomes);
    assert_eq!(r.attempts, 3);
    assert_eq!(r.outcome, Ok(b"payload-bytes".to_vec()));
}

#[test]
fn success_first_attempt_no_extra_attempts() {
    let p = policy(3);
    let outcomes = vec![
        AttemptOutcome::Payload(b"abc".to_vec()),
        AttemptOutcome::Transient,
        AttemptOutcome::Transient,
    ];
    let r = run_fetch(&p, true, outcomes);
    assert_eq!(r.attempts, 1);
    assert_eq!(r.outcome, Ok(b"abc".to_vec()));
}

#[test]
fn retry_exhaustion_fails_after_exact_budget() {
    let p = policy(3);
    let outcomes = vec![
        AttemptOutcome::Transient,
        AttemptOutcome::Transient,
        AttemptOutcome::Transient,
    ];
    let r = run_fetch(&p, true, outcomes);
    assert_eq!(r.attempts, 3);
    assert_eq!(r.outcome, Err(ErrorKind::RetriesExhausted));
}

#[test]
fn not_found_never_retried() {
    let p = policy(3);
    let outcomes = vec![
        AttemptOutcome::NotFound,
        AttemptOutcome::Payload(b"late".to_vec()),
        AttemptOutcome::Payload(b"late".to_vec()),
    ];
    let r = run_fetch(&p, true, outcomes);
    assert_eq!(r.attempts, 1);
    assert_eq!(r.outcome, Err(ErrorKind::ObjectNotFound));
}

#[test]
fn access_denied_never_retried() {
    let p = policy(3);
    let outcomes = vec![
        AttemptOutcome::AccessDenied,
        AttemptOutcome::Transient,
        AttemptOutcome::Transient,
    ];
    let r = run_fetch(&p, true, outcomes);
    assert_eq!(r.attempts, 1);
    assert_eq!(r.outcome, Err(ErrorKind::AccessDenied));
}

#[test]
fn local_transient_is_io_error_single_attempt() {
    let p = policy(3);
    let outcomes = vec![
        AttemptOutcome::Transient,
        AttemptOutcome::Transient,
        AttemptOutcome::Transient,
    ];
    let r = run_fetch(&p, false, outcomes);
    assert_eq!(r.attempts, 1);
    assert_eq!(r.outcome, Err(ErrorKind::IoError));
}

#[test]
fn local_not_found_maps_to_file_not_found() {
    let p = policy(2);
    let outcomes = vec![AttemptOutcome::NotFound, AttemptOutcome::NotFound];
    let r = run_fetch(&p, false, outcomes);
    assert_eq!(r.attempts, 1);
    assert_eq!(r.outcome, Err(ErrorKind::FileNotFound));
}

#[test]
fn cancellation_observed_between_attempts() {
    let p = policy(3);
    let outcomes = vec![
        AttemptOutcome::Transient,
        AttemptOutcome::Cancelled,
        AttemptOutcome::Payload(b"never".to_vec()),
    ];
    let r = run_fetch(&p, true, outcomes);
    assert_eq!(r.attempts, 2);
    assert_eq!(r.outcome, Err(ErrorKind::Cancelled));
}

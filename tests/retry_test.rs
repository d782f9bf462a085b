use open_agent::{
    AttemptFailure, CancellationToken, Error, FailureClass, RetryController, RetryDecision,
    RetryPolicy, backoff_delay, jittered_delay, retryable,
};

fn policy() -> RetryPolicy {
    RetryPolicy::new(3, 100, 2, 1000).unwrap()
}

fn failure(class: FailureClass) -> AttemptFailure {
    AttemptFailure { class, error: Error::api("503 Service Unavailable") }
}

#[test]
fn invalid_policies_are_configuration_errors() {
    assert!(matches!(RetryPolicy::new(0, 100, 2, 1000), Err(Error::Config(_))));
    assert!(matches!(RetryPolicy::new(3, 0, 2, 1000), Err(Error::Config(_))));
    assert!(matches!(RetryPolicy::new(3, 100, 0, 1000), Err(Error::Config(_))));
    assert!(matches!(RetryPolicy::new(3, 2000, 2, 1000), Err(Error::Config(_))));
    assert!(matches!(RetryPolicy::new(3, 1, 2, u64::MAX), Err(Error::Config(_))));
    assert!(RetryPolicy::new(1, 5, 1, 5).is_ok());
}

#[test]
fn backoff_grows_then_stays_at_cap() {
    let p = policy();
    let delays: Vec<u64> = (0..7).map(|k| backoff_delay(&p, k)).collect();
    assert_eq!(delays, vec![100, 200, 400, 800, 1000, 1000, 1000]);
}

#[test]
fn backoff_saturates_without_overflow() {
    let p = RetryPolicy::new(5, 3, 1000, 1 << 62).unwrap();
    assert_eq!(backoff_delay(&p, 2), 3_000_000);
    assert_eq!(backoff_delay(&p, 40), 1 << 62);
    assert_eq!(backoff_delay(&p, u32::MAX), 1 << 62);
}

#[test]
fn jitter_is_deterministic_for_a_sample() {
    let p = policy();
    assert_eq!(jittered_delay(&p, 0, 0), 100);
    assert_eq!(jittered_delay(&p, 0, 250), 150);
    assert_eq!(jittered_delay(&p, 2, 401), 401);
    assert_eq!(jittered_delay(&p, 6, 1999), 1999);
    assert_eq!(jittered_delay(&p, 6, 1999), jittered_delay(&p, 6, 1999));
}

#[test]
fn classification_of_failures() {
    assert!(retryable(FailureClass::Transport));
    assert!(retryable(FailureClass::Status(500)));
    assert!(retryable(FailureClass::Status(599)));
    assert!(retryable(FailureClass::Status(429)));
    assert!(!retryable(FailureClass::Status(400)));
    assert!(!retryable(FailureClass::Status(404)));
    assert!(!retryable(FailureClass::Status(600)));
    assert!(!retryable(FailureClass::Content));
}

#[test]
fn attempts_never_exceed_the_maximum() {
    let token = CancellationToken::new();
    let mut c = RetryController::new(policy());
    let mut retries = 0;
    loop {
        assert!(c.can_attempt());
        let n = c.begin_attempt(&token, false).unwrap();
        assert_eq!(n, c.attempt_count());
        match c.decide(failure(FailureClass::Status(503)), &token, false, 7) {
            RetryDecision::RetryAfter(d) => {
                assert_eq!(d, jittered_delay(&policy(), n - 1, 7));
                retries += 1;
            }
            RetryDecision::GiveUp(e) => {
                assert!(matches!(e, Error::Api(m) if m == "503 Service Unavailable"));
                break;
            }
        }
    }
    assert_eq!(retries, 2);
    assert_eq!(c.attempt_count(), 3);
    assert!(!c.can_attempt());
}

#[test]
fn non_retryable_failure_is_surfaced_at_once() {
    let token = CancellationToken::new();
    let mut c = RetryController::new(policy());
    c.begin_attempt(&token, false).unwrap();
    let f = AttemptFailure { class: FailureClass::Content, error: Error::stream("bad frame") };
    match c.decide(f, &token, false, 0) {
        RetryDecision::GiveUp(Error::Stream(m)) => assert_eq!(m, "bad frame"),
        other => panic!("unexpected {:?}", other),
    }
    let f = AttemptFailure { class: FailureClass::Status(401), error: Error::api("401") };
    assert!(matches!(c.decide(f, &token, false, 0), RetryDecision::GiveUp(Error::Api(_))));
}

#[test]
fn cancellation_and_timeout_stop_retrying() {
    let mut token = CancellationToken::new();
    let mut c = RetryController::new(policy());
    c.begin_attempt(&token, false).unwrap();
    assert!(matches!(
        c.decide(failure(FailureClass::Transport), &token, true, 0),
        RetryDecision::GiveUp(Error::Timeout)
    ));
    token.cancel();
    assert!(matches!(
        c.decide(failure(FailureClass::Transport), &token, true, 0),
        RetryDecision::GiveUp(Error::Interrupted)
    ));
    assert!(matches!(c.begin_attempt(&token, false), Err(Error::Interrupted)));
    assert_eq!(c.attempt_count(), 1);
    let fresh = CancellationToken::new();
    assert!(matches!(c.begin_attempt(&fresh, true), Err(Error::Timeout)));
    assert_eq!(c.attempt_count(), 1);
}

#[test]
fn random_jitter_stays_within_one_backoff() {
    let token = CancellationToken::new();
    let mut c = RetryController::new(RetryPolicy::new(10, 1000, 3, 5000).unwrap());
    c.begin_attempt(&token, false).unwrap();
    c.begin_attempt(&token, false).unwrap();
    let mut seen = std::collections::BTreeSet::new();
    for _ in 0..50 {
        match c.after_failure(failure(FailureClass::Transport), &token, false) {
            RetryDecision::RetryAfter(d) => {
                assert!((3000..6000).contains(&d));
                seen.insert(d);
            }
            other => panic!("unexpected {:?}", other),
        }
    }
    assert!(seen.len() > 1);
}

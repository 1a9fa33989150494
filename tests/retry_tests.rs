use group_adder::identity::Identity;
use group_adder::outcome::{attempt_from_entries, classify, AttemptResult, Classification, Disposition};
use group_adder::retry::{RetryingAdd, DEFAULT_MAX_RETRIES};

fn run(max_retries: u64, results: Vec<AttemptResult>) -> (Disposition, u64, u64) {
    let mut op = RetryingAdd::new(max_retries);
    let mut waits = 0;
    for r in &results {
        let attempt = op.attempts_made();
        match op.record(r) {
            None => waits += 1,
            Some(d) => return (d, attempt, waits),
        }
    }
    panic!("the operation did not stop");
}

#[test]
fn classify_structured_codes() {
    assert_eq!(classify(&AttemptResult::Success, 0, 2), Classification::Done(Disposition::Added));
    assert_eq!(classify(&AttemptResult::Rejected(429), 1, 2), Classification::Retry);
    assert_eq!(
        classify(&AttemptResult::Rejected(429), 2, 2),
        Classification::Done(Disposition::RateLimited)
    );
    assert_eq!(
        classify(&AttemptResult::Rejected(409), 0, 2),
        Classification::Done(Disposition::AlreadyMember)
    );
    assert_eq!(
        classify(&AttemptResult::Rejected(400), 0, 2),
        Classification::Done(Disposition::InvalidIdentity)
    );
    assert_eq!(
        classify(&AttemptResult::Rejected(403), 0, 2),
        Classification::Done(Disposition::Unauthorized)
    );
    assert_eq!(
        classify(&AttemptResult::Rejected(404), 0, 2),
        Classification::Done(Disposition::NotFound)
    );
    assert_eq!(
        classify(&AttemptResult::Rejected(500), 0, 2),
        Classification::Done(Disposition::Unknown)
    );
}

#[test]
fn classify_transport_messages() {
    let t = |m: &str| AttemptResult::Transport(m.to_string());
    assert_eq!(classify(&t("server said 429"), 0, 2), Classification::Retry);
    assert_eq!(classify(&t("RATE-OVERLIMIT"), 0, 2), Classification::Retry);
    assert_eq!(
        classify(&t("rate-overlimit"), 2, 2),
        Classification::Done(Disposition::TransportRateLimited)
    );
    assert_eq!(
        classify(&t("bad-request from server"), 0, 2),
        Classification::Done(Disposition::InvalidIdentity)
    );
    assert_eq!(
        classify(&t("BAD-REQUEST from server"), 0, 2),
        Classification::Done(Disposition::TransportFailure)
    );
    assert_eq!(
        classify(&t("iq error 400"), 0, 2),
        Classification::Done(Disposition::InvalidIdentity)
    );
    assert_eq!(
        classify(&t("iq error 403"), 0, 2),
        Classification::Done(Disposition::Unauthorized)
    );
    assert_eq!(
        classify(&t("iq error 404"), 0, 2),
        Classification::Done(Disposition::Unauthorized)
    );
    assert_eq!(
        classify(&t("connection reset"), 0, 2),
        Classification::Done(Disposition::TransportFailure)
    );
}

#[test]
fn rate_limits_then_success_is_added() {
    let results = vec![
        AttemptResult::Rejected(429),
        AttemptResult::Rejected(429),
        AttemptResult::Success,
    ];
    assert_eq!(run(2, results), (Disposition::Added, 3, 2));
    assert_eq!(run(5, vec![AttemptResult::Success]), (Disposition::Added, 1, 0));
}

#[test]
fn rate_limits_exhaust_retries() {
    let results = vec![
        AttemptResult::Rejected(429),
        AttemptResult::Rejected(429),
        AttemptResult::Rejected(429),
    ];
    assert_eq!(run(DEFAULT_MAX_RETRIES, results), (Disposition::RateLimited, 3, 2));
    let transport = vec![
        AttemptResult::Transport("429".to_string()),
        AttemptResult::Transport("429".to_string()),
    ];
    assert_eq!(run(1, transport), (Disposition::TransportRateLimited, 2, 1));
}

#[test]
fn other_failures_are_not_retried() {
    assert_eq!(
        run(2, vec![AttemptResult::Rejected(403), AttemptResult::Success]),
        (Disposition::Unauthorized, 1, 0)
    );
}

#[test]
fn outcome_carries_attempts() {
    let mut op = RetryingAdd::new(2);
    assert_eq!(op.record(&AttemptResult::Rejected(429)), None);
    assert_eq!(op.record(&AttemptResult::Rejected(409)), Some(Disposition::AlreadyMember));
    let o = op.outcome(Identity::new("1@s.whatsapp.net".to_string()), Disposition::AlreadyMember);
    assert_eq!(o.attempts_made, 2);
    assert!(o.skipped());
    assert!(!o.success());
}

#[test]
fn attempt_from_entries_reads_first_participant() {
    assert!(matches!(attempt_from_entries(&vec![(true, None)]), AttemptResult::Success));
    assert!(matches!(
        attempt_from_entries(&vec![(false, Some(403)), (true, None)]),
        AttemptResult::Rejected(403)
    ));
    let empty = attempt_from_entries(&vec![]);
    assert_eq!(classify(&empty, 0, 2), Classification::Done(Disposition::TransportFailure));
    let no_code = attempt_from_entries(&vec![(false, None)]);
    assert_eq!(classify(&no_code, 0, 2), Classification::Done(Disposition::TransportFailure));
}

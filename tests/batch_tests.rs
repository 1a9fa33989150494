use group_adder::batch::{pause_after, tally, AddMemberStats};
use group_adder::identity::Identity;
use group_adder::outcome::{AttemptResult, Disposition};
use group_adder::retry::{AddMemberResult, RetryingAdd};

fn member(phone: &str) -> Identity {
    Identity::new(format!("{}@s.whatsapp.net", phone))
}

fn outcome_of(jid: Identity, results: Vec<AttemptResult>) -> AddMemberResult {
    let mut op = RetryingAdd::new(2);
    for r in &results {
        if let Some(d) = op.record(r) {
            return op.outcome(jid, d);
        }
    }
    panic!("the operation did not stop");
}

#[test]
fn batch_of_added_already_member_and_invalid() {
    let outcomes = vec![
        outcome_of(member("111"), vec![AttemptResult::Success]),
        outcome_of(member("222"), vec![AttemptResult::Rejected(409)]),
        outcome_of(member("333"), vec![AttemptResult::Rejected(400)]),
    ];
    let stats = tally(&outcomes);
    assert_eq!(stats.total_success, 1);
    assert_eq!(stats.total_skipped, 1);
    assert_eq!(stats.total_failed, 1);
    assert_eq!(stats.invalid_phones, vec!["333".to_string()]);
    assert!(stats.failed_for_invite.is_empty());
    assert_eq!(stats.total_processed(), 3);
}

#[test]
fn forbidden_member_needs_invite() {
    let mut stats = AddMemberStats::new();
    stats.record(&outcome_of(member("444"), vec![AttemptResult::Rejected(403)]));
    stats.record(&outcome_of(member("555"), vec![AttemptResult::Rejected(404)]));
    stats.record(&outcome_of(
        member("666"),
        vec![AttemptResult::Transport("denied: 403".to_string())],
    ));
    assert_eq!(stats.total_failed, 3);
    let invite: Vec<String> = stats.failed_for_invite.iter().map(|i| i.address.clone()).collect();
    assert_eq!(
        invite,
        vec![
            "444@s.whatsapp.net".to_string(),
            "555@s.whatsapp.net".to_string(),
            "666@s.whatsapp.net".to_string()
        ]
    );
    assert!(stats.invalid_phones.is_empty());
}

#[test]
fn rate_limited_and_unknown_count_as_failed_only() {
    let outcomes = vec![
        AddMemberResult {
            jid: member("1"),
            disposition: Disposition::RateLimited,
            attempts_made: 3,
        },
        AddMemberResult { jid: member("2"), disposition: Disposition::Unknown, attempts_made: 1 },
        AddMemberResult {
            jid: member("3"),
            disposition: Disposition::TransportFailure,
            attempts_made: 1,
        },
    ];
    let stats = tally(&outcomes);
    assert_eq!((stats.total_success, stats.total_skipped, stats.total_failed), (0, 0, 3));
    assert!(stats.invalid_phones.is_empty());
    assert!(stats.failed_for_invite.is_empty());
}

#[test]
fn empty_batch_has_empty_statistics() {
    let stats = tally(&vec![]);
    assert_eq!(stats.total_processed(), 0);
}

#[test]
fn pacing_only_between_members() {
    assert!(pause_after(0, 3));
    assert!(pause_after(1, 3));
    assert!(!pause_after(2, 3));
    assert!(!pause_after(0, 1));
    assert!(!pause_after(0, 0));
}

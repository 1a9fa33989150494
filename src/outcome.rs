//! What one add attempt returned, and what it means for the member.
use vstd::prelude::*;
use crate::text::{ascii_lower, has_infix, matches_at, same_char, contains_text};
use vstd::string::*;

verus! {

/// Error code for a member who is already in the group.
pub const CODE_CONFLICT: u64 = 409;

/// Error code for a malformed or unknown number.
pub const CODE_BAD_REQUEST: u64 = 400;

/// Error code for an add that the caller may not make.
pub const CODE_FORBIDDEN: u64 = 403;

/// Error code for a participant that does not exist.
pub const CODE_NOT_FOUND: u64 = 404;

/// Error code for rate limiting.
pub const CODE_RATE_LIMITED: u64 = 429;

/// The result of one add attempt for one member.
#[derive(Debug)]
pub enum AttemptResult {
    /// The member was added.
    Success,
    /// The server answered with an error code for the member.
    Rejected(u64),
    /// The request itself failed; the text is the transport's message.
    Transport(String),
}

/// How one member's add attempts ended.
#[derive(Clone, Copy, Debug, PartialEq, Eq, Structural)]
pub enum Disposition {
    Added,
    AlreadyMember,
    RateLimited,
    InvalidIdentity,
    Unauthorized,
    NotFound,
    Unknown,
    TransportRateLimited,
    TransportFailure,
}

/// What to do after an attempt: wait and try again, or stop with a disposition.
#[derive(Clone, Copy, Debug, PartialEq, Eq, Structural)]
pub enum Classification {
    Retry,
    Done(Disposition),
}

/// A transport message that reports rate limiting.
pub open spec fn rate_limit_marked(m: Seq<char>) -> bool {
    has_infix(m, "429"@, true) || has_infix(m, "rate-overlimit"@, true)
}

/// A transport message that reports a bad request (matched exactly).
pub open spec fn bad_request_marked(m: Seq<char>) -> bool {
    has_infix(m, "400"@, false) || has_infix(m, "bad-request"@, false)
}

/// A transport message that reports a forbidden add or a missing participant
/// (matched exactly).
pub open spec fn denied_marked(m: Seq<char>) -> bool {
    has_infix(m, "403"@, false) || has_infix(m, "404"@, false)
}

/// The classification of `r`, made after `retries` earlier retries out of at
/// most `max_retries`. Error codes are trusted over transport messages, which
/// are matched by substring as a lower-confidence fallback: the rate-limit
/// markers ignoring ASCII case, the others exactly. A transport message
/// naming 403 or 404 counts as `Unauthorized`, so that member gets an invite
/// like one refused with those codes.
pub open spec fn classify_spec(r: AttemptResult, retries: nat, max_retries: nat) -> Classification {
    match r {
        AttemptResult::Success => Classification::Done(Disposition::Added),
        AttemptResult::Rejected(code) => {
            if code == CODE_RATE_LIMITED {
                if retries < max_retries {
                    Classification::Retry
                } else {
                    Classification::Done(Disposition::RateLimited)
                }
            } else if code == CODE_CONFLICT {
                Classification::Done(Disposition::AlreadyMember)
            } else if code == CODE_BAD_REQUEST {
                Classification::Done(Disposition::InvalidIdentity)
            } else if code == CODE_FORBIDDEN {
                Classification::Done(Disposition::Unauthorized)
            } else if code == CODE_NOT_FOUND {
                Classification::Done(Disposition::NotFound)
            } else {
                Classification::Done(Disposition::Unknown)
            }
        },
        AttemptResult::Transport(m) => {
            if rate_limit_marked(m@) {
                if retries < max_retries {
                    Classification::Retry
                } else {
                    Classification::Done(Disposition::TransportRateLimited)
                }
            } else if bad_request_marked(m@) {
                Classification::Done(Disposition::InvalidIdentity)
            } else if denied_marked(m@) {
                Classification::Done(Disposition::Unauthorized)
            } else {
                Classification::Done(Disposition::TransportFailure)
            }
        },
    }
}

/// Classifies one attempt's result after `retry_count` retries out of at most
/// `max_retries`.
pub fn classify(result: &AttemptResult, retry_count: u64, max_retries: u64) -> (c: Classification)
    ensures
        c == classify_spec(*result, retry_count as nat, max_retries as nat),
{
    match result {
        AttemptResult::Success => Classification::Done(Disposition::Added),
        AttemptResult::Rejected(code) => {
            let code = *code;
            if code == CODE_RATE_LIMITED {
                if retry_count < max_retries {
                    Classification::Retry
                } else {
                    Classification::Done(Disposition::RateLimited)
                }
            } else if code == CODE_CONFLICT {
                Classification::Done(Disposition::AlreadyMember)
            } else if code == CODE_BAD_REQUEST {
                Classification::Done(Disposition::InvalidIdentity)
            } else if code == CODE_FORBIDDEN {
                Classification::Done(Disposition::Unauthorized)
            } else if code == CODE_NOT_FOUND {
                Classification::Done(Disposition::NotFound)
            } else {
                Classification::Done(Disposition::Unknown)
            }
        },
        AttemptResult::Transport(m) => {
            let m = m.as_str();
            if contains_text(m, "429", true) || contains_text(m, "rate-overlimit", true) {
                if retry_count < max_retries {
                    Classification::Retry
                } else {
                    Classification::Done(Disposition::TransportRateLimited)
                }
            } else if contains_text(m, "400", false) || contains_text(m, "bad-request", false) {
                Classification::Done(Disposition::InvalidIdentity)
            } else if contains_text(m, "403", false) || contains_text(m, "404", false) {
                Classification::Done(Disposition::Unauthorized)
            } else {
                Classification::Done(Disposition::TransportFailure)
            }
        },
    }
}

/// Transport message for an answer that lists no participant.
pub const NO_STATUS: &'static str = "no status given";

/// Transport message for a participant refused without an error code.
pub const NO_CODE: &'static str = "failed without a code";

proof fn lemma_first_char_absent(m: Seq<char>, p: Seq<char>, ignore_case: bool)
    requires
        p.len() > 0,
        forall|i: int| 0 <= i < m.len() ==> !same_char(#[trigger] m[i], p[0], ignore_case),
    ensures
        !has_infix(m, p, ignore_case),
{
    assert forall|i: int| !matches_at(m, p, i, ignore_case) by {
        if matches_at(m, p, i, ignore_case) {
            assert(same_char(m[i + 0], p[0], ignore_case));
        }
    }
}

proof fn lemma_unmarked(m: Seq<char>)
    requires
        forall|i: int| 0 <= i < m.len() ==> {
            let c = ascii_lower(#[trigger] m[i]);
            c != ('4' as u32) && c != ('r' as u32) && c != ('b' as u32)
        },
    ensures
        !rate_limit_marked(m),
        !bad_request_marked(m),
        !denied_marked(m),
{
    reveal_strlit("429");
    reveal_strlit("rate-overlimit");
    reveal_strlit("400");
    reveal_strlit("bad-request");
    reveal_strlit("403");
    reveal_strlit("404");
    assert forall|i: int| 0 <= i < m.len() implies m[i] != '4' && m[i] != 'b' by {
        let c = ascii_lower(m[i]);
        assert(c != ('4' as u32) && c != ('b' as u32));
    }
    lemma_first_char_absent(m, "429"@, true);
    lemma_first_char_absent(m, "rate-overlimit"@, true);
    lemma_first_char_absent(m, "400"@, false);
    lemma_first_char_absent(m, "bad-request"@, false);
    lemma_first_char_absent(m, "403"@, false);
    lemma_first_char_absent(m, "404"@, false);
}

/// The result of an add attempt from the server's answer, given as
/// `(added, error code)` per listed participant: the first one listed
/// decides. An answer that lists no participant, or refuses one without a
/// code, is a plain transport failure.
pub fn attempt_from_entries(entries: &Vec<(bool, Option<u64>)>) -> (r: AttemptResult)
    ensures
        entries@.len() > 0 && entries@[0].0 ==> r == AttemptResult::Success,
        entries@.len() > 0 && !entries@[0].0 && entries@[0].1 is Some ==> r == AttemptResult::Rejected(
            entries@[0].1->0,
        ),
        entries@.len() == 0 || (!entries@[0].0 && entries@[0].1 is None) ==> forall|
            retries: nat,
            max_retries: nat,
        | #[trigger] classify_spec(r, retries, max_retries) == Classification::Done(
            Disposition::TransportFailure,
        ),
{
    if entries.len() == 0 {
        proof {
            reveal_strlit("no status given");
            lemma_unmarked(NO_STATUS@);
        }
        return AttemptResult::Transport(String::from_str(NO_STATUS));
    }
    let (added, code) = entries[0];
    if added {
        AttemptResult::Success
    } else {
        match code {
            Some(c) => AttemptResult::Rejected(c),
            None => {
                proof {
                    reveal_strlit("failed without a code");
                    lemma_unmarked(NO_CODE@);
                }
                AttemptResult::Transport(String::from_str(NO_CODE))
            },
        }
    }
}

} // verus!

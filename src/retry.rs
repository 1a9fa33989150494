//! The decisions of the retrying add operation for one member. The caller
//! makes each attempt, reports its result, and waits the backoff whenever the
//! operation asks to retry.
use vstd::prelude::*;
use crate::identity::Identity;
use crate::outcome::{AttemptResult, Classification, Disposition, classify, classify_spec};

verus! {

/// Seconds to wait after a rate-limited attempt before the next one.
pub const BACKOFF_SECS: u64 = 30;

/// Retries allowed per member after the first attempt.
pub const DEFAULT_MAX_RETRIES: u64 = 2;

/// How one member's addition ended.
#[derive(Clone, Debug)]
pub struct AddMemberResult {
    pub jid: Identity,
    pub disposition: Disposition,
    pub attempts_made: u64,
}

impl AddMemberResult {
    /// The member was added.
    pub fn success(&self) -> (r: bool)
        ensures
            r == (self.disposition == Disposition::Added),
    {
        self.disposition == Disposition::Added
    }

    /// The member was already in the group.
    pub fn skipped(&self) -> (r: bool)
        ensures
            r == (self.disposition == Disposition::AlreadyMember),
    {
        self.disposition == Disposition::AlreadyMember
    }

    /// The member could not be added directly and should get an invite.
    pub fn should_send_invite(&self) -> (r: bool)
        ensures
            r == needs_invite(self.disposition),
    {
        self.disposition == Disposition::Unauthorized || self.disposition == Disposition::NotFound
    }

    /// The member's number was rejected as invalid.
    pub fn should_track_invalid(&self) -> (r: bool)
        ensures
            r == (self.disposition == Disposition::InvalidIdentity),
    {
        self.disposition == Disposition::InvalidIdentity
    }
}

/// A disposition after which the member gets an invite message instead.
pub open spec fn needs_invite(d: Disposition) -> bool {
    d == Disposition::Unauthorized || d == Disposition::NotFound
}

/// The retry state of one member's addition.
#[derive(Clone, Copy, Debug, PartialEq, Eq, Structural)]
pub struct RetryingAdd {
    pub max_retries: u64,
    pub retries: u64,
}

impl RetryingAdd {
    /// At most `max_retries` retries have been made.
    pub open spec fn wf(self) -> bool {
        self.retries <= self.max_retries && self.max_retries < u64::MAX
    }

    /// The state after an attempt with result `r`, and the disposition if the
    /// operation stops there (`None`: wait the backoff, then retry).
    pub open spec fn step(self, r: AttemptResult) -> (RetryingAdd, Option<Disposition>) {
        match classify_spec(r, self.retries as nat, self.max_retries as nat) {
            Classification::Retry => (RetryingAdd { retries: (self.retries + 1) as u64, ..self }, None),
            Classification::Done(d) => (self, Some(d)),
        }
    }

    /// Feeds the results `rs` to the operation in turn, and gives how it ended
    /// (disposition, attempts made, backoff waits), or `None` if the results
    /// ran out first.
    pub open spec fn run(self, rs: Seq<AttemptResult>) -> Option<(Disposition, nat, nat)>
        decreases rs.len(),
    {
        if rs.len() == 0 {
            None
        } else {
            let (next, d) = self.step(rs[0]);
            match d {
                Some(x) => Some((x, 1, 0)),
                None => match next.run(rs.drop_first()) {
                    Some((x, attempts, waits)) => Some((x, attempts + 1, waits + 1)),
                    None => None,
                },
            }
        }
    }

    /// A fresh operation, before the first attempt.
    pub fn new(max_retries: u64) -> (r: RetryingAdd)
        requires
            max_retries < u64::MAX,
        ensures
            r.wf(),
            r.max_retries == max_retries,
            r.retries == 0,
    {
        RetryingAdd { max_retries, retries: 0 }
    }

    /// The number of the attempt in progress, counting from one.
    pub fn attempts_made(&self) -> (r: u64)
        requires
            self.wf(),
        ensures
            r == self.retries + 1,
    {
        self.retries + 1
    }

    /// Records the result of the attempt in progress. `None` asks the caller
    /// to wait `BACKOFF_SECS` and make another attempt; `Some` ends the
    /// operation with that disposition.
    pub fn record(&mut self, result: &AttemptResult) -> (d: Option<Disposition>)
        requires
            old(self).wf(),
        ensures
            final(self).wf(),
            (*final(self), d) == old(self).step(*result),
    {
        match classify(result, self.retries, self.max_retries) {
            Classification::Retry => {
                self.retries = self.retries + 1;
                None
            },
            Classification::Done(d) => Some(d),
        }
    }

    /// The outcome for `jid` once the operation stopped with `disposition`.
    pub fn outcome(&self, jid: Identity, disposition: Disposition) -> (r: AddMemberResult)
        requires
            self.wf(),
        ensures
            r.jid == jid,
            r.disposition == disposition,
            r.attempts_made == self.retries + 1,
    {
        AddMemberResult { jid, disposition, attempts_made: self.retries + 1 }
    }
}

/// Rate-limit rejections are retried after a backoff while retries remain: a
/// run of `n` of them followed by a success, with at least `n` retries
/// allowed, ends in `Added` after `n + 1` attempts and `n` waits.
pub proof fn lemma_rate_limited_then_added(max_retries: u64, rs: Seq<AttemptResult>, n: nat)
    requires
        max_retries < u64::MAX,
        n <= max_retries,
        rs.len() == n + 1,
        forall|i: int| 0 <= i < n ==> rs[i] == AttemptResult::Rejected(429),
        rs[n as int] == AttemptResult::Success,
    ensures
        (RetryingAdd { max_retries, retries: 0 }).run(rs) == Some((Disposition::Added, n + 1, n)),
{
    lemma_run_added(RetryingAdd { max_retries, retries: 0 }, rs, n);
}

proof fn lemma_run_added(op: RetryingAdd, rs: Seq<AttemptResult>, n: nat)
    requires
        op.wf(),
        op.retries + n <= op.max_retries,
        rs.len() == n + 1,
        forall|i: int| 0 <= i < n ==> rs[i] == AttemptResult::Rejected(429),
        rs[n as int] == AttemptResult::Success,
    ensures
        op.run(rs) == Some((Disposition::Added, n + 1, n)),
    decreases n,
{
    if n > 0 {
        let rest = rs.drop_first();
        assert forall|i: int| 0 <= i < (n - 1) as nat implies rest[i] == AttemptResult::Rejected(429) by {
            assert(rest[i] == rs[i + 1]);
        }
        assert(rest[(n - 1) as int] == rs[n as int]);
        lemma_run_added(op.step(rs[0]).0, rest, (n - 1) as nat);
    }
}

/// When every attempt is rate limited, the operation stops with
/// `RateLimited` after `max_retries + 1` attempts and `max_retries` waits.
pub proof fn lemma_rate_limited_exhausted(max_retries: u64, rs: Seq<AttemptResult>)
    requires
        max_retries < u64::MAX,
        rs.len() == max_retries + 1,
        forall|i: int| 0 <= i < rs.len() ==> rs[i] == AttemptResult::Rejected(429),
    ensures
        (RetryingAdd { max_retries, retries: 0 }).run(rs) == Some(
            (Disposition::RateLimited, (max_retries + 1) as nat, max_retries as nat),
        ),
{
    lemma_run_exhausted(RetryingAdd { max_retries, retries: 0 }, rs);
}

proof fn lemma_run_exhausted(op: RetryingAdd, rs: Seq<AttemptResult>)
    requires
        op.wf(),
        rs.len() == op.max_retries - op.retries + 1,
        forall|i: int| 0 <= i < rs.len() ==> rs[i] == AttemptResult::Rejected(429),
    ensures
        op.run(rs) == Some(
            (Disposition::RateLimited, (op.max_retries - op.retries + 1) as nat, (op.max_retries - op.retries) as nat),
        ),
    decreases rs.len(),
{
    if op.retries < op.max_retries {
        let rest = rs.drop_first();
        assert forall|i: int| 0 <= i < rest.len() implies rest[i] == AttemptResult::Rejected(429) by {
            assert(rest[i] == rs[i + 1]);
        }
        lemma_run_exhausted(op.step(rs[0]).0, rest);
    }
}

} // verus!

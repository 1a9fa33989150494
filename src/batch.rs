//! Statistics of a batch run: each member's outcome, in input order, goes
//! into exactly one bucket. A member already in the group has a bucket of
//! its own and counts neither as added nor as failed.
use vstd::prelude::*;
use crate::identity::{Identity, jid_to_phone, phone_text};
use crate::outcome::Disposition;
use crate::retry::{AddMemberResult, needs_invite};

verus! {

/// Seconds to wait between two members of a batch.
pub const PACING_SECS: u64 = 5;

/// The counts and lists that a batch run accumulates.
#[derive(Clone, Debug)]
pub struct AddMemberStats {
    pub total_success: usize,
    pub total_skipped: usize,
    pub total_failed: usize,
    /// Phone numbers rejected as invalid, to go into the invalid ledger.
    pub invalid_phones: Vec<String>,
    /// Members who could not be added directly and should get an invite.
    pub failed_for_invite: Vec<Identity>,
}

/// The mathematical content of `AddMemberStats`.
pub struct StatsModel {
    pub added: nat,
    pub already_member: nat,
    pub failed: nat,
    pub invalid_phones: Seq<Seq<char>>,
    pub needing_invite: Seq<Seq<char>>,
}

impl View for AddMemberStats {
    type V = StatsModel;

    open spec fn view(&self) -> StatsModel {
        StatsModel {
            added: self.total_success as nat,
            already_member: self.total_skipped as nat,
            failed: self.total_failed as nat,
            invalid_phones: self.invalid_phones.deep_view(),
            needing_invite: self.failed_for_invite@.map_values(|i: Identity| i@),
        }
    }
}

/// The statistics before any member.
pub open spec fn empty_stats() -> StatsModel {
    StatsModel {
        added: 0,
        already_member: 0,
        failed: 0,
        invalid_phones: Seq::empty(),
        needing_invite: Seq::empty(),
    }
}

/// `s` with the outcome of one more member: `Added` and `AlreadyMember`
/// have buckets of their own; every other disposition counts as failed, an
/// invalid number also goes into the invalid list, and a member who can be
/// invited into the invite list.
pub open spec fn with_outcome(s: StatsModel, d: Disposition, jid: Seq<char>) -> StatsModel {
    if d == Disposition::Added {
        StatsModel { added: s.added + 1, ..s }
    } else if d == Disposition::AlreadyMember {
        StatsModel { already_member: s.already_member + 1, ..s }
    } else if d == Disposition::InvalidIdentity {
        StatsModel { failed: s.failed + 1, invalid_phones: s.invalid_phones.push(phone_text(jid)), ..s }
    } else if needs_invite(d) {
        StatsModel { failed: s.failed + 1, needing_invite: s.needing_invite.push(jid), ..s }
    } else {
        StatsModel { failed: s.failed + 1, ..s }
    }
}

/// The statistics of a batch whose members ended with `outcomes`, in order.
pub open spec fn tally_spec(outcomes: Seq<AddMemberResult>) -> StatsModel
    decreases outcomes.len(),
{
    if outcomes.len() == 0 {
        empty_stats()
    } else {
        let last = outcomes.last();
        with_outcome(tally_spec(outcomes.drop_last()), last.disposition, last.jid@)
    }
}

impl AddMemberStats {
    /// The number of members recorded so far.
    pub open spec fn processed(&self) -> nat {
        (self.total_success + self.total_skipped + self.total_failed) as nat
    }

    /// Statistics before any member.
    pub fn new() -> (r: AddMemberStats)
        ensures
            r@ == empty_stats(),
    {
        let r = AddMemberStats {
            total_success: 0,
            total_skipped: 0,
            total_failed: 0,
            invalid_phones: Vec::new(),
            failed_for_invite: Vec::new(),
        };
        assert(r@.invalid_phones =~= Seq::<Seq<char>>::empty());
        assert(r@.needing_invite =~= Seq::<Seq<char>>::empty());
        r
    }

    /// Adds one member's outcome.
    pub fn record(&mut self, result: &AddMemberResult)
        requires
            old(self).processed() < usize::MAX,
        ensures
            final(self)@ == with_outcome(old(self)@, result.disposition, result.jid@),
            final(self).processed() == old(self).processed() + 1,
    {
        let ghost before = self@;
        if result.success() {
            self.total_success = self.total_success + 1;
        } else if result.skipped() {
            self.total_skipped = self.total_skipped + 1;
        } else {
            self.total_failed = self.total_failed + 1;
            if result.should_track_invalid() {
                self.invalid_phones.push(jid_to_phone(&result.jid));
            } else if result.should_send_invite() {
                self.failed_for_invite.push(result.jid.copied());
            }
        }
        assert(self@.invalid_phones =~= with_outcome(before, result.disposition, result.jid@).invalid_phones);
        assert(self@.needing_invite =~= with_outcome(before, result.disposition, result.jid@).needing_invite);
    }

    /// The number of members recorded.
    pub fn total_processed(&self) -> (r: usize)
        requires
            self.processed() <= usize::MAX,
        ensures
            r == self.processed(),
    {
        self.total_success + self.total_skipped + self.total_failed
    }
}

/// The statistics of a batch whose members ended with `outcomes`, in order:
/// every outcome is counted, none is dropped.
pub fn tally(outcomes: &Vec<AddMemberResult>) -> (r: AddMemberStats)
    ensures
        r@ == tally_spec(outcomes@),
        r.processed() == outcomes@.len(),
{
    let mut stats = AddMemberStats::new();
    let mut i: usize = 0;
    while i < outcomes.len()
        invariant
            i <= outcomes@.len(),
            stats@ == tally_spec(outcomes@.subrange(0, i as int)),
            stats.processed() == i,
        decreases outcomes@.len() - i,
    {
        stats.record(&outcomes[i]);
        proof {
            let next = outcomes@.subrange(0, i + 1);
            assert(next.drop_last() =~= outcomes@.subrange(0, i as int));
        }
        i = i + 1;
    }
    assert(outcomes@.subrange(0, outcomes@.len() as int) =~= outcomes@);
    stats
}

/// Whether to wait `PACING_SECS` after the member at `index` of a batch of
/// `total`: between two members, never after the last one.
pub fn pause_after(index: usize, total: usize) -> (r: bool)
    ensures
        r == (index + 1 < total),
{
    index < total && index < total - 1
}

} // verus!

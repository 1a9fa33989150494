//! The invite fallback: which members get an invite message, what it says,
//! and the ledger of members who already got one. Sending is the caller's
//! part: it sends to each pending member in order, pausing
//! `INVITE_PAUSE_MILLIS` between sends, and reports each delivery back.
use vstd::prelude::*;
use vstd::string::*;
use crate::identity::{Identity, addresses, jid_to_phone, phone_text};
use crate::ledger::{has_entry, lemma_merged_keeps, merged};
use crate::text::{replaced, replace_all};

verus! {

/// The token in a message template that the invite link replaces.
pub const LINK_TOKEN: &'static str = "{link}";

/// What stands in the message in place of a link that could not be fetched.
pub const LINK_PLACEHOLDER: &'static str = "(ask admin for invite link)";

/// The message template used when none is configured.
pub const DEFAULT_TEMPLATE: &'static str = "Hi! You've been invited to join our WhatsApp group.\n\nJoin here: {link}\n\nIf the link doesn't work, please contact an admin.";

/// Milliseconds to wait after each invite message.
pub const INVITE_PAUSE_MILLIS: u64 = 500;

/// The text without leading and trailing white space.
pub uninterp spec fn trimmed(s: Seq<char>) -> Seq<char>;

/// Relies on `str::trim`: it removes leading and trailing white space, and
/// the result depends on the text alone.
#[verifier::external_body]
fn trim_text(s: &str) -> (r: &str)
    ensures
        r@ == trimmed(s@),
{
    s.trim()
}

/// The message template: the configured text without surrounding white
/// space, or the default template when none is configured.
pub fn invite_template(stored: Option<String>) -> (r: String)
    ensures
        stored matches Some(t) ==> r@ == trimmed(t@),
        stored is None ==> r@ == DEFAULT_TEMPLATE@,
{
    match stored {
        Some(t) => String::from_str(trim_text(t.as_str())),
        None => String::from_str(DEFAULT_TEMPLATE),
    }
}

/// The link text that goes into the message: the fetched link, or the
/// placeholder when fetching it failed.
pub open spec fn link_text(link: Option<Seq<char>>) -> Seq<char> {
    match link {
        Some(l) => l,
        None => LINK_PLACEHOLDER@,
    }
}

/// The invite message: `template` with every link token replaced by the
/// fetched link, or by the placeholder when there is no link.
pub fn render_invite(template: &str, link: &Option<String>) -> (r: String)
    ensures
        r@ == replaced(template@, LINK_TOKEN@, link_text(
            match link {
                Some(l) => Some(l@),
                None => None,
            },
        )),
{
    match link {
        Some(l) => replace_all(template, LINK_TOKEN, l.as_str()),
        None => replace_all(template, LINK_TOKEN, LINK_PLACEHOLDER),
    }
}

/// The message of a plain invite that carries only the link.
pub fn link_message(link: &str) -> (r: String)
    ensures
        r@ == "Join our group: "@ + link@,
{
    String::from_str("Join our group: ").concat(link)
}

/// The phone numbers of the addresses `ids`.
pub open spec fn phones_of(ids: Seq<Seq<char>>) -> Seq<Seq<char>> {
    ids.map_values(|a: Seq<char>| phone_text(a))
}

/// The candidates that get an invite, in order: those whose phone number is
/// neither in the invited ledger nor that of an earlier pending candidate.
pub open spec fn pending_invites(candidates: Seq<Seq<char>>, invited: Seq<Seq<char>>) -> Seq<Seq<char>>
    decreases candidates.len(),
{
    if candidates.len() == 0 {
        Seq::empty()
    } else {
        let p = pending_invites(candidates.drop_last(), invited);
        let phone = phone_text(candidates.last());
        if invited.contains(phone) || phones_of(p).contains(phone) {
            p
        } else {
            p.push(candidates.last())
        }
    }
}

/// The candidates that get no invite, in order: those whose phone number is
/// in the invited ledger or that of an earlier pending candidate.
pub open spec fn skipped_invites(candidates: Seq<Seq<char>>, invited: Seq<Seq<char>>) -> Seq<Seq<char>>
    decreases candidates.len(),
{
    if candidates.len() == 0 {
        Seq::empty()
    } else {
        let s = skipped_invites(candidates.drop_last(), invited);
        let p = pending_invites(candidates.drop_last(), invited);
        let phone = phone_text(candidates.last());
        if invited.contains(phone) || phones_of(p).contains(phone) {
            s.push(candidates.last())
        } else {
            s
        }
    }
}

/// The members to invite, and the candidates skipped.
#[derive(Clone, Debug)]
pub struct InvitePlan {
    pub pending: Vec<Identity>,
    pub skipped: Vec<Identity>,
}

/// Splits `candidates` into those to invite and those skipped, given the
/// phone numbers that already got an invite.
pub fn plan_invites(candidates: &Vec<Identity>, invited: &Vec<String>) -> (r: InvitePlan)
    ensures
        addresses(r.pending@) == pending_invites(addresses(candidates@), invited.deep_view()),
        addresses(r.skipped@) == skipped_invites(addresses(candidates@), invited.deep_view()),
        r.skipped@.len() + r.pending@.len() == candidates@.len(),
{
    let ghost cands = addresses(candidates@);
    let mut pending: Vec<Identity> = Vec::new();
    let mut pending_phones: Vec<String> = Vec::new();
    let mut skipped: Vec<Identity> = Vec::new();
    let mut i: usize = 0;
    proof {
        assert(addresses(skipped@) =~= Seq::<Seq<char>>::empty());
        assert(cands.subrange(0, 0) =~= Seq::<Seq<char>>::empty());
        assert(addresses(pending@) =~= Seq::<Seq<char>>::empty());
        assert(pending_phones.deep_view() =~= Seq::<Seq<char>>::empty());
        assert(phones_of(Seq::<Seq<char>>::empty()) =~= Seq::<Seq<char>>::empty());
    }
    while i < candidates.len()
        invariant
            i <= candidates@.len(),
            cands == addresses(candidates@),
            addresses(pending@) == pending_invites(cands.subrange(0, i as int), invited.deep_view()),
            addresses(skipped@) == skipped_invites(cands.subrange(0, i as int), invited.deep_view()),
            pending_phones.deep_view() == phones_of(addresses(pending@)),
            pending@.len() + skipped@.len() == i,
        decreases candidates@.len() - i,
    {
        let phone = jid_to_phone(&candidates[i]);
        proof {
            let sub = cands.subrange(0, i + 1);
            assert(sub.drop_last() =~= cands.subrange(0, i as int));
            assert(sub.last() == candidates@[i as int]@);
        }
        if !has_entry(invited, &phone) && !has_entry(&pending_phones, &phone) {
            let ghost before = addresses(pending@);
            let ghost before_phones = pending_phones.deep_view();
            pending.push(candidates[i].copied());
            pending_phones.push(phone);
            proof {
                assert(addresses(pending@) =~= before.push(candidates@[i as int]@));
                assert(pending_phones.deep_view() =~= before_phones.push(phone_text(candidates@[i as int]@)));
                assert(phones_of(addresses(pending@)) =~= phones_of(before).push(phone_text(candidates@[i as int]@)));
            }
        } else {
            let ghost before_skipped = addresses(skipped@);
            skipped.push(candidates[i].copied());
            proof {
                assert(addresses(skipped@) =~= before_skipped.push(candidates@[i as int]@));
            }
        }
        i = i + 1;
    }
    proof {
        assert(cands.subrange(0, i as int) =~= cands);
    }
    InvitePlan { pending, skipped }
}

proof fn lemma_pending_fresh(candidates: Seq<Seq<char>>, invited: Seq<Seq<char>>)
    ensures
        forall|k: int| 0 <= k < pending_invites(candidates, invited).len() ==> !invited.contains(
            phone_text(#[trigger] pending_invites(candidates, invited)[k]),
        ),
        forall|k: int| 0 <= k < candidates.len() ==> invited.contains(phone_text(#[trigger] candidates[k]))
            || phones_of(pending_invites(candidates, invited)).contains(phone_text(candidates[k])),
    decreases candidates.len(),
{
    if candidates.len() > 0 {
        let rest = candidates.drop_last();
        lemma_pending_fresh(rest, invited);
        let p = pending_invites(rest, invited);
        let last = candidates.last();
        let phone = phone_text(last);
        if !(invited.contains(phone) || phones_of(p).contains(phone)) {
            let q = p.push(last);
            assert(phones_of(q) =~= phones_of(p).push(phone));
            assert forall|k: int| 0 <= k < candidates.len() implies invited.contains(phone_text(#[trigger] candidates[k]))
                || phones_of(q).contains(phone_text(candidates[k])) by {
                if k < rest.len() {
                    assert(candidates[k] == rest[k]);
                    if phones_of(p).contains(phone_text(rest[k])) {
                        let j = choose|j: int| 0 <= j < phones_of(p).len() && phones_of(p)[j] == phone_text(rest[k]);
                        assert(phones_of(q)[j] == phone_text(rest[k]));
                    }
                } else {
                    assert(phones_of(q)[p.len() as int] == phone);
                }
            }
            assert forall|k: int| 0 <= k < q.len() implies !invited.contains(phone_text(#[trigger] q[k])) by {
                if k < p.len() {
                    assert(q[k] == p[k]);
                }
            }
        } else {
            assert forall|k: int| 0 <= k < candidates.len() implies invited.contains(phone_text(#[trigger] candidates[k]))
                || phones_of(p).contains(phone_text(candidates[k])) by {
                if k < rest.len() {
                    assert(candidates[k] == rest[k]);
                }
            }
        }
    }
}

proof fn lemma_none_pending(candidates: Seq<Seq<char>>, invited: Seq<Seq<char>>)
    requires
        forall|k: int| 0 <= k < candidates.len() ==> invited.contains(phone_text(#[trigger] candidates[k])),
    ensures
        pending_invites(candidates, invited) == Seq::<Seq<char>>::empty(),
    decreases candidates.len(),
{
    if candidates.len() > 0 {
        let rest = candidates.drop_last();
        assert forall|k: int| 0 <= k < rest.len() implies invited.contains(phone_text(#[trigger] rest[k])) by {
            assert(rest[k] == candidates[k]);
        }
        lemma_none_pending(rest, invited);
        assert(invited.contains(phone_text(candidates[candidates.len() - 1])));
    }
}

/// The invite fallback never invites twice: no member to invite has a phone
/// number in the invited ledger, and once every invite of a pass was
/// delivered, a second pass over the same candidates, with the ledger that
/// the first one left, has no one to invite.
pub proof fn lemma_invites_sent_once(candidates: Seq<Seq<char>>, invited: Seq<Seq<char>>)
    ensures
        forall|k: int| 0 <= k < pending_invites(candidates, invited).len() ==> !invited.contains(
            phone_text(#[trigger] pending_invites(candidates, invited)[k]),
        ),
        pending_invites(
            candidates,
            merged(invited, phones_of(pending_invites(candidates, invited))),
        ) == Seq::<Seq<char>>::empty(),
{
    let pending = pending_invites(candidates, invited);
    let after = merged(invited, phones_of(pending));
    lemma_pending_fresh(candidates, invited);
    lemma_merged_keeps(invited, phones_of(pending));
    assert forall|k: int| 0 <= k < candidates.len() implies after.contains(phone_text(#[trigger] candidates[k])) by {
        let ph = phone_text(candidates[k]);
        if invited.contains(ph) {
            assert(invited.to_set().contains(ph));
        } else {
            assert(phones_of(pending).to_set().contains(ph));
        }
        assert(after.to_set().contains(ph));
    }
    lemma_none_pending(candidates, after);
}

/// The invited ledger during an invite pass, and how many messages went out.
#[derive(Clone, Debug)]
pub struct InvitePass {
    pub invited: Vec<String>,
    pub sent: usize,
}

impl InvitePass {
    /// A pass that starts from the invited ledger `invited`.
    pub fn new(invited: Vec<String>) -> (r: InvitePass)
        ensures
            r.invited.deep_view() == invited.deep_view(),
            r.sent == 0,
    {
        InvitePass { invited, sent: 0 }
    }

    /// Records whether the invite to `jid` was delivered. A delivered invite
    /// puts the member's phone number into the ledger, once.
    pub fn record_delivery(&mut self, jid: &Identity, delivered: bool)
        requires
            old(self).sent < usize::MAX,
        ensures
            delivered ==> final(self).invited.deep_view() == merged(
                old(self).invited.deep_view(),
                seq![phone_text(jid@)],
            ) && final(self).sent == old(self).sent + 1,
            !delivered ==> *final(self) == *old(self),
    {
        if delivered {
            let mut one: Vec<String> = Vec::new();
            one.push(jid_to_phone(jid));
            assert(one.deep_view() =~= seq![phone_text(jid@)]);
            let mut invited: Vec<String> = Vec::new();
            core::mem::swap(&mut invited, &mut self.invited);
            self.invited = crate::ledger::merge_entries(invited, &one);
            self.sent = self.sent + 1;
        }
    }

    /// The ledger to write back after the pass: only when an invite went out.
    pub fn ledger_to_save(&self) -> (r: Option<&Vec<String>>)
        ensures
            r is Some <==> self.sent > 0,
            r matches Some(v) ==> v == &self.invited,
    {
        if self.sent > 0 {
            Some(&self.invited)
        } else {
            None
        }
    }
}

} // verus!

//! Participant and group addresses, and the phone numbers they carry.
use vstd::prelude::*;
use vstd::string::*;
use crate::text::{has_infix, matches_at, replaced, same_char, contains_text, replace_all};

verus! {

/// Suffix of an address on the phone-number user server.
pub const USER_SUFFIX: &'static str = "@s.whatsapp.net";

/// Suffix of an address on the linked-identity server.
pub const LINKED_SUFFIX: &'static str = "@lid";

/// Suffix of a group address.
pub const GROUP_SUFFIX: &'static str = "@g.us";

/// An addressable participant, held as its address text (`<user>@<server>`).
#[derive(Clone, Debug)]
pub struct Identity {
    pub address: String,
}

impl View for Identity {
    type V = Seq<char>;

    open spec fn view(&self) -> Seq<char> {
        self.address@
    }
}

impl Identity {
    /// A participant with the given address text.
    pub fn new(address: String) -> (r: Identity)
        ensures
            r@ == address@,
    {
        Identity { address }
    }

    /// A copy of this participant.
    pub fn copied(&self) -> (r: Identity)
        ensures
            r@ == self@,
    {
        Identity { address: self.address.clone() }
    }
}

/// Whether the address grammar of the messaging library accepts `s`.
pub uninterp spec fn jid_accepts(s: Seq<char>) -> bool;

#[verifier::external_type_specification]
#[verifier::external_body]
pub struct ExJidError(wacore_binary::jid::JidError);

/// The text holds an `@`.
pub open spec fn holds_at_sign(s: Seq<char>) -> bool {
    exists|k: int| 0 <= k < s.len() && s[k] == '@'
}

/// The text holds two `@` or more.
pub open spec fn holds_two_at_signs(s: Seq<char>) -> bool {
    exists|i: int, j: int| 0 <= i < j < s.len() && s[i] == '@' && s[j] == '@'
}

/// Relies on `FromStr for wacore_binary::jid::Jid`: it parses an address,
/// and whether it accepts the text depends on the text alone. Both of its
/// parsing paths take the server as the text after the first `@`, and no
/// known server name holds an `@`, so a text with two `@` is rejected.
#[verifier::external_body]
fn parse_jid(s: &str) -> (r: Result<(), wacore_binary::jid::JidError>)
    ensures
        r is Ok <==> jid_accepts(s@),
        holds_two_at_signs(s@) ==> r is Err,
{
    match s.parse::<wacore_binary::jid::Jid>() {
        Ok(_) => Ok(()),
        Err(e) => Err(e),
    }
}

/// Why a phone number could not be turned into a participant.
#[derive(Clone, Debug)]
pub enum IdentityError {
    /// The address built from the phone number is not a valid address.
    Malformed(String),
}

/// The participant address for a phone number, if the address grammar
/// accepts it. A phone number that holds an `@` never gives one: the address
/// would hold two.
pub open spec fn identity_for(phone: Seq<char>) -> Option<Seq<char>> {
    let address = phone + USER_SUFFIX@;
    if jid_accepts(address) && !holds_at_sign(phone) {
        Some(address)
    } else {
        None
    }
}

/// The participant with the given phone number, on the user server.
pub fn to_identity(phone: &str) -> (r: Result<Identity, IdentityError>)
    ensures
        r is Ok <==> identity_for(phone@) is Some,
        r matches Ok(i) ==> identity_for(phone@) == Some(i@),
        r matches Err(IdentityError::Malformed(a)) ==> a@ == phone@ + USER_SUFFIX@,
{
    let address = String::from_str(phone).concat(USER_SUFFIX);
    proof {
        reveal_strlit("@s.whatsapp.net");
        if holds_at_sign(phone@) {
            let k = choose|k: int| 0 <= k < phone@.len() && phone@[k] == '@';
            assert(address@[k] == '@');
            assert(address@[phone@.len() as int] == '@');
            assert(holds_two_at_signs(address@));
        }
    }
    match parse_jid(address.as_str()) {
        Ok(()) => Ok(Identity { address }),
        Err(_) => Err(IdentityError::Malformed(address)),
    }
}

/// The addresses of a list of participants.
pub open spec fn addresses(ids: Seq<Identity>) -> Seq<Seq<char>> {
    ids.map_values(|i: Identity| i@)
}

/// The addresses of the phone numbers `phones` that give a valid address, in order.
pub open spec fn accepted_addresses(phones: Seq<Seq<char>>) -> Seq<Seq<char>>
    decreases phones.len(),
{
    if phones.len() == 0 {
        Seq::empty()
    } else {
        let r = accepted_addresses(phones.drop_last());
        match identity_for(phones.last()) {
            Some(a) => r.push(a),
            None => r,
        }
    }
}

/// The phone numbers of `phones` that give no valid address, in order.
pub open spec fn rejected_phones(phones: Seq<Seq<char>>) -> Seq<Seq<char>>
    decreases phones.len(),
{
    if phones.len() == 0 {
        Seq::empty()
    } else {
        let r = rejected_phones(phones.drop_last());
        match identity_for(phones.last()) {
            Some(_) => r,
            None => r.push(phones.last()),
        }
    }
}

/// The participants for a list of phone numbers, and the numbers rejected.
#[derive(Clone, Debug)]
pub struct ParsedPhones {
    pub identities: Vec<Identity>,
    pub rejected: Vec<String>,
}

/// Turns each phone number into a participant, keeping the order; the
/// numbers that give no valid address are set aside.
pub fn identities_from_phones(phones: &Vec<String>) -> (r: ParsedPhones)
    ensures
        addresses(r.identities@) == accepted_addresses(phones.deep_view()),
        r.rejected.deep_view() == rejected_phones(phones.deep_view()),
{
    let ghost all = phones.deep_view();
    let mut identities: Vec<Identity> = Vec::new();
    let mut rejected: Vec<String> = Vec::new();
    let mut i: usize = 0;
    proof {
        assert(all.subrange(0, 0) =~= Seq::<Seq<char>>::empty());
        assert(addresses(identities@) =~= Seq::<Seq<char>>::empty());
        assert(rejected.deep_view() =~= Seq::<Seq<char>>::empty());
    }
    while i < phones.len()
        invariant
            i <= phones@.len(),
            all == phones.deep_view(),
            addresses(identities@) == accepted_addresses(all.subrange(0, i as int)),
            rejected.deep_view() == rejected_phones(all.subrange(0, i as int)),
        decreases phones@.len() - i,
    {
        proof {
            let sub = all.subrange(0, i + 1);
            assert(sub.drop_last() =~= all.subrange(0, i as int));
            assert(sub.last() == phones@[i as int]@);
        }
        let ghost before_ids = addresses(identities@);
        let ghost before_rejected = rejected.deep_view();
        match to_identity(phones[i].as_str()) {
            Ok(id) => {
                identities.push(id);
                assert(addresses(identities@) =~= before_ids.push(identities@.last()@));
            },
            Err(_) => {
                rejected.push(phones[i].clone());
                assert(rejected.deep_view() =~= before_rejected.push(phones@[i as int]@));
            },
        }
        i = i + 1;
    }
    proof {
        assert(all.subrange(0, i as int) =~= all);
    }
    ParsedPhones { identities, rejected }
}

/// The phone number carried by an address: the address with both user
/// suffixes removed wherever they occur.
pub open spec fn phone_text(address: Seq<char>) -> Seq<char> {
    replaced(replaced(address, USER_SUFFIX@, Seq::empty()), LINKED_SUFFIX@, Seq::empty())
}

/// The phone number of a participant.
pub fn jid_to_phone(jid: &Identity) -> (r: String)
    ensures
        r@ == phone_text(jid@),
{
    proof {
        reveal_strlit("");
        assert(""@ =~= Seq::<char>::empty());
    }
    let without_user = replace_all(jid.address.as_str(), USER_SUFFIX, "");
    replace_all(without_user.as_str(), LINKED_SUFFIX, "")
}

/// The group address given on the command line, if `input` is one. An invite
/// link cannot be turned into a group address without joining the group, so
/// anything but a group address gives `None`.
pub fn extract_group_jid(input: &str) -> (r: Option<String>)
    ensures
        r is Some <==> has_infix(input@, GROUP_SUFFIX@, false),
        r matches Some(g) ==> g@ == input@,
{
    if contains_text(input, GROUP_SUFFIX, false) {
        Some(String::from_str(input))
    } else {
        None
    }
}

/// Removing a pattern that starts with `@` leaves a text without `@` as it is.
proof fn lemma_replaced_absent(s: Seq<char>, pat: Seq<char>)
    requires
        pat.len() > 0,
        pat[0] == '@',
        forall|k: int| 0 <= k < s.len() ==> s[k] != '@',
    ensures
        replaced(s, pat, Seq::empty()) == s,
    decreases s.len(),
{
    if s.len() > 0 {
        assert(!matches_at(s, pat, 0, false)) by {
            if matches_at(s, pat, 0, false) {
                assert(same_char(s[0int + 0int], pat[0], false));
            }
        }
        lemma_replaced_absent(s.skip(1), pat);
        assert(seq![s[0]] + s.skip(1) =~= s);
    }
}

/// Removing a pattern that starts with `@` from a text without `@` followed
/// by that pattern gives back the text.
proof fn lemma_replaced_suffix(s: Seq<char>, pat: Seq<char>)
    requires
        pat.len() > 0,
        pat[0] == '@',
        forall|k: int| 0 <= k < s.len() ==> s[k] != '@',
    ensures
        replaced(s + pat, pat, Seq::empty()) == s,
    decreases s.len(),
{
    let t = s + pat;
    if s.len() == 0 {
        assert(t =~= pat);
        assert(matches_at(t, pat, 0, false));
        assert(t.skip(pat.len() as int) =~= Seq::<char>::empty());
        assert(replaced(Seq::<char>::empty(), pat, Seq::empty()) == Seq::<char>::empty());
        assert(replaced(t, pat, Seq::empty()) == Seq::<char>::empty() + replaced(
            t.skip(pat.len() as int),
            pat,
            Seq::empty(),
        ));
        assert(Seq::<char>::empty() + Seq::<char>::empty() =~= s);
    } else {
        assert(!matches_at(t, pat, 0, false)) by {
            if matches_at(t, pat, 0, false) {
                assert(same_char(t[0int + 0int], pat[0], false));
            }
        }
        assert(t.skip(1) =~= s.skip(1) + pat);
        lemma_replaced_suffix(s.skip(1), pat);
        assert(replaced(t, pat, Seq::empty()) == seq![t[0]] + replaced(t.skip(1), pat, Seq::empty()));
        assert(seq![s[0]] + s.skip(1) =~= s);
    }
}

/// Normalisation is idempotent: going from a participant to its phone number
/// and back gives the same participant a second time.
pub proof fn lemma_normalization_idempotent(address: Seq<char>)
    ensures
        identity_for(phone_text(address)) matches Some(a) ==> identity_for(phone_text(a))
            == identity_for(phone_text(address)),
{
    let p = phone_text(address);
    reveal_strlit("@s.whatsapp.net");
    reveal_strlit("@lid");
    if let Some(a) = identity_for(p) {
        assert forall|k: int| 0 <= k < p.len() implies p[k] != '@' by {
            if p[k] == '@' {
                assert(holds_at_sign(p));
            }
        }
        lemma_replaced_suffix(p, USER_SUFFIX@);
        lemma_replaced_absent(p, LINKED_SUFFIX@);
        assert(phone_text(a) == p);
    }
}

} // verus!

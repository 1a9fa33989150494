//! Deduplicated, file-backed lists of phone numbers. The text of a ledger
//! file is a pretty-printed JSON array of strings; this module turns such a
//! text into entries and back, and merges new entries in. Reading and
//! writing the file is the caller's part.
use vstd::prelude::*;

verus! {

/// The list of strings that `text` holds as a JSON array, if it is one.
pub uninterp spec fn json_string_list(text: Seq<char>) -> Option<Seq<Seq<char>>>;

/// The pretty-printed JSON array of the strings `entries`.
pub uninterp spec fn pretty_json(entries: Seq<Seq<char>>) -> Seq<char>;

#[verifier::external_type_specification]
#[verifier::external_body]
pub struct ExJsonError(serde_json::Error);

/// Relies on `serde_json::from_str::<Vec<String>>`: it reads a JSON array of
/// strings, and whether it succeeds, and with which strings, depends on the
/// text alone.
#[verifier::external_body]
fn decode_string_list(text: &str) -> (r: Result<Vec<String>, serde_json::Error>)
    ensures
        r is Ok <==> json_string_list(text@) is Some,
        r matches Ok(v) ==> json_string_list(text@) == Some(v.deep_view()),
{
    serde_json::from_str::<Vec<String>>(text)
}

/// Relies on `serde_json::to_string_pretty` on a list of strings: the text
/// depends on the strings alone, and it cannot fail here, as its only errors
/// come from a failing `Serialize` impl or a map with non-string keys, and
/// it writes into a `Vec<u8>`, which takes every write.
#[verifier::external_body]
fn encode_string_list(entries: &Vec<String>) -> (r: Result<String, serde_json::Error>)
    ensures
        r is Ok,
        r matches Ok(t) ==> t@ == pretty_json(entries.deep_view()),
{
    serde_json::to_string_pretty(entries)
}

/// `existing` followed by each entry of `new` that is not already there, in
/// the order of first appearance.
pub open spec fn merged(existing: Seq<Seq<char>>, new: Seq<Seq<char>>) -> Seq<Seq<char>>
    decreases new.len(),
{
    if new.len() == 0 {
        existing
    } else {
        let next = if existing.contains(new[0]) {
            existing
        } else {
            existing.push(new[0])
        };
        merged(next, new.drop_first())
    }
}

/// The entries of a ledger whose file holds `text`: the strings of a JSON
/// array without repeats, or none if the text is not such an array.
pub open spec fn loaded(text: Seq<char>) -> Seq<Seq<char>> {
    match json_string_list(text) {
        Some(entries) => merged(Seq::empty(), entries),
        None => Seq::empty(),
    }
}

pub(crate) fn has_entry(entries: &Vec<String>, x: &String) -> (r: bool)
    ensures
        r == entries.deep_view().contains(x@),
{
    let mut i: usize = 0;
    while i < entries.len()
        invariant
            i <= entries@.len(),
            forall|k: int| 0 <= k < i ==> entries.deep_view()[k] != x@,
        decreases entries@.len() - i,
    {
        if entries[i] == *x {
            assert(entries.deep_view()[i as int] == x@);
            return true;
        }
        i = i + 1;
    }
    false
}

/// `existing` with the entries of `new` that it lacks appended, in order.
pub fn merge_entries(existing: Vec<String>, new: &Vec<String>) -> (r: Vec<String>)
    ensures
        r.deep_view() == merged(existing.deep_view(), new.deep_view()),
{
    let ghost goal = merged(existing.deep_view(), new.deep_view());
    let mut r = existing;
    let mut i: usize = 0;
    proof {
        assert(new.deep_view().skip(0) =~= new.deep_view());
    }
    while i < new.len()
        invariant
            i <= new@.len(),
            merged(r.deep_view(), new.deep_view().skip(i as int)) == goal,
        decreases new@.len() - i,
    {
        let ghost rest = new.deep_view().skip(i as int);
        proof {
            assert(rest[0] == new.deep_view()[i as int]);
            assert(rest.drop_first() =~= new.deep_view().skip(i + 1));
        }
        if !has_entry(&r, &new[i]) {
            let ghost before = r.deep_view();
            r.push(new[i].clone());
            proof {
                assert(r.deep_view() =~= before.push(new.deep_view()[i as int]));
            }
        }
        i = i + 1;
    }
    proof {
        assert(new.deep_view().skip(i as int) =~= Seq::<Seq<char>>::empty());
    }
    r
}

/// The entries of a ledger file that holds `text`; malformed text counts as
/// an empty ledger, and repeated entries are kept once.
pub fn load_ledger(text: &str) -> (r: Vec<String>)
    ensures
        r.deep_view() == loaded(text@),
{
    match decode_string_list(text) {
        Ok(entries) => {
            let start: Vec<String> = Vec::new();
            assert(start.deep_view() =~= Seq::<Seq<char>>::empty());
            merge_entries(start, &entries)
        },
        Err(_) => {
            let r: Vec<String> = Vec::new();
            assert(r.deep_view() =~= Seq::<Seq<char>>::empty());
            r
        },
    }
}

/// The file text for a ledger with `entries`.
pub fn encode_ledger(entries: &Vec<String>) -> (r: String)
    ensures
        r@ == pretty_json(entries.deep_view()),
{
    match encode_string_list(entries) {
        Ok(t) => t,
        Err(_) => {
            proof {
                assert(false);
            }
            String::new()
        },
    }
}

/// A ledger after a merge, with the text to write back in place of the old file.
#[derive(Clone, Debug)]
pub struct SavedLedger {
    pub entries: Vec<String>,
    pub text: String,
}

impl SavedLedger {
    /// The number of entries in the ledger.
    pub fn total(&self) -> (r: usize)
        ensures
            r == self.entries.deep_view().len(),
    {
        self.entries.len()
    }
}

/// Merges `new_entries` into the ledger whose file holds `stored` (empty
/// text for a missing file), and gives the merged entries with the text
/// that replaces the whole file.
pub fn merge_and_save(stored: &str, new_entries: &Vec<String>) -> (r: SavedLedger)
    ensures
        r.entries.deep_view() == merged(loaded(stored@), new_entries.deep_view()),
        r.text@ == pretty_json(r.entries.deep_view()),
        r.entries.deep_view().no_duplicates(),
        r.entries.deep_view().len() == loaded(stored@).to_set().union(new_entries.deep_view().to_set()).len(),
{
    let entries = merge_entries(load_ledger(stored), new_entries);
    proof {
        lemma_loaded_unique(stored@);
        lemma_merge_idempotent(loaded(stored@), new_entries.deep_view());
    }
    let text = encode_ledger(&entries);
    SavedLedger { entries, text }
}

pub(crate) proof fn lemma_merged_keeps(existing: Seq<Seq<char>>, new: Seq<Seq<char>>)
    ensures
        merged(existing, new).to_set() == existing.to_set().union(new.to_set()),
        existing.no_duplicates() ==> merged(existing, new).no_duplicates(),
    decreases new.len(),
{
    broadcast use vstd::seq_lib::group_seq_properties;
    if new.len() == 0 {
        assert(new.to_set() =~= Set::<Seq<char>>::empty());
        assert(existing.to_set().union(new.to_set()) =~= existing.to_set());
    } else {
        let next = if existing.contains(new[0]) {
            existing
        } else {
            existing.push(new[0])
        };
        lemma_merged_keeps(next, new.drop_first());
        assert(new =~= seq![new[0]] + new.drop_first());
        assert(new.to_set() =~= new.drop_first().to_set().insert(new[0])) by {
            assert forall|x| new.to_set().contains(x) <==> new.drop_first().to_set().insert(new[0]).contains(x) by {
                if new.contains(x) {
                    let k = choose|k: int| 0 <= k < new.len() && new[k] == x;
                    if k > 0 {
                        assert(new.drop_first()[k - 1] == x);
                    }
                }
                if new.drop_first().contains(x) {
                    let k = choose|k: int| 0 <= k < new.drop_first().len() && new.drop_first()[k] == x;
                    assert(new[k + 1] == x);
                }
            }
        }
        assert(next.to_set() =~= existing.to_set().insert(new[0])) by {
            if !existing.contains(new[0]) {
                assert(existing.push(new[0]) =~= existing + seq![new[0]]);
            } else {
                assert forall|x| existing.to_set().insert(new[0]).contains(x) implies existing.to_set().contains(x) by {}
            }
        }
        assert(merged(existing, new).to_set() =~= existing.to_set().union(new.to_set()));
        if existing.no_duplicates() && !existing.contains(new[0]) {
            assert(next.no_duplicates()) by {
                assert forall|i: int, j: int| 0 <= i < next.len() && 0 <= j < next.len() && i != j implies next[i] != next[j] by {
                    if i == existing.len() as int {
                        assert(next[j] == existing[j]);
                    } else if j == existing.len() as int {
                        assert(next[i] == existing[i]);
                    }
                }
            }
        }
    }
}

proof fn lemma_merged_present(existing: Seq<Seq<char>>, new: Seq<Seq<char>>)
    requires
        forall|k: int| 0 <= k < new.len() ==> existing.contains(#[trigger] new[k]),
    ensures
        merged(existing, new) == existing,
    decreases new.len(),
{
    if new.len() > 0 {
        assert(existing.contains(new[0]));
        assert forall|k: int| 0 <= k < new.drop_first().len() implies existing.contains(#[trigger] new.drop_first()[k]) by {
            assert(new.drop_first()[k] == new[k + 1]);
        }
        lemma_merged_present(existing, new.drop_first());
    }
}

/// Merging into a ledger is idempotent and keeps it a set: merging the same
/// entries a second time changes nothing, every entry appears once, and the
/// number of entries is the size of the union of the old and new entries.
pub proof fn lemma_merge_idempotent(existing: Seq<Seq<char>>, new: Seq<Seq<char>>)
    requires
        existing.no_duplicates(),
    ensures
        merged(merged(existing, new), new) == merged(existing, new),
        merged(existing, new).no_duplicates(),
        merged(existing, new).to_set() == existing.to_set().union(new.to_set()),
        merged(existing, new).len() == existing.to_set().union(new.to_set()).len(),
{
    let m = merged(existing, new);
    lemma_merged_keeps(existing, new);
    assert forall|k: int| 0 <= k < new.len() implies m.contains(#[trigger] new[k]) by {
        assert(new.to_set().contains(new[k]));
        assert(m.to_set().contains(new[k]));
    }
    lemma_merged_present(m, new);
    m.unique_seq_to_set();
}

/// Merging entries one at a time gives the same ledger as merging them all
/// at once.
pub proof fn lemma_merge_in_turn(existing: Seq<Seq<char>>, new: Seq<Seq<char>>, x: Seq<char>)
    ensures
        merged(existing, new.push(x)) == merged(merged(existing, new), seq![x]),
    decreases new.len(),
{
    if new.len() > 0 {
        let next = if existing.contains(new[0]) {
            existing
        } else {
            existing.push(new[0])
        };
        assert(new.push(x).drop_first() =~= new.drop_first().push(x));
        assert(new.push(x)[0] == new[0]);
        lemma_merge_in_turn(next, new.drop_first(), x);
    } else {
        assert(new.push(x) =~= seq![x]);
    }
}

/// A ledger read from any text has no repeated entries.
pub proof fn lemma_loaded_unique(text: Seq<char>)
    ensures
        loaded(text).no_duplicates(),
{
    if let Some(entries) = json_string_list(text) {
        lemma_merged_keeps(Seq::empty(), entries);
    }
}

} // verus!

//! Character-level matching and substitution on strings.
use vstd::prelude::*;
use vstd::string::*;

verus! {

/// The code point of `c` with ASCII upper-case letters mapped to lower case.
pub open spec fn ascii_lower(c: char) -> int {
    if 65 <= (c as u32) && (c as u32) <= 90 {
        (c as u32) + 32
    } else {
        c as u32 as int
    }
}

/// Two characters are equal, or equal up to ASCII case when `ignore_case`.
pub open spec fn same_char(a: char, b: char, ignore_case: bool) -> bool {
    if ignore_case {
        ascii_lower(a) == ascii_lower(b)
    } else {
        a == b
    }
}

/// `p` occurs in `s` starting at position `i`.
pub open spec fn matches_at(s: Seq<char>, p: Seq<char>, i: int, ignore_case: bool) -> bool {
    0 <= i && i + p.len() <= s.len() && forall|j: int|
        0 <= j < p.len() ==> #[trigger] same_char(s[i + j], p[j], ignore_case)
}

/// `p` occurs somewhere in `s`.
pub open spec fn has_infix(s: Seq<char>, p: Seq<char>, ignore_case: bool) -> bool {
    exists|i: int| matches_at(s, p, i, ignore_case)
}

/// `s` with every occurrence of `from` replaced by `to`, scanning left to right
/// without overlaps. An empty `from` leaves `s` unchanged (where `str::replace`
/// would put `to` between every two characters).
pub open spec fn replaced(s: Seq<char>, from: Seq<char>, to: Seq<char>) -> Seq<char>
    decreases s.len(),
{
    if s.len() == 0 {
        seq![]
    } else if from.len() > 0 && matches_at(s, from, 0, false) {
        to + replaced(s.skip(from.len() as int), from, to)
    } else {
        seq![s[0]] + replaced(s.skip(1), from, to)
    }
}

/// The characters of `s`, in order.
pub fn chars_of(s: &str) -> (r: Vec<char>)
    ensures
        r@ == s@,
{
    let n = s.unicode_len();
    let mut r: Vec<char> = Vec::new();
    let mut i: usize = 0;
    while i < n
        invariant
            n == s@.len(),
            i <= n,
            r@ == s@.subrange(0, i as int),
        decreases n - i,
    {
        r.push(s.get_char(i));
        i = i + 1;
        assert(r@ =~= s@.subrange(0, i as int));
    }
    assert(r@ =~= s@);
    r
}

fn char_matches(a: char, b: char, ignore_case: bool) -> (r: bool)
    ensures
        r == same_char(a, b, ignore_case),
{
    if ignore_case {
        let x: u32 = a as u32;
        let y: u32 = b as u32;
        let lx: u32 = if 65 <= x && x <= 90 { x + 32 } else { x };
        let ly: u32 = if 65 <= y && y <= 90 { y + 32 } else { y };
        lx == ly
    } else {
        a == b
    }
}

/// Whether `p` occurs in `s` at position `i`.
pub fn matches_at_exec(s: &Vec<char>, p: &Vec<char>, i: usize, ignore_case: bool) -> (r: bool)
    ensures
        r == matches_at(s@, p@, i as int, ignore_case),
{
    if i > s.len() || p.len() > s.len() - i {
        return false;
    }
    let n = s.len();
    let mut j: usize = 0;
    while j < p.len()
        invariant
            n == s@.len(),
            i + p@.len() <= s@.len(),
            j <= p@.len(),
            forall|k: int| 0 <= k < j ==> #[trigger] same_char(s@[i + k], p@[k], ignore_case),
        decreases p@.len() - j,
    {
        if !char_matches(s[i + j], p[j], ignore_case) {
            return false;
        }
        j = j + 1;
    }
    true
}

/// Whether `needle` occurs in `hay`.
pub fn contains_text(hay: &str, needle: &str, ignore_case: bool) -> (r: bool)
    ensures
        r == has_infix(hay@, needle@, ignore_case),
{
    let s = chars_of(hay);
    let p = chars_of(needle);
    let mut i: usize = 0;
    while i < s.len()
        invariant
            s@ == hay@,
            p@ == needle@,
            i <= s@.len(),
            forall|k: int| 0 <= k < i ==> !matches_at(s@, p@, k, ignore_case),
        decreases s@.len() - i,
    {
        if matches_at_exec(&s, &p, i, ignore_case) {
            return true;
        }
        i = i + 1;
    }
    let found = matches_at_exec(&s, &p, i, ignore_case);
    if !found {
        assert forall|k: int| !matches_at(s@, p@, k, ignore_case) by {
            if 0 <= k && k < i {
            } else if k == i {
            } else {
            }
        }
    }
    found
}

proof fn lemma_replaced_step(s: Seq<char>, from: Seq<char>, to: Seq<char>, i: int)
    requires
        0 <= i < s.len(),
    ensures
        from.len() > 0 && matches_at(s, from, i, false) ==> replaced(s.skip(i), from, to)
            == to + replaced(s.skip(i + from.len()), from, to),
        !(from.len() > 0 && matches_at(s, from, i, false)) ==> replaced(s.skip(i), from, to)
            == seq![s[i]] + replaced(s.skip(i + 1), from, to),
{
    let t = s.skip(i);
    assert(t.len() > 0);
    assert forall|j: int| 0 <= j < t.len() implies #[trigger] t[j] == s[i + j] by {}
    if from.len() > 0 {
        if matches_at(s, from, i, false) {
            assert forall|j: int| 0 <= j < from.len() implies #[trigger] same_char(t[j], from[j], false) by {
                assert(same_char(s[i + j], from[j], false));
                assert(t[j] == s[i + j]);
            }
            assert(matches_at(t, from, 0, false));
            assert(t.skip(from.len() as int) =~= s.skip(i + from.len()));
        } else {
            if matches_at(t, from, 0, false) {
                assert forall|j: int| 0 <= j < from.len() implies #[trigger] same_char(s[i + j], from[j], false) by {
                    assert(same_char(t[0 + j], from[j], false));
                    assert(t[j] == s[i + j]);
                }
            }
            assert(!matches_at(t, from, 0, false));
        }
    }
    assert(t.skip(1) =~= s.skip(i + 1));
}

/// `s` with every occurrence of `from` replaced by `to`; an empty `from`
/// leaves `s` unchanged.
pub fn replace_all(s: &str, from: &str, to: &str) -> (r: String)
    ensures
        r@ == replaced(s@, from@, to@),
{
    let cs = chars_of(s);
    let pat = chars_of(from);
    let n = cs.len();
    let mut r = String::new();
    let mut i: usize = 0;
    proof {
        assert(s@.skip(0) =~= s@);
        assert(r@ + replaced(s@, from@, to@) =~= replaced(s@, from@, to@));
    }
    while i < n
        invariant
            cs@ == s@,
            pat@ == from@,
            n == s@.len(),
            i <= n,
            r@ + replaced(s@.skip(i as int), from@, to@) == replaced(s@, from@, to@),
        decreases n - i,
    {
        proof {
            lemma_replaced_step(s@, from@, to@, i as int);
        }
        if pat.len() > 0 && matches_at_exec(&cs, &pat, i, false) {
            r.append(to);
            proof {
                assert(r@ + replaced(s@.skip(i + from@.len()), from@, to@) =~= replaced(s@, from@, to@));
            }
            i = i + pat.len();
        } else {
            r.append(s.substring_char(i, i + 1));
            proof {
                assert(s@.subrange(i as int, i + 1) =~= seq![s@[i as int]]);
                assert(r@ + replaced(s@.skip(i + 1), from@, to@) =~= replaced(s@, from@, to@));
            }
            i = i + 1;
        }
    }
    proof {
        assert(s@.skip(i as int) =~= Seq::<char>::empty());
        assert(r@ =~= replaced(s@, from@, to@));
    }
    r
}

} // verus!

//! Text as sequences of characters: letter case and dictionary order.

use vstd::prelude::*;

verus! {

/// An upper-case ASCII letter as its lower-case form, any other character as
/// it is.
pub open spec fn ascii_lower(c: char) -> char {
    if 'A' <= c && c <= 'Z' {
        ((c as u8) + 32) as char
    } else {
        c
    }
}

/// A text with its upper-case ASCII letters made lower case.
pub open spec fn ascii_lowered(s: Seq<char>) -> Seq<char> {
    Seq::new(s.len(), |i: int| ascii_lower(s[i]))
}

/// The lower-case form of one character, by ASCII rules.
pub fn to_ascii_lower(c: char) -> (l: char)
    ensures
        l == ascii_lower(c),
{
    if 'A' <= c && c <= 'Z' {
        ((c as u8) + 32) as char
    } else {
        c
    }
}

/// The characters of a text, one by one.
pub fn chars_of(s: &str) -> (v: Vec<char>)
    ensures
        v@ == s@,
{
    let mut v: Vec<char> = Vec::new();
    for c in it: s.chars()
        invariant
            v@ == it.seq().take(it.index() as int),
            it.seq() == s@,
    {
        v.push(c);
    }
    v
}

/// Whether two texts are the same once ASCII letter case is set aside.
pub fn same_ignoring_ascii_case(a: &Vec<char>, b: &Vec<char>) -> (same: bool)
    ensures
        same == (ascii_lowered(a@) == ascii_lowered(b@)),
{
    if a.len() != b.len() {
        assert(ascii_lowered(a@).len() != ascii_lowered(b@).len());
        return false;
    }
    let mut i: usize = 0;
    while i < a.len()
        invariant
            i <= a.len(),
            a.len() == b.len(),
            forall|j: int| 0 <= j < i ==> ascii_lower(a@[j]) == ascii_lower(b@[j]),
        decreases a.len() - i,
    {
        if to_ascii_lower(a[i]) != to_ascii_lower(b[i]) {
            assert(ascii_lowered(a@)[i as int] != ascii_lowered(b@)[i as int]);
            return false;
        }
        i = i + 1;
    }
    assert(ascii_lowered(a@) =~= ascii_lowered(b@));
    true
}

/// The text that an optional text stands for: itself, or `fallback` where
/// there is none.
pub open spec fn text_or(text: Option<Seq<char>>, fallback: Seq<char>) -> Seq<char> {
    match text {
        Some(t) => t,
        None => fallback,
    }
}

/// A copy of an optional text, or of `fallback` where there is none.
pub fn text_or_default(text: &Option<String>, fallback: &str) -> (out: String)
    ensures
        out@ == text_or(text.deep_view(), fallback@),
{
    match text {
        Some(t) => t.clone(),
        None => fallback.to_owned(),
    }
}

/// `a` and `b` hold the same characters before position `k`.
pub open spec fn agree_before(a: Seq<char>, b: Seq<char>, k: int) -> bool {
    forall|j: int| 0 <= j < k ==> a[j] == b[j]
}

/// `a` is the beginning of `b`.
pub open spec fn begins(a: Seq<char>, b: Seq<char>) -> bool {
    a.len() <= b.len() && agree_before(a, b, a.len() as int)
}

/// Position `k` is the first at which `a` and `b` differ, and there `a` has the
/// smaller character.
pub open spec fn smaller_at(a: Seq<char>, b: Seq<char>, k: int) -> bool {
    &&& 0 <= k < a.len()
    &&& k < b.len()
    &&& agree_before(a, b, k)
    &&& a[k] < b[k]
}

/// Dictionary order by character code: `a` comes no later than `b`.
pub open spec fn lex_le(a: Seq<char>, b: Seq<char>) -> bool {
    begins(a, b) || exists|k: int| smaller_at(a, b, k)
}

/// Whether `a` comes no later than `b` in dictionary order.
pub fn comes_no_later(a: &Vec<char>, b: &Vec<char>) -> (le: bool)
    ensures
        le == lex_le(a@, b@),
{
    let mut i: usize = 0;
    while i < a.len() && i < b.len() && a[i] == b[i]
        invariant
            i <= a.len(),
            i <= b.len(),
            agree_before(a@, b@, i as int),
        decreases a.len() - i,
    {
        i = i + 1;
    }
    if i == a.len() {
        true
    } else if i == b.len() {
        assert forall|k: int| !smaller_at(a@, b@, k) by {}
        false
    } else if a[i] < b[i] {
        assert(smaller_at(a@, b@, i as int));
        true
    } else {
        assert forall|k: int| !smaller_at(a@, b@, k) by {
            if i < k && k < a.len() && k < b.len() && agree_before(a@, b@, k) {
                assert(a@[i as int] == b@[i as int]);
            }
        }
        false
    }
}

/// Dictionary order leaves no two texts unordered.
pub proof fn lemma_lex_total(a: Seq<char>, b: Seq<char>)
    ensures
        lex_le(a, b) || lex_le(b, a),
{
    lemma_first_difference(a, b, 0);
    let k = first_difference(a, b, 0);
    if k == a.len() {
        assert(begins(a, b));
    } else if k == b.len() {
        assert(begins(b, a));
    } else if a[k] < b[k] {
        assert(smaller_at(a, b, k));
    } else {
        assert(smaller_at(b, a, k));
    }
}

/// Every text comes no later than itself.
pub proof fn lemma_lex_reflexive(a: Seq<char>)
    ensures
        lex_le(a, a),
{
    assert(begins(a, a));
}

/// Dictionary order is transitive.
pub proof fn lemma_lex_transitive(a: Seq<char>, b: Seq<char>, c: Seq<char>)
    requires
        lex_le(a, b),
        lex_le(b, c),
    ensures
        lex_le(a, c),
{
    if begins(a, b) {
        if begins(b, c) {
            assert(begins(a, c));
        } else {
            let k = choose|k: int| smaller_at(b, c, k);
            if k < a.len() {
                assert(smaller_at(a, c, k));
            } else {
                assert(begins(a, c));
            }
        }
    } else {
        let k1 = choose|k: int| smaller_at(a, b, k);
        if begins(b, c) {
            assert(smaller_at(a, c, k1));
        } else {
            let k2 = choose|k: int| smaller_at(b, c, k);
            if k1 <= k2 {
                assert(smaller_at(a, c, k1));
            } else {
                assert(smaller_at(a, c, k2));
            }
        }
    }
}

/// Two texts that come no later than each other are the same text.
pub proof fn lemma_lex_antisymmetric(a: Seq<char>, b: Seq<char>)
    requires
        lex_le(a, b),
        lex_le(b, a),
    ensures
        a == b,
{
    if begins(a, b) {
        if begins(b, a) {
            assert(a =~= b);
        } else {
            let k = choose|k: int| smaller_at(b, a, k);
            assert(a[k] == b[k]);
        }
    } else {
        let k1 = choose|k: int| smaller_at(a, b, k);
        if begins(b, a) {
            assert(b[k1] == a[k1]);
        } else {
            let k2 = choose|k: int| smaller_at(b, a, k);
            if k1 < k2 {
                assert(b[k1] == a[k1]);
            } else if k2 < k1 {
                assert(a[k2] == b[k2]);
            }
        }
    }
}

/// The first position from `i` on at which `a` and `b` differ or one of them
/// ends.
pub open spec fn first_difference(a: Seq<char>, b: Seq<char>, i: int) -> int
    decreases a.len() - i,
{
    if 0 <= i < a.len() && i < b.len() && a[i] == b[i] {
        first_difference(a, b, i + 1)
    } else {
        i
    }
}

proof fn lemma_first_difference(a: Seq<char>, b: Seq<char>, i: int)
    requires
        0 <= i <= a.len(),
        i <= b.len(),
        agree_before(a, b, i),
    ensures
        i <= first_difference(a, b, i) <= a.len(),
        first_difference(a, b, i) <= b.len(),
        agree_before(a, b, first_difference(a, b, i)),
        ({
            let k = first_difference(a, b, i);
            k < a.len() && k < b.len() ==> a[k] != b[k]
        }),
    decreases a.len() - i,
{
    if i < a.len() && i < b.len() && a[i] == b[i] {
        lemma_first_difference(a, b, i + 1);
    }
}

/// The lower-case form of a text as `str::to_lowercase` gives it, by the rules
/// of Unicode.
pub uninterp spec fn lowercase_of(text: Seq<char>) -> Seq<char>;

/// Calls `str::to_lowercase`.
///
/// Believed: the result depends on the text alone, and is from here on called
/// `lowercase_of`. Which characters it changes is left to the standard library.
#[verifier::external_body]
pub(crate) fn lowercase(text: &str) -> (lower: String)
    ensures
        lower@ == lowercase_of(text@),
{
    text.to_lowercase()
}

} // verus!

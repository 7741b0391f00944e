//! Looking for one text inside another.
use vstd::prelude::*;

use crate::text::{chars_of, string_of};

verus! {

/// Does `pattern` stand in `s` at `at`?
pub open spec fn occurs_at(s: Seq<char>, pattern: Seq<char>, at: int) -> bool {
    &&& 0 <= at
    &&& at + pattern.len() <= s.len()
    &&& s.subrange(at, at + pattern.len()) == pattern
}

/// Does `pattern` stand anywhere in `s`?
pub open spec fn holds(s: Seq<char>, pattern: Seq<char>) -> bool {
    exists|at: int| #[trigger] occurs_at(s, pattern, at)
}

/// Is `at` the first place at or after `from` where `pattern` stands in `s`?
pub open spec fn first_at(s: Seq<char>, pattern: Seq<char>, from: int, at: int) -> bool {
    &&& from <= at
    &&& occurs_at(s, pattern, at)
    &&& forall|j: int| from <= j < at ==> !#[trigger] occurs_at(s, pattern, j)
}

/// Does `pattern` stand in the text at `at`?
pub fn stands_at(chars: &[char], pattern: &[char], at: usize) -> (r: bool)
    ensures
        r == occurs_at(chars@, pattern@, at as int),
{
    if at > chars.len() || pattern.len() > chars.len() - at {
        return false;
    }
    let room: usize = chars.len();
    let mut i: usize = 0;
    while i < pattern.len()
        invariant
            at + pattern@.len() <= room == chars@.len(),
            i <= pattern@.len(),
            forall|j: int| 0 <= j < i ==> chars@[at + j] == pattern@[j],
        decreases pattern@.len() - i,
    {
        if chars[at + i] != pattern[i] {
            proof {
                assert(chars@.subrange(at as int, at + pattern@.len())[i as int] != pattern@[i as int]);
            }
            return false;
        }
        i += 1;
    }
    proof {
        assert(chars@.subrange(at as int, at + pattern@.len()) =~= pattern@);
    }
    true
}

/// The first place at or after `from` where the pattern stands.
pub fn find_from(chars: &[char], pattern: &[char], from: usize) -> (r: Option<usize>)
    ensures
        (r matches Some(at) ==> first_at(chars@, pattern@, from as int, at as int)),
        r is None ==> forall|at: int| from <= at ==> !#[trigger] occurs_at(chars@, pattern@, at),
{
    let mut at: usize = from;
    while at <= chars.len()
        invariant
            from <= at,
            forall|j: int| from <= j < at ==> !#[trigger] occurs_at(chars@, pattern@, j),
        decreases chars@.len() + 1 - at,
    {
        if stands_at(chars, pattern, at) {
            return Some(at);
        }
        if at == chars.len() {
            return None;
        }
        at += 1;
    }
    None
}

/// Where the pattern first stands in `s`, if anywhere.
pub open spec fn first_place(s: Seq<char>, pattern: Seq<char>) -> Option<int> {
    if holds(s, pattern) {
        Some(choose|at: int| first_at(s, pattern, 0, at))
    } else {
        None
    }
}

/// There is one first place at most.
pub proof fn lemma_first_place(s: Seq<char>, pattern: Seq<char>, at: int)
    requires
        first_at(s, pattern, 0, at),
    ensures
        first_place(s, pattern) == Some(at),
{
    let found = choose|k: int| first_at(s, pattern, 0, k);
    assert(first_at(s, pattern, 0, found));
    if found < at {
        assert(!occurs_at(s, pattern, found));
    } else if at < found {
        assert(!occurs_at(s, pattern, at));
    }
}

/// Finds where the pattern first stands.
pub fn find(chars: &[char], pattern: &[char]) -> (r: Option<usize>)
    ensures
        (r matches Some(at) ==> first_place(chars@, pattern@) == Some(at as int) && first_at(
            chars@,
            pattern@,
            0,
            at as int,
        )),
        r is None ==> first_place(chars@, pattern@) is None,
{
    match find_from(chars, pattern, 0) {
        Some(at) => {
            proof {
                lemma_first_place(chars@, pattern@, at as int);
            }
            Some(at)
        },
        None => None,
    }
}

/// Does the pattern stand anywhere in the text?
pub fn contains(text: &str, pattern: &str) -> (r: bool)
    ensures
        r == holds(text@, pattern@),
{
    find(&chars_of(text), &chars_of(pattern)).is_some()
}

/// Does `s` begin with `prefix`?
pub open spec fn begins(s: Seq<char>, prefix: Seq<char>) -> bool {
    occurs_at(s, prefix, 0)
}

/// Does `s` end with `suffix`?
pub open spec fn ends(s: Seq<char>, suffix: Seq<char>) -> bool {
    occurs_at(s, suffix, s.len() - suffix.len())
}

/// Does the text begin with the prefix?
pub fn starts_with(text: &str, prefix: &str) -> (r: bool)
    ensures
        r == begins(text@, prefix@),
{
    stands_at(&chars_of(text), &chars_of(prefix), 0)
}

/// The character with `A`..`Z` turned to lower case.
pub open spec fn lower(c: char) -> char {
    if 'A' <= c <= 'Z' {
        (c as u32 + 32) as char
    } else {
        c
    }
}

/// The text with `A`..`Z` turned to lower case.
pub open spec fn lowered(s: Seq<char>) -> Seq<char> {
    Seq::new(s.len(), |i: int| lower(s[i]))
}

/// Turns `A`..`Z` to lower case.
pub fn to_lower(chars: &[char]) -> (r: Vec<char>)
    ensures
        r@ == lowered(chars@),
{
    let mut out: Vec<char> = Vec::new();
    let mut i: usize = 0;
    while i < chars.len()
        invariant
            i <= chars@.len(),
            out@.len() == i,
            forall|j: int| 0 <= j < i ==> out@[j] == lower(chars@[j]),
        decreases chars@.len() - i,
    {
        let c = chars[i];
        let low: char = if 'A' <= c && c <= 'Z' {
            (c as u8 + 32) as char
        } else {
            c
        };
        out.push(low);
        i += 1;
    }
    proof {
        assert(out@ =~= lowered(chars@));
    }
    out
}

/// [`to_lower`] on a text.
pub fn lower_text(text: &str) -> (r: String)
    ensures
        r@ == lowered(text@),
{
    string_of(&to_lower(&chars_of(text)))
}

/// A text is found wherever it stands, and only where it stands: at the beginning, at the end, or
/// with something on either side. The first place is the one that no other is before.
pub proof fn a_text_is_found_where_it_stands(
    before: Seq<char>,
    pattern: Seq<char>,
    after: Seq<char>,
)
    ensures
        holds(before + pattern + after, pattern),
        begins(pattern + after, pattern),
        ends(before + pattern, pattern),
        (forall|k: int|
            0 <= k < before.len() ==> #[trigger] (before + pattern + after).subrange(
                k,
                k + pattern.len(),
            ) != pattern) ==> first_place(before + pattern + after, pattern) == Some(
            before.len() as int,
        ),
{
    let s = before + pattern + after;
    let n = before.len() as int;
    assert(s.subrange(n, n + pattern.len()) =~= pattern);
    assert(occurs_at(s, pattern, n));
    assert((pattern + after).subrange(0, pattern.len() as int) =~= pattern);
    assert((before + pattern).subrange(n, n + pattern.len()) =~= pattern);
    if forall|k: int|
        0 <= k < before.len() ==> #[trigger] s.subrange(k, k + pattern.len()) != pattern {
        assert forall|j: int| 0 <= j < n implies !#[trigger] occurs_at(s, pattern, j) by {
            assert(s.subrange(j, j + pattern.len()) != pattern);
        }
        lemma_first_place(s, pattern, n);
    }
}

/// What is found stands there.
pub proof fn what_is_found_stands_there(s: Seq<char>, pattern: Seq<char>)
    ensures
        holds(s, pattern) <==> exists|before: Seq<char>, after: Seq<char>|
            s == #[trigger] (before + pattern + after),
        begins(s, pattern) <==> exists|after: Seq<char>| s == #[trigger] (pattern + after),
        ends(s, pattern) <==> exists|before: Seq<char>| s == #[trigger] (before + pattern),
{
    if holds(s, pattern) {
        let at = choose|at: int| #[trigger] occurs_at(s, pattern, at);
        let before = s.subrange(0, at);
        let after = s.subrange(at + pattern.len(), s.len() as int);
        assert(s =~= before + s.subrange(at, at + pattern.len()) + after);
        assert(s == before + pattern + after);
    }
    if exists|before: Seq<char>, after: Seq<char>| s == #[trigger] (before + pattern + after) {
        let (before, after) = choose|before: Seq<char>, after: Seq<char>|
            s == #[trigger] (before + pattern + after);
        a_text_is_found_where_it_stands(before, pattern, after);
    }
    if begins(s, pattern) {
        let after = s.subrange(pattern.len() as int, s.len() as int);
        assert(s =~= s.subrange(0, pattern.len() as int) + after);
        assert(s == pattern + after);
    }
    if exists|after: Seq<char>| s == #[trigger] (pattern + after) {
        let after = choose|after: Seq<char>| s == #[trigger] (pattern + after);
        a_text_is_found_where_it_stands(Seq::empty(), pattern, after);
    }
    if ends(s, pattern) {
        let before = s.subrange(0, s.len() - pattern.len());
        assert(s =~= before + s.subrange(s.len() - pattern.len(), s.len() as int));
        assert(s == before + pattern);
    }
    if exists|before: Seq<char>| s == #[trigger] (before + pattern) {
        let before = choose|before: Seq<char>| s == #[trigger] (before + pattern);
        a_text_is_found_where_it_stands(before, pattern, Seq::empty());
    }
}

} // verus!

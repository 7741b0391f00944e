//! Text as sequences of characters: trimming, splitting, searching, numbers.
//!
//! Every rule of the shell that reads or writes text is stated over `Seq<char>`, the view of
//! `str` and `String`. The functions here do the work on character vectors and are proved
//! against short recursive definitions.
use vstd::prelude::*;

verus! {

/// `String::push` of std: appends the character to the end of the text and changes nothing else.
pub assume_specification[ String::push ](text: &mut String, c: char)
    ensures
        final(text)@ == old(text)@.push(c),
;

/// The characters of a text.
pub fn chars_of(text: &str) -> (r: Vec<char>)
    ensures
        r@ == text@,
{
    let mut out: Vec<char> = Vec::new();
    for c in iter: text.chars()
        invariant
            iter.seq() == text@,
            out@ == text@.subrange(0, iter.index() as int),
    {
        out.push(c);
        proof {
            assert(out@ =~= text@.subrange(0, iter.index() + 1));
        }
    }
    proof {
        assert(text@.subrange(0, text@.len() as int) =~= text@);
    }
    out
}

/// The text made of the given characters.
pub fn string_of(chars: &[char]) -> (r: String)
    ensures
        r@ == chars@,
{
    let mut out = String::new();
    let mut i: usize = 0;
    while i < chars.len()
        invariant
            i <= chars.len(),
            out@ == chars@.subrange(0, i as int),
        decreases chars.len() - i,
    {
        out.push(chars[i]);
        proof {
            assert(out@ =~= chars@.subrange(0, i + 1));
        }
        i += 1;
    }
    proof {
        assert(chars@.subrange(0, chars@.len() as int) =~= chars@);
    }
    out
}

/// The characters at positions `from..to`.
pub fn piece(chars: &[char], from: usize, to: usize) -> (r: Vec<char>)
    requires
        from <= to <= chars@.len(),
    ensures
        r@ == chars@.subrange(from as int, to as int),
{
    let mut out: Vec<char> = Vec::new();
    let mut i: usize = from;
    while i < to
        invariant
            from <= i <= to <= chars@.len(),
            out@ == chars@.subrange(from as int, i as int),
        decreases to - i,
    {
        out.push(chars[i]);
        proof {
            assert(out@ =~= chars@.subrange(from as int, i + 1));
        }
        i += 1;
    }
    out
}

/// Are the two character sequences the same?
pub fn same(a: &[char], b: &[char]) -> (r: bool)
    ensures
        r == (a@ == b@),
{
    if a.len() != b.len() {
        return false;
    }
    let mut i: usize = 0;
    while i < a.len()
        invariant
            a@.len() == b@.len(),
            i <= a@.len(),
            forall|j: int| 0 <= j < i ==> a@[j] == b@[j],
        decreases a@.len() - i,
    {
        if a[i] != b[i] {
            return false;
        }
        i += 1;
    }
    proof {
        assert(a@ =~= b@);
    }
    true
}

/// Are the two texts the same?
pub fn text_eq(a: &str, b: &str) -> (r: bool)
    ensures
        r == (a@ == b@),
{
    same(&chars_of(a), &chars_of(b))
}

/// An optional text, seen as its characters.
pub open spec fn opt_view(value: Option<String>) -> Option<Seq<char>> {
    match value {
        Some(text) => Some(text@),
        None => None,
    }
}

/// A sequence of texts, seen as their characters.
pub open spec fn texts(values: Seq<String>) -> Seq<Seq<char>> {
    Seq::new(values.len(), |i: int| values[i]@)
}

/// A sequence of character vectors, seen as their characters.
pub open spec fn pieces(values: Seq<Vec<char>>) -> Seq<Seq<char>> {
    Seq::new(values.len(), |i: int| values[i]@)
}

/// Does the optional text hold exactly `other`?
pub fn opt_is(value: &Option<String>, other: &str) -> (r: bool)
    ensures
        r == (opt_view(*value) == Some(other@)),
{
    match value {
        Some(text) => text_eq(text.as_str(), other),
        None => false,
    }
}

/// A copy of an optional text.
pub fn opt_copy(value: &Option<String>) -> (r: Option<String>)
    ensures
        opt_view(r) == opt_view(*value),
{
    match value {
        Some(text) => Some(text.clone()),
        None => None,
    }
}

/// A copy of a list of texts.
pub fn copy_texts(values: &[String]) -> (r: Vec<String>)
    ensures
        texts(r@) == texts(values@),
{
    let mut out: Vec<String> = Vec::new();
    let mut i: usize = 0;
    while i < values.len()
        invariant
            i <= values@.len(),
            out@.len() == i,
            forall|j: int| 0 <= j < i ==> out@[j]@ == values@[j]@,
        decreases values@.len() - i,
    {
        out.push(values[i].clone());
        i += 1;
    }
    proof {
        assert(texts(out@) =~= texts(values@));
    }
    out
}

/// Do the two lists hold the same texts in the same order?
pub fn same_texts(a: &[String], b: &[String]) -> (r: bool)
    ensures
        r == (texts(a@) == texts(b@)),
{
    if a.len() != b.len() {
        proof {
            assert(texts(a@).len() != texts(b@).len());
        }
        return false;
    }
    let mut i: usize = 0;
    while i < a.len()
        invariant
            a@.len() == b@.len(),
            i <= a@.len(),
            forall|j: int| 0 <= j < i ==> a@[j]@ == b@[j]@,
        decreases a@.len() - i,
    {
        if !text_eq(a[i].as_str(), b[i].as_str()) {
            proof {
                assert(texts(a@)[i as int] != texts(b@)[i as int]);
            }
            return false;
        }
        i += 1;
    }
    proof {
        assert(texts(a@) =~= texts(b@));
    }
    true
}

/// Is `wanted` one of the texts?
pub fn lists(values: &[String], wanted: &str) -> (r: bool)
    ensures
        r == texts(values@).contains(wanted@),
{
    let mut i: usize = 0;
    while i < values.len()
        invariant
            i <= values@.len(),
            forall|j: int| 0 <= j < i ==> values@[j]@ != wanted@,
        decreases values@.len() - i,
    {
        if text_eq(values[i].as_str(), wanted) {
            proof {
                assert(texts(values@)[i as int] == wanted@);
            }
            return true;
        }
        i += 1;
    }
    false
}

/// Unicode's `White_Space` property.
pub open spec fn is_white(c: char) -> bool {
    let n = c as u32;
    ||| 0x9 <= n <= 0xd
    ||| n == 0x20
    ||| n == 0x85
    ||| n == 0xa0
    ||| n == 0x1680
    ||| 0x2000 <= n <= 0x200a
    ||| n == 0x2028
    ||| n == 0x2029
    ||| n == 0x202f
    ||| n == 0x205f
    ||| n == 0x3000
}

/// Is the character white space?
pub fn white(c: char) -> (r: bool)
    ensures
        r == is_white(c),
{
    let n: u32 = c as u32;
    (0x9 <= n && n <= 0xd) || n == 0x20 || n == 0x85 || n == 0xa0 || n == 0x1680
        || (0x2000 <= n && n <= 0x200a) || n == 0x2028 || n == 0x2029 || n == 0x202f || n == 0x205f
        || n == 0x3000
}

/// The text without its leading white space.
pub open spec fn without_leading_white(s: Seq<char>) -> Seq<char>
    decreases s.len(),
{
    if s.len() > 0 && is_white(s[0]) {
        without_leading_white(s.subrange(1, s.len() as int))
    } else {
        s
    }
}

/// The text without its trailing white space.
pub open spec fn without_trailing_white(s: Seq<char>) -> Seq<char>
    decreases s.len(),
{
    if s.len() > 0 && is_white(s.last()) {
        without_trailing_white(s.drop_last())
    } else {
        s
    }
}

/// The text without the white space around it.
pub open spec fn trimmed(s: Seq<char>) -> Seq<char> {
    without_trailing_white(without_leading_white(s))
}

/// Removes the white space at the end.
pub fn trim_end(chars: &[char]) -> (r: Vec<char>)
    ensures
        r@ == without_trailing_white(chars@),
{
    let mut end: usize = chars.len();
    proof {
        assert(chars@.subrange(0, end as int) =~= chars@);
    }
    while end > 0 && white(chars[end - 1])
        invariant
            end <= chars@.len(),
            without_trailing_white(chars@.subrange(0, end as int)) == without_trailing_white(chars@),
        decreases end,
    {
        proof {
            let s = chars@.subrange(0, end as int);
            assert(s.drop_last() =~= chars@.subrange(0, end - 1));
        }
        end -= 1;
    }
    piece(chars, 0, end)
}

/// Removes the white space around the text.
pub fn trim(chars: &[char]) -> (r: Vec<char>)
    ensures
        r@ == trimmed(chars@),
{
    let mut start: usize = 0;
    proof {
        assert(chars@.subrange(0, chars@.len() as int) =~= chars@);
    }
    while start < chars.len() && white(chars[start])
        invariant
            start <= chars@.len(),
            without_leading_white(chars@.subrange(start as int, chars@.len() as int))
                == without_leading_white(chars@),
        decreases chars@.len() - start,
    {
        proof {
            let s = chars@.subrange(start as int, chars@.len() as int);
            assert(s.subrange(1, s.len() as int) =~= chars@.subrange(
                start + 1,
                chars@.len() as int,
            ));
        }
        start += 1;
    }
    let rest = piece(chars, start, chars.len());
    trim_end(&rest)
}

/// [`trim`] on a text.
pub fn trim_text(text: &str) -> (r: String)
    ensures
        r@ == trimmed(text@),
{
    string_of(&trim(&chars_of(text)))
}

/// The text without the occurrences of `c` at its start.
pub open spec fn without_leading(s: Seq<char>, c: char) -> Seq<char>
    decreases s.len(),
{
    if s.len() > 0 && s[0] == c {
        without_leading(s.subrange(1, s.len() as int), c)
    } else {
        s
    }
}

/// Removes the occurrences of `c` at the start.
pub fn skip_leading(chars: &[char], c: char) -> (r: Vec<char>)
    ensures
        r@ == without_leading(chars@, c),
{
    let mut start: usize = 0;
    proof {
        assert(chars@.subrange(0, chars@.len() as int) =~= chars@);
    }
    while start < chars.len() && chars[start] == c
        invariant
            start <= chars@.len(),
            without_leading(chars@.subrange(start as int, chars@.len() as int), c)
                == without_leading(chars@, c),
        decreases chars@.len() - start,
    {
        proof {
            let s = chars@.subrange(start as int, chars@.len() as int);
            assert(s.subrange(1, s.len() as int) =~= chars@.subrange(
                start + 1,
                chars@.len() as int,
            ));
        }
        start += 1;
    }
    piece(chars, start, chars.len())
}

/// Two texts after each other.
pub fn glue(a: &str, b: &str) -> (r: String)
    ensures
        r@ == a@ + b@,
{
    let mut out = a.to_owned();
    out.append(b);
    out
}

/// Three texts after each other.
pub fn glue3(a: &str, b: &str, c: &str) -> (r: String)
    ensures
        r@ == a@ + b@ + c@,
{
    let mut out = glue(a, b);
    out.append(c);
    out
}

/// Four texts after each other.
pub fn glue4(a: &str, b: &str, c: &str, d: &str) -> (r: String)
    ensures
        r@ == a@ + b@ + c@ + d@,
{
    let mut out = glue3(a, b, c);
    out.append(d);
    out
}

/// Five texts after each other.
pub fn glue5(a: &str, b: &str, c: &str, d: &str, e: &str) -> (r: String)
    ensures
        r@ == a@ + b@ + c@ + d@ + e@,
{
    let mut out = glue4(a, b, c, d);
    out.append(e);
    out
}

/// A truth value in words.
pub open spec fn truth(value: bool) -> Seq<char> {
    if value {
        "true"@
    } else {
        "false"@
    }
}

/// A truth value in words.
pub fn truth_text(value: bool) -> (r: &'static str)
    ensures
        r@ == truth(value),
{
    if value {
        "true"
    } else {
        "false"
    }
}

/// Leading white space goes, all of it.
pub proof fn lemma_leading_white(pad: Seq<char>, rest: Seq<char>)
    requires
        forall|i: int| 0 <= i < pad.len() ==> is_white(#[trigger] pad[i]),
        rest.len() > 0 ==> !is_white(rest[0]),
    ensures
        without_leading_white(pad + rest) == rest,
    decreases pad.len(),
{
    if pad.len() == 0 {
        assert(pad + rest =~= rest);
    } else {
        let less = pad.subrange(1, pad.len() as int);
        let s = pad + rest;
        assert(s[0] == pad[0]);
        assert(s.subrange(1, s.len() as int) =~= less + rest);
        assert forall|i: int| 0 <= i < less.len() implies is_white(#[trigger] less[i]) by {
            assert(less[i] == pad[i + 1]);
        }
        lemma_leading_white(less, rest);
    }
}

/// Trailing white space goes, all of it.
pub proof fn lemma_trailing_white(rest: Seq<char>, pad: Seq<char>)
    requires
        forall|i: int| 0 <= i < pad.len() ==> is_white(#[trigger] pad[i]),
        rest.len() > 0 ==> !is_white(rest.last()),
    ensures
        without_trailing_white(rest + pad) == rest,
    decreases pad.len(),
{
    if pad.len() == 0 {
        assert(rest + pad =~= rest);
    } else {
        let less = pad.drop_last();
        let s = rest + pad;
        assert(s.last() == pad[pad.len() - 1]);
        assert(s.drop_last() =~= rest + less);
        lemma_trailing_white(rest, less);
    }
}

/// Trimming takes the white space at both ends and nothing else.
pub proof fn trimming_takes_the_ends(before: Seq<char>, s: Seq<char>, after: Seq<char>)
    requires
        forall|i: int| 0 <= i < before.len() ==> crate::redaction::blank(#[trigger] before[i]),
        forall|i: int| 0 <= i < after.len() ==> crate::redaction::blank(#[trigger] after[i]),
        s.len() > 0 ==> !crate::redaction::blank(s[0]) && !crate::redaction::blank(s.last()),
    ensures
        trimmed(before + s + after) == s,
{
    assert forall|i: int| 0 <= i < before.len() implies is_white(#[trigger] before[i]) by {
        assert(crate::redaction::blank(before[i]));
    }
    assert forall|i: int| 0 <= i < after.len() implies is_white(#[trigger] after[i]) by {
        assert(crate::redaction::blank(after[i]));
    }
    if s.len() > 0 {
        let tail = s + after;
        assert(before + s + after =~= before + tail);
        assert(tail[0] == s[0]);
        lemma_leading_white(before, tail);
        lemma_trailing_white(s, after);
    } else {
        let all = before + after;
        assert(before + s + after =~= all + s);
        assert forall|i: int| 0 <= i < all.len() implies is_white(#[trigger] all[i]) by {
            if i < before.len() {
                assert(all[i] == before[i]);
            } else {
                assert(all[i] == after[i - before.len()]);
            }
        }
        lemma_leading_white(all, s);
        assert(without_trailing_white(s) == s);
    }
}

/// A text stands somewhere in a line.
pub open spec fn mentions(line: Seq<char>, part: Seq<char>) -> bool {
    exists|before: Seq<char>, behind: Seq<char>| line == #[trigger] (before + part + behind)
}

/// A text stands in whatever is written around it.
pub proof fn lemma_mentions(before: Seq<char>, part: Seq<char>, behind: Seq<char>)
    ensures
        mentions(before + part + behind, part),
        mentions(before + part, part),
        mentions(part + behind, part),
        mentions(part, part),
{
    let none = Seq::<char>::empty();
    assert(mentions(before + part + behind, part));
    assert(before + part =~= before + part + none);
    assert(part + behind =~= none + part + behind);
    assert(part =~= none + part + none);
}

/// What leads a text is taken from it as often as it stands there, and nothing else.
pub proof fn what_leads_is_taken(s: Seq<char>, c: char)
    ensures
        without_leading(seq![c] + s, c) == without_leading(s, c),
        s.len() == 0 || s[0] != c ==> without_leading(s, c) == s,
{
    let led = seq![c] + s;
    assert(led[0] == c);
    assert(led.subrange(1, led.len() as int) =~= s);
}

} // verus!

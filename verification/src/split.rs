//! Cutting a text at separators: `split`, `lines`, words, and the inverse `join`.
use vstd::prelude::*;

use crate::text::{chars_of, piece, pieces, string_of, texts, white};
#[allow(unused_imports)]
use crate::text::is_white;

verus! {

/// Where `c` first occurs in `s`; the length of `s` where it does not occur.
pub open spec fn position(s: Seq<char>, c: char) -> int
    decreases s.len(),
{
    if s.len() == 0 || s[0] == c {
        0
    } else {
        1 + position(s.subrange(1, s.len() as int), c)
    }
}

/// `position` is the only index with nothing equal to `c` before it and `c` (or the end) at it.
pub proof fn lemma_position(s: Seq<char>, c: char)
    ensures
        0 <= position(s, c) <= s.len(),
        position(s, c) < s.len() ==> s[position(s, c)] == c,
        forall|j: int| 0 <= j < position(s, c) ==> s[j] != c,
    decreases s.len(),
{
    if s.len() == 0 || s[0] == c {
    } else {
        let rest = s.subrange(1, s.len() as int);
        lemma_position(rest, c);
        assert forall|j: int| 0 <= j < position(s, c) implies s[j] != c by {
            if j > 0 {
                assert(rest[j - 1] == s[j]);
            }
        }
    }
}

/// Finds where `c` first occurs.
pub fn position_of(chars: &[char], c: char) -> (r: usize)
    ensures
        r == position(chars@, c),
        r <= chars@.len(),
{
    let mut i: usize = 0;
    while i < chars.len() && chars[i] != c
        invariant
            i <= chars@.len(),
            forall|j: int| 0 <= j < i ==> chars@[j] != c,
        decreases chars@.len() - i,
    {
        i += 1;
    }
    proof {
        lemma_position(chars@, c);
    }
    i
}

/// The parts of `s` between the occurrences of `c`: one more than `c` occurs.
pub open spec fn split(s: Seq<char>, c: char) -> Seq<Seq<char>>
    decreases s.len(),
{
    let p = position(s, c);
    if 0 <= p < s.len() {
        seq![s.subrange(0, p)] + split(s.subrange(p + 1, s.len() as int), c)
    } else {
        seq![s]
    }
}

/// Cuts the text at every `c`.
pub fn split_at_char(chars: &[char], c: char) -> (r: Vec<Vec<char>>)
    ensures
        pieces(r@) == split(chars@, c),
{
    let mut out: Vec<Vec<char>> = Vec::new();
    let mut rest: Vec<char> = piece(chars, 0, chars.len());
    proof {
        assert(chars@.subrange(0, chars@.len() as int) =~= chars@);
        assert(pieces(out@) + split(rest@, c) =~= split(chars@, c));
    }
    loop
        invariant
            pieces(out@) + split(rest@, c) == split(chars@, c),
        decreases rest@.len(),
    {
        let p: usize = position_of(&rest, c);
        let ghost before = pieces(out@);
        if p < rest.len() {
            let head = piece(&rest, 0, p);
            let tail = piece(&rest, p + 1, rest.len());
            out.push(head);
            proof {
                assert(pieces(out@) =~= before + seq![rest@.subrange(0, p as int)]);
                assert(pieces(out@) + split(tail@, c) =~= before + split(rest@, c));
            }
            rest = tail;
        } else {
            out.push(rest);
            proof {
                assert(pieces(out@) =~= before + split(rest@, c));
            }
            return out;
        }
    }
}

/// The line without the carriage return that ends it.
pub open spec fn without_cr(s: Seq<char>) -> Seq<char> {
    if s.len() > 0 && s.last() == '\r' {
        s.drop_last()
    } else {
        s
    }
}

/// The lines of `s`, each without its line end (`\n` or `\r\n`).
pub open spec fn lines(s: Seq<char>) -> Seq<Seq<char>>
    decreases s.len(),
{
    let p = position(s, '\n');
    if 0 <= p < s.len() {
        seq![without_cr(s.subrange(0, p))] + lines(s.subrange(p + 1, s.len() as int))
    } else if s.len() > 0 {
        seq![s]
    } else {
        Seq::empty()
    }
}

/// Cuts the text into its lines.
pub fn lines_of(chars: &[char]) -> (r: Vec<Vec<char>>)
    ensures
        pieces(r@) == lines(chars@),
{
    let mut out: Vec<Vec<char>> = Vec::new();
    let mut rest: Vec<char> = piece(chars, 0, chars.len());
    proof {
        assert(chars@.subrange(0, chars@.len() as int) =~= chars@);
        assert(pieces(out@) + lines(rest@) =~= lines(chars@));
    }
    loop
        invariant
            pieces(out@) + lines(rest@) == lines(chars@),
        decreases rest@.len(),
    {
        let p: usize = position_of(&rest, '\n');
        let ghost before = pieces(out@);
        if p < rest.len() {
            let whole = piece(&rest, 0, p);
            let tail = piece(&rest, p + 1, rest.len());
            let head = if whole.len() > 0 && whole[whole.len() - 1] == '\r' {
                let cut = piece(&whole, 0, whole.len() - 1);
                proof {
                    assert(cut@ =~= whole@.drop_last());
                }
                cut
            } else {
                whole
            };
            out.push(head);
            proof {
                assert(head@ == without_cr(rest@.subrange(0, p as int)));
                assert(pieces(out@) =~= before + seq![without_cr(rest@.subrange(0, p as int))]);
                assert(pieces(out@) + lines(tail@) =~= before + lines(rest@));
            }
            rest = tail;
        } else {
            if rest.len() > 0 {
                out.push(rest);
                proof {
                    assert(pieces(out@) =~= before + lines(rest@));
                }
            } else {
                proof {
                    assert(pieces(out@) =~= before + lines(rest@));
                }
            }
            return out;
        }
    }
}

/// How many characters `s` has before its first white space.
pub open spec fn word_len(s: Seq<char>) -> int
    decreases s.len(),
{
    if s.len() == 0 || is_white(s[0]) {
        0
    } else {
        1 + word_len(s.subrange(1, s.len() as int))
    }
}

proof fn lemma_word_len(s: Seq<char>)
    ensures
        0 <= word_len(s) <= s.len(),
        word_len(s) < s.len() ==> is_white(s[word_len(s)]),
        forall|j: int| 0 <= j < word_len(s) ==> !is_white(s[j]),
    decreases s.len(),
{
    if s.len() == 0 || is_white(s[0]) {
    } else {
        let rest = s.subrange(1, s.len() as int);
        lemma_word_len(rest);
        assert forall|j: int| 0 <= j < word_len(s) implies !is_white(s[j]) by {
            if j > 0 {
                assert(rest[j - 1] == s[j]);
            }
        }
    }
}

/// The words of `s`: its longest runs without white space, in order.
pub open spec fn words(s: Seq<char>) -> Seq<Seq<char>>
    decreases s.len(),
{
    if s.len() == 0 {
        Seq::empty()
    } else if is_white(s[0]) {
        words(s.subrange(1, s.len() as int))
    } else {
        let n = word_len(s);
        if 0 < n <= s.len() {
            seq![s.subrange(0, n)] + words(s.subrange(n, s.len() as int))
        } else {
            Seq::empty()
        }
    }
}

/// Cuts the text into its words.
pub fn words_of(chars: &[char]) -> (r: Vec<Vec<char>>)
    ensures
        pieces(r@) == words(chars@),
{
    let mut out: Vec<Vec<char>> = Vec::new();
    let mut start: usize = 0;
    proof {
        assert(chars@.subrange(0, chars@.len() as int) =~= chars@);
        assert(pieces(out@) + words(chars@) =~= words(chars@));
    }
    while start < chars.len()
        invariant
            start <= chars@.len(),
            pieces(out@) + words(chars@.subrange(start as int, chars@.len() as int)) == words(
                chars@,
            ),
        decreases chars@.len() - start,
    {
        let ghost rest = chars@.subrange(start as int, chars@.len() as int);
        if white(chars[start]) {
            proof {
                assert(rest.subrange(1, rest.len() as int) =~= chars@.subrange(
                    start + 1,
                    chars@.len() as int,
                ));
            }
            start += 1;
        } else {
            let mut end: usize = start + 1;
            while end < chars.len() && !white(chars[end])
                invariant
                    start < end <= chars@.len(),
                    forall|j: int| start <= j < end ==> !is_white(chars@[j]),
                decreases chars@.len() - end,
            {
                end += 1;
            }
            let word = piece(chars, start, end);
            let ghost before = pieces(out@);
            out.push(word);
            proof {
                lemma_word_len(rest);
                let n = word_len(rest);
                assert(n == end - start) by {
                    if n < end - start {
                        assert(rest[n] == chars@[start + n]);
                    } else if n > end - start {
                        assert(rest[end - start] == chars@[end as int]);
                    }
                }
                assert(rest.subrange(0, n) =~= word@);
                let tail = chars@.subrange(end as int, chars@.len() as int);
                assert(rest.subrange(n, rest.len() as int) =~= tail);
                assert(pieces(out@) =~= before + seq![word@]);
                assert(pieces(out@) + words(tail) =~= before + words(rest));
            }
            start = end;
        }
    }
    proof {
        assert(words(chars@.subrange(start as int, chars@.len() as int)) =~= Seq::<
            Seq<char>,
        >::empty());
        assert(pieces(out@) =~= words(chars@));
    }
    out
}

/// The parts with `sep` between each two.
pub open spec fn joined(parts: Seq<Seq<char>>, sep: Seq<char>) -> Seq<char>
    decreases parts.len(),
{
    if parts.len() == 0 {
        Seq::empty()
    } else if parts.len() == 1 {
        parts[0]
    } else {
        joined(parts.drop_last(), sep) + sep + parts.last()
    }
}

/// Writes the parts one after the other with `sep` between each two.
pub fn join(parts: &[String], sep: &str) -> (r: String)
    ensures
        r@ == joined(texts(parts@), sep@),
{
    let mut out = String::new();
    let mut i: usize = 0;
    while i < parts.len()
        invariant
            i <= parts@.len(),
            out@ == joined(texts(parts@).take(i as int), sep@),
        decreases parts@.len() - i,
    {
        let ghost next = texts(parts@).take(i + 1);
        proof {
            assert(next.drop_last() =~= texts(parts@).take(i as int));
            assert(next.last() == parts@[i as int]@);
        }
        if i > 0 {
            out.append(sep);
        }
        out.append(parts[i].as_str());
        proof {
            assert(out@ =~= joined(next, sep@));
        }
        i += 1;
    }
    proof {
        assert(texts(parts@).take(parts@.len() as int) =~= texts(parts@));
    }
    out
}

/// The same texts, each as a `String`.
pub fn strings_of(values: &[Vec<char>]) -> (r: Vec<String>)
    ensures
        texts(r@) == pieces(values@),
{
    let mut out: Vec<String> = Vec::new();
    let mut i: usize = 0;
    while i < values.len()
        invariant
            i <= values@.len(),
            out@.len() == i,
            forall|j: int| 0 <= j < i ==> out@[j]@ == values@[j]@,
        decreases values@.len() - i,
    {
        out.push(string_of(&values[i]));
        i += 1;
    }
    proof {
        assert(texts(out@) =~= pieces(values@));
    }
    out
}

/// [`lines_of`] on a text.
pub fn text_lines(text: &str) -> (r: Vec<String>)
    ensures
        texts(r@) == lines(text@),
{
    strings_of(&lines_of(&chars_of(text)))
}

/// [`words_of`] on a text.
pub fn text_words(text: &str) -> (r: Vec<String>)
    ensures
        texts(r@) == words(text@),
{
    strings_of(&words_of(&chars_of(text)))
}

/// [`split_at_char`] on a text.
pub fn split_text(text: &str, c: char) -> (r: Vec<String>)
    ensures
        texts(r@) == split(text@, c),
{
    strings_of(&split_at_char(&chars_of(text), c))
}

/// Cutting a text at `c` and writing the parts with `c` between them gives the text back.
pub proof fn split_then_join(s: Seq<char>, c: char)
    ensures
        joined(split(s, c), seq![c]) == s,
    decreases s.len(),
{
    lemma_position(s, c);
    let p = position(s, c);
    if p < s.len() {
        let tail = s.subrange(p + 1, s.len() as int);
        split_then_join(tail, c);
        lemma_split_nonempty(tail, c);
        lemma_join_cons(s.subrange(0, p), split(tail, c), seq![c]);
        assert(s =~= s.subrange(0, p) + seq![c] + tail);
    } else {
        assert(split(s, c) =~= seq![s]);
    }
}

/// Cutting a text always gives a part.
pub proof fn lemma_split_nonempty(s: Seq<char>, c: char)
    ensures
        split(s, c).len() > 0,
{
}

/// Joining a list is writing its head, the separator and the rest joined.
pub proof fn lemma_join_cons(head: Seq<char>, rest: Seq<Seq<char>>, sep: Seq<char>)
    requires
        rest.len() > 0,
    ensures
        joined(seq![head] + rest, sep) == head + sep + joined(rest, sep),
    decreases rest.len(),
{
    let all = seq![head] + rest;
    assert(all.last() == rest.last());
    assert(all.drop_last() =~= seq![head] + rest.drop_last());
    if rest.len() == 1 {
        assert(all.drop_last() =~= seq![head]);
        assert(joined(all.drop_last(), sep) == head);
        assert(joined(rest, sep) == rest[0]);
        assert(joined(all, sep) =~= head + sep + rest[0]);
    } else {
        lemma_join_cons(head, rest.drop_last(), sep);
        assert(joined(all, sep) =~= head + sep + joined(rest, sep));
    }
}

/// No part of a cut text holds the separator.
pub proof fn split_parts_hold_no_separator(s: Seq<char>, c: char)
    ensures
        forall|i: int|
            0 <= i < split(s, c).len() ==> !(#[trigger] split(s, c)[i]).contains(c),
    decreases s.len(),
{
    lemma_position(s, c);
    let p = position(s, c);
    if p < s.len() {
        let tail = s.subrange(p + 1, s.len() as int);
        split_parts_hold_no_separator(tail, c);
        assert forall|i: int| 0 <= i < split(s, c).len() implies !(#[trigger] split(
            s,
            c,
        )[i]).contains(c) by {
            if i == 0 {
                assert(split(s, c)[0] =~= s.subrange(0, p));
            } else {
                assert(split(s, c)[i] == split(tail, c)[i - 1]);
            }
        }
    } else {
        assert(split(s, c) =~= seq![s]);
    }
}

proof fn lemma_position_at(head: Seq<char>, c: char, rest: Seq<char>)
    requires
        forall|i: int| 0 <= i < head.len() ==> head[i] != c,
    ensures
        position(head + seq![c] + rest, c) == head.len(),
        position(head, c) == head.len(),
{
    let s = head + seq![c] + rest;
    lemma_position(s, c);
    lemma_position(head, c);
    let p = position(s, c);
    assert(s[head.len() as int] == c);
    if p < head.len() {
        assert(s[p] == head[p]);
    }
}

/// A line goes up to its end, which is a line feed, one with a carriage return before it, or the
/// end of the text; the end does not belong to it, and everything before it does.
pub proof fn a_line_goes_up_to_its_end(line: Seq<char>, rest: Seq<char>)
    requires
        forall|i: int| 0 <= i < line.len() ==> line[i] != '\n',
    ensures
        lines(Seq::empty()) == Seq::<Seq<char>>::empty(),
        line.len() > 0 ==> lines(line) == seq![line],
        line.len() == 0 || line.last() != '\r' ==> lines(line + seq!['\n'] + rest) == seq![line]
            + lines(rest),
        lines(line + seq!['\r', '\n'] + rest) == seq![line] + lines(rest),
{
    lemma_position_at(line, '\n', rest);
    let s = line + seq!['\n'] + rest;
    assert(s.subrange(0, line.len() as int) =~= line);
    assert(s.subrange(line.len() as int + 1, s.len() as int) =~= rest);
    let with_cr = line.push('\r');
    lemma_position_at(with_cr, '\n', rest);
    let t = line + seq!['\r', '\n'] + rest;
    assert(t =~= with_cr + seq!['\n'] + rest);
    assert(t.subrange(0, line.len() as int + 1) =~= with_cr);
    assert(with_cr.drop_last() =~= line);
    assert(t.subrange(line.len() as int + 2, t.len() as int) =~= rest);
}

/// What stands before a line end, and the line end, are cut up by themselves: the lines of the
/// rest follow.
pub proof fn lines_follow_each_other(before: Seq<char>, rest: Seq<char>)
    requires
        before.len() == 0 || before.last() == '\n',
    ensures
        lines(before + rest) == lines(before) + lines(rest),
    decreases before.len(),
{
    if before.len() == 0 {
        assert(before + rest =~= rest);
        assert(lines(before) + lines(rest) =~= lines(rest));
    } else {
        lemma_position(before, '\n');
        let p = position(before, '\n');
        assert(before[before.len() - 1] == '\n');
        let head = before.subrange(0, p);
        let tail = before.subrange(p + 1, before.len() as int);
        lemma_position_at(head, '\n', tail + rest);
        assert(before =~= head + seq!['\n'] + tail);
        let s = before + rest;
        assert(s =~= head + seq!['\n'] + (tail + rest));
        assert(s.subrange(0, p) =~= head);
        assert(s.subrange(p + 1, s.len() as int) =~= tail + rest);
        if tail.len() > 0 {
            assert(tail.last() == before.last());
        }
        lines_follow_each_other(tail, rest);
        assert(lines(s) =~= lines(before) + lines(rest));
    }
}

proof fn lemma_word_len_is(s: Seq<char>, n: int)
    requires
        0 <= n <= s.len(),
        forall|i: int| 0 <= i < n ==> !is_white(#[trigger] s[i]),
        n < s.len() ==> is_white(s[n]),
    ensures
        word_len(s) == n,
{
    lemma_word_len(s);
    let m = word_len(s);
    if m < n {
        assert(!is_white(s[m]));
    }
}

/// White space in front does not count, and a word goes up to the next white space or the end.
pub proof fn words_stand_between_white_space(gap: char, word: Seq<char>, rest: Seq<char>)
    requires
        crate::redaction::blank(gap),
        forall|i: int| 0 <= i < word.len() ==> !crate::redaction::blank(#[trigger] word[i]),
    ensures
        words(Seq::empty()) == Seq::<Seq<char>>::empty(),
        words(seq![gap] + rest) == words(rest),
        word.len() > 0 ==> words(word) == seq![word],
        word.len() > 0 ==> words(word + seq![gap] + rest) == seq![word] + words(rest),
{
    let led = seq![gap] + rest;
    assert(led[0] == gap);
    assert(led.subrange(1, led.len() as int) =~= rest);
    if word.len() > 0 {
        let n = word.len() as int;
        assert forall|i: int| 0 <= i < n implies !is_white(#[trigger] word[i]) by {
            assert(!crate::redaction::blank(word[i]));
        }
        lemma_word_len_is(word, n);
        assert(word.subrange(0, n) =~= word);
        assert(word.subrange(n, n) =~= Seq::<char>::empty());
        assert(!is_white(word[0]));
        assert(words(Seq::<char>::empty()) =~= Seq::<Seq<char>>::empty());
        assert(words(word) =~= seq![word]);
        let s = word + seq![gap] + rest;
        assert forall|i: int| 0 <= i < n implies !is_white(#[trigger] s[i]) by {
            assert(s[i] == word[i]);
        }
        assert(s[n] == gap);
        lemma_word_len_is(s, n);
        assert(s.subrange(0, n) =~= word);
        assert(s.subrange(n, s.len() as int) =~= led);
        assert(!is_white(s[0]));
        assert(words(led) == words(rest));
        assert(words(s) =~= seq![word] + words(led));
    }
}

/// Parts are written one after the other with the separator between each two.
pub proof fn parts_are_written_with_the_separator(
    parts: Seq<Seq<char>>,
    part: Seq<char>,
    sep: Seq<char>,
)
    ensures
        joined(Seq::empty(), sep) == Seq::<char>::empty(),
        joined(seq![part], sep) == part,
        parts.len() > 0 ==> joined(parts.push(part), sep) == joined(parts, sep) + sep + part,
{
    assert(parts.push(part).drop_last() =~= parts);
}

/// A text with `c` in it is cut there: the parts of what stands before come first, and then those
/// of what stands behind.
pub proof fn parts_follow_each_other(before: Seq<char>, c: char, after: Seq<char>)
    ensures
        split(before + seq![c] + after, c) == split(before, c) + split(after, c),
    decreases before.len(),
{
    let s = before + seq![c] + after;
    lemma_position(before, c);
    let p = position(before, c);
    let head = before.subrange(0, p);
    if p < before.len() {
        let tail = before.subrange(p + 1, before.len() as int);
        lemma_position_at(head, c, tail + seq![c] + after);
        assert(s =~= head + seq![c] + (tail + seq![c] + after));
        assert(s.subrange(0, p) =~= head);
        assert(s.subrange(p + 1, s.len() as int) =~= tail + seq![c] + after);
        parts_follow_each_other(tail, c, after);
        assert(split(s, c) =~= split(before, c) + split(after, c));
    } else {
        assert(head =~= before);
        lemma_position_at(before, c, after);
        assert(s.subrange(0, p) =~= before);
        assert(s.subrange(p + 1, s.len() as int) =~= after);
        assert(split(before, c) =~= seq![before]);
        assert(split(s, c) =~= split(before, c) + split(after, c));
    }
}

/// A text without `c` is one part.
pub proof fn a_part_is_whole(s: Seq<char>, c: char)
    requires
        forall|i: int| 0 <= i < s.len() ==> s[i] != c,
    ensures
        split(s, c) == seq![s],
{
    lemma_position(s, c);
}

/// Words that are written with one space between each two are read back as those words.
pub proof fn words_read_back(parts: Seq<Seq<char>>)
    requires
        forall|i: int| 0 <= i < parts.len() ==> (#[trigger] parts[i]).len() > 0,
        forall|i: int, k: int|
            0 <= i < parts.len() && 0 <= k < parts[i].len() ==> !crate::redaction::blank(
                #[trigger] parts[i][k],
            ),
    ensures
        words(joined(parts, seq![' '])) == parts,
    decreases parts.len(),
{
    if parts.len() == 0 {
        words_stand_between_white_space(' ', Seq::empty(), Seq::empty());
        assert(parts =~= Seq::<Seq<char>>::empty());
    } else {
        let first = parts[0];
        assert forall|k: int| 0 <= k < first.len() implies !crate::redaction::blank(
            #[trigger] first[k],
        ) by {
            assert(!crate::redaction::blank(parts[0][k]));
        }
        let rest = parts.subrange(1, parts.len() as int);
        words_stand_between_white_space(' ', first, joined(rest, seq![' ']));
        if parts.len() == 1 {
            assert(parts =~= seq![first]);
        } else {
            assert forall|i: int| 0 <= i < rest.len() implies (#[trigger] rest[i]).len() > 0 by {
                assert(rest[i] == parts[i + 1]);
            }
            assert forall|i: int, k: int|
                0 <= i < rest.len() && 0 <= k < rest[i].len() implies !crate::redaction::blank(
                #[trigger] rest[i][k],
            ) by {
                assert(!crate::redaction::blank(parts[i + 1][k]));
            }
            words_read_back(rest);
            assert(parts =~= seq![first] + rest);
            lemma_join_cons(first, rest, seq![' ']);
        }
    }
}

} // verus!

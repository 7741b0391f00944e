//! Keeping credentials out of the log.
//!
//! Everything that the log receives goes through [`redact`]: the value of a field whose name is
//! one of [`secret_keys`], and the credential behind the word `Bearer`, are replaced by `***`.
use vstd::prelude::*;

use crate::search::{stands_at, to_lower};
#[allow(unused_imports)]
use crate::search::{lower, lowered, occurs_at};
use crate::text::{chars_of, string_of, white};
#[allow(unused_imports)]
use crate::text::is_white;

verus! {

/// What `char::is_alphanumeric` of std answers: is the character alphabetic or numeric in
/// Unicode's sense?
pub uninterp spec fn unicode_alphanumeric(c: char) -> bool;

/// Is the character an ASCII letter or digit?
pub open spec fn ascii_alphanumeric(c: char) -> bool {
    '0' <= c <= '9' || 'A' <= c <= 'Z' || 'a' <= c <= 'z'
}

/// `char::is_alphanumeric` of std. Its answer depends on the character alone; below `U+0080` it
/// is true of the letters and digits of ASCII and of nothing else.
#[verifier::external_body]
fn alphanumeric(c: char) -> (r: bool)
    ensures
        r == unicode_alphanumeric(c),
        (c as u32) < 128 ==> r == ascii_alphanumeric(c),
{
    c.is_alphanumeric()
}

/// The names of fields whose value must never reach the log, in lower case.
pub open spec fn secret_keys() -> Seq<Seq<char>> {
    seq![
        "token"@,
        "api_key"@,
        "apikey"@,
        "api-key"@,
        "authorization"@,
        "cookie"@,
        "set-cookie"@,
        "password"@,
        "passwd"@,
        "secret"@,
        "private_key"@,
        "access_key"@,
        "session_id"@,
    ]
}

/// What stands in the log in place of a credential.
pub open spec fn mask() -> Seq<char> {
    seq!['*', '*', '*']
}

/// Does the character end a value?
pub open spec fn ends_value(c: char) -> bool {
    ||| is_white(c)
    ||| c == '&'
    ||| c == ';'
    ||| c == ','
    ||| c == '"'
    ||| c == '\''
    ||| c == ')'
    ||| c == '}'
    ||| c == ']'
    ||| c == '<'
    ||| c == '>'
    ||| c == '|'
}

/// Does the character separate a field's name from its value?
pub open spec fn is_separator(c: char) -> bool {
    c == '=' || c == ':'
}

/// The first position at or after `at` that holds no white space.
pub open spec fn value_start(s: Seq<char>, at: int) -> int
    decreases s.len() - at,
{
    if 0 <= at < s.len() && is_white(s[at]) {
        value_start(s, at + 1)
    } else {
        at
    }
}

/// The first position at or after `at` that ends a value.
pub open spec fn value_end(s: Seq<char>, at: int) -> int
    decreases s.len() - at,
{
    if 0 <= at < s.len() && !ends_value(s[at]) {
        value_end(s, at + 1)
    } else {
        at
    }
}

/// Is the character part of a word: a letter or digit of ASCII, or beyond it of Unicode?
pub open spec fn word_char(c: char) -> bool {
    if (c as u32) < 128 {
        ascii_alphanumeric(c)
    } else {
        unicode_alphanumeric(c)
    }
}

/// Is the word that starts at `at` no continuation of a longer one?
pub open spec fn starts_word(s: Seq<char>, at: int) -> bool {
    at == 0 || !word_char(s[at - 1])
}

/// Does `word`, in any case, stand at `at`?
pub open spec fn word_at(s: Seq<char>, word: Seq<char>, at: int) -> bool {
    occurs_at(lowered(s), word, at)
}

/// Does a field named `key` stand at `at`, its separator directly behind the name?
pub open spec fn field_at(s: Seq<char>, key: Seq<char>, at: int) -> bool {
    &&& word_at(s, key, at)
    &&& starts_word(s, at)
    &&& at + key.len() < s.len()
    &&& is_separator(s[at + key.len()])
}

/// Where the value of the field at `at` starts.
pub open spec fn field_value(s: Seq<char>, key: Seq<char>, at: int) -> int {
    value_start(s, at + key.len() + 1)
}

/// Where the value of the field at `at` ends.
pub open spec fn field_end(s: Seq<char>, key: Seq<char>, at: int) -> int {
    value_end(s, field_value(s, key, at))
}

/// The text from `at` on, with the value of every field named `key` masked.
pub open spec fn field_masked_from(s: Seq<char>, key: Seq<char>, at: int) -> Seq<char>
    decreases s.len() - at,
{
    if at < 0 || at >= s.len() || key.len() == 0 {
        Seq::empty()
    } else if !word_at(s, key, at) {
        seq![s[at]] + field_masked_from(s, key, at + 1)
    } else if field_at(s, key, at) {
        proof {
            lemma_value_start(s, at + key.len() + 1);
            lemma_value_end(s, field_value(s, key, at));
        }
        s.subrange(at, field_value(s, key, at)) + mask() + field_masked_from(
            s,
            key,
            field_end(s, key, at),
        )
    } else {
        s.subrange(at, at + key.len()) + field_masked_from(s, key, at + key.len())
    }
}

/// The text with the value of every field named `key` masked.
pub open spec fn field_masked(s: Seq<char>, key: Seq<char>) -> Seq<char> {
    field_masked_from(s, key, 0)
}

/// The scheme word in front of a credential.
pub open spec fn bearer() -> Seq<char> {
    "bearer"@
}

/// The text from `at` on, with the word `Bearer` and the credential behind it masked.
pub open spec fn bearer_masked_from(s: Seq<char>, at: int) -> Seq<char>
    decreases s.len() - at,
{
    let after = at + bearer().len();
    let end = value_end(s, value_start(s, after));
    if at < 0 || at >= s.len() || bearer().len() == 0 {
        Seq::empty()
    } else if !word_at(s, bearer(), at) {
        seq![s[at]] + bearer_masked_from(s, at + 1)
    } else if starts_word(s, at) {
        proof {
            lemma_value_start(s, after as int);
            lemma_value_end(s, value_start(s, after as int));
        }
        mask() + bearer_masked_from(s, end)
    } else {
        s.subrange(at, after) + bearer_masked_from(s, after)
    }
}

/// The text with the fields named by the first `n` keys masked, one after the other.
pub open spec fn fields_masked(s: Seq<char>, keys: Seq<Seq<char>>, n: int) -> Seq<char>
    decreases n,
{
    if n <= 0 {
        s
    } else {
        field_masked(fields_masked(s, keys, n - 1), keys[n - 1])
    }
}

/// What the log receives of a line.
pub open spec fn redacted(line: Seq<char>) -> Seq<char> {
    fields_masked(bearer_masked_from(line, 0), secret_keys(), secret_keys().len() as int)
}

/// What [`value_start`] gives.
pub proof fn lemma_value_start(s: Seq<char>, at: int)
    requires
        0 <= at <= s.len(),
    ensures
        at <= value_start(s, at) <= s.len(),
        forall|j: int| at <= j < value_start(s, at) ==> is_white(#[trigger] s[j]),
        value_start(s, at) < s.len() ==> !is_white(s[value_start(s, at)]),
    decreases s.len() - at,
{
    if at < s.len() && is_white(s[at]) {
        lemma_value_start(s, at + 1);
    }
}

/// What [`value_end`] gives.
pub proof fn lemma_value_end(s: Seq<char>, at: int)
    requires
        0 <= at <= s.len(),
    ensures
        at <= value_end(s, at) <= s.len(),
        forall|j: int| at <= j < value_end(s, at) ==> !ends_value(#[trigger] s[j]),
        value_end(s, at) < s.len() ==> ends_value(s[value_end(s, at)]),
    decreases s.len() - at,
{
    if at < s.len() && !ends_value(s[at]) {
        lemma_value_end(s, at + 1);
    }
}

fn skip_white(s: &[char], at: usize) -> (r: usize)
    requires
        at <= s@.len(),
    ensures
        r == value_start(s@, at as int),
        at <= r <= s@.len(),
{
    let mut i: usize = at;
    while i < s.len() && white(s[i])
        invariant
            at <= i <= s@.len(),
            value_start(s@, i as int) == value_start(s@, at as int),
        decreases s@.len() - i,
    {
        i += 1;
    }
    i
}

fn ends(c: char) -> (r: bool)
    ensures
        r == ends_value(c),
{
    white(c) || c == '&' || c == ';' || c == ',' || c == '"' || c == '\'' || c == ')' || c == '}'
        || c == ']' || c == '<' || c == '>' || c == '|'
}

fn skip_value(s: &[char], at: usize) -> (r: usize)
    requires
        at <= s@.len(),
    ensures
        r == value_end(s@, at as int),
        at <= r <= s@.len(),
{
    let mut i: usize = at;
    while i < s.len() && !ends(s[i])
        invariant
            at <= i <= s@.len(),
            value_end(s@, i as int) == value_end(s@, at as int),
        decreases s@.len() - i,
    {
        i += 1;
    }
    i
}

fn opens_word(s: &[char], at: usize) -> (r: bool)
    requires
        at < s@.len(),
    ensures
        r == starts_word(s@, at as int),
{
    at == 0 || !alphanumeric(s[at - 1])
}

/// Appends the characters at `from..to`.
fn take(out: &mut Vec<char>, s: &[char], from: usize, to: usize)
    requires
        from <= to <= s@.len(),
    ensures
        final(out)@ == old(out)@ + s@.subrange(from as int, to as int),
{
    let ghost before = out@;
    let mut i: usize = from;
    while i < to
        invariant
            from <= i <= to <= s@.len(),
            out@ == before + s@.subrange(from as int, i as int),
        decreases to - i,
    {
        out.push(s[i]);
        proof {
            assert(out@ =~= before + s@.subrange(from as int, i + 1));
        }
        i += 1;
    }
}

/// Appends the mask.
fn take_mask(out: &mut Vec<char>)
    ensures
        final(out)@ == old(out)@ + mask(),
{
    let ghost before = out@;
    out.push('*');
    out.push('*');
    out.push('*');
    proof {
        assert(out@ =~= before + mask());
    }
}

/// `Bearer <credential>` becomes `***`, whatever field it belongs to.
///
/// This comes before the fields: in `Authorization: Bearer <credential>` the value of the field
/// would otherwise be the word `Bearer`, and the credential would stay.
pub fn redact_bearer(line: &str) -> (r: String)
    ensures
        r@ == bearer_masked_from(line@, 0),
{
    let s = chars_of(line);
    let low = to_lower(&s);
    let word = chars_of("bearer");
    proof {
        reveal_strlit("bearer");
        assert(word@.len() == 6);
    }
    let mut out: Vec<char> = Vec::new();
    let mut at: usize = 0;
    proof {
        assert(out@ + bearer_masked_from(s@, 0) =~= bearer_masked_from(s@, 0));
    }
    while at < s.len()
        invariant
            at <= s@.len(),
            low@ == lowered(s@),
            word@ == bearer(),
            word@.len() == 6,
            out@ + bearer_masked_from(s@, at as int) == bearer_masked_from(s@, 0),
        decreases s@.len() - at,
    {
        let ghost before = out@;
        if !stands_at(&low, &word, at) {
            let c = s[at];
            out.push(c);
            proof {
                assert(out@ + bearer_masked_from(s@, at + 1) =~= before + bearer_masked_from(
                    s@,
                    at as int,
                ));
            }
            at += 1;
        } else {
            let after: usize = at + word.len();
            if opens_word(&s, at) {
                let end: usize = skip_value(&s, skip_white(&s, after));
                take_mask(&mut out);
                proof {
                    assert(out@ + bearer_masked_from(s@, end as int) =~= before
                        + bearer_masked_from(s@, at as int));
                }
                at = end;
            } else {
                take(&mut out, &s, at, after);
                proof {
                    assert(out@ + bearer_masked_from(s@, after as int) =~= before
                        + bearer_masked_from(s@, at as int));
                }
                at = after;
            }
        }
    }
    proof {
        assert(out@ =~= out@ + bearer_masked_from(s@, at as int));
    }
    string_of(&out)
}

/// `key<separator>value` becomes `key<separator>***` for one field name in lower case.
pub fn redact_field(line: &str, key: &str) -> (r: String)
    requires
        key@.len() > 0,
    ensures
        r@ == field_masked(line@, key@),
{
    let s = chars_of(line);
    let low = to_lower(&s);
    let word = chars_of(key);
    let mut out: Vec<char> = Vec::new();
    let mut at: usize = 0;
    proof {
        assert(out@ + field_masked_from(s@, word@, 0) =~= field_masked_from(s@, word@, 0));
    }
    while at < s.len()
        invariant
            at <= s@.len(),
            low@ == lowered(s@),
            word@.len() > 0,
            out@ + field_masked_from(s@, word@, at as int) == field_masked_from(s@, word@, 0),
        decreases s@.len() - at,
    {
        let ghost before = out@;
        if !stands_at(&low, &word, at) {
            let c = s[at];
            out.push(c);
            proof {
                assert(out@ + field_masked_from(s@, word@, at + 1) =~= before + field_masked_from(
                    s@,
                    word@,
                    at as int,
                ));
            }
            at += 1;
        } else {
            let after: usize = at + word.len();
            if opens_word(&s, at) && after < s.len() && (s[after] == '=' || s[after] == ':') {
                let value: usize = skip_white(&s, after + 1);
                let end: usize = skip_value(&s, value);
                take(&mut out, &s, at, value);
                take_mask(&mut out);
                proof {
                    assert(field_at(s@, word@, at as int));
                    assert(out@ + field_masked_from(s@, word@, end as int) =~= before
                        + field_masked_from(s@, word@, at as int));
                }
                at = end;
            } else {
                take(&mut out, &s, at, after);
                proof {
                    assert(!field_at(s@, word@, at as int));
                    assert(out@ + field_masked_from(s@, word@, after as int) =~= before
                        + field_masked_from(s@, word@, at as int));
                }
                at = after;
            }
        }
    }
    proof {
        assert(out@ =~= out@ + field_masked_from(s@, word@, at as int));
    }
    string_of(&out)
}

/// Replaces what a line says of credentials by `***`.
pub fn redact(line: &str) -> (r: String)
    ensures
        r@ == redacted(line@),
{
    let keys: [&str; 13] = [
        "token",
        "api_key",
        "apikey",
        "api-key",
        "authorization",
        "cookie",
        "set-cookie",
        "password",
        "passwd",
        "secret",
        "private_key",
        "access_key",
        "session_id",
    ];
    let ghost views = secret_keys();
    proof {
        lemma_secret_keys();
        assert(forall|j: int| 0 <= j < 13 ==> (#[trigger] keys@[j])@ == views[j]);
    }
    let mut out = redact_bearer(line);
    let ghost start = out@;
    let mut i: usize = 0;
    while i < 13
        invariant
            i <= 13,
            views == secret_keys(),
            views.len() == 13,
            forall|j: int| 0 <= j < 13 ==> (#[trigger] keys@[j])@ == views[j],
            forall|j: int| 0 <= j < 13 ==> plain_key(#[trigger] views[j]),
            out@ == fields_masked(start, views, i as int),
        decreases 13 - i,
    {
        proof {
            assert(plain_key(views[i as int]));
        }
        out = redact_field(out.as_str(), keys[i]);
        i += 1;
    }
    out
}

/// A field name of lower-case letters, `_` and `-` that does not overlap itself.
pub open spec fn plain_key(key: Seq<char>) -> bool {
    &&& key.len() > 0
    &&& forall|i: int| 0 <= i < key.len() ==> plain_char(#[trigger] key[i])
    &&& forall|k: int| 0 < k < key.len() ==> !#[trigger] overlaps_itself(key, k)
}

/// Does the name shifted by `k` agree with itself?
pub open spec fn overlaps_itself(key: Seq<char>, k: int) -> bool {
    forall|i: int| 0 <= i < key.len() - k ==> key[i + k] == #[trigger] key[i]
}

/// A character of a field name.
pub open spec fn plain_char(c: char) -> bool {
    'a' <= c <= 'z' || c == '_' || c == '-'
}

proof fn lemma_plain_key(key: Seq<char>)
    requires
        key.len() > 0,
        forall|i: int| 0 <= i < key.len() ==> plain_char(#[trigger] key[i]),
        forall|k: int|
            0 < k < key.len() ==> (#[trigger] key[k]) != key[0] || (k + 1 < key.len() && key[k + 1]
                != key[1]),
    ensures
        plain_key(key),
{
    assert forall|k: int| 0 < k < key.len() implies !#[trigger] overlaps_itself(key, k) by {
        if key[k] != key[0] {
            assert(key[0 + k] != key[0]);
        } else {
            assert(key[1 + k] != key[1]);
        }
    }
}

/// The names that are masked are plain.
pub proof fn lemma_secret_keys()
    ensures
        secret_keys().len() == 13,
        forall|j: int| 0 <= j < 13 ==> plain_key(#[trigger] secret_keys()[j]),
{
    reveal_strlit("token");
    reveal_strlit("api_key");
    reveal_strlit("apikey");
    reveal_strlit("api-key");
    reveal_strlit("authorization");
    reveal_strlit("cookie");
    reveal_strlit("set-cookie");
    reveal_strlit("password");
    reveal_strlit("passwd");
    reveal_strlit("secret");
    reveal_strlit("private_key");
    reveal_strlit("access_key");
    reveal_strlit("session_id");
    lemma_plain_key("token"@);
    lemma_plain_key("api_key"@);
    lemma_plain_key("apikey"@);
    lemma_plain_key("api-key"@);
    lemma_plain_key("authorization"@);
    lemma_plain_key("cookie"@);
    lemma_plain_key("set-cookie"@);
    lemma_plain_key("password"@);
    lemma_plain_key("passwd"@);
    lemma_plain_key("secret"@);
    lemma_plain_key("private_key"@);
    lemma_plain_key("access_key"@);
    lemma_plain_key("session_id"@);
}

/// Is the value of every field named `key` masked in `s`?
pub open spec fn masked(s: Seq<char>, key: Seq<char>) -> bool {
    forall|at: int| #[trigger] field_at(s, key, at) ==> shows_mask(s, key, at)
}

/// Is the value of the field at `at` the mask?
pub open spec fn shows_mask(s: Seq<char>, key: Seq<char>, at: int) -> bool {
    s.subrange(field_value(s, key, at), field_end(s, key, at)) == mask()
}

/// The first field that the masking meets from `at` on.
spec fn next_field(s: Seq<char>, key: Seq<char>, at: int) -> Option<int>
    decreases s.len() - at,
{
    if at < 0 || at >= s.len() || key.len() == 0 {
        None
    } else if !word_at(s, key, at) {
        next_field(s, key, at + 1)
    } else if field_at(s, key, at) {
        Some(at)
    } else {
        next_field(s, key, at + key.len())
    }
}

/// The masked text is the text up to the next value, the mask, and the rest masked.
proof fn lemma_next_field(s: Seq<char>, key: Seq<char>, at: int)
    requires
        0 <= at <= s.len(),
        plain_key(key),
    ensures
        (next_field(s, key, at) matches Some(p) ==> at <= p && field_at(s, key, p) && (forall|q: int|
            at <= q < p ==> !#[trigger] field_at(s, key, q)) && field_masked_from(s, key, at)
            == s.subrange(at, field_value(s, key, p)) + mask() + field_masked_from(
            s,
            key,
            field_end(s, key, p),
        )),
        next_field(s, key, at) is None ==> (forall|q: int| at <= q ==> !#[trigger] field_at(s, key, q))
            && field_masked_from(s, key, at) == s.subrange(at, s.len() as int),
    decreases s.len() - at,
{
    let low = lowered(s);
    if at == s.len() {
        assert(field_masked_from(s, key, at) =~= s.subrange(at, s.len() as int));
        assert forall|q: int| at <= q implies !#[trigger] field_at(s, key, q) by {}
    } else if !word_at(s, key, at) {
        lemma_next_field(s, key, at + 1);
        assert(!field_at(s, key, at));
        match next_field(s, key, at) {
            Some(p) => {
                lemma_value_start(s, p + key.len() + 1);
                assert(field_masked_from(s, key, at) =~= s.subrange(at, field_value(s, key, p))
                    + mask() + field_masked_from(s, key, field_end(s, key, p)));
            },
            None => {
                assert(field_masked_from(s, key, at) =~= s.subrange(at, s.len() as int));
            },
        }
    } else if field_at(s, key, at) {
    } else {
        let next = at + key.len();
        lemma_next_field(s, key, next);
        assert forall|q: int| at <= q < next implies !#[trigger] field_at(s, key, q) by {
            if q > at && field_at(s, key, q) {
                lemma_no_overlap(s, key, at, q);
            }
        }
        match next_field(s, key, at) {
            Some(p) => {
                lemma_value_start(s, p + key.len() + 1);
                assert(field_masked_from(s, key, at) =~= s.subrange(at, field_value(s, key, p))
                    + mask() + field_masked_from(s, key, field_end(s, key, p)));
                assert forall|q: int| at <= q < p implies !#[trigger] field_at(s, key, q) by {}
            },
            None => {
                assert(field_masked_from(s, key, at) =~= s.subrange(at, s.len() as int));
                assert forall|q: int| at <= q implies !#[trigger] field_at(s, key, q) by {}
            },
        }
    }
}

/// A plain name does not stand at a place inside another place where it stands.
proof fn lemma_no_overlap(s: Seq<char>, key: Seq<char>, at: int, q: int)
    requires
        plain_key(key),
        word_at(s, key, at),
        word_at(s, key, q),
    ensures
        !(at < q < at + key.len()),
{
    let low = lowered(s);
    let k = q - at;
    if 0 < k < key.len() {
        assert forall|i: int| 0 <= i < key.len() - k implies key[i + k] == #[trigger] key[i] by {
            assert(low.subrange(at, at + key.len())[i + k] == low[at + i + k]);
            assert(low.subrange(q, q + key.len())[i] == low[q + i]);
        }
        assert(overlaps_itself(key, k));
    }
}

/// The characters of a name that stands at `at`, one by one.
proof fn lemma_word_chars(s: Seq<char>, key: Seq<char>, at: int)
    requires
        word_at(s, key, at),
        plain_key(key),
    ensures
        0 <= at,
        at + key.len() <= s.len(),
        forall|i: int|
            at <= i < at + key.len() ==> lower(#[trigger] s[i]) == key[i - at] && s[i] != '*'
                && !is_separator(s[i]) && !ends_value(s[i]),
{
    let low = lowered(s);
    assert forall|i: int| at <= i < at + key.len() implies lower(#[trigger] s[i]) == key[i - at]
        && s[i] != '*' && !is_separator(s[i]) && !ends_value(s[i]) by {
        assert(low.subrange(at, at + key.len())[i - at] == low[i]);
        assert(plain_char(key[i - at]));
    }
}

/// A name stands at `at` where its characters do.
proof fn lemma_word_from_chars(s: Seq<char>, key: Seq<char>, at: int)
    requires
        0 <= at,
        at + key.len() <= s.len(),
        forall|i: int| at <= i < at + key.len() ==> lower(#[trigger] s[i]) == key[i - at],
    ensures
        word_at(s, key, at),
{
    let low = lowered(s);
    assert(low.subrange(at, at + key.len()) =~= key) by {
        assert forall|j: int| 0 <= j < key.len() implies low.subrange(at, at + key.len())[j]
            == key[j] by {
            assert(lower(s[at + j]) == key[at + j - at]);
        }
    }
}

/// Where a value starts is decided by the characters there.
proof fn lemma_value_start_is(s: Seq<char>, at: int, r: int)
    requires
        0 <= at <= r <= s.len(),
        forall|j: int| at <= j < r ==> is_white(#[trigger] s[j]),
        r < s.len() ==> !is_white(s[r]),
    ensures
        value_start(s, at) == r,
{
    lemma_value_start(s, at);
    let v = value_start(s, at);
    if v < r {
        assert(is_white(s[v]));
    } else if r < v {
        assert(is_white(s[r]));
    }
}

/// Where a value ends is decided by the characters there.
proof fn lemma_value_end_is(s: Seq<char>, at: int, r: int)
    requires
        0 <= at <= r <= s.len(),
        forall|j: int| at <= j < r ==> !ends_value(#[trigger] s[j]),
        r < s.len() ==> ends_value(s[r]),
    ensures
        value_end(s, at) == r,
{
    lemma_value_end(s, at);
    let v = value_end(s, at);
    if v < r {
        assert(!ends_value(s[v]));
    } else if r < v {
        assert(!ends_value(s[r]));
    }
}

/// Where the mask directly follows the white space behind a field's separator, and the value
/// ends behind it, the field is masked.
proof fn lemma_shows_mask(s: Seq<char>, key: Seq<char>, at: int, v: int)
    requires
        0 <= at,
        at + key.len() + 1 <= v,
        v + 3 <= s.len(),
        forall|j: int| at + key.len() + 1 <= j < v ==> is_white(#[trigger] s[j]),
        s.subrange(v, v + 3) == mask(),
        v + 3 < s.len() ==> ends_value(s[v + 3]),
    ensures
        shows_mask(s, key, at),
{
    assert(s[v] == s.subrange(v, v + 3)[0]);
    assert(s[v + 1] == s.subrange(v, v + 3)[1]);
    assert(s[v + 2] == s.subrange(v, v + 3)[2]);
    lemma_value_start_is(s, at + key.len() + 1, v);
    assert forall|j: int| v <= j < v + 3 implies !ends_value(#[trigger] s[j]) by {}
    lemma_value_end_is(s, v, v + 3);
}

/// Does a field named `key` stand in `t` at `m`, where `first` says whether a word may start at
/// the beginning of `t`?
spec fn field_in(t: Seq<char>, key: Seq<char>, m: int, first: bool) -> bool {
    &&& word_at(t, key, m)
    &&& (m == 0 ==> first)
    &&& (m > 0 ==> !word_char(t[m - 1]))
    &&& m + key.len() < t.len()
    &&& is_separator(t[m + key.len()])
}

/// The first character of what is masked from the end of a value on ends that value.
proof fn lemma_rest_starts(s: Seq<char>, key: Seq<char>, e: int)
    requires
        0 <= e <= s.len(),
        plain_key(key),
        e < s.len() ==> ends_value(s[e]),
    ensures
        field_masked_from(s, key, e).len() > 0 ==> e < s.len() && field_masked_from(s, key, e)[0]
            == s[e],
        e < s.len() ==> field_masked_from(s, key, e).len() > 0,
{
    if e < s.len() {
        if word_at(s, key, e) {
            lemma_word_chars(s, key, e);
        }
    }
}

/// A field of `a + b` that starts in `b` is a field of `b`, and shows the mask there if it does
/// in `b`.
proof fn lemma_shift(a: Seq<char>, b: Seq<char>, key: Seq<char>, m: int)
    requires
        plain_key(key),
        a.len() <= m,
        field_in(a + b, key, m, true),
        field_in(b, key, m - a.len(), false) || (m == a.len()) ==> (field_in(
            b,
            key,
            m - a.len(),
            false,
        ) && shows_mask(b, key, m - a.len())),
    ensures
        shows_mask(a + b, key, m),
{
    let t = a + b;
    let n = m - a.len();
    lemma_word_chars(t, key, m);
    assert forall|i: int| n <= i < n + key.len() implies lower(#[trigger] b[i]) == key[i - n] by {
        assert(b[i] == t[i + a.len()]);
    }
    lemma_word_from_chars(b, key, n);
    assert(t[m + key.len()] == b[n + key.len()]);
    if n > 0 {
        assert(t[m - 1] == b[n - 1]);
    }
    assert(field_in(b, key, n, false) && shows_mask(b, key, n));
    let v = field_value(b, key, n);
    let e = field_end(b, key, n);
    lemma_value_start(b, n + key.len() + 1);
    lemma_value_end(b, v);
    assert(b.subrange(v, e).len() == 3);
    assert forall|j: int| m + key.len() + 1 <= j < v + a.len() implies is_white(#[trigger] t[j]) by {
        assert(t[j] == b[j - a.len()]);
    }
    assert(t.subrange(v + a.len(), v + a.len() + 3) =~= b.subrange(v, e));
    if v + a.len() + 3 < t.len() {
        assert(t[v + a.len() + 3] == b[e]);
    }
    lemma_shows_mask(t, key, m, v + a.len());
}

/// Masking the fields named `other` leaves every field named `key` masked, where they were, and
/// masks them, where both names are one.
#[verifier::rlimit(40)]
proof fn lemma_masking_keeps(s: Seq<char>, other: Seq<char>, key: Seq<char>, at: int, m: int)
    requires
        plain_key(key),
        plain_key(other),
        0 <= at <= s.len(),
        key == other || masked(s, key),
        field_in(
            field_masked_from(s, other, at),
            key,
            m,
            starts_word(s, at) && (at > 0 ==> at == s.len() || !ends_value(s[at])),
        ),
    ensures
        shows_mask(field_masked_from(s, other, at), key, m),
    decreases s.len() - at,
{
    let t = field_masked_from(s, other, at);
    lemma_next_field(s, other, at);
    lemma_word_chars(t, key, m);
    match next_field(s, other, at) {
        None => {
            // Nothing was masked from here on: the field stands in `s` itself.
            assert(t == s.subrange(at, s.len() as int));
            lemma_field_in_source(s, key, at, t, t.len() as int, m);
            lemma_copy_masked(s, key, at, t, s.len() as int, m);
        },
        Some(p) => {
            let v = field_value(s, other, p);
            let e = field_end(s, other, p);
            lemma_value_start(s, p + other.len() + 1);
            lemma_value_end(s, v);
            let rest = field_masked_from(s, other, e);
            let head = s.subrange(at, v) + mask();
            assert(t =~= head + rest);
            let cut = v - at;
            assert(t[cut] == '*' && t[cut + 1] == '*' && t[cut + 2] == '*');
            lemma_rest_starts(s, other, e);
            if m + key.len() < cut {
                assert forall|i: int| 0 <= i < cut implies t[i] == #[trigger] s[at + i] by {}
                lemma_field_in_source(s, key, at, t, cut, m);
                let q = at + m;
                let w = field_value(s, key, q);
                lemma_value_start(s, q + key.len() + 1);
                lemma_word_chars(s, other, p);
                if key == other {
                    // The field is the one that was masked here.
                    assert(q >= p);
                    if q > p {
                        if q < p + key.len() {
                            lemma_no_overlap(s, key, p, q);
                        } else {
                            lemma_word_chars(s, key, q);
                            if q > p + key.len() {
                                assert(is_white(s[q]));
                            }
                        }
                    }
                    assert(w == v);
                } else {
                    assert(shows_mask(s, key, q));
                    lemma_value_end(s, w);
                    assert(s.subrange(w, field_end(s, key, q)).len() == 3);
                    assert(s[w] == s.subrange(w, w + 3)[0]);
                    assert(s[w + 1] == s.subrange(w, w + 3)[1]);
                    assert(s[w + 2] == s.subrange(w, w + 3)[2]);
                    // Directly before a value stands its separator or white space.
                    assert(v > 0 && (is_separator(s[v - 1]) || is_white(s[v - 1]))) by {
                        if v > p + other.len() + 1 {
                            assert(is_white(s[v - 1]));
                        }
                    }
                }
                if w == v {
                    assert forall|j: int| m + key.len() + 1 <= j < cut implies is_white(
                        #[trigger] t[j],
                    ) by {
                        assert(t[j] == s[at + j]);
                    }
                    assert(t.subrange(cut, cut + 3) =~= mask());
                    lemma_shows_mask(t, key, m, cut);
                } else {
                    if w > v {
                        assert(is_white(s[v]));
                    }
                    assert(w < v);
                    assert(v > w + 3) by {
                        if v == w + 1 || v == w + 2 || v == w + 3 {
                            assert(s[v - 1] == '*');
                        }
                    }
                    assert forall|j: int| m + key.len() + 1 <= j < w - at implies is_white(
                        #[trigger] t[j],
                    ) by {
                        assert(t[j] == s[at + j]);
                    }
                    assert(t.subrange(w - at, w - at + 3) =~= s.subrange(w, w + 3));
                    assert(t[w - at + 3] == s[w + 3]);
                    lemma_shows_mask(t, key, m, w - at);
                }
            } else if m <= cut {
                // The mask would be part of the name or its separator.
                if cut < m + key.len() {
                    assert(t[cut] != '*');
                }
                assert(false);
            } else if m < cut + 3 {
                assert(t[m] == '*');
                assert(false);
            } else {
                let n = m - head.len();
                if n == 0 {
                    assert(t[m] == rest[0]);
                    assert(false);
                }
                assert forall|i: int| n <= i < n + key.len() implies lower(#[trigger] rest[i])
                    == key[i - n] by {
                    assert(rest[i] == t[i + head.len()]);
                }
                lemma_word_from_chars(rest, key, n);
                assert(t[m + key.len()] == rest[n + key.len()]);
                assert(t[m - 1] == rest[n - 1]);
                lemma_masking_keeps(s, other, key, e, n);
                lemma_shift(head, rest, key, m);
            }
        },
    }
}

/// A field of a copy of `s` from `at` on is a field of `s`.
proof fn lemma_field_in_source(
    s: Seq<char>,
    key: Seq<char>,
    at: int,
    t: Seq<char>,
    cut: int,
    m: int,
)
    requires
        plain_key(key),
        0 <= at,
        0 <= cut <= t.len(),
        at + cut <= s.len(),
        forall|i: int| 0 <= i < cut ==> t[i] == #[trigger] s[at + i],
        m + key.len() < cut,
        field_in(t, key, m, starts_word(s, at) && (at > 0 ==> at == s.len() || !ends_value(s[at]))),
    ensures
        field_at(s, key, at + m),
{
    lemma_word_chars(t, key, m);
    let q = at + m;
    assert forall|i: int| q <= i < q + key.len() implies lower(#[trigger] s[i]) == key[i - q] by {
        assert(t[i - at] == s[at + (i - at)]);
    }
    lemma_word_from_chars(s, key, q);
    assert(t[m + key.len()] == s[at + (m + key.len())]);
    if m > 0 {
        assert(t[m - 1] == s[at + (m - 1)]);
    }
}

/// A field of the end of `s` shows the mask where it does in `s`.
proof fn lemma_copy_masked(
    s: Seq<char>,
    key: Seq<char>,
    at: int,
    t: Seq<char>,
    end: int,
    m: int,
)
    requires
        0 <= at <= s.len(),
        end == s.len(),
        t == s.subrange(at, end),
        0 <= m,
        field_at(s, key, at + m),
        masked(s, key),
    ensures
        shows_mask(t, key, m),
{
    let q = at + m;
    assert(shows_mask(s, key, q));
    let w = field_value(s, key, q);
    lemma_value_start(s, q + key.len() + 1);
    lemma_value_end(s, w);
    assert(s.subrange(w, field_end(s, key, q)).len() == 3);
    assert forall|j: int| m + key.len() + 1 <= j < w - at implies is_white(#[trigger] t[j]) by {
        assert(t[j] == s[at + j]);
    }
    assert(t.subrange(w - at, w - at + 3) =~= s.subrange(w, w + 3));
    lemma_shows_mask(t, key, m, w - at);
}

/// Masking the fields of one name masks every one of them.
pub proof fn masking_masks(s: Seq<char>, key: Seq<char>)
    requires
        plain_key(key),
    ensures
        masked(field_masked(s, key), key),
{
    let t = field_masked(s, key);
    assert forall|m: int| #[trigger] field_at(t, key, m) implies shows_mask(t, key, m) by {
        assert(field_in(t, key, m, true));
        lemma_masking_keeps(s, key, key, 0, m);
    }
}

/// Masking the fields of one name keeps those of another masked.
pub proof fn masking_keeps_masks(s: Seq<char>, other: Seq<char>, key: Seq<char>)
    requires
        plain_key(key),
        plain_key(other),
        masked(s, key),
    ensures
        masked(field_masked(s, other), key),
{
    let t = field_masked(s, other);
    assert forall|m: int| #[trigger] field_at(t, key, m) implies shows_mask(t, key, m) by {
        assert(field_in(t, key, m, true));
        lemma_masking_keeps(s, other, key, 0, m);
    }
}

proof fn lemma_fields_masked(s: Seq<char>, keys: Seq<Seq<char>>, n: int, j: int)
    requires
        0 <= j < n <= keys.len(),
        forall|i: int| 0 <= i < keys.len() ==> plain_key(#[trigger] keys[i]),
    ensures
        masked(fields_masked(s, keys, n), keys[j]),
    decreases n,
{
    let before = fields_masked(s, keys, n - 1);
    if j == n - 1 {
        masking_masks(before, keys[j]);
    } else {
        lemma_fields_masked(s, keys, n - 1, j);
        masking_keeps_masks(before, keys[n - 1], keys[j]);
    }
}

/// No line that went through [`redact`] shows the value of a secret field: behind the name of
/// such a field and its separator stands the mask and nothing else.
pub proof fn no_secret_value_survives(line: Seq<char>, j: int)
    requires
        0 <= j < secret_keys().len(),
    ensures
        masked(redacted(line), secret_keys()[j]),
{
    lemma_secret_keys();
    lemma_fields_masked(
        bearer_masked_from(line, 0),
        secret_keys(),
        secret_keys().len() as int,
        j,
    );
}

/// Does the word `Bearer` stand in `s` at `at`, and start a word there?
pub open spec fn bearer_at(s: Seq<char>, at: int) -> bool {
    word_at(s, bearer(), at) && starts_word(s, at)
}

/// Does the word `Bearer` stand in `t` at `m`, where `first` says whether a word may start at the
/// beginning of `t`?
spec fn bearer_in(t: Seq<char>, m: int, first: bool) -> bool {
    &&& word_at(t, bearer(), m)
    &&& (m == 0 ==> first)
    &&& (m > 0 ==> !word_char(t[m - 1]))
}

proof fn lemma_bearer()
    ensures
        plain_key(bearer()),
        bearer().len() == 6,
        forall|i: int| 0 < i < 6 ==> bearer()[i] != 'b',
        bearer()[0] == 'b',
{
    reveal_strlit("bearer");
    lemma_plain_key("bearer"@);
}

/// What was masked begins as its source does, up to the first mask.
proof fn lemma_bearer_prefix(s: Seq<char>, at: int, k: int)
    requires
        0 <= at <= s.len(),
        0 <= k <= bearer_masked_from(s, at).len(),
        forall|i: int| 0 <= i < k ==> #[trigger] bearer_masked_from(s, at)[i] != '*',
    ensures
        at + k <= s.len(),
        forall|i: int| 0 <= i < k ==> #[trigger] bearer_masked_from(s, at)[i] == s[at + i],
    decreases s.len() - at,
{
    lemma_bearer();
    let t = bearer_masked_from(s, at);
    if at < s.len() && k > 0 {
        if !word_at(s, bearer(), at) {
            let rest = bearer_masked_from(s, at + 1);
            assert(t == seq![s[at]] + rest);
            assert forall|i: int| 0 <= i < k - 1 implies #[trigger] rest[i] != '*' by {
                assert(t[i + 1] == rest[i]);
            }
            lemma_bearer_prefix(s, at + 1, k - 1);
            assert forall|i: int| 0 <= i < k implies #[trigger] t[i] == s[at + i] by {
                if i > 0 {
                    assert(t[i] == rest[i - 1]);
                }
            }
        } else if starts_word(s, at) {
            let after = at + bearer().len();
            let end = value_end(s, value_start(s, after));
            assert(t == mask() + bearer_masked_from(s, end));
            assert(t[0] == mask()[0]);
        } else {
            let after = at + bearer().len();
            lemma_word_chars(s, bearer(), at);
            let rest = bearer_masked_from(s, after);
            assert(t == s.subrange(at, after) + rest);
            if k > 6 {
                assert forall|i: int| 0 <= i < k - 6 implies #[trigger] rest[i] != '*' by {
                    assert(t[i + 6] == rest[i]);
                }
                lemma_bearer_prefix(s, after, k - 6);
            }
            assert forall|i: int| 0 <= i < k implies #[trigger] t[i] == s[at + i] by {
                if i >= 6 {
                    assert(t[i] == rest[i - 6]);
                }
            }
        }
    }
}

/// A word of `a + b` that starts in `b` is a word of `b`.
proof fn lemma_bearer_shift(a: Seq<char>, b: Seq<char>, m: int)
    requires
        a.len() > 0,
        a.len() <= m,
        word_at(a + b, bearer(), m),
    ensures
        word_at(b, bearer(), m - a.len()),
{
    lemma_bearer();
    lemma_word_chars(a + b, bearer(), m);
    let q = m - a.len();
    assert forall|i: int| q <= i < q + 6 implies lower(#[trigger] b[i]) == bearer()[i - q] by {
        assert((a + b)[i + a.len()] == b[i]);
    }
    lemma_word_from_chars(b, bearer(), q);
}

/// The word does not stand at a character that ends a value.
proof fn lemma_bearer_start(t: Seq<char>)
    requires
        t.len() > 0 ==> ends_value(t[0]),
    ensures
        !word_at(t, bearer(), 0),
{
    lemma_bearer();
    if word_at(t, bearer(), 0) {
        lemma_word_chars(t, bearer(), 0);
        assert(!ends_value(t[0]));
    }
}

proof fn lemma_bearer_masked(s: Seq<char>, at: int, m: int)
    requires
        0 <= at <= s.len(),
    ensures
        !bearer_in(bearer_masked_from(s, at), m, starts_word(s, at)),
    decreases s.len() - at,
{
    lemma_bearer();
    let t = bearer_masked_from(s, at);
    if bearer_in(t, m, starts_word(s, at)) {
        lemma_word_chars(t, bearer(), m);
        if !word_at(s, bearer(), at) {
            let rest = bearer_masked_from(s, at + 1);
            assert(t == seq![s[at]] + rest);
            if m == 0 {
                lemma_bearer_prefix(s, at, 6);
                assert forall|i: int| at <= i < at + 6 implies lower(#[trigger] s[i])
                    == bearer()[i - at] by {
                    assert(t[i - at] == s[i]);
                }
                lemma_word_from_chars(s, bearer(), at);
            } else {
                lemma_bearer_shift(seq![s[at]], rest, m);
                if m > 1 {
                    assert(t[m - 1] == rest[m - 2]);
                }
                lemma_bearer_masked(s, at + 1, m - 1);
            }
        } else if starts_word(s, at) {
            let after = at + bearer().len();
            lemma_word_chars(s, bearer(), at);
            lemma_value_start(s, after);
            lemma_value_end(s, value_start(s, after));
            let end = value_end(s, value_start(s, after));
            let rest = bearer_masked_from(s, end);
            assert(t == mask() + rest);
            if m < 3 {
                assert(t[m] == mask()[m]);
            } else {
                lemma_bearer_shift(mask(), rest, m);
                if m == 3 {
                    if rest.len() > 0 {
                        assert(rest[0] == s[end]) by {
                            if word_at(s, bearer(), end) {
                                lemma_word_chars(s, bearer(), end);
                            }
                        }
                    }
                    lemma_bearer_start(rest);
                } else {
                    assert(t[m - 1] == rest[m - 4]);
                    lemma_bearer_masked(s, end, m - 3);
                }
            }
        } else {
            let after = at + bearer().len();
            lemma_word_chars(s, bearer(), at);
            let rest = bearer_masked_from(s, after);
            assert(t == s.subrange(at, after) + rest);
            if m < 6 {
                assert(t[m] == s[at + m]);
                assert(lower(t[m]) == bearer()[0]);
            } else {
                lemma_bearer_shift(s.subrange(at, after), rest, m);
                if m > 6 {
                    assert(t[m - 1] == rest[m - 7]);
                } else {
                    assert(t[m - 1] == s[after - 1]);
                }
                lemma_bearer_masked(s, after, m - 6);
            }
        }
    }
}

/// What was masked begins as its source does, up to the first mask.
proof fn lemma_field_prefix(s: Seq<char>, key: Seq<char>, at: int, k: int)
    requires
        plain_key(key),
        0 <= at <= s.len(),
        0 <= k <= field_masked_from(s, key, at).len(),
        forall|i: int| 0 <= i < k ==> #[trigger] field_masked_from(s, key, at)[i] != '*',
    ensures
        at + k <= s.len(),
        forall|i: int| 0 <= i < k ==> #[trigger] field_masked_from(s, key, at)[i] == s[at + i],
    decreases s.len() - at,
{
    let t = field_masked_from(s, key, at);
    if at < s.len() && k > 0 {
        if !word_at(s, key, at) {
            let rest = field_masked_from(s, key, at + 1);
            assert(t == seq![s[at]] + rest);
            assert forall|i: int| 0 <= i < k - 1 implies #[trigger] rest[i] != '*' by {
                assert(t[i + 1] == rest[i]);
            }
            lemma_field_prefix(s, key, at + 1, k - 1);
            assert forall|i: int| 0 <= i < k implies #[trigger] t[i] == s[at + i] by {
                if i > 0 {
                    assert(t[i] == rest[i - 1]);
                }
            }
        } else if field_at(s, key, at) {
            let v = field_value(s, key, at);
            let e = field_end(s, key, at);
            lemma_value_start(s, at + key.len() + 1);
            lemma_value_end(s, v);
            assert(t == s.subrange(at, v) + mask() + field_masked_from(s, key, e));
            if k > v - at {
                assert(t[v - at] == mask()[0]);
            }
        } else {
            let after = at + key.len();
            lemma_word_chars(s, key, at);
            let rest = field_masked_from(s, key, after);
            assert(t == s.subrange(at, after) + rest);
            if k > key.len() {
                assert forall|i: int| 0 <= i < k - key.len() implies #[trigger] rest[i] != '*' by {
                    assert(t[i + key.len()] == rest[i]);
                }
                lemma_field_prefix(s, key, after, k - key.len());
            }
            assert forall|i: int| 0 <= i < k implies #[trigger] t[i] == s[at + i] by {
                if i >= key.len() {
                    assert(t[i] == rest[i - key.len()]);
                }
            }
        }
    }
}

/// A word at the beginning of what was masked from `at` on stands in the source.
proof fn lemma_bearer_in_source(s: Seq<char>, key: Seq<char>, at: int, m: int)
    requires
        plain_key(key),
        0 <= at <= s.len(),
        0 <= m,
        word_at(field_masked_from(s, key, at), bearer(), m),
        forall|i: int| 0 <= i < m ==> #[trigger] field_masked_from(s, key, at)[i] != '*',
    ensures
        word_at(s, bearer(), at + m),
        m > 0 ==> field_masked_from(s, key, at)[m - 1] == s[at + m - 1],
{
    lemma_bearer();
    let t = field_masked_from(s, key, at);
    lemma_word_chars(t, bearer(), m);
    lemma_field_prefix(s, key, at, m + 6);
    assert forall|i: int| at + m <= i < at + m + 6 implies lower(#[trigger] s[i]) == bearer()[i - (
    at + m)] by {
        assert(t[i - at] == s[i]);
    }
    lemma_word_from_chars(s, bearer(), at + m);
}

/// Masking the fields of one name brings no word back.
proof fn lemma_bearer_stays_out(s: Seq<char>, key: Seq<char>, at: int, m: int)
    requires
        plain_key(key),
        0 <= at <= s.len(),
        forall|p: int| !#[trigger] bearer_at(s, p),
    ensures
        !bearer_in(field_masked_from(s, key, at), m, starts_word(s, at)),
    decreases s.len() - at,
{
    lemma_bearer();
    let t = field_masked_from(s, key, at);
    if bearer_in(t, m, starts_word(s, at)) {
        lemma_word_chars(t, bearer(), m);
        if !word_at(s, key, at) {
            let rest = field_masked_from(s, key, at + 1);
            assert(t == seq![s[at]] + rest);
            if m == 0 {
                lemma_bearer_in_source(s, key, at, 0);
                assert(bearer_at(s, at));
            } else {
                lemma_bearer_shift(seq![s[at]], rest, m);
                if m > 1 {
                    assert(t[m - 1] == rest[m - 2]);
                }
                lemma_bearer_stays_out(s, key, at + 1, m - 1);
            }
        } else if field_at(s, key, at) {
            let v = field_value(s, key, at);
            let e = field_end(s, key, at);
            lemma_word_chars(s, key, at);
            lemma_value_start(s, at + key.len() + 1);
            lemma_value_end(s, v);
            let rest = field_masked_from(s, key, e);
            let head = s.subrange(at, v) + mask();
            assert(t == head + rest);
            if m < v - at {
                if m + 6 > v - at {
                    assert(t[v - at] == mask()[0]);
                } else {
                    assert forall|i: int| at + m <= i < at + m + 6 implies lower(#[trigger] s[i])
                        == bearer()[i - (at + m)] by {
                        assert(t[i - at] == s[i]);
                    }
                    lemma_word_from_chars(s, bearer(), at + m);
                    if m > 0 {
                        assert(t[m - 1] == s[at + m - 1]);
                    }
                    assert(bearer_at(s, at + m));
                }
            } else if m < v - at + 3 {
                assert(t[m] == mask()[m - (v - at)]);
            } else {
                lemma_bearer_shift(head, rest, m);
                if m == v - at + 3 {
                    if rest.len() > 0 {
                        assert(rest[0] == s[e]) by {
                            if word_at(s, key, e) {
                                lemma_word_chars(s, key, e);
                                if field_at(s, key, e) {
                                    lemma_value_start(s, e + key.len() + 1);
                                }
                            }
                        }
                    }
                    lemma_bearer_start(rest);
                } else {
                    assert(t[m - 1] == rest[m - 1 - head.len()]);
                    lemma_bearer_stays_out(s, key, e, m - head.len());
                }
            }
        } else {
            let after = at + key.len();
            lemma_word_chars(s, key, at);
            let rest = field_masked_from(s, key, after);
            assert(t == s.subrange(at, after) + rest);
            if m < key.len() {
                assert forall|i: int| 0 <= i < m implies #[trigger] t[i] != '*' by {
                    assert(t[i] == s[at + i]);
                }
                lemma_bearer_in_source(s, key, at, m);
                assert(bearer_at(s, at + m));
            } else {
                lemma_bearer_shift(s.subrange(at, after), rest, m);
                if m > key.len() {
                    assert(t[m - 1] == rest[m - 1 - key.len()]);
                } else {
                    assert(t[m - 1] == s[after - 1]);
                }
                lemma_bearer_stays_out(s, key, after, m - key.len());
            }
        }
    }
}

proof fn lemma_fields_name_no_bearer(s: Seq<char>, keys: Seq<Seq<char>>, n: int, at: int)
    requires
        0 <= n <= keys.len(),
        forall|i: int| 0 <= i < keys.len() ==> plain_key(#[trigger] keys[i]),
        forall|p: int| !#[trigger] bearer_at(s, p),
    ensures
        !bearer_at(fields_masked(s, keys, n), at),
    decreases n,
{
    if n > 0 {
        let before = fields_masked(s, keys, n - 1);
        assert forall|p: int| !#[trigger] bearer_at(before, p) by {
            lemma_fields_name_no_bearer(s, keys, n - 1, p);
        }
        lemma_bearer_stays_out(before, keys[n - 1], 0, at);
    }
}

/// No line that went through [`redact`] names the scheme in front of a credential: wherever the
/// word `Bearer` started a word, it went with what followed it.
pub proof fn no_bearer_credential_survives(line: Seq<char>, at: int)
    ensures
        !bearer_at(redacted(line), at),
{
    let first = bearer_masked_from(line, 0);
    assert forall|p: int| !#[trigger] bearer_at(first, p) by {
        lemma_bearer_masked(line, 0, p);
    }
    lemma_secret_keys();
    lemma_fields_name_no_bearer(first, secret_keys(), secret_keys().len() as int, at);
}

// ---------------------------------------------------------------------------------------------
// What the log says does not depend on the value
// ---------------------------------------------------------------------------------------------

/// Does the text end in a field named `key`, up to its separator?
pub open spec fn ends_in_field(s: Seq<char>, key: Seq<char>) -> bool {
    field_at(s, key, s.len() - key.len() - 1)
}

/// Is `v` the whole value of the field that `p` ends in, where `r` follows? It holds nothing that
/// ends a value, and what follows ends it. Where that is white space, the value ends neither in a
/// separator nor in the scheme word, behind which white space is skipped.
pub open spec fn is_value_between(p: Seq<char>, v: Seq<char>, r: Seq<char>) -> bool {
    &&& fits(v, r)
    &&& r.len() > 0 && is_white(r[0]) ==> !bearer_at(p + v, p.len() + v.len() - bearer().len())
}

/// May the value stand in front of `r`, as far as the fields go?
pub open spec fn fits(v: Seq<char>, r: Seq<char>) -> bool {
    &&& one_piece(v)
    &&& r.len() > 0 ==> ends_value(r[0])
    &&& r.len() > 0 && is_white(r[0]) ==> !is_separator(v.last())
}

/// A value that holds nothing that ends one.
pub open spec fn one_piece(v: Seq<char>) -> bool {
    &&& v.len() > 0
    &&& forall|i: int| 0 <= i < v.len() ==> !ends_value(#[trigger] v[i])
}

/// Is there nothing to mask in the text?
pub open spec fn names_no_secret(s: Seq<char>) -> bool {
    &&& forall|at: int| !#[trigger] bearer_at(s, at)
    &&& forall|j: int, at: int|
        0 <= j < secret_keys().len() ==> !#[trigger] field_at(s, secret_keys()[j], at)
}

/// Does the masking from `at` on end inside the value of a field?
spec fn leaves_open(s: Seq<char>, key: Seq<char>, at: int) -> bool
    decreases s.len() - at,
{
    if at < 0 || at >= s.len() || key.len() == 0 {
        false
    } else if !word_at(s, key, at) {
        leaves_open(s, key, at + 1)
    } else if field_at(s, key, at) {
        proof {
            lemma_value_start(s, at + key.len() + 1);
            lemma_value_end(s, field_value(s, key, at));
        }
        field_end(s, key, at) >= s.len() || leaves_open(s, key, field_end(s, key, at))
    } else {
        leaves_open(s, key, at + key.len())
    }
}

proof fn lemma_word_shift(a: Seq<char>, b: Seq<char>, key: Seq<char>, i: int)
    requires
        0 <= i,
    ensures
        word_at(a + b, key, a.len() + i) == word_at(b, key, i),
{
    let x = lowered(a + b);
    let y = lowered(b);
    if i + key.len() <= b.len() {
        assert(x.subrange(a.len() + i, a.len() + i + key.len()) =~= y.subrange(i, i + key.len()));
    }
}

proof fn lemma_word_prefix(a: Seq<char>, b: Seq<char>, key: Seq<char>, at: int)
    requires
        0 <= at,
        at + key.len() <= a.len(),
    ensures
        word_at(a + b, key, at) == word_at(a, key, at),
{
    assert(lowered(a + b).subrange(at, at + key.len()) =~= lowered(a).subrange(
        at,
        at + key.len(),
    ));
}

proof fn lemma_value_shift(a: Seq<char>, b: Seq<char>, i: int)
    requires
        0 <= i <= b.len(),
    ensures
        value_start(a + b, a.len() + i) == a.len() + value_start(b, i),
        value_end(a + b, a.len() + i) == a.len() + value_end(b, i),
    decreases b.len() - i,
{
    if i < b.len() {
        assert((a + b)[a.len() + i] == b[i]);
        lemma_value_shift(a, b, i + 1);
    }
}

/// Masking from a place behind `a` on is masking in what follows `a`.
proof fn lemma_field_tail(a: Seq<char>, b: Seq<char>, key: Seq<char>, i: int)
    requires
        plain_key(key),
        0 <= i <= b.len(),
        i == 0 && b.len() > 0 ==> ends_value(b[0]),
    ensures
        field_masked_from(a + b, key, a.len() + i) == field_masked_from(b, key, i),
    decreases b.len() - i,
{
    let s = a + b;
    let at = a.len() + i;
    if i < b.len() {
        lemma_word_shift(a, b, key, i);
        assert(s[at] == b[i]);
        if !word_at(b, key, i) {
            lemma_field_tail(a, b, key, i + 1);
        } else {
            lemma_word_chars(b, key, i);
            assert(i > 0);
            assert(s[at - 1] == b[i - 1]);
            if i + key.len() < b.len() {
                assert(s[at + key.len()] == b[i + key.len()]);
            }
            assert(field_at(s, key, at) == field_at(b, key, i));
            if field_at(b, key, i) {
                let v = field_value(b, key, i);
                lemma_value_start(b, i + key.len() + 1);
                lemma_value_end(b, v);
                lemma_value_shift(a, b, i + key.len() + 1);
                lemma_value_shift(a, b, v);
                assert(s.subrange(at, a.len() + v) =~= b.subrange(i, v));
                lemma_field_tail(a, b, key, field_end(b, key, i));
            } else {
                assert(s.subrange(at, at + key.len()) =~= b.subrange(i, i + key.len()));
                lemma_field_tail(a, b, key, i + key.len());
            }
        }
    }
}

/// Where a value lies does not depend on what follows the text that it starts in, if that ends a
/// value.
proof fn lemma_value_cut(a: Seq<char>, r: Seq<char>, from: int)
    requires
        a.len() > 0,
        !is_white(a.last()),
        r.len() > 0 ==> ends_value(r[0]),
        0 <= from <= a.len(),
        from == a.len() && r.len() > 0 ==> !is_white(r[0]),
    ensures
        ({
            let start = value_start(a, from);
            let end = value_end(a, start);
            &&& from <= start <= end <= a.len()
            &&& value_start(a + r, from) == start
            &&& value_end(a + r, start) == end
        }),
{
    let s = a + r;
    lemma_value_start(a, from);
    let start = value_start(a, from);
    lemma_value_end(a, start);
    let end = value_end(a, start);
    assert forall|j: int| from <= j < start implies is_white(#[trigger] s[j]) by {
        assert(s[j] == a[j]);
    }
    if start < a.len() {
        assert(s[start] == a[start]);
    } else {
        if from < start {
            assert(is_white(a[start - 1]));
        }
        if r.len() > 0 {
            assert(s[start] == r[0]);
        }
    }
    lemma_value_start_is(s, from, start);
    assert forall|j: int| start <= j < end implies !ends_value(#[trigger] s[j]) by {
        assert(s[j] == a[j]);
    }
    if end < a.len() {
        assert(s[end] == a[end]);
    } else if r.len() > 0 {
        assert(s[end] == r[0]);
    }
    lemma_value_end_is(s, start, end);
}

/// Text that begins where a value ends is masked by itself.
proof fn lemma_field_cut(a: Seq<char>, r: Seq<char>, key: Seq<char>, at: int)
    requires
        plain_key(key),
        a.len() > 0,
        !is_white(a.last()),
        r.len() > 0 ==> ends_value(r[0]),
        r.len() > 0 && is_white(r[0]) ==> !is_separator(a.last()),
        0 <= at <= a.len(),
    ensures
        field_masked_from(a + r, key, at) == field_masked_from(a, key, at) + field_masked_from(
            r,
            key,
            0,
        ),
    decreases a.len() - at,
{
    let s = a + r;
    let tail = field_masked_from(r, key, 0);
    if at == a.len() {
        lemma_field_tail(a, r, key, 0);
        assert(Seq::<char>::empty() + tail =~= tail);
    } else {
        let after = at + key.len();
        assert(s[at] == a[at]);
        if after > a.len() {
            // What ends a value would be part of the name.
            if word_at(s, key, at) {
                lemma_word_chars(s, key, at);
                assert(s[a.len() as int] == r[0]);
            }
            lemma_field_cut(a, r, key, at + 1);
        } else {
            lemma_word_prefix(a, r, key, at);
            if at > 0 {
                assert(s[at - 1] == a[at - 1]);
            }
            if after < a.len() {
                assert(s[after] == a[after]);
            } else if r.len() > 0 {
                assert(s[after] == r[0]);
            }
            assert(field_at(s, key, at) == field_at(a, key, at));
            if !word_at(a, key, at) {
                lemma_field_cut(a, r, key, at + 1);
            } else if field_at(a, key, at) {
                lemma_value_cut(a, r, after + 1);
                assert(s.subrange(at, field_value(a, key, at)) =~= a.subrange(
                    at,
                    field_value(a, key, at),
                ));
                lemma_field_cut(a, r, key, field_end(a, key, at));
            } else {
                assert(s.subrange(at, after) =~= a.subrange(at, after));
                lemma_field_cut(a, r, key, after);
            }
        }
        assert(field_masked_from(s, key, at) =~= field_masked_from(a, key, at) + tail);
    }
}

/// Masking leaves of a value a value.
proof fn lemma_value_stays(a: Seq<char>, key: Seq<char>, at: int)
    requires
        plain_key(key),
        0 <= at < a.len(),
        forall|i: int| at <= i < a.len() ==> !ends_value(#[trigger] a[i]),
    ensures
        one_piece(field_masked_from(a, key, at)),
        field_masked_from(a, key, at).last() == a.last() || field_masked_from(a, key, at).last()
            == '*',
    decreases a.len() - at,
{
    let m = field_masked_from(a, key, at);
    let end = a.len() as int;
    if !word_at(a, key, at) {
        let rest = field_masked_from(a, key, at + 1);
        assert(m == seq![a[at]] + rest);
        if at + 1 < end {
            lemma_value_stays(a, key, at + 1);
            assert(m.last() == rest.last());
        } else {
            assert(rest =~= Seq::<char>::empty());
        }
        assert forall|i: int| 0 <= i < m.len() implies !ends_value(#[trigger] m[i]) by {
            if i > 0 {
                assert(m[i] == rest[i - 1]);
            }
        }
    } else if field_at(a, key, at) {
        lemma_word_chars(a, key, at);
        lemma_value_start(a, at + key.len() + 1);
        let start = field_value(a, key, at);
        lemma_value_end(a, start);
        assert(field_end(a, key, at) == end);
        assert(field_masked_from(a, key, end) =~= Seq::<char>::empty());
        assert(m =~= a.subrange(at, start) + mask());
        assert forall|i: int| 0 <= i < m.len() implies !ends_value(#[trigger] m[i]) by {
            if i < start - at {
                assert(m[i] == a[at + i]);
            }
        }
    } else {
        lemma_word_chars(a, key, at);
        let after = at + key.len();
        let rest = field_masked_from(a, key, after);
        assert(m == a.subrange(at, after) + rest);
        if after < end {
            lemma_value_stays(a, key, after);
            assert(m.last() == rest.last());
        } else {
            assert(rest =~= Seq::<char>::empty());
            assert(m[m.len() - 1] == a[end - 1]);
        }
        assert forall|i: int| 0 <= i < m.len() implies !ends_value(#[trigger] m[i]) by {
            if i < key.len() {
                assert(m[i] == a[at + i]);
            } else {
                assert(m[i] == rest[i - key.len()]);
            }
        }
    }
}

/// Where a value that starts in `p` lies in `p + v`.
proof fn lemma_open_value(p: Seq<char>, v: Seq<char>, from: int)
    requires
        one_piece(v),
        0 <= from <= p.len(),
    ensures
        ({
            let start = value_start(p, from);
            let end = value_end(p, start);
            &&& from <= start <= end <= p.len()
            &&& value_start(p + v, from) == start
            &&& value_end(p + v, start) == (if end < p.len() {
                end
            } else {
                (p.len() + v.len()) as int
            })
        }),
{
    let s = p + v;
    lemma_value_start(p, from);
    let start = value_start(p, from);
    lemma_value_end(p, start);
    let end = value_end(p, start);
    assert forall|j: int| from <= j < start implies is_white(#[trigger] s[j]) by {
        assert(s[j] == p[j]);
    }
    if start < p.len() {
        assert(s[start] == p[start]);
    } else {
        assert(s[start] == v[0]);
    }
    lemma_value_start_is(s, from, start);
    let over = if end < p.len() {
        end
    } else {
        (p.len() + v.len()) as int
    };
    assert forall|j: int| start <= j < over implies !ends_value(#[trigger] s[j]) by {
        if j < p.len() {
            assert(s[j] == p[j]);
        } else {
            assert(s[j] == v[j - p.len()]);
        }
    }
    if end < p.len() {
        assert(s[end] == p[end]);
    }
    lemma_value_end_is(s, start, over);
}

/// What masking makes of a value behind a separator: it goes with the mask where a field is open
/// there, and is masked by itself where none is.
proof fn lemma_field_split(p: Seq<char>, v: Seq<char>, key: Seq<char>, at: int)
    requires
        plain_key(key),
        p.len() > 0,
        is_separator(p.last()) || is_white(p.last()),
        one_piece(v),
        0 <= at <= p.len(),
    ensures
        field_masked_from(p + v, key, at) == field_masked_from(p, key, at) + (if leaves_open(
            p,
            key,
            at,
        ) {
            Seq::empty()
        } else {
            field_masked_from(p + v, key, p.len() as int)
        }),
    decreases p.len() - at,
{
    let s = p + v;
    let value = field_masked_from(s, key, p.len() as int);
    if at == p.len() {
        assert(Seq::<char>::empty() + value =~= value);
    } else {
        assert(s[at] == p[at]);
        if at + key.len() >= p.len() {
            // What stands in front of the value would be part of the name.
            if word_at(s, key, at) {
                lemma_word_chars(s, key, at);
                assert(s[p.len() - 1] == p.last());
            }
            if word_at(p, key, at) {
                lemma_word_chars(p, key, at);
                assert(p[p.len() - 1] == p.last());
            }
            lemma_field_split(p, v, key, at + 1);
        } else {
            let after = at + key.len();
            lemma_word_prefix(p, v, key, at);
            if at > 0 {
                assert(s[at - 1] == p[at - 1]);
            }
            assert(s[after] == p[after]);
            assert(field_at(s, key, at) == field_at(p, key, at));
            if !word_at(p, key, at) {
                lemma_field_split(p, v, key, at + 1);
            } else if field_at(p, key, at) {
                lemma_open_value(p, v, after + 1);
                let start = field_value(p, key, at);
                let end = field_end(p, key, at);
                assert(s.subrange(at, start) =~= p.subrange(at, start));
                if end < p.len() {
                    lemma_field_split(p, v, key, end);
                } else {
                    assert(field_masked_from(p, key, end) =~= Seq::<char>::empty());
                    assert(field_masked_from(s, key, s.len() as int) =~= Seq::<char>::empty());
                }
            } else {
                assert(s.subrange(at, after) =~= p.subrange(at, after));
                lemma_field_split(p, v, key, after);
            }
        }
        assert(field_masked_from(s, key, at) =~= field_masked_from(p, key, at) + (if leaves_open(
            p,
            key,
            at,
        ) {
            Seq::empty()
        } else {
            value
        }));
    }
}

/// What one pass makes of `p`, a value and what follows.
proof fn lemma_field_pass(p: Seq<char>, v: Seq<char>, r: Seq<char>, key: Seq<char>) -> (value: Seq<
    char,
>)
    requires
        plain_key(key),
        p.len() > 0,
        is_separator(p.last()) || is_white(p.last()),
        fits(v, r),
    ensures
        fits(value, field_masked(r, key)),
        r.len() > 0 ==> field_masked(r, key).len() > 0 && field_masked(r, key)[0] == r[0],
        field_masked(p + v + r, key) == (if leaves_open(p, key, 0) {
            field_masked(p, key) + field_masked(r, key)
        } else {
            field_masked(p, key) + value + field_masked(r, key)
        }),
{
    let a = p + v;
    let value = field_masked_from(a, key, p.len() as int);
    assert(a.last() == v.last());
    assert(!ends_value(v[v.len() - 1]));
    lemma_field_cut(a, r, key, 0);
    lemma_field_split(p, v, key, 0);
    assert forall|i: int| p.len() <= i < a.len() implies !ends_value(#[trigger] a[i]) by {
        assert(a[i] == v[i - p.len()]);
    }
    lemma_value_stays(a, key, p.len() as int);
    lemma_rest_starts(r, key, 0);
    assert(field_masked(p, key) + Seq::<char>::empty() =~= field_masked(p, key));
    value
}

/// A text that ends in a field named `key` leaves a field of that name open.
proof fn lemma_own_field_is_open(p: Seq<char>, key: Seq<char>, at: int)
    requires
        plain_key(key),
        ends_in_field(p, key),
        0 <= at <= p.len() - key.len() - 1,
    ensures
        leaves_open(p, key, at),
    decreases p.len() - at,
{
    let t = p.len() - key.len() - 1;
    lemma_word_chars(p, key, t);
    if at == t {
        lemma_value_start(p, t + key.len() + 1);
        lemma_value_end(p, field_value(p, key, t));
    } else if !word_at(p, key, at) {
        lemma_own_field_is_open(p, key, at + 1);
    } else {
        lemma_no_overlap(p, key, at, t);
        lemma_word_chars(p, key, at);
        if field_at(p, key, at) {
            let start = field_value(p, key, at);
            let end = field_end(p, key, at);
            lemma_value_start(p, at + key.len() + 1);
            lemma_value_end(p, start);
            if end < p.len() {
                lemma_ends_in_front(p, key, end);
                lemma_own_field_is_open(p, key, end);
            }
        } else {
            lemma_own_field_is_open(p, key, at + key.len());
        }
    }
}

/// Nothing in the field that a text ends in ends a value.
proof fn lemma_ends_in_front(p: Seq<char>, key: Seq<char>, end: int)
    requires
        plain_key(key),
        ends_in_field(p, key),
        0 <= end < p.len(),
        ends_value(p[end]),
    ensures
        end < p.len() - key.len() - 1,
{
    let t = p.len() - key.len() - 1;
    lemma_word_chars(p, key, t);
    if end == p.len() - 1 {
        assert(is_separator(p[t + key.len()]));
    }
}

/// Is `m` what is left of `p` from `at` on, unchanged from `lo` on?
spec fn keeps_end(m: Seq<char>, p: Seq<char>, at: int, lo: int) -> bool {
    if at >= lo {
        m == p.subrange(at, p.len() as int)
    } else {
        &&& m.len() >= p.len() - lo
        &&& m.subrange(m.len() - (p.len() - lo), m.len() as int) == p.subrange(lo, p.len() as int)
    }
}

/// From which place on masking keeps the field that a text ends in: from the character in front
/// of it.
spec fn kept_from(p: Seq<char>, key: Seq<char>) -> int {
    let t = p.len() - key.len() - 1;
    if t > 0 {
        t - 1
    } else {
        0
    }
}

proof fn lemma_keeps_end(head: Seq<char>, m: Seq<char>, p: Seq<char>, at: int, next: int, lo: int)
    requires
        0 <= at < next <= p.len(),
        0 <= lo <= p.len(),
        keeps_end(m, p, next, lo),
        head == p.subrange(at, next) || next <= lo,
    ensures
        keeps_end(head + m, p, at, lo),
{
    let whole = head + m;
    if at >= lo {
        assert(whole =~= p.subrange(at, p.len() as int));
    } else if next >= lo {
        assert(m =~= p.subrange(next, p.len() as int));
        if head == p.subrange(at, next) {
            assert(whole =~= p.subrange(at, p.len() as int));
        }
        assert(whole.subrange(whole.len() - (p.len() - lo), whole.len() as int) =~= p.subrange(
            lo,
            p.len() as int,
        ));
    } else {
        assert(whole.subrange(whole.len() - (p.len() - lo), whole.len() as int) =~= m.subrange(
            m.len() - (p.len() - lo),
            m.len() as int,
        ));
    }
}

/// A text keeps the field that it ends in where its end is kept.
proof fn lemma_kept_field(m: Seq<char>, p: Seq<char>, key: Seq<char>)
    requires
        plain_key(key),
        ends_in_field(p, key),
        keeps_end(m, p, 0, kept_from(p, key)),
    ensures
        ends_in_field(m, key),
{
    let t = p.len() - key.len() - 1;
    let lo = kept_from(p, key);
    lemma_word_chars(p, key, t);
    if lo == 0 {
        assert(p.subrange(0, p.len() as int) =~= p);
        assert(m.subrange(0, m.len() as int) =~= m);
        if t == 0 || t == 1 {
            assert(m == p);
        }
    } else {
        let d = m.len() - p.len();
        let tail = m.subrange(m.len() - (p.len() - lo), m.len() as int);
        assert forall|i: int| lo <= i < p.len() implies m[i + d] == #[trigger] p[i] by {
            assert(tail[i - lo] == m[i + d]);
            assert(p.subrange(lo, p.len() as int)[i - lo] == p[i]);
        }
        let n = t + d;
        assert forall|i: int| n <= i < n + key.len() implies lower(#[trigger] m[i]) == key[i - n] by {
            assert(m[i] == p[i - d]);
        }
        lemma_word_from_chars(m, key, n);
        assert(m[n - 1] == p[t - 1]);
        assert(m[n + key.len()] == p[t + key.len()]);
    }
}

/// Masking fields of another name, where it leaves none open, keeps the field at the end.
proof fn lemma_field_keeps_end(p: Seq<char>, other: Seq<char>, key: Seq<char>, at: int)
    requires
        plain_key(key),
        plain_key(other),
        ends_in_field(p, key),
        0 <= at <= p.len(),
        !leaves_open(p, other, at),
    ensures
        keeps_end(field_masked_from(p, other, at), p, at, kept_from(p, key)),
    decreases p.len() - at,
{
    let lo = kept_from(p, key);
    let m = field_masked_from(p, other, at);
    if at == p.len() {
        assert(m =~= p.subrange(at, p.len() as int));
    } else if !word_at(p, other, at) {
        lemma_field_keeps_end(p, other, key, at + 1);
        assert(seq![p[at]] =~= p.subrange(at, at + 1));
        lemma_keeps_end(seq![p[at]], field_masked_from(p, other, at + 1), p, at, at + 1, lo);
    } else if field_at(p, other, at) {
        let start = field_value(p, other, at);
        let end = field_end(p, other, at);
        lemma_word_chars(p, other, at);
        lemma_value_start(p, at + other.len() + 1);
        lemma_value_end(p, start);
        lemma_ends_in_front(p, key, end);
        lemma_field_keeps_end(p, other, key, end);
        lemma_keeps_end(
            p.subrange(at, start) + mask(),
            field_masked_from(p, other, end),
            p,
            at,
            end,
            lo,
        );
    } else {
        lemma_word_chars(p, other, at);
        lemma_field_keeps_end(p, other, key, at + other.len());
        lemma_keeps_end(
            p.subrange(at, at + other.len()),
            field_masked_from(p, other, at + other.len()),
            p,
            at,
            at + other.len(),
            lo,
        );
    }
}

/// Does the masking of the word `Bearer` from `at` on end inside a credential?
spec fn leaves_credential_open(s: Seq<char>, at: int) -> bool
    decreases s.len() - at,
{
    let after = at + bearer().len();
    let end = value_end(s, value_start(s, after));
    if at < 0 || at >= s.len() || bearer().len() == 0 {
        false
    } else if !word_at(s, bearer(), at) {
        leaves_credential_open(s, at + 1)
    } else if starts_word(s, at) {
        proof {
            lemma_value_start(s, after as int);
            lemma_value_end(s, value_start(s, after as int));
        }
        end >= s.len() || leaves_credential_open(s, end)
    } else {
        leaves_credential_open(s, after)
    }
}

/// Masking from a place behind `a` on is masking in what follows `a`.
proof fn lemma_bearer_tail(a: Seq<char>, b: Seq<char>, i: int)
    requires
        0 <= i <= b.len(),
        i == 0 && b.len() > 0 ==> ends_value(b[0]),
    ensures
        bearer_masked_from(a + b, a.len() + i) == bearer_masked_from(b, i),
    decreases b.len() - i,
{
    lemma_bearer();
    let s = a + b;
    let at = a.len() + i;
    if i < b.len() {
        lemma_word_shift(a, b, bearer(), i);
        assert(s[at] == b[i]);
        if !word_at(b, bearer(), i) {
            lemma_bearer_tail(a, b, i + 1);
        } else {
            lemma_word_chars(b, bearer(), i);
            assert(i > 0);
            assert(s[at - 1] == b[i - 1]);
            if starts_word(b, i) {
                let start = value_start(b, i + 6);
                lemma_value_start(b, i + 6);
                lemma_value_end(b, start);
                lemma_value_shift(a, b, i + 6);
                lemma_value_shift(a, b, start);
                lemma_bearer_tail(a, b, value_end(b, start));
            } else {
                assert(s.subrange(at, at + 6) =~= b.subrange(i, i + 6));
                lemma_bearer_tail(a, b, i + 6);
            }
        }
    }
}

/// Text that begins where a value ends is masked by itself.
proof fn lemma_bearer_cut(a: Seq<char>, r: Seq<char>, at: int)
    requires
        a.len() > 0,
        !is_white(a.last()),
        r.len() > 0 ==> ends_value(r[0]),
        r.len() > 0 && is_white(r[0]) ==> !bearer_at(a, a.len() - bearer().len()),
        0 <= at <= a.len(),
    ensures
        bearer_masked_from(a + r, at) == bearer_masked_from(a, at) + bearer_masked_from(r, 0),
    decreases a.len() - at,
{
    lemma_bearer();
    let s = a + r;
    let tail = bearer_masked_from(r, 0);
    if at == a.len() {
        lemma_bearer_tail(a, r, 0);
        assert(Seq::<char>::empty() + tail =~= tail);
    } else {
        let after = at + 6;
        assert(s[at] == a[at]);
        if after > a.len() {
            // What ends a value would be part of the word.
            if word_at(s, bearer(), at) {
                lemma_word_chars(s, bearer(), at);
                assert(s[a.len() as int] == r[0]);
            }
            lemma_bearer_cut(a, r, at + 1);
        } else {
            lemma_word_prefix(a, r, bearer(), at);
            if at > 0 {
                assert(s[at - 1] == a[at - 1]);
            }
            if !word_at(a, bearer(), at) {
                lemma_bearer_cut(a, r, at + 1);
            } else if starts_word(a, at) {
                if after == a.len() {
                    assert(bearer_at(a, a.len() - bearer().len()));
                }
                lemma_value_cut(a, r, after);
                lemma_bearer_cut(a, r, value_end(a, value_start(a, after)));
            } else {
                assert(s.subrange(at, after) =~= a.subrange(at, after));
                lemma_bearer_cut(a, r, after);
            }
        }
        assert(bearer_masked_from(s, at) =~= bearer_masked_from(a, at) + tail);
    }
}

/// Masking leaves of a value a value.
proof fn lemma_credential_stays(a: Seq<char>, at: int)
    requires
        0 <= at < a.len(),
        forall|i: int| at <= i < a.len() ==> !ends_value(#[trigger] a[i]),
    ensures
        one_piece(bearer_masked_from(a, at)),
        bearer_masked_from(a, at).last() == a.last() || bearer_masked_from(a, at).last() == '*',
    decreases a.len() - at,
{
    lemma_bearer();
    let m = bearer_masked_from(a, at);
    let end = a.len() as int;
    if !word_at(a, bearer(), at) {
        let rest = bearer_masked_from(a, at + 1);
        assert(m == seq![a[at]] + rest);
        if at + 1 < end {
            lemma_credential_stays(a, at + 1);
            assert(m.last() == rest.last());
        } else {
            assert(rest =~= Seq::<char>::empty());
        }
        assert forall|i: int| 0 <= i < m.len() implies !ends_value(#[trigger] m[i]) by {
            if i > 0 {
                assert(m[i] == rest[i - 1]);
            }
        }
    } else if starts_word(a, at) {
        lemma_word_chars(a, bearer(), at);
        lemma_value_start(a, at + 6);
        let start = value_start(a, at + 6);
        lemma_value_end(a, start);
        assert(value_end(a, start) == end);
        assert(bearer_masked_from(a, end) =~= Seq::<char>::empty());
        assert(m =~= mask());
    } else {
        lemma_word_chars(a, bearer(), at);
        let after = at + 6;
        let rest = bearer_masked_from(a, after);
        assert(m == a.subrange(at, after) + rest);
        if after < end {
            lemma_credential_stays(a, after);
            assert(m.last() == rest.last());
        } else {
            assert(rest =~= Seq::<char>::empty());
            assert(m[m.len() - 1] == a[end - 1]);
        }
        assert forall|i: int| 0 <= i < m.len() implies !ends_value(#[trigger] m[i]) by {
            if i < 6 {
                assert(m[i] == a[at + i]);
            } else {
                assert(m[i] == rest[i - 6]);
            }
        }
    }
}

/// What masking the word `Bearer` makes of a value behind a separator: it goes with the mask
/// where a credential is open there, and is masked by itself where none is.
proof fn lemma_bearer_split(p: Seq<char>, v: Seq<char>, at: int)
    requires
        p.len() > 0,
        is_separator(p.last()) || is_white(p.last()),
        one_piece(v),
        0 <= at <= p.len(),
    ensures
        bearer_masked_from(p + v, at) == bearer_masked_from(p, at) + (if leaves_credential_open(
            p,
            at,
        ) {
            Seq::empty()
        } else {
            bearer_masked_from(p + v, p.len() as int)
        }),
    decreases p.len() - at,
{
    lemma_bearer();
    let s = p + v;
    let value = bearer_masked_from(s, p.len() as int);
    if at == p.len() {
        assert(Seq::<char>::empty() + value =~= value);
    } else {
        assert(s[at] == p[at]);
        if at + 6 >= p.len() {
            // What stands in front of the value would be part of the word.
            if word_at(s, bearer(), at) {
                lemma_word_chars(s, bearer(), at);
                assert(s[p.len() - 1] == p.last());
            }
            if word_at(p, bearer(), at) {
                lemma_word_chars(p, bearer(), at);
                assert(p[p.len() - 1] == p.last());
            }
            lemma_bearer_split(p, v, at + 1);
        } else {
            let after = at + 6;
            lemma_word_prefix(p, v, bearer(), at);
            if at > 0 {
                assert(s[at - 1] == p[at - 1]);
            }
            if !word_at(p, bearer(), at) {
                lemma_bearer_split(p, v, at + 1);
            } else if starts_word(p, at) {
                lemma_open_value(p, v, after);
                let end = value_end(p, value_start(p, after));
                if end < p.len() {
                    lemma_bearer_split(p, v, end);
                } else {
                    assert(bearer_masked_from(p, end) =~= Seq::<char>::empty());
                    assert(bearer_masked_from(s, s.len() as int) =~= Seq::<char>::empty());
                }
            } else {
                assert(s.subrange(at, after) =~= p.subrange(at, after));
                lemma_bearer_split(p, v, after);
            }
        }
        assert(bearer_masked_from(s, at) =~= bearer_masked_from(p, at) + (
        if leaves_credential_open(p, at) {
            Seq::empty()
        } else {
            value
        }));
    }
}

/// What the first pass makes of `p`, a value and what follows.
proof fn lemma_bearer_pass(p: Seq<char>, v: Seq<char>, r: Seq<char>) -> (value: Seq<char>)
    requires
        p.len() > 0,
        is_separator(p.last()) || is_white(p.last()),
        is_value_between(p, v, r),
    ensures
        fits(value, bearer_masked_from(r, 0)),
        bearer_masked_from(p + v + r, 0) == (if leaves_credential_open(p, 0) {
            bearer_masked_from(p, 0) + bearer_masked_from(r, 0)
        } else {
            bearer_masked_from(p, 0) + value + bearer_masked_from(r, 0)
        }),
{
    lemma_bearer();
    let a = p + v;
    let value = bearer_masked_from(a, p.len() as int);
    assert(a.last() == v.last());
    assert(!ends_value(v[v.len() - 1]));
    lemma_bearer_cut(a, r, 0);
    lemma_bearer_split(p, v, 0);
    assert forall|i: int| p.len() <= i < a.len() implies !ends_value(#[trigger] a[i]) by {
        assert(a[i] == v[i - p.len()]);
    }
    lemma_credential_stays(a, p.len() as int);
    let tail = bearer_masked_from(r, 0);
    if r.len() > 0 {
        if word_at(r, bearer(), 0) {
            lemma_word_chars(r, bearer(), 0);
        }
        assert(tail[0] == r[0]);
    }
    assert(bearer_masked_from(p, 0) + Seq::<char>::empty() =~= bearer_masked_from(p, 0));
    value
}

/// Masking the word `Bearer`, where it leaves no credential open, keeps the field at the end.
proof fn lemma_bearer_keeps_end(p: Seq<char>, key: Seq<char>, at: int)
    requires
        plain_key(key),
        ends_in_field(p, key),
        0 <= at <= p.len(),
        !leaves_credential_open(p, at),
    ensures
        keeps_end(bearer_masked_from(p, at), p, at, kept_from(p, key)),
    decreases p.len() - at,
{
    lemma_bearer();
    let lo = kept_from(p, key);
    let m = bearer_masked_from(p, at);
    if at == p.len() {
        assert(m =~= p.subrange(at, p.len() as int));
    } else if !word_at(p, bearer(), at) {
        lemma_bearer_keeps_end(p, key, at + 1);
        assert(seq![p[at]] =~= p.subrange(at, at + 1));
        lemma_keeps_end(seq![p[at]], bearer_masked_from(p, at + 1), p, at, at + 1, lo);
    } else if starts_word(p, at) {
        let after = at + 6;
        lemma_word_chars(p, bearer(), at);
        lemma_value_start(p, after);
        lemma_value_end(p, value_start(p, after));
        let end = value_end(p, value_start(p, after));
        lemma_ends_in_front(p, key, end);
        lemma_bearer_keeps_end(p, key, end);
        lemma_keeps_end(mask(), bearer_masked_from(p, end), p, at, end, lo);
    } else {
        lemma_word_chars(p, bearer(), at);
        lemma_bearer_keeps_end(p, key, at + 6);
        lemma_keeps_end(
            p.subrange(at, at + 6),
            bearer_masked_from(p, at + 6),
            p,
            at,
            at + 6,
            lo,
        );
    }
}

/// Do the two texts agree but for the values `v` and `w` of a field named `key`?
spec fn differ_in_value(
    x: Seq<char>,
    y: Seq<char>,
    key: Seq<char>,
    v: Seq<char>,
    w: Seq<char>,
    p: Seq<char>,
    r: Seq<char>,
) -> bool {
    &&& x == p + v + r
    &&& y == p + w + r
    &&& ends_in_field(p, key)
    &&& fits(v, r)
    &&& fits(w, r)
}

/// The fields hide the difference at last when that of the field's own name are masked.
proof fn lemma_fields_hide_value(
    x: Seq<char>,
    y: Seq<char>,
    j: int,
    v: Seq<char>,
    w: Seq<char>,
    p: Seq<char>,
    r: Seq<char>,
    n: int,
)
    requires
        0 <= j < secret_keys().len(),
        0 <= n <= secret_keys().len(),
        differ_in_value(x, y, secret_keys()[j], v, w, p, r),
    ensures
        ({
            let a = fields_masked(x, secret_keys(), n);
            let b = fields_masked(y, secret_keys(), n);
            ||| a == b
            ||| n <= j && exists|v2: Seq<char>, w2: Seq<char>, p2: Seq<char>, r2: Seq<char>|
                differ_in_value(a, b, secret_keys()[j], v2, w2, p2, r2)
        }),
    decreases n,
{
    lemma_secret_keys();
    let keys = secret_keys();
    if n > 0 {
        lemma_fields_hide_value(x, y, j, v, w, p, r, n - 1);
        let a = fields_masked(x, keys, n - 1);
        let b = fields_masked(y, keys, n - 1);
        let other = keys[n - 1];
        if a != b {
            let (v1, w1, p1, r1) = choose|
                v2: Seq<char>,
                w2: Seq<char>,
                p2: Seq<char>,
                r2: Seq<char>,
            | differ_in_value(a, b, keys[j], v2, w2, p2, r2);
            lemma_word_chars(p1, keys[j], p1.len() - keys[j].len() - 1);
            assert(p1[p1.len() - 1] == p1.last());
            let v2 = lemma_field_pass(p1, v1, r1, other);
            let w2 = lemma_field_pass(p1, w1, r1, other);
            let p2 = field_masked(p1, other);
            let r2 = field_masked(r1, other);
            if n - 1 == j {
                lemma_own_field_is_open(p1, other, 0);
            }
            if !leaves_open(p1, other, 0) {
                lemma_field_keeps_end(p1, other, keys[j], 0);
                lemma_kept_field(p2, p1, keys[j]);
                assert(differ_in_value(
                    field_masked(a, other),
                    field_masked(b, other),
                    keys[j],
                    v2,
                    w2,
                    p2,
                    r2,
                ));
            }
        }
    } else {
        assert(differ_in_value(x, y, secret_keys()[j], v, w, p, r));
    }
}

/// Two lines that differ only in the value of a secret field give the same line in the log. `p`
/// is what stands in front of the value, up to the separator behind the field's name, which may
/// be written in any case; `r` is what follows the value.
pub proof fn the_log_does_not_depend_on_a_secret(
    p: Seq<char>,
    v: Seq<char>,
    w: Seq<char>,
    r: Seq<char>,
    j: int,
)
    requires
        0 <= j < secret_keys().len(),
        ends_in_field(p, secret_keys()[j]),
        is_value_between(p, v, r),
        is_value_between(p, w, r),
    ensures
        redacted(p + v + r) == redacted(p + w + r),
{
    lemma_secret_keys();
    let key = secret_keys()[j];
    lemma_word_chars(p, key, p.len() - key.len() - 1);
    assert(p[p.len() - 1] == p.last());
    let a = lemma_bearer_pass(p, v, r);
    let b = lemma_bearer_pass(p, w, r);
    if !leaves_credential_open(p, 0) {
        let head = bearer_masked_from(p, 0);
        let tail = bearer_masked_from(r, 0);
        lemma_bearer_keeps_end(p, key, 0);
        lemma_kept_field(head, p, key);
        lemma_fields_hide_value(
            head + a + tail,
            head + b + tail,
            j,
            a,
            b,
            head,
            tail,
            secret_keys().len() as int,
        );
    }
}

proof fn lemma_no_bearer_kept(s: Seq<char>, at: int)
    requires
        0 <= at <= s.len(),
        forall|q: int| !#[trigger] bearer_at(s, q),
    ensures
        bearer_masked_from(s, at) == s.subrange(at, s.len() as int),
    decreases s.len() - at,
{
    lemma_bearer();
    if at < s.len() {
        if !word_at(s, bearer(), at) {
            lemma_no_bearer_kept(s, at + 1);
        } else {
            assert(!bearer_at(s, at));
            lemma_word_chars(s, bearer(), at);
            lemma_no_bearer_kept(s, at + 6);
        }
    }
    assert(bearer_masked_from(s, at) =~= s.subrange(at, s.len() as int));
}

/// No secret name holds the first letter of the scheme word.
proof fn lemma_secret_keys_hold_no_b()
    ensures
        forall|j: int, i: int|
            0 <= j < 13 && 0 <= i < secret_keys()[j].len() ==> #[trigger] secret_keys()[j][i] != 'b',
{
    reveal_strlit("token");
    reveal_strlit("api_key");
    reveal_strlit("apikey");
    reveal_strlit("api-key");
    reveal_strlit("authorization");
    reveal_strlit("cookie");
    reveal_strlit("set-cookie");
    reveal_strlit("password");
    reveal_strlit("passwd");
    reveal_strlit("secret");
    reveal_strlit("private_key");
    reveal_strlit("access_key");
    reveal_strlit("session_id");
}

/// What one pass makes of a field alone.
proof fn lemma_lone_field(p: Seq<char>, other: Seq<char>, key: Seq<char>, at: int)
    requires
        plain_key(key),
        plain_key(other),
        p.len() == key.len() + 1,
        ends_in_field(p, key),
        0 <= at <= p.len(),
    ensures
        field_masked_from(p, other, at) == p.subrange(at, p.len() as int) + (if leaves_open(
            p,
            other,
            at,
        ) {
            mask()
        } else {
            Seq::empty()
        }),
    decreases p.len() - at,
{
    lemma_word_chars(p, key, 0);
    let end = p.len() as int;
    let m = field_masked_from(p, other, at);
    if at < end {
        if word_at(p, other, at) {
            lemma_word_chars(p, other, at);
            if field_at(p, other, at) {
                assert(at + other.len() == end - 1);
                lemma_value_start(p, end);
                lemma_value_end(p, end);
                assert(field_masked_from(p, other, end) =~= Seq::<char>::empty());
            } else {
                lemma_lone_field(p, other, key, at + other.len());
            }
        } else {
            lemma_lone_field(p, other, key, at + 1);
        }
    }
    assert(m =~= p.subrange(at, end) + (if leaves_open(p, other, at) {
        mask()
    } else {
        Seq::empty()
    }));
}

proof fn lemma_fields_of_lone_field(p: Seq<char>, v: Seq<char>, r: Seq<char>, j: int, n: int)
    requires
        0 <= j < secret_keys().len(),
        0 <= n <= secret_keys().len(),
        p.len() == secret_keys()[j].len() + 1,
        ends_in_field(p, secret_keys()[j]),
        fits(v, r),
        names_no_secret(r),
    ensures
        ({
            let out = fields_masked(p + v + r, secret_keys(), n);
            exists|value: Seq<char>| #[trigger]
                fits(value, r) && out == p + value + r && (n > j ==> value == mask())
        }),
    decreases n,
{
    lemma_secret_keys();
    let keys = secret_keys();
    if n > 0 {
        let other = keys[n - 1];
        let key = keys[j];
        lemma_fields_of_lone_field(p, v, r, j, n - 1);
        let before = fields_masked(p + v + r, keys, n - 1);
        let value = choose|value: Seq<char>| #[trigger]
            fits(value, r) && before == p + value + r && (n - 1 > j ==> value == mask());
        lemma_word_chars(p, key, 0);
        assert(p[p.len() - 1] == p.last());
        lemma_next_field(r, other, 0);
        if next_field(r, other, 0) is Some {
            let at = next_field(r, other, 0)->0;
            assert(field_at(r, keys[n - 1], at));
        }
        assert(r.subrange(0, r.len() as int) =~= r);
        assert(p.subrange(0, p.len() as int) =~= p);
        let next = lemma_field_pass(p, value, r, other);
        lemma_lone_field(p, other, key, 0);
        if n - 1 == j {
            lemma_own_field_is_open(p, key, 0);
        }
        assert(p + Seq::<char>::empty() =~= p);
        assert(fits(mask(), r));
        if leaves_open(p, other, 0) {
            assert(field_masked(before, other) == p + mask() + r);
        } else if n - 1 > j {
            // The mask is a value in which nothing is left to mask.
            lemma_mask_stays(p, other);
            lemma_field_cut(p + mask(), r, other, 0);
            lemma_field_split(p, mask(), other, 0);
            assert(field_masked(before, other) =~= p + mask() + r);
        } else {
            assert(fits(next, r));
            assert(field_masked(before, other) == p + next + r);
        }
    } else {
        assert(fits(v, r));
    }
}

/// Masking leaves the mask as it is.
proof fn lemma_mask_stays(p: Seq<char>, key: Seq<char>)
    requires
        plain_key(key),
    ensures
        field_masked_from(p + mask(), key, p.len() as int) == mask(),
{
    let s = p + mask();
    let n = p.len() as int;
    assert(s[n] == '*' && s[n + 1] == '*' && s[n + 2] == '*');
    assert forall|at: int| n <= at < n + 3 implies !#[trigger] word_at(s, key, at) by {
        if word_at(s, key, at) {
            lemma_word_chars(s, key, at);
            assert(s[at] != '*');
        }
    }
    assert(field_masked_from(s, key, n + 3) =~= Seq::<char>::empty());
    assert(!word_at(s, key, n) && !word_at(s, key, n + 1) && !word_at(s, key, n + 2));
    assert(field_masked_from(s, key, n + 2) =~= seq!['*']);
    assert(field_masked_from(s, key, n + 1) =~= seq!['*', '*']);
    assert(field_masked_from(s, key, n) =~= mask());
}

/// A line that is one secret field, its name written in any case, and what follows its value is
/// in the log the name, the separator, the mask and what follows.
pub proof fn a_secret_field_shows_the_mask(
    name: Seq<char>,
    separator: char,
    v: Seq<char>,
    r: Seq<char>,
    j: int,
)
    requires
        0 <= j < secret_keys().len(),
        lowered(name) == secret_keys()[j],
        is_separator(separator),
        is_value_between(name + seq![separator], v, r),
        names_no_secret(r),
    ensures
        redacted(name + seq![separator] + v + r) == name + seq![separator] + mask() + r,
{
    lemma_secret_keys();
    lemma_secret_keys_hold_no_b();
    lemma_bearer();
    let keys = secret_keys();
    let key = keys[j];
    let p = name + seq![separator];
    assert(lowered(name).len() == name.len());
    assert forall|i: int| 0 <= i < key.len() implies lower(#[trigger] p[i]) == key[i - 0] by {
        assert(lowered(name)[i] == lower(name[i]));
    }
    lemma_word_from_chars(p, key, 0);
    assert(p.last() == separator);
    assert(ends_in_field(p, key));
    // The scheme word does not stand in the name.
    assert forall|q: int| !#[trigger] bearer_at(p, q) by {
        if word_at(p, bearer(), q) {
            lemma_word_chars(p, bearer(), q);
            assert(lower(p[q]) == bearer()[0]);
            if q < key.len() {
                assert(lower(p[q]) == key[q - 0]);
                assert(keys[j][q] != 'b');
            }
        }
    }
    lemma_no_bearer_kept(p, 0);
    lemma_no_bearer_kept(r, 0);
    assert(p.subrange(0, p.len() as int) =~= p);
    assert(r.subrange(0, r.len() as int) =~= r);
    let value = lemma_bearer_pass(p, v, r);
    lemma_no_credential_open(p, 0);
    lemma_fields_of_lone_field(p, value, r, j, keys.len() as int);
}

proof fn lemma_no_credential_open(s: Seq<char>, at: int)
    requires
        0 <= at <= s.len(),
        forall|q: int| !#[trigger] bearer_at(s, q),
    ensures
        !leaves_credential_open(s, at),
    decreases s.len() - at,
{
    lemma_bearer();
    if at < s.len() {
        if !word_at(s, bearer(), at) {
            lemma_no_credential_open(s, at + 1);
        } else {
            assert(!bearer_at(s, at));
            lemma_word_chars(s, bearer(), at);
            lemma_no_credential_open(s, at + 6);
        }
    }
}

// ---------------------------------------------------------------------------------------------
// What the log shows, in so many words
// ---------------------------------------------------------------------------------------------

/// Is the text this word of small letters, `_` and `-`, each letter written small or large?
pub open spec fn reads_as(text: Seq<char>, word: Seq<char>) -> bool {
    &&& text.len() == word.len()
    &&& forall|i: int|
        0 <= i < word.len() ==> {
            ||| #[trigger] text[i] == word[i]
            ||| 'a' <= word[i] <= 'z' && text[i] as u32 + 32 == word[i] as u32
        }
}

/// Is the text the name of a field that holds a credential, in any case?
pub open spec fn names_secret(name: Seq<char>) -> bool {
    ||| reads_as(name, "token"@)
    ||| reads_as(name, "api_key"@)
    ||| reads_as(name, "apikey"@)
    ||| reads_as(name, "api-key"@)
    ||| reads_as(name, "authorization"@)
    ||| reads_as(name, "cookie"@)
    ||| reads_as(name, "set-cookie"@)
    ||| reads_as(name, "password"@)
    ||| reads_as(name, "passwd"@)
    ||| reads_as(name, "secret"@)
    ||| reads_as(name, "private_key"@)
    ||| reads_as(name, "access_key"@)
    ||| reads_as(name, "session_id"@)
}

/// White space of Unicode.
pub open spec fn blank(c: char) -> bool {
    let n = c as u32;
    ||| 0x9 <= n <= 0xd
    ||| n == 0x20
    ||| n == 0x85
    ||| n == 0xa0
    ||| n == 0x1680
    ||| 0x2000 <= n <= 0x200a
    ||| n == 0x2028
    ||| n == 0x2029
    ||| n == 0x202f
    ||| n == 0x205f
    ||| n == 0x3000
}

/// White space, or one of the marks behind which a value does not go on.
pub open spec fn stops_value(c: char) -> bool {
    ||| blank(c)
    ||| c == '&'
    ||| c == ';'
    ||| c == ','
    ||| c == '"'
    ||| c == '\''
    ||| c == ')'
    ||| c == '}'
    ||| c == ']'
    ||| c == '<'
    ||| c == '>'
    ||| c == '|'
}

/// A letter or a digit, of ASCII or of Unicode.
pub open spec fn continues_word(c: char) -> bool {
    ||| '0' <= c <= '9'
    ||| 'A' <= c <= 'Z'
    ||| 'a' <= c <= 'z'
    ||| c as u32 >= 128 && unicode_alphanumeric(c)
}

/// May a word begin behind the text?
pub open spec fn word_may_follow(text: Seq<char>) -> bool {
    text.len() == 0 || !continues_word(text.last())
}

/// A credential: something, and nothing in it that ends a value.
pub open spec fn is_credential(v: Seq<char>) -> bool {
    v.len() > 0 && forall|i: int| 0 <= i < v.len() ==> !stops_value(#[trigger] v[i])
}

/// A text without a separator and without the letter that the scheme word begins with.
pub open spec fn is_quiet(text: Seq<char>) -> bool {
    forall|i: int|
        0 <= i < text.len() ==> #[trigger] text[i] != '=' && text[i] != ':' && text[i] != 'b'
            && text[i] != 'B'
}

/// May `r` follow the credential `v`? It ends the value; and where it does so with white space,
/// `v` does not end in a separator or in the scheme word, behind which white space is skipped.
pub open spec fn may_follow(v: Seq<char>, r: Seq<char>) -> bool {
    &&& r.len() > 0 ==> stops_value(r[0])
    &&& r.len() > 0 && blank(r[0]) ==> v.last() != '=' && v.last() != ':' && !(v.len() >= 6
        && reads_as(v.subrange(v.len() - 6, v.len() as int), "bearer"@))
}

proof fn lemma_characters()
    ensures
        forall|c: char| #[trigger] blank(c) == is_white(c),
        forall|c: char| #[trigger] stops_value(c) == ends_value(c),
        forall|c: char| #[trigger] continues_word(c) == word_char(c),
{
}

/// Which of the names it is.
proof fn lemma_named(name: Seq<char>) -> (j: int)
    requires
        names_secret(name),
    ensures
        0 <= j < secret_keys().len(),
        lowered(name) == secret_keys()[j],
        reads_as(name, secret_keys()[j]),
{
    lemma_secret_keys();
    let keys = secret_keys();
    let j = if reads_as(name, "token"@) {
        0int
    } else if reads_as(name, "api_key"@) {
        1
    } else if reads_as(name, "apikey"@) {
        2
    } else if reads_as(name, "api-key"@) {
        3
    } else if reads_as(name, "authorization"@) {
        4
    } else if reads_as(name, "cookie"@) {
        5
    } else if reads_as(name, "set-cookie"@) {
        6
    } else if reads_as(name, "password"@) {
        7
    } else if reads_as(name, "passwd"@) {
        8
    } else if reads_as(name, "secret"@) {
        9
    } else if reads_as(name, "private_key"@) {
        10
    } else if reads_as(name, "access_key"@) {
        11
    } else {
        12
    };
    assert(reads_as(name, keys[j]));
    lemma_reads(name, keys[j]);
    j
}

proof fn lemma_reads(text: Seq<char>, word: Seq<char>)
    requires
        plain_key(word),
    ensures
        reads_as(text, word) == (lowered(text) == word),
{
    if reads_as(text, word) {
        assert forall|i: int| 0 <= i < word.len() implies lowered(text)[i] == word[i] by {
            assert(plain_char(word[i]));
            assert(text[i] == word[i] || ('a' <= word[i] <= 'z' && text[i] as u32 + 32
                == word[i] as u32));
        }
        assert(lowered(text) =~= word);
    }
    if lowered(text) == word {
        assert forall|i: int| 0 <= i < word.len() implies {
            ||| #[trigger] text[i] == word[i]
            ||| 'a' <= word[i] <= 'z' && text[i] as u32 + 32 == word[i] as u32
        } by {
            assert(lowered(text)[i] == lower(text[i]));
        }
    }
}

proof fn lemma_fits(p: Seq<char>, v: Seq<char>, r: Seq<char>)
    requires
        p.len() > 0,
        is_separator(p.last()) || is_white(p.last()),
        is_credential(v),
        may_follow(v, r),
    ensures
        is_value_between(p, v, r),
{
    lemma_characters();
    lemma_bearer();
    assert(one_piece(v)) by {
        assert forall|i: int| 0 <= i < v.len() implies !ends_value(#[trigger] v[i]) by {
            assert(!stops_value(v[i]));
        }
    }
    let a = p + v;
    let at = a.len() - 6;
    if bearer_at(a, at) {
        lemma_word_chars(a, bearer(), at);
        if v.len() < 6 {
            assert(a[p.len() - 1] == p.last());
        } else {
            let end = v.subrange(v.len() - 6, v.len() as int);
            assert forall|i: int| 0 <= i < 6 implies lower(#[trigger] end[i]) == bearer()[i] by {
                assert(end[i] == a[at + i]);
            }
            assert(lowered(end) =~= bearer());
            lemma_reads(end, bearer());
        }
    }
    if r.len() > 0 {
        assert(stops_value(r[0]));
    }
}

proof fn lemma_quiet(s: Seq<char>)
    requires
        is_quiet(s),
    ensures
        names_no_secret(s),
{
    lemma_bearer();
    lemma_secret_keys();
    assert forall|at: int| !#[trigger] bearer_at(s, at) by {
        if word_at(s, bearer(), at) {
            lemma_word_chars(s, bearer(), at);
            assert(lower(s[at]) == 'b');
        }
    }
    assert forall|j: int, at: int| 0 <= j < secret_keys().len() implies !#[trigger] field_at(
        s,
        secret_keys()[j],
        at,
    ) by {
        if field_at(s, secret_keys()[j], at) {
            lemma_word_chars(s, secret_keys()[j], at);
            assert(s[at + secret_keys()[j].len()] != '=');
        }
    }
}

/// Is the field at `t` the only one in `p`, and is there only white space behind its separator?
spec fn alone(p: Seq<char>, key: Seq<char>, t: int) -> bool {
    &&& field_at(p, key, t)
    &&& forall|i: int| 0 <= i < p.len() && i != t + key.len() ==> !is_separator(#[trigger] p[i])
    &&& forall|i: int| t + key.len() < i < p.len() ==> is_white(#[trigger] p[i])
}

/// What one pass makes of a field alone that has no value yet.
proof fn lemma_alone(p: Seq<char>, other: Seq<char>, key: Seq<char>, t: int, at: int)
    requires
        plain_key(key),
        plain_key(other),
        alone(p, key, t),
        0 <= at <= p.len(),
    ensures
        field_masked_from(p, other, at) == p.subrange(at, p.len() as int) + (if leaves_open(
            p,
            other,
            at,
        ) {
            mask()
        } else {
            Seq::empty()
        }),
    decreases p.len() - at,
{
    let end = p.len() as int;
    let m = field_masked_from(p, other, at);
    if at < end {
        if word_at(p, other, at) {
            lemma_word_chars(p, other, at);
            if field_at(p, other, at) {
                assert(is_separator(p[at + other.len()]));
                assert(at + other.len() == t + key.len());
                lemma_value_start_is(p, at + other.len() + 1, end);
                lemma_value_end(p, end);
                assert(field_masked_from(p, other, end) =~= Seq::<char>::empty());
            } else {
                lemma_alone(p, other, key, t, at + other.len());
            }
        } else {
            lemma_alone(p, other, key, t, at + 1);
        }
    }
    assert(m =~= p.subrange(at, end) + (if leaves_open(p, other, at) {
        mask()
    } else {
        Seq::empty()
    }));
}

proof fn lemma_alone_is_open(p: Seq<char>, key: Seq<char>, t: int, at: int)
    requires
        plain_key(key),
        alone(p, key, t),
        0 <= at <= t,
    ensures
        leaves_open(p, key, at),
    decreases t - at,
{
    lemma_word_chars(p, key, t);
    if at == t {
        lemma_value_start_is(p, t + key.len() + 1, p.len() as int);
        lemma_value_end(p, p.len() as int);
    } else if !word_at(p, key, at) {
        lemma_alone_is_open(p, key, t, at + 1);
    } else {
        lemma_no_overlap(p, key, at, t);
        if field_at(p, key, at) {
            assert(is_separator(p[at + key.len()]));
        }
        lemma_alone_is_open(p, key, t, at + key.len());
    }
}

proof fn lemma_fields_of_one(
    p: Seq<char>,
    v: Seq<char>,
    r: Seq<char>,
    j: int,
    t: int,
    n: int,
)
    requires
        0 <= j < secret_keys().len(),
        0 <= n <= secret_keys().len(),
        alone(p, secret_keys()[j], t),
        fits(v, r),
        names_no_secret(r),
    ensures
        ({
            let out = fields_masked(p + v + r, secret_keys(), n);
            exists|value: Seq<char>| #[trigger]
                fits(value, r) && out == p + value + r && (n > j ==> value == mask())
        }),
    decreases n,
{
    lemma_secret_keys();
    let keys = secret_keys();
    if n > 0 {
        let other = keys[n - 1];
        let key = keys[j];
        lemma_fields_of_one(p, v, r, j, t, n - 1);
        let before = fields_masked(p + v + r, keys, n - 1);
        let value = choose|value: Seq<char>| #[trigger]
            fits(value, r) && before == p + value + r && (n - 1 > j ==> value == mask());
        lemma_word_chars(p, key, t);
        assert(p[p.len() - 1] == p.last());
        lemma_next_field(r, other, 0);
        if next_field(r, other, 0) is Some {
            let at = next_field(r, other, 0)->0;
            assert(field_at(r, keys[n - 1], at));
        }
        assert(r.subrange(0, r.len() as int) =~= r);
        assert(p.subrange(0, p.len() as int) =~= p);
        let next = lemma_field_pass(p, value, r, other);
        lemma_alone(p, other, key, t, 0);
        if n - 1 == j {
            lemma_alone_is_open(p, key, t, 0);
        }
        assert(p + Seq::<char>::empty() =~= p);
        assert(fits(mask(), r));
        if leaves_open(p, other, 0) {
            assert(field_masked(before, other) == p + mask() + r);
        } else if n - 1 > j {
            lemma_mask_stays(p, other);
            lemma_field_cut(p + mask(), r, other, 0);
            lemma_field_split(p, mask(), other, 0);
            assert(field_masked(before, other) =~= p + mask() + r);
        } else {
            assert(fits(next, r));
            assert(field_masked(before, other) == p + next + r);
        }
    } else {
        assert(fits(v, r));
    }
}

/// A field that holds a credential shows `***` in the log in its place, and nothing of it: for
/// each of the names, in any case, either separator, and any white space behind it. What stands
/// before and behind stays as it is.
pub proof fn a_credential_is_masked(
    h: Seq<char>,
    name: Seq<char>,
    separator: char,
    gap: Seq<char>,
    v: Seq<char>,
    r: Seq<char>,
)
    requires
        is_quiet(h),
        word_may_follow(h),
        names_secret(name),
        separator == '=' || separator == ':',
        forall|i: int| 0 <= i < gap.len() ==> blank(#[trigger] gap[i]),
        is_credential(v),
        may_follow(v, r),
        is_quiet(r),
    ensures
        redacted(h + name + seq![separator] + gap + v + r) == h + name + seq![separator] + gap
            + seq!['*', '*', '*'] + r,
{
    let j = lemma_named(name);
    lemma_characters();
    lemma_secret_keys();
    lemma_secret_keys_hold_no_b();
    lemma_bearer();
    let keys = secret_keys();
    let key = keys[j];
    let t = h.len() as int;
    let p = h + name + seq![separator] + gap;
    let end = t + key.len();
    assert forall|i: int| t <= i < end implies lower(#[trigger] p[i]) == key[i - t] by {
        assert(p[i] == name[i - t]);
        assert(lowered(name)[i - t] == lower(name[i - t]));
    }
    lemma_word_from_chars(p, key, t);
    lemma_word_chars(p, key, t);
    assert(p[end] == separator);
    if t > 0 {
        assert(p[t - 1] == h.last());
    }
    assert(field_at(p, key, t));
    assert forall|i: int| 0 <= i < p.len() && i != end implies !is_separator(#[trigger] p[i]) by {
        if i < t {
            assert(p[i] == h[i]);
        } else if i > end {
            assert(p[i] == gap[i - end - 1]);
            assert(blank(gap[i - end - 1]));
        }
    }
    assert forall|i: int| end < i < p.len() implies is_white(#[trigger] p[i]) by {
        assert(p[i] == gap[i - end - 1]);
        assert(blank(gap[i - end - 1]));
    }
    assert(alone(p, key, t));
    assert forall|q: int| !#[trigger] bearer_at(p, q) by {
        if word_at(p, bearer(), q) {
            lemma_word_chars(p, bearer(), q);
            assert(lower(p[q]) == bearer()[0]);
            if q < t {
                assert(p[q] == h[q]);
            } else if q < end {
                assert(lower(p[q]) == key[q - t]);
                assert(keys[j][q - t] != 'b');
            } else if q > end {
                assert(is_white(p[q]));
            }
        }
    }
    lemma_quiet(r);
    lemma_no_bearer_kept(p, 0);
    lemma_no_bearer_kept(r, 0);
    assert(p.subrange(0, p.len() as int) =~= p);
    assert(r.subrange(0, r.len() as int) =~= r);
    assert(p[p.len() - 1] == p.last());
    lemma_fits(p, v, r);
    let value = lemma_bearer_pass(p, v, r);
    lemma_no_credential_open(p, 0);
    lemma_fields_of_one(p, value, r, j, t, keys.len() as int);
}

/// The log does not tell one credential from another, whatever else stands in the line: behind
/// each of the names, in any case, and either separator.
pub proof fn the_log_tells_no_credentials_apart(
    h: Seq<char>,
    name: Seq<char>,
    separator: char,
    v: Seq<char>,
    w: Seq<char>,
    r: Seq<char>,
)
    requires
        word_may_follow(h),
        names_secret(name),
        separator == '=' || separator == ':',
        is_credential(v),
        is_credential(w),
        may_follow(v, r),
        may_follow(w, r),
    ensures
        redacted(h + name + seq![separator] + v + r) == redacted(
            h + name + seq![separator] + w + r,
        ),
{
    let j = lemma_named(name);
    lemma_characters();
    let key = secret_keys()[j];
    let t = h.len() as int;
    let p = h + name + seq![separator];
    assert forall|i: int| t <= i < t + key.len() implies lower(#[trigger] p[i]) == key[i - t] by {
        assert(p[i] == name[i - t]);
        assert(lowered(name)[i - t] == lower(name[i - t]));
    }
    lemma_word_from_chars(p, key, t);
    if t > 0 {
        assert(p[t - 1] == h.last());
    }
    assert(p.last() == separator);
    assert(ends_in_field(p, key));
    lemma_fits(p, v, r);
    lemma_fits(p, w, r);
    the_log_does_not_depend_on_a_secret(p, v, w, r, j);
}

proof fn lemma_fields_kept(s: Seq<char>, n: int)
    requires
        names_no_secret(s),
        n <= secret_keys().len(),
    ensures
        fields_masked(s, secret_keys(), n) == s,
    decreases n,
{
    lemma_secret_keys();
    if n > 0 {
        let key = secret_keys()[n - 1];
        lemma_fields_kept(s, n - 1);
        lemma_next_field(s, key, 0);
        if next_field(s, key, 0) is Some {
            assert(field_at(s, secret_keys()[n - 1], next_field(s, key, 0)->0));
        }
        assert(s.subrange(0, s.len() as int) =~= s);
    }
}

/// The word `Bearer`, in any case, and the credential behind it show in the log as `***`, whatever
/// white space stands between them. What stands before and behind stays as it is.
pub proof fn a_bearer_credential_is_masked(
    h: Seq<char>,
    word: Seq<char>,
    gap: Seq<char>,
    v: Seq<char>,
    r: Seq<char>,
)
    requires
        is_quiet(h),
        word_may_follow(h),
        reads_as(word, "bearer"@),
        forall|i: int| 0 <= i < gap.len() ==> blank(#[trigger] gap[i]),
        is_credential(v),
        r.len() > 0 ==> stops_value(r[0]),
        is_quiet(r),
    ensures
        redacted(h + word + gap + v + r) == h + seq!['*', '*', '*'] + r,
{
    lemma_characters();
    lemma_bearer();
    lemma_reads(word, bearer());
    let a = h + word + gap + v;
    let s = a + r;
    assert(s =~= h + word + gap + v + r);
    let t = h.len() as int;
    let start = t + 6 + gap.len();
    let end = a.len() as int;
    assert forall|i: int| t <= i < t + 6 implies lower(#[trigger] s[i]) == bearer()[i - t] by {
        assert(s[i] == word[i - t]);
        assert(lowered(word)[i - t] == lower(word[i - t]));
    }
    lemma_word_from_chars(s, bearer(), t);
    if t > 0 {
        assert(s[t - 1] == h.last());
    }
    assert forall|i: int| t + 6 <= i < start implies is_white(#[trigger] s[i]) by {
        assert(s[i] == gap[i - t - 6]);
        assert(blank(gap[i - t - 6]));
    }
    assert(s[start] == v[0]);
    assert(!stops_value(v[0]));
    lemma_value_start_is(s, t + 6, start);
    assert forall|i: int| start <= i < end implies !ends_value(#[trigger] s[i]) by {
        assert(s[i] == v[i - start]);
        assert(!stops_value(v[i - start]));
    }
    if r.len() > 0 {
        assert(s[end] == r[0]);
    }
    lemma_value_end_is(s, start, end);
    lemma_quiet(r);
    lemma_no_bearer_kept(r, 0);
    assert(r.subrange(0, r.len() as int) =~= r);
    lemma_bearer_tail(a, r, 0);
    assert(bearer_masked_from(s, t) == mask() + r);
    lemma_copied_up_to(s, 0, t);
    assert(s.subrange(0, t) =~= h);
    let out = h + seq!['*', '*', '*'] + r;
    assert(bearer_masked_from(s, 0) =~= out);
    assert forall|i: int| 0 <= i < out.len() implies #[trigger] out[i] != '=' && out[i] != ':'
        && out[i] != 'b' && out[i] != 'B' by {
        if i < t {
            assert(out[i] == h[i]);
        } else if i >= t + 3 {
            assert(out[i] == r[i - t - 3]);
        }
    }
    lemma_quiet(out);
    lemma_fields_kept(out, secret_keys().len() as int);
}

proof fn lemma_copied_up_to(s: Seq<char>, at: int, t: int)
    requires
        0 <= at <= t <= s.len(),
        forall|i: int| 0 <= i < t ==> #[trigger] s[i] != 'b' && s[i] != 'B',
    ensures
        bearer_masked_from(s, at) == s.subrange(at, t) + bearer_masked_from(s, t),
    decreases t - at,
{
    lemma_bearer();
    if at < t {
        if word_at(s, bearer(), at) {
            lemma_word_chars(s, bearer(), at);
            assert(lower(s[at]) == 'b');
        }
        lemma_copied_up_to(s, at + 1, t);
    }
    assert(bearer_masked_from(s, at) =~= s.subrange(at, t) + bearer_masked_from(s, t));
}

/// The log receives every other line as it is: one in which none of the names stands at the
/// beginning of a word with a separator behind it, nor the word `Bearer` at the beginning of one.
pub proof fn other_lines_stay_as_they_are(line: Seq<char>)
    requires
        forall|i: int, k: int|
            #![trigger line.subrange(i, k)]
            0 <= i < k <= line.len() && word_may_follow(line.take(i)) ==> !reads_as(
                line.subrange(i, k),
                "bearer"@,
            ) && !(names_secret(line.subrange(i, k)) && k < line.len() && (line[k] == '='
                || line[k] == ':')),
    ensures
        redacted(line) == line,
{
    lemma_characters();
    lemma_bearer();
    lemma_secret_keys();
    assert forall|at: int| !#[trigger] bearer_at(line, at) by {
        if bearer_at(line, at) {
            lemma_word_chars(line, bearer(), at);
            let word = line.subrange(at, at + 6);
            assert(lowered(word) =~= bearer());
            lemma_reads(word, bearer());
            if at > 0 {
                assert(line.take(at).last() == line[at - 1]);
            }
            assert(word_may_follow(line.take(at)));
        }
    }
    assert forall|j: int, at: int| 0 <= j < secret_keys().len() implies !#[trigger] field_at(
        line,
        secret_keys()[j],
        at,
    ) by {
        let key = secret_keys()[j];
        if field_at(line, key, at) {
            lemma_word_chars(line, key, at);
            let name = line.subrange(at, at + key.len());
            assert(lowered(name) =~= key);
            lemma_reads(name, key);
            lemma_key_is_named(name, j);
            if at > 0 {
                assert(line.take(at).last() == line[at - 1]);
            }
            assert(word_may_follow(line.take(at)));
        }
    }
    lemma_no_bearer_kept(line, 0);
    assert(line.subrange(0, line.len() as int) =~= line);
    lemma_fields_kept(line, secret_keys().len() as int);
}

proof fn lemma_key_is_named(name: Seq<char>, j: int)
    requires
        0 <= j < secret_keys().len(),
        reads_as(name, secret_keys()[j]),
    ensures
        names_secret(name),
{
    let keys = secret_keys();
    assert(keys[0] == "token"@ && keys[1] == "api_key"@ && keys[2] == "apikey"@);
    assert(keys[3] == "api-key"@ && keys[4] == "authorization"@ && keys[5] == "cookie"@);
    assert(keys[6] == "set-cookie"@ && keys[7] == "password"@ && keys[8] == "passwd"@);
    assert(keys[9] == "secret"@ && keys[10] == "private_key"@ && keys[11] == "access_key"@);
    assert(keys[12] == "session_id"@);
    assert(0 <= j < 13);
}

/// A text reads as a word of small letters exactly where it is that word with its capitals made
/// small.
pub proof fn lemma_reads_small(text: Seq<char>, word: Seq<char>)
    requires
        forall|i: int| 0 <= i < word.len() ==> 'a' <= #[trigger] word[i] <= 'z',
    ensures
        reads_as(text, word) == (lowered(text) == word),
{
    if reads_as(text, word) {
        assert forall|i: int| 0 <= i < word.len() implies lowered(text)[i] == word[i] by {
            assert(text[i] == word[i] || text[i] as u32 + 32 == word[i] as u32);
            assert('a' <= word[i] <= 'z');
        }
        assert(lowered(text) =~= word);
    }
    if lowered(text) == word {
        assert forall|i: int| 0 <= i < word.len() implies {
            ||| #[trigger] text[i] == word[i]
            ||| 'a' <= word[i] <= 'z' && text[i] as u32 + 32 == word[i] as u32
        } by {
            assert(lowered(text)[i] == lower(text[i]));
        }
    }
}

} // verus!

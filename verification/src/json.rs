//! Questions about JSON texts, answered by `serde_json`.
use vstd::prelude::*;

use crate::text::opt_view;

verus! {

/// Why `serde_json::from_str::<serde_json::Value>` refuses a text: the message of its error;
/// nothing where the text is JSON.
pub uninterp spec fn json_refusal(text: Seq<char>) -> Option<Seq<char>>;

/// `serde_json::from_str` to a `serde_json::Value`, asked for its error's message. The answer
/// depends on the text alone.
#[verifier::external_body]
pub(crate) fn refusal(text: &str) -> (r: Option<String>)
    ensures
        opt_view(r) == json_refusal(text@),
{
    serde_json::from_str::<serde_json::Value>(text).err().map(|error| error.to_string())
}

/// The string that the member `key` of a JSON object holds; nothing where the text is no JSON
/// object, the member is missing or it is no string.
pub uninterp spec fn json_string_member(text: Seq<char>, key: Seq<char>) -> Option<Seq<char>>;

/// `serde_json::from_str`, then `Value::get` and `Value::as_str`. The answer depends on the text
/// and the key alone.
#[verifier::external_body]
pub(crate) fn string_member(text: &str, key: &str) -> (r: Option<String>)
    ensures
        opt_view(r) == json_string_member(text@, key@),
{
    let value: serde_json::Value = serde_json::from_str(text).ok()?;
    value.get(key)?.as_str().map(str::to_string)
}

/// Does the member `outer` of a JSON object have a member `inner`?
pub uninterp spec fn json_has_member(text: Seq<char>, outer: Seq<char>, inner: Seq<char>) -> bool;

/// `serde_json::from_str`, then `Value::get` twice. The answer depends on the text and the keys
/// alone.
#[verifier::external_body]
pub(crate) fn has_member(text: &str, outer: &str, inner: &str) -> (r: bool)
    ensures
        r == json_has_member(text@, outer@, inner@),
{
    let parsed = serde_json::from_str::<serde_json::Value>(text).ok();
    parsed.and_then(|value| value.get(outer)?.get(inner).cloned()).is_some()
}

/// Members by name, each with its value where that is a string.
pub open spec fn member_views(members: Seq<(String, Option<String>)>) -> Seq<
    (Seq<char>, Option<Seq<char>>),
> {
    Seq::new(members.len(), |i: int| (members[i].0@, opt_view(members[i].1)))
}

/// What a reading of the members gave, as texts.
pub open spec fn entries_view(
    entries: Result<Vec<(String, Option<String>)>, String>,
) -> Result<Seq<(Seq<char>, Option<Seq<char>>)>, Seq<char>> {
    match entries {
        Ok(members) => Ok(member_views(members@)),
        Err(message) => Err(message@),
    }
}

/// The members of the JSON object that bytes hold, in the object's order, each with its value
/// where that is a string; none where the bytes hold other JSON; the parser's message where they
/// hold none.
pub uninterp spec fn json_entries(bytes: Seq<u8>) -> Result<
    Seq<(Seq<char>, Option<Seq<char>>)>,
    Seq<char>,
>;

/// `serde_json::from_slice` to a `serde_json::Value`, then `Value::as_object` and
/// `Value::as_str` of each member. The result depends on the bytes alone.
#[verifier::external_body]
pub(crate) fn entries(bytes: &[u8]) -> (r: Result<Vec<(String, Option<String>)>, String>)
    ensures
        entries_view(r) == json_entries(bytes@),
{
    let value: serde_json::Value = serde_json::from_slice(bytes).map_err(|e| e.to_string())?;
    let members = value.as_object().cloned().unwrap_or_default();
    Ok(members.iter().map(|(k, v)| (k.clone(), v.as_str().map(str::to_string))).collect())
}

/// A digit of base sixteen, in lower case.
pub open spec fn hex_digit(n: int) -> char {
    if n < 10 {
        ('0' as int + n) as char
    } else {
        ('a' as int + n - 10) as char
    }
}

/// How a character is written inside a JSON string: quotes, backslashes and the characters below
/// `U+0020` are escaped, all others stand as they are.
pub open spec fn json_escaped(c: char) -> Seq<char> {
    let code = c as int;
    if c == '"' {
        seq!['\\', '"']
    } else if c == '\\' {
        seq!['\\', '\\']
    } else if code == 0x08 {
        seq!['\\', 'b']
    } else if code == 0x09 {
        seq!['\\', 't']
    } else if code == 0x0a {
        seq!['\\', 'n']
    } else if code == 0x0c {
        seq!['\\', 'f']
    } else if code == 0x0d {
        seq!['\\', 'r']
    } else if code < 0x20 {
        seq!['\\', 'u', '0', '0', hex_digit(code / 16), hex_digit(code % 16)]
    } else {
        seq![c]
    }
}

/// What stands between the quotes of the JSON string that holds a text.
pub open spec fn json_contents(text: Seq<char>) -> Seq<char>
    decreases text.len(),
{
    if text.len() == 0 {
        Seq::empty()
    } else {
        json_escaped(text[0]) + json_contents(text.drop_first())
    }
}

/// The JSON string that holds a text, quotes and escapes included.
pub open spec fn json_quoted(text: Seq<char>) -> Seq<char> {
    seq!['"'] + json_contents(text) + seq!['"']
}

/// `serde_json::Value::String` written by `to_string`: the text in quotes, each character as it
/// is or escaped as [`json_escaped`] says.
#[verifier::external_body]
pub(crate) fn quoted(text: &str) -> (r: String)
    ensures
        r@ == json_quoted(text@),
{
    serde_json::Value::String(text.to_string()).to_string()
}

/// Where the string ends that `s` is in at `at`: at the first quote that no backslash escapes.
pub open spec fn string_end(s: Seq<char>, at: int) -> int
    decreases s.len() + 1 - at,
{
    if at < 0 || at >= s.len() || s[at] == '"' {
        at
    } else if s[at] == '\\' {
        string_end(s, at + 2)
    } else {
        string_end(s, at + 1)
    }
}

proof fn lemma_escaped(c: char)
    ensures
        json_escaped(c).len() > 0,
        forall|i: int|
            0 <= i < json_escaped(c).len() ==> (#[trigger] json_escaped(c)[i]) as int >= 0x20,
        json_escaped(c)[0] == '\\' || (json_escaped(c).len() == 1 && json_escaped(c)[0] != '"'),
        json_escaped(c)[0] == '\\' ==> json_escaped(c).len() >= 2 && forall|i: int|
            2 <= i < json_escaped(c).len() ==> (#[trigger] json_escaped(c)[i]) != '"'
                && json_escaped(c)[i] != '\\',
        json_escaped(c).len() == 1 || json_escaped(c).len() == 2 || json_escaped(c).len() == 6,
{
    let code = c as int;
    if 0 <= code < 0x20 {
        assert(0 <= code / 16 < 2);
        assert(0 <= code % 16 < 16);
    }
}

/// A string goes on behind an escaped character.
proof fn lemma_string_goes_on(s: Seq<char>, at: int, c: char)
    requires
        0 <= at,
        at + json_escaped(c).len() <= s.len(),
        s.subrange(at, at + json_escaped(c).len()) == json_escaped(c),
    ensures
        string_end(s, at) == string_end(s, at + json_escaped(c).len()),
{
    lemma_escaped(c);
    let e = json_escaped(c);
    assert forall|i: int| 0 <= i < e.len() implies s[at + i] == #[trigger] e[i] by {
        assert(s.subrange(at, at + e.len())[i] == s[at + i]);
    }
    assert(s[at + 0] == e[0]);
    if e[0] == '\\' {
        if e.len() == 6 {
            assert(s[at + 2] == e[2] && s[at + 3] == e[3] && s[at + 4] == e[4] && s[at + 5]
                == e[5]);
            assert(string_end(s, at) == string_end(s, at + 2));
            assert(string_end(s, at + 2) == string_end(s, at + 3));
            assert(string_end(s, at + 3) == string_end(s, at + 4));
            assert(string_end(s, at + 4) == string_end(s, at + 5));
            assert(string_end(s, at + 5) == string_end(s, at + 6));
        }
    }
}

proof fn lemma_contents_end(s: Seq<char>, at: int, text: Seq<char>)
    requires
        0 <= at,
        at + json_contents(text).len() < s.len(),
        s.subrange(at, at + json_contents(text).len()) == json_contents(text),
        s[at + json_contents(text).len()] == '"',
    ensures
        string_end(s, at) == at + json_contents(text).len(),
        forall|i: int|
            at <= i < at + json_contents(text).len() ==> (#[trigger] s[i]) as int >= 0x20,
    decreases text.len(),
{
    if text.len() > 0 {
        let e = json_escaped(text[0]);
        let rest = json_contents(text.drop_first());
        let all = json_contents(text);
        lemma_escaped(text[0]);
        assert(s.subrange(at, at + e.len()) =~= all.subrange(0, e.len() as int));
        assert(all.subrange(0, e.len() as int) =~= e);
        lemma_string_goes_on(s, at, text[0]);
        assert(s.subrange(at + e.len(), at + e.len() + rest.len()) =~= all.subrange(
            e.len() as int,
            all.len() as int,
        ));
        assert(all.subrange(e.len() as int, all.len() as int) =~= rest);
        lemma_contents_end(s, at + e.len(), text.drop_first());
        assert forall|i: int| at <= i < at + all.len() implies (#[trigger] s[i]) as int >= 0x20 by {
            if i < at + e.len() {
                assert(s.subrange(at, at + e.len())[i - at] == e[i - at]);
            }
        }
    }
}

/// A text cannot end the string that it is written in: wherever that stands in a script, the
/// string that starts with its first quote ends with its last, and no line end or other control
/// character stands in it.
pub proof fn a_quoted_text_stays_in_its_string(
    before: Seq<char>,
    text: Seq<char>,
    behind: Seq<char>,
)
    ensures
        ({
            let script = before + json_quoted(text) + behind;
            let start = before.len() as int;
            let last = start + json_quoted(text).len() - 1;
            &&& script[start] == '"'
            &&& string_end(script, start + 1) == last
            &&& script[last] == '"'
            &&& forall|i: int| start <= i <= last ==> (#[trigger] script[i]) as int >= 0x20
        }),
{
    let script = before + json_quoted(text) + behind;
    let start = before.len() as int;
    let inside = json_contents(text);
    let last = start + 1 + inside.len();
    assert(script[start] == json_quoted(text)[0]);
    assert(script[last] == json_quoted(text)[1 + inside.len() as int]);
    assert(script.subrange(start + 1, start + 1 + inside.len()) =~= inside) by {
        assert forall|i: int| 0 <= i < inside.len() implies script[start + 1 + i] == inside[i] by {
            assert(json_quoted(text)[1 + i] == inside[i]);
        }
    }
    lemma_contents_end(script, start + 1, text);
}

/// What Rust's `{:?}` makes of a text: the text in quotes, with escapes.
pub uninterp spec fn debug_quoted(text: Seq<char>) -> Seq<char>;

/// The `Debug` form of `str` in std. The result depends on the text alone, and starts and ends
/// with a quote.
#[verifier::external_body]
pub(crate) fn debug_text(text: &str) -> (r: String)
    ensures
        r@ == debug_quoted(text@),
        r@.len() >= 2,
        r@[0] == '"',
        r@.last() == '"',
{
    format!("{:?}", text)
}

} // verus!

//! Bytes read from a pipe: what is kept of them, and the text they hold.
use vstd::prelude::*;
#[allow(unused_imports)]
use vstd::utf8::{decode_utf8, encode_utf8, valid_utf8};

use crate::split::lines_of;
#[allow(unused_imports)]
use crate::split::{joined, lines};
use crate::text::chars_of;
#[allow(unused_imports)]
use crate::text::{pieces, texts};

verus! {

/// What `String::from_utf8_lossy` of std makes of bytes.
pub uninterp spec fn utf8_lossy(bytes: Seq<u8>) -> Seq<char>;

/// `String::from_utf8_lossy` of std: the text of the bytes, with replacement characters where
/// they are no UTF-8. The result depends on the bytes alone; valid UTF-8 is decoded as it is.
#[verifier::external_body]
pub(crate) fn lossy(bytes: &[u8]) -> (r: String)
    ensures
        r@ == utf8_lossy(bytes@),
        valid_utf8(bytes@) ==> r@ == decode_utf8(bytes@),
{
    String::from_utf8_lossy(bytes).into_owned()
}

/// How many bytes the text takes.
pub open spec fn byte_len(s: Seq<char>) -> nat {
    encode_utf8(s).len()
}

/// Texts one behind the other take the bytes of both.
pub proof fn lemma_byte_len_concat(a: Seq<char>, b: Seq<char>)
    ensures
        byte_len(a + b) == byte_len(a) + byte_len(b),
    decreases a.len(),
{
    if a.len() == 0 {
        assert(a + b =~= b);
    } else {
        lemma_byte_len_concat(a.drop_first(), b);
        assert((a + b).drop_first() =~= a.drop_first() + b);
        assert((a + b)[0] == a[0]);
    }
}

/// The number of bytes that the text takes.
pub fn byte_count(text: &str) -> (r: usize)
    ensures
        r == byte_len(text@),
{
    text.as_bytes().len()
}

/// The bytes at positions `from..to`.
pub fn part(bytes: &[u8], from: usize, to: usize) -> (r: Vec<u8>)
    requires
        from <= to <= bytes@.len(),
    ensures
        r@ == bytes@.subrange(from as int, to as int),
{
    let mut out: Vec<u8> = Vec::new();
    let mut i: usize = from;
    while i < to
        invariant
            from <= i <= to <= bytes@.len(),
            out@ == bytes@.subrange(from as int, i as int),
        decreases to - i,
    {
        out.push(bytes[i]);
        proof {
            assert(out@ =~= bytes@.subrange(from as int, i + 1));
        }
        i += 1;
    }
    out
}

/// Where `byte` first occurs in `s`; the length of `s` where it does not occur.
pub open spec fn byte_position(s: Seq<u8>, byte: u8) -> int
    decreases s.len(),
{
    if s.len() == 0 || s[0] == byte {
        0
    } else {
        1 + byte_position(s.subrange(1, s.len() as int), byte)
    }
}

/// What [`byte_position`] gives.
pub proof fn lemma_byte_position(s: Seq<u8>, byte: u8)
    ensures
        0 <= byte_position(s, byte) <= s.len(),
        byte_position(s, byte) < s.len() ==> s[byte_position(s, byte)] == byte,
        forall|j: int| 0 <= j < byte_position(s, byte) ==> s[j] != byte,
    decreases s.len(),
{
    if s.len() == 0 || s[0] == byte {
    } else {
        let rest = s.subrange(1, s.len() as int);
        lemma_byte_position(rest, byte);
        assert forall|j: int| 0 <= j < byte_position(s, byte) implies s[j] != byte by {
            if j > 0 {
                assert(rest[j - 1] == s[j]);
            }
        }
    }
}

/// Finds where `byte` first occurs.
pub fn position_of_byte(bytes: &[u8], byte: u8) -> (r: usize)
    ensures
        r == byte_position(bytes@, byte),
        r <= bytes@.len(),
{
    let mut i: usize = 0;
    while i < bytes.len() && bytes[i] != byte
        invariant
            i <= bytes@.len(),
            forall|j: int| 0 <= j < i ==> bytes@[j] != byte,
        decreases bytes@.len() - i,
    {
        i += 1;
    }
    proof {
        lemma_byte_position(bytes@, byte);
    }
    i
}

/// The bytes up to and including the last newline.
pub open spec fn whole_lines(s: Seq<u8>) -> Seq<u8>
    decreases s.len(),
{
    if s.len() == 0 || s.last() == 10 {
        s
    } else {
        whole_lines(s.drop_last())
    }
}

/// The bytes up to and including the last newline: the lines that are known to be whole.
pub fn complete_lines(bytes: &[u8]) -> (r: Vec<u8>)
    ensures
        r@ == whole_lines(bytes@),
{
    let mut end: usize = bytes.len();
    proof {
        assert(bytes@.subrange(0, end as int) =~= bytes@);
    }
    while end > 0 && bytes[end - 1] != 10
        invariant
            end <= bytes@.len(),
            whole_lines(bytes@.subrange(0, end as int)) == whole_lines(bytes@),
        decreases end,
    {
        proof {
            let s = bytes@.subrange(0, end as int);
            assert(s.drop_last() =~= bytes@.subrange(0, end - 1));
        }
        end -= 1;
    }
    part(bytes, 0, end)
}

/// What is kept of a stream is the start of it, without a part of a line at its end.
pub proof fn whole_lines_end_a_line(s: Seq<u8>)
    ensures
        whole_lines(s).len() <= s.len(),
        whole_lines(s) == s.subrange(0, whole_lines(s).len() as int),
        whole_lines(s).len() > 0 ==> whole_lines(s).last() == 10,
    decreases s.len(),
{
    if s.len() == 0 || s.last() == 10 {
        assert(s.subrange(0, s.len() as int) =~= s);
    } else {
        whole_lines_end_a_line(s.drop_last());
        let kept = whole_lines(s);
        assert(kept =~= s.subrange(0, kept.len() as int));
    }
}

/// A bounded slice of a stream: its first bytes, and whether there were more.
#[derive(Debug, Clone, PartialEq, Eq)]
pub struct Captured {
    pub bytes: Vec<u8>,
    pub truncated: bool,
}

impl Captured {
    /// Is this what a bound of `limit` bytes keeps of the stream `seen`?
    pub open spec fn of(self, seen: Seq<u8>, limit: nat) -> bool {
        &&& self.bytes@ == seen.take(if seen.len() <= limit {
            seen.len() as int
        } else {
            limit as int
        })
        &&& self.truncated == (seen.len() > limit)
    }

    /// Nothing read yet.
    pub fn empty() -> (r: Captured)
        ensures
            r.bytes@ == Seq::<u8>::empty(),
            !r.truncated,
            forall|limit: nat| r.of(Seq::empty(), limit),
    {
        let r = Captured { bytes: Vec::new(), truncated: false };
        proof {
            assert forall|limit: nat| r.of(Seq::empty(), limit) by {
                assert(r.bytes@ =~= Seq::<u8>::empty().take(0));
            }
        }
        r
    }

    /// Takes the next bytes of the stream, as far as `limit` leaves room for them.
    pub fn keep(&mut self, chunk: &[u8], limit: usize)
        ensures
            ({
                let room = if old(self).bytes@.len() < limit {
                    limit - old(self).bytes@.len()
                } else {
                    0
                };
                let take = if chunk@.len() <= room {
                    chunk@.len() as int
                } else {
                    room
                };
                &&& final(self).bytes@ == old(self).bytes@ + chunk@.take(take)
                &&& final(self).truncated == (old(self).truncated || take < chunk@.len())
            }),
            forall|seen: Seq<u8>|
                old(self).of(seen, limit as nat) ==> #[trigger] final(self).of(
                    seen + chunk@,
                    limit as nat,
                ),
    {
        let ghost before = *self;
        let room: usize = if self.bytes.len() < limit {
            limit - self.bytes.len()
        } else {
            0
        };
        let take: usize = if chunk.len() <= room {
            chunk.len()
        } else {
            room
        };
        let mut i: usize = 0;
        while i < take
            invariant
                i <= take <= chunk@.len(),
                self.bytes@ == before.bytes@ + chunk@.take(i as int),
                self.truncated == before.truncated,
            decreases take - i,
        {
            self.bytes.push(chunk[i]);
            proof {
                assert(self.bytes@ =~= before.bytes@ + chunk@.take(i + 1));
            }
            i += 1;
        }
        if take < chunk.len() {
            self.truncated = true;
        }
        proof {
            let after = *self;
            assert forall|seen: Seq<u8>| before.of(seen, limit as nat) implies #[trigger] after.of(
                seen + chunk@,
                limit as nat,
            ) by {
                let all = seen + chunk@;
                let kept = if all.len() <= limit {
                    all.len() as int
                } else {
                    limit as int
                };
                assert(after.bytes@ =~= all.take(kept));
            }
        }
    }

    /// The first `count` lines of what was kept, in one line that says where it is not all.
    pub fn summary(&self, count: usize) -> (r: String)
        ensures
            r@ == summarised(utf8_lossy(self.bytes@), count as nat, self.truncated),
    {
        summary_of(lossy(self.bytes.as_slice()).as_str(), count, self.truncated)
    }
}

/// The first `count` of the parts.
pub open spec fn first_parts(parts: Seq<Seq<char>>, count: nat) -> Seq<Seq<char>> {
    parts.take(if parts.len() <= count {
        parts.len() as int
    } else {
        count as int
    })
}

/// The first `count` lines of a text with ` | ` between them, and a note where it was cut.
pub open spec fn summarised(text: Seq<char>, count: nat, truncated: bool) -> Seq<char> {
    let head = joined(first_parts(lines(text), count), " | "@);
    if truncated {
        head + " | …（输出过长，已截断）"@
    } else {
        head
    }
}

/// Writes the first `count` lines of a text in one line.
pub fn summary_of(text: &str, count: usize, truncated: bool) -> (r: String)
    ensures
        r@ == summarised(text@, count as nat, truncated),
{
    let mut all = crate::split::strings_of(&lines_of(&chars_of(text)));
    let ghost whole = texts(all@);
    if count < all.len() {
        all.truncate(count);
    }
    proof {
        assert(texts(all@) =~= first_parts(whole, count as nat));
    }
    let mut out = crate::split::join(all.as_slice(), " | ");
    if truncated {
        out.append(" | …（输出过长，已截断）");
    }
    out
}

/// Only a line without its end is left out.
pub proof fn whole_lines_lose_no_line(s: Seq<u8>)
    ensures
        forall|i: int| whole_lines(s).len() <= i < s.len() ==> s[i] != 10,
    decreases s.len(),
{
    if s.len() > 0 && s.last() != 10 {
        let rest = s.drop_last();
        whole_lines_lose_no_line(rest);
        assert forall|i: int| whole_lines(s).len() <= i < s.len() implies s[i] != 10 by {
            if i < rest.len() {
                assert(rest[i] == s[i]);
            }
        }
    }
}

/// A summary is the first lines in their order, with ` | ` between each two, up to the count; and
/// it says where the text was cut.
pub proof fn a_summary_is_the_first_lines(text: Seq<char>, count: nat)
    ensures
        summarised(text, 0, false) == Seq::<char>::empty(),
        lines(text).len() > 0 ==> summarised(text, 1, false) == lines(text)[0],
        0 < count < lines(text).len() ==> summarised(text, count + 1, false) == summarised(
            text,
            count,
            false,
        ) + " | "@ + lines(text)[count as int],
        count >= lines(text).len() ==> summarised(text, count, false) == joined(
            lines(text),
            " | "@,
        ),
        summarised(text, count, true) == summarised(text, count, false)
            + " | …（输出过长，已截断）"@,
{
    let all = lines(text);
    assert(first_parts(all, 0) =~= Seq::<Seq<char>>::empty());
    if all.len() > 0 {
        assert(first_parts(all, 1) =~= seq![all[0]]);
    }
    if 0 < count < all.len() {
        let more = first_parts(all, count + 1);
        assert(more.drop_last() =~= first_parts(all, count));
        assert(more.last() == all[count as int]);
    }
    if count >= all.len() {
        assert(first_parts(all, count) =~= all);
    }
}

} // verus!

//! Semantic versions with prereleases: reading, writing and ordering them.
use std::cmp::Ordering;
use vstd::prelude::*;

use crate::number::{decimal_text, parse_u64};
#[allow(unused_imports)]
use crate::number::{decimal, decimal_reads_back, is_digit, u64_in};
use crate::split::{join, position_of, split_at_char, strings_of};
#[allow(unused_imports)]
use crate::split::{joined, lemma_position, lemma_split_nonempty, position, split, split_then_join};
use crate::text::{chars_of, piece, skip_leading, trim};
#[allow(unused_imports)]
use crate::text::{
    is_white, pieces, texts, trimmed, without_leading, without_leading_white, without_trailing_white,
};

verus! {

/// `major.minor.patch`, with the identifiers of a prerelease after a `-`.
#[derive(Debug, Clone, PartialEq, Eq)]
pub struct Version {
    pub major: u64,
    pub minor: u64,
    pub patch: u64,
    pub pre: Vec<String>,
}

/// A version as numbers and texts.
pub struct VersionModel {
    pub major: nat,
    pub minor: nat,
    pub patch: nat,
    pub pre: Seq<Seq<char>>,
}

impl View for Version {
    type V = VersionModel;

    open spec fn view(&self) -> VersionModel {
        VersionModel {
            major: self.major as nat,
            minor: self.minor as nat,
            patch: self.patch as nat,
            pre: texts(self.pre@),
        }
    }
}

/// An optional version as numbers and texts.
pub open spec fn opt_version(v: Option<Version>) -> Option<VersionModel> {
    match v {
        Some(version) => Some(version@),
        None => None,
    }
}

/// The text that a version is read from: what stands between the white space around it, without
/// the `v` before it.
pub open spec fn version_core(raw: Seq<char>) -> Seq<char> {
    without_leading(trimmed(raw), 'v')
}

/// The version that a text writes, if it writes one: three numbers with dots between them and,
/// after the first `-`, the identifiers of the prerelease with dots between them.
pub open spec fn version_in(raw: Seq<char>) -> Option<VersionModel> {
    let text = version_core(raw);
    let p = position(text, '-');
    let numbers = split(text.subrange(0, p), '.');
    let pre = if p < text.len() {
        split(text.subrange(p + 1, text.len() as int), '.')
    } else {
        Seq::empty()
    };
    if numbers.len() == 3 {
        match (u64_in(numbers[0]), u64_in(numbers[1]), u64_in(numbers[2])) {
            (Some(major), Some(minor), Some(patch)) => Some(
                VersionModel { major, minor, patch, pre },
            ),
            _ => None,
        }
    } else {
        None
    }
}

/// How a version is written.
pub open spec fn version_text(v: VersionModel) -> Seq<char> {
    let core = decimal(v.major) + seq!['.'] + decimal(v.minor) + seq!['.'] + decimal(v.patch);
    if v.pre.len() == 0 {
        core
    } else {
        core + seq!['-'] + joined(v.pre, seq!['.'])
    }
}

/// Does `a` come before `b` in the order of their characters?
pub open spec fn text_below(a: Seq<char>, b: Seq<char>) -> bool
    decreases a.len(),
{
    if b.len() == 0 {
        false
    } else if a.len() == 0 {
        true
    } else if a[0] != b[0] {
        a[0] < b[0]
    } else {
        text_below(a.subrange(1, a.len() as int), b.subrange(1, b.len() as int))
    }
}

/// Does the prerelease identifier `a` rank below `b`? Numbers rank by their value and below
/// every other identifier; the others rank by their characters.
pub open spec fn id_below(a: Seq<char>, b: Seq<char>) -> bool {
    match (u64_in(a), u64_in(b)) {
        (Some(x), Some(y)) => x < y,
        (Some(_), None) => true,
        (None, Some(_)) => false,
        (None, None) => text_below(a, b),
    }
}

/// Do the identifiers `a` rank below `b`? The first that differ in rank decide; a list that
/// only goes on ranks above.
pub open spec fn ids_below(a: Seq<Seq<char>>, b: Seq<Seq<char>>) -> bool
    decreases a.len(),
{
    if b.len() == 0 {
        false
    } else if a.len() == 0 {
        true
    } else if id_below(a[0], b[0]) {
        true
    } else if id_below(b[0], a[0]) {
        false
    } else {
        ids_below(a.subrange(1, a.len() as int), b.subrange(1, b.len() as int))
    }
}

/// Does the prerelease `a` rank below `b`? A release, which has no identifiers, ranks above
/// every prerelease of it.
pub open spec fn pre_below(a: Seq<Seq<char>>, b: Seq<Seq<char>>) -> bool {
    if a.len() == 0 {
        false
    } else if b.len() == 0 {
        true
    } else {
        ids_below(a, b)
    }
}

/// Does the version `a` rank below `b`?
pub open spec fn version_below(a: VersionModel, b: VersionModel) -> bool {
    if a.major != b.major {
        a.major < b.major
    } else if a.minor != b.minor {
        a.minor < b.minor
    } else if a.patch != b.patch {
        a.patch < b.patch
    } else {
        pre_below(a.pre, b.pre)
    }
}

/// How one value ranks against another.
#[derive(Debug, Clone, Copy, PartialEq, Eq, Structural)]
pub enum Rank {
    Below,
    Level,
    Above,
}

/// Ranks two texts by their characters.
pub fn rank_texts(a: &[char], b: &[char]) -> (r: Rank)
    ensures
        (r == Rank::Below) == text_below(a@, b@),
        (r == Rank::Above) == text_below(b@, a@),
{
    let mut i: usize = 0;
    proof {
        assert(a@.subrange(0, a@.len() as int) =~= a@);
        assert(b@.subrange(0, b@.len() as int) =~= b@);
    }
    loop
        invariant
            i <= a@.len(),
            i <= b@.len(),
            text_below(a@, b@) == text_below(
                a@.subrange(i as int, a@.len() as int),
                b@.subrange(i as int, b@.len() as int),
            ),
            text_below(b@, a@) == text_below(
                b@.subrange(i as int, b@.len() as int),
                a@.subrange(i as int, a@.len() as int),
            ),
        decreases a@.len() - i,
    {
        let ghost x = a@.subrange(i as int, a@.len() as int);
        let ghost y = b@.subrange(i as int, b@.len() as int);
        if i == a.len() {
            return if i == b.len() {
                Rank::Level
            } else {
                Rank::Below
            };
        }
        if i == b.len() {
            return Rank::Above;
        }
        proof {
            assert(x[0] == a@[i as int]);
            assert(y[0] == b@[i as int]);
            assert(x.subrange(1, x.len() as int) =~= a@.subrange(i + 1, a@.len() as int));
            assert(y.subrange(1, y.len() as int) =~= b@.subrange(i + 1, b@.len() as int));
        }
        if a[i] < b[i] {
            return Rank::Below;
        }
        if b[i] < a[i] {
            return Rank::Above;
        }
        i += 1;
    }
}

/// Ranks two prerelease identifiers.
fn rank_ids(a: &str, b: &str) -> (r: Rank)
    ensures
        (r == Rank::Below) == id_below(a@, b@),
        (r == Rank::Above) == id_below(b@, a@),
{
    let x = chars_of(a);
    let y = chars_of(b);
    match (parse_u64(&x), parse_u64(&y)) {
        (Some(m), Some(n)) => if m < n {
            Rank::Below
        } else if n < m {
            Rank::Above
        } else {
            Rank::Level
        },
        (Some(_), None) => Rank::Below,
        (None, Some(_)) => Rank::Above,
        (None, None) => rank_texts(&x, &y),
    }
}

/// Ranks the identifiers of two prereleases.
fn rank_pre(a: &Vec<String>, b: &Vec<String>) -> (r: Rank)
    ensures
        (r == Rank::Below) == pre_below(texts(a@), texts(b@)),
        (r == Rank::Above) == pre_below(texts(b@), texts(a@)),
{
    if a.len() == 0 {
        return if b.len() == 0 {
            Rank::Level
        } else {
            Rank::Above
        };
    }
    if b.len() == 0 {
        return Rank::Below;
    }
    let ghost p = texts(a@);
    let ghost q = texts(b@);
    let mut i: usize = 0;
    proof {
        assert(p.subrange(0, p.len() as int) =~= p);
        assert(q.subrange(0, q.len() as int) =~= q);
    }
    loop
        invariant
            p == texts(a@),
            q == texts(b@),
            i <= p.len(),
            i <= q.len(),
            ids_below(p, q) == ids_below(
                p.subrange(i as int, p.len() as int),
                q.subrange(i as int, q.len() as int),
            ),
            ids_below(q, p) == ids_below(
                q.subrange(i as int, q.len() as int),
                p.subrange(i as int, p.len() as int),
            ),
            a@.len() > 0,
            b@.len() > 0,
        decreases p.len() - i,
    {
        let ghost x = p.subrange(i as int, p.len() as int);
        let ghost y = q.subrange(i as int, q.len() as int);
        if i == a.len() {
            return if i == b.len() {
                Rank::Level
            } else {
                Rank::Below
            };
        }
        if i == b.len() {
            return Rank::Above;
        }
        let rank = rank_ids(a[i].as_str(), b[i].as_str());
        proof {
            assert(x[0] == a@[i as int]@);
            assert(y[0] == b@[i as int]@);
            assert(x.subrange(1, x.len() as int) =~= p.subrange(i + 1, p.len() as int));
            assert(y.subrange(1, y.len() as int) =~= q.subrange(i + 1, q.len() as int));
            lemma_id_below_asymmetric(x[0], y[0]);
        }
        match rank {
            Rank::Below => {
                return Rank::Below;
            },
            Rank::Above => {
                return Rank::Above;
            },
            Rank::Level => {},
        }
        i += 1;
    }
}

impl Version {
    /// Reads a version.
    pub fn parse(raw: &str) -> (r: Option<Version>)
        ensures
            opt_version(r) == version_in(raw@),
    {
        let text = skip_leading(&trim(&chars_of(raw)), 'v');
        let p: usize = position_of(&text, '-');
        let core = piece(&text, 0, p);
        let numbers = split_at_char(&core, '.');
        let ghost spec_numbers = split(text@.subrange(0, p as int), '.');
        proof {
            assert(pieces(numbers@) == spec_numbers);
            assert(forall|i: int| 0 <= i < numbers@.len() ==> pieces(numbers@)[i] == numbers@[i]@);
        }
        let pre: Vec<String> = if p < text.len() {
            let tail = piece(&text, p + 1, text.len());
            strings_of(&split_at_char(&tail, '.'))
        } else {
            let none: Vec<String> = Vec::new();
            proof {
                assert(texts(none@) =~= Seq::<Seq<char>>::empty());
            }
            none
        };
        if numbers.len() != 3 {
            return None;
        }
        match (parse_u64(&numbers[0]), parse_u64(&numbers[1]), parse_u64(&numbers[2])) {
            (Some(major), Some(minor), Some(patch)) => Some(Version { major, minor, patch, pre }),
            _ => None,
        }
    }

    /// How the version ranks against another.
    pub fn rank(&self, other: &Version) -> (r: Rank)
        ensures
            (r == Rank::Below) == version_below(self@, other@),
            (r == Rank::Above) == version_below(other@, self@),
    {
        if self.major != other.major {
            if self.major < other.major {
                Rank::Below
            } else {
                Rank::Above
            }
        } else if self.minor != other.minor {
            if self.minor < other.minor {
                Rank::Below
            } else {
                Rank::Above
            }
        } else if self.patch != other.patch {
            if self.patch < other.patch {
                Rank::Below
            } else {
                Rank::Above
            }
        } else {
            rank_pre(&self.pre, &other.pre)
        }
    }

    /// Writes the version.
    pub fn to_text(&self) -> (r: String)
        ensures
            r@ == version_text(self@),
    {
        let mut out = decimal_text(self.major);
        out.push('.');
        out.append(decimal_text(self.minor).as_str());
        out.push('.');
        out.append(decimal_text(self.patch).as_str());
        proof {
            assert(out@ =~= decimal(self@.major) + seq!['.'] + decimal(self@.minor) + seq!['.']
                + decimal(self@.patch));
        }
        if self.pre.len() > 0 {
            let ghost core = out@;
            proof {
                reveal_strlit(".");
                assert("."@ =~= seq!['.']);
            }
            out.push('-');
            out.append(join(&self.pre, ".").as_str());
            proof {
                assert(out@ =~= core + seq!['-'] + joined(self@.pre, seq!['.']));
            }
        }
        out
    }
}

/// The order of [`version_below`], as the standard comparison gives it.
pub open spec fn version_order(a: VersionModel, b: VersionModel) -> Ordering {
    if version_below(a, b) {
        Ordering::Less
    } else if version_below(b, a) {
        Ordering::Greater
    } else {
        Ordering::Equal
    }
}

impl PartialOrd for Version {
    fn partial_cmp(&self, other: &Version) -> (r: Option<Ordering>) {
        proof {
            below_is_asymmetric(self@, other@);
        }
        match self.rank(other) {
            Rank::Below => Some(Ordering::Less),
            Rank::Level => Some(Ordering::Equal),
            Rank::Above => Some(Ordering::Greater),
        }
    }
}

impl vstd::std_specs::cmp::PartialOrdSpecImpl for Version {
    open spec fn obeys_partial_cmp_spec() -> bool {
        true
    }

    open spec fn partial_cmp_spec(&self, other: &Version) -> Option<Ordering> {
        Some(version_order(self@, other@))
    }
}

/// Of two texts at most one comes before the other.
pub proof fn lemma_text_below_asymmetric(a: Seq<char>, b: Seq<char>)
    ensures
        !(text_below(a, b) && text_below(b, a)),
    decreases a.len(),
{
    if a.len() > 0 && b.len() > 0 && a[0] == b[0] {
        lemma_text_below_asymmetric(a.subrange(1, a.len() as int), b.subrange(1, b.len() as int));
    }
}

/// Coming before is transitive, and so is not coming before.
pub proof fn lemma_text_below_weak(a: Seq<char>, b: Seq<char>, c: Seq<char>)
    ensures
        text_below(a, b) && text_below(b, c) ==> text_below(a, c),
        !text_below(a, b) && !text_below(b, c) ==> !text_below(a, c),
    decreases a.len(),
{
    if a.len() > 0 && b.len() > 0 && c.len() > 0 && a[0] == b[0] && b[0] == c[0] {
        lemma_text_below_weak(
            a.subrange(1, a.len() as int),
            b.subrange(1, b.len() as int),
            c.subrange(1, c.len() as int),
        );
    }
}

proof fn lemma_id_below_asymmetric(a: Seq<char>, b: Seq<char>)
    ensures
        !(id_below(a, b) && id_below(b, a)),
{
    lemma_text_below_asymmetric(a, b);
}

proof fn lemma_id_below_weak(a: Seq<char>, b: Seq<char>, c: Seq<char>)
    ensures
        id_below(a, b) && id_below(b, c) ==> id_below(a, c),
        !id_below(a, b) && !id_below(b, c) ==> !id_below(a, c),
{
    lemma_text_below_weak(a, b, c);
}

proof fn lemma_ids_below_asymmetric(a: Seq<Seq<char>>, b: Seq<Seq<char>>)
    ensures
        !(ids_below(a, b) && ids_below(b, a)),
    decreases a.len(),
{
    if a.len() > 0 && b.len() > 0 {
        lemma_id_below_asymmetric(a[0], b[0]);
        lemma_ids_below_asymmetric(a.subrange(1, a.len() as int), b.subrange(1, b.len() as int));
    }
}

proof fn lemma_ids_below_weak(a: Seq<Seq<char>>, b: Seq<Seq<char>>, c: Seq<Seq<char>>)
    ensures
        ids_below(a, b) && ids_below(b, c) ==> ids_below(a, c),
        !ids_below(a, b) && !ids_below(b, c) ==> !ids_below(a, c),
    decreases a.len(),
{
    if a.len() > 0 && b.len() > 0 && c.len() > 0 {
        lemma_id_below_weak(a[0], b[0], c[0]);
        lemma_id_below_weak(b[0], c[0], a[0]);
        lemma_id_below_weak(c[0], a[0], b[0]);
        lemma_id_below_weak(c[0], b[0], a[0]);
        lemma_id_below_weak(b[0], a[0], c[0]);
        lemma_id_below_weak(a[0], c[0], b[0]);
        lemma_id_below_asymmetric(a[0], b[0]);
        lemma_id_below_asymmetric(b[0], c[0]);
        lemma_id_below_asymmetric(a[0], c[0]);
        lemma_ids_below_weak(
            a.subrange(1, a.len() as int),
            b.subrange(1, b.len() as int),
            c.subrange(1, c.len() as int),
        );
    }
}

/// No version ranks both below and above another; none ranks below itself.
pub proof fn below_is_asymmetric(a: VersionModel, b: VersionModel)
    ensures
        !(version_below(a, b) && version_below(b, a)),
        !version_below(a, a),
{
    lemma_ids_below_asymmetric(a.pre, b.pre);
    lemma_ids_below_asymmetric(a.pre, a.pre);
}

/// Ranking below is transitive.
pub proof fn below_is_transitive(a: VersionModel, b: VersionModel, c: VersionModel)
    requires
        version_below(a, b),
        version_below(b, c),
    ensures
        version_below(a, c),
{
    lemma_ids_below_weak(a.pre, b.pre, c.pre);
}

/// Not ranking below is transitive too, so that versions of one rank are interchangeable.
pub proof fn not_below_is_transitive(a: VersionModel, b: VersionModel, c: VersionModel)
    requires
        !version_below(a, b),
        !version_below(b, c),
    ensures
        !version_below(a, c),
{
    lemma_ids_below_weak(a.pre, b.pre, c.pre);
}

/// A release ranks above every prerelease of the same three numbers.
pub proof fn release_outranks_its_prereleases(release: VersionModel, pre: VersionModel)
    requires
        release.major == pre.major,
        release.minor == pre.minor,
        release.patch == pre.patch,
        release.pre.len() == 0,
        pre.pre.len() > 0,
    ensures
        version_below(pre, release),
{
}

/// Cutting at the first occurrence of the separator.
pub proof fn lemma_split_first(head: Seq<char>, c: char, rest: Seq<char>)
    requires
        !head.contains(c),
    ensures
        position(head + seq![c] + rest, c) == head.len(),
        split(head + seq![c] + rest, c) == seq![head] + split(rest, c),
{
    let s = head + seq![c] + rest;
    lemma_position(s, c);
    let p = position(s, c);
    assert(s[head.len() as int] == c);
    if p < head.len() {
        assert(head[p] == s[p]);
    }
    assert(s.subrange(0, p) =~= head);
    assert(s.subrange(p + 1, s.len() as int) =~= rest);
}

/// A text without the separator is one part.
pub proof fn lemma_split_whole(s: Seq<char>, c: char)
    requires
        !s.contains(c),
    ensures
        position(s, c) == s.len(),
        split(s, c) == seq![s],
{
    lemma_position(s, c);
    if position(s, c) < s.len() {
        assert(s[position(s, c)] == c);
    }
}

proof fn lemma_decimal_plain(n: nat)
    ensures
        decimal(n).len() > 0,
        forall|i: int| 0 <= i < decimal(n).len() ==> is_digit(#[trigger] decimal(n)[i]),
        !decimal(n).contains('.'),
        !decimal(n).contains('-'),
        n <= u64::MAX ==> u64_in(decimal(n)) == Some(n),
{
    decimal_reads_back(n);
    assert(is_digit(decimal(n)[0]));
}

proof fn lemma_trailing(s: Seq<char>)
    ensures
        without_trailing_white(s).len() > 0 ==> !is_white(without_trailing_white(s).last()),
    decreases s.len(),
{
    if s.len() > 0 && is_white(s.last()) {
        lemma_trailing(s.drop_last());
    }
}

proof fn lemma_leading_keeps_last(s: Seq<char>, c: char)
    ensures
        without_leading(s, c).len() > 0 ==> without_leading(s, c).last() == s.last(),
    decreases s.len(),
{
    if s.len() > 0 && s[0] == c {
        lemma_leading_keeps_last(s.subrange(1, s.len() as int), c);
    }
}

/// Writing a version and reading it gives the version back, where its numbers fit and its
/// prerelease is what a text cut at the dots gives.
pub proof fn lemma_text_reads_back(v: VersionModel, tail: Option<Seq<char>>)
    requires
        v.major <= u64::MAX,
        v.minor <= u64::MAX,
        v.patch <= u64::MAX,
        (match tail {
            Some(t) => v.pre == split(t, '.') && (t.len() > 0 ==> !is_white(t.last())),
            None => v.pre.len() == 0,
        }),
    ensures
        version_in(version_text(v)) == Some(v),
{
    let major = decimal(v.major);
    let minor = decimal(v.minor);
    let patch = decimal(v.patch);
    lemma_decimal_plain(v.major);
    lemma_decimal_plain(v.minor);
    lemma_decimal_plain(v.patch);
    let core = major + seq!['.'] + minor + seq!['.'] + patch;
    assert(core =~= major + seq!['.'] + (minor + seq!['.'] + patch));
    lemma_split_first(major, '.', minor + seq!['.'] + patch);
    lemma_split_first(minor, '.', patch);
    lemma_split_whole(patch, '.');
    let numbers = split(core, '.');
    assert(numbers =~= seq![major, minor, patch]);
    assert(!core.contains('-')) by {
        if core.contains('-') {
            let i = choose|i: int| 0 <= i < core.len() && core[i] == '-';
            let a = major.len() as int;
            let b = minor.len() as int;
            if i < a {
                assert(core[i] == major[i]);
            } else if a < i < a + 1 + b {
                assert(core[i] == minor[i - a - 1]);
            } else if i > a + 1 + b {
                assert(core[i] == patch[i - a - b - 2]);
            }
        }
    }
    let text = version_text(v);
    assert(text[0] == major[0]);
    assert(is_digit(major[0]));
    assert(without_leading_white(text) == text);
    match tail {
        Some(t) => {
            lemma_split_nonempty(t, '.');
            split_then_join(t, '.');
            assert(text == core + seq!['-'] + t);
            assert(!is_white(text.last())) by {
                if t.len() == 0 {
                    assert(text.last() == '-');
                } else {
                    assert(text.last() == t.last());
                }
            }
            assert(trimmed(text) == text);
            assert(version_core(text) == text);
            lemma_split_first(core, '-', t);
            assert(text.subrange(0, core.len() as int) =~= core);
            assert(text.subrange(core.len() as int + 1, text.len() as int) =~= t);
        },
        None => {
            assert(text == core);
            assert(text.last() == patch.last());
            assert(is_digit(patch[patch.len() - 1]));
            assert(trimmed(text) == text);
            assert(version_core(text) == text);
            lemma_split_whole(core, '-');
            assert(text.subrange(0, core.len() as int) =~= core);
            assert(v.pre =~= Seq::<Seq<char>>::empty());
        },
    }
}

/// Writing a version that was read and reading it again gives the same version.
pub proof fn a_written_version_reads_back(raw: Seq<char>)
    requires
        version_in(raw) is Some,
    ensures
        version_in(version_text(version_in(raw)->0)) == version_in(raw),
{
    let v = version_in(raw)->0;
    let source = version_core(raw);
    let at = position(source, '-');
    lemma_position(source, '-');
    if at < source.len() {
        let tail = source.subrange(at + 1, source.len() as int);
        lemma_trailing(without_leading_white(raw));
        lemma_leading_keeps_last(trimmed(raw), 'v');
        assert(source.last() == trimmed(raw).last());
        if tail.len() > 0 {
            assert(tail.last() == source.last());
        }
        lemma_text_reads_back(v, Some(tail));
    } else {
        lemma_text_reads_back(v, None);
    }
}

/// Identifiers that two prereleases begin with alike do not decide between them.
proof fn lemma_common_ids(lead: Seq<Seq<char>>, a: Seq<Seq<char>>, b: Seq<Seq<char>>)
    ensures
        ids_below(lead + a, lead + b) == ids_below(a, b),
    decreases lead.len(),
{
    if lead.len() == 0 {
        assert(lead + a =~= a);
        assert(lead + b =~= b);
    } else {
        let rest = lead.subrange(1, lead.len() as int);
        let x = lead + a;
        let y = lead + b;
        lemma_common_ids(rest, a, b);
        lemma_id_below_asymmetric(lead[0], lead[0]);
        assert(x[0] == lead[0] && y[0] == lead[0]);
        assert(x.subrange(1, x.len() as int) =~= rest + a);
        assert(y.subrange(1, y.len() as int) =~= rest + b);
    }
}

proof fn lemma_first_ids(
    lead: Seq<Seq<char>>,
    low: Seq<char>,
    high: Seq<char>,
    x: Seq<Seq<char>>,
    y: Seq<Seq<char>>,
)
    requires
        id_below(low, high),
    ensures
        pre_below(lead + seq![low] + x, lead + seq![high] + y),
        !pre_below(lead + seq![high] + y, lead + seq![low] + x),
{
    let a = seq![low] + x;
    let b = seq![high] + y;
    lemma_common_ids(lead, a, b);
    assert(lead + seq![low] + x =~= lead + a);
    assert(lead + seq![high] + y =~= lead + b);
    assert(a[0] == low && b[0] == high);
    lemma_ids_below_asymmetric(lead + a, lead + b);
}

/// A version with these numbers and these prerelease identifiers.
pub open spec fn version_of(
    major: nat,
    minor: nat,
    patch: nat,
    pre: Seq<Seq<char>>,
) -> VersionModel {
    VersionModel { major, minor, patch, pre }
}

/// Two versions that agree up to a prerelease identifier that is a number in both rank by the
/// value of that number, whatever follows it: `rc.9` is below `rc.10`.
pub proof fn a_number_ranks_by_its_value(
    major: nat,
    minor: nat,
    patch: nat,
    lead: Seq<Seq<char>>,
    m: nat,
    n: nat,
    x: Seq<Seq<char>>,
    y: Seq<Seq<char>>,
)
    requires
        m < n <= u64::MAX,
    ensures
        version_below(
            version_of(major, minor, patch, lead + seq![decimal(m)] + x),
            version_of(major, minor, patch, lead + seq![decimal(n)] + y),
        ),
        !version_below(
            version_of(major, minor, patch, lead + seq![decimal(n)] + y),
            version_of(major, minor, patch, lead + seq![decimal(m)] + x),
        ),
{
    lemma_decimal_plain(m);
    lemma_decimal_plain(n);
    lemma_first_ids(lead, decimal(m), decimal(n), x, y);
}

/// Two versions that agree up to a prerelease identifier that is a number in one and a word in
/// the other: the number ranks below the word.
pub proof fn a_number_ranks_below_a_word(
    major: nat,
    minor: nat,
    patch: nat,
    lead: Seq<Seq<char>>,
    n: nat,
    word: Seq<char>,
    at: int,
    x: Seq<Seq<char>>,
    y: Seq<Seq<char>>,
)
    requires
        n <= u64::MAX,
        0 <= at < word.len(),
        word[at] != '+' && !('0' <= word[at] <= '9'),
    ensures
        version_below(
            version_of(major, minor, patch, lead + seq![decimal(n)] + x),
            version_of(major, minor, patch, lead + seq![word] + y),
        ),
        !version_below(
            version_of(major, minor, patch, lead + seq![word] + y),
            version_of(major, minor, patch, lead + seq![decimal(n)] + x),
        ),
{
    lemma_decimal_plain(n);
    lemma_is_word(word, at);
    lemma_first_ids(lead, decimal(n), word, x, y);
}

proof fn lemma_is_word(word: Seq<char>, at: int)
    requires
        0 <= at < word.len(),
        word[at] != '+' && !('0' <= word[at] <= '9'),
    ensures
        u64_in(word) is None,
{
    if word[0] == '+' {
        let digits = word.subrange(1, word.len() as int);
        assert(digits[at - 1] == word[at]);
        assert(!is_digit(digits[at - 1]));
    } else {
        assert(!is_digit(word[at]));
    }
}

/// What two texts have in common at their start does not rank them.
pub proof fn lemma_common_text(common: Seq<char>, a: Seq<char>, b: Seq<char>)
    ensures
        text_below(common + a, common + b) == text_below(a, b),
    decreases common.len(),
{
    if common.len() == 0 {
        assert(common + a =~= a);
        assert(common + b =~= b);
    } else {
        let rest = common.subrange(1, common.len() as int);
        let x = common + a;
        let y = common + b;
        lemma_common_text(rest, a, b);
        assert(x.subrange(1, x.len() as int) =~= rest + a);
        assert(y.subrange(1, y.len() as int) =~= rest + b);
    }
}

/// Two versions that agree up to a prerelease identifier that is a word in both rank by the first
/// character in which the words differ: `alpha` is below `beta`, and `rc` below `rcx`.
pub proof fn words_rank_by_their_characters(
    major: nat,
    minor: nat,
    patch: nat,
    lead: Seq<Seq<char>>,
    low: Seq<char>,
    high: Seq<char>,
    k: int,
    x: Seq<Seq<char>>,
    y: Seq<Seq<char>>,
)
    requires
        0 <= k < high.len(),
        k <= low.len(),
        low.len() > 0 && low[0] != '+' && !('0' <= low[0] <= '9'),
        high[0] != '+' && !('0' <= high[0] <= '9'),
        forall|i: int| 0 <= i < k ==> #[trigger] low[i] == high[i],
        k < low.len() ==> low[k] < high[k],
    ensures
        version_below(
            version_of(major, minor, patch, lead + seq![low] + x),
            version_of(major, minor, patch, lead + seq![high] + y),
        ),
        !version_below(
            version_of(major, minor, patch, lead + seq![high] + y),
            version_of(major, minor, patch, lead + seq![low] + x),
        ),
{
    lemma_is_word(low, 0);
    lemma_is_word(high, 0);
    let common = low.subrange(0, k);
    let a = low.subrange(k, low.len() as int);
    let b = high.subrange(k, high.len() as int);
    assert(low =~= common + a);
    assert(high =~= common + b);
    lemma_common_text(common, a, b);
    assert(text_below(a, b));
    lemma_first_ids(lead, low, high, x, y);
}

/// A prerelease whose identifiers only go on ranks above: `rc` is below `rc.1`.
pub proof fn more_identifiers_rank_above(
    major: nat,
    minor: nat,
    patch: nat,
    ids: Seq<Seq<char>>,
    more: Seq<Seq<char>>,
)
    requires
        ids.len() > 0,
        more.len() > 0,
    ensures
        version_below(
            version_of(major, minor, patch, ids),
            version_of(major, minor, patch, ids + more),
        ),
        !version_below(
            version_of(major, minor, patch, ids + more),
            version_of(major, minor, patch, ids),
        ),
{
    let none = Seq::<Seq<char>>::empty();
    lemma_common_ids(ids, none, more);
    assert(ids + none =~= ids);
    lemma_ids_below_asymmetric(ids, ids + more);
}

/// The three numbers decide, the first that differs, whatever the prereleases are.
pub proof fn the_numbers_decide(a: VersionModel, b: VersionModel)
    requires
        a.major < b.major || (a.major == b.major && a.minor < b.minor) || (a.major == b.major
            && a.minor == b.minor && a.patch < b.patch),
    ensures
        version_below(a, b),
        !version_below(b, a),
{
}

proof fn lemma_leading_letters(letters: Seq<char>, rest: Seq<char>, c: char)
    requires
        forall|i: int| 0 <= i < letters.len() ==> #[trigger] letters[i] == c,
        rest.len() > 0 ==> rest[0] != c,
    ensures
        without_leading(letters + rest, c) == rest,
    decreases letters.len(),
{
    if letters.len() == 0 {
        assert(letters + rest =~= rest);
    } else {
        let less = letters.subrange(1, letters.len() as int);
        let s = letters + rest;
        assert(s[0] == letters[0]);
        assert(s.subrange(1, s.len() as int) =~= less + rest);
        lemma_leading_letters(less, rest, c);
    }
}

/// A text that writes three numbers with dots between them, and perhaps a `-` and identifiers
/// with dots between them, reads as exactly those, with white space around it and with a `v` in
/// front of it or without.
pub proof fn a_version_reads_as_it_is_written(
    before: Seq<char>,
    letters: Seq<char>,
    major: nat,
    minor: nat,
    patch: nat,
    ids: Seq<Seq<char>>,
    behind: Seq<char>,
)
    requires
        major <= u64::MAX,
        minor <= u64::MAX,
        patch <= u64::MAX,
        forall|i: int|
            0 <= i < before.len() ==> #[trigger] before[i] == ' ' || before[i] == '\t' || before[i]
                == '\n' || before[i] == '\r',
        forall|i: int|
            0 <= i < behind.len() ==> #[trigger] behind[i] == ' ' || behind[i] == '\t' || behind[i]
                == '\n' || behind[i] == '\r',
        forall|i: int| 0 <= i < letters.len() ==> #[trigger] letters[i] == 'v',
        forall|k: int, i: int|
            0 <= k < ids.len() && 0 <= i < ids[k].len() ==> (#[trigger] ids[k][i]) != '.'
                && '!' <= ids[k][i] <= '~',
    ensures
        ({
            let numbers = decimal(major) + seq!['.'] + decimal(minor) + seq!['.'] + decimal(patch);
            let text = if ids.len() == 0 {
                numbers
            } else {
                numbers + seq!['-'] + joined(ids, seq!['.'])
            };
            version_in(before + letters + text + behind) == Some(
                version_of(major, minor, patch, ids),
            )
        }),
{
    let v = version_of(major, minor, patch, ids);
    let text = version_text(v);
    if ids.len() == 0 {
        lemma_text_reads_back(v, None);
    } else {
        assert forall|k: int| 0 <= k < ids.len() implies !(#[trigger] ids[k]).contains('.') by {
            if ids[k].contains('.') {
                let i = choose|i: int| 0 <= i < ids[k].len() && ids[k][i] == '.';
                assert(ids[k][i] != '.');
            }
        }
        lemma_join_then_split(ids, '.');
        let tail = joined(ids, seq!['.']);
        lemma_joined_last(ids);
        lemma_text_reads_back(v, Some(tail));
    }
    lemma_decimal_plain(major);
    lemma_decimal_plain(patch);
    assert(text[0] == decimal(major)[0]);
    assert(is_digit(decimal(major)[0]));
    lemma_text_ends_plain(v);
    let whole = before + letters + text + behind;
    let inner = letters + text;
    assert(inner[0] == if letters.len() > 0 {
        letters[0]
    } else {
        text[0]
    });
    assert(inner.last() == text.last());
    assert(whole =~= before + (inner + behind));
    let rest = inner + behind;
    assert(rest[0] == inner[0]);
    crate::text::lemma_leading_white(before, rest);
    crate::text::lemma_trailing_white(inner, behind);
    lemma_leading_letters(letters, text, 'v');
    assert(version_core(whole) == text);
    // The bare text is its own core.
    assert(without_leading_white(text) == text);
    crate::text::lemma_trailing_white(text, Seq::empty());
    assert(text + Seq::<char>::empty() =~= text);
    lemma_leading_letters(Seq::empty(), text, 'v');
    assert(Seq::<char>::empty() + text =~= text);
    assert(version_core(text) == text);
}

proof fn lemma_text_ends_plain(v: VersionModel)
    requires
        forall|k: int, i: int|
            0 <= k < v.pre.len() && 0 <= i < v.pre[k].len() ==> '!' <= (#[trigger] v.pre[k][i])
                <= '~',
    ensures
        version_text(v).len() > 0,
        !is_white(version_text(v).last()),
{
    let text = version_text(v);
    lemma_decimal_plain(v.patch);
    if v.pre.len() == 0 {
        assert(text.last() == decimal(v.patch).last());
        assert(is_digit(decimal(v.patch)[decimal(v.patch).len() - 1]));
    } else {
        lemma_joined_last(v.pre);
        let tail = joined(v.pre, seq!['.']);
        if tail.len() == 0 {
            assert(text.last() == '-');
        } else {
            assert(text.last() == tail.last());
        }
    }
}

proof fn lemma_joined_last(ids: Seq<Seq<char>>)
    requires
        ids.len() > 0,
        forall|k: int, i: int|
            0 <= k < ids.len() && 0 <= i < ids[k].len() ==> '!' <= (#[trigger] ids[k][i]) <= '~',
    ensures
        joined(ids, seq!['.']).len() > 0 ==> !is_white(joined(ids, seq!['.']).last()),
{
    let tail = joined(ids, seq!['.']);
    let last = ids.last();
    if last.len() > 0 {
        assert(tail.last() == last.last());
        assert(ids[ids.len() - 1][last.len() - 1] == last.last());
    } else if ids.len() > 1 {
        assert(tail.last() == '.');
    }
}

/// Parts without the separator come back from a text in which they stand with it between them.
pub proof fn lemma_join_then_split(parts: Seq<Seq<char>>, c: char)
    requires
        parts.len() > 0,
        forall|i: int| 0 <= i < parts.len() ==> !(#[trigger] parts[i]).contains(c),
    ensures
        split(joined(parts, seq![c]), c) == parts,
    decreases parts.len(),
{
    if parts.len() == 1 {
        lemma_split_whole(parts[0], c);
        assert(parts =~= seq![parts[0]]);
    } else {
        let rest = parts.subrange(1, parts.len() as int);
        assert(parts =~= seq![parts[0]] + rest);
        crate::split::lemma_join_cons(parts[0], rest, seq![c]);
        assert forall|i: int| 0 <= i < rest.len() implies !(#[trigger] rest[i]).contains(c) by {
            assert(rest[i] == parts[i + 1]);
        }
        lemma_join_then_split(rest, c);
        lemma_split_first(parts[0], c, joined(rest, seq![c]));
    }
}

/// A text that is not three numbers with dots between them, up to its first `-`, writes no
/// version.
pub proof fn three_numbers_make_a_version(parts: Seq<Seq<char>>, tail: Seq<char>)
    requires
        parts.len() > 0,
        forall|k: int, i: int|
            0 <= k < parts.len() && 0 <= i < parts[k].len() ==> (#[trigger] parts[k][i]) != '.'
                && parts[k][i] != '-' && parts[k][i] != 'v' && '!' <= parts[k][i] <= '~',
        forall|i: int| 0 <= i < tail.len() ==> '!' <= #[trigger] tail[i] <= '~',
    ensures
        version_in(joined(parts, seq!['.']) + seq!['-'] + tail) is Some <==> {
            &&& parts.len() == 3
            &&& forall|k: int| 0 <= k < 3 ==> u64_in(#[trigger] parts[k]) is Some
        },
{
    let core = joined(parts, seq!['.']);
    let text = core + seq!['-'] + tail;
    assert forall|k: int| 0 <= k < parts.len() implies !(#[trigger] parts[k]).contains('.')
        && !parts[k].contains('-') by {
        if parts[k].contains('.') {
            let i = choose|i: int| 0 <= i < parts[k].len() && parts[k][i] == '.';
            assert(parts[k][i] != '.');
        }
        if parts[k].contains('-') {
            let i = choose|i: int| 0 <= i < parts[k].len() && parts[k][i] == '-';
            assert(parts[k][i] != '-');
        }
    }
    lemma_join_then_split(parts, '.');
    lemma_joined_plain(parts);
    assert(!core.contains('-')) by {
        if core.contains('-') {
            let i = choose|i: int| 0 <= i < core.len() && core[i] == '-';
            assert(core[i] != '-');
        }
    }
    lemma_split_first(core, '-', tail);
    assert(text[0] == if core.len() > 0 {
        core[0]
    } else {
        '-'
    });
    assert(!is_white(text.last())) by {
        if tail.len() > 0 {
            assert(text.last() == tail[tail.len() - 1]);
        } else {
            assert(text.last() == '-');
        }
    }
    crate::text::lemma_leading_white(Seq::empty(), text);
    crate::text::lemma_trailing_white(text, Seq::empty());
    assert(Seq::<char>::empty() + text =~= text);
    assert(text + Seq::<char>::empty() =~= text);
    lemma_leading_letters(Seq::empty(), text, 'v');
    assert(version_core(text) == text);
    assert(text.subrange(0, core.len() as int) =~= core);
    if parts.len() == 3 {
        assert(u64_in(parts[0]) is Some || u64_in(parts[0]) is None);
    }
}

proof fn lemma_joined_plain(parts: Seq<Seq<char>>)
    requires
        parts.len() > 0,
        forall|k: int, i: int|
            0 <= k < parts.len() && 0 <= i < parts[k].len() ==> (#[trigger] parts[k][i]) != '.'
                && parts[k][i] != '-' && parts[k][i] != 'v' && '!' <= parts[k][i] <= '~',
    ensures
        forall|i: int|
            0 <= i < joined(parts, seq!['.']).len() ==> {
                let c = #[trigger] joined(parts, seq!['.'])[i];
                c != '-' && c != 'v' && '!' <= c <= '~'
            },
    decreases parts.len(),
{
    let all = joined(parts, seq!['.']);
    if parts.len() == 1 {
        assert(all == parts[0]);
        assert forall|i: int| 0 <= i < all.len() implies {
            let c = #[trigger] all[i];
            c != '-' && c != 'v' && '!' <= c <= '~'
        } by {
            assert(parts[0][i] != '-');
        }
    } else {
        let less = parts.drop_last();
        assert forall|k: int, i: int| 0 <= k < less.len() && 0 <= i < less[k].len() implies (
        #[trigger] less[k][i]) != '.' && less[k][i] != '-' && less[k][i] != 'v' && '!'
            <= less[k][i] <= '~' by {
            assert(parts[k][i] == less[k][i]);
        }
        lemma_joined_plain(less);
        let head = joined(less, seq!['.']);
        assert forall|i: int| 0 <= i < all.len() implies {
            let c = #[trigger] all[i];
            c != '-' && c != 'v' && '!' <= c <= '~'
        } by {
            if i < head.len() {
                assert(all[i] == head[i]);
            } else if i > head.len() {
                let j = i - head.len() - 1;
                assert(all[i] == parts[parts.len() - 1][j]);
            }
        }
    }
}

} // verus!

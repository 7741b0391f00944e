//! Lists of directories such as `PATH`.
use vstd::prelude::*;

use crate::paths::{are_same_path, is_absolute, unverbatim};
#[allow(unused_imports)]
use crate::paths::{path_is_absolute, path_unverbatim, same_path};
use crate::split::{join, split_text, strings_of};
#[allow(unused_imports)]
use crate::split::{joined, split};
use crate::text::chars_of;
#[allow(unused_imports)]
use crate::text::{opt_view, pieces, texts};

verus! {

/// The parts of a Windows list from `at` on: `;` separates them, except between quotes, which
/// are left out. `part` is what was read of the current one.
pub open spec fn windows_parts(
    s: Seq<char>,
    at: int,
    part: Seq<char>,
    quoted: bool,
) -> Seq<Seq<char>>
    decreases s.len() - at,
{
    if at < 0 || at >= s.len() {
        seq![part]
    } else if s[at] == '"' {
        windows_parts(s, at + 1, part, !quoted)
    } else if s[at] == ';' && !quoted {
        seq![part] + windows_parts(s, at + 1, Seq::empty(), false)
    } else {
        windows_parts(s, at + 1, part.push(s[at]), quoted)
    }
}

/// The directories in a list, in order: `:` separates them, on Windows `;`.
pub open spec fn listed_dirs(s: Seq<char>, windows: bool) -> Seq<Seq<char>> {
    if windows {
        windows_parts(s, 0, Seq::empty(), false)
    } else {
        split(s, ':')
    }
}

fn split_windows(s: &[char]) -> (r: Vec<Vec<char>>)
    ensures
        pieces(r@) == windows_parts(s@, 0, Seq::empty(), false),
{
    let mut out: Vec<Vec<char>> = Vec::new();
    let mut part: Vec<char> = Vec::new();
    let mut quoted = false;
    let mut i: usize = 0;
    let ghost whole = windows_parts(s@, 0, Seq::empty(), false);
    proof {
        assert(part@ =~= Seq::<char>::empty());
        assert(pieces(out@) + windows_parts(s@, 0, part@, false) =~= whole);
    }
    while i < s.len()
        invariant
            i <= s@.len(),
            pieces(out@) + windows_parts(s@, i as int, part@, quoted) == whole,
        decreases s@.len() - i,
    {
        let c = s[i];
        if c == '"' {
            quoted = !quoted;
        } else if c == ';' && !quoted {
            let ghost before = pieces(out@);
            let ghost last = part@;
            out.push(part);
            part = Vec::new();
            proof {
                assert(part@ =~= Seq::<char>::empty());
                assert(pieces(out@) =~= before + seq![last]);
                assert(pieces(out@) + windows_parts(s@, i + 1, part@, false) =~= before
                    + windows_parts(s@, i as int, last, false));
            }
        } else {
            part.push(c);
        }
        i += 1;
    }
    let ghost before = pieces(out@);
    out.push(part);
    proof {
        assert(pieces(out@) =~= before + windows_parts(s@, i as int, part@, quoted));
    }
    out
}

/// The directories in a list.
pub fn split_dirs(list: &str, windows: bool) -> (r: Vec<String>)
    ensures
        texts(r@) == listed_dirs(list@, windows),
{
    if windows {
        strings_of(&split_windows(&chars_of(list)))
    } else {
        split_text(list, ':')
    }
}

/// Can the directory stand in a list? Not one that holds the separator, or on Windows a quote.
pub open spec fn can_be_listed(dir: Seq<char>, windows: bool) -> bool {
    if windows {
        !dir.contains('"')
    } else {
        !dir.contains(':')
    }
}

/// How a directory is written in a list: on Windows in quotes where it holds the separator.
pub open spec fn as_listed(dir: Seq<char>, windows: bool) -> Seq<char> {
    if windows && dir.contains(';') {
        seq!['"'] + dir + seq!['"']
    } else {
        dir
    }
}

/// The separator of a list.
pub open spec fn list_separator(windows: bool) -> Seq<char> {
    if windows {
        ";"@
    } else {
        ":"@
    }
}

/// The list of the directories, if each can stand in one.
pub open spec fn dirs_listed(dirs: Seq<Seq<char>>, windows: bool) -> Option<Seq<char>> {
    if forall|i: int| 0 <= i < dirs.len() ==> can_be_listed(#[trigger] dirs[i], windows) {
        Some(
            joined(
                Seq::new(dirs.len(), |i: int| as_listed(dirs[i], windows)),
                list_separator(windows),
            ),
        )
    } else {
        None
    }
}

fn has(s: &[char], c: char) -> (r: bool)
    ensures
        r == s@.contains(c),
{
    let mut i: usize = 0;
    while i < s.len()
        invariant
            i <= s@.len(),
            forall|j: int| 0 <= j < i ==> s@[j] != c,
        decreases s@.len() - i,
    {
        if s[i] == c {
            proof {
                assert(s@[i as int] == c);
            }
            return true;
        }
        i += 1;
    }
    false
}

/// Writes a list of directories; none where one of them cannot stand in a list.
pub fn join_dirs(dirs: &[String], windows: bool) -> (r: Option<String>)
    ensures
        opt_view(r) == dirs_listed(texts(dirs@), windows),
{
    let mut parts: Vec<String> = Vec::new();
    let mut i: usize = 0;
    while i < dirs.len()
        invariant
            i <= dirs@.len(),
            parts@.len() == i,
            forall|j: int| 0 <= j < i ==> can_be_listed(#[trigger] texts(dirs@)[j], windows),
            forall|j: int| 0 <= j < i ==> parts@[j]@ == as_listed(#[trigger] texts(dirs@)[j], windows),
        decreases dirs@.len() - i,
    {
        let s = chars_of(dirs[i].as_str());
        proof {
            assert(texts(dirs@)[i as int] == s@);
        }
        if (windows && has(&s, '"')) || (!windows && has(&s, ':')) {
            proof {
                assert(!can_be_listed(texts(dirs@)[i as int], windows));
            }
            return None;
        }
        if windows && has(&s, ';') {
            let mut quoted = String::new();
            quoted.push('"');
            quoted.append(dirs[i].as_str());
            quoted.push('"');
            proof {
                assert(quoted@ =~= seq!['"'] + s@ + seq!['"']);
            }
            parts.push(quoted);
        } else {
            parts.push(dirs[i].clone());
        }
        i += 1;
    }
    proof {
        assert(texts(parts@) =~= Seq::new(
            dirs@.len(),
            |k: int| as_listed(texts(dirs@)[k], windows),
        ));
    }
    if windows {
        Some(join(parts.as_slice(), ";"))
    } else {
        Some(join(parts.as_slice(), ":"))
    }
}

/// Is the directory among `dirs`, in whatever spelling?
pub open spec fn lists_dir(dirs: Seq<Seq<char>>, dir: Seq<char>, windows: bool) -> bool {
    exists|i: int| 0 <= i < dirs.len() && same_path(#[trigger] dirs[i], dir, windows)
}

/// The directories with one more behind them, unless it is there.
pub open spec fn with_dir(dirs: Seq<Seq<char>>, dir: Seq<char>, windows: bool) -> Seq<Seq<char>> {
    if lists_dir(dirs, dir, windows) {
        dirs
    } else {
        dirs.push(dir)
    }
}

/// Are no two of the directories the same path?
pub open spec fn all_differ(dirs: Seq<Seq<char>>, windows: bool) -> bool {
    forall|i: int, j: int|
        0 <= i < j < dirs.len() ==> !same_path(#[trigger] dirs[i], #[trigger] dirs[j], windows)
}

/// Is the directory among `dirs`?
pub(crate) fn has_dir(dirs: &[String], dir: &str, windows: bool) -> (r: bool)
    ensures
        r == lists_dir(texts(dirs@), dir@, windows),
{
    let mut i: usize = 0;
    while i < dirs.len()
        invariant
            i <= dirs@.len(),
            forall|j: int| 0 <= j < i ==> !same_path(#[trigger] texts(dirs@)[j], dir@, windows),
        decreases dirs@.len() - i,
    {
        proof {
            assert(texts(dirs@)[i as int] == dirs@[i as int]@);
        }
        if are_same_path(dirs[i].as_str(), dir, windows) {
            return true;
        }
        i += 1;
    }
    false
}

fn push_new(dirs: &mut Vec<String>, dir: String, windows: bool)
    ensures
        texts(final(dirs)@) == with_dir(texts(old(dirs)@), dir@, windows),
{
    if !has_dir(dirs.as_slice(), dir.as_str(), windows) {
        let ghost before = texts(dirs@);
        dirs.push(dir);
        proof {
            assert(texts(dirs@) =~= before.push(dir@));
        }
    }
}

/// The directories with those of a list behind them: absolute ones only, as a relative one would
/// mean the child's own directory, and each once.
pub open spec fn with_absolute(
    dirs: Seq<Seq<char>>,
    more: Seq<Seq<char>>,
    windows: bool,
) -> Seq<Seq<char>>
    decreases more.len(),
{
    if more.len() == 0 {
        dirs
    } else {
        let before = with_absolute(dirs, more.drop_last(), windows);
        if path_is_absolute(more.last(), windows) {
            with_dir(before, path_unverbatim(more.last(), windows), windows)
        } else {
            before
        }
    }
}

/// Adds the absolute directories of a list that are not there yet.
fn add_absolute(dirs: &mut Vec<String>, list: &str, windows: bool)
    ensures
        texts(final(dirs)@) == with_absolute(
            texts(old(dirs)@),
            listed_dirs(list@, windows),
            windows,
        ),
{
    let more = split_dirs(list, windows);
    let ghost start = texts(dirs@);
    let ghost all = listed_dirs(list@, windows);
    let mut i: usize = 0;
    proof {
        assert(all.take(0) =~= Seq::<Seq<char>>::empty());
    }
    while i < more.len()
        invariant
            i <= more@.len(),
            texts(more@) == all,
            texts(dirs@) == with_absolute(start, all.take(i as int), windows),
        decreases more@.len() - i,
    {
        proof {
            let next = all.take(i + 1);
            assert(next.drop_last() =~= all.take(i as int));
            assert(next.last() == more@[i as int]@);
        }
        if is_absolute(more[i].as_str(), windows) {
            push_new(dirs, unverbatim(more[i].as_str(), windows), windows);
        }
        i += 1;
    }
    proof {
        assert(all.take(all.len() as int) =~= all);
    }
}

/// The directories of several lists, one behind the other.
pub open spec fn with_lists(
    dirs: Seq<Seq<char>>,
    more: Seq<Seq<char>>,
    windows: bool,
) -> Seq<Seq<char>>
    decreases more.len(),
{
    if more.len() == 0 {
        dirs
    } else {
        let before = with_lists(dirs, more.drop_last(), windows);
        if more.last().len() > 0 {
            with_absolute(before, listed_dirs(more.last(), windows), windows)
        } else {
            before
        }
    }
}

/// The directories of a list that may be missing behind others.
pub open spec fn with_optional(
    dirs: Seq<Seq<char>>,
    list: Option<Seq<char>>,
    windows: bool,
) -> Seq<Seq<char>> {
    match list {
        Some(l) => with_absolute(dirs, listed_dirs(l, windows), windows),
        None => dirs,
    }
}

/// The directories of a merged PATH: the prefix, then the login shell's, then the app's.
pub open spec fn merged_dirs(
    prefix: Seq<Seq<char>>,
    shell: Option<Seq<char>>,
    app: Option<Seq<char>>,
    windows: bool,
) -> Seq<Seq<char>> {
    with_optional(
        with_optional(with_lists(Seq::empty(), prefix, windows), shell, windows),
        app,
        windows,
    )
}

/// A merged PATH; the app's own where the directories cannot be written as a list.
pub open spec fn merged_path(
    prefix: Seq<Seq<char>>,
    shell: Option<Seq<char>>,
    app: Option<Seq<char>>,
    windows: bool,
) -> Seq<char> {
    match dirs_listed(merged_dirs(prefix, shell, app, windows), windows) {
        Some(list) => list,
        None => match app {
            Some(list) => list,
            None => Seq::empty(),
        },
    }
}

/// Merges PATH sources, first one first. Relative entries are dropped.
pub fn merge_path(
    prefix: &[String],
    shell_path: Option<&str>,
    app_path: Option<&str>,
    windows: bool,
) -> (r: String)
    ensures
        r@ == merged_path(
            texts(prefix@),
            crate::runtime::str_view(shell_path),
            crate::runtime::str_view(app_path),
            windows,
        ),
{
    let mut dirs: Vec<String> = Vec::new();
    let ghost all = texts(prefix@);
    let mut i: usize = 0;
    proof {
        assert(texts(dirs@) =~= Seq::<Seq<char>>::empty());
        assert(all.take(0) =~= Seq::<Seq<char>>::empty());
    }
    while i < prefix.len()
        invariant
            i <= prefix@.len(),
            all == texts(prefix@),
            texts(dirs@) == with_lists(Seq::empty(), all.take(i as int), windows),
        decreases prefix@.len() - i,
    {
        proof {
            let next = all.take(i + 1);
            assert(next.drop_last() =~= all.take(i as int));
            assert(next.last() == prefix@[i as int]@);
        }
        if !prefix[i].as_str().is_empty() {
            add_absolute(&mut dirs, prefix[i].as_str(), windows);
        }
        i += 1;
    }
    proof {
        assert(all.take(all.len() as int) =~= all);
    }
    match shell_path {
        Some(list) => add_absolute(&mut dirs, list, windows),
        None => {},
    }
    match app_path {
        Some(list) => add_absolute(&mut dirs, list, windows),
        None => {},
    }
    match join_dirs(dirs.as_slice(), windows) {
        Some(list) => list,
        None => match app_path {
            Some(list) => list.to_owned(),
            None => String::new(),
        },
    }
}

/// The directories with those of a list behind them, each once.
pub open spec fn with_all(
    dirs: Seq<Seq<char>>,
    more: Seq<Seq<char>>,
    windows: bool,
) -> Seq<Seq<char>>
    decreases more.len(),
{
    if more.len() == 0 {
        dirs
    } else {
        with_dir(with_all(dirs, more.drop_last(), windows), more.last(), windows)
    }
}

/// The directories with a directory in front and those of a list behind it, each once.
pub open spec fn led_dirs(lead: Seq<char>, list: Option<Seq<char>>, windows: bool) -> Seq<Seq<char>> {
    let first = if lead.len() > 0 {
        seq![lead]
    } else {
        Seq::empty()
    };
    match list {
        Some(l) => with_all(first, listed_dirs(l, windows), windows),
        None => first,
    }
}

/// A PATH in which one directory leads; the list as it was where it cannot be written.
pub fn lead_path(lead: &str, existing: Option<&str>, windows: bool) -> (r: String)
    ensures
        r@ == (match dirs_listed(
            led_dirs(lead@, crate::runtime::str_view(existing), windows),
            windows,
        ) {
            Some(list) => list,
            None => match existing {
                Some(list) => list@,
                None => Seq::empty(),
            },
        }),
{
    let mut dirs: Vec<String> = Vec::new();
    if !lead.is_empty() {
        dirs.push(lead.to_owned());
    }
    let ghost first = if lead@.len() > 0 {
        seq![lead@]
    } else {
        Seq::empty()
    };
    proof {
        assert(texts(dirs@) =~= first);
    }
    match existing {
        Some(list) => {
            let more = split_dirs(list, windows);
            let ghost all = listed_dirs(list@, windows);
            let mut i: usize = 0;
            proof {
                assert(all.take(0) =~= Seq::<Seq<char>>::empty());
            }
            while i < more.len()
                invariant
                    i <= more@.len(),
                    texts(more@) == all,
                    texts(dirs@) == with_all(first, all.take(i as int), windows),
                decreases more@.len() - i,
            {
                proof {
                    let next = all.take(i + 1);
                    assert(next.drop_last() =~= all.take(i as int));
                    assert(next.last() == more@[i as int]@);
                }
                push_new(&mut dirs, more[i].clone(), windows);
                i += 1;
            }
            proof {
                assert(all.take(all.len() as int) =~= all);
            }
        },
        None => {},
    }
    match join_dirs(dirs.as_slice(), windows) {
        Some(list) => list,
        None => match existing {
            Some(list) => list.to_owned(),
            None => String::new(),
        },
    }
}

proof fn lemma_with_dir(dirs: Seq<Seq<char>>, dir: Seq<char>, windows: bool)
    requires
        all_differ(dirs, windows),
    ensures
        all_differ(with_dir(dirs, dir, windows), windows),
{
    let after = with_dir(dirs, dir, windows);
    assert forall|i: int, j: int| 0 <= i < j < after.len() implies !same_path(
        #[trigger] after[i],
        #[trigger] after[j],
        windows,
    ) by {
        assert(after[i] == dirs[i]);
        if j < dirs.len() {
            assert(after[j] == dirs[j]);
        }
    }
}

proof fn lemma_with_absolute(dirs: Seq<Seq<char>>, more: Seq<Seq<char>>, windows: bool)
    requires
        all_differ(dirs, windows),
    ensures
        all_differ(with_absolute(dirs, more, windows), windows),
    decreases more.len(),
{
    if more.len() > 0 {
        lemma_with_absolute(dirs, more.drop_last(), windows);
        lemma_with_dir(
            with_absolute(dirs, more.drop_last(), windows),
            path_unverbatim(more.last(), windows),
            windows,
        );
    }
}

proof fn lemma_with_lists(more: Seq<Seq<char>>, windows: bool)
    ensures
        all_differ(with_lists(Seq::empty(), more, windows), windows),
    decreases more.len(),
{
    if more.len() > 0 {
        lemma_with_lists(more.drop_last(), windows);
        lemma_with_absolute(
            with_lists(Seq::empty(), more.drop_last(), windows),
            listed_dirs(more.last(), windows),
            windows,
        );
    }
}

/// No directory stands in a merged PATH twice, not even in two spellings.
pub proof fn a_merged_path_repeats_nothing(
    prefix: Seq<Seq<char>>,
    shell: Option<Seq<char>>,
    app: Option<Seq<char>>,
    windows: bool,
)
    ensures
        all_differ(merged_dirs(prefix, shell, app, windows), windows),
{
    lemma_with_lists(prefix, windows);
    let a = with_lists(Seq::empty(), prefix, windows);
    if shell is Some {
        lemma_with_absolute(a, listed_dirs(shell->0, windows), windows);
    }
    let b = with_optional(a, shell, windows);
    if app is Some {
        lemma_with_absolute(b, listed_dirs(app->0, windows), windows);
    }
}

proof fn lemma_with_all(dirs: Seq<Seq<char>>, more: Seq<Seq<char>>, windows: bool)
    requires
        all_differ(dirs, windows),
    ensures
        all_differ(with_all(dirs, more, windows), windows),
    decreases more.len(),
{
    if more.len() > 0 {
        lemma_with_all(dirs, more.drop_last(), windows);
        lemma_with_dir(with_all(dirs, more.drop_last(), windows), more.last(), windows);
    }
}

/// A PATH in which one directory leads names no directory twice either, and the leading one first.
pub proof fn a_led_path_repeats_nothing(lead: Seq<char>, list: Option<Seq<char>>, windows: bool)
    ensures
        all_differ(led_dirs(lead, list, windows), windows),
        lead.len() > 0 ==> led_dirs(lead, list, windows).len() > 0 && led_dirs(
            lead,
            list,
            windows,
        )[0] == lead,
{
    let first = if lead.len() > 0 {
        seq![lead]
    } else {
        Seq::empty()
    };
    if list is Some {
        lemma_with_all(first, listed_dirs(list->0, windows), windows);
        lemma_led_first(first, listed_dirs(list->0, windows), windows);
    }
    if lead.len() > 0 {
        assert(first.len() == 1 && first[0] == lead);
        assert(led_dirs(lead, list, windows)[0] == first[0]);
    }
}

proof fn lemma_led_first(first: Seq<Seq<char>>, more: Seq<Seq<char>>, windows: bool)
    ensures
        with_all(first, more, windows).len() >= first.len(),
        forall|i: int|
            0 <= i < first.len() ==> with_all(first, more, windows)[i] == #[trigger] first[i],
    decreases more.len(),
{
    if more.len() > 0 {
        lemma_led_first(first, more.drop_last(), windows);
    }
}

/// Is the directory one of these, and absolute?
pub open spec fn absolute_of(dir: Seq<char>, dirs: Seq<Seq<char>>, windows: bool) -> bool {
    exists|k: int|
        0 <= k < dirs.len() && path_is_absolute(#[trigger] dirs[k], windows) && dir
            == path_unverbatim(dirs[k], windows)
}

/// Does the directory stand in the list as an absolute one?
pub open spec fn comes_from(dir: Seq<char>, list: Seq<char>, windows: bool) -> bool {
    absolute_of(dir, listed_dirs(list, windows), windows)
}

proof fn lemma_absolute_grows(dirs: Seq<Seq<char>>, more: Seq<Seq<char>>, windows: bool)
    ensures
        dirs.is_prefix_of(with_absolute(dirs, more, windows)),
    decreases more.len(),
{
    if more.len() > 0 {
        let before = with_absolute(dirs, more.drop_last(), windows);
        let out = with_absolute(dirs, more, windows);
        lemma_absolute_grows(dirs, more.drop_last(), windows);
        assert(before.is_prefix_of(out));
        assert(dirs =~= out.subrange(0, dirs.len() as int));
    } else {
        assert(dirs =~= dirs.subrange(0, dirs.len() as int));
    }
}

proof fn lemma_still_listed(
    dirs: Seq<Seq<char>>,
    more: Seq<Seq<char>>,
    d: Seq<char>,
    windows: bool,
)
    requires
        dirs.is_prefix_of(more),
        lists_dir(dirs, d, windows),
    ensures
        lists_dir(more, d, windows),
{
    let i = choose|i: int| 0 <= i < dirs.len() && same_path(#[trigger] dirs[i], d, windows);
    assert(more.subrange(0, dirs.len() as int)[i] == more[i]);
}

proof fn lemma_absolute_added(
    dirs: Seq<Seq<char>>,
    more: Seq<Seq<char>>,
    d: Seq<char>,
    windows: bool,
)
    requires
        absolute_of(d, more, windows),
    ensures
        lists_dir(with_absolute(dirs, more, windows), d, windows),
    decreases more.len(),
{
    let k = choose|k: int|
        0 <= k < more.len() && path_is_absolute(#[trigger] more[k], windows) && d
            == path_unverbatim(more[k], windows);
    let rest = more.drop_last();
    let before = with_absolute(dirs, rest, windows);
    let out = with_absolute(dirs, more, windows);
    if k < rest.len() {
        assert(rest[k] == more[k]);
        lemma_absolute_added(dirs, rest, d, windows);
        assert(before =~= out.subrange(0, before.len() as int));
        lemma_still_listed(before, out, d, windows);
    } else if !lists_dir(before, d, windows) {
        assert(out[before.len() as int] == d);
    }
}

proof fn lemma_absolute_only(dirs: Seq<Seq<char>>, more: Seq<Seq<char>>, i: int, windows: bool)
    requires
        dirs.len() <= i < with_absolute(dirs, more, windows).len(),
    ensures
        absolute_of(with_absolute(dirs, more, windows)[i], more, windows),
    decreases more.len(),
{
    let out = with_absolute(dirs, more, windows);
    if more.len() > 0 {
        let rest = more.drop_last();
        let before = with_absolute(dirs, rest, windows);
        if i < before.len() {
            lemma_absolute_only(dirs, rest, i, windows);
            assert(out[i] == before[i]);
            let k = choose|k: int|
                0 <= k < rest.len() && path_is_absolute(#[trigger] rest[k], windows) && before[i]
                    == path_unverbatim(rest[k], windows);
            assert(more[k] == rest[k]);
        } else {
            assert(more[more.len() - 1] == more.last());
        }
    }
}

proof fn lemma_lists_added(more: Seq<Seq<char>>, j: int, d: Seq<char>, windows: bool)
    requires
        0 <= j < more.len(),
        more[j].len() > 0,
        comes_from(d, more[j], windows),
    ensures
        lists_dir(with_lists(Seq::empty(), more, windows), d, windows),
    decreases more.len(),
{
    let out = with_lists(Seq::empty(), more, windows);
    let rest = more.drop_last();
    let before = with_lists(Seq::empty(), rest, windows);
    if j < rest.len() {
        lemma_lists_added(rest, j, d, windows);
        lemma_absolute_grows(before, listed_dirs(more.last(), windows), windows);
        assert(before =~= before.subrange(0, before.len() as int));
        lemma_still_listed(before, out, d, windows);
    } else {
        lemma_absolute_added(before, listed_dirs(more.last(), windows), d, windows);
    }
}

proof fn lemma_lists_only(more: Seq<Seq<char>>, i: int, windows: bool) -> (j: int)
    requires
        0 <= i < with_lists(Seq::empty(), more, windows).len(),
    ensures
        0 <= j < more.len(),
        comes_from(with_lists(Seq::empty(), more, windows)[i], more[j], windows),
    decreases more.len(),
{
    let out = with_lists(Seq::empty(), more, windows);
    if more.len() == 0 {
        0
    } else {
        let rest = more.drop_last();
        let before = with_lists(Seq::empty(), rest, windows);
        if i < before.len() {
            let j = lemma_lists_only(rest, i, windows);
            lemma_absolute_grows(before, listed_dirs(more.last(), windows), windows);
            assert(out.subrange(0, before.len() as int)[i] == out[i]);
            j
        } else {
            lemma_absolute_only(before, listed_dirs(more.last(), windows), i, windows);
            more.len() - 1
        }
    }
}

/// Every absolute directory of every source is on a merged PATH, the login shell's and the app's
/// as well as those that go in front.
pub proof fn every_source_is_on_a_merged_path(
    prefix: Seq<Seq<char>>,
    shell: Option<Seq<char>>,
    app: Option<Seq<char>>,
    windows: bool,
    d: Seq<char>,
)
    requires
        ({
            ||| exists|j: int|
                0 <= j < prefix.len() && prefix[j].len() > 0 && comes_from(
                    d,
                    #[trigger] prefix[j],
                    windows,
                )
            ||| shell matches Some(list) && comes_from(d, list, windows)
            ||| app matches Some(list) && comes_from(d, list, windows)
        }),
    ensures
        lists_dir(merged_dirs(prefix, shell, app, windows), d, windows),
{
    a_later_source_stands_behind(prefix, shell, app, windows);
    let a = merged_dirs(prefix, None, None, windows);
    let b = merged_dirs(prefix, shell, None, windows);
    let c = merged_dirs(prefix, shell, app, windows);
    if app is Some && comes_from(d, app->0, windows) {
        lemma_absolute_added(b, listed_dirs(app->0, windows), d, windows);
    } else {
        if shell is Some && comes_from(d, shell->0, windows) {
            lemma_absolute_added(a, listed_dirs(shell->0, windows), d, windows);
        } else {
            let j = choose|j: int|
                0 <= j < prefix.len() && prefix[j].len() > 0 && comes_from(
                    d,
                    #[trigger] prefix[j],
                    windows,
                );
            lemma_lists_added(prefix, j, d, windows);
            lemma_still_listed(a, b, d, windows);
        }
        lemma_still_listed(b, c, d, windows);
    }
}

/// Each source of a merged PATH stands behind those before it, which keep their places.
pub proof fn a_later_source_stands_behind(
    prefix: Seq<Seq<char>>,
    shell: Option<Seq<char>>,
    app: Option<Seq<char>>,
    windows: bool,
)
    ensures
        merged_dirs(prefix, None, None, windows).is_prefix_of(
            merged_dirs(prefix, shell, None, windows),
        ),
        merged_dirs(prefix, shell, None, windows).is_prefix_of(
            merged_dirs(prefix, shell, app, windows),
        ),
{
    let a = merged_dirs(prefix, None, None, windows);
    let b = merged_dirs(prefix, shell, None, windows);
    assert(a =~= a.subrange(0, a.len() as int));
    assert(b =~= b.subrange(0, b.len() as int));
    if shell is Some {
        lemma_absolute_grows(a, listed_dirs(shell->0, windows), windows);
    }
    if app is Some {
        lemma_absolute_grows(b, listed_dirs(app->0, windows), windows);
    }
}

/// Nothing is on a merged PATH but the absolute directories of its sources.
pub proof fn nothing_else_is_on_a_merged_path(
    prefix: Seq<Seq<char>>,
    shell: Option<Seq<char>>,
    app: Option<Seq<char>>,
    windows: bool,
    i: int,
)
    requires
        0 <= i < merged_dirs(prefix, shell, app, windows).len(),
    ensures
        ({
            let d = merged_dirs(prefix, shell, app, windows)[i];
            ||| exists|j: int| 0 <= j < prefix.len() && comes_from(d, #[trigger] prefix[j], windows)
            ||| shell matches Some(list) && comes_from(d, list, windows)
            ||| app matches Some(list) && comes_from(d, list, windows)
        }),
{
    a_later_source_stands_behind(prefix, shell, app, windows);
    let a = merged_dirs(prefix, None, None, windows);
    let b = merged_dirs(prefix, shell, None, windows);
    let c = merged_dirs(prefix, shell, app, windows);
    if i < a.len() {
        assert(b.subrange(0, a.len() as int)[i] == b[i]);
        assert(c.subrange(0, b.len() as int)[i] == c[i]);
        let j = lemma_lists_only(prefix, i, windows);
        assert(comes_from(c[i], prefix[j], windows));
    } else if i < b.len() {
        assert(c.subrange(0, b.len() as int)[i] == c[i]);
        lemma_absolute_only(a, listed_dirs(shell->0, windows), i, windows);
    } else {
        lemma_absolute_only(b, listed_dirs(app->0, windows), i, windows);
    }
}

/// The first of the directories that go in front is the first of a merged PATH.
pub proof fn the_first_entry_leads(
    prefix: Seq<Seq<char>>,
    shell: Option<Seq<char>>,
    app: Option<Seq<char>>,
    windows: bool,
)
    requires
        prefix.len() > 0,
        prefix[0].len() > 0,
        listed_dirs(prefix[0], windows).len() > 0,
        path_is_absolute(listed_dirs(prefix[0], windows)[0], windows),
    ensures
        merged_dirs(prefix, shell, app, windows).len() > 0,
        merged_dirs(prefix, shell, app, windows)[0] == path_unverbatim(
            listed_dirs(prefix[0], windows)[0],
            windows,
        ),
{
    let first = path_unverbatim(listed_dirs(prefix[0], windows)[0], windows);
    lemma_first_of_lists(prefix, first, windows);
    let a = with_lists(Seq::empty(), prefix, windows);
    let b = with_optional(a, shell, windows);
    let c = with_optional(b, app, windows);
    assert(a =~= a.subrange(0, a.len() as int));
    assert(b =~= b.subrange(0, b.len() as int));
    if shell is Some {
        lemma_absolute_grows(a, listed_dirs(shell->0, windows), windows);
    }
    if app is Some {
        lemma_absolute_grows(b, listed_dirs(app->0, windows), windows);
    }
    assert(b.subrange(0, a.len() as int)[0] == b[0]);
    assert(c.subrange(0, b.len() as int)[0] == c[0]);
}

proof fn lemma_first_of_lists(more: Seq<Seq<char>>, first: Seq<char>, windows: bool)
    requires
        more.len() > 0,
        more[0].len() > 0,
        listed_dirs(more[0], windows).len() > 0,
        path_is_absolute(listed_dirs(more[0], windows)[0], windows),
        first == path_unverbatim(listed_dirs(more[0], windows)[0], windows),
    ensures
        with_lists(Seq::empty(), more, windows).len() > 0,
        with_lists(Seq::empty(), more, windows)[0] == first,
    decreases more.len(),
{
    let rest = more.drop_last();
    let before = with_lists(Seq::empty(), rest, windows);
    if more.len() == 1 {
        assert(before =~= Seq::<Seq<char>>::empty());
        lemma_first_absolute(listed_dirs(more[0], windows), windows);
    } else {
        assert(rest[0] == more[0]);
        lemma_first_of_lists(rest, first, windows);
        let out = with_lists(Seq::empty(), more, windows);
        lemma_absolute_grows(before, listed_dirs(more.last(), windows), windows);
        if more.last().len() > 0 {
            assert(out.subrange(0, before.len() as int)[0] == out[0]);
        }
    }
}

proof fn lemma_first_absolute(more: Seq<Seq<char>>, windows: bool)
    requires
        more.len() > 0,
        path_is_absolute(more[0], windows),
    ensures
        with_absolute(Seq::empty(), more, windows).len() > 0,
        with_absolute(Seq::empty(), more, windows)[0] == path_unverbatim(more[0], windows),
    decreases more.len(),
{
    let rest = more.drop_last();
    if more.len() > 1 {
        assert(rest[0] == more[0]);
        lemma_first_absolute(rest, windows);
    } else {
        assert(with_absolute(Seq::empty(), rest, windows) =~= Seq::<Seq<char>>::empty());
    }
}

/// Every directory of the list is still there behind the leading one, absolute or not.
pub proof fn a_led_path_keeps_its_list(lead: Seq<char>, list: Seq<char>, windows: bool, k: int)
    requires
        0 <= k < listed_dirs(list, windows).len(),
    ensures
        lists_dir(led_dirs(lead, Some(list), windows), listed_dirs(list, windows)[k], windows),
{
    let first = if lead.len() > 0 {
        seq![lead]
    } else {
        Seq::empty()
    };
    lemma_all_added(first, listed_dirs(list, windows), windows, k);
}

proof fn lemma_all_added(dirs: Seq<Seq<char>>, more: Seq<Seq<char>>, windows: bool, k: int)
    requires
        0 <= k < more.len(),
    ensures
        lists_dir(with_all(dirs, more, windows), more[k], windows),
    decreases more.len(),
{
    let rest = more.drop_last();
    let before = with_all(dirs, rest, windows);
    let out = with_all(dirs, more, windows);
    if k < rest.len() {
        lemma_all_added(dirs, rest, windows, k);
        let i = choose|i: int|
            0 <= i < before.len() && same_path(#[trigger] before[i], rest[k], windows);
        assert(out[i] == before[i]);
    } else if !lists_dir(before, more.last(), windows) {
        assert(out[before.len() as int] == more.last());
    }
}

/// A list is written with `:` between its directories, on Windows with `;`, where a directory
/// that holds one stands in quotes. A directory that holds what cannot be told apart then is
/// refused.
pub proof fn a_list_is_written_with_its_separator(
    dirs: Seq<Seq<char>>,
    list: Seq<char>,
    d: Seq<char>,
)
    requires
        dirs.len() > 0,
    ensures
        dirs_listed(seq![d], false) == (if d.contains(':') {
            None
        } else {
            Some(d)
        }),
        dirs_listed(dirs, false) == Some(list) ==> dirs_listed(dirs.push(d), false) == (
        if d.contains(':') {
            None
        } else {
            Some(list + seq![':'] + d)
        }),
        dirs_listed(seq![d], true) == (if d.contains('"') {
            None
        } else if d.contains(';') {
            Some(seq!['"'] + d + seq!['"'])
        } else {
            Some(d)
        }),
        dirs_listed(dirs, true) == Some(list) ==> dirs_listed(dirs.push(d), true) == (
        if d.contains('"') {
            None
        } else if d.contains(';') {
            Some(list + seq![';', '"'] + d + seq!['"'])
        } else {
            Some(list + seq![';'] + d)
        }),
{
    reveal_strlit(":");
    reveal_strlit(";");
    assert(":"@ =~= seq![':']);
    assert(";"@ =~= seq![';']);
    lemma_one_more_listed(dirs, d, false);
    lemma_one_more_listed(dirs, d, true);
    assert(seq![d].len() == 1 && seq![d][0] == d);
    let alone = seq![d];
    assert(Seq::new(alone.len(), |i: int| as_listed(alone[i], false)) =~= seq![d]);
    assert(Seq::new(alone.len(), |i: int| as_listed(alone[i], true)) =~= seq![as_listed(d, true)]);
    if d.contains(':') {
        assert(!can_be_listed(alone[0], false));
    }
    if d.contains('"') {
        assert(!can_be_listed(alone[0], true));
    }
    assert(list + seq![';'] + (seq!['"'] + d + seq!['"']) =~= list + seq![';', '"'] + d + seq!['"']);
}

proof fn lemma_one_more_listed(dirs: Seq<Seq<char>>, d: Seq<char>, windows: bool)
    requires
        dirs.len() > 0,
    ensures
        dirs_listed(dirs, windows) matches Some(list) ==> dirs_listed(dirs.push(d), windows) == (
        if can_be_listed(d, windows) {
            Some(list + list_separator(windows) + as_listed(d, windows))
        } else {
            None
        }),
{
    let more = dirs.push(d);
    let parts = Seq::new(dirs.len(), |i: int| as_listed(dirs[i], windows));
    let all = Seq::new(more.len(), |i: int| as_listed(more[i], windows));
    assert(all.drop_last() =~= parts);
    assert(more[dirs.len() as int] == d);
    assert(all.last() == as_listed(d, windows));
    if dirs_listed(dirs, windows) is Some {
        if can_be_listed(d, windows) {
            assert forall|i: int| 0 <= i < more.len() implies can_be_listed(
                #[trigger] more[i],
                windows,
            ) by {
                if i < dirs.len() {
                    assert(more[i] == dirs[i]);
                }
            }
        }
    }
}

proof fn lemma_windows_shift(
    a: Seq<char>,
    b: Seq<char>,
    at: int,
    part: Seq<char>,
    quoted: bool,
)
    requires
        0 <= at <= b.len(),
    ensures
        windows_parts(a + b, a.len() + at, part, quoted) == windows_parts(b, at, part, quoted),
    decreases b.len() - at,
{
    let s = a + b;
    if at < b.len() {
        assert(s[a.len() + at] == b[at]);
        if b[at] == '"' {
            lemma_windows_shift(a, b, at + 1, part, !quoted);
        } else if b[at] == ';' && !quoted {
            lemma_windows_shift(a, b, at + 1, Seq::empty(), false);
        } else {
            lemma_windows_shift(a, b, at + 1, part.push(b[at]), quoted);
        }
    }
}

proof fn lemma_windows_read(d: Seq<char>, rest: Seq<char>, n: int, quoted: bool)
    requires
        0 <= n <= d.len(),
        !d.contains('"'),
        quoted || !d.contains(';'),
    ensures
        windows_parts(d + rest, n, d.take(n), quoted) == windows_parts(
            rest,
            0,
            d,
            quoted,
        ),
    decreases d.len() - n,
{
    let s = d + rest;
    if n < d.len() {
        assert(s[n] == d[n]);
        assert(d.contains(d[n]));
        assert(d.take(n).push(d[n]) =~= d.take(n + 1));
        lemma_windows_read(d, rest, n + 1, quoted);
    } else {
        assert(d.take(n) =~= d);
        lemma_windows_shift(d, rest, 0, d, quoted);
    }
}

/// What one directory of a list is read as, from its place on.
proof fn lemma_windows_part(d: Seq<char>, rest: Seq<char>)
    requires
        !d.contains('"'),
        rest.len() > 0 ==> rest[0] == ';',
    ensures
        windows_parts(as_listed(d, true) + rest, 0, Seq::empty(), false) == seq![d] + (
        if rest.len() > 0 {
            windows_parts(rest, 1, Seq::empty(), false)
        } else {
            Seq::empty()
        }),
{
    let none = Seq::<char>::empty();
    assert(d.take(0) =~= none);
    if d.contains(';') {
        let tail = seq!['"'] + rest;
        let s = as_listed(d, true) + rest;
        assert(s =~= seq!['"'] + (d + tail));
        lemma_windows_shift(seq!['"'], d + tail, 0, none, true);
        assert(s[0] == '"');
        assert(windows_parts(s, 0, none, false) == windows_parts(s, 1, none, true));
        lemma_windows_read(d, tail, 0, true);
        assert(tail[0] == '"');
        lemma_windows_shift(seq!['"'], rest, 0, d, false);
        assert(windows_parts(tail, 0, d, true) == windows_parts(tail, 1, d, false));
    } else {
        lemma_windows_read(d, rest, 0, false);
    }
    if rest.len() == 0 {
        assert(seq![d] + Seq::<Seq<char>>::empty() =~= seq![d]);
    }
}

proof fn lemma_windows_list(dirs: Seq<Seq<char>>)
    requires
        dirs.len() > 0,
        forall|i: int| 0 <= i < dirs.len() ==> !(#[trigger] dirs[i]).contains('"'),
    ensures
        windows_parts(
            joined(Seq::new(dirs.len(), |i: int| as_listed(dirs[i], true)), seq![';']),
            0,
            Seq::empty(),
            false,
        ) == dirs,
    decreases dirs.len(),
{
    let parts = Seq::new(dirs.len(), |i: int| as_listed(dirs[i], true));
    let d = dirs[0];
    if dirs.len() == 1 {
        assert(joined(parts, seq![';']) =~= as_listed(d, true) + Seq::<char>::empty());
        lemma_windows_part(d, Seq::empty());
        assert(seq![d] + Seq::<Seq<char>>::empty() =~= dirs);
    } else {
        let rest = dirs.subrange(1, dirs.len() as int);
        assert forall|i: int| 0 <= i < rest.len() implies !(#[trigger] rest[i]).contains('"') by {
            assert(rest[i] == dirs[i + 1]);
        }
        lemma_windows_list(rest);
        let more = Seq::new(rest.len(), |i: int| as_listed(rest[i], true));
        assert(parts =~= seq![as_listed(d, true)] + more);
        crate::split::lemma_join_cons(as_listed(d, true), more, seq![';']);
        let text = joined(more, seq![';']);
        let tail = seq![';'] + text;
        assert(joined(parts, seq![';']) =~= as_listed(d, true) + tail);
        lemma_windows_part(d, tail);
        lemma_windows_shift(seq![';'], text, 0, Seq::empty(), false);
        assert(seq![d] + rest =~= dirs);
    }
}

/// A list of directories that could be written reads back as those directories, in their order.
pub proof fn a_list_reads_back(dirs: Seq<Seq<char>>, windows: bool)
    requires
        dirs.len() > 0,
    ensures
        dirs_listed(dirs, windows) matches Some(list) ==> listed_dirs(list, windows) == dirs,
{
    reveal_strlit(":");
    reveal_strlit(";");
    assert(":"@ =~= seq![':']);
    assert(";"@ =~= seq![';']);
    if dirs_listed(dirs, windows) is Some {
        if windows {
            assert forall|i: int| 0 <= i < dirs.len() implies !(#[trigger] dirs[i]).contains(
                '"',
            ) by {
                assert(can_be_listed(dirs[i], windows));
            }
            lemma_windows_list(dirs);
        } else {
            assert forall|i: int| 0 <= i < dirs.len() implies !(#[trigger] dirs[i]).contains(
                ':',
            ) by {
                assert(can_be_listed(dirs[i], windows));
            }
            assert(Seq::new(dirs.len(), |i: int| as_listed(dirs[i], windows)) =~= dirs);
            crate::version::lemma_join_then_split(dirs, ':');
        }
    }
}

/// A merged path is the list of its directories. Where they cannot be listed the app's own path
/// stays as it is, and there is none where the app has none.
pub proof fn a_merged_path_is_its_list_or_the_old_one(
    prefix: Seq<Seq<char>>,
    shell: Option<Seq<char>>,
    app: Option<Seq<char>>,
    windows: bool,
)
    ensures
        ({
            let list = dirs_listed(merged_dirs(prefix, shell, app, windows), windows);
            let path = merged_path(prefix, shell, app, windows);
            &&& list is Some ==> path == list->0
            &&& list is None && app is Some ==> path == app->0
            &&& list is None && app is None ==> path.len() == 0
        }),
{
}

} // verus!

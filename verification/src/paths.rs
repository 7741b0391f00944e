//! Paths as text.
//!
//! Away from Windows the components of a path stand between `/`. Components that are empty or `.`
//! do not count, except a `.` at the start, so `a//b`, `a/./b` and `a/b/` name what `a/b` names.
//!
//! On Windows `\` separates components as well, and a drive, a device or a server and its share
//! may stand in front of them. What is worked out of a path keeps the spelling of its parts, and
//! a separator that has to be added is `\`. Behind the verbatim prefix `\\?\` only `\` separates,
//! and a `.` counts.
use vstd::prelude::*;

use crate::search::to_lower;
#[allow(unused_imports)]
use crate::search::lowered;
use crate::split::{join, split_text};
#[allow(unused_imports)]
use crate::split::{joined, split};
use crate::text::{chars_of, piece, same, same_texts, string_of};
#[allow(unused_imports)]
use crate::text::{opt_view, texts};

verus! {

/// By which rules the components of a path are told apart.
#[derive(Debug, Clone, Copy, PartialEq, Eq, Structural)]
pub enum Rules {
    Unix,
    Windows,
    /// Windows, behind the verbatim prefix.
    Verbatim,
}

/// Does the character separate components on Windows?
pub open spec fn is_sep(c: char) -> bool {
    c == '/' || c == '\\'
}

/// Does the character separate components?
pub open spec fn separates(c: char, rules: Rules) -> bool {
    match rules {
        Rules::Unix => c == '/',
        Rules::Windows => is_sep(c),
        Rules::Verbatim => c == '\\',
    }
}

/// Does the path have the verbatim prefix?
pub open spec fn is_verbatim(s: Seq<char>) -> bool {
    crate::search::begins(s, "\\\\?\\"@)
}

/// By which rules the components of the path are told apart.
pub open spec fn rules_of(s: Seq<char>, windows: bool) -> Rules {
    if !windows {
        Rules::Unix
    } else if is_verbatim(s) {
        Rules::Verbatim
    } else {
        Rules::Windows
    }
}

/// Is the character the letter of a drive?
pub open spec fn is_drive(c: char) -> bool {
    'a' <= c <= 'z' || 'A' <= c <= 'Z'
}

/// Where the component of `s` that starts at `at` ends.
pub open spec fn component_end(s: Seq<char>, at: int, rules: Rules) -> int
    decreases s.len() - at,
{
    if 0 <= at < s.len() && !separates(s[at], rules) {
        component_end(s, at + 1, rules)
    } else {
        at
    }
}

/// Do two components, a server and a share, stand behind the two separators that start `s`?
pub open spec fn names_share(s: Seq<char>) -> bool {
    let server = component_end(s, 2, Rules::Windows);
    server > 2 && server + 1 < s.len() && !is_sep(s[server + 1])
}

/// How many characters in front of a Windows path name the drive, the device, or the server and
/// the share.
pub open spec fn prefix_len(s: Seq<char>) -> int {
    let unc = "\\\\?\\UNC\\"@;
    if crate::search::begins(s, unc) {
        let server = component_end(s, unc.len() as int, Rules::Verbatim);
        let share = component_end(s, server + 1, Rules::Verbatim);
        if share > server + 1 {
            share
        } else {
            server
        }
    } else if is_verbatim(s) {
        component_end(s, 4, Rules::Verbatim)
    } else if s.len() >= 2 && is_drive(s[0]) && s[1] == ':' {
        2
    } else if s.len() >= 2 && is_sep(s[0]) && is_sep(s[1]) {
        if s.len() >= 4 && s[2] == '.' && is_sep(s[3]) {
            component_end(s, 4, Rules::Windows)
        } else if names_share(s) {
            component_end(s, component_end(s, 2, Rules::Windows) + 1, Rules::Windows)
        } else {
            0
        }
    } else {
        0
    }
}

/// How many characters stand in front of the components of a path.
pub open spec fn prefix_on(s: Seq<char>, windows: bool) -> int {
    if windows {
        prefix_len(s)
    } else {
        0
    }
}

/// The components of a path, without what stands in front of them.
pub open spec fn body_of(s: Seq<char>, windows: bool) -> Seq<char> {
    s.subrange(prefix_on(s, windows), s.len() as int)
}

/// How much of the first `n` characters is left without the separators and `.` components at
/// their end.
pub open spec fn trimmed_end(s: Seq<char>, n: int, rules: Rules) -> int
    decreases n,
{
    if n > 1 && (separates(s[n - 1], rules) || (rules != Rules::Verbatim && s[n - 1] == '.'
        && separates(s[n - 2], rules))) {
        trimmed_end(s, n - 1, rules)
    } else {
        n
    }
}

/// Where the last component of the first `n` characters starts: behind their last separator.
pub open spec fn last_start(s: Seq<char>, n: int, rules: Rules) -> int
    decreases n,
{
    if n <= 0 || separates(s[n - 1], rules) {
        n
    } else {
        last_start(s, n - 1, rules)
    }
}

/// How much of the components is left one level up: nothing where they are a root or none.
pub open spec fn parent_end(body: Seq<char>, rules: Rules) -> Option<int> {
    let end = trimmed_end(body, body.len() as int, rules);
    let start = last_start(body, end, rules);
    if end == 0 || (end == 1 && separates(body[0], rules)) {
        None
    } else if start <= 1 {
        Some(start)
    } else {
        Some(trimmed_end(body, start - 1, rules))
    }
}

/// The path one level up: none of a root, of a drive or share alone and of the empty path.
pub open spec fn parent_path(s: Seq<char>, windows: bool) -> Option<Seq<char>> {
    match parent_end(body_of(s, windows), rules_of(s, windows)) {
        Some(end) => Some(s.subrange(0, prefix_on(s, windows) + end)),
        None => None,
    }
}

/// The last component of the path, where it is a name.
pub open spec fn file_name_in(s: Seq<char>, windows: bool) -> Option<Seq<char>> {
    let body = body_of(s, windows);
    let rules = rules_of(s, windows);
    let end = trimmed_end(body, body.len() as int, rules);
    let name = body.subrange(last_start(body, end, rules), end);
    if name.len() == 0 || name == seq!['.'] || name == seq!['.', '.'] {
        None
    } else {
        Some(name)
    }
}

/// Where the extension of a file name starts, at its dot: the last dot that is not the first
/// character; the end of the name where there is none.
pub open spec fn dot_in(name: Seq<char>) -> int
{
    dot_before(name, name.len() as int)
}

/// [`dot_in`], looking at the first `n` characters of the name only.
pub open spec fn dot_before(name: Seq<char>, n: int) -> int
    decreases n,
{
    if n <= 1 {
        name.len() as int
    } else if name[n - 1] == '.' {
        n - 1
    } else {
        dot_before(name, n - 1)
    }
}

/// Is this component a name?
pub open spec fn is_name(component: Seq<char>, rules: Rules) -> bool {
    component.len() > 0 && (rules == Rules::Verbatim || component != seq!['.'])
}

/// The text with `/` for every `\`.
pub open spec fn forward(s: Seq<char>) -> Seq<char> {
    s.map_values(
        |c: char|
            if c == '\\' {
                '/'
            } else {
                c
            },
    )
}

/// The names between the separators of a path's components.
pub open spec fn names_in(body: Seq<char>, rules: Rules) -> Seq<Seq<char>> {
    (match rules {
        Rules::Unix => split(body, '/'),
        Rules::Windows => split(forward(body), '/'),
        Rules::Verbatim => split(body, '\\'),
    }).filter(|component: Seq<char>| is_name(component, rules))
}

/// The names below a directory's, with every `..` taken back against the name in front of it.
pub open spec fn entered(dirs: Seq<Seq<char>>, more: Seq<Seq<char>>) -> Seq<Seq<char>>
    decreases more.len(),
{
    if more.len() == 0 {
        dirs
    } else {
        let before = entered(dirs, more.drop_last());
        if more.last() != seq!['.', '.'] {
            before.push(more.last())
        } else if before.len() > 0 && before.last() != seq!['.'] && before.last() != seq![
            '.',
            '.',
        ] {
            before.drop_last()
        } else {
            before
        }
    }
}

/// The path `name` inside a directory that has the verbatim prefix: `.` and `..` mean nothing to
/// Windows there, so they are worked out.
pub open spec fn verbatim_joined(base: Seq<char>, name: Seq<char>) -> Seq<char> {
    let body = body_of(base, true);
    let rooted = is_sep(name[0]);
    let kept = if rooted {
        Seq::empty()
    } else {
        names_in(body, Rules::Verbatim)
    };
    let names = entered(kept, names_in(name, Rules::Windows));
    base.subrange(0, prefix_len(base)) + (if names.len() > 0 {
        seq!['\\'] + joined(names, seq!['\\'])
    } else if rooted || (body.len() > 0 && body[0] == '\\') {
        seq!['\\']
    } else {
        Seq::empty()
    })
}

/// The path `name` inside the directory `base`; `name` itself where it is absolute. On Windows a
/// name with a drive, device or share in front stands for itself, one that starts with a
/// separator keeps only what stands in front of the components of `base`, and a drive alone is
/// followed by the name without a separator.
pub open spec fn path_joined(base: Seq<char>, name: Seq<char>, windows: bool) -> Seq<char> {
    if !windows {
        if name.len() > 0 && name[0] == '/' {
            name
        } else if base.len() == 0 || base.last() == '/' {
            base + name
        } else {
            base + seq!['/'] + name
        }
    } else if prefix_len(name) > 0 {
        name
    } else if is_verbatim(base) && name.len() > 0 {
        verbatim_joined(base, name)
    } else if name.len() > 0 && is_sep(name[0]) {
        base.subrange(0, prefix_len(base)) + name
    } else if base.len() == 0 || is_sep(base.last()) || (base.len() == 2 && prefix_len(base) == 2) {
        base + name
    } else {
        base + seq!['\\'] + name
    }
}

/// The path with the extension of its file name replaced; the path itself where it has no name.
pub open spec fn path_with_extension(s: Seq<char>, extension: Seq<char>, windows: bool) -> Seq<
    char,
> {
    match file_name_in(s, windows) {
        None => s,
        Some(name) => {
            let body = body_of(s, windows);
            let rules = rules_of(s, windows);
            let start = last_start(body, trimmed_end(body, body.len() as int, rules), rules);
            s.subrange(0, prefix_on(s, windows) + start + dot_in(name)) + seq!['.'] + extension
        },
    }
}

/// Is the path absolute? On Windows it needs a drive with a separator behind it, a device, or a
/// server and a share; a bare separator is not enough there.
pub open spec fn path_is_absolute(s: Seq<char>, windows: bool) -> bool {
    if windows {
        prefix_len(s) > 2 || (prefix_len(s) == 2 && s.len() > 2 && is_sep(s[2]))
    } else {
        s.len() > 0 && s[0] == '/'
    }
}

fn sep(c: char, rules: Rules) -> (r: bool)
    ensures
        r == separates(c, rules),
{
    match rules {
        Rules::Unix => c == '/',
        Rules::Windows => c == '/' || c == '\\',
        Rules::Verbatim => c == '\\',
    }
}

fn verbatim(chars: &[char]) -> (r: bool)
    ensures
        r == is_verbatim(chars@),
{
    let prefix = chars_of("\\\\?\\");
    crate::search::stands_at(chars, &prefix, 0)
}

fn rules_for(chars: &[char], windows: bool) -> (r: Rules)
    ensures
        r == rules_of(chars@, windows),
{
    if !windows {
        Rules::Unix
    } else if verbatim(chars) {
        Rules::Verbatim
    } else {
        Rules::Windows
    }
}

fn end_of_component(s: &[char], at: usize, rules: Rules) -> (r: usize)
    requires
        at <= s@.len(),
    ensures
        r == component_end(s@, at as int, rules),
        at <= r <= s@.len(),
{
    let mut end: usize = at;
    while end < s.len() && !sep(s[end], rules)
        invariant
            at <= end <= s@.len(),
            component_end(s@, end as int, rules) == component_end(s@, at as int, rules),
        decreases s@.len() - end,
    {
        end += 1;
    }
    end
}

fn length_of_prefix(s: &[char]) -> (r: usize)
    ensures
        r == prefix_len(s@),
        r <= s@.len(),
{
    let unc = chars_of("\\\\?\\UNC\\");
    proof {
        reveal_strlit("\\\\?\\");
    }
    if crate::search::stands_at(s, &unc, 0) {
        let server: usize = end_of_component(s, unc.len(), Rules::Verbatim);
        if server < s.len() {
            let share: usize = end_of_component(s, server + 1, Rules::Verbatim);
            if share > server + 1 {
                return share;
            }
        }
        return server;
    }
    if verbatim(s) {
        return end_of_component(s, 4, Rules::Verbatim);
    }
    if s.len() < 2 {
        return 0;
    }
    if (('a' <= s[0] && s[0] <= 'z') || ('A' <= s[0] && s[0] <= 'Z')) && s[1] == ':' {
        return 2;
    }
    if !sep(s[0], Rules::Windows) || !sep(s[1], Rules::Windows) {
        return 0;
    }
    if s.len() >= 4 && s[2] == '.' && sep(s[3], Rules::Windows) {
        return end_of_component(s, 4, Rules::Windows);
    }
    let server: usize = end_of_component(s, 2, Rules::Windows);
    if server > 2 && server < s.len() && server + 1 < s.len() && !sep(
        s[server + 1],
        Rules::Windows,
    ) {
        end_of_component(s, server + 1, Rules::Windows)
    } else {
        0
    }
}

fn length_on(s: &[char], windows: bool) -> (r: usize)
    ensures
        r == prefix_on(s@, windows),
        r <= s@.len(),
{
    if windows {
        length_of_prefix(s)
    } else {
        0
    }
}

fn trim_end(s: &[char], n: usize, rules: Rules) -> (r: usize)
    requires
        n <= s@.len(),
    ensures
        r == trimmed_end(s@, n as int, rules),
        r <= n,
{
    let mut end: usize = n;
    while end > 1 && (sep(s[end - 1], rules) || (rules != Rules::Verbatim && s[end - 1] == '.'
        && sep(s[end - 2], rules)))
        invariant
            end <= n <= s@.len(),
            trimmed_end(s@, end as int, rules) == trimmed_end(s@, n as int, rules),
        decreases end,
    {
        end -= 1;
    }
    end
}

fn start_of_last(s: &[char], n: usize, rules: Rules) -> (r: usize)
    requires
        n <= s@.len(),
    ensures
        r == last_start(s@, n as int, rules),
        r <= n,
{
    let mut start: usize = n;
    while start > 0 && !sep(s[start - 1], rules)
        invariant
            start <= n <= s@.len(),
            last_start(s@, start as int, rules) == last_start(s@, n as int, rules),
        decreases start,
    {
        start -= 1;
    }
    start
}

/// The path one level up.
pub fn parent(path: &str, windows: bool) -> (r: Option<String>)
    ensures
        opt_view(r) == parent_path(path@, windows),
{
    let s = chars_of(path);
    let rules = rules_for(&s, windows);
    let p: usize = length_on(&s, windows);
    let body = piece(&s, p, s.len());
    let end: usize = trim_end(&body, body.len(), rules);
    if end == 0 || (end == 1 && sep(body[0], rules)) {
        return None;
    }
    let start: usize = start_of_last(&body, end, rules);
    let up: usize = if start <= 1 {
        start
    } else {
        trim_end(&body, start - 1, rules)
    };
    let total: usize = s.len();
    proof {
        assert(p + up <= total);
    }
    Some(string_of(&piece(&s, 0, p + up)))
}

/// The last component of the path, where it is a name.
pub fn file_name(path: &str, windows: bool) -> (r: Option<String>)
    ensures
        opt_view(r) == file_name_in(path@, windows),
{
    let s = chars_of(path);
    let rules = rules_for(&s, windows);
    let body = piece(&s, length_on(&s, windows), s.len());
    let end: usize = trim_end(&body, body.len(), rules);
    let name = piece(&body, start_of_last(&body, end, rules), end);
    proof {
        assert(['.']@ =~= seq!['.']);
        assert(['.', '.']@ =~= seq!['.', '.']);
    }
    if name.len() == 0 || same(&name, &['.']) || same(&name, &['.', '.']) {
        return None;
    }
    Some(string_of(&name))
}

/// Where the extension of a file name starts.
pub fn dot_of(name: &[char]) -> (r: usize)
    ensures
        r == dot_in(name@),
        r <= name@.len(),
{
    let mut n: usize = name.len();
    while n > 1
        invariant
            n <= name@.len(),
            dot_before(name@, n as int) == dot_in(name@),
        decreases n,
    {
        if name[n - 1] == '.' {
            return n - 1;
        }
        n -= 1;
    }
    name.len()
}

fn forwarded(chars: &[char]) -> (r: Vec<char>)
    ensures
        r@ == forward(chars@),
{
    let mut out: Vec<char> = Vec::new();
    let mut i: usize = 0;
    while i < chars.len()
        invariant
            i <= chars@.len(),
            out@.len() == i,
            forall|j: int|
                0 <= j < i ==> #[trigger] out@[j] == (if chars@[j] == '\\' {
                    '/'
                } else {
                    chars@[j]
                }),
        decreases chars@.len() - i,
    {
        let c = chars[i];
        out.push(
            if c == '\\' {
                '/'
            } else {
                c
            },
        );
        i += 1;
    }
    proof {
        assert(out@ =~= forward(chars@));
    }
    out
}

fn names_of(body: &[char], rules: Rules) -> (r: Vec<String>)
    ensures
        texts(r@) == names_in(body@, rules),
{
    let parts = match rules {
        Rules::Unix => split_text(string_of(body).as_str(), '/'),
        Rules::Windows => split_text(string_of(&forwarded(body)).as_str(), '/'),
        Rules::Verbatim => split_text(string_of(body).as_str(), '\\'),
    };
    let ghost all = texts(parts@);
    let ghost wanted = |component: Seq<char>| is_name(component, rules);
    let mut out: Vec<String> = Vec::new();
    let mut i: usize = 0;
    proof {
        assert(texts(out@) =~= Seq::<Seq<char>>::empty());
        assert(all.take(0) =~= Seq::<Seq<char>>::empty());
        reveal(Seq::filter);
        assert(['.']@ =~= seq!['.']);
    }
    while i < parts.len()
        invariant
            i <= parts@.len(),
            all == texts(parts@),
            wanted == (|component: Seq<char>| is_name(component, rules)),
            texts(out@) == all.take(i as int).filter(wanted),
            ['.']@ == seq!['.'],
        decreases parts@.len() - i,
    {
        proof {
            reveal(Seq::filter);
            let next = all.take(i + 1);
            assert(next.drop_last() =~= all.take(i as int));
            assert(next.last() == all[i as int]);
        }
        let part = chars_of(parts[i].as_str());
        if part.len() > 0 && (rules == Rules::Verbatim || !same(&part, &['.'])) {
            let ghost before = texts(out@);
            out.push(parts[i].clone());
            proof {
                assert(texts(out@) =~= before.push(all[i as int]));
            }
        }
        i += 1;
    }
    proof {
        assert(all.take(all.len() as int) =~= all);
    }
    out
}

fn enter(dirs: Vec<String>, more: &[String]) -> (r: Vec<String>)
    ensures
        texts(r@) == entered(texts(dirs@), texts(more@)),
{
    let ghost start = texts(dirs@);
    let ghost all = texts(more@);
    let mut out = dirs;
    let mut i: usize = 0;
    proof {
        assert(all.take(0) =~= Seq::<Seq<char>>::empty());
        assert(['.']@ =~= seq!['.']);
        assert(['.', '.']@ =~= seq!['.', '.']);
    }
    while i < more.len()
        invariant
            i <= more@.len(),
            all == texts(more@),
            texts(out@) == entered(start, all.take(i as int)),
            ['.']@ == seq!['.'],
            ['.', '.']@ == seq!['.', '.'],
        decreases more@.len() - i,
    {
        let ghost before = texts(out@);
        proof {
            let next = all.take(i + 1);
            assert(next.drop_last() =~= all.take(i as int));
            assert(next.last() == more@[i as int]@);
        }
        if !same(&chars_of(more[i].as_str()), &['.', '.']) {
            out.push(more[i].clone());
            proof {
                assert(texts(out@) =~= before.push(more@[i as int]@));
            }
        } else if out.len() > 0 {
            let last = chars_of(out[out.len() - 1].as_str());
            proof {
                assert(before.last() == last@);
            }
            if !same(&last, &['.']) && !same(&last, &['.', '.']) {
                let _ = out.pop();
                proof {
                    assert(texts(out@) =~= before.drop_last());
                }
            }
        }
        i += 1;
    }
    proof {
        assert(all.take(all.len() as int) =~= all);
    }
    out
}

fn join_verbatim(base: &[char], name: &[char]) -> (r: String)
    requires
        name@.len() > 0,
    ensures
        r@ == verbatim_joined(base@, name@),
{
    let p: usize = length_of_prefix(base);
    let body = piece(base, p, base.len());
    let rooted = sep(name[0], Rules::Windows);
    let kept: Vec<String> = if rooted {
        Vec::new()
    } else {
        names_of(&body, Rules::Verbatim)
    };
    proof {
        if rooted {
            assert(texts(kept@) =~= Seq::<Seq<char>>::empty());
        }
        reveal_strlit("\\");
        assert("\\"@ =~= seq!['\\']);
    }
    let names = enter(kept, names_of(name, Rules::Windows).as_slice());
    let ghost all = texts(names@);
    proof {
        assert(all.len() == names@.len());
    }
    let mut out = string_of(&piece(base, 0, p));
    if names.len() > 0 {
        out.append("\\");
        out.append(join(names.as_slice(), "\\").as_str());
    } else if rooted || (body.len() > 0 && body[0] == '\\') {
        out.append("\\");
    }
    proof {
        assert(out@ =~= verbatim_joined(base@, name@));
    }
    out
}

/// The path `name` inside the directory `base`.
pub fn path_join(base: &str, name: &str, windows: bool) -> (r: String)
    ensures
        r@ == path_joined(base@, name@, windows),
{
    let b = chars_of(base);
    let n = chars_of(name);
    let mut out;
    if !windows {
        if n.len() > 0 && n[0] == '/' {
            return name.to_owned();
        }
        out = base.to_owned();
        if b.len() > 0 && b[b.len() - 1] != '/' {
            out.push('/');
        }
    } else if length_of_prefix(&n) > 0 {
        return name.to_owned();
    } else if n.len() > 0 && verbatim(&b) {
        return join_verbatim(&b, &n);
    } else if n.len() > 0 && sep(n[0], Rules::Windows) {
        out = string_of(&piece(&b, 0, length_of_prefix(&b)));
    } else {
        out = base.to_owned();
        let drive = b.len() == 2 && length_of_prefix(&b) == 2;
        if b.len() > 0 && !sep(b[b.len() - 1], Rules::Windows) && !drive {
            out.push('\\');
        }
    }
    out.append(name);
    proof {
        assert(out@ =~= path_joined(base@, name@, windows));
    }
    out
}

/// The path with the extension of its file name replaced.
pub fn with_extension(path: &str, extension: &str, windows: bool) -> (r: String)
    ensures
        r@ == path_with_extension(path@, extension@, windows),
{
    match file_name(path, windows) {
        None => path.to_owned(),
        Some(name) => {
            let s = chars_of(path);
            let rules = rules_for(&s, windows);
            let p: usize = length_on(&s, windows);
            let body = piece(&s, p, s.len());
            let end: usize = trim_end(&body, body.len(), rules);
            let start: usize = start_of_last(&body, end, rules);
            let dot: usize = dot_of(&chars_of(name.as_str()));
            let total: usize = s.len();
            proof {
                assert(name@.len() == end - start);
                assert(p + start + dot <= total);
            }
            let mut out = string_of(&piece(&s, 0, p + start + dot));
            out.push('.');
            out.append(extension);
            proof {
                assert(out@ =~= path_with_extension(path@, extension@, windows));
            }
            out
        },
    }
}

/// Is the path absolute?
pub fn is_absolute(path: &str, windows: bool) -> (r: bool)
    ensures
        r == path_is_absolute(path@, windows),
{
    let s = chars_of(path);
    if windows {
        let p: usize = length_of_prefix(&s);
        p > 2 || (p == 2 && s.len() > 2 && sep(s[2], Rules::Windows))
    } else {
        s.len() > 0 && s[0] == '/'
    }
}

/// The longest path that Windows takes without the verbatim prefix, and one byte more.
pub const MAX_PATH: usize = 260;

/// A path without its verbatim prefix, on Windows alone and only while it stays short enough to
/// be reached without it.
pub open spec fn path_unverbatim(s: Seq<char>, windows: bool) -> Seq<char> {
    let unc = "\\\\?\\UNC\\"@;
    let plain = "\\\\?\\"@;
    let stripped = if crate::search::begins(s, unc) {
        Some("\\\\"@ + s.subrange(unc.len() as int, s.len() as int))
    } else if crate::search::begins(s, plain) {
        Some(s.subrange(plain.len() as int, s.len() as int))
    } else {
        None
    };
    match stripped {
        Some(t) => if windows && crate::bytes::byte_len(t) < MAX_PATH {
            t
        } else {
            s
        },
        None => s,
    }
}

/// Drops the verbatim prefix of a Windows path: what parses such a path, as node does, fails on
/// it.
pub fn unverbatim(path: &str, windows: bool) -> (r: String)
    ensures
        r@ == path_unverbatim(path@, windows),
{
    if !windows {
        return path.to_owned();
    }
    let s = chars_of(path);
    let unc = chars_of("\\\\?\\UNC\\");
    let plain = chars_of("\\\\?\\");
    let stripped: String = if crate::search::stands_at(&s, &unc, 0) {
        let mut t = "\\\\".to_owned();
        t.append(string_of(&piece(&s, unc.len(), s.len())).as_str());
        t
    } else if crate::search::stands_at(&s, &plain, 0) {
        string_of(&piece(&s, plain.len(), s.len()))
    } else {
        return path.to_owned();
    };
    if crate::bytes::byte_count(stripped.as_str()) < MAX_PATH {
        stripped
    } else {
        path.to_owned()
    }
}

/// Away from Windows a path is left as it is.
pub proof fn only_windows_paths_change(s: Seq<char>)
    ensures
        path_unverbatim(s, false) == s,
{
}

/// May the path be the working directory of a child: absolute, and not a root?
pub open spec fn is_usable_directory(s: Seq<char>, windows: bool) -> bool {
    path_is_absolute(s, windows) && parent_path(s, windows) is Some
}

/// May the path be the working directory of a child?
pub fn usable_directory(path: &str, windows: bool) -> (r: bool)
    ensures
        r == is_usable_directory(path@, windows),
{
    is_absolute(path, windows) && parent(path, windows).is_some()
}

/// The path against the app's working directory, where one is known.
pub open spec fn path_absolute(s: Seq<char>, cwd: Option<Seq<char>>, windows: bool) -> Seq<char> {
    let plain = path_unverbatim(s, windows);
    if path_is_absolute(plain, windows) {
        plain
    } else {
        match cwd {
            Some(dir) => path_joined(dir, plain, windows),
            None => plain,
        }
    }
}

/// Resolves a path against the app's working directory, so that the child's does not decide.
pub fn absolute(path: &str, cwd: Option<&str>, windows: bool) -> (r: String)
    ensures
        r@ == path_absolute(
            path@,
            match cwd {
                Some(dir) => Some(dir@),
                None => None,
            },
            windows,
        ),
{
    let plain = unverbatim(path, windows);
    if is_absolute(plain.as_str(), windows) {
        return plain;
    }
    match cwd {
        Some(dir) => path_join(dir, plain.as_str(), windows),
        None => plain,
    }
}

/// The components of a path, by which paths are compared.
#[verifier::ext_equal]
pub struct Components {
    /// What stands in front of the names, written with `/`; a drive in lower case.
    pub prefix: Seq<char>,
    /// Does a separator stand in front of the names?
    pub rooted: bool,
    /// Does a `.` stand in front of them?
    pub dotted: bool,
    pub names: Seq<Seq<char>>,
}

/// What stands in front of a Windows path's components, in the one spelling that is compared.
pub open spec fn prefix_spelled(s: Seq<char>) -> Seq<char> {
    let prefix = s.subrange(0, prefix_len(s));
    if is_verbatim(s) {
        if prefix.len() == 6 && is_drive(prefix[4]) && prefix[5] == ':' {
            lowered(prefix)
        } else {
            prefix
        }
    } else if prefix.len() == 2 {
        lowered(prefix)
    } else {
        forward(prefix)
    }
}

/// The components of a path: neither separators at its end nor repeated ones count, and no `.`
/// but one at the start.
pub open spec fn components(s: Seq<char>, windows: bool) -> Components {
    let rules = rules_of(s, windows);
    let body = body_of(s, windows);
    let rooted = body.len() > 0 && separates(body[0], rules);
    Components {
        prefix: if windows {
            prefix_spelled(s)
        } else {
            Seq::empty()
        },
        rooted: rooted || (rules == Rules::Windows && prefix_on(s, windows) > 2),
        dotted: rules != Rules::Verbatim && body.subrange(0, component_end(body, 0, rules))
            == seq!['.'],
        names: names_in(body, rules),
    }
}

/// Do the two name the same path, component by component?
pub open spec fn same_path(a: Seq<char>, b: Seq<char>, windows: bool) -> bool {
    components(a, windows) == components(b, windows)
}

fn spell_prefix(s: &[char]) -> (r: Vec<char>)
    ensures
        r@ == prefix_spelled(s@),
{
    let prefix = piece(s, 0, length_of_prefix(s));
    if verbatim(s) {
        if prefix.len() == 6 && (('a' <= prefix[4] && prefix[4] <= 'z') || ('A' <= prefix[4]
            && prefix[4] <= 'Z')) && prefix[5] == ':' {
            to_lower(&prefix)
        } else {
            prefix
        }
    } else if prefix.len() == 2 {
        to_lower(&prefix)
    } else {
        forwarded(&prefix)
    }
}

/// The components of a path, as values.
struct Parts {
    prefix: Vec<char>,
    rooted: bool,
    dotted: bool,
    names: Vec<String>,
}

fn parts_of(path: &str, windows: bool) -> (r: Parts)
    ensures
        components(path@, windows) == (Components {
            prefix: r.prefix@,
            rooted: r.rooted,
            dotted: r.dotted,
            names: texts(r.names@),
        }),
{
    let s = chars_of(path);
    let rules = rules_for(&s, windows);
    let p: usize = length_on(&s, windows);
    let body = piece(&s, p, s.len());
    let prefix: Vec<char> = if windows {
        spell_prefix(&s)
    } else {
        Vec::new()
    };
    proof {
        if !windows {
            assert(prefix@ =~= Seq::<char>::empty());
        }
        assert(['.']@ =~= seq!['.']);
    }
    let rooted = (body.len() > 0 && sep(body[0], rules)) || (rules == Rules::Windows && p > 2);
    let first = piece(&body, 0, end_of_component(&body, 0, rules));
    let dotted = rules != Rules::Verbatim && same(&first, &['.']);
    let names = names_of(&body, rules);
    Parts { prefix, rooted, dotted, names }
}

/// Compares two paths by their components.
pub fn are_same_path(a: &str, b: &str, windows: bool) -> (r: bool)
    ensures
        r == same_path(a@, b@, windows),
{
    let x = parts_of(a, windows);
    let y = parts_of(b, windows);
    same(&x.prefix, &y.prefix) && x.rooted == y.rooted && x.dotted == y.dotted && same_texts(
        x.names.as_slice(),
        y.names.as_slice(),
    )
}

proof fn lemma_separators_have_no_parent(s: Seq<char>, n: int, rules: Rules)
    requires
        0 <= n <= s.len(),
        forall|i: int| 0 <= i < s.len() ==> separates(#[trigger] s[i], rules),
    ensures
        trimmed_end(s, n, rules) == (if n == 0 {
            0int
        } else {
            1
        }),
    decreases n,
{
    if n > 1 {
        assert(separates(s[n - 1], rules));
        lemma_separators_have_no_parent(s, n - 1, rules);
    }
}

/// A root is no working directory for a child: neither `/` nor a drive, a device or a share with
/// separators alone behind it.
pub proof fn a_root_is_not_usable(s: Seq<char>, windows: bool)
    requires
        forall|i: int|
            prefix_on(s, windows) <= i < s.len() ==> separates(
                #[trigger] s[i],
                rules_of(s, windows),
            ),
    ensures
        !is_usable_directory(s, windows),
{
    lemma_prefix_len(s);
    let p = prefix_on(s, windows);
    let rules = rules_of(s, windows);
    let body = body_of(s, windows);
    assert forall|i: int| 0 <= i < body.len() implies separates(#[trigger] body[i], rules) by {
        assert(body[i] == s[p + i]);
    }
    lemma_separators_have_no_parent(body, body.len() as int, rules);
    if body.len() > 0 {
        assert(separates(body[0], rules));
    }
}

proof fn lemma_component_end(s: Seq<char>, at: int, rules: Rules)
    requires
        0 <= at <= s.len(),
    ensures
        at <= component_end(s, at, rules) <= s.len(),
    decreases s.len() - at,
{
    if at < s.len() && !separates(s[at], rules) {
        lemma_component_end(s, at + 1, rules);
    }
}

proof fn lemma_prefix_len(s: Seq<char>)
    ensures
        0 <= prefix_len(s) <= s.len(),
{
    reveal_strlit("\\\\?\\");
    let unc = "\\\\?\\UNC\\"@;
    if crate::search::begins(s, unc) {
        lemma_component_end(s, unc.len() as int, Rules::Verbatim);
        let server = component_end(s, unc.len() as int, Rules::Verbatim);
        if server < s.len() {
            lemma_component_end(s, server + 1, Rules::Verbatim);
        }
    } else if is_verbatim(s) {
        lemma_component_end(s, 4, Rules::Verbatim);
    } else if s.len() >= 2 {
        lemma_component_end(s, 2, Rules::Windows);
        if s.len() >= 4 {
            lemma_component_end(s, 4, Rules::Windows);
        }
        if names_share(s) {
            lemma_component_end(s, component_end(s, 2, Rules::Windows) + 1, Rules::Windows);
        }
    }
}

/// The first of the places that is there.
pub open spec fn first_there(places: Seq<Seq<char>>, there: Seq<bool>) -> Option<Seq<char>>
    decreases places.len(),
{
    if places.len() == 0 || there.len() == 0 {
        None
    } else if there[0] {
        Some(places[0])
    } else {
        first_there(
            places.subrange(1, places.len() as int),
            there.subrange(1, there.len() as int),
        )
    }
}

/// The first of the places that is there; of places that were not looked at nothing is known.
pub fn first_present(places: &[String], there: &[bool]) -> (r: Option<String>)
    ensures
        crate::text::opt_view(r) == first_there(crate::text::texts(places@), there@),
{
    let ghost p = crate::text::texts(places@);
    let ghost q = there@;
    let mut i: usize = 0;
    proof {
        assert(p.subrange(0, p.len() as int) =~= p);
        assert(q.subrange(0, q.len() as int) =~= q);
    }
    while i < places.len() && i < there.len()
        invariant
            p == crate::text::texts(places@),
            q == there@,
            i <= p.len(),
            i <= q.len(),
            first_there(p.subrange(i as int, p.len() as int), q.subrange(i as int, q.len() as int))
                == first_there(p, q),
        decreases p.len() - i,
    {
        proof {
            let x = p.subrange(i as int, p.len() as int);
            let y = q.subrange(i as int, q.len() as int);
            assert(x[0] == places@[i as int]@);
            assert(y[0] == there@[i as int]);
            assert(x.subrange(1, x.len() as int) =~= p.subrange(i + 1, p.len() as int));
            assert(y.subrange(1, y.len() as int) =~= q.subrange(i + 1, q.len() as int));
        }
        if there[i] {
            return Some(places[i].clone());
        }
        i += 1;
    }
    None
}

/// A relative name inside a directory starts with the directory. Behind the verbatim prefix that
/// is not so, as `..` is worked out there.
pub proof fn joining_stays_inside(base: Seq<char>, name: Seq<char>, windows: bool)
    requires
        name.len() == 0 || !separates(name[0], rules_of(name, windows)),
        prefix_on(name, windows) == 0,
        windows ==> !is_verbatim(base),
    ensures
        path_joined(base, name, windows).len() >= base.len() + name.len(),
        path_joined(base, name, windows).subrange(0, base.len() as int) == base,
{
    if windows {
        lemma_plain_rules(name);
    }
    assert(path_joined(base, name, windows).subrange(0, base.len() as int) =~= base);
}

proof fn lemma_plain_rules(name: Seq<char>)
    requires
        prefix_len(name) == 0,
    ensures
        !is_verbatim(name),
{
    reveal_strlit("\\\\?\\");
    reveal_strlit("\\\\?\\UNC\\");
    if is_verbatim(name) {
        lemma_component_end(name, 4, Rules::Verbatim);
        if crate::search::begins(name, "\\\\?\\UNC\\"@) {
            lemma_component_end(name, 8, Rules::Verbatim);
        }
    }
}

/// Is this a name that stands for itself in every path?
pub open spec fn is_plain_name(name: Seq<char>) -> bool {
    &&& name.len() > 0
    &&& forall|i: int| 0 <= i < name.len() ==> !is_sep(#[trigger] name[i])
    &&& name != seq!['.']
    &&& name != seq!['.', '.']
    &&& name.len() >= 2 ==> name[1] != ':'
}

/// The path of a plain name inside a directory ends with the name.
pub proof fn joining_ends_with_the_name(base: Seq<char>, name: Seq<char>, windows: bool)
    requires
        is_plain_name(name),
    ensures
        path_joined(base, name, windows).len() >= name.len(),
        path_joined(base, name, windows).subrange(
            path_joined(base, name, windows).len() - name.len(),
            path_joined(base, name, windows).len() as int,
        ) == name,
{
    let whole = path_joined(base, name, windows);
    assert(!is_sep(name[0]));
    if windows {
        reveal_strlit("\\\\?\\");
        reveal_strlit("\\\\?\\UNC\\");
        if is_verbatim(name) {
            assert(name.subrange(0, 4)[0] == name[0]);
        }
        if crate::search::begins(name, "\\\\?\\UNC\\"@) {
            assert(name.subrange(0, 8)[0] == name[0]);
        }
        assert(prefix_len(name) == 0);
        if is_verbatim(base) {
            let kept = names_in(body_of(base, true), Rules::Verbatim);
            lemma_plain_names(name);
            let more = names_in(name, Rules::Windows);
            assert(more.drop_last() =~= Seq::<Seq<char>>::empty());
            reveal_with_fuel(entered, 2);
            assert(more.last() == name);
            let names = entered(kept, more);
            assert(names =~= kept.push(name));
            assert(names.drop_last() =~= kept);
        }
    }
    assert(whole.subrange(whole.len() - name.len(), whole.len() as int) =~= name);
}

proof fn lemma_plain_names(name: Seq<char>)
    requires
        is_plain_name(name),
    ensures
        names_in(name, Rules::Windows) == seq![name],
{
    assert(forward(name) =~= name) by {
        assert forall|i: int| 0 <= i < name.len() implies forward(name)[i] == name[i] by {
            assert(!is_sep(name[i]));
        }
    }
    crate::split::lemma_position(name, '/');
    let parts = split(name, '/');
    assert(parts =~= seq![name]) by {
        let p = crate::split::position(name, '/');
        if p < name.len() {
            assert(!is_sep(name[p]));
        }
    }
    reveal_with_fuel(Seq::filter, 2);
    assert(parts.drop_last() =~= Seq::<Seq<char>>::empty());
    let wanted = |component: Seq<char>| is_name(component, Rules::Windows);
    assert(wanted(name));
    assert(parts.filter(wanted) =~= seq![name]);
}

// ---------------------------------------------------------------------------------------------
// What paths are, in so many words
// ---------------------------------------------------------------------------------------------

/// Away from Windows a name goes behind its directory with one `/` between them, and an absolute
/// path stands for itself.
pub proof fn a_name_is_joined_with_a_slash(base: Seq<char>, name: Seq<char>)
    ensures
        name.len() > 0 && name[0] == '/' ==> path_joined(base, name, false) == name,
        (name.len() == 0 || name[0] != '/') && base.len() > 0 && base.last() != '/' ==> path_joined(
            base,
            name,
            false,
        ) == base + seq!['/'] + name,
        (name.len() == 0 || name[0] != '/') && base.len() > 0 && base.last() == '/' ==> path_joined(
            base,
            name,
            false,
        ) == base + name,
        name.len() > 0 ==> path_joined(Seq::empty(), name, false) == name,
{
    assert(Seq::<char>::empty() + name =~= name);
}

/// On Windows a name goes behind the directory of a drive with one `\\` between them.
pub proof fn a_name_is_joined_with_a_backslash(
    drive: char,
    dir: Seq<char>,
    name: Seq<char>,
)
    requires
        'a' <= drive <= 'z' || 'A' <= drive <= 'Z',
        is_plain_name(name),
        dir.len() > 0,
    ensures
        dir.last() != '\\' && dir.last() != '/' ==> path_joined(
            seq![drive, ':'] + dir,
            name,
            true,
        ) == seq![drive, ':'] + dir + seq!['\\'] + name,
        dir.last() == '\\' || dir.last() == '/' ==> path_joined(seq![drive, ':'] + dir, name, true)
            == seq![drive, ':'] + dir + name,
{
    let base = seq![drive, ':'] + dir;
    lemma_plain_prefix(name);
    lemma_drive_prefix(base);
    assert(base.last() == dir.last());
    assert(!is_sep(name[0]));
}

proof fn lemma_plain_prefix(name: Seq<char>)
    requires
        is_plain_name(name),
    ensures
        prefix_len(name) == 0,
{
    reveal_strlit("\\\\?\\");
    reveal_strlit("\\\\?\\UNC\\");
    assert(!is_sep(name[0]));
    if is_verbatim(name) {
        assert(name.subrange(0, 4)[0] == name[0]);
    }
    if crate::search::begins(name, "\\\\?\\UNC\\"@) {
        assert(name.subrange(0, 8)[0] == name[0]);
    }
}

proof fn lemma_drive_prefix(s: Seq<char>)
    requires
        s.len() >= 2,
        is_drive(s[0]),
        s[1] == ':',
    ensures
        prefix_len(s) == 2,
        !is_verbatim(s),
{
    reveal_strlit("\\\\?\\");
    reveal_strlit("\\\\?\\UNC\\");
    if is_verbatim(s) {
        assert(s.subrange(0, 4)[0] == s[0]);
    }
    if crate::search::begins(s, "\\\\?\\UNC\\"@) {
        assert(s.subrange(0, 8)[0] == s[0]);
    }
}

/// Away from Windows a path is absolute where it begins with `/`. On Windows a drive with a
/// separator behind it makes it absolute; a drive alone does not, nor a separator alone, nor a
/// plain name.
pub proof fn what_makes_a_path_absolute(s: Seq<char>, drive: char, rest: Seq<char>)
    requires
        'a' <= drive <= 'z' || 'A' <= drive <= 'Z',
    ensures
        path_is_absolute(s, false) <==> s.len() > 0 && s[0] == '/',
        path_is_absolute(seq![drive, ':', '\\'] + rest, true),
        path_is_absolute(seq![drive, ':', '/'] + rest, true),
        rest.len() == 0 || (rest[0] != '\\' && rest[0] != '/') ==> !path_is_absolute(
            seq![drive, ':'] + rest,
            true,
        ),
        rest.len() > 0 && rest[0] != '\\' && rest[0] != '/' ==> !path_is_absolute(
            seq!['\\'] + rest,
            true,
        ),
        is_plain_name(s) ==> !path_is_absolute(s, true),
{
    let back = seq![drive, ':', '\\'] + rest;
    lemma_drive_prefix(back);
    assert(back[2] == '\\');
    let fore = seq![drive, ':', '/'] + rest;
    lemma_drive_prefix(fore);
    assert(fore[2] == '/');
    let bare = seq![drive, ':'] + rest;
    lemma_drive_prefix(bare);
    if rest.len() > 0 {
        assert(bare[2] == rest[0]);
        let rooted = seq!['\\'] + rest;
        assert(rooted[1] == rest[0]);
        if rest[0] != '\\' && rest[0] != '/' {
            reveal_strlit("\\\\?\\");
            reveal_strlit("\\\\?\\UNC\\");
            if is_verbatim(rooted) {
                assert(rooted.subrange(0, 4)[1] == rooted[1]);
            }
            if crate::search::begins(rooted, "\\\\?\\UNC\\"@) {
                assert(rooted.subrange(0, 8)[1] == rooted[1]);
            }
        }
    }
    if is_plain_name(s) {
        lemma_plain_prefix(s);
    }
}

proof fn lemma_trimmed_stays(s: Seq<char>, n: int, rules: Rules)
    requires
        0 <= n <= s.len(),
        n > 1 ==> !separates(s[n - 1], rules) && !(s[n - 1] == '.' && separates(s[n - 2], rules)),
    ensures
        trimmed_end(s, n, rules) == n,
{
}

proof fn lemma_last_start_is(s: Seq<char>, n: int, start: int, rules: Rules)
    requires
        0 <= start <= n <= s.len(),
        start > 0 ==> separates(s[start - 1], rules),
        forall|i: int| start <= i < n ==> !separates(#[trigger] s[i], rules),
    ensures
        last_start(s, n, rules) == start,
    decreases n,
{
    if n > start {
        assert(!separates(s[n - 1], rules));
        lemma_last_start_is(s, n - 1, start, rules);
    }
}

/// Away from Windows what stands before the last `/` is the directory of a path, and what stands
/// behind it the name of its file.
pub proof fn a_path_is_its_directory_and_its_name(dir: Seq<char>, name: Seq<char>)
    requires
        name.len() > 0,
        forall|i: int| 0 <= i < name.len() ==> name[i] != '/',
        name != seq!['.'],
        name != seq!['.', '.'],
        dir.len() > 0,
        dir.last() != '/',
        dir.len() == 1 || !(dir.last() == '.' && dir[dir.len() - 2] == '/'),
    ensures
        parent_path(dir + seq!['/'] + name, false) == Some(dir),
        file_name_in(dir + seq!['/'] + name, false) == Some(name),
        parent_path(seq!['/'] + name, false) == Some(seq!['/']),
        file_name_in(seq!['/'] + name, false) == Some(name),
        file_name_in(name, false) == Some(name),
        parent_path(name, false) == Some(Seq::<char>::empty()),
        parent_path(seq!['/'], false) is None,
{
    let rules = Rules::Unix;
    let s = dir + seq!['/'] + name;
    let n = s.len() as int;
    let at = dir.len() as int;
    assert(body_of(s, false) =~= s);
    assert(s[n - 1] == name.last());
    if name.len() == 1 {
        assert(name =~= seq![name[0]]);
        assert(name[0] != '.');
    } else {
        assert(s[n - 2] == name[name.len() - 2]);
    }
    assert(name[name.len() - 1] != '/');
    lemma_trimmed_stays(s, n, rules);
    assert(s[at] == '/');
    assert forall|i: int| at + 1 <= i < n implies !separates(#[trigger] s[i], rules) by {
        assert(s[i] == name[i - at - 1]);
    }
    lemma_last_start_is(s, n, at + 1, rules);
    assert(s[at - 1] == dir.last());
    if at > 1 {
        assert(s[at - 2] == dir[at - 2]);
    }
    lemma_trimmed_stays(s, at, rules);
    assert(s.subrange(at + 1, n) =~= name);
    assert(s.subrange(0, at) =~= dir);
    let root = seq!['/'] + name;
    let m = root.len() as int;
    assert(body_of(root, false) =~= root);
    assert(root[m - 1] == name.last());
    if name.len() > 1 {
        assert(root[m - 2] == name[name.len() - 2]);
    }
    lemma_trimmed_stays(root, m, rules);
    assert forall|i: int| 1 <= i < m implies !separates(#[trigger] root[i], rules) by {
        assert(root[i] == name[i - 1]);
    }
    lemma_last_start_is(root, m, 1, rules);
    assert(root.subrange(1, m) =~= name);
    assert(root.subrange(0, 1) =~= seq!['/']);
    let k = name.len() as int;
    assert(body_of(name, false) =~= name);
    if k > 1 {
        assert(name[k - 2] != '/');
    }
    lemma_trimmed_stays(name, k, rules);
    assert forall|i: int| 0 <= i < k implies !separates(#[trigger] name[i], rules) by {}
    lemma_last_start_is(name, k, 0, rules);
    assert(name.subrange(0, k) =~= name);
    assert(name.subrange(0, 0) =~= Seq::<char>::empty());
    assert(body_of(seq!['/'], false) =~= seq!['/']);
}

/// On Windows what stands before the last separator is the directory of a path below a drive, and
/// what stands behind it the name of its file.
pub proof fn a_path_of_a_drive_is_its_directory_and_its_name(
    drive: char,
    dir: Seq<char>,
    sep: char,
    name: Seq<char>,
)
    requires
        'a' <= drive <= 'z' || 'A' <= drive <= 'Z',
        sep == '\\' || sep == '/',
        is_plain_name(name),
        dir.len() > 1,
        dir.last() != '/' && dir.last() != '\\',
        !(dir.last() == '.' && (dir[dir.len() - 2] == '/' || dir[dir.len() - 2] == '\\')),
    ensures
        parent_path(seq![drive, ':'] + dir + seq![sep] + name, true) == Some(
            seq![drive, ':'] + dir,
        ),
        file_name_in(seq![drive, ':'] + dir + seq![sep] + name, true) == Some(name),
{
    let rules = Rules::Windows;
    let whole = seq![drive, ':'] + dir + seq![sep] + name;
    lemma_drive_prefix(whole);
    let s = dir + seq![sep] + name;
    assert(body_of(whole, true) =~= s);
    let n = s.len() as int;
    let at = dir.len() as int;
    assert(s[n - 1] == name.last());
    assert(!is_sep(name[name.len() - 1]));
    if name.len() == 1 {
        assert(name =~= seq![name[0]]);
        assert(name[0] != '.');
    } else {
        assert(s[n - 2] == name[name.len() - 2]);
        assert(!is_sep(name[name.len() - 2]));
    }
    lemma_trimmed_stays(s, n, rules);
    assert(s[at] == sep);
    assert forall|i: int| at + 1 <= i < n implies !separates(#[trigger] s[i], rules) by {
        assert(s[i] == name[i - at - 1]);
        assert(!is_sep(name[i - at - 1]));
    }
    lemma_last_start_is(s, n, at + 1, rules);
    assert(s[at - 1] == dir.last());
    assert(s[at - 2] == dir[at - 2]);
    lemma_trimmed_stays(s, at, rules);
    assert(s.subrange(at + 1, n) =~= name);
    assert(whole.subrange(0, 2 + at) =~= seq![drive, ':'] + dir);
}

/// On Windows a verbatim path that is short enough loses the prefix, and one of a share keeps the
/// two separators that a share begins with. Nothing else changes.
pub proof fn a_verbatim_prefix_goes(rest: Seq<char>, s: Seq<char>)
    requires
        crate::bytes::byte_len(rest) < 250,
    ensures
        !"UNC\\"@.is_prefix_of(rest) ==> path_unverbatim("\\\\?\\"@ + rest, true) == rest,
        path_unverbatim("\\\\?\\UNC\\"@ + rest, true) == "\\\\"@ + rest,
        !"\\\\?\\"@.is_prefix_of(s) ==> path_unverbatim(s, true) == s,
        path_unverbatim(s, false) == s,
{
    reveal_strlit("\\\\?\\");
    reveal_strlit("\\\\?\\UNC\\");
    reveal_strlit("UNC\\");
    reveal_strlit("\\\\");
    let plain = "\\\\?\\"@;
    let unc = "\\\\?\\UNC\\"@;
    let a = plain + rest;
    assert(unc =~= plain + "UNC\\"@);
    assert(a.subrange(0, 4) =~= plain);
    assert(a.subrange(4, a.len() as int) =~= rest);
    if crate::search::begins(a, unc) {
        assert(a.subrange(0, 8) == unc);
        assert forall|i: int| 0 <= i < 4 implies rest[i] == "UNC\\"@[i] by {
            assert(a.subrange(0, 8)[4 + i] == unc[4 + i]);
            assert(a[4 + i] == rest[i]);
        }
        assert("UNC\\"@ =~= rest.subrange(0, 4));
        assert("UNC\\"@.is_prefix_of(rest));
    }
    let b = unc + rest;
    assert(b.subrange(0, 8) =~= unc);
    assert(b.subrange(8, b.len() as int) =~= rest);
    let two = "\\\\"@;
    crate::bytes::lemma_byte_len_concat(two, rest);
    assert(two =~= seq!['\\', '\\']);
    assert(two.drop_first() =~= seq!['\\']);
    assert(two.drop_first().drop_first() =~= Seq::<char>::empty());
    let one = two.drop_first();
    assert(crate::bytes::byte_len(one.drop_first()) == 0);
    assert(crate::bytes::byte_len(one) == 1);
    assert(crate::bytes::byte_len(two) == 2);
    if crate::search::begins(s, unc) {
        assert(s.subrange(0, 8) == unc);
        assert(s.subrange(0, 4) =~= s.subrange(0, 8).subrange(0, 4));
        assert(unc.subrange(0, 4) =~= plain);
        assert(plain.is_prefix_of(s));
    }
    if crate::search::begins(s, plain) {
        assert(plain.is_prefix_of(s));
    }
}

proof fn lemma_filter_concat(a: Seq<Seq<char>>, b: Seq<Seq<char>>, p: spec_fn(Seq<char>) -> bool)
    ensures
        (a + b).filter(p) == a.filter(p) + b.filter(p),
    decreases b.len(),
{
    reveal(Seq::filter);
    if b.len() == 0 {
        assert(a + b =~= a);
        assert(b.filter(p) =~= Seq::<Seq<char>>::empty());
        assert(a.filter(p) + b.filter(p) =~= a.filter(p));
    } else {
        assert((a + b).drop_last() =~= a + b.drop_last());
        assert((a + b).last() == b.last());
        lemma_filter_concat(a, b.drop_last(), p);
        assert((a + b).filter(p) =~= a.filter(p) + b.filter(p));
    }
}

/// Two paths are the same whatever separators stand at their end, and whatever `.` stands between
/// their names; two names in one directory are two paths.
pub proof fn when_two_paths_are_the_same(s: Seq<char>, x: Seq<char>, y: Seq<char>)
    requires
        s.len() > 0,
    ensures
        same_path(s, s, false),
        same_path(s + seq!['/'], s, false),
        same_path(s + seq!['/', '.'], s, false),
        is_plain_name(x) && is_plain_name(y) ==> (same_path(
            s + seq!['/'] + x,
            s + seq!['/'] + y,
            false,
        ) <==> x == y),
{
    let rules = Rules::Unix;
    let named = |component: Seq<char>| is_name(component, rules);
    let none = Seq::<char>::empty();
    lemma_unix_components(s, none);
    lemma_unix_components(s, seq!['.']);
    assert(s + seq!['/'] + none =~= s + seq!['/']);
    assert(s + seq!['/'] + seq!['.'] =~= s + seq!['/', '.']);
    reveal(Seq::filter);
    crate::split::a_part_is_whole(none, '/');
    crate::split::a_part_is_whole(seq!['.'], '/');
    assert(seq![none].drop_last() =~= Seq::<Seq<char>>::empty());
    assert(seq![seq!['.']].drop_last() =~= Seq::<Seq<char>>::empty());
    assert(seq![none].drop_last().filter(named) =~= Seq::<Seq<char>>::empty());
    assert(!named(none));
    assert(!named(seq!['.']));
    assert(seq![none].filter(named) =~= Seq::<Seq<char>>::empty());
    assert(seq![seq!['.']].filter(named) =~= Seq::<Seq<char>>::empty());
    assert(names_in(s, rules) + Seq::<Seq<char>>::empty() =~= names_in(s, rules));
    if is_plain_name(x) && is_plain_name(y) {
        lemma_unix_components(s, x);
        lemma_unix_components(s, y);
        lemma_plain_part(x);
        lemma_plain_part(y);
        let a = names_in(s + seq!['/'] + x, rules);
        let b = names_in(s + seq!['/'] + y, rules);
        assert(a.last() == x);
        assert(b.last() == y);
    }
}

proof fn lemma_plain_part(name: Seq<char>)
    requires
        is_plain_name(name),
    ensures
        split(name, '/').filter(|component: Seq<char>| is_name(component, Rules::Unix)) == seq![
            name,
        ],
{
    let named = |component: Seq<char>| is_name(component, Rules::Unix);
    assert forall|i: int| 0 <= i < name.len() implies name[i] != '/' by {
        assert(!is_sep(name[i]));
    }
    crate::split::a_part_is_whole(name, '/');
    reveal(Seq::filter);
    let alone = seq![name];
    assert(alone.drop_last() =~= Seq::<Seq<char>>::empty());
    assert(alone.drop_last().filter(named) =~= Seq::<Seq<char>>::empty());
    assert(named(name));
    assert(alone.filter(named) =~= seq![name]);
}

proof fn lemma_component_stays(s: Seq<char>, more: Seq<char>, at: int)
    requires
        0 <= at <= s.len(),
    ensures
        component_end(s + seq!['/'] + more, at, Rules::Unix) == component_end(s, at, Rules::Unix),
    decreases s.len() - at,
{
    let whole = s + seq!['/'] + more;
    if at < s.len() {
        assert(whole[at] == s[at]);
        if s[at] != '/' {
            lemma_component_stays(s, more, at + 1);
        }
    } else {
        assert(whole[at] == '/');
    }
}

/// The components of a path with something behind it and a `/` between them.
proof fn lemma_unix_components(s: Seq<char>, more: Seq<char>)
    requires
        s.len() > 0,
    ensures
        ({
            let named = |component: Seq<char>| is_name(component, Rules::Unix);
            let long = components(s + seq!['/'] + more, false);
            let short = components(s, false);
            &&& long.prefix == short.prefix
            &&& long.rooted == short.rooted
            &&& long.dotted == short.dotted
            &&& long.names == short.names + split(more, '/').filter(named)
            &&& long.names == names_in(s + seq!['/'] + more, Rules::Unix)
            &&& short.names == names_in(s, Rules::Unix)
        }),
{
    let rules = Rules::Unix;
    let named = |component: Seq<char>| is_name(component, rules);
    let whole = s + seq!['/'] + more;
    assert(body_of(s, false) =~= s);
    assert(body_of(whole, false) =~= whole);
    assert(whole[0] == s[0]);
    crate::split::parts_follow_each_other(s, '/', more);
    lemma_filter_concat(split(s, '/'), split(more, '/'), named);
    lemma_component_end(s, 0, rules);
    let e = component_end(s, 0, rules);
    lemma_component_stays(s, more, 0);
    assert(whole.subrange(0, e) =~= s.subrange(0, e));
}

/// On Windows a drive is the same in either case.
pub proof fn a_drive_is_the_same_in_either_case(small: char, rest: Seq<char>)
    requires
        'a' <= small <= 'z',
    ensures
        same_path(
            seq![small, ':'] + rest,
            seq![((small as u32 - 32) as u32) as char, ':'] + rest,
            true,
        ),
{
    let large = ((small as u32 - 32) as u32) as char;
    let a = seq![small, ':'] + rest;
    let b = seq![large, ':'] + rest;
    assert('A' <= large <= 'Z');
    lemma_drive_prefix(a);
    lemma_drive_prefix(b);
    assert(body_of(a, true) =~= rest);
    assert(body_of(b, true) =~= rest);
    assert(lowered(a.subrange(0, 2)) =~= lowered(b.subrange(0, 2)));
}

/// The extension of a name begins at its last dot; a dot at the start begins none.
pub proof fn where_an_extension_begins(stem: Seq<char>, extension: Seq<char>)
    requires
        stem.len() > 0,
        forall|i: int| 0 <= i < extension.len() ==> extension[i] != '.',
    ensures
        dot_in(stem + seq!['.'] + extension) == stem.len(),
        (forall|i: int| 1 <= i < stem.len() ==> stem[i] != '.') ==> dot_in(stem) == stem.len(),
{
    let name = stem + seq!['.'] + extension;
    lemma_last_dot(name, name.len() as int, stem.len() as int);
    if forall|i: int| 1 <= i < stem.len() ==> stem[i] != '.' {
        lemma_no_dot(stem, stem.len() as int);
    }
}

proof fn lemma_last_dot(name: Seq<char>, n: int, at: int)
    requires
        0 < at < n <= name.len(),
        name[at] == '.',
        forall|i: int| at < i < n ==> name[i] != '.',
    ensures
        dot_before(name, n) == at,
    decreases n,
{
    if n - 1 > at {
        assert(name[n - 1] != '.');
        lemma_last_dot(name, n - 1, at);
    }
}

proof fn lemma_no_dot(name: Seq<char>, n: int)
    requires
        n <= name.len(),
        forall|i: int| 1 <= i < n ==> name[i] != '.',
    ensures
        dot_before(name, n) == name.len(),
    decreases n,
{
    if n > 1 {
        lemma_no_dot(name, n - 1);
    }
}

/// The first place that is there is taken, and none where none is.
pub proof fn the_first_place_is_taken(places: Seq<Seq<char>>, there: Seq<bool>, k: int)
    requires
        there.len() == places.len(),
        0 <= k <= places.len(),
        forall|i: int| 0 <= i < k ==> !#[trigger] there[i],
        k < places.len() ==> there[k],
    ensures
        first_there(places, there) == (if k < places.len() {
            Some(places[k])
        } else {
            None
        }),
    decreases places.len(),
{
    if k > 0 {
        let rest = places.subrange(1, places.len() as int);
        let left = there.subrange(1, there.len() as int);
        assert forall|i: int| 0 <= i < k - 1 implies !#[trigger] left[i] by {
            assert(left[i] == there[i + 1]);
        }
        assert(!there[0]);
        the_first_place_is_taken(rest, left, k - 1);
    }
}

/// A path that is absolute stays as it is, and any other is taken against the directory that the
/// app works in, where that is known.
pub proof fn a_relative_path_is_taken_against_the_directory(s: Seq<char>, cwd: Seq<char>)
    ensures
        s.len() > 0 && s[0] == '/' ==> path_absolute(s, Some(cwd), false) == s && path_absolute(
            s,
            None,
            false,
        ) == s,
        s.len() > 0 && s[0] != '/' && cwd.len() > 0 && cwd.last() != '/' ==> path_absolute(
            s,
            Some(cwd),
            false,
        ) == cwd + seq!['/'] + s,
        s.len() == 0 || s[0] != '/' ==> path_absolute(s, None, false) == s,
{
    only_windows_paths_change(s);
}

/// Away from Windows the extension of a file's name is replaced, or put behind a name that has
/// none; the directory stays.
pub proof fn how_an_extension_is_replaced(
    dir: Seq<char>,
    stem: Seq<char>,
    extension: Seq<char>,
    other: Seq<char>,
)
    requires
        dir.len() > 0 && dir.last() != '/',
        dir.len() == 1 || !(dir.last() == '.' && dir[dir.len() - 2] == '/'),
        is_plain_name(stem),
        forall|i: int| 1 <= i < stem.len() ==> stem[i] != '.',
        extension.len() > 0,
        forall|i: int| 0 <= i < extension.len() ==> extension[i] != '.' && extension[i] != '/'
            && extension[i] != '\\',
    ensures
        path_with_extension(dir + seq!['/'] + stem + seq!['.'] + extension, other, false) == dir
            + seq!['/'] + stem + seq!['.'] + other,
        path_with_extension(dir + seq!['/'] + stem, other, false) == dir + seq!['/'] + stem + seq![
            '.',
        ] + other,
{
    let rules = Rules::Unix;
    where_an_extension_begins(stem, extension);
    let name = stem + seq!['.'] + extension;
    assert forall|i: int| 0 <= i < stem.len() implies stem[i] != '/' by {
        assert(!is_sep(stem[i]));
    }
    assert forall|i: int| 0 <= i < name.len() implies name[i] != '/' by {
        if i < stem.len() {
            assert(name[i] == stem[i]);
        } else if i > stem.len() {
            assert(name[i] == extension[i - stem.len() - 1]);
        }
    }
    assert(name.len() >= 3);
    a_path_is_its_directory_and_its_name(dir, name);
    a_path_is_its_directory_and_its_name(dir, stem);
    let a = dir + seq!['/'] + name;
    assert(a =~= dir + seq!['/'] + stem + seq!['.'] + extension);
    lemma_name_starts(dir, name);
    lemma_name_starts(dir, stem);
    let at = dir.len() as int + 1;
    assert(a.subrange(0, at + stem.len()) =~= dir + seq!['/'] + stem);
    let b = dir + seq!['/'] + stem;
    assert(b.subrange(0, at + stem.len()) =~= b);
}

proof fn lemma_name_starts(dir: Seq<char>, name: Seq<char>)
    requires
        name.len() > 0,
        forall|i: int| 0 <= i < name.len() ==> name[i] != '/',
        name != seq!['.'],
    ensures
        ({
            let s = dir + seq!['/'] + name;
            let body = body_of(s, false);
            &&& body == s
            &&& trimmed_end(body, body.len() as int, Rules::Unix) == s.len()
            &&& last_start(body, s.len() as int, Rules::Unix) == dir.len() + 1
        }),
{
    let rules = Rules::Unix;
    let s = dir + seq!['/'] + name;
    let n = s.len() as int;
    let at = dir.len() as int;
    assert(body_of(s, false) =~= s);
    assert(s[n - 1] == name.last());
    assert(name[name.len() - 1] != '/');
    if name.len() == 1 {
        assert(name =~= seq![name[0]]);
        assert(name[0] != '.');
    } else {
        assert(s[n - 2] == name[name.len() - 2]);
    }
    lemma_trimmed_stays(s, n, rules);
    assert(s[at] == '/');
    assert forall|i: int| at + 1 <= i < n implies !separates(#[trigger] s[i], rules) by {
        assert(s[i] == name[i - at - 1]);
    }
    lemma_last_start_is(s, n, at + 1, rules);
}

} // verus!

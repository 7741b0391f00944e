//! The environment of the user's login shell.
//!
//! An app that is started from the desktop does not have it, so the keys and paths that a user
//! exports never reach the CLI. The shell's `env` output is read once at startup.
use vstd::prelude::*;

use crate::search::starts_with;
#[allow(unused_imports)]
use crate::search::begins;
use crate::split::{position_of, text_lines};
#[allow(unused_imports)]
use crate::split::{
    a_line_goes_up_to_its_end, lemma_position, lines, lines_follow_each_other, position,
};
use crate::text::{chars_of, piece, string_of, text_eq};
#[allow(unused_imports)]
use crate::text::{opt_view, texts};
use crate::version::{rank_texts, Rank};
#[allow(unused_imports)]
use crate::version::{lemma_text_below_asymmetric, lemma_text_below_weak, text_below};

verus! {

/// Variables by name, in the order of their names.
#[derive(Debug, Clone, PartialEq, Eq)]
pub struct EnvMap {
    entries: Vec<(String, String)>,
}

/// Names and values, one pair for each variable.
pub open spec fn env_pairs(entries: Seq<(String, String)>) -> Seq<(Seq<char>, Seq<char>)> {
    Seq::new(entries.len(), |i: int| (entries[i].0@, entries[i].1@))
}

/// Where the name stands in the list; its length where it does not.
pub open spec fn index_of_name(pairs: Seq<(Seq<char>, Seq<char>)>, name: Seq<char>) -> int
    decreases pairs.len(),
{
    if pairs.len() == 0 || pairs[0].0 == name {
        0
    } else {
        1 + index_of_name(pairs.subrange(1, pairs.len() as int), name)
    }
}

/// The variables of a list of pairs.
pub open spec fn env_map(pairs: Seq<(Seq<char>, Seq<char>)>) -> Map<Seq<char>, Seq<char>> {
    Map::new(
        |name: Seq<char>| index_of_name(pairs, name) < pairs.len(),
        |name: Seq<char>| pairs[index_of_name(pairs, name)].1,
    )
}

proof fn lemma_index_of_name(pairs: Seq<(Seq<char>, Seq<char>)>, name: Seq<char>)
    ensures
        0 <= index_of_name(pairs, name) <= pairs.len(),
        index_of_name(pairs, name) < pairs.len() ==> pairs[index_of_name(pairs, name)].0 == name,
        forall|j: int| 0 <= j < index_of_name(pairs, name) ==> (#[trigger] pairs[j]).0 != name,
    decreases pairs.len(),
{
    if pairs.len() == 0 || pairs[0].0 == name {
    } else {
        let rest = pairs.subrange(1, pairs.len() as int);
        lemma_index_of_name(rest, name);
        assert forall|j: int| 0 <= j < index_of_name(pairs, name) implies (#[trigger] pairs[j]).0
            != name by {
            if j > 0 {
                assert(rest[j - 1] == pairs[j]);
            }
        }
    }
}

/// Are the names in strict order?
pub open spec fn in_order(pairs: Seq<(Seq<char>, Seq<char>)>) -> bool {
    forall|i: int, j: int|
        0 <= i < j < pairs.len() ==> text_below((#[trigger] pairs[i]).0, (#[trigger] pairs[j]).0)
}

impl EnvMap {
    /// The variables in the order of their names.
    pub closed spec fn listed(&self) -> Seq<(Seq<char>, Seq<char>)> {
        env_pairs(self.entries@)
    }

    /// The names are in strict order, so none occurs twice.
    pub open spec fn wf(&self) -> bool {
        in_order(self.listed())
    }

    /// No variables.
    pub fn new() -> (r: EnvMap)
        ensures
            r.wf(),
            r@ == Map::<Seq<char>, Seq<char>>::empty(),
            r.listed() == Seq::<(Seq<char>, Seq<char>)>::empty(),
    {
        let r = EnvMap { entries: Vec::new() };
        proof {
            assert(r.listed() =~= Seq::<(Seq<char>, Seq<char>)>::empty());
            assert(r@ =~= Map::<Seq<char>, Seq<char>>::empty());
        }
        r
    }

    /// How many variables there are.
    pub fn len(&self) -> (r: usize)
        ensures
            r == self.listed().len(),
    {
        self.entries.len()
    }

    /// Are there none?
    pub fn is_empty(&self) -> (r: bool)
        ensures
            r == (self.listed().len() == 0),
    {
        self.entries.len() == 0
    }

    /// The variable at a place in the order.
    pub fn at(&self, index: usize) -> (r: (&String, &String))
        requires
            index < self.listed().len(),
        ensures
            (r.0@, r.1@) == self.listed()[index as int],
    {
        (&self.entries[index].0, &self.entries[index].1)
    }

    /// The value of a variable.
    pub fn get(&self, name: &str) -> (r: Option<&String>)
        requires
            self.wf(),
        ensures
            (match r {
                Some(value) => self@.dom().contains(name@) && self@[name@] == value@,
                None => !self@.dom().contains(name@),
            }),
    {
        let mut i: usize = 0;
        proof {
            lemma_index_of_name(self.listed(), name@);
        }
        while i < self.entries.len()
            invariant
                i <= self.entries@.len(),
                forall|j: int| 0 <= j < i ==> (#[trigger] self.listed()[j]).0 != name@,
                index_of_name(self.listed(), name@) < self.listed().len() ==> self.listed()[
                    index_of_name(self.listed(), name@)
                ].0 == name@,
                0 <= index_of_name(self.listed(), name@) <= self.listed().len(),
                forall|j: int|
                    0 <= j < index_of_name(self.listed(), name@) ==> (#[trigger] self.listed()[j]).0
                        != name@,
            decreases self.entries@.len() - i,
        {
            proof {
                assert(self.listed()[i as int].0 == self.entries@[i as int].0@);
            }
            if text_eq(self.entries[i].0.as_str(), name) {
                return Some(&self.entries[i].1);
            }
            i += 1;
        }
        None
    }

    /// Is the variable there?
    pub fn contains_key(&self, name: &str) -> (r: bool)
        requires
            self.wf(),
        ensures
            r == self@.dom().contains(name@),
    {
        self.get(name).is_some()
    }

    /// Sets a variable.
    pub fn insert(&mut self, name: String, value: String)
        requires
            old(self).wf(),
        ensures
            final(self).wf(),
            final(self)@ == old(self)@.insert(name@, value@),
    {
        let ghost before = self.listed();
        let key = chars_of(name.as_str());
        let mut i: usize = 0;
        let mut level = false;
        while i < self.entries.len() && !level
            invariant
                i <= self.entries@.len(),
                key@ == name@,
                self.listed() == before,
                before == old(self).listed(),
                in_order(before),
                forall|j: int| 0 <= j < i ==> text_below((#[trigger] before[j]).0, name@),
                level ==> i < self.entries@.len() && before[i as int].0 == name@,
            decreases self.entries@.len() - i + (if level {
                0int
            } else {
                1int
            }),
        {
            let here = chars_of(self.entries[i].0.as_str());
            proof {
                assert(before[i as int].0 == here@);
                lemma_level_is_same(here@, key@);
            }
            match rank_texts(&here, &key) {
                Rank::Below => {
                    i += 1;
                },
                Rank::Level => {
                    level = true;
                },
                Rank::Above => {
                    let ghost n = name@;
                    let ghost v = value@;
                    self.entries.insert(i, (name, value));
                    proof {
                        assert(self.listed() =~= before.insert(i as int, (n, v)));
                        lemma_inserted(before, i as int, n, v);
                    }
                    return;
                },
            }
        }
        let ghost n = name@;
        let ghost v = value@;
        if level {
            self.entries.set(i, (name, value));
            proof {
                assert(self.listed() =~= before.update(i as int, (n, v)));
                lemma_replaced(before, i as int, n, v);
            }
        } else {
            self.entries.push((name, value));
            proof {
                assert(self.listed() =~= before.insert(i as int, (n, v)));
                lemma_inserted(before, i as int, n, v);
            }
        }
    }
}

impl View for EnvMap {
    type V = Map<Seq<char>, Seq<char>>;

    open spec fn view(&self) -> Map<Seq<char>, Seq<char>> {
        env_map(self.listed())
    }
}

/// Texts that rank level are the same.
proof fn lemma_level_is_same(a: Seq<char>, b: Seq<char>)
    ensures
        !text_below(a, b) && !text_below(b, a) <==> a == b,
    decreases a.len(),
{
    lemma_text_below_asymmetric(a, a);
    if a.len() > 0 && b.len() > 0 && a[0] == b[0] {
        let x = a.subrange(1, a.len() as int);
        let y = b.subrange(1, b.len() as int);
        lemma_level_is_same(x, y);
        if x == y {
            assert(a =~= seq![a[0]] + x);
            assert(b =~= seq![b[0]] + y);
        }
    } else if a.len() == 0 && b.len() == 0 {
        assert(a =~= b);
    }
}

/// In a list in order the index of a name is the only place where it stands.
proof fn lemma_unique(pairs: Seq<(Seq<char>, Seq<char>)>, i: int)
    requires
        in_order(pairs),
        0 <= i < pairs.len(),
    ensures
        index_of_name(pairs, pairs[i].0) == i,
{
    lemma_index_of_name(pairs, pairs[i].0);
    let k = index_of_name(pairs, pairs[i].0);
    lemma_level_is_same(pairs[i].0, pairs[i].0);
    if k < i {
        assert(text_below(pairs[k].0, pairs[i].0));
    }
}

proof fn lemma_replaced(pairs: Seq<(Seq<char>, Seq<char>)>, at: int, n: Seq<char>, v: Seq<char>)
    requires
        in_order(pairs),
        0 <= at < pairs.len(),
        pairs[at].0 == n,
    ensures
        in_order(pairs.update(at, (n, v))),
        env_map(pairs.update(at, (n, v))) == env_map(pairs).insert(n, v),
{
    let after = pairs.update(at, (n, v));
    assert forall|i: int, j: int| 0 <= i < j < after.len() implies text_below(
        (#[trigger] after[i]).0,
        (#[trigger] after[j]).0,
    ) by {
        assert(after[i].0 == pairs[i].0);
        assert(after[j].0 == pairs[j].0);
    }
    assert forall|name: Seq<char>| index_of_name(after, name) == index_of_name(pairs, name) by {
        lemma_index_of_name(after, name);
        lemma_index_of_name(pairs, name);
        let a = index_of_name(after, name);
        let b = index_of_name(pairs, name);
        if a < b {
            assert(pairs[a].0 == after[a].0);
        } else if b < a {
            assert(after[b].0 == pairs[b].0);
        }
    }
    lemma_unique(after, at);
    assert forall|name: Seq<char>|
        #![trigger env_map(after).dom().contains(name)]
        env_map(after).dom().contains(name) implies env_map(after)[name] == env_map(
        pairs,
    ).insert(n, v)[name] by {
        lemma_index_of_name(after, name);
        if name != n {
            let k = index_of_name(after, name);
            assert(after[k].0 == name);
            assert(k != at);
        }
    }
    lemma_unique(pairs, at);
    assert(env_map(after) =~= env_map(pairs).insert(n, v));
}

proof fn lemma_inserted(pairs: Seq<(Seq<char>, Seq<char>)>, at: int, n: Seq<char>, v: Seq<char>)
    requires
        in_order(pairs),
        0 <= at <= pairs.len(),
        forall|j: int| 0 <= j < at ==> text_below((#[trigger] pairs[j]).0, n),
        at < pairs.len() ==> text_below(n, pairs[at].0),
    ensures
        in_order(pairs.insert(at, (n, v))),
        env_map(pairs.insert(at, (n, v))) == env_map(pairs).insert(n, v),
{
    let after = pairs.insert(at, (n, v));
    assert forall|j: int| at <= j < pairs.len() implies text_below(n, (#[trigger] pairs[j]).0) by {
        if j > at {
            lemma_text_below_weak(n, pairs[at].0, pairs[j].0);
        }
    }
    assert forall|i: int, j: int| 0 <= i < j < after.len() implies text_below(
        (#[trigger] after[i]).0,
        (#[trigger] after[j]).0,
    ) by {
        if j < at {
            assert(after[i] == pairs[i] && after[j] == pairs[j]);
        } else if j == at {
            assert(after[i] == pairs[i]);
        } else if i == at {
            assert(after[j] == pairs[j - 1]);
        } else if i < at {
            assert(after[i] == pairs[i] && after[j] == pairs[j - 1]);
        } else {
            assert(after[i] == pairs[i - 1] && after[j] == pairs[j - 1]);
        }
    }
    assert forall|name: Seq<char>| name != n implies #[trigger] index_of_name(after, name) == (
    if index_of_name(pairs, name) < at {
        index_of_name(pairs, name)
    } else {
        index_of_name(pairs, name) + 1
    }) by {
        lemma_index_of_name(after, name);
        lemma_index_of_name(pairs, name);
        let a = index_of_name(after, name);
        let b = index_of_name(pairs, name);
        let c = if b < at {
            b
        } else {
            b + 1
        };
        if a < c {
            if a < at {
                assert(after[a] == pairs[a]);
            } else if a > at {
                assert(after[a] == pairs[a - 1]);
            }
        } else if c < a {
            if b < at {
                assert(after[b] == pairs[b]);
            } else {
                assert(after[b + 1] == pairs[b]);
            }
        }
    }
    lemma_unique(after, at);
    assert(after[at] == (n, v));
    assert forall|name: Seq<char>|
        #![trigger env_map(after).dom().contains(name)]
        env_map(after).dom().contains(name) == env_map(pairs).insert(n, v).dom().contains(name)
            && (env_map(after).dom().contains(name) ==> env_map(after)[name] == env_map(
            pairs,
        ).insert(n, v)[name]) by {
        lemma_index_of_name(after, name);
        lemma_index_of_name(pairs, name);
    }
    assert(env_map(after) =~= env_map(pairs).insert(n, v));
}

/// Names that the shell must not dictate: the app owns them, or they belong to one session.
pub open spec fn reserved_names() -> Seq<Seq<char>> {
    seq![
        "HOME"@,
        "SHELL"@,
        "TMPDIR"@,
        "SHLVL"@,
        "PWD"@,
        "OLDPWD"@,
        "TERM_SESSION_ID"@,
        "XPC_SERVICE_NAME"@,
    ]
}

/// Is the name one that the login shell must not dictate?
pub open spec fn reserved(name: Seq<char>) -> bool {
    name == "_"@ || begins(name, "DSH_"@) || reserved_names().contains(name)
}

/// Is the name one that the login shell must not dictate?
pub fn is_reserved(key: &str) -> (r: bool)
    ensures
        r == reserved(key@),
{
    if text_eq(key, "_") || starts_with(key, "DSH_") {
        return true;
    }
    let names: [&str; 8] = [
        "HOME",
        "SHELL",
        "TMPDIR",
        "SHLVL",
        "PWD",
        "OLDPWD",
        "TERM_SESSION_ID",
        "XPC_SERVICE_NAME",
    ];
    let mut i: usize = 0;
    proof {
        assert(forall|j: int| 0 <= j < 8 ==> (#[trigger] names@[j])@ == reserved_names()[j]);
    }
    while i < 8
        invariant
            i <= 8,
            forall|j: int| 0 <= j < 8 ==> (#[trigger] names@[j])@ == reserved_names()[j],
            forall|j: int| 0 <= j < i ==> reserved_names()[j] != key@,
        decreases 8 - i,
    {
        proof {
            assert(names@[i as int]@ == reserved_names()[i as int]);
        }
        if text_eq(names[i], key) {
            proof {
                assert(reserved_names().contains(key@));
            }
            return true;
        }
        i += 1;
    }
    false
}

/// Is the name that of a variable: letters, digits and `_`, no digit first?
pub open spec fn is_variable(name: Seq<char>) -> bool {
    &&& name.len() > 0
    &&& !crate::number::is_digit(name[0])
    &&& forall|i: int|
        0 <= i < name.len() ==> crate::redaction::ascii_alphanumeric(#[trigger] name[i]) || name[i]
            == '_'
}

fn names_variable(name: &[char]) -> (r: bool)
    ensures
        r == is_variable(name@),
{
    if name.len() == 0 || ('0' <= name[0] && name[0] <= '9') {
        return false;
    }
    let mut i: usize = 0;
    while i < name.len()
        invariant
            i <= name@.len(),
            forall|j: int|
                0 <= j < i ==> crate::redaction::ascii_alphanumeric(#[trigger] name@[j])
                    || name@[j] == '_',
        decreases name@.len() - i,
    {
        let c = name[i];
        if !(('0' <= c && c <= '9') || ('A' <= c && c <= 'Z') || ('a' <= c && c <= 'z') || c == '_') {
            proof {
                assert(!(crate::redaction::ascii_alphanumeric(name@[i as int]) || name@[i as int]
                    == '_'));
            }
            return false;
        }
        i += 1;
    }
    true
}

/// The variable that a line of `env` sets, if it is a plain `NAME=value` of a name that may be
/// imported. The value may hold `=` itself.
pub open spec fn variable_in(line: Seq<char>) -> Option<(Seq<char>, Seq<char>)> {
    let p = position(line, '=');
    let name = line.subrange(0, p);
    if p < line.len() && is_variable(name) && !reserved(name) {
        Some((name, line.subrange(p + 1, line.len() as int)))
    } else {
        None
    }
}

/// The variables that lines of `env` set; a later line wins.
pub open spec fn variables_in(all: Seq<Seq<char>>) -> Map<Seq<char>, Seq<char>>
    decreases all.len(),
{
    if all.len() == 0 {
        Map::empty()
    } else {
        match variable_in(all.last()) {
            Some((name, value)) => variables_in(all.drop_last()).insert(name, value),
            None => variables_in(all.drop_last()),
        }
    }
}

/// Reads the output of `env`. What is not a plain line is dropped, as rc files print banners.
pub fn parse_env(output: &str) -> (r: EnvMap)
    ensures
        r.wf(),
        r@ == variables_in(lines(output@)),
{
    let all = text_lines(output);
    let ghost whole = lines(output@);
    let mut map = EnvMap::new();
    let mut i: usize = 0;
    proof {
        assert(whole.take(0) =~= Seq::<Seq<char>>::empty());
    }
    while i < all.len()
        invariant
            i <= all@.len(),
            texts(all@) == whole,
            map.wf(),
            map@ == variables_in(whole.take(i as int)),
        decreases all@.len() - i,
    {
        let line = chars_of(all[i].as_str());
        proof {
            let next = whole.take(i + 1);
            assert(next.drop_last() =~= whole.take(i as int));
            assert(next.last() == line@);
        }
        let p: usize = position_of(&line, '=');
        let name = piece(&line, 0, p);
        if p < line.len() && names_variable(&name) {
            let key = string_of(&name);
            if !is_reserved(key.as_str()) {
                map.insert(key, string_of(&piece(&line, p + 1, line.len())));
            }
        }
        i += 1;
    }
    proof {
        assert(whole.take(whole.len() as int) =~= whole);
    }
    map
}

/// What one try at the login shell's environment gives: the flags that worked and the variables;
/// nothing where the shell failed or set none, so that the next flags are tried.
pub fn import(flag: &str, output: Option<&str>) -> (r: Option<(String, EnvMap)>)
    ensures
        (match r {
            Some((worked, map)) => {
                &&& worked@ == flag@
                &&& map.wf()
                &&& output is Some
                &&& map@ == variables_in(lines(output->0@))
                &&& map.listed().len() > 0
            },
            None => output is None || variables_in(lines(output->0@)) == Map::<
                Seq<char>,
                Seq<char>,
            >::empty(),
        }),
{
    match output {
        Some(text) => {
            let map = parse_env(text);
            if map.is_empty() {
                proof {
                    assert(map@ =~= Map::<Seq<char>, Seq<char>>::empty());
                }
                None
            } else {
                Some((flag.to_owned(), map))
            }
        },
        None => None,
    }
}

/// The flags with which the login shell is started for its environment, in the order in which
/// they are tried.
pub open spec fn import_flags() -> Seq<Seq<char>> {
    seq!["-lic"@, "-lc"@]
}

/// What comes next in asking the login shell for its environment.
#[derive(Debug, Clone, PartialEq, Eq)]
pub enum ImportStep {
    /// Start the shell with this flag.
    Run { flag: String },
    /// Over: the flag that worked and the variables, or nothing.
    Finish { result: Option<(String, EnvMap)> },
}

/// What comes next, with texts and variables as such.
#[verifier::ext_equal]
pub enum ImportModel {
    Run { flag: Seq<char> },
    Finish { result: Option<(Seq<char>, Map<Seq<char>, Seq<char>>)> },
}

impl View for ImportStep {
    type V = ImportModel;

    open spec fn view(&self) -> ImportModel {
        match self {
            ImportStep::Run { flag } => ImportModel::Run { flag: flag@ },
            ImportStep::Finish { result } => ImportModel::Finish {
                result: match result {
                    Some((flag, map)) => Some((flag@, map@)),
                    None => None,
                },
            },
        }
    }
}

/// Does what the shell printed set a variable that is imported?
pub open spec fn is_usable(output: Option<Seq<char>>) -> bool {
    output matches Some(text) && variables_in(lines(text)) != Map::<Seq<char>, Seq<char>>::empty()
}

/// What comes next after `tried` flags, the last of which gave `output`.
pub open spec fn import_next(tried: nat, output: Option<Seq<char>>) -> ImportModel {
    if 0 < tried <= import_flags().len() && is_usable(output) {
        ImportModel::Finish {
            result: Some((import_flags()[tried - 1], variables_in(lines(output->0)))),
        }
    } else if tried < import_flags().len() {
        ImportModel::Run { flag: import_flags()[tried as int] }
    } else {
        ImportModel::Finish { result: None }
    }
}

/// Asks the login shell for its environment, one flag after the other: the first answer that
/// sets a variable is taken. `output` is what the last of the flags gave, and nothing where the
/// shell failed.
pub fn import_step(tried: usize, output: Option<&str>) -> (r: ImportStep)
    ensures
        r@ == import_next(tried as nat, crate::runtime::str_view(output)),
        r matches ImportStep::Finish { result: Some((flag, map)) } ==> map.wf(),
{
    if tried == 1 || tried == 2 {
        let flag = if tried == 1 {
            "-lic"
        } else {
            "-lc"
        };
        let result = import(flag, output);
        if result.is_some() {
            proof {
                let (_, map) = result->0;
                assert(map.listed().len() > 0);
                let name = map.listed()[0].0;
                lemma_index_of_name(map.listed(), name);
                assert(map@.dom().contains(name));
                assert(map@ != Map::<Seq<char>, Seq<char>>::empty());
            }
            return ImportStep::Finish { result };
        }
    }
    if tried == 0 {
        ImportStep::Run { flag: "-lic".to_owned() }
    } else if tried == 1 {
        ImportStep::Run { flag: "-lc".to_owned() }
    } else {
        ImportStep::Finish { result: None }
    }
}

/// The whole of asking the login shell: `answers[n]` is what it gives for the flag at `n`.
pub open spec fn run_import(
    tried: nat,
    output: Option<Seq<char>>,
    answers: Seq<Option<Seq<char>>>,
) -> Option<(Seq<char>, Map<Seq<char>, Seq<char>>)>
    decreases import_flags().len() - tried,
{
    match import_next(tried, output) {
        ImportModel::Finish { result } => result,
        ImportModel::Run { flag } => if tried < import_flags().len() {
            run_import(tried + 1, answers[tried as int], answers)
        } else {
            None
        },
    }
}

/// What is imported is the answer to the first of the flags that gave a usable one, and nothing
/// where neither did; so it is never empty, and holds no name that the app owns.
pub proof fn the_first_usable_answer_is_imported(answers: Seq<Option<Seq<char>>>, name: Seq<char>)
    ensures
        ({
            let result = run_import(0, None, answers);
            &&& is_usable(answers[0]) ==> result == Some(
                ("-lic"@, variables_in(lines(answers[0]->0))),
            )
            &&& !is_usable(answers[0]) && is_usable(answers[1]) ==> result == Some(
                ("-lc"@, variables_in(lines(answers[1]->0))),
            )
            &&& !is_usable(answers[0]) && !is_usable(answers[1]) ==> result is None
            &&& result matches Some((flag, map)) ==> map != Map::<Seq<char>, Seq<char>>::empty()
                && (map.dom().contains(name) ==> is_variable(name) && !reserved(name))
        }),
{
    reveal_with_fuel(run_import, 3);
    if is_usable(answers[0]) && variables_in(lines(answers[0]->0)).dom().contains(name) {
        only_plain_names_are_imported(lines(answers[0]->0), name);
    }
    if is_usable(answers[1]) && variables_in(lines(answers[1]->0)).dom().contains(name) {
        only_plain_names_are_imported(lines(answers[1]->0), name);
    }
}

/// No variable that the app owns is ever imported, and every imported name is a plain one.
pub proof fn only_plain_names_are_imported(all: Seq<Seq<char>>, name: Seq<char>)
    requires
        variables_in(all).dom().contains(name),
    ensures
        is_variable(name),
        !reserved(name),
    decreases all.len(),
{
    if all.len() > 0 {
        match variable_in(all.last()) {
            Some((n, v)) => {
                if n != name {
                    only_plain_names_are_imported(all.drop_last(), name);
                }
            },
            None => {
                only_plain_names_are_imported(all.drop_last(), name);
            },
        }
    }
}

/// A name in letters, digits and `_` that does not begin with a digit.
pub open spec fn plain_name(name: Seq<char>) -> bool {
    &&& name.len() > 0
    &&& !('0' <= name[0] <= '9')
    &&& forall|i: int|
        0 <= i < name.len() ==> {
            ||| 'a' <= #[trigger] name[i] <= 'z'
            ||| 'A' <= name[i] <= 'Z'
            ||| '0' <= name[i] <= '9'
            ||| name[i] == '_'
        }
}

/// A name that belongs to the app, or to one session of a shell.
pub open spec fn owned_name(name: Seq<char>) -> bool {
    ||| name == "_"@
    ||| "DSH_"@.is_prefix_of(name)
    ||| name == "HOME"@
    ||| name == "SHELL"@
    ||| name == "TMPDIR"@
    ||| name == "SHLVL"@
    ||| name == "PWD"@
    ||| name == "OLDPWD"@
    ||| name == "TERM_SESSION_ID"@
    ||| name == "XPC_SERVICE_NAME"@
}

proof fn lemma_names(name: Seq<char>)
    ensures
        is_variable(name) == plain_name(name),
        reserved(name) == owned_name(name),
{
    if is_variable(name) {
        assert forall|i: int| 0 <= i < name.len() implies {
            ||| 'a' <= #[trigger] name[i] <= 'z'
            ||| 'A' <= name[i] <= 'Z'
            ||| '0' <= name[i] <= '9'
            ||| name[i] == '_'
        } by {
            assert(crate::redaction::ascii_alphanumeric(name[i]) || name[i] == '_');
        }
    }
    if plain_name(name) {
        assert forall|i: int| 0 <= i < name.len() implies crate::redaction::ascii_alphanumeric(
            #[trigger] name[i],
        ) || name[i] == '_' by {}
    }
    let all = reserved_names();
    assert(begins(name, "DSH_"@) == "DSH_"@.is_prefix_of(name));
    assert(all[0] == "HOME"@ && all[1] == "SHELL"@ && all[2] == "TMPDIR"@ && all[3] == "SHLVL"@);
    assert(all[4] == "PWD"@ && all[5] == "OLDPWD"@ && all[6] == "TERM_SESSION_ID"@);
    assert(all[7] == "XPC_SERVICE_NAME"@);
    if all.contains(name) {
        let i = choose|i: int| 0 <= i < all.len() && all[i] == name;
        assert(0 <= i < 8);
    }
}

proof fn lemma_line_of(name: Seq<char>, value: Seq<char>)
    requires
        forall|i: int| 0 <= i < name.len() ==> name[i] != '=',
    ensures
        variable_in(name + seq!['='] + value) == (if plain_name(name) && !owned_name(name) {
            Some((name, value))
        } else {
            None
        }),
{
    let line = name + seq!['='] + value;
    lemma_position(line, '=');
    let p = position(line, '=');
    assert(line[name.len() as int] == '=');
    if p < name.len() {
        assert(line[p] == name[p]);
    }
    assert(p == name.len());
    assert(line.subrange(0, p) =~= name);
    assert(line.subrange(p + 1, line.len() as int) =~= value);
    lemma_names(name);
}

proof fn lemma_one_more(before: Seq<char>, line: Seq<char>)
    requires
        before.len() == 0 || before.last() == '\n',
        forall|i: int| 0 <= i < line.len() ==> line[i] != '\n',
    ensures
        ({
            let held = variables_in(lines(before));
            let more = match variable_in(line) {
                Some((name, value)) => held.insert(name, value),
                None => held,
            };
            &&& variables_in(lines(before + line)) == more
            &&& line.len() == 0 || line.last() != '\r' ==> variables_in(
                lines(before + line + seq!['\n']),
            ) == more
            &&& variables_in(lines(before + line + seq!['\r', '\n'])) == more
        }),
{
    let none = Seq::<char>::empty();
    a_line_goes_up_to_its_end(line, none);
    let read = lines(before);
    let all = read + seq![line];
    assert(all.drop_last() =~= read);
    assert(all.last() == line);
    lines_follow_each_other(before, line);
    if line.len() == 0 {
        assert(line =~= none);
        lemma_position(line, '=');
        assert(lines(before + line) =~= read);
        assert(variable_in(line) is None);
    }
    let ended = line + seq!['\n'];
    assert(ended + none =~= ended);
    lines_follow_each_other(before, ended);
    assert(before + line + seq!['\n'] =~= before + ended);
    assert(seq![line] + lines(none) =~= seq![line]);
    let with_cr = line + seq!['\r', '\n'];
    assert(with_cr + none =~= with_cr);
    lines_follow_each_other(before, with_cr);
    assert(before + line + seq!['\r', '\n'] =~= before + with_cr);
}

/// A line that sets a variable gives it exactly the value that stands behind its first `=`, to the
/// end of the line; what the lines before it set stays, but for that name. The line may end the
/// text, or end in a line feed or in a carriage return with one.
pub proof fn a_variable_reads_back(before: Seq<char>, name: Seq<char>, value: Seq<char>)
    requires
        before.len() == 0 || before.last() == '\n',
        plain_name(name),
        !owned_name(name),
        forall|i: int| 0 <= i < value.len() ==> value[i] != '\n',
    ensures
        variables_in(lines(Seq::empty())) == Map::<Seq<char>, Seq<char>>::empty(),
        variables_in(lines(before + name + seq!['='] + value)) == variables_in(
            lines(before),
        ).insert(name, value),
        value.len() == 0 || value.last() != '\r' ==> variables_in(
            lines(before + name + seq!['='] + value + seq!['\n']),
        ) == variables_in(lines(before)).insert(name, value),
        variables_in(lines(before + name + seq!['='] + value + seq!['\r', '\n'])) == variables_in(
            lines(before),
        ).insert(name, value),
{
    let line = name + seq!['='] + value;
    assert forall|i: int| 0 <= i < name.len() implies name[i] != '=' by {}
    lemma_line_of(name, value);
    assert forall|i: int| 0 <= i < line.len() implies line[i] != '\n' by {
        if i < name.len() {
            assert(line[i] == name[i]);
        } else if i > name.len() {
            assert(line[i] == value[i - name.len() - 1]);
        }
    }
    lemma_one_more(before, line);
    if value.len() == 0 {
        assert(line.last() == '=');
    } else {
        assert(line.last() == value.last());
    }
    assert(before + line =~= before + name + seq!['='] + value);
    assert(before + line + seq!['\n'] =~= before + name + seq!['='] + value + seq!['\n']);
    assert(before + line + seq!['\r', '\n'] =~= before + name + seq!['='] + value + seq![
        '\r',
        '\n',
    ]);
}

/// A line changes nothing that has no `=`, or in which what stands before the first is no plain
/// name or is a name that the app owns.
pub proof fn other_lines_change_nothing(before: Seq<char>, name: Seq<char>, value: Seq<char>)
    requires
        before.len() == 0 || before.last() == '\n',
        forall|i: int| 0 <= i < name.len() ==> name[i] != '=' && name[i] != '\n',
        forall|i: int| 0 <= i < value.len() ==> value[i] != '\n',
    ensures
        variables_in(lines(before + name + seq!['\n'])) == variables_in(lines(before)),
        !plain_name(name) || owned_name(name) ==> variables_in(
            lines(before + name + seq!['='] + value + seq!['\n']),
        ) == variables_in(lines(before)),
{
    lemma_position(name, '=');
    assert(position(name, '=') == name.len());
    assert(variable_in(name) is None);
    lemma_one_more(before, name);
    if name.len() > 0 && name.last() == '\r' {
        let cut = name.drop_last();
        assert(before + cut + seq!['\r', '\n'] =~= before + name + seq!['\n']);
        lemma_position(cut, '=');
        assert(position(cut, '=') == cut.len());
        lemma_one_more(before, cut);
    }
    let line = name + seq!['='] + value;
    assert forall|i: int| 0 <= i < line.len() implies line[i] != '\n' by {
        if i < name.len() {
            assert(line[i] == name[i]);
        } else if i > name.len() {
            assert(line[i] == value[i - name.len() - 1]);
        }
    }
    lemma_line_of(name, value);
    lemma_one_more(before, line);
    assert(before + line + seq!['\n'] =~= before + name + seq!['='] + value + seq!['\n']);
    if line.last() == '\r' {
        let cut = line.drop_last();
        assert(value.len() > 0);
        lemma_line_of(name, value.drop_last());
        assert(cut =~= name + seq!['='] + value.drop_last());
        lemma_one_more(before, cut);
        assert(before + cut + seq!['\r', '\n'] =~= before + name + seq!['='] + value + seq!['\n']);
    }
}

/// Nothing that the shell prints can set a name that the app owns, nor one that is not plain.
pub proof fn the_app_keeps_its_names(output: Seq<char>, name: Seq<char>)
    requires
        owned_name(name) || !plain_name(name),
    ensures
        !variables_in(lines(output)).dom().contains(name),
{
    lemma_names(name);
    if variables_in(lines(output)).dom().contains(name) {
        only_plain_names_are_imported(lines(output), name);
    }
}

/// What a map lists is what it holds: each name once, with its value.
pub proof fn a_map_lists_what_it_holds(map: EnvMap, name: Seq<char>)
    requires
        map.wf(),
    ensures
        forall|i: int|
            0 <= i < map.listed().len() ==> map@.dom().contains((#[trigger] map.listed()[i]).0)
                && map@[map.listed()[i].0] == map.listed()[i].1,
        map@.dom().contains(name) ==> exists|i: int|
            0 <= i < map.listed().len() && #[trigger] map.listed()[i] == (name, map@[name]),
        forall|i: int, j: int|
            0 <= i < j < map.listed().len() ==> (#[trigger] map.listed()[i]).0 != (
            #[trigger] map.listed()[j]).0,
{
    let all = map.listed();
    assert forall|i: int| 0 <= i < all.len() implies map@.dom().contains((#[trigger] all[i]).0)
        && map@[all[i].0] == all[i].1 by {
        lemma_unique(all, i);
    }
    assert forall|i: int, j: int| 0 <= i < j < all.len() implies (#[trigger] all[i]).0 != (
    #[trigger] all[j]).0 by {
        lemma_level_is_same(all[i].0, all[j].0);
    }
    if map@.dom().contains(name) {
        lemma_index_of_name(all, name);
        assert(all[index_of_name(all, name)] == (name, map@[name]));
    }
}

/// A name is found at its first place, and behind the last where it is nowhere.
pub proof fn where_a_name_is_found(pairs: Seq<(Seq<char>, Seq<char>)>, name: Seq<char>)
    ensures
        0 <= index_of_name(pairs, name) <= pairs.len(),
        index_of_name(pairs, name) < pairs.len() ==> pairs[index_of_name(pairs, name)].0 == name,
        forall|i: int| 0 <= i < index_of_name(pairs, name) ==> (#[trigger] pairs[i]).0 != name,
    decreases pairs.len(),
{
    if pairs.len() > 0 && pairs[0].0 != name {
        let rest = pairs.subrange(1, pairs.len() as int);
        where_a_name_is_found(rest, name);
        assert forall|i: int| 0 <= i < index_of_name(pairs, name) implies (#[trigger] pairs[i]).0
            != name by {
            if i > 0 {
                assert(rest[i - 1] == pairs[i]);
            }
        }
    }
}

} // verus!

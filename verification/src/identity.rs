//! Whether a leftover process is the `dsh web` that this shell started.
//!
//! A crashed shell leaves its Harness behind. Before anything is signalled, the record is matched
//! against a real process: a reboot can hand the same pid to an unrelated program.
use vstd::prelude::*;

use crate::harness::looks_like_dsh_web;
#[allow(unused_imports)]
use crate::harness::names_dsh_web;
use crate::number::parse_u32;
#[allow(unused_imports)]
use crate::number::u32_in;
use crate::process::{find_nonblank, HarnessState};
#[allow(unused_imports)]
use crate::process::first_nonblank;
use crate::search::contains;
#[allow(unused_imports)]
use crate::search::holds;
use crate::split::{join, text_words};
#[allow(unused_imports)]
use crate::split::{joined, lines, words};
use crate::text::chars_of;
#[allow(unused_imports)]
use crate::text::texts;

verus! {

/// What to do with the record that a crashed shell may have left behind.
#[derive(Debug, Clone, Copy, PartialEq, Eq, Structural)]
pub enum SelfHeal {
    /// The record is stale: drop it.
    Clear,
    /// The process is ours, but this run will not use it: stop it.
    Terminate,
    /// Ours, and serving the port that this run will use: keep the record for reuse.
    Keep,
}

/// Decides about the record. `listener` is the pid that owns the recorded port; `looks_ours`
/// tells whether a process that lost its port still looks like our orphaned CLI.
pub fn self_heal_action(
    state: &HarnessState,
    listener: Option<u32>,
    alive: bool,
    port: u16,
    looks_ours: bool,
) -> (r: SelfHeal)
    ensures
        r == (if !alive {
            SelfHeal::Clear
        } else if listener != Some(state.pid) {
            if looks_ours {
                SelfHeal::Terminate
            } else {
                SelfHeal::Clear
            }
        } else if state.port == port {
            SelfHeal::Keep
        } else {
            SelfHeal::Terminate
        }),
{
    if !alive {
        return SelfHeal::Clear;
    }
    let owns = match listener {
        Some(pid) => pid == state.pid,
        None => false,
    };
    if !owns {
        return if looks_ours {
            SelfHeal::Terminate
        } else {
            SelfHeal::Clear
        };
    }
    if state.port == port {
        SelfHeal::Keep
    } else {
        SelfHeal::Terminate
    }
}

/// The parent's pid and the command line that a row of `ps -o ppid=,command=` holds.
pub open spec fn ps_identity(output: Seq<char>) -> Option<(nat, Seq<char>)> {
    match first_nonblank(lines(output)) {
        None => None,
        Some(line) => {
            let fields = words(line);
            if fields.len() == 0 {
                None
            } else {
                match u32_in(fields[0]) {
                    None => None,
                    Some(ppid) => Some(
                        (ppid, joined(fields.subrange(1, fields.len() as int), " "@)),
                    ),
                }
            }
        },
    }
}

/// Reads a row of `ps -o ppid=,command=`.
pub fn parse_ps_identity(output: &str) -> (r: Option<(u32, String)>)
    ensures
        (match r {
            Some((ppid, command)) => ps_identity(output@) == Some((ppid as nat, command@)),
            None => ps_identity(output@) is None,
        }),
{
    let line = match find_nonblank(output) {
        Some(line) => line,
        None => {
            return None;
        },
    };
    let mut fields = text_words(line.as_str());
    let ghost whole = words(line@);
    proof {
        assert(fields@.len() == texts(fields@).len());
    }
    if fields.len() == 0 {
        return None;
    }
    let first = fields.remove(0);
    proof {
        assert(first@ == whole[0]);
        assert(texts(fields@) =~= whole.subrange(1, whole.len() as int));
    }
    match parse_u32(&chars_of(first.as_str())) {
        Some(ppid) => Some((ppid, join(fields.as_slice(), " "))),
        None => None,
    }
}

/// Who owns a process now.
#[derive(Debug, Clone, Copy, PartialEq, Eq, Structural)]
pub enum Parent {
    /// Nobody: its parent is gone.
    Gone,
    /// A session supervisor that adopted it.
    Supervisor,
    /// A live process: somebody still runs this session.
    Live,
}

/// Does the command line name a process that adopts orphans?
pub open spec fn names_supervisor(command: Seq<char>) -> bool {
    holds(command, "launchd"@) || holds(command, "systemd"@) || holds(command, "init"@)
}

/// Does the command line name a process that adopts orphans?
pub fn is_session_supervisor(command: &str) -> (r: bool)
    ensures
        r == names_supervisor(command@),
{
    contains(command, "launchd") || contains(command, "systemd") || contains(command, "init")
}

/// Who a parent is, from what `ps` answered: no answer counts as live, as keeping the process is
/// the safe side; an answer without a row means that there is no such process.
pub open spec fn parent_in(answer: Option<Seq<char>>) -> Parent {
    match answer {
        None => Parent::Live,
        Some(text) => match first_nonblank(lines(text)) {
            None => Parent::Gone,
            Some(command) => if names_supervisor(command) {
                Parent::Supervisor
            } else {
                Parent::Live
            },
        },
    }
}

/// Who a parent is, from what `ps` answered.
pub fn parent_from_ps(answer: Option<String>) -> (r: Parent)
    ensures
        r == parent_in(crate::text::opt_view(answer)),
{
    match answer {
        None => Parent::Live,
        Some(text) => {
            match find_nonblank(text.as_str()) {
                None => Parent::Gone,
                Some(command) => if is_session_supervisor(command.as_str()) {
                    Parent::Supervisor
                } else {
                    Parent::Live
                },
            }
        },
    }
}

/// Who the parent with this pid is. Pid 0 is the kernel: no parent is left.
pub fn classify_parent(ppid: u32, answer: Option<String>) -> (r: Parent)
    ensures
        r == (if ppid == 0 {
            Parent::Gone
        } else {
            parent_in(crate::text::opt_view(answer))
        }),
{
    if ppid == 0 {
        return Parent::Gone;
    }
    parent_from_ps(answer)
}

/// Is the process behind a row of `ps` a `dsh web` that nobody owns any more?
pub open spec fn is_our_orphan(output: Seq<char>, parent: Parent) -> bool {
    ps_identity(output) matches Some((ppid, command)) && names_dsh_web(command) && parent
        != Parent::Live
}

/// Is the process behind a row of `ps` the orphaned `dsh web` that this shell started?
pub fn looks_like_our_harness(output: &str, parent: Parent) -> (r: bool)
    ensures
        r == is_our_orphan(output@, parent),
{
    match parse_ps_identity(output) {
        None => false,
        Some((_, command)) => looks_like_dsh_web(command.as_str()) && parent != Parent::Live,
    }
}

/// A process whose parent lives, or of whose parent nothing is known, is never taken for ours.
pub proof fn an_owned_process_is_not_ours(output: Seq<char>)
    ensures
        !is_our_orphan(output, Parent::Live),
        !is_our_orphan(output, parent_in(None)),
{
}

/// The parent's pid and the command line of a process read back from the row that `ps` prints,
/// whatever blank lines stand before it.
pub proof fn a_row_of_ps_reads_back(ppid: nat, command: Seq<Seq<char>>)
    requires
        ppid <= u32::MAX,
        command.len() > 0,
        forall|i: int| 0 <= i < command.len() ==> (#[trigger] command[i]).len() > 0,
        forall|i: int, k: int|
            0 <= i < command.len() && 0 <= k < command[i].len() ==> !crate::redaction::blank(
                #[trigger] command[i][k],
            ),
    ensures
        ps_identity(crate::number::decimal(ppid) + seq![' '] + joined(command, seq![' '])) == Some(
            (ppid, joined(command, seq![' '])),
        ),
{
    reveal_strlit(" ");
    assert(" "@ =~= seq![' ']);
    let number = crate::number::decimal(ppid);
    crate::number::decimal_reads_back(ppid);
    crate::number::a_written_number_reads_back(ppid, u32::MAX as nat);
    let fields = seq![number] + command;
    assert forall|i: int| 0 <= i < fields.len() implies (#[trigger] fields[i]).len() > 0 by {
        if i > 0 {
            assert(fields[i] == command[i - 1]);
        }
    }
    assert forall|i: int, k: int|
        0 <= i < fields.len() && 0 <= k < fields[i].len() implies !crate::redaction::blank(
        #[trigger] fields[i][k],
    ) by {
        if i > 0 {
            assert(!crate::redaction::blank(command[i - 1][k]));
        } else {
            assert(crate::number::is_digit(number[k]));
        }
    }
    crate::split::lemma_join_cons(number, command, seq![' ']);
    let line = joined(fields, seq![' ']);
    assert(line == number + seq![' '] + joined(command, seq![' ']));
    crate::split::words_read_back(fields);
    lemma_no_line_end(fields);
    crate::split::a_line_goes_up_to_its_end(line, Seq::empty());
    assert(line[0] == number[0]);
    assert(crate::number::is_digit(number[0]));
    let none = Seq::<Seq<char>>::empty();
    crate::process::blank_lines_are_passed_over(none, line, none, 0);
    assert(none + seq![line] + none =~= seq![line]);
    assert(fields.subrange(1, fields.len() as int) =~= command);
}

proof fn lemma_no_line_end(parts: Seq<Seq<char>>)
    requires
        forall|i: int, k: int|
            0 <= i < parts.len() && 0 <= k < parts[i].len() ==> !crate::redaction::blank(
                #[trigger] parts[i][k],
            ),
    ensures
        forall|i: int|
            0 <= i < joined(parts, seq![' ']).len() ==> joined(parts, seq![' '])[i] != '\n',
    decreases parts.len(),
{
    let s = joined(parts, seq![' ']);
    if parts.len() == 1 {
        assert forall|i: int| 0 <= i < s.len() implies s[i] != '\n' by {
            assert(!crate::redaction::blank(parts[0][i]));
        }
    } else if parts.len() > 1 {
        let rest = parts.drop_last();
        assert forall|i: int, k: int|
            0 <= i < rest.len() && 0 <= k < rest[i].len() implies !crate::redaction::blank(
            #[trigger] rest[i][k],
        ) by {
            assert(!crate::redaction::blank(parts[i][k]));
        }
        lemma_no_line_end(rest);
        let n = joined(rest, seq![' ']).len() as int;
        assert forall|i: int| 0 <= i < s.len() implies s[i] != '\n' by {
            if i < n {
                assert(s[i] == joined(rest, seq![' '])[i]);
            } else if i > n {
                assert(s[i] == parts[parts.len() - 1][i - n - 1]);
            }
        }
    }
}

/// What adopts an orphan has one of three names somewhere in its command line; nothing else does.
pub proof fn who_adopts_an_orphan(command: Seq<char>, before: Seq<char>, after: Seq<char>)
    ensures
        names_supervisor(before + "launchd"@ + after),
        names_supervisor(before + "systemd"@ + after),
        names_supervisor(before + "init"@ + after),
        !holds(command, "launchd"@) && !holds(command, "systemd"@) && !holds(command, "init"@)
            ==> !names_supervisor(command),
{
    crate::search::a_text_is_found_where_it_stands(before, "launchd"@, after);
    crate::search::a_text_is_found_where_it_stands(before, "systemd"@, after);
    crate::search::a_text_is_found_where_it_stands(before, "init"@, after);
}

/// A parent is gone only where `ps` answered and showed no row, and no other process counts as
/// that of a session than one that adopts orphans.
pub proof fn a_parent_is_gone_without_a_row(text: Seq<char>, command: Seq<char>)
    ensures
        parent_in(None) == Parent::Live,
        parent_in(Some(text)) == Parent::Gone <==> first_nonblank(lines(text)) is None,
        first_nonblank(lines(text)) == Some(command) ==> (parent_in(Some(text))
            == Parent::Supervisor <==> names_supervisor(command)),
        first_nonblank(lines(text)) == Some(command) && !names_supervisor(command) ==> parent_in(
            Some(text),
        ) == Parent::Live,
{
}

/// A process is taken for our orphan exactly where its row can be read, its command is that of
/// the web server, and its parent does not live.
pub proof fn what_our_orphan_is(output: Seq<char>, ppid: nat, command: Seq<char>, parent: Parent)
    ensures
        ps_identity(output) is None ==> !is_our_orphan(output, parent),
        ps_identity(output) == Some((ppid, command)) ==> (is_our_orphan(output, parent) <==>
            names_dsh_web(command) && (parent == Parent::Gone || parent == Parent::Supervisor)),
{
}

/// A row whose first word is no number tells nothing, and so does a text without a word.
pub proof fn no_other_row_of_ps_is_read(first: Seq<char>, at: int, command: Seq<Seq<char>>)
    requires
        0 <= at < first.len(),
        !('0' <= first[at] <= '9'),
        at > 0 || first[0] != '+',
        forall|k: int| 0 <= k < first.len() ==> !crate::redaction::blank(#[trigger] first[k]),
        forall|i: int| 0 <= i < command.len() ==> (#[trigger] command[i]).len() > 0,
        forall|i: int, k: int|
            0 <= i < command.len() && 0 <= k < command[i].len() ==> !crate::redaction::blank(
                #[trigger] command[i][k],
            ),
    ensures
        ps_identity(Seq::empty()) is None,
        ps_identity(joined(seq![first] + command, seq![' '])) is None,
{
    let fields = seq![first] + command;
    assert forall|i: int| 0 <= i < fields.len() implies (#[trigger] fields[i]).len() > 0 by {
        if i > 0 {
            assert(fields[i] == command[i - 1]);
        }
    }
    assert forall|i: int, k: int|
        0 <= i < fields.len() && 0 <= k < fields[i].len() implies !crate::redaction::blank(
        #[trigger] fields[i][k],
    ) by {
        if i > 0 {
            assert(!crate::redaction::blank(command[i - 1][k]));
        } else {
            assert(!crate::redaction::blank(first[k]));
        }
    }
    let line = joined(fields, seq![' ']);
    if command.len() > 0 {
        crate::split::lemma_join_cons(first, command, seq![' ']);
    } else {
        assert(fields =~= seq![first]);
        assert(line == first);
    }
    assert(line.len() > 0 && line[0] == first[0]);
    crate::split::words_read_back(fields);
    lemma_no_line_end(fields);
    crate::split::a_line_goes_up_to_its_end(line, Seq::empty());
    assert(!crate::redaction::blank(first[0]));
    crate::process::blank_lines_are_passed_over(Seq::empty(), line, Seq::empty(), 0);
    let none = Seq::<Seq<char>>::empty();
    assert(none + seq![line] + none =~= seq![line]);
    crate::number::only_digits_make_a_number(first, at, u32::MAX as nat);
    assert(fields[0] == first);
}

} // verus!

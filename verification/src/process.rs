//! The life of child processes: running a helper within a budget, stopping a process, and the
//! record of the supervised one.
use vstd::prelude::*;

use crate::bytes::{complete_lines, lossy, Captured};
#[allow(unused_imports)]
use crate::bytes::{utf8_lossy, whole_lines};
use crate::number::decimal_text;
#[allow(unused_imports)]
use crate::number::decimal;
use crate::paths::path_join;
#[allow(unused_imports)]
use crate::paths::path_joined;
use crate::split::text_lines;
#[allow(unused_imports)]
use crate::split::lines;
use crate::text::trim_text;
#[allow(unused_imports)]
use crate::text::{opt_view, texts, trimmed};

verus! {

/// The record of the supervised Harness.
#[derive(Debug, Clone, PartialEq, Eq)]
pub struct HarnessState {
    pub pid: u32,
    pub port: u16,
    pub cwd: String,
    pub started_at: u64,
}

/// Where the record lives.
pub fn state_path(data_dir: &str, windows: bool) -> (r: String)
    ensures
        r@ == path_joined(data_dir@, "state.json"@, windows),
{
    path_join(data_dir, "state.json", windows)
}

// ---------------------------------------------------------------------------------------------
// Running a helper
// ---------------------------------------------------------------------------------------------

/// Bytes kept from a helper's stdout.
pub const OUTPUT_LIMIT: usize = 1048576;

/// What asking after a child gave.
#[derive(Debug, Clone, Copy, PartialEq, Eq, Structural)]
pub enum Waited {
    Exited,
    Running,
    Failed,
}

/// What the wait for a child does next.
#[derive(Debug, Clone, Copy, PartialEq, Eq, Structural)]
pub enum WaitStep {
    /// The child ended by itself.
    Finished,
    /// Ask again later.
    Sleep,
    /// The budget is used up: kill it.
    TimedOut,
    /// It cannot be asked: kill it.
    Failed,
}

/// Decides how the wait for a child goes on.
pub fn wait_step(waited: Waited, time_left: bool) -> (r: WaitStep)
    ensures
        r == (match waited {
            Waited::Exited => WaitStep::Finished,
            Waited::Running => if time_left {
                WaitStep::Sleep
            } else {
                WaitStep::TimedOut
            },
            Waited::Failed => WaitStep::Failed,
        }),
{
    match waited {
        Waited::Exited => WaitStep::Finished,
        Waited::Running => if time_left {
            WaitStep::Sleep
        } else {
            WaitStep::TimedOut
        },
        Waited::Failed => WaitStep::Failed,
    }
}

/// What a helper printed.
#[derive(Debug, Clone, PartialEq, Eq)]
pub struct HelperOutput {
    pub text: String,
    /// The text is not all: it then holds whole lines only, as a value that was cut (a key in a
    /// dump of the environment) must not be taken for the real one.
    pub truncated: bool,
}

/// The bytes that are used of a helper's output: whole lines where it is not all.
pub open spec fn usable(bytes: Seq<u8>, truncated: bool) -> Seq<u8> {
    if truncated {
        whole_lines(bytes)
    } else {
        bytes
    }
}

/// What a helper printed, given what was captured of it and whether its pipe came to an end.
pub fn helper_output(captured: &Captured, complete: bool) -> (r: HelperOutput)
    ensures
        r.truncated == (captured.truncated || !complete),
        r.text@ == utf8_lossy(usable(captured.bytes@, captured.truncated || !complete)),
{
    let truncated = captured.truncated || !complete;
    let text = if truncated {
        lossy(complete_lines(captured.bytes.as_slice()).as_slice())
    } else {
        lossy(captured.bytes.as_slice())
    };
    HelperOutput { text, truncated }
}

/// The first line that is not blank, without the white space around it; nothing where all are.
pub open spec fn first_nonblank(all: Seq<Seq<char>>) -> Option<Seq<char>>
    decreases all.len(),
{
    if all.len() == 0 {
        None
    } else if trimmed(all[0]).len() > 0 {
        Some(all[0])
    } else {
        first_nonblank(all.subrange(1, all.len() as int))
    }
}

/// Finds the first line that is not blank.
pub fn find_nonblank(text: &str) -> (r: Option<String>)
    ensures
        opt_view(r) == first_nonblank(lines(text@)),
{
    let all = text_lines(text);
    let ghost whole = lines(text@);
    let mut i: usize = 0;
    proof {
        assert(whole.subrange(0, whole.len() as int) =~= whole);
    }
    while i < all.len()
        invariant
            i <= all@.len(),
            texts(all@) == whole,
            whole == lines(text@),
            first_nonblank(whole.subrange(i as int, whole.len() as int)) == first_nonblank(whole),
        decreases all@.len() - i,
    {
        proof {
            let rest = whole.subrange(i as int, whole.len() as int);
            assert(rest[0] == all@[i as int]@);
            assert(rest.subrange(1, rest.len() as int) =~= whole.subrange(
                i + 1,
                whole.len() as int,
            ));
        }
        if !trim_text(all[i].as_str()).as_str().is_empty() {
            return Some(all[i].clone());
        }
        i += 1;
    }
    None
}

/// The first line that is not blank, trimmed; empty where there is none.
pub open spec fn first_line_of(text: Seq<char>) -> Seq<char> {
    match first_nonblank(lines(text)) {
        Some(line) => trimmed(line),
        None => Seq::empty(),
    }
}

/// The first line that is not blank, trimmed; empty where the helper printed nothing.
pub fn first_line(text: &str) -> (r: String)
    ensures
        r@ == first_line_of(text@),
{
    match find_nonblank(text) {
        Some(line) => trim_text(line.as_str()),
        None => String::new(),
    }
}

/// What a helper that ran to its end answers: its first line. An empty answer means that it
/// printed nothing; no answer, that the only line it printed was cut.
pub fn helper_answer(output: &HelperOutput) -> (r: Option<String>)
    ensures
        opt_view(r) == (if first_line_of(output.text@).len() == 0 && output.truncated {
            None
        } else {
            Some(first_line_of(output.text@))
        }),
{
    let line = first_line(output.text.as_str());
    if line.as_str().is_empty() && output.truncated {
        return None;
    }
    Some(line)
}

// ---------------------------------------------------------------------------------------------
// Stopping a process
// ---------------------------------------------------------------------------------------------

/// The two signals that stop a process.
#[derive(Debug, Clone, Copy, PartialEq, Eq, Structural)]
pub enum TermSignal {
    Term,
    Kill,
}

/// Is the process running? `reaped` is what `waitpid` without waiting gave, which settles it for
/// a child of ours, dead children included; of other processes the answer to signal 0 decides.
pub fn is_alive(pid: u32, reaped: i32, signal_answers: bool) -> (r: bool)
    ensures
        r == (if reaped == pid as i32 {
            false
        } else {
            reaped == 0 || signal_answers
        }),
{
    if reaped == pid as i32 {
        false
    } else if reaped == 0 {
        true
    } else {
        signal_answers
    }
}

/// How far stopping a process has come.
#[derive(Debug, Clone, Copy, PartialEq, Eq, Structural)]
pub enum StopState {
    /// Nothing was sent yet.
    Start,
    /// It was asked to end.
    Asked,
    /// It was killed.
    Killed,
}

/// What to do next to stop a process.
#[derive(Debug, Clone, Copy, PartialEq, Eq, Structural)]
pub enum StopAction {
    /// Its leader is gone: signal what is left of its group, by the group alone, and be done.
    CleanGroup,
    /// Send the signal.
    Signal(TermSignal),
    /// Look again later.
    Sleep,
    /// Over; is it gone?
    Done(bool),
}

/// The state after an action.
pub open spec fn stop_after(state: StopState, action: StopAction) -> StopState {
    match action {
        StopAction::Signal(TermSignal::Term) => StopState::Asked,
        StopAction::Signal(TermSignal::Kill) => StopState::Killed,
        _ => state,
    }
}

/// What to do next.
pub open spec fn stop_action(
    state: StopState,
    alive: bool,
    time_left: bool,
    whole_group: bool,
) -> StopAction {
    match state {
        StopState::Start => if alive {
            StopAction::Signal(TermSignal::Term)
        } else if whole_group {
            StopAction::CleanGroup
        } else {
            StopAction::Done(true)
        },
        StopState::Asked => if !time_left {
            StopAction::Signal(TermSignal::Kill)
        } else if alive {
            StopAction::Sleep
        } else {
            StopAction::Done(true)
        },
        StopState::Killed => StopAction::Done(!alive),
    }
}

/// Stops a process, or its whole group, step by step: it is asked to end, has a grace period,
/// and is killed after that. Gives the next action and the state behind it.
pub fn stop_step(
    state: StopState,
    alive: bool,
    time_left: bool,
    whole_group: bool,
) -> (r: (StopAction, StopState))
    ensures
        r.0 == stop_action(state, alive, time_left, whole_group),
        r.1 == stop_after(state, r.0),
{
    match state {
        StopState::Start => if alive {
            (StopAction::Signal(TermSignal::Term), StopState::Asked)
        } else if whole_group {
            (StopAction::CleanGroup, state)
        } else {
            (StopAction::Done(true), state)
        },
        StopState::Asked => if !time_left {
            (StopAction::Signal(TermSignal::Kill), StopState::Killed)
        } else if alive {
            (StopAction::Sleep, state)
        } else {
            (StopAction::Done(true), state)
        },
        StopState::Killed => (StopAction::Done(!alive), state),
    }
}

/// Nothing is killed that was not asked to end before, and nothing is signalled that is gone
/// when the stop begins.
pub proof fn a_kill_follows_a_request(
    state: StopState,
    alive: bool,
    time_left: bool,
    whole_group: bool,
)
    ensures
        stop_action(state, alive, time_left, whole_group) == StopAction::Signal(TermSignal::Kill)
            ==> state == StopState::Asked && !time_left,
        state == StopState::Start && !alive ==> !(stop_action(
            state,
            alive,
            time_left,
            whole_group,
        ) is Signal),
{
}

/// The arguments of Windows' `taskkill`.
pub fn taskkill_args(pid: u32, tree: bool, force: bool) -> (r: Vec<String>)
    ensures
        texts(r@) == seq!["/PID"@, decimal(pid as nat)] + (if tree {
            seq!["/T"@]
        } else {
            Seq::empty()
        }) + (if force {
            seq!["/F"@]
        } else {
            Seq::empty()
        }),
{
    let mut out: Vec<String> = Vec::new();
    out.push("/PID".to_owned());
    out.push(decimal_text(pid as u64));
    if tree {
        out.push("/T".to_owned());
    }
    if force {
        out.push("/F".to_owned());
    }
    proof {
        assert(texts(out@) =~= seq!["/PID"@, decimal(pid as nat)] + (if tree {
            seq!["/T"@]
        } else {
            Seq::empty()
        }) + (if force {
            seq!["/F"@]
        } else {
            Seq::empty()
        }));
    }
    out
}

/// The account that a Windows file is restricted to: `DOMAIN\user`, or the user alone.
pub fn current_account(domain: Option<&str>, user: Option<&str>) -> (r: Option<String>)
    ensures
        opt_view(r) == (match (domain, user) {
            (Some(d), Some(u)) => if d@.len() > 0 && u@.len() > 0 {
                Some(d@ + "\\"@ + u@)
            } else if u@.len() > 0 {
                Some(u@)
            } else {
                None
            },
            (None, Some(u)) => if u@.len() > 0 {
                Some(u@)
            } else {
                None
            },
            (_, None) => None,
        }),
{
    let name = match user {
        Some(u) => u,
        None => {
            return None;
        },
    };
    if name.is_empty() {
        return None;
    }
    match domain {
        Some(d) => {
            if d.is_empty() {
                return Some(name.to_owned());
            }
            let mut out = d.to_owned();
            out.append("\\");
            out.append(name);
            Some(out)
        },
        None => Some(name.to_owned()),
    }
}

proof fn lemma_says_something(line: Seq<char>)
    ensures
        trimmed(line).len() > 0 <==> exists|i: int|
            0 <= i < line.len() && !crate::redaction::blank(#[trigger] line[i]),
    decreases line.len(),
{
    let none = Seq::<char>::empty();
    if line.len() == 0 {
        assert(none + line + none =~= line);
        crate::text::trimming_takes_the_ends(none, line, none);
    } else if crate::redaction::blank(line[0]) {
        let rest = line.subrange(1, line.len() as int);
        lemma_says_something(rest);
        assert(trimmed(line) == trimmed(rest));
        if exists|i: int| 0 <= i < line.len() && !crate::redaction::blank(#[trigger] line[i]) {
            let i = choose|i: int|
                0 <= i < line.len() && !crate::redaction::blank(#[trigger] line[i]);
            assert(rest[i - 1] == line[i]);
        }
        if exists|i: int| 0 <= i < rest.len() && !crate::redaction::blank(#[trigger] rest[i]) {
            let i = choose|i: int|
                0 <= i < rest.len() && !crate::redaction::blank(#[trigger] rest[i]);
            assert(line[i + 1] == rest[i]);
        }
    } else {
        assert(!crate::redaction::blank(line[0]));
        lemma_first_stays(line);
    }
}

proof fn lemma_first_stays(line: Seq<char>)
    requires
        line.len() > 0,
        !crate::redaction::blank(line[0]),
    ensures
        trimmed(line).len() > 0,
    decreases line.len(),
{
    if crate::redaction::blank(line.last()) {
        lemma_first_stays(line.drop_last());
        assert(trimmed(line) == trimmed(line.drop_last()));
    }
}

/// The first line that is not blank is the one behind blank lines alone, wherever it stands; where
/// all are blank there is none.
pub proof fn blank_lines_are_passed_over(
    blanks: Seq<Seq<char>>,
    line: Seq<char>,
    rest: Seq<Seq<char>>,
    at: int,
)
    requires
        forall|i: int, k: int|
            0 <= i < blanks.len() && 0 <= k < blanks[i].len() ==> crate::redaction::blank(
                #[trigger] blanks[i][k],
            ),
        0 <= at < line.len(),
        !crate::redaction::blank(line[at]),
    ensures
        first_nonblank(blanks) is None,
        first_nonblank(blanks + seq![line] + rest) == Some(line),
    decreases blanks.len(),
{
    let all = blanks + seq![line] + rest;
    if blanks.len() == 0 {
        lemma_says_something(line);
        assert(all[0] == line);
    } else {
        let less = blanks.subrange(1, blanks.len() as int);
        lemma_says_something(blanks[0]);
        assert(all[0] == blanks[0]);
        assert(all.subrange(1, all.len() as int) =~= less + seq![line] + rest);
        assert forall|i: int, k: int|
            0 <= i < less.len() && 0 <= k < less[i].len() implies crate::redaction::blank(
            #[trigger] less[i][k],
        ) by {
            assert(crate::redaction::blank(blanks[i + 1][k]));
        }
        blank_lines_are_passed_over(less, line, rest, at);
    }
}

/// What stopping a process comes to says whether it is gone; a process that still runs is waited
/// for as long as there is time, and killed when there is none; and what is left of a group whose
/// leader is gone is not forgotten.
pub proof fn a_stop_says_whether_it_is_gone(
    state: StopState,
    alive: bool,
    time_left: bool,
    whole_group: bool,
)
    ensures
        stop_action(state, alive, time_left, whole_group) matches StopAction::Done(gone) ==> gone
            == !alive,
        state == StopState::Start && alive ==> stop_action(state, alive, time_left, whole_group)
            == StopAction::Signal(TermSignal::Term),
        state == StopState::Start && !alive && whole_group ==> stop_action(
            state,
            alive,
            time_left,
            whole_group,
        ) == StopAction::CleanGroup,
        state == StopState::Asked && alive && time_left ==> stop_action(
            state,
            alive,
            time_left,
            whole_group,
        ) == StopAction::Sleep,
        state == StopState::Asked && alive && !time_left ==> stop_action(
            state,
            alive,
            time_left,
            whole_group,
        ) == StopAction::Signal(TermSignal::Kill),
        state == StopState::Killed ==> stop_action(state, alive, time_left, whole_group) is Done,
{
}

/// What was cut off is used up to its last line end only.
pub proof fn a_cut_line_is_not_used(bytes: Seq<u8>, cut: Seq<u8>)
    requires
        bytes.len() == 0 || bytes.last() == 10,
        forall|i: int| 0 <= i < cut.len() ==> cut[i] != 10,
    ensures
        usable(bytes + cut, true) == bytes,
        usable(bytes + cut, false) == bytes + cut,
{
    let all = bytes + cut;
    crate::bytes::whole_lines_end_a_line(all);
    crate::bytes::whole_lines_lose_no_line(all);
    let kept = whole_lines(all);
    if kept.len() < bytes.len() {
        assert(all[bytes.len() - 1] == bytes.last());
    } else if kept.len() > bytes.len() {
        assert(kept.last() == all[kept.len() - 1]);
        assert(all[kept.len() - 1] == cut[kept.len() - 1 - bytes.len()]);
    }
    assert(kept =~= bytes);
}

/// The first line that says something is taken, without the white space around it.
pub proof fn the_first_line_is_taken_without_white_space(text: Seq<char>, k: int, at: int)
    ensures
        (forall|i: int, j: int|
            0 <= i < lines(text).len() && 0 <= j < lines(text)[i].len() ==> crate::redaction::blank(
                #[trigger] lines(text)[i][j],
            )) ==> first_line_of(text).len() == 0,
        0 <= k < lines(text).len() && 0 <= at < lines(text)[k].len() && !crate::redaction::blank(
            lines(text)[k][at],
        ) && (forall|i: int, j: int|
            0 <= i < k && 0 <= j < lines(text)[i].len() ==> crate::redaction::blank(
                #[trigger] lines(text)[i][j],
            )) ==> first_line_of(text) == trimmed(lines(text)[k]),
{
    let all = lines(text);
    if forall|i: int, j: int|
        0 <= i < all.len() && 0 <= j < all[i].len() ==> crate::redaction::blank(
            #[trigger] all[i][j],
        ) {
        blank_lines_are_passed_over(all, seq!['a'], Seq::empty(), 0);
    }
    if 0 <= k < all.len() && 0 <= at < all[k].len() && !crate::redaction::blank(all[k][at]) && (
    forall|i: int, j: int|
        0 <= i < k && 0 <= j < all[i].len() ==> crate::redaction::blank(#[trigger] all[i][j])) {
        let blanks = all.subrange(0, k);
        let rest = all.subrange(k + 1, all.len() as int);
        assert forall|i: int, j: int|
            0 <= i < blanks.len() && 0 <= j < blanks[i].len() implies crate::redaction::blank(
            #[trigger] blanks[i][j],
        ) by {
            assert(blanks[i] == all[i]);
            assert(crate::redaction::blank(all[i][j]));
        }
        blank_lines_are_passed_over(blanks, all[k], rest, at);
        assert(blanks + seq![all[k]] + rest =~= all);
    }
}

} // verus!

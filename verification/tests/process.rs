//! Helpers within their budget, and stopping a process.

use dsh_desktop::bytes::{complete_lines, Captured};
use dsh_desktop::process::{
    current_account, find_nonblank, first_line, helper_answer, helper_output, is_alive,
    state_path, stop_step, taskkill_args, wait_step, StopAction, StopState, TermSignal, WaitStep,
    Waited,
};

#[test]
fn complete_lines_keeps_only_finished_lines() {
    assert_eq!(complete_lines(b"a\nb\nc"), b"a\nb\n");
    assert_eq!(complete_lines(b"a\n"), b"a\n");
    assert_eq!(complete_lines(b"partial"), b"");
    assert_eq!(complete_lines(b""), b"");
}

fn capture(bytes: &[u8], limit: usize) -> Captured {
    let mut captured = Captured::empty();
    for chunk in bytes.chunks(512) {
        captured.keep(chunk, limit);
    }
    captured
}

/// A helper that prints a document instead of a line is capped, and the cap is reported.
#[test]
fn helper_output_is_capped_and_still_drained() {
    let mut printed: Vec<u8> = Vec::new();
    while printed.len() < 3_000_000 {
        printed.extend_from_slice(b"y\n");
    }
    printed.push(b'\n');
    let out = helper_output(&capture(&printed, 4096), true);
    assert_eq!(out.text.len(), 4096);
    assert!(out.truncated);
}

/// A byte that is no text must not empty the result.
#[test]
fn non_utf8_output_is_decoded_lossily() {
    let out = helper_output(&capture(b"DEEPSEEK_API_KEY=sk\nLANG=\xff\n", 65536), true);
    assert!(out.text.contains("DEEPSEEK_API_KEY=sk"), "got {:?}", out.text);
    assert!(out.text.contains('\u{fffd}'));
    assert!(!out.truncated);
}

/// A pipe that is still open when the drain gives up leaves the last line unfinished. That line
/// must be dropped, not returned: in an `env` dump it can be an API key cut mid-way.
#[test]
fn an_unfinished_last_line_is_dropped_when_the_pipe_stays_open() {
    let out = helper_output(&capture(b"A=1\nB=partial", 65536), false);
    assert_eq!(out.text, "A=1\n");
    assert!(out.truncated);
}

/// When the one line a helper printed cannot be kept whole, there is no answer — not an empty one,
/// which callers read as "no such process".
#[test]
fn a_helper_whose_only_line_was_cut_has_no_answer() {
    let out = helper_output(&capture(b"partial", 65536), false);
    assert_eq!(helper_answer(&out), None);
    // The capped case reads the same way.
    let out = helper_output(&capture(&[b'0'; 5004], 1024), true);
    assert_eq!(out.text, "");
    assert!(out.truncated);
    assert_eq!(helper_answer(&out), None);
}

#[test]
fn the_answer_of_a_helper_is_its_first_line() {
    let out = helper_output(&capture(b"/usr/local/bin/npm\n", 65536), false);
    assert_eq!(helper_answer(&out).as_deref(), Some("/usr/local/bin/npm"));
    let out = helper_output(&capture(b"", 65536), true);
    assert_eq!(helper_answer(&out).as_deref(), Some(""));
    assert_eq!(find_nonblank("\n  \n x \ny").as_deref(), Some(" x "));
    assert_eq!(find_nonblank(" \n"), None);
    assert_eq!(first_line("a\nb"), "a");
}

/// The budget bounds the wait; a child that never ends is killed at its end.
#[test]
fn a_child_that_never_finishes_is_killed_at_its_budget() {
    assert_eq!(wait_step(Waited::Running, true), WaitStep::Sleep);
    assert_eq!(wait_step(Waited::Running, false), WaitStep::TimedOut);
    assert_eq!(wait_step(Waited::Exited, false), WaitStep::Finished);
    assert_eq!(wait_step(Waited::Failed, true), WaitStep::Failed);
}

/// Asked first, killed after the grace period.
#[test]
fn terminate_stops_a_spawned_process_group() {
    let (action, state) = stop_step(StopState::Start, true, true, true);
    assert_eq!(action, StopAction::Signal(TermSignal::Term));
    let (action, state) = stop_step(state, true, true, true);
    assert_eq!(action, StopAction::Sleep);
    // It ended in time.
    assert_eq!(stop_step(state, false, true, true).0, StopAction::Done(true));
    // It did not.
    let (action, state) = stop_step(state, true, false, true);
    assert_eq!(action, StopAction::Signal(TermSignal::Kill));
    assert_eq!(stop_step(state, true, false, true).0, StopAction::Done(false));
    assert_eq!(stop_step(state, false, false, true).0, StopAction::Done(true));
}

/// What a leader left in its group is signalled even where the leader is gone; for a process that
/// is stopped alone there is nothing left to do.
#[test]
fn terminate_cleans_the_group_after_the_leader_is_gone() {
    assert_eq!(stop_step(StopState::Start, false, true, true).0, StopAction::CleanGroup);
    assert_eq!(stop_step(StopState::Start, false, true, false).0, StopAction::Done(true));
}

/// A child that ended but was not waited for is not alive.
#[test]
fn a_reaped_child_is_not_alive() {
    assert!(!is_alive(4242, 4242, true));
    assert!(is_alive(4242, 0, true));
    assert!(is_alive(4242, -1, true));
    assert!(!is_alive(4242, -1, false));
}

#[test]
fn the_record_and_the_windows_spellings() {
    assert_eq!(state_path("/data", false), "/data/state.json");
    assert_eq!(taskkill_args(7, true, false), ["/PID", "7", "/T"]);
    assert_eq!(taskkill_args(7, true, true), ["/PID", "7", "/T", "/F"]);
    assert_eq!(taskkill_args(7, false, true), ["/PID", "7", "/F"]);
    assert_eq!(current_account(Some("BOX"), Some("me")).as_deref(), Some("BOX\\me"));
    assert_eq!(current_account(None, Some("me")).as_deref(), Some("me"));
    assert_eq!(current_account(Some("BOX"), None), None);
}

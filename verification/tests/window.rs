//! The page: what its engine lacks, whether it is alive, and what leaves it.

use dsh_desktop::launch::{compat_log, hand_the_gui_to_the_browser, harness_scripts, PageScript};
use dsh_desktop::scripts::{
    FRAME_PROBE, ITERATOR_SHIM, MATH_SUM_PRECISE_SHIM, PROMISE_TRY_SHIM, UINT8_FROM_BASE64_SHIM,
};
use dsh_desktop::takeover::Look;
use dsh_desktop::webview::{
    compat_blocks, compat_script, needed_compat_script, probe_script, record_report, shimmed_apis,
    unsupported_webview, watched_apis, WebviewReport, PROBE_EVENT,
};
use dsh_desktop::window::{
    attended, choice_log, choice_script, current_url, download_candidate, downloads_dir,
    file_name_of, frame_count, judge_frames, liveness_action, load_outcome, may_act, open_external,
    page_is_busy, recover_terminated_webview, same_origin, status_script, title_is_default,
    unique_download_path, wait_for, watch_first_load, Activity, ChoiceAnswer, ChoiceOption,
    External, LivenessAction, LoadOutcome, LoadStep, PageState, Pages, Questions, Recovery, Shown,
    Watch, HARNESS, LIVENESS_INTERVAL_SECS, LIVENESS_MISSES, LIVENESS_RELOADS,
    LIVENESS_TIMEOUT_SECS, QUESTION_HEIGHT, QUESTION_WIDTH, SPLASH_HEIGHT, SPLASH_WIDTH,
};

/// The report that a page sends; none where the text is no report.
fn report(payload: &str) -> Option<WebviewReport> {
    let value: serde_json::Value = serde_json::from_str(payload).ok()?;
    let list = |name: &str| -> Vec<String> {
        match value.get(name).and_then(|v| v.as_array()) {
            Some(items) => items.iter().filter_map(|v| v.as_str()).map(str::to_string).collect(),
            None => Vec::new(),
        }
    };
    Some(WebviewReport {
        missing: list("missing"),
        degraded: list("degraded"),
        syntax: list("syntax"),
        agent: value.get("agent").and_then(|v| v.as_str()).unwrap_or("").to_string(),
    })
}

fn only_web_schemes() {
    let allow = |raw: &str| matches!(open_external(raw), External::Open { .. });
    assert!(allow("https://example.com/docs"));
    assert!(allow("http://127.0.0.1:3080/?token=abc"));
    // `file:` would launch a local application through `open` on macOS.
    assert!(!allow("file:///System/Applications/Calculator.app"));
    assert!(!allow("smb://host/share"));
    // Custom schemes reach whichever app registered them.
    assert!(!allow("dsh-desktop://open"));
    assert!(!allow("javascript:alert(1)"));
    assert!(!allow("data:text/html,<script>alert(1)</script>"));
    assert!(!allow("mailto:someone@example.com"));
    // What is no URL at all is dropped too.
    assert!(!allow("not a url"));
}

#[test]
fn window_only_web_schemes_leave_the_shell() {
    only_web_schemes();
}

#[test]
fn tests_only_web_schemes_leave_the_shell() {
    only_web_schemes();
}

fn a_shimmable_gap() {
    let report = report(
        r#"{"missing":["Iterator"],"degraded":["structuredClone"],"syntax":[],"agent":"Mozilla/5.0 (Macintosh) AppleWebKit/605.1.15"}"#,
    )
    .expect("the page's report must parse");

    // macOS 15.0.1 (Safari 18.0): the one API the pdf.js guard needs, nothing else.
    assert!(report.supported(true), "a shimmable API must not block the native window");
    assert!(report.needs_compat());
    assert!(report.uncovered().is_empty());

    // The same engine with the compat layer switched off is the old shell: browser fallback.
    assert!(!report.supported(false), "webkit_compat=false restores the old gate");
    assert_eq!(report.gaps(false), ["Iterator"]);

    let text = report.describe("0.1.5-rc.2", false);
    assert!(text.contains("Iterator"), "缺什么要写清楚：{text}");
    assert!(text.contains("0.1.5-rc.2"), "是哪个 dsh 版本要写清楚");
    // The floor dropped from Safari 18.4 to the syntax the bundles need.
    assert!(text.contains("Safari 16.4"), "补救方向要写清楚：{text}");
    assert!(text.contains("webkit_compat"), "是开关关掉的，要说清楚：{text}");
    assert!(text.contains("structuredClone"), "降级项也要列出来");
    assert!(text.contains("AppleWebKit"), "报上当前 WebView 便于排查");
}

#[test]
fn window_a_shimmable_gap_is_covered_instead_of_forced_to_the_browser() {
    a_shimmable_gap();
}

#[test]
fn tests_a_shimmable_gap_is_covered_instead_of_forced_to_the_browser() {
    a_shimmable_gap();
}

fn syntax_gap() {
    // macOS ≤ 12: the bundles use class static blocks, and no script makes that parse.
    let report = report(
        r#"{"missing":["Iterator"],"syntax":["class static block"],"agent":"old"}"#,
    )
    .expect("the page's report must parse");

    assert!(!report.supported(true), "语法缺口补不了，只能回退浏览器");
    assert!(report.needs_compat(), "缺的 API 仍然可补");
    assert_eq!(report.gaps(true), ["class static block"]);
    assert!(report.describe("0.1.5-rc.2", true).contains("class static block"));
}

#[test]
fn window_syntax_no_polyfill_can_add_still_sends_the_user_to_the_browser() {
    syntax_gap();
}

#[test]
fn tests_syntax_no_polyfill_can_add_still_sends_the_user_to_the_browser() {
    syntax_gap();
}

fn browser_fallback() {
    let report = report(
        r#"{"missing":["Iterator"],"syntax":["class static block"],"agent":"old"}"#,
    )
    .expect("the page's report must parse");

    let text = report.browser_fallback_detail("0.1.5-rc.2", "http://127.0.0.1:3080/?token=t", true);
    assert!(text.contains("http://127.0.0.1:3080/?token=t"), "给出地址：{text}");
    // The reason is the syntax gap, not Iterator: with the compat layer on, Iterator is the
    // one thing this page did *not* fail on.
    assert!(text.contains("class static block"), "说明原因：{text}");
    assert!(text.contains("不要关闭"), "关掉这个窗口会停 harness，必须写明：{text}");
}

#[test]
fn window_the_browser_fallback_tells_the_user_what_to_keep_open() {
    browser_fallback();
}

#[test]
fn tests_the_browser_fallback_tells_the_user_what_to_keep_open() {
    browser_fallback();
}

fn degraded() {
    let report = report(r#"{"missing":[],"degraded":["structuredClone"],"agent":"x"}"#)
        .expect("the page's report must parse");
    assert!(report.supported(true), "a missing optional API must never block the GUI");
    assert!(report.supported(false));
    assert!(!report.needs_compat(), "nothing to install, no window script");
}

#[test]
fn window_a_degraded_but_complete_webview_still_starts() {
    degraded();
}

#[test]
fn tests_a_degraded_but_complete_webview_still_starts() {
    degraded();
}

fn unreadable() {
    assert_eq!(report("not json"), None);
    // An empty report is a WebView that found nothing missing: supported.
    assert_eq!(report("{}").map(|report| report.supported(true)), Some(true));
}

#[test]
fn window_an_unreadable_report_is_not_a_reason_to_refuse_to_start() {
    unreadable();
}

#[test]
fn tests_an_unreadable_report_is_not_a_reason_to_refuse_to_start() {
    unreadable();
}

fn the_gate() {
    let mut slot: Option<WebviewReport> = None;
    let record = |slot: &mut Option<WebviewReport>, payload: &str| {
        record_report(slot, report(payload), payload)
    };
    record(
        &mut slot,
        r#"{"missing":["Iterator"],"degraded":[],"syntax":[],"agent":"old"}"#,
    );
    assert!(
        unsupported_webview(slot.clone(), true).is_none(),
        "a shimmable gap keeps the native window"
    );
    let refused = unsupported_webview(slot.clone(), false).expect("with compat off it must be refused");
    assert_eq!(refused.missing, ["Iterator"]);
    let script = needed_compat_script(slot.as_ref()).expect("Iterator needs a shim");
    assert!(script.contains("globalThis.Iterator"), "{script}");

    // A payload this shell cannot read keeps the previous answer (logged, not fatal).
    record(&mut slot, "not json");
    assert!(
        unsupported_webview(slot.clone(), false).is_some(),
        "a broken report must not clear a refusal"
    );

    // A complete WebView starts, however many optional APIs are missing.
    record(&mut slot, r#"{"missing":[],"degraded":["structuredClone"],"agent":"new"}"#);
    assert!(
        unsupported_webview(slot.clone(), false).is_none(),
        "a complete WebView must start"
    );
    assert!(
        needed_compat_script(slot.as_ref()).is_none(),
        "nothing missing, nothing injected"
    );
}

#[test]
fn window_the_gate_reads_what_the_page_reported() {
    the_gate();
}

#[test]
fn tests_the_gate_reads_what_the_page_reported() {
    the_gate();
}

/// The splash page probes while the CLI is still booting, so a reader that does not wait turns
/// that race into a silently unpatched window.
fn late_value() {
    // Answers on the fifth poll.
    let mut reads = 0;
    loop {
        reads += 1;
        match wait_for(reads >= 5, false) {
            Look::Over => break,
            Look::Again => {}
            Look::GiveUp => panic!("a late value must still be read"),
        }
    }
    assert_eq!(reads, 5, "the reader must have waited for the answer");
    // A value that is there at the end of the budget is read.
    assert_eq!(wait_for(true, true), Look::Over);
}

#[test]
fn window_a_value_that_arrives_late_is_still_read() {
    late_value();
}

#[test]
fn tests_a_value_that_arrives_late_is_still_read() {
    late_value();
}

/// A probe that never reports decides nothing: the wait ends and the caller sees nothing.
fn empty_slot() {
    assert_eq!(wait_for(false, false), Look::Again);
    assert_eq!(wait_for(false, true), Look::GiveUp);
}

#[test]
fn window_a_slot_that_stays_empty_ends_the_wait() {
    empty_slot();
}

#[test]
fn tests_a_slot_that_stays_empty_ends_the_wait() {
    empty_slot();
}

fn the_probe() {
    let script = probe_script();
    // The one that actually failed in the field.
    assert!(script.contains("typeof Iterator === \"undefined\""));
    // Prototype methods are not globals: the check names the expression it asks about.
    assert!(script.contains("typeof [].findLast === \"undefined\""));
    assert!(script.contains("Math.sumPrecise"));
    // The syntax verdict comes from the page, not from an eval the page's CSP would block.
    assert!(script.contains("__dshSyntaxMissing"));
    assert!(
        !script.contains("new Function"),
        "the probe must not eval: script-src forbids it, and a blocked eval is\n             indistinguishable from syntax this engine cannot parse"
    );
    // It reports through the splash window's core capability.
    assert!(script.contains(PROBE_EVENT));
    assert!(script.contains("plugin:event|emit"));
    // It runs on exactly the engines it exists to diagnose: keep it ES5.
    assert!(!script.contains("=>"), "the probe must stay ES5");
    assert!(!script.contains('`'), "the probe must stay ES5");
    assert!(!script.contains("??"), "the probe must stay ES5");
    for (_, check) in watched_apis() {
        assert!(script.contains(&check), "{check}");
    }
}

#[test]
fn window_the_probe_asks_about_every_shimmed_api_and_the_syntax_floor() {
    the_probe();
}

#[test]
fn tests_the_probe_asks_about_every_shimmed_api_and_the_syntax_floor() {
    the_probe();
}

fn the_blocks() {
    let names: Vec<String> = shimmed_apis().into_iter().map(|(name, _)| name).collect();
    for name in &names {
        assert!(
            compat_blocks().iter().any(|(block, _)| block == name),
            "{name} has no compat block"
        );
    }
    let all = compat_script(&names);
    for (name, block) in compat_blocks() {
        assert!(all.contains(&block), "{name} block missing from the full script");
    }
    // Only what the report asked for reaches the window.
    let one = compat_script(&["Iterator".to_string()]);
    assert!(one.contains(ITERATOR_SHIM));
    assert!(!one.contains(PROMISE_TRY_SHIM), "{one}");
    assert!(!one.contains(MATH_SUM_PRECISE_SHIM), "{one}");
    assert!(compat_script(&[]).is_empty(), "nothing missing, nothing injected");
}

#[test]
fn window_every_shimmed_api_has_a_block_and_only_the_missing_ones_are_emitted() {
    the_blocks();
}

#[test]
fn tests_every_shimmed_api_has_a_block_and_only_the_missing_ones_are_emitted() {
    the_blocks();
}

fn es5() {
    let names: Vec<String> = shimmed_apis().into_iter().map(|(name, _)| name).collect();
    let all = compat_script(&names);
    for (name, block) in compat_blocks() {
        assert!(block.contains("(function () {"), "{name} is not its own scope");
        assert!(block.contains("typeof "), "{name} installs without asking");
    }
    // Same discipline as the probe: the engines that need this are exactly the old ones.
    for syntax in ["=>", "`", "??", "const ", "let ", "function*", "class "] {
        assert!(
            !all.contains(syntax),
            "the compat layer must stay ES5, found {syntax:?}"
        );
    }
}

#[test]
fn window_the_compat_layer_stays_es5_and_guards_every_block() {
    es5();
}

#[test]
fn tests_the_compat_layer_stays_es5_and_guards_every_block() {
    es5();
}

/// Whitespace goes, every other character stays; a sum that is not finite stays what it is; the
/// first call of a reduction without a start has the number one.
#[test]
fn the_blocks_follow_the_language() {
    assert!(UINT8_FROM_BASE64_SHIM.contains(r"/\s/g"), "{UINT8_FROM_BASE64_SHIM}");
    assert!(MATH_SUM_PRECISE_SHIM.contains("isFinite(sum)"), "{MATH_SUM_PRECISE_SHIM}");
    assert!(ITERATOR_SHIM.contains("index = 1"), "{ITERATOR_SHIM}");
}

/// A page that takes input but draws nothing is the reported failure, and it cannot report
/// itself: the UI coalesces streamed output onto animation frames, and the code that would
/// notice is the code that stopped running.
#[test]
fn a_page_that_stops_drawing_is_reloaded_and_then_reported() {
    let drawing = PageState::Drawing;
    let frozen = PageState::Frozen;
    let idle = false;
    // One bad probe is a hiccup: the shell waits instead of throwing away the page state.
    assert_eq!(
        liveness_action(frozen, true, idle, 0, 0),
        LivenessAction::Wait { misses: 1 }
    );
    // The second one in a row is a page that has stopped drawing.
    assert_eq!(
        liveness_action(frozen, true, idle, 1, 0),
        LivenessAction::Reload { attempt: 1 }
    );
    // Anything that draws clears the streak, whatever the reload count was.
    assert_eq!(liveness_action(drawing, true, idle, 5, 2), LivenessAction::Alive);
    // Reloads are budgeted: the shell stops instead of looping over a page that never returns.
    assert_eq!(
        liveness_action(frozen, true, idle, 1, 1),
        LivenessAction::Reload { attempt: 2 }
    );
    assert_eq!(
        liveness_action(frozen, true, idle, 1, 3),
        LivenessAction::Report { attempts: 3 }
    );
    // A bad probe mid-recovery does not reset the reload budget.
    assert_eq!(
        liveness_action(frozen, true, idle, 0, 3),
        LivenessAction::Wait { misses: 1 }
    );
    assert_eq!(
        liveness_action(frozen, true, idle, 1, u32::MAX),
        LivenessAction::Report { attempts: u32::MAX }
    );
    // A silent page is broken wherever it is: focus is no excuse for answering nothing.
    assert_eq!(
        liveness_action(PageState::Silent, false, idle, 1, 0),
        LivenessAction::Reload { attempt: 1 }
    );
}

/// A window the user is not looking at is one WebKit may legitimately stop drawing, and
/// reloading it would turn "the user switched away" into a reload loop.
#[test]
fn a_background_window_is_not_accused_of_being_frozen() {
    let idle = false;
    assert_eq!(
        liveness_action(PageState::Frozen, false, idle, 0, 0),
        LivenessAction::Unattended
    );
    // Even a long streak of unattended probes stays unattended: no reloads are spent.
    assert_eq!(
        liveness_action(PageState::Frozen, false, idle, 4, 2),
        LivenessAction::Unattended
    );
    // Drawing is drawing, attended or not.
    assert_eq!(
        liveness_action(PageState::Drawing, false, idle, 0, 0),
        LivenessAction::Alive
    );
}

/// Reloading is the only recovery for a frozen page, and it is also what discards an unsent
/// prompt. Someone typing in a page that stopped drawing gets another interval first.
#[test]
fn window_a_page_someone_is_typing_in_is_not_reloaded_yet() {
    // The user is mid-sentence: wait, and keep the streak so the budget is untouched.
    assert_eq!(
        liveness_action(PageState::Frozen, true, true, 1, 0),
        LivenessAction::Busy { misses: 2 }
    );
    // The moment they stop, the reload the page still needs happens.
    assert_eq!(
        liveness_action(PageState::Frozen, true, false, 2, 0),
        LivenessAction::Reload { attempt: 1 }
    );
    // Typing never spends or restores the reload budget.
    assert_eq!(
        liveness_action(PageState::Frozen, true, true, 2, 2),
        LivenessAction::Busy { misses: 3 }
    );
    // A page that answers nothing is not "busy": the probe that would say so is the code
    // that stopped running, so silence must still reload rather than wait for ever.
    assert_eq!(
        liveness_action(PageState::Silent, true, false, 1, 0),
        LivenessAction::Reload { attempt: 1 }
    );
    // And a page that is drawing is alive whether or not anyone is typing.
    assert_eq!(
        liveness_action(PageState::Drawing, true, true, 0, 0),
        LivenessAction::Alive
    );
}

/// What the page answers about its user; none where it is no answer.
fn activity(answer: &str) -> Option<Activity> {
    let value: serde_json::Value = serde_json::from_str(answer).ok()?;
    Some(Activity {
        editing: value.get("editing")?.as_bool()?,
        idle: value.get("idle")?.as_u64()?,
    })
}

fn busy() {
    // Typing in a field: busy, however long the pause between keystrokes.
    assert!(page_is_busy(activity(r#"{"editing":true,"idle":900000}"#)));
    // Not focused, but typed in within the last interval.
    assert!(page_is_busy(activity(r#"{"editing":false,"idle":100}"#)));
    // Focused elsewhere, idle for minutes: nothing to lose.
    assert!(!page_is_busy(activity(r#"{"editing":false,"idle":900000}"#)));
    // Never typed since the page loaded.
    assert!(!page_is_busy(activity(r#"{"editing":false,"idle":1000000000}"#)));
    // A page that cannot answer is gone, not busy: waiting would only delay recovery.
    assert!(!page_is_busy(None));
    assert!(!page_is_busy(activity("not json")));
    assert!(!page_is_busy(activity("")));
}

#[test]
fn window_activity_is_read_as_busy_only_when_someone_is_working() {
    busy();
}

#[test]
fn tests_activity_is_read_as_busy_only_when_someone_is_working() {
    busy();
}

/// The frame counter is the whole signal, so its algebra has to be exact.
#[test]
fn window_only_a_moving_frame_counter_proves_the_page_is_drawing() {
    // First answer: nothing to compare against, so a number that arrived is progress.
    assert_eq!(judge_frames(Some(1), None), PageState::Drawing);
    assert_eq!(judge_frames(Some(0), None), PageState::Drawing);
    // Same number twice: JavaScript runs and no frame was produced in between.
    assert_eq!(judge_frames(Some(7), Some(7)), PageState::Frozen);
    // A larger number is frames being drawn.
    assert_eq!(judge_frames(Some(8), Some(7)), PageState::Drawing);
    // A smaller number is a fresh document, not a fault: a reload starts the count over.
    assert_eq!(judge_frames(Some(1), Some(40)), PageState::Drawing);
    // No answer at all is the renderer being gone or wedged.
    assert_eq!(judge_frames(None, Some(40)), PageState::Silent);
    assert_eq!(judge_frames(None, None), PageState::Silent);
}

#[test]
fn the_frame_probe_is_es5_and_schedules_at_most_one_frame() {
    // The probe runs on every engine this shell supports, including the old WebKits the
    // compat layer exists for.
    for syntax in ["=>", "```", "??", "const ", "let ", "class "] {
        assert!(!FRAME_PROBE.contains(syntax), "存活探测必须保持 ES5，发现 {syntax:?}");
    }
    // The pending callback is itself the evidence: one at a time, never a queue.
    assert!(FRAME_PROBE.contains("__dshFramePending"), "{FRAME_PROBE}");
    assert!(FRAME_PROBE.contains("requestAnimationFrame"), "{FRAME_PROBE}");
    // It has to answer with the count, so the shell can compare two probes.
    assert!(FRAME_PROBE.contains("return w.__dshFrames"), "{FRAME_PROBE}");
    // The watchdog has to outlast a slow but healthy page, and give up before a user would.
    assert!(LIVENESS_TIMEOUT_SECS < LIVENESS_INTERVAL_SECS);
    assert_eq!((LIVENESS_MISSES, LIVENESS_RELOADS), (2, 3));
}

fn status() {
    let script = status_script("__setFailure", "Harness 已退出", "退出码 0\n第二行");
    // The page defines its entry points in <head>; a freshly created window may not have
    // parsed them yet, so the script must retry rather than drop the message.
    assert!(script.contains("window.__setFailure"), "{script}");
    assert!(script.contains("setInterval"), "{script}");
    // The text is embedded as a JS string literal, newlines and all.
    assert!(script.contains(r#""退出码 0\n第二行""#), "{script}");
    // Same builder for the progress face: the difference is which entry point it calls.
    let progress = status_script("__setStatus", "正在启动…", "");
    assert!(progress.contains("window.__setStatus"), "{progress}");
    assert!(!progress.contains("__setFailure"));
}

#[test]
fn window_the_status_script_applies_now_or_waits_for_the_page() {
    status();
}

#[test]
fn tests_the_status_script_applies_now_or_waits_for_the_page() {
    status();
}

/// The question is the one page here the user must read before acting, and it is taller than
/// the splash: a question window no taller would put the buttons below the fold.
fn the_question_fits() {
    assert!(
        QUESTION_HEIGHT > SPLASH_HEIGHT,
        "the question needs more height than the splash"
    );
    assert!(QUESTION_WIDTH >= SPLASH_WIDTH);
}

#[test]
fn window_the_question_gets_a_window_and_a_layout_that_fit_it() {
    the_question_fits();
}

#[test]
fn tests_the_question_gets_a_window_and_a_layout_that_fit_it() {
    the_question_fits();
}

/// The question script escapes what it carries: a command line can hold quotes, and a
/// broken script would leave the user with a page that never asks anything.
fn the_choice() {
    let options = vec![ChoiceOption {
        id: "take-over".to_string(),
        label: "终止 \"node\" 并接管".to_string(),
    }];
    let script = choice_script(7, "标题", "详情", &options, "提示");
    assert!(script.contains("window.__askChoice(7,"), "{script}");
    assert!(script.contains(r#"\"node\""#), "{script}");
    // The retry wrapper is the same one the status page uses: an eval that lands before
    // the page parsed its head must not be lost.
    assert!(script.contains("setInterval"), "{script}");
}

#[test]
fn window_the_choice_script_escapes_its_payload() {
    the_choice();
}

#[test]
fn tests_the_choice_script_escapes_its_payload() {
    the_choice();
}

fn load_retry() {
    // A navigation that never began is sent again while attempts remain, whether or not the
    // port answers: the blank-window case usually comes with a healthy port.
    assert_eq!(load_outcome(1, 3, true, false, true), LoadOutcome::Retry);
    assert_eq!(load_outcome(2, 3, true, false, false), LoadOutcome::Retry);
    // A load that started is not interrupted, however long it takes.
    assert_eq!(load_outcome(1, 3, true, true, true), LoadOutcome::Settled);
    assert_eq!(load_outcome(3, 3, true, true, false), LoadOutcome::Settled);
    // Out of attempts: a failure page only when nothing serves the port either. A healthy
    // port means the load events themselves are missing, which a retry cannot fix.
    assert_eq!(load_outcome(3, 3, true, false, false), LoadOutcome::Report);
    assert_eq!(load_outcome(3, 3, true, false, true), LoadOutcome::Settled);
    // The user closed the window: stop watching it.
    assert_eq!(load_outcome(1, 3, false, false, false), LoadOutcome::Settled);
}

#[test]
fn window_load_retry_follows_the_started_event_and_never_fails_a_live_port() {
    load_retry();
}

#[test]
fn tests_load_retry_follows_the_started_event_and_never_fails_a_live_port() {
    load_retry();
}

fn downloads() {
    // Free name is used as-is, taken names get a counter before the extension.
    assert_eq!(unique_download_path("/d", "a.pdf", &[false], false).as_deref(), Some("/d/a.pdf"));
    assert_eq!(
        unique_download_path("/d", "a.pdf", &[true, false], false).as_deref(),
        Some("/d/a-1.pdf")
    );
    assert_eq!(
        unique_download_path("/d", "a.pdf", &[true, true, false], false).as_deref(),
        Some("/d/a-2.pdf")
    );
    // Extension-less names keep working.
    assert_eq!(unique_download_path("/d", "b", &[true, false], false).as_deref(), Some("/d/b-1"));
    assert_eq!(download_candidate("/d", "a.tar.gz", 2, false), "/d/a.tar-2.gz");
}

#[test]
fn window_download_names_never_collide() {
    downloads();
}

#[test]
fn tests_download_names_never_collide() {
    downloads();
}

/// Exhausting the numbered candidates must not fall back to a name that is already taken.
#[test]
fn an_exhausted_name_search_never_reuses_a_taken_file() {
    let mut taken = vec![true; 1000];
    assert_eq!(unique_download_path("/d", "a.pdf", &taken, false), None);
    taken.push(false);
    let chosen = unique_download_path("/d", "a.pdf", &taken, false).unwrap();
    assert_eq!(chosen, "/d/a-1000.pdf");
    assert_ne!(chosen, "/d/a.pdf", "the existing file must not be reused");
}

/// A watcher may only act while its window is still the one it was created for.
#[test]
fn a_watcher_stops_acting_once_its_window_was_rebuilt() {
    assert!(may_act(7, 7));
    // Any other generation is somebody else window: older or newer, the answer is the same.
    assert!(!may_act(7, 8));
    assert!(!may_act(8, 7));
    assert!(!may_act(0, 1));
}

/// A frozen page through the whole watch: reloaded as often as its budget allows, then reported.
#[test]
fn a_watch_ends_after_its_reloads() {
    let mut watch = Watch::new();
    let mut reloads = 0;
    let mut ended = false;
    for _ in 0..40 {
        let step = watch.step(None, true, false, "http://127.0.0.1:3080/");
        if step.reload {
            reloads += 1;
        }
        if step.end {
            ended = true;
            break;
        }
    }
    assert_eq!(reloads, LIVENESS_RELOADS);
    assert!(ended);
    // Someone at work matters only where the page does not draw.
    assert!(watch.asks_activity(None));
    assert!(!Watch::new().asks_activity(Some(1)));
}

#[test]
fn the_first_load_is_watched_to_its_end() {
    let url = "http://127.0.0.1:3080/";
    assert!(matches!(
        watch_first_load(1, true, false, true, url, 3080),
        LoadStep::Again { .. }
    ));
    assert!(matches!(
        watch_first_load(3, true, false, false, url, 3080),
        LoadStep::Fail { .. }
    ));
    assert!(matches!(
        watch_first_load(1, true, true, true, url, 3080),
        LoadStep::End { .. }
    ));
}

#[test]
fn an_answer_belongs_to_the_open_question() {
    let mut questions = Questions::new();
    let first = questions.ask();
    let second = questions.ask();
    assert_ne!(first, second);
    let answer = |question: u64| {
        Some(ChoiceAnswer {
            question,
            id: "browser".to_string(),
        })
    };
    questions.record_choice(answer(first), "{}");
    assert_eq!(questions.answer, None, "an answer to an older question is not this answer");
    questions.record_choice(answer(second), "{}");
    assert_eq!(questions.answer.as_ref().map(|choice| choice.question), Some(second));
    questions.close();
    assert_eq!(questions.open, None);
    assert_ne!(choice_log(Some("browser")), choice_log(None));
}

#[test]
fn the_first_failure_stays_until_a_restart() {
    let mut pages = Pages::new();
    assert!(matches!(pages.show_failure("一", true), Shown::Draw { .. }));
    assert!(pages.retry_offered());
    assert!(matches!(pages.show_failure("二", true), Shown::Kept { .. }));
    pages.allow_next_failure();
    assert!(matches!(pages.show_notice("三", true), Shown::Draw { .. }));
    assert!(matches!(pages.show_progress(false), Shown::NoWindow));
}

#[test]
fn the_page_stays_on_its_origin() {
    let at = |text: &str| dsh_desktop::harness::parse_dsh_url(text).unwrap();
    let url = at("dsh web: http://127.0.0.1:3080/?token=abc");
    assert!(same_origin(&url, 3080));
    assert!(!same_origin(&url, 3081));
    let (shown, log) = current_url(Ok(url));
    assert_eq!(shown, "http://127.0.0.1:3080/?token=abc");
    assert_eq!(log, None);
    assert!(current_url(Err("gone".to_string())).1.is_some());
    assert!(title_is_default(None) || title_is_default(Some("DeepSeek Harness")));
    assert!(!title_is_default(Some("我的会话")));
    assert!(attended(Some(true), Some(false), Some(true)));
    assert!(!attended(Some(true), Some(true), Some(true)));
}

#[test]
fn a_terminated_page_is_loaded_again() {
    assert!(matches!(
        recover_terminated_webview(HARNESS, true),
        Recovery::Reload { .. }
    ));
    // The end of the page is reported even where there is no window left to load it in.
    assert_eq!(
        recover_terminated_webview(HARNESS, false),
        Recovery::Ignore {
            log: vec![
                "WebView 渲染进程被系统结束（多为内存压力），正在重新加载页面".to_string(),
                "崩溃恢复：harness 窗口已不在，交给存活检查处理".to_string(),
            ],
        }
    );
    assert_eq!(
        recover_terminated_webview("splash", true),
        Recovery::Ignore {
            log: vec!["WebView 渲染进程结束（splash）：不是 harness 窗口，忽略".to_string()],
        }
    );
}

#[test]
fn a_download_stays_in_its_directory() {
    assert_eq!(file_name_of("/tmp/x/a.pdf", false), "a.pdf");
    assert!(!file_name_of("..", false).contains(".."));
    assert_eq!(downloads_dir(Some("/home/me"), false), "/home/me/Downloads");
}

#[test]
fn the_scripts_of_the_window_come_in_order() {
    let report = report(r#"{"missing":["Iterator"],"agent":"old"}"#);
    let (added, others) = harness_scripts(true, report.as_ref(), true, true, true, true);
    assert!(added.unwrap().contains("globalThis.Iterator"));
    assert_eq!(
        others,
        [
            PageScript::RenderFallback,
            PageScript::MenuFocusGuard,
            PageScript::ScrollAnchor,
            PageScript::PageDiagnostics,
        ]
    );
    let (added, others) = harness_scripts(false, report.as_ref(), false, false, true, false);
    assert_eq!(added, None);
    assert_eq!(others, [PageScript::ScrollAnchor]);
    let line = compat_log(report.as_ref(), true, true).unwrap();
    assert_eq!(line, "WebView 缺少 Iterator：已注入兼容层");
    assert!(compat_log(report.as_ref(), false, false).unwrap().contains("webkit_compat=false"));
    assert_eq!(compat_log(None, false, true), None);
    let handover =
        hand_the_gui_to_the_browser(report.as_ref(), "http://127.0.0.1:1/?token=t", "0.1.5", false)
            .unwrap();
    assert!(handover.log.contains("Iterator"));
    assert!(handover.detail.contains("http://127.0.0.1:1/?token=t"));
    assert!(hand_the_gui_to_the_browser(None, "u", "v", true).is_none());
}

#[test]
fn a_frame_count_is_a_number_or_silence() {
    assert_eq!(frame_count(" 12\n"), Some(12));
    assert_eq!(frame_count("0"), Some(0));
    assert_eq!(frame_count("null"), None);
    assert_eq!(frame_count(""), None);
    assert_eq!(frame_count("-1"), None);
}

/// A text stays inside of its string, whatever it holds.
#[test]
fn a_status_cannot_leave_its_string() {
    let script = status_script("__setStatus", "a\"b\\c", "d\ne\u{1}f\u{8}\u{c}\r\t");
    assert!(script.contains(r#""a\"b\\c""#), "{script}");
    assert!(script.contains(r#""d\ne\u0001f\b\f\r\t""#), "{script}");
    assert!(!script.contains('\u{1}'), "{script}");
}

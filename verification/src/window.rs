//! The windows of the shell: what their pages are told, what they answer, and what is done about
//! a page that does not load or stops drawing.
use vstd::prelude::*;

use crate::harness::{parse_url, WebUrl};
#[allow(unused_imports)]
use crate::harness::{url_parsed, url_result, UrlModel};
use crate::json::quoted;
#[allow(unused_imports)]
use crate::json::json_quoted;
use crate::number::{decimal_text, parse_u64};
#[allow(unused_imports)]
use crate::number::{decimal, u64_in};
use crate::paths::{dot_of, file_name, path_join};
#[allow(unused_imports)]
use crate::paths::{dot_in, file_name_in, path_joined};
use crate::takeover::Look;
#[allow(unused_imports)]
use crate::takeover::buttons;
use crate::text::{
    chars_of, glue, glue3, glue4, glue5, opt_is, piece, string_of, text_eq, trim_text,
    truth_text,
};
#[allow(unused_imports)]
use crate::text::{opt_view, texts, trimmed, truth};

verus! {

/// The label of the status window.
pub const SPLASH: &'static str = "splash";

/// The label of the window with the Harness page.
pub const HARNESS: &'static str = "harness";

/// The event with which the status page asks for another attempt.
pub const RESTART_EVENT: &'static str = "dsh-desktop:restart-harness";

/// The event with which a question is answered.
pub const CHOICE_EVENT: &'static str = "dsh-desktop:takeover-choice";

/// The menu entry that loads the Harness page again.
pub const RELOAD_MENU_ID: &'static str = "reload-harness";

/// The size of the status window, in logical pixels.
pub const SPLASH_WIDTH: u32 = 460;

pub const SPLASH_HEIGHT: u32 = 300;

/// Its size while a question is up.
pub const QUESTION_WIDTH: u32 = 520;

pub const QUESTION_HEIGHT: u32 = 560;

/// How long to wait for the report of the status page, in milliseconds.
pub const PROBE_WAIT_MS: u64 = 500;

/// How long a question stays on screen before the shell answers it itself, in seconds.
pub const CHOICE_TIMEOUT_SECS: u64 = 120;

/// One look at a value that is waited for: a late one is still taken.
pub fn wait_for(there: bool, late: bool) -> (r: Look)
    ensures
        r == (if there {
            Look::Over
        } else if late {
            Look::GiveUp
        } else {
            Look::Again
        }),
{
    if there {
        Look::Over
    } else if late {
        Look::GiveUp
    } else {
        Look::Again
    }
}

// ---------------------------------------------------------------------------------------------
// Questions
// ---------------------------------------------------------------------------------------------

/// One button of a question.
#[derive(Debug, Clone, PartialEq, Eq)]
pub struct ChoiceOption {
    /// What the page sends back.
    pub id: String,
    /// What the user reads.
    pub label: String,
}

/// The answer to a question.
#[derive(Debug, Clone, PartialEq, Eq)]
pub struct Choice {
    pub question: u64,
    pub id: String,
}

/// What the page reports when a button is pressed.
#[derive(Debug, Clone, PartialEq, Eq)]
pub struct ChoiceAnswer {
    pub question: u64,
    pub id: String,
}

/// The questions that were put: the last number given out, the one that is open, and its answer.
#[derive(Debug, Clone, PartialEq, Eq)]
pub struct Questions {
    pub last: u64,
    pub open: Option<u64>,
    pub answer: Option<Choice>,
}

impl Questions {
    /// An answer belongs to the open question.
    pub open spec fn wf(&self) -> bool {
        self.answer matches Some(choice) ==> self.open == Some(choice.question)
    }

    /// No question yet.
    pub fn new() -> (r: Questions)
        ensures
            r.wf(),
            r.last == 0,
            r.open is None,
            r.answer is None,
    {
        Questions { last: 0, open: None, answer: None }
    }

    /// Opens the next question, and gives its number.
    pub fn ask(&mut self) -> (r: u64)
        ensures
            final(self).wf(),
            r == (if old(self).last < u64::MAX {
                old(self).last + 1
            } else {
                0
            }),
            final(self).last == r,
            final(self).open == Some(r),
            final(self).answer is None,
    {
        let number: u64 = if self.last < u64::MAX {
            self.last + 1
        } else {
            0
        };
        self.last = number;
        self.open = Some(number);
        self.answer = None;
        number
    }

    /// Closes the question: what comes later is not an answer.
    pub fn close(&mut self)
        ensures
            final(self).wf(),
            final(self).last == old(self).last,
            final(self).open is None,
            final(self).answer is None,
    {
        self.open = None;
        self.answer = None;
    }

    /// Takes what the page reported. It counts only where a question is open and it names that
    /// one; what cannot be read gives the line for the log.
    pub fn record_choice(&mut self, parsed: Option<ChoiceAnswer>, payload: &str) -> (r: Option<
        String,
    >)
        requires
            old(self).wf(),
        ensures
            final(self).wf(),
            final(self).last == old(self).last,
            final(self).open == old(self).open,
            (match parsed {
                Some(reported) => r is None && (if old(self).open == Some(reported.question) {
                    final(self).answer == Some(
                        Choice { question: reported.question, id: reported.id },
                    )
                } else {
                    final(self).answer == old(self).answer
                }),
                None => final(self).answer == old(self).answer && (r matches Some(line) && line@
                    == "无法解析接管确认的回答："@ + payload@),
            }),
    {
        match parsed {
            Some(reported) => {
                let current = match self.open {
                    Some(question) => question == reported.question,
                    None => false,
                };
                if current {
                    self.answer = Some(
                        Choice { question: reported.question, id: reported.id },
                    );
                }
                None
            },
            None => Some(glue("无法解析接管确认的回答：", payload)),
        }
    }
}

/// How the wait for an answer goes on.
#[derive(Debug, Clone, PartialEq, Eq)]
pub enum ChoiceWait {
    Answered { choice: Choice },
    TimedOut,
    Again,
}

/// One look at the answer to a question. An answer to another question is none.
pub fn wait_for_choice(question: u64, read: Option<Choice>, late: bool) -> (r: ChoiceWait)
    ensures
        r == (match read {
            Some(choice) => if choice.question == question {
                ChoiceWait::Answered { choice }
            } else if late {
                ChoiceWait::TimedOut
            } else {
                ChoiceWait::Again
            },
            None => if late {
                ChoiceWait::TimedOut
            } else {
                ChoiceWait::Again
            },
        }),
{
    match read {
        Some(choice) => {
            if choice.question == question {
                return ChoiceWait::Answered { choice };
            }
        },
        None => {},
    }
    if late {
        ChoiceWait::TimedOut
    } else {
        ChoiceWait::Again
    }
}

/// The line about how a question ended.
pub fn choice_log(answer: Option<&str>) -> (r: String)
    ensures
        r@ == (match answer {
            Some(id) => "接管确认：用户选择 "@ + id@,
            None => "接管确认没有收到答复（超时或页面未加载），按 config.json 的答复处理"@,
        }),
{
    match answer {
        Some(id) => glue("接管确认：用户选择 ", id),
        None => "接管确认没有收到答复（超时或页面未加载），按 config.json 的答复处理".to_owned(),
    }
}

/// A button as JSON.
pub open spec fn button_json(button: (Seq<char>, Seq<char>)) -> Seq<char> {
    "{\"id\":"@ + json_quoted(button.0) + ",\"label\":"@ + json_quoted(button.1) + "}"@
}

/// Buttons as JSON, with commas between them.
pub open spec fn buttons_json(all: Seq<(Seq<char>, Seq<char>)>) -> Seq<char>
    decreases all.len(),
{
    if all.len() == 0 {
        Seq::empty()
    } else if all.len() == 1 {
        button_json(all[0])
    } else {
        buttons_json(all.drop_last()) + ","@ + button_json(all.last())
    }
}

fn options_json(options: &[ChoiceOption]) -> (r: String)
    ensures
        r@ == buttons_json(buttons(options@)),
{
    let ghost all = buttons(options@);
    let mut out = String::new();
    let mut i: usize = 0;
    proof {
        assert(all.take(0) =~= Seq::<(Seq<char>, Seq<char>)>::empty());
        assert(out@ =~= Seq::<char>::empty());
    }
    while i < options.len()
        invariant
            i <= options@.len(),
            all == buttons(options@),
            out@ == buttons_json(all.take(i as int)),
        decreases options@.len() - i,
    {
        proof {
            let next = all.take(i + 1);
            assert(next.drop_last() =~= all.take(i as int));
            assert(next.last() == all[i as int]);
            assert(next.len() == i + 1);
        }
        let button = glue5(
            "{\"id\":",
            quoted(options[i].id.as_str()).as_str(),
            ",\"label\":",
            quoted(options[i].label.as_str()).as_str(),
            "}",
        );
        if i == 0 {
            out = button;
        } else {
            out.append(",");
            out.append(button.as_str());
        }
        i += 1;
    }
    proof {
        assert(all.take(all.len() as int) =~= all);
    }
    out
}

/// The script that has the page draw a question; it waits for a page that is not ready. Every
/// text reaches the page as a JSON string.
pub fn choice_script(
    question: u64,
    status: &str,
    detail: &str,
    options: &[ChoiceOption],
    hint: &str,
) -> (r: String)
    ensures
        r@
            == "(function () {\nvar ask = function () {\nif (!window.__askChoice) return false;\nwindow.__askChoice("@
            + decimal(question as nat) + ", "@ + json_quoted(status@) + ", "@ + json_quoted(detail@)
            + ", ["@ + buttons_json(buttons(options@)) + "], "@ + json_quoted(hint@)
            + ");\nreturn true;\n};\nif (ask()) return;\nvar attempts = 0;\nvar timer = setInterval(function () {\nif (ask() || ++attempts > 40) clearInterval(timer);\n}, 25);\n})()"@,
{
    let mut out = glue5(
        "(function () {\nvar ask = function () {\nif (!window.__askChoice) return false;\nwindow.__askChoice(",
        decimal_text(question).as_str(),
        ", ",
        quoted(status).as_str(),
        ", ",
    );
    out.append(quoted(detail).as_str());
    out.append(", [");
    out.append(options_json(options).as_str());
    out.append("], ");
    out.append(quoted(hint).as_str());
    out.append(
        ");\nreturn true;\n};\nif (ask()) return;\nvar attempts = 0;\nvar timer = setInterval(function () {\nif (ask() || ++attempts > 40) clearInterval(timer);\n}, 25);\n})()",
    );
    out
}

/// The script that has the page show a status, through one of its entry points; it waits for a
/// page that is not ready.
pub fn status_script(function: &str, status: &str, detail: &str) -> (r: String)
    ensures
        r@ == "(function () {\nvar apply = function () {\nif (!window."@ + function@
            + ") return false;\nwindow."@ + function@ + "("@ + json_quoted(status@) + ", "@
            + json_quoted(detail@)
            + ");\nreturn true;\n};\nif (apply()) return;\nvar attempts = 0;\nvar timer = setInterval(function () {\nif (apply() || ++attempts > 40) clearInterval(timer);\n}, 25);\n})()"@,
{
    let mut out = glue5(
        "(function () {\nvar apply = function () {\nif (!window.",
        function,
        ") return false;\nwindow.",
        function,
        "(",
    );
    out.append(quoted(status).as_str());
    out.append(", ");
    out.append(quoted(detail).as_str());
    out.append(
        ");\nreturn true;\n};\nif (apply()) return;\nvar attempts = 0;\nvar timer = setInterval(function () {\nif (apply() || ++attempts > 40) clearInterval(timer);\n}, 25);\n})()",
    );
    out
}

// ---------------------------------------------------------------------------------------------
// The status page
// ---------------------------------------------------------------------------------------------

/// What is on the status page, as far as later pages depend on it.
#[derive(Debug, Clone, Copy, PartialEq, Eq, Structural)]
pub struct Pages {
    /// A terminal page was shown: the next one must not replace its explanation.
    pub failure_shown: bool,
    /// The page offers a restart.
    pub retry_offered: bool,
}

/// What comes of showing a page.
#[derive(Debug, Clone, PartialEq, Eq)]
pub enum Shown {
    /// A terminal page is there already: it stays, and the line goes to the log.
    Kept { log: String },
    /// Draw the page through this entry point.
    Draw { function: String },
    /// There is no window to draw it in.
    NoWindow,
}

impl Pages {
    pub fn new() -> (r: Pages)
        ensures
            r == (Pages { failure_shown: false, retry_offered: false }),
    {
        Pages { failure_shown: false, retry_offered: false }
    }

    /// Does reopening the app ask for another start?
    pub fn retry_offered(&self) -> (r: bool)
        ensures
            r == self.retry_offered,
    {
        self.retry_offered
    }

    /// Lets the next terminal page replace what is on screen: another attempt begins.
    pub fn allow_next_failure(&mut self)
        ensures
            *final(self) == (Pages { failure_shown: false, ..*old(self) }),
    {
        self.failure_shown = false;
    }

    /// Shows a terminal page. `presented` tells whether the status window could be brought up,
    /// and is looked at only where no terminal page is there yet.
    fn show_terminal(&mut self, status: &str, presented: bool, retry: bool) -> (r: Shown)
        ensures
            final(self).failure_shown,
            final(self).retry_offered == (if !old(self).failure_shown && presented {
                retry
            } else {
                old(self).retry_offered
            }),
            (if old(self).failure_shown {
                r matches Shown::Kept { log } && log@
                    == "failure page already shown; keeping it instead of: "@ + status@
            } else if presented {
                r matches Shown::Draw { function } && function@ == (if retry {
                    "__setFailure"@
                } else {
                    "__setStatus"@
                })
            } else {
                r is NoWindow
            }),
    {
        if self.failure_shown {
            return Shown::Kept {
                log: glue("failure page already shown; keeping it instead of: ", status),
            };
        }
        self.failure_shown = true;
        if !presented {
            return Shown::NoWindow;
        }
        self.retry_offered = retry;
        Shown::Draw {
            function: if retry {
                "__setFailure".to_owned()
            } else {
                "__setStatus".to_owned()
            },
        }
    }

    /// Shows a failure, with the offer of a restart.
    pub fn show_failure(&mut self, status: &str, presented: bool) -> (r: Shown)
        ensures
            final(self).failure_shown,
            final(self).retry_offered == (old(self).retry_offered || (!old(self).failure_shown
                && presented)),
            (if old(self).failure_shown {
                r matches Shown::Kept { log } && log@
                    == "failure page already shown; keeping it instead of: "@ + status@
            } else if presented {
                r matches Shown::Draw { function } && function@ == "__setFailure"@
            } else {
                r is NoWindow
            }),
    {
        self.show_terminal(status, presented, true)
    }

    /// Shows a notice, without the offer of a restart: the Harness is alive, or nothing here can
    /// be started.
    pub fn show_notice(&mut self, status: &str, presented: bool) -> (r: Shown)
        ensures
            final(self).failure_shown,
            final(self).retry_offered == (old(self).retry_offered && (old(self).failure_shown
                || !presented)),
            (if old(self).failure_shown {
                r matches Shown::Kept { log } && log@
                    == "failure page already shown; keeping it instead of: "@ + status@
            } else if presented {
                r matches Shown::Draw { function } && function@ == "__setStatus"@
            } else {
                r is NoWindow
            }),
    {
        self.show_terminal(status, presented, false)
    }

    /// Shows that an attempt is running. It is no terminal page.
    pub fn show_progress(&mut self, presented: bool) -> (r: Shown)
        ensures
            final(self).failure_shown == old(self).failure_shown,
            final(self).retry_offered == (old(self).retry_offered && !presented),
            (if presented {
                r matches Shown::Draw { function } && function@ == "__setStatus"@
            } else {
                r is NoWindow
            }),
    {
        if !presented {
            return Shown::NoWindow;
        }
        self.retry_offered = false;
        Shown::Draw { function: "__setStatus".to_owned() }
    }
}

// ---------------------------------------------------------------------------------------------
// A page that stops drawing
// ---------------------------------------------------------------------------------------------

/// How often the page is asked whether it draws, in seconds.
pub const LIVENESS_INTERVAL_SECS: u64 = 15;

/// How long its answer may take, in seconds.
pub const LIVENESS_TIMEOUT_SECS: u64 = 5;

/// Bad answers in a row that mean that the page does not come back by itself.
pub const LIVENESS_MISSES: u32 = 2;

/// Reloads before the shell gives up.
pub const LIVENESS_RELOADS: u32 = 3;

/// What one answer tells of the page.
#[derive(Debug, Clone, Copy, PartialEq, Eq, Structural)]
pub enum PageState {
    /// It draws.
    Drawing,
    /// It answers, and has drawn nothing since it was last asked.
    Frozen,
    /// It does not answer.
    Silent,
}

/// What the shell does about it.
#[derive(Debug, Clone, Copy, PartialEq, Eq, Structural)]
pub enum LivenessAction {
    /// Nothing: it draws.
    Alive,
    /// Nothing: nobody can see the window, and it need not draw.
    Unattended,
    /// Wait for the next answer.
    Wait { misses: u32 },
    /// Someone is typing: wait, as a reload would throw that away.
    Busy { misses: u32 },
    /// Load the page again.
    Reload { attempt: u32 },
    /// Give up, and tell the user.
    Report { attempts: u32 },
}

/// `n` and one more, up to the limit of the type.
pub open spec fn one_more(n: u32) -> u32 {
    if n < u32::MAX {
        (n + 1) as u32
    } else {
        n
    }
}

/// What the shell does about an answer.
pub open spec fn liveness(
    state: PageState,
    attended: bool,
    busy: bool,
    misses: u32,
    reloads: u32,
) -> LivenessAction {
    if state == PageState::Drawing {
        LivenessAction::Alive
    } else if state == PageState::Frozen && !attended {
        LivenessAction::Unattended
    } else if one_more(misses) < LIVENESS_MISSES {
        LivenessAction::Wait { misses: one_more(misses) }
    } else if busy {
        LivenessAction::Busy { misses: one_more(misses) }
    } else if one_more(reloads) > LIVENESS_RELOADS {
        LivenessAction::Report { attempts: reloads }
    } else {
        LivenessAction::Reload { attempt: one_more(reloads) }
    }
}

/// Decides about an answer, with the bad answers and the reloads so far. `attended` tells whether
/// the user can see the window, `busy` whether someone works in the page.
pub fn liveness_action(
    state: PageState,
    attended: bool,
    busy: bool,
    misses: u32,
    reloads: u32,
) -> (r: LivenessAction)
    ensures
        r == liveness(state, attended, busy, misses, reloads),
{
    match state {
        PageState::Drawing => {
            return LivenessAction::Alive;
        },
        PageState::Frozen => {
            if !attended {
                return LivenessAction::Unattended;
            }
        },
        PageState::Silent => {},
    }
    let misses: u32 = misses.saturating_add(1);
    if misses < LIVENESS_MISSES {
        return LivenessAction::Wait { misses };
    }
    if busy {
        return LivenessAction::Busy { misses };
    }
    let attempt: u32 = reloads.saturating_add(1);
    if attempt > LIVENESS_RELOADS {
        return LivenessAction::Report { attempts: reloads };
    }
    LivenessAction::Reload { attempt }
}

/// What a count of frames tells, beside the one before it.
pub open spec fn frames_judged(answer: Option<u64>, previous: Option<u64>) -> PageState {
    match answer {
        None => PageState::Silent,
        Some(_) => if answer == previous {
            PageState::Frozen
        } else {
            PageState::Drawing
        },
    }
}

/// The count of frames that a page answers with, if its answer is one.
pub fn frame_count(answer: &str) -> (r: Option<u64>)
    ensures
        (match r {
            Some(count) => u64_in(trimmed(answer@)) == Some(count as nat),
            None => u64_in(trimmed(answer@)) is None,
        }),
{
    let text = trim_text(answer);
    let chars = chars_of(text.as_str());
    parse_u64(chars.as_slice())
}

/// Judges a count of frames. Any change shows that the page draws; a smaller count is that of a
/// page that was loaded anew.
pub fn judge_frames(answer: Option<u64>, previous: Option<u64>) -> (r: PageState)
    ensures
        r == frames_judged(answer, previous),
{
    match (answer, previous) {
        (None, _) => PageState::Silent,
        (Some(count), Some(before)) => if count == before {
            PageState::Frozen
        } else {
            PageState::Drawing
        },
        (Some(_), None) => PageState::Drawing,
    }
}

/// What a page reports of the work in it.
#[derive(Debug, Clone, Copy, PartialEq, Eq, Structural)]
pub struct Activity {
    /// A field that takes text has the focus.
    pub editing: bool,
    /// Milliseconds since the last input.
    pub idle: u64,
}

/// Does someone work in the page? One that cannot answer is not in use.
pub fn page_is_busy(activity: Option<Activity>) -> (r: bool)
    ensures
        r == (activity matches Some(report) && (report.editing || report.idle
            < LIVENESS_INTERVAL_SECS * 1000)),
{
    match activity {
        Some(report) => report.editing || report.idle < LIVENESS_INTERVAL_SECS * 1000,
        None => false,
    }
}

/// Can the user see the window? What the system does not tell speaks for it.
pub fn attended(visible: Option<bool>, minimized: Option<bool>, focused: Option<bool>) -> (r: bool)
    ensures
        r == (visible != Some(false) && minimized != Some(true) && focused != Some(false)),
{
    let visible = match visible {
        Some(seen) => seen,
        None => true,
    };
    let minimized = match minimized {
        Some(small) => small,
        None => false,
    };
    let focused = match focused {
        Some(front) => front,
        None => true,
    };
    visible && !minimized && focused
}

/// May a watcher act, whose window was made in a generation? Not once the window was made anew.
pub fn may_act(generation: u64, current: u64) -> (r: bool)
    ensures
        r == (generation == current),
{
    generation == current
}

/// The title of a healthy window.
pub const DEFAULT_TITLE: &'static str = "DeepSeek Harness";

/// Is the title the plain one? One that cannot be read is taken for it.
pub fn title_is_default(title: Option<&str>) -> (r: bool)
    ensures
        r == (title matches Some(text) ==> text@ == DEFAULT_TITLE@),
{
    match title {
        Some(text) => text_eq(text, DEFAULT_TITLE),
        None => true,
    }
}

/// What the watch over the page does after one answer.
#[derive(Debug, Clone, PartialEq, Eq)]
pub struct WatchStep {
    pub log: Option<String>,
    pub title: Option<String>,
    /// Load the page again.
    pub reload: bool,
    /// The watch is over.
    pub end: bool,
}

/// The watch over the page: the bad answers and reloads so far, and the last count of frames.
#[derive(Debug, Clone, Copy, PartialEq, Eq, Structural)]
pub struct Watch {
    pub misses: u32,
    pub reloads: u32,
    pub frames: Option<u64>,
}

/// What is wrong with the page, in words.
pub open spec fn fault(state: PageState) -> Seq<char> {
    if state == PageState::Frozen {
        "停止绘制"@
    } else {
        "无响应"@
    }
}

fn fault_text(state: PageState) -> (r: &'static str)
    ensures
        r@ == fault(state),
{
    match state {
        PageState::Frozen => "停止绘制",
        _ => "无响应",
    }
}

/// The line for the log, where there is something new to say.
pub open spec fn watch_log(
    watch: Watch,
    state: PageState,
    action: LivenessAction,
    url: Seq<char>,
) -> Option<Seq<char>> {
    match action {
        LivenessAction::Alive => if watch.misses > 0 || watch.reloads > 0 {
            Some(
                "WebView 页面恢复绘制（此前 "@ + decimal(watch.misses as nat) + " 次未通过检查、"@ + decimal(
                    watch.reloads as nat,
                ) + " 次重载）"@,
            )
        } else {
            None
        },
        LivenessAction::Unattended => if watch.misses == 0 && watch.reloads == 0 {
            Some("窗口不在前台，WebKit 可能已停止绘制，本轮不判定"@)
        } else {
            None
        },
        LivenessAction::Wait { misses } => if misses == 1 {
            Some(
                if state == PageState::Frozen {
                    "Harness 页面停止绘制（输入仍有响应），继续观察"@
                } else {
                    "Harness 页面没有响应存活检查，继续观察"@
                },
            )
        } else {
            None
        },
        LivenessAction::Busy { .. } => Some(
            "Harness 页面仍未恢复（"@ + fault(state)
                + "），但检测到正在输入：推迟重新加载，避免丢失未提交的内容"@,
        ),
        LivenessAction::Reload { attempt } => Some(
            "Harness 页面连续 "@ + decimal(LIVENESS_MISSES as nat) + " 次未通过存活检查（"@ + fault(state)
                + "），第 "@ + decimal(attempt as nat) + "/"@ + decimal(LIVENESS_RELOADS as nat)
                + " 次重新加载 "@ + url,
        ),
        LivenessAction::Report { attempts } => Some(
            "Harness 页面在 "@ + decimal(attempts as nat) + " 次重新加载后仍未恢复，交给用户处理"@,
        ),
    }
}

/// The title that tells the user, where there is something to tell.
pub open spec fn watch_title(action: LivenessAction) -> Option<Seq<char>> {
    match action {
        LivenessAction::Busy { .. } => Some("DeepSeek Harness（页面已停止刷新，等待输入结束…）"@),
        LivenessAction::Reload { .. } => Some("DeepSeek Harness（页面已停止刷新，正在重新加载…）"@),
        LivenessAction::Report { .. } => Some("DeepSeek Harness（页面已停止刷新，请重启应用）"@),
        _ => None,
    }
}

/// The watch after an answer and what was done about it. A page that is loaded anew counts its
/// frames anew.
pub open spec fn watched_on(watch: Watch, answer: Option<u64>, action: LivenessAction) -> Watch {
    let frames = if answer is Some {
        answer
    } else {
        watch.frames
    };
    match action {
        LivenessAction::Alive => Watch { misses: 0, reloads: 0, frames },
        LivenessAction::Unattended => Watch { frames, ..watch },
        LivenessAction::Wait { misses } => Watch { misses, frames, ..watch },
        LivenessAction::Busy { misses } => Watch { misses, frames, ..watch },
        LivenessAction::Reload { attempt } => Watch { misses: 0, reloads: attempt, frames: None },
        LivenessAction::Report { .. } => Watch { frames, ..watch },
    }
}

impl Watch {
    pub fn new() -> (r: Watch)
        ensures
            r == (Watch { misses: 0, reloads: 0, frames: None }),
    {
        Watch { misses: 0, reloads: 0, frames: None }
    }

    /// Is it worth asking whether someone works in the page? Not where it draws.
    pub fn asks_activity(&self, answer: Option<u64>) -> (r: bool)
        ensures
            r == (frames_judged(answer, self.frames) != PageState::Drawing),
    {
        match judge_frames(answer, self.frames) {
            PageState::Drawing => false,
            _ => true,
        }
    }

    /// Takes one answer of the page, and tells what to do.
    pub fn step(&mut self, answer: Option<u64>, attended: bool, busy: bool, url: &str) -> (r:
        WatchStep)
        ensures
            ({
                let state = frames_judged(answer, old(self).frames);
                let action = liveness(
                    state,
                    attended,
                    busy,
                    old(self).misses,
                    old(self).reloads,
                );
                &&& *final(self) == watched_on(*old(self), answer, action)
                &&& opt_view(r.log) == watch_log(*old(self), state, action, url@)
                &&& opt_view(r.title) == watch_title(action)
                &&& r.reload == (action is Reload)
                &&& r.end == (action is Report)
            }),
    {
        let state = judge_frames(answer, self.frames);
        let action = liveness_action(state, attended, busy, self.misses, self.reloads);
        if answer.is_some() {
            self.frames = answer;
        }
        match action {
            LivenessAction::Alive => {
                let log = if self.misses > 0 || self.reloads > 0 {
                    Some(
                        glue5(
                            "WebView 页面恢复绘制（此前 ",
                            decimal_text(self.misses as u64).as_str(),
                            " 次未通过检查、",
                            decimal_text(self.reloads as u64).as_str(),
                            " 次重载）",
                        ),
                    )
                } else {
                    None
                };
                self.misses = 0;
                self.reloads = 0;
                WatchStep { log, title: None, reload: false, end: false }
            },
            LivenessAction::Unattended => {
                let log = if self.misses == 0 && self.reloads == 0 {
                    Some("窗口不在前台，WebKit 可能已停止绘制，本轮不判定".to_owned())
                } else {
                    None
                };
                WatchStep { log, title: None, reload: false, end: false }
            },
            LivenessAction::Wait { misses } => {
                self.misses = misses;
                let log = if misses == 1 {
                    Some(
                        match state {
                            PageState::Frozen => "Harness 页面停止绘制（输入仍有响应），继续观察".to_owned(),
                            _ => "Harness 页面没有响应存活检查，继续观察".to_owned(),
                        },
                    )
                } else {
                    None
                };
                WatchStep { log, title: None, reload: false, end: false }
            },
            LivenessAction::Busy { misses } => {
                self.misses = misses;
                let log = glue3(
                    "Harness 页面仍未恢复（",
                    fault_text(state),
                    "），但检测到正在输入：推迟重新加载，避免丢失未提交的内容",
                );
                WatchStep {
                    log: Some(log),
                    title: Some("DeepSeek Harness（页面已停止刷新，等待输入结束…）".to_owned()),
                    reload: false,
                    end: false,
                }
            },
            LivenessAction::Reload { attempt } => {
                self.misses = 0;
                self.reloads = attempt;
                self.frames = None;
                let mut log = glue5(
                    "Harness 页面连续 ",
                    decimal_text(LIVENESS_MISSES as u64).as_str(),
                    " 次未通过存活检查（",
                    fault_text(state),
                    "），第 ",
                );
                log.append(decimal_text(attempt as u64).as_str());
                log.append("/");
                log.append(decimal_text(LIVENESS_RELOADS as u64).as_str());
                log.append(" 次重新加载 ");
                log.append(url);
                WatchStep {
                    log: Some(log),
                    title: Some("DeepSeek Harness（页面已停止刷新，正在重新加载…）".to_owned()),
                    reload: true,
                    end: false,
                }
            },
            LivenessAction::Report { attempts } => {
                let log = glue3(
                    "Harness 页面在 ",
                    decimal_text(attempts as u64).as_str(),
                    " 次重新加载后仍未恢复，交给用户处理",
                );
                WatchStep {
                    log: Some(log),
                    title: Some("DeepSeek Harness（页面已停止刷新，请重启应用）".to_owned()),
                    reload: false,
                    end: true,
                }
            },
        }
    }
}

/// A page is reloaded only after enough bad answers in a row, within the budget, and never while
/// it draws, while nobody can see that it does not, or while someone types in it.
pub proof fn a_reload_is_a_last_resort(
    state: PageState,
    attended: bool,
    busy: bool,
    misses: u32,
    reloads: u32,
    attempt: u32,
)
    requires
        liveness(state, attended, busy, misses, reloads) == (LivenessAction::Reload { attempt }),
    ensures
        state != PageState::Drawing,
        state == PageState::Frozen ==> attended,
        !busy,
        misses + 1 >= LIVENESS_MISSES,
        attempt == reloads + 1,
        attempt <= LIVENESS_RELOADS,
{
}

/// The answers that a page gives, with what was known beside each.
pub struct Answer {
    pub frames: Option<u64>,
    pub attended: bool,
    pub busy: bool,
}

/// The watch after a number of answers.
pub open spec fn watch_after(watch: Watch, answers: Seq<Answer>) -> Watch
    decreases answers.len(),
{
    if answers.len() == 0 {
        watch
    } else {
        let before = watch_after(watch, answers.drop_last());
        let last = answers.last();
        let action = liveness(
            frames_judged(last.frames, before.frames),
            last.attended,
            last.busy,
            before.misses,
            before.reloads,
        );
        watched_on(before, last.frames, action)
    }
}

/// However a page answers, the reloads since it last drew stay within the budget.
pub proof fn reloads_stay_within_their_budget(answers: Seq<Answer>)
    ensures
        watch_after(Watch { misses: 0, reloads: 0, frames: None }, answers).reloads
            <= LIVENESS_RELOADS,
    decreases answers.len(),
{
    if answers.len() > 0 {
        reloads_stay_within_their_budget(answers.drop_last());
    }
}

// ---------------------------------------------------------------------------------------------
// A page that does not load
// ---------------------------------------------------------------------------------------------

/// How long the first load may take, in seconds.
pub const LOAD_TIMEOUT_SECS: u64 = 20;

/// How often the startup URL is loaded, the first time included.
pub const LOAD_ATTEMPTS: u32 = 3;

/// What to do about a page that did not load in time.
#[derive(Debug, Clone, Copy, PartialEq, Eq, Structural)]
pub enum LoadOutcome {
    /// Leave it: the window is gone, or a load has begun.
    Settled,
    /// The load never began: start it again.
    Retry,
    /// Nothing serves the port either: tell the user.
    Report,
}

/// What to do about a page that did not load in time.
pub open spec fn load_judged(
    attempt: u32,
    attempts: u32,
    window_alive: bool,
    started: bool,
    port_serving: bool,
) -> LoadOutcome {
    if !window_alive || started {
        LoadOutcome::Settled
    } else if attempt < attempts {
        LoadOutcome::Retry
    } else if port_serving {
        LoadOutcome::Settled
    } else {
        LoadOutcome::Report
    }
}

/// Decides about a page that did not load in time. A load that began is not interrupted, and a
/// port that is served is never a failure.
pub fn load_outcome(
    attempt: u32,
    attempts: u32,
    window_alive: bool,
    started: bool,
    port_serving: bool,
) -> (r: LoadOutcome)
    ensures
        r == load_judged(attempt, attempts, window_alive, started, port_serving),
{
    if !window_alive || started {
        return LoadOutcome::Settled;
    }
    if attempt < attempts {
        return LoadOutcome::Retry;
    }
    if port_serving {
        LoadOutcome::Settled
    } else {
        LoadOutcome::Report
    }
}

/// What the watch over the first load does.
#[derive(Debug, Clone, PartialEq, Eq)]
pub enum LoadStep {
    /// It is over, with a line for the log where the window is still there.
    End { log: Option<String> },
    /// Load the URL again, and wait that long.
    Again { log: String, pause_ms: u64 },
    /// Tell the user.
    Fail { log: String, status: String, detail: String },
}

/// Decides about the first load, which has not finished in time.
pub fn watch_first_load(
    attempt: u32,
    window_alive: bool,
    started: bool,
    serving: bool,
    url: &str,
    port: u16,
) -> (r: LoadStep)
    requires
        attempt < u32::MAX,
    ensures
        (match load_judged(attempt, LOAD_ATTEMPTS, window_alive, started, serving) {
            LoadOutcome::Settled => r matches LoadStep::End { log } && opt_view(log) == (
            if window_alive {
                Some(
                    "page load did not finish within "@ + decimal(LOAD_TIMEOUT_SECS as nat)
                        + "s (started="@ + truth(started) + ", port "@ + decimal(port as nat)
                        + " serving="@ + truth(serving) + "); leaving the window alone"@,
                )
            } else {
                None
            }),
            LoadOutcome::Retry => {
                &&& r matches LoadStep::Again { log, pause_ms }
                &&& log@ == "navigation never started, retrying "@ + url@ + " (attempt "@ + decimal(
                    (attempt + 1) as nat,
                ) + "/"@ + decimal(LOAD_ATTEMPTS as nat) + ")"@
                &&& pause_ms == 500 * attempt
            },
            LoadOutcome::Report => {
                &&& r matches LoadStep::Fail { log, status, detail }
                &&& log@ == "navigation never started and port "@ + decimal(port as nat)
                    + " stopped serving after "@ + decimal(LOAD_ATTEMPTS as nat) + " attempts: "@
                    + url@
                &&& status@ == "Harness 页面加载失败"@
                &&& detail@ == "窗口连续 "@ + decimal(LOAD_ATTEMPTS as nat) + " 次都没有加载出 "@ + url@
                    + "，端口 "@ + decimal(port as nat)
                    + " 也没有在提供服务。\n\n关闭本窗口即退出应用；重新启动会重新拉起 Harness 并换一个新的启动 URL。"@
            },
        }),
{
    match load_outcome(attempt, LOAD_ATTEMPTS, window_alive, started, serving) {
        LoadOutcome::Settled => {
            if !window_alive {
                return LoadStep::End { log: None };
            }
            let mut log = glue5(
                "page load did not finish within ",
                decimal_text(LOAD_TIMEOUT_SECS).as_str(),
                "s (started=",
                truth_text(started),
                ", port ",
            );
            log.append(decimal_text(port as u64).as_str());
            log.append(" serving=");
            log.append(truth_text(serving));
            log.append("); leaving the window alone");
            LoadStep::End { log: Some(log) }
        },
        LoadOutcome::Retry => {
            let mut log = glue5(
                "navigation never started, retrying ",
                url,
                " (attempt ",
                decimal_text((attempt + 1) as u64).as_str(),
                "/",
            );
            log.append(decimal_text(LOAD_ATTEMPTS as u64).as_str());
            log.append(")");
            LoadStep::Again { log, pause_ms: 500 * attempt as u64 }
        },
        LoadOutcome::Report => {
            let mut log = glue5(
                "navigation never started and port ",
                decimal_text(port as u64).as_str(),
                " stopped serving after ",
                decimal_text(LOAD_ATTEMPTS as u64).as_str(),
                " attempts: ",
            );
            log.append(url);
            let mut detail = glue5(
                "窗口连续 ",
                decimal_text(LOAD_ATTEMPTS as u64).as_str(),
                " 次都没有加载出 ",
                url,
                "，端口 ",
            );
            detail.append(decimal_text(port as u64).as_str());
            detail.append(
                " 也没有在提供服务。\n\n关闭本窗口即退出应用；重新启动会重新拉起 Harness 并换一个新的启动 URL。",
            );
            LoadStep::Fail { log, status: "Harness 页面加载失败".to_owned(), detail }
        },
    }
}

/// A load is not watched for ever, and one that began, or whose port is served, is never reported
/// as failed.
pub proof fn a_live_page_is_never_a_failure(
    attempt: u32,
    attempts: u32,
    window_alive: bool,
    started: bool,
    port_serving: bool,
)
    ensures
        started || port_serving || !window_alive ==> load_judged(
            attempt,
            attempts,
            window_alive,
            started,
            port_serving,
        ) != LoadOutcome::Report,
        started ==> load_judged(attempt, attempts, window_alive, started, port_serving)
            == LoadOutcome::Settled,
        attempt >= attempts ==> load_judged(attempt, attempts, window_alive, started, port_serving)
            != LoadOutcome::Retry,
{
}

// ---------------------------------------------------------------------------------------------
// Where a page may go
// ---------------------------------------------------------------------------------------------

/// Does the page stay on its own server?
pub fn same_origin(target: &WebUrl, port: u16) -> (r: bool)
    ensures
        r == (target@.scheme == "http"@ && target@.host == Some("127.0.0.1"@) && target@.port
            == Some(port)),
{
    let served = match target.port {
        Some(number) => number == port,
        None => false,
    };
    text_eq(target.scheme.as_str(), "http") && opt_is(&target.host, "127.0.0.1") && served
}

/// Is this a scheme of the web?
pub open spec fn is_web(scheme: Seq<char>) -> bool {
    scheme == "http"@ || scheme == "https"@
}

/// May the system be handed this URL? Only the schemes of the web: others start programs.
pub fn may_open(target: &WebUrl) -> (r: bool)
    ensures
        r == is_web(target@.scheme),
{
    text_eq(target.scheme.as_str(), "http") || text_eq(target.scheme.as_str(), "https")
}

/// What becomes of a link that leaves the shell.
#[derive(Debug, Clone, PartialEq, Eq)]
pub enum External {
    /// Hand it to the system.
    Open { url: String },
    /// Drop it, with a line for the log.
    Drop { log: String },
}

/// Is this what becomes of the link?
pub open spec fn link_judged(
    parsed: Result<UrlModel, Seq<char>>,
    target: Seq<char>,
    r: External,
) -> bool {
    match parsed {
        Ok(url) => if is_web(url.scheme) {
            r matches External::Open { url: text } && text@ == url.text
        } else {
            r matches External::Drop { log } && log@ == "external scheme blocked: "@ + url.scheme
                + " ("@ + target + ")"@
        },
        Err(error) => r matches External::Drop { log } && log@ == "external link dropped ("@ + error
            + "): "@ + target,
    }
}

/// Decides about a link, from what reading it as a URL gave.
pub fn judge_link(parsed: Result<WebUrl, String>, target: &str) -> (r: External)
    ensures
        link_judged(url_result(parsed), target@, r),
{
    match parsed {
        Ok(url) => if may_open(&url) {
            External::Open { url: url.text }
        } else {
            External::Drop {
                log: glue5(
                    "external scheme blocked: ",
                    url.scheme.as_str(),
                    " (",
                    target,
                    ")",
                ),
            }
        },
        Err(error) => External::Drop {
            log: glue4("external link dropped (", error.as_str(), "): ", target),
        },
    }
}

/// Decides whether a link is handed to the system browser.
pub fn open_external(target: &str) -> (r: External)
    ensures
        link_judged(url_parsed(target@), target@, r),
{
    judge_link(parse_url(target), target)
}

/// Nothing but a link of the web is handed to the system.
pub proof fn only_the_web_leaves_the_shell(
    parsed: Result<UrlModel, Seq<char>>,
    target: Seq<char>,
    r: External,
)
    requires
        link_judged(parsed, target, r),
        r is Open,
    ensures
        parsed matches Ok(url) && is_web(url.scheme),
{
}

/// The URL to load again, and a line for the log where the window could not tell its own: then
/// it is the root of the loopback address.
pub fn current_url(shown: Result<WebUrl, String>) -> (r: (String, Option<String>))
    ensures
        (match url_result(shown) {
            Ok(url) => if url.scheme == "http"@ {
                r.0@ == url.text && r.1 is None
            } else {
                r.0@ == "http://127.0.0.1/"@ && opt_view(r.1) == Some(
                    "窗口当前地址不是 http（"@ + url.text + "），回到根路径"@,
                )
            },
            Err(error) => r.0@ == "http://127.0.0.1/"@ && opt_view(r.1) == Some(
                "读取窗口地址失败（"@ + error + "），回到根路径"@,
            ),
        }),
{
    match shown {
        Ok(url) => if text_eq(url.scheme.as_str(), "http") {
            (url.text, None)
        } else {
            (
                "http://127.0.0.1/".to_owned(),
                Some(glue3("窗口当前地址不是 http（", url.text.as_str(), "），回到根路径")),
            )
        },
        Err(error) => (
            "http://127.0.0.1/".to_owned(),
            Some(glue3("读取窗口地址失败（", error.as_str(), "），回到根路径")),
        ),
    }
}

/// What is done when the process that renders a page is gone.
#[derive(Debug, Clone, PartialEq, Eq)]
pub enum Recovery {
    /// Nothing but the lines for the log.
    Ignore { log: Vec<String> },
    /// The line goes to the log, and the page is loaded again under the title.
    Reload { log: String, title: String },
}

/// Decides what to do when the process that renders a page is gone: only the Harness page is put
/// back.
pub fn recover_terminated_webview(label: &str, window_there: bool) -> (r: Recovery)
    ensures
        (if label@ != HARNESS@ {
            r matches Recovery::Ignore { log } && texts(log@) == seq![
                "WebView 渲染进程结束（"@ + label@ + "）：不是 harness 窗口，忽略"@,
            ]
        } else if !window_there {
            r matches Recovery::Ignore { log } && texts(log@) == seq![
                "WebView 渲染进程被系统结束（多为内存压力），正在重新加载页面"@,
                "崩溃恢复：harness 窗口已不在，交给存活检查处理"@,
            ]
        } else {
            r matches Recovery::Reload { log, title } && log@
                == "WebView 渲染进程被系统结束（多为内存压力），正在重新加载页面"@ && title@
                == "DeepSeek Harness（页面已崩溃，正在重新加载…）"@
        }),
{
    let mut log: Vec<String> = Vec::new();
    if !text_eq(label, HARNESS) {
        log.push(glue3("WebView 渲染进程结束（", label, "）：不是 harness 窗口，忽略"));
        proof {
            assert(texts(log@) =~= seq![
                "WebView 渲染进程结束（"@ + label@ + "）：不是 harness 窗口，忽略"@,
            ]);
        }
        return Recovery::Ignore { log };
    }
    let ended = "WebView 渲染进程被系统结束（多为内存压力），正在重新加载页面".to_owned();
    if !window_there {
        log.push(ended);
        log.push("崩溃恢复：harness 窗口已不在，交给存活检查处理".to_owned());
        proof {
            assert(texts(log@) =~= seq![
                "WebView 渲染进程被系统结束（多为内存压力），正在重新加载页面"@,
                "崩溃恢复：harness 窗口已不在，交给存活检查处理"@,
            ]);
        }
        return Recovery::Ignore { log };
    }
    Recovery::Reload {
        log: ended,
        title: "DeepSeek Harness（页面已崩溃，正在重新加载…）".to_owned(),
    }
}

// ---------------------------------------------------------------------------------------------
// Downloads
// ---------------------------------------------------------------------------------------------

/// Where downloads go: below the home directory, or the current one.
pub fn downloads_dir(home: Option<&str>, windows: bool) -> (r: String)
    ensures
        r@ == path_joined(
            match home {
                Some(dir) => dir@,
                None => "."@,
            },
            "Downloads"@,
            windows,
        ),
{
    match home {
        Some(dir) => path_join(dir, "Downloads", windows),
        None => path_join(".", "Downloads", windows),
    }
}

/// The file name that a page suggests.
pub fn file_name_of(suggested: &str, windows: bool) -> (r: String)
    ensures
        r@ == (match file_name_in(suggested@, windows) {
            Some(name) => name,
            None => "dsh-download"@,
        }),
{
    match file_name(suggested, windows) {
        Some(name) => name,
        None => "dsh-download".to_owned(),
    }
}

/// The part of a name before its extension.
pub open spec fn stem_in(name: Seq<char>, windows: bool) -> Seq<char> {
    match file_name_in(name, windows) {
        Some(file) => file.subrange(0, dot_in(file)),
        None => "dsh-download"@,
    }
}

/// The extension of a name with its dot; nothing where it has none.
pub open spec fn suffix_in(name: Seq<char>, windows: bool) -> Seq<char> {
    match file_name_in(name, windows) {
        Some(file) => file.subrange(dot_in(file), file.len() as int),
        None => Seq::empty(),
    }
}

/// The name that is tried at a place in the search: the name itself, then with a number before
/// its extension.
pub open spec fn numbered(name: Seq<char>, index: nat, windows: bool) -> Seq<char> {
    if index == 0 {
        name
    } else {
        stem_in(name, windows) + "-"@ + decimal(index) + suffix_in(name, windows)
    }
}

/// The path that is tried at a place in the search.
pub fn download_candidate(dir: &str, name: &str, index: u64, windows: bool) -> (r: String)
    ensures
        r@ == path_joined(dir@, numbered(name@, index as nat, windows), windows),
{
    if index == 0 {
        return path_join(dir, name, windows);
    }
    let (stem, suffix) = match file_name(name, windows) {
        Some(file) => {
            let chars = chars_of(file.as_str());
            let dot: usize = dot_of(&chars);
            (
                string_of(&piece(&chars, 0, dot)),
                string_of(&piece(&chars, dot, chars.len())),
            )
        },
        None => ("dsh-download".to_owned(), String::new()),
    };
    let file = glue4(
        stem.as_str(),
        "-",
        decimal_text(index).as_str(),
        suffix.as_str(),
    );
    path_join(dir, file.as_str(), windows)
}

/// The first place that is free.
pub open spec fn first_free(taken: Seq<bool>) -> Option<nat>
    decreases taken.len(),
{
    if taken.len() == 0 {
        None
    } else {
        match first_free(taken.drop_last()) {
            Some(at) => Some(at),
            None => if taken.last() {
                None
            } else {
                Some((taken.len() - 1) as nat)
            },
        }
    }
}

/// The path for a download, which never overwrites a file. `taken` tells of the candidates, in
/// order, whether they are there; where all of them are, more have to be looked at.
pub fn unique_download_path(dir: &str, name: &str, taken: &[bool], windows: bool) -> (r: Option<
    String,
>)
    ensures
        opt_view(r) == (match first_free(taken@) {
            Some(at) => Some(path_joined(dir@, numbered(name@, at, windows), windows)),
            None => None,
        }),
{
    let mut i: usize = 0;
    proof {
        assert(taken@.take(0) =~= Seq::<bool>::empty());
    }
    while i < taken.len()
        invariant
            i <= taken@.len(),
            first_free(taken@.take(i as int)) is None,
        decreases taken@.len() - i,
    {
        proof {
            let next = taken@.take(i + 1);
            assert(next.drop_last() =~= taken@.take(i as int));
            assert(next.last() == taken@[i as int]);
        }
        if !taken[i] {
            proof {
                lemma_first_free_stays(taken@, i + 1);
            }
            return Some(download_candidate(dir, name, i as u64, windows));
        }
        i += 1;
    }
    proof {
        assert(taken@.take(taken@.len() as int) =~= taken@);
    }
    None
}

proof fn lemma_first_free_stays(taken: Seq<bool>, n: int)
    requires
        0 <= n <= taken.len(),
        first_free(taken.take(n)) is Some,
    ensures
        first_free(taken) == first_free(taken.take(n)),
    decreases taken.len() - n,
{
    if n < taken.len() {
        let next = taken.take(n + 1);
        assert(next.drop_last() =~= taken.take(n));
        lemma_first_free_stays(taken, n + 1);
    } else {
        assert(taken.take(n) =~= taken);
    }
}

/// A download never takes the place of a file: the candidate that is chosen is free.
pub proof fn a_download_takes_a_free_name(taken: Seq<bool>)
    ensures
        first_free(taken) matches Some(at) ==> at < taken.len() && !taken[at as int] && forall|
            i: int,
        |
            0 <= i < at ==> #[trigger] taken[i],
        first_free(taken) is None ==> forall|i: int| 0 <= i < taken.len() ==> #[trigger] taken[i],
    decreases taken.len(),
{
    if taken.len() > 0 {
        let rest = taken.drop_last();
        a_download_takes_a_free_name(rest);
        assert forall|i: int| 0 <= i < rest.len() implies rest[i] == taken[i] by {
        }
        match first_free(rest) {
            Some(at) => {
                assert forall|i: int| 0 <= i < at implies #[trigger] taken[i] by {
                    assert(rest[i]);
                }
            },
            None => {
                assert forall|i: int| 0 <= i < rest.len() implies #[trigger] taken[i] by {
                    assert(rest[i]);
                }
            },
        }
    }
}

/// No two candidates have the same name, so that the search ends in a directory of any size.
pub proof fn candidates_differ(name: Seq<char>, i: nat, j: nat, windows: bool)
    requires
        file_name_in(name, windows) == Some(name),
        i < j,
    ensures
        numbered(name, i, windows) != numbered(name, j, windows),
{
    reveal_strlit("-");
    let stem = stem_in(name, windows);
    let suffix = suffix_in(name, windows);
    lemma_dot_inside(name, name.len() as int);
    let a = numbered(name, i, windows);
    let b = numbered(name, j, windows);
    if i == 0 {
        assert(b.len() == stem.len() + 1 + decimal(j).len() + suffix.len());
        assert(stem.len() + suffix.len() == name.len());
    } else if a == b {
        crate::number::decimal_reads_back(i);
        crate::number::decimal_reads_back(j);
        let n = stem.len() as int + 1;
        assert(a.len() == stem.len() + 1 + decimal(i).len() + suffix.len());
        assert(b.len() == stem.len() + 1 + decimal(j).len() + suffix.len());
        assert(a.subrange(n, n + decimal(i).len()) =~= decimal(i));
        assert(b.subrange(n, n + decimal(j).len()) =~= decimal(j));
    }
}

proof fn lemma_dot_inside(name: Seq<char>, n: int)
    requires
        n <= name.len(),
    ensures
        0 <= crate::paths::dot_before(name, n) <= name.len(),
    decreases n,
{
    if n > 1 && name[n - 1] != '.' {
        lemma_dot_inside(name, n - 1);
    }
}

/// A page that draws is left alone, and so is one that nobody can see and that answers. A first
/// bad answer is waited out; from the second on the page is loaded again, unless someone works in
/// it, and after the third time in a row the user is told.
pub proof fn what_a_bad_answer_leads_to(
    state: PageState,
    attended: bool,
    busy: bool,
    misses: u32,
    reloads: u32,
)
    requires
        misses < u32::MAX,
    ensures
        liveness(PageState::Drawing, attended, busy, misses, reloads) == LivenessAction::Alive,
        liveness(PageState::Frozen, false, busy, misses, reloads) == LivenessAction::Unattended,
        state == PageState::Silent || state == PageState::Frozen && attended ==> {
            let action = liveness(state, attended, busy, misses, reloads);
            &&& misses == 0 ==> action == (LivenessAction::Wait { misses: 1 })
            &&& misses >= 1 && busy ==> action == (LivenessAction::Busy {
                misses: (misses + 1) as u32,
            })
            &&& misses >= 1 && !busy && reloads < 3 ==> action == (LivenessAction::Reload {
                attempt: (reloads + 1) as u32,
            })
            &&& misses >= 1 && !busy && reloads >= 3 ==> action == (LivenessAction::Report {
                attempts: reloads,
            })
        },
{
}

/// A page that does not answer is silent; one that counts on, or begins anew, draws; and one that
/// still names the same count is frozen.
pub proof fn what_a_count_tells(count: u64, before: u64, previous: Option<u64>)
    ensures
        frames_judged(None, previous) == PageState::Silent,
        frames_judged(Some(count), None) == PageState::Drawing,
        count == before ==> frames_judged(Some(count), Some(before)) == PageState::Frozen,
        count != before ==> frames_judged(Some(count), Some(before)) == PageState::Drawing,
{
}

/// The last count that the page named is what the next is compared with, but for a page that was
/// loaded again, whose first count is always new; and drawing once ends all counting of faults.
pub proof fn the_watch_compares_with_the_last_count(
    watch: Watch,
    answer: Option<u64>,
    attended: bool,
    busy: bool,
    next: u64,
)
    ensures
        ({
            let state = frames_judged(answer, watch.frames);
            let action = liveness(state, attended, busy, watch.misses, watch.reloads);
            let after = watched_on(watch, answer, action);
            &&& action is Reload ==> frames_judged(Some(next), after.frames) == PageState::Drawing
                && after.misses == 0 && after.reloads == one_more(watch.reloads)
            &&& action !is Reload && answer is Some ==> after.frames == answer
            &&& action !is Reload && answer is None ==> after.frames == watch.frames
            &&& state == PageState::Drawing ==> after.misses == 0 && after.reloads == 0
            &&& action is Wait || action is Busy ==> after.misses == one_more(watch.misses)
                && after.reloads == watch.reloads
            &&& action is Unattended ==> after.misses == watch.misses && after.reloads
                == watch.reloads
        }),
{
}

/// A load that did not begin is tried again as often as is allowed, and then reported where
/// nothing serves the port; one that began, or whose window is gone, is left alone.
pub proof fn what_a_late_load_leads_to(attempt: u32, attempts: u32, port_serving: bool)
    ensures
        attempt < attempts ==> load_judged(attempt, attempts, true, false, port_serving)
            == LoadOutcome::Retry,
        attempt >= attempts ==> load_judged(attempt, attempts, true, false, false)
            == LoadOutcome::Report,
        attempt >= attempts ==> load_judged(attempt, attempts, true, false, true)
            == LoadOutcome::Settled,
        load_judged(attempt, attempts, true, true, port_serving) == LoadOutcome::Settled,
        load_judged(attempt, attempts, false, false, port_serving) == LoadOutcome::Settled,
{
}

/// A link of the web is handed over as the URL that it was read as; any other, and what is no URL,
/// is dropped.
pub proof fn a_web_link_is_opened(url: UrlModel, error: Seq<char>, target: Seq<char>, r: External)
    ensures
        (url.scheme == "http"@ || url.scheme == "https"@) && link_judged(Ok(url), target, r) ==> (
        r matches External::Open { url: text } && text@ == url.text),
        url.scheme != "http"@ && url.scheme != "https"@ && link_judged(Ok(url), target, r)
            ==> r is Drop,
        link_judged(Err(error), target, r) ==> r is Drop,
{
}

/// The number of a further candidate stands in front of the last dot of the name, and behind the
/// name where there is none but at its start.
pub proof fn where_the_number_stands(
    stem: Seq<char>,
    extension: Seq<char>,
    index: nat,
    windows: bool,
)
    requires
        stem.len() > 0,
        index > 0,
        forall|i: int| 0 <= i < extension.len() ==> extension[i] != '.',
    ensures
        file_name_in(stem + seq!['.'] + extension, windows) == Some(stem + seq!['.'] + extension)
            ==> numbered(stem + seq!['.'] + extension, index, windows) == stem + seq!['-']
            + decimal(index) + seq!['.'] + extension,
        file_name_in(stem, windows) == Some(stem) && (forall|i: int|
            1 <= i < stem.len() ==> stem[i] != '.') ==> numbered(stem, index, windows) == stem
            + seq!['-'] + decimal(index),
        numbered(stem, 0, windows) == stem,
{
    reveal_strlit("-");
    assert("-"@ =~= seq!['-']);
    let name = stem + seq!['.'] + extension;
    crate::paths::where_an_extension_begins(stem, extension);
    assert(name.subrange(0, stem.len() as int) =~= stem);
    assert(name.subrange(stem.len() as int, name.len() as int) =~= seq!['.'] + extension);
    assert(stem + "-"@ + decimal(index) + (seq!['.'] + extension) =~= stem + seq!['-'] + decimal(
        index,
    ) + seq!['.'] + extension);
    if forall|i: int| 1 <= i < stem.len() ==> stem[i] != '.' {
        assert(stem.subrange(0, stem.len() as int) =~= stem);
        assert(stem.subrange(stem.len() as int, stem.len() as int) =~= Seq::<char>::empty());
        assert(stem + "-"@ + decimal(index) + Seq::<char>::empty() =~= stem + seq!['-'] + decimal(
            index,
        ));
    }
}

/// The buttons are written as a list: each as an object of its id and its label, with a comma
/// before all but the first.
pub proof fn how_buttons_are_written(
    all: Seq<(Seq<char>, Seq<char>)>,
    id: Seq<char>,
    label: Seq<char>,
)
    ensures
        buttons_json(Seq::empty()) == Seq::<char>::empty(),
        all.len() == 0 ==> buttons_json(all.push((id, label))) == "{\"id\":"@ + json_quoted(id)
            + ",\"label\":"@ + json_quoted(label) + "}"@,
        all.len() > 0 ==> buttons_json(all.push((id, label))) == buttons_json(all) + ","@
            + ("{\"id\":"@ + json_quoted(id) + ",\"label\":"@ + json_quoted(label) + "}"@),
{
    assert(all.push((id, label)).drop_last() =~= all);
}

/// What the watch over a page writes down: that the page is alive only where it was not before,
/// the first missed check and none of those that follow, and each reload with its number and the
/// address. The title speaks of the page exactly where something is done about it.
pub proof fn what_the_watch_says(
    watch: Watch,
    state: PageState,
    url: Seq<char>,
    misses: u32,
    attempt: u32,
)
    ensures
        watch_log(watch, state, LivenessAction::Alive, url) is Some <==> watch.misses > 0
            || watch.reloads > 0,
        watch_log(watch, state, LivenessAction::Unattended, url) is Some <==> watch.misses == 0
            && watch.reloads == 0,
        watch_log(watch, state, LivenessAction::Wait { misses }, url) is Some <==> misses == 1,
        watch_log(watch, state, LivenessAction::Reload { attempt }, url) is Some,
        crate::text::mentions(
            watch_log(watch, state, LivenessAction::Reload { attempt }, url)->0,
            url,
        ),
        crate::text::mentions(
            watch_log(watch, state, LivenessAction::Reload { attempt }, url)->0,
            decimal(attempt as nat),
        ),
        crate::text::mentions(
            watch_log(watch, state, LivenessAction::Report { attempts: attempt }, url)->0,
            decimal(attempt as nat),
        ),
        watch_title(LivenessAction::Alive) is None,
        watch_title(LivenessAction::Unattended) is None,
        watch_title(LivenessAction::Wait { misses }) is None,
        watch_title(LivenessAction::Reload { attempt }) is Some,
        watch_title(LivenessAction::Report { attempts: attempt }) is Some,
{
    let told = watch_log(watch, state, LivenessAction::Reload { attempt }, url)->0;
    let before = "Harness 页面连续 "@ + decimal(LIVENESS_MISSES as nat) + " 次未通过存活检查（"@ + fault(state)
        + "），第 "@;
    let behind = "/"@ + decimal(LIVENESS_RELOADS as nat) + " 次重新加载 "@;
    let number = decimal(attempt as nat);
    assert(told =~= before + number + (behind + url));
    assert(told =~= (before + number + behind) + url + Seq::<char>::empty());
    crate::text::lemma_mentions("Harness 页面在 "@, number, " 次重新加载后仍未恢复，交给用户处理"@);
}

} // verus!

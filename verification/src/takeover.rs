//! What the start does about a Harness that it did not start: identifying it, asking the user
//! about it, and waiting out the handovers of the port around stopping it.
use vstd::prelude::*;

use crate::harness::{looks_like_dsh_web, Probe};
#[allow(unused_imports)]
use crate::harness::names_dsh_web;
use crate::number::decimal_text;
#[allow(unused_imports)]
use crate::number::decimal;
use crate::text::{chars_of, glue, glue3, glue5, piece, string_of, text_eq, truth_text};
#[allow(unused_imports)]
use crate::text::truth;
use crate::window::{ChoiceOption, CHOICE_TIMEOUT_SECS};

verus! {

/// What the start does about a Harness that it did not start.
#[derive(Debug, Clone, PartialEq, Eq)]
pub enum ForeignAction {
    /// Stop that instance and start our own on the port.
    TakeOver { pid: u32 },
    /// Leave it running and open it in the system browser.
    UseBrowser,
    /// Leave it running and explain why the port cannot be used. The user may change that.
    Refuse { reason: String },
    /// Leave it running, as the user answered. That is final for this start.
    Declined { reason: String },
    /// It is identified: the user is asked.
    Ask { pid: u32 },
    /// Leave it alone and start on another port.
    UseOtherPort { port: u16 },
}

/// What the start does about a Harness that it did not start, with its texts as sequences.
#[verifier::ext_equal]
pub enum ForeignModel {
    TakeOver { pid: u32 },
    UseBrowser,
    Refuse { reason: Seq<char> },
    Declined { reason: Seq<char> },
    Ask { pid: u32 },
    UseOtherPort { port: u16 },
}

impl View for ForeignAction {
    type V = ForeignModel;

    open spec fn view(&self) -> ForeignModel {
        match self {
            ForeignAction::TakeOver { pid } => ForeignModel::TakeOver { pid: *pid },
            ForeignAction::UseBrowser => ForeignModel::UseBrowser,
            ForeignAction::Refuse { reason } => ForeignModel::Refuse { reason: reason@ },
            ForeignAction::Declined { reason } => ForeignModel::Declined { reason: reason@ },
            ForeignAction::Ask { pid } => ForeignModel::Ask { pid: *pid },
            ForeignAction::UseOtherPort { port } => ForeignModel::UseOtherPort { port: *port },
        }
    }
}

/// Does the command line, where the platform reported one, name `dsh web`?
pub open spec fn identified(command: Option<Seq<char>>) -> bool {
    command matches Some(line) && names_dsh_web(line)
}

/// What the two signals say about the process on the port.
pub open spec fn foreign(owner: Option<u32>, command: Option<Seq<char>>) -> ForeignModel {
    if !identified(command) {
        ForeignModel::Refuse {
            reason: "端口上有进程按 Harness 协议应答，但无法确认它就是 dsh web（读不到命令行，或命令行不像 dsh）。为避免误杀其它程序，本应用不会接管它。请先手动停止该进程，或在 config.json 里换一个端口。"@,
        }
    } else {
        match owner {
            Some(pid) => ForeignModel::Ask { pid },
            None => ForeignModel::Refuse {
                reason: "端口上的 Harness 无法定位到具体进程（lsof 不可用）。请先手动停止它。"@,
            },
        }
    }
}

/// Decides what to do about a foreign Harness. A process whose command line names the CLI is
/// always asked about; any other is left alone.
pub fn foreign_instance_action(owner: Option<u32>, command: Option<&str>) -> (r: ForeignAction)
    ensures
        r@ == foreign(owner, crate::runtime::str_view(command)),
{
    if !identified_dsh_web(command) {
        return ForeignAction::Refuse {
            reason: "端口上有进程按 Harness 协议应答，但无法确认它就是 dsh web（读不到命令行，或命令行不像 dsh）。为避免误杀其它程序，本应用不会接管它。请先手动停止该进程，或在 config.json 里换一个端口。".to_owned(),
        };
    }
    match owner {
        Some(pid) => ForeignAction::Ask { pid },
        None => ForeignAction::Refuse {
            reason: "端口上的 Harness 无法定位到具体进程（lsof 不可用）。请先手动停止它。".to_owned(),
        },
    }
}

/// The answers to the question.
pub const CHOICE_TAKE_OVER: &'static str = "take-over";

pub const CHOICE_BROWSER: &'static str = "browser";

pub const CHOICE_CANCEL: &'static str = "cancel";

/// Start on another port and leave the instance where it is.
pub const CHOICE_PORT: &'static str = "port";

/// The page that an outcome ends on.
#[derive(Debug, Clone, Copy, PartialEq, Eq, Structural)]
pub enum TerminalPage {
    /// Another attempt is worth offering.
    Failure,
    /// Nothing can be started here: report it and stop.
    Notice,
}

/// Is another attempt worth offering? Not where the port is left to a live instance: it would
/// end in the same way.
pub fn terminal_page(action: &ForeignAction) -> (r: TerminalPage)
    ensures
        r == (if action is UseBrowser {
            TerminalPage::Notice
        } else {
            TerminalPage::Failure
        }),
{
    match action {
        ForeignAction::UseBrowser => TerminalPage::Notice,
        _ => TerminalPage::Failure,
    }
}

/// How much of a command line the question shows.
pub const COMMAND_DISPLAY_LIMIT: usize = 160;

/// A command line as it is shown: a long one keeps both ends, half of the limit each.
pub open spec fn elided(command: Seq<char>) -> Seq<char> {
    if command.len() <= COMMAND_DISPLAY_LIMIT {
        command
    } else {
        command.subrange(0, 80) + "…"@ + command.subrange(command.len() - 80, command.len() as int)
    }
}

/// Shortens a command line around its middle: the start names the interpreter, and the end
/// carries the flags.
pub fn elide_command(command: &str) -> (r: String)
    ensures
        r@ == elided(command@),
{
    let chars = chars_of(command);
    let total: usize = chars.len();
    if total <= COMMAND_DISPLAY_LIMIT {
        return command.to_owned();
    }
    let head: usize = COMMAND_DISPLAY_LIMIT / 2;
    let tail: usize = COMMAND_DISPLAY_LIMIT - head;
    let start = string_of(&piece(&chars, 0, head));
    let end = string_of(&piece(&chars, total - tail, total));
    glue3(start.as_str(), "…", end.as_str())
}

/// What is shown of a command line, or that it could not be read.
pub open spec fn shown(command: Option<Seq<char>>) -> Seq<char> {
    match command {
        Some(line) => elided(line),
        None => "<读不到命令行>"@,
    }
}

/// The explanation under the question.
pub open spec fn question_detail(
    port: u16,
    pid: u32,
    command: Option<Seq<char>>,
    workspace: Seq<char>,
) -> Seq<char> {
    "端口 127.0.0.1:"@ + decimal(port as nat)
        + " 上已有一个不是本应用启动的 Harness。\n\n接管会先终止该进程 —— 它当前的会话、正在执行的 agent 任务、浏览器里已打开的页面都会断开 ——然后用本应用的 workspace 重新启动：\n"@
        + workspace
        + "\n\n浏览器里指向这个端口的旧标签页不用手动关：刷新就会连到重启后的实例。若显示 authentication required，说明那个实例用的是另一个 dsh_home，需要在启动它的终端里重新打开它打印的 URL。\n\n要接管的进程: pid "@
        + decimal(pid as nat) + "\n命令行: "@ + shown(command)
        + "\n\n不接管则用系统浏览器打开那个实例，本应用退出。"@
}

/// The question: its heading and its explanation. The explanation starts with what a takeover
/// would do, and then shows the process as evidence.
pub fn takeover_question(port: u16, pid: u32, command: Option<&str>, workspace: &str) -> (r: (
    String,
    String,
))
    ensures
        r.0@ == "检测到其它 Harness"@,
        r.1@ == question_detail(port, pid, crate::runtime::str_view(command), workspace@),
{
    let line = match command {
        Some(command) => elide_command(command),
        None => "<读不到命令行>".to_owned(),
    };
    let mut detail = glue5(
        "端口 127.0.0.1:",
        decimal_text(port as u64).as_str(),
        " 上已有一个不是本应用启动的 Harness。\n\n接管会先终止该进程 —— 它当前的会话、正在执行的 agent 任务、浏览器里已打开的页面都会断开 ——然后用本应用的 workspace 重新启动：\n",
        workspace,
        "\n\n浏览器里指向这个端口的旧标签页不用手动关：刷新就会连到重启后的实例。若显示 authentication required，说明那个实例用的是另一个 dsh_home，需要在启动它的终端里重新打开它打印的 URL。\n\n要接管的进程: pid ",
    );
    detail.append(decimal_text(pid as u64).as_str());
    detail.append("\n命令行: ");
    detail.append(line.as_str());
    detail.append("\n\n不接管则用系统浏览器打开那个实例，本应用退出。");
    ("检测到其它 Harness".to_owned(), detail)
}

/// Buttons, as pairs of the answer and the label.
pub open spec fn buttons(options: Seq<ChoiceOption>) -> Seq<(Seq<char>, Seq<char>)> {
    Seq::new(options.len(), |i: int| (options[i].id@, options[i].label@))
}

/// The buttons of the question. Another port is offered only where one is free.
pub open spec fn takeover_buttons(port: u16, pid: u32, other_port: Option<u16>) -> Seq<
    (Seq<char>, Seq<char>),
> {
    seq![
        (
            CHOICE_TAKE_OVER@,
            "终止 pid "@ + decimal(pid as nat) + " 并接管端口 "@ + decimal(port as nat),
        ),
        (CHOICE_BROWSER@, "保留它，用系统浏览器打开"@),
    ] + (match other_port {
        Some(free) => seq![(CHOICE_PORT@, "保留它，本应用改用端口 "@ + decimal(free as nat))],
        None => Seq::empty(),
    }) + seq![(CHOICE_CANCEL@, "什么都不做，退出本应用"@)]
}

/// The buttons of the question.
pub fn takeover_options(port: u16, pid: u32, other_port: Option<u16>) -> (r: Vec<ChoiceOption>)
    ensures
        buttons(r@) == takeover_buttons(port, pid, other_port),
{
    let mut label = glue3("终止 pid ", decimal_text(pid as u64).as_str(), " 并接管端口 ");
    label.append(decimal_text(port as u64).as_str());
    let mut options: Vec<ChoiceOption> = Vec::new();
    options.push(ChoiceOption { id: CHOICE_TAKE_OVER.to_owned(), label });
    options.push(
        ChoiceOption {
            id: CHOICE_BROWSER.to_owned(),
            label: "保留它，用系统浏览器打开".to_owned(),
        },
    );
    match other_port {
        Some(free) => {
            options.push(
                ChoiceOption {
                    id: CHOICE_PORT.to_owned(),
                    label: glue("保留它，本应用改用端口 ", decimal_text(free as u64).as_str()),
                },
            );
        },
        None => {},
    }
    options.push(
        ChoiceOption {
            id: CHOICE_CANCEL.to_owned(),
            label: "什么都不做，退出本应用".to_owned(),
        },
    );
    proof {
        assert(buttons(options@) =~= takeover_buttons(port, pid, other_port));
    }
    options
}

/// The line under the buttons: what silence means.
pub fn takeover_hint(allow: bool) -> (r: String)
    ensures
        r@ == decimal(CHOICE_TIMEOUT_SECS as nat)
            + " 秒内没有选择将按 config.json 的 take_over_existing="@ + truth(allow) + " 处理。"@,
{
    let mut out = glue(
        decimal_text(CHOICE_TIMEOUT_SECS).as_str(),
        " 秒内没有选择将按 config.json 的 take_over_existing=",
    );
    out.append(truth_text(allow));
    out.append(" 处理。");
    out
}

/// What a question that nobody answered means: what the configuration asked for.
pub fn unanswered_choice(allow: bool, pid: u32) -> (r: ForeignAction)
    ensures
        r@ == (if allow {
            ForeignModel::TakeOver { pid }
        } else {
            ForeignModel::UseBrowser
        }),
{
    if allow {
        ForeignAction::TakeOver { pid }
    } else {
        ForeignAction::UseBrowser
    }
}

/// What an answer means. One that is not offered counts as none.
pub open spec fn answered(
    answer: Option<Seq<char>>,
    port: u16,
    pid: u32,
    other_port: Option<u16>,
    allow: bool,
) -> ForeignModel {
    if answer == Some(CHOICE_TAKE_OVER@) {
        ForeignModel::TakeOver { pid }
    } else if answer == Some(CHOICE_BROWSER@) {
        ForeignModel::UseBrowser
    } else if answer == Some(CHOICE_PORT@) && other_port is Some {
        ForeignModel::UseOtherPort { port: other_port->0 }
    } else if answer == Some(CHOICE_CANCEL@) {
        ForeignModel::Declined {
            reason: "已按你的选择保留端口 "@ + decimal(port as nat) + " 上的 Harness（pid "@ + decimal(
                pid as nat,
            ) + "），本应用没有接管它。"@,
        }
    } else if allow {
        ForeignModel::TakeOver { pid }
    } else {
        ForeignModel::UseBrowser
    }
}

/// Turns the question into what its answer means; anything but a question stays as it is. A
/// question that could not be put has no answer either.
pub fn resolve_foreign_action(
    action: ForeignAction,
    answer: Option<&str>,
    port: u16,
    other_port: Option<u16>,
    allow: bool,
) -> (r: ForeignAction)
    ensures
        r@ == (match action@ {
            ForeignModel::Ask { pid } => answered(
                crate::runtime::str_view(answer),
                port,
                pid,
                other_port,
                allow,
            ),
            other => other,
        }),
{
    let pid: u32 = match action {
        ForeignAction::Ask { pid } => pid,
        other => {
            return other;
        },
    };
    let choice = match answer {
        Some(choice) => choice,
        None => {
            return unanswered_choice(allow, pid);
        },
    };
    proof {
        reveal_strlit("take-over");
        reveal_strlit("browser");
        reveal_strlit("cancel");
        reveal_strlit("port");
        assert(CHOICE_PORT@.len() == 4 && CHOICE_CANCEL@.len() == 6);
    }
    if text_eq(choice, CHOICE_TAKE_OVER) {
        return ForeignAction::TakeOver { pid };
    }
    if text_eq(choice, CHOICE_BROWSER) {
        return ForeignAction::UseBrowser;
    }
    if text_eq(choice, CHOICE_PORT) {
        return match other_port {
            Some(port) => ForeignAction::UseOtherPort { port },
            None => unanswered_choice(allow, pid),
        };
    }
    if text_eq(choice, CHOICE_CANCEL) {
        let reason = glue5(
            "已按你的选择保留端口 ",
            decimal_text(port as u64).as_str(),
            " 上的 Harness（pid ",
            decimal_text(pid as u64).as_str(),
            "），本应用没有接管它。",
        );
        return ForeignAction::Declined { reason };
    }
    unanswered_choice(allow, pid)
}

/// What a restart does about the instance that holds the port.
#[derive(Debug, Clone, Copy, PartialEq, Eq, Structural)]
pub enum Retry {
    /// The user let the shell stop it: do that and try once more.
    TakeOver,
    /// The user said no.
    Declined,
    /// Nobody was asked, or the answer was no permission.
    Refused,
}

/// Does the outcome of the question permit to stop the instance?
pub fn confirm_takeover(resolved: &ForeignAction) -> (r: Retry)
    ensures
        r == (match resolved@ {
            ForeignModel::TakeOver { .. } => Retry::TakeOver,
            ForeignModel::Declined { .. } => Retry::Declined,
            _ => Retry::Refused,
        }),
{
    match resolved {
        ForeignAction::TakeOver { .. } => Retry::TakeOver,
        ForeignAction::Declined { .. } => Retry::Declined,
        _ => Retry::Refused,
    }
}

/// The pid that serves the port as a Harness.
pub fn harness_listener(probe: Probe, listener: Option<u32>) -> (r: Option<u32>)
    ensures
        r == (if probe == Probe::Harness {
            listener
        } else {
            None
        }),
{
    match probe {
        Probe::Harness => listener,
        _ => None,
    }
}

/// Is a process proven to be the `dsh web` CLI, and so safe to signal? One whose command line
/// cannot be read is not.
pub fn identified_dsh_web(command: Option<&str>) -> (r: bool)
    ensures
        r == identified(crate::runtime::str_view(command)),
{
    match command {
        Some(line) => looks_like_dsh_web(line),
        None => false,
    }
}

/// One look at something that is waited for.
#[derive(Debug, Clone, Copy, PartialEq, Eq, Structural)]
pub enum Look {
    /// It is there: over.
    Over,
    /// The time is up.
    GiveUp,
    /// Look again later.
    Again,
}

/// Waits for a replacement to come up on the port: over with the first Harness there, though the
/// time be up.
pub fn wait_for_handoff(listener: Option<u32>, late: bool) -> (r: Look)
    ensures
        r == (if listener is Some {
            Look::Over
        } else if late {
            Look::GiveUp
        } else {
            Look::Again
        }),
{
    if listener.is_some() {
        Look::Over
    } else if late {
        Look::GiveUp
    } else {
        Look::Again
    }
}

/// Waits for the port to stop answering.
pub fn wait_for_port_free(probe: Probe, late: bool) -> (r: Look)
    ensures
        r == (if probe == Probe::Closed {
            Look::Over
        } else if late {
            Look::GiveUp
        } else {
            Look::Again
        }),
{
    match probe {
        Probe::Closed => Look::Over,
        _ => if late {
            Look::GiveUp
        } else {
            Look::Again
        },
    }
}

/// A process that the two signals do not identify is neither asked about nor stopped, whatever
/// anybody answers or configures; and one that they identify is always asked about first.
pub proof fn an_unidentified_process_is_left_alone(
    owner: Option<u32>,
    command: Option<Seq<char>>,
)
    ensures
        foreign(owner, command) !is TakeOver,
        foreign(owner, command) is Ask <==> (owner is Some && identified(command)),
        foreign(owner, command) matches ForeignModel::Ask { pid } ==> owner == Some(pid),
        !identified(command) ==> foreign(owner, command) is Refuse,
{
}

/// Only two things let the shell stop the instance: the user chose it, or gave no answer that is
/// offered and the configuration allows it. Moving to another port is no permission.
pub proof fn a_takeover_needs_permission(
    answer: Option<Seq<char>>,
    port: u16,
    pid: u32,
    other_port: Option<u16>,
    allow: bool,
)
    ensures
        answered(answer, port, pid, other_port, allow) is TakeOver ==> (answer == Some(
            CHOICE_TAKE_OVER@,
        ) || allow),
        answer == Some(CHOICE_PORT@) && other_port is Some ==> answered(
            answer,
            port,
            pid,
            other_port,
            allow,
        ) == (ForeignModel::UseOtherPort { port: other_port->0 }),
        answer == Some(CHOICE_CANCEL@) ==> answered(answer, port, pid, other_port, allow) is Declined,
        answer is None && !allow ==> answered(answer, port, pid, other_port, allow) is UseBrowser,
{
    reveal_strlit("take-over");
    reveal_strlit("browser");
    reveal_strlit("cancel");
    reveal_strlit("port");
    assert(CHOICE_PORT@.len() == 4);
    assert(CHOICE_CANCEL@.len() == 6);
    assert(CHOICE_BROWSER@.len() == 7);
    assert(CHOICE_TAKE_OVER@.len() == 9);
}

/// What is shown of a command line is short, and a short one is shown whole.
pub proof fn a_shown_command_is_short(command: Seq<char>)
    ensures
        elided(command).len() <= COMMAND_DISPLAY_LIMIT + 1,
        command.len() <= COMMAND_DISPLAY_LIMIT ==> elided(command) == command,
        command.len() > COMMAND_DISPLAY_LIMIT ==> elided(command).subrange(0, 80)
            == command.subrange(0, 80) && elided(command).subrange(81, 161) == command.subrange(
            command.len() - 80,
            command.len() as int,
        ),
{
    reveal_strlit("…");
    if command.len() > COMMAND_DISPLAY_LIMIT {
        assert(elided(command).subrange(0, 80) =~= command.subrange(0, 80));
        assert(elided(command).subrange(81, 161) =~= command.subrange(
            command.len() - 80,
            command.len() as int,
        ));
    }
}

/// Each answer that is offered does what its button says, and every other counts as none, which
/// does what the configuration says.
pub proof fn each_answer_means_its_button(
    answer: Option<Seq<char>>,
    port: u16,
    pid: u32,
    other_port: Option<u16>,
    allow: bool,
)
    ensures
        answered(Some("take-over"@), port, pid, other_port, allow) == (ForeignModel::TakeOver {
            pid,
        }),
        answered(Some("browser"@), port, pid, other_port, allow) == ForeignModel::UseBrowser,
        other_port matches Some(free) ==> answered(Some("port"@), port, pid, other_port, allow) == (
        ForeignModel::UseOtherPort { port: free }),
        answered(Some("cancel"@), port, pid, other_port, allow) is Declined,
        answered(None, port, pid, other_port, true) == (ForeignModel::TakeOver { pid }),
        answered(None, port, pid, other_port, false) == ForeignModel::UseBrowser,
        answer != Some("take-over"@) && answer != Some("browser"@) && (answer != Some("port"@)
            || other_port is None) && answer != Some("cancel"@) ==> answered(
            answer,
            port,
            pid,
            other_port,
            allow,
        ) == answered(None, port, pid, other_port, allow),
{
    reveal_strlit("take-over");
    reveal_strlit("browser");
    reveal_strlit("cancel");
    reveal_strlit("port");
    assert("port"@.len() == 4);
    assert("cancel"@.len() == 6);
    assert("browser"@.len() == 7);
    assert("take-over"@.len() == 9);
}

/// The buttons are those answers, in this order, each once; another port is among them exactly
/// where one is free.
pub proof fn the_buttons_are_the_answers(port: u16, pid: u32, other_port: Option<u16>)
    ensures
        ({
            let all = takeover_buttons(port, pid, other_port);
            &&& all[0].0 == "take-over"@
            &&& all[1].0 == "browser"@
            &&& all.last().0 == "cancel"@
            &&& other_port is Some ==> all.len() == 4 && all[2].0 == "port"@
            &&& other_port is None ==> all.len() == 3
        }),
{
}

/// The question names what it is about: the port, the process, its command line where that is
/// known, and the directory that the new instance works in.
pub proof fn the_question_names_what_is_stopped(
    port: u16,
    pid: u32,
    command: Seq<char>,
    workspace: Seq<char>,
)
    ensures
        ({
            let told = question_detail(port, pid, Some(command), workspace);
            &&& crate::text::mentions(told, decimal(port as nat))
            &&& crate::text::mentions(told, decimal(pid as nat))
            &&& crate::text::mentions(told, workspace)
            &&& command.len() <= COMMAND_DISPLAY_LIMIT ==> crate::text::mentions(told, command)
            &&& command.len() > COMMAND_DISPLAY_LIMIT ==> crate::text::mentions(
                told,
                command.subrange(0, 80),
            ) && crate::text::mentions(
                told,
                command.subrange(command.len() - 80, command.len() as int),
            )
        }),
{
    let told = question_detail(port, pid, Some(command), workspace);
    let n = told.len() as int;
    let p = decimal(port as nat);
    let a = "端口 127.0.0.1:"@;
    let b = " 上已有一个不是本应用启动的 Harness。\n\n接管会先终止该进程 —— 它当前的会话、正在执行的 agent 任务、浏览器里已打开的页面都会断开 ——然后用本应用的 workspace 重新启动：\n"@;
    let c = "\n\n浏览器里指向这个端口的旧标签页不用手动关：刷新就会连到重启后的实例。若显示 authentication required，说明那个实例用的是另一个 dsh_home，需要在启动它的终端里重新打开它打印的 URL。\n\n要接管的进程: pid "@;
    let d = decimal(pid as nat);
    let e = "\n命令行: "@;
    let f = elided(command);
    let g = "\n\n不接管则用系统浏览器打开那个实例，本应用退出。"@;
    assert(told =~= a + p + (b + workspace + c + d + e + f + g));
    assert(told =~= (a + p + b) + workspace + (c + d + e + f + g));
    assert(told =~= (a + p + b + workspace + c) + d + (e + f + g));
    let before = a + p + b + workspace + c + d + e;
    assert(told =~= before + f + g);
    if command.len() > COMMAND_DISPLAY_LIMIT {
        let first = command.subrange(0, 80);
        let last = command.subrange(command.len() - 80, command.len() as int);
        assert(f =~= first + "…"@ + last);
        assert(told =~= before + first + ("…"@ + last + g));
        assert(told =~= (before + first + "…"@) + last + g);
    }
}

/// A process is identified by its command line; one whose command line is not known is not.
pub proof fn which_process_is_identified(line: Seq<char>)
    ensures
        !identified(None),
        identified(Some(line)) <==> names_dsh_web(line),
{
}

} // verus!

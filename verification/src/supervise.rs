//! Keeping the Harness up: the port it runs on, the process that is ours to stop, and what is done
//! when it ends.
use vstd::prelude::*;

use crate::number::decimal_text;
#[allow(unused_imports)]
use crate::number::decimal;
use crate::takeover::Retry;
use crate::text::{glue, glue3, glue4, glue5};
#[allow(unused_imports)]
use crate::text::opt_view;

verus! {

/// How long a process has to end after it was asked to, in seconds.
pub const TERMINATE_GRACE_SECS: u64 = 5;

/// How long the start waits for someone else to bring the port back after a clean exit, in
/// seconds: a restart of its own hands over.
pub const HANDOFF_GRACE_SECS: u64 = 8;

/// The same after an exit that looks like a crash.
pub const HANDOFF_GRACE_QUICK_SECS: u64 = 2;

/// How often the port is looked at in both waits, in milliseconds.
pub const HANDOFF_POLL_MS: u64 = 400;

/// A run that lasted this long is no crash loop, in seconds.
pub const HEALTHY_RUN_SECS: u64 = 60;

/// Short runs in a row that the shell restarts by itself.
pub const MAX_AUTO_RESTARTS: u32 = 3;

/// How often an adopted instance is looked at, in seconds.
pub const REUSED_POLL_SECS: u64 = 3;

// ---------------------------------------------------------------------------------------------
// Ports
// ---------------------------------------------------------------------------------------------

/// How far above the configured port a free one is looked for.
pub const PORT_SEARCH_RANGE: u16 = 20;

/// The port of this launch: the one that the user moved to, or else the configured one. Nothing
/// was chosen where `chosen` is 0.
pub fn runtime_port(chosen: u16, configured: u16) -> (r: u16)
    ensures
        r == (if chosen == 0 {
            configured
        } else {
            chosen
        }),
{
    if chosen == 0 {
        configured
    } else {
        chosen
    }
}

/// `n` above a port, up to the highest.
pub open spec fn port_above(from: u16, n: int) -> int {
    if from + n < u16::MAX {
        from + n
    } else {
        u16::MAX as int
    }
}

/// The ports that are looked at, in order.
pub open spec fn ports_above(from: u16) -> Seq<u16> {
    let first = port_above(from, 1);
    Seq::new(
        (port_above(from, PORT_SEARCH_RANGE as int) - first + 1) as nat,
        |i: int| (first + i) as u16,
    )
}

/// The ports that are looked at for a free one, in order.
pub fn port_candidates(from: u16) -> (r: Vec<u16>)
    ensures
        r@ == ports_above(from),
{
    let first: u16 = from.saturating_add(1);
    let last: u16 = from.saturating_add(PORT_SEARCH_RANGE);
    let mut out: Vec<u16> = Vec::new();
    let mut i: u16 = 0;
    while i <= last - first
        invariant
            first == port_above(from, 1),
            last == port_above(from, PORT_SEARCH_RANGE as int),
            first <= last,
            last - first < PORT_SEARCH_RANGE,
            i <= last - first + 1,
            out@ == ports_above(from).take(i as int),
        decreases last - first + 1 - i,
    {
        out.push(first + i);
        proof {
            assert(ports_above(from).take(i + 1) =~= ports_above(from).take(i as int).push(
                (first + i) as u16,
            ));
        }
        i += 1;
    }
    proof {
        assert(ports_above(from).take(i as int) =~= ports_above(from));
    }
    out
}

/// The first of the ports that is free.
pub open spec fn first_free_port(ports: Seq<u16>, free: Seq<bool>) -> Option<u16>
    decreases ports.len(),
{
    if ports.len() == 0 || free.len() == 0 {
        None
    } else if free[0] {
        Some(ports[0])
    } else {
        first_free_port(
            ports.subrange(1, ports.len() as int),
            free.subrange(1, free.len() as int),
        )
    }
}

/// A free port above the given one. `free` tells of each port of [`port_candidates`] whether it
/// could be bound.
pub fn free_port_from(from: u16, free: &[bool]) -> (r: Option<u16>)
    ensures
        r == first_free_port(ports_above(from), free@),
{
    let ports = port_candidates(from);
    let ghost p = ports@;
    let ghost f = free@;
    let mut i: usize = 0;
    proof {
        assert(p.subrange(0, p.len() as int) =~= p);
        assert(f.subrange(0, f.len() as int) =~= f);
    }
    while i < ports.len() && i < free.len()
        invariant
            i <= ports@.len(),
            i <= free@.len(),
            p == ports@,
            f == free@,
            p == ports_above(from),
            first_free_port(p.subrange(i as int, p.len() as int), f.subrange(i as int, f.len() as int))
                == first_free_port(p, f),
        decreases ports@.len() - i,
    {
        if free[i] {
            return Some(ports[i]);
        }
        proof {
            assert(p.subrange(i as int, p.len() as int).subrange(1, p.len() - i)
                =~= p.subrange(i + 1, p.len() as int));
            assert(f.subrange(i as int, f.len() as int).subrange(1, f.len() - i)
                =~= f.subrange(i + 1, f.len() as int));
        }
        i += 1;
    }
    None
}

proof fn lemma_first_free_port(ports: Seq<u16>, free: Seq<bool>)
    ensures
        first_free_port(ports, free) matches Some(port) ==> exists|i: int|
            0 <= i < ports.len() && i < free.len() && ports[i] == port && #[trigger] free[i],
    decreases ports.len(),
{
    if ports.len() > 0 && free.len() > 0 && !free[0] {
        let rest = ports.subrange(1, ports.len() as int);
        let left = free.subrange(1, free.len() as int);
        lemma_first_free_port(rest, left);
        if first_free_port(rest, left) is Some {
            let port = first_free_port(rest, left)->0;
            let i = choose|i: int|
                0 <= i < rest.len() && i < left.len() && rest[i] == port && #[trigger] left[i];
            assert(free[i + 1]);
            assert(ports[i + 1] == port);
        }
    }
}

/// The port that is offered is free, and within the range above the one that is taken; below the
/// highest port it is never that one itself.
pub proof fn an_offered_port_is_free_and_near(from: u16, free: Seq<bool>)
    ensures
        first_free_port(ports_above(from), free) matches Some(port) ==> {
            &&& exists|i: int|
                0 <= i < ports_above(from).len() && i < free.len() && ports_above(from)[i] == port
                    && #[trigger] free[i]
            &&& from < u16::MAX ==> from < port
            &&& port <= from + PORT_SEARCH_RANGE
        },
{
    lemma_first_free_port(ports_above(from), free);
}

// ---------------------------------------------------------------------------------------------
// The supervised process
// ---------------------------------------------------------------------------------------------

/// The process that is ours to stop.
#[derive(Debug, Clone, PartialEq, Eq)]
pub struct Live {
    pub pid: u32,
    pub data_dir: String,
}

/// The supervised process, and whether the app is on its way out.
#[derive(Debug, Clone, PartialEq, Eq)]
pub struct Supervised {
    pub live: Option<Live>,
    pub exiting: bool,
}

impl Supervised {
    pub fn new() -> (r: Supervised)
        ensures
            r.live is None,
            !r.exiting,
    {
        Supervised { live: None, exiting: false }
    }

    /// Remembers the process, so that every way out can stop it.
    pub fn adopt(&mut self, pid: u32, data_dir: &str)
        ensures
            final(self).exiting == old(self).exiting,
            final(self).live matches Some(live) && live.pid == pid && live.data_dir@ == data_dir@,
    {
        self.live = Some(Live { pid, data_dir: data_dir.to_owned() });
    }

    /// Forgets the process, which is gone already.
    pub fn disown(&mut self, pid: u32)
        ensures
            final(self).exiting == old(self).exiting,
            final(self).live == (match old(self).live {
                Some(live) => if live.pid == pid {
                    None
                } else {
                    Some(live)
                },
                None => None,
            }),
    {
        let same = match &self.live {
            Some(live) => live.pid == pid,
            None => false,
        };
        if same {
            self.live = None;
        }
    }

    /// The app goes: gives the process that is to be stopped, once.
    pub fn shutdown(&mut self) -> (r: Option<Live>)
        ensures
            final(self).exiting,
            final(self).live is None,
            r == old(self).live,
    {
        self.exiting = true;
        let mut live: Option<Live> = None;
        std::mem::swap(&mut live, &mut self.live);
        live
    }
}

/// Is the listener the process of our own record, and alive?
pub fn ours_on_port(listener: Option<u32>, recorded: Option<u32>, alive: bool) -> (r: bool)
    ensures
        r == crate::update_flow::is_ours(listener, recorded, alive),
{
    match (recorded, listener) {
        (Some(known), Some(pid)) => known == pid && alive,
        _ => false,
    }
}

/// Why a launch ended without a Harness window.
#[derive(Debug, Clone, PartialEq, Eq)]
pub struct StartError {
    /// What the user reads.
    pub reason: String,
    /// The user answered no: the question is not put again.
    pub declined: bool,
}

impl From<String> for StartError {
    fn from(reason: String) -> (r: StartError) {
        StartError { reason, declined: false }
    }
}

impl vstd::std_specs::convert::FromSpecImpl<String> for StartError {
    open spec fn obeys_from_spec() -> bool {
        true
    }

    open spec fn from_spec(reason: String) -> StartError {
        StartError { reason, declined: false }
    }
}

/// May a restart that failed still ask about the instance on the port? Not where the user said
/// no, nor where they moved this launch to another port.
pub open spec fn may_ask(declined: bool, port: u16, port_now: u16) -> bool {
    !declined && port_now == port
}

/// May a restart that failed still ask about the instance on the port?
pub fn may_ask_after_failure(error: &StartError, port: u16, port_now: u16) -> (r: bool)
    ensures
        r == may_ask(error.declined, port, port_now),
{
    !error.declined && port_now == port
}

// ---------------------------------------------------------------------------------------------
// An exit
// ---------------------------------------------------------------------------------------------

/// What is done about an exit that nobody asked for.
#[derive(Debug, Clone, Copy, PartialEq, Eq, Structural)]
pub enum ExitAction {
    /// Start another Harness, after waiting in case something else is starting one.
    Recover { attempt: u32, grace_secs: u64 },
    /// The attempts are used up: report it.
    Report,
}

/// What is done about an exit.
pub open spec fn exit_judged(uptime_secs: u64, previous: u32, clean: bool) -> ExitAction {
    let attempt = if uptime_secs >= HEALTHY_RUN_SECS {
        1u32
    } else {
        crate::window::one_more(previous)
    };
    if attempt > MAX_AUTO_RESTARTS {
        ExitAction::Report
    } else {
        ExitAction::Recover {
            attempt,
            grace_secs: if clean {
                HANDOFF_GRACE_SECS
            } else {
                HANDOFF_GRACE_QUICK_SECS
            },
        }
    }
}

/// Decides about an exit: how long it ran, the restarts before it, and whether it ended with 0.
/// A long run starts the count over.
pub fn exit_action(uptime_secs: u64, previous: u32, clean: bool) -> (r: ExitAction)
    ensures
        r == exit_judged(uptime_secs, previous, clean),
{
    let attempt: u32 = if uptime_secs >= HEALTHY_RUN_SECS {
        1
    } else {
        previous.saturating_add(1)
    };
    if attempt > MAX_AUTO_RESTARTS {
        return ExitAction::Report;
    }
    ExitAction::Recover {
        attempt,
        grace_secs: if clean {
            HANDOFF_GRACE_SECS
        } else {
            HANDOFF_GRACE_QUICK_SECS
        },
    }
}

/// The restarts after exits in a row, each with how long it ran and whether it was clean; none
/// once the attempts are used up.
pub open spec fn restarts_after(exits: Seq<(u64, bool)>) -> Option<u32>
    decreases exits.len(),
{
    if exits.len() == 0 {
        Some(0)
    } else {
        match restarts_after(exits.drop_last()) {
            Some(previous) => match exit_judged(exits.last().0, previous, exits.last().1) {
                ExitAction::Recover { attempt, .. } => Some(attempt),
                ExitAction::Report => None,
            },
            None => None,
        }
    }
}

/// A crash loop is restarted as often as the budget says and no more; a run that lasted is always
/// followed by another attempt.
pub proof fn a_crash_loop_ends(exits: Seq<(u64, bool)>)
    ensures
        restarts_after(exits) matches Some(n) ==> n <= MAX_AUTO_RESTARTS,
        (forall|i: int| 0 <= i < exits.len() ==> (#[trigger] exits[i]).0 < HEALTHY_RUN_SECS) ==> (
        restarts_after(exits) == (if exits.len() <= MAX_AUTO_RESTARTS {
            Some(exits.len() as u32)
        } else {
            None
        })),
    decreases exits.len(),
{
    if exits.len() > 0 {
        a_crash_loop_ends(exits.drop_last());
        if forall|i: int| 0 <= i < exits.len() ==> (#[trigger] exits[i]).0 < HEALTHY_RUN_SECS {
            let rest = exits.drop_last();
            assert forall|i: int| 0 <= i < rest.len() implies (#[trigger] rest[i]).0
                < HEALTHY_RUN_SECS by {
                assert(rest[i] == exits[i]);
            }
            assert(exits[exits.len() - 1].0 < HEALTHY_RUN_SECS);
        }
    }
}

/// A healthy run is always followed by another attempt, whatever came before it.
pub proof fn a_healthy_run_earns_a_restart(uptime_secs: u64, previous: u32, clean: bool)
    requires
        uptime_secs >= HEALTHY_RUN_SECS,
    ensures
        exit_judged(uptime_secs, previous, clean) matches ExitAction::Recover { attempt, .. }
            && attempt == 1,
{
}

/// A whole number in decimal digits, with its sign.
pub open spec fn signed(n: int) -> Seq<char> {
    if n < 0 {
        "-"@ + decimal((-n) as nat)
    } else {
        decimal(n as nat)
    }
}

fn signed_text(n: i32) -> (r: String)
    ensures
        r@ == signed(n as int),
{
    if n < 0 {
        glue("-", decimal_text((-(n as i64)) as u64).as_str())
    } else {
        decimal_text(n as u64)
    }
}

/// How a process ended, in words.
pub open spec fn exit_words(signal: Option<i32>, code: Option<i32>) -> Seq<char> {
    match (signal, code) {
        (Some(number), _) => "被信号 "@ + signed(number as int) + " 终止"@,
        (None, Some(number)) => "退出码 "@ + signed(number as int),
        (None, None) => "结束状态未知"@,
    }
}

/// How a process ended, in words: the signal that killed it, or its exit code.
pub fn exit_reason(signal: Option<i32>, code: Option<i32>) -> (r: String)
    ensures
        r@ == exit_words(signal, code),
{
    match (signal, code) {
        (Some(number), _) => glue3("被信号 ", signed_text(number).as_str(), " 终止"),
        (None, Some(number)) => glue("退出码 ", signed_text(number).as_str()),
        (None, None) => "结束状态未知".to_owned(),
    }
}

/// How the watched process ended: what waiting for it gave, and whether that is a clean exit.
pub fn watch_harness(waited: Result<(Option<i32>, Option<i32>), String>) -> (r: (String, bool))
    ensures
        r.0@ == (match waited {
            Ok((signal, code)) => exit_words(signal, code),
            Err(error) => "无法等待进程结束: "@ + error@,
        }),
        r.1 == (waited matches Ok((_, code)) && code == Some(0i32)),
{
    match waited {
        Ok((signal, code)) => {
            let clean = match code {
                Some(number) => number == 0,
                None => false,
            };
            (exit_reason(signal, code), clean)
        },
        Err(error) => (glue("无法等待进程结束: ", error.as_str()), false),
    }
}

/// What the watch over an adopted instance does.
#[derive(Debug, Clone, PartialEq, Eq)]
pub enum ReusedStep {
    /// The app is going.
    End,
    Again,
    /// It is gone. How it ended cannot be known, and so counts as no clean exit.
    Gone { reason: String },
}

/// One look at an adopted instance.
pub fn watch_reused(exiting: bool, alive: bool) -> (r: ReusedStep)
    ensures
        (if exiting {
            r is End
        } else if alive {
            r is Again
        } else {
            r matches ReusedStep::Gone { reason } && reason@ == "进程已不在（复用启动，拿不到退出码）"@
        }),
{
    if exiting {
        return ReusedStep::End;
    }
    if alive {
        return ReusedStep::Again;
    }
    ReusedStep::Gone { reason: "进程已不在（复用启动，拿不到退出码）".to_owned() }
}

/// What is done about a Harness that is no longer running.
#[derive(Debug, Clone, PartialEq, Eq)]
pub enum ExitPlan {
    /// Nothing: the app is going, and stopped it.
    Nothing,
    /// Log the line, and show the failure.
    Report { log: String, status: String, detail: String },
    /// Log the line, show the progress, and restart.
    Restart { log: String, attempt: u32, grace_secs: u64, status: String, detail: String },
}

/// Decides about a Harness that is no longer running. `output` is the last that it printed.
pub fn recover_exited(
    exiting: bool,
    pid: u32,
    reason: &str,
    output: &str,
    uptime_secs: u64,
    previous: u32,
    clean: bool,
) -> (r: ExitPlan)
    ensures
        ({
            let line = "Harness pid "@ + decimal(pid as nat) + " exited unexpectedly ("@ + reason@
                + ")"@;
            if exiting {
                r is Nothing
            } else {
                match exit_judged(uptime_secs, previous, clean) {
                    ExitAction::Report => {
                        &&& r matches ExitPlan::Report { log, status, detail }
                        &&& log@ == line
                        &&& status@ == "Harness 已退出"@
                        &&& detail@ == "dsh web 进程已结束（"@ + reason@ + "），连续 "@ + decimal(
                            MAX_AUTO_RESTARTS as nat,
                        ) + " 次自动重启都没有稳定下来，已停止自动重试。\n\n最近输出:\n"@ + output@
                    },
                    ExitAction::Recover { attempt, grace_secs } => {
                        &&& r matches ExitPlan::Restart {
                            log,
                            attempt: a,
                            grace_secs: g,
                            status,
                            detail,
                        }
                        &&& log@ == line
                        &&& a == attempt
                        &&& g == grace_secs
                        &&& status@ == "Harness 已退出，正在重新启动…"@
                        &&& detail@ == "pid "@ + decimal(pid as nat) + " 已结束（"@ + reason@
                            + "）；第 "@ + decimal(attempt as nat) + "/"@ + decimal(
                            MAX_AUTO_RESTARTS as nat,
                        ) + " 次自动恢复"@
                    },
                }
            }
        }),
{
    if exiting {
        return ExitPlan::Nothing;
    }
    let log = glue5(
        "Harness pid ",
        decimal_text(pid as u64).as_str(),
        " exited unexpectedly (",
        reason,
        ")",
    );
    match exit_action(uptime_secs, previous, clean) {
        ExitAction::Report => {
            let mut detail = glue4(
                "dsh web 进程已结束（",
                reason,
                "），连续 ",
                decimal_text(MAX_AUTO_RESTARTS as u64).as_str(),
            );
            detail.append(" 次自动重启都没有稳定下来，已停止自动重试。\n\n最近输出:\n");
            detail.append(output);
            ExitPlan::Report { log, status: "Harness 已退出".to_owned(), detail }
        },
        ExitAction::Recover { attempt, grace_secs } => {
            let mut detail = glue5(
                "pid ",
                decimal_text(pid as u64).as_str(),
                " 已结束（",
                reason,
                "）；第 ",
            );
            detail.append(decimal_text(attempt as u64).as_str());
            detail.append("/");
            detail.append(decimal_text(MAX_AUTO_RESTARTS as u64).as_str());
            detail.append(" 次自动恢复");
            ExitPlan::Restart {
                log,
                attempt,
                grace_secs,
                status: "Harness 已退出，正在重新启动…".to_owned(),
                detail,
            }
        },
    }
}

/// What is said of a restart after an exit: a line for the log, or the detail of a failure.
pub fn recovered(
    pid: u32,
    attempt: u32,
    reason: &str,
    output: &str,
    outcome: Result<(), String>,
) -> (r: Result<String, String>)
    ensures
        (match outcome {
            Ok(()) => r matches Ok(log) && log@ == "Harness pid "@ + decimal(pid as nat)
                + " exited and was recovered (automatic restart "@ + decimal(attempt as nat) + ")"@,
            Err(failure) => r matches Err(detail) && detail@ == "dsh web 进程已结束（"@ + reason@
                + "），自动重启失败："@ + failure@ + "\n\n最近输出:\n"@ + output@,
        }),
{
    match outcome {
        Ok(()) => Ok(
            glue5(
                "Harness pid ",
                decimal_text(pid as u64).as_str(),
                " exited and was recovered (automatic restart ",
                decimal_text(attempt as u64).as_str(),
                ")",
            ),
        ),
        Err(failure) => {
            let mut detail = glue5(
                "dsh web 进程已结束（",
                reason,
                "），自动重启失败：",
                failure.as_str(),
                "\n\n最近输出:\n",
            );
            detail.append(output);
            Err(detail)
        },
    }
}

// ---------------------------------------------------------------------------------------------
// A restart
// ---------------------------------------------------------------------------------------------

/// The restarts: whether one is running, and the automatic ones in a row.
#[derive(Debug, Clone, Copy, PartialEq, Eq, Structural)]
pub struct Restarts {
    pub running: bool,
    pub automatic: u32,
}

/// What becomes of a request for a restart.
#[derive(Debug, Clone, PartialEq, Eq)]
pub enum Request {
    /// The app is going.
    Ignore,
    /// It cannot be done now; the line goes to the log.
    Refused { log: String },
    /// Show the progress, and restart.
    Granted { log: String, status: String },
}

impl Restarts {
    pub fn new() -> (r: Restarts)
        ensures
            r == (Restarts { running: false, automatic: 0 }),
    {
        Restarts { running: false, automatic: 0 }
    }

    /// The user asks for a restart. That counts for more than the budget of automatic ones.
    pub fn request_restart(&mut self, exiting: bool, data_dir_known: bool) -> (r: Request)
        ensures
            final(self).running == old(self).running,
            final(self).automatic == (if !exiting && !old(self).running && data_dir_known {
                0
            } else {
                old(self).automatic
            }),
            (if exiting {
                r is Ignore
            } else if old(self).running {
                r matches Request::Refused { log } && log@ == "已有一次恢复/重启在进行中，忽略重复的重启请求"@
            } else if !data_dir_known {
                r matches Request::Refused { log } && log@ == "无法获取应用数据目录，忽略重启请求"@
            } else {
                r matches Request::Granted { log, status } && log@
                    == "restart requested from the status page"@ && status@ == "正在重新启动 Harness…"@
            }),
    {
        if exiting {
            return Request::Ignore;
        }
        if self.running {
            return Request::Refused {
                log: "已有一次恢复/重启在进行中，忽略重复的重启请求".to_owned(),
            };
        }
        if !data_dir_known {
            return Request::Refused {
                log: "无法获取应用数据目录，忽略重启请求".to_owned(),
            };
        }
        self.automatic = 0;
        Request::Granted {
            log: "restart requested from the status page".to_owned(),
            status: "正在重新启动 Harness…".to_owned(),
        }
    }

    /// Begins a restart, unless one is running: then the line goes to the log, and the one that
    /// runs counts.
    pub fn restart_harness(&mut self) -> (r: Result<(), String>)
        ensures
            final(self).running,
            final(self).automatic == old(self).automatic,
            (if old(self).running {
                r matches Err(log) && log@ == "已有一次恢复/重启在进行中，忽略本次触发"@
            } else {
                r is Ok
            }),
    {
        if self.running {
            return Err("已有一次恢复/重启在进行中，忽略本次触发".to_owned());
        }
        self.running = true;
        Ok(())
    }

    /// The restart is over.
    pub fn finish(&mut self)
        ensures
            !final(self).running,
            final(self).automatic == old(self).automatic,
    {
        self.running = false;
    }

    /// Counts an automatic restart.
    pub fn count(&mut self, attempt: u32)
        ensures
            final(self).running == old(self).running,
            final(self).automatic == attempt,
    {
        self.automatic = attempt;
    }
}

/// What is said of a restart that failed on request.
pub fn restart_failed(reason: &str) -> (r: (String, String))
    ensures
        r.0@ == "重新启动 Harness 失败"@,
        r.1@ == reason@ + "\n\n关闭本窗口即退出应用，再次打开会重新尝试。"@,
{
    (
        "重新启动 Harness 失败".to_owned(),
        glue(reason, "\n\n关闭本窗口即退出应用，再次打开会重新尝试。"),
    )
}

/// How far a restart has come.
#[derive(Debug, Clone, PartialEq, Eq)]
pub enum RestartStage {
    /// It waits for a handover.
    Waiting,
    /// The first start runs.
    Starting,
    /// The first start failed: who is on the port?
    Looking { reason: String },
    /// The user is asked.
    Asking { reason: String, pid: u32 },
    /// The second start runs.
    Again,
    Over,
}

/// What came of a step.
#[derive(Debug, PartialEq, Eq)]
pub enum RestartEvent {
    /// The wait ended, with the process that serves the port by now.
    Waited { listener: Option<u32> },
    /// A start ended; `port_now` is the port that a launch would use now.
    Started { outcome: Result<(), StartError>, port_now: u16 },
    /// The Harness on the port, and whether its command line names the CLI.
    Listener { pid: Option<u32>, identified: bool },
    /// The answer of the user.
    Answered { retry: Retry },
}

/// The next step of a restart.
#[derive(Debug, PartialEq, Eq)]
pub enum RestartAction {
    /// Start, after the line went to the log, where there is one.
    Start { log: Option<String> },
    /// Find the Harness on the port.
    FindListener,
    /// Ask the user about it.
    Confirm { pid: u32 },
    /// Stop it alone, wait for the port, and start once more.
    TakeOver { pid: u32, log: String, status: String, detail: String },
    /// Over, with a line for the log where there is one.
    Finish { result: Result<(), String>, log: Option<String> },
}

/// Is this the next stage and step of a restart? An event that does not belong to the stage ends
/// the restart.
pub open spec fn restart_next(
    port: u16,
    stage: RestartStage,
    event: RestartEvent,
    after: RestartStage,
    action: RestartAction,
) -> bool {
    let here = "端口 "@ + decimal(port as nat);
    match (stage, event) {
        (RestartStage::Waiting, RestartEvent::Waited { listener }) => {
            &&& after is Starting
            &&& action matches RestartAction::Start { log }
            &&& opt_view(log) == (match listener {
                Some(pid) => Some(
                    here + " 在交接窗内已由 pid "@ + decimal(pid as nat)
                        + " 服务：交由启动流程处理（不采用它重放的 cwd）"@,
                ),
                None => None,
            })
        },
        (RestartStage::Starting, RestartEvent::Started { outcome: Ok(()), .. }) => after is Over
            && action == (RestartAction::Finish { result: Ok(()), log: None }),
        (RestartStage::Starting, RestartEvent::Started { outcome: Err(error), port_now }) =>
            if may_ask(error.declined, port, port_now) {
            after == (RestartStage::Looking { reason: error.reason }) && action is FindListener
        } else {
            &&& after is Over
            &&& action matches RestartAction::Finish { result: Err(reason), log: Some(line) }
            &&& reason@ == error.reason@
            &&& line@ == "本次启动失败（"@ + error.reason@ + "），用户已选择保留"@ + here + " 上的实例：不再追问"@
        },
        (RestartStage::Looking { reason }, RestartEvent::Listener { pid: None, .. }) => after is Over
            && action == (RestartAction::Finish { result: Err(reason), log: None }),
        (RestartStage::Looking { reason }, RestartEvent::Listener { pid: Some(pid), identified }) =>
            if identified {
            after == (RestartStage::Asking { reason, pid }) && action == (RestartAction::Confirm {
                pid,
            })
        } else {
            &&& after is Over
            &&& action matches RestartAction::Finish { result: Err(text), log: Some(line) }
            &&& text == reason
            &&& line@ == here + " 由 pid "@ + decimal(pid as nat) + " 服务，但无法确认它是 dsh web：不接管"@
        },
        (RestartStage::Asking { reason, pid }, RestartEvent::Answered { retry }) => match retry {
            Retry::TakeOver => {
                &&& after is Again
                &&& action matches RestartAction::TakeOver { pid: p, log, status, detail }
                &&& p == pid
                &&& log@ == "本次启动失败（"@ + reason@ + "），但"@ + here + " 已由 pid "@ + decimal(
                    pid as nat,
                ) + " 服务：接管后重试一次"@
                &&& status@ == "正在接管重新启动的 Harness…"@
                &&& detail@ == "pid "@ + decimal(pid as nat)
            },
            Retry::Declined => {
                &&& after is Over
                &&& action matches RestartAction::Finish { result: Err(text), log: Some(line) }
                &&& text == reason
                &&& line@ == "本次启动失败（"@ + reason@ + "），"@ + here + " 上的 pid "@ + decimal(
                    pid as nat,
                ) + " 已按用户选择保留"@
            },
            Retry::Refused => {
                &&& after is Over
                &&& action matches RestartAction::Finish { result: Err(text), log: Some(line) }
                &&& text == reason
                &&& line@ == "本次启动失败（"@ + reason@ + "），"@ + here + " 上的 pid "@ + decimal(
                    pid as nat,
                ) + " 未被接管：保留该实例"@
            },
        },
        (RestartStage::Again, RestartEvent::Started { outcome, .. }) => {
            &&& after is Over
            &&& action matches RestartAction::Finish { result, log: None }
            &&& match outcome {
                Ok(()) => result is Ok,
                Err(error) => result == Err::<(), String>(error.reason),
            }
        },
        _ => after is Over && action == (RestartAction::Finish { result: Ok(()), log: None }),
    }
}

/// Restarts the Harness step by step: waits out a handover, starts, and where that fails asks
/// about what took the port, at most once. Gives the next stage and step.
pub fn take_over_handoff_and_start(port: u16, stage: RestartStage, event: RestartEvent) -> (r: (
    RestartStage,
    RestartAction,
))
    ensures
        restart_next(port, stage, event, r.0, r.1),
{
    let here = glue("端口 ", decimal_text(port as u64).as_str());
    match (stage, event) {
        (RestartStage::Waiting, RestartEvent::Waited { listener }) => {
            let log = match listener {
                Some(pid) => Some(
                    glue4(
                        here.as_str(),
                        " 在交接窗内已由 pid ",
                        decimal_text(pid as u64).as_str(),
                        " 服务：交由启动流程处理（不采用它重放的 cwd）",
                    ),
                ),
                None => None,
            };
            (RestartStage::Starting, RestartAction::Start { log })
        },
        (RestartStage::Starting, RestartEvent::Started { outcome, port_now }) => match outcome {
            Ok(()) => (
                RestartStage::Over,
                RestartAction::Finish { result: Ok(()), log: None },
            ),
            Err(error) => {
                if may_ask_after_failure(&error, port, port_now) {
                    return (
                        RestartStage::Looking { reason: error.reason },
                        RestartAction::FindListener,
                    );
                }
                let line = glue5(
                    "本次启动失败（",
                    error.reason.as_str(),
                    "），用户已选择保留",
                    here.as_str(),
                    " 上的实例：不再追问",
                );
                (
                    RestartStage::Over,
                    RestartAction::Finish { result: Err(error.reason), log: Some(line) },
                )
            },
        },
        (RestartStage::Looking { reason }, RestartEvent::Listener { pid, identified }) => match pid {
            None => (
                RestartStage::Over,
                RestartAction::Finish { result: Err(reason), log: None },
            ),
            Some(pid) => if identified {
                (RestartStage::Asking { reason, pid }, RestartAction::Confirm { pid })
            } else {
                let line = glue4(
                    here.as_str(),
                    " 由 pid ",
                    decimal_text(pid as u64).as_str(),
                    " 服务，但无法确认它是 dsh web：不接管",
                );
                (
                    RestartStage::Over,
                    RestartAction::Finish { result: Err(reason), log: Some(line) },
                )
            },
        },
        (RestartStage::Asking { reason, pid }, RestartEvent::Answered { retry }) => {
            let number = decimal_text(pid as u64);
            match retry {
                Retry::TakeOver => {
                    let mut log = glue5(
                        "本次启动失败（",
                        reason.as_str(),
                        "），但",
                        here.as_str(),
                        " 已由 pid ",
                    );
                    log.append(number.as_str());
                    log.append(" 服务：接管后重试一次");
                    (
                        RestartStage::Again,
                        RestartAction::TakeOver {
                            pid,
                            log,
                            status: "正在接管重新启动的 Harness…".to_owned(),
                            detail: glue("pid ", number.as_str()),
                        },
                    )
                },
                Retry::Declined => {
                    let mut log = glue5(
                        "本次启动失败（",
                        reason.as_str(),
                        "），",
                        here.as_str(),
                        " 上的 pid ",
                    );
                    log.append(number.as_str());
                    log.append(" 已按用户选择保留");
                    (
                        RestartStage::Over,
                        RestartAction::Finish { result: Err(reason), log: Some(log) },
                    )
                },
                Retry::Refused => {
                    let mut log = glue5(
                        "本次启动失败（",
                        reason.as_str(),
                        "），",
                        here.as_str(),
                        " 上的 pid ",
                    );
                    log.append(number.as_str());
                    log.append(" 未被接管：保留该实例");
                    (
                        RestartStage::Over,
                        RestartAction::Finish { result: Err(reason), log: Some(log) },
                    )
                },
            }
        },
        (RestartStage::Again, RestartEvent::Started { outcome, .. }) => match outcome {
            Ok(()) => (
                RestartStage::Over,
                RestartAction::Finish { result: Ok(()), log: None },
            ),
            Err(error) => (
                RestartStage::Over,
                RestartAction::Finish { result: Err(error.reason), log: None },
            ),
        },
        _ => (RestartStage::Over, RestartAction::Finish { result: Ok(()), log: None }),
    }
}

/// A restart stops a process that it did not start in one case only: the process is proven to be
/// the CLI, and the user agreed. And where the user said no in the first start, or moved it to
/// another port, they are not asked again.
pub proof fn a_restart_asks_at_most_once(
    port: u16,
    stage: RestartStage,
    event: RestartEvent,
    after: RestartStage,
    action: RestartAction,
)
    requires
        restart_next(port, stage, event, after, action),
    ensures
        action is TakeOver ==> stage is Asking && event == (RestartEvent::Answered {
            retry: Retry::TakeOver,
        }),
        after is Asking ==> (event matches RestartEvent::Listener { identified, .. } && identified),
        stage is Starting && (event matches RestartEvent::Started { outcome: Err(error), port_now }
            && (error.declined || port_now != port)) ==> action is Finish,
{
}

/// The twenty ports above the configured one are looked at, from the next one up, as far as there
/// are so many.
pub proof fn the_next_ports_are_looked_at(from: u16, i: int)
    ensures
        from <= 65515 ==> ports_above(from).len() == 20,
        from <= 65515 && 0 <= i < 20 ==> ports_above(from)[i] == from + 1 + i,
        65515 < from < 65535 ==> ports_above(from).len() == 65535 - from,
        65515 < from < 65535 && 0 <= i < 65535 - from ==> ports_above(from)[i] == from + 1 + i,
{
}

/// The first of the ports that is free is taken, and none where none is.
pub proof fn the_first_free_port_is_taken(ports: Seq<u16>, free: Seq<bool>, k: int)
    requires
        free.len() == ports.len(),
        0 <= k <= ports.len(),
        forall|i: int| 0 <= i < k ==> !#[trigger] free[i],
        k < ports.len() ==> free[k],
    ensures
        first_free_port(ports, free) == (if k < ports.len() {
            Some(ports[k])
        } else {
            None
        }),
    decreases ports.len(),
{
    if k > 0 {
        let rest = ports.subrange(1, ports.len() as int);
        let left = free.subrange(1, free.len() as int);
        assert forall|i: int| 0 <= i < k - 1 implies !#[trigger] left[i] by {
            assert(left[i] == free[i + 1]);
        }
        assert(!free[0]);
        the_first_free_port_is_taken(rest, left, k - 1);
    }
}

/// A run of a minute starts the count over; a shorter one counts on, and the fourth in a row is
/// reported. After an exit that was asked for a replacement is given longer to come up.
pub proof fn when_an_exit_is_reported(uptime_secs: u64, previous: u32, clean: bool)
    requires
        previous < u32::MAX,
    ensures
        exit_judged(uptime_secs, previous, clean) == (if uptime_secs >= 60 {
            ExitAction::Recover {
                attempt: 1,
                grace_secs: if clean {
                    8
                } else {
                    2
                },
            }
        } else if previous < 3 {
            ExitAction::Recover {
                attempt: (previous + 1) as u32,
                grace_secs: if clean {
                    8
                } else {
                    2
                },
            }
        } else {
            ExitAction::Report
        }),
{
}

/// The signal that ended a process is named before its exit code, and a negative number shows its
/// sign in front of its digits.
pub proof fn an_ending_in_words(signal: i32, code: Option<i32>, n: nat)
    ensures
        exit_words(Some(signal), code) == "被信号 "@ + signed(signal as int) + " 终止"@,
        n > 0 ==> signed(-(n as int)) == seq!['-'] + decimal(n),
        signed(n as int) == decimal(n),
{
    reveal_strlit("-");
    assert("-"@ =~= seq!['-']);
}

/// A restart goes on from one step to the next as it should: the first start follows the wait; who
/// holds the port is looked up where that failed and the user may be asked; they are asked about
/// the process that was found, where it is proven to be the CLI; and that one is taken over where
/// they agree.
pub proof fn a_restart_goes_on(
    port: u16,
    stage: RestartStage,
    event: RestartEvent,
    after: RestartStage,
    action: RestartAction,
)
    requires
        restart_next(port, stage, event, after, action),
    ensures
        stage is Waiting && event is Waited ==> action is Start && after is Starting,
        stage is Starting && (event matches RestartEvent::Started { outcome: Err(error), port_now }
            && !error.declined && port_now == port) ==> action is FindListener && after is Looking,
        stage is Looking && (event matches RestartEvent::Listener { pid: Some(pid), identified: true
        }) ==> action == (RestartAction::Confirm { pid: event->Listener_pid->0 }) && (after matches
            RestartStage::Asking { pid, .. } && pid == event->Listener_pid->0),
        stage matches RestartStage::Asking { pid, .. } && event == (RestartEvent::Answered {
            retry: Retry::TakeOver,
        }) ==> after is Again && (action matches RestartAction::TakeOver { pid: taken, .. }
            && taken == stage->Asking_pid),
        (stage is Starting || stage is Again) && (event matches RestartEvent::Started {
            outcome: Ok(()),
            ..
        }) ==> (action matches RestartAction::Finish { result: Ok(()), .. }),
{
}

/// A restart that gives up says why the first start failed, and leaves what holds the port alone.
pub proof fn a_restart_that_gives_up_says_why(
    port: u16,
    stage: RestartStage,
    event: RestartEvent,
    after: RestartStage,
    action: RestartAction,
    why: String,
)
    requires
        restart_next(port, stage, event, after, action),
        (stage matches RestartStage::Looking { reason } && reason == why) || (stage matches
            RestartStage::Asking { reason, .. } && reason == why),
        stage is Looking ==> event is Listener,
        stage is Asking ==> event is Answered,
    ensures
        action is Confirm || action is TakeOver || (action matches RestartAction::Finish {
            result,
            ..
        } && result == Err::<(), String>(why)),
        action is Finish ==> after is Over,
{
}

} // verus!

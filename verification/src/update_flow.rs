//! The order in which an update happens, and what is recorded in between, so that a launch that
//! dies half-way can put the previous tree back.
use vstd::prelude::*;

use crate::harness::Probe;
use crate::number::decimal_text;
#[allow(unused_imports)]
use crate::number::decimal;
use crate::paths::{are_same_path, path_join};
#[allow(unused_imports)]
use crate::paths::{path_joined, same_path};
use crate::takeover::Retry;
use crate::text::{glue, glue3, glue4, glue5, text_eq};
use crate::transaction::{entry_of, version_label, DiskEvent, SwapRecord, Verified};
#[allow(unused_imports)]
use crate::transaction::{
    a_rollback_undoes_a_swap, all_or_nothing, at, entry_in, failed_place, rollback_start, rootless,
    run_commit, run_rollback, safe_label, Commit, CommitStage, Fate,
};
use crate::update::{Cache, MARKET_PLUGIN, PACKAGE};
#[allow(unused_imports)]
use crate::update::marked_failed;

verus! {

/// How many previous trees of the CLI are kept.
pub const ROLLBACK_GENERATIONS: usize = 2;

/// How many snapshots of a profile are kept.
pub const PROFILE_SNAPSHOTS: usize = 2;

/// Where an update keeps its working copies.
#[derive(Debug, Clone, PartialEq, Eq)]
pub struct UpdatePaths {
    pub staging: String,
    pub rollback: String,
    /// The record of a swap.
    pub swap: String,
    /// Where a profile is copied before it is rewritten.
    pub profiles: String,
}

impl UpdatePaths {
    pub fn new(runtime_root: &str, windows: bool) -> (r: UpdatePaths)
        ensures
            r.staging@ == path_joined(runtime_root@, "staging"@, windows),
            r.rollback@ == path_joined(runtime_root@, "rollback"@, windows),
            r.swap@ == path_joined(runtime_root@, "update-swap.json"@, windows),
            r.profiles@ == path_joined(runtime_root@, "profile-backup"@, windows),
    {
        UpdatePaths {
            staging: path_join(runtime_root, "staging", windows),
            rollback: path_join(runtime_root, "rollback", windows),
            swap: path_join(runtime_root, "update-swap.json", windows),
            profiles: path_join(runtime_root, "profile-backup", windows),
        }
    }
}

// ---------------------------------------------------------------------------------------------
// Updating the CLI
// ---------------------------------------------------------------------------------------------

/// The directory of the CLI in a prefix, whether it is there or not.
pub open spec fn cli_dir(prefix: Seq<char>, windows: bool) -> Seq<char> {
    path_joined(
        if windows {
            path_joined(prefix, "node_modules"@, windows)
        } else {
            path_joined(path_joined(prefix, "lib"@, windows), "node_modules"@, windows)
        },
        PACKAGE@,
        windows,
    )
}

/// The directory of the CLI in a prefix, as npm lays it out on the platform.
pub fn package_dir_in(prefix: &str, windows: bool) -> (r: String)
    ensures
        r@ == cli_dir(prefix@, windows),
{
    let modules = if windows {
        path_join(prefix, "node_modules", windows)
    } else {
        path_join(path_join(prefix, "lib", windows).as_str(), "node_modules", windows)
    };
    path_join(modules.as_str(), PACKAGE, windows)
}

/// An update of the CLI that was built and checked.
#[derive(Debug, Clone, PartialEq, Eq)]
pub struct StagedUpdate {
    /// The directory of the built package.
    pub dir: String,
    pub version: String,
    /// The live directory that it will replace.
    pub target: String,
    /// Where the live tree goes while the new one proves that it boots.
    pub backup: String,
}

/// An update that may be put in place, from a built tree that was checked. A tree that is the
/// live one already is no update.
pub fn stage_core_update(
    verified: Verified,
    to: &str,
    target_prefix: &str,
    paths: &UpdatePaths,
    windows: bool,
) -> (r: Result<StagedUpdate, String>)
    ensures
        ({
            let target = cli_dir(target_prefix@, windows);
            if same_path(verified.dir@, target, windows) {
                r matches Err(reason) && reason@ == "暂存目录与正在使用的 CLI 是同一个: "@ + target
            } else {
                &&& r matches Ok(staged)
                &&& staged.dir@ == verified.dir@
                &&& staged.version@ == verified.version@
                &&& staged.target@ == target
                &&& staged.backup@ == path_joined(paths.rollback@, safe_label(to@), windows)
            }
        }),
{
    let target = package_dir_in(target_prefix, windows);
    if are_same_path(verified.dir.as_str(), target.as_str(), windows) {
        return Err(glue("暂存目录与正在使用的 CLI 是同一个: ", target.as_str()));
    }
    let backup = path_join(paths.rollback.as_str(), version_label(to).as_str(), windows);
    Ok(StagedUpdate { dir: verified.dir, version: verified.version, target, backup })
}

/// A step of putting an update in place.
#[derive(Debug, PartialEq, Eq)]
pub enum CoreAction {
    /// Tell whether there is a live tree.
    Inspect { path: String },
    /// Write the record.
    WriteRecord { record: SwapRecord },
    /// Swap the trees.
    Commit { target: String, staged: String, backup: String },
    /// Remove the record.
    ClearRecord,
    /// Over: the script to start and its version, or what went wrong.
    Finish { result: Result<(String, String), String> },
}

/// How far putting an update in place has come.
#[derive(Debug, Clone, PartialEq, Eq)]
pub enum CoreStage<T> {
    Start,
    Looking,
    Recording,
    Swapping,
    Clearing { error: T },
    Over,
}

impl View for CoreStage<String> {
    type V = CoreStage<Seq<char>>;

    open spec fn view(&self) -> CoreStage<Seq<char>> {
        match self {
            CoreStage::Start => CoreStage::Start,
            CoreStage::Looking => CoreStage::Looking,
            CoreStage::Recording => CoreStage::Recording,
            CoreStage::Swapping => CoreStage::Swapping,
            CoreStage::Clearing { error } => CoreStage::Clearing { error: error@ },
            CoreStage::Over => CoreStage::Over,
        }
    }
}

/// Putting an update in place.
#[derive(Debug, Clone, PartialEq, Eq)]
pub struct CoreCommit {
    pub staged: StagedUpdate,
    /// The time, in Unix seconds.
    pub at: u64,
    /// Do the paths follow the rules of Windows?
    pub windows: bool,
    pub stage: CoreStage<String>,
}

/// What the next step is to be.
pub enum CoreStep {
    Inspect,
    WriteRecord { had_previous: bool },
    Commit,
    ClearRecord { error: Seq<char> },
    Succeed,
    Fail { reason: Seq<char> },
}

/// What the next step is to be.
pub open spec fn core_step(stage: CoreStage<Seq<char>>, event: DiskEvent<Seq<char>>) -> CoreStep {
    match stage {
        CoreStage::Start => CoreStep::Inspect,
        CoreStage::Looking => CoreStep::WriteRecord { had_previous: event is Present },
        CoreStage::Recording => match event {
            DiskEvent::Failed { reason } => CoreStep::Fail { reason },
            _ => CoreStep::Commit,
        },
        CoreStage::Swapping => match event {
            DiskEvent::Failed { reason } => CoreStep::ClearRecord { error: reason },
            _ => CoreStep::Succeed,
        },
        CoreStage::Clearing { error } => CoreStep::Fail { reason: error },
        CoreStage::Over => CoreStep::Succeed,
    }
}

/// The stage behind a step.
pub open spec fn core_stage(step: CoreStep) -> CoreStage<Seq<char>> {
    match step {
        CoreStep::Inspect => CoreStage::Looking,
        CoreStep::WriteRecord { .. } => CoreStage::Recording,
        CoreStep::Commit => CoreStage::Swapping,
        CoreStep::ClearRecord { error } => CoreStage::Clearing { error },
        CoreStep::Succeed => CoreStage::Over,
        CoreStep::Fail { .. } => CoreStage::Over,
    }
}

/// Is the action this step of the update?
pub open spec fn core_action(step: CoreStep, action: CoreAction, c: CoreCommit) -> bool {
    match step {
        CoreStep::Inspect => action matches CoreAction::Inspect { path } && path@
            == c.staged.target@,
        CoreStep::WriteRecord { had_previous } => {
            &&& action matches CoreAction::WriteRecord { record }
            &&& record.target@ == c.staged.target@
            &&& record.backup@ == c.staged.backup@
            &&& record.version@ == c.staged.version@
            &&& record.at == c.at
            &&& record.had_previous == Some(had_previous)
        },
        CoreStep::Commit => {
            &&& action matches CoreAction::Commit { target, staged, backup }
            &&& target@ == c.staged.target@
            &&& staged@ == c.staged.dir@
            &&& backup@ == c.staged.backup@
        },
        CoreStep::ClearRecord { .. } => action is ClearRecord,
        CoreStep::Succeed => action matches CoreAction::Finish { result: Ok((entry, version)) }
            && entry@ == entry_in(c.staged.target@, c.windows) && version@ == c.staged.version@,
        CoreStep::Fail { reason } => action matches CoreAction::Finish { result: Err(text) }
            && text@ == reason,
    }
}

/// Starts to put an update in place. The record of the swap is written before the live tree is
/// touched, and removed again where the swap fails.
pub fn commit_core_update(staged: StagedUpdate, at: u64, windows: bool) -> (r: CoreCommit)
    ensures
        r == (CoreCommit { staged, at, windows, stage: CoreStage::Start }),
{
    CoreCommit { staged, at, windows, stage: CoreStage::Start }
}

impl CoreCommit {
    /// The next step, after the last one went as the event says.
    pub fn next(&mut self, event: DiskEvent<String>) -> (r: CoreAction)
        ensures
            final(self).staged == old(self).staged,
            final(self).at == old(self).at,
            final(self).windows == old(self).windows,
            final(self).stage@ == core_stage(core_step(old(self).stage@, event@)),
            core_action(core_step(old(self).stage@, event@), r, *old(self)),
    {
        let mut stage = CoreStage::Over;
        std::mem::swap(&mut stage, &mut self.stage);
        match stage {
            CoreStage::Start => {
                self.stage = CoreStage::Looking;
                CoreAction::Inspect { path: self.staged.target.clone() }
            },
            CoreStage::Looking => {
                self.stage = CoreStage::Recording;
                let present = match event {
                    DiskEvent::Present => true,
                    _ => false,
                };
                CoreAction::WriteRecord {
                    record: SwapRecord {
                        target: self.staged.target.clone(),
                        backup: self.staged.backup.clone(),
                        version: self.staged.version.clone(),
                        at: self.at,
                        had_previous: Some(present),
                    },
                }
            },
            CoreStage::Recording => match event {
                DiskEvent::Failed { reason } => CoreAction::Finish { result: Err(reason) },
                _ => {
                    self.stage = CoreStage::Swapping;
                    CoreAction::Commit {
                        target: self.staged.target.clone(),
                        staged: self.staged.dir.clone(),
                        backup: self.staged.backup.clone(),
                    }
                },
            },
            CoreStage::Swapping => match event {
                DiskEvent::Failed { reason } => {
                    self.stage = CoreStage::Clearing { error: reason };
                    CoreAction::ClearRecord
                },
                _ => CoreAction::Finish {
                    result: Ok(
                        (
                            entry_of(self.staged.target.as_str(), self.windows),
                            self.staged.version.clone(),
                        ),
                    ),
                },
            },
            CoreStage::Clearing { error } => CoreAction::Finish { result: Err(error) },
            CoreStage::Over => CoreAction::Finish {
                result: Ok(
                    (
                        entry_of(self.staged.target.as_str(), self.windows),
                        self.staged.version.clone(),
                    ),
                ),
            },
        }
    }
}

/// What an update has left on the disk: the record, with what it says of an old tree, and
/// whether the live tree was replaced.
pub struct Left {
    pub record: Option<bool>,
    pub replaced: bool,
}

/// What a step leaves, where it works or not. A swap that fails has replaced nothing.
pub open spec fn leaves(left: Left, step: CoreStep, works: bool) -> Left {
    if !works {
        left
    } else {
        match step {
            CoreStep::WriteRecord { had_previous } => Left { record: Some(had_previous), ..left },
            CoreStep::Commit => Left { replaced: true, ..left },
            CoreStep::ClearRecord { .. } => Left { record: None, ..left },
            _ => left,
        }
    }
}

/// The event of a step that works or not, with a live tree there or not.
pub open spec fn event_of(step: CoreStep, works: bool, there: bool, reason: Seq<char>) -> DiskEvent<
    Seq<char>,
> {
    if step is Inspect {
        if there {
            DiskEvent::Present
        } else {
            DiskEvent::Absent
        }
    } else if works {
        DiskEvent::Done
    } else {
        DiskEvent::Failed { reason }
    }
}

/// What putting an update in place has left after a number of steps, with the stage it is in and
/// the event of the last step. `works[n]` tells whether the step works behind which `n` more
/// follow.
pub open spec fn run_core(
    stage: CoreStage<Seq<char>>,
    event: DiskEvent<Seq<char>>,
    left: Left,
    there: bool,
    works: Seq<bool>,
    reason: Seq<char>,
    steps: nat,
) -> (CoreStage<Seq<char>>, DiskEvent<Seq<char>>, Left)
    decreases steps,
{
    if steps == 0 {
        (stage, event, left)
    } else {
        let step = core_step(stage, event);
        run_core(
            core_stage(step),
            event_of(step, works[steps - 1], there, reason),
            leaves(left, step, works[steps - 1]),
            there,
            works,
            reason,
            (steps - 1) as nat,
        )
    }
}

/// What holds between any two steps.
spec fn in_order(
    stage: CoreStage<Seq<char>>,
    event: DiskEvent<Seq<char>>,
    left: Left,
    there: bool,
) -> bool {
    &&& left.replaced ==> left.record == Some(there)
    &&& stage is Start || stage is Looking || stage is Recording || stage is Clearing
        ==> !left.replaced
    &&& stage is Looking ==> (event is Present) == there
    &&& stage is Recording && !(event is Failed) ==> left.record == Some(there)
    &&& stage is Swapping ==> left.record == Some(there) && left.replaced == !(event is Failed)
}

proof fn lemma_stays_in_order(
    stage: CoreStage<Seq<char>>,
    event: DiskEvent<Seq<char>>,
    left: Left,
    there: bool,
    works: Seq<bool>,
    reason: Seq<char>,
    steps: nat,
)
    requires
        in_order(stage, event, left, there),
    ensures
        ({
            let (stage, event, left) = run_core(stage, event, left, there, works, reason, steps);
            in_order(stage, event, left, there)
        }),
    decreases steps,
{
    if steps > 0 {
        let step = core_step(stage, event);
        lemma_stays_in_order(
            core_stage(step),
            event_of(step, works[steps - 1], there, reason),
            leaves(left, step, works[steps - 1]),
            there,
            works,
            reason,
            (steps - 1) as nat,
        );
    }
}

/// Whenever a launch dies while it puts an update in place, after any number of steps and however
/// they went, the next launch finds what it needs to undo it: as long as the new tree is in
/// place, the record is there and says whether there was an old one. And where it reports a
/// failure, the live tree was not replaced.
pub proof fn a_dead_launch_is_recoverable(
    there: bool,
    works: Seq<bool>,
    reason: Seq<char>,
    steps: nat,
)
    ensures
        ({
            let (stage, event, left) = run_core(
                CoreStage::Start,
                DiskEvent::Started,
                Left { record: None, replaced: false },
                there,
                works,
                reason,
                steps,
            );
            &&& left.replaced ==> left.record == Some(there)
            &&& !(stage is Over) && core_step(stage, event) is Fail ==> !left.replaced
        }),
{
    lemma_stays_in_order(
        CoreStage::Start,
        DiskEvent::Started,
        Left { record: None, replaced: false },
        there,
        works,
        reason,
        steps,
    );
}

/// What an update records is what undoes it: where the swap and the rollback that its record asks
/// for both succeed, the live place holds what it held before, with and without a tree to keep,
/// and the new tree is kept beside it.
///
/// That takes of the disk what [`a_rollback_undoes_a_swap`] takes.
pub proof fn a_recorded_swap_is_undone(
    update: CoreCommit,
    record: SwapRecord,
    trees: Map<Seq<char>, int>,
    swapping: Seq<Fate>,
    rolling: Seq<Fate>,
)
    requires
        core_action(
            core_step(
                CoreStage::Looking,
                if trees.dom().contains(update.staged.target@) {
                    DiskEvent::Present
                } else {
                    DiskEvent::Absent
                },
            ),
            CoreAction::WriteRecord { record },
            update,
        ),
        update.staged.target@ != update.staged.dir@,
        update.staged.target@ != update.staged.backup@,
        update.staged.dir@ != update.staged.backup@,
        update.staged.target@ != failed_place(update.staged.target@, update.windows),
        update.staged.backup@ != failed_place(update.staged.target@, update.windows),
        update.staged.dir@ != failed_place(update.staged.target@, update.windows),
        trees.dom().contains(update.staged.dir@),
        swapping[4 + rootless(update.staged.target@, update.windows)].luck is Works,
        all_or_nothing(swapping[1 + rootless(update.staged.target@, update.windows)]),
        rolling[5].luck is Works,
        rolling[4].luck is Works,
        all_or_nothing(rolling[2]),
    ensures
        ({
            let target = update.staged.target@;
            let swap = Commit {
                target,
                staged: update.staged.dir@,
                backup: update.staged.backup@,
                windows: update.windows,
                stage: CommitStage::Start,
            };
            let (swapped, done) = run_commit(swap, DiskEvent::Started, trees, swapping, 6);
            let (after, undone) = run_rollback(
                rollback_start(
                    record.target@,
                    record.backup@,
                    record.had_previous,
                    update.windows,
                ),
                DiskEvent::Started,
                swapped,
                rolling,
                7,
            );
            done == Some(Ok::<(), Seq<char>>(())) && undone == Some(Ok::<(), Seq<char>>(())) ==> {
                &&& after.dom().contains(target) == trees.dom().contains(target)
                &&& trees.dom().contains(target) ==> at(after, target, trees[target])
                &&& at(after, failed_place(target, update.windows), trees[update.staged.dir@])
            }
        }),
{
    a_rollback_undoes_a_swap(
        update.staged.target@,
        update.staged.dir@,
        update.staged.backup@,
        trees,
        swapping,
        rolling,
        update.windows,
    );
}

/// What is left to do after a rollback.
#[derive(Debug, Clone, PartialEq, Eq)]
pub struct RolledBack {
    /// The lines for the log.
    pub log: Vec<String>,
    /// Remove the record, and the trees beyond those to keep.
    pub clear: bool,
    /// Is the previous tree back in place?
    pub back: bool,
}

/// What follows on the rollback of a swap that this launch made; `outcome` is how the rollback of
/// the record, [`crate::transaction::roll_back`], ended. The record stays where it failed: the next
/// launch tries again.
pub fn roll_back_core_update(record: &SwapRecord, outcome: Result<(), String>) -> (r: RolledBack)
    ensures
        r.back == (outcome is Ok),
        r.clear == (outcome is Ok),
        r.log@.len() == 1,
        r.log@[0]@ == (match outcome {
            Ok(()) => "v"@ + record.version@ + " 未能启动，已回滚到上一棵树（"@ + record.backup@
                + "）"@,
            Err(error) => "回滚失败，保留记录以便下次重试: "@ + error@,
        }),
{
    let back = outcome.is_ok();
    let line = match outcome {
        Ok(()) => glue5(
            "v",
            record.version.as_str(),
            " 未能启动，已回滚到上一棵树（",
            record.backup.as_str(),
            "）",
        ),
        Err(error) => glue("回滚失败，保留记录以便下次重试: ", error.as_str()),
    };
    let mut log: Vec<String> = Vec::new();
    log.push(line);
    RolledBack { log, clear: back, back }
}

/// What follows on the rollback of a swap that an earlier launch made and never confirmed, with
/// `outcome` for how the rollback of the record ended, and the answer to remember: the version that did not boot is marked as failed.
pub fn recover_pending_swap(
    record: &SwapRecord,
    outcome: Result<(), String>,
    cache: Option<Cache>,
    now: u64,
) -> (r: (RolledBack, Option<Cache>))
    ensures
        r.0.back == (outcome is Ok),
        r.0.clear == (outcome is Ok),
        r.0.log@.len() == 2,
        r.0.log@[0]@ == "上次更新到 v"@ + record.version@
            + " 的切换没有完成（CLI 未启动成功），正在回滚到 "@ + record.backup@ + " 中的上一棵树"@,
        r.0.log@[1]@ == (match outcome {
            Ok(()) => "已回滚 "@ + record.target@,
            Err(error) => "回滚失败，保留记录以便下次重试: "@ + error@,
        }),
        (match (outcome, cache) {
            (Ok(()), Some(before)) => r.1 matches Some(after) && marked_failed(
                before,
                after,
                record.version@,
                now,
            ),
            _ => r.1 == cache,
        }),
{
    let mut log: Vec<String> = Vec::new();
    log.push(
        glue5(
            "上次更新到 v",
            record.version.as_str(),
            " 的切换没有完成（CLI 未启动成功），正在回滚到 ",
            record.backup.as_str(),
            " 中的上一棵树",
        ),
    );
    match outcome {
        Ok(()) => {
            log.push(glue("已回滚 ", record.target.as_str()));
            let marked = crate::update::mark_core_attempt_failed(
                cache,
                record.version.as_str(),
                now,
            );
            (RolledBack { log, clear: true, back: true }, marked)
        },
        Err(error) => {
            log.push(glue("回滚失败，保留记录以便下次重试: ", error.as_str()));
            (RolledBack { log, clear: false, back: false }, cache)
        },
    }
}

/// The line about a built tree that a dead launch left behind.
pub fn clear_stale_staging(path: &str, outcome: Result<(), String>) -> (r: String)
    ensures
        r@ == (match outcome {
            Ok(()) => "清理上次遗留的暂存目录 "@ + path@,
            Err(error) => "无法清理 "@ + path@ + ": "@ + error@,
        }),
{
    match outcome {
        Ok(()) => glue("清理上次遗留的暂存目录 ", path),
        Err(error) => glue4("无法清理 ", path, ": ", error.as_str()),
    }
}

// ---------------------------------------------------------------------------------------------
// Stopping what serves from the tree
// ---------------------------------------------------------------------------------------------

/// May what owns the port be stopped for an update? A Harness may, once the user agreed where it
/// is not ours; any other program may not.
pub fn may_stop_before_update(probe: Probe) -> (r: Result<(), String>)
    ensures
        (match probe {
            Probe::Other => r matches Err(reason) && reason@ == "端口被其它程序占用，跳过本次更新"@,
            _ => r is Ok,
        }),
{
    match probe {
        Probe::Other => Err("端口被其它程序占用，跳过本次更新".to_owned()),
        _ => Ok(()),
    }
}

/// How the instance on the port is stopped.
#[derive(Debug, Clone, Copy, PartialEq, Eq, Structural)]
pub enum StopMode {
    /// With its whole process group, which this shell created.
    ProcessGroup,
    /// Alone: its group is that of whoever started it.
    PidOnly,
}

/// How an instance is stopped: only our own by its group.
pub fn stop_mode(ours: bool) -> (r: StopMode)
    ensures
        r == (if ours {
            StopMode::ProcessGroup
        } else {
            StopMode::PidOnly
        }),
{
    if ours {
        StopMode::ProcessGroup
    } else {
        StopMode::PidOnly
    }
}

/// How an instance is stopped, in words.
pub open spec fn mode_text(mode: StopMode) -> Seq<char> {
    match mode {
        StopMode::ProcessGroup => "process group, our own instance"@,
        StopMode::PidOnly => "pid only, external instance"@,
    }
}

impl StopMode {
    /// How an instance is stopped, in words.
    pub fn describe(&self) -> (r: &'static str)
        ensures
            r@ == mode_text(*self),
    {
        match self {
            StopMode::ProcessGroup => "process group, our own instance",
            StopMode::PidOnly => "pid only, external instance",
        }
    }
}

/// A step of stopping the instance on the port before an update.
#[derive(Debug, PartialEq, Eq)]
pub enum StopFlowAction {
    /// See what answers on the port.
    Probe,
    /// Find who listens there, and read the record of our own instance.
    FindOwner,
    /// Ask the user.
    Confirm { pid: u32 },
    /// Show the detail, and stop the process.
    Terminate { pid: u32, mode: StopMode, detail: String },
    /// See whether the port is free by now.
    Poll,
    /// Over. Where it succeeded, `log` is the line for the log, if any, and `clear_state` tells
    /// whether the record of our own instance goes.
    Finish { result: Result<(), String>, clear_state: bool, log: Option<String> },
}

/// What came of a step.
#[derive(Debug, Clone, Copy, PartialEq, Eq, Structural)]
pub enum StopFlowEvent {
    Started,
    Probed { probe: Probe },
    /// Who listens; the pid in the record; and whether that process is alive.
    Owner { listener: Option<u32>, recorded: Option<u32>, alive: bool },
    Answered { retry: Retry },
    Stopped,
    Polled { probe: Probe, late: bool },
}

/// How far the stop has come.
#[derive(Debug, Clone, Copy, PartialEq, Eq, Structural)]
pub enum StopFlowStage {
    Start,
    Probing,
    Owning { probe: Probe },
    Asking { pid: u32 },
    Stopping { pid: u32, mode: StopMode },
    Waiting { pid: u32, mode: StopMode },
    Over,
}

/// What the next step is to be.
pub enum StopFlowStep {
    Probe,
    FindOwner { probe: Probe },
    Confirm { pid: u32 },
    Terminate { pid: u32, mode: StopMode },
    Poll { pid: u32, mode: StopMode },
    /// Nothing was running.
    Free,
    Stopped { pid: u32, mode: StopMode },
    Fail { reason: Seq<char> },
}

/// Is the listener the recorded process, and alive?
pub open spec fn is_ours(listener: Option<u32>, recorded: Option<u32>, alive: bool) -> bool {
    recorded is Some && recorded == listener && alive
}

/// What the next step is to be. An event that does not belong to the stage ends the stop.
pub open spec fn stop_flow_step(
    port: u16,
    stage: StopFlowStage,
    event: StopFlowEvent,
) -> StopFlowStep {
    let confused = StopFlowStep::Fail { reason: "端口被其它程序占用，跳过本次更新"@ };
    match (stage, event) {
        (StopFlowStage::Start, _) => StopFlowStep::Probe,
        (StopFlowStage::Probing, StopFlowEvent::Probed { probe }) => if probe == Probe::Closed {
            StopFlowStep::Free
        } else {
            StopFlowStep::FindOwner { probe }
        },
        (StopFlowStage::Owning { probe }, StopFlowEvent::Owner { listener, recorded, alive }) =>
            if probe == Probe::Other {
            confused
        } else {
            match listener {
                None => StopFlowStep::Fail {
                    reason: "端口 "@ + decimal(port as nat)
                        + " 上已有 Harness，但无法确定它的进程（lsof 不可用），跳过本次更新"@,
                },
                Some(pid) => if is_ours(listener, recorded, alive) {
                    StopFlowStep::Terminate { pid, mode: StopMode::ProcessGroup }
                } else {
                    StopFlowStep::Confirm { pid }
                },
            }
        },
        (StopFlowStage::Asking { pid }, StopFlowEvent::Answered { retry }) => if retry
            == Retry::TakeOver {
            StopFlowStep::Terminate { pid, mode: StopMode::PidOnly }
        } else {
            StopFlowStep::Fail {
                reason: "端口 "@ + decimal(port as nat) + " 上的外部 Harness（pid "@ + decimal(
                    pid as nat,
                ) + "）没有被接管，跳过本次更新"@,
            }
        },
        (StopFlowStage::Stopping { pid, mode }, _) => StopFlowStep::Poll { pid, mode },
        (StopFlowStage::Waiting { pid, mode }, StopFlowEvent::Polled { probe, late }) => if probe
            == Probe::Closed {
            StopFlowStep::Stopped { pid, mode }
        } else if late {
            StopFlowStep::Fail {
                reason: "停止 pid "@ + decimal(pid as nat) + " 后端口 "@ + decimal(port as nat)
                    + " 仍被占用，跳过本次更新"@,
            }
        } else {
            StopFlowStep::Poll { pid, mode }
        },
        _ => confused,
    }
}

/// The stage behind a step.
pub open spec fn stop_flow_stage(step: StopFlowStep) -> StopFlowStage {
    match step {
        StopFlowStep::Probe => StopFlowStage::Probing,
        StopFlowStep::FindOwner { probe } => StopFlowStage::Owning { probe },
        StopFlowStep::Confirm { pid } => StopFlowStage::Asking { pid },
        StopFlowStep::Terminate { pid, mode } => StopFlowStage::Stopping { pid, mode },
        StopFlowStep::Poll { pid, mode } => StopFlowStage::Waiting { pid, mode },
        _ => StopFlowStage::Over,
    }
}

/// Is the action this step?
pub open spec fn stop_flow_action(step: StopFlowStep, action: StopFlowAction) -> bool {
    match step {
        StopFlowStep::Probe => action is Probe,
        StopFlowStep::FindOwner { .. } => action is FindOwner,
        StopFlowStep::Confirm { pid } => action == (StopFlowAction::Confirm { pid }),
        StopFlowStep::Terminate { pid, mode } => {
            &&& action matches StopFlowAction::Terminate { pid: p, mode: m, detail }
            &&& p == pid
            &&& m == mode
            &&& detail@ == "pid "@ + decimal(pid as nat) + "（"@ + mode_text(mode) + "）"@
        },
        StopFlowStep::Poll { .. } => action is Poll,
        StopFlowStep::Free => action == (StopFlowAction::Finish {
            result: Ok(()),
            clear_state: false,
            log: None,
        }),
        StopFlowStep::Stopped { pid, mode } => {
            &&& action matches StopFlowAction::Finish { result: Ok(()), clear_state, log: Some(line) }
            &&& clear_state == (mode == StopMode::ProcessGroup)
            &&& line@ == "stopped Harness pid "@ + decimal(pid as nat)
                + " before updating the CLI ("@ + mode_text(mode) + ")"@
        },
        StopFlowStep::Fail { reason } => {
            &&& action matches StopFlowAction::Finish {
                result: Err(text),
                clear_state: false,
                log: None,
            }
            &&& text@ == reason
        },
    }
}

fn stop_flow_fail(reason: String) -> (r: StopFlowAction)
    ensures
        stop_flow_action(StopFlowStep::Fail { reason: reason@ }, r),
{
    StopFlowAction::Finish { result: Err(reason), clear_state: false, log: None }
}

fn stop_flow_terminate(pid: u32, mode: StopMode) -> (r: (StopFlowStage, StopFlowAction))
    ensures
        r.0 == stop_flow_stage(StopFlowStep::Terminate { pid, mode }),
        stop_flow_action(StopFlowStep::Terminate { pid, mode }, r.1),
{
    let detail = glue5("pid ", decimal_text(pid as u64).as_str(), "（", mode.describe(), "）");
    (StopFlowStage::Stopping { pid, mode }, StopFlowAction::Terminate { pid, mode, detail })
}

/// Stops whatever Harness owns the port, step by step, so that an install cannot rewrite the tree
/// that it serves from. Gives the next step, and the stage behind it.
pub fn stop_instance_before_update(port: u16, stage: StopFlowStage, event: StopFlowEvent) -> (r: (
    StopFlowStage,
    StopFlowAction,
))
    ensures
        r.0 == stop_flow_stage(stop_flow_step(port, stage, event)),
        stop_flow_action(stop_flow_step(port, stage, event), r.1),
{
    match (stage, event) {
        (StopFlowStage::Start, _) => (StopFlowStage::Probing, StopFlowAction::Probe),
        (StopFlowStage::Probing, StopFlowEvent::Probed { probe }) => match probe {
            Probe::Closed => (
                StopFlowStage::Over,
                StopFlowAction::Finish { result: Ok(()), clear_state: false, log: None },
            ),
            _ => (StopFlowStage::Owning { probe }, StopFlowAction::FindOwner),
        },
        (StopFlowStage::Owning { probe }, StopFlowEvent::Owner { listener, recorded, alive }) => {
            match may_stop_before_update(probe) {
                Ok(()) => {},
                Err(reason) => {
                    return (StopFlowStage::Over, stop_flow_fail(reason));
                },
            }
            let pid: u32 = match listener {
                Some(pid) => pid,
                None => {
                    let reason = glue3(
                        "端口 ",
                        decimal_text(port as u64).as_str(),
                        " 上已有 Harness，但无法确定它的进程（lsof 不可用），跳过本次更新",
                    );
                    return (StopFlowStage::Over, stop_flow_fail(reason));
                },
            };
            let ours = match recorded {
                Some(known) => known == pid && alive,
                None => false,
            };
            if ours {
                stop_flow_terminate(pid, stop_mode(true))
            } else {
                (StopFlowStage::Asking { pid }, StopFlowAction::Confirm { pid })
            }
        },
        (StopFlowStage::Asking { pid }, StopFlowEvent::Answered { retry }) => match retry {
            Retry::TakeOver => stop_flow_terminate(pid, stop_mode(false)),
            _ => {
                let reason = glue5(
                    "端口 ",
                    decimal_text(port as u64).as_str(),
                    " 上的外部 Harness（pid ",
                    decimal_text(pid as u64).as_str(),
                    "）没有被接管，跳过本次更新",
                );
                (StopFlowStage::Over, stop_flow_fail(reason))
            },
        },
        (StopFlowStage::Stopping { pid, mode }, _) => (
            StopFlowStage::Waiting { pid, mode },
            StopFlowAction::Poll,
        ),
        (StopFlowStage::Waiting { pid, mode }, StopFlowEvent::Polled { probe, late }) =>
            match probe {
            Probe::Closed => {
                let line = glue5(
                    "stopped Harness pid ",
                    decimal_text(pid as u64).as_str(),
                    " before updating the CLI (",
                    mode.describe(),
                    ")",
                );
                let clear_state = match mode {
                    StopMode::ProcessGroup => true,
                    StopMode::PidOnly => false,
                };
                (
                    StopFlowStage::Over,
                    StopFlowAction::Finish { result: Ok(()), clear_state, log: Some(line) },
                )
            },
            _ => if late {
                let reason = glue5(
                    "停止 pid ",
                    decimal_text(pid as u64).as_str(),
                    " 后端口 ",
                    decimal_text(port as u64).as_str(),
                    " 仍被占用，跳过本次更新",
                );
                (StopFlowStage::Over, stop_flow_fail(reason))
            } else {
                (StopFlowStage::Waiting { pid, mode }, StopFlowAction::Poll)
            },
        },
        _ => (
            StopFlowStage::Over,
            stop_flow_fail("端口被其它程序占用，跳过本次更新".to_owned()),
        ),
    }
}

/// A process is stopped before an update in two cases only: it is our own, by the record and
/// alive, and then with its group; or the user agreed, and then alone. A program that is no
/// Harness is never stopped.
pub proof fn a_foreign_instance_is_stopped_only_with_consent(
    port: u16,
    stage: StopFlowStage,
    event: StopFlowEvent,
    pid: u32,
    mode: StopMode,
)
    requires
        stop_flow_step(port, stage, event) == (StopFlowStep::Terminate { pid, mode }),
    ensures
        mode == StopMode::ProcessGroup ==> {
            &&& stage matches StopFlowStage::Owning { probe }
            &&& probe != Probe::Other
            &&& event matches StopFlowEvent::Owner { listener, recorded, alive }
            &&& listener == Some(pid)
            &&& recorded == Some(pid)
            &&& alive
        },
        mode == StopMode::PidOnly ==> stage == (StopFlowStage::Asking { pid }) && event == (
        StopFlowEvent::Answered { retry: Retry::TakeOver }),
{
}

// ---------------------------------------------------------------------------------------------
// Updating the plugin market
// ---------------------------------------------------------------------------------------------

/// A step of updating the plugin market.
#[derive(Debug, PartialEq, Eq)]
pub enum MarketAction {
    /// Stop what serves from the profile.
    StopInstance,
    /// Copy the profile aside.
    Snapshot,
    /// Let the CLI install the plugin.
    Install,
    /// Read the version that the profile loads now.
    ReadInstalled,
    /// Put the profile back.
    Restore,
    /// Over. Tells whether the profile loads another version, what to remember of the attempt,
    /// and the line for the log.
    Finish { changed: bool, mark: Mark, log: String },
}

/// What to remember of an install.
#[derive(Debug, Clone, Copy, PartialEq, Eq, Structural)]
pub enum Mark {
    Nothing,
    /// It changed nothing.
    Ineffective,
    /// It failed.
    Failed,
}

/// What came of a step.
#[derive(Debug, Clone, PartialEq, Eq)]
pub enum MarketEvent<T> {
    Started,
    Done,
    Failed { reason: T },
    Installed { version: Option<T> },
}

impl View for MarketEvent<String> {
    type V = MarketEvent<Seq<char>>;

    open spec fn view(&self) -> MarketEvent<Seq<char>> {
        match self {
            MarketEvent::Started => MarketEvent::Started,
            MarketEvent::Done => MarketEvent::Done,
            MarketEvent::Failed { reason } => MarketEvent::Failed { reason: reason@ },
            MarketEvent::Installed { version } => MarketEvent::Installed {
                version: crate::text::opt_view(*version),
            },
        }
    }
}

/// How far the update of the plugin market has come.
#[derive(Debug, Clone, PartialEq, Eq)]
pub enum MarketStage<T> {
    Start,
    Stopping,
    Snapshotting,
    Installing,
    Reading,
    Restoring { reason: T },
    Over,
}

impl View for MarketStage<String> {
    type V = MarketStage<Seq<char>>;

    open spec fn view(&self) -> MarketStage<Seq<char>> {
        match self {
            MarketStage::Start => MarketStage::Start,
            MarketStage::Stopping => MarketStage::Stopping,
            MarketStage::Snapshotting => MarketStage::Snapshotting,
            MarketStage::Installing => MarketStage::Installing,
            MarketStage::Reading => MarketStage::Reading,
            MarketStage::Restoring { reason } => MarketStage::Restoring { reason: reason@ },
            MarketStage::Over => MarketStage::Over,
        }
    }
}

/// The update of the plugin market from one version to another.
#[derive(Debug, Clone, PartialEq, Eq)]
pub struct MarketUpdate {
    pub from: String,
    pub to: String,
    pub stage: MarketStage<String>,
}

/// What the next step is to be.
pub enum MarketStep {
    StopInstance,
    Snapshot,
    Install,
    ReadInstalled,
    Restore { reason: Seq<char> },
    Finish { changed: bool, mark: Mark, log: Seq<char> },
}

/// What the next step is to be.
pub open spec fn market_step(
    from: Seq<char>,
    stage: MarketStage<Seq<char>>,
    event: MarketEvent<Seq<char>>,
) -> MarketStep {
    match stage {
        MarketStage::Start => MarketStep::StopInstance,
        MarketStage::Stopping => match event {
            MarketEvent::Failed { reason } => MarketStep::Finish {
                changed: false,
                mark: Mark::Nothing,
                log: "plugin update deferred, keeping v"@ + from + ": "@ + reason,
            },
            _ => MarketStep::Snapshot,
        },
        MarketStage::Snapshotting => match event {
            MarketEvent::Failed { reason } => MarketStep::Finish {
                changed: false,
                mark: Mark::Nothing,
                log: "plugin update deferred, keeping v"@ + from + ": 无法快照 profile: "@ + reason,
            },
            _ => MarketStep::Install,
        },
        MarketStage::Installing => match event {
            MarketEvent::Failed { reason } => MarketStep::Restore { reason },
            _ => MarketStep::ReadInstalled,
        },
        MarketStage::Reading => {
            let after = match event {
                MarketEvent::Installed { version: Some(version) } => version,
                _ => Seq::empty(),
            };
            if after == from {
                MarketStep::Finish {
                    changed: false,
                    mark: Mark::Ineffective,
                    log: "plugin installed but the profile still loads "@ + MARKET_PLUGIN@ + " "@
                        + from,
                }
            } else {
                MarketStep::Finish {
                    changed: true,
                    mark: Mark::Nothing,
                    log: "plugin updated: "@ + MARKET_PLUGIN@ + " "@ + from + " -> "@ + after,
                }
            }
        },
        MarketStage::Restoring { reason } => MarketStep::Finish {
            changed: false,
            mark: Mark::Failed,
            log: "plugin update failed, keeping v"@ + from + ": "@ + reason + (match event {
                MarketEvent::Failed { reason: error } => "（profile 恢复失败: "@ + error + "）"@,
                _ => "（已从快照恢复 profile）"@,
            }),
        },
        MarketStage::Over => MarketStep::Finish {
            changed: false,
            mark: Mark::Nothing,
            log: Seq::empty(),
        },
    }
}

/// The stage behind a step.
pub open spec fn market_stage(step: MarketStep) -> MarketStage<Seq<char>> {
    match step {
        MarketStep::StopInstance => MarketStage::Stopping,
        MarketStep::Snapshot => MarketStage::Snapshotting,
        MarketStep::Install => MarketStage::Installing,
        MarketStep::ReadInstalled => MarketStage::Reading,
        MarketStep::Restore { reason } => MarketStage::Restoring { reason },
        MarketStep::Finish { .. } => MarketStage::Over,
    }
}

/// Is the action this step?
pub open spec fn market_action(step: MarketStep, action: MarketAction) -> bool {
    match step {
        MarketStep::StopInstance => action is StopInstance,
        MarketStep::Snapshot => action is Snapshot,
        MarketStep::Install => action is Install,
        MarketStep::ReadInstalled => action is ReadInstalled,
        MarketStep::Restore { .. } => action is Restore,
        MarketStep::Finish { changed, mark, log } => {
            &&& action matches MarketAction::Finish { changed: c, mark: m, log: l }
            &&& c == changed
            &&& m == mark
            &&& l@ == log
        },
    }
}

/// Where the profile is kept while its plugins are rewritten.
pub fn snapshot_profile(paths: &UpdatePaths, label: &str, windows: bool) -> (r: String)
    ensures
        r@ == path_joined(paths.profiles@, safe_label(label@), windows),
{
    path_join(paths.profiles.as_str(), version_label(label).as_str(), windows)
}

/// Starts to install a newer plugin market, with a snapshot of the profile to fall back on.
pub fn update_market_plugin(from: &str, to: &str) -> (r: MarketUpdate)
    ensures
        r.from@ == from@,
        r.to@ == to@,
        r.stage is Start,
{
    MarketUpdate { from: from.to_owned(), to: to.to_owned(), stage: MarketStage::Start }
}

fn market_finish(changed: bool, mark: Mark, log: String) -> (r: MarketAction)
    ensures
        market_action(MarketStep::Finish { changed, mark, log: log@ }, r),
{
    MarketAction::Finish { changed, mark, log }
}

impl MarketUpdate {
    /// What is reported of what the profile loads after an install.
    fn read(&self, version: Option<String>) -> (r: MarketAction)
        ensures
            market_action(
                market_step(
                    self.from@,
                    MarketStage::Reading,
                    MarketEvent::Installed { version: crate::text::opt_view(version) },
                ),
                r,
            ),
    {
        let after = match version {
            Some(version) => version,
            None => String::new(),
        };
        if text_eq(after.as_str(), self.from.as_str()) {
            let log = glue4(
                "plugin installed but the profile still loads ",
                MARKET_PLUGIN,
                " ",
                self.from.as_str(),
            );
            return market_finish(false, Mark::Ineffective, log);
        }
        let mut log = glue5("plugin updated: ", MARKET_PLUGIN, " ", self.from.as_str(), " -> ");
        log.append(after.as_str());
        market_finish(true, Mark::Nothing, log)
    }

    /// The next step, after the last one went as the event says.
    pub fn next(&mut self, event: MarketEvent<String>) -> (r: MarketAction)
        ensures
            final(self).from == old(self).from,
            final(self).to == old(self).to,
            final(self).stage@ == market_stage(
                market_step(old(self).from@, old(self).stage@, event@),
            ),
            market_action(market_step(old(self).from@, old(self).stage@, event@), r),
    {
        let mut stage = MarketStage::Over;
        std::mem::swap(&mut stage, &mut self.stage);
        match stage {
            MarketStage::Start => {
                self.stage = MarketStage::Stopping;
                MarketAction::StopInstance
            },
            MarketStage::Stopping => match event {
                MarketEvent::Failed { reason } => market_finish(
                    false,
                    Mark::Nothing,
                    glue4(
                        "plugin update deferred, keeping v",
                        self.from.as_str(),
                        ": ",
                        reason.as_str(),
                    ),
                ),
                _ => {
                    self.stage = MarketStage::Snapshotting;
                    MarketAction::Snapshot
                },
            },
            MarketStage::Snapshotting => match event {
                MarketEvent::Failed { reason } => market_finish(
                    false,
                    Mark::Nothing,
                    glue4(
                        "plugin update deferred, keeping v",
                        self.from.as_str(),
                        ": 无法快照 profile: ",
                        reason.as_str(),
                    ),
                ),
                _ => {
                    self.stage = MarketStage::Installing;
                    MarketAction::Install
                },
            },
            MarketStage::Installing => match event {
                MarketEvent::Failed { reason } => {
                    self.stage = MarketStage::Restoring { reason };
                    MarketAction::Restore
                },
                _ => {
                    self.stage = MarketStage::Reading;
                    MarketAction::ReadInstalled
                },
            },
            MarketStage::Reading => match event {
                MarketEvent::Installed { version } => self.read(version),
                _ => self.read(None),
            },
            MarketStage::Restoring { reason } => {
                let mut log = glue4(
                    "plugin update failed, keeping v",
                    self.from.as_str(),
                    ": ",
                    reason.as_str(),
                );
                match event {
                    MarketEvent::Failed { reason } => {
                        let note = glue3("（profile 恢复失败: ", reason.as_str(), "）");
                        log.append(note.as_str());
                    },
                    _ => {
                        log.append("（已从快照恢复 profile）");
                    },
                }
                market_finish(false, Mark::Failed, log)
            },
            MarketStage::Over => market_finish(false, Mark::Nothing, String::new()),
        }
    }
}

/// Nothing is installed into a profile of which there is no snapshot, or while something may
/// serve from it; and an install that failed is always followed by putting the snapshot back.
pub proof fn a_plugin_install_is_reversible(
    from: Seq<char>,
    stage: MarketStage<Seq<char>>,
    event: MarketEvent<Seq<char>>,
)
    ensures
        market_step(from, stage, event) is Install ==> stage is Snapshotting && !(event is Failed),
        market_step(from, stage, event) is Snapshot ==> stage is Stopping && !(event is Failed),
        stage is Installing && event is Failed ==> market_step(from, stage, event) is Restore,
        market_step(from, stage, event) matches MarketStep::Finish { changed, .. } && changed
            ==> stage is Reading,
{
}

/// An update of which every step works is put in place, and reported so: the tree is looked at,
/// the swap is recorded, and then made.
pub proof fn an_update_that_works_is_in_place(there: bool, reason: Seq<char>)
    ensures
        ({
            let (stage, event, left) = run_core(
                CoreStage::Start,
                DiskEvent::Started,
                Left { record: None, replaced: false },
                there,
                seq![true, true, true],
                reason,
                3,
            );
            &&& left.replaced
            &&& left.record == Some(there)
            &&& core_step(stage, event) is Succeed
        }),
{
    reveal_with_fuel(run_core, 4);
}

/// A swap that cannot be recorded is not made, and one that fails takes its record back; both are
/// reported as what went wrong.
pub proof fn an_update_that_fails_says_why(there: bool, reason: Seq<char>)
    ensures
        core_step(CoreStage::Recording, DiskEvent::Failed { reason }) == (CoreStep::Fail {
            reason,
        }),
        core_step(CoreStage::Recording, DiskEvent::Done) is Commit,
        core_step(CoreStage::Swapping, DiskEvent::Failed { reason }) == (CoreStep::ClearRecord {
            error: reason,
        }),
        core_step(CoreStage::Clearing { error: reason }, DiskEvent::Done) == (CoreStep::Fail {
            reason,
        }),
        ({
            let (stage, event, left) = run_core(
                CoreStage::Start,
                DiskEvent::Started,
                Left { record: None, replaced: false },
                there,
                seq![true, false, true, true],
                reason,
                4,
            );
            &&& !left.replaced
            &&& left.record is None
            &&& core_step(stage, event) == (CoreStep::Fail { reason })
        }),
{
    reveal_with_fuel(run_core, 5);
}

/// Where the CLI lies in a prefix.
pub proof fn where_the_cli_lies(prefix: Seq<char>)
    requires
        prefix.len() > 0 && prefix.last() != '/',
    ensures
        cli_dir(prefix, false) == prefix + "/lib/node_modules/@deepseek-ai/dsh"@,
{
    reveal_strlit("lib");
    reveal_strlit("node_modules");
    reveal_strlit("@deepseek-ai/dsh");
    reveal_strlit("/lib/node_modules/@deepseek-ai/dsh");
    crate::paths::a_name_is_joined_with_a_slash(prefix, "lib"@);
    let a = prefix + seq!['/'] + "lib"@;
    assert(a.last() == 'b');
    crate::paths::a_name_is_joined_with_a_slash(a, "node_modules"@);
    let b = a + seq!['/'] + "node_modules"@;
    assert(b.last() == 's');
    crate::paths::a_name_is_joined_with_a_slash(b, "@deepseek-ai/dsh"@);
    assert(b + seq!['/'] + "@deepseek-ai/dsh"@ =~= prefix
        + "/lib/node_modules/@deepseek-ai/dsh"@);
}

/// A stop goes on from one step to the next as it should: a free port ends it; what answers there
/// is looked up; our own instance is stopped, another's asked about, and what is no Harness left
/// alone; and the port is looked at until it is free or the time is up.
pub proof fn how_a_stop_goes_on(
    port: u16,
    pid: u32,
    recorded: Option<u32>,
    alive: bool,
    mode: StopMode,
    event: StopFlowEvent,
)
    ensures
        stop_flow_step(port, StopFlowStage::Start, event) is Probe,
        stop_flow_step(
            port,
            StopFlowStage::Probing,
            StopFlowEvent::Probed { probe: Probe::Closed },
        ) is Free,
        stop_flow_step(
            port,
            StopFlowStage::Probing,
            StopFlowEvent::Probed { probe: Probe::Harness },
        ) == (StopFlowStep::FindOwner { probe: Probe::Harness }),
        stop_flow_step(
            port,
            StopFlowStage::Probing,
            StopFlowEvent::Probed { probe: Probe::Other },
        ) == (StopFlowStep::FindOwner { probe: Probe::Other }),
        stop_flow_step(
            port,
            StopFlowStage::Owning { probe: Probe::Other },
            StopFlowEvent::Owner { listener: Some(pid), recorded, alive },
        ) is Fail,
        stop_flow_step(
            port,
            StopFlowStage::Owning { probe: Probe::Harness },
            StopFlowEvent::Owner { listener: None, recorded, alive },
        ) is Fail,
        stop_flow_step(
            port,
            StopFlowStage::Owning { probe: Probe::Harness },
            StopFlowEvent::Owner { listener: Some(pid), recorded: Some(pid), alive: true },
        ) == (StopFlowStep::Terminate { pid, mode: StopMode::ProcessGroup }),
        recorded != Some(pid) || !alive ==> stop_flow_step(
            port,
            StopFlowStage::Owning { probe: Probe::Harness },
            StopFlowEvent::Owner { listener: Some(pid), recorded, alive },
        ) == (StopFlowStep::Confirm { pid }),
        stop_flow_step(
            port,
            StopFlowStage::Asking { pid },
            StopFlowEvent::Answered { retry: Retry::TakeOver },
        ) == (StopFlowStep::Terminate { pid, mode: StopMode::PidOnly }),
        stop_flow_step(
            port,
            StopFlowStage::Asking { pid },
            StopFlowEvent::Answered { retry: Retry::Declined },
        ) is Fail,
        stop_flow_step(
            port,
            StopFlowStage::Asking { pid },
            StopFlowEvent::Answered { retry: Retry::Refused },
        ) is Fail,
        stop_flow_step(port, StopFlowStage::Stopping { pid, mode }, StopFlowEvent::Stopped) == (
        StopFlowStep::Poll { pid, mode }),
        stop_flow_step(
            port,
            StopFlowStage::Waiting { pid, mode },
            StopFlowEvent::Polled { probe: Probe::Closed, late: true },
        ) == (StopFlowStep::Stopped { pid, mode }),
        stop_flow_step(
            port,
            StopFlowStage::Waiting { pid, mode },
            StopFlowEvent::Polled { probe: Probe::Harness, late: true },
        ) is Fail,
        stop_flow_step(
            port,
            StopFlowStage::Waiting { pid, mode },
            StopFlowEvent::Polled { probe: Probe::Harness, late: false },
        ) == (StopFlowStep::Poll { pid, mode }),
{
}

/// An update of the plugin goes on from one step to the next as it should. Where it could not
/// begin nothing is remembered, where the install failed that is; and it changed something exactly
/// where the profile loads another version behind it.
pub proof fn how_a_plugin_update_goes_on(
    from: Seq<char>,
    version: Seq<char>,
    reason: Seq<char>,
    event: MarketEvent<Seq<char>>,
)
    ensures
        market_step(from, MarketStage::Start, event) is StopInstance,
        market_step(from, MarketStage::Stopping, MarketEvent::Done) is Snapshot,
        market_step(from, MarketStage::Snapshotting, MarketEvent::Done) is Install,
        market_step(from, MarketStage::Installing, MarketEvent::Done) is ReadInstalled,
        market_step(from, MarketStage::Installing, MarketEvent::Failed { reason }) == (
        MarketStep::Restore { reason }),
        market_step(from, MarketStage::Stopping, MarketEvent::Failed { reason }) matches
            MarketStep::Finish { changed: false, mark: Mark::Nothing, .. },
        market_step(from, MarketStage::Snapshotting, MarketEvent::Failed { reason }) matches
            MarketStep::Finish { changed: false, mark: Mark::Nothing, .. },
        market_step(from, MarketStage::Restoring { reason }, event) matches MarketStep::Finish {
            changed: false,
            mark: Mark::Failed,
            ..
        },
        version == from ==> (market_step(
            from,
            MarketStage::Reading,
            MarketEvent::Installed { version: Some(version) },
        ) matches MarketStep::Finish { changed: false, mark: Mark::Ineffective, .. }),
        version != from ==> (market_step(
            from,
            MarketStage::Reading,
            MarketEvent::Installed { version: Some(version) },
        ) matches MarketStep::Finish { changed: true, mark: Mark::Nothing, .. }),
{
}

/// What is done in a step of a stop is what the step is for: only the process that was found is
/// ended, in the way that was decided, the record is cleared exactly where the instance was our
/// own, and a failure gives its reason.
pub proof fn a_stop_does_what_its_step_says(step: StopFlowStep, action: StopFlowAction)
    requires
        stop_flow_action(step, action),
    ensures
        action is Terminate <==> step is Terminate,
        action matches StopFlowAction::Terminate { pid, mode, .. } ==> step == (
        StopFlowStep::Terminate { pid, mode }),
        action matches StopFlowAction::Confirm { pid } ==> step == (StopFlowStep::Confirm { pid }),
        action is Finish <==> step is Free || step is Stopped || step is Fail,
        action matches StopFlowAction::Finish { result, clear_state, log } ==> {
            &&& result is Err <==> step is Fail
            &&& (step matches StopFlowStep::Fail { reason } ==> result->Err_0@ == reason)
            &&& clear_state <==> (step matches StopFlowStep::Stopped { mode, .. } && mode
                == StopMode::ProcessGroup)
            &&& log is Some <==> step is Stopped
            &&& (step matches StopFlowStep::Stopped { pid, .. } ==> crate::text::mentions(
                log->0@,
                decimal(pid as nat),
            ))
        },
{
    if let StopFlowStep::Stopped { pid, mode } = step {
        if let StopFlowAction::Finish { log: Some(line), .. } = action {
            assert(line@ =~= "stopped Harness pid "@ + decimal(pid as nat) + (
            " before updating the CLI ("@ + mode_text(mode) + ")"@));
        }
    }
}

/// What is done in a step of an update of the plugin is what the step is for, and its end is told
/// as it was decided.
pub proof fn a_plugin_update_does_what_its_step_says(step: MarketStep, action: MarketAction)
    requires
        market_action(step, action),
    ensures
        action is StopInstance <==> step is StopInstance,
        action is Snapshot <==> step is Snapshot,
        action is Install <==> step is Install,
        action is ReadInstalled <==> step is ReadInstalled,
        action is Restore <==> step is Restore,
        action is Finish <==> step is Finish,
        action matches MarketAction::Finish { changed, mark, log } ==> step == (
        MarketStep::Finish { changed, mark, log: log@ }),
        step matches MarketStep::Restore { reason } ==> market_stage(step) == (
        MarketStage::<Seq<char>>::Restoring { reason }),
        step is Install <==> market_stage(step) is Installing,
        step is Snapshot <==> market_stage(step) is Snapshotting,
        step is StopInstance <==> market_stage(step) is Stopping,
        step is ReadInstalled <==> market_stage(step) is Reading,
        step is Finish <==> market_stage(step) is Over,
{
}

/// A stop goes on with the process and the way that its step names, and ends where the step does.
pub proof fn a_stop_goes_on_with_its_process(step: StopFlowStep, pid: u32, mode: StopMode)
    ensures
        stop_flow_stage(StopFlowStep::Confirm { pid }) == (StopFlowStage::Asking { pid }),
        stop_flow_stage(StopFlowStep::Terminate { pid, mode }) == (StopFlowStage::Stopping {
            pid,
            mode,
        }),
        stop_flow_stage(StopFlowStep::Poll { pid, mode }) == (StopFlowStage::Waiting { pid, mode }),
        stop_flow_stage(step) is Over <==> step is Free || step is Stopped || step is Fail,
{
}

} // verus!

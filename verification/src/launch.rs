//! One launch, from the record that an earlier one left behind to the window with the Harness.
//!
//! A launch goes through its phases in a fixed order: what was left behind is dealt with; the
//! runtime is resolved and judged; a newer CLI is built aside; the plugin market is updated; the
//! port is looked at; the built tree is swapped in; and the Harness boots. Each function here is
//! the decision of one phase.
use vstd::prelude::*;

#[allow(unused_imports)]
use crate::harness::pairs;
use crate::harness::{Probe, WebUrl};
use crate::identity::SelfHeal;
use crate::number::decimal_text;
#[allow(unused_imports)]
use crate::number::decimal;
use crate::process::HarnessState;
use crate::runtime::{Origin, SystemUpdates, Updates};
#[allow(unused_imports)]
use crate::runtime::{origin_label, str_view};
use crate::search::contains;
#[allow(unused_imports)]
use crate::search::holds;
use crate::seed::PROFILE_NAME;
use crate::split::join;
#[allow(unused_imports)]
use crate::split::joined;
use crate::supervise::StartError;
use crate::takeover::ForeignAction;
#[allow(unused_imports)]
use crate::takeover::ForeignModel;
use crate::text::{glue, glue3, glue4, glue5};
#[allow(unused_imports)]
use crate::text::{opt_view, texts};
use crate::update::{compatibility, may_install, Checked, Status, Version, MARKET_PLUGIN, PACKAGE};
#[allow(unused_imports)]
use crate::update::{compatibility_of, compatibility_text, StatusModel};
use crate::update_flow::StagedUpdate;
#[allow(unused_imports)]
use crate::version::version_in;
use crate::webview::{compat_script, WebviewReport};
#[allow(unused_imports)]
use crate::webview::{blocks, compat_of, description, gaps_of};

verus! {

/// The budget of a start that may have to set up a profile or a new tree, in seconds.
pub const STARTUP_TIMEOUT_FIRST_SECS: u64 = 90;

/// The budget of any other start.
pub const STARTUP_TIMEOUT_NEXT_SECS: u64 = 30;

/// The patch that has the CLI print its URL.
pub const OVERLAY: &'static str = "- id: web-runtime\n  config:\n    openBrowser: !!js ctx.webStartup.openBrowser\n    printUrl: true\n    surfaceContext: true\n    trustedHosts: !!js ctx.webStartup.trustedHosts\n";

// ---------------------------------------------------------------------------------------------
// What was left behind
// ---------------------------------------------------------------------------------------------

/// Is it worth asking what a recorded process is? Only where it is alive and lost its port.
pub fn asks_identity(alive: bool, listener: Option<u32>, pid: u32) -> (r: bool)
    ensures
        r == (alive && listener != Some(pid)),
{
    if !alive {
        return false;
    }
    match listener {
        Some(owner) => owner != pid,
        None => true,
    }
}

/// What is done with the record of an earlier launch.
#[derive(Debug, Clone, PartialEq, Eq)]
pub struct HealPlan {
    pub log: Option<String>,
    /// Show this, and stop the process with its group.
    pub terminate: Option<(u32, String, String)>,
    /// Drop the record.
    pub clear: bool,
}

/// A pid that may be unknown, as Rust writes it.
pub open spec fn pid_text(pid: Option<u32>) -> Seq<char> {
    match pid {
        Some(number) => "Some("@ + decimal(number as nat) + ")"@,
        None => "None"@,
    }
}

fn pid_words(pid: Option<u32>) -> (r: String)
    ensures
        r@ == pid_text(pid),
{
    match pid {
        Some(number) => glue3("Some(", decimal_text(number as u64).as_str(), ")"),
        None => "None".to_owned(),
    }
}

/// What the decision about the record means. A record that is kept is left to the reuse.
pub fn heal_plan(
    action: SelfHeal,
    state: &HarnessState,
    alive: bool,
    listener: Option<u32>,
) -> (r: HealPlan)
    ensures
        r.clear == (action != SelfHeal::Keep),
        (match action {
            SelfHeal::Terminate => r.terminate matches Some((pid, status, detail)) && pid
                == state.pid && status@ == "正在清理上次残留的 Harness…"@ && detail@ == "pid "@ + decimal(
                state.pid as nat,
            ),
            _ => r.terminate is None,
        }),
        opt_view(r.log) == (match action {
            SelfHeal::Keep => Some(
                "state.json 记录的 Harness pid "@ + decimal(state.pid as nat) + " 仍在端口 "@ + decimal(
                    state.port as nat,
                ) + " 服务，交给复用分支处理"@,
            ),
            SelfHeal::Terminate => None,
            SelfHeal::Clear => if alive {
                Some(
                    "state.json 记录的 pid "@ + decimal(state.pid as nat)
                        + " 仍存活，但不是本应用启动的 Harness（监听端口 "@ + decimal(state.port as nat) + " 的是 "@
                        + pid_text(listener) + "），只清理状态文件"@,
                )
            } else {
                None
            },
        }),
{
    match action {
        SelfHeal::Keep => HealPlan {
            log: Some(
                glue5(
                    "state.json 记录的 Harness pid ",
                    decimal_text(state.pid as u64).as_str(),
                    " 仍在端口 ",
                    decimal_text(state.port as u64).as_str(),
                    " 服务，交给复用分支处理",
                ),
            ),
            terminate: None,
            clear: false,
        },
        SelfHeal::Terminate => HealPlan {
            log: None,
            terminate: Some(
                (
                    state.pid,
                    "正在清理上次残留的 Harness…".to_owned(),
                    glue("pid ", decimal_text(state.pid as u64).as_str()),
                ),
            ),
            clear: true,
        },
        SelfHeal::Clear => {
            let log = if alive {
                let mut line = glue5(
                    "state.json 记录的 pid ",
                    decimal_text(state.pid as u64).as_str(),
                    " 仍存活，但不是本应用启动的 Harness（监听端口 ",
                    decimal_text(state.port as u64).as_str(),
                    " 的是 ",
                );
                line.append(pid_words(listener).as_str());
                line.append("），只清理状态文件");
                Some(line)
            } else {
                None
            };
            HealPlan { log, terminate: None, clear: true }
        },
    }
}

/// The line about the import of the login shell's environment: names only, as values may be
/// credentials.
pub fn import_log(shell: &str, imported: Option<(&str, &[String])>) -> (r: String)
    ensures
        r@ == (match imported {
            Some((flag, names)) => "imported "@ + decimal(names@.len()) + " env vars via "@ + shell@
                + " "@ + flag@ + ": "@ + joined(texts(names@), ", "@),
            None => "login shell env import failed ("@ + shell@ + "); using the app environment"@,
        }),
{
    match imported {
        Some((flag, names)) => {
            let mut out = glue5(
                "imported ",
                decimal_text(names.len() as u64).as_str(),
                " env vars via ",
                shell,
                " ",
            );
            out.append(flag);
            out.append(": ");
            out.append(join(names, ", ").as_str());
            out
        },
        None => glue3("login shell env import failed (", shell, "); using the app environment"),
    }
}

// ---------------------------------------------------------------------------------------------
// Judging the version
// ---------------------------------------------------------------------------------------------

/// What is known of the version that is to run.
#[derive(Debug, PartialEq, Eq)]
pub struct CompatGate {
    pub untested: bool,
    pub log: Option<String>,
    /// The launch goes on, or why not.
    pub verdict: Result<(), String>,
}

/// Judges the version that is to run, before anything is built or stopped for it. One outside the
/// tested range is refused where the configuration asks for that.
pub fn compat_gate(version: &str, require_tested: bool) -> (r: CompatGate)
    ensures
        ({
            let known = compatibility_of(version@);
            let text = compatibility_text(known);
            &&& r.untested == !(known is Tested)
            &&& opt_view(r.log) == (if known is Tested {
                None
            } else {
                Some("warning: "@ + text)
            })
            &&& if !(known is Tested) && require_tested {
                r.verdict matches Err(reason) && reason@ == text
                    + "\n\n如需强行使用，请在 config.json 里设置 \"require_tested_dsh\": false。"@
            } else {
                r.verdict is Ok
            }
        }),
{
    let known = compatibility(version);
    let tested = match &known {
        crate::update::Compatibility::Tested => true,
        _ => false,
    };
    if tested {
        return CompatGate { untested: false, log: None, verdict: Ok(()) };
    }
    let text = known.describe();
    let verdict = if require_tested {
        Err(
            glue(
                text.as_str(),
                "\n\n如需强行使用，请在 config.json 里设置 \"require_tested_dsh\": false。",
            ),
        )
    } else {
        Ok(())
    };
    CompatGate { untested: true, log: Some(glue("warning: ", text.as_str())), verdict }
}

/// May the update of the CLI touch the tree? Where it is the shell's own, or tells a version.
pub open spec fn may_update(updates: Updates, version: Seq<char>) -> bool {
    updates == Updates::Shadow || version_in(version) is Some
}

/// May the update of the CLI touch the tree? A tree of the user's own has to tell a version: else
/// a second CLI would be installed beside it.
pub fn may_update_core(updates: Updates, version: &str) -> (r: bool)
    ensures
        r == may_update(updates, version@),
{
    match updates {
        Updates::Shadow => true,
        Updates::Notify => Version::parse(version).is_some(),
    }
}

/// The line about a tree that is not looked at for updates.
pub fn no_update_log(version: &str) -> (r: String)
    ensures
        r@ == "跳过核心更新检查：监督的 dsh "@ + version@ + " 不是 "@ + PACKAGE@ + " 的已发布版本之一"@,
{
    glue5("跳过核心更新检查：监督的 dsh ", version, " 不是 ", PACKAGE, " 的已发布版本之一")
}

/// Is a newer CLI looked for? Gives the line for the log where the tree may not be updated, be
/// updates wanted or not.
pub fn checks_core(auto_update: bool, updates: Updates, version: &str) -> (r: (
    bool,
    Option<String>,
))
    ensures
        r.0 == (auto_update && may_update(updates, version@)),
        opt_view(r.1) == (if may_update(updates, version@) {
            None
        } else {
            Some(
                "跳过核心更新检查：监督的 dsh "@ + version@ + " 不是 "@ + PACKAGE@
                    + " 的已发布版本之一"@,
            )
        }),
{
    if may_update_core(updates, version) {
        (auto_update, None)
    } else {
        (false, Some(no_update_log(version)))
    }
}

// ---------------------------------------------------------------------------------------------
// A newer CLI
// ---------------------------------------------------------------------------------------------

/// What is done about a newer CLI.
#[derive(Debug, Clone, PartialEq, Eq)]
pub enum CoreDecision {
    /// Nothing.
    Keep,
    /// The user is told.
    Tell { to: String },
    /// It is built aside.
    Stage { from: String, to: String },
}

/// What is done about a newer CLI, as texts.
pub enum CoreModel {
    Keep,
    Tell { to: Seq<char> },
    Stage { from: Seq<char>, to: Seq<char> },
}

impl View for CoreDecision {
    type V = CoreModel;

    open spec fn view(&self) -> CoreModel {
        match self {
            CoreDecision::Keep => CoreModel::Keep,
            CoreDecision::Tell { to } => CoreModel::Tell { to: to@ },
            CoreDecision::Stage { from, to } => CoreModel::Stage { from: from@, to: to@ },
        }
    }
}

/// The plan for the CLI: what is done, the line for the log, and what is shown in turn.
#[derive(Debug, Clone, PartialEq, Eq)]
pub struct CorePlan {
    pub decision: CoreDecision,
    pub log: Option<String>,
    pub statuses: Vec<(String, String)>,
}

/// Is the answer one that this launch must leave alone, as installing it changed nothing or
/// failed a short while ago?
pub open spec fn suppressed(checked: Checked) -> bool {
    checked.attempted || checked.failed_recently
}

/// What is done about the answer of the registry.
pub open spec fn core_decided(
    checked: Checked,
    updates: Updates,
    system_updates: SystemUpdates,
    require_tested: bool,
) -> CoreModel {
    match checked.status@ {
        StatusModel::UpdateAvailable { from, to } => if suppressed(checked) {
            CoreModel::Keep
        } else if updates == Updates::Notify && system_updates == SystemUpdates::Notify {
            CoreModel::Tell { to }
        } else if require_tested && !(compatibility_of(to) is Tested) {
            CoreModel::Tell { to }
        } else {
            CoreModel::Stage { from, to }
        },
        _ => CoreModel::Keep,
    }
}

/// The line about the answer of the registry.
pub open spec fn core_log(
    checked: Checked,
    updates: Updates,
    system_updates: SystemUpdates,
    require_tested: bool,
    version: Seq<char>,
) -> Option<Seq<char>> {
    match checked.status@ {
        StatusModel::UpdateAvailable { from, to } => Some(
            if checked.attempted {
                "update "@ + to + " was already attempted and changed nothing; not installing again"@
            } else if checked.failed_recently {
                "update "@ + to
                    + " failed to start last time; not retrying yet (the wait grows with each failure)"@
            } else if updates == Updates::Notify && system_updates == SystemUpdates::Notify {
                "update available: "@ + from + " -> "@ + to
                    + "; policy notify leaves the user install alone"@
            } else if require_tested && !(compatibility_of(to) is Tested) {
                "update available: "@ + from + " -> "@ + to
                    + ", but it is outside the tested range ("@ + compatibility_text(
                    compatibility_of(to),
                ) + "); not installing"@
            } else {
                "update available: "@ + from + " -> "@ + to + ", installing"@
            },
        ),
        StatusModel::UpToDate { version: current } => Some("dsh is up to date: "@ + current),
        StatusModel::Skipped => None,
        StatusModel::Failed { reason } => Some(
            "update check failed, keeping v"@ + version + ": "@ + reason,
        ),
    }
}

/// What is shown about the answer of the registry, in turn.
pub open spec fn core_statuses(
    checked: Checked,
    updates: Updates,
    system_updates: SystemUpdates,
    require_tested: bool,
) -> Seq<(Seq<char>, Seq<char>)> {
    match checked.status@ {
        StatusModel::UpdateAvailable { from, to } => if suppressed(checked) {
            Seq::empty()
        } else {
            let step = "v"@ + from + " -> v"@ + to;
            let first = seq![("发现新版本 v"@ + to + "，正在更新…"@, step)];
            if updates == Updates::Notify && system_updates == SystemUpdates::Notify {
                first.push(("有新版本 v"@ + to + "（system_updates=notify，未自动更新）"@, step))
            } else if require_tested && !(compatibility_of(to) is Tested) {
                first.push(
                    (
                        "有新版本 v"@ + to + "（超出已测试区间，未自动安装）"@,
                        step + "；如需使用请在 config.json 里设置 \"require_tested_dsh\": false"@,
                    ),
                )
            } else {
                first
            }
        },
        _ => Seq::empty(),
    }
}

/// Plans what to do about the answer of the registry for the CLI.
pub fn core_plan(
    checked: &Checked,
    updates: Updates,
    system_updates: SystemUpdates,
    require_tested: bool,
    version: &str,
) -> (r: CorePlan)
    ensures
        r.decision@ == core_decided(*checked, updates, system_updates, require_tested),
        opt_view(r.log) == core_log(*checked, updates, system_updates, require_tested, version@),
        pairs(r.statuses@) == core_statuses(*checked, updates, system_updates, require_tested),
{
    let mut statuses: Vec<(String, String)> = Vec::new();
    proof {
        assert(pairs(statuses@) =~= Seq::<(Seq<char>, Seq<char>)>::empty());
    }
    let (from, to) = match &checked.status {
        Status::UpdateAvailable { from, to } => (from, to),
        Status::UpToDate { version: current } => {
            return CorePlan {
                decision: CoreDecision::Keep,
                log: Some(glue("dsh is up to date: ", current.as_str())),
                statuses,
            };
        },
        Status::Skipped => {
            return CorePlan { decision: CoreDecision::Keep, log: None, statuses };
        },
        Status::Failed { reason } => {
            return CorePlan {
                decision: CoreDecision::Keep,
                log: Some(
                    glue4("update check failed, keeping v", version, ": ", reason.as_str()),
                ),
                statuses,
            };
        },
    };
    if checked.attempted {
        return CorePlan {
            decision: CoreDecision::Keep,
            log: Some(
                glue3(
                    "update ",
                    to.as_str(),
                    " was already attempted and changed nothing; not installing again",
                ),
            ),
            statuses,
        };
    }
    if checked.failed_recently {
        return CorePlan {
            decision: CoreDecision::Keep,
            log: Some(
                glue3(
                    "update ",
                    to.as_str(),
                    " failed to start last time; not retrying yet (the wait grows with each failure)",
                ),
            ),
            statuses,
        };
    }
    let step = glue4("v", from.as_str(), " -> v", to.as_str());
    let found = glue3("发现新版本 v", to.as_str(), "，正在更新…");
    let ghost shown = (found@, step@);
    statuses.push((found, step.clone()));
    proof {
        assert(pairs(statuses@) =~= seq![shown]);
    }
    let policy_notifies = match (updates, system_updates) {
        (Updates::Notify, SystemUpdates::Notify) => true,
        _ => false,
    };
    let available = glue4("update available: ", from.as_str(), " -> ", to.as_str());
    if policy_notifies {
        let told = glue3("有新版本 v", to.as_str(), "（system_updates=notify，未自动更新）");
        let ghost second = (told@, step@);
        statuses.push((told, step));
        proof {
            assert(pairs(statuses@) =~= seq![shown].push(second));
        }
        return CorePlan {
            decision: CoreDecision::Tell { to: to.clone() },
            log: Some(
                glue(available.as_str(), "; policy notify leaves the user install alone"),
            ),
            statuses,
        };
    }
    if !may_install(to.as_str(), require_tested) {
        let told = glue3("有新版本 v", to.as_str(), "（超出已测试区间，未自动安装）");
        let detail = glue(
            step.as_str(),
            "；如需使用请在 config.json 里设置 \"require_tested_dsh\": false",
        );
        let ghost second = (told@, detail@);
        statuses.push((told, detail));
        proof {
            assert(pairs(statuses@) =~= seq![shown].push(second));
        }
        return CorePlan {
            decision: CoreDecision::Tell { to: to.clone() },
            log: Some(
                glue4(
                    available.as_str(),
                    ", but it is outside the tested range (",
                    compatibility(to.as_str()).describe().as_str(),
                    "); not installing",
                ),
            ),
            statuses,
        };
    }
    CorePlan {
        decision: CoreDecision::Stage { from: from.clone(), to: to.clone() },
        log: Some(glue(available.as_str(), ", installing")),
        statuses,
    }
}

/// Where a newer CLI is to go: into the shell's own prefix, or into the prefix that the tree of
/// the user lies in; or why it can go nowhere.
pub fn target_prefix(own: Option<String>, dsh_js: &str) -> (r: Result<String, String>)
    ensures
        (match own {
            Some(prefix) => r == Ok::<String, String>(prefix),
            None => match crate::update::prefix_of(dsh_js@) {
                Some(prefix) => r matches Ok(place) && place@ == prefix,
                None => r matches Err(reason) && reason@ == "无法确定 "@ + dsh_js@
                    + " 所属的 npm 前缀，不做原地更新"@,
            },
        }),
{
    match own {
        Some(prefix) => Ok(prefix),
        None => match crate::update::install_prefix(dsh_js) {
            Some(prefix) => Ok(prefix),
            None => Err(glue3("无法确定 ", dsh_js, " 所属的 npm 前缀，不做原地更新")),
        },
    }
}

/// A version that the shell would refuse to run is never built, and a tree of the user's own is
/// left alone where they asked for that; an install that failed or changed nothing is not
/// repeated.
pub proof fn only_a_wanted_version_is_built(
    checked: Checked,
    updates: Updates,
    system_updates: SystemUpdates,
    require_tested: bool,
    from: Seq<char>,
    to: Seq<char>,
)
    requires
        core_decided(checked, updates, system_updates, require_tested) == (CoreModel::Stage {
            from,
            to,
        }),
    ensures
        checked.status@ == (StatusModel::UpdateAvailable { from, to }),
        require_tested ==> compatibility_of(to) is Tested,
        updates == Updates::Notify ==> system_updates == SystemUpdates::Install,
        !checked.attempted,
        !checked.failed_recently,
{
}

// ---------------------------------------------------------------------------------------------
// The plugin market
// ---------------------------------------------------------------------------------------------

/// Why the plugin market is not updated.
#[derive(Debug, Clone, Copy, PartialEq, Eq, Structural)]
pub enum PluginSkip {
    /// The profile declares it, and it is not installed: to install it is a repair.
    NotInstalled,
    /// Without pnpm nothing can be installed.
    NoPnpm,
    /// The profile does not want it.
    NotDeclared,
}

/// Why the plugin market is not updated, in words.
pub open spec fn plugin_skip_text(skip: PluginSkip) -> Seq<char> {
    match skip {
        PluginSkip::NotInstalled => MARKET_PLUGIN@ + " 已声明但未安装，跳过自动更新"@,
        PluginSkip::NoPnpm => "PATH 上没有 pnpm，跳过插件市场更新（不停止正在运行的 Harness）"@,
        PluginSkip::NotDeclared => "profile "@ + PROFILE_NAME@ + " 里没有声明 "@ + MARKET_PLUGIN@
            + "：界面不会出现插件市场，也不会自动安装（用 `dsh plugin --profile "@ + PROFILE_NAME@ + " add "@
            + MARKET_PLUGIN@ + "` 装上，或改用自带运行时版让首启播种模板）"@,
    }
}

impl PluginSkip {
    /// Why the plugin market is not updated, in words.
    pub fn reason(&self) -> (r: String)
        ensures
            r@ == plugin_skip_text(*self),
    {
        match self {
            PluginSkip::NotInstalled => glue(MARKET_PLUGIN, " 已声明但未安装，跳过自动更新"),
            PluginSkip::NoPnpm => "PATH 上没有 pnpm，跳过插件市场更新（不停止正在运行的 Harness）".to_owned(),
            PluginSkip::NotDeclared => {
                let mut out = glue5(
                    "profile ",
                    PROFILE_NAME,
                    " 里没有声明 ",
                    MARKET_PLUGIN,
                    "：界面不会出现插件市场，也不会自动安装（用 `dsh plugin --profile ",
                );
                out.append(PROFILE_NAME);
                out.append(" add ");
                out.append(MARKET_PLUGIN);
                out.append("` 装上，或改用自带运行时版让首启播种模板）");
                out
            },
        }
    }
}

/// Why the plugin market is not updated; nothing where it may be. That is known before anything
/// is stopped for it.
pub fn plugin_skip_reason(declared: bool, installed: Option<&str>, pnpm: Option<&str>) -> (r: Option<
    PluginSkip,
>)
    ensures
        r == (if !declared {
            Some(PluginSkip::NotDeclared)
        } else if installed is None {
            Some(PluginSkip::NotInstalled)
        } else if pnpm is None {
            Some(PluginSkip::NoPnpm)
        } else {
            None
        }),
{
    if !declared {
        return Some(PluginSkip::NotDeclared);
    }
    if installed.is_none() {
        return Some(PluginSkip::NotInstalled);
    }
    if pnpm.is_none() {
        return Some(PluginSkip::NoPnpm);
    }
    None
}

/// Is the plugin market looked at? Not in the launch that put its template in place: a first
/// start downloads nothing. Gives the line for the log where that is why.
pub fn checks_market(auto_update: bool, auto_update_plugins: bool, seeded: bool) -> (r: (
    bool,
    Option<String>,
))
    ensures
        r.0 == (auto_update && auto_update_plugins && !seeded),
        opt_view(r.1) == (if auto_update && auto_update_plugins && seeded {
            Some("刚播种 profile 模板，本轮不检查插件市场（下次启动再查）"@)
        } else {
            None
        }),
{
    let wanted = auto_update && auto_update_plugins;
    if wanted && seeded {
        return (
            false,
            Some("刚播种 profile 模板，本轮不检查插件市场（下次启动再查）".to_owned()),
        );
    }
    (wanted, None)
}

/// The plan for the plugin market: what to install, from and to, and the line for the log.
#[derive(Debug, Clone, PartialEq, Eq)]
pub struct MarketPlan {
    pub install: Option<(String, String)>,
    pub log: Option<String>,
}

/// The line about the answer of the registry for the plugin.
pub open spec fn market_log(checked: Checked, current: Seq<char>) -> Option<Seq<char>> {
    match checked.status@ {
        StatusModel::UpdateAvailable { from, to } => Some(
            if checked.attempted {
                "plugin "@ + MARKET_PLUGIN@ + " "@ + to
                    + " was already attempted and changed nothing; not installing again"@
            } else if checked.failed_recently {
                "plugin "@ + MARKET_PLUGIN@ + " "@ + to
                    + " failed to install last time; not retrying yet (the wait grows with each failure)"@
            } else {
                "plugin update available: "@ + MARKET_PLUGIN@ + " "@ + from + " -> "@ + to
                    + ", installing"@
            },
        ),
        StatusModel::UpToDate { version } => Some(
            "plugin "@ + MARKET_PLUGIN@ + " is up to date: "@ + version,
        ),
        StatusModel::Skipped => None,
        StatusModel::Failed { reason } => Some(
            "plugin update check failed, keeping v"@ + current + ": "@ + reason,
        ),
    }
}

/// Plans what to do about the answer of the registry for the plugin.
pub fn market_plan(checked: &Checked, current: &str) -> (r: MarketPlan)
    ensures
        opt_view(r.log) == market_log(*checked, current@),
        (match checked.status@ {
            StatusModel::UpdateAvailable { from, to } => if suppressed(*checked) {
                r.install is None
            } else {
                r.install matches Some((f, t)) && f@ == from && t@ == to
            },
            _ => r.install is None,
        }),
{
    match &checked.status {
        Status::UpdateAvailable { from, to } => {
            if checked.attempted {
                return MarketPlan {
                    install: None,
                    log: Some(
                        glue5(
                            "plugin ",
                            MARKET_PLUGIN,
                            " ",
                            to.as_str(),
                            " was already attempted and changed nothing; not installing again",
                        ),
                    ),
                };
            }
            if checked.failed_recently {
                return MarketPlan {
                    install: None,
                    log: Some(
                        glue5(
                            "plugin ",
                            MARKET_PLUGIN,
                            " ",
                            to.as_str(),
                            " failed to install last time; not retrying yet (the wait grows with each failure)",
                        ),
                    ),
                };
            }
            let mut log = glue5(
                "plugin update available: ",
                MARKET_PLUGIN,
                " ",
                from.as_str(),
                " -> ",
            );
            log.append(to.as_str());
            log.append(", installing");
            MarketPlan { install: Some((from.clone(), to.clone())), log: Some(log) }
        },
        Status::UpToDate { version } => MarketPlan {
            install: None,
            log: Some(glue4("plugin ", MARKET_PLUGIN, " is up to date: ", version.as_str())),
        },
        Status::Skipped => MarketPlan { install: None, log: None },
        Status::Failed { reason } => MarketPlan {
            install: None,
            log: Some(
                glue4("plugin update check failed, keeping v", current, ": ", reason.as_str()),
            ),
        },
    }
}

// ---------------------------------------------------------------------------------------------
// The course of a launch
// ---------------------------------------------------------------------------------------------

/// How far a launch has come.
#[derive(Debug, Clone, Copy, PartialEq, Eq, Structural)]
pub enum Phase {
    /// A newer CLI or plugin is looked for.
    Updating,
    /// The port was looked at, and the launch goes on.
    Cleared,
    /// What was built is in place, or was given up.
    Booting,
}

/// What has been settled so far.
#[derive(Debug, Clone, Copy, PartialEq, Eq, Structural)]
pub struct Course {
    pub phase: Phase,
    /// The port of this launch.
    pub port: u16,
    /// The port before an answer moved it.
    pub configured_port: u16,
    /// There was no profile yet.
    pub first_launch: bool,
    /// The version is outside the tested range.
    pub untested: bool,
    /// The plugin market was updated.
    pub just_updated: bool,
    /// A new tree of the CLI was swapped in.
    pub core_swapped: bool,
    /// Something was stopped to take its port.
    pub took_over: bool,
    /// The user kept an instance running; its pid, where it is known.
    pub kept: Option<Option<u32>>,
}

/// One launch.
#[derive(Debug, Clone, PartialEq, Eq)]
pub struct Launch {
    pub course: Course,
    /// The version that is to run, and its script.
    pub version: String,
    pub dsh_js: String,
    /// A newer tree that was built, and waits to be swapped in.
    pub staged: Option<StagedUpdate>,
    /// A version that the user is told of.
    pub notice: Option<String>,
}

/// What becomes of the port.
#[derive(Debug, Clone, PartialEq, Eq)]
pub enum Detected {
    /// Nothing is there: go on.
    Free,
    /// Another program holds the port.
    Busy { error: StartError },
    /// Our own instance: show its page again. The URL, and what is shown meanwhile.
    Reuse { pid: u32, url: String, status: String, detail: String },
    /// Our own instance has to start anew: stop it with its group, and go on.
    Restart { pid: u32, status: String, detail: String },
    /// An instance that is not ours: it is judged.
    Foreign,
}

/// What becomes of an instance that is not ours.
#[derive(Debug, Clone, PartialEq, Eq)]
pub enum ForeignStep {
    /// Open it in the browser, show the notice, and stop here.
    Browser { url: String, status: String, detail: String },
    /// Go on at another port; the line goes to the log.
    Move { log: String },
    /// The launch fails.
    Fail { error: StartError },
    /// Stop it alone, wait for the port, and go on.
    TakeOver { pid: u32, status: String, detail: String },
}

/// Does an instance that is kept running possibly serve from the tree that is to be replaced?
pub open spec fn conflicts(
    target: Seq<char>,
    target_exists: bool,
    owned: bool,
    command: Option<Seq<char>>,
) -> bool {
    target_exists && (!owned || (command matches Some(line) ==> holds(line, target)))
}

/// Does an instance that is kept running possibly serve from the tree that is to be replaced? A
/// tree of the user's own is taken to be in use; in the shell's own prefix the command line tells.
pub fn swap_conflicts(target: &str, target_exists: bool, owned: bool, command: Option<&str>) -> (r:
    bool)
    ensures
        r == conflicts(target@, target_exists, owned, str_view(command)),
{
    if !target_exists {
        return false;
    }
    if !owned {
        return true;
    }
    match command {
        Some(line) => contains(line, target),
        None => true,
    }
}

/// Must the built tree wait, as somebody may serve from the one it would replace?
pub fn swap_blocked(kept_conflict: bool, raced: bool, raced_original: bool) -> (r: bool)
    ensures
        r == (kept_conflict || raced || raced_original),
{
    kept_conflict || raced || raced_original
}

/// What was seen right before the swap.
#[derive(Debug, Clone, PartialEq, Eq)]
pub struct SwapFacts {
    /// Is there a live tree?
    pub target_exists: bool,
    /// Is the prefix the shell's own?
    pub owned: bool,
    /// The command line of an instance that was kept.
    pub kept_command: Option<String>,
    /// What answers on the port of this launch, and is it ours?
    pub probe: Probe,
    pub ours: bool,
    /// The same of the configured port.
    pub original_probe: Probe,
    pub original_ours: bool,
}

/// What becomes of the built tree.
#[derive(Debug, Clone, PartialEq, Eq)]
pub enum SwapPlan {
    /// Nothing was built.
    Nothing,
    /// It is given up, with a line for the log.
    GiveUp { log: String },
    /// It is swapped in.
    Commit { staged: StagedUpdate },
}

/// May an instance that was kept serve from the tree?
pub open spec fn kept_conflict(course: Course, target: Seq<char>, facts: SwapFacts) -> bool {
    course.kept is Some && conflicts(
        target,
        facts.target_exists,
        facts.owned,
        opt_view(facts.kept_command),
    )
}

/// Did a Harness appear on the port after it was looked at?
pub open spec fn raced(course: Course, facts: SwapFacts) -> bool {
    !course.took_over && facts.probe == Probe::Harness && !facts.ours
}

/// Is there a Harness on the port that this launch was moved away from?
pub open spec fn raced_original(course: Course, facts: SwapFacts) -> bool {
    course.port != course.configured_port && facts.original_probe == Probe::Harness
        && !facts.original_ours
}

impl Launch {
    /// What holds of every launch: a tree is swapped in only once the port was looked at, and
    /// then nothing waits; what is built is not also told of; and the port moves only away from
    /// an instance that is kept, which is then not stopped.
    pub open spec fn wf(&self) -> bool {
        let course = self.course;
        &&& course.core_swapped ==> course.phase == Phase::Booting
        &&& course.phase == Phase::Booting ==> self.staged is None
        &&& self.staged is Some ==> self.notice is None
        &&& course.took_over ==> course.kept is None
        &&& course.port != course.configured_port ==> course.kept is Some
        &&& course.phase == Phase::Updating ==> !course.took_over && course.kept is None
    }

    /// A launch on a port, with the version and the script that are to run.
    pub fn new(
        port: u16,
        version: String,
        dsh_js: String,
        first_launch: bool,
        untested: bool,
    ) -> (r: Launch)
        ensures
            r.wf(),
            r.course == (Course {
                phase: Phase::Updating,
                port,
                configured_port: port,
                first_launch,
                untested,
                just_updated: false,
                core_swapped: false,
                took_over: false,
                kept: None,
            }),
            r.version == version,
            r.dsh_js == dsh_js,
            r.staged is None,
            r.notice is None,
    {
        Launch {
            course: Course {
                phase: Phase::Updating,
                port,
                configured_port: port,
                first_launch,
                untested,
                just_updated: false,
                core_swapped: false,
                took_over: false,
                kept: None,
            },
            version,
            dsh_js,
            staged: None,
            notice: None,
        }
    }

    /// A newer version that the user is told of.
    pub fn tell(&mut self, to: String)
        requires
            old(self).wf(),
            old(self).staged is None,
        ensures
            final(self).wf(),
            final(self).course == old(self).course,
            final(self).version == old(self).version,
            final(self).dsh_js == old(self).dsh_js,
            final(self).staged is None,
            final(self).notice == Some(to),
    {
        self.notice = Some(to);
    }

    /// Takes what building a newer tree gave: the tree waits to be swapped in, or the line says
    /// why there is none; then the version is to be marked as failed.
    pub fn staged(&mut self, from: &str, to: &str, built: Result<StagedUpdate, String>) -> (r: (
        String,
        bool,
    ))
        requires
            old(self).wf(),
            old(self).course.phase == Phase::Updating,
            old(self).notice is None,
        ensures
            final(self).wf(),
            final(self).course == old(self).course,
            final(self).version == old(self).version,
            final(self).dsh_js == old(self).dsh_js,
            final(self).notice is None,
            (match built {
                Ok(tree) => {
                    &&& final(self).staged == Some(tree)
                    &&& r.0@ == "update staged: "@ + from@ + " -> "@ + to@ + "（校验通过，待切换）"@
                    &&& !r.1
                },
                Err(reason) => {
                    &&& final(self).staged == old(self).staged
                    &&& r.0@ == "update staged but not committed, keeping v"@ + from@ + ": "@
                        + reason@
                    &&& r.1
                },
            }),
    {
        match built {
            Ok(tree) => {
                self.staged = Some(tree);
                (glue5("update staged: ", from, " -> ", to, "（校验通过，待切换）"), false)
            },
            Err(reason) => (
                glue4(
                    "update staged but not committed, keeping v",
                    from,
                    ": ",
                    reason.as_str(),
                ),
                true,
            ),
        }
    }

    /// The profile loads another plugin market now.
    pub fn market_updated(&mut self)
        requires
            old(self).wf(),
        ensures
            final(self).wf(),
            final(self).course == (Course { just_updated: true, ..old(self).course }),
            final(self).version == old(self).version,
            final(self).dsh_js == old(self).dsh_js,
            final(self).staged == old(self).staged,
            final(self).notice == old(self).notice,
    {
        self.course.just_updated = true;
    }

    /// Decides about what answers on the port. `ours` is the pid of our own instance, where it is
    /// that; `unsupported` tells whether the page cannot run here. Our own instance is used again
    /// unless an update made it obsolete.
    pub fn detect(&self, probe: Probe, ours: Option<u32>, unsupported: bool) -> (r: Detected)
        ensures
            (match (probe, ours) {
                (Probe::Closed, _) => r is Free,
                (Probe::Other, _) => r matches Detected::Busy { error } && !error.declined
                    && error.reason@ == "端口 "@ + decimal(self.course.port as nat)
                    + " 被其它程序占用，请在 config.json 里换一个端口。"@,
                (Probe::Harness, None) => r is Foreign,
                (Probe::Harness, Some(pid)) => if self.course.just_updated || self.staged is Some {
                    &&& r matches Detected::Restart { pid: p, status, detail }
                    &&& p == pid
                    &&& status@ == "更新完成，正在重启 Harness…"@
                    &&& detail@ == "pid "@ + decimal(pid as nat)
                } else if unsupported {
                    &&& r matches Detected::Restart { pid: p, status, detail }
                    &&& p == pid
                    &&& status@ == "系统 WebView 太旧，正在重启 Harness 以便在浏览器中打开…"@
                    &&& detail@ == "pid "@ + decimal(pid as nat)
                } else {
                    &&& r matches Detected::Reuse { pid: p, url, status, detail }
                    &&& p == pid
                    &&& url@ == "http://127.0.0.1:"@ + decimal(self.course.port as nat) + "/"@
                    &&& status@ == "复用本应用上次启动的 Harness…"@
                    &&& detail@ == "pid "@ + decimal(pid as nat)
                },
            }),
    {
        let port = decimal_text(self.course.port as u64);
        match (probe, ours) {
            (Probe::Closed, _) => Detected::Free,
            (Probe::Other, _) => Detected::Busy {
                error: StartError {
                    reason: glue3(
                        "端口 ",
                        port.as_str(),
                        " 被其它程序占用，请在 config.json 里换一个端口。",
                    ),
                    declined: false,
                },
            },
            (Probe::Harness, None) => Detected::Foreign,
            (Probe::Harness, Some(pid)) => {
                let detail = glue("pid ", decimal_text(pid as u64).as_str());
                if self.course.just_updated || self.staged.is_some() {
                    return Detected::Restart {
                        pid,
                        status: "更新完成，正在重启 Harness…".to_owned(),
                        detail,
                    };
                }
                if unsupported {
                    return Detected::Restart {
                        pid,
                        status: "系统 WebView 太旧，正在重启 Harness 以便在浏览器中打开…".to_owned(),
                        detail,
                    };
                }
                Detected::Reuse {
                    pid,
                    url: glue3("http://127.0.0.1:", port.as_str(), "/"),
                    status: "复用本应用上次启动的 Harness…".to_owned(),
                    detail,
                }
            },
        }
    }

    /// Takes what was decided about an instance that is not ours; `owner` is its pid, where it is
    /// known. A question that was not answered is no permission.
    pub fn foreign(&mut self, action: ForeignAction, owner: Option<u32>) -> (r: ForeignStep)
        requires
            old(self).wf(),
            old(self).course.phase == Phase::Updating,
        ensures
            final(self).wf(),
            final(self).version == old(self).version,
            final(self).dsh_js == old(self).dsh_js,
            final(self).staged == old(self).staged,
            final(self).notice == old(self).notice,
            final(self).course == (match action@ {
                ForeignModel::UseOtherPort { port } => Course {
                    phase: Phase::Cleared,
                    port,
                    kept: Some(owner),
                    ..old(self).course
                },
                ForeignModel::TakeOver { .. } => Course {
                    phase: Phase::Cleared,
                    took_over: true,
                    ..old(self).course
                },
                _ => old(self).course,
            }),
            foreign_step(old(self).course.port, owner, action@, r),
    {
        let port = decimal_text(self.course.port as u64);
        match action {
            ForeignAction::UseBrowser => {
                let detail = glue3(
                    "已按你的选择在系统浏览器中打开 127.0.0.1:",
                    port.as_str(),
                    "。\n\n本应用没有接管它，因此没有可重新启动的 Harness：关闭本窗口即退出应用。\n\n想改这个行为，就在 config.json 里设 \"take_over_existing\": true （接管会终止该实例及其当前会话），或先自己停掉它。\n\n浏览器需要已有该实例的登录 cookie；若看到 authentication required，请在启动那个实例的终端里重新打开一次它打印的 URL。",
                );
                ForeignStep::Browser {
                    url: glue3("http://127.0.0.1:", port.as_str(), "/"),
                    status: glue3("端口 ", port.as_str(), " 已被另一个 Harness 占用"),
                    detail,
                }
            },
            ForeignAction::UseOtherPort { port: free } => {
                let who = match owner {
                    Some(pid) => glue("pid ", decimal_text(pid as u64).as_str()),
                    None => "pid 未知".to_owned(),
                };
                let mut log = glue5(
                    "端口 ",
                    port.as_str(),
                    " 上的 Harness（",
                    who.as_str(),
                    ") 保留不动，本应用改用端口 ",
                );
                log.append(decimal_text(free as u64).as_str());
                self.course.kept = Some(owner);
                self.course.port = free;
                self.course.phase = Phase::Cleared;
                ForeignStep::Move { log }
            },
            ForeignAction::Refuse { reason } => ForeignStep::Fail {
                error: StartError { reason, declined: false },
            },
            ForeignAction::Declined { reason } => ForeignStep::Fail {
                error: StartError { reason, declined: true },
            },
            ForeignAction::Ask { pid } => ForeignStep::Fail {
                error: StartError {
                    reason: glue5(
                        "端口 ",
                        port.as_str(),
                        " 上的 Harness（pid ",
                        decimal_text(pid as u64).as_str(),
                        "）没有得到处理，已放弃本次启动。",
                    ),
                    declined: false,
                },
            },
            ForeignAction::TakeOver { pid } => {
                self.course.took_over = true;
                self.course.phase = Phase::Cleared;
                ForeignStep::TakeOver {
                    pid,
                    status: "正在接管其它 Harness…".to_owned(),
                    detail: glue("pid ", decimal_text(pid as u64).as_str()),
                }
            },
        }
    }

    /// The port is free, or will be: the launch goes on.
    pub fn cleared(&mut self)
        requires
            old(self).wf(),
            old(self).course.phase == Phase::Updating,
        ensures
            final(self).wf(),
            final(self).course == (Course { phase: Phase::Cleared, ..old(self).course }),
            final(self).version == old(self).version,
            final(self).dsh_js == old(self).dsh_js,
            final(self).staged == old(self).staged,
            final(self).notice == old(self).notice,
    {
        self.course.phase = Phase::Cleared;
    }

    /// What is said where a port that was taken over does not come free.
    pub fn takeover_failed(&self) -> (r: StartError)
        ensures
            r.reason@ == "接管失败：端口 "@ + decimal(self.course.port as nat) + " 仍被占用。"@,
            !r.declined,
    {
        StartError {
            reason: glue3(
                "接管失败：端口 ",
                decimal_text(self.course.port as u64).as_str(),
                " 仍被占用。",
            ),
            declined: false,
        }
    }

    /// Decides about the built tree, now that the launch is to boot a Harness. It is given up
    /// where somebody may serve from the tree that it would replace.
    pub fn plan_swap(&mut self, facts: &SwapFacts) -> (r: SwapPlan)
        requires
            old(self).wf(),
            old(self).course.phase == Phase::Cleared,
        ensures
            final(self).wf(),
            final(self).course == (Course { phase: Phase::Booting, ..old(self).course }),
            final(self).version == old(self).version,
            final(self).dsh_js == old(self).dsh_js,
            final(self).staged is None,
            final(self).notice == old(self).notice,
            swap_planned(*old(self), *facts, r),
    {
        let mut waiting: Option<StagedUpdate> = None;
        std::mem::swap(&mut waiting, &mut self.staged);
        self.course.phase = Phase::Booting;
        let staged = match waiting {
            Some(staged) => staged,
            None => {
                return SwapPlan::Nothing;
            },
        };
        let command: Option<&str> = match &facts.kept_command {
            Some(line) => Some(line.as_str()),
            None => None,
        };
        let kept = self.course.kept.is_some() && swap_conflicts(
            staged.target.as_str(),
            facts.target_exists,
            facts.owned,
            command,
        );
        let here = match facts.probe {
            Probe::Harness => !self.course.took_over && !facts.ours,
            _ => false,
        };
        let there = match facts.original_probe {
            Probe::Harness => self.course.port != self.course.configured_port
                && !facts.original_ours,
            _ => false,
        };
        if swap_blocked(kept, here, there) {
            let why = if kept {
                "被保留的外部实例可能正在使用待替换的 CLI 树"
            } else if here {
                "检测之后端口上又出现了外部 Harness"
            } else {
                "原端口上仍有实例在服务，它可能正在使用待替换的 CLI 树"
            };
            return SwapPlan::GiveUp {
                log: glue4(
                    why,
                    "：放弃本次切换（已暂存的 v",
                    staged.version.as_str(),
                    " 作废，下次启动再更新）",
                ),
            };
        }
        SwapPlan::Commit { staged }
    }

    /// Takes what the swap gave: the new script and version are what boots, or the line says why
    /// not; then the version that was built is to be marked as failed.
    pub fn swapped(&mut self, outcome: Result<(String, String), String>) -> (r: (String, bool))
        requires
            old(self).wf(),
            old(self).course.phase == Phase::Booting,
        ensures
            final(self).wf(),
            final(self).staged is None,
            final(self).notice == old(self).notice,
            (match outcome {
                Ok((entry, version)) => {
                    &&& final(self).course == (Course { core_swapped: true, ..old(self).course })
                    &&& final(self).dsh_js == entry
                    &&& final(self).version == version
                    &&& r.0@ == "dsh updated: "@ + old(self).version@ + " -> "@ + version@
                    &&& !r.1
                },
                Err(reason) => {
                    &&& final(self).course == old(self).course
                    &&& final(self).dsh_js == old(self).dsh_js
                    &&& final(self).version == old(self).version
                    &&& r.0@ == "update failed, keeping v"@ + old(self).version@ + ": "@ + reason@
                    &&& r.1
                },
            }),
    {
        match outcome {
            Ok((entry, version)) => {
                let line = glue4(
                    "dsh updated: ",
                    self.version.as_str(),
                    " -> ",
                    version.as_str(),
                );
                self.dsh_js = entry;
                self.version = version;
                self.course.core_swapped = true;
                (line, false)
            },
            Err(reason) => (
                glue4("update failed, keeping v", self.version.as_str(), ": ", reason.as_str()),
                true,
            ),
        }
    }

    /// What is shown while the Harness boots: what runs, where it came from, and where.
    pub fn boot_status(&self, origin: Origin) -> (r: (String, String))
        ensures
            r.0@ == "正在启动 Harness…"@,
            r.1@ == "dsh "@ + self.version@ + (if self.course.untested {
                "（未测试版本）"@
            } else {
                ""@
            }) + " · "@ + origin_label(origin) + " · "@ + self.dsh_js@ + " · 端口 "@ + decimal(
                self.course.port as nat,
            ),
    {
        let mark = if self.course.untested {
            "（未测试版本）"
        } else {
            ""
        };
        let mut detail = glue5(
            "dsh ",
            self.version.as_str(),
            mark,
            " · ",
            Origin::label_of(origin),
        );
        detail.append(" · ");
        detail.append(self.dsh_js.as_str());
        detail.append(" · 端口 ");
        detail.append(decimal_text(self.course.port as u64).as_str());
        ("正在启动 Harness…".to_owned(), detail)
    }

    /// How long the Harness may take to print its URL, in seconds. A new profile and a new tree
    /// may have work to do.
    pub fn startup_timeout(&self) -> (r: u64)
        ensures
            r == (if self.course.first_launch || self.course.core_swapped {
                STARTUP_TIMEOUT_FIRST_SECS
            } else {
                STARTUP_TIMEOUT_NEXT_SECS
            }),
    {
        if self.course.first_launch || self.course.core_swapped {
            STARTUP_TIMEOUT_FIRST_SECS
        } else {
            STARTUP_TIMEOUT_NEXT_SECS
        }
    }

    /// Is the swap undone, and the version marked as failed, where the Harness printed no URL?
    pub fn must_roll_back(&self) -> (r: bool)
        ensures
            r == self.course.core_swapped,
    {
        self.course.core_swapped
    }

    /// The port that the Harness serves: the one of its URL, or else the one it was given.
    pub fn actual_port(&self, url: &WebUrl) -> (r: u16)
        ensures
            r == (match url.port {
                Some(port) => port,
                None => self.course.port,
            }),
    {
        match url.port {
            Some(port) => port,
            None => self.course.port,
        }
    }

    /// What the window says of updates: a version that was not installed; or that an earlier
    /// notice is out of date, as the CLI was updated.
    pub fn announce_pending_update(&self) -> (r: Announcement)
        ensures
            (match self.notice {
                Some(to) => r matches Announcement::Newer { version } && version@ == to@,
                None => if self.course.core_swapped {
                    r is Clear
                } else {
                    r is Nothing
                },
            }),
    {
        match &self.notice {
            Some(to) => Announcement::Newer { version: to.clone() },
            None => if self.course.core_swapped {
                Announcement::Clear
            } else {
                Announcement::Nothing
            },
        }
    }
}

/// What the window says of updates.
#[derive(Debug, Clone, PartialEq, Eq)]
pub enum Announcement {
    Newer { version: String },
    Clear,
    Nothing,
}

/// Is this the step that follows on what was decided about an instance that is not ours?
pub open spec fn foreign_step(
    port: u16,
    owner: Option<u32>,
    action: ForeignModel,
    r: ForeignStep,
) -> bool {
    let number = decimal(port as nat);
    match action {
        ForeignModel::UseBrowser => {
            &&& r matches ForeignStep::Browser { url, status, detail }
            &&& url@ == "http://127.0.0.1:"@ + number + "/"@
            &&& status@ == "端口 "@ + number + " 已被另一个 Harness 占用"@
            &&& detail@ == "已按你的选择在系统浏览器中打开 127.0.0.1:"@ + number
                + "。\n\n本应用没有接管它，因此没有可重新启动的 Harness：关闭本窗口即退出应用。\n\n想改这个行为，就在 config.json 里设 \"take_over_existing\": true （接管会终止该实例及其当前会话），或先自己停掉它。\n\n浏览器需要已有该实例的登录 cookie；若看到 authentication required，请在启动那个实例的终端里重新打开一次它打印的 URL。"@
        },
        ForeignModel::UseOtherPort { port: free } => r matches ForeignStep::Move { log } && log@
            == "端口 "@ + number + " 上的 Harness（"@ + (match owner {
            Some(pid) => "pid "@ + decimal(pid as nat),
            None => "pid 未知"@,
        }) + ") 保留不动，本应用改用端口 "@ + decimal(free as nat),
        ForeignModel::Refuse { reason } => r matches ForeignStep::Fail { error } && error.reason@
            == reason && !error.declined,
        ForeignModel::Declined { reason } => r matches ForeignStep::Fail { error } && error.reason@
            == reason && error.declined,
        ForeignModel::Ask { pid } => r matches ForeignStep::Fail { error } && error.reason@
            == "端口 "@ + number + " 上的 Harness（pid "@ + decimal(pid as nat)
            + "）没有得到处理，已放弃本次启动。"@ && !error.declined,
        ForeignModel::TakeOver { pid } => r matches ForeignStep::TakeOver {
            pid: p,
            status,
            detail,
        } && p == pid && status@ == "正在接管其它 Harness…"@ && detail@ == "pid "@ + decimal(
            pid as nat,
        ),
    }
}

/// Is this the plan for the tree that a launch has built?
pub open spec fn swap_planned(launch: Launch, facts: SwapFacts, r: SwapPlan) -> bool {
    match launch.staged {
        None => r is Nothing,
        Some(staged) => {
            let kept = kept_conflict(launch.course, staged.target@, facts);
            let here = raced(launch.course, facts);
            let there = raced_original(launch.course, facts);
            if kept || here || there {
                r matches SwapPlan::GiveUp { log } && log@ == (if kept {
                    "被保留的外部实例可能正在使用待替换的 CLI 树"@
                } else if here {
                    "检测之后端口上又出现了外部 Harness"@
                } else {
                    "原端口上仍有实例在服务，它可能正在使用待替换的 CLI 树"@
                }) + "：放弃本次切换（已暂存的 v"@ + staged.version@ + " 作废，下次启动再更新）"@
            } else {
                r == (SwapPlan::Commit { staged })
            }
        },
    }
}

/// A tree is swapped in only where nobody but us can be serving from the one it replaces: no
/// instance that was kept, none that appeared on the port, and none on the port that the launch
/// was moved away from.
pub proof fn no_tree_is_pulled_away(launch: Launch, facts: SwapFacts, staged: StagedUpdate)
    requires
        swap_planned(launch, facts, SwapPlan::Commit { staged }),
    ensures
        launch.staged == Some(staged),
        launch.course.kept is Some && facts.target_exists ==> facts.owned
            && facts.kept_command is Some && !holds(facts.kept_command->0@, staged.target@),
        !launch.course.took_over && facts.probe == Probe::Harness ==> facts.ours,
        launch.course.port != launch.course.configured_port && facts.original_probe
            == Probe::Harness ==> facts.original_ours,
{
}

/// What is said where the Harness printed no URL.
pub fn url_failure(reason: &str, tail: &str, rolled_back: bool) -> (r: String)
    ensures
        r@ == reason@ + (if rolled_back {
            "\n\n新版本未能启动，已回滚到上一个版本。"@
        } else {
            ""@
        }) + "\n\n最近输出:\n"@ + tail@,
{
    let note = if rolled_back {
        "\n\n新版本未能启动，已回滚到上一个版本。"
    } else {
        ""
    };
    glue4(reason, note, "\n\n最近输出:\n", tail)
}

/// What is shown where the front end moves to the browser.
#[derive(Debug, Clone, PartialEq, Eq)]
pub struct BrowserHandover {
    pub log: String,
    pub status: String,
    pub detail: String,
}

/// Moves the front end to the browser, where a report says that it cannot run here.
pub fn hand_the_gui_to_the_browser(
    unsupported: Option<&WebviewReport>,
    url: &str,
    version: &str,
    compat: bool,
) -> (r: Option<BrowserHandover>)
    ensures
        (match unsupported {
            Some(report) => {
                &&& r matches Some(handover)
                &&& handover.log@ == "WebView 缺少 dsh 前端必需的能力（"@ + joined(
                    gaps_of(*report, compat),
                    "、"@,
                ) + "），改用默认浏览器打开 "@ + url@
                &&& handover.status@ == "系统 WebView 太旧，界面已改在浏览器中打开"@
                &&& handover.detail@ == description(*report, version@, compat)
                    + "\n\n界面已在默认浏览器中打开：\n"@ + url@
                    + "\n\n这个窗口是 harness 的管理窗口（更新与退出清理都在这里）：在浏览器里操作时请不要关闭它，关闭它会停止 harness。"@
            },
            None => r is None,
        }),
{
    match unsupported {
        Some(report) => {
            let gaps = report.gaps(compat);
            Some(
                BrowserHandover {
                    log: glue4(
                        "WebView 缺少 dsh 前端必需的能力（",
                        join(gaps.as_slice(), "、").as_str(),
                        "），改用默认浏览器打开 ",
                        url,
                    ),
                    status: "系统 WebView 太旧，界面已改在浏览器中打开".to_owned(),
                    detail: report.browser_fallback_detail(version, url, compat),
                },
            )
        },
        None => None,
    }
}

/// The line about what was added to the engine of the page; none where it lacks nothing.
/// `added` tells whether the script made it into the window.
pub fn compat_log(report: Option<&WebviewReport>, added: bool, compat: bool) -> (r: Option<String>)
    ensures
        opt_view(r) == (match report {
            Some(found) => if found.missing@.len() > 0 {
                Some(
                    "WebView 缺少 "@ + joined(texts(found.missing@), "、"@) + "："@ + (if added {
                        "已注入兼容层"@
                    } else if compat {
                        "探测未在上报窗口内到达，未注入兼容层"@
                    } else {
                        "webkit_compat=false，未注入兼容层"@
                    }),
                )
            } else {
                None
            },
            None => None,
        }),
{
    match report {
        Some(found) => if found.needs_compat() {
            let why = if added {
                "已注入兼容层"
            } else if compat {
                "探测未在上报窗口内到达，未注入兼容层"
            } else {
                "webkit_compat=false，未注入兼容层"
            };
            Some(
                glue4("WebView 缺少 ", join(found.missing.as_slice(), "、").as_str(), "：", why),
            )
        } else {
            None
        },
        None => None,
    }
}

/// A script that the window may carry besides what is added to its engine.
#[derive(Debug, Clone, Copy, PartialEq, Eq, Structural)]
pub enum PageScript {
    RenderFallback,
    MenuFocusGuard,
    ScrollAnchor,
    PageDiagnostics,
}

/// The scripts that the window carries, in the order in which they run: what is added to the
/// engine; then the others that the configuration asks for. Diagnostics come last, and see a page
/// that the others have set up.
pub fn harness_scripts(
    compat: bool,
    report: Option<&WebviewReport>,
    render_fallback: bool,
    keep_menu_focus: bool,
    scroll_anchor: bool,
    page_diagnostics: bool,
) -> (r: (Option<String>, Vec<PageScript>))
    ensures
        opt_view(r.0) == (match report {
            Some(found) => if compat && found.missing@.len() > 0 {
                Some(compat_of(blocks(), texts(found.missing@)))
            } else {
                None
            },
            None => None,
        }),
        r.1@ == script(render_fallback, PageScript::RenderFallback) + script(
            keep_menu_focus,
            PageScript::MenuFocusGuard,
        ) + script(scroll_anchor, PageScript::ScrollAnchor) + script(
            page_diagnostics,
            PageScript::PageDiagnostics,
        ),
{
    let added = match report {
        Some(found) => if compat && found.needs_compat() {
            Some(compat_script(found.missing.as_slice()))
        } else {
            None
        },
        None => None,
    };
    let mut others: Vec<PageScript> = Vec::new();
    if render_fallback {
        others.push(PageScript::RenderFallback);
    }
    if keep_menu_focus {
        others.push(PageScript::MenuFocusGuard);
    }
    if scroll_anchor {
        others.push(PageScript::ScrollAnchor);
    }
    if page_diagnostics {
        others.push(PageScript::PageDiagnostics);
    }
    proof {
        assert(others@ =~= script(render_fallback, PageScript::RenderFallback) + script(
            keep_menu_focus,
            PageScript::MenuFocusGuard,
        ) + script(scroll_anchor, PageScript::ScrollAnchor) + script(
            page_diagnostics,
            PageScript::PageDiagnostics,
        ));
    }
    (added, others)
}

/// A script, where it is wanted.
pub open spec fn script(wanted: bool, which: PageScript) -> Seq<PageScript> {
    if wanted {
        seq![which]
    } else {
        Seq::empty()
    }
}

/// The shell's own tree may always be updated, and one of the user's own where it tells a version.
pub proof fn which_tree_may_be_updated(version: Seq<char>)
    ensures
        may_update(Updates::Shadow, version),
        may_update(Updates::Notify, version) <==> version_in(version) is Some,
{
}

/// A newer CLI is built where nothing stands against it. The user is told of it where they asked
/// to be told only, or where it was not tested and has to be; and nothing is done where installing
/// it changed nothing or failed a short while ago, or where there is none.
pub proof fn what_is_done_about_a_newer_cli(
    checked: Checked,
    updates: Updates,
    system_updates: SystemUpdates,
    require_tested: bool,
    from: Seq<char>,
    to: Seq<char>,
)
    ensures
        checked.status@ == (StatusModel::UpdateAvailable { from, to }) && !checked.attempted
            && !checked.failed_recently ==> {
            let decided = core_decided(checked, updates, system_updates, require_tested);
            let left_alone = updates == Updates::Notify && system_updates == SystemUpdates::Notify;
            let refused = require_tested && !(compatibility_of(to) is Tested);
            &&& !left_alone && !refused ==> decided == (CoreModel::Stage { from, to })
            &&& left_alone || refused ==> decided == (CoreModel::Tell { to })
        },
        checked.attempted || checked.failed_recently || checked.status@ !is UpdateAvailable
            ==> core_decided(checked, updates, system_updates, require_tested) is Keep,
{
}

/// A tree that is there may be in use, unless it is the shell's own and the command line of the
/// instance does not name it.
pub proof fn when_a_tree_may_be_in_use(
    target: Seq<char>,
    command: Seq<char>,
    before: Seq<char>,
    after: Seq<char>,
    owned: bool,
)
    ensures
        !conflicts(target, false, owned, Some(command)),
        !conflicts(target, false, owned, None),
        conflicts(target, true, false, Some(command)),
        conflicts(target, true, owned, None),
        conflicts(target, true, owned, Some(before + target + after)),
        !holds(command, target) ==> !conflicts(target, true, true, Some(command)),
{
    crate::search::a_text_is_found_where_it_stands(before, target, after);
}

/// A built tree is swapped in where no instance was kept, none of another's appeared on the port,
/// and the port is the configured one; and given up where one appeared.
pub proof fn when_a_built_tree_is_swapped_in(launch: Launch, facts: SwapFacts, r: SwapPlan)
    requires
        swap_planned(launch, facts, r),
    ensures
        launch.staged is None ==> r is Nothing,
        launch.staged matches Some(staged) && launch.course.kept is None && launch.course.port
            == launch.course.configured_port && (facts.probe != Probe::Harness || facts.ours
            || launch.course.took_over) ==> r == (SwapPlan::Commit { staged: launch.staged->0 }),
        launch.staged is Some && facts.probe == Probe::Harness && !facts.ours
            && !launch.course.took_over ==> r is GiveUp,
        launch.staged is Some && launch.course.port != launch.course.configured_port
            && facts.original_probe == Probe::Harness && !facts.original_ours ==> r is GiveUp,
        launch.staged is Some && launch.course.kept is Some && facts.target_exists && !facts.owned
            ==> r is GiveUp,
{
}

/// What was decided about an instance that is not ours is what is done: it is stopped only where
/// it is to be taken over, and a refusal is final only where the user gave it.
pub proof fn what_follows_on_a_decision(
    port: u16,
    owner: Option<u32>,
    action: ForeignModel,
    r: ForeignStep,
)
    requires
        foreign_step(port, owner, action, r),
    ensures
        r is TakeOver <==> action is TakeOver,
        action matches ForeignModel::TakeOver { pid } ==> (r matches ForeignStep::TakeOver {
            pid: taken,
            ..
        } && taken == pid),
        r is Browser <==> action is UseBrowser,
        r is Move <==> action is UseOtherPort,
        r is Fail <==> action is Refuse || action is Declined || action is Ask,
        r matches ForeignStep::Fail { error } ==> (error.declined <==> action is Declined),
        action matches ForeignModel::Refuse { reason } ==> (r matches ForeignStep::Fail { error }
            && error.reason@ == reason),
        action matches ForeignModel::Declined { reason } ==> (r matches ForeignStep::Fail { error }
            && error.reason@ == reason),
        r matches ForeignStep::Browser { url, .. } ==> url@ == "http://127.0.0.1:"@ + decimal(
            port as nat,
        ) + "/"@,
{
}

/// What is said about a newer CLI goes with what is done about it. The line names the version.
/// The window says nothing of one that is left alone; of one that is built it says so, and of one
/// that the user is only told of it says so and then that it is not installed.
pub proof fn what_is_said_about_a_newer_cli(
    checked: Checked,
    updates: Updates,
    system_updates: SystemUpdates,
    require_tested: bool,
    version: Seq<char>,
    from: Seq<char>,
    to: Seq<char>,
)
    requires
        checked.status@ == (StatusModel::UpdateAvailable { from, to }),
    ensures
        ({
            let decided = core_decided(checked, updates, system_updates, require_tested);
            let said = core_log(checked, updates, system_updates, require_tested, version);
            let shown = core_statuses(checked, updates, system_updates, require_tested);
            &&& said is Some
            &&& crate::text::mentions(said->0, to)
            &&& decided is Stage ==> said->0 == "update available: "@ + from + " -> "@ + to
                + ", installing"@
            &&& decided is Keep ==> shown.len() == 0
            &&& decided is Stage ==> shown.len() == 1
            &&& decided is Tell ==> shown.len() == 2
            &&& forall|i: int|
                0 <= i < shown.len() ==> crate::text::mentions((#[trigger] shown[i]).0, to)
                    && crate::text::mentions(shown[i].1, "v"@ + from + " -> v"@ + to)
        }),
{
    let said = core_log(checked, updates, system_updates, require_tested, version)->0;
    let shown = core_statuses(checked, updates, system_updates, require_tested);
    let none = Seq::<char>::empty();
    if checked.attempted {
        crate::text::lemma_mentions(
            "update "@,
            to,
            " was already attempted and changed nothing; not installing again"@,
        );
    } else if checked.failed_recently {
        crate::text::lemma_mentions(
            "update "@,
            to,
            " failed to start last time; not retrying yet (the wait grows with each failure)"@,
        );
    } else {
        let step = "v"@ + from + " -> v"@ + to;
        let before = "update available: "@ + from + " -> "@;
        let start = before + to;
        assert(said.subrange(0, start.len() as int) =~= start);
        let behind = said.subrange(start.len() as int, said.len() as int);
        assert(said =~= before + to + behind);
        crate::text::lemma_mentions("发现新版本 v"@, to, "，正在更新…"@);
        crate::text::lemma_mentions("有新版本 v"@, to, "（system_updates=notify，未自动更新）"@);
        crate::text::lemma_mentions("有新版本 v"@, to, "（超出已测试区间，未自动安装）"@);
        crate::text::lemma_mentions(
            none,
            step,
            "；如需使用请在 config.json 里设置 \"require_tested_dsh\": false"@,
        );
    }
}

/// What is said of an answer of the registry that offers nothing: which version is up to date, or
/// which one is kept and why; and nothing of a query that was not made. The window says nothing.
pub proof fn what_is_said_where_nothing_is_newer(
    checked: Checked,
    updates: Updates,
    system_updates: SystemUpdates,
    require_tested: bool,
    version: Seq<char>,
)
    ensures
        checked.status@ !is UpdateAvailable ==> core_statuses(
            checked,
            updates,
            system_updates,
            require_tested,
        ).len() == 0,
        ({
            let said = core_log(checked, updates, system_updates, require_tested, version);
            let of_plugin = market_log(checked, version);
            match checked.status@ {
                StatusModel::UpToDate { version: current } => {
                    &&& said is Some && crate::text::mentions(said->0, current)
                    &&& of_plugin is Some && crate::text::mentions(of_plugin->0, current)
                    &&& crate::text::mentions(of_plugin->0, MARKET_PLUGIN@)
                },
                StatusModel::Skipped => said is None && of_plugin is None,
                StatusModel::Failed { reason } => {
                    &&& said is Some && crate::text::mentions(said->0, version)
                    &&& crate::text::mentions(said->0, reason)
                    &&& of_plugin is Some && crate::text::mentions(of_plugin->0, version)
                    &&& crate::text::mentions(of_plugin->0, reason)
                },
                StatusModel::UpdateAvailable { to, .. } => {
                    &&& of_plugin is Some && crate::text::mentions(of_plugin->0, to)
                    &&& crate::text::mentions(of_plugin->0, MARKET_PLUGIN@)
                },
            }
        }),
{
    match checked.status@ {
        StatusModel::UpToDate { version: current } => {
            crate::text::lemma_mentions("dsh is up to date: "@, current, Seq::empty());
            let before = "plugin "@ + MARKET_PLUGIN@ + " is up to date: "@;
            crate::text::lemma_mentions(before, current, Seq::empty());
            let whole = before + current;
            assert(whole =~= "plugin "@ + MARKET_PLUGIN@ + (" is up to date: "@ + current));
        },
        StatusModel::Skipped => {},
        StatusModel::Failed { reason } => {
            let a = "update check failed, keeping v"@;
            assert(a + version + ": "@ + reason =~= a + version + (": "@ + reason));
            crate::text::lemma_mentions(a, version, ": "@ + reason);
            crate::text::lemma_mentions(a + version + ": "@, reason, Seq::empty());
            let b = "plugin update check failed, keeping v"@;
            assert(b + version + ": "@ + reason =~= b + version + (": "@ + reason));
            crate::text::lemma_mentions(b, version, ": "@ + reason);
            crate::text::lemma_mentions(b + version + ": "@, reason, Seq::empty());
        },
        StatusModel::UpdateAvailable { from, to } => {
            let said = market_log(checked, version)->0;
            if checked.attempted || checked.failed_recently {
                let before = "plugin "@ + MARKET_PLUGIN@ + " "@;
                let start = before + to;
                let behind = said.subrange(start.len() as int, said.len() as int);
                assert(said =~= before + to + behind);
                assert(said =~= "plugin "@ + MARKET_PLUGIN@ + (" "@ + to + behind));
            } else {
                let before = "plugin update available: "@ + MARKET_PLUGIN@ + " "@ + from + " -> "@;
                assert(said =~= before + to + ", installing"@);
                assert(said =~= "plugin update available: "@ + MARKET_PLUGIN@ + (" "@ + from
                    + " -> "@ + to + ", installing"@));
            }
        },
    }
}

} // verus!

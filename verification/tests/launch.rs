//! One launch, from the update check to the booted Harness.

use dsh_desktop::harness::{parse_dsh_url, Probe};
use dsh_desktop::identity::SelfHeal;
use dsh_desktop::launch::{
    asks_identity, checks_core, checks_market, compat_gate, core_plan, heal_plan, import_log,
    market_plan, may_update_core, no_update_log, plugin_skip_reason, swap_blocked, swap_conflicts,
    target_prefix, url_failure, Announcement, CoreDecision, Detected, ForeignStep, Launch, Phase,
    PluginSkip, SwapFacts, SwapPlan, STARTUP_TIMEOUT_FIRST_SECS, STARTUP_TIMEOUT_NEXT_SECS,
};
use dsh_desktop::process::HarnessState;
use dsh_desktop::runtime::{Origin, SystemUpdates, Updates};
use dsh_desktop::takeover::ForeignAction;
use dsh_desktop::update::{Checked, Status, MARKET_PLUGIN};
use dsh_desktop::update_flow::StagedUpdate;

#[test]
fn a_missing_pnpm_skips_the_plugin_step_before_anything_is_stopped() {
    let pnpm = "/opt/runtime/tools/bin/pnpm";
    // Declared but not installed: installing it is a repair the user may be mid-way through.
    assert_eq!(
        plugin_skip_reason(true, None, Some(pnpm)),
        Some(PluginSkip::NotInstalled)
    );
    // No pnpm: `dsh plugin add` forwards to pnpm and exits 127 — after the shell already
    // stopped the Harness, so the decision has to be made here.
    assert_eq!(
        plugin_skip_reason(true, Some("1.0.0"), None),
        Some(PluginSkip::NoPnpm)
    );
    // Both halves present: the update may proceed.
    assert_eq!(plugin_skip_reason(true, Some("1.0.0"), Some(pnpm)), None);
    // The skip has to explain itself; this is the log line the user sees.
    assert!(PluginSkip::NoPnpm.reason().contains("pnpm"));
    assert!(PluginSkip::NotInstalled.reason().contains(MARKET_PLUGIN));
}

/// Core updates are the same hazard as the identity check: `npm i -g @deepseek-ai/dsh`
/// against a foreign or unreadable tree installs a second CLI and restarts onto it.
#[test]
fn the_core_update_only_touches_a_tree_it_can_identify() {
    // The shell's own writable prefix: always its business.
    assert!(may_update_core(Updates::Shadow, "0.1.5-rc.2"));
    assert!(may_update_core(Updates::Shadow, "未知"));
    // A user's install whose version this package really publishes: updatable in place.
    assert!(may_update_core(Updates::Notify, "0.1.5-rc.2"));
    assert!(may_update_core(Updates::Notify, "0.1.6-alpha.1"));
    // A user's install with no version to compare against: leave it alone.
    assert!(!may_update_core(Updates::Notify, "未知"));
    assert!(!may_update_core(Updates::Notify, ""));
    assert!(!may_update_core(Updates::Notify, "Dancer's shell"));
    assert!(no_update_log("未知").contains("未知"));
}

/// A profile without the market used to be skipped in silence, which is how "the UI has no
/// plugin market" became impossible to explain from the log.
#[test]
fn a_profile_without_the_market_says_so_instead_of_going_quiet() {
    let pnpm = "/opt/runtime/tools/bin/pnpm";
    assert_eq!(
        plugin_skip_reason(false, None, Some(pnpm)),
        Some(PluginSkip::NotDeclared)
    );
    // Not declared wins over the other reasons: there is nothing to install or update.
    assert_eq!(
        plugin_skip_reason(false, Some("1.0.0"), None),
        Some(PluginSkip::NotDeclared)
    );
    let reason = PluginSkip::NotDeclared.reason();
    assert!(reason.contains(MARKET_PLUGIN), "{reason}");
    assert!(reason.contains("profile"), "{reason}");
    // The repair path is named, because the missing menu is not something a user can guess.
    assert!(reason.contains("dsh plugin"), "{reason}");
}

/// The swap must not pull a tree out from under an instance the user chose to keep, and must
/// not refuse an update for a tree nothing can be using.
#[test]
fn a_kept_instance_blocks_only_a_swap_of_the_tree_it_may_use() {
    let target = "/data/runtime/prefix/lib/node_modules/@deepseek-ai/dsh";
    let ours =
        "/app/node /data/runtime/prefix/lib/node_modules/@deepseek-ai/dsh/lib/bin.js --profile web";
    let other = "/usr/local/bin/node /usr/local/bin/dsh web";

    // First update of a bundled build: the shadow tree does not exist yet.
    assert!(!swap_conflicts(target, false, true, None));
    // The user's own prefix: a kept terminal instance is assumed to use it, whatever it prints.
    assert!(swap_conflicts(target, true, false, Some(other)));
    // The shadow prefix: decided by the command line, and an unreadable one is a conflict.
    assert!(swap_conflicts(target, true, true, Some(ours)));
    assert!(!swap_conflicts(target, true, true, Some(other)));
    assert!(swap_conflicts(target, true, true, None));
}

/// The swap is refused when any of the three "somebody may be using this tree" signals
/// fires, and allowed only when none of them does.
#[test]
fn only_a_clear_field_lets_the_staged_tree_be_committed() {
    assert!(!swap_blocked(false, false, false));
    // The user kept the instance that may be running this tree.
    assert!(swap_blocked(true, false, false));
    // A Harness took the port this launch is about to spawn on.
    assert!(swap_blocked(false, true, false));
    // A Harness is still on the port detection started from.
    assert!(swap_blocked(false, false, true));
    assert!(swap_blocked(true, true, true));
}

fn launch() -> Launch {
    Launch::new(3080, "0.1.5".to_string(), "/old/bin.js".to_string(), false, false)
}

fn tree() -> StagedUpdate {
    StagedUpdate {
        dir: "/data/staging/dsh".to_string(),
        version: "0.1.6".to_string(),
        target: "/data/prefix/dsh".to_string(),
        backup: "/data/rollback/0.1.6".to_string(),
    }
}

fn quiet() -> SwapFacts {
    SwapFacts {
        target_exists: true,
        owned: true,
        kept_command: None,
        probe: Probe::Closed,
        ours: false,
        original_probe: Probe::Closed,
        original_ours: false,
    }
}

/// A launch that swaps a new tree in, and boots it.
#[test]
fn a_built_tree_is_swapped_in_once_the_port_is_free() {
    let mut launch = launch();
    let (log, failed) = launch.staged("0.1.5", "0.1.6", Ok(tree()));
    assert_eq!(log, "update staged: 0.1.5 -> 0.1.6（校验通过，待切换）");
    assert!(!failed);
    assert_eq!(launch.detect(Probe::Closed, None, false), Detected::Free);
    launch.cleared();
    assert_eq!(launch.startup_timeout(), STARTUP_TIMEOUT_NEXT_SECS);
    assert_eq!(launch.plan_swap(&quiet()), SwapPlan::Commit { staged: tree() });
    let (log, failed) = launch.swapped(Ok(("/new/bin.js".to_string(), "0.1.6".to_string())));
    assert_eq!(log, "dsh updated: 0.1.5 -> 0.1.6");
    assert!(!failed);
    assert_eq!(launch.dsh_js, "/new/bin.js");
    assert!(launch.must_roll_back());
    assert_eq!(launch.startup_timeout(), STARTUP_TIMEOUT_FIRST_SECS);
    assert_eq!(launch.announce_pending_update(), Announcement::Clear);
    let (status, detail) = launch.boot_status(Origin::Shadow);
    assert_eq!(status, "正在启动 Harness…");
    assert!(detail.starts_with("dsh 0.1.6 · "), "{detail}");
    assert!(detail.ends_with(" · /new/bin.js · 端口 3080"), "{detail}");
}

#[test]
fn a_swap_that_failed_boots_the_old_tree() {
    let mut launch = launch();
    launch.staged("0.1.5", "0.1.6", Ok(tree()));
    launch.cleared();
    launch.plan_swap(&quiet());
    let (log, failed) = launch.swapped(Err("busy".to_string()));
    assert_eq!(log, "update failed, keeping v0.1.5: busy");
    assert!(failed);
    assert_eq!(launch.dsh_js, "/old/bin.js");
    assert!(!launch.must_roll_back());
    assert_eq!(launch.announce_pending_update(), Announcement::Nothing);
}

#[test]
fn a_tree_that_was_not_built_is_marked() {
    let mut launch = launch();
    let (log, failed) = launch.staged("0.1.5", "0.1.6", Err("npm".to_string()));
    assert_eq!(log, "update staged but not committed, keeping v0.1.5: npm");
    assert!(failed);
    launch.cleared();
    assert_eq!(launch.plan_swap(&quiet()), SwapPlan::Nothing);
}

#[test]
fn our_own_instance_is_used_again_unless_an_update_made_it_obsolete() {
    let mut launch = launch();
    match launch.detect(Probe::Harness, Some(7), false) {
        Detected::Reuse { pid, url, .. } => {
            assert_eq!(pid, 7);
            assert_eq!(url, "http://127.0.0.1:3080/");
        }
        other => panic!("{other:?}"),
    }
    // A browser needs the URL of a fresh launch.
    assert!(matches!(
        launch.detect(Probe::Harness, Some(7), true),
        Detected::Restart { pid: 7, .. }
    ));
    launch.market_updated();
    match launch.detect(Probe::Harness, Some(7), false) {
        Detected::Restart { status, .. } => assert_eq!(status, "更新完成，正在重启 Harness…"),
        other => panic!("{other:?}"),
    }
    assert_eq!(launch.detect(Probe::Harness, None, false), Detected::Foreign);
    match launch.detect(Probe::Other, None, false) {
        Detected::Busy { error } => assert!(error.reason.contains("3080")),
        other => panic!("{other:?}"),
    }
}

#[test]
fn an_instance_that_is_kept_moves_the_launch_away_from_it() {
    let mut launch = launch();
    launch.staged("0.1.5", "0.1.6", Ok(tree()));
    match launch.foreign(ForeignAction::UseOtherPort { port: 3081 }, Some(4242)) {
        ForeignStep::Move { log } => assert_eq!(
            log,
            "端口 3080 上的 Harness（pid 4242) 保留不动，本应用改用端口 3081"
        ),
        other => panic!("{other:?}"),
    }
    assert_eq!(launch.course.port, 3081);
    assert_eq!(launch.course.phase, Phase::Cleared);
    // It may run the tree that would be replaced.
    let facts = SwapFacts {
        kept_command: Some("node /data/prefix/dsh/lib/bin.js".to_string()),
        ..quiet()
    };
    match launch.plan_swap(&facts) {
        SwapPlan::GiveUp { log } => {
            assert!(log.starts_with("被保留的外部实例"), "{log}");
            assert!(log.contains("v0.1.6"), "{log}");
        }
        other => panic!("{other:?}"),
    }
}

#[test]
fn an_instance_that_appeared_late_keeps_its_tree() {
    let mut late = launch();
    late.staged("0.1.5", "0.1.6", Ok(tree()));
    late.cleared();
    let facts = SwapFacts {
        probe: Probe::Harness,
        ..quiet()
    };
    assert!(matches!(late.plan_swap(&facts), SwapPlan::GiveUp { .. }));
    // On the port that the launch was moved away from.
    let mut moved = launch();
    moved.staged("0.1.5", "0.1.6", Ok(tree()));
    moved.foreign(ForeignAction::UseOtherPort { port: 3081 }, None);
    let facts = SwapFacts {
        kept_command: Some("/usr/local/bin/dsh web".to_string()),
        original_probe: Probe::Harness,
        ..quiet()
    };
    match moved.plan_swap(&facts) {
        SwapPlan::GiveUp { log } => assert!(log.starts_with("原端口"), "{log}"),
        other => panic!("{other:?}"),
    }
}

#[test]
fn every_verdict_on_a_foreign_instance_has_its_step() {
    assert!(matches!(
        launch().foreign(ForeignAction::UseBrowser, Some(7)),
        ForeignStep::Browser { .. }
    ));
    let step = |action: ForeignAction| launch().foreign(action, Some(7));
    match step(ForeignAction::Refuse { reason: "no".to_string() }) {
        ForeignStep::Fail { error } => assert!(!error.declined),
        other => panic!("{other:?}"),
    }
    match step(ForeignAction::Declined { reason: "kept".to_string() }) {
        ForeignStep::Fail { error } => assert!(error.declined),
        other => panic!("{other:?}"),
    }
    assert!(matches!(step(ForeignAction::Ask { pid: 7 }), ForeignStep::Fail { .. }));
    let mut taking = launch();
    assert!(matches!(
        taking.foreign(ForeignAction::TakeOver { pid: 7 }, Some(7)),
        ForeignStep::TakeOver { pid: 7, .. }
    ));
    assert!(taking.course.took_over);
    assert_eq!(taking.takeover_failed().reason, "接管失败：端口 3080 仍被占用。");
}

#[test]
fn the_port_of_the_url_is_the_port_that_is_served() {
    let url = parse_dsh_url("dsh web: http://127.0.0.1:4000/?token=a").unwrap();
    assert_eq!(launch().actual_port(&url), 4000);
    let bare = parse_dsh_url("dsh web: http://127.0.0.1/?token=a").unwrap();
    assert_eq!(launch().actual_port(&bare), 3080);
    assert_eq!(url_failure("超时", "tail", false), "超时\n\n最近输出:\ntail");
    assert!(url_failure("超时", "tail", true).contains("已回滚到上一个版本"));
}

fn checked(status: Status) -> Checked {
    Checked {
        status,
        cached: false,
        attempted: false,
        failed_recently: false,
    }
}

fn newer(to: &str) -> Checked {
    checked(Status::UpdateAvailable {
        from: "0.1.5".to_string(),
        to: to.to_string(),
    })
}

#[test]
fn a_newer_version_is_built_only_where_that_is_wanted() {
    let plan = |checked: &Checked, updates: Updates, system: SystemUpdates| {
        core_plan(checked, updates, system, true, "0.1.5").decision
    };
    let stage = CoreDecision::Stage {
        from: "0.1.5".to_string(),
        to: "0.1.6".to_string(),
    };
    assert_eq!(plan(&newer("0.1.6"), Updates::Shadow, SystemUpdates::Notify), stage);
    assert_eq!(plan(&newer("0.1.6"), Updates::Notify, SystemUpdates::Install), stage);
    assert!(matches!(
        plan(&newer("0.1.6"), Updates::Notify, SystemUpdates::Notify),
        CoreDecision::Tell { .. }
    ));
    // One that would not be run, one that changed nothing, one that failed a moment ago.
    assert_ne!(plan(&newer("0.2.0"), Updates::Shadow, SystemUpdates::Notify), stage);
    let repeated = Checked {
        attempted: true,
        ..newer("0.1.6")
    };
    assert_ne!(plan(&repeated, Updates::Shadow, SystemUpdates::Notify), stage);
    let failed = Checked {
        failed_recently: true,
        ..newer("0.1.6")
    };
    assert_ne!(plan(&failed, Updates::Shadow, SystemUpdates::Notify), stage);
    assert_eq!(
        plan(
            &checked(Status::UpToDate {
                version: "0.1.5".to_string()
            }),
            Updates::Shadow,
            SystemUpdates::Notify
        ),
        CoreDecision::Keep
    );
    assert_eq!(
        target_prefix(Some("/data/prefix".to_string()), "/x/bin.js").as_deref(),
        Ok("/data/prefix")
    );
    assert_eq!(
        target_prefix(None, "/opt/lib/node_modules/@deepseek-ai/dsh/lib/bin.js").as_deref(),
        Ok("/opt")
    );
    assert!(target_prefix(None, "/tmp/plain/bin.js").is_err());
}

#[test]
fn the_market_is_updated_only_where_that_is_wanted() {
    assert!(checks_market(true, true, false).0);
    assert!(!checks_market(true, false, false).0);
    let (checks, why) = checks_market(true, true, true);
    assert!(!checks);
    assert!(why.is_some(), "the first launch stays offline, and says so");
    let plan = market_plan(
        &checked(Status::UpdateAvailable {
            from: "1.45.1".to_string(),
            to: "1.46.1".to_string(),
        }),
        "1.45.1",
    );
    assert_eq!(plan.install, Some(("1.45.1".to_string(), "1.46.1".to_string())));
    let none = market_plan(
        &checked(Status::Failed {
            reason: "offline".to_string(),
        }),
        "1.45.1",
    );
    assert_eq!(none.install, None);
    assert!(none.log.unwrap().contains("offline"));
}

#[test]
fn a_version_outside_of_the_range_is_refused_or_marked() {
    let tested = compat_gate("0.1.5", true);
    assert!(!tested.untested);
    assert_eq!(tested.verdict, Ok(()));
    let newer = compat_gate("0.2.0", true);
    assert!(newer.verdict.is_err());
    let allowed = compat_gate("0.2.0", false);
    assert!(allowed.untested);
    assert_eq!(allowed.verdict, Ok(()));
}

#[test]
fn a_leftover_is_stopped_or_forgotten() {
    let state = HarnessState {
        pid: 4242,
        port: 3080,
        cwd: "/tmp".to_string(),
        started_at: 1,
    };
    let keep = heal_plan(SelfHeal::Keep, &state, true, Some(4242));
    assert!(!keep.clear);
    assert_eq!(keep.terminate, None);
    let stop = heal_plan(SelfHeal::Terminate, &state, true, None);
    assert!(stop.clear);
    assert_eq!(stop.terminate.map(|(pid, _, _)| pid), Some(4242));
    let clear = heal_plan(SelfHeal::Clear, &state, false, None);
    assert!(clear.clear);
    assert_eq!(clear.terminate, None);
    // Who it is is asked only of a process that lives and does not hold its port.
    assert!(asks_identity(true, None, 4242));
    assert!(!asks_identity(false, None, 4242));
    assert!(!asks_identity(true, Some(4242), 4242));
    let names = ["DEEPSEEK_API_KEY".to_string()];
    assert!(import_log("/bin/zsh", Some(("-lic", &names))).contains("DEEPSEEK_API_KEY"));
    assert!(import_log("/bin/zsh", None).contains("/bin/zsh"));
}

/// A newer CLI is looked for where that is wanted and the tree may be updated.
#[test]
fn the_core_check_needs_a_wish_and_a_version() {
    assert_eq!(checks_core(true, Updates::Shadow, "未知"), (true, None));
    assert_eq!(checks_core(false, Updates::Shadow, "未知"), (false, None));
    assert_eq!(checks_core(true, Updates::Notify, "0.1.5"), (true, None));
    let line = Some(no_update_log("未知"));
    assert_eq!(checks_core(true, Updates::Notify, "未知"), (false, line.clone()));
    assert_eq!(checks_core(false, Updates::Notify, "未知"), (false, line));
}

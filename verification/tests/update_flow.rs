//! An update of the CLI, and of the plugin market.

use dsh_desktop::harness::Probe;
use dsh_desktop::takeover::Retry;
use dsh_desktop::transaction::{DiskEvent, SwapRecord, Verified};
use dsh_desktop::update::Cache;
use dsh_desktop::update_flow::{
    clear_stale_staging, commit_core_update, may_stop_before_update, package_dir_in,
    recover_pending_swap, roll_back_core_update, snapshot_profile, stage_core_update,
    stop_instance_before_update, stop_mode, update_market_plugin, CoreAction, Mark, MarketAction,
    MarketEvent, StagedUpdate, StopFlowAction, StopFlowEvent, StopFlowStage, StopMode,
    UpdatePaths,
};

fn staged() -> StagedUpdate {
    let paths = UpdatePaths::new("/d/runtime", false);
    stage_core_update(
        Verified {
            dir: "/d/runtime/staging/staging-0.1.6/prefix/lib/node_modules/@deepseek-ai/dsh".to_string(),
            entry: "/d/runtime/staging/staging-0.1.6/prefix/lib/node_modules/@deepseek-ai/dsh/lib/bin.js".to_string(),
            version: "0.1.6".to_string(),
        },
        "0.1.6",
        "/d/runtime/prefix",
        &paths,
        false,
    )
    .unwrap()
}

/// A staged update is verified and swapped, and a launch that never confirmed it is undone by
/// the next one.
#[test]
fn a_staged_update_swaps_the_tree_and_an_unconfirmed_one_is_rolled_back() {
    let live = package_dir_in("/d/runtime/prefix", false);
    assert_eq!(live, "/d/runtime/prefix/lib/node_modules/@deepseek-ai/dsh");
    let staged = staged();
    assert_eq!(staged.target, live);

    let mut flow = commit_core_update(staged.clone(), 1_700_000_000, false);
    assert_eq!(flow.next(DiskEvent::Started), CoreAction::Inspect { path: live.clone() });
    // The swap is recorded before it is made: a launch that dies here must be recoverable.
    let record = match flow.next(DiskEvent::Present) {
        CoreAction::WriteRecord { record } => record,
        other => panic!("the swap must be recorded first: {other:?}"),
    };
    assert_eq!(record.version, "0.1.6");
    assert_eq!(record.target, live);
    assert_eq!(record.had_previous, Some(true));
    assert_eq!(
        flow.next(DiskEvent::Done),
        CoreAction::Commit {
            target: live.clone(),
            staged: staged.dir,
            backup: staged.backup,
        }
    );
    match flow.next(DiskEvent::Done) {
        CoreAction::Finish { result: Ok((entry, version)) } => {
            assert_eq!(version, "0.1.6");
            // The entry script moved with its package directory: the spawn uses this path.
            assert_eq!(entry, format!("{live}/lib/bin.js"));
        }
        other => panic!("the swap is made: {other:?}"),
    }

    // The next launch finds the record and puts the previous tree back, and marks the version, so
    // that launch does not stage and swap the same tree again.
    let cache = Cache {
        checked_at: 1_700_000_000,
        installed: "0.1.5".into(),
        latest: Some("0.1.6".into()),
        tags: vec!["latest".to_string()],
        attempted: None,
        failed: None,
        failed_at: 0,
        failures: 0,
    };
    let (rolled, cache) = recover_pending_swap(&record, Ok(()), Some(cache), 1_700_000_100);
    assert!(rolled.back);
    assert!(rolled.clear);
    let cache = cache.expect("the cache is still there");
    assert_eq!(cache.failed.as_deref(), Some("0.1.6"));
    assert_eq!(cache.failures, 1);
}

/// A swap that fails takes its record with it, and a record that cannot be written stops it.
#[test]
fn a_swap_that_fails_leaves_no_record() {
    let mut flow = commit_core_update(staged(), 7, false);
    flow.next(DiskEvent::Started);
    flow.next(DiskEvent::Absent);
    flow.next(DiskEvent::Done);
    assert_eq!(
        flow.next(DiskEvent::Failed {
            reason: "busy".to_string()
        }),
        CoreAction::ClearRecord
    );
    match flow.next(DiskEvent::Done) {
        CoreAction::Finish { result: Err(reason) } => assert!(reason.contains("busy")),
        other => panic!("the swap failed: {other:?}"),
    }

    let mut flow = commit_core_update(staged(), 7, false);
    flow.next(DiskEvent::Started);
    flow.next(DiskEvent::Present);
    assert!(matches!(
        flow.next(DiskEvent::Failed {
            reason: "full".to_string()
        }),
        CoreAction::Finish { result: Err(_) }
    ));
}

#[test]
fn a_rollback_that_fails_is_said_and_kept() {
    let record = SwapRecord {
        target: "/d/live".to_string(),
        backup: "/d/backup".to_string(),
        version: "0.1.6".to_string(),
        at: 0,
        had_previous: Some(true),
    };
    let rolled = roll_back_core_update(&record, Err("gone".to_string()));
    assert!(!rolled.back);
    assert!(rolled.log.iter().any(|line| line.contains("gone")), "{:?}", rolled.log);
    assert!(roll_back_core_update(&record, Ok(())).back);
    // A rollback that failed marks nothing.
    let (_, cache) = recover_pending_swap(&record, Err("gone".to_string()), None, 7);
    assert_eq!(cache, None);
}

/// A staged tree that a killed process left behind is removed, and said.
#[test]
fn a_stale_staging_tree_is_cleared_without_taking_the_directory_with_it() {
    let paths = UpdatePaths::new("/d/runtime", false);
    let leftover = format!("{}/staging-0.1.5", paths.staging);
    assert!(clear_stale_staging(&leftover, Ok(())).contains("staging-0.1.5"));
    assert!(clear_stale_staging(&leftover, Err("busy".to_string())).contains("busy"));
}

/// A profile snapshot is taken before pnpm may rewrite the profile, and a failed install is
/// undone from it.
#[test]
fn a_profile_snapshot_makes_a_failed_plugin_install_reversible() {
    let paths = UpdatePaths::new("/d/runtime", false);
    assert!(snapshot_profile(&paths, "2.0.0", false).starts_with(&paths.profiles));

    let mut flow = update_market_plugin("1.0.0", "2.0.0");
    assert_eq!(flow.next(MarketEvent::Started), MarketAction::StopInstance);
    assert_eq!(flow.next(MarketEvent::Done), MarketAction::Snapshot);
    assert_eq!(flow.next(MarketEvent::Done), MarketAction::Install);
    // pnpm got half-way and died.
    assert_eq!(
        flow.next(MarketEvent::Failed {
            reason: "exit 1".to_string()
        }),
        MarketAction::Restore
    );
    match flow.next(MarketEvent::Done) {
        MarketAction::Finish { changed, mark, log } => {
            assert!(!changed);
            assert_eq!(mark, Mark::Failed);
            assert!(log.contains("exit 1"), "{log}");
        }
        other => panic!("the update is over: {other:?}"),
    }
}

/// Without a snapshot nothing is installed; an install that changed nothing is not repeated.
#[test]
fn a_plugin_update_says_what_became_of_it() {
    let mut flow = update_market_plugin("1.0.0", "2.0.0");
    flow.next(MarketEvent::Started);
    flow.next(MarketEvent::Done);
    assert!(matches!(
        flow.next(MarketEvent::Failed {
            reason: "no space".to_string()
        }),
        MarketAction::Finish { changed: false, .. }
    ));

    let finish = |version: Option<&str>| {
        let mut flow = update_market_plugin("1.0.0", "2.0.0");
        flow.next(MarketEvent::Started);
        flow.next(MarketEvent::Done);
        flow.next(MarketEvent::Done);
        assert_eq!(flow.next(MarketEvent::Done), MarketAction::ReadInstalled);
        flow.next(MarketEvent::Installed {
            version: version.map(str::to_string),
        })
    };
    assert!(matches!(
        finish(Some("2.0.0")),
        MarketAction::Finish {
            changed: true,
            mark: Mark::Nothing,
            ..
        }
    ));
    assert!(matches!(
        finish(Some("1.0.0")),
        MarketAction::Finish {
            mark: Mark::Ineffective,
            ..
        }
    ));
}

#[test]
fn external_instances_are_never_stopped_by_process_group() {
    assert_eq!(stop_mode(true), StopMode::ProcessGroup);
    assert_eq!(stop_mode(false), StopMode::PidOnly);
}

#[test]
fn update_only_stops_an_instance_it_is_allowed_to_stop() {
    // Nothing running: update freely.
    assert!(may_stop_before_update(Probe::Closed).is_ok());
    // Someone else owns the port: never install over it.
    assert!(may_stop_before_update(Probe::Other).is_err());
    // A Harness — ours or somebody else's — may be stopped only after the question is put. The
    // config is not consulted here: doing so skipped the question for everyone who had not edited
    // `config.json`.
    assert!(may_stop_before_update(Probe::Harness).is_ok());
}

/// Runs the stop before an update up to the first thing that is done to a process.
fn stop(owner: StopFlowEvent, retry: Retry) -> StopFlowAction {
    let (stage, action) =
        stop_instance_before_update(3080, StopFlowStage::Start, StopFlowEvent::Started);
    assert_eq!(action, StopFlowAction::Probe);
    let (stage, action) = stop_instance_before_update(
        3080,
        stage,
        StopFlowEvent::Probed {
            probe: Probe::Harness,
        },
    );
    assert_eq!(action, StopFlowAction::FindOwner);
    let (stage, action) = stop_instance_before_update(3080, stage, owner);
    match action {
        StopFlowAction::Confirm { .. } => {
            stop_instance_before_update(3080, stage, StopFlowEvent::Answered { retry }).1
        }
        other => other,
    }
}

/// Our own instance goes with its group; another one alone, and only with permission.
#[test]
fn a_foreign_instance_is_asked_for_before_it_is_stopped() {
    let ours = StopFlowEvent::Owner {
        listener: Some(7),
        recorded: Some(7),
        alive: true,
    };
    assert!(matches!(
        stop(ours, Retry::Refused),
        StopFlowAction::Terminate {
            pid: 7,
            mode: StopMode::ProcessGroup,
            ..
        }
    ));
    let foreign = StopFlowEvent::Owner {
        listener: Some(8),
        recorded: Some(7),
        alive: true,
    };
    assert!(matches!(
        stop(foreign, Retry::TakeOver),
        StopFlowAction::Terminate {
            pid: 8,
            mode: StopMode::PidOnly,
            ..
        }
    ));
    assert!(matches!(
        stop(foreign, Retry::Declined),
        StopFlowAction::Finish { result: Err(_), .. }
    ));
    let nobody = StopFlowEvent::Owner {
        listener: None,
        recorded: Some(7),
        alive: true,
    };
    assert!(matches!(
        stop(nobody, Retry::TakeOver),
        StopFlowAction::Finish { result: Err(_), .. }
    ));
}

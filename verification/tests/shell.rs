//! The configuration, the installation that runs, and how it is supervised.

use dsh_desktop::childenv::{ChildEnv, Platform};
use dsh_desktop::config::{
    default_port, default_workspace, home_dir, home_workspace, Config,
    ConfigFacts, ConfigRead, HomeVars,
};
use dsh_desktop::identity::{self_heal_action, SelfHeal};
use dsh_desktop::locator::NodeFacts;
use dsh_desktop::paths::{
    absolute, are_same_path, file_name, is_absolute, parent, path_join, unverbatim,
    usable_directory, with_extension,
};
use dsh_desktop::process::HarnessState;
use dsh_desktop::resolve::{
    dsh_js_candidates, dsh_js_in, host_arch, keep_system_install, node_candidates, node_in,
    preference, probes_system, resolve_runtime, seed_candidates, seed_root_for,
    system_runtime_gate, Found, ResolvedRuntime, SystemGate,
};
use dsh_desktop::runtime::{Preference, SystemUpdates, Updates};
use dsh_desktop::seed::{
    building_path, copy_tree, dsh_home_of, launch_home, profile_dir, seed_decision,
    seed_profile_template, template_dir, SeedSkip,
};
use dsh_desktop::shellenv::EnvMap;
use dsh_desktop::supervise::{
    exit_action, exit_reason, free_port_from, may_ask_after_failure, ours_on_port,
    port_candidates, recover_exited, recovered, restart_failed, runtime_port,
    take_over_handoff_and_start, watch_harness, watch_reused, ExitAction, ExitPlan, Live, Request,
    RestartAction, RestartEvent, RestartStage, Restarts, ReusedStep, StartError, Supervised,
    HANDOFF_GRACE_QUICK_SECS, HANDOFF_GRACE_SECS, HEALTHY_RUN_SECS, MAX_AUTO_RESTARTS,
    PORT_SEARCH_RANGE,
};
use dsh_desktop::takeover::Retry;
use dsh_desktop::transaction::{DiskAction, DiskEvent};
use dsh_desktop::update_flow::{stop_mode, StopMode};
use dsh_desktop::window::RELOAD_MENU_ID;

/// The menu item and the handler that acts on it are bound by one name.
#[test]
fn the_reload_menu_item_is_the_one_the_handler_watches_for() {
    assert!(!RELOAD_MENU_ID.is_empty());
    assert!(RELOAD_MENU_ID.starts_with("reload"));
}

#[test]
fn self_heal_keeps_a_record_it_can_reuse_and_clears_a_stale_one() {
    let state = |pid: u32, port: u16| HarnessState {
        pid,
        port,
        cwd: "/tmp".into(),
        started_at: 1,
    };
    // Ours, still serving the port this run uses: hand it to the reuse branch.
    assert_eq!(
        self_heal_action(&state(4242, 3080), Some(4242), true, 3080, false),
        SelfHeal::Keep
    );
    // Ours, but this run uses another port: stop it and drop the record.
    assert_eq!(
        self_heal_action(&state(4242, 3080), Some(4242), true, 4000, false),
        SelfHeal::Terminate
    );
    // The pid no longer owns the port. Only a process that still looks like our own
    // orphaned CLI may be signalled; anything else is pid reuse and is left alone.
    assert_eq!(
        self_heal_action(&state(4242, 3080), Some(9999), true, 3080, true),
        SelfHeal::Terminate
    );
    assert_eq!(
        self_heal_action(&state(4242, 3080), Some(9999), true, 3080, false),
        SelfHeal::Clear
    );
    assert_eq!(
        self_heal_action(&state(4242, 3080), None, true, 3080, false),
        SelfHeal::Clear
    );
    // Already gone: nothing to signal.
    assert_eq!(
        self_heal_action(&state(4242, 3080), Some(4242), false, 3080, false),
        SelfHeal::Clear
    );

    // Keep is what makes `ours` non-None later, and that is the only way `stop_mode` can
    // pick the process-group signal for an instance this shell started.
    let ours =
        self_heal_action(&state(4242, 3080), Some(4242), true, 3080, false) == SelfHeal::Keep;
    assert_eq!(stop_mode(ours), StopMode::ProcessGroup);
}

/// Runs a copy of a tree; the copying itself has the given outcome. Gives what it did.
fn run_copy(copied: Result<(), String>) -> (Vec<String>, Result<(), String>) {
    let mut copy = copy_tree("/t/template", "/home/profiles/web", false);
    let mut done: Vec<String> = Vec::new();
    let mut event = DiskEvent::Started;
    for _ in 0..10 {
        let action = copy.next(event);
        done.push(format!("{action:?}"));
        event = match action {
            DiskAction::Copy { .. } => match &copied {
                Ok(()) => DiskEvent::Done,
                Err(reason) => DiskEvent::Failed {
                    reason: reason.clone(),
                },
            },
            DiskAction::Finish { result } => {
                return (done, result);
            }
            _ => DiskEvent::Done,
        };
    }
    panic!("the copy must end: {done:?}");
}

#[test]
fn a_seed_copy_is_all_or_nothing() {
    assert_eq!(building_path("/home/profiles/web", false), "/home/profiles/web.tmp");
    // A source that cannot be read leaves neither the target nor the staging directory:
    // a half profile would never be re-seeded nor repaired.
    let (done, result) = run_copy(Err("no such directory".to_string()));
    assert!(result.is_err());
    assert!(!done.iter().any(|step| step.contains("Rename")), "{done:?}");
    assert!(done.last().unwrap().contains("Finish"), "{done:?}");

    // A complete copy lands in one step and cleans up after itself.
    let (done, result) = run_copy(Ok(()));
    assert_eq!(result, Ok(()));
    assert_eq!(done.iter().filter(|step| step.contains("Rename")).count(), 1, "{done:?}");
}

#[test]
fn a_missing_home_never_becomes_the_filesystem_root() {
    let temp = "/tmp";
    assert_eq!(home_workspace(Some("/Users/me".into()), temp), "/Users/me");
    assert_eq!(home_workspace(Some("   ".into()), temp), temp);
    assert_eq!(home_workspace(None, temp), temp);
    assert_ne!(home_workspace(None, temp), "/");
}

fn facts(workspace_is_dir: bool, dsh_path_is_file: bool) -> ConfigFacts {
    ConfigFacts {
        workspace_is_dir,
        dsh_path_is_file,
        fallback: "/home/me".to_string(),
        cwd: Some("/cwd".to_string()),
        windows: false,
    }
}

#[test]
fn a_bad_workspace_is_repaired_in_memory_only() {
    let mut config = Config::defaults("/definitely/not/there".to_string());
    let notes = config.repair(&facts(false, false));
    assert_eq!(config.workspace, "/home/me");
    assert!(!notes.is_empty(), "the repair is said");

    // An existing absolute directory is kept as it is.
    let mut config = Config::defaults("/work/space".to_string());
    assert!(config.repair(&facts(true, false)).is_empty());
    assert_eq!(config.workspace, "/work/space");

    // A relative path cannot serve as the child's working directory either.
    let mut config = Config::defaults("relative/dir".to_string());
    config.repair(&facts(true, false));
    assert_eq!(config.workspace, "/home/me");
}

#[test]
fn a_bad_dsh_path_is_ignored_in_memory_only() {
    let mut config = Config {
        dsh_path: Some("/definitely/not/there/dsh".to_string()),
        ..Config::defaults("/work".to_string())
    };
    config.repair(&facts(true, false));
    assert_eq!(config.dsh_path, None);

    // An existing absolute file is remembered for the locator.
    let mut config = Config {
        dsh_path: Some("/there/dsh".to_string()),
        ..Config::defaults("/work".to_string())
    };
    config.repair(&facts(true, true));
    assert_eq!(config.dsh_path.as_deref(), Some("/there/dsh"));
}

#[test]
fn the_system_gate_keeps_a_lone_dsh_and_drops_a_rejected_install() {
    let node = || Some("/usr/bin/node".to_string());
    let dsh = || Some("/usr/lib/node_modules/@deepseek-ai/dsh/lib/bin.js".to_string());
    // No system node to judge: the dsh alone is still usable on the bundled node.
    assert_eq!(keep_system_install(None, dsh(), None), (None, dsh(), None));
    // Accepted, or accepted with a warning: both halves stay.
    assert_eq!(
        keep_system_install(node(), dsh(), Some(SystemGate::Accept)),
        (node(), dsh(), None)
    );
    assert_eq!(
        keep_system_install(node(), dsh(), Some(SystemGate::Warn("old".into()))),
        (node(), dsh(), None)
    );
    // Rejected: the installation as a whole goes, and the reason reaches the error page.
    assert_eq!(
        keep_system_install(node(), dsh(), Some(SystemGate::Reject("too old".into()))),
        (None, None, Some("too old".to_string()))
    );
}

/// A free port is what makes the third option real. The configured port is not free by
/// definition — that is why the question is being asked — so the search starts above it.
#[test]
fn another_port_is_offered_only_when_one_is_actually_free() {
    let taken = 3080u16;
    let ports = port_candidates(taken);
    assert!(!ports.contains(&taken));
    assert_eq!(ports.len(), PORT_SEARCH_RANGE as usize);
    // The first two above it are held too.
    let free: Vec<bool> = ports.iter().map(|port| *port > taken + 2).collect();
    let found = free_port_from(taken, &free).expect("the range must hold a free port");
    assert!(found > taken, "{found} must be above {taken}");
    assert_eq!(found, taken + 3);
    assert!(found <= taken.saturating_add(PORT_SEARCH_RANGE));
    assert_eq!(free_port_from(taken, &vec![false; ports.len()]), None);
    // There is nothing above the last port.
    assert_eq!(port_candidates(u16::MAX), [u16::MAX]);
    assert_eq!(port_candidates(u16::MAX - 1), [u16::MAX]);
}

/// The override is per launch: a configured port that something else owns stays configured, so
/// the next start asks again instead of migrating a port the session cookie is bound to.
#[test]
fn a_port_override_lasts_for_one_launch_only() {
    // Nothing stored: the configured port wins.
    assert_eq!(runtime_port(0, 3080), 3080);
    assert_eq!(runtime_port(3091, 3080), 3091);
    assert_eq!(runtime_port(0, 3080), 3080);
}

#[test]
fn finds_a_seed_under_the_resource_directory() {
    let places = seed_candidates(None, Some("/app/res"), Some("/app/bin"), Some("/app"), false);
    assert!(places.contains(&"/app/res/runtime".to_string()));
    // The resource directory wins over the copies next to the binary.
    let found = seed_root_for(&places, &vec![true; places.len()]).unwrap();
    assert_eq!(found, "/app/res/runtime");
    assert_eq!(seed_root_for(&places, &vec![false; places.len()]), None);
}

#[test]
fn forcing_bundled_resolves_into_the_seed_tree() {
    let seed = "/r/runtime";
    let nodes = node_candidates(seed, false);
    let there: Vec<bool> = nodes.iter().map(|place| place == "/r/runtime/node/bin/node").collect();
    let seed_node = node_in(seed, &there, false);
    assert_eq!(seed_node.as_deref(), Some("/r/runtime/node/bin/node"));
    let prefix = "/r/runtime/dsh-prefix";
    let scripts = dsh_js_candidates(prefix, false);
    let entry = "/r/runtime/dsh-prefix/lib/node_modules/@deepseek-ai/dsh/lib/bin.js";
    let there: Vec<bool> = scripts.iter().map(|place| place == entry).collect();
    let seed_dsh = dsh_js_in(prefix, &there, false);
    assert_eq!(seed_dsh.as_deref(), Some(entry));

    let found = Found {
        preference: Preference::Bundled,
        env_node: None,
        env_dsh: None,
        system_node: None,
        system_dsh: None,
        facts: None,
        host_arch: "arm64".to_string(),
        seed_node: seed_node.clone(),
        seed_dsh: seed_dsh.clone(),
        seed_version: Some("9.9.9".to_string()),
        shadow_dsh: None,
        shadow_version: None,
    };
    let (_, decision) = resolve_runtime(&found);
    let resolved = ResolvedRuntime::of(
        decision.expect("seed resolves"),
        "9.9.9".to_string(),
        Some(seed.to_string()),
        Some("/cwd"),
        false,
    );
    assert_eq!(resolved.node, "/r/runtime/node/bin/node");
    assert_eq!(resolved.dsh_js, entry);
    assert_eq!(resolved.version, "9.9.9");
    // The bundled half is ours to update; a system install never is.
    assert_eq!(resolved.updates, Updates::Shadow);
    assert!(resolved.bundled());
    assert_eq!(
        resolved.update_prefix("/data", false).as_deref(),
        Some("/data/runtime/prefix")
    );
    // Nothing to run at all is an error, with the reason of a refused installation.
    let refused = Found {
        seed_node: None,
        seed_dsh: None,
        system_node: Some("/usr/bin/node".to_string()),
        system_dsh: Some("/usr/lib/bin.js".to_string()),
        facts: Some(NodeFacts {
            arch: "arm64".to_string(),
            strip_types: false,
        }),
        ..found
    };
    assert!(resolve_runtime(&refused).1.is_err());
}

#[test]
fn verbatim_windows_paths_lose_their_prefix() {
    // Node's `fs.realpathSync` walked this path and died on `lstat 'D:'` before the CLI ever
    // started.
    assert_eq!(
        unverbatim(r"\\?\D:\dsh\DSH Desktop\runtime\node\node.exe", true),
        r"D:\dsh\DSH Desktop\runtime\node\node.exe"
    );
    assert_eq!(unverbatim(r"\\?\UNC\server\share\x", true), r"\\server\share\x");
    // Past MAX_PATH the prefix is the only way to reach the file, so it stays.
    let long = format!(r"\\?\D:\{}", "a".repeat(300));
    assert_eq!(unverbatim(&long, true), long);
    // Everywhere else the helper must not touch a path.
    assert_eq!(unverbatim("/a/b", false), "/a/b");
}

#[test]
fn the_system_runtime_gate_only_refuses_what_it_must() {
    let apple = NodeFacts {
        arch: "arm64".into(),
        strip_types: true,
    };
    let intel = NodeFacts {
        arch: "x64".into(),
        strip_types: true,
    };
    let old = NodeFacts {
        arch: "arm64".into(),
        strip_types: false,
    };

    assert_eq!(system_runtime_gate(&apple, "arm64", true), SystemGate::Accept);
    // An x64 node under Rosetta is only worth refusing when the bundled runtime can take
    // its place; without one it is the only way to run, so it is kept with a warning.
    assert!(matches!(
        system_runtime_gate(&intel, "arm64", true),
        SystemGate::Reject(_)
    ));
    assert!(matches!(
        system_runtime_gate(&intel, "arm64", false),
        SystemGate::Warn(_)
    ));
    // Node < 22.13 cannot run the CLI at all, so this one is fatal in both cases.
    assert!(matches!(
        system_runtime_gate(&old, "arm64", false),
        SystemGate::Reject(_)
    ));
}

#[test]
fn the_installed_runtime_is_asked_about_only_where_it_matters() {
    assert_eq!(host_arch("aarch64"), "arm64");
    assert_eq!(host_arch("x86_64"), "x64");
    assert_eq!(preference(Some("bundled"), Preference::Auto), Preference::Bundled);
    assert_eq!(preference(Some("nonsense"), Preference::System), Preference::System);
    assert_eq!(preference(None, Preference::System), Preference::System);
    assert!(probes_system(Preference::Auto, false, false));
    assert!(!probes_system(Preference::Auto, true, true));
}

#[test]
fn system_updates_defaults_to_leaving_the_user_install_alone() {
    // A prefix this shell does not own is not rewritten unless the user asks for it: an
    // automatic `npm install -g` can change a CLI other tools on the machine share.
    let config = Config::defaults("/work".to_string());
    assert_eq!(config.system_updates, SystemUpdates::Notify);
    // What is not the user's call stays off, and what is this shell's own stays on.
    assert!(!config.take_over_existing);
    assert!(!config.auto_update_plugins);
    assert!(config.require_tested_dsh);
    assert!(config.auto_update);
    assert_eq!(config.update_tags, ["latest", "next", "alpha"]);
}

#[test]
fn runtime_preference_parses_the_env_spelling() {
    assert_eq!(Preference::parse("auto"), Some(Preference::Auto));
    assert_eq!(Preference::parse("Bundled"), Some(Preference::Bundled));
    assert_eq!(Preference::parse(" system "), Some(Preference::System));
    assert_eq!(Preference::parse("nonsense"), None);
}

#[test]
fn partial_configs_parse_and_broken_ones_are_not_overwritten() {
    let work = || "/work".to_string();
    // A missing file is seeded with the defaults once.
    let missing = Config::load(ConfigRead::Unread, false, work());
    assert!(missing.seed && !missing.restrict && missing.note.is_none());
    assert_eq!(missing.config.port, default_port());
    assert_eq!(missing.config.workspace, "/work");
    // One that is there is never written, whatever it holds.
    let broken = Config::load(ConfigRead::Broken("line 1".to_string()), true, work());
    assert!(!broken.seed);
    assert_eq!(broken.config.port, default_port());
    assert_eq!(
        broken.note.as_deref(),
        Some("config.json 无法解析，本次使用默认配置且不覆盖该文件: line 1")
    );
    assert!(!Config::load(ConfigRead::Unread, true, work()).seed);
    // What the user wrote is used, and only its owner may read the file from now on.
    let own = Config { port: 4000, ..Config::defaults("/mine".to_string()) };
    let loaded = Config::load(ConfigRead::Parsed(own), true, work());
    assert!(loaded.restrict && !loaded.seed && loaded.note.is_none());
    assert_eq!((loaded.config.port, loaded.config.workspace.as_str()), (4000, "/mine"));
}

#[test]
fn a_workspace_that_is_not_a_usable_directory_is_repaired() {
    // A drive-relative workspace falls back to home.
    let mut config = Config::defaults("D:".to_string());
    config.repair(&facts(false, false));
    assert_eq!(config.workspace, "/home/me");
    assert!(is_absolute(&config.workspace, false));

    // An unusable dsh_home is dropped, so the Harness uses the default profile.
    let mut config = Config {
        dsh_home: Some(String::new()),
        ..Config::defaults("/work".to_string())
    };
    config.repair(&facts(true, false));
    assert_eq!(config.dsh_home, None);

    // A usable pair survives untouched.
    let mut config = Config {
        dsh_home: Some("/d/profiles".to_string()),
        ..Config::defaults("/d/work".to_string())
    };
    config.repair(&facts(true, false));
    assert_eq!(config.workspace, "/d/work");
    assert_eq!(config.dsh_home.as_deref(), Some("/d/profiles"));

    // A relative path is resolved against the app cwd: never handed to the child as-is.
    assert!(is_absolute(&absolute("runtime/node", Some("/cwd"), false), false));
    assert_eq!(absolute("runtime/node", Some("/cwd"), false), "/cwd/runtime/node");
}

#[test]
fn the_home_directory_follows_the_platform() {
    let vars = HomeVars {
        home: Some("/home/me".to_string()),
        user_profile: Some(r"C:\Users\me".to_string()),
        home_drive: None,
        home_path: None,
    };
    assert_eq!(home_dir(&vars, false).as_deref(), Some("/home/me"));
    assert!(home_dir(&vars, true).is_some());
    assert_eq!(default_workspace(Some("/home/me".to_string()), "/tmp"), "/home/me");
}

fn value_of(env: &ChildEnv, key: &str) -> Option<String> {
    env.vars
        .iter()
        .find(|(name, _)| name == key)
        .map(|(_, value)| value.clone())
}

#[test]
fn the_child_path_carries_the_bundled_tools_that_hold_pnpm() {
    let platform = Platform {
        macos: false,
        windows: false,
        system_root: None,
    };
    let none = EnvMap::new();
    let node = "/data/app/runtime/node/bin/node";
    let bundled = ChildEnv::assemble(
        &none,
        node,
        Some("/data/app/runtime"),
        true,
        "/data",
        &none,
        Some("/usr/bin:/bin"),
        &platform,
    );
    let entries: Vec<&str> = bundled.path.split(':').collect();
    assert_eq!(
        entries.first(),
        Some(&"/data/app/runtime/node/bin"),
        "the node directory must lead PATH"
    );
    assert!(entries.contains(&"/data/runtime/tools/bin"), "可写 tools 前缀在 PATH 上");
    assert!(entries.contains(&"/data/app/runtime/tools/bin"), "随包 tools 前缀在 PATH 上");
    assert!(entries.contains(&"/usr/bin"));
    // Global installs land in the writable prefix, never in the signed bundle.
    assert_eq!(
        value_of(&bundled, "PNPM_HOME").as_deref(),
        Some("/data/runtime/tools/bin")
    );
    assert_eq!(
        value_of(&bundled, "npm_config_prefix").as_deref(),
        Some("/data/runtime/tools")
    );
    assert_eq!(value_of(&bundled, "PATH"), Some(bundled.path.clone()));

    // A system install is the user's own tree: no toolchain of ours is pushed into it.
    let system = ChildEnv::assemble(
        &none, node, None, false, "/data", &none, Some("/usr/bin"), &platform,
    );
    assert!(!system.path.contains("/data/runtime/tools"));
    assert_eq!(value_of(&system, "PNPM_HOME"), None);

    // What the configuration sets has the last word.
    let mut configured = EnvMap::new();
    configured.insert("PNPM_HOME".to_string(), "/mine".to_string());
    let mine = ChildEnv::assemble(
        &configured,
        node,
        Some("/data/app/runtime"),
        true,
        "/data",
        &none,
        None,
        &platform,
    );
    assert_eq!(value_of(&mine, "PNPM_HOME").as_deref(), Some("/mine"));
    assert_eq!(mine.vars.iter().filter(|(name, _)| name == "PNPM_HOME").count(), 1);
}

#[test]
fn seeding_reports_itself_so_the_first_launch_stays_offline() {
    let home = dsh_home_of(Some("/r/dsh-home"), Some("/home/me"), false).unwrap();
    assert_eq!(home, "/r/dsh-home");
    assert_eq!(dsh_home_of(None, Some("/home/me"), false).as_deref(), Some("/home/me/.dsh"));
    assert_eq!(dsh_home_of(None, None, false), None);
    let profile = profile_dir(&home, false);
    assert_eq!(profile, "/r/dsh-home/profiles/web");
    assert_eq!(template_dir("/r/runtime", false), "/r/runtime/profile-template");

    // First launch: the template is copied and the caller is told, so the plugin check can
    // stay offline this once.
    let outcome = seed_profile_template(true, true, Some(&profile), false, Ok(()));
    assert!(outcome.seeded);
    assert!(!outcome.note.is_empty());

    // Second launch: the profile exists, so this is not a first start any more — and saying
    // so is what makes "my UI has no plugin market" answerable from the log.
    let again = seed_profile_template(true, true, Some(&profile), true, Ok(()));
    assert!(!again.seeded);
    assert!(again.note.contains("profile 已存在"), "{:?}", again.note);

    // A copy that failed seeded nothing.
    let failed =
        seed_profile_template(true, true, Some(&profile), false, Err("disk full".to_string()));
    assert!(!failed.seeded);
    assert!(failed.note.contains("disk full"));
}

/// The decision matrix, without a filesystem: every skip has to be sayable.
#[test]
fn seeding_decides_on_four_plain_facts() {
    assert_eq!(seed_decision(true, true, true, false), Ok(()));
    assert_eq!(seed_decision(false, true, true, false), Err(SeedSkip::NotBundled));
    assert_eq!(seed_decision(true, false, true, false), Err(SeedSkip::NoTemplate));
    assert_eq!(seed_decision(true, true, false, false), Err(SeedSkip::NoHome));
    assert_eq!(seed_decision(true, true, true, true), Err(SeedSkip::ProfileExists));
    // A non-bundled build names itself, not whatever else is missing.
    assert_eq!(seed_decision(false, false, false, true), Err(SeedSkip::NotBundled));
    // Each reason has to name the consequence, because the missing menu cannot be guessed.
    for skip in [
        SeedSkip::NotBundled,
        SeedSkip::NoTemplate,
        SeedSkip::NoHome,
        SeedSkip::ProfileExists,
    ] {
        let reason = skip.reason();
        assert!(!reason.is_empty(), "{skip:?} must explain itself");
    }
    assert!(SeedSkip::ProfileExists.reason().contains("插件市场"));
}

#[test]
fn a_self_restart_gets_the_long_handoff_wait_and_a_crash_does_not() {
    // The plugin market's restart: the host is SIGTERMed, shuts down with code 0, and a
    // detached helper boots the replacement a few seconds later — waiting is the point.
    assert_eq!(
        exit_action(5, 0, true),
        ExitAction::Recover {
            attempt: 1,
            grace_secs: HANDOFF_GRACE_SECS
        }
    );
    // A crash or a kill has nothing behind it: the restart must not be delayed by the full
    // grace (this is the case the old code answered instantly with a failure page).
    assert_eq!(
        exit_action(5, 0, false),
        ExitAction::Recover {
            attempt: 1,
            grace_secs: HANDOFF_GRACE_QUICK_SECS
        }
    );
    assert!(HANDOFF_GRACE_QUICK_SECS < HANDOFF_GRACE_SECS);
}

#[test]
fn automatic_restarts_are_budgeted_and_reset_by_a_healthy_run() {
    let quick = |attempt| ExitAction::Recover {
        attempt,
        grace_secs: HANDOFF_GRACE_QUICK_SECS,
    };
    // A crash loop counts up to the budget, then stops instead of looping for ever.
    assert_eq!(exit_action(1, 0, false), quick(1));
    assert_eq!(exit_action(1, 1, false), quick(2));
    assert_eq!(exit_action(1, 2, false), quick(3));
    assert_eq!(exit_action(1, 3, false), ExitAction::Report);
    // One run that lasted is proof the loop is over: the count starts again from one, so a
    // Harness that works for hours and then dies is never refused a restart.
    assert_eq!(exit_action(HEALTHY_RUN_SECS, 3, false), quick(1));
    assert_eq!(
        exit_action(3600, MAX_AUTO_RESTARTS, true),
        ExitAction::Recover {
            attempt: 1,
            grace_secs: HANDOFF_GRACE_SECS
        }
    );
}

/// The page used to print Rust's Option debug form ("Some(0)", "None") at the user.
#[test]
fn the_exit_reason_reaches_the_user_as_words() {
    assert_eq!(exit_reason(None, Some(0)), "退出码 0");
    assert_eq!(exit_reason(None, Some(3)), "退出码 3");
    // Killed by a signal: no exit code at all, which is how a "kill -9" reads here.
    assert_eq!(exit_reason(Some(9), None), "被信号 9 终止");
}

#[test]
fn an_exit_is_answered_by_a_plan() {
    let (reason, clean) = watch_harness(Ok((None, Some(0))));
    assert_eq!(reason, "退出码 0");
    assert!(clean);
    assert!(!watch_harness(Ok((Some(9), None))).1);
    assert!(!watch_harness(Err("gone".to_string())).1);
    assert_eq!(watch_reused(true, false), ReusedStep::End);
    assert_eq!(watch_reused(false, true), ReusedStep::Again);
    assert!(matches!(watch_reused(false, false), ReusedStep::Gone { .. }));
    assert_eq!(recover_exited(true, 7, "x", "", 1, 0, false), ExitPlan::Nothing);
    assert!(matches!(
        recover_exited(false, 7, "x", "", 1, 0, false),
        ExitPlan::Restart { attempt: 1, .. }
    ));
    assert!(matches!(
        recover_exited(false, 7, "x", "", 1, 3, false),
        ExitPlan::Report { .. }
    ));
    assert!(recovered(7, 1, "x", "", Ok(())).is_ok());
    assert!(recovered(7, 1, "x", "", Err("no port".to_string())).unwrap_err().contains("no port"));
    assert!(restart_failed("no port").1.contains("no port"));
}

#[test]
fn restarts_do_not_overlap() {
    let mut restarts = Restarts::new();
    assert!(matches!(restarts.request_restart(true, true), Request::Ignore));
    assert!(matches!(restarts.request_restart(false, true), Request::Granted { .. }));
    assert_eq!(restarts.restart_harness(), Ok(()));
    assert!(restarts.restart_harness().is_err());
    restarts.finish();
    assert_eq!(restarts.restart_harness(), Ok(()));
}

#[test]
fn what_is_supervised_is_stopped_once() {
    let mut supervised = Supervised::new();
    supervised.adopt(7, "/data");
    supervised.disown(8);
    assert_eq!(
        supervised.shutdown(),
        Some(Live {
            pid: 7,
            data_dir: "/data".to_string()
        })
    );
    assert!(supervised.exiting);
    assert_eq!(supervised.shutdown(), None);
    assert!(ours_on_port(Some(7), Some(7), true));
    assert!(!ours_on_port(Some(7), Some(8), true));
    assert!(!ours_on_port(Some(7), Some(7), false));
    assert!(!ours_on_port(None, None, true));
}

/// A restart asks about the instance on the port at most once: an answer given during the attempt
/// ("no", or "keep it and use another port") is final for that restart.
#[test]
fn a_failed_restart_does_not_ask_the_same_question_twice() {
    let failed = StartError::from("boot timed out".to_string());
    assert!(may_ask_after_failure(&failed, 3080, 3080));

    let declined = StartError {
        reason: "kept".to_string(),
        declined: true,
    };
    assert!(!may_ask_after_failure(&declined, 3080, 3080));

    // The user kept the instance on 3080 and this attempt moved to 3081.
    assert!(!may_ask_after_failure(&failed, 3080, 3081));
}

/// A restart whose first attempt fails, on a port that another Harness holds.
#[test]
fn a_restart_takes_the_port_over_once_it_was_allowed_to() {
    let (stage, action) = take_over_handoff_and_start(
        3080,
        RestartStage::Waiting,
        RestartEvent::Waited { listener: None },
    );
    assert!(matches!(action, RestartAction::Start { .. }));
    let failed = || Err(StartError::from("端口被占用".to_string()));
    let (stage, action) = take_over_handoff_and_start(
        3080,
        stage,
        RestartEvent::Started {
            outcome: failed(),
            port_now: 3080,
        },
    );
    assert_eq!(action, RestartAction::FindListener);
    let (stage, action) = take_over_handoff_and_start(
        3080,
        stage,
        RestartEvent::Listener {
            pid: Some(4242),
            identified: true,
        },
    );
    assert_eq!(action, RestartAction::Confirm { pid: 4242 });
    let (stage, action) = take_over_handoff_and_start(
        3080,
        stage,
        RestartEvent::Answered {
            retry: Retry::TakeOver,
        },
    );
    assert!(matches!(action, RestartAction::TakeOver { pid: 4242, .. }));
    let (stage, action) = take_over_handoff_and_start(
        3080,
        stage,
        RestartEvent::Started {
            outcome: failed(),
            port_now: 3080,
        },
    );
    assert!(matches!(action, RestartAction::Finish { result: Err(_), .. }));
    assert_eq!(stage, RestartStage::Over);
}

/// The root of a drive or of a share is no working directory, and a path without a drive stays on
/// the drive of the directory that it is seen from.
#[test]
fn paths_follow_the_rules_of_windows() {
    assert!(!usable_directory("C:/", true));
    assert!(!usable_directory(r"C:\", true));
    assert!(!usable_directory(r"\\server\share\", true));
    assert!(!usable_directory(r"\\?\UNC\server\share", true));
    assert!(usable_directory("C:/work", true));
    assert!(usable_directory(r"C:\work", true));
    assert!(usable_directory(r"\\server\share\work", true));
    assert!(!usable_directory("/", false));
    assert!(usable_directory("/work", false));

    assert!(is_absolute(r"\\?\C:\a", true));
    assert!(is_absolute(r"\\.\pipe\a", true));
    assert!(is_absolute(r"\\server\share", true));
    assert!(!is_absolute(r"\\server", true));
    assert!(!is_absolute(r"\a", true));
    assert!(!is_absolute("C:a", true));

    assert_eq!(absolute("/foo", Some(r"C:\x"), true), "C:/foo");
    assert_eq!(absolute(r"\foo", Some(r"C:\x"), true), r"C:\foo");
    assert_eq!(absolute("D:tools", Some(r"C:\x"), true), "D:tools");
    assert_eq!(absolute(r"tools\a", Some(r"C:\x"), true), r"C:\x\tools\a");
    assert_eq!(absolute(r"C:\x", Some(r"D:\y"), true), r"C:\x");
    assert_eq!(absolute("/foo", Some("/x"), false), "/foo");

    assert_eq!(parent(r"C:\node\node.exe", true).as_deref(), Some(r"C:\node"));
    assert_eq!(parent(r"C:\node", true).as_deref(), Some(r"C:\"));
    assert_eq!(parent(r"C:\a\.\b\", true).as_deref(), Some(r"C:\a"));
    assert_eq!(parent("C:/a/b", true).as_deref(), Some("C:/a"));
    assert_eq!(parent("C:node", true).as_deref(), Some("C:"));
    assert_eq!(parent(r"C:\", true), None);
    assert_eq!(parent("C:", true), None);
    assert_eq!(parent(r"\\server\share\a", true).as_deref(), Some(r"\\server\share\"));
    assert_eq!(parent(r"\\?\C:\a\b", true).as_deref(), Some(r"\\?\C:\a"));
    assert_eq!(parent(r"\\?\C:\a\.", true).as_deref(), Some(r"\\?\C:\a"));
    assert_eq!(parent(r"a\b", false).as_deref(), Some(""));
    assert_eq!(file_name(r"C:\node\node.exe", true).as_deref(), Some("node.exe"));
    assert_eq!(file_name(r"C:\", true), None);
    assert_eq!(file_name(r"\\?\C:\a/b", true).as_deref(), Some("a/b"));
    assert_eq!(file_name(r"a\b", false).as_deref(), Some(r"a\b"));

    assert_eq!(path_join(r"C:\a", "b", true), r"C:\a\b");
    assert_eq!(path_join(r"C:\a\", "b/c", true), r"C:\a\b/c");
    assert_eq!(path_join("C:/a/", "b", true), "C:/a/b");
    assert_eq!(path_join("C:", "b", true), "C:b");
    assert_eq!(path_join("C:", r"\Users\me", true), r"C:\Users\me");
    assert_eq!(path_join("", "b", true), "b");
    assert_eq!(path_join(r"\\server\share", "b", true), r"\\server\share\b");
    assert_eq!(path_join(r"C:\a", r"D:\b", true), r"D:\b");
    assert_eq!(path_join(r"\\?\C:\a", "b/./c", true), r"\\?\C:\a\b\c");
    assert_eq!(path_join(r"\\?\C:\a\b", r"..\c", true), r"\\?\C:\a\c");
    assert_eq!(path_join(r"\\?\C:\a", r"\b", true), r"\\?\C:\b");
    assert_eq!(path_join(r"\\?\C:\a", "..", true), r"\\?\C:\");
    assert_eq!(path_join("/a", "b", false), "/a/b");
    assert_eq!(
        with_extension(r"C:\logs.d\harness", "log", true),
        r"C:\logs.d\harness.log"
    );

    assert!(are_same_path(r"C:\a\b\", "c:/a//./b", true));
    assert!(are_same_path(r"\\server\share\a", "//server/share/a/", true));
    assert!(!are_same_path("C:/a", "D:/a", true));
    assert!(!are_same_path("C:a", "C:/a", true));
    assert!(!are_same_path(r"\\?\C:\a", r"C:\a", true));
    assert!(!are_same_path("./a", "a", false));
    assert!(are_same_path("a/.", "a", false));
}

/// What a child on Windows gets to see is written as Windows writes paths.
#[test]
fn the_environment_of_a_windows_child_has_its_separators() {
    let env = ChildEnv::assemble(
        &EnvMap::new(),
        r"C:\app\runtime\node\node.exe",
        Some(r"C:\app\runtime"),
        true,
        r"C:\data",
        &EnvMap::new(),
        Some(r"C:\Windows"),
        &Platform {
            macos: false,
            windows: true,
            system_root: Some(r"C:\Windows".to_string()),
        },
    );
    let value = |name: &str| {
        env.vars.iter().find(|(key, _)| key == name).map(|(_, value)| value.as_str())
    };
    assert_eq!(value("npm_config_prefix"), Some(r"C:\data\runtime\tools"));
    assert_eq!(value("PNPM_HOME"), Some(r"C:\data\runtime\tools\bin"));
    assert_eq!(
        env.path,
        [
            r"C:\app\runtime\node",
            r"C:\data\runtime\tools\bin",
            r"C:\data\runtime\tools",
            r"C:\app\runtime\tools\bin",
            r"C:\app\runtime\tools",
            r"C:\Windows\System32",
            r"C:\Windows",
        ]
        .join(";")
    );
}

/// A launch has a home of dsh even where the user's is not known.
#[test]
fn a_launch_always_has_a_home() {
    assert_eq!(launch_home(Some("/r/dsh"), Some("/home/me"), false), "/r/dsh");
    assert_eq!(launch_home(None, Some("/home/me"), false), "/home/me/.dsh");
    assert_eq!(launch_home(None, Some(r"C:\Users\me"), true), r"C:\Users\me\.dsh");
    assert_eq!(launch_home(None, None, false), ".dsh");
}

//! Which installation runs, and the environment of its child.

use dsh_desktop::runtime::{
    decide, Inputs, Origin, Preference, SystemUpdates, Updates,
};
use dsh_desktop::search_path::{join_dirs, lead_path, merge_path, split_dirs};
use dsh_desktop::shellenv::{import, import_step, is_reserved, parse_env, ImportStep};

fn base_inputs(preference: Preference) -> Inputs<'static> {
    Inputs {
        preference,
        env_node: None,
        env_dsh: None,
        system_node: None,
        system_dsh: None,
        seed_node: Some("/app/Contents/Resources/runtime/node/bin/node"),
        seed_dsh: Some(
            "/app/Contents/Resources/runtime/dsh-prefix/lib/node_modules/@deepseek-ai/dsh/lib/bin.js",
        ),
        shadow_dsh: None,
        seed_version: Some("0.1.5-rc.2"),
        shadow_version: None,
    }
}

#[test]
fn nothing_installed_uses_both_bundled_halves() {
    let decision = decide(&base_inputs(Preference::Auto)).expect("a candidate exists");
    assert_eq!(decision.node.origin, Origin::Seed);
    assert_eq!(decision.dsh.origin, Origin::Seed);
    assert_eq!(decision.updates, Updates::Shadow);
}

#[test]
fn a_complete_install_is_preferred_and_never_updated() {
    let input = Inputs {
        system_node: Some("/opt/homebrew/bin/node".to_string()),
        system_dsh: Some("/opt/homebrew/lib/node_modules/@deepseek-ai/dsh/lib/bin.js".to_string()),
        ..base_inputs(Preference::Auto)
    };
    let decision = decide(&input).expect("a candidate exists");
    assert_eq!(decision.node.origin, Origin::System);
    assert_eq!(decision.dsh.origin, Origin::System);
    // The shell must not rewrite a prefix the user manages.
    assert_eq!(decision.updates, Updates::Notify);
}

#[test]
fn half_an_install_is_combined_with_the_bundled_half() {
    let node_only = Inputs {
        system_node: Some("/usr/bin/node".to_string()),
        ..base_inputs(Preference::Auto)
    };
    let decision = decide(&node_only).expect("a candidate exists");
    assert_eq!(decision.node.origin, Origin::System);
    assert_eq!(decision.dsh.origin, Origin::Seed);

    let dsh_only = Inputs {
        system_dsh: Some("/usr/lib/node_modules/@deepseek-ai/dsh/lib/bin.js".to_string()),
        ..base_inputs(Preference::Auto)
    };
    let decision = decide(&dsh_only).expect("a candidate exists");
    assert_eq!(decision.node.origin, Origin::Seed);
    assert_eq!(decision.dsh.origin, Origin::System);
}

#[test]
fn forcing_bundled_ignores_the_system_install() {
    let input = Inputs {
        system_node: Some("/opt/homebrew/bin/node".to_string()),
        system_dsh: Some("/opt/homebrew/lib/node_modules/@deepseek-ai/dsh/lib/bin.js".to_string()),
        ..base_inputs(Preference::Bundled)
    };
    let decision = decide(&input).expect("a candidate exists");
    assert_eq!(decision.node.origin, Origin::Seed);
    assert_eq!(decision.dsh.origin, Origin::Seed);
    assert_eq!(decision.updates, Updates::Shadow);
}

#[test]
fn environment_overrides_win_over_everything() {
    let input = Inputs {
        env_node: Some("/custom/node".to_string()),
        env_dsh: Some("/custom/dsh/lib/bin.js".to_string()),
        system_node: Some("/opt/homebrew/bin/node".to_string()),
        system_dsh: Some("/opt/homebrew/lib/node_modules/@deepseek-ai/dsh/lib/bin.js".to_string()),
        ..base_inputs(Preference::Auto)
    };
    let decision = decide(&input).expect("a candidate exists");
    assert_eq!(decision.node.path, "/custom/node");
    assert_eq!(decision.dsh.path, "/custom/dsh/lib/bin.js");
    assert_eq!(decision.node.origin, Origin::Env);
    assert_eq!(decision.dsh.origin, Origin::Env);
    // An override points at a tree this shell does not own: updates only notify, and the
    // "bundled" side effects (PATH, npm_config_prefix, PNPM_HOME) stay off.
    assert_eq!(decision.updates, Updates::Notify);
}

#[test]
fn no_candidate_at_all_is_reported_as_none() {
    // A build without a bundled runtime on a machine with no installation: the caller turns
    // this into the "install node + dsh" page instead of running something that is not there.
    let input = Inputs {
        seed_node: None,
        seed_dsh: None,
        ..base_inputs(Preference::Auto)
    };
    assert!(decide(&input).is_none());
}

#[test]
fn forcing_bundled_without_a_seed_falls_back_to_the_install() {
    let input = Inputs {
        seed_node: None,
        seed_dsh: None,
        system_node: Some("/opt/homebrew/bin/node".to_string()),
        system_dsh: Some("/opt/homebrew/lib/node_modules/@deepseek-ai/dsh/lib/bin.js".to_string()),
        ..base_inputs(Preference::Bundled)
    };
    let decision = decide(&input).expect("the installed runtime is the only candidate");
    assert_eq!(decision.node.origin, Origin::System);
    assert_eq!(decision.dsh.origin, Origin::System);
}

#[test]
fn the_higher_bundled_version_wins() {
    let input = Inputs {
        shadow_dsh: Some("/data/runtime/prefix/lib/node_modules/@deepseek-ai/dsh/lib/bin.js"),
        shadow_version: Some("0.1.6"),
        ..base_inputs(Preference::Auto)
    };
    assert_eq!(decide(&input).expect("a candidate exists").dsh.origin, Origin::Shadow);

    // A newer seed must not be shadowed by an older copy under app-data.
    let stale_shadow = Inputs {
        shadow_dsh: Some("/data/runtime/prefix/lib/node_modules/@deepseek-ai/dsh/lib/bin.js"),
        shadow_version: Some("0.1.4"),
        ..base_inputs(Preference::Auto)
    };
    assert_eq!(decide(&stale_shadow).expect("a candidate exists").dsh.origin, Origin::Seed);
}

#[test]
fn a_decision_names_where_its_halves_came_from() {
    let decision = decide(&base_inputs(Preference::Auto)).unwrap();
    let line = decision.describe();
    assert!(line.contains("/app/Contents/Resources/runtime/node/bin/node"));
    assert!(line.contains(Origin::label_of(Origin::Seed)));
    assert_ne!(Origin::System.label(), Origin::Shadow.label());
    assert_eq!(SystemUpdates::Install.label(), "install");
    assert_eq!(SystemUpdates::Notify.label(), "notify");
}

#[test]
fn parses_plain_pairs_and_ignores_noise() {
    let output = "PATH=/usr/bin:/bin\nbanner without equals\nDEEPSEEK_API_KEY=sk-abc=def\n\n1BAD=x\n=empty\n";
    let map = parse_env(output);
    assert_eq!(map.get("PATH").map(String::as_str), Some("/usr/bin:/bin"));
    assert_eq!(map.get("DEEPSEEK_API_KEY").map(String::as_str), Some("sk-abc=def"));
    assert!(!map.contains_key("1BAD"));
    assert_eq!(map.len(), 2);
}

#[test]
fn drops_reserved_and_app_owned_variables() {
    let output = "HOME=/Users/x\nTMPDIR=/tmp\nDSH_HOME=/Users/x/.dsh\n_=/usr/bin/env\nGOOD=1\n";
    let map = parse_env(output);
    assert_eq!(map.len(), 1);
    assert!(map.contains_key("GOOD"));
}

#[test]
fn last_duplicate_wins() {
    let map = parse_env("KEY=first\nKEY=second\n");
    assert_eq!(map.get("KEY").map(String::as_str), Some("second"));
}

#[test]
fn merges_path_with_absolute_deduplication() {
    // Entries and separator follow the platform: a Unix spelling is not absolute on
    // Windows, which is how a Windows child ended up with a POSIX-only PATH.
    for windows in [false, true] {
        let (opt, usr, local, bin, sep) = if windows {
            (
                r"C:\homebrew\bin",
                r"C:\usr\bin",
                r"C:\usr\local\bin",
                r"C:\bin",
                ";",
            )
        } else {
            (
                "/opt/homebrew/bin",
                "/usr/bin",
                "/usr/local/bin",
                "/bin",
                ":",
            )
        };
        let merged = merge_path(
            &[opt.to_string(), usr.to_string()],
            Some(&format!("{local}{sep}relative{sep}{usr}{sep}")),
            Some(bin),
            windows,
        );
        assert_eq!(merged, format!("{opt}{sep}{usr}{sep}{local}{sep}{bin}"));
        // A relative entry never survives: in a child it would mean the child's own cwd.
        assert!(!merged.contains("relative"));
    }
}

#[test]
fn a_search_path_is_split_and_joined() {
    assert_eq!(split_dirs("/a:/b", false), ["/a", "/b"]);
    assert_eq!(split_dirs(r#"C:\a;"C:\b;c""#, true), [r"C:\a", r"C:\b;c"]);
    assert_eq!(
        join_dirs(&["/a".to_string(), "/b".to_string()], false).as_deref(),
        Some("/a:/b")
    );
    // A separator inside of a directory cannot be written.
    assert_eq!(join_dirs(&["/a:b".to_string()], false), None);
    assert_eq!(lead_path("/n", Some("/a:/n:/b"), false), "/n:/a:/b");
}

#[test]
fn an_import_needs_a_variable() {
    let (flag, map) = import("-lic", Some("GOOD=1\n")).unwrap();
    assert_eq!(flag, "-lic");
    assert_eq!(map.len(), 1);
    assert_eq!(map.at(0), (&"GOOD".to_string(), &"1".to_string()));
    assert!(import("-lic", Some("nothing\n")).is_none());
    assert!(import("-lic", None).is_none());
    assert!(is_reserved("HOME"));
    assert!(!is_reserved("GOOD"));
}

/// One directory in two spellings stands in a PATH once.
#[test]
fn a_search_path_compares_directories() {
    let usr = ["/usr/bin".to_string()];
    assert_eq!(merge_path(&usr, Some("/usr/bin/"), None, false), "/usr/bin");
    assert_eq!(merge_path(&usr, Some("/usr//./bin:/usr/sbin"), None, false), "/usr/bin:/usr/sbin");
    // Case and `..` do count.
    assert_eq!(merge_path(&usr, Some("/usr/Bin"), None, false), "/usr/bin:/usr/Bin");
    assert_eq!(merge_path(&usr, Some("/usr/x/../bin"), None, false), "/usr/bin:/usr/x/../bin");
    let tools = [r"C:\tools".to_string()];
    assert_eq!(merge_path(&tools, Some(r"c:/tools/;D:\tools"), None, true), r"C:\tools;D:\tools");
    assert_eq!(lead_path("/n", Some("/a:/n/:/a/"), false), "/n:/a");
}

/// The first flag whose answer sets a variable is taken.
#[test]
fn an_import_tries_its_flags_in_order() {
    let run = |flag: &str| ImportStep::Run { flag: flag.to_string() };
    assert_eq!(import_step(0, None), run("-lic"));
    assert_eq!(import_step(1, None), run("-lc"));
    assert_eq!(import_step(1, Some("nothing")), run("-lc"));
    match import_step(1, Some("GOOD=1\n")) {
        ImportStep::Finish { result: Some((flag, map)) } => {
            assert_eq!(flag, "-lic");
            assert_eq!(map.at(0), (&"GOOD".to_string(), &"1".to_string()));
        }
        other => panic!("{other:?}"),
    }
    match import_step(2, Some("GOOD=2\n")) {
        ImportStep::Finish { result: Some((flag, _)) } => assert_eq!(flag, "-lc"),
        other => panic!("{other:?}"),
    }
    assert!(matches!(import_step(2, None), ImportStep::Finish { result: None }));
}

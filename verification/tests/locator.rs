//! Finding the installed CLI and its node.

use dsh_desktop::locator::{
    beside_launcher, describe_version, is_js_launcher, judge, judge_owner, launcher_candidates,
    launcher_places, locate, manifest_candidates, new_search, owning_manifest,
    parse_version_line, path_lookup, probe_failure, probe_node, search, skipped_line,
    system_dsh, system_node, unidentified_line, version, version_of, Candidate, ManifestRead,
    Offer, PackageManifest,
};
use dsh_desktop::process::WaitStep;

/// What a node prints for the probe of its architecture and its capability.
#[test]
fn probes_a_real_node_for_arch_and_capability() {
    let facts = probe_node(true, "arm64 function").expect("a working node must answer the probe");
    assert!(!facts.arch.is_empty());
    assert_eq!(facts.arch, "arm64");
    assert!(facts.strip_types);
    assert!(!probe_node(true, "x64 undefined").unwrap().strip_types);
    assert!(probe_node(false, "arm64 function").is_none());
    assert!(probe_node(true, "").is_none());
}

/// A node that never answers must not hold up startup.
#[test]
fn gives_up_on_a_node_that_never_answers() {
    let line = probe_failure(WaitStep::TimedOut, "", 5, "/x/node").unwrap();
    assert!(line.contains("/x/node"), "{line}");
    assert!(line.contains('5'), "{line}");
    let line = probe_failure(WaitStep::Failed, "broken pipe", 5, "/x/node").unwrap();
    assert!(line.contains("broken pipe"), "{line}");
    assert_eq!(probe_failure(WaitStep::Finished, "", 5, "/x/node"), None);
}

type Owner = Result<Option<PackageManifest>, String>;

/// The manifest that owns a script, where the directory above its `lib` holds the given text.
fn owner(dsh_js: &str, root: &str, manifest: &str) -> Owner {
    let places = manifest_candidates(dsh_js, false);
    let there = format!("{root}/package.json");
    assert!(places.contains(&there), "{places:?}");
    let reads: Vec<ManifestRead> = places
        .iter()
        .map(|place| {
            if *place == there {
                ManifestRead::Text(manifest.to_string())
            } else {
                ManifestRead::Missing
            }
        })
        .collect();
    owning_manifest(&places, &reads)
}

#[test]
fn reads_version_from_the_owning_package() {
    let entry = "/t/lib/bin/bin.js";
    let owned = owner(entry, "/t", r#"{"name":"@deepseek-ai/dsh","version":"1.2.3"}"#);
    assert_eq!(version_of(&owned).as_deref(), Some("1.2.3"));
    assert_eq!(describe_version(entry, &owned), "1.2.3");
    assert_eq!(version(&owned, Some("9.9.9")).as_deref(), Some("1.2.3"));
    // Nothing to read above the script: the caller must fall back to running the CLI.
    let orphan: Owner = Ok(None);
    assert_eq!(version_of(&orphan), None);
    assert_eq!(version(&orphan, Some("0.1.5\n")).as_deref(), Some("0.1.5"));
    // A manifest that cannot be read is named.
    let places = manifest_candidates(entry, false);
    let broken = vec![ManifestRead::Unreadable("denied".to_string()); places.len()];
    assert!(owning_manifest(&places, &broken).unwrap_err().contains("denied"));
    assert!(owner(entry, "/t", "no manifest").is_err());
}

/// Something called `dsh` on PATH that is not this CLI must not have its version printed as the
/// dsh version, and must not be supervised either.
#[test]
fn a_foreign_dsh_is_never_mistaken_for_this_cli() {
    // Homebrew ships a distributed shell under this very name.
    let launcher = "/t/lib/bin/bin.js";
    let owned = owner(launcher, "/t", r#"{"name":"dsh","version":"0.25.10"}"#);
    assert_eq!(version_of(&owned), None);
    let described = describe_version(launcher, &owned);
    assert!(described.contains("未知"), "{described}");
    assert!(!described.contains("0.25.10"), "别人的版本号不能出现在这里：{described}");

    // Even when it answers `--version`, the manifest named a different package: a foreign
    // binary that prints a version is not evidence that it owns this shell's CLI.
    match judge(launcher, &owned, true, Some("0.25.10".to_string())) {
        Candidate::Foreign(reason) => {
            assert!(reason.contains("属于 dsh，不是 @deepseek-ai/dsh"), "{reason}")
        }
        other => panic!("a foreign dsh must not be adopted: {other:?}"),
    }

    // A compiled launcher from another project, sitting in a tree with no manifest at all:
    // it cannot be identified, and it is not a node script that could answer `--version`.
    let head = [0x7fu8, b'E', b'L', b'F', 2, 1, 1, 0];
    let is_js = is_js_launcher("/bare/dsh", Some(&head), false);
    assert!(!is_js);
    match judge("/bare/dsh", &Ok(None), is_js, None) {
        Candidate::Foreign(reason) => {
            assert!(reason.contains("不是 node 启动脚本"), "{reason}")
        }
        other => panic!("a native binary must not be adopted: {other:?}"),
    }
    assert!(judge_owner("/bare/dsh", &Ok(None), false).is_some());
}

/// A layout this walk cannot read (a shim outside its package) is still the user's install:
/// it is used, but only because it answered `--version` with a version.
#[test]
fn an_unidentified_launcher_is_used_only_when_it_answers_with_a_version() {
    let is_js = is_js_launcher("/s/dsh", Some(b"#!/usr/bin/env node\n"), false);
    assert!(is_js);
    assert_eq!(judge_owner("/s/dsh", &Ok(None), is_js), None);
    assert_eq!(
        judge("/s/dsh", &Ok(None), is_js, Some("0.1.5-rc.2".to_string())),
        Candidate::Unidentified("0.1.5-rc.2".to_string())
    );
    // Anything that is not a version is not an answer.
    assert!(matches!(
        judge("/s/dsh", &Ok(None), is_js, Some("Dancer shell, version 0.25.10".to_string())),
        Candidate::Foreign(_)
    ));
    assert!(matches!(judge("/s/dsh", &Ok(None), is_js, None), Candidate::Foreign(_)));
}

#[test]
fn only_a_version_line_counts_as_an_answer() {
    assert_eq!(parse_version_line("0.1.5-rc.2\n"), Some("0.1.5-rc.2".to_string()));
    assert_eq!(parse_version_line("  1.2.3  \n"), Some("1.2.3".to_string()));
    // Chatter, a usage line, or another tool's banner must not become "the version".
    assert_eq!(parse_version_line("Dancer shell, version 0.25.10"), None);
    assert_eq!(parse_version_line("Usage: dsh [options]"), None);
    assert_eq!(parse_version_line(""), None);
    assert_eq!(parse_version_line("   \n"), None);
}

/// Runs the search over candidates, each with its judgement.
fn find(judged: &[(&str, Candidate)]) -> Result<String, String> {
    let mut search = new_search();
    for (candidate, judgement) in judged {
        if let Some(found) = search.take(candidate, judgement.clone()) {
            return Ok(found);
        }
    }
    search.finish()
}

/// Whatever the search returns is a tree that names this package, or one that answered with a
/// version where none names it.
#[test]
fn whatever_the_search_returns_is_really_this_cli() {
    assert_eq!(
        find(&[
            ("/a/dsh", Candidate::Foreign("别的".to_string())),
            ("/b/dsh", Candidate::Unidentified("0.1.5".to_string())),
            ("/c/dsh", Candidate::Ours),
        ]),
        Ok("/c/dsh".to_string())
    );
    assert_eq!(
        find(&[
            ("/b/dsh", Candidate::Unidentified("0.1.5".to_string())),
            ("/d/dsh", Candidate::Unidentified("0.1.6".to_string())),
        ]),
        Ok("/b/dsh".to_string())
    );
    let reason = find(&[("/a/dsh", Candidate::Foreign("/a/dsh 属于 dsh".to_string()))]).unwrap_err();
    assert!(reason.contains("/a/dsh 属于 dsh"), "{reason}");
    assert!(find(&[]).unwrap_err().contains("找不到 dsh"));
    assert!(skipped_line("x").contains('x'));
    assert!(unidentified_line("/b/dsh", "0.1.5").contains("/b/dsh"));
}

fn offers(places: &[String]) -> Vec<Offer> {
    places
        .iter()
        .map(|path| Offer {
            path: path.clone(),
            resolved: path.clone(),
            is_file: true,
        })
        .collect()
}

#[test]
fn the_environment_override_wins_over_the_remembered_path() {
    // DSH_DESKTOP_DSH comes first in the documented order.
    let places = launcher_places(
        Some("/t/bin/dsh-env"),
        Some("/t/bin/dsh"),
        Some("/usr/bin/dsh"),
        None,
        false,
    );
    let first = launcher_candidates(&offers(&places), false).remove(0);
    assert_eq!(first, "/t/bin/dsh-env");

    // Without it, the remembered path is used ahead of PATH and the common prefixes.
    let places = launcher_places(None, Some("/t/bin/dsh"), Some("/usr/bin/dsh"), None, false);
    let first = launcher_candidates(&offers(&places), false).remove(0);
    assert_eq!(first, "/t/bin/dsh");
}

#[test]
fn resolves_real_js_behind_symlink() {
    // Two names of one file are one candidate.
    let link = Offer {
        path: "/t/bin/dsh".to_string(),
        resolved: "/t/lib/bin/bin.js".to_string(),
        is_file: true,
    };
    let again = Offer {
        path: "/u/bin/dsh".to_string(),
        ..link.clone()
    };
    let missing = Offer {
        path: "/v/dsh".to_string(),
        resolved: "/v/dsh".to_string(),
        is_file: false,
    };
    assert_eq!(launcher_candidates(&[missing, link, again], false), ["/t/bin/dsh"]);
    let location = locate(
        Ok("/t/bin/dsh".to_string()),
        "/t/lib/bin/bin.js".to_string(),
        None,
        Some("/usr/bin/node".to_string()),
    )
    .unwrap();
    assert_eq!(location.dsh_js, "/t/lib/bin/bin.js");
    assert_eq!(location.node, "/usr/bin/node");
    // Without a launcher or a node there is nothing to run.
    assert_eq!(
        locate(Err("none".to_string()), String::new(), None, None),
        Err("none".to_string())
    );
    assert!(locate(Ok("/t/bin/dsh".to_string()), String::new(), None, None)
        .unwrap_err()
        .contains("找不到 node"));
}

/// The login shell's PATH is searched even when the app's own PATH has nothing: that is how a
/// Finder-launched app finds an nvm/fnm node, which only `.zshrc` puts on PATH.
#[test]
fn the_imported_login_path_is_searched() {
    let (places, ask) = search("dsh-only-here", None, Some("relative/bin:/d/bin"), false);
    assert_eq!(places, ["/d/bin/dsh-only-here"]);
    assert!(!ask, "with an imported PATH in hand no login shell is started");
    assert!(
        path_lookup("dsh-only-here", "relative/bin", false).is_empty(),
        "a relative PATH entry is not searched"
    );
    let (places, ask) = search("dsh-no-such-tool", Some("/nonexistent"), None, false);
    assert_eq!(places, ["/nonexistent/dsh-no-such-tool"]);
    assert!(ask);
}

#[test]
fn the_halves_of_an_installation() {
    assert_eq!(
        system_dsh(&Ok("/t/bin/dsh".to_string()), "/t/lib/bin.js".to_string()).as_deref(),
        Some("/t/lib/bin.js")
    );
    assert_eq!(system_dsh(&Err("none".to_string()), String::new()), None);
    assert_eq!(
        system_node(None, Some("/n/node".to_string())).as_deref(),
        Some("/n/node")
    );
    assert_eq!(
        system_node(Some("/p/node".to_string()), Some("/n/node".to_string())).as_deref(),
        Some("/p/node")
    );
    assert!(beside_launcher("/t/bin/dsh", false).contains(&"/t/bin/node".to_string()));
}

/// A Windows path is taken apart at either separator.
#[test]
fn a_launcher_on_windows_has_neighbours() {
    assert_eq!(
        beside_launcher(r"C:\npm\dsh.cmd", true),
        [r"C:\npm\node", r"C:\npm\node.exe"]
    );
    assert!(is_js_launcher(r"C:\cli\bin.js", None, true));
    assert!(!is_js_launcher(r"C:\cli.js\dsh", None, true));
    assert_eq!(
        manifest_candidates(r"C:\cli\lib\bin.js", true),
        [r"C:\cli\lib\package.json", r"C:\cli\package.json", r"C:\package.json"]
    );
}

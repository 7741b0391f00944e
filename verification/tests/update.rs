//! Versions, the registry's answers, and what the shell remembers of them.

use dsh_desktop::bytes::Captured;
use dsh_desktop::update::{
    cache_path, carried_attempt, carried_failure, check, check_cached, check_plugin_cached,
    compatibility, declares_plugin, default_tags, failure_window_secs, fetch_dist_tags,
    find_pnpm, global_prefix, install, install_outcome, install_plugin, install_prefix,
    installed_plugin, is_executable, judge, mark_attempt_ineffective, mark_core_attempt_failed,
    mark_plugin_attempt_failed, may_install, must_query, newest_tagged, npm_candidates, npm_for,
    npm_path, plugin_cache_path, pnpm_candidates, tags_of, timeout_message, view_args, Cache,
    CheckAction, CheckEvent, Checked, Compatibility, FailureMarker, Output, PackageCheck, Status,
    Subject, FAILED_MEMORY_SECS, FAILED_RETRY_MINUTES,
    MARKET_PLUGIN, PACKAGE, TESTED_MAX_EXCLUSIVE, TESTED_MIN,
};
use dsh_desktop::version::{Rank, Version};

/// The moment at which these tests take place.
const NOW: u64 = 1_760_000_000;

fn drain(bytes: &[u8], limit: usize) -> Captured {
    let mut captured = Captured::empty();
    for chunk in bytes.chunks(512) {
        captured.keep(chunk, limit);
    }
    captured
}

/// A package manager that prints for its whole budget must not turn that budget into memory:
/// the drain keeps a bounded slice while still reading the pipe to the end.
#[test]
fn a_chatty_pipe_is_capped_but_still_drained() {
    let captured = drain(&vec![b'x'; 64 * 1024], 4 * 1024);

    assert_eq!(captured.bytes.len(), 4 * 1024, "only the cap is kept");
    assert!(captured.truncated, "an over-cap pipe must say so");
    assert!(captured.summary(5).contains("已截断"));
}

/// The reader ends when the pipe closes, so a stream below the cap is kept whole.
#[test]
fn a_short_pipe_is_kept_whole() {
    let captured = drain(b"one\ntwo\nthree\n", 1024);

    assert_eq!(captured.summary(2), "one | two");
    assert!(!captured.truncated);
}

/// A pipe with nothing on it is not a truncation: the message must not claim output was lost.
#[test]
fn an_empty_pipe_reports_nothing_lost() {
    let captured = drain(b"", 1024);

    assert!(captured.bytes.is_empty() && !captured.truncated);
    assert_eq!(captured.summary(5), "");
}

fn parse(raw: &str) -> Version {
    Version::parse(raw).expect("version should parse")
}

#[test]
fn orders_numeric_segments_numerically() {
    assert!(parse("1.2.10") > parse("1.2.9"));
    assert!(parse("0.1.5") > parse("0.1.4"));
}

#[test]
fn release_outranks_prerelease() {
    assert!(parse("1.0.0") > parse("1.0.0-rc.1"));
}

#[test]
fn orders_prerelease_identifiers() {
    assert!(parse("0.1.5-rc.2") > parse("0.1.5-rc.1"));
    assert!(parse("0.1.5-rc.1") > parse("0.1.5-alpha.2"));
    assert!(parse("1.0.0-alpha.1") < parse("1.0.0-alpha.beta"));
    assert_eq!(parse("1.0.0-alpha").rank(&parse("1.0.0-alpha.1")), Rank::Below);
    assert_eq!(parse("1.0.0-alpha").rank(&parse("1.0.0-alpha")), Rank::Level);
}

#[test]
fn picks_newest_among_dist_tags() {
    let tags = vec![
        ("alpha".to_string(), "0.1.5-alpha.2".to_string()),
        ("latest".to_string(), "0.1.5-rc.1".to_string()),
        ("next".to_string(), "0.1.5-rc.2".to_string()),
    ];
    let filtered: Vec<(String, String)> = tags
        .into_iter()
        .filter(|(name, _)| name == "latest" || name == "next")
        .collect();
    assert_eq!(newest_tagged(&filtered).unwrap().to_text(), "0.1.5-rc.2");
}

/// The reason `alpha` is consulted at all: it can be ahead of `latest`, and `0.1.6-alpha.2`
/// outranks `0.1.5-rc.2` even though its prerelease identifier sorts below `rc`.
#[test]
fn the_alpha_tag_can_be_the_newest_version_on_the_registry() {
    let tags = vec![
        ("latest".to_string(), "0.1.5-rc.2".to_string()),
        ("alpha".to_string(), "0.1.6-alpha.2".to_string()),
    ];
    // A patch release ahead of the release tag wins on the numeric segments alone.
    assert_eq!(newest_tagged(&tags).unwrap().to_text(), "0.1.6-alpha.2");
    // And it is an upgrade the shell would act on, not a downgrade.
    assert_eq!(
        judge("0.1.6-alpha.2", "0.1.5-rc.2"),
        Status::UpdateAvailable {
            from: "0.1.5-rc.2".into(),
            to: "0.1.6-alpha.2".into()
        }
    );
    // The alpha tag is not always ahead: when it is the older line, the release tag still wins.
    let behind = vec![
        ("latest".to_string(), "0.1.5-rc.2".to_string()),
        ("alpha".to_string(), "0.1.5-alpha.2".to_string()),
    ];
    assert_eq!(newest_tagged(&behind).unwrap().to_text(), "0.1.5-rc.2");
}

/// One tag list serves both the CLI and the plugin market, so a tag the registry does not publish
/// must not fail the check: `dshmarket` has no `alpha` tag at all.
#[test]
fn a_tag_the_registry_does_not_publish_is_ignored_while_another_matches() {
    let market = vec![
        ("beta".to_string(), "1.19.0-beta.4".to_string()),
        ("latest".to_string(), "1.47.0".to_string()),
    ];
    let wanted = ["latest".to_string(), "alpha".to_string()];
    let selected: Vec<(String, String)> = market
        .clone()
        .into_iter()
        .filter(|(name, _)| wanted.iter().any(|w| w == name))
        .collect();
    assert_eq!(selected.len(), 1, "only the published tag is selected");
    assert_eq!(newest_tagged(&selected).unwrap().to_text(), "1.47.0");
    // The check selects for itself.
    assert_eq!(
        check(Ok(market), &wanted, "1.46.0"),
        Status::UpdateAvailable {
            from: "1.46.0".into(),
            to: "1.47.0".into()
        }
    );
}

#[test]
fn rejects_malformed_versions() {
    assert!(Version::parse("not-a-version").is_none());
    assert!(Version::parse("1.2").is_none());
    assert!(Version::parse("1.2.3.4").is_none());
}

#[test]
fn judge_reports_updates_and_up_to_date() {
    assert_eq!(
        judge("0.1.5-rc.2", "0.1.5-rc.1"),
        Status::UpdateAvailable {
            from: "0.1.5-rc.1".into(),
            to: "0.1.5-rc.2".into()
        }
    );
    assert_eq!(
        judge("0.1.5-rc.1", "0.1.5-rc.2"),
        Status::UpToDate {
            version: "0.1.5-rc.1".into()
        }
    );
    assert_eq!(
        judge("0.1.5-rc.1", "0.1.5-rc.1"),
        Status::UpToDate {
            version: "0.1.5-rc.1".into()
        }
    );
    assert!(matches!(judge("garbage", "0.1.5-rc.1"), Status::Failed { .. }));
    assert!(matches!(judge("0.1.5-rc.1", "garbage"), Status::Failed { .. }));
}

/// The tags a cached answer was produced from, spelled out so the assertions below read as
/// questions about a real configuration rather than about an opaque list.
fn release_tags() -> Vec<String> {
    vec!["latest".to_string()]
}

fn release_and_alpha_tags() -> Vec<String> {
    vec!["latest".to_string(), "alpha".to_string()]
}

/// A cache file as it stands on disk: what a file does not name is empty.
fn read_cache(text: &str) -> Option<Cache> {
    let value: serde_json::Value = serde_json::from_str(text).ok()?;
    let words = |name: &str| value.get(name).and_then(|v| v.as_str()).map(str::to_string);
    let number = |name: &str| value.get(name).and_then(|v| v.as_u64());
    Some(Cache {
        checked_at: number("checked_at")?,
        installed: words("installed")?,
        latest: words("latest"),
        tags: match value.get("tags").and_then(|v| v.as_array()) {
            Some(tags) => tags.iter().filter_map(|t| t.as_str()).map(str::to_string).collect(),
            None => Vec::new(),
        },
        attempted: words("attempted"),
        failed: words("failed"),
        failed_at: number("failed_at").unwrap_or(0),
        failures: number("failures").unwrap_or(0) as u32,
    })
}

#[test]
fn cache_freshness_follows_interval_installed_version_and_tags() {
    let entry = |latest: Option<&str>, installed: &str, tags: Vec<String>| Cache {
        checked_at: 1_000,
        installed: installed.to_string(),
        latest: latest.map(|text| text.to_string()),
        tags,
        attempted: None,
        failed: None,
        failed_at: 0,
        failures: 0,
    };
    let release = release_tags();
    // Inside the window, same installed version, same question -> fresh.
    assert!(entry(Some("0.1.5-rc.2"), "0.1.5-rc.1", release.clone()).is_fresh(
        1_000 + 59 * 60,
        "0.1.5-rc.1",
        &release,
        60
    ));
    // Past the window -> stale.
    assert!(!entry(Some("0.1.5-rc.2"), "0.1.5-rc.1", release.clone()).is_fresh(
        1_000 + 61 * 60,
        "0.1.5-rc.1",
        &release,
        60
    ));
    // Manual upgrade changed the installed version -> stale.
    assert!(!entry(Some("0.1.5-rc.2"), "0.1.5-rc.1", release.clone()).is_fresh(
        1_000 + 60,
        "0.1.6",
        &release,
        60
    ));
    // Interval 0 disables caching entirely.
    assert!(!entry(Some("0.1.5-rc.2"), "0.1.5-rc.1", release.clone()).is_fresh(
        1_000,
        "0.1.5-rc.1",
        &release,
        0
    ));
    // A failed query is retried after the short window, not the full interval.
    assert!(!entry(None, "0.1.5-rc.1", release.clone()).is_fresh(
        1_000 + 6 * 60,
        "0.1.5-rc.1",
        &release,
        360
    ));
    assert!(entry(None, "0.1.5-rc.1", release.clone()).is_fresh(
        1_000 + 4 * 60,
        "0.1.5-rc.1",
        &release,
        360
    ));
    // A different set of tags is a different question: an answer built from `latest` alone says
    // nothing about whether `alpha` has moved, so it must not be reused once the default grows.
    assert!(!entry(Some("0.1.5-rc.2"), "0.1.5-rc.1", release.clone()).is_fresh(
        1_000 + 60,
        "0.1.5-rc.1",
        &release_and_alpha_tags(),
        60
    ));
    // An entry written before the field existed carries no tags, which reads as "some other
    // question" — that is what makes a changed default take effect on the next launch.
    let legacy = read_cache(
        r#"{"checked_at":1000,"installed":"0.1.5-rc.1","latest":"0.1.5-rc.2"}"#,
    )
    .expect("a cache file from an older shell must still parse");
    assert!(legacy.tags.is_empty());
    assert!(!legacy.is_fresh(1_000 + 60, "0.1.5-rc.1", &release_and_alpha_tags(), 60));
}

/// The window expiring must not reopen an install that already proved useless.
#[test]
fn carried_attempt_follows_the_registry_answer() {
    let cache = |attempted: Option<&str>, latest: Option<&str>| Cache {
        checked_at: 42,
        installed: "0.1.5-rc.1".into(),
        latest: latest.map(str::to_string),
        tags: release_tags(),
        attempted: attempted.map(str::to_string),
        failed: None,
        failed_at: 0,
        failures: 0,
    };
    assert_eq!(
        carried_attempt(
            Some(&cache(Some("0.1.5-rc.2"), Some("0.1.5-rc.2"))),
            Some("0.1.5-rc.2")
        ),
        Some("0.1.5-rc.2".to_string())
    );
    assert_eq!(
        carried_attempt(Some(&cache(Some("0.1.5-rc.2"), None)), None),
        Some("0.1.5-rc.2".to_string())
    );
    assert_eq!(
        carried_attempt(
            Some(&cache(Some("0.1.5-rc.2"), Some("0.1.5-rc.2"))),
            Some("0.1.5-rc.3")
        ),
        None
    );
    assert_eq!(carried_attempt(None, Some("0.1.5-rc.2")), None);
    assert_eq!(
        carried_attempt(Some(&cache(None, Some("0.1.5-rc.2"))), Some("0.1.5-rc.2")),
        None
    );
}

/// What npm prints for `npm view <package> dist-tags --json`.
fn printed(text: &str) -> Result<Vec<(String, String)>, String> {
    fetch_dist_tags(Ok(Output {
        success: true,
        stdout: drain(text.as_bytes(), 1024),
        stderr: Captured::empty(),
    }))
}

/// End to end through the check: an expired window on a machine whose npm writes the
/// package elsewhere must not reinstall.
#[test]
fn an_expired_window_does_not_reopen_an_ineffective_install() {
    let window_ago = NOW - 2 * 60 * 60;
    let seed = |latest: &str| Cache {
        checked_at: window_ago,
        installed: "0.1.5-rc.1".into(),
        latest: Some(latest.into()),
        tags: release_tags(),
        attempted: Some("0.1.5-rc.2".into()),
        failed: None,
        failed_at: 0,
        failures: 0,
    };
    let wanted = vec!["latest".to_string()];
    assert!(must_query(Some(&seed("0.1.5-rc.2")), NOW, &wanted, "0.1.5-rc.1", 60));
    let (checked, written) = check_cached(
        Some(&seed("0.1.5-rc.2")),
        NOW,
        &wanted,
        "0.1.5-rc.1",
        60,
        printed(r#"{"latest":"0.1.5-rc.2"}"#),
    );
    assert!(!checked.cached, "the window is over, so the registry is queried");
    assert!(checked.attempted, "the same answer must not install again");
    assert_eq!(
        written.unwrap().attempted.as_deref(),
        Some("0.1.5-rc.2"),
        "the marker survives the new query"
    );

    // A new version reopens the decision.
    let (checked, written) = check_cached(
        Some(&seed("0.1.5-rc.2")),
        NOW,
        &wanted,
        "0.1.5-rc.1",
        60,
        printed(r#"{"latest":"0.1.5-rc.3"}"#),
    );
    assert!(!checked.attempted, "a new version is a new decision");
    assert_eq!(written.unwrap().attempted, None);
}

/// The repeat-install bug: npm wrote the package somewhere this shell does not run it
/// from, so the version never changes and every launch inside the cache window used to
/// stop the Harness and rebuild the tree.
#[test]
fn an_ineffective_install_is_not_retried_inside_the_window() {
    let tags = vec!["latest".to_string()];
    let unasked = || Err("npm is not asked".to_string());

    // What the check stores when it finds an update.
    let stored = Cache {
        checked_at: NOW,
        installed: "0.1.5-rc.1".into(),
        latest: Some("0.1.5-rc.2".into()),
        tags: tags.clone(),
        attempted: None,
        failed: None,
        failed_at: 0,
        failures: 0,
    };
    assert!(!must_query(Some(&stored), NOW, &tags, "0.1.5-rc.1", 60));
    let (first, written) = check_cached(Some(&stored), NOW, &tags, "0.1.5-rc.1", 60, unasked());
    assert!(first.cached);
    assert!(!first.attempted, "a fresh answer must be allowed to install");
    assert_eq!(written, None);

    // The install ran and the supervised CLI did not change.
    let marked = mark_attempt_ineffective(Some(stored.clone()), "0.1.5-rc.2").unwrap();
    let (second, _) = check_cached(Some(&marked), NOW, &tags, "0.1.5-rc.1", 60, unasked());
    assert!(second.cached);
    assert!(
        second.attempted,
        "the next launch in the same window must not install again"
    );
    assert_eq!(
        second.status,
        Status::UpdateAvailable {
            from: "0.1.5-rc.1".into(),
            to: "0.1.5-rc.2".into()
        }
    );

    // A newer version than the one attempted is a new decision, not a repeat.
    let newer = Cache {
        latest: Some("0.1.5-rc.3".into()),
        attempted: Some("0.1.5-rc.2".into()),
        ..stored
    };
    let (third, _) = check_cached(Some(&newer), NOW, &tags, "0.1.5-rc.1", 60, unasked());
    assert!(!third.attempted, "only the attempted version is suppressed");
}

/// A failed install is not the same as an install that changed nothing: the first is
/// usually transient, so it must not pin the plugin (or the CLI) to an old version until
/// the registry head moves on.
#[test]
fn a_failed_install_only_suppresses_its_short_window() {
    let tags = vec!["latest".to_string()];
    let unasked = || Err("npm is not asked".to_string());
    let cache = |failed_at: u64| Cache {
        checked_at: NOW,
        installed: "1.45.1".into(),
        latest: Some("1.46.1".into()),
        tags: tags.clone(),
        attempted: None,
        failed: Some("1.46.1".into()),
        failed_at,
        failures: 0,
    };

    // Just failed: this launch must report the update without stopping the Harness.
    let (just_failed, _) =
        check_plugin_cached(Some(&cache(NOW)), NOW, &tags, "1.45.1", 60, unasked());
    assert!(just_failed.failed_recently);
    assert!(
        !just_failed.attempted,
        "a failure is not the long-lived ineffective marker"
    );

    // What the shell records when the install itself fails: the failure marker only, never
    // the long-lived "environment is wrong" one.
    let stored = mark_plugin_attempt_failed(Some(cache(NOW)), "1.46.1", NOW).unwrap();
    assert_eq!(stored.failed.as_deref(), Some("1.46.1"));
    assert_eq!(stored.attempted, None);
    assert!(stored.failed_at > 0, "the marker carries the time it was set");

    // Past the short window the shell tries again, even though the answer is still cached.
    let (later, _) = check_plugin_cached(
        Some(&cache(NOW - FAILED_RETRY_MINUTES * 60 - 1)),
        NOW,
        &tags,
        "1.45.1",
        60,
        unasked(),
    );
    assert!(later.cached, "the answer itself is still inside its window");
    assert!(
        !later.failed_recently,
        "one bad minute must not pin this version for ever"
    );
}

#[test]
fn a_failed_attempt_is_remembered_past_its_retry_window() {
    let failed = |at: u64, failures: u32| Cache {
        checked_at: at,
        installed: "1.45.1".into(),
        latest: Some("1.46.1".into()),
        tags: release_tags(),
        attempted: None,
        failed: Some("1.46.1".into()),
        failed_at: at,
        failures,
    };
    let marker = |at: u64, failures: u32| FailureMarker {
        version: "1.46.1".to_string(),
        at,
        failures,
    };

    // Same version, inside the window: the marker survives a fresh registry answer.
    assert_eq!(
        carried_failure(Some(&failed(1_000, 1)), Some("1.46.1"), 1_000 + 60),
        Some(marker(1_000, 1))
    );
    // Past the retry window the marker is still carried — the count has to survive the retry it
    // allowed, or a version that never boots would be retried at the shortest interval for ever.
    let past_window = 1_000 + FAILED_RETRY_MINUTES * 60;
    assert_eq!(
        carried_failure(Some(&failed(1_000, 1)), Some("1.46.1"), past_window),
        Some(marker(1_000, 1))
    );
    assert!(!failed(1_000, 1).failed_recently(
        past_window,
        &Status::UpdateAvailable {
            from: "1.45.1".into(),
            to: "1.46.1".into()
        }
    ));
    // Forgotten after a week.
    assert_eq!(
        carried_failure(Some(&failed(1_000, 3)), Some("1.46.1"), 1_000 + FAILED_MEMORY_SECS),
        None
    );
    // A newer version is a new decision, not a repeat.
    assert_eq!(carried_failure(Some(&failed(1_000, 1)), Some("1.46.2"), 1_000), None);
    assert_eq!(carried_failure(None, Some("1.46.1"), 1_000), None);
}

/// A version that keeps failing waits longer each time, up to a day; a different version starts
/// over. Without this a tree that can never boot was downloaded, swapped in, timed out and rolled
/// back once every five minutes.
#[test]
fn repeated_failures_of_one_version_back_off() {
    assert_eq!(failure_window_secs(0), FAILED_RETRY_MINUTES * 60);
    assert_eq!(failure_window_secs(1), FAILED_RETRY_MINUTES * 60);
    assert_eq!(failure_window_secs(2), FAILED_RETRY_MINUTES * 4 * 60);
    assert_eq!(failure_window_secs(3), FAILED_RETRY_MINUTES * 16 * 60);
    assert_eq!(failure_window_secs(20), 24 * 60 * 60);
    assert_eq!(failure_window_secs(u32::MAX), 24 * 60 * 60);

    let seeded = Cache {
        checked_at: NOW,
        installed: "0.1.5".into(),
        latest: Some("0.1.6".into()),
        tags: release_tags(),
        attempted: None,
        failed: None,
        failed_at: 0,
        failures: 0,
    };
    let update = Status::UpdateAvailable {
        from: "0.1.5".into(),
        to: "0.1.6".into(),
    };

    let once = mark_core_attempt_failed(Some(seeded), "0.1.6", NOW);
    let twice = mark_core_attempt_failed(once, "0.1.6", NOW).unwrap();
    assert_eq!(twice.failures, 2);
    // Ten minutes on: past the first window, still inside the second.
    assert!(twice.failed_recently(twice.failed_at + 10 * 60, &update));

    let other = mark_core_attempt_failed(Some(twice), "0.1.7", NOW).unwrap();
    assert_eq!(other.failures, 1, "a new version starts over");
    // Without a file there is nothing to mark.
    assert_eq!(mark_core_attempt_failed(None, "0.1.7", NOW), None);
}

#[test]
fn the_market_plugin_is_read_from_the_profile_it_would_load() {
    let profile = r#"{"name":"dsh-profile-web","dependencies":{"dshmarket":"^1.45.1"}}"#;
    assert!(declares_plugin(Some(profile), MARKET_PLUGIN));
    // The installed version (what the CLI loads) wins over the range in the profile.
    assert_eq!(
        installed_plugin(Some(r#"{"version":"1.46.1"}"#)).as_deref(),
        Some("1.46.1")
    );

    assert_eq!(installed_plugin(None), None);
    assert_eq!(installed_plugin(Some("{}")), None);
    assert_eq!(installed_plugin(Some("no manifest")), None);

    // A plugin the user removed must not be reinstalled by the updater.
    assert!(!declares_plugin(Some(r#"{"dependencies":{}}"#), MARKET_PLUGIN));
    assert!(!declares_plugin(None, MARKET_PLUGIN));
}

#[test]
fn the_plugin_check_keeps_its_own_cache_window() {
    assert_ne!(cache_path("/data", false), plugin_cache_path("/data", false));
    assert_eq!(cache_path(r"C:\data", true), r"C:\data\update-check.json");

    let plugin = Cache {
        checked_at: NOW,
        installed: "1.45.1".into(),
        latest: Some("1.46.1".into()),
        tags: release_tags(),
        attempted: None,
        failed: None,
        failed_at: 0,
        failures: 0,
    };
    // A fresh plugin answer is served without touching the network, and nothing is written.
    let (checked, written) = check_plugin_cached(
        Some(&plugin),
        NOW,
        &["latest".to_string()],
        "1.45.1",
        60,
        Err("npm is not asked".to_string()),
    );
    assert!(checked.cached);
    assert_eq!(
        checked.status,
        Status::UpdateAvailable {
            from: "1.45.1".into(),
            to: "1.46.1".into()
        }
    );
    assert_eq!(written, None);
}

#[test]
fn compatibility_flags_versions_outside_the_tested_range() {
    assert_eq!(compatibility(TESTED_MIN), Compatibility::Tested);
    assert_eq!(compatibility("0.1.5-rc.2"), Compatibility::Tested);
    assert_eq!(compatibility("0.1.9"), Compatibility::Tested);
    assert!(matches!(compatibility("0.1.4"), Compatibility::Older { .. }));
    assert!(matches!(compatibility("0.2.0"), Compatibility::Newer { .. }));
    assert!(matches!(compatibility("1.0.0"), Compatibility::Newer { .. }));
    assert!(matches!(compatibility("未知"), Compatibility::Unknown { .. }));
    // The range must stay a real range, or every version would be "Newer".
    assert!(parse(TESTED_MIN) < parse(TESTED_MAX_EXCLUSIVE));
}

/// `auto_update` and `require_tested_dsh` are on together by default, so the update path has
/// to respect the same range the startup check enforces. Installing a version that would then
/// be refused leaves the user with a CLI this shell wrote and will not run, and the working
/// version already overwritten.
#[test]
fn a_version_that_would_not_be_run_is_not_installed() {
    // Inside the tested range: install normally.
    assert!(may_install("0.1.5-rc.2", true));
    assert!(may_install("0.1.9", true));
    // The alpha line the shell now follows by default is inside the range, so following the tag
    // stays allowed.
    assert!(may_install("0.1.6-alpha.2", true));
    // What counts is the tested *range*, not about prerelease status — a prerelease of the
    // boundary version sorts below it, so it is admitted, exactly like a release inside the range.
    assert!(may_install("0.2.0-alpha.1", true));
    // Past the boundary either way, prerelease or not: refused.
    assert!(!may_install("0.2.0", true));
    assert!(!may_install("0.2.1-rc.1", true));
    // Past it: the startup check would refuse, so the install must not happen either.
    assert!(!may_install("0.2.0", true));
    assert!(!may_install("1.0.0", true));
    assert!(!may_install("未知", true));
    // With the check switched off the user has accepted untested versions, so both steps
    // let them through.
    assert!(may_install("0.2.0", false));
    assert!(may_install("1.0.0", false));
}

#[test]
fn find_pnpm_takes_the_first_executable_match_on_path() {
    let places = pnpm_candidates(Some("/root/empty:/root/good"), false);
    assert_eq!(places, ["/root/empty/pnpm", "/root/good/pnpm"]);
    // Readable but not executable: the CLI would die with EACCES instead of resolving it.
    let readable = [is_executable(false, None), is_executable(true, Some(0o644))];
    assert_eq!(find_pnpm(&places, &readable), None);

    let executable = [is_executable(false, None), is_executable(true, Some(0o755))];
    assert_eq!(find_pnpm(&places, &executable).as_deref(), Some("/root/good/pnpm"));

    // A directory of that name is not a command either.
    assert!(!is_executable(false, Some(0o755)));

    // No PATH means no pnpm.
    assert_eq!(find_pnpm(&pnpm_candidates(None, false), &[]), None);
}

#[test]
fn npm_path_puts_the_node_directory_first() {
    let existing = "/usr/bin:/opt/homebrew/bin";
    let path = npm_path("/opt/homebrew/bin/npm", Some(existing), false);
    assert_eq!(path, "/opt/homebrew/bin:/usr/bin");
    // No PATH at all still yields the directory npm itself lives in.
    assert_eq!(npm_path("/opt/homebrew/bin/npm", None, false), "/opt/homebrew/bin");
}

#[test]
fn derives_install_prefix_from_cli_path() {
    let prefix = install_prefix("/opt/homebrew/lib/node_modules/@deepseek-ai/dsh/lib/bin.js");
    assert_eq!(prefix.as_deref(), Some("/opt/homebrew"));
    assert_eq!(install_prefix("/tmp/plain/bin.js"), None);
}

#[test]
fn the_registry_answer_is_read_from_what_npm_printed() {
    assert_eq!(
        printed(r#"{"latest":"0.1.5","odd":7,"alpha":"0.1.6-alpha.2"}"#).unwrap().len(),
        2
    );
    assert!(printed("not json").is_err());
    assert_eq!(printed("[1]"), Ok(Vec::new()));
    let refused = fetch_dist_tags(Ok(Output {
        success: false,
        stdout: Captured::empty(),
        stderr: drain(b"npm error code E404\n", 1024),
    }));
    assert!(refused.unwrap_err().contains("E404"));
    assert_eq!(
        fetch_dist_tags(Err("gone".to_string())),
        Err("npm view: gone".to_string())
    );
    assert_eq!(
        tags_of(&[("a".to_string(), None), ("b".to_string(), Some("1.0.0".to_string()))]),
        [("b".to_string(), "1.0.0".to_string())]
    );
    // No tag that is wanted, and none that is a version.
    assert!(matches!(
        check(printed(r#"{"beta":"1.0.0"}"#), &release_tags(), "0.1.5"),
        Status::Failed { .. }
    ));
    assert!(matches!(
        check(printed(r#"{"latest":"soon"}"#), &release_tags(), "0.1.5"),
        Status::Failed { .. }
    ));
    assert_eq!(
        check(Err("offline".to_string()), &release_tags(), "0.1.5"),
        Status::Failed { reason: "offline".to_string() }
    );
}

#[test]
fn the_arguments_of_an_install() {
    assert_eq!(
        view_args(PACKAGE),
        [
            "view",
            PACKAGE,
            "dist-tags",
            "--json",
            "--fetch-timeout=8000",
            "--fetch-retries=1"
        ]
    );
    let args = install(PACKAGE, "0.1.6", Some("/data/prefix"), &None, Some("/data/cache"));
    assert!(args.contains(&"@deepseek-ai/dsh@0.1.6".to_string()));
    assert!(args.contains(&"/data/prefix".to_string()));
    assert!(args.contains(&"/data/cache".to_string()));
    // The prefix that npm uses anyway is not named.
    let there = Some("/usr/local".to_string());
    let global = install(PACKAGE, "0.1.6", Some("/usr/local"), &there, None);
    assert!(!global.contains(&"--prefix".to_string()));
    let plugin = install_plugin("/x/bin.js", "web", MARKET_PLUGIN, "1.46.1");
    assert_eq!(plugin[0], "/x/bin.js");
    assert!(plugin.contains(&"dshmarket@1.46.1".to_string()));
    assert_eq!(global_prefix(Some("/usr/local".to_string())).as_deref(), Some("/usr/local"));
    assert_eq!(global_prefix(Some("".to_string())), None);
    assert_eq!(global_prefix(None), None);
    let places = npm_candidates("/opt/node/bin/node", false);
    assert_eq!(
        places,
        ["/opt/node/bin/npm.cmd", "/opt/node/bin/npm.exe", "/opt/node/bin/npm"]
    );
    // The npm beside the node wins over one on the PATH, and that over the login shell's.
    let path = || Some("/usr/bin/npm".to_string());
    let login = || Some("/home/me/bin/npm".to_string());
    let found = npm_for(&places, &[false, false, true], path(), login());
    assert_eq!(found.as_deref(), Some("/opt/node/bin/npm"));
    assert_eq!(npm_for(&places, &[false; 3], path(), login()), path());
    assert_eq!(npm_for(&places, &[false; 3], None, login()), login());
    assert_eq!(npm_for(&places, &[false; 3], None, None), None);
}

#[test]
fn the_outcome_of_an_install() {
    let done = Output {
        success: true,
        stdout: Captured::empty(),
        stderr: Captured::empty(),
    };
    assert_eq!(install_outcome("npm install", Ok(done)), Ok(()));
    let refused = Output {
        success: false,
        stdout: Captured::empty(),
        stderr: drain(b"EACCES: permission denied\n", 1024),
    };
    let reason = install_outcome("npm install", Ok(refused)).unwrap_err();
    assert!(reason.contains("npm install"));
    assert!(reason.contains("EACCES: permission denied"));
    assert!(timeout_message(600).contains("600"));
}

#[test]
fn every_published_line_is_followed() {
    assert_eq!(default_tags(), ["latest", "next", "alpha"]);
    assert_eq!(parse("v1.2.3-rc.1").to_text(), "1.2.3-rc.1");
    assert_eq!(parse("1.2.3-rc.1").to_text(), "1.2.3-rc.1");
}

/// The npm of a Windows node lies beside it, and its directory leads.
#[test]
fn npm_on_windows_lies_beside_its_node() {
    assert_eq!(
        npm_candidates(r"C:\node\node.exe", true),
        [r"C:\node\npm.cmd", r"C:\node\npm.exe", r"C:\node\npm"]
    );
    assert_eq!(
        npm_path(r"C:\node\npm.cmd", Some(r"C:\Windows;c:\node\"), true),
        r"C:\node;C:\Windows"
    );
    assert_eq!(npm_path("/opt/bin/npm", Some("/opt/bin/:/usr/bin"), false), "/opt/bin:/usr/bin");
}

/// Runs a check on files that are a list, and counts the queries.
fn run_check(
    subject: Subject,
    files: &mut Vec<(String, Cache)>,
    asked: &mut Vec<String>,
    now: u64,
) -> Checked {
    let tags = ["latest".to_string()];
    let mut check = PackageCheck::new(subject, "/data", &tags, "1.0.0", 60, false);
    let mut event = CheckEvent::Started;
    loop {
        event = match check.next(event) {
            CheckAction::ReadCache { path } => CheckEvent::Read {
                cache: files.iter().find(|(name, _)| *name == path).map(|(_, held)| held.clone()),
                now,
            },
            CheckAction::Query { package } => {
                asked.push(package);
                CheckEvent::Answered {
                    tags: Ok(vec![("latest".to_string(), "1.1.0".to_string())]),
                }
            }
            CheckAction::WriteCache { path, cache } => {
                files.retain(|(name, _)| *name != path);
                files.push((path, cache));
                CheckEvent::Written
            }
            CheckAction::Finish { checked } => return checked,
        };
    }
}

/// Each check has a file of its own, and asks again only when its answer has aged.
#[test]
fn the_two_checks_keep_to_their_own_files() {
    let mut files: Vec<(String, Cache)> = Vec::new();
    let mut asked: Vec<String> = Vec::new();
    let first = run_check(Subject::Core, &mut files, &mut asked, NOW);
    assert!(!first.cached);
    assert_eq!(
        first.status,
        Status::UpdateAvailable { from: "1.0.0".to_string(), to: "1.1.0".to_string() }
    );
    assert_eq!(asked, [PACKAGE]);
    assert_eq!(files.len(), 1);
    assert_eq!(files[0].0, "/data/update-check.json");
    // The plugin's check does not use the answer for the CLI.
    let plugin = run_check(Subject::Plugin, &mut files, &mut asked, NOW);
    assert!(!plugin.cached);
    assert_eq!(asked, [PACKAGE, MARKET_PLUGIN]);
    assert_eq!(files.len(), 2);
    assert_eq!(files[1].0, "/data/plugin-check.json");
    // Both answers are remembered for their interval, and not longer.
    assert!(run_check(Subject::Core, &mut files, &mut asked, NOW + 60).cached);
    assert!(run_check(Subject::Plugin, &mut files, &mut asked, NOW + 60).cached);
    assert_eq!(asked.len(), 2);
    assert!(!run_check(Subject::Core, &mut files, &mut asked, NOW + 3601).cached);
    assert_eq!(asked.len(), 3);
}

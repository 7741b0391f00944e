//! Replacing a tree, and undoing it, on a disk that is a list of trees.

use dsh_desktop::generations::prune;
use dsh_desktop::snapshot::{
    copy_entry, profile_live_entries, removal, replaced_names, restore_tree, snapshot_names,
    snapshot_tree, EntryAction, EntryCopy, EntryEvent, Removal,
};
use dsh_desktop::transaction::{
    commit, entry_of, failed_path, move_path, package_candidates, package_dir, rollback,
    roll_back, rollback_with, verify_install, version_label, version_of_package, write_swap, Cleared, Commit,
    DiskAction, DiskEvent, MovePath, Rollback, Staging, SwapRecord,
};

/// The trees of a disk, each by its path; and whether a rename works on it.
struct Disk {
    trees: Vec<(String, String)>,
    renames: bool,
}

impl Disk {
    fn of(trees: &[(&str, &str)]) -> Disk {
        Disk {
            trees: trees.iter().map(|(p, t)| (p.to_string(), t.to_string())).collect(),
            renames: true,
        }
    }

    fn at(&self, path: &str) -> Option<&str> {
        self.trees.iter().find(|(name, _)| name == path).map(|(_, tree)| tree.as_str())
    }

    fn remove(&mut self, path: &str) {
        self.trees.retain(|(name, _)| name != path);
    }

    fn failed(reason: &str) -> DiskEvent<String> {
        DiskEvent::Failed {
            reason: reason.to_string(),
        }
    }

    fn perform(&mut self, action: DiskAction<String>) -> Result<DiskEvent<String>, Result<(), String>> {
        Ok(match action {
            DiskAction::CreateDir { .. } => DiskEvent::Done,
            DiskAction::Remove { path } => {
                self.remove(&path);
                DiskEvent::Done
            }
            DiskAction::Inspect { path } => {
                if self.at(&path).is_some() {
                    DiskEvent::Present
                } else {
                    DiskEvent::Absent
                }
            }
            DiskAction::Rename { from, to } => match self.at(&from).map(str::to_string) {
                Some(tree) if self.renames && self.at(&to).is_none() => {
                    self.remove(&from);
                    self.trees.push((to, tree));
                    DiskEvent::Done
                }
                _ => Disk::failed("cannot rename"),
            },
            DiskAction::Copy { from, to } => match self.at(&from).map(str::to_string) {
                Some(tree) => {
                    self.remove(&to);
                    self.trees.push((to, tree));
                    DiskEvent::Done
                }
                None => Disk::failed("nothing to copy"),
            },
            DiskAction::Move { from, to } => match self.run_move(move_path(&from, &to, false)) {
                Ok(()) => DiskEvent::Done,
                Err(reason) => DiskEvent::Failed { reason },
            },
            DiskAction::Finish { result } => return Err(result),
        })
    }

    fn run_move(&mut self, mut machine: MovePath<String>) -> Result<(), String> {
        let mut event = DiskEvent::Started;
        loop {
            match self.perform(machine.next(event)) {
                Ok(next) => event = next,
                Err(result) => return result,
            }
        }
    }

    fn run_commit(&mut self, mut machine: Commit<String>) -> Result<(), String> {
        let mut event = DiskEvent::Started;
        loop {
            match self.perform(machine.next(event)) {
                Ok(next) => event = next,
                Err(result) => return result,
            }
        }
    }

    fn run_rollback(&mut self, mut machine: Rollback<String>) -> Result<(), String> {
        let mut event = DiskEvent::Started;
        loop {
            match self.perform(machine.next(event)) {
                Ok(next) => event = next,
                Err(result) => return result,
            }
        }
    }
}

const PACKAGE: &str = "@deepseek-ai/dsh";

fn manifest(package: &str, version: &str) -> String {
    format!("{{\"name\":\"{package}\",\"version\":\"{version}\"}}")
}

#[test]
fn a_staged_tree_is_verified_by_name_and_version_before_it_is_used() {
    let places = package_candidates("/r/prefix", PACKAGE, false);
    let there: Vec<bool> = places
        .iter()
        .map(|place| place == "/r/prefix/lib/node_modules/@deepseek-ai/dsh")
        .collect();
    assert!(there.contains(&true), "{places:?}");
    let text = manifest(PACKAGE, "0.1.6");

    let verified =
        verify_install("/r/prefix", PACKAGE, "0.1.6", &there, Some(&text), true, false).unwrap();
    assert_eq!(verified.version, "0.1.6");
    assert_eq!(
        verified.entry,
        "/r/prefix/lib/node_modules/@deepseek-ai/dsh/lib/bin.js"
    );

    // The registry answering with another version must not become a silent downgrade.
    let mismatch =
        verify_install("/r/prefix", PACKAGE, "0.1.7", &there, Some(&text), true, false)
            .unwrap_err();
    assert!(mismatch.contains("0.1.6"), "{mismatch}");

    // A prefix holding a different package is not this CLI, whatever version it carries.
    let other = manifest("left-pad", "0.1.6");
    assert!(verify_install("/r/prefix", PACKAGE, "0.1.6", &there, Some(&other), true, false).is_err());

    // Nothing installed at all.
    let nowhere = vec![false; places.len()];
    assert!(verify_install("/r/prefix", PACKAGE, "0.1.6", &nowhere, None, false, false).is_err());
    assert_eq!(package_dir("/r/prefix", PACKAGE, &nowhere, false), None);
    assert_eq!(version_of_package(Some(&other), PACKAGE), None);
    assert_eq!(version_of_package(Some(&text), PACKAGE).as_deref(), Some("0.1.6"));
}

#[test]
fn a_tree_without_its_entry_script_is_not_a_usable_install() {
    let places = package_candidates("/r/prefix", PACKAGE, false);
    let there = vec![true; places.len()];
    let text = manifest(PACKAGE, "0.1.6");
    assert!(verify_install("/r/prefix", PACKAGE, "0.1.6", &there, Some(&text), false, false).is_err());
    assert_eq!(entry_of("/d", false), "/d/lib/bin.js");
}

#[test]
fn a_commit_replaces_the_live_tree_and_keeps_the_previous_one() {
    let mut disk = Disk::of(&[("/r/live", "old"), ("/r/staged", "new")]);
    disk.run_commit(commit("/r/live", "/r/staged", "/r/backup", false)).unwrap();
    assert_eq!(disk.at("/r/live"), Some("new"));
    assert_eq!(disk.at("/r/backup"), Some("old"));
    assert_eq!(disk.at("/r/staged"), None, "the staged tree was moved, not copied");
}

/// Trees on two devices cannot be renamed, and are copied.
#[test]
fn a_commit_works_across_devices() {
    let mut disk = Disk::of(&[("/r/live", "old"), ("/r/staged", "new")]);
    disk.renames = false;
    disk.run_commit(commit("/r/live", "/r/staged", "/r/backup", false)).unwrap();
    assert_eq!(disk.at("/r/live"), Some("new"));
    assert_eq!(disk.at("/r/backup"), Some("old"));
    assert_eq!(disk.at("/r/staged"), None);
}

#[test]
fn a_commit_that_cannot_move_the_staged_tree_leaves_the_old_one_in_place() {
    let mut disk = Disk::of(&[("/r/live", "old")]);
    // The staged tree does not exist: the first rename succeeds (the live tree moves aside)
    // and the second must fail, which is exactly when the old tree has to come back.
    let error = disk.run_commit(commit("/r/live", "/r/missing", "/r/backup", false)).unwrap_err();
    assert!(!error.is_empty());
    assert_eq!(disk.at("/r/live"), Some("old"));
}

#[test]
fn a_rollback_puts_the_previous_tree_back_and_keeps_the_failed_one() {
    let mut disk = Disk::of(&[("/r/live", "broken"), ("/r/backup", "good")]);
    disk.run_rollback(rollback("/r/live", "/r/backup", false)).unwrap();
    assert_eq!(disk.at("/r/live"), Some("good"));
    // The tree that failed is kept as evidence rather than deleted.
    assert_eq!(disk.at(&failed_path("/r/live", false)), Some("broken"));
    // Rolling back without a backup is an error, not a silent no-op.
    assert!(disk.run_rollback(rollback("/r/live", "/r/gone", false)).is_err());
}

fn names(list: &[&str]) -> Vec<String> {
    list.iter().map(|name| name.to_string()).collect()
}

#[test]
fn pruning_keeps_the_newest_generations() {
    assert_eq!(prune(&names(&["0.1.4", "0.1.5", "0.1.6"]), 2), ["0.1.4"]);
    // Asking to keep more than exists is not an error.
    assert!(prune(&names(&["0.1.5", "0.1.6"]), 9).is_empty());
}

/// The generation a rollback would need is the newest one, and a plain string sort gets that
/// wrong the moment a version crosses a digit boundary.
#[test]
fn pruning_orders_generations_by_version_not_by_name() {
    // Lexicographically "0.10.0" < "0.9.0"; by version it is newer and must survive.
    assert_eq!(prune(&names(&["0.9.0", "0.10.0", "0.11.0-rc.1"]), 2), ["0.9.0"]);

    // A directory that is not a version at all is dropped before a real generation.
    assert_eq!(
        prune(&names(&["0.10.0", "0.11.0-rc.1", "staging-leftover"]), 2),
        ["staging-leftover"]
    );
}

fn copy(from: &str, to: &str, name: &str) -> EntryAction<String> {
    EntryAction::Copy {
        from: format!("{from}/{name}"),
        to: format!("{to}/{name}"),
    }
}

fn entry_failed(reason: &str) -> EntryEvent<String, Vec<String>> {
    EntryEvent::Failed {
        reason: reason.to_string(),
    }
}

#[test]
fn a_profile_snapshot_skips_what_the_running_harness_keeps_writing() {
    let live = names(&["package.json", "node_modules", "data", ".dsh-market"]);
    assert_eq!(
        snapshot_names(&live, &profile_live_entries()),
        ["package.json", "node_modules"]
    );
    let mut snapshot = snapshot_tree("/live", "/snap", profile_live_entries(), false);
    let to = || "/snap".to_string();
    assert_eq!(snapshot.next(EntryEvent::Started), EntryAction::Clear { path: to() });
    // Whether there was anything to clear does not matter.
    assert_eq!(snapshot.next(entry_failed("gone")), EntryAction::CreateDir { path: to() });
    assert_eq!(
        snapshot.next(EntryEvent::Done),
        EntryAction::List { path: "/live".to_string() }
    );
    assert_eq!(snapshot.next(EntryEvent::Listed { names: live }), copy("/live", "/snap", "package.json"));
    assert_eq!(snapshot.next(EntryEvent::Done), copy("/live", "/snap", "node_modules"));
    let mut broken = snapshot.clone();
    assert_eq!(snapshot.next(EntryEvent::Done), EntryAction::Finish { result: Ok(()) });
    // A snapshot that misses an entry is none.
    assert_eq!(
        broken.next(entry_failed("full")),
        EntryAction::Finish {
            result: Err("无法快照 /live/node_modules: full".to_string())
        }
    );
}

#[test]
fn restoring_a_profile_snapshot_puts_the_old_tree_back_and_leaves_live_state_alone() {
    let kept = names(&["package.json", "node_modules"]);
    let live = names(&["package.json", "node_modules", "data"]);
    // What the snapshot holds goes before it is put back; live state is not rolled back: it
    // belongs to the session, not to the install.
    assert_eq!(
        replaced_names(&live, &kept, &profile_live_entries()),
        ["package.json", "node_modules"]
    );
    let mut restore = restore_tree("/snap", "/live", profile_live_entries(), false);
    let list = |path: &str| EntryAction::List { path: path.to_string() };
    let remove = |name: &str| EntryAction::Remove { path: format!("/live/{name}") };
    assert_eq!(restore.next(EntryEvent::Started), list("/snap"));
    let mut lost = restore.clone();
    assert_eq!(restore.next(EntryEvent::Listed { names: kept }), list("/live"));
    assert_eq!(restore.next(EntryEvent::Listed { names: live }), remove("package.json"));
    assert_eq!(restore.next(EntryEvent::Done), remove("node_modules"));
    let mut stuck = restore.clone();
    assert_eq!(restore.next(EntryEvent::Done), copy("/snap", "/live", "package.json"));
    assert_eq!(restore.next(EntryEvent::Done), copy("/snap", "/live", "node_modules"));
    let mut cut = restore.clone();
    assert_eq!(restore.next(EntryEvent::Done), EntryAction::Finish { result: Ok(()) });
    let error = |text: &str| EntryAction::Finish { result: Err(text.to_string()) };
    assert_eq!(lost.next(entry_failed("gone")), error("无法读取快照 /snap: gone"));
    assert_eq!(stuck.next(entry_failed("busy")), error("无法移除 /live/node_modules: busy"));
    assert_eq!(cut.next(entry_failed("full")), error("无法恢复 /live/node_modules: full"));
}

#[test]
fn a_staging_directory_is_cleared_before_use_and_removed_afterwards() {
    let staging = Staging::create("/r", "0.1.6", Cleared::Done, Ok(()), false).unwrap();
    assert_eq!(staging.path(), Staging::dir("/r", "0.1.6", false));
    assert_eq!(staging.path(), "/r/staging-0.1.6");
    assert!(staging.prefix(false).starts_with(staging.path()));
    // Nothing to clear is fine; leftovers that stay would be verified as this attempt's.
    assert!(Staging::create("/r", "0.1.6", Cleared::Missing, Ok(()), false).is_ok());
    let stuck = Cleared::Failed {
        reason: "busy".to_string(),
    };
    assert!(Staging::create("/r", "0.1.6", stuck, Ok(()), false).unwrap_err().contains("busy"));
    assert!(Staging::create("/r", "0.1.6", Cleared::Done, Err("full".to_string()), false)
        .unwrap_err()
        .contains("full"));
}

#[test]
fn a_label_never_leaves_its_directory() {
    assert_eq!(version_label("0.1.6-rc.1"), "0.1.6-rc.1");
    assert!(!version_label("../../etc").contains('/'));
}

#[test]
fn a_record_that_cannot_be_written_is_an_error() {
    assert_eq!(write_swap("/r/update-swap.json", Ok(()), Ok(()), false), Ok(()));
    assert!(write_swap("/r/update-swap.json", Err("no".to_string()), Ok(()), false).is_err());
    assert!(write_swap("/r/update-swap.json", Ok(()), Err("full".to_string()), false)
        .unwrap_err()
        .contains("full"));
}

/// A real profile is full of links — to directories and to files. Following them would fail the
/// whole snapshot, or write out what they point at.
#[test]
fn a_snapshot_preserves_symlinks() {
    match copy_entry("/live/fallback-pkg", Some("node_modules/pkg"), true, false) {
        EntryCopy::Link { target, .. } => {
            assert_eq!(target, "node_modules/pkg", "the link target must be preserved verbatim")
        }
        other => panic!("the link was followed: {other:?}"),
    }
    match copy_entry("/live/node_modules/.bin/tool", Some("../tool.js"), false, false) {
        EntryCopy::Link { target, .. } => assert_eq!(target, "../tool.js"),
        other => panic!("the link was followed: {other:?}"),
    }
    assert_eq!(copy_entry("/live/node_modules", None, true, false), EntryCopy::Tree);
    assert_eq!(copy_entry("/live/package.json", None, false, false), EntryCopy::File);
}

/// Removing a link to a directory must not follow it.
#[test]
fn a_restore_puts_symlinks_back_without_following_them() {
    assert_eq!(removal(true, true), Removal::File);
    assert_eq!(removal(true, false), Removal::File);
    assert_eq!(removal(false, true), Removal::Tree);
    assert_eq!(removal(false, false), Removal::File);
}

/// The bundled first update: the shadow prefix is empty, so there was no previous tree to move
/// and the backup was never written. A rollback then used to fail, leaving the tree that would not
/// boot in place and the record on disk — so every later launch repeated the same failure.
#[test]
fn a_first_update_with_no_backup_discards_the_failed_tree() {
    let mut disk = Disk::of(&[("/r/staging/0.1.6", "broken")]);
    disk.run_commit(commit("/r/prefix", "/r/staging/0.1.6", "/r/rollback/0.1.5", false)).unwrap();
    assert!(disk.at("/r/prefix").is_some());
    assert_eq!(disk.at("/r/rollback/0.1.5"), None, "nothing was moved to backup");

    // The tree never booted, so this is the rollback the launch performs.
    disk.run_rollback(rollback_with("/r/prefix", "/r/rollback/0.1.5", Some(false), false))
        .expect("a first update must still roll back");
    assert_eq!(
        disk.at("/r/prefix"),
        None,
        "the failed tree must be gone so the seed is used again"
    );
    assert!(disk.at(&failed_path("/r/prefix", false)).is_some(), "it is kept as evidence");
}

/// A record written before `had_previous` existed must keep the old, safe behaviour: never delete
/// a tree just because a backup is missing.
#[test]
fn a_legacy_record_still_refuses_to_delete_the_install() {
    let mut disk = Disk::of(&[("/r/prefix", "mine")]);
    assert!(disk
        .run_rollback(rollback_with("/r/prefix", "/r/rollback/0.1.5", None, false))
        .is_err());
    assert_eq!(
        disk.at("/r/prefix"),
        Some("mine"),
        "an unknown history must not delete anything"
    );
}

/// The normal case still restores the previous tree rather than discarding the new one.
#[test]
fn a_rollback_with_a_backup_restores_it() {
    let mut disk = Disk::of(&[("/r/prefix", "old"), ("/r/staging/0.1.6", "new")]);
    disk.run_commit(commit("/r/prefix", "/r/staging/0.1.6", "/r/rollback/0.1.5", false)).unwrap();
    assert!(disk.at("/r/rollback/0.1.5").is_some(), "a previous tree was moved aside");
    disk.run_rollback(rollback_with("/r/prefix", "/r/rollback/0.1.5", Some(true), false)).unwrap();
    assert_eq!(disk.at("/r/prefix"), Some("old"), "the old tree is back");
}

/// The record alone says what undoing a swap puts back.
#[test]
fn a_record_undoes_its_swap() {
    let record = |had_previous: Option<bool>| SwapRecord {
        target: "/r/prefix".to_string(),
        backup: "/r/rollback/0.1.6".to_string(),
        version: "0.1.6".to_string(),
        at: 1,
        had_previous,
    };
    let mut disk = Disk::of(&[("/r/prefix", "new"), ("/r/rollback/0.1.6", "old")]);
    assert_eq!(disk.run_rollback(roll_back(&record(Some(true)), false)), Ok(()));
    assert_eq!(disk.at("/r/prefix"), Some("old"));
    // Nothing stood there before: nothing stands there afterwards.
    let mut disk = Disk::of(&[("/r/prefix", "new")]);
    assert_eq!(disk.run_rollback(roll_back(&record(Some(false)), false)), Ok(()));
    assert_eq!(disk.at("/r/prefix"), None);
    // The old tree is gone: the new one stays.
    let mut disk = Disk::of(&[("/r/prefix", "new")]);
    assert!(disk.run_rollback(roll_back(&record(Some(true)), false)).is_err());
    assert_eq!(disk.at("/r/prefix"), Some("new"));
}

/// A link on Windows may name its target on a drive.
#[test]
fn a_link_on_windows_is_resolved_by_its_rules() {
    match copy_entry("C:/live/bin/tool", Some(r"D:\cli\tool.js"), false, true) {
        EntryCopy::Link { target, resolved } => {
            assert_eq!(target, r"D:\cli\tool.js");
            assert_eq!(resolved, r"D:\cli\tool.js");
        }
        other => panic!("{other:?}"),
    }
    match copy_entry(r"C:\live\bin\tool", Some(r"..\tool.js"), false, true) {
        EntryCopy::Link { resolved, .. } => assert_eq!(resolved, r"C:\live\bin\..\tool.js"),
        other => panic!("{other:?}"),
    }
    // Behind the verbatim prefix `..` would be a name, so it is worked out.
    match copy_entry(r"\\?\C:\live\bin\tool", Some("../tool.js"), false, true) {
        EntryCopy::Link { resolved, .. } => assert_eq!(resolved, r"\\?\C:\live\tool.js"),
        other => panic!("{other:?}"),
    }
}

/// The trees of an update on Windows are named as Windows writes paths.
#[test]
fn trees_on_windows_lie_beside_each_other() {
    assert_eq!(failed_path(r"C:\r\live", true), r"C:\r\live.failed");
    assert_eq!(failed_path("C:/r/live/", true), r"C:/r\live.failed");
    assert_eq!(Staging::dir(r"C:\r", "0.1.6", true), r"C:\r\staging-0.1.6");
    assert_eq!(entry_of(r"C:\d", true), r"C:\d\lib\bin.js");
    assert_eq!(
        package_candidates(r"C:\p", "@a/b", true),
        [r"C:\p\lib/node_modules\@a/b", r"C:\p\node_modules\@a/b"]
    );
    let mut machine = move_path(r"C:\a\x", r"C:\b\x", true);
    assert_eq!(
        machine.next(DiskEvent::Started),
        DiskAction::CreateDir { path: r"C:\b".to_string() }
    );
    let mut machine = commit(r"C:\x", r"C:\s\x", r"C:\b\x", true);
    assert_eq!(
        machine.next(DiskEvent::Started),
        DiskAction::CreateDir { path: r"C:\".to_string() }
    );
}

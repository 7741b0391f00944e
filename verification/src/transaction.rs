//! Building a tree aside, checking it, swapping it in and putting the old one back.
//!
//! A tree that is in use is never written into. A new one is built somewhere else and checked; the
//! live tree is moved aside and the new one is moved in. What fails before that last move leaves
//! the live tree in its place.
//!
//! The moves are made by whoever runs the machines of this module: each tells the next step, and
//! is told how that step went.
use vstd::prelude::*;

use crate::json::string_member;
#[allow(unused_imports)]
use crate::json::json_string_member;
use crate::paths::{file_name, parent, path_join};
#[allow(unused_imports)]
use crate::paths::{file_name_in, first_there, parent_path, path_joined};
use crate::text::{chars_of, glue, glue3, glue4, glue5, string_of, text_eq};
#[allow(unused_imports)]
use crate::text::{opt_view, texts};
use crate::update::plugin_version_of;
#[allow(unused_imports)]
use crate::update::plugin_version;

verus! {

// ---------------------------------------------------------------------------------------------
// Steps on the disk
// ---------------------------------------------------------------------------------------------

/// A step on the disk. Paths and reasons are texts, or sequences in contracts.
#[derive(Debug, PartialEq, Eq)]
pub enum DiskAction<T> {
    /// Create a directory and those above it.
    CreateDir { path: T },
    /// Remove a tree.
    Remove { path: T },
    /// Tell whether something is there.
    Inspect { path: T },
    /// Rename a tree.
    Rename { from: T, to: T },
    /// Copy a tree.
    Copy { from: T, to: T },
    /// Move a tree, as [`move_path`] does.
    Move { from: T, to: T },
    /// Nothing more to do.
    Finish { result: Result<(), T> },
}

/// How a step went.
#[derive(Debug, Clone, PartialEq, Eq)]
pub enum DiskEvent<T> {
    /// There was no step yet.
    Started,
    Done,
    Failed { reason: T },
    /// Something is there.
    Present,
    /// Nothing is there.
    Absent,
}

pub open spec fn result_view(result: Result<(), String>) -> Result<(), Seq<char>> {
    match result {
        Ok(()) => Ok(()),
        Err(reason) => Err(reason@),
    }
}

impl View for DiskAction<String> {
    type V = DiskAction<Seq<char>>;

    open spec fn view(&self) -> DiskAction<Seq<char>> {
        match self {
            DiskAction::CreateDir { path } => DiskAction::CreateDir { path: path@ },
            DiskAction::Remove { path } => DiskAction::Remove { path: path@ },
            DiskAction::Inspect { path } => DiskAction::Inspect { path: path@ },
            DiskAction::Rename { from, to } => DiskAction::Rename { from: from@, to: to@ },
            DiskAction::Copy { from, to } => DiskAction::Copy { from: from@, to: to@ },
            DiskAction::Move { from, to } => DiskAction::Move { from: from@, to: to@ },
            DiskAction::Finish { result } => DiskAction::Finish { result: result_view(*result) },
        }
    }
}

impl View for DiskEvent<String> {
    type V = DiskEvent<Seq<char>>;

    open spec fn view(&self) -> DiskEvent<Seq<char>> {
        match self {
            DiskEvent::Started => DiskEvent::Started,
            DiskEvent::Done => DiskEvent::Done,
            DiskEvent::Failed { reason } => DiskEvent::Failed { reason: reason@ },
            DiskEvent::Present => DiskEvent::Present,
            DiskEvent::Absent => DiskEvent::Absent,
        }
    }
}

/// What a directory that could not be created is reported as.
pub open spec fn create_error(path: Seq<char>, reason: Seq<char>) -> Seq<char> {
    "无法创建 "@ + path + ": "@ + reason
}

fn create_failed(path: &str, reason: &str) -> (r: DiskAction<String>)
    ensures
        r@ == (DiskAction::Finish::<Seq<char>> { result: Err(create_error(path@, reason@)) }),
{
    DiskAction::Finish { result: Err(glue4("无法创建 ", path, ": ", reason)) }
}

// ---------------------------------------------------------------------------------------------
// Moving one tree
// ---------------------------------------------------------------------------------------------

/// How far a move has come.
#[derive(Debug, Clone, PartialEq, Eq)]
pub enum MoveStage<T> {
    Start,
    Creating { parent: T },
    Renaming,
    Copying { rename_error: T },
    Removing,
    Over,
}

/// The move of a tree to another place.
#[derive(Debug, Clone, PartialEq, Eq)]
pub struct MovePath<T> {
    pub from: T,
    pub to: T,
    /// Do the paths follow the rules of Windows?
    pub windows: bool,
    pub stage: MoveStage<T>,
}

impl View for MovePath<String> {
    type V = MovePath<Seq<char>>;

    open spec fn view(&self) -> MovePath<Seq<char>> {
        MovePath {
            from: self.from@,
            to: self.to@,
            windows: self.windows,
            stage: match self.stage {
                MoveStage::Start => MoveStage::Start,
                MoveStage::Creating { parent } => MoveStage::Creating { parent: parent@ },
                MoveStage::Renaming => MoveStage::Renaming,
                MoveStage::Copying { rename_error } => MoveStage::Copying {
                    rename_error: rename_error@,
                },
                MoveStage::Removing => MoveStage::Removing,
                MoveStage::Over => MoveStage::Over,
            },
        }
    }
}

/// The next step of a move.
pub open spec fn move_next(m: MovePath<Seq<char>>, event: DiskEvent<Seq<char>>) -> (
    MovePath<Seq<char>>,
    DiskAction<Seq<char>>,
) {
    let rename = (
        MovePath { stage: MoveStage::Renaming, ..m },
        DiskAction::Rename { from: m.from, to: m.to },
    );
    let over = MovePath { stage: MoveStage::Over, ..m };
    match m.stage {
        MoveStage::Start => match parent_path(m.to, m.windows) {
            Some(dir) => (
                MovePath { stage: MoveStage::Creating { parent: dir }, ..m },
                DiskAction::CreateDir { path: dir },
            ),
            None => rename,
        },
        MoveStage::Creating { parent } => match event {
            DiskEvent::Failed { reason } => (
                over,
                DiskAction::Finish { result: Err(create_error(parent, reason)) },
            ),
            _ => rename,
        },
        MoveStage::Renaming => match event {
            DiskEvent::Failed { reason } => (
                MovePath { stage: MoveStage::Copying { rename_error: reason }, ..m },
                DiskAction::Copy { from: m.from, to: m.to },
            ),
            _ => (over, DiskAction::Finish { result: Ok(()) }),
        },
        MoveStage::Copying { rename_error } => match event {
            DiskEvent::Failed { reason } => (
                over,
                DiskAction::Finish {
                    result: Err(
                        "无法移动 "@ + m.from + " 到 "@ + m.to + "（rename: "@ + rename_error + "；copy: "@
                            + reason + "）"@,
                    ),
                },
            ),
            _ => (
                MovePath { stage: MoveStage::Removing, ..m },
                DiskAction::Remove { path: m.from },
            ),
        },
        MoveStage::Removing => match event {
            DiskEvent::Failed { reason } => (
                over,
                DiskAction::Finish {
                    result: Err("复制完成但无法删除 "@ + m.from + ": "@ + reason),
                },
            ),
            _ => (over, DiskAction::Finish { result: Ok(()) }),
        },
        MoveStage::Over => (over, DiskAction::Finish { result: Ok(()) }),
    }
}

/// Starts to move a tree: it is renamed; where that fails, as between two file systems, it is
/// copied and then removed.
pub fn move_path(from: &str, to: &str, windows: bool) -> (r: MovePath<String>)
    ensures
        r@ == (MovePath { from: from@, to: to@, windows, stage: MoveStage::<Seq<char>>::Start }),
{
    MovePath { from: from.to_owned(), to: to.to_owned(), windows, stage: MoveStage::Start }
}

impl MovePath<String> {
    /// The next step, after the last one went as the event says.
    pub fn next(&mut self, event: DiskEvent<String>) -> (r: DiskAction<String>)
        ensures
            (final(self)@, r@) == move_next(old(self)@, event@),
    {
        let mut stage = MoveStage::Over;
        std::mem::swap(&mut stage, &mut self.stage);
        match stage {
            MoveStage::Start => match parent(self.to.as_str(), self.windows) {
                Some(dir) => {
                    self.stage = MoveStage::Creating { parent: dir.clone() };
                    DiskAction::CreateDir { path: dir }
                },
                None => {
                    self.stage = MoveStage::Renaming;
                    DiskAction::Rename { from: self.from.clone(), to: self.to.clone() }
                },
            },
            MoveStage::Creating { parent } => match event {
                DiskEvent::Failed { reason } => create_failed(parent.as_str(), reason.as_str()),
                _ => {
                    self.stage = MoveStage::Renaming;
                    DiskAction::Rename { from: self.from.clone(), to: self.to.clone() }
                },
            },
            MoveStage::Renaming => match event {
                DiskEvent::Failed { reason } => {
                    self.stage = MoveStage::Copying { rename_error: reason };
                    DiskAction::Copy { from: self.from.clone(), to: self.to.clone() }
                },
                _ => DiskAction::Finish { result: Ok(()) },
            },
            MoveStage::Copying { rename_error } => match event {
                DiskEvent::Failed { reason } => {
                    let mut text = glue5(
                        "无法移动 ",
                        self.from.as_str(),
                        " 到 ",
                        self.to.as_str(),
                        "（rename: ",
                    );
                    text.append(rename_error.as_str());
                    text.append("；copy: ");
                    text.append(reason.as_str());
                    text.append("）");
                    DiskAction::Finish { result: Err(text) }
                },
                _ => {
                    self.stage = MoveStage::Removing;
                    DiskAction::Remove { path: self.from.clone() }
                },
            },
            MoveStage::Removing => match event {
                DiskEvent::Failed { reason } => {
                    let text = glue4(
                        "复制完成但无法删除 ",
                        self.from.as_str(),
                        ": ",
                        reason.as_str(),
                    );
                    DiskAction::Finish { result: Err(text) }
                },
                _ => DiskAction::Finish { result: Ok(()) },
            },
            MoveStage::Over => DiskAction::Finish { result: Ok(()) },
        }
    }
}

// ---------------------------------------------------------------------------------------------
// Swapping a tree in
// ---------------------------------------------------------------------------------------------

/// How far a swap has come.
#[derive(Debug, Clone, PartialEq, Eq)]
pub enum CommitStage<T> {
    Start,
    Creating { parent: T },
    /// What an older swap left at the place for the old tree goes.
    Clearing,
    /// Is there a live tree?
    Looking,
    /// The live tree moves aside.
    Aside,
    /// The new tree moves in.
    In { had_previous: bool },
    /// The old tree moves back.
    Back { error: T },
    Over,
}

/// A swap: the tree at `staged` comes to `target`, and what was there goes to `backup`.
#[derive(Debug, Clone, PartialEq, Eq)]
pub struct Commit<T> {
    pub target: T,
    pub staged: T,
    pub backup: T,
    /// Do the paths follow the rules of Windows?
    pub windows: bool,
    pub stage: CommitStage<T>,
}

impl View for Commit<String> {
    type V = Commit<Seq<char>>;

    open spec fn view(&self) -> Commit<Seq<char>> {
        Commit {
            target: self.target@,
            staged: self.staged@,
            backup: self.backup@,
            windows: self.windows,
            stage: match self.stage {
                CommitStage::Start => CommitStage::Start,
                CommitStage::Creating { parent } => CommitStage::Creating { parent: parent@ },
                CommitStage::Clearing => CommitStage::Clearing,
                CommitStage::Looking => CommitStage::Looking,
                CommitStage::Aside => CommitStage::Aside,
                CommitStage::In { had_previous } => CommitStage::In { had_previous },
                CommitStage::Back { error } => CommitStage::Back { error: error@ },
                CommitStage::Over => CommitStage::Over,
            },
        }
    }
}

/// The next step of a swap.
pub open spec fn commit_next(c: Commit<Seq<char>>, event: DiskEvent<Seq<char>>) -> (
    Commit<Seq<char>>,
    DiskAction<Seq<char>>,
) {
    let clear = (
        Commit { stage: CommitStage::Clearing, ..c },
        DiskAction::Remove { path: c.backup },
    );
    let over = Commit { stage: CommitStage::Over, ..c };
    match c.stage {
        CommitStage::Start => match parent_path(c.target, c.windows) {
            Some(dir) => (
                Commit { stage: CommitStage::Creating { parent: dir }, ..c },
                DiskAction::CreateDir { path: dir },
            ),
            None => clear,
        },
        CommitStage::Creating { parent } => match event {
            DiskEvent::Failed { reason } => (
                over,
                DiskAction::Finish { result: Err(create_error(parent, reason)) },
            ),
            _ => clear,
        },
        CommitStage::Clearing => (
            Commit { stage: CommitStage::Looking, ..c },
            DiskAction::Inspect { path: c.target },
        ),
        CommitStage::Looking => if event is Present {
            (
                Commit { stage: CommitStage::Aside, ..c },
                DiskAction::Move { from: c.target, to: c.backup },
            )
        } else {
            (
                Commit { stage: CommitStage::In { had_previous: false }, ..c },
                DiskAction::Move { from: c.staged, to: c.target },
            )
        },
        CommitStage::Aside => match event {
            DiskEvent::Failed { reason } => (over, DiskAction::Finish { result: Err(reason) }),
            _ => (
                Commit { stage: CommitStage::In { had_previous: true }, ..c },
                DiskAction::Move { from: c.staged, to: c.target },
            ),
        },
        CommitStage::In { had_previous } => match event {
            DiskEvent::Failed { reason } => if had_previous {
                (
                    Commit { stage: CommitStage::Back { error: reason }, ..c },
                    DiskAction::Move { from: c.backup, to: c.target },
                )
            } else {
                (over, DiskAction::Finish { result: Err(reason) })
            },
            _ => (over, DiskAction::Finish { result: Ok(()) }),
        },
        CommitStage::Back { error } => match event {
            DiskEvent::Failed { reason } => (
                over,
                DiskAction::Finish {
                    result: Err(error + "\n而且无法把原目录放回 "@ + c.target + ": "@ + reason),
                },
            ),
            _ => (over, DiskAction::Finish { result: Err(error) }),
        },
        CommitStage::Over => (over, DiskAction::Finish { result: Ok(()) }),
    }
}

/// Starts to put `staged` in place of `target`, keeping the previous tree at `backup`.
pub fn commit(target: &str, staged: &str, backup: &str, windows: bool) -> (r: Commit<String>)
    ensures
        r@ == (Commit {
            target: target@,
            staged: staged@,
            backup: backup@,
            windows,
            stage: CommitStage::<Seq<char>>::Start,
        }),
{
    Commit {
        target: target.to_owned(),
        staged: staged.to_owned(),
        backup: backup.to_owned(),
        windows,
        stage: CommitStage::Start,
    }
}

impl Commit<String> {
    /// The next step, after the last one went as the event says.
    pub fn next(&mut self, event: DiskEvent<String>) -> (r: DiskAction<String>)
        ensures
            (final(self)@, r@) == commit_next(old(self)@, event@),
    {
        let mut stage = CommitStage::Over;
        std::mem::swap(&mut stage, &mut self.stage);
        match stage {
            CommitStage::Start => match parent(self.target.as_str(), self.windows) {
                Some(dir) => {
                    self.stage = CommitStage::Creating { parent: dir.clone() };
                    DiskAction::CreateDir { path: dir }
                },
                None => {
                    self.stage = CommitStage::Clearing;
                    DiskAction::Remove { path: self.backup.clone() }
                },
            },
            CommitStage::Creating { parent } => match event {
                DiskEvent::Failed { reason } => create_failed(parent.as_str(), reason.as_str()),
                _ => {
                    self.stage = CommitStage::Clearing;
                    DiskAction::Remove { path: self.backup.clone() }
                },
            },
            CommitStage::Clearing => {
                self.stage = CommitStage::Looking;
                DiskAction::Inspect { path: self.target.clone() }
            },
            CommitStage::Looking => match event {
                DiskEvent::Present => {
                    self.stage = CommitStage::Aside;
                    DiskAction::Move { from: self.target.clone(), to: self.backup.clone() }
                },
                _ => {
                    self.stage = CommitStage::In { had_previous: false };
                    DiskAction::Move { from: self.staged.clone(), to: self.target.clone() }
                },
            },
            CommitStage::Aside => match event {
                DiskEvent::Failed { reason } => DiskAction::Finish { result: Err(reason) },
                _ => {
                    self.stage = CommitStage::In { had_previous: true };
                    DiskAction::Move { from: self.staged.clone(), to: self.target.clone() }
                },
            },
            CommitStage::In { had_previous } => match event {
                DiskEvent::Failed { reason } => if had_previous {
                    self.stage = CommitStage::Back { error: reason };
                    DiskAction::Move { from: self.backup.clone(), to: self.target.clone() }
                } else {
                    DiskAction::Finish { result: Err(reason) }
                },
                _ => DiskAction::Finish { result: Ok(()) },
            },
            CommitStage::Back { error } => match event {
                DiskEvent::Failed { reason } => {
                    let text = glue5(
                        error.as_str(),
                        "\n而且无法把原目录放回 ",
                        self.target.as_str(),
                        ": ",
                        reason.as_str(),
                    );
                    DiskAction::Finish { result: Err(text) }
                },
                _ => DiskAction::Finish { result: Err(error) },
            },
            CommitStage::Over => DiskAction::Finish { result: Ok(()) },
        }
    }
}

// ---------------------------------------------------------------------------------------------
// Putting the old tree back
// ---------------------------------------------------------------------------------------------

/// Where a tree that did not boot is kept.
pub open spec fn failed_place(target: Seq<char>, windows: bool) -> Seq<char> {
    match file_name_in(target, windows) {
        Some(name) => path_joined(
            match parent_path(target, windows) {
                Some(dir) => dir,
                None => Seq::empty(),
            },
            name + ".failed"@,
            windows,
        ),
        None => path_joined(target, ".failed"@, windows),
    }
}

/// Where a tree that did not boot is kept: beside its place, under its name with `.failed`.
pub fn failed_path(target: &str, windows: bool) -> (r: String)
    ensures
        r@ == failed_place(target@, windows),
{
    match file_name(target, windows) {
        Some(name) => {
            let name = glue(name.as_str(), ".failed");
            match parent(target, windows) {
                Some(dir) => path_join(dir.as_str(), name.as_str(), windows),
                None => path_join("", name.as_str(), windows),
            }
        },
        None => path_join(target, ".failed", windows),
    }
}

/// How far a rollback has come.
#[derive(Debug, Clone, PartialEq, Eq)]
pub enum RollbackStage<T> {
    Start,
    /// Is there a tree to put back?
    Backup,
    /// There is none, and never was one: is there a tree to give up?
    Discard,
    DiscardClearing,
    DiscardMoving,
    /// What an older rollback left goes.
    Clearing,
    /// Is there a tree to move aside?
    Target,
    Aside,
    In,
    /// The old tree did not move: is there one to move back?
    Undo { error: T },
    Undoing { error: T },
    Over,
}

/// A rollback: the tree at `backup` comes back to `target`, and what was there is kept beside it.
#[derive(Debug, Clone, PartialEq, Eq)]
pub struct Rollback<T> {
    pub target: T,
    pub backup: T,
    /// Was there a tree to keep when the swap was made, as far as that is known?
    pub had_previous: Option<bool>,
    /// Do the paths follow the rules of Windows?
    pub windows: bool,
    pub stage: RollbackStage<T>,
}

impl View for Rollback<String> {
    type V = Rollback<Seq<char>>;

    open spec fn view(&self) -> Rollback<Seq<char>> {
        Rollback {
            target: self.target@,
            backup: self.backup@,
            had_previous: self.had_previous,
            windows: self.windows,
            stage: match self.stage {
                RollbackStage::Start => RollbackStage::Start,
                RollbackStage::Backup => RollbackStage::Backup,
                RollbackStage::Discard => RollbackStage::Discard,
                RollbackStage::DiscardClearing => RollbackStage::DiscardClearing,
                RollbackStage::DiscardMoving => RollbackStage::DiscardMoving,
                RollbackStage::Clearing => RollbackStage::Clearing,
                RollbackStage::Target => RollbackStage::Target,
                RollbackStage::Aside => RollbackStage::Aside,
                RollbackStage::In => RollbackStage::In,
                RollbackStage::Undo { error } => RollbackStage::Undo { error: error@ },
                RollbackStage::Undoing { error } => RollbackStage::Undoing { error: error@ },
                RollbackStage::Over => RollbackStage::Over,
            },
        }
    }
}

/// The next step of a rollback.
pub open spec fn rollback_next(b: Rollback<Seq<char>>, event: DiskEvent<Seq<char>>) -> (
    Rollback<Seq<char>>,
    DiskAction<Seq<char>>,
) {
    let failed = failed_place(b.target, b.windows);
    let over = Rollback { stage: RollbackStage::Over, ..b };
    let restore = (
        Rollback { stage: RollbackStage::In, ..b },
        DiskAction::Move { from: b.backup, to: b.target },
    );
    match b.stage {
        RollbackStage::Start => (
            Rollback { stage: RollbackStage::Backup, ..b },
            DiskAction::Inspect { path: b.backup },
        ),
        RollbackStage::Backup => if event is Present {
            (
                Rollback { stage: RollbackStage::Clearing, ..b },
                DiskAction::Remove { path: failed },
            )
        } else if b.had_previous == Some(false) {
            (
                Rollback { stage: RollbackStage::Discard, ..b },
                DiskAction::Inspect { path: b.target },
            )
        } else {
            (
                over,
                DiskAction::Finish { result: Err("回滚目录 "@ + b.backup + " 不存在"@) },
            )
        },
        RollbackStage::Discard => if event is Present {
            (
                Rollback { stage: RollbackStage::DiscardClearing, ..b },
                DiskAction::Remove { path: failed },
            )
        } else {
            (over, DiskAction::Finish { result: Ok(()) })
        },
        RollbackStage::DiscardClearing => (
            Rollback { stage: RollbackStage::DiscardMoving, ..b },
            DiskAction::Move { from: b.target, to: failed },
        ),
        RollbackStage::DiscardMoving => match event {
            DiskEvent::Failed { reason } => (over, DiskAction::Finish { result: Err(reason) }),
            _ => (over, DiskAction::Finish { result: Ok(()) }),
        },
        RollbackStage::Clearing => (
            Rollback { stage: RollbackStage::Target, ..b },
            DiskAction::Inspect { path: b.target },
        ),
        RollbackStage::Target => if event is Present {
            (
                Rollback { stage: RollbackStage::Aside, ..b },
                DiskAction::Move { from: b.target, to: failed },
            )
        } else {
            restore
        },
        RollbackStage::Aside => match event {
            DiskEvent::Failed { reason } => (over, DiskAction::Finish { result: Err(reason) }),
            _ => restore,
        },
        RollbackStage::In => match event {
            DiskEvent::Failed { reason } => (
                Rollback { stage: RollbackStage::Undo { error: reason }, ..b },
                DiskAction::Inspect { path: failed },
            ),
            _ => (over, DiskAction::Finish { result: Ok(()) }),
        },
        RollbackStage::Undo { error } => if event is Present {
            (
                Rollback { stage: RollbackStage::Undoing { error }, ..b },
                DiskAction::Move { from: failed, to: b.target },
            )
        } else {
            (over, DiskAction::Finish { result: Err(error) })
        },
        RollbackStage::Undoing { error } => (over, DiskAction::Finish { result: Err(error) }),
        RollbackStage::Over => (over, DiskAction::Finish { result: Ok(()) }),
    }
}

/// A rollback that has not begun.
pub open spec fn rollback_start(
    target: Seq<char>,
    backup: Seq<char>,
    had_previous: Option<bool>,
    windows: bool,
) -> Rollback<Seq<char>> {
    Rollback { target, backup, had_previous, windows, stage: RollbackStage::Start }
}

/// Starts to put `backup` back as `target`.
pub fn rollback(target: &str, backup: &str, windows: bool) -> (r: Rollback<String>)
    ensures
        r@ == rollback_start(target@, backup@, None, windows),
{
    rollback_with(target, backup, None, windows)
}

/// Starts to put `backup` back as `target`, knowing whether there ever was a tree to keep. Where
/// there was none, the tree that did not boot is only moved away.
pub fn rollback_with(
    target: &str,
    backup: &str,
    had_previous: Option<bool>,
    windows: bool,
) -> (r: Rollback<String>)
    ensures
        r@ == rollback_start(target@, backup@, had_previous, windows),
{
    Rollback {
        target: target.to_owned(),
        backup: backup.to_owned(),
        had_previous,
        windows,
        stage: RollbackStage::Start,
    }
}

impl Rollback<String> {
    /// The next step, after the last one went as the event says.
    pub fn next(&mut self, event: DiskEvent<String>) -> (r: DiskAction<String>)
        ensures
            (final(self)@, r@) == rollback_next(old(self)@, event@),
    {
        let failed = failed_path(self.target.as_str(), self.windows);
        let present = match event {
            DiskEvent::Present => true,
            _ => false,
        };
        let mut stage = RollbackStage::Over;
        std::mem::swap(&mut stage, &mut self.stage);
        match stage {
            RollbackStage::Start => {
                self.stage = RollbackStage::Backup;
                DiskAction::Inspect { path: self.backup.clone() }
            },
            RollbackStage::Backup => if present {
                self.stage = RollbackStage::Clearing;
                DiskAction::Remove { path: failed }
            } else {
                match self.had_previous {
                    Some(false) => {
                        self.stage = RollbackStage::Discard;
                        DiskAction::Inspect { path: self.target.clone() }
                    },
                    _ => DiskAction::Finish {
                        result: Err(glue3("回滚目录 ", self.backup.as_str(), " 不存在")),
                    },
                }
            },
            RollbackStage::Discard => if present {
                self.stage = RollbackStage::DiscardClearing;
                DiskAction::Remove { path: failed }
            } else {
                DiskAction::Finish { result: Ok(()) }
            },
            RollbackStage::DiscardClearing => {
                self.stage = RollbackStage::DiscardMoving;
                DiskAction::Move { from: self.target.clone(), to: failed }
            },
            RollbackStage::DiscardMoving => match event {
                DiskEvent::Failed { reason } => DiskAction::Finish { result: Err(reason) },
                _ => DiskAction::Finish { result: Ok(()) },
            },
            RollbackStage::Clearing => {
                self.stage = RollbackStage::Target;
                DiskAction::Inspect { path: self.target.clone() }
            },
            RollbackStage::Target => if present {
                self.stage = RollbackStage::Aside;
                DiskAction::Move { from: self.target.clone(), to: failed }
            } else {
                self.stage = RollbackStage::In;
                DiskAction::Move { from: self.backup.clone(), to: self.target.clone() }
            },
            RollbackStage::Aside => match event {
                DiskEvent::Failed { reason } => DiskAction::Finish { result: Err(reason) },
                _ => {
                    self.stage = RollbackStage::In;
                    DiskAction::Move { from: self.backup.clone(), to: self.target.clone() }
                },
            },
            RollbackStage::In => match event {
                DiskEvent::Failed { reason } => {
                    self.stage = RollbackStage::Undo { error: reason };
                    DiskAction::Inspect { path: failed }
                },
                _ => DiskAction::Finish { result: Ok(()) },
            },
            RollbackStage::Undo { error } => if present {
                self.stage = RollbackStage::Undoing { error };
                DiskAction::Move { from: failed, to: self.target.clone() }
            } else {
                DiskAction::Finish { result: Err(error) }
            },
            RollbackStage::Undoing { error } => DiskAction::Finish { result: Err(error) },
            RollbackStage::Over => DiskAction::Finish { result: Ok(()) },
        }
    }
}

// ---------------------------------------------------------------------------------------------
// Building a tree aside
// ---------------------------------------------------------------------------------------------

/// A character of a label, in a directory's name.
pub open spec fn label_char(c: char) -> char {
    if crate::redaction::ascii_alphanumeric(c) || c == '.' || c == '-' {
        c
    } else {
        '-'
    }
}

/// A label that is safe as a directory's name.
pub open spec fn safe_label(label: Seq<char>) -> Seq<char> {
    label.map_values(|c: char| label_char(c))
}

/// A version that is safe as a directory's name: what is neither an ASCII letter or digit nor a
/// dot becomes a hyphen.
pub fn version_label(version: &str) -> (r: String)
    ensures
        r@ == safe_label(version@),
{
    let chars = chars_of(version);
    let mut out: Vec<char> = Vec::new();
    let mut i: usize = 0;
    while i < chars.len()
        invariant
            i <= chars@.len(),
            out@ == safe_label(chars@.take(i as int)),
        decreases chars@.len() - i,
    {
        let c = chars[i];
        let safe = (c >= '0' && c <= '9') || (c >= 'A' && c <= 'Z') || (c >= 'a' && c <= 'z') || c
            == '.' || c == '-';
        out.push(if safe {
            c
        } else {
            '-'
        });
        proof {
            assert(out@ =~= safe_label(chars@.take(i + 1)));
        }
        i += 1;
    }
    proof {
        assert(chars@.take(chars@.len() as int) =~= chars@);
    }
    string_of(&out)
}

/// A label never leads out of the directory that it names something in.
pub proof fn a_label_is_one_component(label: Seq<char>)
    ensures
        safe_label(label).len() == label.len(),
        !safe_label(label).contains('/'),
        !safe_label(label).contains('\\'),
        forall|i: int| 0 <= i < label.len() && label_char(label[i]) == label[i] ==> #[trigger]
            safe_label(label)[i] == label[i],
{
}

/// How the removal of what an older attempt left went.
#[derive(Debug, Clone, PartialEq, Eq)]
pub enum Cleared {
    Done,
    /// There was nothing to remove.
    Missing,
    Failed { reason: String },
}

/// The directory in which one tree is built. It goes when the attempt ends.
#[derive(Debug, Clone, PartialEq, Eq)]
pub struct Staging {
    pub root: String,
}

/// The directory for the attempt with a label.
pub open spec fn staging_dir(root: Seq<char>, label: Seq<char>, windows: bool) -> Seq<char> {
    path_joined(root, "staging-"@ + safe_label(label), windows)
}

impl Staging {
    /// The directory for the attempt with a label.
    pub fn dir(root: &str, label: &str, windows: bool) -> (r: String)
        ensures
            r@ == staging_dir(root@, label@, windows),
    {
        let name = glue("staging-", version_label(label).as_str());
        path_join(root, name.as_str(), windows)
    }

    /// The directory, once what was there before is gone and it was created anew. `created` is
    /// looked at only where the removal did not fail.
    pub fn create(
        root: &str,
        label: &str,
        cleared: Cleared,
        created: Result<(), String>,
        windows: bool,
    ) -> (r: Result<Staging, String>)
        ensures
            (match (cleared, created) {
                (Cleared::Failed { reason }, _) => r matches Err(text) && text@
                    == "无法清理上次的暂存目录 "@ + staging_dir(root@, label@, windows) + ": "@ + reason@,
                (_, Err(reason)) => r matches Err(text) && text@ == "无法创建暂存目录 "@ + staging_dir(
                    root@,
                    label@,
                    windows,
                ) + ": "@ + reason@,
                (_, Ok(())) => r matches Ok(staging) && staging.root@ == staging_dir(
                    root@,
                    label@,
                    windows,
                ),
            }),
    {
        let dir = Staging::dir(root, label, windows);
        match cleared {
            Cleared::Failed { reason } => {
                return Err(
                    glue4("无法清理上次的暂存目录 ", dir.as_str(), ": ", reason.as_str()),
                );
            },
            _ => {},
        }
        match created {
            Ok(()) => Ok(Staging { root: dir }),
            Err(reason) => Err(
                glue4("无法创建暂存目录 ", dir.as_str(), ": ", reason.as_str()),
            ),
        }
    }

    /// The directory itself.
    pub fn path(&self) -> (r: &str)
        ensures
            r@ == self.root@,
    {
        self.root.as_str()
    }

    /// The prefix to install into: never the live one.
    pub fn prefix(&self, windows: bool) -> (r: String)
        ensures
            r@ == path_joined(self.root@, "prefix"@, windows),
    {
        path_join(self.root.as_str(), "prefix", windows)
    }
}

/// Where a package may lie in a prefix, in the order in which the places are tried.
pub open spec fn package_places(prefix: Seq<char>, package: Seq<char>, windows: bool) -> Seq<
    Seq<char>,
> {
    seq![
        path_joined(path_joined(prefix, "lib/node_modules"@, windows), package, windows),
        path_joined(path_joined(prefix, "node_modules"@, windows), package, windows),
    ]
}

/// Where a package may lie in a prefix.
pub fn package_candidates(prefix: &str, package: &str, windows: bool) -> (r: Vec<String>)
    ensures
        texts(r@) == package_places(prefix@, package@, windows),
{
    let mut out: Vec<String> = Vec::new();
    out.push(path_join(path_join(prefix, "lib/node_modules", windows).as_str(), package, windows));
    out.push(path_join(path_join(prefix, "node_modules", windows).as_str(), package, windows));
    proof {
        assert(texts(out@) =~= package_places(prefix@, package@, windows));
    }
    out
}

/// The directory of a package in a prefix: the first place that is a directory. `there` tells of
/// each place of [`package_candidates`] whether it is one.
pub fn package_dir(prefix: &str, package: &str, there: &[bool], windows: bool) -> (r: Option<
    String,
>)
    ensures
        opt_view(r) == first_there(package_places(prefix@, package@, windows), there@),
{
    let places = package_candidates(prefix, package, windows);
    crate::paths::first_present(places.as_slice(), there)
}

/// The version in a manifest that names the package.
pub open spec fn package_version(manifest: Option<Seq<char>>, package: Seq<char>) -> Option<
    Seq<char>,
> {
    match manifest {
        Some(raw) => if json_string_member(raw, "name"@) == Some(package) {
            plugin_version(json_string_member(raw, "version"@))
        } else {
            None
        },
        None => None,
    }
}

/// The version in a manifest, and only where it names the package.
pub fn version_of_package(manifest: Option<&str>, package: &str) -> (r: Option<String>)
    ensures
        opt_view(r) == package_version(crate::runtime::str_view(manifest), package@),
{
    let raw = match manifest {
        Some(raw) => raw,
        None => {
            return None;
        },
    };
    match string_member(raw, "name") {
        Some(name) => if text_eq(name.as_str(), package) {
            plugin_version_of(string_member(raw, "version"))
        } else {
            None
        },
        None => None,
    }
}

/// A built tree that was checked.
#[derive(Debug, Clone, PartialEq, Eq)]
pub struct Verified {
    /// The directory of the package.
    pub dir: String,
    /// The script in it that starts the CLI.
    pub entry: String,
    pub version: String,
}

/// The script that starts the CLI, in the directory of its package.
pub open spec fn entry_in(dir: Seq<char>, windows: bool) -> Seq<char> {
    path_joined(path_joined(dir, "lib"@, windows), "bin.js"@, windows)
}

/// The script that starts the CLI, in the directory of its package.
pub fn entry_of(dir: &str, windows: bool) -> (r: String)
    ensures
        r@ == entry_in(dir@, windows),
{
    path_join(path_join(dir, "lib", windows).as_str(), "bin.js", windows)
}

/// What the check of a built tree gives: its directory, its script and its version, or what is
/// wrong with it.
pub open spec fn verdict(
    prefix: Seq<char>,
    package: Seq<char>,
    expected: Seq<char>,
    dir: Option<Seq<char>>,
    version: Option<Seq<char>>,
    entry_is_file: bool,
    windows: bool,
) -> Result<(Seq<char>, Seq<char>, Seq<char>), Seq<char>> {
    match (dir, version) {
        (None, _) => Err("暂存目录里没有 "@ + package + "（"@ + prefix + "）"@),
        (Some(_), None) => Err(
            "暂存目录的 "@ + package + " 没有可读的 package.json 或名字不符"@,
        ),
        (Some(dir), Some(version)) => if !entry_is_file {
            Err("暂存目录的 "@ + package + " 缺入口脚本 "@ + entry_in(dir, windows))
        } else if version != expected {
            Err("暂存目录装的是 "@ + version + "，不是请求的 "@ + expected)
        } else {
            Ok((dir, entry_in(dir, windows), version))
        },
    }
}

pub open spec fn verified_view(r: Result<Verified, String>) -> Result<
    (Seq<char>, Seq<char>, Seq<char>),
    Seq<char>,
> {
    match r {
        Ok(v) => Ok((v.dir@, v.entry@, v.version@)),
        Err(reason) => Err(reason@),
    }
}

/// Checks that a prefix really holds the package in the version that was asked for, and names
/// what is missing. `manifest` is the package's manifest, `entry_is_file` tells of its script.
pub fn verify_install(
    prefix: &str,
    package: &str,
    expected: &str,
    there: &[bool],
    manifest: Option<&str>,
    entry_is_file: bool,
    windows: bool,
) -> (r: Result<Verified, String>)
    ensures
        verified_view(r) == verdict(
            prefix@,
            package@,
            expected@,
            first_there(package_places(prefix@, package@, windows), there@),
            package_version(crate::runtime::str_view(manifest), package@),
            entry_is_file,
            windows,
        ),
{
    let dir = match package_dir(prefix, package, there, windows) {
        Some(dir) => dir,
        None => {
            return Err(glue5("暂存目录里没有 ", package, "（", prefix, "）"));
        },
    };
    let version = match version_of_package(manifest, package) {
        Some(version) => version,
        None => {
            return Err(
                glue3("暂存目录的 ", package, " 没有可读的 package.json 或名字不符"),
            );
        },
    };
    let entry = entry_of(dir.as_str(), windows);
    if !entry_is_file {
        return Err(glue4("暂存目录的 ", package, " 缺入口脚本 ", entry.as_str()));
    }
    if !text_eq(version.as_str(), expected) {
        return Err(
            glue4("暂存目录装的是 ", version.as_str(), "，不是请求的 ", expected),
        );
    }
    Ok(Verified { dir, entry, version })
}

/// Only a tree of the package, in the version that was asked for and with its script, passes.
pub proof fn only_what_was_asked_for_passes(
    prefix: Seq<char>,
    package: Seq<char>,
    expected: Seq<char>,
    dir: Option<Seq<char>>,
    manifest: Option<Seq<char>>,
    entry_is_file: bool,
    windows: bool,
)
    ensures
        verdict(
            prefix,
            package,
            expected,
            dir,
            package_version(manifest, package),
            entry_is_file,
            windows,
        ) is Ok <==> {
            &&& dir is Some
            &&& manifest is Some
            &&& json_string_member(manifest->0, "name"@) == Some(package)
            &&& plugin_version(json_string_member(manifest->0, "version"@)) == Some(expected)
            &&& entry_is_file
        },
{
}

/// The record of a swap whose tree has not booted yet. It is written before the live tree is
/// touched, and removed once the CLI is up.
#[derive(Debug, Clone, PartialEq, Eq)]
pub struct SwapRecord {
    /// The live place.
    pub target: String,
    /// Where the old tree went.
    pub backup: String,
    pub version: String,
    pub at: u64,
    /// Was there an old tree? Unknown in old records.
    pub had_previous: Option<bool>,
}

/// Starts to undo the swap that a record tells of.
pub fn roll_back(record: &SwapRecord, windows: bool) -> (r: Rollback<String>)
    ensures
        r@ == rollback_start(record.target@, record.backup@, record.had_previous, windows),
{
    rollback_with(record.target.as_str(), record.backup.as_str(), record.had_previous, windows)
}

/// What a record that could not be written is reported as.
pub fn write_swap(
    path: &str,
    created: Result<(), String>,
    written: Result<(), String>,
    windows: bool,
) -> (r: Result<(), String>)
    ensures
        result_view(r) == (match (parent_path(path@, windows), created, written) {
            (Some(dir), Err(reason), _) => Err(create_error(dir, reason@)),
            (_, _, Err(reason)) => Err("无法写入 "@ + path@ + ": "@ + reason@),
            (_, _, Ok(())) => Ok(()),
        }),
{
    match (parent(path, windows), created) {
        (Some(dir), Err(reason)) => {
            return Err(glue4("无法创建 ", dir.as_str(), ": ", reason.as_str()));
        },
        _ => {},
    }
    match written {
        Ok(()) => Ok(()),
        Err(reason) => Err(glue4("无法写入 ", path, ": ", reason.as_str())),
    }
}

// ---------------------------------------------------------------------------------------------
// What the steps do to the trees
// ---------------------------------------------------------------------------------------------

/// How a step fares.
pub enum Luck {
    Works,
    /// It fails and has changed nothing.
    Clean,
    /// It fails half-way: what it was writing is there in part.
    Partial { junk: int },
    /// A move that copied the whole tree and could not remove all of the old one.
    Copied { junk: int },
}

/// How a step fares, and the reason that is given where it fails.
pub struct Fate {
    pub luck: Luck,
    pub reason: Seq<char>,
}

/// What a step does to the trees, by their places, and how it went. A rename finds its source
/// there and its destination free, or fails.
pub open spec fn perform(
    trees: Map<Seq<char>, int>,
    action: DiskAction<Seq<char>>,
    fate: Fate,
) -> (Map<Seq<char>, int>, DiskEvent<Seq<char>>) {
    let failed = DiskEvent::Failed { reason: fate.reason };
    match action {
        DiskAction::CreateDir { .. } => (
            trees,
            if fate.luck is Works {
                DiskEvent::Done
            } else {
                failed
            },
        ),
        DiskAction::Remove { path } => match fate.luck {
            Luck::Works => (trees.remove(path), DiskEvent::Done),
            Luck::Partial { junk } => (trees.insert(path, junk), failed),
            _ => (trees, failed),
        },
        DiskAction::Inspect { path } => (
            trees,
            if trees.dom().contains(path) {
                DiskEvent::Present
            } else {
                DiskEvent::Absent
            },
        ),
        DiskAction::Rename { from, to } => if fate.luck is Works && trees.dom().contains(from)
            && !trees.dom().contains(to) {
            (trees.remove(from).insert(to, trees[from]), DiskEvent::Done)
        } else {
            (trees, failed)
        },
        DiskAction::Copy { from, to } => if !trees.dom().contains(from) {
            (trees, failed)
        } else {
            match fate.luck {
                Luck::Works => (trees.insert(to, trees[from]), DiskEvent::Done),
                Luck::Partial { junk } => (trees.insert(to, junk), failed),
                _ => (trees, failed),
            }
        },
        DiskAction::Move { from, to } => if !trees.dom().contains(from) || trees.dom().contains(
            to,
        ) {
            (trees, failed)
        } else {
            match fate.luck {
                Luck::Works => (trees.remove(from).insert(to, trees[from]), DiskEvent::Done),
                Luck::Clean => (trees, failed),
                Luck::Partial { junk } => (trees.insert(to, junk), failed),
                Luck::Copied { junk } => (
                    trees.insert(to, trees[from]).insert(from, junk),
                    failed,
                ),
            }
        },
        DiskAction::Finish { .. } => (trees, DiskEvent::Done),
    }
}

/// Does the step happen, or change nothing?
pub open spec fn all_or_nothing(fate: Fate) -> bool {
    fate.luck is Works || fate.luck is Clean
}

/// The whole of a move, of at most `steps` steps: what it does to the trees, and its result.
/// `fates[n]` is how the step fares behind which `n` more may follow.
pub open spec fn run_move(
    m: MovePath<Seq<char>>,
    event: DiskEvent<Seq<char>>,
    trees: Map<Seq<char>, int>,
    fates: Seq<Fate>,
    steps: nat,
) -> (Map<Seq<char>, int>, Option<Result<(), Seq<char>>>)
    decreases steps,
{
    let (after, action) = move_next(m, event);
    match action {
        DiskAction::Finish { result } => (trees, Some(result)),
        _ => if steps == 0 {
            (trees, None)
        } else {
            let (trees, event) = perform(trees, action, fates[steps - 1]);
            run_move(after, event, trees, fates, (steps - 1) as nat)
        },
    }
}

/// The whole of a swap, of at most `steps` steps: what it does to the trees, and its result.
pub open spec fn run_commit(
    c: Commit<Seq<char>>,
    event: DiskEvent<Seq<char>>,
    trees: Map<Seq<char>, int>,
    fates: Seq<Fate>,
    steps: nat,
) -> (Map<Seq<char>, int>, Option<Result<(), Seq<char>>>)
    decreases steps,
{
    let (after, action) = commit_next(c, event);
    match action {
        DiskAction::Finish { result } => (trees, Some(result)),
        _ => if steps == 0 {
            (trees, None)
        } else {
            let (trees, event) = perform(trees, action, fates[steps - 1]);
            run_commit(after, event, trees, fates, (steps - 1) as nat)
        },
    }
}

/// The whole of a rollback, of at most `steps` steps: what it does to the trees, and its result.
pub open spec fn run_rollback(
    b: Rollback<Seq<char>>,
    event: DiskEvent<Seq<char>>,
    trees: Map<Seq<char>, int>,
    fates: Seq<Fate>,
    steps: nat,
) -> (Map<Seq<char>, int>, Option<Result<(), Seq<char>>>)
    decreases steps,
{
    let (after, action) = rollback_next(b, event);
    match action {
        DiskAction::Finish { result } => (trees, Some(result)),
        _ => if steps == 0 {
            (trees, None)
        } else {
            let (trees, event) = perform(trees, action, fates[steps - 1]);
            run_rollback(after, event, trees, fates, (steps - 1) as nat)
        },
    }
}

/// Is this tree, whole, at the place?
pub open spec fn at(trees: Map<Seq<char>, int>, place: Seq<char>, tree: int) -> bool {
    trees.dom().contains(place) && trees[place] == tree
}

/// A move to a free place ends after at most four steps. Where it succeeds, the tree is at its
/// new place and no longer at the old one; where it fails, the tree is still whole at one of the
/// two. No other tree changes.
pub proof fn a_move_loses_nothing(
    from: Seq<char>,
    to: Seq<char>,
    trees: Map<Seq<char>, int>,
    fates: Seq<Fate>,
    windows: bool,
)
    requires
        from != to,
        trees.dom().contains(from),
        !trees.dom().contains(to),
    ensures
        ({
            let start = MovePath { from, to, windows, stage: MoveStage::Start };
            let (after, result) = run_move(start, DiskEvent::Started, trees, fates, 4);
            &&& result is Some
            &&& result == Some(Ok::<(), Seq<char>>(())) ==> at(after, to, trees[from])
                && !after.dom().contains(from)
            &&& at(after, from, trees[from]) || at(after, to, trees[from])
            &&& forall|place: Seq<char>| #[trigger]
                after.dom().contains(place) == trees.dom().contains(place) || place == from
                    || place == to
            &&& forall|place: Seq<char>|
                trees.dom().contains(place) && place != from && place != to ==> #[trigger] at(
                    after,
                    place,
                    trees[place],
                )
        }),
{
    reveal_with_fuel(run_move, 6);
}

/// One for a path with no directory above it, whose creation would be the first step.
pub open spec fn rootless(target: Seq<char>, windows: bool) -> int {
    if parent_path(target, windows) is Some {
        0
    } else {
        1
    }
}

/// A swap ends after at most six steps. Where it succeeds, the new tree is live and the old one,
/// if there was one, is kept; where it fails, the old tree is still whole, at its place or at
/// that of the kept one.
///
/// That takes two things of the disk: what an older swap left at the place of the kept tree can
/// be removed, and the move of the new tree happens or changes nothing, as what it left behind
/// would be in the way of the old tree.
pub proof fn a_swap_never_loses_the_old_tree(
    target: Seq<char>,
    staged: Seq<char>,
    backup: Seq<char>,
    trees: Map<Seq<char>, int>,
    fates: Seq<Fate>,
    windows: bool,
)
    requires
        target != staged,
        target != backup,
        staged != backup,
        trees.dom().contains(staged),
        fates[4 + rootless(target, windows)].luck is Works,
        all_or_nothing(fates[1 + rootless(target, windows)]),
    ensures
        ({
            let start = Commit { target, staged, backup, windows, stage: CommitStage::Start };
            let (after, result) = run_commit(start, DiskEvent::Started, trees, fates, 6);
            let had = trees.dom().contains(target);
            &&& result is Some
            &&& result == Some(Ok::<(), Seq<char>>(())) ==> {
                &&& at(after, target, trees[staged])
                &&& !after.dom().contains(staged)
                &&& had ==> at(after, backup, trees[target])
                &&& !had ==> !after.dom().contains(backup)
            }
            &&& result != Some(Ok::<(), Seq<char>>(())) && had ==> at(
                after,
                target,
                trees[target],
            ) || at(after, backup, trees[target])
        }),
{
    reveal_with_fuel(run_commit, 8);
}

/// A swap whose moves happen or change nothing, and whose old tree can be put back, either
/// succeeds or leaves the live tree as it was, be there a new tree or not.
pub proof fn a_failed_swap_leaves_the_live_tree(
    target: Seq<char>,
    staged: Seq<char>,
    backup: Seq<char>,
    trees: Map<Seq<char>, int>,
    fates: Seq<Fate>,
    windows: bool,
)
    requires
        target != staged,
        target != backup,
        staged != backup,
        fates[4 + rootless(target, windows)].luck is Works,
        all_or_nothing(fates[2 + rootless(target, windows)]),
        all_or_nothing(fates[1 + rootless(target, windows)]),
        fates[rootless(target, windows)].luck is Works,
    ensures
        ({
            let start = Commit { target, staged, backup, windows, stage: CommitStage::Start };
            let (after, result) = run_commit(start, DiskEvent::Started, trees, fates, 6);
            &&& result is Some
            &&& result != Some(Ok::<(), Seq<char>>(())) ==> {
                &&& after.dom().contains(target) == trees.dom().contains(target)
                &&& trees.dom().contains(target) ==> at(after, target, trees[target])
            }
        }),
{
    reveal_with_fuel(run_commit, 8);
}

/// A rollback without a tree to put back changes nothing, unless it is known that there never
/// was one; and it fails.
pub proof fn an_unknown_history_deletes_nothing(
    target: Seq<char>,
    backup: Seq<char>,
    had_previous: Option<bool>,
    trees: Map<Seq<char>, int>,
    fates: Seq<Fate>,
    windows: bool,
)
    requires
        !trees.dom().contains(backup),
        had_previous != Some(false),
    ensures
        ({
            let start = rollback_start(target, backup, had_previous, windows);
            let (after, result) = run_rollback(start, DiskEvent::Started, trees, fates, 6);
            after == trees && result == Some(
                Err::<(), Seq<char>>("回滚目录 "@ + backup + " 不存在"@),
            )
        }),
{
    reveal_with_fuel(run_rollback, 8);
}

/// A rollback with a tree to put back ends after at most seven steps. Where it succeeds, that
/// tree is live and the one that did not boot is kept beside it; where it fails, neither tree is
/// lost.
///
/// That takes two things of the disk: what an older rollback left can be removed, and the move
/// of the old tree happens or changes nothing.
pub proof fn a_rollback_restores_the_old_tree(
    target: Seq<char>,
    backup: Seq<char>,
    had_previous: Option<bool>,
    trees: Map<Seq<char>, int>,
    fates: Seq<Fate>,
    windows: bool,
)
    requires
        target != backup,
        target != failed_place(target, windows),
        backup != failed_place(target, windows),
        trees.dom().contains(backup),
        fates[5].luck is Works,
        all_or_nothing(
            fates[if trees.dom().contains(target) {
                2
            } else {
                3
            }],
        ),
    ensures
        ({
            let start = rollback_start(target, backup, had_previous, windows);
            let (after, result) = run_rollback(start, DiskEvent::Started, trees, fates, 7);
            let failed = failed_place(target, windows);
            &&& result is Some
            &&& result == Some(Ok::<(), Seq<char>>(())) ==> {
                &&& at(after, target, trees[backup])
                &&& trees.dom().contains(target) ==> at(after, failed, trees[target])
            }
            &&& at(after, target, trees[backup]) || at(after, backup, trees[backup])
            &&& trees.dom().contains(target) ==> at(after, target, trees[target]) || at(
                after,
                failed,
                trees[target],
            )
        }),
{
    reveal_with_fuel(run_rollback, 9);
}

/// A rollback undoes a swap: after both succeed, the place holds what it held before, and the
/// tree that was swapped in is kept beside it. That holds with and without a tree to keep.
pub proof fn a_rollback_undoes_a_swap(
    target: Seq<char>,
    staged: Seq<char>,
    backup: Seq<char>,
    trees: Map<Seq<char>, int>,
    swapping: Seq<Fate>,
    rolling: Seq<Fate>,
    windows: bool,
)
    requires
        target != staged,
        target != backup,
        staged != backup,
        target != failed_place(target, windows),
        backup != failed_place(target, windows),
        staged != failed_place(target, windows),
        trees.dom().contains(staged),
        swapping[4 + rootless(target, windows)].luck is Works,
        all_or_nothing(swapping[1 + rootless(target, windows)]),
        rolling[5].luck is Works,
        rolling[4].luck is Works,
        all_or_nothing(rolling[2]),
    ensures
        ({
            let had = trees.dom().contains(target);
            let swap = Commit { target, staged, backup, windows, stage: CommitStage::Start };
            let (swapped, done) = run_commit(swap, DiskEvent::Started, trees, swapping, 6);
            let back = Rollback {
                target,
                backup,
                had_previous: Some(had),
                windows,
                stage: RollbackStage::Start,
            };
            let (after, undone) = run_rollback(back, DiskEvent::Started, swapped, rolling, 7);
            done == Some(Ok::<(), Seq<char>>(())) && undone == Some(Ok::<(), Seq<char>>(())) ==> {
                &&& after.dom().contains(target) == had
                &&& had ==> at(after, target, trees[target])
                &&& at(after, failed_place(target, windows), trees[staged])
            }
        }),
{
    a_swap_never_loses_the_old_tree(target, staged, backup, trees, swapping, windows);
    let had = trees.dom().contains(target);
    let swap = Commit { target, staged, backup, windows, stage: CommitStage::Start };
    let (swapped, done) = run_commit(swap, DiskEvent::Started, trees, swapping, 6);
    if done == Some(Ok::<(), Seq<char>>(())) {
        if had {
            a_rollback_restores_the_old_tree(target, backup, Some(had), swapped, rolling, windows);
        } else {
            reveal_with_fuel(run_rollback, 9);
        }
    }
}

/// A label keeps its letters, its digits, its dots and its hyphens, and has a hyphen for every
/// other character.
pub proof fn what_a_label_keeps(label: Seq<char>, i: int)
    requires
        0 <= i < label.len(),
    ensures
        safe_label(label)[i] == (if ('a' <= label[i] <= 'z') || ('A' <= label[i] <= 'Z') || ('0'
            <= label[i] <= '9') || label[i] == '.' || label[i] == '-' {
            label[i]
        } else {
            '-'
        }),
{
}

/// Where a package lies in a prefix, where its script is, and where a tree is built aside.
pub proof fn where_a_package_lies(prefix: Seq<char>, package: Seq<char>, label: Seq<char>)
    requires
        prefix.len() > 0 && prefix.last() != '/',
        package.len() > 0 && package[0] != '/',
    ensures
        package_places(prefix, package, false) == seq![
            prefix + "/lib/node_modules/"@ + package,
            prefix + "/node_modules/"@ + package,
        ],
        entry_in(prefix, false) == prefix + "/lib/bin.js"@,
        staging_dir(prefix, label, false) == prefix + "/staging-"@ + safe_label(label),
{
    reveal_strlit("lib/node_modules");
    reveal_strlit("/lib/node_modules/");
    reveal_strlit("node_modules");
    reveal_strlit("/node_modules/");
    reveal_strlit("lib");
    reveal_strlit("bin.js");
    reveal_strlit("/lib/bin.js");
    reveal_strlit("staging-");
    reveal_strlit("/staging-");
    crate::paths::a_name_is_joined_with_a_slash(prefix, "lib/node_modules"@);
    let a = prefix + seq!['/'] + "lib/node_modules"@;
    assert(a.last() == 's');
    crate::paths::a_name_is_joined_with_a_slash(a, package);
    assert(a + seq!['/'] + package =~= prefix + "/lib/node_modules/"@ + package);
    crate::paths::a_name_is_joined_with_a_slash(prefix, "node_modules"@);
    let b = prefix + seq!['/'] + "node_modules"@;
    assert(b.last() == 's');
    crate::paths::a_name_is_joined_with_a_slash(b, package);
    assert(b + seq!['/'] + package =~= prefix + "/node_modules/"@ + package);
    assert(package_places(prefix, package, false) =~= seq![
        prefix + "/lib/node_modules/"@ + package,
        prefix + "/node_modules/"@ + package,
    ]);
    crate::paths::a_name_is_joined_with_a_slash(prefix, "lib"@);
    let c = prefix + seq!['/'] + "lib"@;
    assert(c.last() == 'b');
    crate::paths::a_name_is_joined_with_a_slash(c, "bin.js"@);
    assert(c + seq!['/'] + "bin.js"@ =~= prefix + "/lib/bin.js"@);
    let d = "staging-"@ + safe_label(label);
    assert(d[0] == 's');
    crate::paths::a_name_is_joined_with_a_slash(prefix, d);
    assert(prefix + seq!['/'] + d =~= prefix + "/staging-"@ + safe_label(label));
}

/// A move that can be made is made: by a rename, and where that does not work by a copy, after
/// which the old place is cleared.
pub proof fn a_move_that_can_be_made_is_made(
    from: Seq<char>,
    to: Seq<char>,
    trees: Map<Seq<char>, int>,
    fates: Seq<Fate>,
    windows: bool,
)
    requires
        from != to,
        trees.dom().contains(from),
        !trees.dom().contains(to),
        forall|i: int| 0 <= i < 4 && i != 2 ==> (#[trigger] fates[i]).luck is Works,
        parent_path(to, windows) is None ==> fates[2].luck is Works,
    ensures
        ({
            let start = MovePath { from, to, windows, stage: MoveStage::Start };
            let (after, result) = run_move(start, DiskEvent::Started, trees, fates, 4);
            &&& result == Some(Ok::<(), Seq<char>>(()))
            &&& after == trees.remove(from).insert(to, trees[from])
        }),
{
    reveal_with_fuel(run_move, 6);
    let start = MovePath { from, to, windows, stage: MoveStage::Start };
    let (after, result) = run_move(start, DiskEvent::Started, trees, fates, 4);
    assert(fates[3].luck is Works && fates[1].luck is Works && fates[0].luck is Works);
    assert(after =~= trees.remove(from).insert(to, trees[from]));
}

/// A swap whose steps work is made: the new tree is live, and the one that was there is kept.
pub proof fn a_swap_that_can_be_made_is_made(
    target: Seq<char>,
    staged: Seq<char>,
    backup: Seq<char>,
    trees: Map<Seq<char>, int>,
    fates: Seq<Fate>,
    windows: bool,
)
    requires
        target != staged,
        target != backup,
        staged != backup,
        trees.dom().contains(staged),
        forall|i: int| 0 <= i < 6 ==> (#[trigger] fates[i]).luck is Works,
    ensures
        ({
            let start = Commit { target, staged, backup, windows, stage: CommitStage::Start };
            let (after, result) = run_commit(start, DiskEvent::Started, trees, fates, 6);
            &&& result == Some(Ok::<(), Seq<char>>(()))
            &&& at(after, target, trees[staged])
            &&& trees.dom().contains(target) ==> at(after, backup, trees[target])
        }),
{
    reveal_with_fuel(run_commit, 8);
    assert(fates[5].luck is Works && fates[4].luck is Works && fates[3].luck is Works);
    assert(fates[2].luck is Works && fates[1].luck is Works && fates[0].luck is Works);
}

/// A rollback whose steps work is made: the kept tree is live again. Where there never was one,
/// the place is free again. The tree that did not boot is kept beside it.
pub proof fn a_rollback_that_can_be_made_is_made(
    target: Seq<char>,
    backup: Seq<char>,
    had_previous: Option<bool>,
    trees: Map<Seq<char>, int>,
    fates: Seq<Fate>,
    windows: bool,
)
    requires
        target != backup,
        target != failed_place(target, windows),
        backup != failed_place(target, windows),
        trees.dom().contains(target),
        trees.dom().contains(backup) || had_previous == Some(false),
        forall|i: int| 0 <= i < 7 ==> (#[trigger] fates[i]).luck is Works,
    ensures
        ({
            let start = rollback_start(target, backup, had_previous, windows);
            let (after, result) = run_rollback(start, DiskEvent::Started, trees, fates, 7);
            &&& result == Some(Ok::<(), Seq<char>>(()))
            &&& trees.dom().contains(backup) ==> at(after, target, trees[backup])
            &&& !trees.dom().contains(backup) ==> !after.dom().contains(target)
            &&& at(after, failed_place(target, windows), trees[target])
        }),
{
    reveal_with_fuel(run_rollback, 9);
    assert(fates[6].luck is Works && fates[5].luck is Works && fates[4].luck is Works);
    assert(fates[3].luck is Works && fates[2].luck is Works && fates[1].luck is Works);
}

/// A tree that did not boot is kept beside its place, under its name with `.failed` behind it.
pub proof fn where_a_failed_tree_is_kept(dir: Seq<char>, name: Seq<char>)
    requires
        dir.len() > 0 && dir.last() != '/',
        dir.len() == 1 || !(dir.last() == '.' && dir[dir.len() - 2] == '/'),
        crate::paths::is_plain_name(name),
    ensures
        failed_place(dir + seq!['/'] + name, false) == dir + seq!['/'] + name + ".failed"@,
{
    reveal_strlit(".failed");
    assert forall|i: int| 0 <= i < name.len() implies name[i] != '/' by {
        assert(!crate::paths::is_sep(name[i]));
    }
    crate::paths::a_path_is_its_directory_and_its_name(dir, name);
    let kept = name + ".failed"@;
    assert(kept[0] == name[0]);
    crate::paths::a_name_is_joined_with_a_slash(dir, kept);
    assert(dir + seq!['/'] + kept =~= dir + seq!['/'] + name + ".failed"@);
}

/// The entry of a package lies in its `lib`.
pub proof fn where_an_entry_lies(dir: Seq<char>)
    requires
        dir.len() > 0 && dir.last() != '/',
    ensures
        entry_in(dir, false) == dir + "/lib/bin.js"@,
{
    reveal_strlit("lib");
    reveal_strlit("bin.js");
    reveal_strlit("/lib/bin.js");
    crate::paths::a_name_is_joined_with_a_slash(dir, "lib"@);
    let lib = dir + seq!['/'] + "lib"@;
    assert(lib.last() == 'b');
    crate::paths::a_name_is_joined_with_a_slash(lib, "bin.js"@);
    assert(lib + seq!['/'] + "bin.js"@ =~= dir + "/lib/bin.js"@);
}

} // verus!

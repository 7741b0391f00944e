//! Copying a profile aside and putting it back, without what the running Harness keeps writing.
use vstd::prelude::*;

use crate::paths::{parent, path_join};
#[allow(unused_imports)]
use crate::paths::{parent_path, path_joined};
use crate::text::{glue4, lists};
#[allow(unused_imports)]
use crate::text::texts;
#[allow(unused_imports)]
use crate::transaction::result_view;

verus! {

/// The entries of a profile that belong to the running Harness: credentials and sessions, and
/// the market's own log.
pub open spec fn live_entries() -> Seq<Seq<char>> {
    seq!["data"@, ".dsh-market"@]
}

/// The entries of a profile that belong to the running Harness.
pub fn profile_live_entries() -> (r: Vec<String>)
    ensures
        texts(r@) == live_entries(),
{
    let mut out: Vec<String> = Vec::new();
    out.push("data".to_owned());
    out.push(".dsh-market".to_owned());
    proof {
        assert(texts(out@) =~= live_entries());
    }
    out
}

/// The names that are not to be skipped.
pub open spec fn without(names: Seq<Seq<char>>, skip: Seq<Seq<char>>) -> Seq<Seq<char>> {
    names.filter(|name: Seq<char>| !skip.contains(name))
}

/// The entries that a snapshot copies: all but the skipped ones, in the order listed.
pub fn snapshot_names(names: &[String], skip: &[String]) -> (r: Vec<String>)
    ensures
        texts(r@) == without(texts(names@), texts(skip@)),
{
    let ghost all = texts(names@);
    let ghost left_out = texts(skip@);
    let mut out: Vec<String> = Vec::new();
    let mut i: usize = 0;
    proof {
        assert(texts(out@) =~= Seq::<Seq<char>>::empty());
        assert(all.take(0) =~= Seq::<Seq<char>>::empty());
        reveal(Seq::filter);
    }
    while i < names.len()
        invariant
            i <= names@.len(),
            all == texts(names@),
            left_out == texts(skip@),
            texts(out@) == without(all.take(i as int), left_out),
        decreases names@.len() - i,
    {
        proof {
            reveal(Seq::filter);
            let next = all.take(i + 1);
            assert(next.drop_last() =~= all.take(i as int));
            assert(next.last() == all[i as int]);
        }
        if !lists(skip, names[i].as_str()) {
            let ghost before = texts(out@);
            out.push(names[i].clone());
            proof {
                assert(texts(out@) =~= before.push(all[i as int]));
            }
        }
        i += 1;
    }
    proof {
        assert(all.take(all.len() as int) =~= all);
    }
    out
}

/// The entries that a restore removes: those that the snapshot holds and that are not skipped.
pub open spec fn replaced(
    live: Seq<Seq<char>>,
    kept: Seq<Seq<char>>,
    skip: Seq<Seq<char>>,
) -> Seq<Seq<char>> {
    live.filter(|name: Seq<char>| !skip.contains(name) && kept.contains(name))
}

/// The entries that a restore removes before it copies the snapshot's back.
pub fn replaced_names(live: &[String], kept: &[String], skip: &[String]) -> (r: Vec<String>)
    ensures
        texts(r@) == replaced(texts(live@), texts(kept@), texts(skip@)),
{
    let ghost all = texts(live@);
    let ghost held = texts(kept@);
    let ghost left_out = texts(skip@);
    let mut out: Vec<String> = Vec::new();
    let mut i: usize = 0;
    proof {
        assert(texts(out@) =~= Seq::<Seq<char>>::empty());
        assert(all.take(0) =~= Seq::<Seq<char>>::empty());
        reveal(Seq::filter);
    }
    while i < live.len()
        invariant
            i <= live@.len(),
            all == texts(live@),
            held == texts(kept@),
            left_out == texts(skip@),
            texts(out@) == replaced(all.take(i as int), held, left_out),
        decreases live@.len() - i,
    {
        proof {
            reveal(Seq::filter);
            let next = all.take(i + 1);
            assert(next.drop_last() =~= all.take(i as int));
            assert(next.last() == all[i as int]);
        }
        if !lists(skip, live[i].as_str()) && lists(kept, live[i].as_str()) {
            let ghost before = texts(out@);
            out.push(live[i].clone());
            proof {
                assert(texts(out@) =~= before.push(all[i as int]));
            }
        }
        i += 1;
    }
    proof {
        assert(all.take(all.len() as int) =~= all);
    }
    out
}

/// How an entry is removed: a link alone, without what it points at.
#[derive(Debug, Clone, Copy, PartialEq, Eq, Structural)]
pub enum Removal {
    Tree,
    File,
}

/// How an entry is removed.
pub fn removal(is_link: bool, is_dir: bool) -> (r: Removal)
    ensures
        r == (if !is_link && is_dir {
            Removal::Tree
        } else {
            Removal::File
        }),
{
    if !is_link && is_dir {
        Removal::Tree
    } else {
        Removal::File
    }
}

/// How an entry is copied.
#[derive(Debug, Clone, PartialEq, Eq)]
pub enum EntryCopy {
    /// As a link to the same target. `resolved` is that target, seen from the link's directory.
    Link { target: String, resolved: String },
    Tree,
    File,
}

/// How an entry is copied: a link, with its target, stays a link.
pub fn copy_entry(from: &str, link: Option<&str>, is_dir: bool, windows: bool) -> (r: EntryCopy)
    ensures
        (match link {
            Some(pointed) => r matches EntryCopy::Link { target, resolved } && target@ == pointed@
                && resolved@ == path_joined(
                match parent_path(from@, windows) {
                    Some(dir) => dir,
                    None => Seq::empty(),
                },
                pointed@,
                windows,
            ),
            None => if is_dir {
                r is Tree
            } else {
                r is File
            },
        }),
{
    proof {
        reveal_strlit("");
        assert(""@ =~= Seq::<char>::empty());
    }
    match link {
        Some(pointed) => {
            let resolved = match parent(from, windows) {
                Some(dir) => path_join(dir.as_str(), pointed, windows),
                None => path_join("", pointed, windows),
            };
            EntryCopy::Link { target: pointed.to_owned(), resolved }
        },
        None => if is_dir {
            EntryCopy::Tree
        } else {
            EntryCopy::File
        },
    }
}

/// The entries of a directory after those named were copied from another.
pub open spec fn copied(
    into: Map<Seq<char>, int>,
    from: Map<Seq<char>, int>,
    names: Seq<Seq<char>>,
) -> Map<Seq<char>, int> {
    Map::new(
        |name: Seq<char>| into.dom().contains(name) || names.contains(name),
        |name: Seq<char>|
            if names.contains(name) {
                from[name]
            } else {
                into[name]
            },
    )
}

/// The entries of a directory after those named were removed.
pub open spec fn removed(dir: Map<Seq<char>, int>, names: Seq<Seq<char>>) -> Map<Seq<char>, int> {
    Map::new(
        |name: Seq<char>| dir.dom().contains(name) && !names.contains(name),
        |name: Seq<char>| dir[name],
    )
}

/// A restore gives back every entry as the snapshot found it, and leaves the skipped entries as
/// they are now, whatever happened to either in between.
pub proof fn a_restore_undoes_an_install(
    before: Map<Seq<char>, int>,
    listed_before: Seq<Seq<char>>,
    now: Map<Seq<char>, int>,
    listed_now: Seq<Seq<char>>,
    skip: Seq<Seq<char>>,
    name: Seq<char>,
)
    requires
        forall|n: Seq<char>| #[trigger] before.dom().contains(n) == listed_before.contains(n),
        forall|n: Seq<char>| #[trigger] now.dom().contains(n) == listed_now.contains(n),
    ensures
        ({
            let taken = without(listed_before, skip);
            let kept = copied(Map::empty(), before, taken);
            let gone = replaced(listed_now, taken, skip);
            let after = copied(removed(now, gone), kept, taken);
            &&& before.dom().contains(name) && !skip.contains(name) ==> after.dom().contains(name)
                && after[name] == before[name]
            &&& skip.contains(name) ==> after.dom().contains(name) == now.dom().contains(name)
            &&& skip.contains(name) && now.dom().contains(name) ==> after[name] == now[name]
            &&& !skip.contains(name) && !before.dom().contains(name) ==> after.dom().contains(name)
                == now.dom().contains(name)
        }),
{
    let taken = without(listed_before, skip);
    let kept = copied(Map::empty(), before, taken);
    let gone = replaced(listed_now, taken, skip);
    let after = copied(removed(now, gone), kept, taken);
    lemma_without(listed_before, skip, name);
    lemma_replaced(listed_now, taken, skip, name);
    if before.dom().contains(name) && !skip.contains(name) {
        assert(taken.contains(name));
        assert(kept[name] == before[name]);
    }
    if skip.contains(name) {
        assert(!taken.contains(name));
        assert(!gone.contains(name));
    }
}

proof fn lemma_filtered(
    names: Seq<Seq<char>>,
    wanted: spec_fn(Seq<char>) -> bool,
    name: Seq<char>,
)
    ensures
        names.filter(wanted).contains(name) == (names.contains(name) && wanted(name)),
    decreases names.len(),
{
    reveal(Seq::filter);
    if names.len() > 0 {
        let rest = names.drop_last();
        lemma_filtered(rest, wanted, name);
        let out = names.filter(wanted);
        let before = rest.filter(wanted);
        assert(names =~= rest.push(names.last()));
        if names.contains(name) {
            let i = choose|i: int| 0 <= i < names.len() && names[i] == name;
            if i < rest.len() {
                assert(rest[i] == name);
            }
        }
        if rest.contains(name) {
            let i = choose|i: int| 0 <= i < rest.len() && rest[i] == name;
            assert(names[i] == name);
        }
        if before.contains(name) {
            let i = choose|i: int| 0 <= i < before.len() && before[i] == name;
            assert(out[i] == name);
        }
        if out.contains(name) {
            let i = choose|i: int| 0 <= i < out.len() && out[i] == name;
            if i < before.len() {
                assert(before[i] == name);
            }
        }
        if wanted(names.last()) {
            assert(out[before.len() as int] == names.last());
        }
    }
}

proof fn lemma_without(names: Seq<Seq<char>>, skip: Seq<Seq<char>>, name: Seq<char>)
    ensures
        without(names, skip).contains(name) == (names.contains(name) && !skip.contains(name)),
{
    lemma_filtered(names, |n: Seq<char>| !skip.contains(n), name);
}

proof fn lemma_replaced(
    live: Seq<Seq<char>>,
    kept: Seq<Seq<char>>,
    skip: Seq<Seq<char>>,
    name: Seq<char>,
)
    ensures
        replaced(live, kept, skip).contains(name) == (live.contains(name) && !skip.contains(name)
            && kept.contains(name)),
{
    lemma_filtered(live, |n: Seq<char>| !skip.contains(n) && kept.contains(n), name);
}

// ---------------------------------------------------------------------------------------------
// The steps
// ---------------------------------------------------------------------------------------------

/// A step on the entries of a directory. Paths and reasons are texts, or sequences in contracts.
#[derive(Debug, PartialEq, Eq)]
pub enum EntryAction<T> {
    /// Remove a tree, be it there or not.
    Clear { path: T },
    /// Create a directory and those above it.
    CreateDir { path: T },
    /// Name the entries of a directory.
    List { path: T },
    /// Remove an entry, as [`removal`] tells.
    Remove { path: T },
    /// Copy an entry, as [`copy_entry`] tells.
    Copy { from: T, to: T },
    /// Nothing more to do.
    Finish { result: Result<(), T> },
}

/// How a step went.
#[derive(Debug, Clone, PartialEq, Eq)]
pub enum EntryEvent<T, L> {
    /// There was no step yet.
    Started,
    Done,
    Failed { reason: T },
    /// The entries of the directory.
    Listed { names: L },
}

impl View for EntryAction<String> {
    type V = EntryAction<Seq<char>>;

    open spec fn view(&self) -> EntryAction<Seq<char>> {
        match self {
            EntryAction::Clear { path } => EntryAction::Clear { path: path@ },
            EntryAction::CreateDir { path } => EntryAction::CreateDir { path: path@ },
            EntryAction::List { path } => EntryAction::List { path: path@ },
            EntryAction::Remove { path } => EntryAction::Remove { path: path@ },
            EntryAction::Copy { from, to } => EntryAction::Copy { from: from@, to: to@ },
            EntryAction::Finish { result } => EntryAction::Finish { result: result_view(*result) },
        }
    }
}

impl View for EntryEvent<String, Vec<String>> {
    type V = EntryEvent<Seq<char>, Seq<Seq<char>>>;

    open spec fn view(&self) -> EntryEvent<Seq<char>, Seq<Seq<char>>> {
        match self {
            EntryEvent::Started => EntryEvent::Started,
            EntryEvent::Done => EntryEvent::Done,
            EntryEvent::Failed { reason } => EntryEvent::Failed { reason: reason@ },
            EntryEvent::Listed { names } => EntryEvent::Listed { names: texts(names@) },
        }
    }
}

/// The names that an event lists, if it lists any.
pub open spec fn listed(event: EntryEvent<Seq<char>, Seq<Seq<char>>>) -> Seq<Seq<char>> {
    match event {
        EntryEvent::Listed { names } => names,
        _ => Seq::empty(),
    }
}

fn names_of(event: EntryEvent<String, Vec<String>>) -> (r: Vec<String>)
    ensures
        texts(r@) == listed(event@),
{
    match event {
        EntryEvent::Listed { names } => names,
        _ => {
            let none: Vec<String> = Vec::new();
            proof {
                assert(texts(none@) =~= Seq::<Seq<char>>::empty());
            }
            none
        },
    }
}

/// The end of the steps with a failure: what could not be done, to what, and why.
pub open spec fn fails(what: Seq<char>, path: Seq<char>, reason: Seq<char>) -> EntryAction<
    Seq<char>,
> {
    EntryAction::Finish { result: Err(what + path + ": "@ + reason) }
}

fn failed(what: &str, path: &str, reason: &str) -> (r: EntryAction<String>)
    ensures
        r@ == fails(what@, path@, reason@),
{
    EntryAction::Finish { result: Err(glue4(what, path, ": ", reason)) }
}

/// How far a snapshot has come.
#[derive(Debug, Clone, Copy, PartialEq, Eq, Structural)]
pub enum SnapshotStage {
    Start,
    /// What an older snapshot left goes.
    Clearing,
    Creating,
    Listing,
    Copying,
    Over,
}

/// The copy of a directory's entries to another, without the skipped ones.
#[derive(Debug, Clone, PartialEq, Eq)]
pub struct SnapshotTree<T, L> {
    pub from: T,
    pub to: T,
    pub skip: L,
    /// The entries to copy, once they are known.
    pub names: L,
    /// The one that is being copied.
    pub at: usize,
    /// Do the paths follow the rules of Windows?
    pub windows: bool,
    pub stage: SnapshotStage,
}

impl View for SnapshotTree<String, Vec<String>> {
    type V = SnapshotTree<Seq<char>, Seq<Seq<char>>>;

    open spec fn view(&self) -> SnapshotTree<Seq<char>, Seq<Seq<char>>> {
        SnapshotTree {
            from: self.from@,
            to: self.to@,
            skip: texts(self.skip@),
            names: texts(self.names@),
            at: self.at,
            windows: self.windows,
            stage: self.stage,
        }
    }
}

/// The step that copies the entry at `k`, or ends the snapshot.
pub open spec fn snapshot_copy(s: SnapshotTree<Seq<char>, Seq<Seq<char>>>, k: int) -> (
    SnapshotTree<Seq<char>, Seq<Seq<char>>>,
    EntryAction<Seq<char>>,
) {
    if k < s.names.len() {
        (
            SnapshotTree { at: k as usize, stage: SnapshotStage::Copying, ..s },
            EntryAction::Copy {
                from: path_joined(s.from, s.names[k], s.windows),
                to: path_joined(s.to, s.names[k], s.windows),
            },
        )
    } else {
        (
            SnapshotTree { at: k as usize, stage: SnapshotStage::Over, ..s },
            EntryAction::Finish { result: Ok(()) },
        )
    }
}

/// The next step of a snapshot.
pub open spec fn snapshot_next(
    s: SnapshotTree<Seq<char>, Seq<Seq<char>>>,
    event: EntryEvent<Seq<char>, Seq<Seq<char>>>,
) -> (SnapshotTree<Seq<char>, Seq<Seq<char>>>, EntryAction<Seq<char>>) {
    let over = SnapshotTree { stage: SnapshotStage::Over, ..s };
    match (s.stage, event) {
        (SnapshotStage::Start, _) => (
            SnapshotTree { stage: SnapshotStage::Clearing, ..s },
            EntryAction::Clear { path: s.to },
        ),
        (SnapshotStage::Clearing, _) => (
            SnapshotTree { stage: SnapshotStage::Creating, ..s },
            EntryAction::CreateDir { path: s.to },
        ),
        (SnapshotStage::Creating, EntryEvent::Failed { reason }) => (
            over,
            fails("无法创建 "@, s.to, reason),
        ),
        (SnapshotStage::Creating, _) => (
            SnapshotTree { stage: SnapshotStage::Listing, ..s },
            EntryAction::List { path: s.from },
        ),
        (SnapshotStage::Listing, EntryEvent::Failed { reason }) => (
            over,
            fails("无法读取 "@, s.from, reason),
        ),
        (SnapshotStage::Listing, _) => snapshot_copy(
            SnapshotTree { names: without(listed(event), s.skip), ..s },
            0,
        ),
        (SnapshotStage::Copying, EntryEvent::Failed { reason }) if s.at < s.names.len() => (
            over,
            fails("无法快照 "@, path_joined(s.from, s.names[s.at as int], s.windows), reason),
        ),
        (SnapshotStage::Copying, _) if s.at < s.names.len() => snapshot_copy(s, s.at + 1),
        _ => (over, EntryAction::Finish { result: Ok(()) }),
    }
}

/// Starts to copy the entries of a directory aside, without the skipped ones.
pub fn snapshot_tree(from: &str, to: &str, skip: Vec<String>, windows: bool) -> (r: SnapshotTree<
    String,
    Vec<String>,
>)
    ensures
        r@ == (SnapshotTree {
            from: from@,
            to: to@,
            skip: texts(skip@),
            names: Seq::<Seq<char>>::empty(),
            at: 0,
            windows,
            stage: SnapshotStage::Start,
        }),
{
    let names: Vec<String> = Vec::new();
    proof {
        assert(texts(names@) =~= Seq::<Seq<char>>::empty());
    }
    SnapshotTree {
        from: from.to_owned(),
        to: to.to_owned(),
        skip,
        names,
        at: 0,
        windows,
        stage: SnapshotStage::Start,
    }
}

impl SnapshotTree<String, Vec<String>> {
    fn copy_from(&mut self, k: usize) -> (r: EntryAction<String>)
        requires
            k <= old(self).names@.len(),
        ensures
            (final(self)@, r@) == snapshot_copy(old(self)@, k as int),
    {
        self.at = k;
        if k < self.names.len() {
            self.stage = SnapshotStage::Copying;
            let name = self.names[k].as_str();
            EntryAction::Copy {
                from: path_join(self.from.as_str(), name, self.windows),
                to: path_join(self.to.as_str(), name, self.windows),
            }
        } else {
            self.stage = SnapshotStage::Over;
            EntryAction::Finish { result: Ok(()) }
        }
    }

    /// The next step, after the last one went as the event says.
    pub fn next(&mut self, event: EntryEvent<String, Vec<String>>) -> (r: EntryAction<String>)
        ensures
            (final(self)@, r@) == snapshot_next(old(self)@, event@),
    {
        match self.stage {
            SnapshotStage::Start => {
                self.stage = SnapshotStage::Clearing;
                EntryAction::Clear { path: self.to.clone() }
            },
            SnapshotStage::Clearing => {
                self.stage = SnapshotStage::Creating;
                EntryAction::CreateDir { path: self.to.clone() }
            },
            SnapshotStage::Creating => {
                if let EntryEvent::Failed { reason } = &event {
                    self.stage = SnapshotStage::Over;
                    return failed("无法创建 ", self.to.as_str(), reason.as_str());
                }
                self.stage = SnapshotStage::Listing;
                EntryAction::List { path: self.from.clone() }
            },
            SnapshotStage::Listing => {
                if let EntryEvent::Failed { reason } = &event {
                    self.stage = SnapshotStage::Over;
                    return failed("无法读取 ", self.from.as_str(), reason.as_str());
                }
                let all = names_of(event);
                self.names = snapshot_names(all.as_slice(), self.skip.as_slice());
                self.copy_from(0)
            },
            SnapshotStage::Copying => {
                if self.at < self.names.len() {
                    if let EntryEvent::Failed { reason } = &event {
                        self.stage = SnapshotStage::Over;
                        let name = self.names[self.at].as_str();
                        let path = path_join(self.from.as_str(), name, self.windows);
                        return failed("无法快照 ", path.as_str(), reason.as_str());
                    }
                    return self.copy_from(self.at + 1);
                }
                self.stage = SnapshotStage::Over;
                EntryAction::Finish { result: Ok(()) }
            },
            SnapshotStage::Over => EntryAction::Finish { result: Ok(()) },
        }
    }
}

/// How far a restore has come.
#[derive(Debug, Clone, Copy, PartialEq, Eq, Structural)]
pub enum RestoreStage {
    Start,
    /// What does the snapshot hold?
    ListingKept,
    /// What is there now?
    ListingLive,
    Removing,
    Copying,
    Over,
}

/// The way back of a snapshot's entries.
#[derive(Debug, Clone, PartialEq, Eq)]
pub struct RestoreTree<T, L> {
    /// The snapshot.
    pub from: T,
    /// The directory that it was taken of.
    pub to: T,
    pub skip: L,
    /// The entries of the snapshot, once they are known.
    pub kept: L,
    /// The entries that go, once they are known.
    pub gone: L,
    /// The one that is being removed or copied.
    pub at: usize,
    /// Do the paths follow the rules of Windows?
    pub windows: bool,
    pub stage: RestoreStage,
}

impl View for RestoreTree<String, Vec<String>> {
    type V = RestoreTree<Seq<char>, Seq<Seq<char>>>;

    open spec fn view(&self) -> RestoreTree<Seq<char>, Seq<Seq<char>>> {
        RestoreTree {
            from: self.from@,
            to: self.to@,
            skip: texts(self.skip@),
            kept: texts(self.kept@),
            gone: texts(self.gone@),
            at: self.at,
            windows: self.windows,
            stage: self.stage,
        }
    }
}

/// The step that copies the entry at `k` back, or ends the restore.
pub open spec fn restore_copy(s: RestoreTree<Seq<char>, Seq<Seq<char>>>, k: int) -> (
    RestoreTree<Seq<char>, Seq<Seq<char>>>,
    EntryAction<Seq<char>>,
) {
    if k < s.kept.len() {
        (
            RestoreTree { at: k as usize, stage: RestoreStage::Copying, ..s },
            EntryAction::Copy {
                from: path_joined(s.from, s.kept[k], s.windows),
                to: path_joined(s.to, s.kept[k], s.windows),
            },
        )
    } else {
        (
            RestoreTree { at: k as usize, stage: RestoreStage::Over, ..s },
            EntryAction::Finish { result: Ok(()) },
        )
    }
}

/// The step that removes the entry at `k`, or the first that copies one back.
pub open spec fn restore_remove(s: RestoreTree<Seq<char>, Seq<Seq<char>>>, k: int) -> (
    RestoreTree<Seq<char>, Seq<Seq<char>>>,
    EntryAction<Seq<char>>,
) {
    if k < s.gone.len() {
        (
            RestoreTree { at: k as usize, stage: RestoreStage::Removing, ..s },
            EntryAction::Remove { path: path_joined(s.to, s.gone[k], s.windows) },
        )
    } else {
        restore_copy(s, 0)
    }
}

/// The next step of a restore.
pub open spec fn restore_next(
    s: RestoreTree<Seq<char>, Seq<Seq<char>>>,
    event: EntryEvent<Seq<char>, Seq<Seq<char>>>,
) -> (RestoreTree<Seq<char>, Seq<Seq<char>>>, EntryAction<Seq<char>>) {
    let over = RestoreTree { stage: RestoreStage::Over, ..s };
    match (s.stage, event) {
        (RestoreStage::Start, _) => (
            RestoreTree { stage: RestoreStage::ListingKept, ..s },
            EntryAction::List { path: s.from },
        ),
        (RestoreStage::ListingKept, EntryEvent::Failed { reason }) => (
            over,
            fails("无法读取快照 "@, s.from, reason),
        ),
        (RestoreStage::ListingKept, _) => (
            RestoreTree { kept: listed(event), stage: RestoreStage::ListingLive, ..s },
            EntryAction::List { path: s.to },
        ),
        (RestoreStage::ListingLive, EntryEvent::Failed { reason }) => (
            over,
            fails("无法读取 "@, s.to, reason),
        ),
        (RestoreStage::ListingLive, _) => restore_remove(
            RestoreTree { gone: replaced(listed(event), s.kept, s.skip), ..s },
            0,
        ),
        (RestoreStage::Removing, EntryEvent::Failed { reason }) if s.at < s.gone.len() => (
            over,
            fails("无法移除 "@, path_joined(s.to, s.gone[s.at as int], s.windows), reason),
        ),
        (RestoreStage::Removing, _) if s.at < s.gone.len() => restore_remove(s, s.at + 1),
        (RestoreStage::Copying, EntryEvent::Failed { reason }) if s.at < s.kept.len() => (
            over,
            fails("无法恢复 "@, path_joined(s.to, s.kept[s.at as int], s.windows), reason),
        ),
        (RestoreStage::Copying, _) if s.at < s.kept.len() => restore_copy(s, s.at + 1),
        _ => (over, EntryAction::Finish { result: Ok(()) }),
    }
}

/// A restore that has not started.
pub open spec fn restore_start(
    from: Seq<char>,
    to: Seq<char>,
    skip: Seq<Seq<char>>,
    windows: bool,
) -> RestoreTree<Seq<char>, Seq<Seq<char>>> {
    RestoreTree {
        from,
        to,
        skip,
        kept: Seq::empty(),
        gone: Seq::empty(),
        at: 0,
        windows,
        stage: RestoreStage::Start,
    }
}

/// Starts to put a snapshot back: every entry that it holds replaces the one that is there, and
/// the skipped entries stay as they are.
pub fn restore_tree(from: &str, to: &str, skip: Vec<String>, windows: bool) -> (r: RestoreTree<
    String,
    Vec<String>,
>)
    ensures
        r@ == restore_start(from@, to@, texts(skip@), windows),
{
    let kept: Vec<String> = Vec::new();
    let gone: Vec<String> = Vec::new();
    proof {
        assert(texts(kept@) =~= Seq::<Seq<char>>::empty());
        assert(texts(gone@) =~= Seq::<Seq<char>>::empty());
    }
    RestoreTree {
        from: from.to_owned(),
        to: to.to_owned(),
        skip,
        kept,
        gone,
        at: 0,
        windows,
        stage: RestoreStage::Start,
    }
}

impl RestoreTree<String, Vec<String>> {
    fn copy_from(&mut self, k: usize) -> (r: EntryAction<String>)
        requires
            k <= old(self).kept@.len(),
        ensures
            (final(self)@, r@) == restore_copy(old(self)@, k as int),
    {
        self.at = k;
        if k < self.kept.len() {
            self.stage = RestoreStage::Copying;
            let name = self.kept[k].as_str();
            EntryAction::Copy {
                from: path_join(self.from.as_str(), name, self.windows),
                to: path_join(self.to.as_str(), name, self.windows),
            }
        } else {
            self.stage = RestoreStage::Over;
            EntryAction::Finish { result: Ok(()) }
        }
    }

    fn remove_from(&mut self, k: usize) -> (r: EntryAction<String>)
        requires
            k <= old(self).gone@.len(),
        ensures
            (final(self)@, r@) == restore_remove(old(self)@, k as int),
    {
        if k < self.gone.len() {
            self.at = k;
            self.stage = RestoreStage::Removing;
            EntryAction::Remove {
                path: path_join(self.to.as_str(), self.gone[k].as_str(), self.windows),
            }
        } else {
            self.copy_from(0)
        }
    }

    /// The next step, after the last one went as the event says.
    pub fn next(&mut self, event: EntryEvent<String, Vec<String>>) -> (r: EntryAction<String>)
        ensures
            (final(self)@, r@) == restore_next(old(self)@, event@),
    {
        match self.stage {
            RestoreStage::Start => {
                self.stage = RestoreStage::ListingKept;
                EntryAction::List { path: self.from.clone() }
            },
            RestoreStage::ListingKept => {
                if let EntryEvent::Failed { reason } = &event {
                    self.stage = RestoreStage::Over;
                    return failed("无法读取快照 ", self.from.as_str(), reason.as_str());
                }
                self.kept = names_of(event);
                self.stage = RestoreStage::ListingLive;
                EntryAction::List { path: self.to.clone() }
            },
            RestoreStage::ListingLive => {
                if let EntryEvent::Failed { reason } = &event {
                    self.stage = RestoreStage::Over;
                    return failed("无法读取 ", self.to.as_str(), reason.as_str());
                }
                let live = names_of(event);
                self.gone = replaced_names(
                    live.as_slice(),
                    self.kept.as_slice(),
                    self.skip.as_slice(),
                );
                self.remove_from(0)
            },
            RestoreStage::Removing => {
                if self.at < self.gone.len() {
                    if let EntryEvent::Failed { reason } = &event {
                        self.stage = RestoreStage::Over;
                        let name = self.gone[self.at].as_str();
                        let path = path_join(self.to.as_str(), name, self.windows);
                        return failed("无法移除 ", path.as_str(), reason.as_str());
                    }
                    return self.remove_from(self.at + 1);
                }
                self.stage = RestoreStage::Over;
                EntryAction::Finish { result: Ok(()) }
            },
            RestoreStage::Copying => {
                if self.at < self.kept.len() {
                    if let EntryEvent::Failed { reason } = &event {
                        self.stage = RestoreStage::Over;
                        let name = self.kept[self.at].as_str();
                        let path = path_join(self.to.as_str(), name, self.windows);
                        return failed("无法恢复 ", path.as_str(), reason.as_str());
                    }
                    return self.copy_from(self.at + 1);
                }
                self.stage = RestoreStage::Over;
                EntryAction::Finish { result: Ok(()) }
            },
            RestoreStage::Over => EntryAction::Finish { result: Ok(()) },
        }
    }
}

/// Is every entry that goes one that the snapshot holds, and none of the skipped?
pub open spec fn spares(s: RestoreTree<Seq<char>, Seq<Seq<char>>>) -> bool {
    s.stage is Removing || s.stage is Copying ==> forall|i: int|
        0 <= i < s.gone.len() ==> s.kept.contains(#[trigger] s.gone[i]) && !s.skip.contains(
            s.gone[i],
        )
}

/// A restore removes only entries that the snapshot holds and that are not skipped, whatever the
/// directories hold and however its steps go.
pub proof fn a_restore_spares_live_entries(
    s: RestoreTree<Seq<char>, Seq<Seq<char>>>,
    event: EntryEvent<Seq<char>, Seq<Seq<char>>>,
)
    requires
        spares(s),
    ensures
        spares(restore_next(s, event).0),
        restore_next(s, event).1 matches EntryAction::Remove { path } ==> exists|name: Seq<char>|
            path == #[trigger] path_joined(s.to, name, s.windows) && restore_next(
                s,
                event,
            ).0.kept.contains(name) && !s.skip.contains(name),
{
    if s.stage is ListingLive && !(event is Failed) {
        let gone = replaced(listed(event), s.kept, s.skip);
        assert forall|i: int| 0 <= i < gone.len() implies s.kept.contains(#[trigger] gone[i])
            && !s.skip.contains(gone[i]) by {
            lemma_replaced(listed(event), s.kept, s.skip, gone[i]);
            assert(gone.contains(gone[i]));
        }
    }
    let (after, action) = restore_next(s, event);
    if action is Remove {
        let name = after.gone[if s.stage is Removing {
            s.at + 1
        } else {
            0
        }];
        assert(after.kept.contains(name) && !after.skip.contains(name));
        assert(action == (EntryAction::Remove { path: path_joined(s.to, name, s.windows) }));
    }
}

/// The steps of a restore from a state on where each works, the first of them given.
pub open spec fn restore_rest(
    step: (RestoreTree<Seq<char>, Seq<Seq<char>>>, EntryAction<Seq<char>>),
    steps: nat,
) -> Seq<EntryAction<Seq<char>>>
    decreases steps,
{
    if step.1 is Finish || steps == 0 {
        seq![step.1]
    } else {
        seq![step.1] + restore_rest(restore_next(step.0, EntryEvent::Done), (steps - 1) as nat)
    }
}

/// The steps that remove the entries of a directory.
pub open spec fn removals(to: Seq<char>, gone: Seq<Seq<char>>, windows: bool) -> Seq<
    EntryAction<Seq<char>>,
> {
    Seq::new(gone.len(), |i: int| EntryAction::Remove { path: path_joined(to, gone[i], windows) })
}

/// The steps that copy the entries of a directory to another.
pub open spec fn copies(from: Seq<char>, to: Seq<char>, kept: Seq<Seq<char>>, windows: bool) -> Seq<
    EntryAction<Seq<char>>,
> {
    Seq::new(
        kept.len(),
        |i: int|
            EntryAction::Copy {
                from: path_joined(from, kept[i], windows),
                to: path_joined(to, kept[i], windows),
            },
    )
}

proof fn lemma_copies(s: RestoreTree<Seq<char>, Seq<Seq<char>>>, k: int, steps: nat)
    requires
        0 <= k <= s.kept.len() <= usize::MAX,
        steps >= s.kept.len() - k,
    ensures
        restore_rest(restore_copy(s, k), steps) == copies(
            s.from,
            s.to,
            s.kept,
            s.windows,
        ).skip(k).push(EntryAction::Finish { result: Ok(()) }),
    decreases s.kept.len() - k,
{
    let all = copies(s.from, s.to, s.kept, s.windows);
    if k < s.kept.len() {
        let (after, action) = restore_copy(s, k);
        lemma_copies(after, k + 1, (steps - 1) as nat);
        assert(restore_next(after, EntryEvent::Done) == restore_copy(after, k + 1));
        assert(all.skip(k) =~= seq![action] + all.skip(k + 1));
    } else {
        assert(all.skip(k) =~= Seq::<EntryAction<Seq<char>>>::empty());
    }
}

proof fn lemma_removals(s: RestoreTree<Seq<char>, Seq<Seq<char>>>, k: int, steps: nat)
    requires
        0 <= k <= s.gone.len() <= usize::MAX,
        s.kept.len() <= usize::MAX,
        steps >= s.gone.len() - k + s.kept.len(),
    ensures
        restore_rest(restore_remove(s, k), steps) == removals(
            s.to,
            s.gone,
            s.windows,
        ).skip(k) + copies(
            s.from,
            s.to,
            s.kept,
            s.windows,
        ).push(EntryAction::Finish { result: Ok(()) }),
    decreases s.gone.len() - k,
{
    let all = removals(s.to, s.gone, s.windows);
    let back = copies(s.from, s.to, s.kept, s.windows);
    if k < s.gone.len() {
        let (after, action) = restore_remove(s, k);
        lemma_removals(after, k + 1, (steps - 1) as nat);
        assert(restore_next(after, EntryEvent::Done) == restore_remove(after, k + 1));
        assert(all.skip(k) =~= seq![action] + all.skip(k + 1));
    } else {
        lemma_copies(s, 0, steps);
        assert(all.skip(k) =~= Seq::<EntryAction<Seq<char>>>::empty());
        assert(back.skip(0) =~= back);
    }
}

/// A restore whose steps all work removes what it replaces, then copies every entry of the
/// snapshot back, in the order listed, and succeeds.
pub proof fn a_restore_removes_then_copies(
    from: Seq<char>,
    to: Seq<char>,
    skip: Seq<Seq<char>>,
    kept: Seq<Seq<char>>,
    live: Seq<Seq<char>>,
    windows: bool,
)
    requires
        kept.len() <= usize::MAX,
        live.len() <= usize::MAX,
    ensures
        ({
            let (first, look) = restore_next(
                restore_start(from, to, skip, windows),
                EntryEvent::Started,
            );
            let (second, look_again) = restore_next(first, EntryEvent::Listed { names: kept });
            let gone = replaced(live, kept, skip);
            &&& look == (EntryAction::List { path: from })
            &&& look_again == (EntryAction::List { path: to })
            &&& restore_rest(
                restore_next(second, EntryEvent::Listed { names: live }),
                gone.len() + kept.len(),
            ) == removals(to, gone, windows) + copies(from, to, kept, windows).push(
                EntryAction::Finish { result: Ok(()) },
            )
        }),
{
    let (first, _) = restore_next(restore_start(from, to, skip, windows), EntryEvent::Started);
    let (second, _) = restore_next(first, EntryEvent::Listed { names: kept });
    let gone = replaced(live, kept, skip);
    lemma_filter_len(live, kept, skip);
    let third = RestoreTree { gone, ..second };
    lemma_removals(third, 0, gone.len() + kept.len());
    assert(removals(to, gone, windows).skip(0) =~= removals(to, gone, windows));
}

proof fn lemma_filter_len(live: Seq<Seq<char>>, kept: Seq<Seq<char>>, skip: Seq<Seq<char>>)
    ensures
        replaced(live, kept, skip).len() <= live.len(),
    decreases live.len(),
{
    reveal(Seq::filter);
    if live.len() > 0 {
        lemma_filter_len(live.drop_last(), kept, skip);
    }
}

/// Two entries of a profile belong to the running Harness, and no others.
pub proof fn what_belongs_to_the_running_harness(name: Seq<char>)
    ensures
        live_entries().contains(name) <==> name == "data"@ || name == ".dsh-market"@,
{
    let all = live_entries();
    assert(all[0] == "data"@ && all[1] == ".dsh-market"@);
    if all.contains(name) {
        let i = choose|i: int| 0 <= i < all.len() && all[i] == name;
        assert(0 <= i < 2);
    }
}

/// The steps of a snapshot from a state on where each works, the first of them given.
pub open spec fn snapshot_rest(
    step: (SnapshotTree<Seq<char>, Seq<Seq<char>>>, EntryAction<Seq<char>>),
    steps: nat,
) -> Seq<EntryAction<Seq<char>>>
    decreases steps,
{
    if step.1 is Finish || steps == 0 {
        seq![step.1]
    } else {
        seq![step.1] + snapshot_rest(snapshot_next(step.0, EntryEvent::Done), (steps - 1) as nat)
    }
}

proof fn lemma_snapshot_copies(s: SnapshotTree<Seq<char>, Seq<Seq<char>>>, k: int, steps: nat)
    requires
        0 <= k <= s.names.len() <= usize::MAX,
        steps >= s.names.len() - k,
    ensures
        snapshot_rest(snapshot_copy(s, k), steps) == copies(
            s.from,
            s.to,
            s.names,
            s.windows,
        ).skip(k).push(EntryAction::Finish { result: Ok(()) }),
    decreases s.names.len() - k,
{
    let all = copies(s.from, s.to, s.names, s.windows);
    if k < s.names.len() {
        let (after, action) = snapshot_copy(s, k);
        lemma_snapshot_copies(after, k + 1, (steps - 1) as nat);
        assert(snapshot_next(after, EntryEvent::Done) == snapshot_copy(after, k + 1));
        assert(all.skip(k) =~= seq![action] + all.skip(k + 1));
    } else {
        assert(all.skip(k) =~= Seq::<EntryAction<Seq<char>>>::empty());
    }
}

/// A snapshot whose steps all work clears its place, copies every entry there that is not skipped,
/// in the order listed, and succeeds.
pub proof fn a_snapshot_copies_what_is_not_skipped(
    from: Seq<char>,
    to: Seq<char>,
    skip: Seq<Seq<char>>,
    live: Seq<Seq<char>>,
    windows: bool,
)
    requires
        live.len() <= usize::MAX,
    ensures
        ({
            let start = SnapshotTree {
                from,
                to,
                skip,
                names: Seq::empty(),
                at: 0,
                windows,
                stage: SnapshotStage::Start,
            };
            let (first, clear) = snapshot_next(start, EntryEvent::Started);
            let (second, create) = snapshot_next(first, EntryEvent::Done);
            let (third, look) = snapshot_next(second, EntryEvent::Done);
            let taken = live.filter(|name: Seq<char>| !skip.contains(name));
            &&& clear == (EntryAction::Clear { path: to })
            &&& create == (EntryAction::CreateDir { path: to })
            &&& look == (EntryAction::List { path: from })
            &&& snapshot_rest(
                snapshot_next(third, EntryEvent::Listed { names: live }),
                taken.len(),
            ) == Seq::new(
                taken.len(),
                |i: int|
                    EntryAction::Copy {
                        from: path_joined(from, taken[i], windows),
                        to: path_joined(to, taken[i], windows),
                    },
            ).push(EntryAction::Finish { result: Ok(()) })
        }),
{
    let start = SnapshotTree {
        from,
        to,
        skip,
        names: Seq::empty(),
        at: 0,
        windows,
        stage: SnapshotStage::Start,
    };
    let (first, _) = snapshot_next(start, EntryEvent::Started);
    let (second, _) = snapshot_next(first, EntryEvent::Done);
    let (third, _) = snapshot_next(second, EntryEvent::Done);
    let taken = without(live, skip);
    lemma_without_len(live, skip);
    let ready = SnapshotTree { names: taken, ..third };
    lemma_snapshot_copies(ready, 0, taken.len());
    let all = copies(from, to, taken, windows);
    assert(all.skip(0) =~= all);
}

proof fn lemma_without_len(names: Seq<Seq<char>>, skip: Seq<Seq<char>>)
    ensures
        without(names, skip).len() <= names.len(),
    decreases names.len(),
{
    reveal(Seq::filter);
    if names.len() > 0 {
        lemma_without_len(names.drop_last(), skip);
    }
}

/// A step that fails ends a snapshot and a restore with a failure, except the one that clears away
/// what an older snapshot left.
pub proof fn a_failed_step_is_reported(
    s: SnapshotTree<Seq<char>, Seq<Seq<char>>>,
    b: RestoreTree<Seq<char>, Seq<Seq<char>>>,
    reason: Seq<char>,
)
    ensures
        s.stage is Creating || s.stage is Listing || (s.stage is Copying && s.at < s.names.len())
            ==> (snapshot_next(s, EntryEvent::Failed { reason }).1 matches EntryAction::Finish {
            result,
        } && result is Err),
        s.stage is Clearing ==> snapshot_next(s, EntryEvent::Failed { reason }).1 is CreateDir,
        b.stage is ListingKept || b.stage is ListingLive || (b.stage is Removing && b.at
            < b.gone.len()) || (b.stage is Copying && b.at < b.kept.len()) ==> (restore_next(
            b,
            EntryEvent::Failed { reason },
        ).1 matches EntryAction::Finish { result } && result is Err),
{
}

} // verus!

//! Putting the profile template of a bundled build in place at its first launch.
use vstd::prelude::*;

use crate::paths::{file_name, parent, path_join};
#[allow(unused_imports)]
use crate::paths::{file_name_in, parent_path, path_joined};
use crate::text::glue;
#[allow(unused_imports)]
use crate::text::opt_view;
use crate::transaction::{DiskAction, DiskEvent};
#[allow(unused_imports)]
use crate::transaction::{at, perform, Fate, Luck};

verus! {

/// The profile that the shell supervises.
pub const PROFILE_NAME: &'static str = "web";

/// Why the template was not put in place.
#[derive(Debug, Clone, Copy, PartialEq, Eq, Structural)]
pub enum SeedSkip {
    /// The tree is not the shell's own.
    NotBundled,
    /// There is no template.
    NoTemplate,
    /// There is no place for it.
    NoHome,
    /// A profile is there already.
    ProfileExists,
}

/// Why the template was not put in place, in words.
pub open spec fn skip_text(skip: SeedSkip) -> Seq<char> {
    match skip {
        SeedSkip::NotBundled => "本构建没有自带运行时：不播种 profile 模板（插件市场由用户的安装自行决定）"@,
        SeedSkip::NoTemplate => "随包资源里没有 profile-template，跳过播种"@,
        SeedSkip::NoHome => "无法确定 DSH_HOME，跳过 profile 模板播种"@,
        SeedSkip::ProfileExists => "profile 已存在，跳过模板播种：插件市场不会因此被安装（缺失就自己 add 一次）"@,
    }
}

impl SeedSkip {
    /// Why the template was not put in place, in words.
    pub fn reason(&self) -> (r: String)
        ensures
            r@ == skip_text(*self),
    {
        match self {
            SeedSkip::NotBundled => "本构建没有自带运行时：不播种 profile 模板（插件市场由用户的安装自行决定）".to_owned(),
            SeedSkip::NoTemplate => "随包资源里没有 profile-template，跳过播种".to_owned(),
            SeedSkip::NoHome => "无法确定 DSH_HOME，跳过 profile 模板播种".to_owned(),
            SeedSkip::ProfileExists => "profile 已存在，跳过模板播种：插件市场不会因此被安装（缺失就自己 add 一次）".to_owned(),
        }
    }
}

/// Whether the template is put in place, and why not.
pub open spec fn seeds(
    bundled: bool,
    template: bool,
    home: bool,
    profile_exists: bool,
) -> Result<(), SeedSkip> {
    if !bundled {
        Err(SeedSkip::NotBundled)
    } else if !template {
        Err(SeedSkip::NoTemplate)
    } else if !home {
        Err(SeedSkip::NoHome)
    } else if profile_exists {
        Err(SeedSkip::ProfileExists)
    } else {
        Ok(())
    }
}

/// Decides whether the template is put in place. A profile that is there is never touched.
pub fn seed_decision(bundled: bool, template: bool, home: bool, profile_exists: bool) -> (r: Result<
    (),
    SeedSkip,
>)
    ensures
        r == seeds(bundled, template, home, profile_exists),
{
    if !bundled {
        return Err(SeedSkip::NotBundled);
    }
    if !template {
        return Err(SeedSkip::NoTemplate);
    }
    if !home {
        return Err(SeedSkip::NoHome);
    }
    if profile_exists {
        return Err(SeedSkip::ProfileExists);
    }
    Ok(())
}

/// The home of dsh: the configured one, or `.dsh` below the user's.
pub open spec fn dsh_home(
    configured: Option<Seq<char>>,
    home: Option<Seq<char>>,
    windows: bool,
) -> Option<Seq<char>> {
    match configured {
        Some(dir) => Some(dir),
        None => match home {
            Some(dir) => Some(path_joined(dir, ".dsh"@, windows)),
            None => None,
        },
    }
}

/// The home of dsh.
pub fn dsh_home_of(configured: Option<&str>, home: Option<&str>, windows: bool) -> (r: Option<
    String,
>)
    ensures
        opt_view(r) == dsh_home(
            crate::runtime::str_view(configured),
            crate::runtime::str_view(home),
            windows,
        ),
{
    match configured {
        Some(dir) => Some(dir.to_owned()),
        None => match home {
            Some(dir) => Some(path_join(dir, ".dsh", windows)),
            None => None,
        },
    }
}

/// The home of dsh that a launch works with: where none is known, `.dsh` in the directory that
/// the shell was started in.
pub fn launch_home(configured: Option<&str>, home: Option<&str>, windows: bool) -> (r: String)
    ensures
        r@ == (match dsh_home(
            crate::runtime::str_view(configured),
            crate::runtime::str_view(home),
            windows,
        ) {
            Some(dir) => dir,
            None => ".dsh"@,
        }),
{
    match dsh_home_of(configured, home, windows) {
        Some(dir) => dir,
        None => ".dsh".to_owned(),
    }
}

/// The profile below a home of dsh.
pub open spec fn profile_in(home: Seq<char>, windows: bool) -> Seq<char> {
    path_joined(path_joined(home, "profiles"@, windows), PROFILE_NAME@, windows)
}

/// The profile below a home of dsh.
pub fn profile_dir(home: &str, windows: bool) -> (r: String)
    ensures
        r@ == profile_in(home@, windows),
{
    path_join(path_join(home, "profiles", windows).as_str(), PROFILE_NAME, windows)
}

/// The template in a bundled runtime.
pub fn template_dir(seed: &str, windows: bool) -> (r: String)
    ensures
        r@ == path_joined(seed@, "profile-template"@, windows),
{
    path_join(seed, "profile-template", windows)
}

/// What came of it.
#[derive(Debug, Clone, PartialEq, Eq)]
pub struct SeedOutcome {
    /// The template was put in place: this launch asks no registry.
    pub seeded: bool,
    /// The line for the log.
    pub note: String,
}

/// What is reported of the template. `copied` is how the copy went, and is looked at only where
/// the template is to be put in place.
pub fn seed_profile_template(
    bundled: bool,
    template: bool,
    profile: Option<&str>,
    profile_exists: bool,
    copied: Result<(), String>,
) -> (r: SeedOutcome)
    ensures
        (match seeds(bundled, template, profile is Some, profile_exists) {
            Err(skip) => !r.seeded && r.note@ == skip_text(skip),
            Ok(()) => r.seeded == (copied is Ok) && r.note@ == (match copied {
                Ok(()) => "seeded profile template into "@ + profile->0@,
                Err(error) => "could not seed the profile template: "@ + error@,
            }),
        }),
{
    match seed_decision(bundled, template, profile.is_some(), profile_exists) {
        Err(skip) => SeedOutcome { seeded: false, note: skip.reason() },
        Ok(()) => match copied {
            Ok(()) => {
                let place = match profile {
                    Some(place) => place,
                    None => "",
                };
                SeedOutcome { seeded: true, note: glue("seeded profile template into ", place) }
            },
            Err(error) => SeedOutcome {
                seeded: false,
                note: glue("could not seed the profile template: ", error.as_str()),
            },
        },
    }
}

// ---------------------------------------------------------------------------------------------
// Copying the template
// ---------------------------------------------------------------------------------------------

/// Where a copy is built, beside its place.
pub open spec fn building_place(to: Seq<char>, windows: bool) -> Seq<char> {
    match file_name_in(to, windows) {
        Some(name) => path_joined(
            match parent_path(to, windows) {
                Some(dir) => dir,
                None => Seq::empty(),
            },
            name + ".tmp"@,
            windows,
        ),
        None => path_joined(to, ".tmp"@, windows),
    }
}

/// Where a copy is built, beside its place.
pub fn building_path(to: &str, windows: bool) -> (r: String)
    ensures
        r@ == building_place(to@, windows),
{
    proof {
        reveal_strlit("");
        assert(""@ =~= Seq::<char>::empty());
    }
    match file_name(to, windows) {
        Some(name) => {
            let name = glue(name.as_str(), ".tmp");
            match parent(to, windows) {
                Some(dir) => path_join(dir.as_str(), name.as_str(), windows),
                None => path_join("", name.as_str(), windows),
            }
        },
        None => path_join(to, ".tmp", windows),
    }
}

/// How far a copy has come.
#[derive(Debug, Clone, PartialEq, Eq)]
pub enum CopyStage<T> {
    Start,
    Clearing,
    Copying,
    Renaming,
    Undoing { error: T },
    Over,
}

/// The copy of a tree to a place that it reaches whole or not at all.
#[derive(Debug, Clone, PartialEq, Eq)]
pub struct TreeCopy<T> {
    pub from: T,
    pub to: T,
    /// Do the paths follow the rules of Windows?
    pub windows: bool,
    pub stage: CopyStage<T>,
}

impl View for TreeCopy<String> {
    type V = TreeCopy<Seq<char>>;

    open spec fn view(&self) -> TreeCopy<Seq<char>> {
        TreeCopy {
            from: self.from@,
            to: self.to@,
            windows: self.windows,
            stage: match self.stage {
                CopyStage::Start => CopyStage::Start,
                CopyStage::Clearing => CopyStage::Clearing,
                CopyStage::Copying => CopyStage::Copying,
                CopyStage::Renaming => CopyStage::Renaming,
                CopyStage::Undoing { error } => CopyStage::Undoing { error: error@ },
                CopyStage::Over => CopyStage::Over,
            },
        }
    }
}

/// The next step of a copy.
pub open spec fn copy_next(c: TreeCopy<Seq<char>>, event: DiskEvent<Seq<char>>) -> (
    TreeCopy<Seq<char>>,
    DiskAction<Seq<char>>,
) {
    let building = building_place(c.to, c.windows);
    let over = TreeCopy { stage: CopyStage::Over, ..c };
    match c.stage {
        CopyStage::Start => (
            TreeCopy { stage: CopyStage::Clearing, ..c },
            DiskAction::Remove { path: building },
        ),
        CopyStage::Clearing => (
            TreeCopy { stage: CopyStage::Copying, ..c },
            DiskAction::Copy { from: c.from, to: building },
        ),
        CopyStage::Copying => match event {
            DiskEvent::Failed { reason } => (
                TreeCopy { stage: CopyStage::Undoing { error: reason }, ..c },
                DiskAction::Remove { path: building },
            ),
            _ => (
                TreeCopy { stage: CopyStage::Renaming, ..c },
                DiskAction::Rename { from: building, to: c.to },
            ),
        },
        CopyStage::Renaming => match event {
            DiskEvent::Failed { reason } => (
                TreeCopy { stage: CopyStage::Undoing { error: reason }, ..c },
                DiskAction::Remove { path: building },
            ),
            _ => (over, DiskAction::Finish { result: Ok(()) }),
        },
        CopyStage::Undoing { error } => (over, DiskAction::Finish { result: Err(error) }),
        CopyStage::Over => (over, DiskAction::Finish { result: Ok(()) }),
    }
}

/// Starts to copy a tree: it is built beside its place, and moved there when it is whole.
pub fn copy_tree(from: &str, to: &str, windows: bool) -> (r: TreeCopy<String>)
    ensures
        r@ == (TreeCopy { from: from@, to: to@, windows, stage: CopyStage::<Seq<char>>::Start }),
{
    TreeCopy { from: from.to_owned(), to: to.to_owned(), windows, stage: CopyStage::Start }
}

impl TreeCopy<String> {
    /// The next step, after the last one went as the event says.
    pub fn next(&mut self, event: DiskEvent<String>) -> (r: DiskAction<String>)
        ensures
            (final(self)@, r@) == copy_next(old(self)@, event@),
    {
        let building = building_path(self.to.as_str(), self.windows);
        let mut stage = CopyStage::Over;
        std::mem::swap(&mut stage, &mut self.stage);
        match stage {
            CopyStage::Start => {
                self.stage = CopyStage::Clearing;
                DiskAction::Remove { path: building }
            },
            CopyStage::Clearing => {
                self.stage = CopyStage::Copying;
                DiskAction::Copy { from: self.from.clone(), to: building }
            },
            CopyStage::Copying => match event {
                DiskEvent::Failed { reason } => {
                    self.stage = CopyStage::Undoing { error: reason };
                    DiskAction::Remove { path: building }
                },
                _ => {
                    self.stage = CopyStage::Renaming;
                    DiskAction::Rename { from: building, to: self.to.clone() }
                },
            },
            CopyStage::Renaming => match event {
                DiskEvent::Failed { reason } => {
                    self.stage = CopyStage::Undoing { error: reason };
                    DiskAction::Remove { path: building }
                },
                _ => DiskAction::Finish { result: Ok(()) },
            },
            CopyStage::Undoing { error } => DiskAction::Finish { result: Err(error) },
            CopyStage::Over => DiskAction::Finish { result: Ok(()) },
        }
    }
}

/// The whole of a copy, of at most `steps` steps: what it does to the trees, and its result.
/// `fates[n]` is how the step fares behind which `n` more may follow.
pub open spec fn run_copy(
    c: TreeCopy<Seq<char>>,
    event: DiskEvent<Seq<char>>,
    trees: Map<Seq<char>, int>,
    fates: Seq<Fate>,
    steps: nat,
) -> (Map<Seq<char>, int>, Option<Result<(), Seq<char>>>)
    decreases steps,
{
    let (after, action) = copy_next(c, event);
    match action {
        DiskAction::Finish { result } => (trees, Some(result)),
        _ => if steps == 0 {
            (trees, None)
        } else {
            let (trees, event) = perform(trees, action, fates[steps - 1]);
            run_copy(after, event, trees, fates, (steps - 1) as nat)
        },
    }
}

/// A copy to a free place is all or nothing, and stays so when the shell dies in between: after
/// any number of steps, however they went, there is the whole tree at the place or nothing.
pub proof fn a_copy_is_all_or_nothing(
    from: Seq<char>,
    to: Seq<char>,
    trees: Map<Seq<char>, int>,
    fates: Seq<Fate>,
    steps: nat,
    windows: bool,
)
    requires
        from != to,
        from != building_place(to, windows),
        to != building_place(to, windows),
        trees.dom().contains(from),
        !trees.dom().contains(to),
        steps <= 4,
    ensures
        ({
            let start = TreeCopy { from, to, windows, stage: CopyStage::Start };
            let (after, result) = run_copy(start, DiskEvent::Started, trees, fates, steps);
            &&& after.dom().contains(to) ==> at(after, to, trees[from])
            &&& steps == 4 ==> result is Some
            &&& result is Some ==> (after.dom().contains(to) <==> result == Some(
                Ok::<(), Seq<char>>(()),
            ))
            &&& at(after, from, trees[from])
        }),
{
    reveal_with_fuel(run_copy, 6);
}

/// A profile that is there is never replaced.
pub proof fn a_profile_is_never_replaced(bundled: bool, template: bool, home: bool)
    ensures
        seeds(bundled, template, home, true) is Err,
{
}

/// The template is put in place exactly where the tree is the shell's own, there is a template and
/// a home to put it in, and no profile yet; and what stands against it is said in that order.
pub proof fn when_the_template_is_put_in_place(
    bundled: bool,
    template: bool,
    home: bool,
    profile_exists: bool,
)
    ensures
        seeds(bundled, template, home, profile_exists) is Ok <==> bundled && template && home
            && !profile_exists,
        seeds(false, template, home, profile_exists) == Err::<(), SeedSkip>(SeedSkip::NotBundled),
        seeds(true, false, home, profile_exists) == Err::<(), SeedSkip>(SeedSkip::NoTemplate),
        seeds(true, true, false, profile_exists) == Err::<(), SeedSkip>(SeedSkip::NoHome),
        seeds(true, true, true, true) == Err::<(), SeedSkip>(SeedSkip::ProfileExists),
{
}

/// The configured home is taken as it is, and else `.dsh` in the user's own; the profile lies in
/// `profiles/web` below it, and a copy is built beside its place.
pub proof fn where_a_profile_lies(
    configured: Seq<char>,
    home: Seq<char>,
    dir: Seq<char>,
    name: Seq<char>,
)
    requires
        home.len() > 0 && home.last() != '/',
        dir.len() > 0 && dir.last() != '/',
        dir.len() == 1 || !(dir.last() == '.' && dir[dir.len() - 2] == '/'),
        crate::paths::is_plain_name(name),
    ensures
        dsh_home(Some(configured), Some(home), false) == Some(configured),
        dsh_home(None, Some(home), false) == Some(home + "/.dsh"@),
        dsh_home(None, None, false) is None,
        profile_in(home, false) == home + "/profiles/web"@,
        building_place(dir + seq!['/'] + name, false) == dir + seq!['/'] + name + ".tmp"@,
{
    reveal_strlit(".dsh");
    reveal_strlit("/.dsh");
    reveal_strlit("profiles");
    reveal_strlit("web");
    reveal_strlit("/profiles/web");
    reveal_strlit(".tmp");
    crate::paths::a_name_is_joined_with_a_slash(home, ".dsh"@);
    assert(home + seq!['/'] + ".dsh"@ =~= home + "/.dsh"@);
    crate::paths::a_name_is_joined_with_a_slash(home, "profiles"@);
    let middle = home + seq!['/'] + "profiles"@;
    assert(middle.last() == 's');
    crate::paths::a_name_is_joined_with_a_slash(middle, "web"@);
    assert(middle + seq!['/'] + "web"@ =~= home + "/profiles/web"@);
    assert forall|i: int| 0 <= i < name.len() implies name[i] != '/' by {
        assert(!crate::paths::is_sep(name[i]));
    }
    crate::paths::a_path_is_its_directory_and_its_name(dir, name);
    let built = name + ".tmp"@;
    assert(built[0] == name[0]);
    crate::paths::a_name_is_joined_with_a_slash(dir, built);
    assert(dir + seq!['/'] + built =~= dir + seq!['/'] + name + ".tmp"@);
}

/// A copy of which every step works is in place, and says so; and one that failed leaves nothing
/// behind where that can be removed, and says why.
pub proof fn a_copy_that_works_is_in_place(
    from: Seq<char>,
    to: Seq<char>,
    trees: Map<Seq<char>, int>,
    fates: Seq<Fate>,
    windows: bool,
)
    requires
        from != to,
        from != building_place(to, windows),
        to != building_place(to, windows),
        trees.dom().contains(from),
        !trees.dom().contains(to),
        fates.len() == 4,
        fates[3].luck is Works,
    ensures
        ({
            let start = TreeCopy { from, to, windows, stage: CopyStage::Start };
            let (after, result) = run_copy(start, DiskEvent::Started, trees, fates, 4);
            let building = building_place(to, windows);
            &&& fates[2].luck is Works && fates[1].luck is Works ==> result == Some(
                Ok::<(), Seq<char>>(()),
            ) && at(after, to, trees[from]) && !after.dom().contains(building)
            &&& fates[2].luck !is Works && fates[1].luck is Works ==> result == Some(
                Err::<(), Seq<char>>(fates[2].reason),
            ) && !after.dom().contains(building)
            &&& fates[2].luck is Works && fates[1].luck !is Works && fates[0].luck is Works
                ==> result == Some(Err::<(), Seq<char>>(fates[1].reason))
                && !after.dom().contains(building)
        }),
{
    reveal_with_fuel(run_copy, 6);
}

} // verus!

//! The user's configuration and the directories it leads to.
use vstd::prelude::*;

#[allow(unused_imports)]
use crate::locator::maybe;
use crate::paths::{absolute, is_absolute, path_join, usable_directory};
#[allow(unused_imports)]
use crate::paths::{
    is_usable_directory, path_absolute, path_is_absolute, path_joined, path_unverbatim,
};
use crate::runtime::{Preference, SystemUpdates};
#[allow(unused_imports)]
use crate::runtime::str_view;
use crate::shellenv::EnvMap;
use crate::text::trim_text;
#[allow(unused_imports)]
use crate::text::{opt_view, texts, trimmed};
use crate::update::default_tags;

verus! {

/// What the user can set.
#[derive(Debug, Clone, PartialEq, Eq)]
pub struct Config {
    /// A fixed port keeps the session cookie valid over a restart.
    pub port: u16,
    /// The directory that the agent works in.
    pub workspace: String,
    /// The home of dsh; none shares the one of the command line.
    pub dsh_home: Option<String>,
    /// A launcher that the search does not find by itself.
    pub dsh_path: Option<String>,
    /// What an unanswered question about another Harness means: stop it, or leave it.
    pub take_over_existing: bool,
    /// Look for a newer CLI at the start, and install it.
    pub auto_update: bool,
    /// The dist-tags that are looked at; the highest version among them counts.
    pub update_tags: Vec<String>,
    /// How long an answer of the registry is trusted; 0 asks at every start.
    pub update_check_interval_minutes: u64,
    /// Import the environment of the login shell.
    pub import_shell_env: bool,
    /// Variables for the CLI, set after the import.
    pub env: EnvMap,
    /// Refuse a CLI outside of the tested range.
    pub require_tested_dsh: bool,
    pub runtime: Preference,
    /// What to do about a newer version of an installation of the user's own.
    pub system_updates: SystemUpdates,
    /// Keep the plugin market of the profile current.
    pub auto_update_plugins: bool,
    /// Fill in what an old WebKit lacks.
    pub webkit_compat: bool,
    pub render_fallback: bool,
    pub page_diagnostics: bool,
    pub keep_menu_focus: bool,
    pub scroll_anchor: bool,
}

/// The port where the file names none.
pub fn default_port() -> (r: u16)
    ensures
        r == 3080,
{
    3080
}

/// Leave another Harness alone.
pub fn default_take_over() -> (r: bool)
    ensures
        !r,
{
    false
}

/// Keep the CLI current.
pub fn default_auto_update() -> (r: bool)
    ensures
        r,
{
    true
}

/// Every channel that is published to.
pub fn default_update_tags() -> (r: Vec<String>)
    ensures
        texts(r@) == seq!["latest"@, "next"@, "alpha"@],
{
    default_tags()
}

/// An hour.
pub fn default_update_interval() -> (r: u64)
    ensures
        r == 60,
{
    60
}

/// Import the login shell's environment.
pub fn default_import_shell_env() -> (r: bool)
    ensures
        r,
{
    true
}

/// Refuse an untested CLI.
pub fn default_require_tested_dsh() -> (r: bool)
    ensures
        r,
{
    true
}

/// Leave an installation of the user's own alone.
pub fn default_system_updates() -> (r: SystemUpdates)
    ensures
        r == SystemUpdates::Notify,
{
    SystemUpdates::Notify
}

/// Fill in what an old WebKit lacks.
pub fn default_webkit_compat() -> (r: bool)
    ensures
        r,
{
    true
}

/// Stand in for animation frames while the window is not painted.
pub fn default_render_fallback() -> (r: bool)
    ensures
        r,
{
    true
}

/// Carry what the page reports into the log.
pub fn default_page_diagnostics() -> (r: bool)
    ensures
        r,
{
    true
}

/// Hold the focus while a menu is clicked.
pub fn default_keep_menu_focus() -> (r: bool)
    ensures
        r,
{
    true
}

/// Stand in for scroll anchoring.
pub fn default_scroll_anchor() -> (r: bool)
    ensures
        r,
{
    true
}

/// The workspace where no home was found: the named home where it is one, or the temporary
/// directory. Never the root, which the agent would search whole.
pub open spec fn home_or_temp(home: Option<Seq<char>>, temp: Seq<char>) -> Seq<char> {
    match home {
        Some(dir) => if trimmed(dir).len() > 0 {
            dir
        } else {
            temp
        },
        None => temp,
    }
}

/// The workspace where no home was found.
pub fn home_workspace(home: Option<String>, temp: &str) -> (r: String)
    ensures
        r@ == home_or_temp(opt_view(home), temp@),
{
    match home {
        Some(dir) => {
            if trim_text(dir.as_str()).as_str().is_empty() {
                temp.to_owned()
            } else {
                dir
            }
        },
        None => temp.to_owned(),
    }
}

/// The workspace where the file names none.
pub fn default_workspace(home: Option<String>, temp: &str) -> (r: String)
    ensures
        r@ == (match home {
            Some(dir) => dir@,
            None => temp@,
        }),
{
    match home {
        Some(dir) => dir,
        None => home_workspace(None, temp),
    }
}

/// The variables that may name the home directory.
#[derive(Debug, Clone, PartialEq, Eq)]
pub struct HomeVars {
    pub home: Option<String>,
    pub user_profile: Option<String>,
    pub home_drive: Option<String>,
    pub home_path: Option<String>,
}

/// The directory, where it can be the working directory of a child.
pub open spec fn if_usable(dir: Option<Seq<char>>, windows: bool) -> Option<Seq<char>> {
    match dir {
        Some(d) => if is_usable_directory(d, windows) {
            Some(d)
        } else {
            None
        },
        None => None,
    }
}

/// The home directory: the first variable that names a usable one. Windows has its own first.
pub open spec fn home_in(vars: HomeVars, windows: bool) -> Option<Seq<char>> {
    let home = if_usable(opt_view(vars.home), windows);
    let profile = if_usable(opt_view(vars.user_profile), windows);
    let first = if windows {
        profile
    } else {
        home
    };
    let second = if windows {
        home
    } else {
        profile
    };
    if first is Some {
        first
    } else if second is Some {
        second
    } else {
        match (vars.home_drive, vars.home_path) {
            (Some(drive), Some(path)) => if_usable(
                Some(path_joined(drive@, path@, windows)),
                windows,
            ),
            _ => None,
        }
    }
}

fn usable(dir: &Option<String>, windows: bool) -> (r: Option<String>)
    ensures
        opt_view(r) == if_usable(opt_view(*dir), windows),
{
    match dir {
        Some(d) => {
            if usable_directory(d.as_str(), windows) {
                Some(d.clone())
            } else {
                None
            }
        },
        None => None,
    }
}

/// The user's home directory.
pub fn home_dir(vars: &HomeVars, windows: bool) -> (r: Option<String>)
    ensures
        opt_view(r) == home_in(*vars, windows),
{
    let home = usable(&vars.home, windows);
    let profile = usable(&vars.user_profile, windows);
    let (first, second) = if windows {
        (profile, home)
    } else {
        (home, profile)
    };
    if first.is_some() {
        return first;
    }
    if second.is_some() {
        return second;
    }
    match (&vars.home_drive, &vars.home_path) {
        (Some(drive), Some(path)) => {
            let combined = path_join(drive.as_str(), path.as_str(), windows);
            usable(&Some(combined), windows)
        },
        _ => None,
    }
}

/// What the file system says of the configured paths.
#[derive(Debug, Clone, PartialEq, Eq)]
pub struct ConfigFacts {
    pub workspace_is_dir: bool,
    pub dsh_path_is_file: bool,
    /// The workspace to use where the configured one cannot be.
    pub fallback: String,
    /// The app's own working directory, where it is known.
    pub cwd: Option<String>,
    pub windows: bool,
}

/// The workspace that is used.
pub open spec fn workspace_of(workspace: Seq<char>, facts: ConfigFacts) -> Seq<char> {
    if is_usable_directory(workspace, facts.windows) && facts.workspace_is_dir {
        path_absolute(workspace, opt_view(facts.cwd), facts.windows)
    } else {
        facts.fallback@
    }
}

/// The remembered launcher that is used.
pub open spec fn launcher_of(path: Option<Seq<char>>, facts: ConfigFacts) -> Option<Seq<char>> {
    match path {
        Some(p) => if path_is_absolute(p, facts.windows) && facts.dsh_path_is_file {
            Some(p)
        } else {
            None
        },
        None => None,
    }
}

/// The home of dsh that is used.
pub open spec fn dsh_home_of(home: Option<Seq<char>>, facts: ConfigFacts) -> Option<Seq<char>> {
    match home {
        Some(h) => if is_usable_directory(h, facts.windows) {
            Some(path_absolute(h, opt_view(facts.cwd), facts.windows))
        } else {
            None
        },
        None => None,
    }
}

/// What the log says of a workspace that cannot be used.
pub open spec fn workspace_note(workspace: Seq<char>, facts: ConfigFacts) -> Option<Seq<char>> {
    if is_usable_directory(workspace, facts.windows) && facts.workspace_is_dir {
        None
    } else {
        Some(
            "config.json 的 workspace 不是已存在的绝对路径，本次改用 "@ + facts.fallback@ + ": "@
                + workspace,
        )
    }
}

/// What the log says of a launcher that cannot be used.
pub open spec fn launcher_note(path: Option<Seq<char>>, facts: ConfigFacts) -> Option<Seq<char>> {
    match path {
        Some(p) => if launcher_of(path, facts) is None {
            Some("config.json 的 dsh_path 不是已存在的绝对路径，本次忽略: "@ + p)
        } else {
            None
        },
        None => None,
    }
}

/// What the log says of a home of dsh that cannot be used.
pub open spec fn dsh_home_note(home: Option<Seq<char>>, facts: ConfigFacts) -> Option<Seq<char>> {
    match home {
        Some(h) => if dsh_home_of(home, facts) is None {
            Some("config.json 中的 dsh_home 不可用，已忽略: "@ + h)
        } else {
            None
        },
        None => None,
    }
}

/// What came of reading `config.json`.
pub enum ConfigRead {
    /// The file holds this configuration.
    Parsed(Config),
    /// The file was read and is no configuration; the parser's own words.
    Broken(String),
    /// No file could be read.
    Unread,
}

/// What a read of `config.json` comes to, before the paths in it are repaired.
pub struct Loaded {
    pub config: Config,
    /// A line for the log.
    pub note: Option<String>,
    /// Take from others the right to read the file: its `env` may hold credentials.
    pub restrict: bool,
    /// Write the configuration to the file once it is repaired.
    pub seed: bool,
}

/// Is `c` what a shell that finds no file goes by, with `workspace` for the workspace?
pub open spec fn is_default(c: Config, workspace: Seq<char>) -> bool {
    &&& c.port == 3080
    &&& c.workspace@ == workspace
    &&& c.dsh_home is None
    &&& c.dsh_path is None
    &&& !c.take_over_existing
    &&& c.auto_update
    &&& texts(c.update_tags@) == seq!["latest"@, "next"@, "alpha"@]
    &&& c.update_check_interval_minutes == 60
    &&& c.import_shell_env
    &&& c.env.wf() && c.env@ == Map::<Seq<char>, Seq<char>>::empty()
    &&& c.require_tested_dsh
    &&& c.runtime == Preference::Auto
    &&& c.system_updates == SystemUpdates::Notify
    &&& !c.auto_update_plugins
    &&& c.webkit_compat
    &&& c.render_fallback
    &&& c.page_diagnostics
    &&& c.keep_menu_focus
    &&& c.scroll_anchor
}

/// What the log says of a file that is no configuration.
pub open spec fn broken_note(error: Seq<char>) -> Seq<char> {
    "config.json 无法解析，本次使用默认配置且不覆盖该文件: "@ + error
}

/// An optional path as an optional borrowed text.
fn borrowed(path: &Option<String>) -> (r: Option<&str>)
    ensures
        str_view(r) == opt_view(*path),
{
    match path {
        Some(p) => Some(p.as_str()),
        None => None,
    }
}

impl Config {
    /// The configuration of a file that does not exist yet.
    pub fn defaults(workspace: String) -> (r: Config)
        ensures
            is_default(r, workspace@),
            r.workspace == workspace,
    {
        Config {
            port: default_port(),
            workspace,
            dsh_home: None,
            dsh_path: None,
            take_over_existing: default_take_over(),
            auto_update: default_auto_update(),
            update_tags: default_update_tags(),
            update_check_interval_minutes: default_update_interval(),
            import_shell_env: default_import_shell_env(),
            env: EnvMap::new(),
            require_tested_dsh: default_require_tested_dsh(),
            runtime: Preference::Auto,
            system_updates: default_system_updates(),
            auto_update_plugins: false,
            webkit_compat: default_webkit_compat(),
            render_fallback: default_render_fallback(),
            page_diagnostics: default_page_diagnostics(),
            keep_menu_focus: default_keep_menu_focus(),
            scroll_anchor: default_scroll_anchor(),
        }
    }

    /// The configuration that a read of the file comes to. What the user wrote is taken as it is;
    /// without it the defaults hold for this run, and the file is written only where `exists` says
    /// that there is none: one that the user owns is never replaced.
    pub fn load(read: ConfigRead, exists: bool, workspace: String) -> (r: Loaded)
        ensures
            match read {
                ConfigRead::Parsed(config) => r.config == config && r.note is None && r.restrict
                    && !r.seed,
                ConfigRead::Broken(error) => is_default(r.config, workspace@) && opt_view(r.note)
                    == Some(broken_note(error@)) && !r.restrict && r.seed == !exists,
                ConfigRead::Unread => is_default(r.config, workspace@) && r.note is None
                    && !r.restrict && r.seed == !exists,
            },
            r.seed ==> !exists,
    {
        let note = match read {
            ConfigRead::Parsed(config) => {
                return Loaded { config, note: None, restrict: true, seed: false };
            },
            ConfigRead::Broken(error) => {
                let mut line =
                    "config.json 无法解析，本次使用默认配置且不覆盖该文件: ".to_owned();
                line.append(error.as_str());
                Some(line)
            },
            ConfigRead::Unread => None,
        };
        Loaded { config: Config::defaults(workspace), note, restrict: false, seed: !exists }
    }

    /// Replaces the paths that would send the Harness where it cannot start, in memory only, and
    /// gives the lines for the log.
    pub fn repair(&mut self, facts: &ConfigFacts) -> (r: Vec<String>)
        ensures
            texts(r@) == maybe(workspace_note(old(self).workspace@, *facts)) + maybe(
                launcher_note(opt_view(old(self).dsh_path), *facts),
            ) + maybe(dsh_home_note(opt_view(old(self).dsh_home), *facts)),
            final(self).workspace@ == workspace_of(old(self).workspace@, *facts),
            opt_view(final(self).dsh_path) == launcher_of(opt_view(old(self).dsh_path), *facts),
            opt_view(final(self).dsh_home) == dsh_home_of(opt_view(old(self).dsh_home), *facts),
            *final(self) == (Config {
                workspace: final(self).workspace,
                dsh_path: final(self).dsh_path,
                dsh_home: final(self).dsh_home,
                ..*old(self)
            }),
    {
        let (workspace, about_workspace) = repair_workspace(self.workspace.as_str(), facts);
        let (dsh_path, about_path) = repair_launcher(&self.dsh_path, facts);
        let (dsh_home, about_home) = repair_home(&self.dsh_home, facts);
        self.workspace = workspace;
        self.dsh_path = dsh_path;
        self.dsh_home = dsh_home;
        notes(about_workspace, about_path, about_home)
    }
}

fn repair_workspace(workspace: &str, facts: &ConfigFacts) -> (r: (String, Option<String>))
    ensures
        r.0@ == workspace_of(workspace@, *facts),
        opt_view(r.1) == workspace_note(workspace@, *facts),
{
    if usable_directory(workspace, facts.windows) && facts.workspace_is_dir {
        return (absolute(workspace, borrowed(&facts.cwd), facts.windows), None);
    }
    let mut line = "config.json 的 workspace 不是已存在的绝对路径，本次改用 ".to_owned();
    line.append(facts.fallback.as_str());
    line.append(": ");
    line.append(workspace);
    (facts.fallback.clone(), Some(line))
}

fn repair_launcher(path: &Option<String>, facts: &ConfigFacts) -> (r: (
    Option<String>,
    Option<String>,
))
    ensures
        opt_view(r.0) == launcher_of(opt_view(*path), *facts),
        opt_view(r.1) == launcher_note(opt_view(*path), *facts),
{
    match path {
        Some(p) => {
            if is_absolute(p.as_str(), facts.windows) && facts.dsh_path_is_file {
                return (Some(p.clone()), None);
            }
            let mut line = "config.json 的 dsh_path 不是已存在的绝对路径，本次忽略: ".to_owned();
            line.append(p.as_str());
            (None, Some(line))
        },
        None => (None, None),
    }
}

fn repair_home(home: &Option<String>, facts: &ConfigFacts) -> (r: (Option<String>, Option<String>))
    ensures
        opt_view(r.0) == dsh_home_of(opt_view(*home), *facts),
        opt_view(r.1) == dsh_home_note(opt_view(*home), *facts),
{
    match home {
        Some(h) => {
            if usable_directory(h.as_str(), facts.windows) {
                return (Some(absolute(h.as_str(), borrowed(&facts.cwd), facts.windows)), None);
            }
            let mut line = "config.json 中的 dsh_home 不可用，已忽略: ".to_owned();
            line.append(h.as_str());
            (None, Some(line))
        },
        None => (None, None),
    }
}

/// The notes that there are, in order.
fn notes(a: Option<String>, b: Option<String>, c: Option<String>) -> (r: Vec<String>)
    ensures
        texts(r@) == maybe(opt_view(a)) + maybe(opt_view(b)) + maybe(opt_view(c)),
{
    let mut out: Vec<String> = Vec::new();
    let ghost views = maybe(opt_view(a)) + maybe(opt_view(b)) + maybe(opt_view(c));
    if let Some(note) = a {
        out.push(note);
    }
    if let Some(note) = b {
        out.push(note);
    }
    if let Some(note) = c {
        out.push(note);
    }
    proof {
        assert(texts(out@) =~= views);
    }
    out
}

/// Whatever the file says, the paths that are used can serve: where the fallback is a usable
/// directory, so is the workspace, up to the prefix that Windows paths may lose.
pub proof fn a_repaired_workspace_is_usable(workspace: Seq<char>, facts: ConfigFacts)
    requires
        !facts.windows,
        is_usable_directory(facts.fallback@, false),
    ensures
        is_usable_directory(workspace_of(workspace, facts), false),
{
    crate::paths::only_windows_paths_change(workspace);
}

/// A home that says something is the workspace, and the temporary directory where it is blank or
/// there is none.
pub proof fn a_blank_home_is_none(home: Seq<char>, blanks: Seq<char>, temp: Seq<char>)
    requires
        home.len() > 0,
        !crate::redaction::blank(home[0]) && !crate::redaction::blank(home.last()),
        forall|i: int| 0 <= i < blanks.len() ==> crate::redaction::blank(#[trigger] blanks[i]),
    ensures
        home_or_temp(Some(home), temp) == home,
        home_or_temp(Some(blanks), temp) == temp,
        home_or_temp(None, temp) == temp,
{
    let none = Seq::<char>::empty();
    crate::text::trimming_takes_the_ends(none, home, none);
    assert(none + home + none =~= home);
    crate::text::trimming_takes_the_ends(blanks, none, none);
    assert(blanks + none + none =~= blanks);
}

/// The home directory is the first that is usable of what the variables name: `HOME` and then
/// `USERPROFILE`, on Windows the other way round, and then the drive with the path on it.
pub proof fn which_home_is_taken(vars: HomeVars, home: Seq<char>, profile: Seq<char>)
    requires
        opt_view(vars.home) == Some(home),
        opt_view(vars.user_profile) == Some(profile),
    ensures
        is_usable_directory(home, false) ==> home_in(vars, false) == Some(home),
        !is_usable_directory(home, false) && is_usable_directory(profile, false) ==> home_in(
            vars,
            false,
        ) == Some(profile),
        is_usable_directory(profile, true) ==> home_in(vars, true) == Some(profile),
        !is_usable_directory(profile, true) && is_usable_directory(home, true) ==> home_in(
            vars,
            true,
        ) == Some(home),
        vars.home_drive is None || vars.home_path is None ==> (home_in(vars, false) is None
            <==> !is_usable_directory(home, false) && !is_usable_directory(profile, false)),
{
}

/// A home directory that is found is always one that a child can work in.
pub proof fn a_home_is_usable(vars: HomeVars, windows: bool)
    ensures
        home_in(vars, windows) matches Some(dir) ==> is_usable_directory(dir, windows),
{
}

/// Away from Windows a path with a name below the root can be worked in, and neither a relative
/// path nor the root can.
pub proof fn where_a_child_can_work(dir: Seq<char>, name: Seq<char>)
    requires
        crate::paths::is_plain_name(name),
        dir.len() > 1 && dir[0] == '/' && dir.last() != '/',
        !(dir.last() == '.' && dir[dir.len() - 2] == '/'),
    ensures
        is_usable_directory(seq!['/'] + name, false),
        is_usable_directory(dir + seq!['/'] + name, false),
        !is_usable_directory(name, false),
        !is_usable_directory(seq!['/'], false),
        !is_usable_directory(Seq::empty(), false),
{
    assert forall|i: int| 0 <= i < name.len() implies name[i] != '/' by {
        assert(!crate::paths::is_sep(name[i]));
    }
    crate::paths::a_path_is_its_directory_and_its_name(dir, name);
    assert((dir + seq!['/'] + name)[0] == '/');
    assert((seq!['/'] + name)[0] == '/');
    assert(!crate::paths::is_sep(name[0]));
}

/// A configured path is used exactly where nothing is said against it, and what is used instead
/// is the fallback for the workspace, and nothing for the others.
pub proof fn a_note_goes_with_each_repair(
    workspace: Seq<char>,
    path: Option<Seq<char>>,
    facts: ConfigFacts,
)
    requires
        !facts.windows,
    ensures
        workspace_note(workspace, facts) is None ==> workspace_of(workspace, facts) == workspace,
        workspace_note(workspace, facts) is Some ==> workspace_of(workspace, facts)
            == facts.fallback@,
        workspace_note(workspace, facts) is None <==> is_usable_directory(workspace, false)
            && facts.workspace_is_dir,
        launcher_note(path, facts) is None ==> launcher_of(path, facts) == path,
        launcher_note(path, facts) is Some ==> launcher_of(path, facts) is None,
        path matches Some(p) ==> (launcher_of(path, facts) is Some <==> p.len() > 0 && p[0] == '/'
            && facts.dsh_path_is_file),
        dsh_home_note(path, facts) is None ==> dsh_home_of(path, facts) == path,
        dsh_home_note(path, facts) is Some ==> dsh_home_of(path, facts) is None,
        path matches Some(p) ==> (dsh_home_of(path, facts) is Some <==> is_usable_directory(
            p,
            false,
        )),
{
    crate::paths::only_windows_paths_change(workspace);
    if path is Some {
        crate::paths::only_windows_paths_change(path->0);
    }
}

/// What is said of a file that cannot be read as a config tells why.
pub proof fn a_broken_file_is_told_with_its_error(error: Seq<char>)
    ensures
        crate::text::mentions(broken_note(error), error),
{
    crate::text::lemma_mentions(
        "config.json 无法解析，本次使用默认配置且不覆盖该文件: "@,
        error,
        Seq::empty(),
    );
}

} // verus!

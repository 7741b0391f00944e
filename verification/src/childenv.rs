//! The environment that the children of the shell run with.
use vstd::prelude::*;

#[allow(unused_imports)]
use crate::harness::pairs;
use crate::paths::{parent, path_join};
#[allow(unused_imports)]
use crate::paths::{parent_path, path_joined};
#[allow(unused_imports)]
use crate::runtime::str_view;
use crate::search_path::merge_path;
#[allow(unused_imports)]
use crate::search_path::merged_path;
use crate::shellenv::EnvMap;
use crate::text::text_eq;
#[allow(unused_imports)]
use crate::text::{opt_view, texts};

verus! {

/// The platform, as far as the PATH depends on it.
#[derive(Debug, Clone, PartialEq, Eq)]
pub struct Platform {
    pub macos: bool,
    pub windows: bool,
    /// The system directory of Windows, where it is known.
    pub system_root: Option<String>,
}

/// The writable directory for global installs.
pub open spec fn tools_dir(data_dir: Seq<char>, windows: bool) -> Seq<char> {
    path_joined(path_joined(data_dir, "runtime"@, windows), "tools"@, windows)
}

/// A directory for tools as entries of a PATH: its `bin` and itself.
pub open spec fn tool_entries(tools: Seq<char>, windows: bool) -> Seq<Seq<char>> {
    seq![path_joined(tools, "bin"@, windows), tools]
}

/// The entries that go in front of a PATH, in order.
pub open spec fn tool_prefix(
    node: Seq<char>,
    seed: Option<Seq<char>>,
    bundled: bool,
    data_dir: Seq<char>,
    platform: Platform,
) -> Seq<Seq<char>> {
    (match parent_path(node, platform.windows) {
        Some(dir) => seq![dir],
        None => Seq::empty(),
    }) + (if bundled {
        tool_entries(tools_dir(data_dir, platform.windows), platform.windows) + (match seed {
            Some(root) => tool_entries(
                path_joined(root, "tools"@, platform.windows),
                platform.windows,
            ),
            None => Seq::empty(),
        })
    } else {
        Seq::empty()
    }) + (if platform.macos {
        seq!["/opt/homebrew/bin"@, "/usr/local/bin"@]
    } else {
        Seq::empty()
    }) + (if platform.windows {
        match opt_view(platform.system_root) {
            Some(root) => seq![path_joined(root, "System32"@, true), root],
            None => Seq::empty(),
        }
    } else {
        Seq::empty()
    })
}

/// The entries that go in front of a PATH: the directory of the node; for the shell's own tree,
/// the directories that hold pnpm; and what the platform needs.
pub fn tool_path_prefix(
    node: &str,
    seed: Option<&str>,
    bundled: bool,
    data_dir: &str,
    platform: &Platform,
) -> (r: Vec<String>)
    ensures
        texts(r@) == tool_prefix(node@, str_view(seed), bundled, data_dir@, *platform),
{
    let mut out: Vec<String> = Vec::new();
    match parent(node, platform.windows) {
        Some(dir) => {
            out.push(dir);
        },
        None => {},
    }
    if bundled {
        let runtime = path_join(data_dir, "runtime", platform.windows);
        let tools = path_join(runtime.as_str(), "tools", platform.windows);
        out.push(path_join(tools.as_str(), "bin", platform.windows));
        out.push(tools);
        match seed {
            Some(root) => {
                let shipped = path_join(root, "tools", platform.windows);
                out.push(path_join(shipped.as_str(), "bin", platform.windows));
                out.push(shipped);
            },
            None => {},
        }
    }
    if platform.macos {
        out.push("/opt/homebrew/bin".to_owned());
        out.push("/usr/local/bin".to_owned());
    }
    if platform.windows {
        match &platform.system_root {
            Some(root) => {
                out.push(path_join(root.as_str(), "System32", true));
                out.push(root.clone());
            },
            None => {},
        }
    }
    proof {
        assert(texts(out@) =~= tool_prefix(node@, str_view(seed), bundled, data_dir@, *platform));
    }
    out
}

/// The variables without those of a name.
pub open spec fn without_name(vars: Seq<(Seq<char>, Seq<char>)>, name: Seq<char>) -> Seq<
    (Seq<char>, Seq<char>),
>
    decreases vars.len(),
{
    if vars.len() == 0 {
        vars
    } else if vars.last().0 == name {
        without_name(vars.drop_last(), name)
    } else {
        without_name(vars.drop_last(), name).push(vars.last())
    }
}

/// The variables with one set, which then stands last.
pub open spec fn with_var(
    vars: Seq<(Seq<char>, Seq<char>)>,
    name: Seq<char>,
    value: Seq<char>,
) -> Seq<(Seq<char>, Seq<char>)> {
    without_name(vars, name).push((name, value))
}

/// The variables with all of a list set, in order.
pub open spec fn with_vars(
    vars: Seq<(Seq<char>, Seq<char>)>,
    more: Seq<(Seq<char>, Seq<char>)>,
) -> Seq<(Seq<char>, Seq<char>)>
    decreases more.len(),
{
    if more.len() == 0 {
        vars
    } else {
        with_var(with_vars(vars, more.drop_last()), more.last().0, more.last().1)
    }
}

fn remove_name(vars: &[(String, String)], name: &str) -> (r: Vec<(String, String)>)
    ensures
        pairs(r@) == without_name(pairs(vars@), name@),
{
    let ghost all = pairs(vars@);
    let mut out: Vec<(String, String)> = Vec::new();
    let mut i: usize = 0;
    proof {
        assert(all.take(0) =~= Seq::<(Seq<char>, Seq<char>)>::empty());
        assert(pairs(out@) =~= Seq::<(Seq<char>, Seq<char>)>::empty());
    }
    while i < vars.len()
        invariant
            i <= vars@.len(),
            all == pairs(vars@),
            pairs(out@) == without_name(all.take(i as int), name@),
        decreases vars@.len() - i,
    {
        proof {
            let next = all.take(i + 1);
            assert(next.drop_last() =~= all.take(i as int));
            assert(next.last() == all[i as int]);
        }
        if !text_eq(vars[i].0.as_str(), name) {
            let ghost before = pairs(out@);
            out.push((vars[i].0.clone(), vars[i].1.clone()));
            proof {
                assert(pairs(out@) =~= before.push(all[i as int]));
            }
        }
        i += 1;
    }
    proof {
        assert(all.take(all.len() as int) =~= all);
    }
    out
}

fn set_var(vars: &[(String, String)], name: &str, value: &str) -> (r: Vec<(String, String)>)
    ensures
        pairs(r@) == with_var(pairs(vars@), name@, value@),
{
    let mut out = remove_name(vars, name);
    let ghost before = pairs(out@);
    out.push((name.to_owned(), value.to_owned()));
    proof {
        assert(pairs(out@) =~= before.push((name@, value@)));
    }
    out
}

/// The variables of a map, in the order of their names.
fn list_vars(map: &EnvMap) -> (r: Vec<(String, String)>)
    ensures
        pairs(r@) == map.listed(),
{
    let mut out: Vec<(String, String)> = Vec::new();
    let mut i: usize = 0;
    while i < map.len()
        invariant
            i <= map.listed().len(),
            pairs(out@) == map.listed().take(i as int),
        decreases map.listed().len() - i,
    {
        let (name, value) = map.at(i);
        let ghost before = pairs(out@);
        out.push((name.clone(), value.clone()));
        proof {
            assert(pairs(out@) =~= before.push(map.listed()[i as int]));
            assert(map.listed().take(i + 1) =~= before.push(map.listed()[i as int]));
        }
        i += 1;
    }
    proof {
        assert(map.listed().take(i as int) =~= map.listed());
    }
    out
}

/// The PATH that the children get.
pub open spec fn child_path(
    node: Seq<char>,
    seed: Option<Seq<char>>,
    bundled: bool,
    data_dir: Seq<char>,
    imported: Map<Seq<char>, Seq<char>>,
    app_path: Option<Seq<char>>,
    platform: Platform,
) -> Seq<char> {
    merged_path(
        tool_prefix(node, seed, bundled, data_dir, platform),
        if imported.dom().contains("PATH"@) {
            Some(imported["PATH"@])
        } else {
            None
        },
        app_path,
        platform.windows,
    )
}

/// The variables that the Harness gets: the imported ones; the PATH; where the tree is the
/// shell's own, where global installs go; and at last what the configuration sets.
pub open spec fn child_vars(
    imported: Seq<(Seq<char>, Seq<char>)>,
    path: Seq<char>,
    bundled: bool,
    data_dir: Seq<char>,
    configured: Seq<(Seq<char>, Seq<char>)>,
    windows: bool,
) -> Seq<(Seq<char>, Seq<char>)> {
    let base = with_var(imported, "PATH"@, path);
    let tools = tools_dir(data_dir, windows);
    let own = if bundled {
        without_name(without_name(base, "npm_config_prefix"@), "PNPM_HOME"@).push(
            ("npm_config_prefix"@, tools),
        ).push(("PNPM_HOME"@, path_joined(tools, "bin"@, windows)))
    } else {
        base
    };
    with_vars(own, configured)
}

/// The environment of the children.
#[derive(Debug, Clone, PartialEq, Eq)]
pub struct ChildEnv {
    /// The PATH by itself, for what the shell runs.
    pub path: String,
    /// All that the Harness gets.
    pub vars: Vec<(String, String)>,
}

impl ChildEnv {
    /// Puts the environment together. `imported` is what the login shell told.
    pub fn assemble(
        configured: &EnvMap,
        node: &str,
        seed: Option<&str>,
        bundled: bool,
        data_dir: &str,
        imported: &EnvMap,
        app_path: Option<&str>,
        platform: &Platform,
    ) -> (r: ChildEnv)
        requires
            imported.wf(),
        ensures
            r.path@ == child_path(
                node@,
                str_view(seed),
                bundled,
                data_dir@,
                imported@,
                str_view(app_path),
                *platform,
            ),
            pairs(r.vars@) == child_vars(
                imported.listed(),
                r.path@,
                bundled,
                data_dir@,
                configured.listed(),
                platform.windows,
            ),
    {
        let prefix = tool_path_prefix(node, seed, bundled, data_dir, platform);
        let shell: Option<&str> = match imported.get("PATH") {
            Some(list) => Some(list.as_str()),
            None => None,
        };
        let path = merge_path(prefix.as_slice(), shell, app_path, platform.windows);
        let listed = list_vars(imported);
        let mut vars = set_var(listed.as_slice(), "PATH", path.as_str());
        if bundled {
            let windows = platform.windows;
            let runtime = path_join(data_dir, "runtime", windows);
            let tools = path_join(runtime.as_str(), "tools", windows);
            let bin = path_join(tools.as_str(), "bin", windows);
            let kept = remove_name(vars.as_slice(), "npm_config_prefix");
            vars = remove_name(kept.as_slice(), "PNPM_HOME");
            let ghost before = pairs(vars@);
            let ghost t = tools@;
            let ghost b = bin@;
            vars.push(("npm_config_prefix".to_owned(), tools));
            proof {
                assert(pairs(vars@) =~= before.push(("npm_config_prefix"@, t)));
            }
            let ghost middle = pairs(vars@);
            vars.push(("PNPM_HOME".to_owned(), bin));
            proof {
                assert(pairs(vars@) =~= middle.push(("PNPM_HOME"@, b)));
            }
        }
        let ghost own = pairs(vars@);
        let mut i: usize = 0;
        proof {
            assert(configured.listed().take(0) =~= Seq::<(Seq<char>, Seq<char>)>::empty());
        }
        while i < configured.len()
            invariant
                i <= configured.listed().len(),
                pairs(vars@) == with_vars(own, configured.listed().take(i as int)),
            decreases configured.listed().len() - i,
        {
            proof {
                let next = configured.listed().take(i + 1);
                assert(next.drop_last() =~= configured.listed().take(i as int));
                assert(next.last() == configured.listed()[i as int]);
            }
            let (name, value) = configured.at(i);
            vars = set_var(vars.as_slice(), name.as_str(), value.as_str());
            i += 1;
        }
        proof {
            assert(configured.listed().take(i as int) =~= configured.listed());
        }
        ChildEnv { path, vars }
    }
}

/// Is the variable among them?
pub open spec fn sets(vars: Seq<(Seq<char>, Seq<char>)>, name: Seq<char>, value: Seq<char>) -> bool {
    exists|i: int| 0 <= i < vars.len() && #[trigger] vars[i] == (name, value)
}

/// Is there a variable of that name?
pub open spec fn names(vars: Seq<(Seq<char>, Seq<char>)>, name: Seq<char>) -> bool {
    exists|i: int| 0 <= i < vars.len() && (#[trigger] vars[i]).0 == name
}

proof fn lemma_without_name(
    vars: Seq<(Seq<char>, Seq<char>)>,
    gone: Seq<char>,
    name: Seq<char>,
    value: Seq<char>,
)
    ensures
        !names(without_name(vars, gone), gone),
        name != gone ==> sets(without_name(vars, gone), name, value) == sets(vars, name, value),
        name != gone ==> names(without_name(vars, gone), name) == names(vars, name),
    decreases vars.len(),
{
    if vars.len() > 0 {
        let rest = vars.drop_last();
        lemma_without_name(rest, gone, name, value);
        let kept = without_name(rest, gone);
        let out = without_name(vars, gone);
        assert forall|n: Seq<char>, v: Seq<char>| sets(vars, n, v) == (sets(rest, n, v)
            || vars.last() == (n, v)) by {
            lemma_sets_push(rest, vars.last(), n, v);
            assert(rest.push(vars.last()) =~= vars);
        }
        assert forall|n: Seq<char>| names(vars, n) == (names(rest, n) || vars.last().0 == n) by {
            lemma_names_push(rest, vars.last(), n);
            assert(rest.push(vars.last()) =~= vars);
        }
        if vars.last().0 != gone {
            lemma_sets_push(kept, vars.last(), name, value);
            lemma_names_push(kept, vars.last(), name);
            lemma_names_push(kept, vars.last(), gone);
        }
    }
}

proof fn lemma_sets_push(
    vars: Seq<(Seq<char>, Seq<char>)>,
    last: (Seq<char>, Seq<char>),
    name: Seq<char>,
    value: Seq<char>,
)
    ensures
        sets(vars.push(last), name, value) == (sets(vars, name, value) || last == (name, value)),
{
    let more = vars.push(last);
    if sets(vars, name, value) {
        let i = choose|i: int| 0 <= i < vars.len() && #[trigger] vars[i] == (name, value);
        assert(more[i] == (name, value));
    }
    if last == (name, value) {
        assert(more[vars.len() as int] == (name, value));
    }
    if sets(more, name, value) {
        let i = choose|i: int| 0 <= i < more.len() && #[trigger] more[i] == (name, value);
        if i < vars.len() {
            assert(vars[i] == (name, value));
        }
    }
}

proof fn lemma_names_push(
    vars: Seq<(Seq<char>, Seq<char>)>,
    last: (Seq<char>, Seq<char>),
    name: Seq<char>,
)
    ensures
        names(vars.push(last), name) == (names(vars, name) || last.0 == name),
{
    let more = vars.push(last);
    if names(vars, name) {
        let i = choose|i: int| 0 <= i < vars.len() && (#[trigger] vars[i]).0 == name;
        assert(more[i].0 == name);
    }
    if last.0 == name {
        assert(more[vars.len() as int].0 == name);
    }
    if names(more, name) {
        let i = choose|i: int| 0 <= i < more.len() && (#[trigger] more[i]).0 == name;
        if i < vars.len() {
            assert(vars[i].0 == name);
        }
    }
}

proof fn lemma_with_vars(
    vars: Seq<(Seq<char>, Seq<char>)>,
    more: Seq<(Seq<char>, Seq<char>)>,
    name: Seq<char>,
    value: Seq<char>,
)
    ensures
        !names(more, name) ==> sets(with_vars(vars, more), name, value) == sets(vars, name, value),
    decreases more.len(),
{
    if more.len() > 0 && !names(more, name) {
        let rest = more.drop_last();
        assert(rest.push(more.last()) =~= more);
        lemma_names_push(rest, more.last(), name);
        lemma_with_vars(vars, rest, name, value);
        let before = with_vars(vars, rest);
        lemma_without_name(before, more.last().0, name, value);
        lemma_sets_push(without_name(before, more.last().0), more.last(), name, value);
    }
}

proof fn lemma_with_vars_sets(
    vars: Seq<(Seq<char>, Seq<char>)>,
    more: Seq<(Seq<char>, Seq<char>)>,
    i: int,
)
    requires
        0 <= i < more.len(),
        forall|j: int| i < j < more.len() ==> (#[trigger] more[j]).0 != more[i].0,
    ensures
        sets(with_vars(vars, more), more[i].0, more[i].1),
    decreases more.len(),
{
    let rest = more.drop_last();
    let before = with_vars(vars, rest);
    let last = more.last();
    if i < rest.len() {
        assert forall|j: int| i < j < rest.len() implies (#[trigger] rest[j]).0 != rest[i].0 by {
            assert(more[j].0 != more[i].0);
        }
        lemma_with_vars_sets(vars, rest, i);
        assert(last == more[more.len() - 1]);
        lemma_without_name(before, last.0, more[i].0, more[i].1);
    }
    lemma_sets_push(without_name(before, last.0), last, more[i].0, more[i].1);
}

/// What the configuration sets reaches the Harness as it is set, whatever the login shell or the
/// shell itself would set: of several entries of a name the last counts.
pub proof fn the_configuration_wins(
    imported: Seq<(Seq<char>, Seq<char>)>,
    path: Seq<char>,
    bundled: bool,
    data_dir: Seq<char>,
    configured: Seq<(Seq<char>, Seq<char>)>,
    i: int,
    windows: bool,
)
    requires
        0 <= i < configured.len(),
        forall|j: int| i < j < configured.len() ==> (#[trigger] configured[j]).0 != configured[i].0,
    ensures
        sets(
            child_vars(imported, path, bundled, data_dir, configured, windows),
            configured[i].0,
            configured[i].1,
        ),
{
    let base = with_var(imported, "PATH"@, path);
    let tools = tools_dir(data_dir, windows);
    let own = if bundled {
        without_name(without_name(base, "npm_config_prefix"@), "PNPM_HOME"@).push(
            ("npm_config_prefix"@, tools),
        ).push(("PNPM_HOME"@, path_joined(tools, "bin"@, windows)))
    } else {
        base
    };
    lemma_with_vars_sets(own, configured, i);
}

/// Unless the configuration says otherwise, the Harness runs with the PATH that was put together;
/// and global installs from the shell's own tree go to the writable directory, never into the app.
pub proof fn installs_go_to_the_writable_directory(
    imported: Seq<(Seq<char>, Seq<char>)>,
    path: Seq<char>,
    bundled: bool,
    data_dir: Seq<char>,
    configured: Seq<(Seq<char>, Seq<char>)>,
    windows: bool,
)
    ensures
        !names(configured, "PATH"@) ==> sets(
            child_vars(imported, path, bundled, data_dir, configured, windows),
            "PATH"@,
            path,
        ),
        bundled && !names(configured, "npm_config_prefix"@) ==> sets(
            child_vars(imported, path, bundled, data_dir, configured, windows),
            "npm_config_prefix"@,
            tools_dir(data_dir, windows),
        ),
        bundled && !names(configured, "PNPM_HOME"@) ==> sets(
            child_vars(imported, path, bundled, data_dir, configured, windows),
            "PNPM_HOME"@,
            path_joined(tools_dir(data_dir, windows), "bin"@, windows),
        ),
{
    reveal_strlit("PATH");
    reveal_strlit("npm_config_prefix");
    reveal_strlit("PNPM_HOME");
    assert("PATH"@.len() == 4 && "npm_config_prefix"@.len() == 17 && "PNPM_HOME"@.len() == 9);
    let tools = tools_dir(data_dir, windows);
    let bin = path_joined(tools, "bin"@, windows);
    let first = without_name(imported, "PATH"@);
    let base = with_var(imported, "PATH"@, path);
    lemma_sets_push(first, ("PATH"@, path), "PATH"@, path);
    let a = without_name(base, "npm_config_prefix"@);
    let b = without_name(a, "PNPM_HOME"@);
    lemma_without_name(base, "npm_config_prefix"@, "PATH"@, path);
    lemma_without_name(a, "PNPM_HOME"@, "PATH"@, path);
    let c = b.push(("npm_config_prefix"@, tools));
    let d = c.push(("PNPM_HOME"@, bin));
    lemma_sets_push(b, ("npm_config_prefix"@, tools), "PATH"@, path);
    lemma_sets_push(c, ("PNPM_HOME"@, bin), "PATH"@, path);
    lemma_sets_push(b, ("npm_config_prefix"@, tools), "npm_config_prefix"@, tools);
    lemma_sets_push(c, ("PNPM_HOME"@, bin), "npm_config_prefix"@, tools);
    lemma_sets_push(c, ("PNPM_HOME"@, bin), "PNPM_HOME"@, bin);
    let own = if bundled {
        d
    } else {
        base
    };
    lemma_with_vars(own, configured, "PATH"@, path);
    lemma_with_vars(own, configured, "npm_config_prefix"@, tools);
    lemma_with_vars(own, configured, "PNPM_HOME"@, bin);
}

proof fn lemma_with_vars_named(
    vars: Seq<(Seq<char>, Seq<char>)>,
    more: Seq<(Seq<char>, Seq<char>)>,
    name: Seq<char>,
    value: Seq<char>,
)
    ensures
        names(more, name) && sets(with_vars(vars, more), name, value) ==> sets(more, name, value),
    decreases more.len(),
{
    if more.len() > 0 {
        let rest = more.drop_last();
        let last = more.last();
        let before = with_vars(vars, rest);
        assert(rest.push(last) =~= more);
        lemma_with_vars_named(vars, rest, name, value);
        lemma_sets_push(rest, last, name, value);
        lemma_names_push(rest, last, name);
        lemma_without_name(before, last.0, name, value);
        lemma_sets_push(without_name(before, last.0), last, name, value);
        if last.0 == name && sets(without_name(before, name), name, value) {
            let kept = without_name(before, name);
            let i = choose|i: int| 0 <= i < kept.len() && #[trigger] kept[i] == (name, value);
            assert(kept[i].0 == name);
        }
    }
}

/// A variable that the login shell told, and that neither the shell itself nor the configuration
/// sets, reaches the Harness with the value that it has; and no variable but those is made up.
pub proof fn imported_variables_reach_the_child(
    imported: Seq<(Seq<char>, Seq<char>)>,
    path: Seq<char>,
    bundled: bool,
    data_dir: Seq<char>,
    configured: Seq<(Seq<char>, Seq<char>)>,
    windows: bool,
    name: Seq<char>,
    value: Seq<char>,
)
    requires
        forall|i: int| 0 <= i < configured.len() ==> (#[trigger] configured[i]).0 != name,
        name != "PATH"@,
        bundled ==> name != "npm_config_prefix"@ && name != "PNPM_HOME"@,
    ensures
        sets(child_vars(imported, path, bundled, data_dir, configured, windows), name, value)
            == sets(imported, name, value),
{
    let tools = tools_dir(data_dir, windows);
    let bin = path_joined(tools, "bin"@, windows);
    let first = without_name(imported, "PATH"@);
    let base = with_var(imported, "PATH"@, path);
    lemma_without_name(imported, "PATH"@, name, value);
    lemma_sets_push(first, ("PATH"@, path), name, value);
    let a = without_name(base, "npm_config_prefix"@);
    let b = without_name(a, "PNPM_HOME"@);
    lemma_without_name(base, "npm_config_prefix"@, name, value);
    lemma_without_name(a, "PNPM_HOME"@, name, value);
    let c = b.push(("npm_config_prefix"@, tools));
    let d = c.push(("PNPM_HOME"@, bin));
    lemma_sets_push(b, ("npm_config_prefix"@, tools), name, value);
    lemma_sets_push(c, ("PNPM_HOME"@, bin), name, value);
    let own = if bundled {
        d
    } else {
        base
    };
    assert(!names(configured, name));
    lemma_with_vars(own, configured, name, value);
}

proof fn lemma_not_named(
    vars: Seq<(Seq<char>, Seq<char>)>,
    name: Seq<char>,
    value: Seq<char>,
)
    ensures
        !names(vars, name) ==> !sets(vars, name, value),
{
    if sets(vars, name, value) {
        let i = choose|i: int| 0 <= i < vars.len() && #[trigger] vars[i] == (name, value);
        assert(vars[i].0 == name);
    }
}

/// What the shell sets itself has one value: the PATH is the one that was put together, and for
/// the shell's own tree global installs go to `runtime/tools` of the data directory, with what
/// pnpm installs in its `bin`. Neither the login shell nor anything else sets another. A name that
/// the configuration sets has no value but one that the configuration gives it.
pub proof fn the_shell_sets_its_own_variables(
    imported: Seq<(Seq<char>, Seq<char>)>,
    path: Seq<char>,
    bundled: bool,
    data_dir: Seq<char>,
    configured: Seq<(Seq<char>, Seq<char>)>,
    windows: bool,
    name: Seq<char>,
    value: Seq<char>,
)
    ensures
        ({
            let vars = child_vars(imported, path, bundled, data_dir, configured, windows);
            let tools = path_joined(path_joined(data_dir, "runtime"@, windows), "tools"@, windows);
            &&& names(configured, name) && sets(vars, name, value) ==> sets(configured, name, value)
            &&& !names(configured, "PATH"@) ==> sets(vars, "PATH"@, value) == (value == path)
            &&& bundled && !names(configured, "npm_config_prefix"@) ==> sets(
                vars,
                "npm_config_prefix"@,
                value,
            ) == (value == tools)
            &&& bundled && !names(configured, "PNPM_HOME"@) ==> sets(vars, "PNPM_HOME"@, value) == (
            value == path_joined(tools, "bin"@, windows))
        }),
{
    reveal_strlit("PATH");
    reveal_strlit("npm_config_prefix");
    reveal_strlit("PNPM_HOME");
    assert("PATH"@.len() == 4 && "npm_config_prefix"@.len() == 17 && "PNPM_HOME"@.len() == 9);
    let tools = tools_dir(data_dir, windows);
    let bin = path_joined(tools, "bin"@, windows);
    let first = without_name(imported, "PATH"@);
    let base = with_var(imported, "PATH"@, path);
    lemma_without_name(imported, "PATH"@, "PATH"@, value);
    lemma_not_named(first, "PATH"@, value);
    lemma_sets_push(first, ("PATH"@, path), "PATH"@, value);
    assert(sets(base, "PATH"@, value) == (value == path));
    let a = without_name(base, "npm_config_prefix"@);
    let b = without_name(a, "PNPM_HOME"@);
    lemma_without_name(base, "npm_config_prefix"@, "PATH"@, value);
    lemma_without_name(a, "PNPM_HOME"@, "PATH"@, value);
    lemma_without_name(a, "PNPM_HOME"@, "npm_config_prefix"@, value);
    lemma_not_named(b, "npm_config_prefix"@, value);
    lemma_not_named(b, "PNPM_HOME"@, value);
    let c = b.push(("npm_config_prefix"@, tools));
    let d = c.push(("PNPM_HOME"@, bin));
    lemma_sets_push(b, ("npm_config_prefix"@, tools), "PATH"@, value);
    lemma_sets_push(c, ("PNPM_HOME"@, bin), "PATH"@, value);
    lemma_sets_push(b, ("npm_config_prefix"@, tools), "npm_config_prefix"@, value);
    lemma_sets_push(c, ("PNPM_HOME"@, bin), "npm_config_prefix"@, value);
    lemma_sets_push(b, ("npm_config_prefix"@, tools), "PNPM_HOME"@, value);
    lemma_sets_push(c, ("PNPM_HOME"@, bin), "PNPM_HOME"@, value);
    let own = if bundled {
        d
    } else {
        base
    };
    lemma_with_vars(own, configured, "PATH"@, value);
    lemma_with_vars(own, configured, "npm_config_prefix"@, value);
    lemma_with_vars(own, configured, "PNPM_HOME"@, value);
    lemma_with_vars_named(own, configured, name, value);
}

/// Is no name set twice?
pub open spec fn once_each(vars: Seq<(Seq<char>, Seq<char>)>) -> bool {
    forall|i: int, j: int|
        0 <= i < j < vars.len() ==> (#[trigger] vars[i]).0 != (#[trigger] vars[j]).0
}

proof fn lemma_once_each(vars: Seq<(Seq<char>, Seq<char>)>, gone: Seq<char>)
    ensures
        once_each(vars) ==> once_each(without_name(vars, gone)),
    decreases vars.len(),
{
    if vars.len() > 0 && once_each(vars) {
        let rest = vars.drop_last();
        let last = vars.last();
        assert(once_each(rest));
        lemma_once_each(rest, gone);
        if last.0 != gone {
            lemma_without_name(rest, gone, last.0, last.1);
            if names(rest, last.0) {
                let i = choose|i: int| 0 <= i < rest.len() && (#[trigger] rest[i]).0 == last.0;
                assert(vars[i].0 != vars[vars.len() - 1].0);
            }
            lemma_once_each_push(without_name(rest, gone), last);
        }
    }
}

proof fn lemma_once_each_push(vars: Seq<(Seq<char>, Seq<char>)>, last: (Seq<char>, Seq<char>))
    requires
        once_each(vars),
        !names(vars, last.0),
    ensures
        once_each(vars.push(last)),
{
    let more = vars.push(last);
    assert forall|i: int, j: int| 0 <= i < j < more.len() implies (#[trigger] more[i]).0 != (
    #[trigger] more[j]).0 by {
        assert(more[i] == vars[i]);
        if j < vars.len() {
            assert(more[j] == vars[j]);
        }
    }
}

proof fn lemma_once_each_with(
    vars: Seq<(Seq<char>, Seq<char>)>,
    more: Seq<(Seq<char>, Seq<char>)>,
)
    requires
        once_each(vars),
    ensures
        once_each(with_vars(vars, more)),
    decreases more.len(),
{
    if more.len() > 0 {
        let rest = more.drop_last();
        lemma_once_each_with(vars, rest);
        let before = with_vars(vars, rest);
        lemma_once_each(before, more.last().0);
        lemma_without_name(before, more.last().0, more.last().0, more.last().1);
        lemma_once_each_push(without_name(before, more.last().0), more.last());
    }
}

/// No variable is handed to the Harness twice.
pub proof fn each_variable_is_set_once(
    imported: Seq<(Seq<char>, Seq<char>)>,
    path: Seq<char>,
    bundled: bool,
    data_dir: Seq<char>,
    configured: Seq<(Seq<char>, Seq<char>)>,
    windows: bool,
)
    requires
        once_each(imported),
    ensures
        once_each(child_vars(imported, path, bundled, data_dir, configured, windows)),
{
    reveal_strlit("npm_config_prefix");
    reveal_strlit("PNPM_HOME");
    assert("npm_config_prefix"@.len() == 17 && "PNPM_HOME"@.len() == 9);
    let tools = tools_dir(data_dir, windows);
    let bin = path_joined(tools, "bin"@, windows);
    let first = without_name(imported, "PATH"@);
    let base = with_var(imported, "PATH"@, path);
    lemma_once_each(imported, "PATH"@);
    lemma_without_name(imported, "PATH"@, "PATH"@, path);
    lemma_once_each_push(first, ("PATH"@, path));
    let a = without_name(base, "npm_config_prefix"@);
    let b = without_name(a, "PNPM_HOME"@);
    lemma_once_each(base, "npm_config_prefix"@);
    lemma_once_each(a, "PNPM_HOME"@);
    lemma_without_name(base, "npm_config_prefix"@, "PNPM_HOME"@, bin);
    lemma_without_name(a, "PNPM_HOME"@, "npm_config_prefix"@, tools);
    let c = b.push(("npm_config_prefix"@, tools));
    lemma_once_each_push(b, ("npm_config_prefix"@, tools));
    lemma_names_push(b, ("npm_config_prefix"@, tools), "PNPM_HOME"@);
    lemma_once_each_push(c, ("PNPM_HOME"@, bin));
    let own = if bundled {
        c.push(("PNPM_HOME"@, bin))
    } else {
        base
    };
    lemma_once_each_with(own, configured);
}

/// What goes in front of a PATH: the directory of the node first. For the shell's own tree its
/// tools follow, before those that were shipped; on a Mac the two places where tools are
/// installed; and on Windows the system directories.
pub proof fn what_goes_in_front(
    node: Seq<char>,
    dir: Seq<char>,
    seed: Seq<char>,
    data_dir: Seq<char>,
    root: String,
)
    requires
        parent_path(node, false) == Some(dir),
        parent_path(node, true) == Some(dir),
    ensures
        ({
            let plain = Platform { macos: false, windows: false, system_root: None };
            let mac = Platform { macos: true, windows: false, system_root: None };
            let tools = path_joined(path_joined(data_dir, "runtime"@, false), "tools"@, false);
            let shipped = path_joined(seed, "tools"@, false);
            &&& tool_prefix(node, Some(seed), false, data_dir, plain) == seq![dir]
            &&& tool_prefix(node, None, true, data_dir, plain) == seq![
                dir,
                path_joined(tools, "bin"@, false),
                tools,
            ]
            &&& tool_prefix(node, Some(seed), true, data_dir, plain) == seq![
                dir,
                path_joined(tools, "bin"@, false),
                tools,
                path_joined(shipped, "bin"@, false),
                shipped,
            ]
            &&& tool_prefix(node, Some(seed), false, data_dir, mac) == seq![
                dir,
                "/opt/homebrew/bin"@,
                "/usr/local/bin"@,
            ]
            &&& tool_prefix(node, Some(seed), true, data_dir, mac) == seq![
                dir,
                path_joined(tools, "bin"@, false),
                tools,
                path_joined(shipped, "bin"@, false),
                shipped,
                "/opt/homebrew/bin"@,
                "/usr/local/bin"@,
            ]
            &&& tool_prefix(
                node,
                None,
                false,
                data_dir,
                Platform { macos: false, windows: true, system_root: Some(root) },
            ) == seq![dir, path_joined(root@, "System32"@, true), root@]
        }),
{
    let plain = Platform { macos: false, windows: false, system_root: None };
    let mac = Platform { macos: true, windows: false, system_root: None };
    let win = Platform { macos: false, windows: true, system_root: Some(root) };
    let tools = path_joined(path_joined(data_dir, "runtime"@, false), "tools"@, false);
    let shipped = path_joined(seed, "tools"@, false);
    assert(tool_prefix(node, Some(seed), false, data_dir, plain) =~= seq![dir]);
    assert(tool_prefix(node, None, true, data_dir, plain) =~= seq![
        dir,
        path_joined(tools, "bin"@, false),
        tools,
    ]);
    assert(tool_prefix(node, Some(seed), true, data_dir, plain) =~= seq![
        dir,
        path_joined(tools, "bin"@, false),
        tools,
        path_joined(shipped, "bin"@, false),
        shipped,
    ]);
    assert(tool_prefix(node, Some(seed), false, data_dir, mac) =~= seq![
        dir,
        "/opt/homebrew/bin"@,
        "/usr/local/bin"@,
    ]);
    assert(tool_prefix(node, Some(seed), true, data_dir, mac) =~= seq![
        dir,
        path_joined(tools, "bin"@, false),
        tools,
        path_joined(shipped, "bin"@, false),
        shipped,
        "/opt/homebrew/bin"@,
        "/usr/local/bin"@,
    ]);
    assert(tool_prefix(node, None, false, data_dir, win) =~= seq![
        dir,
        path_joined(root@, "System32"@, true),
        root@,
    ]);
}

/// The PATH of the children is made of what goes in front, the login shell's PATH and the app's
/// own, where there are any, and of nothing else.
pub proof fn what_the_path_of_a_child_is(
    node: Seq<char>,
    seed: Option<Seq<char>>,
    bundled: bool,
    data_dir: Seq<char>,
    imported: Map<Seq<char>, Seq<char>>,
    app_path: Option<Seq<char>>,
    platform: Platform,
)
    ensures
        ({
            let front = tool_prefix(node, seed, bundled, data_dir, platform);
            let path = child_path(node, seed, bundled, data_dir, imported, app_path, platform);
            &&& imported.dom().contains("PATH"@) ==> path == merged_path(
                front,
                Some(imported["PATH"@]),
                app_path,
                platform.windows,
            )
            &&& !imported.dom().contains("PATH"@) ==> path == merged_path(
                front,
                None,
                app_path,
                platform.windows,
            )
        }),
{
}

} // verus!

//! Finding the node and the dsh tree to supervise: the seed in the app, its writable copy, and
//! the user's own installation.
use vstd::prelude::*;

use crate::locator::NodeFacts;
use crate::paths::{absolute, first_present, path_join, unverbatim};
#[allow(unused_imports)]
use crate::paths::{first_there, path_absolute, path_joined, path_unverbatim};
use crate::runtime::{decide, Decision, Inputs, Origin, Preference, SystemUpdates, Updates};
#[allow(unused_imports)]
use crate::runtime::{
    bundled_of, dsh_of, half_of, node_of, origin_label, picked, preference_in, str_view, updates_of,
    PickModel,
};
use crate::text::{glue, glue3, glue4, glue5, opt_copy, text_eq};
#[allow(unused_imports)]
use crate::text::{opt_view, texts};

verus! {

// ---------------------------------------------------------------------------------------------
// Where things lie
// ---------------------------------------------------------------------------------------------

/// Where the node of a runtime directory may be, in the order in which the places are tried.
pub open spec fn node_places(runtime: Seq<char>, windows: bool) -> Seq<Seq<char>> {
    let node = path_joined(runtime, "node"@, windows);
    seq![
        path_joined(node, "bin/node"@, windows),
        path_joined(node, "node"@, windows),
        path_joined(node, "bin/node.exe"@, windows),
        path_joined(node, "node.exe"@, windows),
    ]
}

/// Where the node of a runtime directory may be.
pub fn node_candidates(runtime: &str, windows: bool) -> (r: Vec<String>)
    ensures
        texts(r@) == node_places(runtime@, windows),
{
    let node = path_join(runtime, "node", windows);
    let mut out: Vec<String> = Vec::new();
    out.push(path_join(node.as_str(), "bin/node", windows));
    out.push(path_join(node.as_str(), "node", windows));
    out.push(path_join(node.as_str(), "bin/node.exe", windows));
    out.push(path_join(node.as_str(), "node.exe", windows));
    proof {
        assert(texts(out@) =~= node_places(runtime@, windows));
    }
    out
}

/// The node of a runtime directory: the first place that is a file.
pub fn node_in(runtime: &str, files: &[bool], windows: bool) -> (r: Option<String>)
    ensures
        opt_view(r) == first_there(node_places(runtime@, windows), files@),
{
    first_present(node_candidates(runtime, windows).as_slice(), files)
}

/// Where the script that starts the CLI may be in a prefix.
pub open spec fn dsh_js_places(prefix: Seq<char>, windows: bool) -> Seq<Seq<char>> {
    seq![
        path_joined(prefix, "lib/node_modules/@deepseek-ai/dsh/lib/bin.js"@, windows),
        path_joined(prefix, "node_modules/@deepseek-ai/dsh/lib/bin.js"@, windows),
    ]
}

/// Where the script that starts the CLI may be in a prefix.
pub fn dsh_js_candidates(prefix: &str, windows: bool) -> (r: Vec<String>)
    ensures
        texts(r@) == dsh_js_places(prefix@, windows),
{
    let mut out: Vec<String> = Vec::new();
    out.push(path_join(prefix, "lib/node_modules/@deepseek-ai/dsh/lib/bin.js", windows));
    out.push(path_join(prefix, "node_modules/@deepseek-ai/dsh/lib/bin.js", windows));
    proof {
        assert(texts(out@) =~= dsh_js_places(prefix@, windows));
    }
    out
}

/// The script that starts the CLI in a prefix: the first place that is a file.
pub fn dsh_js_in(prefix: &str, files: &[bool], windows: bool) -> (r: Option<String>)
    ensures
        opt_view(r) == first_there(dsh_js_places(prefix@, windows), files@),
{
    first_present(dsh_js_candidates(prefix, windows).as_slice(), files)
}

/// A path with the name `runtime` below it, as a list.
pub open spec fn runtime_below(dir: Option<Seq<char>>, windows: bool) -> Seq<Seq<char>> {
    match dir {
        Some(dir) => seq![path_joined(dir, "runtime"@, windows)],
        None => Seq::empty(),
    }
}

/// Where the bundled runtime may be: as the environment says; below the resources of the app;
/// beside the program, or one level up.
pub open spec fn seed_places(
    env: Option<Seq<char>>,
    resources: Option<Seq<char>>,
    beside: Option<Seq<char>>,
    above: Option<Seq<char>>,
    windows: bool,
) -> Seq<Seq<char>> {
    let named = match env {
        Some(dir) => seq![dir],
        None => Seq::empty(),
    };
    (named + runtime_below(resources, windows) + runtime_below(beside, windows) + runtime_below(
        above,
        windows,
    )).map_values(|dir: Seq<char>| path_unverbatim(dir, windows))
}

/// Where the bundled runtime may be.
pub fn seed_candidates(
    env: Option<&str>,
    resources: Option<&str>,
    beside: Option<&str>,
    above: Option<&str>,
    windows: bool,
) -> (r: Vec<String>)
    ensures
        texts(r@) == seed_places(
            str_view(env),
            str_view(resources),
            str_view(beside),
            str_view(above),
            windows,
        ),
{
    let mut out: Vec<String> = Vec::new();
    match env {
        Some(dir) => {
            out.push(unverbatim(dir, windows));
        },
        None => {},
    }
    match resources {
        Some(dir) => {
            out.push(unverbatim(path_join(dir, "runtime", windows).as_str(), windows));
        },
        None => {},
    }
    match beside {
        Some(dir) => {
            out.push(unverbatim(path_join(dir, "runtime", windows).as_str(), windows));
        },
        None => {},
    }
    match above {
        Some(dir) => {
            out.push(unverbatim(path_join(dir, "runtime", windows).as_str(), windows));
        },
        None => {},
    }
    proof {
        assert(texts(out@) =~= seed_places(
            str_view(env),
            str_view(resources),
            str_view(beside),
            str_view(above),
            windows,
        ));
    }
    out
}

/// The bundled runtime: the first place that holds a node.
pub fn seed_root_for(places: &[String], holds_node: &[bool]) -> (r: Option<String>)
    ensures
        opt_view(r) == first_there(texts(places@), holds_node@),
{
    first_present(places, holds_node)
}

// ---------------------------------------------------------------------------------------------
// The user's own installation
// ---------------------------------------------------------------------------------------------

/// The verdict on the user's own installation.
#[derive(Debug, Clone, PartialEq, Eq)]
pub enum SystemGate {
    Accept,
    /// It stays, and the reason goes to the log.
    Warn(String),
    Reject(String),
}

/// The verdict, with its reason as a sequence.
pub enum GateModel {
    Accept,
    Warn(Seq<char>),
    Reject(Seq<char>),
}

impl View for SystemGate {
    type V = GateModel;

    open spec fn view(&self) -> GateModel {
        match self {
            SystemGate::Accept => GateModel::Accept,
            SystemGate::Warn(reason) => GateModel::Warn(reason@),
            SystemGate::Reject(reason) => GateModel::Reject(reason@),
        }
    }
}

/// The verdict on an installation by what its node can do.
pub open spec fn gate_of(
    arch: Seq<char>,
    strip_types: bool,
    host_arch: Seq<char>,
    bundled: bool,
) -> GateModel {
    if !strip_types {
        GateModel::Reject(
            "node 缺少 module.stripTypeScriptTypes（需要 Node 22.13 以上，当前架构 "@ + arch + "）"@,
        )
    } else if arch == host_arch {
        GateModel::Accept
    } else {
        let reason = "node 架构 "@ + arch + " 与宿主 "@ + host_arch + " 不一致"@;
        if bundled {
            GateModel::Reject(reason + "，改用自带运行时"@)
        } else {
            GateModel::Warn(reason + "，且本构建没有自带运行时，继续使用系统安装"@)
        }
    }
}

/// Judges the user's installation by what its node can do. Another architecture is a reason to
/// refuse it only where the bundled runtime can take its place.
pub fn system_runtime_gate(facts: &NodeFacts, host_arch: &str, bundled: bool) -> (r: SystemGate)
    ensures
        r@ == gate_of(facts.arch@, facts.strip_types, host_arch@, bundled),
{
    if !facts.strip_types {
        return SystemGate::Reject(
            glue3(
                "node 缺少 module.stripTypeScriptTypes（需要 Node 22.13 以上，当前架构 ",
                facts.arch.as_str(),
                "）",
            ),
        );
    }
    if text_eq(facts.arch.as_str(), host_arch) {
        return SystemGate::Accept;
    }
    let reason = glue5("node 架构 ", facts.arch.as_str(), " 与宿主 ", host_arch, " 不一致");
    if bundled {
        SystemGate::Reject(glue(reason.as_str(), "，改用自带运行时"))
    } else {
        SystemGate::Warn(
            glue(reason.as_str(), "，且本构建没有自带运行时，继续使用系统安装"),
        )
    }
}

/// Follows the judgement on an installation: a rejected installation goes as a whole, and the reason is kept.
pub fn keep_system_install(
    node: Option<String>,
    dsh: Option<String>,
    gate: Option<SystemGate>,
) -> (r: (Option<String>, Option<String>, Option<String>))
    ensures
        (match gate {
            Some(SystemGate::Reject(reason)) => r.0 is None && r.1 is None && r.2 == Some(reason),
            _ => r.0 == node && r.1 == dsh && r.2 is None,
        }),
{
    match gate {
        Some(SystemGate::Reject(reason)) => (None, None, Some(reason)),
        _ => (node, dsh, None),
    }
}

/// The name that node has for an architecture.
pub open spec fn node_arch(arch: Seq<char>) -> Seq<char> {
    if arch == "aarch64"@ {
        "arm64"@
    } else if arch == "x86_64"@ {
        "x64"@
    } else {
        arch
    }
}

/// The name that node has for an architecture.
pub fn host_arch(arch: &str) -> (r: String)
    ensures
        r@ == node_arch(arch@),
{
    if text_eq(arch, "aarch64") {
        "arm64".to_owned()
    } else if text_eq(arch, "x86_64") {
        "x64".to_owned()
    } else {
        arch.to_owned()
    }
}

/// Which runtime is preferred: as the environment says, where it says something known.
pub fn preference(env: Option<&str>, configured: Preference) -> (r: Preference)
    ensures
        r == (match env {
            Some(value) => match preference_in(value@) {
                Some(wanted) => wanted,
                None => configured,
            },
            None => configured,
        }),
{
    match env {
        Some(value) => match Preference::parse(value) {
            Some(wanted) => wanted,
            None => configured,
        },
        None => configured,
    }
}

/// Is the user's installation worth looking for? Not where it cannot be chosen.
pub fn probes_system(preference: Preference, env_node: bool, env_dsh: bool) -> (r: bool)
    ensures
        r == (preference != Preference::Bundled && !(env_node && env_dsh)),
{
    match preference {
        Preference::Bundled => false,
        _ => !(env_node && env_dsh),
    }
}

// ---------------------------------------------------------------------------------------------
// The decision
// ---------------------------------------------------------------------------------------------

/// What was found.
#[derive(Debug, Clone, PartialEq, Eq)]
pub struct Found {
    pub preference: Preference,
    pub env_node: Option<String>,
    pub env_dsh: Option<String>,
    /// The user's installation, and what its node can do.
    pub system_node: Option<String>,
    pub system_dsh: Option<String>,
    pub facts: Option<NodeFacts>,
    pub host_arch: String,
    pub seed_node: Option<String>,
    pub seed_dsh: Option<String>,
    pub seed_version: Option<String>,
    pub shadow_dsh: Option<String>,
    pub shadow_version: Option<String>,
}

/// The verdict on the installation that was found, where there was a node to judge.
pub open spec fn found_gate(found: Found) -> Option<GateModel> {
    match found.facts {
        Some(facts) => Some(
            gate_of(
                facts.arch@,
                facts.strip_types,
                found.host_arch@,
                found.seed_node is Some && found.seed_dsh is Some,
            ),
        ),
        None => None,
    }
}

/// Why the installation was rejected.
pub open spec fn rejection(found: Found) -> Option<Seq<char>> {
    match found_gate(found) {
        Some(GateModel::Reject(reason)) => Some(reason),
        _ => None,
    }
}

/// A path of the installation, where it was not rejected.
pub open spec fn kept(found: Found, path: Option<String>) -> Option<Seq<char>> {
    if rejection(found) is None {
        opt_view(path)
    } else {
        None
    }
}

/// The node that is taken.
pub open spec fn found_node(found: Found) -> Option<PickModel> {
    half_of(
        found.preference,
        opt_view(found.env_node),
        kept(found, found.system_node),
        picked(opt_view(found.seed_node), Origin::Seed),
    )
}

/// The dsh that is taken.
pub open spec fn found_dsh(found: Found) -> Option<PickModel> {
    half_of(
        found.preference,
        opt_view(found.env_dsh),
        kept(found, found.system_dsh),
        bundled_of(
            opt_view(found.seed_dsh),
            opt_view(found.shadow_dsh),
            opt_view(found.seed_version),
            opt_view(found.shadow_version),
        ),
    )
}

/// The line about the installation.
pub open spec fn gate_log(found: Found) -> Option<Seq<char>> {
    match found_gate(found) {
        Some(GateModel::Warn(reason)) => Some(
            "system runtime kept with a warning: "@ + reason,
        ),
        Some(GateModel::Reject(reason)) => Some("system runtime rejected: "@ + reason),
        _ => None,
    }
}

/// What is said where no runtime was found.
pub open spec fn nothing_found(rejected: Option<Seq<char>>) -> Seq<char> {
    match rejected {
        Some(reason) => "系统安装的 dsh 不可用（"@ + reason
            + "），本构建也没有自带运行时。请升级 node / 重装 @deepseek-ai/dsh，或用 DSH_DESKTOP_DSH / DSH_DESKTOP_NODE 指定路径。"@,
        None => "找不到 dsh，也没有自带运行时。请安装 node 与 @deepseek-ai/dsh，或用 DSH_DESKTOP_DSH / DSH_DESKTOP_NODE 指定路径。"@,
    }
}

fn text_of(value: &Option<String>) -> (r: Option<&str>)
    ensures
        str_view(r) == opt_view(*value),
{
    match value {
        Some(text) => Some(text.as_str()),
        None => None,
    }
}

/// Decides which node and which dsh tree to supervise, with the line about the installation where
/// there is one to write; or why there is none.
pub fn resolve_runtime(found: &Found) -> (r: (Option<String>, Result<Decision, String>))
    ensures
        opt_view(r.0) == gate_log(*found),
        (match r.1 {
            Ok(decision) => {
                &&& found_node(*found) == Some(decision.node@)
                &&& found_dsh(*found) == Some(decision.dsh@)
                &&& decision.updates == updates_of(decision.dsh.origin)
            },
            Err(reason) => {
                &&& found_node(*found) is None || found_dsh(*found) is None
                &&& reason@ == nothing_found(rejection(*found))
            },
        }),
{
    let has_seed = found.seed_node.is_some() && found.seed_dsh.is_some();
    let gate = match &found.facts {
        Some(facts) => Some(system_runtime_gate(facts, found.host_arch.as_str(), has_seed)),
        None => None,
    };
    let log = match &gate {
        Some(SystemGate::Warn(reason)) => Some(
            glue("system runtime kept with a warning: ", reason.as_str()),
        ),
        Some(SystemGate::Reject(reason)) => Some(
            glue("system runtime rejected: ", reason.as_str()),
        ),
        _ => None,
    };
    let (system_node, system_dsh, rejected) = keep_system_install(
        opt_copy(&found.system_node),
        opt_copy(&found.system_dsh),
        gate,
    );
    let input = Inputs {
        preference: found.preference,
        env_node: opt_copy(&found.env_node),
        env_dsh: opt_copy(&found.env_dsh),
        system_node,
        system_dsh,
        seed_node: text_of(&found.seed_node),
        seed_dsh: text_of(&found.seed_dsh),
        shadow_dsh: text_of(&found.shadow_dsh),
        seed_version: text_of(&found.seed_version),
        shadow_version: text_of(&found.shadow_version),
    };
    proof {
        assert(node_of(input) == found_node(*found));
        assert(dsh_of(input) == found_dsh(*found));
    }
    match decide(&input) {
        Some(decision) => (log, Ok(decision)),
        None => {
            let reason = match &rejected {
                Some(reason) => glue3(
                    "系统安装的 dsh 不可用（",
                    reason.as_str(),
                    "），本构建也没有自带运行时。请升级 node / 重装 @deepseek-ai/dsh，或用 DSH_DESKTOP_DSH / DSH_DESKTOP_NODE 指定路径。",
                ),
                None => "找不到 dsh，也没有自带运行时。请安装 node 与 @deepseek-ai/dsh，或用 DSH_DESKTOP_DSH / DSH_DESKTOP_NODE 指定路径。".to_owned(),
            };
            (log, Err(reason))
        },
    }
}

/// The line about a decision.
pub fn decision_line(decision: &Decision, system_updates: SystemUpdates) -> (r: String)
    ensures
        r@ == "runtime: node "@ + decision.node.path@ + " ("@ + origin_label(decision.node.origin)
            + ") + dsh "@ + decision.dsh.path@ + " ("@ + origin_label(decision.dsh.origin) + ")"@
            + " | updates: "@ + (match decision.updates {
            Updates::Shadow => "Shadow"@,
            Updates::Notify => "Notify"@,
        }) + " (system_updates: "@ + (match system_updates {
            SystemUpdates::Install => "install"@,
            SystemUpdates::Notify => "notify"@,
        }) + ")"@,
{
    let mut out = decision.describe();
    out.append(" | updates: ");
    out.append(
        match decision.updates {
            Updates::Shadow => "Shadow",
            Updates::Notify => "Notify",
        },
    );
    out.append(" (system_updates: ");
    out.append(system_updates.label());
    out.append(")");
    out
}

/// The runtime to supervise.
#[derive(Debug, Clone, PartialEq, Eq)]
pub struct ResolvedRuntime {
    pub node: String,
    pub dsh_js: String,
    pub version: String,
    /// Where the dsh came from.
    pub origin: Origin,
    pub updates: Updates,
    /// Where the bundled runtime lives, where there is one.
    pub seed: Option<String>,
    /// Is the tree the shell's own?
    pub bundled: bool,
}

impl ResolvedRuntime {
    /// The runtime of a decision, with the version that its tree tells.
    pub fn of(
        decision: Decision,
        version: String,
        seed: Option<String>,
        cwd: Option<&str>,
        windows: bool,
    ) -> (r: ResolvedRuntime)
        ensures
            r.node@ == path_absolute(decision.node.path@, str_view(cwd), windows),
            r.dsh_js@ == path_absolute(decision.dsh.path@, str_view(cwd), windows),
            r.version == version,
            r.origin == decision.dsh.origin,
            r.updates == decision.updates,
            r.seed == seed,
            r.bundled == (decision.dsh.origin == Origin::Seed || decision.dsh.origin
                == Origin::Shadow),
    {
        let bundled = match decision.dsh.origin {
            Origin::Seed | Origin::Shadow => true,
            Origin::Env | Origin::System => false,
        };
        ResolvedRuntime {
            node: absolute(decision.node.path.as_str(), cwd, windows),
            dsh_js: absolute(decision.dsh.path.as_str(), cwd, windows),
            version,
            origin: decision.dsh.origin,
            updates: decision.updates,
            seed,
            bundled,
        }
    }

    /// Is the tree the shell's own?
    pub fn bundled(&self) -> (r: bool)
        ensures
            r == self.bundled,
    {
        self.bundled
    }

    /// Where an update may be installed; nowhere in a tree of the user's own.
    pub fn update_prefix(&self, data_dir: &str, windows: bool) -> (r: Option<String>)
        ensures
            opt_view(r) == (match self.updates {
                Updates::Shadow => Some(
                    path_joined(path_joined(data_dir@, "runtime"@, windows), "prefix"@, windows),
                ),
                Updates::Notify => None,
            }),
    {
        match self.updates {
            Updates::Shadow => Some(
                path_join(path_join(data_dir, "runtime", windows).as_str(), "prefix", windows),
            ),
            Updates::Notify => None,
        }
    }
}

/// An installation that cannot run the CLI is never used, whatever is preferred.
pub proof fn a_rejected_installation_is_not_used(found: Found)
    requires
        rejection(found) is Some,
    ensures
        found_node(found) matches Some(pick) ==> pick.origin != Origin::System,
        found_dsh(found) matches Some(pick) ==> pick.origin != Origin::System,
{
}

/// An installation is judged by its node: without one nothing is rejected, and a dsh of the
/// user's own runs on the bundled node.
pub proof fn a_lone_dsh_is_kept(found: Found)
    requires
        found.facts is None,
        found.env_node is None,
        found.env_dsh is None,
        found.system_node is None,
        found.system_dsh is Some,
        found.seed_node is Some,
        found.preference != Preference::Bundled,
    ensures
        found_node(found) matches Some(pick) && pick.origin == Origin::Seed,
        found_dsh(found) matches Some(pick) && pick.origin == Origin::System,
{
}

/// A node that cannot strip types is refused, whatever else it is; one of the host's architecture
/// that can is taken; and of one of another architecture there is a warning, or a refusal where
/// the bundled runtime can take its place.
pub proof fn how_a_node_is_judged(arch: Seq<char>, host_arch: Seq<char>, bundled: bool)
    ensures
        gate_of(arch, false, host_arch, bundled) is Reject,
        gate_of(host_arch, true, host_arch, bundled) == GateModel::Accept,
        arch != host_arch ==> gate_of(arch, true, host_arch, true) is Reject,
        arch != host_arch ==> gate_of(arch, true, host_arch, false) is Warn,
{
}

/// The two architectures that node names in its own way; any other has the same name there.
pub proof fn how_node_names_an_architecture(arch: Seq<char>)
    ensures
        node_arch("aarch64"@) == "arm64"@,
        node_arch("x86_64"@) == "x64"@,
        arch != "aarch64"@ && arch != "x86_64"@ ==> node_arch(arch) == arch,
{
    reveal_strlit("aarch64");
    reveal_strlit("x86_64");
    assert("aarch64"@.len() == 7 && "x86_64"@.len() == 6);
}

/// An installation that was not refused is offered to the decision as it was found, and one that
/// was is not offered at all.
pub proof fn a_kept_installation_is_offered(found: Found, path: Option<String>)
    ensures
        found.facts is None ==> kept(found, path) == opt_view(path),
        found_gate(found) matches Some(GateModel::Reject(_)) ==> kept(found, path) is None,
        found_gate(found) matches Some(GateModel::Warn(_)) ==> kept(found, path) == opt_view(path),
        found_gate(found) == Some(GateModel::Accept) ==> kept(found, path) == opt_view(path),
        gate_log(found) is None <==> found.facts is None || found_gate(found) == Some(
            GateModel::Accept,
        ),
{
}

/// Where the parts of a runtime lie below its directory.
pub proof fn where_the_parts_of_a_runtime_lie(dir: Seq<char>)
    requires
        dir.len() > 0 && dir.last() != '/',
    ensures
        dsh_js_places(dir, false) == seq![
            dir + "/lib/node_modules/@deepseek-ai/dsh/lib/bin.js"@,
            dir + "/node_modules/@deepseek-ai/dsh/lib/bin.js"@,
        ],
        node_places(dir, false) == seq![
            dir + "/node/bin/node"@,
            dir + "/node/node"@,
            dir + "/node/bin/node.exe"@,
            dir + "/node/node.exe"@,
        ],
{
    reveal_strlit("lib/node_modules/@deepseek-ai/dsh/lib/bin.js");
    reveal_strlit("node_modules/@deepseek-ai/dsh/lib/bin.js");
    reveal_strlit("/lib/node_modules/@deepseek-ai/dsh/lib/bin.js");
    reveal_strlit("/node_modules/@deepseek-ai/dsh/lib/bin.js");
    reveal_strlit("node");
    reveal_strlit("bin/node");
    reveal_strlit("bin/node.exe");
    reveal_strlit("node.exe");
    reveal_strlit("/node/bin/node");
    reveal_strlit("/node/node");
    reveal_strlit("/node/bin/node.exe");
    reveal_strlit("/node/node.exe");
    crate::paths::a_name_is_joined_with_a_slash(dir, "lib/node_modules/@deepseek-ai/dsh/lib/bin.js"@);
    crate::paths::a_name_is_joined_with_a_slash(dir, "node_modules/@deepseek-ai/dsh/lib/bin.js"@);
    assert(dir + seq!['/'] + "lib/node_modules/@deepseek-ai/dsh/lib/bin.js"@ =~= dir
        + "/lib/node_modules/@deepseek-ai/dsh/lib/bin.js"@);
    assert(dir + seq!['/'] + "node_modules/@deepseek-ai/dsh/lib/bin.js"@ =~= dir
        + "/node_modules/@deepseek-ai/dsh/lib/bin.js"@);
    crate::paths::a_name_is_joined_with_a_slash(dir, "node"@);
    let node = dir + seq!['/'] + "node"@;
    assert(node.last() == 'e');
    crate::paths::a_name_is_joined_with_a_slash(node, "bin/node"@);
    crate::paths::a_name_is_joined_with_a_slash(node, "node"@);
    crate::paths::a_name_is_joined_with_a_slash(node, "bin/node.exe"@);
    crate::paths::a_name_is_joined_with_a_slash(node, "node.exe"@);
    assert(node + seq!['/'] + "bin/node"@ =~= dir + "/node/bin/node"@);
    assert(node + seq!['/'] + "node"@ =~= dir + "/node/node"@);
    assert(node + seq!['/'] + "bin/node.exe"@ =~= dir + "/node/bin/node.exe"@);
    assert(node + seq!['/'] + "node.exe"@ =~= dir + "/node/node.exe"@);
}

/// A shipped runtime is looked for where the environment names it, and then below the resources,
/// beside the program and above it, as far as these are known.
pub proof fn where_a_shipped_runtime_is_looked_for(
    env: Option<Seq<char>>,
    resources: Option<Seq<char>>,
    beside: Option<Seq<char>>,
    above: Option<Seq<char>>,
    dir: Seq<char>,
    windows: bool,
)
    requires
        dir.len() > 0 && dir.last() != '/',
    ensures
        seed_places(env, resources, beside, above, windows) == seed_places(
            env,
            None,
            None,
            None,
            windows,
        ) + seed_places(None, resources, None, None, windows) + seed_places(
            None,
            None,
            beside,
            None,
            windows,
        ) + seed_places(None, None, None, above, windows),
        seed_places(None, None, None, None, windows) == Seq::<Seq<char>>::empty(),
        seed_places(Some(dir), None, None, None, windows) == seq![path_unverbatim(dir, windows)],
        seed_places(None, Some(dir), None, None, false) == seq![dir + "/runtime"@],
        seed_places(None, None, Some(dir), None, false) == seq![dir + "/runtime"@],
        seed_places(None, None, None, Some(dir), false) == seq![dir + "/runtime"@],
{
    reveal_strlit("runtime");
    reveal_strlit("/runtime");
    let none = Seq::<Seq<char>>::empty();
    assert(seed_places(env, resources, beside, above, windows) =~= seed_places(
        env,
        None,
        None,
        None,
        windows,
    ) + seed_places(None, resources, None, None, windows) + seed_places(
        None,
        None,
        beside,
        None,
        windows,
    ) + seed_places(None, None, None, above, windows));
    assert(seed_places(None, None, None, None, windows) =~= none);
    assert(seed_places(Some(dir), None, None, None, windows) =~= seq![
        path_unverbatim(dir, windows),
    ]);
    crate::paths::a_name_is_joined_with_a_slash(dir, "runtime"@);
    assert(dir + seq!['/'] + "runtime"@ =~= dir + "/runtime"@);
    assert(path_unverbatim(dir + "/runtime"@, false) == dir + "/runtime"@);
    assert(seed_places(None, Some(dir), None, None, false) =~= seq![dir + "/runtime"@]);
    assert(seed_places(None, None, Some(dir), None, false) =~= seq![dir + "/runtime"@]);
    assert(seed_places(None, None, None, Some(dir), false) =~= seq![dir + "/runtime"@]);
}

} // verus!

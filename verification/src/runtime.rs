//! Which Node and which dsh tree the shell supervises.
//!
//! The environment comes first, then the user's own installation, then what the app ships: the
//! read-only seed and the writable shadow that updates install into. Everything here is decided
//! from facts that the caller gathered.
use vstd::prelude::*;

use crate::search::lower_text;
#[allow(unused_imports)]
use crate::search::lowered;
use crate::text::{text_eq, trim_text};
#[allow(unused_imports)]
use crate::text::{opt_view, trimmed};
use crate::version::{Rank, Version};
#[allow(unused_imports)]
use crate::version::{version_below, version_in, below_is_asymmetric};

verus! {

/// Where one half of the runtime came from.
#[derive(Debug, Clone, Copy, PartialEq, Eq, Structural)]
pub enum Origin {
    /// Chosen through the environment.
    Env,
    /// The read-only seed in the app bundle.
    Seed,
    /// The writable copy that updates install into.
    Shadow,
    /// The user's own installation.
    System,
}

/// How the log names an origin.
pub open spec fn origin_label(origin: Origin) -> Seq<char> {
    match origin {
        Origin::Env => "env"@,
        Origin::Seed => "bundled"@,
        Origin::Shadow => "bundled(updated)"@,
        Origin::System => "system"@,
    }
}

impl Origin {
    /// The label for the log and the status page.
    pub fn label(self) -> (r: &'static str)
        ensures
            r@ == origin_label(self),
    {
        match self {
            Origin::Env => "env",
            Origin::Seed => "bundled",
            Origin::Shadow => "bundled(updated)",
            Origin::System => "system",
        }
    }

    /// The label of a given origin.
    pub fn label_of(origin: Origin) -> (r: &'static str)
        ensures
            r@ == origin_label(origin),
    {
        origin.label()
    }
}

/// Which runtime the user wants.
#[derive(Debug, Clone, Copy, PartialEq, Eq, Structural)]
pub enum Preference {
    /// The installed runtime where it is usable, mixed with the bundled halves.
    Auto,
    /// The bundled runtime.
    Bundled,
    /// The installed runtime.
    System,
}

impl Default for Preference {
    fn default() -> (r: Preference)
        ensures
            r == Preference::Auto,
    {
        Preference::Auto
    }
}

/// The preference that a text names, in any case and with white space around it.
pub open spec fn preference_in(value: Seq<char>) -> Option<Preference> {
    let name = lowered(trimmed(value));
    if name == "auto"@ {
        Some(Preference::Auto)
    } else if name == "bundled"@ {
        Some(Preference::Bundled)
    } else if name == "system"@ {
        Some(Preference::System)
    } else {
        None
    }
}

impl Preference {
    /// Reads a preference.
    pub fn parse(value: &str) -> (r: Option<Preference>)
        ensures
            r == preference_in(value@),
    {
        let name = lower_text(trim_text(value).as_str());
        if text_eq(name.as_str(), "auto") {
            Some(Preference::Auto)
        } else if text_eq(name.as_str(), "bundled") {
            Some(Preference::Bundled)
        } else if text_eq(name.as_str(), "system") {
            Some(Preference::System)
        } else {
            None
        }
    }
}

/// What a newer core means for a CLI that the shell does not own.
#[derive(Debug, Clone, Copy, PartialEq, Eq, Structural)]
pub enum SystemUpdates {
    /// Upgrade it in place.
    Install,
    /// Report the version and leave the tree alone.
    Notify,
}

impl Default for SystemUpdates {
    fn default() -> (r: SystemUpdates)
        ensures
            r == SystemUpdates::Install,
    {
        SystemUpdates::Install
    }
}

impl SystemUpdates {
    /// The label for the log.
    pub fn label(self) -> (r: &'static str)
        ensures
            r@ == (match self {
                SystemUpdates::Install => "install"@,
                SystemUpdates::Notify => "notify"@,
            }),
    {
        match self {
            SystemUpdates::Install => "install",
            SystemUpdates::Notify => "notify",
        }
    }
}

/// One half of the decision.
#[derive(Debug, Clone, PartialEq, Eq)]
pub struct Pick {
    pub path: String,
    pub origin: Origin,
}

/// One half of the decision, its path as characters.
pub struct PickModel {
    pub path: Seq<char>,
    pub origin: Origin,
}

impl View for Pick {
    type V = PickModel;

    open spec fn view(&self) -> PickModel {
        PickModel { path: self.path@, origin: self.origin }
    }
}

/// What a core update may do with the chosen CLI.
#[derive(Debug, Clone, Copy, PartialEq, Eq, Structural)]
pub enum Updates {
    /// Install into the shell's own prefix.
    Shadow,
    /// Only report that a newer core exists.
    Notify,
}

/// What was found. A system path that fails the gates is handed in as nothing.
pub struct Inputs<'a> {
    pub preference: Preference,
    pub env_node: Option<String>,
    pub env_dsh: Option<String>,
    pub system_node: Option<String>,
    pub system_dsh: Option<String>,
    pub seed_node: Option<&'a str>,
    pub seed_dsh: Option<&'a str>,
    pub shadow_dsh: Option<&'a str>,
    pub seed_version: Option<&'a str>,
    pub shadow_version: Option<&'a str>,
}

/// The decision, and what updates are allowed to do.
#[derive(Debug, Clone, PartialEq, Eq)]
pub struct Decision {
    pub node: Pick,
    pub dsh: Pick,
    pub updates: Updates,
}

/// An optional borrowed text as characters.
pub open spec fn str_view(value: Option<&str>) -> Option<Seq<char>> {
    match value {
        Some(text) => Some(text@),
        None => None,
    }
}

/// A half from the given origin, where there is one.
pub open spec fn picked(path: Option<Seq<char>>, origin: Origin) -> Option<PickModel> {
    match path {
        Some(p) => Some(PickModel { path: p, origin }),
        None => None,
    }
}

/// The first half, or else the second.
pub open spec fn or_else(first: Option<PickModel>, second: Option<PickModel>) -> Option<PickModel> {
    if first is Some {
        first
    } else {
        second
    }
}

/// Which half is taken: the one from the environment; the installed one, unless the bundled is
/// wanted; the bundled one; and at last the installed one after all.
pub open spec fn half_of(
    preference: Preference,
    env: Option<Seq<char>>,
    system: Option<Seq<char>>,
    bundled: Option<PickModel>,
) -> Option<PickModel> {
    let installed = picked(system, Origin::System);
    let chosen = picked(env, Origin::Env);
    if preference == Preference::Bundled {
        or_else(chosen, or_else(bundled, installed))
    } else {
        or_else(chosen, or_else(installed, bundled))
    }
}

/// Does the seed rank above or level with the shadow? Only where both versions can be read.
pub open spec fn seed_leads(seed: Option<Seq<char>>, shadow: Option<Seq<char>>) -> bool {
    match (seed, shadow) {
        (Some(a), Some(b)) => match (version_in(a), version_in(b)) {
            (Some(x), Some(y)) => !version_below(x, y),
            _ => false,
        },
        _ => false,
    }
}

/// The bundled dsh: of the seed and the shadow the one with the higher version; the shadow where
/// the versions do not tell, as it exists only because an update put it there.
pub open spec fn bundled_of(
    seed_dsh: Option<Seq<char>>,
    shadow_dsh: Option<Seq<char>>,
    seed_version: Option<Seq<char>>,
    shadow_version: Option<Seq<char>>,
) -> Option<PickModel> {
    let seed = picked(seed_dsh, Origin::Seed);
    let shadow = picked(shadow_dsh, Origin::Shadow);
    if shadow is None {
        seed
    } else if seed is Some && seed_leads(seed_version, shadow_version) {
        seed
    } else {
        shadow
    }
}

/// The bundled dsh among what was found.
pub open spec fn bundled_dsh(input: Inputs) -> Option<PickModel> {
    bundled_of(
        str_view(input.seed_dsh),
        str_view(input.shadow_dsh),
        str_view(input.seed_version),
        str_view(input.shadow_version),
    )
}

/// The node that is taken.
pub open spec fn node_of(input: Inputs) -> Option<PickModel> {
    half_of(
        input.preference,
        opt_view(input.env_node),
        opt_view(input.system_node),
        picked(str_view(input.seed_node), Origin::Seed),
    )
}

/// The dsh that is taken.
pub open spec fn dsh_of(input: Inputs) -> Option<PickModel> {
    half_of(
        input.preference,
        opt_view(input.env_dsh),
        opt_view(input.system_dsh),
        bundled_dsh(input),
    )
}

/// Only a tree that the shell owns may be rewritten by an update.
pub open spec fn updates_of(origin: Origin) -> Updates {
    match origin {
        Origin::Seed | Origin::Shadow => Updates::Shadow,
        Origin::System | Origin::Env => Updates::Notify,
    }
}

/// An optional half with its path as characters.
pub open spec fn opt_pick(pick: Option<Pick>) -> Option<PickModel> {
    match pick {
        Some(p) => Some(p@),
        None => None,
    }
}

fn pick_owned(path: &Option<String>, origin: Origin) -> (r: Option<Pick>)
    ensures
        opt_pick(r) == picked(opt_view(*path), origin),
{
    match path {
        Some(p) => Some(Pick { path: p.clone(), origin }),
        None => None,
    }
}

fn pick_borrowed(path: Option<&str>, origin: Origin) -> (r: Option<Pick>)
    ensures
        opt_pick(r) == picked(str_view(path), origin),
{
    match path {
        Some(p) => Some(Pick { path: p.to_owned(), origin }),
        None => None,
    }
}

fn pick_half(
    preference: Preference,
    env: &Option<String>,
    system: &Option<String>,
    bundled: Option<Pick>,
) -> (r: Option<Pick>)
    ensures
        opt_pick(r) == half_of(preference, opt_view(*env), opt_view(*system), opt_pick(bundled)),
{
    let chosen = pick_owned(env, Origin::Env);
    if chosen.is_some() {
        return chosen;
    }
    let installed = pick_owned(system, Origin::System);
    match preference {
        Preference::Bundled => if bundled.is_some() {
            bundled
        } else {
            installed
        },
        _ => if installed.is_some() {
            installed
        } else {
            bundled
        },
    }
}

/// The node that is taken.
pub fn pick_node(input: &Inputs) -> (r: Option<Pick>)
    ensures
        opt_pick(r) == node_of(*input),
{
    pick_half(
        input.preference,
        &input.env_node,
        &input.system_node,
        pick_borrowed(input.seed_node, Origin::Seed),
    )
}

/// The bundled dsh.
pub fn pick_bundled(input: &Inputs) -> (r: Option<Pick>)
    ensures
        opt_pick(r) == bundled_dsh(*input),
{
    let seed = pick_borrowed(input.seed_dsh, Origin::Seed);
    let shadow = pick_borrowed(input.shadow_dsh, Origin::Shadow);
    if shadow.is_none() {
        return seed;
    }
    if seed.is_none() {
        return shadow;
    }
    match (input.seed_version, input.shadow_version) {
        (Some(a), Some(b)) => {
            match (Version::parse(a), Version::parse(b)) {
                (Some(x), Some(y)) => {
                    match x.rank(&y) {
                        Rank::Below => shadow,
                        _ => seed,
                    }
                },
                _ => shadow,
            }
        },
        _ => shadow,
    }
}

/// The dsh that is taken.
pub fn pick_dsh(input: &Inputs) -> (r: Option<Pick>)
    ensures
        opt_pick(r) == dsh_of(*input),
{
    pick_half(input.preference, &input.env_dsh, &input.system_dsh, pick_bundled(input))
}

/// Picks the node and the dsh tree to supervise; none where one of them is nowhere.
pub fn decide(input: &Inputs) -> (r: Option<Decision>)
    ensures
        (match r {
            Some(decision) => {
                &&& node_of(*input) == Some(decision.node@)
                &&& dsh_of(*input) == Some(decision.dsh@)
                &&& decision.updates == updates_of(decision.dsh.origin)
            },
            None => node_of(*input) is None || dsh_of(*input) is None,
        }),
{
    let node = match pick_node(input) {
        Some(node) => node,
        None => {
            return None;
        },
    };
    let dsh = match pick_dsh(input) {
        Some(dsh) => dsh,
        None => {
            return None;
        },
    };
    let updates = match dsh.origin {
        Origin::Seed | Origin::Shadow => Updates::Shadow,
        Origin::System | Origin::Env => Updates::Notify,
    };
    Some(Decision { node, dsh, updates })
}

impl Decision {
    /// One line for the log.
    pub fn describe(&self) -> (r: String)
        ensures
            r@ == "runtime: node "@ + self.node.path@ + " ("@ + origin_label(self.node.origin)
                + ") + dsh "@ + self.dsh.path@ + " ("@ + origin_label(self.dsh.origin) + ")"@,
    {
        let mut out = "runtime: node ".to_owned();
        out.append(self.node.path.as_str());
        out.append(" (");
        out.append(self.node.origin.label());
        out.append(") + dsh ");
        out.append(self.dsh.path.as_str());
        out.append(" (");
        out.append(self.dsh.origin.label());
        out.append(")");
        out
    }
}

/// A path from the environment always wins.
pub proof fn the_environment_wins(input: Inputs, node: Seq<char>, dsh: Seq<char>)
    requires
        opt_view(input.env_node) == Some(node),
        opt_view(input.env_dsh) == Some(dsh),
    ensures
        node_of(input) == Some((PickModel { path: node, origin: Origin::Env })),
        dsh_of(input) == Some((PickModel { path: dsh, origin: Origin::Env })),
{
}

/// A tree that the user manages is never updated: only what the shell ships is.
pub proof fn a_user_tree_is_only_notified_of(input: Inputs)
    ensures
        dsh_of(input) matches Some(pick) ==> (updates_of(pick.origin) == Updates::Shadow ==> Some(
            pick,
        ) == bundled_dsh(input)),
{
}

/// A half is missing only where it is nowhere, whatever is preferred.
pub proof fn some_half_is_always_found(input: Inputs)
    ensures
        node_of(input) is None <==> input.env_node is None && input.system_node is None
            && input.seed_node is None,
        dsh_of(input) is None <==> input.env_dsh is None && input.system_dsh is None
            && input.seed_dsh is None && input.shadow_dsh is None,
{
}

/// An older copy never hides a newer seed, nor a seed a newer copy.
pub proof fn the_higher_version_wins(input: Inputs, seed: Seq<char>, shadow: Seq<char>)
    requires
        input.seed_dsh is Some,
        input.shadow_dsh is Some,
        str_view(input.seed_version) == Some(seed),
        str_view(input.shadow_version) == Some(shadow),
        version_in(seed) is Some,
        version_in(shadow) is Some,
    ensures
        version_below(version_in(shadow)->0, version_in(seed)->0) ==> bundled_dsh(input)->0.origin
            == Origin::Seed,
        version_below(version_in(seed)->0, version_in(shadow)->0) ==> bundled_dsh(input)->0.origin
            == Origin::Shadow,
{
    below_is_asymmetric(version_in(seed)->0, version_in(shadow)->0);
}

/// A preference is read whatever its case and the white space around it; any other word is none.
pub proof fn a_preference_reads_in_any_case(
    before: Seq<char>,
    name: Seq<char>,
    after: Seq<char>,
)
    requires
        forall|i: int| 0 <= i < before.len() ==> crate::redaction::blank(#[trigger] before[i]),
        forall|i: int| 0 <= i < after.len() ==> crate::redaction::blank(#[trigger] after[i]),
        name.len() > 0,
        !crate::redaction::blank(name[0]) && !crate::redaction::blank(name.last()),
    ensures
        preference_in(before + name + after) == (if crate::redaction::reads_as(name, "auto"@) {
            Some(Preference::Auto)
        } else if crate::redaction::reads_as(name, "bundled"@) {
            Some(Preference::Bundled)
        } else if crate::redaction::reads_as(name, "system"@) {
            Some(Preference::System)
        } else {
            None
        }),
{
    crate::text::trimming_takes_the_ends(before, name, after);
    reveal_strlit("auto");
    reveal_strlit("bundled");
    reveal_strlit("system");
    crate::redaction::lemma_reads_small(name, "auto"@);
    crate::redaction::lemma_reads_small(name, "bundled"@);
    crate::redaction::lemma_reads_small(name, "system"@);
}

/// Which half is taken: what the environment names; else the installed one, or where the bundled
/// is wanted that one; and the other where the wanted one is not there.
pub proof fn which_half_is_taken(
    preference: Preference,
    env: Seq<char>,
    system: Seq<char>,
    bundled: PickModel,
)
    ensures
        half_of(preference, Some(env), Some(system), Some(bundled)) == Some(
            (PickModel { path: env, origin: Origin::Env }),
        ),
        half_of(Preference::Auto, None, Some(system), Some(bundled)) == Some(
            (PickModel { path: system, origin: Origin::System }),
        ),
        half_of(Preference::System, None, Some(system), Some(bundled)) == Some(
            (PickModel { path: system, origin: Origin::System }),
        ),
        half_of(Preference::Bundled, None, Some(system), Some(bundled)) == Some(bundled),
        half_of(preference, None, None, Some(bundled)) == Some(bundled),
        half_of(preference, None, Some(system), None) == Some(
            (PickModel { path: system, origin: Origin::System }),
        ),
        half_of(preference, None, None, None) is None,
{
}

/// Of the shipped tree and the updated copy the one that is there is taken; of both, the copy,
/// unless the versions tell that it is not the newer one.
pub proof fn which_bundled_tree_is_taken(
    seed: Seq<char>,
    shadow: Seq<char>,
    a: Option<Seq<char>>,
    b: Option<Seq<char>>,
)
    ensures
        bundled_of(Some(seed), None, a, b) == Some((PickModel { path: seed, origin: Origin::Seed })),
        bundled_of(None, Some(shadow), a, b) == Some(
            (PickModel { path: shadow, origin: Origin::Shadow }),
        ),
        bundled_of(None, None, a, b) is None,
        a is None || b is None || version_in(a->0) is None || version_in(b->0) is None
            ==> bundled_of(Some(seed), Some(shadow), a, b) == Some(
            (PickModel { path: shadow, origin: Origin::Shadow }),
        ),
        a is Some && a == b && version_in(a->0) is Some ==> bundled_of(
            Some(seed),
            Some(shadow),
            a,
            b,
        ) == Some((PickModel { path: seed, origin: Origin::Seed })),
{
    if a is Some && version_in(a->0) is Some {
        below_is_asymmetric(version_in(a->0)->0, version_in(a->0)->0);
    }
}

/// Only what the shell ships or updated itself is installed over.
pub proof fn only_own_trees_are_updated(origin: Origin)
    ensures
        updates_of(origin) == Updates::Shadow <==> origin == Origin::Seed || origin
            == Origin::Shadow,
{
}

} // verus!

//! Finding the executables that the shell needs: the dsh launcher, its script, and node.
//!
//! `dsh` is a crowded name, so a launcher counts only where the package that owns it is this CLI,
//! or where it at least answers `--version` with a version.
use vstd::prelude::*;

use crate::bytes::lossy;
#[allow(unused_imports)]
use crate::bytes::utf8_lossy;
use crate::json::{refusal, string_member};
#[allow(unused_imports)]
use crate::json::{json_refusal, json_string_member};
use crate::paths::{dot_of, file_name, is_absolute, parent, path_join};
#[allow(unused_imports)]
use crate::paths::{dot_in, file_name_in, parent_path, path_is_absolute, path_joined, same_path};
use crate::process::WaitStep;
use crate::search::{contains, starts_with};
#[allow(unused_imports)]
use crate::search::{begins, holds};
use crate::search_path::{has_dir, split_dirs};
#[allow(unused_imports)]
use crate::search_path::listed_dirs;
use crate::split::{join, text_lines, text_words};
#[allow(unused_imports)]
use crate::split::{joined, lines, words};
use crate::text::{chars_of, piece, same, text_eq, trim_text};
#[allow(unused_imports)]
use crate::text::{opt_view, texts, trimmed};
use crate::version::Version;
#[allow(unused_imports)]
use crate::version::{version_in, version_text};

verus! {

/// The npm package that a launcher has to belong to.
pub const DSH_PACKAGE: &'static str = "@deepseek-ai/dsh";

/// How many directories above a script are searched for its package.
pub const MANIFEST_LEVELS: usize = 5;

/// A CLI and the node that runs it.
#[derive(Debug, Clone, PartialEq, Eq)]
pub struct DshLocation {
    pub launcher: String,
    pub dsh_js: String,
    pub node: String,
}

/// What a node binary can do.
#[derive(Debug, Clone, PartialEq, Eq)]
pub struct NodeFacts {
    pub arch: String,
    pub strip_types: bool,
}

/// The facts that the probe script prints: the architecture, and the type of the capability.
pub open spec fn facts_in(output: Seq<char>) -> Option<(Seq<char>, bool)> {
    let parts = words(output);
    if parts.len() == 0 {
        None
    } else {
        Some((parts[0], parts.len() > 1 && parts[1] == "function"@))
    }
}

/// What the probe of a node gives: the facts, where it ended well and printed them.
pub fn probe_node(succeeded: bool, output: &str) -> (r: Option<NodeFacts>)
    ensures
        (match r {
            Some(facts) => succeeded && facts_in(output@) == Some((facts.arch@, facts.strip_types)),
            None => !succeeded || facts_in(output@) is None,
        }),
{
    if !succeeded {
        return None;
    }
    let parts = text_words(output);
    proof {
        assert(parts@.len() == texts(parts@).len());
    }
    if parts.len() == 0 {
        return None;
    }
    proof {
        assert(texts(parts@)[0] == parts@[0]@);
        if parts@.len() > 1 {
            assert(texts(parts@)[1] == parts@[1]@);
        }
    }
    let strip_types = parts.len() > 1 && text_eq(parts[1].as_str(), "function");
    Some(NodeFacts { arch: parts[0].clone(), strip_types })
}

/// What the log says of a node that could not be probed.
pub fn probe_failure(step: WaitStep, error: &str, seconds: u64, node: &str) -> (r: Option<String>)
    ensures
        opt_view(r) == (match step {
            WaitStep::Failed => Some("探测失败: "@ + error@ + "；按不可用处理: "@ + node@),
            WaitStep::TimedOut => Some(
                "探测超过 "@ + crate::number::decimal(seconds as nat) + "s 未返回"@
                    + "；按不可用处理: "@ + node@,
            ),
            _ => None,
        }),
{
    let mut out = match step {
        WaitStep::Failed => {
            let mut why = "探测失败: ".to_owned();
            why.append(error);
            why
        },
        WaitStep::TimedOut => {
            let mut why = "探测超过 ".to_owned();
            why.append(crate::number::decimal_text(seconds).as_str());
            why.append("s 未返回");
            why
        },
        _ => {
            return None;
        },
    };
    out.append("；按不可用处理: ");
    out.append(node);
    Some(out)
}

// ---------------------------------------------------------------------------------------------
// The package that owns a script
// ---------------------------------------------------------------------------------------------

/// The manifest of a package: its name and version, empty where it does not say.
#[derive(Debug, Clone, PartialEq, Eq)]
pub struct PackageManifest {
    pub name: String,
    pub version: String,
}

/// A manifest as texts.
pub struct ManifestModel {
    pub name: Seq<char>,
    pub version: Seq<char>,
}

impl View for PackageManifest {
    type V = ManifestModel;

    open spec fn view(&self) -> ManifestModel {
        ManifestModel { name: self.name@, version: self.version@ }
    }
}

/// Where the manifest that owns a script is looked for: in the directories above it, nearest
/// first.
pub open spec fn manifest_places(dir: Option<Seq<char>>, levels: nat, windows: bool) -> Seq<
    Seq<char>,
>
    decreases levels,
{
    match dir {
        Some(d) => if levels > 0 {
            seq![path_joined(d, "package.json"@, windows)] + manifest_places(
                parent_path(d, windows),
                (levels - 1) as nat,
                windows,
            )
        } else {
            Seq::empty()
        },
        None => Seq::empty(),
    }
}

/// Where the manifest that owns a script is looked for, nearest first.
pub fn manifest_candidates(dsh_js: &str, windows: bool) -> (r: Vec<String>)
    ensures
        texts(r@) == manifest_places(
            parent_path(dsh_js@, windows),
            MANIFEST_LEVELS as nat,
            windows,
        ),
{
    let mut out: Vec<String> = Vec::new();
    let ghost whole = manifest_places(
            parent_path(dsh_js@, windows),
            MANIFEST_LEVELS as nat,
            windows,
        );
    let mut dir = parent(dsh_js, windows);
    let mut level: usize = 0;
    proof {
        assert(texts(out@) + whole =~= whole);
    }
    while level < MANIFEST_LEVELS
        invariant
            level <= MANIFEST_LEVELS,
            whole == manifest_places(
            parent_path(dsh_js@, windows),
            MANIFEST_LEVELS as nat,
            windows,
        ),
            texts(out@) + manifest_places(
                opt_view(dir),
                (MANIFEST_LEVELS - level) as nat,
                windows,
            ) == whole,
        decreases MANIFEST_LEVELS - level,
    {
        let next = match &dir {
            Some(d) => {
                let ghost before = texts(out@);
                let place = path_join(d.as_str(), "package.json", windows);
                let ghost added = place@;
                out.push(place);
                let up = parent(d.as_str(), windows);
                proof {
                    assert(texts(out@) =~= before + seq![added]);
                    assert(texts(out@) + manifest_places(
                        opt_view(up),
                        (MANIFEST_LEVELS - level - 1) as nat,
                        windows,
                    ) =~= before + manifest_places(
                        Some(d@),
                        (MANIFEST_LEVELS - level) as nat,
                        windows,
                    ));
                }
                up
            },
            None => {
                proof {
                    assert(texts(out@) =~= whole);
                }
                return out;
            },
        };
        dir = next;
        level += 1;
    }
    proof {
        assert(texts(out@) =~= whole);
    }
    out
}

/// What reading one of the places gave.
#[derive(Debug, Clone, PartialEq, Eq)]
pub enum ManifestRead {
    /// No file is there.
    Missing,
    /// There is one that cannot be read, for this reason.
    Unreadable(String),
    /// What the file holds.
    Text(String),
}

/// A manifest that was looked for: found, nowhere, or there but no use.
pub open spec fn manifest_result(r: Result<Option<PackageManifest>, String>) -> Result<
    Option<ManifestModel>,
    Seq<char>,
> {
    match r {
        Ok(Some(manifest)) => Ok(Some(manifest@)),
        Ok(None) => Ok(None),
        Err(error) => Err(error@),
    }
}

/// An optional text, empty where it is missing.
pub open spec fn or_empty(value: Option<Seq<char>>) -> Seq<char> {
    match value {
        Some(text) => text,
        None => Seq::empty(),
    }
}

/// What a manifest says, given the name and version it holds as strings.
pub open spec fn manifest_says(name: Option<Seq<char>>, version: Option<Seq<char>>) -> ManifestModel {
    ManifestModel { name: or_empty(name), version: trimmed(or_empty(version)) }
}

/// A manifest with the given name and version, empty where they are missing.
pub fn manifest_of(name: Option<String>, version: Option<String>) -> (r: PackageManifest)
    ensures
        r@ == manifest_says(opt_view(name), opt_view(version)),
{
    let name = match name {
        Some(text) => text,
        None => String::new(),
    };
    let version = match version {
        Some(text) => trim_text(text.as_str()),
        None => trim_text(""),
    };
    proof {
        reveal_strlit("");
        assert(""@ =~= Seq::<char>::empty());
    }
    PackageManifest { name, version }
}

/// The manifest that one place holds.
pub open spec fn manifest_in(place: Seq<char>, read: ManifestRead) -> Result<
    Option<ManifestModel>,
    Seq<char>,
> {
    match read {
        ManifestRead::Missing => Ok(None),
        ManifestRead::Unreadable(why) => Err(place + " 无法读取: "@ + why@),
        ManifestRead::Text(raw) => match json_refusal(raw@) {
            Some(why) => Err(place + " 不是合法 JSON: "@ + why),
            None => Ok(
                Some(
                    manifest_says(
                        json_string_member(raw@, "name"@),
                        json_string_member(raw@, "version"@),
                    ),
                ),
            ),
        },
    }
}

/// The manifest of the first place that has a file: a nearer one that belongs to another package
/// is an answer, not a reason to look further.
pub open spec fn owner_of(places: Seq<Seq<char>>, reads: Seq<ManifestRead>) -> Result<
    Option<ManifestModel>,
    Seq<char>,
>
    decreases reads.len(),
{
    if reads.len() == 0 || places.len() == 0 {
        Ok(None)
    } else if reads[0] is Missing {
        owner_of(places.subrange(1, places.len() as int), reads.subrange(1, reads.len() as int))
    } else {
        manifest_in(places[0], reads[0])
    }
}

/// The manifest that one place holds.
pub fn read_manifest(place: &str, read: &ManifestRead) -> (r: Result<
    Option<PackageManifest>,
    String,
>)
    ensures
        manifest_result(r) == manifest_in(place@, *read),
{
    match read {
        ManifestRead::Missing => Ok(None),
        ManifestRead::Unreadable(why) => {
            let mut out = place.to_owned();
            out.append(" 无法读取: ");
            out.append(why.as_str());
            Err(out)
        },
        ManifestRead::Text(raw) => {
            match refusal(raw.as_str()) {
                Some(why) => {
                    let mut out = place.to_owned();
                    out.append(" 不是合法 JSON: ");
                    out.append(why.as_str());
                    Err(out)
                },
                None => Ok(
                    Some(
                        manifest_of(
                            string_member(raw.as_str(), "name"),
                            string_member(raw.as_str(), "version"),
                        ),
                    ),
                ),
            }
        },
    }
}

/// The manifest that owns a script, from what reading [`manifest_candidates`] gave. Places past
/// the first file need not be read.
pub fn owning_manifest(places: &[String], reads: &[ManifestRead]) -> (r: Result<
    Option<PackageManifest>,
    String,
>)
    ensures
        manifest_result(r) == owner_of(texts(places@), reads@),
{
    let ghost p = texts(places@);
    let ghost q = reads@;
    let mut i: usize = 0;
    proof {
        assert(p.subrange(0, p.len() as int) =~= p);
        assert(q.subrange(0, q.len() as int) =~= q);
    }
    while i < places.len() && i < reads.len()
        invariant
            p == texts(places@),
            q == reads@,
            i <= p.len(),
            i <= q.len(),
            owner_of(p.subrange(i as int, p.len() as int), q.subrange(i as int, q.len() as int))
                == owner_of(p, q),
        decreases p.len() - i,
    {
        proof {
            let x = p.subrange(i as int, p.len() as int);
            let y = q.subrange(i as int, q.len() as int);
            assert(x[0] == places@[i as int]@);
            assert(y[0] == reads@[i as int]);
            assert(x.subrange(1, x.len() as int) =~= p.subrange(i + 1, p.len() as int));
            assert(y.subrange(1, y.len() as int) =~= q.subrange(i + 1, q.len() as int));
        }
        match &reads[i] {
            ManifestRead::Missing => {},
            read => {
                return read_manifest(places[i].as_str(), read);
            },
        }
        i += 1;
    }
    Ok(None)
}

/// The version of a CLI tree, where the package that owns it is this CLI and says one.
pub open spec fn owned_version(owner: Result<Option<ManifestModel>, Seq<char>>) -> Option<
    Seq<char>,
> {
    match owner {
        Ok(Some(manifest)) => if manifest.name == DSH_PACKAGE@ && manifest.version.len() > 0 {
            Some(manifest.version)
        } else {
            None
        },
        _ => None,
    }
}

/// The version of a CLI tree.
pub fn version_of(owner: &Result<Option<PackageManifest>, String>) -> (r: Option<String>)
    ensures
        opt_view(r) == owned_version(manifest_result(*owner)),
{
    match owner {
        Ok(Some(manifest)) => {
            if text_eq(manifest.name.as_str(), DSH_PACKAGE)
                && !manifest.version.as_str().is_empty() {
                Some(manifest.version.clone())
            } else {
                None
            }
        },
        _ => None,
    }
}

/// The version of a CLI tree as a person reads it, with the reason where it is not known.
pub open spec fn version_shown(
    dsh_js: Seq<char>,
    owner: Result<Option<ManifestModel>, Seq<char>>,
) -> Seq<char> {
    match owner {
        Ok(Some(manifest)) => if manifest.name != DSH_PACKAGE@ {
            "未知（"@ + dsh_js + " 属于 "@ + manifest.name + "，不是 "@ + DSH_PACKAGE@ + "）"@
        } else if manifest.version.len() > 0 {
            manifest.version
        } else {
            "未知（清单没有 version）"@
        },
        Ok(None) => "未知（找不到所属 package.json）"@,
        Err(error) => "未知（"@ + error + "）"@,
    }
}

/// The version of a CLI tree as a person reads it.
pub fn describe_version(dsh_js: &str, owner: &Result<Option<PackageManifest>, String>) -> (r: String)
    ensures
        r@ == version_shown(dsh_js@, manifest_result(*owner)),
{
    match owner {
        Ok(Some(manifest)) => {
            if !text_eq(manifest.name.as_str(), DSH_PACKAGE) {
                let mut out = "未知（".to_owned();
                out.append(dsh_js);
                out.append(" 属于 ");
                out.append(manifest.name.as_str());
                out.append("，不是 ");
                out.append(DSH_PACKAGE);
                out.append("）");
                out
            } else if !manifest.version.as_str().is_empty() {
                manifest.version.clone()
            } else {
                "未知（清单没有 version）".to_owned()
            }
        },
        Ok(None) => "未知（找不到所属 package.json）".to_owned(),
        Err(error) => {
            let mut out = "未知（".to_owned();
            out.append(error.as_str());
            out.append("）");
            out
        },
    }
}

/// The version that a `dsh --version` line carries, in its normal form.
pub open spec fn version_line(raw: Seq<char>) -> Option<Seq<char>> {
    let all = lines(trimmed(raw));
    if all.len() == 0 {
        None
    } else {
        match version_in(trimmed(all[0])) {
            Some(version) => Some(version_text(version)),
            None => None,
        }
    }
}

/// The version that a `dsh --version` line carries.
pub fn parse_version_line(raw: &str) -> (r: Option<String>)
    ensures
        opt_view(r) == version_line(raw@),
{
    let all = text_lines(trim_text(raw).as_str());
    proof {
        assert(all@.len() == texts(all@).len());
    }
    if all.len() == 0 {
        return None;
    }
    proof {
        assert(texts(all@)[0] == all@[0]@);
    }
    match Version::parse(trim_text(all[0].as_str()).as_str()) {
        Some(version) => Some(version.to_text()),
        None => None,
    }
}

/// The version of an installed CLI: the one its package names, or else what it answers.
pub fn version(owner: &Result<Option<PackageManifest>, String>, answer: Option<&str>) -> (r: Option<
    String,
>)
    ensures
        opt_view(r) == (match owned_version(manifest_result(*owner)) {
            Some(version) => Some(version),
            None => match answer {
                Some(line) => version_line(line@),
                None => None,
            },
        }),
{
    let named = version_of(owner);
    if named.is_some() {
        return named;
    }
    match answer {
        Some(line) => parse_version_line(line),
        None => None,
    }
}

// ---------------------------------------------------------------------------------------------
// Judging a launcher
// ---------------------------------------------------------------------------------------------

/// The extension of a path's file name, where it has one.
pub open spec fn extension_of(path: Seq<char>, windows: bool) -> Option<Seq<char>> {
    match file_name_in(path, windows) {
        Some(name) => if dot_in(name) < name.len() {
            Some(name.subrange(dot_in(name) + 1, name.len() as int))
        } else {
            None
        },
        None => None,
    }
}

/// Does a file that begins with `head` start node?
pub open spec fn runs_node(head: Seq<char>) -> bool {
    begins(head, "#!"@) && holds(head, "node"@)
}

/// Is the file a node launcher: a `.js` file, or one whose first bytes name node as the
/// interpreter? No bytes are known of a file that is empty or cannot be read.
pub fn is_js_launcher(path: &str, head: Option<&[u8]>, windows: bool) -> (r: bool)
    ensures
        r == (extension_of(path@, windows) == Some("js"@) || (head matches Some(bytes)
            && bytes@.len() > 0 && runs_node(utf8_lossy(bytes@)))),
{
    match file_name(path, windows) {
        Some(name) => {
            let chars = chars_of(name.as_str());
            let dot: usize = dot_of(&chars);
            if dot < chars.len() && same(&piece(&chars, dot + 1, chars.len()), &chars_of("js")) {
                return true;
            }
        },
        None => {},
    }
    match head {
        Some(bytes) => {
            if bytes.len() == 0 {
                return false;
            }
            names_node(lossy(bytes).as_str())
        },
        None => false,
    }
}

/// Does a file that begins with `head` start node?
pub fn names_node(head: &str) -> (r: bool)
    ensures
        r == runs_node(head@),
{
    starts_with(head, "#!") && contains(head, "node")
}

/// How a launcher was judged.
#[derive(Debug, Clone, PartialEq, Eq)]
pub enum Candidate {
    /// The package that owns it is this CLI.
    Ours,
    /// It answers `--version` with a version, but no package owns it.
    Unidentified(String),
    /// Not this CLI, for this reason.
    Foreign(String),
}

/// A judgement as texts.
pub enum CandidateModel {
    Ours,
    Unidentified(Seq<char>),
    Foreign(Seq<char>),
}

impl View for Candidate {
    type V = CandidateModel;

    open spec fn view(&self) -> CandidateModel {
        match self {
            Candidate::Ours => CandidateModel::Ours,
            Candidate::Unidentified(version) => CandidateModel::Unidentified(version@),
            Candidate::Foreign(reason) => CandidateModel::Foreign(reason@),
        }
    }
}

/// What the owning package alone says of a launcher; nothing where it has to be asked.
pub open spec fn judged_by_owner(
    resolved: Seq<char>,
    owner: Result<Option<ManifestModel>, Seq<char>>,
    is_js: bool,
) -> Option<CandidateModel> {
    match owner {
        Err(error) => Some(CandidateModel::Foreign(error)),
        Ok(Some(manifest)) => if manifest.name == DSH_PACKAGE@ {
            Some(CandidateModel::Ours)
        } else {
            Some(
                CandidateModel::Foreign(
                    resolved + " 属于 "@ + manifest.name + "，不是 "@ + DSH_PACKAGE@,
                ),
            )
        },
        Ok(None) => if is_js {
            None
        } else {
            Some(CandidateModel::Foreign(resolved + " 不是 node 启动脚本"@))
        },
    }
}

/// What a launcher's answer to `--version` says of it.
pub open spec fn judged_by_answer(resolved: Seq<char>, answer: Option<Seq<char>>) -> CandidateModel {
    match answer {
        Some(line) => match version_line(line) {
            Some(version) => CandidateModel::Unidentified(version),
            None => CandidateModel::Foreign(resolved + " 不响应 --version"@),
        },
        None => CandidateModel::Foreign(resolved + " 不响应 --version"@),
    }
}

/// How a launcher is judged.
pub open spec fn judged(
    resolved: Seq<char>,
    owner: Result<Option<ManifestModel>, Seq<char>>,
    is_js: bool,
    answer: Option<Seq<char>>,
) -> CandidateModel {
    match judged_by_owner(resolved, owner, is_js) {
        Some(candidate) => candidate,
        None => judged_by_answer(resolved, answer),
    }
}

/// Judges a launcher by the package that owns it; none where it has to be asked for its version,
/// which costs a start of node.
pub fn judge_owner(
    resolved: &str,
    owner: &Result<Option<PackageManifest>, String>,
    is_js: bool,
) -> (r: Option<Candidate>)
    ensures
        (match r {
            Some(candidate) => judged_by_owner(resolved@, manifest_result(*owner), is_js) == Some(
                candidate@,
            ),
            None => judged_by_owner(resolved@, manifest_result(*owner), is_js) is None,
        }),
{
    match owner {
        Err(error) => Some(Candidate::Foreign(error.clone())),
        Ok(Some(manifest)) => {
            if text_eq(manifest.name.as_str(), DSH_PACKAGE) {
                return Some(Candidate::Ours);
            }
            let mut out = resolved.to_owned();
            out.append(" 属于 ");
            out.append(manifest.name.as_str());
            out.append("，不是 ");
            out.append(DSH_PACKAGE);
            Some(Candidate::Foreign(out))
        },
        Ok(None) => {
            if is_js {
                return None;
            }
            let mut out = resolved.to_owned();
            out.append(" 不是 node 启动脚本");
            Some(Candidate::Foreign(out))
        },
    }
}

/// Judges a launcher. `answer` is what it prints for `--version`, and is looked at only where no
/// package owns the launcher.
pub fn judge(
    resolved: &str,
    owner: &Result<Option<PackageManifest>, String>,
    is_js: bool,
    answer: Option<String>,
) -> (r: Candidate)
    ensures
        r@ == judged(resolved@, manifest_result(*owner), is_js, opt_view(answer)),
{
    match judge_owner(resolved, owner, is_js) {
        Some(candidate) => {
            return candidate;
        },
        None => {},
    }
    let version = match &answer {
        Some(line) => parse_version_line(line.as_str()),
        None => None,
    };
    match version {
        Some(version) => Candidate::Unidentified(version),
        None => {
            let mut out = resolved.to_owned();
            out.append(" 不响应 --version");
            Candidate::Foreign(out)
        },
    }
}

/// A launcher that another package owns is never taken for this CLI, whatever it answers.
pub proof fn another_package_is_never_ours(
    resolved: Seq<char>,
    manifest: ManifestModel,
    is_js: bool,
    answer: Option<Seq<char>>,
)
    requires
        manifest.name != DSH_PACKAGE@,
    ensures
        judged(resolved, Ok(Some(manifest)), is_js, answer) is Foreign,
        owned_version(Ok(Some(manifest))) is None,
{
}

// ---------------------------------------------------------------------------------------------
// Searching
// ---------------------------------------------------------------------------------------------

/// A place where a launcher may be.
#[derive(Debug, Clone, PartialEq, Eq)]
pub struct Offer {
    pub path: String,
    /// The file that the path leads to.
    pub resolved: String,
    pub is_file: bool,
}

/// An optional path as a list of none or one.
pub open spec fn maybe(path: Option<Seq<char>>) -> Seq<Seq<char>> {
    match path {
        Some(p) => seq![p],
        None => Seq::empty(),
    }
}

/// The places where a launcher may be, in the order in which they are tried.
pub fn launcher_places(
    override_env: Option<&str>,
    remembered: Option<&str>,
    on_path: Option<&str>,
    login_shell: Option<&str>,
    windows: bool,
) -> (r: Vec<String>)
    ensures
        texts(r@) == maybe(crate::runtime::str_view(override_env)) + maybe(
            crate::runtime::str_view(remembered),
        ) + maybe(crate::runtime::str_view(on_path)) + seq![
            path_joined("/opt/homebrew/bin"@, "dsh"@, windows),
            path_joined("/usr/local/bin"@, "dsh"@, windows),
        ] + maybe(crate::runtime::str_view(login_shell)),
{
    let mut out: Vec<String> = Vec::new();
    if let Some(path) = override_env {
        out.push(path.to_owned());
    }
    if let Some(path) = remembered {
        out.push(path.to_owned());
    }
    if let Some(path) = on_path {
        out.push(path.to_owned());
    }
    out.push(path_join("/opt/homebrew/bin", "dsh", windows));
    out.push(path_join("/usr/local/bin", "dsh", windows));
    if let Some(path) = login_shell {
        out.push(path.to_owned());
    }
    proof {
        assert(texts(out@) =~= maybe(crate::runtime::str_view(override_env)) + maybe(
            crate::runtime::str_view(remembered),
        ) + maybe(crate::runtime::str_view(on_path)) + seq![
            path_joined("/opt/homebrew/bin"@, "dsh"@, windows),
            path_joined("/usr/local/bin"@, "dsh"@, windows),
        ] + maybe(crate::runtime::str_view(login_shell)));
    }
    out
}

/// The offers that are files, each file once: of two paths to one file the first stays.
pub open spec fn distinct_files(offers: Seq<Offer>, windows: bool) -> Seq<Offer>
    decreases offers.len(),
{
    if offers.len() == 0 {
        Seq::empty()
    } else {
        let before = distinct_files(offers.drop_last(), windows);
        let last = offers.last();
        if last.is_file && !leads_to(before, last.resolved@, windows) {
            before.push(last)
        } else {
            before
        }
    }
}

/// Does one of the offers lead to this file?
pub open spec fn leads_to(offers: Seq<Offer>, resolved: Seq<char>, windows: bool) -> bool {
    exists|i: int|
        0 <= i < offers.len() && same_path((#[trigger] offers[i]).resolved@, resolved, windows)
}

/// The paths of offers.
pub open spec fn offered_paths(offers: Seq<Offer>) -> Seq<Seq<char>> {
    Seq::new(offers.len(), |i: int| offers[i].path@)
}

/// The launchers to judge: the offers that are files, each file once.
pub fn launcher_candidates(offers: &[Offer], windows: bool) -> (r: Vec<String>)
    ensures
        texts(r@) == offered_paths(distinct_files(offers@, windows)),
{
    let mut out: Vec<String> = Vec::new();
    let mut seen: Vec<String> = Vec::new();
    let mut i: usize = 0;
    proof {
        assert(offers@.take(0) =~= Seq::<Offer>::empty());
        assert(texts(out@) =~= offered_paths(distinct_files(offers@.take(0), windows)));
    }
    while i < offers.len()
        invariant
            i <= offers@.len(),
            texts(out@) == offered_paths(distinct_files(offers@.take(i as int), windows)),
            seen@.len() == distinct_files(offers@.take(i as int), windows).len(),
            forall|j: int|
                0 <= j < seen@.len() ==> (#[trigger] seen@[j])@ == distinct_files(
                    offers@.take(i as int),
                    windows,
                )[j].resolved@,
        decreases offers@.len() - i,
    {
        let ghost before = distinct_files(offers@.take(i as int), windows);
        let ghost last = offers@[i as int];
        proof {
            let next = offers@.take(i + 1);
            assert(next.drop_last() =~= offers@.take(i as int));
            assert(next.last() == last);
        }
        let known = has_dir(seen.as_slice(), offers[i].resolved.as_str(), windows);
        proof {
            assert(known == leads_to(before, last.resolved@, windows)) by {
                if known {
                    let k = choose|k: int|
                        0 <= k < seen@.len() && same_path(
                            #[trigger] texts(seen@)[k],
                            last.resolved@,
                            windows,
                        );
                    assert(seen@[k]@ == before[k].resolved@);
                } else if leads_to(before, last.resolved@, windows) {
                    let k = choose|k: int|
                        0 <= k < before.len() && same_path(
                            (#[trigger] before[k]).resolved@,
                            last.resolved@,
                            windows,
                        );
                    assert(seen@[k]@ == before[k].resolved@);
                    assert(texts(seen@)[k] == before[k].resolved@);
                }
            }
        }
        if offers[i].is_file && !known {
            let ghost paths = texts(out@);
            out.push(offers[i].path.clone());
            seen.push(offers[i].resolved.clone());
            proof {
                assert(texts(out@) =~= paths.push(last.path@));
                assert(offered_paths(before.push(last)) =~= offered_paths(before).push(
                    last.path@,
                ));
            }
        }
        i += 1;
    }
    proof {
        assert(offers@.take(offers@.len() as int) =~= offers@);
    }
    out
}

/// The search for a launcher: the candidates are judged one after the other.
#[derive(Debug, Clone)]
pub struct LauncherSearch {
    pub rejected: Vec<String>,
    /// The first launcher that answered with a version without being identified.
    pub unidentified: Option<(String, String)>,
    pub judged: bool,
}

/// The search for a launcher, as texts.
pub struct SearchModel {
    pub rejected: Seq<Seq<char>>,
    pub unidentified: Option<(Seq<char>, Seq<char>)>,
    pub judged: bool,
}

/// A launcher and its version as texts.
pub open spec fn named(pair: Option<(String, String)>) -> Option<(Seq<char>, Seq<char>)> {
    match pair {
        Some((launcher, version)) => Some((launcher@, version@)),
        None => None,
    }
}

impl View for LauncherSearch {
    type V = SearchModel;

    open spec fn view(&self) -> SearchModel {
        SearchModel {
            rejected: texts(self.rejected@),
            unidentified: named(self.unidentified),
            judged: self.judged,
        }
    }
}

/// The search before any candidate was judged.
pub open spec fn search_start() -> SearchModel {
    SearchModel { rejected: Seq::empty(), unidentified: None, judged: false }
}

/// The search after one more judgement, and the launcher where that ends it.
pub open spec fn search_take(s: SearchModel, candidate: Seq<char>, judgement: CandidateModel) -> (
    SearchModel,
    Option<Seq<char>>,
) {
    let s = SearchModel { judged: true, ..s };
    match judgement {
        CandidateModel::Ours => (s, Some(candidate)),
        CandidateModel::Unidentified(version) => (
            if s.unidentified is None {
                SearchModel { unidentified: Some((candidate, version)), ..s }
            } else {
                s
            },
            None,
        ),
        CandidateModel::Foreign(reason) => (
            SearchModel { rejected: s.rejected.push(reason), ..s },
            None,
        ),
    }
}

/// What is said where every candidate was rejected, for these reasons.
pub open spec fn all_rejected(reasons: Seq<Seq<char>>) -> Seq<char> {
    "PATH 上的 dsh 都不是 "@ + DSH_PACKAGE@ + "："@ + joined(reasons, "；"@) + "。请安装 npm i -g "@
        + DSH_PACKAGE@ + "，或用 DSH_DESKTOP_DSH / config.json 的 dsh_path 指定。"@
}

/// What is said where there was no candidate at all.
pub open spec fn none_found() -> Seq<char> {
    "找不到 dsh。可在 config.json 里设置 dsh_path，或用环境变量 DSH_DESKTOP_DSH 指定绝对路径。"@
}

/// What the search gives when no candidate was ours.
pub open spec fn search_end(s: SearchModel) -> Result<Seq<char>, Seq<char>> {
    if !s.judged {
        Err(none_found())
    } else {
        match s.unidentified {
            Some((launcher, _)) => Ok(launcher),
            None => Err(all_rejected(s.rejected)),
        }
    }
}

/// A launcher, or why there is none, as texts.
pub open spec fn launcher_result(r: Result<String, String>) -> Result<Seq<char>, Seq<char>> {
    match r {
        Ok(launcher) => Ok(launcher@),
        Err(reason) => Err(reason@),
    }
}

/// The search before any candidate was judged.
pub fn new_search() -> (r: LauncherSearch)
    ensures
        r@ == search_start(),
{
    let r = LauncherSearch { rejected: Vec::new(), unidentified: None, judged: false };
    proof {
        assert(texts(r.rejected@) =~= Seq::<Seq<char>>::empty());
    }
    r
}

impl LauncherSearch {
    /// Takes the judgement on the next candidate. The first that is ours ends the search.
    pub fn take(&mut self, candidate: &str, judgement: Candidate) -> (r: Option<String>)
        ensures
            (final(self)@, opt_view(r)) == search_take(old(self)@, candidate@, judgement@),
    {
        self.judged = true;
        match judgement {
            Candidate::Ours => Some(candidate.to_owned()),
            Candidate::Unidentified(version) => {
                if self.unidentified.is_none() {
                    self.unidentified = Some((candidate.to_owned(), version));
                }
                None
            },
            Candidate::Foreign(reason) => {
                let ghost before = texts(self.rejected@);
                self.rejected.push(reason);
                proof {
                    assert(texts(self.rejected@) =~= before.push(reason@));
                }
                None
            },
        }
    }

    /// What the search gives when no candidate was ours: the launcher that at least answered with
    /// a version, or what was wrong with all of them.
    pub fn finish(&self) -> (r: Result<String, String>)
        ensures
            launcher_result(r) == search_end(self@),
    {
        if !self.judged {
            return Err(
                "找不到 dsh。可在 config.json 里设置 dsh_path，或用环境变量 DSH_DESKTOP_DSH 指定绝对路径。".to_owned(),
            );
        }
        match &self.unidentified {
            Some((launcher, _)) => Ok(launcher.clone()),
            None => {
                let mut out = "PATH 上的 dsh 都不是 ".to_owned();
                out.append(DSH_PACKAGE);
                out.append("：");
                out.append(join(self.rejected.as_slice(), "；").as_str());
                out.append("。请安装 npm i -g ");
                out.append(DSH_PACKAGE);
                out.append("，或用 DSH_DESKTOP_DSH / config.json 的 dsh_path 指定。");
                Err(out)
            },
        }
    }
}

/// The whole of a search over candidates and their judgements.
pub open spec fn run_search(s: SearchModel, all: Seq<(Seq<char>, CandidateModel)>) -> Result<
    Seq<char>,
    Seq<char>,
>
    decreases all.len(),
{
    if all.len() == 0 {
        search_end(s)
    } else {
        let (after, found) = search_take(s, all[0].0, all[0].1);
        match found {
            Some(launcher) => Ok(launcher),
            None => run_search(after, all.subrange(1, all.len() as int)),
        }
    }
}

/// The first candidate that is ours.
pub open spec fn first_ours(all: Seq<(Seq<char>, CandidateModel)>) -> Option<Seq<char>>
    decreases all.len(),
{
    if all.len() == 0 {
        None
    } else if all[0].1 is Ours {
        Some(all[0].0)
    } else {
        first_ours(all.subrange(1, all.len() as int))
    }
}

/// The first candidate that answers with a version without being identified.
pub open spec fn first_unidentified(all: Seq<(Seq<char>, CandidateModel)>) -> Option<Seq<char>>
    decreases all.len(),
{
    if all.len() == 0 {
        None
    } else if all[0].1 is Unidentified {
        Some(all[0].0)
    } else {
        first_unidentified(all.subrange(1, all.len() as int))
    }
}

/// Why candidates were rejected, in their order.
pub open spec fn rejections(all: Seq<(Seq<char>, CandidateModel)>) -> Seq<Seq<char>>
    decreases all.len(),
{
    if all.len() == 0 {
        Seq::empty()
    } else {
        let rest = rejections(all.subrange(1, all.len() as int));
        match all[0].1 {
            CandidateModel::Foreign(reason) => seq![reason] + rest,
            _ => rest,
        }
    }
}

proof fn lemma_search(s: SearchModel, all: Seq<(Seq<char>, CandidateModel)>)
    requires
        s.judged || all.len() > 0,
    ensures
        run_search(s, all) == (match first_ours(all) {
            Some(launcher) => Ok(launcher),
            None => match s.unidentified {
                Some((launcher, _)) => Ok(launcher),
                None => match first_unidentified(all) {
                    Some(launcher) => Ok(launcher),
                    None => Err(all_rejected(s.rejected + rejections(all))),
                },
            },
        }),
    decreases all.len(),
{
    if all.len() == 0 {
        assert(s.rejected + rejections(all) =~= s.rejected);
    } else {
        let rest = all.subrange(1, all.len() as int);
        let (after, found) = search_take(s, all[0].0, all[0].1);
        if found is None {
            lemma_search(after, rest);
            assert(after.rejected + rejections(rest) =~= s.rejected + rejections(all));
        }
    }
}

/// The first candidate that is ours is taken, wherever it stands. Where none is, the first that
/// at least answers with a version is; and where there is none of those either, the failure
/// names why each candidate was rejected.
pub proof fn the_first_of_ours_is_taken(all: Seq<(Seq<char>, CandidateModel)>)
    ensures
        run_search(search_start(), all) == (match first_ours(all) {
            Some(launcher) => Ok(launcher),
            None => match first_unidentified(all) {
                Some(launcher) => Ok(launcher),
                None => Err(
                    if all.len() == 0 {
                        none_found()
                    } else {
                        all_rejected(rejections(all))
                    },
                ),
            },
        }),
{
    if all.len() > 0 {
        lemma_search(search_start(), all);
        assert(search_start().rejected + rejections(all) =~= rejections(all));
    }
}

/// What the log says of a candidate that was skipped.
pub fn skipped_line(reason: &str) -> (r: String)
    ensures
        r@ == "跳过候选 dsh："@ + reason@,
{
    let mut out = "跳过候选 dsh：".to_owned();
    out.append(reason);
    out
}

/// What the log says of a launcher that is used without being identified.
pub fn unidentified_line(launcher: &str, version: &str) -> (r: String)
    ensures
        r@ == "无法从清单确认 "@ + launcher@ + " 属于 "@ + DSH_PACKAGE@ + "，但它报告版本 "@
            + version@ + "，按用户的安装处理"@,
{
    let mut out = "无法从清单确认 ".to_owned();
    out.append(launcher);
    out.append(" 属于 ");
    out.append(DSH_PACKAGE);
    out.append("，但它报告版本 ");
    out.append(version);
    out.append("，按用户的安装处理");
    out
}

/// The names under which a command may be installed, in the order in which they are tried.
pub open spec fn command_names(name: Seq<char>, windows: bool) -> Seq<Seq<char>> {
    if windows {
        seq![name + ".exe"@, name + ".cmd"@, name + ".bat"@, name]
    } else {
        seq![name]
    }
}

/// The places of a command in one directory.
pub open spec fn places_in(dir: Seq<char>, names: Seq<Seq<char>>, windows: bool) -> Seq<Seq<char>> {
    Seq::new(names.len(), |i: int| path_joined(dir, names[i], windows))
}

/// The places of a command in the absolute directories of a list.
pub open spec fn places_on(
    dirs: Seq<Seq<char>>,
    names: Seq<Seq<char>>,
    windows: bool,
) -> Seq<Seq<char>>
    decreases dirs.len(),
{
    if dirs.len() == 0 {
        Seq::empty()
    } else if path_is_absolute(dirs.last(), windows) {
        places_on(dirs.drop_last(), names, windows) + places_in(dirs.last(), names, windows)
    } else {
        places_on(dirs.drop_last(), names, windows)
    }
}

fn names_of(name: &str, windows: bool) -> (r: Vec<String>)
    ensures
        texts(r@) == command_names(name@, windows),
{
    let mut out: Vec<String> = Vec::new();
    if windows {
        let mut exe = name.to_owned();
        exe.append(".exe");
        out.push(exe);
        let mut script = name.to_owned();
        script.append(".cmd");
        out.push(script);
        let mut batch = name.to_owned();
        batch.append(".bat");
        out.push(batch);
    }
    out.push(name.to_owned());
    proof {
        assert(texts(out@) =~= command_names(name@, windows));
    }
    out
}

/// Appends the places of a command in one directory.
pub fn add_places(out: &mut Vec<String>, dir: &str, names: &[String], windows: bool)
    ensures
        texts(final(out)@) == texts(old(out)@) + places_in(dir@, texts(names@), windows),
{
    let ghost before = texts(out@);
    let ghost all = places_in(dir@, texts(names@), windows);
    let mut i: usize = 0;
    proof {
        assert(texts(out@) =~= before + all.take(0));
    }
    while i < names.len()
        invariant
            i <= names@.len(),
            all == places_in(dir@, texts(names@), windows),
            texts(out@) == before + all.take(i as int),
        decreases names@.len() - i,
    {
        let ghost held = texts(out@);
        out.push(path_join(dir, names[i].as_str(), windows));
        proof {
            assert(texts(out@) =~= held.push(all[i as int]));
            assert(texts(out@) =~= before + all.take(i + 1));
        }
        i += 1;
    }
    proof {
        assert(all.take(all.len() as int) =~= all);
    }
}

/// The places of a command on a list such as `PATH`, in order; relative entries are not searched.
pub fn path_lookup(name: &str, list: &str, windows: bool) -> (r: Vec<String>)
    ensures
        texts(r@) == places_on(
            listed_dirs(list@, windows),
            command_names(name@, windows),
            windows,
        ),
{
    let dirs = split_dirs(list, windows);
    let names = names_of(name, windows);
    let ghost all = listed_dirs(list@, windows);
    let ghost wanted = command_names(name@, windows);
    let mut out: Vec<String> = Vec::new();
    let mut i: usize = 0;
    proof {
        assert(all.take(0) =~= Seq::<Seq<char>>::empty());
        assert(texts(out@) =~= Seq::<Seq<char>>::empty());
    }
    while i < dirs.len()
        invariant
            i <= dirs@.len(),
            texts(dirs@) == all,
            texts(names@) == wanted,
            texts(out@) == places_on(all.take(i as int), wanted, windows),
        decreases dirs@.len() - i,
    {
        proof {
            let next = all.take(i + 1);
            assert(next.drop_last() =~= all.take(i as int));
            assert(next.last() == dirs@[i as int]@);
        }
        if is_absolute(dirs[i].as_str(), windows) {
            add_places(&mut out, dirs[i].as_str(), names.as_slice(), windows);
        }
        i += 1;
    }
    proof {
        assert(all.take(all.len() as int) =~= all);
    }
    out
}

/// The places where an installed command is looked for: the app's own PATH, then the imported one
/// of the login shell. Without an imported one the login shell is asked at last.
pub fn search(name: &str, app_path: Option<&str>, shell_path: Option<&str>, windows: bool) -> (r: (
    Vec<String>,
    bool,
))
    ensures
        ({
            let on = |list: Option<&str>|
                match list {
                    Some(l) => places_on(
                        listed_dirs(l@, windows),
                        command_names(name@, windows),
                        windows,
                    ),
                    None => Seq::<Seq<char>>::empty(),
                };
            texts(r.0@) == on(app_path) + on(shell_path)
        }),
        r.1 == (shell_path is None && !windows),
{
    let mut out = match app_path {
        Some(list) => path_lookup(name, list, windows),
        None => Vec::new(),
    };
    let ghost first = texts(out@);
    match shell_path {
        Some(list) => {
            let mut more = path_lookup(name, list, windows);
            let ghost second = texts(more@);
            out.append(&mut more);
            proof {
                assert(texts(out@) =~= first + second);
            }
        },
        None => {},
    }
    proof {
        if app_path is None {
            assert(first =~= Seq::<Seq<char>>::empty());
        }
        if shell_path is None {
            assert(first + Seq::<Seq<char>>::empty() =~= first);
        }
    }
    (out, shell_path.is_none() && !windows)
}

/// The node that belongs to a launcher: one beside it, or else one that was found elsewhere.
pub fn beside_launcher(launcher: &str, windows: bool) -> (r: Vec<String>)
    ensures
        texts(r@) == (match parent_path(launcher@, windows) {
            Some(dir) => seq![
                path_joined(dir, "node"@, windows),
                path_joined(dir, "node.exe"@, windows),
            ],
            None => Seq::empty(),
        }),
{
    let mut out: Vec<String> = Vec::new();
    match parent(launcher, windows) {
        Some(dir) => {
            out.push(path_join(dir.as_str(), "node", windows));
            out.push(path_join(dir.as_str(), "node.exe", windows));
            proof {
                assert(texts(out@) =~= seq![
                    path_joined(dir@, "node"@, windows),
                    path_joined(dir@, "node.exe"@, windows),
                ]);
            }
        },
        None => {
            proof {
                assert(texts(out@) =~= Seq::<Seq<char>>::empty());
            }
        },
    }
    out
}

/// Puts the launcher, its script and its node together, or says which of them is missing.
pub fn locate(
    launcher: Result<String, String>,
    dsh_js: String,
    env_node: Option<String>,
    found_node: Option<String>,
) -> (r: Result<DshLocation, String>)
    ensures
        (match r {
            Ok(location) => {
                &&& launcher is Ok
                &&& location.launcher@ == launcher->Ok_0@
                &&& location.dsh_js@ == dsh_js@
                &&& Some(location.node@) == (if env_node is Some {
                    opt_view(env_node)
                } else {
                    opt_view(found_node)
                })
            },
            Err(reason) => match launcher {
                Err(why) => reason@ == why@,
                Ok(_) => env_node is None && found_node is None && reason@
                    == "找不到 node。dsh 以 `#!/usr/bin/env node` 运行，没有 node 时启动会直接失败（exit 127）。"@,
            },
        }),
{
    let launcher = match launcher {
        Ok(launcher) => launcher,
        Err(why) => {
            return Err(why);
        },
    };
    match env_node {
        Some(node) => Ok(DshLocation { launcher, dsh_js, node }),
        None => match found_node {
            Some(node) => Ok(DshLocation { launcher, dsh_js, node }),
            None => Err(
                "找不到 node。dsh 以 `#!/usr/bin/env node` 运行，没有 node 时启动会直接失败（exit 127）。".to_owned(),
            ),
        },
    }
}

/// The system's dsh: the script that the launcher leads to, where one was found.
pub fn system_dsh(launcher: &Result<String, String>, resolved: String) -> (r: Option<String>)
    ensures
        opt_view(r) == (if launcher is Ok {
            Some(resolved@)
        } else {
            None
        }),
{
    match launcher {
        Ok(_) => Some(resolved),
        Err(_) => None,
    }
}

/// The system's node: what stands on the PATHs, or else what the login shell names. The node of
/// the environment is an input of its own and is not taken here.
pub fn system_node(on_path: Option<String>, login_shell: Option<String>) -> (r: Option<String>)
    ensures
        opt_view(r) == (if on_path is Some {
            opt_view(on_path)
        } else {
            opt_view(login_shell)
        }),
{
    match on_path {
        Some(node) => Some(node),
        None => login_shell,
    }
}

/// The probe of a node tells its architecture with its first word, and that it can strip types
/// with the second one, which then is `function`.
pub proof fn what_a_probe_tells(arch: Seq<char>, kind: Seq<char>)
    requires
        arch.len() > 0,
        kind.len() > 0,
        forall|i: int| 0 <= i < arch.len() ==> !crate::redaction::blank(#[trigger] arch[i]),
        forall|i: int| 0 <= i < kind.len() ==> !crate::redaction::blank(#[trigger] kind[i]),
    ensures
        facts_in(Seq::empty()) is None,
        facts_in(arch) == Some((arch, false)),
        facts_in(arch + seq![' '] + kind) == Some((arch, kind == "function"@)),
{
    crate::split::words_stand_between_white_space(' ', arch, kind);
    crate::split::words_stand_between_white_space(' ', kind, Seq::empty());
    let parts = words(arch + seq![' '] + kind);
    assert(parts =~= seq![arch, kind]);
    assert(parts[0] == arch && parts[1] == kind);
    assert(words(arch)[0] == arch);
}

/// The nearest manifest decides, whatever it says and whatever lies further up.
pub proof fn the_nearest_manifest_decides(
    places: Seq<Seq<char>>,
    reads: Seq<ManifestRead>,
    k: int,
)
    requires
        reads.len() == places.len(),
        0 <= k <= places.len(),
        forall|i: int| 0 <= i < k ==> #[trigger] reads[i] is Missing,
        k < places.len() ==> reads[k] !is Missing,
    ensures
        owner_of(places, reads) == (if k < places.len() {
            manifest_in(places[k], reads[k])
        } else {
            Ok(None)
        }),
    decreases places.len(),
{
    if k > 0 {
        let rest = places.subrange(1, places.len() as int);
        let left = reads.subrange(1, reads.len() as int);
        assert forall|i: int| 0 <= i < k - 1 implies #[trigger] left[i] is Missing by {
            assert(left[i] == reads[i + 1]);
        }
        assert(reads[0] is Missing);
        the_nearest_manifest_decides(rest, left, k - 1);
    }
}

/// A version counts only where the package is this CLI and says one.
pub proof fn whose_version_counts(manifest: ManifestModel, error: Seq<char>)
    ensures
        owned_version(Ok(Some(manifest))) == (if manifest.name == "@deepseek-ai/dsh"@
            && manifest.version.len() > 0 {
            Some(manifest.version)
        } else {
            None
        }),
        owned_version(Ok(None)) is None,
        owned_version(Err(error)) is None,
{
}

/// A launcher is judged by the package that owns it where there is one, and by its answer only
/// where there is none and it is a script for node; and whoever cannot be asked is foreign.
pub proof fn how_a_launcher_is_judged(
    resolved: Seq<char>,
    manifest: ManifestModel,
    error: Seq<char>,
    is_js: bool,
    answer: Option<Seq<char>>,
    line: Seq<char>,
)
    ensures
        judged(resolved, Err(error), is_js, answer) == CandidateModel::Foreign(error),
        manifest.name == "@deepseek-ai/dsh"@ ==> judged(resolved, Ok(Some(manifest)), is_js, answer)
            == CandidateModel::Ours,
        manifest.name != "@deepseek-ai/dsh"@ ==> judged(resolved, Ok(Some(manifest)), is_js, answer)
            is Foreign,
        judged(resolved, Ok(None), false, answer) is Foreign,
        judged(resolved, Ok(None), true, None) is Foreign,
        version_line(line) matches Some(version) ==> judged(resolved, Ok(None), true, Some(line))
            == CandidateModel::Unidentified(version),
        version_line(line) is None ==> judged(resolved, Ok(None), true, Some(line)) is Foreign,
{
}

/// The version that a CLI prints is read whatever white space and line ends stand around it.
pub proof fn a_printed_version_is_read(before: Seq<char>, line: Seq<char>, after: Seq<char>)
    requires
        forall|i: int| 0 <= i < before.len() ==> crate::redaction::blank(#[trigger] before[i]),
        forall|i: int| 0 <= i < after.len() ==> crate::redaction::blank(#[trigger] after[i]),
        line.len() > 0,
        !crate::redaction::blank(line[0]) && !crate::redaction::blank(line.last()),
        forall|i: int| 0 <= i < line.len() ==> line[i] != '\n',
    ensures
        version_line(before + line + after) == (match version_in(line) {
            Some(version) => Some(version_text(version)),
            None => None,
        }),
{
    crate::text::trimming_takes_the_ends(before, line, after);
    crate::split::a_line_goes_up_to_its_end(line, Seq::empty());
    let none = Seq::<char>::empty();
    crate::text::trimming_takes_the_ends(none, line, none);
    assert(none + line + none =~= line);
}

/// The extension of a name is what stands behind its last dot.
pub proof fn what_an_extension_is(stem: Seq<char>, extension: Seq<char>, windows: bool)
    requires
        stem.len() > 0,
        forall|i: int| 0 <= i < extension.len() ==> extension[i] != '.',
        file_name_in(stem + seq!['.'] + extension, windows) == Some(stem + seq!['.'] + extension),
    ensures
        extension_of(stem + seq!['.'] + extension, windows) == Some(extension),
{
    let name = stem + seq!['.'] + extension;
    crate::paths::where_an_extension_begins(stem, extension);
    assert(name.subrange(stem.len() as int + 1, name.len() as int) =~= extension);
}

/// Each file is offered once, by the first path that leads to it; no file is left out, and nothing
/// that is none is offered.
pub proof fn each_file_is_offered_once(offers: Seq<Offer>, windows: bool, k: int)
    ensures
        0 <= k < offers.len() && offers[k].is_file ==> leads_to(
            distinct_files(offers, windows),
            offers[k].resolved@,
            windows,
        ),
        forall|i: int|
            0 <= i < distinct_files(offers, windows).len() ==> (#[trigger] distinct_files(
                offers,
                windows,
            )[i]).is_file && offers.contains(distinct_files(offers, windows)[i]),
        forall|i: int, j: int|
            0 <= i < j < distinct_files(offers, windows).len() ==> !same_path(
                (#[trigger] distinct_files(offers, windows)[i]).resolved@,
                (#[trigger] distinct_files(offers, windows)[j]).resolved@,
                windows,
            ),
    decreases offers.len(),
{
    let out = distinct_files(offers, windows);
    if offers.len() > 0 {
        let rest = offers.drop_last();
        let before = distinct_files(rest, windows);
        let last = offers.last();
        each_file_is_offered_once(rest, windows, k);
        assert(offers[offers.len() - 1] == last);
        assert forall|i: int| 0 <= i < out.len() implies (#[trigger] out[i]).is_file
            && offers.contains(out[i]) by {
            if i < before.len() {
                assert(out[i] == before[i]);
                let m = choose|m: int| 0 <= m < rest.len() && rest[m] == before[i];
                assert(offers[m] == out[i]);
            }
        }
        assert forall|i: int, j: int| 0 <= i < j < out.len() implies !same_path(
            (#[trigger] out[i]).resolved@,
            (#[trigger] out[j]).resolved@,
            windows,
        ) by {
            assert(out[i] == before[i]);
            if j < before.len() {
                assert(out[j] == before[j]);
            }
        }
        if 0 <= k < offers.len() && offers[k].is_file {
            if k < rest.len() {
                let i = choose|i: int|
                    0 <= i < before.len() && same_path(
                        (#[trigger] before[i]).resolved@,
                        rest[k].resolved@,
                        windows,
                    );
                assert(out[i] == before[i]);
            } else if !leads_to(before, last.resolved@, windows) {
                assert(out[before.len() as int] == last);
            }
        }
    }
}

/// A command is looked for in every absolute directory, in their order and under each of its names
/// in theirs; a directory that is not absolute is passed over.
pub proof fn where_a_command_is_looked_for(
    dirs: Seq<Seq<char>>,
    dir: Seq<char>,
    name: Seq<char>,
    names: Seq<Seq<char>>,
    windows: bool,
)
    ensures
        places_on(Seq::empty(), names, windows) == Seq::<Seq<char>>::empty(),
        path_is_absolute(dir, windows) ==> places_on(dirs.push(dir), names, windows) == places_on(
            dirs,
            names,
            windows,
        ) + Seq::new(names.len(), |i: int| path_joined(dir, names[i], windows)),
        !path_is_absolute(dir, windows) ==> places_on(dirs.push(dir), names, windows) == places_on(
            dirs,
            names,
            windows,
        ),
        command_names(name, false) == seq![name],
        command_names(name, true) == seq![name + ".exe"@, name + ".cmd"@, name + ".bat"@, name],
{
    assert(dirs.push(dir).drop_last() =~= dirs);
}

/// The manifest is looked for beside the script first and then in each directory above, as many
/// as are looked at.
pub proof fn where_a_manifest_is_looked_for(dir: Seq<char>, name: Seq<char>, levels: nat)
    requires
        dir.len() > 0 && dir.last() != '/',
        dir.len() == 1 || !(dir.last() == '.' && dir[dir.len() - 2] == '/'),
        crate::paths::is_plain_name(name),
    ensures
        manifest_places(Some(dir), 0, false) == Seq::<Seq<char>>::empty(),
        manifest_places(None, levels, false) == Seq::<Seq<char>>::empty(),
        manifest_places(Some(dir + seq!['/'] + name), levels + 1, false) == seq![
            dir + seq!['/'] + name + "/package.json"@,
        ] + manifest_places(Some(dir), levels, false),
{
    reveal_strlit("package.json");
    reveal_strlit("/package.json");
    let whole = dir + seq!['/'] + name;
    assert forall|i: int| 0 <= i < name.len() implies name[i] != '/' by {
        assert(!crate::paths::is_sep(name[i]));
    }
    crate::paths::a_path_is_its_directory_and_its_name(dir, name);
    assert(whole.last() == name.last());
    crate::paths::a_name_is_joined_with_a_slash(whole, "package.json"@);
    assert(whole + seq!['/'] + "package.json"@ =~= whole + "/package.json"@);
}

/// A script is run by node where its first characters are `#!` and node is named somewhere behind
/// them.
pub proof fn when_a_script_runs_node(
    head: Seq<char>,
    before: Seq<char>,
    behind: Seq<char>,
)
    ensures
        runs_node(seq!['#', '!'] + before + seq!['n', 'o', 'd', 'e'] + behind),
        head.len() < 6 || head[0] != '#' || head[1] != '!' ==> !runs_node(head),
        (forall|i: int|
            2 <= i <= head.len() - 4 ==> !(#[trigger] head[i] == 'n' && head[i + 1] == 'o'
                && head[i + 2] == 'd' && head[i + 3] == 'e')) ==> !runs_node(head),
{
    reveal_strlit("#!");
    reveal_strlit("node");
    let mark = "#!"@;
    let name = "node"@;
    assert(mark =~= seq!['#', '!']);
    assert(name =~= seq!['n', 'o', 'd', 'e']);
    let s = mark + before + name + behind;
    assert(s =~= seq!['#', '!'] + before + seq!['n', 'o', 'd', 'e'] + behind);
    assert(s.subrange(0, 2) =~= mark);
    assert(crate::search::occurs_at(s, mark, 0));
    let at = 2 + before.len() as int;
    assert(s.subrange(at, at + 4) =~= name);
    assert(crate::search::occurs_at(s, name, at));
    if runs_node(head) {
        assert(crate::search::occurs_at(head, mark, 0));
        let at = choose|at: int| #[trigger] crate::search::occurs_at(head, name, at);
        assert(head.subrange(0, 2)[0] == '#' && head.subrange(0, 2)[1] == '!');
        let there = head.subrange(at, at + 4);
        assert(there[0] == head[at] && there[1] == head[at + 1] && there[2] == head[at + 2]
            && there[3] == head[at + 3]);
        assert(there[0] == 'n' && there[1] == 'o' && there[2] == 'd' && there[3] == 'e');
        assert(at != 0 && at != 1);
        assert(head[at] == 'n');
    }
}

/// The version that is shown is the one that the manifest of the CLI gives. A script of another
/// package has no version that could be shown: its owner is named instead.
pub proof fn which_version_is_shown(
    dsh_js: Seq<char>,
    name: Seq<char>,
    version: Seq<char>,
    error: Seq<char>,
    manifest: ManifestModel,
)
    requires
        manifest.name == name,
        manifest.version == version,
    ensures
        name == DSH_PACKAGE@ && version.len() > 0 ==> version_shown(dsh_js, Ok(Some(manifest)))
            == version,
        name != DSH_PACKAGE@ ==> crate::text::mentions(
            version_shown(dsh_js, Ok(Some(manifest))),
            name,
        ) && crate::text::mentions(version_shown(dsh_js, Ok(Some(manifest))), dsh_js),
        crate::text::mentions(version_shown(dsh_js, Err(error)), error),
{
    let told = version_shown(dsh_js, Ok(Some(manifest)));
    if name != DSH_PACKAGE@ {
        assert(told =~= "未知（"@ + dsh_js + (" 属于 "@ + name + "，不是 "@ + DSH_PACKAGE@ + "）"@));
        assert(told =~= ("未知（"@ + dsh_js + " 属于 "@) + name + ("，不是 "@ + DSH_PACKAGE@ + "）"@));
    }
    crate::text::lemma_mentions("未知（"@, error, "）"@);
}

/// What a manifest says: the name as it stands, the version without the white space around it,
/// and nothing for what is not there. A manifest that is missing is none; one that cannot be read
/// is a failure that names its place.
pub proof fn what_a_manifest_says(
    place: Seq<char>,
    name: Seq<char>,
    before: Seq<char>,
    version: Seq<char>,
    after: Seq<char>,
    read: ManifestRead,
)
    requires
        forall|i: int| 0 <= i < before.len() ==> crate::redaction::blank(#[trigger] before[i]),
        forall|i: int| 0 <= i < after.len() ==> crate::redaction::blank(#[trigger] after[i]),
        version.len() > 0 ==> !crate::redaction::blank(version[0]) && !crate::redaction::blank(
            version.last(),
        ),
    ensures
        manifest_says(Some(name), Some(before + version + after)) == (ManifestModel {
            name,
            version,
        }),
        manifest_says(None, Some(before + version + after)).name.len() == 0,
        manifest_says(Some(name), None).version.len() == 0,
        read is Missing ==> manifest_in(place, read) == Ok::<
            Option<ManifestModel>,
            Seq<char>,
        >(None),
        read matches ManifestRead::Unreadable(why) ==> manifest_in(place, read) is Err
            && crate::text::mentions(manifest_in(place, read)->Err_0, place)
            && crate::text::mentions(manifest_in(place, read)->Err_0, why@),
        read matches ManifestRead::Text(raw) ==> (manifest_in(place, read) is Err <==> json_refusal(
            raw@,
        ) is Some),
        read matches ManifestRead::Text(raw) ==> json_refusal(raw@) is Some
            ==> crate::text::mentions(manifest_in(place, read)->Err_0, place),
        read matches ManifestRead::Text(raw) ==> json_refusal(raw@) is None && json_string_member(
            raw@,
            "name"@,
        ) == Some(name) && json_string_member(raw@, "version"@) == Some(before + version + after)
            ==> manifest_in(place, read) == Ok::<Option<ManifestModel>, Seq<char>>(
            Some(ManifestModel { name, version }),
        ),
{
    crate::text::trimming_takes_the_ends(before, version, after);
    let none = Seq::<char>::empty();
    crate::text::trimming_takes_the_ends(none, none, none);
    assert(none + none + none =~= none);
    match read {
        ManifestRead::Unreadable(why) => {
            let told = place + " 无法读取: "@ + why@;
            assert(told =~= none + place + (" 无法读取: "@ + why@));
            assert(told =~= (place + " 无法读取: "@) + why@ + none);
        },
        ManifestRead::Text(raw) => {
            if let Some(why) = json_refusal(raw@) {
                let told = place + " 不是合法 JSON: "@ + why;
                assert(told =~= none + place + (" 不是合法 JSON: "@ + why));
            }
        },
        _ => {},
    }
}

/// Where every candidate was rejected, all the reasons are given.
pub proof fn every_rejection_is_told(reasons: Seq<Seq<char>>)
    ensures
        crate::text::mentions(all_rejected(reasons), joined(reasons, "；"@)),
{
    let list = joined(reasons, "；"@);
    let before = "PATH 上的 dsh 都不是 "@ + DSH_PACKAGE@ + "："@;
    let behind = "。请安装 npm i -g "@ + DSH_PACKAGE@
        + "，或用 DSH_DESKTOP_DSH / config.json 的 dsh_path 指定。"@;
    assert(all_rejected(reasons) =~= before + list + behind);
}

} // verus!

//! Looking for a newer CLI or plugin on the registry, and deciding what to do about it.
use vstd::prelude::*;

use crate::bytes::Captured;
#[allow(unused_imports)]
use crate::bytes::{summarised, utf8_lossy};
#[allow(unused_imports)]
use crate::harness::pairs;
use crate::json::{debug_text, entries, has_member, string_member};
#[allow(unused_imports)]
use crate::json::{
    debug_quoted, entries_view, json_entries, json_has_member, json_string_member, member_views,
};
use crate::number::decimal_text;
#[allow(unused_imports)]
use crate::number::decimal;
use crate::paths::{parent, path_join};
#[allow(unused_imports)]
use crate::paths::{joining_ends_with_the_name, parent_path, path_joined};
use crate::search::find;
#[allow(unused_imports)]
use crate::search::first_place;
use crate::search_path::{lead_path, split_dirs};
#[allow(unused_imports)]
use crate::search_path::{dirs_listed, led_dirs, listed_dirs};
use crate::split::join;
#[allow(unused_imports)]
use crate::split::joined;
use crate::text::{
    chars_of, copy_texts, lists, opt_copy, opt_is, piece, same_texts, string_of, text_eq, trim_text,
};
#[allow(unused_imports)]
use crate::text::{opt_view, texts, trimmed};
pub use crate::version::Version;
#[allow(unused_imports)]
use crate::version::{
    below_is_transitive, not_below_is_transitive, opt_version, version_below, version_in,
    version_text, Rank, VersionModel,
};

verus! {

/// The CLI that the shell supervises.
pub const PACKAGE: &'static str = "@deepseek-ai/dsh";

/// The plugin market that is kept current beside the CLI.
pub const MARKET_PLUGIN: &'static str = "dshmarket";

/// The budget of one request to the registry, in milliseconds.
pub const FETCH_TIMEOUT_MS: u32 = 8000;

/// A query that failed is tried again after this many minutes; also the first wait after a
/// failed install.
pub const FAILED_RETRY_MINUTES: u64 = 5;

/// The longest wait after failed installs, in minutes.
pub const FAILED_RETRY_CAP_MINUTES: u64 = 1440;

/// How long a failed install is remembered, in seconds: a week.
pub const FAILED_MEMORY_SECS: u64 = 604800;

/// The lowest CLI version that was tested.
pub const TESTED_MIN: &'static str = "0.1.5-rc.1";

/// The first CLI version that was not tested any more.
pub const TESTED_MAX_EXCLUSIVE: &'static str = "0.2.0";

/// Bytes kept from a command's stdout.
pub const STDOUT_LIMIT: usize = 4194304;

/// Bytes kept from a command's stderr.
pub const STDERR_LIMIT: usize = 1048576;

/// The dist-tags that are followed by default: every channel that is published to, as the newest
/// build may be in any of them.
pub fn default_tags() -> (r: Vec<String>)
    ensures
        texts(r@) == seq!["latest"@, "next"@, "alpha"@],
{
    let mut out: Vec<String> = Vec::new();
    out.push("latest".to_owned());
    out.push("next".to_owned());
    out.push("alpha".to_owned());
    proof {
        assert(texts(out@) =~= seq!["latest"@, "next"@, "alpha"@]);
    }
    out
}

/// Four to the power of `n`.
pub open spec fn fourfold(n: nat) -> nat
    decreases n,
{
    if n == 0 {
        1
    } else {
        4 * fourfold((n - 1) as nat)
    }
}

/// Seconds that a failed install keeps the next one waiting: five minutes, four times as long
/// with each repeat, a day at most. No count at all reads as one failure.
pub open spec fn failure_window(failures: nat) -> nat {
    let repeats = if failures <= 1 {
        0
    } else {
        (failures - 1) as nat
    };
    let minutes = FAILED_RETRY_MINUTES as nat * fourfold(repeats);
    if minutes < FAILED_RETRY_CAP_MINUTES {
        minutes * 60
    } else {
        FAILED_RETRY_CAP_MINUTES as nat * 60
    }
}

proof fn lemma_fourfold(n: nat, m: nat)
    requires
        n <= m,
    ensures
        1 <= fourfold(n) <= fourfold(m),
    decreases m,
{
    if m > n {
        lemma_fourfold(n, (m - 1) as nat);
    } else if n > 0 {
        lemma_fourfold((n - 1) as nat, (n - 1) as nat);
    }
}

/// Seconds that a failed install keeps the next one waiting.
pub fn failure_window_secs(failures: u32) -> (r: u64)
    ensures
        r == failure_window(failures as nat),
{
    let repeats: u32 = if failures <= 1 {
        0
    } else {
        failures - 1
    };
    let mut minutes: u64 = FAILED_RETRY_MINUTES;
    let mut i: u32 = 0;
    while i < repeats && minutes < FAILED_RETRY_CAP_MINUTES
        invariant
            i <= repeats,
            minutes == FAILED_RETRY_MINUTES as nat * fourfold(i as nat),
            minutes < 4 * FAILED_RETRY_CAP_MINUTES,
        decreases repeats - i,
    {
        minutes = minutes * 4;
        i += 1;
    }
    proof {
        lemma_fourfold(i as nat, repeats as nat);
    }
    if minutes < FAILED_RETRY_CAP_MINUTES {
        minutes * 60
    } else {
        FAILED_RETRY_CAP_MINUTES * 60
    }
}

/// A further failure never shortens the wait, which is never shorter than five minutes nor longer
/// than a day.
pub proof fn the_wait_only_grows(failures: nat)
    ensures
        failure_window(failures) <= failure_window(failures + 1),
        300 <= failure_window(failures) <= 86400,
{
    let a = if failures <= 1 {
        0
    } else {
        (failures - 1) as nat
    };
    let b = if failures + 1 <= 1 {
        0
    } else {
        failures
    };
    lemma_fourfold(a, b);
    lemma_fourfold(0, a);
}

// ---------------------------------------------------------------------------------------------
// Versions and what they mean
// ---------------------------------------------------------------------------------------------

/// What a check found.
#[derive(Debug, Clone, PartialEq, Eq)]
pub enum Status {
    UpToDate { version: String },
    UpdateAvailable { from: String, to: String },
    Skipped,
    Failed { reason: String },
}

/// What a check found, as texts.
pub enum StatusModel {
    UpToDate { version: Seq<char> },
    UpdateAvailable { from: Seq<char>, to: Seq<char> },
    Skipped,
    Failed { reason: Seq<char> },
}

impl View for Status {
    type V = StatusModel;

    open spec fn view(&self) -> StatusModel {
        match self {
            Status::UpToDate { version } => StatusModel::UpToDate { version: version@ },
            Status::UpdateAvailable { from, to } => StatusModel::UpdateAvailable {
                from: from@,
                to: to@,
            },
            Status::Skipped => StatusModel::Skipped,
            Status::Failed { reason } => StatusModel::Failed { reason: reason@ },
        }
    }
}

/// How an installed CLI relates to the tested range.
#[derive(Debug, Clone, PartialEq, Eq)]
pub enum Compatibility {
    Tested,
    Older { version: String },
    Newer { version: String },
    Unknown { version: String },
}

/// How an installed CLI relates to the tested range, as texts.
pub enum CompatibilityModel {
    Tested,
    Older { version: Seq<char> },
    Newer { version: Seq<char> },
    Unknown { version: Seq<char> },
}

impl View for Compatibility {
    type V = CompatibilityModel;

    open spec fn view(&self) -> CompatibilityModel {
        match self {
            Compatibility::Tested => CompatibilityModel::Tested,
            Compatibility::Older { version } => CompatibilityModel::Older { version: version@ },
            Compatibility::Newer { version } => CompatibilityModel::Newer { version: version@ },
            Compatibility::Unknown { version } => CompatibilityModel::Unknown { version: version@ },
        }
    }
}

/// The reason that is shown.
pub open spec fn compatibility_text(c: CompatibilityModel) -> Seq<char> {
    match c {
        CompatibilityModel::Tested => "dsh "@ + TESTED_MIN@ + " 已在测试区间内"@,
        CompatibilityModel::Older { version } => "dsh "@ + version + " 早于本壳测试过的最低版本 "@
            + TESTED_MIN@ + "：可能缺少本壳依赖的命令行参数"@,
        CompatibilityModel::Newer { version } => "dsh "@ + version + " 高于本壳测试过的区间（< "@
            + TESTED_MAX_EXCLUSIVE@ + "）：上游可能有破坏性变更"@,
        CompatibilityModel::Unknown { version } => "无法识别 dsh 版本 "@ + debug_quoted(version)
            + "，无法判断是否兼容"@,
    }
}

impl Compatibility {
    /// The reason for the log and the status page.
    pub fn describe(&self) -> (r: String)
        ensures
            r@ == compatibility_text(self@),
    {
        match self {
            Compatibility::Tested => {
                let mut out = "dsh ".to_owned();
                out.append(TESTED_MIN);
                out.append(" 已在测试区间内");
                out
            },
            Compatibility::Older { version } => {
                let mut out = "dsh ".to_owned();
                out.append(version.as_str());
                out.append(" 早于本壳测试过的最低版本 ");
                out.append(TESTED_MIN);
                out.append("：可能缺少本壳依赖的命令行参数");
                out
            },
            Compatibility::Newer { version } => {
                let mut out = "dsh ".to_owned();
                out.append(version.as_str());
                out.append(" 高于本壳测试过的区间（< ");
                out.append(TESTED_MAX_EXCLUSIVE);
                out.append("）：上游可能有破坏性变更");
                out
            },
            Compatibility::Unknown { version } => {
                let mut out = "无法识别 dsh 版本 ".to_owned();
                out.append(debug_text(version.as_str()).as_str());
                out.append("，无法判断是否兼容");
                out
            },
        }
    }
}

/// The lowest tested version.
pub open spec fn tested_min() -> VersionModel {
    VersionModel { major: 0, minor: 1, patch: 5, pre: seq!["rc"@, "1"@] }
}

/// The first version that is not tested any more.
pub open spec fn tested_max() -> VersionModel {
    VersionModel { major: 0, minor: 2, patch: 0, pre: Seq::empty() }
}

/// The two bounds are what their texts read as, and the lower one ranks below the upper one.
pub proof fn the_tested_range_is_a_range()
    ensures
        version_in(TESTED_MIN@) == Some(tested_min()),
        version_in(TESTED_MAX_EXCLUSIVE@) == Some(tested_max()),
        version_below(tested_min(), tested_max()),
{
    reveal_strlit("0.1.5-rc.1");
    reveal_strlit("0.2.0");
    reveal_strlit("rc");
    reveal_strlit("1");
    let tail = seq!['r', 'c', '.', '1'];
    let rc = seq!['r', 'c'];
    let one = seq!['1'];
    crate::version::lemma_split_first(rc, '.', one);
    crate::version::lemma_split_whole(one, '.');
    assert(rc + seq!['.'] + one =~= tail);
    assert("rc"@ =~= rc);
    assert("1"@ =~= one);
    assert(crate::split::split(tail, '.') =~= tested_min().pre);
    crate::version::lemma_text_reads_back(tested_min(), Some(tail));
    crate::version::lemma_text_reads_back(tested_max(), None);
    assert(decimal(0) =~= seq!['0']);
    assert(decimal(1) =~= seq!['1']);
    assert(decimal(2) =~= seq!['2']);
    assert(decimal(5) =~= seq!['5']);
    crate::split::split_then_join(tail, '.');
    assert(version_text(tested_min()) =~= TESTED_MIN@);
    assert(version_text(tested_max()) =~= TESTED_MAX_EXCLUSIVE@);
}

/// How a version relates to the tested range.
pub open spec fn compatibility_of(version: Seq<char>) -> CompatibilityModel {
    match version_in(version) {
        None => CompatibilityModel::Unknown { version },
        Some(v) => if version_below(v, tested_min()) {
            CompatibilityModel::Older { version }
        } else if !version_below(v, tested_max()) {
            CompatibilityModel::Newer { version }
        } else {
            CompatibilityModel::Tested
        },
    }
}

/// How a version relates to the tested range.
pub fn compatibility(version: &str) -> (r: Compatibility)
    ensures
        r@ == compatibility_of(version@),
{
    proof {
        the_tested_range_is_a_range();
    }
    match (
        Version::parse(version),
        Version::parse(TESTED_MIN),
        Version::parse(TESTED_MAX_EXCLUSIVE),
    ) {
        (Some(parsed), Some(min), Some(max)) => {
            match parsed.rank(&min) {
                Rank::Below => Compatibility::Older { version: version.to_owned() },
                _ => match parsed.rank(&max) {
                    Rank::Below => Compatibility::Tested,
                    _ => Compatibility::Newer { version: version.to_owned() },
                },
            }
        },
        _ => Compatibility::Unknown { version: version.to_owned() },
    }
}

/// May a version be installed? Not one that would not be run afterwards.
pub fn may_install(to: &str, require_tested: bool) -> (r: bool)
    ensures
        r == (!require_tested || compatibility_of(to@) is Tested),
{
    if !require_tested {
        return true;
    }
    match compatibility(to) {
        Compatibility::Tested => true,
        _ => false,
    }
}

/// What is tested lies in the range, and what lies in the range is tested.
pub proof fn tested_means_in_range(version: Seq<char>)
    ensures
        compatibility_of(version) is Tested <==> (version_in(version) matches Some(v)
            && !version_below(v, tested_min()) && version_below(v, tested_max())),
{
}

/// The newest version among the tags; the last of those that rank level.
pub open spec fn newest(tags: Seq<(Seq<char>, Seq<char>)>) -> Option<VersionModel>
    decreases tags.len(),
{
    if tags.len() == 0 {
        None
    } else {
        let before = newest(tags.drop_last());
        match version_in(tags.last().1) {
            None => before,
            Some(v) => match before {
                Some(best) => if version_below(v, best) {
                    Some(best)
                } else {
                    Some(v)
                },
                None => Some(v),
            },
        }
    }
}

/// The newest version among the tags.
pub fn newest_tagged(tags: &[(String, String)]) -> (r: Option<Version>)
    ensures
        opt_version(r) == newest(pairs(tags@)),
{
    let ghost all = pairs(tags@);
    let mut best: Option<Version> = None;
    let mut i: usize = 0;
    proof {
        assert(all.take(0) =~= Seq::<(Seq<char>, Seq<char>)>::empty());
    }
    while i < tags.len()
        invariant
            i <= tags@.len(),
            all == pairs(tags@),
            opt_version(best) == newest(all.take(i as int)),
        decreases tags@.len() - i,
    {
        proof {
            let next = all.take(i + 1);
            assert(next.drop_last() =~= all.take(i as int));
            assert(next.last() == all[i as int]);
        }
        match Version::parse(tags[i].1.as_str()) {
            None => {},
            Some(v) => {
                let keep = match &best {
                    Some(held) => match v.rank(held) {
                        Rank::Below => true,
                        _ => false,
                    },
                    None => false,
                };
                if !keep {
                    best = Some(v);
                }
            },
        }
        i += 1;
    }
    proof {
        assert(all.take(all.len() as int) =~= all);
    }
    best
}

/// No version among the tags ranks above the newest, and the newest is one of them.
pub proof fn nothing_ranks_above_the_newest(tags: Seq<(Seq<char>, Seq<char>)>)
    ensures
        forall|i: int|
            0 <= i < tags.len() ==> (version_in((#[trigger] tags[i]).1) matches Some(v)
                ==> newest(tags) is Some && !version_below(newest(tags)->0, v)),
        newest(tags) matches Some(best) ==> exists|i: int|
            0 <= i < tags.len() && version_in((#[trigger] tags[i]).1) == Some(best),
    decreases tags.len(),
{
    if tags.len() > 0 {
        let rest = tags.drop_last();
        nothing_ranks_above_the_newest(rest);
        let last = tags.last();
        let before = newest(rest);
        assert forall|i: int| 0 <= i < tags.len() implies (version_in((#[trigger] tags[i]).1)
            matches Some(v) ==> newest(tags) is Some && !version_below(newest(tags)->0, v)) by {
            match version_in(tags[i].1) {
                None => {},
                Some(v) => {
                    if i < rest.len() {
                        assert(rest[i] == tags[i]);
                        if version_in(last.1) is Some {
                            let w = version_in(last.1)->0;
                            if !version_below(w, before->0) {
                                not_below_is_transitive(w, before->0, v);
                            }
                        }
                    } else {
                        crate::version::below_is_asymmetric(v, v);
                        if before is Some {
                            crate::version::below_is_asymmetric(v, before->0);
                        }
                    }
                },
            }
        }
        if newest(tags) is Some {
            let best = newest(tags)->0;
            if version_in(last.1) == Some(best) {
                assert(tags[tags.len() - 1] == last);
            } else {
                let k = choose|k: int|
                    0 <= k < rest.len() && version_in((#[trigger] rest[k]).1) == Some(best);
                assert(tags[k] == rest[k]);
            }
        }
    }
}

/// What a known version of the registry means for the installed one.
pub open spec fn judged(latest: Seq<char>, current: Seq<char>) -> StatusModel {
    match version_in(current) {
        None => StatusModel::Failed { reason: "无法解析已安装版本 "@ + debug_quoted(current) },
        Some(installed) => match version_in(latest) {
            None => StatusModel::Failed {
                reason: "无法解析 registry 版本 "@ + debug_quoted(latest),
            },
            Some(head) => if version_below(installed, head) {
                StatusModel::UpdateAvailable { from: current, to: version_text(head) }
            } else {
                StatusModel::UpToDate { version: version_text(head) }
            },
        },
    }
}

/// Decides what a known version of the registry means for the installed one.
pub fn judge(latest: &str, current: &str) -> (r: Status)
    ensures
        r@ == judged(latest@, current@),
{
    let installed = match Version::parse(current) {
        Some(version) => version,
        None => {
            let mut reason = "无法解析已安装版本 ".to_owned();
            reason.append(debug_text(current).as_str());
            return Status::Failed { reason };
        },
    };
    let head = match Version::parse(latest) {
        Some(version) => version,
        None => {
            let mut reason = "无法解析 registry 版本 ".to_owned();
            reason.append(debug_text(latest).as_str());
            return Status::Failed { reason };
        },
    };
    match installed.rank(&head) {
        Rank::Below => Status::UpdateAvailable { from: current.to_owned(), to: head.to_text() },
        _ => Status::UpToDate { version: head.to_text() },
    }
}

/// An update is offered only to a version that ranks above the installed one, never a downgrade.
pub proof fn an_update_is_never_a_downgrade(latest: Seq<char>, current: Seq<char>)
    ensures
        judged(latest, current) matches StatusModel::UpdateAvailable { from, to } ==> from == current
            && (version_in(current) matches Some(old_one) && version_in(to) matches Some(new_one)
            && version_below(old_one, new_one)),
{
    if version_in(latest) is Some {
        crate::version::a_written_version_reads_back(latest);
    }
}

/// The tags whose name is wanted, in their order.
pub open spec fn selected(
    tags: Seq<(Seq<char>, Seq<char>)>,
    wanted: Seq<Seq<char>>,
) -> Seq<(Seq<char>, Seq<char>)>
    decreases tags.len(),
{
    if tags.len() == 0 {
        Seq::empty()
    } else if wanted.contains(tags.last().0) {
        selected(tags.drop_last(), wanted).push(tags.last())
    } else {
        selected(tags.drop_last(), wanted)
    }
}

/// What the tags of the registry mean for the installed version.
pub open spec fn checked_against(
    tags: Seq<(Seq<char>, Seq<char>)>,
    wanted: Seq<Seq<char>>,
    current: Seq<char>,
) -> StatusModel {
    let chosen = selected(tags, wanted);
    if chosen.len() == 0 {
        StatusModel::Failed { reason: "没有匹配的 dist-tag: "@ + joined(wanted, ","@) }
    } else {
        match newest(chosen) {
            None => StatusModel::Failed { reason: "dist-tag 里没有可解析的版本号"@ },
            Some(latest) => judged(version_text(latest), current),
        }
    }
}

/// Compares the installed version against the newest of the wanted tags. A wanted tag that is
/// not published is no failure as long as another one is.
pub fn check(
    tags: Result<Vec<(String, String)>, String>,
    wanted_tags: &[String],
    current: &str,
) -> (r: Status)
    ensures
        r@ == (match tags {
            Ok(published) => checked_against(pairs(published@), texts(wanted_tags@), current@),
            Err(reason) => StatusModel::Failed { reason: reason@ },
        }),
{
    let tags = match tags {
        Ok(tags) => tags,
        Err(reason) => {
            return Status::Failed { reason };
        },
    };
    let ghost all = pairs(tags@);
    let ghost wanted = texts(wanted_tags@);
    let mut chosen: Vec<(String, String)> = Vec::new();
    let mut i: usize = 0;
    proof {
        assert(all.take(0) =~= Seq::<(Seq<char>, Seq<char>)>::empty());
        assert(pairs(chosen@) =~= Seq::<(Seq<char>, Seq<char>)>::empty());
    }
    while i < tags.len()
        invariant
            i <= tags@.len(),
            all == pairs(tags@),
            wanted == texts(wanted_tags@),
            pairs(chosen@) == selected(all.take(i as int), wanted),
        decreases tags@.len() - i,
    {
        proof {
            let next = all.take(i + 1);
            assert(next.drop_last() =~= all.take(i as int));
            assert(next.last() == all[i as int]);
        }
        if lists(wanted_tags, tags[i].0.as_str()) {
            let ghost before = pairs(chosen@);
            chosen.push((tags[i].0.clone(), tags[i].1.clone()));
            proof {
                assert(pairs(chosen@) =~= before.push(all[i as int]));
            }
        }
        i += 1;
    }
    proof {
        assert(all.take(all.len() as int) =~= all);
        assert(chosen@.len() == pairs(chosen@).len());
    }
    if chosen.len() == 0 {
        let mut reason = "没有匹配的 dist-tag: ".to_owned();
        reason.append(join(wanted_tags, ",").as_str());
        return Status::Failed { reason };
    }
    match newest_tagged(chosen.as_slice()) {
        None => Status::Failed { reason: "dist-tag 里没有可解析的版本号".to_owned() },
        Some(latest) => judge(latest.to_text().as_str(), current),
    }
}

/// Does a published tag whose name is wanted carry the version?
pub open spec fn offers(
    tags: Seq<(Seq<char>, Seq<char>)>,
    wanted: Seq<Seq<char>>,
    v: VersionModel,
) -> bool {
    exists|i: int, j: int|
        #![trigger tags[i], wanted[j]]
        0 <= i < tags.len() && 0 <= j < wanted.len() && tags[i].0 == wanted[j] && version_in(
            tags[i].1,
        ) == Some(v)
}

proof fn lemma_selected(
    tags: Seq<(Seq<char>, Seq<char>)>,
    wanted: Seq<Seq<char>>,
    tag: (Seq<char>, Seq<char>),
)
    ensures
        selected(tags, wanted).contains(tag) == (tags.contains(tag) && wanted.contains(tag.0)),
    decreases tags.len(),
{
    if tags.len() > 0 {
        let rest = tags.drop_last();
        let last = tags.last();
        lemma_selected(rest, wanted, tag);
        if tags.contains(tag) && tag != last {
            let i = choose|i: int| 0 <= i < tags.len() && tags[i] == tag;
            assert(rest[i] == tag);
        }
        if rest.contains(tag) {
            let i = choose|i: int| 0 <= i < rest.len() && rest[i] == tag;
            assert(tags[i] == tag);
        }
        assert(tags[tags.len() - 1] == last);
        let kept = selected(rest, wanted);
        let out = selected(tags, wanted);
        if wanted.contains(last.0) {
            assert(out == kept.push(last));
            if out.contains(tag) && tag != last {
                let i = choose|i: int| 0 <= i < out.len() && out[i] == tag;
                assert(kept[i] == tag);
            }
            if kept.contains(tag) {
                let i = choose|i: int| 0 <= i < kept.len() && kept[i] == tag;
                assert(out[i] == tag);
            }
            assert(out[kept.len() as int] == last);
        }
    }
}

proof fn lemma_offers(
    tags: Seq<(Seq<char>, Seq<char>)>,
    wanted: Seq<Seq<char>>,
    v: VersionModel,
)
    ensures
        offers(tags, wanted, v) == exists|k: int|
            0 <= k < selected(tags, wanted).len() && version_in(
                (#[trigger] selected(tags, wanted)[k]).1,
            ) == Some(v),
{
    let chosen = selected(tags, wanted);
    if offers(tags, wanted, v) {
        let (i, j) = choose|i: int, j: int|
            #![trigger tags[i], wanted[j]]
            0 <= i < tags.len() && 0 <= j < wanted.len() && tags[i].0 == wanted[j] && version_in(
                tags[i].1,
            ) == Some(v);
        assert(tags.contains(tags[i]));
        assert(wanted.contains(wanted[j]));
        lemma_selected(tags, wanted, tags[i]);
        let k = choose|k: int| 0 <= k < chosen.len() && chosen[k] == tags[i];
        assert(version_in(chosen[k].1) == Some(v));
    }
    if exists|k: int| 0 <= k < chosen.len() && version_in((#[trigger] chosen[k]).1) == Some(v) {
        let k = choose|k: int|
            0 <= k < chosen.len() && version_in((#[trigger] chosen[k]).1) == Some(v);
        assert(chosen.contains(chosen[k]));
        lemma_selected(tags, wanted, chosen[k]);
        let i = choose|i: int| 0 <= i < tags.len() && tags[i] == chosen[k];
        let j = choose|j: int| 0 <= j < wanted.len() && wanted[j] == chosen[k].0;
        assert(tags[i].0 == wanted[j]);
    }
}

/// A check offers an update exactly where a published tag, one of any of the wanted names, carries
/// a version above the installed one; what it names is then the newest of those that the wanted
/// tags carry. Where they carry versions and none is above, the installed one is up to date. Where
/// they carry none, or what is installed is no version, the check failed.
pub proof fn every_wanted_tag_counts(
    tags: Seq<(Seq<char>, Seq<char>)>,
    wanted: Seq<Seq<char>>,
    current: Seq<char>,
)
    ensures
        checked_against(tags, wanted, current) is UpdateAvailable <==> (version_in(current) matches
            Some(installed) && exists|v: VersionModel| #[trigger]
                offers(tags, wanted, v) && version_below(installed, v)),
        checked_against(tags, wanted, current) is UpToDate <==> (version_in(current) matches Some(
            installed,
        ) && (exists|v: VersionModel| #[trigger] offers(tags, wanted, v)) && forall|v: VersionModel|
            #[trigger]
            offers(tags, wanted, v) ==> !version_below(installed, v)),
        checked_against(tags, wanted, current) is Failed <==> (version_in(current) is None || !(
        exists|v: VersionModel| #[trigger] offers(tags, wanted, v))),
        checked_against(tags, wanted, current) matches StatusModel::UpdateAvailable { from, to }
            ==> from == current && (version_in(to) matches Some(head) && offers(tags, wanted, head)
            && forall|v: VersionModel| #[trigger]
            offers(tags, wanted, v) ==> !version_below(head, v)),
        checked_against(tags, wanted, current) matches StatusModel::UpToDate { version } ==> (
        version_in(version) matches Some(head) && offers(tags, wanted, head) && forall|
            v: VersionModel,
        |
            #[trigger]
            offers(tags, wanted, v) ==> !version_below(head, v)),
{
    let chosen = selected(tags, wanted);
    nothing_ranks_above_the_newest(chosen);
    assert forall|v: VersionModel| #[trigger] offers(tags, wanted, v) implies newest(chosen) is Some
        && !version_below(newest(chosen)->0, v) && chosen.len() > 0 by {
        lemma_offers(tags, wanted, v);
        let k = choose|k: int|
            0 <= k < chosen.len() && version_in((#[trigger] chosen[k]).1) == Some(v);
    }
    match newest(chosen) {
        None => {},
        Some(head) => {
            lemma_offers(tags, wanted, head);
            assert(offers(tags, wanted, head));
            let k = choose|k: int|
                0 <= k < chosen.len() && version_in((#[trigger] chosen[k]).1) == Some(head);
            crate::version::a_written_version_reads_back(chosen[k].1);
            match version_in(current) {
                None => {},
                Some(installed) => {
                    if !version_below(installed, head) {
                        assert forall|v: VersionModel| #[trigger]
                            offers(tags, wanted, v) implies !version_below(installed, v) by {
                            not_below_is_transitive(installed, head, v);
                        }
                    }
                },
            }
        },
    }
}

/// A published tag whose name is not wanted changes nothing, wherever it stands among the others.
pub proof fn an_unwanted_tag_changes_nothing(
    before: Seq<(Seq<char>, Seq<char>)>,
    tag: (Seq<char>, Seq<char>),
    after: Seq<(Seq<char>, Seq<char>)>,
    wanted: Seq<Seq<char>>,
    current: Seq<char>,
)
    requires
        forall|j: int| 0 <= j < wanted.len() ==> wanted[j] != tag.0,
    ensures
        checked_against(before + seq![tag] + after, wanted, current) == checked_against(
            before + after,
            wanted,
            current,
        ),
{
    lemma_unwanted(before, tag, after, wanted);
}

proof fn lemma_unwanted(
    before: Seq<(Seq<char>, Seq<char>)>,
    tag: (Seq<char>, Seq<char>),
    after: Seq<(Seq<char>, Seq<char>)>,
    wanted: Seq<Seq<char>>,
)
    requires
        forall|j: int| 0 <= j < wanted.len() ==> wanted[j] != tag.0,
    ensures
        selected(before + seq![tag] + after, wanted) == selected(before + after, wanted),
    decreases after.len(),
{
    let with = before + seq![tag] + after;
    let bare = before + after;
    if after.len() == 0 {
        assert(bare =~= before);
        assert(with.drop_last() =~= before);
        assert(with.last() == tag);
    } else {
        let rest = after.drop_last();
        lemma_unwanted(before, tag, rest, wanted);
        assert(with.drop_last() =~= before + seq![tag] + rest);
        assert(bare.drop_last() =~= before + rest);
        assert(with.last() == after.last());
        assert(bare.last() == after.last());
    }
}

// ---------------------------------------------------------------------------------------------
// Running npm
// ---------------------------------------------------------------------------------------------

/// A PATH for npm, in which the directory that npm lies in leads: npm is a script that needs the
/// node beside it.
pub fn npm_path(npm: &str, existing: Option<&str>, windows: bool) -> (r: String)
    ensures
        r@ == (match dirs_listed(
            led_dirs(
                crate::locator::or_empty(parent_path(npm@, windows)),
                crate::runtime::str_view(existing),
                windows,
            ),
            windows,
        ) {
            Some(list) => list,
            None => crate::locator::or_empty(crate::runtime::str_view(existing)),
        }),
{
    let lead = match parent(npm, windows) {
        Some(dir) => dir,
        None => String::new(),
    };
    lead_path(lead.as_str(), existing, windows)
}

/// The names that pnpm may have, in the order in which a shell tries them.
pub open spec fn pnpm_names(windows: bool) -> Seq<Seq<char>> {
    if windows {
        seq!["pnpm.cmd"@, "pnpm.exe"@, "pnpm.bat"@, "pnpm"@]
    } else {
        seq!["pnpm"@]
    }
}

/// The places of the names in the directories, in order.
pub open spec fn all_places(
    dirs: Seq<Seq<char>>,
    names: Seq<Seq<char>>,
    windows: bool,
) -> Seq<Seq<char>>
    decreases dirs.len(),
{
    if dirs.len() == 0 {
        Seq::empty()
    } else {
        all_places(dirs.drop_last(), names, windows) + crate::locator::places_in(
            dirs.last(),
            names,
            windows,
        )
    }
}

/// The places where pnpm may be on a PATH; without a PATH there are none.
pub fn pnpm_candidates(path: Option<&str>, windows: bool) -> (r: Vec<String>)
    ensures
        texts(r@) == (match path {
            Some(list) => all_places(listed_dirs(list@, windows), pnpm_names(windows), windows),
            None => Seq::empty(),
        }),
{
    let mut out: Vec<String> = Vec::new();
    proof {
        assert(texts(out@) =~= Seq::<Seq<char>>::empty());
    }
    let list = match path {
        Some(list) => list,
        None => {
            return out;
        },
    };
    let mut names: Vec<String> = Vec::new();
    if windows {
        names.push("pnpm.cmd".to_owned());
        names.push("pnpm.exe".to_owned());
        names.push("pnpm.bat".to_owned());
    }
    names.push("pnpm".to_owned());
    let ghost wanted = pnpm_names(windows);
    proof {
        assert(texts(names@) =~= wanted);
    }
    let dirs = split_dirs(list, windows);
    let ghost all = listed_dirs(list@, windows);
    let mut i: usize = 0;
    proof {
        assert(all.take(0) =~= Seq::<Seq<char>>::empty());
    }
    while i < dirs.len()
        invariant
            i <= dirs@.len(),
            texts(dirs@) == all,
            texts(names@) == wanted,
            texts(out@) == all_places(all.take(i as int), wanted, windows),
        decreases dirs@.len() - i,
    {
        proof {
            let next = all.take(i + 1);
            assert(next.drop_last() =~= all.take(i as int));
            assert(next.last() == dirs@[i as int]@);
        }
        crate::locator::add_places(&mut out, dirs[i].as_str(), names.as_slice(), windows);
        i += 1;
    }
    proof {
        assert(all.take(all.len() as int) =~= all);
    }
    out
}

/// The first place of pnpm that can be executed.
pub fn find_pnpm(places: &[String], executable: &[bool]) -> (r: Option<String>)
    ensures
        opt_view(r) == crate::paths::first_there(texts(places@), executable@),
{
    crate::paths::first_present(places, executable)
}

/// Can this be executed: a file, and with an execute bit where files have one?
pub fn is_executable(is_file: bool, mode: Option<u32>) -> (r: bool)
    ensures
        r == (is_file && (mode matches Some(bits) ==> bits & 0o111 != 0)),
{
    if !is_file {
        return false;
    }
    match mode {
        Some(bits) => bits & 0o111 != 0,
        None => true,
    }
}

/// Where the npm of a node may lie, in the order in which it is tried. The bare name is last:
/// beside `npm.cmd` it is a script that Windows cannot run.
pub fn npm_candidates(node: &str, windows: bool) -> (r: Vec<String>)
    ensures
        texts(r@) == (match parent_path(node@, windows) {
            Some(dir) => seq![
                path_joined(dir, "npm.cmd"@, windows),
                path_joined(dir, "npm.exe"@, windows),
                path_joined(dir, "npm"@, windows),
            ],
            None => Seq::empty(),
        }),
{
    let mut out: Vec<String> = Vec::new();
    match parent(node, windows) {
        Some(dir) => {
            out.push(path_join(dir.as_str(), "npm.cmd", windows));
            out.push(path_join(dir.as_str(), "npm.exe", windows));
            out.push(path_join(dir.as_str(), "npm", windows));
            proof {
                assert(texts(out@) =~= seq![
                    path_joined(dir@, "npm.cmd"@, windows),
                    path_joined(dir@, "npm.exe"@, windows),
                    path_joined(dir@, "npm"@, windows),
                ]);
            }
        },
        None => {
            proof {
                assert(texts(out@) =~= Seq::<Seq<char>>::empty());
            }
        },
    }
    out
}

/// The npm that belongs to a node: the first of `places` that is a file, else one on the PATH,
/// else the one that the login shell knows.
pub fn npm_for(
    places: &[String],
    files: &[bool],
    on_path: Option<String>,
    login: Option<String>,
) -> (r: Option<String>)
    ensures
        opt_view(r) == (match crate::paths::first_there(texts(places@), files@) {
            Some(beside) => Some(beside),
            None => match on_path {
                Some(found) => Some(found@),
                None => opt_view(login),
            },
        }),
{
    let beside = crate::paths::first_present(places, files);
    if beside.is_some() {
        return beside;
    }
    if on_path.is_some() {
        return on_path;
    }
    login
}

/// The prefix that an installed CLI lies in: what stands before `/lib/node_modules/`.
pub open spec fn prefix_of(dsh_js: Seq<char>) -> Option<Seq<char>> {
    match first_place(dsh_js, "/lib/node_modules/"@) {
        Some(at) => Some(dsh_js.subrange(0, at)),
        None => None,
    }
}

/// The prefix that an installed CLI lies in.
pub fn install_prefix(dsh_js: &str) -> (r: Option<String>)
    ensures
        opt_view(r) == prefix_of(dsh_js@),
{
    let s = chars_of(dsh_js);
    match find(&s, &chars_of("/lib/node_modules/")) {
        Some(at) => Some(string_of(&piece(&s, 0, at))),
        None => None,
    }
}

/// The flag that bounds one request.
fn fetch_flag() -> (r: String)
    ensures
        r@ == "--fetch-timeout="@ + decimal(FETCH_TIMEOUT_MS as nat),
{
    let mut out = "--fetch-timeout=".to_owned();
    out.append(decimal_text(FETCH_TIMEOUT_MS as u64).as_str());
    out
}

/// The arguments with which npm prints the dist-tags of a package.
pub fn view_args(package: &str) -> (r: Vec<String>)
    ensures
        texts(r@) == seq![
            "view"@,
            package@,
            "dist-tags"@,
            "--json"@,
            "--fetch-timeout="@ + decimal(FETCH_TIMEOUT_MS as nat),
            "--fetch-retries=1"@,
        ],
{
    let mut out: Vec<String> = Vec::new();
    out.push("view".to_owned());
    out.push(package.to_owned());
    out.push("dist-tags".to_owned());
    out.push("--json".to_owned());
    out.push(fetch_flag());
    out.push("--fetch-retries=1".to_owned());
    proof {
        assert(texts(out@) =~= seq![
            "view"@,
            package@,
            "dist-tags"@,
            "--json"@,
            "--fetch-timeout="@ + decimal(FETCH_TIMEOUT_MS as nat),
            "--fetch-retries=1"@,
        ]);
    }
    out
}

/// How a command that was run ended.
#[derive(Debug, Clone, PartialEq, Eq)]
pub struct Output {
    pub success: bool,
    pub stdout: Captured,
    pub stderr: Captured,
}

/// What a command that was killed is reported as.
pub fn timeout_message(seconds: u64) -> (r: String)
    ensures
        r@ == "命令超过 "@ + decimal(seconds as nat) + " 秒未结束，已终止"@,
{
    let mut out = "命令超过 ".to_owned();
    out.append(decimal_text(seconds).as_str());
    out.append(" 秒未结束，已终止");
    out
}

/// The members that are strings, as pairs.
pub open spec fn string_members(members: Seq<(Seq<char>, Option<Seq<char>>)>) -> Seq<
    (Seq<char>, Seq<char>),
>
    decreases members.len(),
{
    if members.len() == 0 {
        Seq::empty()
    } else {
        match members.last().1 {
            Some(value) => string_members(members.drop_last()).push((members.last().0, value)),
            None => string_members(members.drop_last()),
        }
    }
}

/// The tags of a registry answer: the members that are strings.
pub fn tags_of(members: &[(String, Option<String>)]) -> (r: Vec<(String, String)>)
    ensures
        pairs(r@) == string_members(member_views(members@)),
{
    let ghost all = member_views(members@);
    let mut out: Vec<(String, String)> = Vec::new();
    let mut i: usize = 0;
    proof {
        assert(all.take(0) =~= Seq::<(Seq<char>, Option<Seq<char>>)>::empty());
        assert(pairs(out@) =~= Seq::<(Seq<char>, Seq<char>)>::empty());
    }
    while i < members.len()
        invariant
            i <= members@.len(),
            all == member_views(members@),
            pairs(out@) == string_members(all.take(i as int)),
        decreases members@.len() - i,
    {
        proof {
            let next = all.take(i + 1);
            assert(next.drop_last() =~= all.take(i as int));
            assert(next.last() == all[i as int]);
        }
        match &members[i].1 {
            Some(value) => {
                let ghost before = pairs(out@);
                out.push((members[i].0.clone(), value.clone()));
                proof {
                    assert(pairs(out@) =~= before.push((all[i as int].0, value@)));
                }
            },
            None => {},
        }
        i += 1;
    }
    proof {
        assert(all.take(all.len() as int) =~= all);
    }
    out
}

/// Pairs, or the reason why there are none, as texts.
pub open spec fn pairs_result(r: Result<Vec<(String, String)>, String>) -> Result<
    Seq<(Seq<char>, Seq<char>)>,
    Seq<char>,
> {
    match r {
        Ok(values) => Ok(pairs(values@)),
        Err(reason) => Err(reason@),
    }
}

/// The dist-tags that npm printed, or why there are none: it was killed or could not be run, it
/// failed, it printed more than was kept, or it printed no JSON.
pub fn fetch_dist_tags(output: Result<Output, String>) -> (r: Result<
    Vec<(String, String)>,
    String,
>)
    ensures
        pairs_result(r) == (match output {
            Err(error) => Err("npm view: "@ + error@),
            Ok(ran) => if !ran.success {
                Err(
                    "npm view 失败: "@ + summarised(
                        utf8_lossy(ran.stderr.bytes@),
                        3,
                        ran.stderr.truncated,
                    ),
                )
            } else if ran.stdout.truncated {
                Err(
                    "npm view 输出超过 "@ + decimal(4) + " MiB，已截断，无法解析 dist-tags"@,
                )
            } else {
                match json_entries(ran.stdout.bytes@) {
                    Ok(members) => Ok(string_members(members)),
                    Err(error) => Err("dist-tags 解析失败: "@ + error),
                }
            },
        }),
{
    let ran = match output {
        Ok(ran) => ran,
        Err(error) => {
            let mut out = "npm view: ".to_owned();
            out.append(error.as_str());
            return Err(out);
        },
    };
    if !ran.success {
        let mut out = "npm view 失败: ".to_owned();
        out.append(ran.stderr.summary(3).as_str());
        return Err(out);
    }
    if ran.stdout.truncated {
        let mut out = "npm view 输出超过 ".to_owned();
        out.append(decimal_text((STDOUT_LIMIT / 1048576) as u64).as_str());
        out.append(" MiB，已截断，无法解析 dist-tags");
        return Err(out);
    }
    match entries(ran.stdout.bytes.as_slice()) {
        Ok(members) => Ok(tags_of(members.as_slice())),
        Err(error) => {
            let mut out = "dist-tags 解析失败: ".to_owned();
            out.append(error.as_str());
            Err(out)
        },
    }
}

/// Is npm told the prefix? Only where the one it uses by itself is another, or is not known.
pub open spec fn names_prefix(global: Option<Seq<char>>, wanted: Seq<char>) -> bool {
    global != Some(wanted)
}

/// npm's own prefix, from its answer: an empty one is none.
pub fn global_prefix(answer: Option<String>) -> (r: Option<String>)
    ensures
        opt_view(r) == (match answer {
            Some(text) => if text@.len() > 0 {
                Some(text@)
            } else {
                None
            },
            None => None,
        }),
{
    match answer {
        Some(text) => if text.as_str().is_empty() {
            None
        } else {
            Some(text)
        },
        None => None,
    }
}

/// The arguments of a global install of one pinned version.
pub fn install(
    package: &str,
    version: &str,
    prefix: Option<&str>,
    global: &Option<String>,
    cache: Option<&str>,
) -> (r: Vec<String>)
    ensures
        texts(r@) == seq![
            "install"@,
            "-g"@,
            "--no-fund"@,
            "--no-audit"@,
            "--fetch-timeout="@ + decimal(FETCH_TIMEOUT_MS as nat),
            "--fetch-retries=1"@,
        ] + (match cache {
            Some(dir) => seq!["--cache"@, dir@],
            None => Seq::empty(),
        }) + (match prefix {
            Some(wanted) => if names_prefix(opt_view(*global), wanted@) {
                seq!["--prefix"@, wanted@]
            } else {
                Seq::empty()
            },
            None => Seq::empty(),
        }) + seq![package@ + "@"@ + version@],
{
    let mut out: Vec<String> = Vec::new();
    out.push("install".to_owned());
    out.push("-g".to_owned());
    out.push("--no-fund".to_owned());
    out.push("--no-audit".to_owned());
    out.push(fetch_flag());
    out.push("--fetch-retries=1".to_owned());
    let ghost head = seq![
        "install"@,
        "-g"@,
        "--no-fund"@,
        "--no-audit"@,
        "--fetch-timeout="@ + decimal(FETCH_TIMEOUT_MS as nat),
        "--fetch-retries=1"@,
    ];
    proof {
        assert(texts(out@) =~= head);
    }
    let ghost mut whole = head;
    match cache {
        Some(dir) => {
            out.push("--cache".to_owned());
            out.push(dir.to_owned());
            proof {
                assert(texts(out@) =~= whole + seq!["--cache"@, dir@]);
                whole = whole + seq!["--cache"@, dir@];
            }
        },
        None => {
            proof {
                assert(whole =~= whole + Seq::<Seq<char>>::empty());
            }
        },
    }
    match prefix {
        Some(wanted) => {
            if !opt_is(global, wanted) {
                out.push("--prefix".to_owned());
                out.push(wanted.to_owned());
                proof {
                    assert(texts(out@) =~= whole + seq!["--prefix"@, wanted@]);
                    whole = whole + seq!["--prefix"@, wanted@];
                }
            } else {
                proof {
                    assert(whole =~= whole + Seq::<Seq<char>>::empty());
                }
            }
        },
        None => {
            proof {
                assert(whole =~= whole + Seq::<Seq<char>>::empty());
            }
        },
    }
    let mut pinned = package.to_owned();
    pinned.append("@");
    pinned.append(version);
    let ghost last = pinned@;
    out.push(pinned);
    proof {
        assert(texts(out@) =~= whole + seq![last]);
    }
    out
}

/// What an install is reported as: fine, or what went wrong. `what` names the command.
pub fn install_outcome(what: &str, output: Result<Output, String>) -> (r: Result<(), String>)
    ensures
        (match output {
            Err(error) => r matches Err(reason) && reason@ == what@ + ": "@ + error@,
            Ok(ran) => if ran.success {
                r is Ok
            } else {
                r matches Err(reason) && reason@ == what@ + " 失败: "@ + summarised(
                    utf8_lossy(ran.stderr.bytes@),
                    5,
                    ran.stderr.truncated,
                )
            },
        }),
{
    match output {
        Err(error) => {
            let mut out = what.to_owned();
            out.append(": ");
            out.append(error.as_str());
            Err(out)
        },
        Ok(ran) => {
            if ran.success {
                return Ok(());
            }
            let mut out = what.to_owned();
            out.append(" 失败: ");
            out.append(ran.stderr.summary(5).as_str());
            Err(out)
        },
    }
}

/// The arguments with which the CLI adds one pinned plugin to a profile.
pub fn install_plugin(dsh_js: &str, profile: &str, package: &str, version: &str) -> (r: Vec<String>)
    ensures
        texts(r@) == seq![
            dsh_js@,
            "plugin"@,
            "--profile"@,
            profile@,
            "add"@,
            package@ + "@"@ + version@,
        ],
{
    let mut pinned = package.to_owned();
    pinned.append("@");
    pinned.append(version);
    let mut out: Vec<String> = Vec::new();
    out.push(dsh_js.to_owned());
    out.push("plugin".to_owned());
    out.push("--profile".to_owned());
    out.push(profile.to_owned());
    out.push("add".to_owned());
    out.push(pinned);
    proof {
        assert(texts(out@) =~= seq![
            dsh_js@,
            "plugin"@,
            "--profile"@,
            profile@,
            "add"@,
            package@ + "@"@ + version@,
        ]);
    }
    out
}

/// The version of a plugin, from what its manifest says of it: trimmed, and not an empty one.
pub open spec fn plugin_version(version: Option<Seq<char>>) -> Option<Seq<char>> {
    match version {
        Some(text) => if trimmed(text).len() > 0 {
            Some(trimmed(text))
        } else {
            None
        },
        None => None,
    }
}

/// The version of a plugin, from what its manifest says of it.
pub fn plugin_version_of(version: Option<String>) -> (r: Option<String>)
    ensures
        opt_view(r) == plugin_version(opt_view(version)),
{
    match version {
        Some(text) => {
            let version = trim_text(text.as_str());
            if version.as_str().is_empty() {
                None
            } else {
                Some(version)
            }
        },
        None => None,
    }
}

/// The version of a plugin that a profile has installed, from the plugin's own manifest there.
pub fn installed_plugin(manifest: Option<&str>) -> (r: Option<String>)
    ensures
        opt_view(r) == (match manifest {
            Some(raw) => plugin_version(json_string_member(raw@, "version"@)),
            None => None,
        }),
{
    match manifest {
        Some(raw) => plugin_version_of(string_member(raw, "version")),
        None => None,
    }
}

/// Does a profile's manifest still declare a plugin? One that the user removed must not come back.
pub fn declares_plugin(manifest: Option<&str>, package: &str) -> (r: bool)
    ensures
        r == (manifest matches Some(raw) && json_has_member(raw@, "dependencies"@, package@)),
{
    match manifest {
        Some(raw) => has_member(raw, "dependencies", package),
        None => false,
    }
}

// ---------------------------------------------------------------------------------------------
// Remembering an answer
// ---------------------------------------------------------------------------------------------

/// The remembered answer of the registry.
#[derive(Debug, Clone, PartialEq, Eq)]
pub struct Cache {
    /// When it was asked, in Unix seconds.
    pub checked_at: u64,
    /// The installed version at that time.
    pub installed: String,
    /// The newest version, or none where the query failed.
    pub latest: Option<String>,
    /// The dist-tags that were asked for. Another set is another question.
    pub tags: Vec<String>,
    /// A version whose install ran and changed nothing.
    pub attempted: Option<String>,
    /// A version whose install failed.
    pub failed: Option<String>,
    pub failed_at: u64,
    /// How often in a row it failed.
    pub failures: u32,
}

/// `a` without `b`, and nothing where that is less than nothing.
pub open spec fn minus(a: int, b: int) -> int {
    if a > b {
        a - b
    } else {
        0
    }
}

impl Cache {
    /// Does the answer still hold?
    pub open spec fn fresh(
        &self,
        now: u64,
        installed: Seq<char>,
        tags: Seq<Seq<char>>,
        interval_minutes: u64,
    ) -> bool {
        let minutes = if self.latest is None && interval_minutes > FAILED_RETRY_MINUTES {
            FAILED_RETRY_MINUTES as int
        } else {
            interval_minutes as int
        };
        &&& self.installed@ == installed
        &&& texts(self.tags@) == tags
        &&& minus(now as int, self.checked_at as int) < (if minutes * 60 < u64::MAX {
            minutes * 60
        } else {
            u64::MAX as int
        })
    }

    /// Does the answer still hold: for the same installed version and the same tags, within the
    /// interval, or within the short wait after a query that failed?
    pub fn is_fresh(
        &self,
        now: u64,
        installed: &str,
        tags: &[String],
        interval_minutes: u64,
    ) -> (r: bool)
        ensures
            r == self.fresh(now, installed@, texts(tags@), interval_minutes),
    {
        if !text_eq(self.installed.as_str(), installed) {
            return false;
        }
        if !same_texts(self.tags.as_slice(), tags) {
            return false;
        }
        let minutes: u64 = if self.latest.is_none() && interval_minutes > FAILED_RETRY_MINUTES {
            FAILED_RETRY_MINUTES
        } else {
            interval_minutes
        };
        let age: u64 = if now > self.checked_at {
            now - self.checked_at
        } else {
            0
        };
        let limit: u64 = match minutes.checked_mul(60) {
            Some(seconds) => seconds,
            None => u64::MAX,
        };
        age < limit
    }

    /// Is the status an update whose install was tried and changed nothing?
    pub open spec fn was_attempted(&self, status: StatusModel) -> bool {
        status matches StatusModel::UpdateAvailable { to, .. } && opt_view(self.attempted) == Some(
            to,
        )
    }

    /// Is the status an update whose install was tried and changed nothing?
    pub fn attempted_install(&self, status: &Status) -> (r: bool)
        ensures
            r == self.was_attempted(status@),
    {
        match status {
            Status::UpdateAvailable { to, .. } => opt_is(&self.attempted, to.as_str()),
            _ => false,
        }
    }

    /// Is the status an update whose install failed so recently that it has to wait?
    pub open spec fn still_waits(&self, now: u64, status: StatusModel) -> bool {
        status matches StatusModel::UpdateAvailable { to, .. } && opt_view(self.failed) == Some(to)
            && minus(now as int, self.failed_at as int) < failure_window(self.failures as nat)
    }

    /// Is the status an update whose install failed so recently that it has to wait?
    pub fn failed_recently(&self, now: u64, status: &Status) -> (r: bool)
        ensures
            r == self.still_waits(now, status@),
    {
        match status {
            Status::UpdateAvailable { to, .. } => {
                if !opt_is(&self.failed, to.as_str()) {
                    return false;
                }
                let age: u64 = if now > self.failed_at {
                    now - self.failed_at
                } else {
                    0
                };
                age < failure_window_secs(self.failures)
            },
            _ => false,
        }
    }
}

/// Where the answer about the CLI lives.
pub fn cache_path(data_dir: &str, windows: bool) -> (r: String)
    ensures
        r@ == path_joined(data_dir@, "update-check.json"@, windows),
{
    path_join(data_dir, "update-check.json", windows)
}

/// Where the answer about the plugin lives: in a file of its own, as neither may use up the
/// other's interval.
pub fn plugin_cache_path(data_dir: &str, windows: bool) -> (r: String)
    ensures
        r@ == path_joined(data_dir@, "plugin-check.json"@, windows),
{
    path_join(data_dir, "plugin-check.json", windows)
}

/// The two answers never share a file.
pub proof fn the_two_caches_are_two_files(data_dir: Seq<char>, windows: bool)
    ensures
        path_joined(data_dir, "update-check.json"@, windows) != path_joined(
            data_dir,
            "plugin-check.json"@,
            windows,
        ),
{
    reveal_strlit("update-check.json");
    reveal_strlit("plugin-check.json");
    let a = path_joined(data_dir, "update-check.json"@, windows);
    let b = path_joined(data_dir, "plugin-check.json"@, windows);
    joining_ends_with_the_name(data_dir, "update-check.json"@, windows);
    joining_ends_with_the_name(data_dir, "plugin-check.json"@, windows);
    assert(a.subrange(a.len() - 17, a.len() as int)[0] == 'u');
    assert(b.subrange(b.len() - 17, b.len() as int)[0] == 'p');
}

/// The outcome of a check that consults the remembered answer.
#[derive(Debug, Clone, PartialEq, Eq)]
pub struct Checked {
    pub status: Status,
    /// The answer was remembered.
    pub cached: bool,
    /// An install of this answer changed nothing: report it and do not install again.
    pub attempted: bool,
    /// An install of this answer failed: leave it alone until its wait is over.
    pub failed_recently: bool,
}

/// What a remembered answer says now.
pub open spec fn remembered(cache: Cache, current: Seq<char>) -> StatusModel {
    match cache.latest {
        Some(latest) => judged(latest@, current),
        None => StatusModel::Failed { reason: "上次查询失败（缓存结果）"@ },
    }
}

/// The version that a status knows to be the newest.
pub open spec fn latest_in(status: StatusModel) -> Option<Seq<char>> {
    match status {
        StatusModel::UpdateAvailable { to, .. } => Some(to),
        StatusModel::UpToDate { version } => Some(version),
        _ => None,
    }
}

/// The attempt that a new answer still carries: the same version's, or any where the query
/// learned nothing.
pub open spec fn carried(attempted: Option<Seq<char>>, latest: Option<Seq<char>>) -> Option<
    Seq<char>,
> {
    if latest is None || latest == attempted {
        attempted
    } else {
        None
    }
}

/// The attempt that a new answer still carries.
pub fn carried_attempt(previous: Option<&Cache>, latest: Option<&str>) -> (r: Option<String>)
    ensures
        opt_view(r) == (match previous {
            Some(cache) => carried(opt_view(cache.attempted), crate::runtime::str_view(latest)),
            None => None,
        }),
{
    let cache = match previous {
        Some(cache) => cache,
        None => {
            return None;
        },
    };
    match latest {
        None => opt_copy(&cache.attempted),
        Some(version) => if opt_is(&cache.attempted, version) {
            opt_copy(&cache.attempted)
        } else {
            None
        },
    }
}

/// A remembered failed install.
#[derive(Debug, Clone, PartialEq, Eq)]
pub struct FailureMarker {
    pub version: String,
    pub at: u64,
    pub failures: u32,
}

/// Does a new answer still carry the failure? For the same version, and for a week.
pub open spec fn carries_failure(cache: Cache, latest: Option<Seq<char>>, now: u64) -> bool {
    &&& cache.failed is Some
    &&& latest == opt_view(cache.failed)
    &&& minus(now as int, cache.failed_at as int) < FAILED_MEMORY_SECS
}

/// The failure that a new answer still carries. It outlives its wait, so that a repeat makes the
/// next wait longer.
pub fn carried_failure(previous: Option<&Cache>, latest: Option<&str>, now: u64) -> (r: Option<
    FailureMarker,
>)
    ensures
        (match r {
            Some(marker) => {
                &&& previous is Some
                &&& carries_failure(*previous->0, crate::runtime::str_view(latest), now)
                &&& Some(marker.version@) == opt_view(previous->0.failed)
                &&& marker.at == previous->0.failed_at
                &&& marker.failures == previous->0.failures
            },
            None => previous is None || !carries_failure(
                *previous->0,
                crate::runtime::str_view(latest),
                now,
            ),
        }),
{
    let cache = match previous {
        Some(cache) => cache,
        None => {
            return None;
        },
    };
    match (&cache.failed, latest) {
        (Some(failed), Some(version)) => {
            let age: u64 = if now > cache.failed_at {
                now - cache.failed_at
            } else {
                0
            };
            if text_eq(failed.as_str(), version) && age < FAILED_MEMORY_SECS {
                Some(
                    FailureMarker {
                        version: failed.clone(),
                        at: cache.failed_at,
                        failures: cache.failures,
                    },
                )
            } else {
                None
            }
        },
        _ => None,
    }
}

/// Is the remembered answer to be used?
pub open spec fn uses_cache(
    previous: Option<Cache>,
    now: u64,
    wanted: Seq<Seq<char>>,
    current: Seq<char>,
    interval_minutes: u64,
) -> bool {
    previous matches Some(cache) && cache.fresh(now, current, wanted, interval_minutes)
}

/// Must the registry be asked, as no remembered answer holds?
pub fn must_query(
    previous: Option<&Cache>,
    now: u64,
    wanted_tags: &[String],
    current: &str,
    interval_minutes: u64,
) -> (r: bool)
    ensures
        r == !uses_cache(
            match previous {
                Some(cache) => Some(*cache),
                None => None,
            },
            now,
            texts(wanted_tags@),
            current@,
            interval_minutes,
        ),
{
    match previous {
        Some(cache) => !cache.is_fresh(now, current, wanted_tags, interval_minutes),
        None => true,
    }
}

/// What is remembered of a new answer.
pub open spec fn remembers(
    fresh: Cache,
    previous: Option<Cache>,
    now: u64,
    wanted: Seq<Seq<char>>,
    current: Seq<char>,
    status: StatusModel,
) -> bool {
    let latest = latest_in(status);
    &&& fresh.checked_at == now
    &&& fresh.installed@ == current
    &&& opt_view(fresh.latest) == latest
    &&& texts(fresh.tags@) == wanted
    &&& opt_view(fresh.attempted) == (match previous {
        Some(cache) => carried(opt_view(cache.attempted), latest),
        None => None,
    })
    &&& if previous matches Some(cache) && carries_failure(cache, latest, now) {
        &&& opt_view(fresh.failed) == opt_view(previous->0.failed)
        &&& fresh.failed_at == previous->0.failed_at
        &&& fresh.failures == previous->0.failures
    } else {
        &&& fresh.failed is None
        &&& fresh.failed_at == 0
        &&& fresh.failures == 0
    }
}

fn latest_of(status: &Status) -> (r: Option<String>)
    ensures
        opt_view(r) == latest_in(status@),
{
    match status {
        Status::UpdateAvailable { to, .. } => Some(to.clone()),
        Status::UpToDate { version } => Some(version.clone()),
        _ => None,
    }
}

fn new_cache(
    previous: Option<&Cache>,
    now: u64,
    wanted_tags: &[String],
    current: &str,
    status: &Status,
) -> (r: Cache)
    ensures
        remembers(
            r,
            match previous {
                Some(cache) => Some(*cache),
                None => None,
            },
            now,
            texts(wanted_tags@),
            current@,
            status@,
        ),
{
    let latest = latest_of(status);
    let known: Option<&str> = match &latest {
        Some(version) => Some(version.as_str()),
        None => None,
    };
    let attempted = carried_attempt(previous, known);
    let (failed, failed_at, failures): (Option<String>, u64, u32) = match carried_failure(
        previous,
        known,
        now,
    ) {
        Some(marker) => (Some(marker.version), marker.at, marker.failures),
        None => (None, 0, 0),
    };
    Cache {
        checked_at: now,
        installed: current.to_owned(),
        latest,
        tags: copy_texts(wanted_tags),
        attempted,
        failed,
        failed_at,
        failures,
    }
}

/// Consults the remembered answer, and the registry's where that does not hold; `answer` is what
/// the registry said, and is looked at only then. Gives the outcome and what to remember.
pub fn check_cached_at(
    previous: Option<&Cache>,
    now: u64,
    wanted_tags: &[String],
    current: &str,
    interval_minutes: u64,
    answer: Status,
) -> (r: (Checked, Option<Cache>))
    ensures
        ({
            let before = match previous {
                Some(cache) => Some(*cache),
                None => None,
            };
            let wanted = texts(wanted_tags@);
            if uses_cache(before, now, wanted, current@, interval_minutes) {
                &&& r.1 is None
                &&& r.0.cached
                &&& r.0.status@ == remembered(before->0, current@)
                &&& r.0.attempted == before->0.was_attempted(r.0.status@)
                &&& r.0.failed_recently == before->0.still_waits(now, r.0.status@)
            } else {
                &&& r.1 is Some
                &&& !r.0.cached
                &&& r.0.status == answer
                &&& remembers(r.1->0, before, now, wanted, current@, answer@)
                &&& r.0.attempted == r.1->0.was_attempted(answer@)
                &&& r.0.failed_recently == r.1->0.still_waits(now, answer@)
            }
        }),
{
    match previous {
        Some(cache) => {
            if cache.is_fresh(now, current, wanted_tags, interval_minutes) {
                let status = match &cache.latest {
                    Some(latest) => judge(latest.as_str(), current),
                    None => Status::Failed { reason: "上次查询失败（缓存结果）".to_owned() },
                };
                let attempted = cache.attempted_install(&status);
                let failed_recently = cache.failed_recently(now, &status);
                return (Checked { status, cached: true, attempted, failed_recently }, None);
            }
        },
        None => {},
    }
    let fresh = new_cache(previous, now, wanted_tags, current, &answer);
    let attempted = fresh.attempted_install(&answer);
    let failed_recently = fresh.failed_recently(now, &answer);
    (Checked { status: answer, cached: false, attempted, failed_recently }, Some(fresh))
}

/// The check of the CLI: its answer is remembered at [`cache_path`].
pub fn check_cached(
    previous: Option<&Cache>,
    now: u64,
    wanted_tags: &[String],
    current: &str,
    interval_minutes: u64,
    tags: Result<Vec<(String, String)>, String>,
) -> (r: (Checked, Option<Cache>))
    ensures
        ({
            let before = match previous {
                Some(cache) => Some(*cache),
                None => None,
            };
            let wanted = texts(wanted_tags@);
            let answer = match tags {
                Ok(published) => checked_against(pairs(published@), wanted, current@),
                Err(reason) => StatusModel::Failed { reason: reason@ },
            };
            if uses_cache(before, now, wanted, current@, interval_minutes) {
                &&& r.1 is None
                &&& r.0.cached
                &&& r.0.status@ == remembered(before->0, current@)
                &&& r.0.attempted == before->0.was_attempted(r.0.status@)
                &&& r.0.failed_recently == before->0.still_waits(now, r.0.status@)
            } else {
                &&& r.1 is Some
                &&& !r.0.cached
                &&& r.0.status@ == answer
                &&& remembers(r.1->0, before, now, wanted, current@, answer)
                &&& r.0.attempted == r.1->0.was_attempted(answer)
                &&& r.0.failed_recently == r.1->0.still_waits(now, answer)
            }
        }),
{
    let answer = check(tags, wanted_tags, current);
    check_cached_at(previous, now, wanted_tags, current, interval_minutes, answer)
}

/// The check of the plugin: as [`check_cached`], remembered at [`plugin_cache_path`].
pub fn check_plugin_cached(
    previous: Option<&Cache>,
    now: u64,
    wanted_tags: &[String],
    current: &str,
    interval_minutes: u64,
    tags: Result<Vec<(String, String)>, String>,
) -> (r: (Checked, Option<Cache>))
    ensures
        ({
            let before = match previous {
                Some(cache) => Some(*cache),
                None => None,
            };
            let wanted = texts(wanted_tags@);
            let answer = match tags {
                Ok(published) => checked_against(pairs(published@), wanted, current@),
                Err(reason) => StatusModel::Failed { reason: reason@ },
            };
            if uses_cache(before, now, wanted, current@, interval_minutes) {
                &&& r.1 is None
                &&& r.0.cached
                &&& r.0.status@ == remembered(before->0, current@)
                &&& r.0.attempted == before->0.was_attempted(r.0.status@)
                &&& r.0.failed_recently == before->0.still_waits(now, r.0.status@)
            } else {
                &&& r.1 is Some
                &&& !r.0.cached
                &&& r.0.status@ == answer
                &&& remembers(r.1->0, before, now, wanted, current@, answer)
                &&& r.0.attempted == r.1->0.was_attempted(answer)
                &&& r.0.failed_recently == r.1->0.still_waits(now, answer)
            }
        }),
{
    check_cached(previous, now, wanted_tags, current, interval_minutes, tags)
}

// ---------------------------------------------------------------------------------------------
// A check, step by step
// ---------------------------------------------------------------------------------------------

/// What is checked.
#[derive(Debug, Clone, Copy, PartialEq, Eq, Structural)]
pub enum Subject {
    /// The CLI.
    Core,
    /// The plugin market.
    Plugin,
}

/// The file that the answer about a subject is remembered in.
pub open spec fn cache_file(subject: Subject, data_dir: Seq<char>, windows: bool) -> Seq<char> {
    match subject {
        Subject::Core => path_joined(data_dir, "update-check.json"@, windows),
        Subject::Plugin => path_joined(data_dir, "plugin-check.json"@, windows),
    }
}

/// The package of a subject.
pub open spec fn package_of(subject: Subject) -> Seq<char> {
    match subject {
        Subject::Core => PACKAGE@,
        Subject::Plugin => MARKET_PLUGIN@,
    }
}

/// A step of a check.
#[derive(Debug, PartialEq, Eq)]
pub enum CheckAction {
    /// Read the remembered answer, and the clock.
    ReadCache { path: String },
    /// Ask the registry for the tags of the package.
    Query { package: String },
    /// Remember the answer.
    WriteCache { path: String, cache: Cache },
    /// Over.
    Finish { checked: Checked },
}

/// What came of a step.
#[derive(Debug)]
pub enum CheckEvent {
    Started,
    /// The remembered answer, where there is one, and the time.
    Read { cache: Option<Cache>, now: u64 },
    /// The tags that the registry names.
    Answered { tags: Result<Vec<(String, String)>, String> },
    /// The answer was written, or could not be.
    Written,
}

/// How far a check has come.
#[derive(Debug)]
pub enum CheckStage {
    Start,
    Reading,
    Asking { previous: Option<Cache>, now: u64 },
    Writing { checked: Checked },
    Over,
}

/// A check of a subject against the registry.
#[derive(Debug)]
pub struct PackageCheck {
    pub subject: Subject,
    pub data_dir: String,
    pub wanted_tags: Vec<String>,
    pub current: String,
    pub interval_minutes: u64,
    /// Do the paths follow the rules of Windows?
    pub windows: bool,
    pub stage: CheckStage,
}

/// Is this what a remembered answer that holds comes to?
pub open spec fn checked_from_cache(checked: Checked, cache: Cache, now: u64, current: Seq<char>) -> bool {
    &&& checked.cached
    &&& checked.status@ == remembered(cache, current)
    &&& checked.attempted == cache.was_attempted(checked.status@)
    &&& checked.failed_recently == cache.still_waits(now, checked.status@)
}

/// Is this what a new answer comes to, with `fresh` to be remembered of it?
pub open spec fn checked_anew(checked: Checked, fresh: Cache, now: u64, answer: StatusModel) -> bool {
    &&& !checked.cached
    &&& checked.status@ == answer
    &&& checked.attempted == fresh.was_attempted(answer)
    &&& checked.failed_recently == fresh.still_waits(now, answer)
}

/// What the tags of the registry, or the reason why there are none, mean for a check.
pub open spec fn answer_of(
    tags: Result<Vec<(String, String)>, String>,
    wanted: Seq<Seq<char>>,
    current: Seq<char>,
) -> StatusModel {
    match tags {
        Ok(published) => checked_against(pairs(published@), wanted, current),
        Err(reason) => StatusModel::Failed { reason: reason@ },
    }
}

/// Is the action, with the stage behind it, the next step of the check? An event that does not
/// belong to the stage ends it.
pub open spec fn check_steps(
    check: PackageCheck,
    event: CheckEvent,
    action: CheckAction,
    after: CheckStage,
) -> bool {
    let file = cache_file(check.subject, check.data_dir@, check.windows);
    let wanted = texts(check.wanted_tags@);
    match (check.stage, event) {
        (CheckStage::Start, _) => {
            &&& action matches CheckAction::ReadCache { path }
            &&& path@ == file
            &&& after is Reading
        },
        (CheckStage::Reading, CheckEvent::Read { cache, now }) => if uses_cache(
            cache,
            now,
            wanted,
            check.current@,
            check.interval_minutes,
        ) {
            &&& action matches CheckAction::Finish { checked }
            &&& checked_from_cache(checked, cache->0, now, check.current@)
            &&& after is Over
        } else {
            &&& action matches CheckAction::Query { package }
            &&& package@ == package_of(check.subject)
            &&& after == (CheckStage::Asking { previous: cache, now })
        },
        (CheckStage::Asking { previous, now }, CheckEvent::Answered { tags }) => {
            let answer = answer_of(tags, wanted, check.current@);
            &&& action matches CheckAction::WriteCache { path, cache }
            &&& path@ == file
            &&& remembers(cache, previous, now, wanted, check.current@, answer)
            &&& after matches CheckStage::Writing { checked }
            &&& checked_anew(checked, cache, now, answer)
        },
        (CheckStage::Writing { checked }, _) => {
            &&& action == (CheckAction::Finish { checked })
            &&& after is Over
        },
        _ => {
            &&& action matches CheckAction::Finish { checked }
            &&& checked.status is Skipped
            &&& !checked.cached && !checked.attempted && !checked.failed_recently
            &&& after is Over
        },
    }
}

impl PackageCheck {
    /// A check that has not begun.
    pub fn new(
        subject: Subject,
        data_dir: &str,
        wanted_tags: &[String],
        current: &str,
        interval_minutes: u64,
        windows: bool,
    ) -> (r: PackageCheck)
        ensures
            r.subject == subject,
            r.data_dir@ == data_dir@,
            texts(r.wanted_tags@) == texts(wanted_tags@),
            r.current@ == current@,
            r.interval_minutes == interval_minutes,
            r.windows == windows,
            r.stage is Start,
    {
        PackageCheck {
            subject,
            data_dir: data_dir.to_owned(),
            wanted_tags: copy_texts(wanted_tags),
            current: current.to_owned(),
            interval_minutes,
            windows,
            stage: CheckStage::Start,
        }
    }

    fn file(&self) -> (r: String)
        ensures
            r@ == cache_file(self.subject, self.data_dir@, self.windows),
    {
        match self.subject {
            Subject::Core => cache_path(self.data_dir.as_str(), self.windows),
            Subject::Plugin => plugin_cache_path(self.data_dir.as_str(), self.windows),
        }
    }

    fn package(&self) -> (r: String)
        ensures
            r@ == package_of(self.subject),
    {
        match self.subject {
            Subject::Core => PACKAGE.to_owned(),
            Subject::Plugin => MARKET_PLUGIN.to_owned(),
        }
    }

    /// The next step, after the last one went as the event says.
    pub fn next(&mut self, event: CheckEvent) -> (r: CheckAction)
        ensures
            final(self).subject == old(self).subject,
            final(self).data_dir == old(self).data_dir,
            final(self).wanted_tags == old(self).wanted_tags,
            final(self).current == old(self).current,
            final(self).interval_minutes == old(self).interval_minutes,
            final(self).windows == old(self).windows,
            check_steps(*old(self), event, r, final(self).stage),
    {
        let mut stage = CheckStage::Over;
        std::mem::swap(&mut stage, &mut self.stage);
        match (stage, event) {
            (CheckStage::Start, _) => {
                self.stage = CheckStage::Reading;
                CheckAction::ReadCache { path: self.file() }
            },
            (CheckStage::Reading, CheckEvent::Read { cache, now }) => {
                let query = must_query(
                    match &cache {
                        Some(held) => Some(held),
                        None => None,
                    },
                    now,
                    self.wanted_tags.as_slice(),
                    self.current.as_str(),
                    self.interval_minutes,
                );
                if query {
                    self.stage = CheckStage::Asking { previous: cache, now };
                    return CheckAction::Query { package: self.package() };
                }
                let (checked, _) = check_cached_at(
                    match &cache {
                        Some(held) => Some(held),
                        None => None,
                    },
                    now,
                    self.wanted_tags.as_slice(),
                    self.current.as_str(),
                    self.interval_minutes,
                    Status::Skipped,
                );
                CheckAction::Finish { checked }
            },
            (CheckStage::Asking { previous, now }, CheckEvent::Answered { tags }) => {
                let status = check(tags, self.wanted_tags.as_slice(), self.current.as_str());
                let cache = new_cache(
                    match &previous {
                        Some(held) => Some(held),
                        None => None,
                    },
                    now,
                    self.wanted_tags.as_slice(),
                    self.current.as_str(),
                    &status,
                );
                let attempted = cache.attempted_install(&status);
                let failed_recently = cache.failed_recently(now, &status);
                self.stage = CheckStage::Writing {
                    checked: Checked { status, cached: false, attempted, failed_recently },
                };
                CheckAction::WriteCache { path: self.file(), cache }
            },
            (CheckStage::Writing { checked }, _) => CheckAction::Finish { checked },
            _ => CheckAction::Finish {
                checked: Checked {
                    status: Status::Skipped,
                    cached: false,
                    attempted: false,
                    failed_recently: false,
                },
            },
        }
    }
}

/// What the files hold after a step: one that writes an answer puts `written` into its file.
pub open spec fn files_after(
    files: Map<Seq<char>, int>,
    action: CheckAction,
    written: int,
) -> Map<Seq<char>, int> {
    match action {
        CheckAction::WriteCache { path, .. } => files.insert(path@, written),
        _ => files,
    }
}

/// What a step learns from the files: what the file holds that it reads, if it reads one.
pub open spec fn read_from(files: Map<Seq<char>, int>, action: CheckAction) -> Option<int> {
    match action {
        CheckAction::ReadCache { path } => if files.dom().contains(path@) {
            Some(files[path@])
        } else {
            None
        },
        _ => None,
    }
}

/// Is the action a step of some check of the subject?
pub open spec fn step_of(
    subject: Subject,
    data_dir: Seq<char>,
    windows: bool,
    action: CheckAction,
) -> bool {
    exists|check: PackageCheck, event: CheckEvent, after: CheckStage|
        check.subject == subject && check.data_dir@ == data_dir && check.windows == windows
            && #[trigger] check_steps(check, event, action, after)
}

/// What the files hold after several steps, each with what it may write.
pub open spec fn files_through(
    files: Map<Seq<char>, int>,
    actions: Seq<(CheckAction, int)>,
) -> Map<Seq<char>, int>
    decreases actions.len(),
{
    if actions.len() == 0 {
        files
    } else {
        files_after(
            files_through(files, actions.drop_last()),
            actions.last().0,
            actions.last().1,
        )
    }
}

/// Neither check reads or writes the other's file: whatever happens, all its steps leave the
/// other's file as it was, and none learns anything from files that differ in that file alone.
pub proof fn neither_check_touches_the_others_file(
    subject: Subject,
    other: Subject,
    data_dir: Seq<char>,
    windows: bool,
    actions: Seq<(CheckAction, int)>,
    files: Map<Seq<char>, int>,
    action: CheckAction,
    held: int,
)
    requires
        subject != other,
        forall|i: int|
            0 <= i < actions.len() ==> step_of(
                subject,
                data_dir,
                windows,
                (#[trigger] actions[i]).0,
            ),
        step_of(subject, data_dir, windows, action),
    ensures
        ({
            let others = cache_file(other, data_dir, windows);
            let after = files_through(files, actions);
            &&& after.dom().contains(others) == files.dom().contains(others)
            &&& after[others] == files[others]
            &&& read_from(files.insert(others, held), action) == read_from(files, action)
            &&& read_from(files.remove(others), action) == read_from(files, action)
        }),
    decreases actions.len(),
{
    let own = cache_file(subject, data_dir, windows);
    let others = cache_file(other, data_dir, windows);
    the_two_caches_are_two_files(data_dir, windows);
    assert(own != others);
    if actions.len() > 0 {
        let before = actions.drop_last();
        assert forall|i: int| 0 <= i < before.len() implies step_of(
            subject,
            data_dir,
            windows,
            (#[trigger] before[i]).0,
        ) by {
            assert(before[i] == actions[i]);
        }
        neither_check_touches_the_others_file(
            subject,
            other,
            data_dir,
            windows,
            before,
            files,
            action,
            held,
        );
        assert(actions[actions.len() - 1] == actions.last());
        assert(step_of(subject, data_dir, windows, actions.last().0));
    }
}

/// An answer with the mark that installing a version changed nothing.
pub open spec fn marked_ineffective(cache: Cache, after: Cache, latest: Seq<char>) -> bool {
    &&& opt_view(after.attempted) == Some(latest)
    &&& after == (Cache { attempted: after.attempted, ..cache })
}

/// An answer with the mark that installing a version failed: a repeat is counted, another
/// version starts over.
pub open spec fn marked_failed(cache: Cache, after: Cache, latest: Seq<char>, now: u64) -> bool {
    &&& opt_view(after.failed) == Some(latest)
    &&& after.failed_at == now
    &&& after.failures == (if opt_view(cache.failed) == Some(latest) {
        let before = if cache.failures == 0 {
            1
        } else {
            cache.failures as int
        };
        if before < u32::MAX {
            before + 1
        } else {
            u32::MAX as int
        }
    } else {
        1
    })
    &&& after == (Cache {
        failed: after.failed,
        failed_at: after.failed_at,
        failures: after.failures,
        ..cache
    })
}

fn mark_attempt_in(cache: Option<Cache>, latest: &str) -> (r: Option<Cache>)
    ensures
        (match cache {
            Some(before) => r matches Some(after) && marked_ineffective(before, after, latest@),
            None => r is None,
        }),
{
    match cache {
        Some(before) => {
            let mut after = before;
            after.attempted = Some(latest.to_owned());
            Some(after)
        },
        None => None,
    }
}

fn mark_failed_in(cache: Option<Cache>, latest: &str, now: u64) -> (r: Option<Cache>)
    ensures
        (match cache {
            Some(before) => r matches Some(after) && marked_failed(before, after, latest@, now),
            None => r is None,
        }),
{
    match cache {
        Some(before) => {
            let mut after = before;
            let count: u32 = if after.failures == 0 {
                1
            } else {
                after.failures
            };
            after.failures = if opt_is(&after.failed, latest) {
                count.saturating_add(1)
            } else {
                1
            };
            after.failed = Some(latest.to_owned());
            after.failed_at = now;
            Some(after)
        },
        None => None,
    }
}

/// Remembers that installing a version of the CLI changed nothing. Without an answer there is
/// nothing to mark.
pub fn mark_attempt_ineffective(cache: Option<Cache>, latest: &str) -> (r: Option<Cache>)
    ensures
        (match cache {
            Some(before) => r matches Some(after) && marked_ineffective(before, after, latest@),
            None => r is None,
        }),
{
    mark_attempt_in(cache, latest)
}

/// Remembers that installing a version of the plugin changed nothing.
pub fn mark_plugin_attempt_ineffective(cache: Option<Cache>, latest: &str) -> (r: Option<Cache>)
    ensures
        (match cache {
            Some(before) => r matches Some(after) && marked_ineffective(before, after, latest@),
            None => r is None,
        }),
{
    mark_attempt_in(cache, latest)
}

/// Remembers that installing a version of the plugin failed.
pub fn mark_plugin_attempt_failed(cache: Option<Cache>, latest: &str, now: u64) -> (r: Option<
    Cache,
>)
    ensures
        (match cache {
            Some(before) => r matches Some(after) && marked_failed(before, after, latest@, now),
            None => r is None,
        }),
{
    mark_failed_in(cache, latest, now)
}

/// Remembers that a version of the CLI was put in place and never started.
pub fn mark_core_attempt_failed(cache: Option<Cache>, latest: &str, now: u64) -> (r: Option<Cache>)
    ensures
        (match cache {
            Some(before) => r matches Some(after) && marked_failed(before, after, latest@, now),
            None => r is None,
        }),
{
    mark_failed_in(cache, latest, now)
}

/// Once an install of a version changed nothing, no later check of the same answer reports it as
/// one to install, for as long as the registry names that version or cannot be asked.
pub proof fn an_ineffective_install_is_not_repeated(
    cache: Cache,
    marked: Cache,
    after: Cache,
    now: u64,
    wanted: Seq<Seq<char>>,
    current: Seq<char>,
    answer: StatusModel,
    to: Seq<char>,
)
    requires
        marked_ineffective(cache, marked, to),
        remembers(after, Some(marked), now, wanted, current, answer),
        answer matches StatusModel::UpdateAvailable { to: offered, .. } ==> offered == to,
        answer !is UpToDate,
    ensures
        opt_view(after.attempted) == Some(to),
        answer is UpdateAvailable ==> after.was_attempted(answer),
{
}

/// A version that failed waits for its window, and is offered again when that is over.
pub proof fn a_failed_install_waits_its_window(
    cache: Cache,
    marked: Cache,
    at: u64,
    now: u64,
    from: Seq<char>,
    to: Seq<char>,
)
    requires
        marked_failed(cache, marked, to, at),
        at <= now,
    ensures
        marked.still_waits(now, StatusModel::UpdateAvailable { from, to }) <==> now - at
            < failure_window(marked.failures as nat),
        marked.failures >= 1,
{
}

/// The wait begins with five minutes, and each further failure makes it four times as long, up to
/// a day.
pub proof fn each_failure_waits_four_times_as_long(failures: nat)
    ensures
        failure_window(0) == 300,
        failure_window(1) == 300,
        failures >= 1 ==> failure_window(failures + 1) == (if 4 * failure_window(failures) < 86400 {
            4 * failure_window(failures)
        } else {
            86400
        }),
{
    assert(fourfold(0) == 1);
    if failures >= 1 {
        let n = (failures - 1) as nat;
        assert(fourfold(n + 1) == 4 * fourfold(n));
    }
}

/// A version is tested from `0.1.5-rc.1` on and up to `0.2.0`, which is not; what lies before is
/// older, what lies behind newer, and what is no version is unknown. Only what is tested may be
/// installed where that is required, and anything where it is not.
pub proof fn the_tested_versions(version: Seq<char>)
    ensures
        compatibility_of(version) is Unknown <==> version_in(version) is None,
        version_in(version) matches Some(v) ==> {
            let first = crate::version::version_of(0, 1, 5, seq!["rc"@, "1"@]);
            let end = crate::version::version_of(0, 2, 0, Seq::empty());
            &&& compatibility_of(version) is Older <==> version_below(v, first)
            &&& compatibility_of(version) is Newer <==> !version_below(v, end)
            &&& compatibility_of(version) is Tested <==> !version_below(v, first) && version_below(
                v,
                end,
            )
        },
{
    if version_in(version) is Some {
        let v = version_in(version)->0;
        the_tested_range_is_a_range();
        if version_below(v, tested_min()) {
            below_is_transitive(v, tested_min(), tested_max());
        }
    }
}

/// A remembered answer holds for the version and the tags that were asked for, and no others; for
/// as many minutes as are given, and where the query failed for no more than five. A clock that
/// was set back does not end it.
pub proof fn an_answer_holds_for_its_interval(
    cache: Cache,
    now: u64,
    wanted: Seq<Seq<char>>,
    current: Seq<char>,
    interval_minutes: u64,
)
    requires
        interval_minutes * 60 <= u64::MAX,
    ensures
        !uses_cache(None, now, wanted, current, interval_minutes),
        cache.installed@ != current || texts(cache.tags@) != wanted ==> !uses_cache(
            Some(cache),
            now,
            wanted,
            current,
            interval_minutes,
        ),
        cache.installed@ == current && texts(cache.tags@) == wanted ==> {
            let held = uses_cache(Some(cache), now, wanted, current, interval_minutes);
            let age = now - cache.checked_at;
            &&& age >= 0 && cache.latest is Some ==> (held <==> age < interval_minutes * 60)
            &&& age >= 0 && cache.latest is None ==> (held <==> age < interval_minutes * 60 && age
                < 300)
            &&& age < 0 ==> (held <==> interval_minutes > 0)
        },
{
}

/// What a check of the registry found is what every later check gives again, without asking, for
/// as long as the answer holds.
pub proof fn a_remembered_answer_is_given_again(
    tags: Seq<(Seq<char>, Seq<char>)>,
    wanted: Seq<Seq<char>>,
    current: Seq<char>,
    previous: Option<Cache>,
    kept: Cache,
    at: u64,
    now: u64,
    interval_minutes: u64,
)
    requires
        remembers(kept, previous, at, wanted, current, checked_against(tags, wanted, current)),
        checked_against(tags, wanted, current) !is Failed,
        at <= now,
        now - at < interval_minutes * 60,
        now - at < u64::MAX,
    ensures
        uses_cache(Some(kept), now, wanted, current, interval_minutes),
        remembered(kept, current) == checked_against(tags, wanted, current),
{
    let answer = checked_against(tags, wanted, current);
    let chosen = selected(tags, wanted);
    nothing_ranks_above_the_newest(chosen);
    let head = newest(chosen)->0;
    let k = choose|k: int|
        0 <= k < chosen.len() && version_in((#[trigger] chosen[k]).1) == Some(head);
    crate::version::a_written_version_reads_back(chosen[k].1);
    assert(version_in(version_text(head)) == Some(head));
    assert(opt_view(kept.latest) == Some(version_text(head)));
}

/// A query that failed is remembered as that, and is asked again after five minutes at the latest.
pub proof fn a_failed_query_is_remembered_shortly(
    reason: Seq<char>,
    wanted: Seq<Seq<char>>,
    current: Seq<char>,
    previous: Option<Cache>,
    kept: Cache,
    at: u64,
    now: u64,
    interval_minutes: u64,
)
    requires
        remembers(kept, previous, at, wanted, current, StatusModel::Failed { reason }),
        at <= now,
    ensures
        remembered(kept, current) is Failed,
        now - at >= 300 ==> !uses_cache(Some(kept), now, wanted, current, interval_minutes),
        now - at < 300 && now - at < interval_minutes * 60 ==> uses_cache(
            Some(kept),
            now,
            wanted,
            current,
            interval_minutes,
        ),
{
}

/// The marks belong to one version: an install of another is neither reported as tried nor kept
/// waiting.
pub proof fn a_mark_is_for_one_version(
    cache: Cache,
    ineffective: Cache,
    failed: Cache,
    at: u64,
    now: u64,
    from: Seq<char>,
    to: Seq<char>,
    other: Seq<char>,
)
    requires
        marked_ineffective(cache, ineffective, to),
        marked_failed(cache, failed, to, at),
    ensures
        ineffective.was_attempted(StatusModel::UpdateAvailable { from, to: other }) <==> other == to,
        failed.still_waits(now, StatusModel::UpdateAvailable { from, to: other }) ==> other == to,
        !ineffective.was_attempted(StatusModel::UpToDate { version: other }),
        !failed.still_waits(now, StatusModel::UpToDate { version: other }),
        ineffective.latest == cache.latest && ineffective.checked_at == cache.checked_at,
        failed.latest == cache.latest && failed.checked_at == cache.checked_at,
        opt_view(failed.attempted) == opt_view(cache.attempted),
{
}

/// Each repeated failure of a version is counted, and the failure of another starts over.
pub proof fn failures_are_counted(
    cache: Cache,
    once: Cache,
    twice: Cache,
    other: Cache,
    to: Seq<char>,
    another: Seq<char>,
    first: u64,
    second: u64,
)
    requires
        marked_failed(cache, once, to, first),
        marked_failed(once, twice, to, second),
        marked_failed(once, other, another, second),
        another != to,
        once.failures < u32::MAX,
    ensures
        twice.failures == once.failures + 1,
        twice.failed_at == second,
        other.failures == 1,
        opt_view(cache.failed) != Some(to) ==> once.failures == 1 && twice.failures == 2,
{
}

/// A new answer keeps the mark of a failed install for as long as it names the same version, and
/// for a week at most; the mark of one that changed nothing for as long as no other version is
/// named.
pub proof fn a_new_answer_keeps_the_marks_of_its_version(
    previous: Cache,
    kept: Cache,
    now: u64,
    wanted: Seq<Seq<char>>,
    current: Seq<char>,
    from: Seq<char>,
    to: Seq<char>,
)
    requires
        remembers(
            kept,
            Some(previous),
            now,
            wanted,
            current,
            StatusModel::UpdateAvailable { from, to },
        ),
        previous.failed_at <= now,
    ensures
        opt_view(previous.attempted) == Some(to) <==> opt_view(kept.attempted) == Some(to),
        opt_view(previous.attempted) != Some(to) ==> kept.attempted is None,
        opt_view(previous.failed) == Some(to) && now - previous.failed_at < 604800 ==> {
            &&& opt_view(kept.failed) == Some(to)
            &&& kept.failed_at == previous.failed_at
            &&& kept.failures == previous.failures
        },
        opt_view(previous.failed) != Some(to) || now - previous.failed_at >= 604800 ==> {
            &&& kept.failed is None
            &&& kept.failures == 0
        },
{
}

/// The prefix of an installed CLI is what stands before the first `/lib/node_modules/` of its path.
pub proof fn what_the_prefix_of_a_cli_is(prefix: Seq<char>, rest: Seq<char>, path: Seq<char>)
    ensures
        (forall|k: int|
            0 <= k < prefix.len() ==> #[trigger] (prefix + "/lib/node_modules/"@ + rest).subrange(
                k,
                k + 18,
            ) != "/lib/node_modules/"@) ==> prefix_of(prefix + "/lib/node_modules/"@ + rest) == Some(
            prefix,
        ),
        !crate::search::holds(path, "/lib/node_modules/"@) ==> prefix_of(path) is None,
{
    reveal_strlit("/lib/node_modules/");
    assert("/lib/node_modules/"@.len() == 18);
    crate::search::a_text_is_found_where_it_stands(prefix, "/lib/node_modules/"@, rest);
    let whole = prefix + "/lib/node_modules/"@ + rest;
    assert(whole.subrange(0, prefix.len() as int) =~= prefix);
}

/// Each member of an answer that is a string is a tag, in their order, and nothing else is.
pub proof fn which_members_are_tags(
    members: Seq<(Seq<char>, Option<Seq<char>>)>,
    name: Seq<char>,
    value: Seq<char>,
)
    ensures
        string_members(Seq::empty()) == Seq::<(Seq<char>, Seq<char>)>::empty(),
        string_members(members.push((name, Some(value)))) == string_members(members).push(
            (name, value),
        ),
        string_members(members.push((name, None))) == string_members(members),
{
    assert(members.push((name, Some(value))).drop_last() =~= members);
    assert(members.push((name, None)).drop_last() =~= members);
}

/// Where a plugin's manifest names a version, that is it without the white space around it; a
/// blank one is none.
pub proof fn what_the_version_of_a_plugin_is(
    before: Seq<char>,
    version: Seq<char>,
    after: Seq<char>,
)
    requires
        forall|i: int| 0 <= i < before.len() ==> crate::redaction::blank(#[trigger] before[i]),
        forall|i: int| 0 <= i < after.len() ==> crate::redaction::blank(#[trigger] after[i]),
        version.len() > 0 ==> !crate::redaction::blank(version[0]) && !crate::redaction::blank(
            version.last(),
        ),
    ensures
        plugin_version(Some(before + version + after)) == (if version.len() > 0 {
            Some(version)
        } else {
            None
        }),
        plugin_version(None) is None,
{
    crate::text::trimming_takes_the_ends(before, version, after);
}

/// pnpm is looked for in every directory of the list, in their order and under each of its names.
pub proof fn where_pnpm_is_looked_for(
    dirs: Seq<Seq<char>>,
    dir: Seq<char>,
    names: Seq<Seq<char>>,
    windows: bool,
)
    ensures
        all_places(Seq::empty(), names, windows) == Seq::<Seq<char>>::empty(),
        all_places(dirs.push(dir), names, windows) == all_places(dirs, names, windows) + Seq::new(
            names.len(),
            |i: int| path_joined(dir, names[i], windows),
        ),
{
    assert(dirs.push(dir).drop_last() =~= dirs);
}

/// What is said of a version that was not tested names it. And a prefix is named to the package
/// manager unless it is the one that it takes by itself.
pub proof fn what_is_said_of_a_version(version: Seq<char>, global: Seq<char>, wanted: Seq<char>)
    ensures
        crate::text::mentions(compatibility_text(CompatibilityModel::Older { version }), version),
        crate::text::mentions(compatibility_text(CompatibilityModel::Newer { version }), version),
        crate::text::mentions(
            compatibility_text(CompatibilityModel::Unknown { version }),
            debug_quoted(version),
        ),
        names_prefix(None, wanted),
        names_prefix(Some(global), wanted) <==> global != wanted,
{
    let older = " 早于本壳测试过的最低版本 "@ + TESTED_MIN@ + "：可能缺少本壳依赖的命令行参数"@;
    assert(compatibility_text(CompatibilityModel::Older { version }) =~= "dsh "@ + version + older);
    let newer = " 高于本壳测试过的区间（< "@ + TESTED_MAX_EXCLUSIVE@ + "）：上游可能有破坏性变更"@;
    assert(compatibility_text(CompatibilityModel::Newer { version }) =~= "dsh "@ + version + newer);
    crate::text::lemma_mentions("无法识别 dsh 版本 "@, debug_quoted(version), "，无法判断是否兼容"@);
}

/// An answer out of the cache is marked as one and gives what was remembered. It is an install
/// that changed nothing only where the version offered is the one that was tried, and one that
/// has to wait only where it is the one that failed.
pub proof fn an_answer_out_of_the_cache(
    checked: Checked,
    cache: Cache,
    now: u64,
    current: Seq<char>,
    from: Seq<char>,
    to: Seq<char>,
)
    requires
        checked_from_cache(checked, cache, now, current),
    ensures
        checked.cached,
        checked.status@ == remembered(cache, current),
        checked.status@ == (StatusModel::UpdateAvailable { from, to }) ==> (checked.attempted
            <==> opt_view(cache.attempted) == Some(to)),
        checked.status@ == (StatusModel::UpdateAvailable { from, to }) && opt_view(cache.failed)
            != Some(to) ==> !checked.failed_recently,
        checked.status@ !is UpdateAvailable ==> !checked.attempted && !checked.failed_recently,
        package_of(Subject::Core) == "@deepseek-ai/dsh"@,
        package_of(Subject::Plugin) == "dshmarket"@,
{
}

} // verus!

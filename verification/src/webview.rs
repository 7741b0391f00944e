//! What the engine of a page can run, and what is added to it where it can be.
use vstd::prelude::*;

#[allow(unused_imports)]
use crate::harness::pairs;
use crate::scripts::{
    FIND_LAST_SHIM, ITERATOR_SHIM, MATH_SUM_PRECISE_SHIM, OBJECT_HAS_OWN_SHIM, PROBE_HEAD,
    PROBE_MIDDLE, PROBE_TAIL, PROMISE_TRY_SHIM, PROMISE_WITH_RESOLVERS_SHIM, SYMBOL_DISPOSE_SHIM,
    UINT8_FROM_BASE64_SHIM,
};
use crate::split::join;
#[allow(unused_imports)]
use crate::split::joined;
use crate::text::{copy_texts, glue, glue3, glue5, lists};
#[allow(unused_imports)]
use crate::text::texts;

verus! {

/// The event with which a page reports what its engine can run.
pub const PROBE_EVENT: &'static str = "dsh-desktop:webview-probe";

/// The interfaces that can be added to an engine that lacks them: what each is reported as, and
/// the expression whose absence tells.
pub open spec fn shimmed() -> Seq<(Seq<char>, Seq<char>)> {
    seq![
        ("Iterator"@, "Iterator"@),
        ("Promise.try"@, "Promise.try"@),
        ("Promise.withResolvers"@, "Promise.withResolvers"@),
        ("Symbol.dispose"@, "Symbol.dispose"@),
        ("Math.sumPrecise"@, "Math.sumPrecise"@),
        ("Uint8Array.fromBase64"@, "Uint8Array.fromBase64"@),
        ("Object.hasOwn"@, "Object.hasOwn"@),
        ("findLast"@, "[].findLast"@),
    ]
}

/// The interfaces whose absence only costs a feature.
pub open spec fn watched() -> Seq<(Seq<char>, Seq<char>)> {
    seq![("structuredClone"@, "structuredClone"@)]
}

/// What is added for each interface.
pub open spec fn blocks() -> Seq<(Seq<char>, Seq<char>)> {
    seq![
        ("Iterator"@, ITERATOR_SHIM@),
        ("Promise.try"@, PROMISE_TRY_SHIM@),
        ("Promise.withResolvers"@, PROMISE_WITH_RESOLVERS_SHIM@),
        ("Symbol.dispose"@, SYMBOL_DISPOSE_SHIM@),
        ("Math.sumPrecise"@, MATH_SUM_PRECISE_SHIM@),
        ("Uint8Array.fromBase64"@, UINT8_FROM_BASE64_SHIM@),
        ("Object.hasOwn"@, OBJECT_HAS_OWN_SHIM@),
        ("findLast"@, FIND_LAST_SHIM@),
    ]
}

fn pair(a: &str, b: &str) -> (r: (String, String))
    ensures
        r.0@ == a@,
        r.1@ == b@,
{
    (a.to_owned(), b.to_owned())
}

/// The interfaces that can be added to an engine that lacks them.
pub fn shimmed_apis() -> (r: Vec<(String, String)>)
    ensures
        pairs(r@) == shimmed(),
{
    let mut out: Vec<(String, String)> = Vec::new();
    out.push(pair("Iterator", "Iterator"));
    out.push(pair("Promise.try", "Promise.try"));
    out.push(pair("Promise.withResolvers", "Promise.withResolvers"));
    out.push(pair("Symbol.dispose", "Symbol.dispose"));
    out.push(pair("Math.sumPrecise", "Math.sumPrecise"));
    out.push(pair("Uint8Array.fromBase64", "Uint8Array.fromBase64"));
    out.push(pair("Object.hasOwn", "Object.hasOwn"));
    out.push(pair("findLast", "[].findLast"));
    proof {
        assert(pairs(out@) =~= shimmed());
    }
    out
}

/// The interfaces whose absence only costs a feature.
pub fn watched_apis() -> (r: Vec<(String, String)>)
    ensures
        pairs(r@) == watched(),
{
    let mut out: Vec<(String, String)> = Vec::new();
    out.push(pair("structuredClone", "structuredClone"));
    proof {
        assert(pairs(out@) =~= watched());
    }
    out
}

/// What is added for each interface.
pub fn compat_blocks() -> (r: Vec<(String, String)>)
    ensures
        pairs(r@) == blocks(),
{
    let mut out: Vec<(String, String)> = Vec::new();
    out.push(pair("Iterator", ITERATOR_SHIM));
    out.push(pair("Promise.try", PROMISE_TRY_SHIM));
    out.push(pair("Promise.withResolvers", PROMISE_WITH_RESOLVERS_SHIM));
    out.push(pair("Symbol.dispose", SYMBOL_DISPOSE_SHIM));
    out.push(pair("Math.sumPrecise", MATH_SUM_PRECISE_SHIM));
    out.push(pair("Uint8Array.fromBase64", UINT8_FROM_BASE64_SHIM));
    out.push(pair("Object.hasOwn", OBJECT_HAS_OWN_SHIM));
    out.push(pair("findLast", FIND_LAST_SHIM));
    proof {
        assert(pairs(out@) =~= blocks());
    }
    out
}

/// Every interface that is reported as missing can be added, and nothing else is.
pub proof fn every_shimmed_interface_has_its_block(i: int)
    requires
        0 <= i < shimmed().len(),
    ensures
        blocks().len() == shimmed().len(),
        blocks()[i].0 == shimmed()[i].0,
{
}

// ---------------------------------------------------------------------------------------------
// Asking the page
// ---------------------------------------------------------------------------------------------

/// The line that asks for one interface.
pub open spec fn check_line(list: Seq<char>, api: (Seq<char>, Seq<char>)) -> Seq<char> {
    "  try { if (typeof "@ + api.1 + " === \"undefined\") "@ + list + ".push(\""@ + api.0
        + "\"); } catch (error) { "@ + list + ".push(\""@ + api.0 + "\"); }\n"@
}

/// The lines that ask for the interfaces.
pub open spec fn check_lines(list: Seq<char>, apis: Seq<(Seq<char>, Seq<char>)>) -> Seq<char>
    decreases apis.len(),
{
    if apis.len() == 0 {
        Seq::empty()
    } else {
        check_lines(list, apis.drop_last()) + check_line(list, apis.last())
    }
}

fn checks(list: &str, apis: &[(String, String)]) -> (r: String)
    ensures
        r@ == check_lines(list@, pairs(apis@)),
{
    let ghost all = pairs(apis@);
    let mut out = String::new();
    let mut i: usize = 0;
    proof {
        assert(all.take(0) =~= Seq::<(Seq<char>, Seq<char>)>::empty());
        assert(out@ =~= Seq::<char>::empty());
    }
    while i < apis.len()
        invariant
            i <= apis@.len(),
            all == pairs(apis@),
            out@ == check_lines(list@, all.take(i as int)),
        decreases apis@.len() - i,
    {
        proof {
            let next = all.take(i + 1);
            assert(next.drop_last() =~= all.take(i as int));
            assert(next.last() == all[i as int]);
        }
        let mut line = glue5(
            "  try { if (typeof ",
            apis[i].1.as_str(),
            " === \"undefined\") ",
            list,
            ".push(\"",
        );
        line.append(apis[i].0.as_str());
        line.append("\"); } catch (error) { ");
        line.append(list);
        line.append(".push(\"");
        line.append(apis[i].0.as_str());
        line.append("\"); }\n");
        out.append(line.as_str());
        i += 1;
    }
    proof {
        assert(all.take(all.len() as int) =~= all);
    }
    out
}

/// The script that asks a page what its engine can run.
pub fn probe_script() -> (r: String)
    ensures
        r@ == PROBE_HEAD@ + check_lines("missing"@, shimmed()) + check_lines(
            "degraded"@,
            watched(),
        ) + PROBE_MIDDLE@ + PROBE_EVENT@ + PROBE_TAIL@,
{
    let missing = checks("missing", shimmed_apis().as_slice());
    let degraded = checks("degraded", watched_apis().as_slice());
    let mut out = glue5(
        PROBE_HEAD,
        missing.as_str(),
        degraded.as_str(),
        PROBE_MIDDLE,
        PROBE_EVENT,
    );
    out.append(PROBE_TAIL);
    out
}

// ---------------------------------------------------------------------------------------------
// Adding what is missing
// ---------------------------------------------------------------------------------------------

/// The blocks for the interfaces that are missing, in the order of the blocks.
pub open spec fn compat_of(
    all: Seq<(Seq<char>, Seq<char>)>,
    missing: Seq<Seq<char>>,
) -> Seq<char>
    decreases all.len(),
{
    if all.len() == 0 {
        Seq::empty()
    } else {
        let rest = compat_of(all.drop_last(), missing);
        if missing.contains(all.last().0) {
            rest + all.last().1 + "\n"@
        } else {
            rest
        }
    }
}

/// The script that adds what is missing, and nothing else.
pub fn compat_script(missing: &[String]) -> (r: String)
    ensures
        r@ == compat_of(blocks(), texts(missing@)),
{
    let parts = compat_blocks();
    let ghost all = blocks();
    let mut out = String::new();
    let mut i: usize = 0;
    proof {
        assert(all.take(0) =~= Seq::<(Seq<char>, Seq<char>)>::empty());
        assert(out@ =~= Seq::<char>::empty());
    }
    while i < parts.len()
        invariant
            i <= parts@.len(),
            all == pairs(parts@),
            out@ == compat_of(all.take(i as int), texts(missing@)),
        decreases parts@.len() - i,
    {
        proof {
            let next = all.take(i + 1);
            assert(next.drop_last() =~= all.take(i as int));
            assert(next.last() == all[i as int]);
        }
        if lists(missing, parts[i].0.as_str()) {
            out.append(parts[i].1.as_str());
            out.append("\n");
        }
        i += 1;
    }
    proof {
        assert(all.take(all.len() as int) =~= all);
    }
    out
}

/// What a page found missing in its engine.
#[derive(Debug, Clone, PartialEq, Eq)]
pub struct WebviewReport {
    /// Interfaces that can be added.
    pub missing: Vec<String>,
    /// Interfaces whose absence only costs a feature.
    pub degraded: Vec<String>,
    /// Syntax that the engine cannot parse.
    pub syntax: Vec<String>,
    /// The engine's own name.
    pub agent: String,
}

/// Is the interface one that can be added?
pub open spec fn is_shimmed(api: Seq<char>) -> bool {
    exists|i: int| 0 <= i < shimmed().len() && #[trigger] shimmed()[i].0 == api
}

/// Those that cannot be added.
pub open spec fn not_shimmed(apis: Seq<Seq<char>>) -> Seq<Seq<char>>
    decreases apis.len(),
{
    if apis.len() == 0 {
        Seq::empty()
    } else if is_shimmed(apis.last()) {
        not_shimmed(apis.drop_last())
    } else {
        not_shimmed(apis.drop_last()).push(apis.last())
    }
}

/// Those that are not among the known ones.
pub open spec fn not_among(apis: Seq<Seq<char>>, known: Seq<Seq<char>>) -> Seq<Seq<char>>
    decreases apis.len(),
{
    if apis.len() == 0 {
        Seq::empty()
    } else if known.contains(apis.last()) {
        not_among(apis.drop_last(), known)
    } else {
        not_among(apis.drop_last(), known).push(apis.last())
    }
}

fn can_shim(api: &str) -> (r: bool)
    ensures
        r == is_shimmed(api@),
{
    let apis = shimmed_apis();
    let ghost all = shimmed();
    let mut i: usize = 0;
    while i < apis.len()
        invariant
            i <= apis@.len(),
            all == pairs(apis@),
            all == shimmed(),
            forall|j: int| 0 <= j < i ==> #[trigger] all[j].0 != api@,
        decreases apis@.len() - i,
    {
        if crate::text::text_eq(apis[i].0.as_str(), api) {
            proof {
                assert(shimmed()[i as int].0 == api@);
            }
            return true;
        }
        i += 1;
    }
    false
}

/// Everything that a page with this report lacks, with or without what can be added.
pub open spec fn gaps_of(report: WebviewReport, compat: bool) -> Seq<Seq<char>> {
    let fixed = texts(report.syntax@) + not_shimmed(texts(report.missing@));
    if compat {
        fixed
    } else {
        fixed + not_among(texts(report.missing@), fixed)
    }
}

/// The text about a page that cannot run the front end.
pub open spec fn description(
    report: WebviewReport,
    dsh_version: Seq<char>,
    compat: bool,
) -> Seq<char> {
    "系统 WebView 缺少 dsh "@ + dsh_version + " 前端必需的能力："@ + joined(
        gaps_of(report, compat),
        "、"@,
    )
        + "。\n这个版本的界面需要 Safari 16.4（macOS 13.3）或更新的 WebKit，升级系统或安装 Safari 更新后重试。"@
        + (if report.degraded@.len() > 0 {
        "\n另外缺少（只影响部分功能）："@ + joined(texts(report.degraded@), "、"@) + "。"@
    } else {
        Seq::empty()
    }) + (if !compat && report.missing@.len() > 0 {
        "\nconfig.json 里关闭了 webkit_compat，上面这些能力本可以由兼容层补上；需要原生窗口就打开它。"@
    } else {
        Seq::empty()
    }) + (if report.agent@.len() > 0 {
        "\n当前 WebView："@ + report.agent@
    } else {
        Seq::empty()
    })
}

impl WebviewReport {
    /// Missing interfaces that cannot be added.
    pub fn uncovered(&self) -> (r: Vec<String>)
        ensures
            texts(r@) == not_shimmed(texts(self.missing@)),
    {
        let ghost all = texts(self.missing@);
        let mut out: Vec<String> = Vec::new();
        let mut i: usize = 0;
        proof {
            assert(all.take(0) =~= Seq::<Seq<char>>::empty());
            assert(texts(out@) =~= Seq::<Seq<char>>::empty());
        }
        while i < self.missing.len()
            invariant
                i <= self.missing@.len(),
                all == texts(self.missing@),
                texts(out@) == not_shimmed(all.take(i as int)),
            decreases self.missing@.len() - i,
        {
            proof {
                let next = all.take(i + 1);
                assert(next.drop_last() =~= all.take(i as int));
                assert(next.last() == all[i as int]);
            }
            if !can_shim(self.missing[i].as_str()) {
                let ghost before = texts(out@);
                out.push(self.missing[i].clone());
                proof {
                    assert(texts(out@) =~= before.push(all[i as int]));
                }
            }
            i += 1;
        }
        proof {
            assert(all.take(all.len() as int) =~= all);
        }
        out
    }

    /// Everything that the engine lacks. `compat` tells whether what can be added is added.
    pub fn gaps(&self, compat: bool) -> (r: Vec<String>)
        ensures
            texts(r@) == gaps_of(*self, compat),
    {
        let mut out = copy_texts(self.syntax.as_slice());
        let mut uncovered = self.uncovered();
        let ghost fixed = texts(self.syntax@) + not_shimmed(texts(self.missing@));
        let ghost first = out@;
        let ghost second = uncovered@;
        out.append(&mut uncovered);
        proof {
            assert(texts(out@) =~= texts(first) + texts(second));
        }
        if compat {
            return out;
        }
        let ghost all = texts(self.missing@);
        let mut more: Vec<String> = Vec::new();
        let mut i: usize = 0;
        proof {
            assert(all.take(0) =~= Seq::<Seq<char>>::empty());
            assert(texts(more@) =~= Seq::<Seq<char>>::empty());
        }
        while i < self.missing.len()
            invariant
                i <= self.missing@.len(),
                all == texts(self.missing@),
                texts(out@) == fixed,
                texts(more@) == not_among(all.take(i as int), fixed),
            decreases self.missing@.len() - i,
        {
            proof {
                let next = all.take(i + 1);
                assert(next.drop_last() =~= all.take(i as int));
                assert(next.last() == all[i as int]);
            }
            if !lists(out.as_slice(), self.missing[i].as_str()) {
                let ghost before = texts(more@);
                more.push(self.missing[i].clone());
                proof {
                    assert(texts(more@) =~= before.push(all[i as int]));
                }
            }
            i += 1;
        }
        proof {
            assert(all.take(all.len() as int) =~= all);
        }
        let ghost head = out@;
        let ghost rest = more@;
        out.append(&mut more);
        proof {
            assert(texts(out@) =~= texts(head) + texts(rest));
        }
        out
    }

    /// Can the front end run here?
    pub fn supported(&self, compat: bool) -> (r: bool)
        ensures
            r == (gaps_of(*self, compat).len() == 0),
    {
        let gaps = self.gaps(compat);
        proof {
            assert(gaps@.len() == texts(gaps@).len());
        }
        gaps.len() == 0
    }

    /// Is there something to add?
    pub fn needs_compat(&self) -> (r: bool)
        ensures
            r == (self.missing@.len() > 0),
    {
        self.missing.len() > 0
    }

    /// The text about a page that cannot run the front end: what is missing, and what to do.
    pub fn describe(&self, dsh_version: &str, compat: bool) -> (r: String)
        ensures
            r@ == description(*self, dsh_version@, compat),
    {
        let gaps = self.gaps(compat);
        let mut text = glue5(
            "系统 WebView 缺少 dsh ",
            dsh_version,
            " 前端必需的能力：",
            join(gaps.as_slice(), "、").as_str(),
            "。\n这个版本的界面需要 Safari 16.4（macOS 13.3）或更新的 WebKit，升级系统或安装 Safari 更新后重试。",
        );
        let degraded = if self.degraded.len() > 0 {
            glue3(
                "\n另外缺少（只影响部分功能）：",
                join(self.degraded.as_slice(), "、").as_str(),
                "。",
            )
        } else {
            String::new()
        };
        text.append(degraded.as_str());
        let switched = if !compat && self.needs_compat() {
            "\nconfig.json 里关闭了 webkit_compat，上面这些能力本可以由兼容层补上；需要原生窗口就打开它。".to_owned()
        } else {
            String::new()
        };
        text.append(switched.as_str());
        let agent = if self.agent.as_str().is_empty() {
            String::new()
        } else {
            glue("\n当前 WebView：", self.agent.as_str())
        };
        text.append(agent.as_str());
        text
    }

    /// The text for a front end that moves to the system browser.
    pub fn browser_fallback_detail(&self, dsh_version: &str, url: &str, compat: bool) -> (r: String)
        ensures
            r@ == description(*self, dsh_version@, compat) + "\n\n界面已在默认浏览器中打开：\n"@ + url@
                + "\n\n这个窗口是 harness 的管理窗口（更新与退出清理都在这里）：在浏览器里操作时请不要关闭它，关闭它会停止 harness。"@,
    {
        let mut text = self.describe(dsh_version, compat);
        text.append("\n\n界面已在默认浏览器中打开：\n");
        text.append(url);
        text.append(
            "\n\n这个窗口是 harness 的管理窗口（更新与退出清理都在这里）：在浏览器里操作时请不要关闭它，关闭它会停止 harness。",
        );
        text
    }
}

/// The line about a report that could not be read.
pub open spec fn unreadable_report(payload: Seq<char>) -> Seq<char> {
    "无法解析 WebView 能力探测的上报："@ + payload
}

/// Keeps what a page reported. A report that cannot be read leaves the earlier one, and gives the
/// line for the log.
pub fn record_report(
    slot: &mut Option<WebviewReport>,
    parsed: Option<WebviewReport>,
    payload: &str,
) -> (r: Option<String>)
    ensures
        (match parsed {
            Some(_) => *final(slot) == parsed && r is None,
            None => *final(slot) == *old(slot) && (r matches Some(line) && line@
                == unreadable_report(payload@)),
        }),
{
    match parsed {
        Some(report) => {
            *slot = Some(report);
            None
        },
        None => Some(glue("无法解析 WebView 能力探测的上报：", payload)),
    }
}

/// The report that says that the front end cannot run. Without a report nothing says so.
pub fn unsupported_webview(report: Option<WebviewReport>, compat: bool) -> (r: Option<
    WebviewReport,
>)
    ensures
        r == (match report {
            Some(found) => if gaps_of(found, compat).len() > 0 {
                report
            } else {
                None
            },
            None => None,
        }),
{
    match report {
        Some(found) => if found.supported(compat) {
            None
        } else {
            Some(found)
        },
        None => None,
    }
}

/// The script for the page, where a report says that something is to be added.
pub fn needed_compat_script(report: Option<&WebviewReport>) -> (r: Option<String>)
    ensures
        (match report {
            Some(found) => if found.missing@.len() > 0 {
                r matches Some(script) && script@ == compat_of(blocks(), texts(found.missing@))
            } else {
                r is None
            },
            None => r is None,
        }),
{
    match report {
        Some(found) => if found.needs_compat() {
            Some(compat_script(found.missing.as_slice()))
        } else {
            None
        },
        None => None,
    }
}

proof fn lemma_not_shimmed(apis: Seq<Seq<char>>)
    ensures
        not_shimmed(apis).len() == 0 <==> (forall|i: int|
            0 <= i < apis.len() ==> is_shimmed(#[trigger] apis[i])),
    decreases apis.len(),
{
    if apis.len() > 0 {
        let rest = apis.drop_last();
        lemma_not_shimmed(rest);
        if not_shimmed(apis).len() == 0 {
            assert forall|i: int| 0 <= i < apis.len() implies is_shimmed(#[trigger] apis[i]) by {
                if i < rest.len() {
                    assert(rest[i] == apis[i]);
                }
            }
        }
        if forall|i: int| 0 <= i < apis.len() ==> is_shimmed(#[trigger] apis[i]) {
            assert(is_shimmed(apis[apis.len() - 1]));
            assert forall|i: int| 0 <= i < rest.len() implies is_shimmed(#[trigger] rest[i]) by {
                assert(rest[i] == apis[i]);
            }
        }
    }
}

proof fn lemma_not_among(apis: Seq<Seq<char>>, known: Seq<Seq<char>>)
    requires
        known.len() == 0,
    ensures
        not_among(apis, known) == apis,
    decreases apis.len(),
{
    if apis.len() > 0 {
        lemma_not_among(apis.drop_last(), known);
        assert(apis =~= apis.drop_last().push(apis.last()));
    }
}

/// The front end runs where the engine can parse it and everything that it lacks can be added;
/// where nothing is to be added, it may lack nothing. What only costs a feature never counts.
pub proof fn what_can_be_added_does_not_block(report: WebviewReport)
    ensures
        gaps_of(report, true).len() == 0 <==> (report.syntax@.len() == 0 && forall|i: int|
            0 <= i < report.missing@.len() ==> is_shimmed(#[trigger] texts(report.missing@)[i])),
        gaps_of(report, false).len() == 0 <==> (report.syntax@.len() == 0
            && report.missing@.len() == 0),
        gaps_of(report, false).len() == 0 ==> gaps_of(report, true).len() == 0,
{
    let missing = texts(report.missing@);
    lemma_not_shimmed(missing);
    let fixed = texts(report.syntax@) + not_shimmed(missing);
    if fixed.len() == 0 {
        lemma_not_among(missing, fixed);
    }
}

/// Nothing is added for an engine that lacks nothing.
pub proof fn nothing_missing_adds_nothing(all: Seq<(Seq<char>, Seq<char>)>)
    ensures
        compat_of(all, Seq::empty()) == Seq::<char>::empty(),
    decreases all.len(),
{
    if all.len() > 0 {
        nothing_missing_adds_nothing(all.drop_last());
    }
}

/// These eight interfaces can be added, and no others.
pub proof fn what_can_be_added(api: Seq<char>)
    ensures
        is_shimmed(api) <==> {
            ||| api == "Iterator"@
            ||| api == "Promise.try"@
            ||| api == "Promise.withResolvers"@
            ||| api == "Symbol.dispose"@
            ||| api == "Math.sumPrecise"@
            ||| api == "Uint8Array.fromBase64"@
            ||| api == "Object.hasOwn"@
            ||| api == "findLast"@
        },
{
    let all = shimmed();
    assert(all[0].0 == "Iterator"@ && all[1].0 == "Promise.try"@);
    assert(all[2].0 == "Promise.withResolvers"@ && all[3].0 == "Symbol.dispose"@);
    assert(all[4].0 == "Math.sumPrecise"@ && all[5].0 == "Uint8Array.fromBase64"@);
    assert(all[6].0 == "Object.hasOwn"@ && all[7].0 == "findLast"@);
    if is_shimmed(api) {
        let i = choose|i: int| 0 <= i < all.len() && #[trigger] all[i].0 == api;
        assert(0 <= i < 8);
    }
}

proof fn lemma_not_shimmed_holds(apis: Seq<Seq<char>>, api: Seq<char>)
    ensures
        not_shimmed(apis).contains(api) <==> apis.contains(api) && !is_shimmed(api),
    decreases apis.len(),
{
    if apis.len() > 0 {
        let rest = apis.drop_last();
        lemma_not_shimmed_holds(rest, api);
        lemma_push_holds(rest, apis.last(), api);
        assert(rest.push(apis.last()) =~= apis);
        lemma_push_holds(not_shimmed(rest), apis.last(), api);
    }
}

proof fn lemma_push_holds(all: Seq<Seq<char>>, last: Seq<char>, x: Seq<char>)
    ensures
        all.push(last).contains(x) <==> all.contains(x) || last == x,
{
    let more = all.push(last);
    assert(more[all.len() as int] == last);
    if all.contains(x) {
        let i = choose|i: int| 0 <= i < all.len() && all[i] == x;
        assert(more[i] == x);
    }
    if more.contains(x) && last != x {
        let i = choose|i: int| 0 <= i < more.len() && more[i] == x;
        assert(all[i] == x);
    }
}

proof fn lemma_not_among_holds(apis: Seq<Seq<char>>, known: Seq<Seq<char>>, api: Seq<char>)
    ensures
        not_among(apis, known).contains(api) <==> apis.contains(api) && !known.contains(api),
    decreases apis.len(),
{
    if apis.len() > 0 {
        let rest = apis.drop_last();
        lemma_not_among_holds(rest, known, api);
        lemma_push_holds(rest, apis.last(), api);
        assert(rest.push(apis.last()) =~= apis);
        lemma_push_holds(not_among(rest, known), apis.last(), api);
    }
}

proof fn lemma_concat_holds(a: Seq<Seq<char>>, b: Seq<Seq<char>>, x: Seq<char>)
    ensures
        (a + b).contains(x) <==> a.contains(x) || b.contains(x),
{
    let all = a + b;
    if a.contains(x) {
        let i = choose|i: int| 0 <= i < a.len() && a[i] == x;
        assert(all[i] == x);
    }
    if b.contains(x) {
        let i = choose|i: int| 0 <= i < b.len() && b[i] == x;
        assert(all[a.len() + i] == x);
    }
    if all.contains(x) {
        let i = choose|i: int| 0 <= i < all.len() && all[i] == x;
        if i < a.len() {
            assert(a[i] == x);
        } else {
            assert(b[i - a.len()] == x);
        }
    }
}

/// A page lacks the syntax that it reports, and the interfaces: those that cannot be added, and
/// where nothing is added all of them.
pub proof fn what_a_page_lacks(report: WebviewReport, api: Seq<char>)
    ensures
        gaps_of(report, true).contains(api) <==> texts(report.syntax@).contains(api) || (texts(
            report.missing@,
        ).contains(api) && !is_shimmed(api)),
        gaps_of(report, false).contains(api) <==> texts(report.syntax@).contains(api) || texts(
            report.missing@,
        ).contains(api),
{
    let syntax = texts(report.syntax@);
    let missing = texts(report.missing@);
    let fixed = syntax + not_shimmed(missing);
    lemma_not_shimmed_holds(missing, api);
    lemma_concat_holds(syntax, not_shimmed(missing), api);
    lemma_not_among_holds(missing, fixed, api);
    lemma_concat_holds(fixed, not_among(missing, fixed), api);
}

/// For each interface that is missing its block is in the script, in the order of the blocks; and
/// for one that is not missing there is none.
pub proof fn each_missing_interface_is_added(
    all: Seq<(Seq<char>, Seq<char>)>,
    block: (Seq<char>, Seq<char>),
    missing: Seq<Seq<char>>,
)
    ensures
        missing.contains(block.0) ==> compat_of(all.push(block), missing) == compat_of(all, missing)
            + block.1 + seq!['\n'],
        !missing.contains(block.0) ==> compat_of(all.push(block), missing) == compat_of(
            all,
            missing,
        ),
{
    reveal_strlit("\n");
    assert("\n"@ =~= seq!['\n']);
    assert(all.push(block).drop_last() =~= all);
}

/// Each interface is tested on a line of its own: what it evaluates is the expression, and what is
/// listed where that is not there, or cannot be evaluated, is its name.
pub proof fn each_interface_is_tested(
    list: Seq<char>,
    apis: Seq<(Seq<char>, Seq<char>)>,
    name: Seq<char>,
    expression: Seq<char>,
)
    ensures
        check_lines(list, Seq::empty()) == Seq::<char>::empty(),
        check_lines(list, apis.push((name, expression))) == check_lines(list, apis)
            + ("  try { if (typeof "@ + expression + " === \"undefined\") "@ + list + ".push(\""@
            + name + "\"); } catch (error) { "@ + list + ".push(\""@ + name + "\"); }\n"@),
{
    assert(apis.push((name, expression)).drop_last() =~= apis);
}

/// What is said of a page that cannot be shown names the version and everything that it lacks,
/// and the engine where that is known.
pub proof fn what_is_said_of_a_page(
    report: WebviewReport,
    dsh_version: Seq<char>,
    compat: bool,
    payload: Seq<char>,
)
    ensures
        crate::text::mentions(description(report, dsh_version, compat), dsh_version),
        crate::text::mentions(
            description(report, dsh_version, compat),
            joined(gaps_of(report, compat), "、"@),
        ),
        report.degraded@.len() > 0 ==> crate::text::mentions(
            description(report, dsh_version, compat),
            joined(texts(report.degraded@), "、"@),
        ),
        report.agent@.len() > 0 ==> crate::text::mentions(
            description(report, dsh_version, compat),
            report.agent@,
        ),
        crate::text::mentions(unreadable_report(payload), payload),
{
    crate::text::lemma_mentions("无法解析 WebView 能力探测的上报："@, payload, Seq::empty());
    let told = description(report, dsh_version, compat);
    let none = Seq::<char>::empty();
    let a = "系统 WebView 缺少 dsh "@;
    let b = " 前端必需的能力："@;
    let gaps = joined(gaps_of(report, compat), "、"@);
    let c = "。\n这个版本的界面需要 Safari 16.4（macOS 13.3）或更新的 WebKit，升级系统或安装 Safari 更新后重试。"@;
    let lesser = joined(texts(report.degraded@), "、"@);
    let d = if report.degraded@.len() > 0 {
        "\n另外缺少（只影响部分功能）："@ + lesser + "。"@
    } else {
        none
    };
    let e = if !compat && report.missing@.len() > 0 {
        "\nconfig.json 里关闭了 webkit_compat，上面这些能力本可以由兼容层补上；需要原生窗口就打开它。"@
    } else {
        none
    };
    let f = if report.agent@.len() > 0 {
        "\n当前 WebView："@ + report.agent@
    } else {
        none
    };
    assert(told =~= a + dsh_version + (b + gaps + c + d + e + f));
    assert(told =~= (a + dsh_version + b) + gaps + (c + d + e + f));
    if report.degraded@.len() > 0 {
        assert(told =~= (a + dsh_version + b + gaps + c + "\n另外缺少（只影响部分功能）："@) + lesser + ("。"@ + e
            + f));
    }
    if report.agent@.len() > 0 {
        assert(told =~= (a + dsh_version + b + gaps + c + d + e + "\n当前 WebView："@) + report.agent@
            + none);
    }
}

} // verus!

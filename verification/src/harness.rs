//! The supervised `dsh web`: its command line, its output, its startup URL, and how to tell it
//! from another server on the port.
use vstd::prelude::*;

use crate::bytes::{byte_count, lossy, part, position_of_byte, Captured};
#[allow(unused_imports)]
use crate::bytes::{
    byte_len, byte_position, lemma_byte_len_concat, lemma_byte_position, utf8_lossy,
};
use crate::number::{decimal_text, parse_u32};
#[allow(unused_imports)]
use crate::number::{decimal, u32_in};
use crate::paths::{is_absolute, with_extension};
#[allow(unused_imports)]
use crate::paths::{path_is_absolute, path_with_extension};
use crate::search::{contains, find, starts_with};
#[allow(unused_imports)]
use crate::search::{begins, first_at, first_place, holds};
use crate::split::{join, position_of, split_text, text_lines, text_words};
#[allow(unused_imports)]
use crate::split::{
    a_part_is_whole, joined, lemma_position, lines, parts_follow_each_other, position, split, words,
};
use crate::text::{chars_of, lists, opt_is, piece, string_of, text_eq, trim_text};
#[allow(unused_imports)]
use crate::text::{opt_view, texts, trimmed};

pub use crate::redaction::redact;
#[allow(unused_imports)]
use crate::redaction::redacted;

verus! {

/// What the CLI prints in front of its startup URL.
pub const URL_PREFIX: &'static str = "dsh web:";

/// Lines that the ring keeps.
pub const RING_CAPACITY: usize = 200;

/// Bytes that the ring keeps across all its lines.
pub const RING_BYTES: usize = 1048576;

/// The longest line that is kept whole, in bytes.
pub const LINE_LIMIT_BYTES: usize = 262144;

/// What a line that was cut ends with, so that it is never read as a whole one.
pub const TRUNCATION_NOTE: &'static str = " …[truncated: line exceeded 256 KiB]";

/// The size at which the log is rotated, in bytes.
pub const LOG_LIMIT_BYTES: u64 = 5242880;

/// Rotated generations of the log that are kept.
pub const LOG_BACKUPS: usize = 3;

/// How much of a response the probe keeps before it gives up on it, in bytes.
pub const PROBE_RESPONSE_LIMIT: usize = 65536;

/// The sentence that only the CLI's auth fence carries.
pub const AUTH_FENCE: &'static str = "dsh web authentication required";

// ---------------------------------------------------------------------------------------------
// The last lines of output
// ---------------------------------------------------------------------------------------------

/// The last lines of the Harness's output, bounded in number and in bytes.
///
/// The lines arrive redacted.
#[derive(Debug, Clone)]
pub struct Ring {
    lines: Vec<String>,
    bytes: usize,
}

/// The bytes that the lines take, each with a line end.
pub open spec fn total_bytes(lines: Seq<Seq<char>>) -> nat
    decreases lines.len(),
{
    if lines.len() == 0 {
        0
    } else {
        byte_len(lines[0]) + 1 + total_bytes(lines.subrange(1, lines.len() as int))
    }
}

/// Is there room for one more line behind these?
pub open spec fn has_room(lines: Seq<Seq<char>>, line: Seq<char>) -> bool {
    lines.len() < RING_CAPACITY && total_bytes(lines) + byte_len(line) + 1 <= RING_BYTES
}

/// The newest of the lines that leave room for one more: the oldest go first.
pub open spec fn making_room(lines: Seq<Seq<char>>, line: Seq<char>) -> Seq<Seq<char>>
    decreases lines.len(),
{
    if lines.len() == 0 || has_room(lines, line) {
        lines
    } else {
        making_room(lines.subrange(1, lines.len() as int), line)
    }
}

/// What the ring holds after one more line. A line over the byte budget is not kept.
pub open spec fn ring_with(lines: Seq<Seq<char>>, line: Seq<char>) -> Seq<Seq<char>> {
    if byte_len(line) > RING_BYTES {
        lines
    } else {
        making_room(lines, line).push(line)
    }
}

proof fn lemma_total_push(lines: Seq<Seq<char>>, line: Seq<char>)
    ensures
        total_bytes(lines.push(line)) == total_bytes(lines) + byte_len(line) + 1,
    decreases lines.len(),
{
    let all = lines.push(line);
    if lines.len() == 0 {
        assert(all.subrange(1, all.len() as int) =~= Seq::<Seq<char>>::empty());
        assert(total_bytes(all.subrange(1, all.len() as int)) == 0);
    } else {
        let rest = lines.subrange(1, lines.len() as int);
        assert(all.subrange(1, all.len() as int) =~= rest.push(line));
        lemma_total_push(rest, line);
    }
}

/// Lines in one block take the bytes of each with a line end, but for the last line end.
proof fn lemma_block_bytes(lines: Seq<Seq<char>>)
    ensures
        byte_len(joined(lines, "\n"@)) == (if lines.len() == 0 {
            0
        } else {
            total_bytes(lines) - 1
        }),
    decreases lines.len(),
{
    if lines.len() == 0 {
        assert(byte_len(Seq::empty()) == 0);
    } else if lines.len() == 1 {
        assert(lines.subrange(1, 1) =~= Seq::<Seq<char>>::empty());
        assert(total_bytes(lines.subrange(1, 1)) == 0);
    } else {
        let before = lines.drop_last();
        lemma_block_bytes(before);
        lemma_total_push(before, lines.last());
        assert(before.push(lines.last()) =~= lines);
        lemma_byte_len_concat(joined(before, "\n"@) + "\n"@, lines.last());
        lemma_byte_len_concat(joined(before, "\n"@), "\n"@);
        reveal_strlit("\n");
        assert("\n"@ =~= seq!['\n']);
        assert("\n"@.drop_first() =~= Seq::<char>::empty());
        assert(byte_len("\n"@.drop_first()) == 0);
        assert(byte_len("\n"@) == 1);
    }
}

impl Ring {
    /// The lines that the ring holds, oldest first.
    pub closed spec fn held(&self) -> Seq<Seq<char>> {
        texts(self.lines@)
    }

    /// The ring counts its bytes right, and both bounds hold. One line alone may take the whole
    /// budget and its line end on top.
    pub closed spec fn wf(&self) -> bool {
        &&& self.bytes == total_bytes(texts(self.lines@))
        &&& self.lines@.len() <= RING_CAPACITY
        &&& self.bytes <= RING_BYTES + 1
    }

    /// An empty ring.
    pub fn new() -> (r: Ring)
        ensures
            r.wf(),
            r.held() == Seq::<Seq<char>>::empty(),
    {
        let r = Ring { lines: Vec::new(), bytes: 0 };
        proof {
            assert(texts(r.lines@) =~= Seq::<Seq<char>>::empty());
        }
        r
    }

    /// Keeps one redacted line and drops the oldest until both bounds hold.
    pub fn push_redacted(&mut self, line: &str)
        requires
            old(self).wf(),
        ensures
            final(self).wf(),
            final(self).held() == ring_with(old(self).held(), line@),
    {
        let size: usize = byte_count(line);
        if size > RING_BYTES {
            return;
        }
        let ghost before = self.held();
        while self.lines.len() > 0 && (self.lines.len() >= RING_CAPACITY || self.bytes + size + 1
            > RING_BYTES)
            invariant
                self.wf(),
                size == byte_len(line@),
                size <= RING_BYTES,
                making_room(self.held(), line@) == making_room(before, line@),
            decreases self.lines@.len(),
        {
            let ghost held = self.held();
            let old_line = self.lines.remove(0);
            let gone: usize = byte_count(old_line.as_str());
            proof {
                assert(held[0] == old_line@);
                assert(texts(self.lines@) =~= held.subrange(1, held.len() as int));
            }
            self.bytes = self.bytes - (gone + 1);
        }
        let ghost room = self.held();
        self.bytes = self.bytes + size + 1;
        self.lines.push(string_of(&chars_of(line)));
        proof {
            assert(texts(self.lines@) =~= room.push(line@));
            lemma_total_push(room, line@);
        }
    }

    /// The kept lines as one block, which never takes more than [`RING_BYTES`].
    pub fn tail(&self) -> (r: String)
        requires
            self.wf(),
        ensures
            r@ == joined(self.held(), "\n"@),
            byte_len(r@) <= RING_BYTES,
    {
        proof {
            lemma_block_bytes(texts(self.lines@));
        }
        join(self.lines.as_slice(), "\n")
    }
}

impl Default for Ring {
    fn default() -> (r: Ring)
        ensures
            r.wf(),
            r.held() == Seq::<Seq<char>>::empty(),
    {
        Ring::new()
    }
}

/// The ring drops a line only where it has to: one line more would break a bound.
pub proof fn the_ring_keeps_what_fits(lines: Seq<Seq<char>>, line: Seq<char>)
    ensures
        has_room(lines, line) ==> ring_with(lines, line) == lines.push(line),
        byte_len(line) <= RING_BYTES ==> ring_with(lines, line).last() == line,
{
}

/// What the ring keeps are the newest lines, in their order.
pub proof fn the_ring_keeps_the_newest(lines: Seq<Seq<char>>, line: Seq<char>)
    ensures
        ({
            let kept = making_room(lines, line);
            &&& kept.len() <= lines.len()
            &&& kept == lines.subrange(lines.len() - kept.len(), lines.len() as int)
        }),
    decreases lines.len(),
{
    let kept = making_room(lines, line);
    if lines.len() == 0 || has_room(lines, line) {
        assert(lines.subrange(0, lines.len() as int) =~= lines);
    } else {
        let rest = lines.subrange(1, lines.len() as int);
        the_ring_keeps_the_newest(rest, line);
        assert(kept =~= lines.subrange(lines.len() - kept.len(), lines.len() as int));
    }
}

// ---------------------------------------------------------------------------------------------
// Reading lines
// ---------------------------------------------------------------------------------------------

/// One line while it is read from a pipe in pieces.
///
/// A line may come without an end, so only its first [`LINE_LIMIT_BYTES`] bytes are kept; the
/// rest is read and dropped.
#[derive(Debug, Clone)]
pub struct PendingLine {
    pub captured: Captured,
    pub saw_line: bool,
}

/// What became of one piece.
#[derive(Debug, Clone, Copy, PartialEq, Eq, Structural)]
pub struct Fed {
    /// Bytes of the piece that are used up.
    pub consumed: usize,
    /// The line is at its end.
    pub ended: bool,
}

impl PendingLine {
    /// Is this what was kept of a line whose bytes so far are `seen`?
    pub open spec fn of(self, seen: Seq<u8>) -> bool {
        self.captured.of(seen, LINE_LIMIT_BYTES as nat)
    }

    /// A line of which nothing was read yet.
    pub fn new() -> (r: PendingLine)
        ensures
            r.of(Seq::empty()),
            !r.saw_line,
    {
        PendingLine { captured: Captured::empty(), saw_line: false }
    }

    /// Takes the next piece of the stream up to the end of the line; an empty piece is the end
    /// of the stream.
    pub fn feed(&mut self, available: &[u8]) -> (r: Fed)
        ensures
            ({
                let p = byte_position(available@, 10);
                &&& r.ended == (p < available@.len() || available@.len() == 0)
                &&& r.consumed == (if p < available@.len() {
                    p + 1
                } else {
                    available@.len() as int
                })
                &&& final(self).saw_line == (old(self).saw_line || available@.len() > 0)
                &&& forall|seen: Seq<u8>|
                    old(self).of(seen) ==> #[trigger] final(self).of(seen + available@.take(p))
            }),
    {
        let p: usize = position_of_byte(available, 10);
        let head = part(available, 0, p);
        proof {
            lemma_byte_position(available@, 10);
            assert(head@ =~= available@.take(p as int));
        }
        self.captured.keep(&head, LINE_LIMIT_BYTES);
        if available.len() > 0 {
            self.saw_line = true;
        }
        if p < available.len() {
            Fed { consumed: p + 1, ended: true }
        } else {
            Fed { consumed: available.len(), ended: available.len() == 0 }
        }
    }

    /// The line as text; none where the stream ended before it began.
    pub fn finish(&self) -> (r: Option<String>)
        ensures
            opt_view(r) == (if self.saw_line {
                Some(line_text(utf8_lossy(self.captured.bytes@), self.captured.truncated))
            } else {
                None
            }),
    {
        if !self.saw_line {
            return None;
        }
        Some(finish_line(lossy(self.captured.bytes.as_slice()).as_str(), self.captured.truncated))
    }
}

/// A line without the carriage return that ends it, and with the note where it was cut.
pub open spec fn line_text(text: Seq<char>, truncated: bool) -> Seq<char> {
    let line = crate::split::without_cr(text);
    if truncated {
        line + TRUNCATION_NOTE@
    } else {
        line
    }
}

/// Removes the carriage return that ends a line and adds the note where it was cut.
pub fn finish_line(text: &str, truncated: bool) -> (r: String)
    ensures
        r@ == line_text(text@, truncated),
{
    let s = chars_of(text);
    let cut: Vec<char> = if s.len() > 0 && s[s.len() - 1] == '\r' {
        let shorter = piece(&s, 0, s.len() - 1);
        proof {
            assert(shorter@ =~= s@.drop_last());
        }
        shorter
    } else {
        s
    };
    let mut out = string_of(&cut);
    if truncated {
        out.append(TRUNCATION_NOTE);
    }
    out
}

// ---------------------------------------------------------------------------------------------
// The startup URL
// ---------------------------------------------------------------------------------------------

/// A parsed URL, as far as the shell reads it.
#[derive(Debug, Clone, PartialEq, Eq)]
pub struct WebUrl {
    /// The URL in its normal form.
    pub text: String,
    pub scheme: String,
    pub host: Option<String>,
    /// The port that the URL names, where it is not the default one of the scheme.
    pub port: Option<u16>,
    pub query: Option<String>,
}

/// A parsed URL as texts and numbers.
pub struct UrlModel {
    pub text: Seq<char>,
    pub scheme: Seq<char>,
    pub host: Option<Seq<char>>,
    pub port: Option<u16>,
    pub query: Option<Seq<char>>,
}

impl View for WebUrl {
    type V = UrlModel;

    open spec fn view(&self) -> UrlModel {
        UrlModel {
            text: self.text@,
            scheme: self.scheme@,
            host: opt_view(self.host),
            port: self.port,
            query: opt_view(self.query),
        }
    }
}

/// An optional URL as texts and numbers.
pub open spec fn opt_url(url: Option<WebUrl>) -> Option<UrlModel> {
    match url {
        Some(u) => Some(u@),
        None => None,
    }
}

/// What reading a URL gave, as texts and numbers.
pub open spec fn url_result(url: Result<WebUrl, String>) -> Result<UrlModel, Seq<char>> {
    match url {
        Ok(u) => Ok(u@),
        Err(reason) => Err(reason@),
    }
}

/// The URL that was read, if it was one.
pub open spec fn read_url(url: Result<UrlModel, Seq<char>>) -> Option<UrlModel> {
    match url {
        Ok(u) => Some(u),
        Err(_) => None,
    }
}

/// What `url::Url::parse` makes of a text: its serialization, `scheme()`, `host_str()`, `port()`
/// and `query()`; the message of its error where the text is no URL.
pub uninterp spec fn url_parsed(text: Seq<char>) -> Result<UrlModel, Seq<char>>;

/// `url::Url::parse` and the accessors that [`url_parsed`] names. The result depends on the text
/// alone.
#[verifier::external_body]
pub(crate) fn parse_url(text: &str) -> (r: Result<WebUrl, String>)
    ensures
        url_result(r) == url_parsed(text@),
{
    let url = url::Url::parse(text).map_err(|error| error.to_string())?;
    Ok(
        WebUrl {
            text: url.as_str().to_string(),
            scheme: url.scheme().to_string(),
            host: url.host_str().map(str::to_string),
            port: url.port(),
            query: url.query().map(str::to_string),
        },
    )
}

/// Is a part of a query the parameter `token`: is that what stands before its `=`?
pub open spec fn names_token(part: Seq<char>) -> bool {
    part.subrange(0, position(part, '=')) == "token"@
}

/// Is one of the parts of the query, between `&`, the parameter `token`?
pub open spec fn carries_token(query: Seq<char>) -> bool {
    exists|i: int| 0 <= i < split(query, '&').len() && names_token(#[trigger] split(query, '&')[i])
}

/// Is this a startup URL: loopback `http` whose query carries the launch token?
pub open spec fn is_startup(url: UrlModel) -> bool {
    &&& url.scheme == "http"@
    &&& url.host == Some("127.0.0.1"@)
    &&& (url.query matches Some(query) && carries_token(query))
}

/// The URL, if it is a startup URL.
pub open spec fn as_startup(url: Option<UrlModel>) -> Option<UrlModel> {
    match url {
        Some(u) => if is_startup(u) {
            Some(u)
        } else {
            None
        },
        None => None,
    }
}

/// The startup URL that a word is, if it is one.
pub open spec fn startup_in(word: Seq<char>) -> Option<UrlModel> {
    as_startup(read_url(url_parsed(word)))
}

/// The first startup URL among the words.
pub open spec fn first_startup(words: Seq<Seq<char>>) -> Option<UrlModel>
    decreases words.len(),
{
    if words.len() == 0 {
        None
    } else if startup_in(words[0]) is Some {
        startup_in(words[0])
    } else {
        first_startup(words.subrange(1, words.len() as int))
    }
}

/// The startup URL that a line announces: the first word behind the documented prefix, or else
/// the first word of the line that is one. The LAN URL that may follow is never taken, as its
/// host is not loopback.
pub open spec fn announced(line: Seq<char>) -> Option<UrlModel> {
    let behind = match first_place(line, URL_PREFIX@) {
        Some(at) => words(line.subrange(at + URL_PREFIX@.len(), line.len() as int)),
        None => Seq::empty(),
    };
    if behind.len() > 0 && startup_in(behind[0]) is Some {
        startup_in(behind[0])
    } else {
        first_startup(words(line))
    }
}

/// Does the query carry the launch token?
fn has_token(query: &str) -> (r: bool)
    ensures
        r == carries_token(query@),
{
    let parts = split_text(query, '&');
    let ghost all = split(query@, '&');
    let mut i: usize = 0;
    while i < parts.len()
        invariant
            i <= parts@.len(),
            texts(parts@) == all,
            all == split(query@, '&'),
            forall|j: int| 0 <= j < i ==> !names_token(#[trigger] all[j]),
        decreases parts@.len() - i,
    {
        let part = chars_of(parts[i].as_str());
        proof {
            assert(all[i as int] == part@);
        }
        let name = string_of(&piece(&part, 0, position_of(&part, '=')));
        if text_eq(name.as_str(), "token") {
            return true;
        }
        i += 1;
    }
    false
}

/// Keeps a URL only if it is a startup URL.
pub fn accept_startup(url: Option<WebUrl>) -> (r: Option<WebUrl>)
    ensures
        opt_url(r) == as_startup(opt_url(url)),
{
    match url {
        Some(u) => {
            let token = match &u.query {
                Some(query) => has_token(query.as_str()),
                None => false,
            };
            if token && text_eq(u.scheme.as_str(), "http") && opt_is(&u.host, "127.0.0.1") {
                Some(u)
            } else {
                None
            }
        },
        None => None,
    }
}

/// The startup URL that a word is, if it is one.
pub fn startup_url(word: &str) -> (r: Option<WebUrl>)
    ensures
        opt_url(r) == startup_in(word@),
{
    match parse_url(word) {
        Ok(url) => accept_startup(Some(url)),
        Err(_) => None,
    }
}

/// The startup URL that a line of the CLI's output announces.
pub fn parse_dsh_url(line: &str) -> (r: Option<WebUrl>)
    ensures
        opt_url(r) == announced(line@),
{
    let s = chars_of(line);
    let prefix = chars_of(URL_PREFIX);
    match find(&s, &prefix) {
        Some(at) => {
            let rest = string_of(&piece(&s, at + prefix.len(), s.len()));
            let behind = text_words(rest.as_str());
            proof {
                assert(behind@.len() == texts(behind@).len());
            }
            if behind.len() > 0 {
                proof {
                    assert(texts(behind@)[0] == behind@[0]@);
                }
                let found = startup_url(behind[0].as_str());
                if found.is_some() {
                    return found;
                }
            }
        },
        None => {},
    }
    let all = text_words(line);
    let ghost whole = words(line@);
    let mut i: usize = 0;
    proof {
        assert(whole.subrange(0, whole.len() as int) =~= whole);
    }
    while i < all.len()
        invariant
            i <= all@.len(),
            texts(all@) == whole,
            first_startup(whole.subrange(i as int, whole.len() as int)) == first_startup(whole),
            announced(line@) == first_startup(whole),
        decreases all@.len() - i,
    {
        let found = startup_url(all[i].as_str());
        proof {
            let rest = whole.subrange(i as int, whole.len() as int);
            assert(rest[0] == all@[i as int]@);
            assert(rest.subrange(1, rest.len() as int) =~= whole.subrange(
                i + 1,
                whole.len() as int,
            ));
        }
        if found.is_some() {
            return found;
        }
        i += 1;
    }
    None
}

proof fn lemma_first_startup(words: Seq<Seq<char>>)
    ensures
        first_startup(words) matches Some(url) ==> is_startup(url),
    decreases words.len(),
{
    if words.len() > 0 && startup_in(words[0]) is None {
        lemma_first_startup(words.subrange(1, words.len() as int));
    }
}

/// Why no startup URL came.
#[derive(Debug, Clone, Copy, PartialEq, Eq, Structural)]
pub enum NoUrl {
    /// The time was up.
    Late,
    /// The output ended.
    Ended,
}

/// What the wait for the startup URL gives; `timeout_secs` is how long it lasted at most.
pub fn wait_for_url(received: Result<WebUrl, NoUrl>, timeout_secs: u64) -> (r: Result<
    WebUrl,
    String,
>)
    ensures
        (match received {
            Ok(url) => r == Ok::<WebUrl, String>(url),
            Err(NoUrl::Late) => r is Err && r->Err_0@ == "等待启动 URL 超时（"@ + decimal(
                timeout_secs as nat,
            )
                + "s）。常见原因：profile 的 printUrl 被关掉、Harness 启动失败、首次初始化较慢。"@,
            Err(NoUrl::Ended) => r is Err && r->Err_0@ == "Harness 输出已结束（进程已退出）。"@,
        }),
{
    match received {
        Ok(url) => Ok(url),
        Err(NoUrl::Late) => {
            let mut reason = "等待启动 URL 超时（".to_owned();
            reason.append(decimal_text(timeout_secs).as_str());
            reason.append(
                "s）。常见原因：profile 的 printUrl 被关掉、Harness 启动失败、首次初始化较慢。",
            );
            Err(reason)
        },
        Err(NoUrl::Ended) => Err("Harness 输出已结束（进程已退出）。".to_owned()),
    }
}

/// Whatever a line says, a URL taken from it is loopback `http` and carries the launch token.
pub proof fn an_announced_url_is_loopback(line: Seq<char>)
    ensures
        announced(line) matches Some(url) ==> is_startup(url),
{
    lemma_first_startup(words(line));
}

// ---------------------------------------------------------------------------------------------
// Who is on the port
// ---------------------------------------------------------------------------------------------

/// What answers on a port.
#[derive(Debug, Clone, Copy, PartialEq, Eq, Structural)]
pub enum Probe {
    /// A Harness answered its auth fence.
    Harness,
    /// Something else owns the port.
    Other,
    /// Nothing is listening.
    Closed,
}

/// Does the status line say 401?
pub open spec fn says_unauthorized(status: Seq<char>) -> bool {
    begins(status, "HTTP/1.1 401"@) || begins(status, "HTTP/1.0 401"@)
}

/// Does the status line say 401, which both readings of the fence depend on?
pub fn is_unauthorized(status: &str) -> (r: bool)
    ensures
        r == says_unauthorized(status@),
{
    starts_with(status, "HTTP/1.1 401") || starts_with(status, "HTTP/1.0 401")
}

/// What a status line and the text behind it say: only 401 with the sentence of the auth fence
/// is a Harness, any other status is not, and a 401 without the sentence leaves it open.
pub open spec fn verdict(status: Seq<char>, body: Seq<char>) -> Option<Probe> {
    if !says_unauthorized(status) {
        Some(Probe::Other)
    } else if holds(body, AUTH_FENCE@) {
        Some(Probe::Harness)
    } else {
        None
    }
}

/// What a status line and the text behind it say.
pub fn judge_response(status: &str, body: &str) -> (r: Option<Probe>)
    ensures
        r == verdict(status@, body@),
{
    if !is_unauthorized(status) {
        return Some(Probe::Other);
    }
    if contains(body, AUTH_FENCE) {
        Some(Probe::Harness)
    } else {
        None
    }
}

/// What the bytes of a response so far say: nothing before the status line is whole.
pub open spec fn verdict_of(response: Seq<u8>) -> Option<Probe> {
    let end = byte_position(response, 10);
    if end < response.len() {
        verdict(
            utf8_lossy(response.subrange(0, end)),
            utf8_lossy(response.subrange(end, response.len() as int)),
        )
    } else {
        None
    }
}

/// The verdict that the bytes so far support, or none while the fence could still arrive.
pub fn read_verdict(response: &[u8]) -> (r: Option<Probe>)
    ensures
        r == verdict_of(response@),
{
    let end: usize = position_of_byte(response, 10);
    if end == response.len() {
        return None;
    }
    let status = lossy(part(response, 0, end).as_slice());
    let body = lossy(part(response, end, response.len()).as_slice());
    judge_response(status.as_str(), body.as_str())
}

/// What the probe does next.
#[derive(Debug, Clone, Copy, PartialEq, Eq, Structural)]
pub enum ProbeStep {
    /// The exchange is over.
    Answer(Probe),
    /// Read on.
    Read,
}

/// What happened to the exchange since the probe last looked.
#[derive(Debug, Clone, Copy, PartialEq, Eq, Structural)]
pub enum ProbeEvent {
    /// The stream can be read within the time that is left.
    Armed,
    /// The time is used up, or the peer hung up or failed.
    Ended,
}

/// Decides whether the probe goes on reading. The first verdict ends it; without one it is over
/// when the response is too long or the exchange ended, and then the port is not a Harness.
pub fn probe_step(response: &[u8], event: ProbeEvent) -> (r: ProbeStep)
    ensures
        r == (match verdict_of(response@) {
            Some(answer) => ProbeStep::Answer(answer),
            None => if response@.len() >= PROBE_RESPONSE_LIMIT || event == ProbeEvent::Ended {
                ProbeStep::Answer(Probe::Other)
            } else {
                ProbeStep::Read
            },
        }),
{
    match read_verdict(response) {
        Some(answer) => ProbeStep::Answer(answer),
        None => {
            if response.len() >= PROBE_RESPONSE_LIMIT {
                return ProbeStep::Answer(Probe::Other);
            }
            match event {
                ProbeEvent::Ended => ProbeStep::Answer(Probe::Other),
                ProbeEvent::Armed => ProbeStep::Read,
            }
        },
    }
}

/// A server that answers anything but 401 is never taken for a Harness, whatever it sends after
/// its status line.
pub proof fn only_the_fence_is_a_harness(response: Seq<u8>)
    ensures
        verdict_of(response) == Some(Probe::Harness) ==> ({
            let end = byte_position(response, 10);
            &&& end < response.len()
            &&& says_unauthorized(utf8_lossy(response.subrange(0, end)))
            &&& holds(utf8_lossy(response.subrange(end, response.len() as int)), AUTH_FENCE@)
        }),
{
}

/// What the probe asks of the port.
pub fn probe_request(port: u16) -> (r: String)
    ensures
        r@ == "GET / HTTP/1.1\r\nHost: 127.0.0.1:"@ + decimal(port as nat)
            + "\r\nUser-Agent: dsh-desktop\r\nConnection: close\r\n\r\n"@,
{
    let mut out = "GET / HTTP/1.1\r\nHost: 127.0.0.1:".to_owned();
    out.append(decimal_text(port as u64).as_str());
    out.append("\r\nUser-Agent: dsh-desktop\r\nConnection: close\r\n\r\n");
    out
}

/// Does a command line name the `dsh web` server? `--profile web` is what this shell passes, the
/// word `web` is the CLI's alias for it; a `plugin` command carries the same flag and serves
/// nothing.
pub open spec fn names_dsh_web(command: Seq<char>) -> bool {
    &&& holds(command, "dsh"@)
    &&& !holds(command, "plugin"@)
    &&& (holds(command, "--profile web"@) || words(command).contains("web"@))
}

/// Does this command line name the `dsh web` server?
pub fn looks_like_dsh_web(command: &str) -> (r: bool)
    ensures
        r == names_dsh_web(command@),
{
    if !contains(command, "dsh") || contains(command, "plugin") {
        return false;
    }
    contains(command, "--profile web") || lists(text_words(command).as_slice(), "web")
}

/// How many digits `s` starts with.
pub open spec fn digit_run(s: Seq<char>) -> int
    decreases s.len(),
{
    if s.len() == 0 || !crate::number::is_digit(s[0]) {
        0
    } else {
        1 + digit_run(s.subrange(1, s.len() as int))
    }
}

/// The number behind the first `pid=` in the output of `ss`.
pub open spec fn ss_pid(output: Seq<char>) -> Option<nat> {
    match first_place(output, "pid="@) {
        None => None,
        Some(at) => {
            let rest = output.subrange(at + "pid="@.len(), output.len() as int);
            u32_in(rest.subrange(0, digit_run(rest)))
        },
    }
}

/// An optional number as a mathematical one.
pub open spec fn opt_nat(value: Option<u32>) -> Option<nat> {
    match value {
        Some(n) => Some(n as nat),
        None => None,
    }
}

fn leading_digits(s: &[char]) -> (r: usize)
    ensures
        r == digit_run(s@),
        r <= s@.len(),
{
    let mut i: usize = 0;
    proof {
        assert(s@.subrange(0, s@.len() as int) =~= s@);
    }
    while i < s.len() && '0' <= s[i] && s[i] <= '9'
        invariant
            i <= s@.len(),
            i + digit_run(s@.subrange(i as int, s@.len() as int)) == digit_run(s@),
        decreases s@.len() - i,
    {
        proof {
            let rest = s@.subrange(i as int, s@.len() as int);
            assert(rest.subrange(1, rest.len() as int) =~= s@.subrange(i + 1, s@.len() as int));
        }
        i += 1;
    }
    i
}

/// The pid that a line of `ss` names.
pub fn parse_ss_pid(output: &str) -> (r: Option<u32>)
    ensures
        opt_nat(r) == ss_pid(output@),
{
    let s = chars_of(output);
    let key = chars_of("pid=");
    match find(&s, &key) {
        None => None,
        Some(at) => {
            let total: usize = s.len();
            proof {
                assert(at + key@.len() <= total);
            }
            let rest = piece(&s, at + key.len(), total);
            let n: usize = leading_digits(&rest);
            parse_u32(&piece(&rest, 0, n))
        },
    }
}

/// The number on the first line of the output of `lsof -t`.
pub open spec fn lsof_pid(output: Seq<char>) -> Option<nat> {
    let all = lines(output);
    if all.len() == 0 {
        None
    } else {
        u32_in(trimmed(all[0]))
    }
}

/// The pid that `lsof -t` printed.
pub fn parse_lsof_pid(output: &str) -> (r: Option<u32>)
    ensures
        opt_nat(r) == lsof_pid(output@),
{
    let all = text_lines(output);
    proof {
        assert(all@.len() == texts(all@).len());
    }
    if all.len() == 0 {
        return None;
    }
    proof {
        assert(texts(all@)[0] == all@[0]@);
    }
    parse_u32(&chars_of(trim_text(all[0].as_str()).as_str()))
}

/// The last word of the first line of `netstat -ano` that listens on `port` and has one.
pub open spec fn netstat_pid(all: Seq<Seq<char>>, port: u16) -> Option<nat>
    decreases all.len(),
{
    if all.len() == 0 {
        None
    } else if holds(all[0], "LISTENING"@) && holds(
        all[0],
        ":"@ + decimal(port as nat) + " "@,
    ) && words(all[0]).len() > 0 {
        u32_in(words(all[0]).last())
    } else {
        netstat_pid(all.subrange(1, all.len() as int), port)
    }
}

/// The pid that `netstat -ano` shows as listening on `port`.
pub fn parse_netstat_pid(output: &str, port: u16) -> (r: Option<u32>)
    ensures
        opt_nat(r) == netstat_pid(lines(output@), port),
{
    let all = text_lines(output);
    let ghost whole = lines(output@);
    let mut needle = ":".to_owned();
    needle.append(decimal_text(port as u64).as_str());
    needle.append(" ");
    let mut i: usize = 0;
    proof {
        assert(whole.subrange(0, whole.len() as int) =~= whole);
    }
    while i < all.len()
        invariant
            i <= all@.len(),
            texts(all@) == whole,
            whole == lines(output@),
            needle@ == ":"@ + decimal(port as nat) + " "@,
            netstat_pid(whole.subrange(i as int, whole.len() as int), port) == netstat_pid(
                whole,
                port,
            ),
        decreases all@.len() - i,
    {
        let ghost rest = whole.subrange(i as int, whole.len() as int);
        proof {
            assert(rest[0] == all@[i as int]@);
            assert(rest.subrange(1, rest.len() as int) =~= whole.subrange(
                i + 1,
                whole.len() as int,
            ));
        }
        let line = all[i].as_str();
        if contains(line, "LISTENING") && contains(line, needle.as_str()) {
            let fields = text_words(line);
            proof {
                assert(fields@.len() == texts(fields@).len());
            }
            if fields.len() > 0 {
                proof {
                    assert(texts(fields@).last() == fields@[fields@.len() - 1]@);
                    assert(words(rest[0]) == texts(fields@));
                    assert(netstat_pid(rest, port) == u32_in(words(rest[0]).last()));
                }
                return parse_u32(&chars_of(fields[fields.len() - 1].as_str()));
            }
        }
        i += 1;
    }
    None
}

/// A program that tells who listens on a port.
#[derive(Debug, Clone, Copy, PartialEq, Eq)]
pub enum ListenerTool {
    Lsof,
    Ss,
    Netstat,
}

/// The next step of finding out who listens on a port.
#[derive(Debug, Clone, Copy, PartialEq, Eq)]
pub enum ListenerStep {
    Ask(ListenerTool),
    /// This process listens.
    Found(u32),
    /// Nobody can be named.
    Unknown,
}

/// The command line of a tool that is asked about a port.
pub open spec fn listener_words(tool: ListenerTool, port: u16) -> Seq<Seq<char>> {
    match tool {
        ListenerTool::Lsof => seq![
            "lsof"@,
            "-nP"@,
            "-t"@,
            "-iTCP:"@ + decimal(port as nat),
            "-sTCP:LISTEN"@,
        ],
        ListenerTool::Ss => seq!["ss"@, "-ltnpH"@, "sport = :"@ + decimal(port as nat)],
        ListenerTool::Netstat => seq!["netstat"@, "-ano"@],
    }
}

/// The command line of a tool that is asked about a port, the program first.
pub fn listener_command(tool: ListenerTool, port: u16) -> (r: Vec<String>)
    ensures
        texts(r@) == listener_words(tool, port),
{
    let number = decimal_text(port as u64);
    let mut out: Vec<String> = Vec::new();
    match tool {
        ListenerTool::Lsof => {
            out.push("lsof".to_owned());
            out.push("-nP".to_owned());
            out.push("-t".to_owned());
            let mut filter = "-iTCP:".to_owned();
            filter.append(number.as_str());
            out.push(filter);
            out.push("-sTCP:LISTEN".to_owned());
        },
        ListenerTool::Ss => {
            out.push("ss".to_owned());
            out.push("-ltnpH".to_owned());
            let mut filter = "sport = :".to_owned();
            filter.append(number.as_str());
            out.push(filter);
        },
        ListenerTool::Netstat => {
            out.push("netstat".to_owned());
            out.push("-ano".to_owned());
        },
    }
    proof {
        assert(texts(out@) =~= listener_words(tool, port));
    }
    out
}

/// The pid that a tool named; none where it could not be run.
pub open spec fn pid_named(tool: ListenerTool, output: Option<Seq<char>>, port: u16) -> Option<nat> {
    match output {
        Some(text) => match tool {
            ListenerTool::Lsof => lsof_pid(text),
            ListenerTool::Ss => ss_pid(text),
            ListenerTool::Netstat => netstat_pid(lines(text), port),
        },
        None => None,
    }
}

/// What is done next to find out who listens on a port, after a tool was asked and what it
/// printed. Away from Windows `lsof` comes first; on Linux, which often ships without it, `ss` is
/// asked where `lsof` names nobody.
pub fn listener_step(
    asked: Option<ListenerTool>,
    output: Option<&str>,
    port: u16,
    windows: bool,
    linux: bool,
) -> (r: ListenerStep)
    ensures
        (match asked {
            None => r == ListenerStep::Ask(
                if windows {
                    ListenerTool::Netstat
                } else {
                    ListenerTool::Lsof
                },
            ),
            Some(tool) => match pid_named(tool, crate::runtime::str_view(output), port) {
                Some(pid) => r matches ListenerStep::Found(found) && found == pid,
                None => if tool is Lsof && linux {
                    r == ListenerStep::Ask(ListenerTool::Ss)
                } else {
                    r is Unknown
                },
            },
        }),
{
    let tool = match asked {
        None => {
            return ListenerStep::Ask(
                if windows {
                    ListenerTool::Netstat
                } else {
                    ListenerTool::Lsof
                },
            );
        },
        Some(tool) => tool,
    };
    let named: Option<u32> = match output {
        Some(text) => match tool {
            ListenerTool::Lsof => parse_lsof_pid(text),
            ListenerTool::Ss => parse_ss_pid(text),
            ListenerTool::Netstat => parse_netstat_pid(text, port),
        },
        None => None,
    };
    match named {
        Some(pid) => ListenerStep::Found(pid),
        None => match tool {
            ListenerTool::Lsof => if linux {
                ListenerStep::Ask(ListenerTool::Ss)
            } else {
                ListenerStep::Unknown
            },
            _ => ListenerStep::Unknown,
        },
    }
}

// ---------------------------------------------------------------------------------------------
// Starting the CLI
// ---------------------------------------------------------------------------------------------

/// What the CLI is started with.
#[derive(Debug, Clone, PartialEq, Eq)]
pub struct SpawnOptions {
    pub workspace: String,
    pub overlay: String,
    pub dsh_home: Option<String>,
    pub port: u16,
    pub log_path: String,
    /// Extra environment: imported login-shell variables, merged PATH, config overrides.
    pub env: Vec<(String, String)>,
}

/// Why the CLI is not started.
#[derive(Debug, Clone, PartialEq, Eq)]
pub enum SpawnProblem {
    /// A path that would be resolved against the child's working directory.
    Relative { label: String, path: String },
    /// The workspace is no directory that exists.
    NoWorkspace { path: String },
}

/// What a problem is reported as.
pub open spec fn problem_text(problem: SpawnProblem) -> Seq<char> {
    match problem {
        SpawnProblem::Relative { label, path } => label@ + " 必须是绝对路径: "@ + path@,
        SpawnProblem::NoWorkspace { path } => "workspace 不是已存在的目录（config.json 的 workspace）: "@
            + path@,
    }
}

impl SpawnProblem {
    /// The message for the user, which names the entry at fault.
    pub fn to_text(&self) -> (r: String)
        ensures
            r@ == problem_text(*self),
    {
        match self {
            SpawnProblem::Relative { label, path } => {
                let mut out = label.clone();
                out.append(" 必须是绝对路径: ");
                out.append(path.as_str());
                out
            },
            SpawnProblem::NoWorkspace { path } => {
                let mut out = "workspace 不是已存在的目录（config.json 的 workspace）: ".to_owned();
                out.append(path.as_str());
                out
            },
        }
    }
}

/// Checks the paths that the child is given: each must be absolute, and the workspace must
/// exist. The first at fault is named, in the order `node`, `dsh_js`, `workspace`.
pub fn validate_paths(
    node: &str,
    dsh_js: &str,
    workspace: &str,
    workspace_is_dir: bool,
    windows: bool,
) -> (r: Result<(), SpawnProblem>)
    ensures
        ({
            let relative = |label: Seq<char>, path: Seq<char>|
                r matches Err(SpawnProblem::Relative { label: l, path: p }) && l@ == label && p@
                    == path;
            if !path_is_absolute(node@, windows) {
                relative("node"@, node@)
            } else if !path_is_absolute(dsh_js@, windows) {
                relative("dsh_js"@, dsh_js@)
            } else if !path_is_absolute(workspace@, windows) {
                relative("workspace"@, workspace@)
            } else if !workspace_is_dir {
                r matches Err(SpawnProblem::NoWorkspace { path }) && path@ == workspace@
            } else {
                r is Ok
            }
        }),
{
    if !is_absolute(node, windows) {
        return Err(SpawnProblem::Relative { label: "node".to_owned(), path: node.to_owned() });
    }
    if !is_absolute(dsh_js, windows) {
        return Err(SpawnProblem::Relative { label: "dsh_js".to_owned(), path: dsh_js.to_owned() });
    }
    if !is_absolute(workspace, windows) {
        return Err(
            SpawnProblem::Relative { label: "workspace".to_owned(), path: workspace.to_owned() },
        );
    }
    if !workspace_is_dir {
        return Err(SpawnProblem::NoWorkspace { path: workspace.to_owned() });
    }
    Ok(())
}

/// The arguments of the CLI: the launcher's flags come before those of the app.
pub fn spawn_args(dsh_js: &str, opts: &SpawnOptions) -> (r: Vec<String>)
    ensures
        texts(r@) == seq![
            dsh_js@,
            "--profile"@,
            "web"@,
            "--patch"@,
            opts.overlay@,
            "--no-open"@,
            "--port"@,
            decimal(opts.port as nat),
        ],
{
    let mut out: Vec<String> = Vec::new();
    out.push(dsh_js.to_owned());
    out.push("--profile".to_owned());
    out.push("web".to_owned());
    out.push("--patch".to_owned());
    out.push(opts.overlay.clone());
    out.push("--no-open".to_owned());
    out.push("--port".to_owned());
    out.push(decimal_text(opts.port as u64));
    proof {
        assert(texts(out@) =~= seq![
            dsh_js@,
            "--profile"@,
            "web"@,
            "--patch"@,
            opts.overlay@,
            "--no-open"@,
            "--port"@,
            decimal(opts.port as nat),
        ]);
    }
    out
}

/// Pairs of names and values as texts.
pub open spec fn pairs(values: Seq<(String, String)>) -> Seq<(Seq<char>, Seq<char>)> {
    Seq::new(values.len(), |i: int| (values[i].0@, values[i].1@))
}

/// The environment that is set for the CLI, in the order in which it is set: a later entry wins.
pub fn spawn_env(opts: &SpawnOptions) -> (r: Vec<(String, String)>)
    ensures
        pairs(r@) == (match opts.dsh_home {
            Some(home) => pairs(opts.env@).push(("DSH_HOME"@, home@)),
            None => pairs(opts.env@),
        }),
{
    let mut out: Vec<(String, String)> = Vec::new();
    let mut i: usize = 0;
    while i < opts.env.len()
        invariant
            i <= opts.env@.len(),
            out@.len() == i,
            forall|j: int|
                0 <= j < i ==> out@[j].0@ == opts.env@[j].0@ && out@[j].1@ == opts.env@[j].1@,
        decreases opts.env@.len() - i,
    {
        out.push((opts.env[i].0.clone(), opts.env[i].1.clone()));
        i += 1;
    }
    proof {
        assert(pairs(out@) =~= pairs(opts.env@));
    }
    match &opts.dsh_home {
        Some(home) => {
            let ghost before = pairs(out@);
            out.push(("DSH_HOME".to_owned(), home.clone()));
            proof {
                assert(pairs(out@) =~= before.push(("DSH_HOME"@, home@)));
            }
        },
        None => {},
    }
    out
}

/// An argument as the log shows it: in quotes where it holds a space.
pub open spec fn shown_arg(arg: Seq<char>) -> Seq<char> {
    if arg.contains(' ') {
        "\""@ + arg + "\""@
    } else {
        arg
    }
}

/// A command line as the log shows it.
pub open spec fn shown_command(program: Seq<char>, args: Seq<Seq<char>>) -> Seq<char> {
    joined(seq![program] + Seq::new(args.len(), |i: int| shown_arg(args[i])), " "@)
}

/// A command line for the log.
pub fn describe(program: &str, args: &[String]) -> (r: String)
    ensures
        r@ == shown_command(program@, texts(args@)),
{
    let mut parts: Vec<String> = Vec::new();
    parts.push(program.to_owned());
    let mut i: usize = 0;
    while i < args.len()
        invariant
            i <= args@.len(),
            parts@.len() == i + 1,
            parts@[0]@ == program@,
            forall|j: int| 0 <= j < i ==> (#[trigger] parts@[j + 1])@ == shown_arg(args@[j]@),
        decreases args@.len() - i,
    {
        let arg = args[i].as_str();
        let chars = chars_of(arg);
        let p: usize = crate::split::position_of(&chars, ' ');
        proof {
            crate::split::lemma_position(chars@, ' ');
            if arg@.contains(' ') {
                let k = choose|k: int| 0 <= k < arg@.len() && arg@[k] == ' ';
                assert(p <= k);
            } else if p < arg@.len() {
                assert(arg@[p as int] == ' ');
            }
        }
        if p < chars.len() {
            let mut quoted = "\"".to_owned();
            quoted.append(arg);
            quoted.append("\"");
            parts.push(quoted);
        } else {
            parts.push(arg.to_owned());
        }
        i += 1;
    }
    proof {
        let whole = seq![program@] + Seq::new(args@.len(), |k: int| shown_arg(texts(args@)[k]));
        assert(texts(parts@) =~= whole) by {
            assert forall|k: int| 0 <= k < whole.len() implies texts(parts@)[k] == whole[k] by {
                if k > 0 {
                    assert(parts@[(k - 1) + 1]@ == shown_arg(args@[k - 1]@));
                }
            }
        }
    }
    join(parts.as_slice(), " ")
}

/// What the log says of a start.
pub fn spawn_line(node: &str, args: &[String], opts: &SpawnOptions) -> (r: String)
    ensures
        r@ == "spawn: "@ + shown_command(node@, texts(args@)) + " | cwd: "@ + opts.workspace@
            + " | DSH_HOME: "@ + (match opts.dsh_home {
            Some(home) => home@,
            None => "<default>"@,
        }),
{
    let mut out = "spawn: ".to_owned();
    out.append(describe(node, args).as_str());
    out.append(" | cwd: ");
    out.append(opts.workspace.as_str());
    out.append(" | DSH_HOME: ");
    match &opts.dsh_home {
        Some(home) => out.append(home.as_str()),
        None => out.append("<default>"),
    }
    out
}

// ---------------------------------------------------------------------------------------------
// The log
// ---------------------------------------------------------------------------------------------

/// Where the shell's own lines go: nowhere before the log is set.
#[derive(Debug, Clone)]
pub struct AppLog {
    pub path: Option<String>,
}

/// Points the shell's own log at a file.
pub fn init_app_log(log: &mut AppLog, path: &str)
    ensures
        opt_view(final(log).path) == Some(path@),
{
    log.path = Some(path.to_owned());
}

/// The line that the log gets for one of the shell's own, redacted; none before a log is set.
pub fn app_log(log: &AppLog, line: &str) -> (r: Option<String>)
    ensures
        opt_view(r) == (if log.path is Some {
            Some("[dsh-desktop] "@ + redacted(line@))
        } else {
            None
        }),
{
    match &log.path {
        Some(_) => {
            let mut out = "[dsh-desktop] ".to_owned();
            out.append(redact(line).as_str());
            Some(out)
        },
        None => None,
    }
}

/// The size of the live log file and the limit at which it is rotated.
#[derive(Debug, Clone)]
pub struct Logger {
    pub path: String,
    pub limit: u64,
    pub written: u64,
}

/// The path of a rotated generation.
pub open spec fn backup_of(path: Seq<char>, index: nat, windows: bool) -> Seq<char> {
    path_with_extension(path, "log."@ + decimal(index), windows)
}

/// `harness.log` at index 1 becomes `harness.log.1`.
pub fn backup_path(path: &str, index: usize, windows: bool) -> (r: String)
    ensures
        r@ == backup_of(path@, index as nat, windows),
{
    let mut extension = "log.".to_owned();
    extension.append(decimal_text(index as u64).as_str());
    with_extension(path, extension.as_str(), windows)
}

/// Is the file rotated before `incoming` more bytes? Not an empty one: the line must go
/// somewhere, and a fresh file is the one place where it fits.
pub open spec fn rotates(written: nat, incoming: nat, limit: nat) -> bool {
    written + incoming > limit && written > 0
}

impl Logger {
    /// The log at `path`, which holds `size` bytes.
    pub fn with_limit(path: &str, limit: u64, size: u64) -> (r: Logger)
        ensures
            r.path@ == path@,
            r.limit == limit,
            r.written == size,
    {
        Logger { path: path.to_owned(), limit, written: size }
    }

    /// Makes room for a line: gives the renames that roll the live file into the first backup,
    /// oldest generation first, or none where the line fits.
    pub fn rotate_before(&mut self, line: &str, windows: bool) -> (r: Vec<(String, String)>)
        ensures
            final(self).path == old(self).path,
            final(self).limit == old(self).limit,
            ({
                let path = old(self).path@;
                if rotates(
                    old(self).written as nat,
                    byte_len(line@) + 1,
                    old(self).limit as nat,
                ) {
                    &&& final(self).written == 0
                    &&& pairs(r@) == seq![
                        (backup_of(path, 2, windows), backup_of(path, 3, windows)),
                        (backup_of(path, 1, windows), backup_of(path, 2, windows)),
                        (path, backup_of(path, 1, windows)),
                    ]
                } else {
                    &&& final(self).written == old(self).written
                    &&& r@.len() == 0
                }
            }),
    {
        let size: usize = byte_count(line);
        let mut moves: Vec<(String, String)> = Vec::new();
        let fits = self.written <= self.limit && (size as u64) < self.limit - self.written;
        if fits || self.written == 0 {
            return moves;
        }
        let ghost path = self.path@;
        let mut index: usize = LOG_BACKUPS - 1;
        while index > 0
            invariant
                index <= 2,
                path == self.path@,
                self.path == old(self).path,
                self.limit == old(self).limit,
                moves@.len() == 2 - index,
                moves@.len() > 0 ==> moves@[0].0@ == backup_of(path, 2, windows) && moves@[0].1@
                    == backup_of(path, 3, windows),
                moves@.len() > 1 ==> moves@[1].0@ == backup_of(path, 1, windows) && moves@[1].1@
                    == backup_of(path, 2, windows),
            decreases index,
        {
            moves.push(
                (
                    backup_path(self.path.as_str(), index, windows),
                    backup_path(self.path.as_str(), index + 1, windows),
                ),
            );
            index -= 1;
        }
        moves.push((self.path.clone(), backup_path(self.path.as_str(), 1, windows)));
        self.written = 0;
        proof {
            assert(pairs(moves@) =~= seq![
                (backup_of(path, 2, windows), backup_of(path, 3, windows)),
                (backup_of(path, 1, windows), backup_of(path, 2, windows)),
                (path, backup_of(path, 1, windows)),
            ]);
        }
        moves
    }

    /// Counts a line that was written.
    pub fn wrote(&mut self, line: &str)
        ensures
            final(self).path == old(self).path,
            final(self).limit == old(self).limit,
            old(self).written + byte_len(line@) + 1 <= u64::MAX ==> final(self).written == old(
                self,
            ).written + byte_len(line@) + 1,
            old(self).written + byte_len(line@) + 1 > u64::MAX ==> final(self).written == u64::MAX,
    {
        let size: usize = byte_count(line);
        self.written = self.written.saturating_add(size as u64).saturating_add(1);
    }
}

/// A log that makes room before each line never holds more than its limit, unless it holds one
/// line alone.
pub proof fn the_log_stays_within_its_limit(written: nat, incoming: nat, limit: nat)
    ensures
        ({
            let room = if rotates(written, incoming, limit) {
                0
            } else {
                written
            };
            room + incoming <= limit || room == 0
        }),
{
}

// ---------------------------------------------------------------------------------------------
// What these say in so many words
// ---------------------------------------------------------------------------------------------

/// The ring never holds more than two hundred lines, nor more than a mebibyte beside the end of
/// the last one; and it drops no line that could have stayed within both.
pub proof fn the_ring_keeps_as_much_as_it_may(lines: Seq<Seq<char>>, line: Seq<char>)
    requires
        lines.len() <= 200,
        total_bytes(lines) <= 1048577,
    ensures
        ring_with(lines, line).len() <= 200,
        total_bytes(ring_with(lines, line)) <= 1048577,
        byte_len(line) > 1048576 ==> ring_with(lines, line) == lines,
        byte_len(line) <= 1048576 ==> {
            let kept = ring_with(lines, line).drop_last();
            let more = lines.subrange(lines.len() - kept.len() - 1, lines.len() as int);
            &&& ring_with(lines, line).last() == line
            &&& kept.len() < lines.len() ==> more.len() >= 200 || total_bytes(more) + byte_len(line)
                + 1 > 1048576
        },
    decreases lines.len(),
{
    the_ring_keeps_the_newest(lines, line);
    let kept = making_room(lines, line);
    lemma_total_push(kept, line);
    assert(kept.push(line).drop_last() =~= kept);
    lemma_room_is_made(lines, line);
}

proof fn lemma_room_is_made(lines: Seq<Seq<char>>, line: Seq<char>)
    ensures
        ({
            let kept = making_room(lines, line);
            let more = lines.subrange(lines.len() - kept.len() - 1, lines.len() as int);
            &&& kept.len() == 0 || has_room(kept, line)
            &&& kept.len() <= lines.len()
            &&& kept.len() < lines.len() ==> !has_room(more, line)
        }),
    decreases lines.len(),
{
    if lines.len() > 0 && !has_room(lines, line) {
        let rest = lines.subrange(1, lines.len() as int);
        lemma_room_is_made(rest, line);
        the_ring_keeps_the_newest(rest, line);
        let kept = making_room(lines, line);
        if kept.len() < rest.len() {
            assert(rest.subrange(rest.len() - kept.len() - 1, rest.len() as int)
                =~= lines.subrange(lines.len() - kept.len() - 1, lines.len() as int));
        } else {
            assert(lines.subrange(0, lines.len() as int) =~= lines);
        }
    }
}

/// A line is shown as it came, without the carriage return at its end; and one that was cut says
/// so behind its text.
pub proof fn a_line_is_shown_as_it_came(line: Seq<char>)
    ensures
        line_text(line + seq!['\r'], false) == line,
        line_text(line + seq!['\r'], true) == line + TRUNCATION_NOTE@,
        line.len() == 0 || line.last() != '\r' ==> line_text(line, false) == line && line_text(
            line,
            true,
        ) == line + TRUNCATION_NOTE@,
{
    let ended = line + seq!['\r'];
    assert(ended.drop_last() =~= line);
}

/// A query carries the launch token where one of its parameters is named `token`, wherever it
/// stands and whatever its value is.
pub proof fn a_token_is_found_among_the_parameters(
    before: Seq<char>,
    value: Seq<char>,
    after: Seq<char>,
)
    requires
        forall|i: int| 0 <= i < value.len() ==> value[i] != '&',
    ensures
        carries_token("token="@ + value),
        carries_token("token="@ + value + seq!['&'] + after),
        carries_token(before + seq!['&'] + "token="@ + value),
        carries_token(before + seq!['&'] + "token="@ + value + seq!['&'] + after),
{
    reveal_strlit("token=");
    reveal_strlit("token");
    let part = "token="@ + value;
    assert forall|i: int| 0 <= i < part.len() implies part[i] != '&' by {
        if i >= 6 {
            assert(part[i] == value[i - 6]);
        }
    }
    a_part_is_whole(part, '&');
    lemma_position(part, '=');
    let p = position(part, '=');
    assert(part[5] == '=');
    if p < 5 {
        assert(part[p] == "token="@[p]);
    }
    assert(p == 5);
    assert(part.subrange(0, 5) =~= "token"@);
    assert(names_token(part));
    assert(split(part, '&')[0] == part);
    parts_follow_each_other(part, '&', after);
    let a = part + seq!['&'] + after;
    assert(split(a, '&')[0] == part);
    parts_follow_each_other(before, '&', part);
    let b = before + seq!['&'] + part;
    let n = split(before, '&').len() as int;
    assert(split(b, '&')[n] == part);
    assert(b =~= before + seq!['&'] + "token="@ + value);
    parts_follow_each_other(before, '&', a);
    let c = before + seq!['&'] + a;
    assert(split(c, '&')[n] == part);
    assert(c =~= before + seq!['&'] + "token="@ + value + seq!['&'] + after);
}

/// A query in which no parameter is named `token` carries none: not one whose name goes on behind
/// that, or begins before it.
pub proof fn no_other_parameter_is_the_token(query: Seq<char>)
    ensures
        carries_token(query) ==> exists|before: Seq<char>, value: Seq<char>, after: Seq<char>|
            query == #[trigger] (before + "token"@ + value + after) && (before.len() == 0
                || before.last() == '&') && (value.len() == 0 || value[0] == '=') && (after.len()
                == 0 || after[0] == '&'),
    decreases query.len(),
{
    if carries_token(query) {
        lemma_position(query, '&');
        let p = position(query, '&');
        let parts = split(query, '&');
        let i = choose|i: int| 0 <= i < parts.len() && names_token(#[trigger] parts[i]);
        let head = query.subrange(0, p);
        if i == 0 {
            let part = parts[0];
            if p == query.len() {
                assert(head =~= query);
            }
            assert(part == head);
            lemma_position(part, '=');
            let q = position(part, '=');
            let value = part.subrange(q, part.len() as int);
            let after = query.subrange(p, query.len() as int);
            let before = Seq::<char>::empty();
            assert(part =~= part.subrange(0, q) + value);
            assert(query =~= before + part.subrange(0, q) + value + after);
            assert(query == before + "token"@ + value + after);
            if value.len() > 0 {
                assert(value[0] == '=');
            }
            if after.len() > 0 {
                assert(after[0] == '&');
            }
        } else {
            let tail = query.subrange(p + 1, query.len() as int);
            assert(parts[i] == split(tail, '&')[i - 1]);
            no_other_parameter_is_the_token(tail);
            let (before, value, after) = choose|
                before: Seq<char>,
                value: Seq<char>,
                after: Seq<char>,
            |
                tail == #[trigger] (before + "token"@ + value + after) && (before.len() == 0
                    || before.last() == '&') && (value.len() == 0 || value[0] == '=') && (
                after.len() == 0 || after[0] == '&');
            let longer = head + seq!['&'] + before;
            assert(longer.last() == '&');
            assert(query =~= head + seq!['&'] + tail);
            assert(query =~= longer + "token"@ + value + after);
        }
    }
}

/// A startup URL is `http` on the loopback address with the launch token in its query, and nothing
/// else is one.
pub proof fn what_a_startup_url_is(url: UrlModel)
    ensures
        as_startup(Some(url)) == (if url.scheme == "http"@ && url.host == Some("127.0.0.1"@)
            && url.query is Some && carries_token(url.query->0) {
            Some(url)
        } else {
            None
        }),
{
}

/// In a line without the documented prefix the first word that is a startup URL is taken,
/// whatever stands around it.
pub proof fn the_first_startup_url_is_taken(line: Seq<char>, k: int)
    requires
        !holds(line, "dsh web:"@),
        0 <= k < words(line).len(),
        startup_in(words(line)[k]) is Some,
        forall|i: int| 0 <= i < k ==> startup_in(#[trigger] words(line)[i]) is None,
    ensures
        announced(line) == startup_in(words(line)[k]),
{
    lemma_first_of(words(line), k);
}

proof fn lemma_first_of(all: Seq<Seq<char>>, k: int)
    requires
        0 <= k < all.len(),
        startup_in(all[k]) is Some,
        forall|i: int| 0 <= i < k ==> startup_in(#[trigger] all[i]) is None,
    ensures
        first_startup(all) == startup_in(all[k]),
    decreases all.len(),
{
    if k > 0 {
        let rest = all.subrange(1, all.len() as int);
        assert(rest[k - 1] == all[k]);
        assert forall|i: int| 0 <= i < k - 1 implies startup_in(#[trigger] rest[i]) is None by {
            assert(rest[i] == all[i + 1]);
        }
        assert(startup_in(all[0]) is None);
        lemma_first_of(rest, k - 1);
    }
}

/// Behind the documented prefix the first word is taken where it is a startup URL, even where
/// another one stands in front.
pub proof fn the_prefix_announces(before: Seq<char>, rest: Seq<char>)
    requires
        forall|k: int|
            0 <= k < before.len() ==> #[trigger] (before + "dsh web:"@ + rest).subrange(k, k + 8)
                != "dsh web:"@,
        words(rest).len() > 0,
        startup_in(words(rest)[0]) is Some,
    ensures
        announced(before + "dsh web:"@ + rest) == startup_in(words(rest)[0]),
{
    reveal_strlit("dsh web:");
    let line = before + "dsh web:"@ + rest;
    assert("dsh web:"@.len() == 8);
    crate::search::a_text_is_found_where_it_stands(before, "dsh web:"@, rest);
    assert(first_place(line, "dsh web:"@) == Some(before.len() as int));
    assert(line.subrange(before.len() as int + 8, line.len() as int) =~= rest);
}

/// A port is a Harness's only where it answers 401 and names the fence; a 401 without it leaves
/// the matter open, and any other status settles it.
pub proof fn the_fence_tells_a_harness(
    status: Seq<char>,
    body: Seq<char>,
    before: Seq<char>,
    after: Seq<char>,
)
    ensures
        verdict(
            "HTTP/1.1 401"@ + status,
            before + "dsh web authentication required"@ + after,
        ) == Some(Probe::Harness),
        verdict(
            "HTTP/1.0 401"@ + status,
            before + "dsh web authentication required"@ + after,
        ) == Some(Probe::Harness),
        !"HTTP/1.1 401"@.is_prefix_of(status) && !"HTTP/1.0 401"@.is_prefix_of(status) ==> verdict(
            status,
            body,
        ) == Some(Probe::Other),
        !holds(body, "dsh web authentication required"@) ==> verdict(status, body) != Some(
            Probe::Harness,
        ),
        "HTTP/1.1 401"@.is_prefix_of(status) && !holds(body, "dsh web authentication required"@)
            ==> verdict(status, body) is None,
{
    crate::search::a_text_is_found_where_it_stands(Seq::empty(), "HTTP/1.1 401"@, status);
    crate::search::a_text_is_found_where_it_stands(Seq::empty(), "HTTP/1.0 401"@, status);
    crate::search::a_text_is_found_where_it_stands(
        before,
        "dsh web authentication required"@,
        after,
    );
    if begins(status, "HTTP/1.1 401"@) {
        assert("HTTP/1.1 401"@.is_prefix_of(status));
    }
    if begins(status, "HTTP/1.0 401"@) {
        assert("HTTP/1.0 401"@.is_prefix_of(status));
    }
    if "HTTP/1.1 401"@.is_prefix_of(status) {
        assert(begins(status, "HTTP/1.1 401"@));
    }
}

/// A command line is that of the web server where it names `dsh` and the profile, or the word
/// `web`; never one without `dsh`, and never a `plugin` command.
pub proof fn what_a_web_command_is(command: Seq<char>, before: Seq<char>, after: Seq<char>)
    ensures
        !names_dsh_web(before + "plugin"@ + after),
        !holds(command, "dsh"@) ==> !names_dsh_web(command),
        !holds(command, "--profile web"@) && !words(command).contains("web"@) ==> !names_dsh_web(
            command,
        ),
        holds(command, "dsh"@) && !holds(command, "plugin"@) && (holds(command, "--profile web"@)
            || words(command).contains("web"@)) ==> names_dsh_web(command),
{
    crate::search::a_text_is_found_where_it_stands(before, "plugin"@, after);
}

proof fn lemma_digit_run(digits: Seq<char>, rest: Seq<char>)
    requires
        crate::number::all_digits(digits),
        rest.len() > 0 ==> !crate::number::is_digit(rest[0]),
    ensures
        digit_run(digits + rest) == digits.len(),
    decreases digits.len(),
{
    let s = digits + rest;
    if digits.len() > 0 {
        let less = digits.subrange(1, digits.len() as int);
        assert(crate::number::is_digit(digits[0]));
        assert(s[0] == digits[0]);
        assert(s.subrange(1, s.len() as int) =~= less + rest);
        assert forall|i: int| 0 <= i < less.len() implies crate::number::is_digit(
            #[trigger] less[i],
        ) by {
            assert(less[i] == digits[i + 1]);
        }
        lemma_digit_run(less, rest);
    } else {
        assert(s =~= rest);
    }
}

/// The pid that `ss` printed is read back, from the first `pid=` and up to the end of its digits.
pub proof fn a_pid_of_ss_reads_back(before: Seq<char>, pid: nat, rest: Seq<char>)
    requires
        pid <= u32::MAX,
        rest.len() > 0 ==> !('0' <= rest[0] <= '9'),
        forall|k: int|
            0 <= k < before.len() ==> #[trigger] (before + "pid="@ + (decimal(pid) + rest)).subrange(
                k,
                k + 4,
            ) != "pid="@,
    ensures
        ss_pid(before + "pid="@ + (decimal(pid) + rest)) == Some(pid),
{
    reveal_strlit("pid=");
    let tail = decimal(pid) + rest;
    let s = before + "pid="@ + tail;
    assert("pid="@.len() == 4);
    crate::search::a_text_is_found_where_it_stands(before, "pid="@, tail);
    assert(s.subrange(before.len() as int + 4, s.len() as int) =~= tail);
    crate::number::decimal_reads_back(pid);
    lemma_digit_run(decimal(pid), rest);
    assert(tail.subrange(0, decimal(pid).len() as int) =~= decimal(pid));
    crate::number::a_written_number_reads_back(pid, u32::MAX as nat);
}

/// The pid that `lsof -t` printed is read back from its first line.
pub proof fn a_pid_of_lsof_reads_back(pid: nat, rest: Seq<char>)
    requires
        pid <= u32::MAX,
    ensures
        lsof_pid(decimal(pid)) == Some(pid),
        lsof_pid(decimal(pid) + seq!['\n'] + rest) == Some(pid),
{
    let line = decimal(pid);
    crate::number::decimal_reads_back(pid);
    assert forall|i: int| 0 <= i < line.len() implies line[i] != '\n' by {
        assert(crate::number::is_digit(line[i]));
    }
    assert(crate::number::is_digit(line[0]) && crate::number::is_digit(line[line.len() - 1]));
    crate::split::a_line_goes_up_to_its_end(line, rest);
    let none = Seq::<char>::empty();
    crate::text::trimming_takes_the_ends(none, line, none);
    assert(none + line + none =~= line);
    crate::number::a_written_number_reads_back(pid, u32::MAX as nat);
}

/// The pid that `netstat` shows is that at the end of the first line that listens on the port;
/// lines of other ports, and lines that do not listen, are passed over.
pub proof fn a_pid_of_netstat_is_that_of_the_listener(
    all: Seq<Seq<char>>,
    line: Seq<char>,
    rest: Seq<Seq<char>>,
    port: u16,
)
    requires
        forall|i: int|
            0 <= i < all.len() ==> !holds(#[trigger] all[i], "LISTENING"@) || !holds(
                all[i],
                ":"@ + decimal(port as nat) + " "@,
            ),
        holds(line, "LISTENING"@),
        holds(line, ":"@ + decimal(port as nat) + " "@),
        words(line).len() > 0,
    ensures
        netstat_pid(all, port) is None,
        netstat_pid(all + seq![line] + rest, port) == u32_in(words(line).last()),
    decreases all.len(),
{
    let whole = all + seq![line] + rest;
    if all.len() == 0 {
        assert(whole[0] == line);
    } else {
        let less = all.subrange(1, all.len() as int);
        assert(whole[0] == all[0]);
        assert(whole.subrange(1, whole.len() as int) =~= less + seq![line] + rest);
        assert forall|i: int| 0 <= i < less.len() implies !holds(
            #[trigger] less[i],
            "LISTENING"@,
        ) || !holds(less[i], ":"@ + decimal(port as nat) + " "@) by {
            assert(less[i] == all[i + 1]);
        }
        a_pid_of_netstat_is_that_of_the_listener(less, line, rest, port);
    }
}

/// A command line is shown with one space between its parts, and an argument that holds one in
/// quotes.
pub proof fn how_a_command_is_shown(program: Seq<char>, args: Seq<Seq<char>>, arg: Seq<char>)
    ensures
        shown_command(program, Seq::empty()) == program,
        arg.contains(' ') ==> shown_command(program, args.push(arg)) == shown_command(program, args)
            + seq![' ', '"'] + arg + seq!['"'],
        !arg.contains(' ') ==> shown_command(program, args.push(arg)) == shown_command(program, args)
            + seq![' '] + arg,
{
    reveal_strlit(" ");
    reveal_strlit("\"");
    assert(" "@ =~= seq![' ']);
    assert("\""@ =~= seq!['"']);
    let more = args.push(arg);
    let short = seq![program] + Seq::new(args.len(), |i: int| shown_arg(args[i]));
    let long = seq![program] + Seq::new(more.len(), |i: int| shown_arg(more[i]));
    assert(long.drop_last() =~= short);
    assert(long.last() == shown_arg(arg));
    let none = Seq::<Seq<char>>::empty();
    assert(seq![program] + Seq::new(none.len(), |i: int| shown_arg(none[i])) =~= seq![program]);
    assert(shown_command(program, more) == shown_command(program, args) + " "@ + shown_arg(arg));
    assert(shown_command(program, args) + seq![' '] + (seq!['"'] + arg + seq!['"'])
        =~= shown_command(program, args) + seq![' ', '"'] + arg + seq!['"']);
}

/// A log is rolled over exactly where a line would take it over its limit and it is not empty; and
/// its generations lie beside it, with their number behind the name.
pub proof fn how_a_log_is_rolled_over(
    dir: Seq<char>,
    stem: Seq<char>,
    index: nat,
    written: nat,
    incoming: nat,
    limit: nat,
)
    requires
        dir.len() > 0 && dir.last() != '/',
        dir.len() == 1 || !(dir.last() == '.' && dir[dir.len() - 2] == '/'),
        crate::paths::is_plain_name(stem),
        forall|i: int| 1 <= i < stem.len() ==> stem[i] != '.',
    ensures
        rotates(written, incoming, limit) <==> written > 0 && written + incoming > limit,
        backup_of(dir + seq!['/'] + stem + ".log"@, index, false) == dir + seq!['/'] + stem
            + ".log."@ + decimal(index),
{
    reveal_strlit(".log");
    reveal_strlit("log.");
    reveal_strlit(".log.");
    let extension = seq!['l', 'o', 'g'];
    let other = "log."@ + decimal(index);
    crate::paths::how_an_extension_is_replaced(dir, stem, extension, other);
    assert(dir + seq!['/'] + stem + seq!['.'] + extension =~= dir + seq!['/'] + stem + ".log"@);
    assert(dir + seq!['/'] + stem + seq!['.'] + other =~= dir + seq!['/'] + stem + ".log."@
        + decimal(index));
}

/// What is asked for the listener of a port names the port, except for the tool that lists them
/// all; and an answer is read as that tool writes it. Without one nothing is known.
pub proof fn who_listens_is_asked_of_a_tool(port: u16, text: Seq<char>, tool: ListenerTool)
    ensures
        pid_named(tool, None, port) is None,
        pid_named(ListenerTool::Lsof, Some(text), port) == lsof_pid(text),
        pid_named(ListenerTool::Ss, Some(text), port) == ss_pid(text),
        pid_named(ListenerTool::Netstat, Some(text), port) == netstat_pid(lines(text), port),
        crate::text::mentions(listener_words(ListenerTool::Lsof, port)[3], decimal(port as nat)),
        listener_words(ListenerTool::Lsof, port)[0] == "lsof"@,
        listener_words(ListenerTool::Lsof, port).contains("-sTCP:LISTEN"@),
        listener_words(ListenerTool::Ss, port)[0] == "ss"@,
        crate::text::mentions(listener_words(ListenerTool::Ss, port)[2], decimal(port as nat)),
        listener_words(ListenerTool::Netstat, port) == seq!["netstat"@, "-ano"@],
{
    crate::text::lemma_mentions("-iTCP:"@, decimal(port as nat), Seq::empty());
    crate::text::lemma_mentions("sport = :"@, decimal(port as nat), Seq::empty());
    assert(listener_words(ListenerTool::Lsof, port)[4] == "-sTCP:LISTEN"@);
}

/// What is wrong with a way to start the Harness names the path that is wrong.
pub proof fn a_problem_names_its_path(problem: SpawnProblem)
    ensures
        problem matches SpawnProblem::Relative { label, path } ==> crate::text::mentions(
            problem_text(problem),
            path@,
        ) && crate::text::mentions(problem_text(problem), label@),
        problem matches SpawnProblem::NoWorkspace { path } ==> crate::text::mentions(
            problem_text(problem),
            path@,
        ),
{
    match problem {
        SpawnProblem::Relative { label, path } => {
            crate::text::lemma_mentions(label@ + " 必须是绝对路径: "@, path@, Seq::empty());
            let none = Seq::<char>::empty();
            assert(problem_text(problem) =~= none + label@ + (" 必须是绝对路径: "@ + path@));
        },
        SpawnProblem::NoWorkspace { path } => {
            crate::text::lemma_mentions(
                "workspace 不是已存在的目录（config.json 的 workspace）: "@,
                path@,
                Seq::empty(),
            );
        },
    }
}

/// A first line of `lsof` that is no number names no process.
pub proof fn no_other_line_of_lsof_is_a_pid(word: Seq<char>, i: int, rest: Seq<char>)
    requires
        0 <= i < word.len(),
        !('0' <= word[i] <= '9'),
        i > 0 || word[0] != '+',
        forall|k: int| 0 <= k < word.len() ==> !crate::redaction::blank(#[trigger] word[k]),
    ensures
        lsof_pid(Seq::empty()) is None,
        lsof_pid(word) is None,
        lsof_pid(word + seq!['\n'] + rest) is None,
{
    assert forall|k: int| 0 <= k < word.len() implies word[k] != '\n' by {
        assert(!crate::redaction::blank(word[k]));
    }
    assert(!crate::redaction::blank(word[0]) && !crate::redaction::blank(word[word.len() - 1]));
    crate::split::a_line_goes_up_to_its_end(word, rest);
    let none = Seq::<char>::empty();
    crate::text::trimming_takes_the_ends(none, word, none);
    assert(none + word + none =~= word);
    crate::number::only_digits_make_a_number(word, i, u32::MAX as nat);
}

} // verus!

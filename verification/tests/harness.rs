//! What the supervised Harness prints, how it is recognised, and its log.

use dsh_desktop::harness::{
    app_log, backup_path, describe, init_app_log, listener_command, listener_step,
    looks_like_dsh_web, parse_dsh_url, parse_lsof_pid, parse_netstat_pid, parse_ss_pid,
    probe_request, probe_step, spawn_args, spawn_env, spawn_line, validate_paths, wait_for_url,
    AppLog, ListenerStep, ListenerTool, Logger, NoUrl, PendingLine, Probe,
    ProbeEvent, ProbeStep, Ring, SpawnOptions, LINE_LIMIT_BYTES, LOG_BACKUPS,
    PROBE_RESPONSE_LIMIT, RING_BYTES, RING_CAPACITY, TRUNCATION_NOTE,
};
use dsh_desktop::redaction::redact;

/// The files of a log directory, moved and written the way a log file asks for it.
struct Disk {
    files: Vec<(String, String)>,
}

impl Disk {
    fn read(&self, path: &str) -> Option<&str> {
        self.files.iter().find(|(name, _)| name == path).map(|(_, text)| text.as_str())
    }

    fn rename(&mut self, from: &str, to: &str) {
        if let Some(at) = self.files.iter().position(|(name, _)| name == from) {
            let (_, text) = self.files.remove(at);
            self.files.retain(|(name, _)| name != to);
            self.files.push((to.to_string(), text));
        }
    }

    fn write(&mut self, log: &mut Logger, line: &str) {
        for (from, to) in log.rotate_before(line, false) {
            self.rename(&from, &to);
        }
        match self.files.iter_mut().find(|(name, _)| *name == log.path) {
            Some((_, text)) => {
                text.push_str(line);
                text.push('\n');
            }
            None => self.files.push((log.path.clone(), format!("{line}\n"))),
        }
        log.wrote(line);
    }
}

#[test]
fn spawn_paths_are_named_in_the_error() {
    assert!(validate_paths("/x/node", "/x/bin.js", "/x", true, false).is_ok());

    let error = validate_paths("node", "/x/bin.js", "/x", true, false).unwrap_err().to_text();
    assert!(error.contains("node"), "the failing entry must be named: {error}");
    let error = validate_paths("/x/node", "bin.js", "/x", true, false).unwrap_err().to_text();
    assert!(error.contains("dsh_js"), "the failing entry must be named: {error}");
    let error = validate_paths("/x/node", "/x/bin.js", "relative", true, false)
        .unwrap_err()
        .to_text();
    assert!(error.contains("workspace"), "the failing entry must be named: {error}");

    // The message a user sees on the failure page must point at the config entry.
    let error = validate_paths("/x/node", "/x/bin.js", "/x/missing", false, false)
        .unwrap_err()
        .to_text();
    assert!(error.contains("workspace"), "{error}");
    assert!(error.contains("config.json"), "{error}");
}

#[test]
fn rotates_while_running_and_keeps_three_backups() {
    let mut disk = Disk { files: Vec::new() };
    let mut log = Logger::with_limit("/logs/harness.log", 200, 0);
    for index in 0..40 {
        disk.write(&mut log, &format!("line {index:02} {}", "x".repeat(40)));
    }

    // The live file stays near the limit instead of holding the whole session.
    assert!(disk.read("/logs/harness.log").unwrap().len() <= 260);
    assert!(disk.read("/logs/harness.log.1").is_some());
    assert!(disk.read("/logs/harness.log.2").is_some());
    assert!(disk.read("/logs/harness.log.3").is_some());
    assert!(
        disk.read("/logs/harness.log.4").is_none(),
        "only {LOG_BACKUPS} backups are kept"
    );
    let newest = disk.read("/logs/harness.log.1").unwrap();
    assert!(newest.contains("line "), "the newest backup must hold log lines");
}

#[test]
fn a_session_below_the_limit_never_rotates() {
    let mut disk = Disk { files: Vec::new() };
    let mut log = Logger::with_limit("/logs/harness.log", 200, 0);
    for index in 0..3 {
        disk.write(&mut log, &format!("line {index}"));
    }
    assert!(disk.read("/logs/harness.log.1").is_none());
    assert!(disk.read("/logs/harness.log").unwrap().contains("line 2"));
}

#[test]
fn an_oversized_file_rotates_before_the_next_line() {
    let mut disk = Disk {
        files: vec![("/logs/harness.log".to_string(), "y".repeat(300))],
    };
    let mut log = Logger::with_limit("/logs/harness.log", 200, 300);
    disk.write(&mut log, "fresh line");

    assert_eq!(disk.read("/logs/harness.log").unwrap(), "fresh line\n");
    assert_eq!(disk.read("/logs/harness.log.1").unwrap().len(), 300);
    assert_eq!(backup_path("/logs/harness.log", 1, false), "/logs/harness.log.1");
}

#[test]
fn parses_plain_url() {
    let url = parse_dsh_url("dsh web: http://127.0.0.1:59753/?token=abc").unwrap();
    assert_eq!(url.port, Some(59753));
}

#[test]
fn ignores_lan_suffix() {
    let line = "dsh web: http://127.0.0.1:59753/?token=abc (LAN: http://10.0.0.5:59753/?token=abc)";
    let url = parse_dsh_url(line).unwrap();
    assert_eq!(url.host.as_deref(), Some("127.0.0.1"));
    assert_eq!(url.port, Some(59753));
}

#[test]
fn rejects_foreign_hosts_and_plain_lines() {
    assert!(parse_dsh_url("dsh web: http://example.com/?token=abc").is_none());
    assert!(parse_dsh_url("dsh web: listening").is_none());
    assert!(parse_dsh_url("hello").is_none());
    assert!(parse_dsh_url("open http://10.0.0.5:59753/?token=abc").is_none());
    // No token query: not a startup URL, however loopback it looks.
    assert!(parse_dsh_url("health http://127.0.0.1:59753/").is_none());
    assert!(parse_dsh_url("dsh web: http://127.0.0.1:59753/?lang=en").is_none());
    assert!(parse_dsh_url("dsh web: http://127.0.0.1:59753/?mytoken=a").is_none());
    assert!(parse_dsh_url("dsh web: http://127.0.0.1:59753/?lang=en&token=abc").is_some());
}

/// The prefix may be reworded or dropped; the parser must survive it.
#[test]
fn accepts_a_url_without_the_documented_prefix() {
    let url = parse_dsh_url("harness listening on http://127.0.0.1:59753/?token=abc").unwrap();
    assert_eq!(url.port, Some(59753));
    // A reworded prefix with a LAN suffix still prefers the loopback URL.
    let line = "web ui: http://127.0.0.1:3080/?token=abc (LAN: http://10.0.0.5:3080/?token=abc)";
    assert_eq!(parse_dsh_url(line).unwrap().port, Some(3080));
    // And a broken prefixed token must not stop the scan.
    let mixed = "dsh web: not-a-url | http://127.0.0.1:4123/?token=abc";
    assert_eq!(parse_dsh_url(mixed).unwrap().port, Some(4123));
}

/// The parts of a URL come from the parser, not from the text as it stands.
#[test]
fn a_startup_url_is_taken_apart() {
    let url = parse_dsh_url("dsh web: HTTP://127.0.0.1:80?token=abc").unwrap();
    assert_eq!(url.text, "http://127.0.0.1/?token=abc");
    assert_eq!(url.scheme, "http");
    assert_eq!(url.port, None);
    assert_eq!(url.query.as_deref(), Some("token=abc"));
}

#[test]
fn a_url_that_does_not_come_says_why() {
    let url = parse_dsh_url("dsh web: http://127.0.0.1:1/?token=a").unwrap();
    assert_eq!(wait_for_url(Ok(url.clone()), 30), Ok(url));
    let late = wait_for_url(Err(NoUrl::Late), 90).unwrap_err();
    assert!(late.starts_with("等待启动 URL 超时（90s）。"), "{late}");
    let ended = wait_for_url(Err(NoUrl::Ended), 90).unwrap_err();
    assert_eq!(ended, "Harness 输出已结束（进程已退出）。");
}

#[test]
fn parses_ss_listener_pid() {
    let line = r#"LISTEN 0 511 127.0.0.1:3080 0.0.0.0:* users:(("node",pid=73596,fd=17))"#;
    assert_eq!(parse_ss_pid(line), Some(73596));
    assert_eq!(parse_ss_pid("LISTEN 0 511 127.0.0.1:3080 0.0.0.0:*"), None);
    assert_eq!(parse_ss_pid("users:((\"node\",pid=,fd=1))"), None);
}

#[test]
fn the_other_listings_name_the_listener_too() {
    assert_eq!(parse_lsof_pid("73596\n80000\n"), Some(73596));
    assert_eq!(parse_lsof_pid(""), None);
    let table = "  TCP    127.0.0.1:3080    0.0.0.0:0    LISTENING    4711\r\n";
    assert_eq!(parse_netstat_pid(table, 3080), Some(4711));
    assert_eq!(parse_netstat_pid(table, 3081), None);
}

/// A listener that accepts and stays silent is no Harness once the time is used up.
#[test]
fn probe_gives_up_on_a_silent_listener() {
    assert_eq!(probe_step(b"", ProbeEvent::Armed), ProbeStep::Read);
    assert_eq!(probe_step(b"", ProbeEvent::Ended), ProbeStep::Answer(Probe::Other));
}

#[test]
fn redacts_token() {
    let out = redact("dsh web: http://127.0.0.1:1/?token=abcdef (LAN: x)");
    assert!(out.contains("token=***"));
    assert!(!out.contains("abcdef"));
}

/// The launch token was only the first credential the log could receive: a provider error
/// echoes request headers, and an env dump carries the API key.
#[test]
fn redacts_the_credentials_a_provider_error_can_echo() {
    let cases = [
        ("Authorization: Bearer sk-live-123456", "sk-live-123456"),
        ("authorization: bearer sk-live-123456", "sk-live-123456"),
        ("DEEPSEEK_API_KEY=sk-abc=def", "sk-abc=def"),
        ("api_key: sk-abc", "sk-abc"),
        ("Cookie: session=deadbeef", "deadbeef"),
        ("set-cookie: sid=deadbeef; Path=/", "deadbeef"),
        ("password=hunter2", "hunter2"),
        ("client_secret: shhh", "shhh"),
    ];
    for (line, secret) in cases {
        let out = redact(line);
        assert!(!out.contains(secret), "{line} leaked {secret}: {out}");
        assert!(out.contains("***"), "{line} was not redacted: {out}");
    }
}

/// Redaction must not eat the surrounding line: the log is still meant to be readable.
#[test]
fn redaction_keeps_the_rest_of_the_line() {
    assert_eq!(
        redact("GET /v1/chat?token=abc&model=deepseek"),
        "GET /v1/chat?token=***&model=deepseek"
    );
    assert_eq!(redact("nothing secret here"), "nothing secret here");
    // A word that merely contains a key name is left alone.
    assert_eq!(redact("tokenizer loaded"), "tokenizer loaded");
    assert_eq!(redact("tokens=3"), "tokens=3");
}

/// A letter outside of ASCII before a key makes it part of a longer word.
#[test]
fn a_key_inside_a_longer_word_is_left_alone() {
    assert_eq!(redact("étoken=abc"), "étoken=abc");
    assert_eq!(redact("，token=abc"), "，token=***");
}

/// An unrelated server that answers 200 must never be mistaken for a Harness.
#[test]
fn an_unrelated_http_server_is_not_a_harness() {
    for response in [
        "HTTP/1.1 200 OK\r\nContent-Type: text/html\r\n\r\n<html>vite dev server</html>",
        "HTTP/1.0 200 OK\r\n\r\n{}",
        "HTTP/1.1 401 Unauthorized\r\n\r\nlogin required",
        "HTTP/1.1 403 Forbidden\r\n\r\n",
        "HTTP/1.1 404 Not Found\r\n\r\n",
    ] {
        assert_eq!(
            probe_step(response.as_bytes(), ProbeEvent::Ended),
            ProbeStep::Answer(Probe::Other),
            "misread: {response:?}"
        );
    }
}

/// And the fence the CLI really serves still identifies it.
#[test]
fn the_auth_fence_identifies_a_harness() {
    let response = "HTTP/1.1 401 Unauthorized\r\nContent-Type: text/plain\r\n\r\n\
                    dsh web authentication required; reopen the URL printed by dsh web.\n";
    assert_eq!(
        probe_step(response.as_bytes(), ProbeEvent::Armed),
        ProbeStep::Answer(Probe::Harness)
    );
    // Half of it is no verdict yet.
    let half = &response.as_bytes()[..60];
    assert_eq!(probe_step(half, ProbeEvent::Armed), ProbeStep::Read);
    assert_eq!(probe_step(half, ProbeEvent::Ended), ProbeStep::Answer(Probe::Other));
}

/// A response without an end is not read for ever, and bytes that are no text do not stop it.
#[test]
fn an_endless_response_is_not_a_harness() {
    let endless = vec![b'x'; PROBE_RESPONSE_LIMIT];
    assert_eq!(probe_step(&endless, ProbeEvent::Armed), ProbeStep::Answer(Probe::Other));
    let mut odd = b"HTTP/1.1 401 Unauthorized\r\n\r\n".to_vec();
    odd.push(0xff);
    odd.extend_from_slice(b"dsh web authentication required");
    assert_eq!(probe_step(&odd, ProbeEvent::Armed), ProbeStep::Answer(Probe::Harness));
    assert!(probe_request(3080).contains("127.0.0.1:3080"));
}

/// A command line has to name the `dsh web` server before anything is signalled. Both the
/// flag this shell passes and the CLI's own `web` alias count.
#[test]
fn only_a_dsh_web_command_line_identifies_the_listener() {
    assert!(looks_like_dsh_web(
        "/opt/homebrew/bin/node /opt/homebrew/lib/node_modules/@deepseek-ai/dsh/lib/bin.js --profile web --port 3080"
    ));
    assert!(looks_like_dsh_web("/usr/local/bin/dsh web --port 3080"));
    // A dsh doing something else is not the server this shell supervises.
    assert!(!looks_like_dsh_web("/opt/homebrew/bin/node dsh --version"));
    assert!(!looks_like_dsh_web("dsh plugin --profile web add dshmarket"));
    // And neither is an unrelated server that happens to hold the port.
    assert!(!looks_like_dsh_web("/usr/bin/python3 -m http.server 3080"));
    assert!(!looks_like_dsh_web("node /srv/vite/bin/vite.js --port 3080"));
}

#[test]
fn the_ring_keeps_the_newest_lines() {
    let mut ring = Ring::new();
    assert_eq!(ring.tail(), "");
    for index in 0..RING_CAPACITY + 5 {
        ring.push_redacted(&format!("line {index}"));
    }
    let tail = ring.tail();
    let lines: Vec<&str> = tail.lines().collect();
    assert_eq!(lines.len(), RING_CAPACITY);
    assert_eq!(lines[0], "line 5");
    assert_eq!(lines[RING_CAPACITY - 1], format!("line {}", RING_CAPACITY + 4));
}

#[test]
fn the_ring_keeps_few_long_lines() {
    let mut ring = Ring::new();
    for _ in 0..5 {
        ring.push_redacted(&"x".repeat(LINE_LIMIT_BYTES));
    }
    assert!(ring.tail().len() <= RING_BYTES);
}

#[test]
fn a_line_is_put_together_from_pieces() {
    let mut line = PendingLine::new();
    let first = line.feed(b"dsh ");
    assert!(!first.ended);
    assert_eq!(first.consumed, 4);
    let second = line.feed(b"web\r\nnext");
    assert!(second.ended);
    assert_eq!(second.consumed, 5);
    assert_eq!(line.finish().as_deref(), Some("dsh web"));
    // The stream ends before a line begins.
    let mut none = PendingLine::new();
    assert!(none.feed(b"").ended);
    assert_eq!(none.finish(), None);
}

#[test]
fn a_line_without_an_end_is_cut() {
    let mut line = PendingLine::new();
    line.feed(&vec![b'x'; LINE_LIMIT_BYTES]);
    line.feed(b"yyy\n");
    let text = line.finish().unwrap();
    assert_eq!(text.len(), LINE_LIMIT_BYTES + TRUNCATION_NOTE.len());
    assert!(text.ends_with(TRUNCATION_NOTE));
    assert!(!text.contains('y'));
}

fn options() -> SpawnOptions {
    SpawnOptions {
        workspace: "/home/me".to_string(),
        overlay: "/data/force-print-url.yml".to_string(),
        dsh_home: Some("/home/me/.dsh".to_string()),
        port: 3080,
        log_path: "/data/logs/harness.log".to_string(),
        env: vec![("DEEPSEEK_API_KEY".to_string(), "k".to_string())],
    }
}

#[test]
fn the_harness_is_started_on_its_port_without_a_browser() {
    let args = spawn_args("/x/bin.js", &options());
    assert_eq!(args[0], "/x/bin.js");
    assert!(args.windows(2).any(|pair| pair[0] == "--profile" && pair[1] == "web"));
    assert!(args.windows(2).any(|pair| pair[0] == "--port" && pair[1] == "3080"));
    assert!(args
        .windows(2)
        .any(|pair| pair[0] == "--patch" && pair[1] == "/data/force-print-url.yml"));
    assert!(args.iter().any(|arg| arg == "--no-open"));
    let env = spawn_env(&options());
    assert!(env.contains(&("DSH_HOME".to_string(), "/home/me/.dsh".to_string())));
    assert!(env.contains(&("DEEPSEEK_API_KEY".to_string(), "k".to_string())));
    assert!(describe("/x/node", &args).starts_with("/x/node /x/bin.js"));
    assert!(spawn_line("/x/node", &args, &options()).contains("/home/me"));
}

#[test]
fn the_shell_logs_once_its_log_is_set_and_without_secrets() {
    let mut log = AppLog { path: None };
    assert_eq!(app_log(&log, "early"), None);
    init_app_log(&mut log, "/data/logs/harness.log");
    assert_eq!(log.path.as_deref(), Some("/data/logs/harness.log"));
    let line = app_log(&log, "url http://127.0.0.1:1/?token=abcdef").unwrap();
    assert!(line.contains("token=***"));
    assert!(!line.contains("abcdef"));
}

#[test]
fn no_bearer_scheme_is_left_in_a_line() {
    for line in [
        "Authorization: Bearer abc",
        "bearer a bearer b",
        "(BEARER token=xyz)",
        "token=bearer secret",
        "bearer",
    ] {
        let out = redact(line).to_lowercase();
        assert!(!out.contains("bearer"), "{line} kept the scheme: {out}");
    }
    // In the middle of a word it is no scheme.
    assert_eq!(redact("forbearer x"), "forbearer x");
}

#[test]
fn one_line_may_fill_the_tail_and_no_more() {
    let mut ring = Ring::new();
    ring.push_redacted("older");
    ring.push_redacted(&"x".repeat(RING_BYTES));
    assert_eq!(ring.tail().len(), RING_BYTES);
    // A longer one is not kept.
    ring.push_redacted(&"y".repeat(RING_BYTES + 1));
    assert_eq!(ring.tail().len(), RING_BYTES);
    ring.push_redacted("newer");
    assert_eq!(ring.tail(), "newer");
}

/// `ss` is asked where `lsof` names nobody, and on Linux alone.
#[test]
fn the_listener_is_asked_for_in_order() {
    let lsof = Some(ListenerTool::Lsof);
    let ss = Some(ListenerTool::Ss);
    assert_eq!(listener_step(None, None, 3080, false, true), ListenerStep::Ask(ListenerTool::Lsof));
    assert_eq!(listener_step(lsof, Some("17\n"), 3080, false, true), ListenerStep::Found(17));
    assert_eq!(listener_step(lsof, None, 3080, false, true), ListenerStep::Ask(ListenerTool::Ss));
    assert_eq!(listener_step(lsof, Some(""), 3080, false, false), ListenerStep::Unknown);
    assert_eq!(listener_step(ss, Some("pid=18,fd=1"), 3080, false, true), ListenerStep::Found(18));
    assert_eq!(listener_step(ss, None, 3080, false, true), ListenerStep::Unknown);
    assert_eq!(
        listener_step(None, None, 3080, true, false),
        ListenerStep::Ask(ListenerTool::Netstat)
    );
    let table = "  TCP    127.0.0.1:3080    0.0.0.0:0    LISTENING    4711\r\n";
    let netstat = Some(ListenerTool::Netstat);
    assert_eq!(listener_step(netstat, Some(table), 3080, true, false), ListenerStep::Found(4711));
    assert_eq!(listener_step(netstat, Some(table), 3081, true, false), ListenerStep::Unknown);
    assert_eq!(
        listener_command(ListenerTool::Lsof, 3080),
        ["lsof", "-nP", "-t", "-iTCP:3080", "-sTCP:LISTEN"]
    );
    assert_eq!(listener_command(ListenerTool::Ss, 3080), ["ss", "-ltnpH", "sport = :3080"]);
    assert_eq!(listener_command(ListenerTool::Netstat, 3080), ["netstat", "-ano"]);
}

/// What the log says of a secret field does not tell one value from another.
#[test]
fn the_log_hides_which_value_a_field_had() {
    for key in ["token", "API_KEY", "Set-Cookie", "session_id", "Authorization"] {
        for value in ["abc", "Zz9", "bearer", "bearerX", "token", "sk-a_b.c", "secret=x"] {
            assert_eq!(redact(&format!("{key}={value}&x=1")), format!("{key}=***&x=1"));
            assert_eq!(redact(&format!("{key}:{value}")), format!("{key}:***"));
        }
        assert_eq!(redact(&format!("got {key}=abc now")), redact(&format!("got {key}=Zz9 now")));
    }
    // White space behind the scheme word belongs to the credential.
    assert_eq!(redact("token=bearer abc"), "token=***");
    assert_eq!(redact("token=xyz abc"), "token=*** abc");
}

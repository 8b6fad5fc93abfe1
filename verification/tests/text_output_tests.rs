use chump::brain::{brain_path_exec, brain_root_exec, check_inside, content_matches_exec, is_markdown, MemoryBrainTool};
use chump::episode::{episode_recent, episode_search, stored_sentiment_exec, EpisodeQuery, EpisodeRow, EpisodeTool};
use chump::health;
use chump::limits::{check_message_len, check_tool_input_len, max_message_len};
use chump::log::{format_timestamp, gen_request_id, log_message, log_reply, redact};
use chump::memory_db::{escape_fts5_query, keyword_search, MemoryQuery};
use chump::paths::{check_under_root, repo_root_is_explicit, resolve_under_root, resolve_under_root_for_write};
use chump::soul::{chump_system_prompt, default_soul_exec};
use chump::state::{appended_value, incremented, state_read_all, state_seeds, StateRow};
use chump::tavily::{search_reply_exec, tavily_enabled, TavilyResult};
use chump::turn::{agent_message_exec, message_to_answer, ready_message, reply_to_send, strip_thinking, strip_thinking_checked, terminal_line};

#[test]
fn request_ids_are_eight_hex_digits() {
    assert_eq!(gen_request_id(0), "00000000");
    assert_eq!(gen_request_id(255), "000000ff");
    assert_eq!(gen_request_id(0xffff_ffff), "00000000");
    assert_eq!(gen_request_id(0x1_2345_6789), "2345678a");
}

#[test]
fn timestamps_pad_milliseconds() {
    assert_eq!(format_timestamp(1700000000, 7), "1700000000.007");
    assert_eq!(format_timestamp(5, 123), "5.123");
}

#[test]
fn log_lines() {
    assert_eq!(
        log_message("1.000", 42, "ann\nbob", "hi\nthere", Some("abcd1234")),
        "1.000 | msg | ch=42 | user=ann bob | hi there | req=abcd1234"
    );
    assert_eq!(log_reply("2.000", 7, 3, Some("ok!"), None), "2.000 | reply | ch=7 | len=3 | ok!");
    let long = "x".repeat(250);
    let line = log_message("t", 1, "u", &long, None);
    assert!(line.ends_with(&format!("{}…", "x".repeat(200))));
}

#[test]
fn redaction_replaces_every_secret() {
    let secrets = vec!["tok123".to_string(), "".to_string(), "key9".to_string()];
    assert_eq!(redact("a tok123 b key9 tok123", &secrets), "a [REDACTED] b [REDACTED] [REDACTED]");
    assert_eq!(redact("nothing here", &secrets), "nothing here");
}

#[test]
fn message_length_caps() {
    assert_eq!(check_message_len("hello", 5), Ok(()));
    assert_eq!(check_message_len("héllo", 5), Ok(()));
    assert_eq!(
        check_message_len("héllos", 5),
        Err("Message too long (max 5 characters). You sent 6.".to_string())
    );
    assert_eq!(check_message_len(&"é".repeat(10000), 16384), Ok(()));
    assert_eq!(check_tool_input_len(10, 10), Ok(()));
    assert_eq!(check_tool_input_len(11, 10), Err("Tool input too large (max 10 bytes). Got 11.".to_string()));
    assert_eq!(max_message_len(Some("100")), 100);
    assert_eq!(max_message_len(Some("lots")), 16384);
    assert_eq!(max_message_len(None), 16384);
}

#[test]
fn thinking_is_stripped() {
    assert_eq!(strip_thinking("<think>plan</think>Answer"), "Answer");
    assert_eq!(strip_thinking("A <THINK>x</Think> B <think>y</think> C"), "A  B  C");
    assert_eq!(strip_thinking("Reply  <think>never closed"), "Reply");
    assert_eq!(strip_thinking("line one\n  think> hidden\nline two"), "line one\nline two");
    assert_eq!(strip_thinking("  plain  "), "plain");
}

#[test]
fn thinking_tags_are_found_in_the_lower_cased_reply() {
    // The Kelvin sign lower-cases to `k`, so this opens a block; the cut falls at the
    // byte offsets of the lower-cased text, which is shorter by two bytes.
    assert_eq!(strip_thinking_checked("<thin\u{212A}>x</think>y"), Some("k>y".to_string()));
    // The cut lands inside a Kelvin sign: no character boundary there.
    assert_eq!(strip_thinking_checked("\u{212A}\u{212A}<think>x</think>"), None);
    // `İ` lower-cases to two characters of three bytes, so an unclosed block is cut late.
    assert_eq!(
        strip_thinking_checked("\u{130}\u{130}\u{130}\u{130}\u{130}\u{130}\u{130}<think>x"),
        Some("\u{130}\u{130}\u{130}\u{130}\u{130}\u{130}\u{130}<think>".to_string())
    );
    assert_eq!(strip_thinking_checked("A <THINK>x</Think> B"), Some("A  B".to_string()));
}

#[test]
fn replies_are_cut_for_discord() {
    assert_eq!(reply_to_send("short"), "short");
    let long = "a".repeat(2000);
    let sent = reply_to_send(&long);
    assert_eq!(sent, format!("{}…", "a".repeat(1989)));
    assert_eq!(reply_to_send(&"b".repeat(1990)), "b".repeat(1990));
    assert_eq!(terminal_line("hi\nthere"), "Chump → 8 chars: hi there");
}

#[test]
fn which_messages_are_answered() {
    assert_eq!(message_to_answer(false, "  hi ", true, false), Some("hi".to_string()));
    assert_eq!(message_to_answer(true, "hi", true, true), None);
    assert_eq!(message_to_answer(false, "   ", true, true), None);
    assert_eq!(message_to_answer(false, "hi", false, false), None);
    assert_eq!(message_to_answer(false, "hi", false, true), Some("hi".to_string()));
    assert_eq!(agent_message_exec("", "hello"), "hello");
    assert_eq!(
        agent_message_exec("1. likes rust", "hello"),
        "Relevant context from memory:\n1. likes rust\n\nUser: hello"
    );
    assert!(ready_message(false).starts_with("Chump is online"));
    assert!(ready_message(true).starts_with("Chump is fully armored"));
}

#[test]
fn system_prompt_assembly() {
    assert_eq!(chump_system_prompt(Some("Be terse."), None, false, None, None, None, None, false), "Be terse.");
    let with_repo = chump_system_prompt(Some("X"), None, false, Some(" /src/chump "), None, Some("o/r"), Some("1"), true);
    assert!(with_repo.starts_with("X\n\nYour codebase (this agent) is at /src/chump. "));
    assert!(with_repo.contains("(CHUMP_AUTO_PUSH=1)."));
    assert!(with_repo.ends_with("commit and push when approved."));
    let default = chump_system_prompt(None, None, false, Some("  "), None, None, None, false);
    assert_eq!(default, default_soul_exec());
    let brain = chump_system_prompt(Some("X"), None, true, None, None, None, None, false);
    assert!(brain.starts_with("X\n\n\n## Continuity and Memory"));
    let project = chump_system_prompt(None, Some("TRUE"), false, None, None, None, None, false);
    assert!(project.starts_with("You are Chump, a dev buddy in Discord."));
}

#[test]
fn state_values() {
    let seeds = state_seeds(0);
    assert_eq!(seeds.len(), 9);
    assert_eq!(seeds[1], ("mood".to_string(), "neutral".to_string()));
    assert!(state_seeds(3).is_empty());
    let rows = vec![
        StateRow { key: "a".into(), value: "1".into(), updated_at: "t1".into() },
        StateRow { key: "b".into(), value: "2".into(), updated_at: "t2".into() },
    ];
    assert_eq!(state_read_all(&rows), "a: 1\n  (updated t1)\nb: 2\n  (updated t2)\n");
    assert_eq!(appended_value(Some(""), "x"), "x");
    assert_eq!(appended_value(Some("old"), "x"), "old\nx");
    assert_eq!(appended_value(None, "x"), "x");
    assert_eq!(incremented(Some(" 41 ")), 42);
    assert_eq!(incremented(Some("many")), 1);
    assert_eq!(incremented(None), 1);
}

#[test]
fn episode_rows_and_queries() {
    let row = EpisodeRow::from_stored(
        3,
        "t".into(),
        "Fixed".into(),
        Some("".into()),
        Some("auth".into()),
        Some("".into()),
        Some("win".into()),
        Some(0),
        Some(52),
    );
    assert!(row.detail.is_none());
    assert_eq!(row.tags.as_deref(), Some("auth"));
    assert!(row.repo.is_none());
    assert!(row.pr_number.is_none());
    assert_eq!(row.issue_number, Some(52));
    assert_eq!(EpisodeTool::recent_reply(&vec![row]), "[3] t | win | — | Fixed");
    assert_eq!(EpisodeTool::recent_reply(&vec![]), "No recent episodes.");
    assert_eq!(stored_sentiment_exec(Some("WIN")), "WIN");
    assert_eq!(stored_sentiment_exec(Some("great")), "neutral");
    assert_eq!(stored_sentiment_exec(None), "neutral");
    assert!(matches!(episode_recent(Some(""), 500), EpisodeQuery::Recent { repo: None, limit: 100 }));
    match episode_search(" login ", 80) {
        EpisodeQuery::Search { pattern, limit } => {
            assert_eq!(pattern, "%login%");
            assert_eq!(limit, 50);
        }
        _ => panic!("expected a search"),
    }
    assert_eq!(EpisodeTool::logged(4, "did it"), "Logged episode 4: did it");
}

#[test]
fn fts5_queries_quote_each_word() {
    assert_eq!(escape_fts5_query("  rust  say \"hi\" "), "\"rust\" OR \"say\" OR \"\"\"hi\"\"\"");
    assert_eq!(escape_fts5_query("   "), "");
    assert!(matches!(keyword_search(" ", 500), MemoryQuery::Latest { limit: 100 }));
    match keyword_search("a:b", 5) {
        MemoryQuery::Match { pattern, limit } => {
            assert_eq!(pattern, "\"a:b\"");
            assert_eq!(limit, 5);
        }
        _ => panic!("expected a match query"),
    }
}

#[test]
fn web_search_replies() {
    let results = vec![
        TavilyResult { title: Some("Verus".into()), url: Some("https://v".into()), content: Some("  fast  ".into()) },
        TavilyResult { title: None, url: None, content: None },
    ];
    assert_eq!(
        search_reply_exec(Some("Yes."), Some(&results)),
        "Answer: Yes.\n\nSources:\n1. Verus | https://v\n   fast\n2. (no title) |"
    );
    assert_eq!(search_reply_exec(Some(""), None), "No results for that query.");
    let long = TavilyResult { title: None, url: None, content: Some("é".repeat(200)) };
    let out = search_reply_exec(None, Some(&vec![long]));
    assert!(out.ends_with('…'));
    assert!(tavily_enabled(Some(" key ")));
    assert!(!tavily_enabled(Some("  ")));
    assert!(!tavily_enabled(None));
}

#[test]
fn repo_paths() {
    assert_eq!(resolve_under_root_for_write(" src/./main.rs ", "/repo"), Ok("/repo/src/main.rs".to_string()));
    assert_eq!(resolve_under_root_for_write("../etc/passwd", "/repo"), Err("path must not contain ..".to_string()));
    assert_eq!(resolve_under_root_for_write("/etc/passwd", "/repo"), Err("path must be relative".to_string()));
    assert_eq!(resolve_under_root_for_write("  ", "/repo"), Err("path is empty".to_string()));
    assert_eq!(resolve_under_root("docs", "/repo/"), Ok("/repo/docs".to_string()));
    assert_eq!(check_under_root("/repo/docs", "/repo"), Ok("/repo/docs".to_string()));
    assert_eq!(check_under_root("/repository", "/repo"), Err("path must be under repo root".to_string()));
    assert!(repo_root_is_explicit(Some(" /r "), None));
    assert!(!repo_root_is_explicit(Some("  "), Some("/home")));
    assert!(repo_root_is_explicit(None, Some("/home")));
}

#[test]
fn brain_paths_and_files() {
    assert_eq!(brain_root_exec(None, "/work"), "/work/chump-brain");
    assert_eq!(brain_root_exec(Some("/brain"), "/work"), "/brain");
    assert_eq!(brain_path_exec(" repos/app/../self.md "), Ok("repos/self.md".to_string()));
    assert_eq!(brain_path_exec("../x.md"), Err("Path escapes brain root: ../x.md".to_string()));
    assert_eq!(brain_path_exec("/x.md"), Err("Path must be relative: /x.md".to_string()));
    assert_eq!(brain_path_exec("  "), Err("path is empty".to_string()));
    assert_eq!(check_inside("/b/x", "/b", "x"), Ok(()));
    assert_eq!(check_inside("/c/x", "/b", "x"), Err("Path escapes brain root: x".to_string()));
    assert!(is_markdown("notes.md"));
    assert!(!is_markdown("notes.txt"));
    assert!(content_matches_exec("Gotchas about Tokio", "tokio"));
    assert!(!content_matches_exec("nothing", "tokio"));
    assert_eq!(MemoryBrainTool::appended_text("x"), "\nx\n");
    assert_eq!(MemoryBrainTool::file_list(&vec![], "No .md files in brain."), "No .md files in brain.");
    assert_eq!(MemoryBrainTool::file_list(&vec!["a.md".into(), "b/c.md".into()], "none"), "a.md\nb/c.md");
}

#[test]
fn health_endpoint_pieces() {
    assert!(health::is_health_request("GET /health HTTP/1.1"));
    assert!(!health::is_health_request("GET / HTTP/1.1"));
    assert_eq!(health::model_base(Some("http://x/v1//")), Some("http://x/v1".to_string()));
    assert_eq!(health::model_base(Some("")), None);
    assert_eq!(health::embed_base(None), "http://127.0.0.1:18765");
    assert_eq!(health::ok_response("{}"), "HTTP/1.1 200 OK\r\nContent-Type: application/json\r\nContent-Length: 2\r\nConnection: close\r\n\r\n{}");
    assert_eq!(health::chump_version(None, "0.1.0"), "0.1.0");
    assert!(health::paused(Some("True"), false));
    assert!(!health::paused(Some("yes"), false));
    assert!(health::paused(None, true));
    assert_eq!(health::health_port(Some("8080")), Some(8080));
    assert_eq!(health::health_port(Some("70000")), None);
}

use chump::calc::ChumpCalculator;
use chump::cli::{cli_output_exec, CliRefusal, CliTool};
use chump::delegate::{batch_rounds, max_parallel_workers, worker_config, DelegateTool};
use chump::github::{clone_pull_target, github_enabled, parse_repo, percent_encode_exec, validate_repo_path, GithubRepoReadTool};
use chump::json::{JsonNumber, JsonValue};
use chump::order::{lex_le_exec, sort_strings};
use chump::provider::{after_failure, chat_url, is_transient_error, stop_reason, AfterFailure, CircuitBreaker, LocalOpenAIProvider, StopKind};
use chump::repo_tools::EditFileTool;
use chump::schedule::{parse_fire_at, schedule_due, schedule_list, DueCandidate, ScheduleTool, ScheduledRow};
use chump::task::{task_list, TaskRow, TaskTool};
use chump::turn::{max_concurrent_turns, model_choice, rate_limit_turns_per_min, tool_plan, Availability, RateLimiter, ToolKind};

fn s(x: &str) -> JsonValue {
    JsonValue::Str(x.to_string())
}

fn obj(pairs: Vec<(&str, JsonValue)>) -> JsonValue {
    JsonValue::Object(pairs.into_iter().map(|(k, v)| (k.to_string(), v)).collect())
}

fn alarm(id: i64, fire_at: &str, fired: i64) -> ScheduledRow {
    ScheduledRow { id, fire_at: fire_at.into(), prompt: format!("p{}", id), context: None, fired }
}

fn task(id: i64, status: &str) -> TaskRow {
    TaskRow {
        id,
        title: format!("t{}", id),
        repo: None,
        issue_number: None,
        status: status.into(),
        notes: None,
        created_at: None,
        updated_at: None,
    }
}

#[test]
fn unknown_operation_errors() {
    let err = ChumpCalculator::operation("sqrt").err().unwrap();
    assert!(err.contains("unknown operation"));
}

#[test]
fn run_blocked_command_returns_error() {
    let tool = CliTool::with_allowlist_blocklist(vec![], vec!["rm".into()]);
    let out = tool.decide(&obj(vec![("command", s("rm -rf /nonexistent"))]));
    assert!(out.is_err());
    let err = out.err().unwrap().message_exec();
    assert!(err.contains("not allowed") || err.contains("blocklist"));
}

#[test]
fn run_empty_allowlist_allows_safe_command() {
    let tool = CliTool::with_allowlist_blocklist(vec![], vec![]);
    let out = tool.decide(&obj(vec![("command", s("echo ok"))]));
    assert!(out.is_ok());
    assert!(out.ok().unwrap().contains("ok"));
}

#[test]
fn run_allowlist_only_listed() {
    let tool = CliTool::with_allowlist_blocklist(vec!["echo".into()], vec![]);
    let out = tool.decide(&obj(vec![("command", s("echo allowed"))]));
    assert!(out.is_ok());
    assert!(out.ok().unwrap().contains("allowed"));
    let out = tool.decide(&obj(vec![("command", s("cat /dev/null"))]));
    assert!(out.is_err());
}

#[test]
fn cli_refusals_and_output() {
    let tool = CliTool::with_allowlist_blocklist(vec![], vec![]);
    assert!(matches!(tool.decide(&obj(vec![])), Err(CliRefusal::Missing)));
    assert!(matches!(tool.decide(&obj(vec![("command", s("   "))])), Err(CliRefusal::Missing)));
    assert_eq!(cli_output_exec("", "", Some(3), 100), "exit code 3");
    assert_eq!(cli_output_exec("out", "err", Some(0), 100), "out\nstderr:\nerr");
    assert_eq!(cli_output_exec("abcdef", "", None, 4), "abc…");
}

#[test]
fn delegate_batch_empty_tasks_rejected() {
    let input = obj(vec![("tasks", JsonValue::Array(vec![]))]);
    let out = match DelegateTool::batch_plan(&input) {
        Some(Err(reply)) => reply,
        _ => panic!("an empty batch is refused"),
    };
    assert!(out.contains("tasks array is empty"));
}

#[test]
fn delegate_batch_returns_numbered_lines() {
    let tasks = vec![
        obj(vec![("task_type", s("summarize")), ("text", s(""))]),
        obj(vec![("task_type", s("extract")), ("text", s(""))]),
    ];
    let results: Vec<String> = tasks
        .iter()
        .map(|t| match DelegateTool::single(t) {
            Ok(_) => panic!("no worker call expected"),
            Err(reply) => reply,
        })
        .collect();
    let out = DelegateTool::batch_reply(&results);
    assert!(out.starts_with("1. "));
    assert!(out.contains("text is required"));
    assert!(out.contains("\n2. "));
    assert_eq!(out.matches("text is required").count(), 2);
}

#[test]
fn delegate_configuration() {
    assert_eq!(max_parallel_workers(Some("8")), 8);
    assert_eq!(max_parallel_workers(Some("64")), 4);
    assert_eq!(max_parallel_workers(None), 4);
    let c = worker_config(None, Some(""), Some("http://b"), Some(""), Some("m"), Some(""));
    assert_eq!(c.api_key, "token-abc123");
    assert_eq!(c.base.as_deref(), Some("http://b"));
    assert_eq!(c.model, "m");
    assert!(c.fallback.is_none());
    let d = worker_config(Some("k"), Some("http://w"), Some("http://b"), Some("small"), None, Some("http://f"));
    assert_eq!(d.base.as_deref(), Some("http://w"));
    assert_eq!(d.model, "small");
    assert_eq!(d.fallback.as_deref(), Some("http://f"));
    assert_eq!(worker_config(None, None, None, None, None, None).model, "gpt-5-mini");
    assert_eq!(batch_rounds(10, 4), vec![(0, 4), (4, 8), (8, 10)]);
    assert_eq!(batch_rounds(8, 4), vec![(0, 4), (4, 8)]);
    assert!(batch_rounds(0, 4).is_empty());
}

#[test]
fn edit_file_replaces_once_when_exact() {
    let (out, _line) = EditFileTool::edit("fn foo() { bar(); }", "fn foo() { bar(); }", "fn foo() { baz(); }")
        .ok()
        .unwrap();
    assert_eq!(out, "fn foo() { baz(); }");
}

#[test]
fn edit_file_rejects_duplicate_old_str() {
    let err = EditFileTool::edit("x\nx\nx", "x", "y").err().unwrap();
    assert!(err.contains("exactly once"));
    assert!(err.contains("3 times"));
}

#[test]
fn strings_sort_like_string_ord() {
    let v = vec!["b".to_string(), "a".to_string(), "ab".to_string(), "B".to_string(), "".to_string(), "a".to_string()];
    let mut expected = v.clone();
    expected.sort();
    assert_eq!(sort_strings(v), expected);
    assert!(lex_le_exec("ab", "abc"));
    assert!(!lex_le_exec("b", "abc"));
    assert!(lex_le_exec("é", "é"));
}

#[test]
fn rate_limiter_counts_turns_per_channel() {
    let mut rl = RateLimiter::new();
    let sec: u64 = 1_000_000_000;
    assert!(rl.check(1, 0, 2));
    assert!(rl.check(1, 10 * sec, 2));
    assert!(!rl.check(1, 20 * sec, 2));
    assert!(rl.check(2, 20 * sec, 2));
    assert!(rl.check(1, 61 * sec, 2));
    assert!(!rl.check(1, 62 * sec, 2));
    assert!(rl.check(1, 62 * sec, 0));
    assert_eq!(rate_limit_turns_per_min(Some("5")), 5);
    assert_eq!(rate_limit_turns_per_min(Some("x")), 0);
    assert_eq!(max_concurrent_turns(Some("0")), None);
    assert_eq!(max_concurrent_turns(Some("100")), Some(32));
    assert_eq!(max_concurrent_turns(Some("3")), Some(3));
}

#[test]
fn circuit_opens_after_three_failures() {
    let mut cb = CircuitBreaker::new();
    let base = "http://127.0.0.1:8000/v1";
    cb.record_failure(base, 1);
    cb.record_failure(base, 2);
    assert!(!cb.is_open(base, 3));
    cb.record_failure(base, 3);
    assert!(cb.is_open(base, 4));
    assert!(cb.is_open(base, 3 + 30_000_000_000 - 1));
    assert!(!cb.is_open(base, 3 + 30_000_000_000));
    assert!(!cb.is_open("http://other", 4));
    cb.record_success(base);
    assert!(!cb.is_open(base, 4));
}

#[test]
fn provider_decisions() {
    assert!(is_transient_error("error sending request: connection refused"));
    assert!(is_transient_error("Local API error 503 Service Unavailable: busy"));
    assert!(!is_transient_error("Local API error 401 Unauthorized: no"));
    assert!(!is_transient_error("model temporarily unavailable (circuit open for 30s)"));
    assert!(matches!(stop_reason(Some("tool_calls")), StopKind::ToolUse));
    assert!(matches!(stop_reason(None), StopKind::EndTurn));
    assert!(matches!(stop_reason(Some("length")), StopKind::MaxTokens));
    assert!(matches!(stop_reason(Some("weird")), StopKind::EndTurn));
    assert!(matches!(after_failure(0, true, false), AfterFailure::Retry { delay_ms: 1000 }));
    assert!(matches!(after_failure(1, true, false), AfterFailure::Retry { delay_ms: 2000 }));
    assert!(matches!(after_failure(2, true, true), AfterFailure::Fallback));
    assert!(matches!(after_failure(2, true, false), AfterFailure::Exhausted));
    assert!(matches!(after_failure(0, false, true), AfterFailure::Fail));
    let p = LocalOpenAIProvider::with_fallback("http://localhost:8000/v1/", Some("http://f/v1//"), "not-needed", "m");
    assert_eq!(p.base_url, "http://localhost:8000/v1");
    assert_eq!(p.fallback_base_url.as_deref(), Some("http://f/v1"));
    assert!(p.skip_auth(&p.base_url));
    assert!(!p.skip_auth("http://f/v1"));
    assert_eq!(chat_url("http://x/v1"), "http://x/v1/chat/completions");
}

#[test]
fn schedule_times_and_due_alarms() {
    assert_eq!(parse_fire_at("4h", 1000), Some(Ok(15400)));
    assert_eq!(parse_fire_at(" 123 ", 0), Some(Ok(123)));
    assert_eq!(parse_fire_at("2D", 0), Some(Ok(172800)));
    assert_eq!(parse_fire_at("30m", 10), Some(Ok(1810)));
    assert_eq!(parse_fire_at("xh", 0), Some(Err("fire_at: expected number before 'h' (e.g. 4h)".to_string())));
    assert_eq!(parse_fire_at("  ", 0), Some(Err("fire_at is empty".to_string())));
    assert_eq!(
        parse_fire_at("soon", 0),
        Some(Err("fire_at: use unix timestamp (seconds) or relative: 4h, 2d, 30m".to_string()))
    );
    assert_eq!(parse_fire_at("9223372036854775807h", 0), None);
    let rows = vec![
        DueCandidate { row: alarm(1, "100", 0), fire_at_secs: 100 },
        DueCandidate { row: alarm(2, "500", 0), fire_at_secs: 500 },
        DueCandidate { row: alarm(3, "50", 1), fire_at_secs: 50 },
    ];
    let due = schedule_due(rows, 200);
    assert_eq!(due, vec![(1, "p1".to_string(), String::new())]);
    let listed = schedule_list(vec![alarm(1, "1", 0), alarm(2, "2", 1), alarm(3, "3", 0)], false);
    assert_eq!(listed.iter().map(|r| r.id).collect::<Vec<_>>(), vec![1, 3]);
    assert_eq!(ScheduleTool::cancelled(false, 9), Err("Schedule id 9 not found.".to_string()));
    assert_eq!(ScheduleTool::created(5, "4h", "check"), "Scheduled id 5 to fire at 4h (prompt: check).");
}

#[test]
fn task_listing() {
    let rows = vec![task(1, "open"), task(2, "done"), task(3, "blocked"), task(4, "in_progress")];
    let ids = |v: Vec<TaskRow>| v.iter().map(|t| t.id).collect::<Vec<_>>();
    assert_eq!(ids(task_list(rows, None)), vec![1, 3, 4]);
    let rows = vec![task(1, "open"), task(2, "done")];
    assert_eq!(ids(task_list(rows, Some("done"))), vec![2]);
    let rows = vec![task(1, "open"), task(2, "done")];
    assert_eq!(ids(task_list(rows, Some("nonsense"))), vec![1]);
    assert_eq!(TaskTool::created("Fix", 3), "Created task Fix (id 3).");
    assert_eq!(TaskTool::completed(false, 7), Err("Task id 7 not found.".to_string()));
    assert_eq!(TaskTool::list_reply(&vec![]), "No tasks.");
}

#[test]
fn github_repo_checks() {
    assert_eq!(parse_repo(" owner/repo "), Ok(("owner".to_string(), "repo".to_string())));
    assert_eq!(parse_repo("owner"), Err("repo must be owner/name".to_string()));
    assert_eq!(clone_pull_target("o/r"), Ok("o_r".to_string()));
    assert_eq!(validate_repo_path(" /src/main.rs "), Ok("src/main.rs".to_string()));
    assert_eq!(validate_repo_path("a/../b"), Err("path must not contain ..".to_string()));
    assert_eq!(percent_encode_exec("a b/c"), "a%20b/c");
    assert!(github_enabled(Some("t"), None, Some("o/r")));
    assert!(!github_enabled(None, None, Some("o/r")));
    let list = vec!["o/r".to_string()];
    let input = obj(vec![("repo", s("o/r")), ("path", s("src/lib.rs"))]);
    assert_eq!(
        GithubRepoReadTool::request_url(&list, &input),
        Ok("https://api.github.com/repos/o/r/contents/src/lib.rs?ref=main".to_string())
    );
    let other = obj(vec![("repo", s("x/y")), ("path", s("a"))]);
    assert_eq!(
        GithubRepoReadTool::request_url(&list, &other),
        Err("repo x/y is not in CHUMP_GITHUB_REPOS".to_string())
    );
}

#[test]
fn tools_for_a_turn() {
    let none = Availability {
        wasm_calc: false,
        delegate: false,
        web_search: false,
        github: false,
        git_tools: false,
        gh_tools: false,
        task: false,
        state: false,
        episode: false,
        schedule: false,
        repo_explicit: false,
    };
    let plan = tool_plan(&none);
    assert_eq!(plan.len(), 11);
    assert!(matches!(plan[0], ToolKind::Calculator));
    assert!(matches!(plan[9], ToolKind::Notify));
    assert!(matches!(plan[10], ToolKind::MemoryBrain));
    let all = Availability {
        wasm_calc: true,
        delegate: true,
        web_search: true,
        github: true,
        git_tools: true,
        gh_tools: true,
        task: true,
        state: true,
        episode: true,
        schedule: true,
        repo_explicit: true,
    };
    let plan = tool_plan(&all);
    assert_eq!(plan.len(), 31);
    assert!(matches!(plan[30], ToolKind::DiffReview));
    let m = model_choice(None, None, Some("http://h/v1/"), Some(""));
    assert_eq!(m.api_key, "token-abc123");
    assert_eq!(m.model, "gpt-5-mini");
    let local = m.local.unwrap();
    assert_eq!(local.base_url, "http://h/v1");
    assert!(local.fallback_base_url.is_none());
    assert!(model_choice(None, None, None, None).local.is_none());
}

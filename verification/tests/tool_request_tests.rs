use chump::brain::{BrainRequest, MemoryBrainTool};
use chump::calc::{CalcOp, ChumpCalculator, ExprError, WasmCalcTool};
use chump::delegate::DelegateTool;
use chump::diff_review::DiffReviewTool;
use chump::episode::{EpisodeRequest, EpisodeTool};
use chump::json::{JsonNumber, JsonValue};
use chump::notify::NotifyTool;
use chump::repo_tools::{EditFileTool, ListDirTool, ReadFileTool, WriteFileTool, WriteMode};
use chump::schedule::{ScheduleRequest, ScheduleTool};
use chump::state::{EgoRequest, EgoTool};
use chump::task::{TaskRequest, TaskTool};
use chump::tavily::{KeyProblem, TavilyTool};

fn s(x: &str) -> JsonValue {
    JsonValue::Str(x.to_string())
}

fn n(x: u64) -> JsonValue {
    JsonValue::Number(JsonNumber { as_u64: Some(x), as_i64: Some(x as i64), as_f64_trunc: x })
}

fn b(x: bool) -> JsonValue {
    JsonValue::Bool(x)
}

fn obj(pairs: Vec<(&str, JsonValue)>) -> JsonValue {
    JsonValue::Object(pairs.into_iter().map(|(k, v)| (k.to_string(), v)).collect())
}

fn err<T>(r: Result<T, String>) -> String {
    match r {
        Ok(_) => panic!("expected an error"),
        Err(e) => e,
    }
}

#[test]
fn task_create_request_is_trimmed() {
    let input = obj(vec![
        ("action", s(" Create ")),
        ("title", s("  Fix login  ")),
        ("repo", s(" owner/repo ")),
        ("issue_number", n(52)),
    ]);
    match TaskTool::request(&input) {
        Ok(TaskRequest::Create { title, repo, issue_number }) => {
            assert_eq!(title, "Fix login");
            assert_eq!(repo.as_deref(), Some("owner/repo"));
            assert_eq!(issue_number, Some(52));
        }
        _ => panic!("expected a create request"),
    }
}

#[test]
fn task_request_errors() {
    assert_eq!(err(TaskTool::request(&obj(vec![]))), "missing action");
    assert_eq!(err(TaskTool::request(&obj(vec![("action", s("create"))]))), "create requires title");
    assert_eq!(
        err(TaskTool::request(&obj(vec![("action", s("create")), ("title", s("   "))]))),
        "title is empty"
    );
    assert_eq!(err(TaskTool::request(&obj(vec![("action", s("update"))]))), "update requires id");
    assert_eq!(
        err(TaskTool::request(&obj(vec![("action", s("update")), ("id", n(3))]))),
        "update requires status"
    );
    assert_eq!(
        err(TaskTool::request(&obj(vec![("action", s("update")), ("id", n(3)), ("status", s("later"))]))),
        "status must be open, in_progress, blocked, done, or abandoned"
    );
    assert_eq!(err(TaskTool::request(&obj(vec![("action", s("complete"))]))), "complete requires id");
    assert_eq!(
        err(TaskTool::request(&obj(vec![("action", s("delete"))]))),
        "action must be create, list, update, or complete"
    );
}

#[test]
fn task_update_and_list_requests() {
    let input = obj(vec![
        ("action", s("update")),
        ("id", n(7)),
        ("status", s(" blocked ")),
        ("notes", s("waiting on CI")),
    ]);
    match TaskTool::request(&input) {
        Ok(TaskRequest::Update { id, status, notes }) => {
            assert_eq!(id, 7);
            assert_eq!(status, "blocked");
            assert_eq!(notes.as_deref(), Some("waiting on CI"));
        }
        _ => panic!("expected an update request"),
    }
    match TaskTool::request(&obj(vec![("action", s("LIST"))])) {
        Ok(TaskRequest::List { status }) => assert!(status.is_none()),
        _ => panic!("expected a list request"),
    }
}

#[test]
fn schedule_requests() {
    let input = obj(vec![
        ("action", s("create")),
        ("fire_at", s(" 4h ")),
        ("prompt", s(" check CI ")),
        ("context", s("pr 61")),
    ]);
    match ScheduleTool::request(&input) {
        Ok(ScheduleRequest::Create { fire_at, prompt, context }) => {
            assert_eq!(fire_at, "4h");
            assert_eq!(prompt, "check CI");
            assert_eq!(context.as_deref(), Some("pr 61"));
        }
        _ => panic!("expected a create request"),
    }
    match ScheduleTool::request(&obj(vec![("action", s("list")), ("include_fired", b(true))])) {
        Ok(ScheduleRequest::List { include_fired }) => assert!(include_fired),
        _ => panic!("expected a list request"),
    }
    assert_eq!(
        err(ScheduleTool::request(&obj(vec![("action", s("create")), ("prompt", s("x"))]))),
        "create requires fire_at"
    );
    assert_eq!(
        err(ScheduleTool::request(&obj(vec![("action", s("create")), ("fire_at", s("4h"))]))),
        "create requires prompt"
    );
    assert_eq!(err(ScheduleTool::request(&obj(vec![("action", s("cancel"))]))), "cancel requires id");
    assert_eq!(
        err(ScheduleTool::request(&obj(vec![("action", s("snooze"))]))),
        "action must be create, list, or cancel"
    );
}

#[test]
fn ego_requests() {
    match EgoTool::request(&obj(vec![("action", s("read_all"))])) {
        Ok(EgoRequest::ReadAll) => {}
        _ => panic!("expected read_all"),
    }
    match EgoTool::request(&obj(vec![("action", s("append")), ("key", s(" frustrations ")), ("value", s(" auth "))])) {
        Ok(EgoRequest::Append { key, value }) => {
            assert_eq!(key, "frustrations");
            assert_eq!(value, "auth");
        }
        _ => panic!("expected append"),
    }
    assert_eq!(err(EgoTool::request(&obj(vec![("action", s("read"))]))), "read requires key");
    assert_eq!(err(EgoTool::request(&obj(vec![("action", s("write")), ("key", s("mood"))]))), "write requires value");
    assert_eq!(err(EgoTool::request(&obj(vec![("action", s("append"))]))), "append requires key");
    assert_eq!(
        err(EgoTool::request(&obj(vec![("action", s("write")), ("key", s(" ")), ("value", s("x"))]))),
        "key is empty"
    );
    assert_eq!(
        err(EgoTool::request(&obj(vec![("action", s("forget"))]))),
        "action must be read_all, read, write, or append"
    );
}

#[test]
fn ego_replies() {
    assert_eq!(EgoTool::read_all_reply(""), "No state yet.");
    assert_eq!(EgoTool::read_all_reply("mood: ok\n"), "mood: ok\n");
    assert_eq!(EgoTool::read_reply("mood", None), "No value for key 'mood'.");
    assert_eq!(EgoTool::read_reply("mood", Some("focused")), "focused");
    assert_eq!(EgoTool::wrote("mood", "héllo"), "Wrote mood (6 chars).");
    assert_eq!(EgoTool::appended("mood"), "Appended to mood.");
}

#[test]
fn episode_requests() {
    let input = obj(vec![
        ("action", s("log")),
        ("summary", s(" Fixed login bug ")),
        ("tags", s("auth,bug")),
        ("sentiment", s("win")),
        ("pr_number", n(61)),
    ]);
    match EpisodeTool::request(&input) {
        Ok(EpisodeRequest::Log { summary, detail, tags, repo, sentiment, pr_number, issue_number }) => {
            assert_eq!(summary, "Fixed login bug");
            assert!(detail.is_none());
            assert_eq!(tags.as_deref(), Some("auth,bug"));
            assert!(repo.is_none());
            assert_eq!(sentiment.as_deref(), Some("win"));
            assert_eq!(pr_number, Some(61));
            assert_eq!(issue_number, None);
        }
        _ => panic!("expected a log request"),
    }
    match EpisodeTool::request(&obj(vec![("action", s("recent"))])) {
        Ok(EpisodeRequest::Recent { repo, limit }) => {
            assert!(repo.is_none());
            assert_eq!(limit, 5);
        }
        _ => panic!("expected recent"),
    }
    match EpisodeTool::request(&obj(vec![("action", s("search")), ("query", s(" login "))])) {
        Ok(EpisodeRequest::Search { query, limit }) => {
            assert_eq!(query, "login");
            assert_eq!(limit, 10);
        }
        _ => panic!("expected search"),
    }
    assert_eq!(err(EpisodeTool::request(&obj(vec![("action", s("log"))]))), "log requires summary");
    assert_eq!(
        err(EpisodeTool::request(&obj(vec![("action", s("log")), ("summary", s(" "))]))),
        "summary is empty"
    );
    assert_eq!(
        err(EpisodeTool::request(&obj(vec![("action", s("forget"))]))),
        "action must be log, recent, or search"
    );
}

#[test]
fn brain_requests() {
    match MemoryBrainTool::request(&obj(vec![("action", s("write_file")), ("path", s(" a/b.md ")), ("content", s(" x "))])) {
        Ok(BrainRequest::WriteFile { path, content }) => {
            assert_eq!(path, "a/b.md");
            assert_eq!(content, " x ");
        }
        _ => panic!("expected write_file"),
    }
    assert_eq!(
        err(MemoryBrainTool::request(&obj(vec![("action", s("append_file")), ("path", s("a.md"))]))),
        "append_file requires content"
    );
    assert_eq!(
        err(MemoryBrainTool::request(&obj(vec![("action", s("read_file"))]))),
        "read_file requires path"
    );
    assert_eq!(
        err(MemoryBrainTool::request(&obj(vec![("action", s("search_files")), ("query", s("  "))]))),
        "search_files requires query"
    );
    assert_eq!(
        err(MemoryBrainTool::request(&obj(vec![("action", s("delete_file"))]))),
        "action must be read_file, write_file, append_file, list_files, or search_files"
    );
}

#[test]
fn notify_requests() {
    assert_eq!(NotifyTool::request(&obj(vec![("message", s("  PR ready "))])), Ok("PR ready".to_string()));
    assert_eq!(NotifyTool::request(&obj(vec![])), Err("missing message".to_string()));
    assert_eq!(NotifyTool::request(&obj(vec![("message", s("   "))])), Err("message is empty".to_string()));
}

#[test]
fn tavily_requests() {
    let search = TavilyTool::request(&obj(vec![
        ("query", s(" rust verus ")),
        ("search_depth", s("advanced")),
        ("topic", s("sports")),
        ("max_results", n(50)),
    ]))
    .ok()
    .expect("a search");
    assert_eq!(search.query, "rust verus");
    assert_eq!(search.search_depth, "advanced");
    assert_eq!(search.topic, "general");
    assert_eq!(search.max_results, 20);
    let d = TavilyTool::request(&obj(vec![("query", s("x")), ("max_results", n(0))])).ok().expect("a search");
    assert_eq!(d.search_depth, "basic");
    assert_eq!(d.max_results, 1);
    assert_eq!(err(TavilyTool::request(&obj(vec![("query", s("  "))]))), "Error: query is required.");
    assert!(matches!(TavilyTool::api_key(None), Err(KeyProblem::NotSet)));
    assert!(matches!(TavilyTool::api_key(Some("  ")), Err(KeyProblem::Empty)));
    assert_eq!(TavilyTool::api_key(Some(" k ")).ok(), Some("k".to_string()));
    assert_eq!(KeyProblem::Empty.message_exec(), "Error: TAVILY_API_KEY is empty.");
}

#[test]
fn delegate_single_tasks() {
    let call = DelegateTool::single(&obj(vec![
        ("task_type", s(" Summarize ")),
        ("text", s(" long text ")),
        ("max_sentences", n(2)),
    ]))
    .ok()
    .expect("a call");
    assert_eq!(
        call.system_prompt,
        "You are a summarizer. Summarize the following in at most 2 sentence(s). Output only the summary, no preamble."
    );
    assert_eq!(call.text, "long text");
    assert_eq!(call.max_tokens, 1024);
    let call = DelegateTool::single(&obj(vec![("task_type", s("summarize")), ("text", s("t")), ("max_sentences", n(99))]))
        .ok()
        .expect("a call");
    assert!(call.system_prompt.contains("at most 3 sentence(s)"));
    let call = DelegateTool::single(&obj(vec![("task_type", s("extract")), ("text", s("t"))])).ok().expect("a call");
    assert_eq!(
        call.system_prompt,
        "You are an extractor. From the following text, Extract key facts or entities as a short list (one per line).. Output only the extracted items, one per line or as a short list. No preamble."
    );
}

#[test]
fn delegate_rejects_unknown_task_type() {
    let out = err(DelegateTool::single(&obj(vec![("task_type", s("translate")), ("text", s("foo"))])));
    assert_eq!(out, "Error: unknown task_type \"translate\". Supported: summarize, extract.");
}

#[test]
fn delegate_requires_text_for_summarize() {
    let out = err(DelegateTool::single(&obj(vec![("task_type", s("summarize")), ("text", s(""))])));
    assert!(out.contains("text is required"));
}

#[test]
fn delegate_batch_replies() {
    let input = obj(vec![("tasks", JsonValue::Array(vec![]))]);
    assert_eq!(DelegateTool::batch_tasks(&input).map(|v| v.len()), Some(0));
    assert_eq!(DelegateTool::empty_batch(), "Error: tasks array is empty.");
    assert!(DelegateTool::batch_tasks(&obj(vec![("tasks", s("x"))])).is_none());
    let results = vec!["Error: text is required.".to_string(), "Error: text is required.".to_string()];
    let out = DelegateTool::batch_reply(&results);
    assert_eq!(out, "1. Error: text is required.\n2. Error: text is required.");
    assert_eq!(DelegateTool::task_failed("boom"), "[Error: boom]");
    assert_eq!(DelegateTool::worker_reply(Some("  done \n")), "done");
    assert_eq!(DelegateTool::worker_reply(None), "");
}

#[test]
fn calculator_operations() {
    assert!(matches!(ChumpCalculator::operation("addition"), Ok(CalcOp::Add)));
    assert!(matches!(ChumpCalculator::operation("divide"), Ok(CalcOp::Divide)));
    assert_eq!(err(ChumpCalculator::operation("sqrt")), "unknown operation: sqrt");
    assert_eq!(ChumpCalculator::op_name(&obj(vec![("operation", s(" MULTIPLY "))])), Ok("multiply".to_string()));
    assert_eq!(ChumpCalculator::op_name(&obj(vec![])), Err("missing operation".to_string()));
}

#[test]
fn wasm_calculator_input_and_reply() {
    assert_eq!(WasmCalcTool::stdin(&obj(vec![("expression", s(" 2 + 3 "))])), Ok("2 + 3\n".to_string()));
    assert_eq!(WasmCalcTool::stdin(&obj(vec![])), Err("Error: empty expression".to_string()));
    assert_eq!(WasmCalcTool::reply(" 5\n", ""), "5");
    assert_eq!(WasmCalcTool::reply("  ", " trap \n"), "stderr: trap");
    match chump::calc::split_expression(" -3.5 * 2 ") {
        Ok((a, op, b)) => {
            assert_eq!(a, "-3.5");
            assert_eq!(op, '*');
            assert_eq!(b, "2");
        }
        Err(_) => panic!("expected operands"),
    }
    assert!(matches!(chump::calc::split_expression("1 + 2 + 3"), Err(ExprError::MultipleOps)));
    assert!(matches!(chump::calc::split_expression("2 ^ 3"), Err(ExprError::BadChar('^'))));
    assert!(matches!(chump::calc::split_expression("42"), Err(ExprError::NoOperator)));
    assert!(matches!(chump::calc::split_expression("  "), Err(ExprError::Empty)));
}

#[test]
fn diff_review_arguments() {
    assert_eq!(DiffReviewTool::git_args(&obj(vec![("staged_only", b(true))])), vec!["diff", "--staged"]);
    assert_eq!(DiffReviewTool::git_args(&obj(vec![])), vec!["diff", "HEAD"]);
    assert_eq!(
        DiffReviewTool::nothing_to_review(" \n"),
        Some("No diff to review (working tree clean or nothing staged).".to_string())
    );
    assert_eq!(DiffReviewTool::nothing_to_review("diff --git a b"), None);
}

#[test]
fn read_file_line_ranges() {
    let content = "one\r\ntwo\nthree\nfour\n";
    assert_eq!(ReadFileTool::select(content, Some(2), Some(3)), Ok("two\nthree".to_string()));
    assert_eq!(ReadFileTool::select(content, Some(3), None), Ok("three\nfour".to_string()));
    assert_eq!(ReadFileTool::select(content, None, Some(1)), Ok("one".to_string()));
    assert_eq!(ReadFileTool::select(content, Some(9), Some(12)), Ok("".to_string()));
    assert_eq!(ReadFileTool::select(content, None, None), Ok(content.to_string()));
    assert_eq!(ReadFileTool::select(content, Some(3), Some(2)), Err("start_line must be <= end_line".to_string()));
    let (s1, e1) = ReadFileTool::line_range(&obj(vec![("start_line", n(0)), ("end_line", n(4))]));
    assert_eq!(s1, None);
    assert_eq!(e1, Some(4));
}

#[test]
fn list_dir_listing_is_sorted() {
    assert_eq!(ListDirTool::entry_label("src", true), "src (dir)");
    assert_eq!(ListDirTool::entry_label("a.txt", false), "a.txt (file)");
    let out = ListDirTool::listing(vec!["sub (dir)".to_string(), "a.txt (file)".to_string(), "B (file)".to_string()]);
    assert_eq!(out, "B (file)\na.txt (file)\nsub (dir)");
    assert_eq!(ListDirTool::dir_arg(&obj(vec![("path", s("  "))])), ".");
}

#[test]
fn write_file_requests() {
    let w = WriteFileTool::request(&obj(vec![("path", s(" notes.md ")), ("content", s("hi")), ("mode", s(" Append "))]))
        .ok()
        .expect("a write");
    assert_eq!(w.path, "notes.md");
    assert_eq!(w.content, "hi");
    assert_eq!(w.mode, "append");
    assert!(matches!(WriteFileTool::write_mode("append"), Ok(WriteMode::Append)));
    assert_eq!(err(WriteFileTool::write_mode("truncate")), "mode must be overwrite or append");
    assert_eq!(WriteFileTool::done(&WriteMode::Overwrite), "Written.");
    assert_eq!(err(WriteFileTool::request(&obj(vec![("content", s("x"))]))), "missing or empty path");
    assert_eq!(err(WriteFileTool::request(&obj(vec![("path", s("a"))]))), "missing content");
    let d = WriteFileTool::request(&obj(vec![("path", s("a")), ("content", s(""))])).ok().expect("a write");
    assert_eq!(d.mode, "overwrite");
}

#[test]
fn edit_file_replaces_exactly_once() {
    let content = "fn a() {}\nfn b() { old() }\n";
    assert_eq!(
        EditFileTool::edit(content, "old()", "new()"),
        Ok(("fn a() {}\nfn b() { new() }\n".to_string(), 2))
    );
    assert_eq!(
        EditFileTool::edit(content, "missing", "x"),
        Err("old_str not found in file (use read_file to get exact text)".to_string())
    );
    assert_eq!(
        EditFileTool::edit("aa aa aa", "aa", "b"),
        Err("old_str appears 3 times; it must appear exactly once so the edit is unambiguous (narrow old_str or use multiple edit_file calls)".to_string())
    );
    assert_eq!(EditFileTool::edit("aaa", "aa", "b"), Ok(("ba".to_string(), 1)));
    assert_eq!(EditFileTool::replaced("src/x.rs", 2), "Replaced in src/x.rs (line 2).");
    let req = EditFileTool::request(&obj(vec![("path", s("p")), ("old_str", s("a"))]));
    assert_eq!(err(req), "missing new_str");
}

use chump::brain::{BrainRequest, MemoryBrainTool};
use chump::delegate::DelegateTool;
use chump::episode::{EpisodeRequest, EpisodeTool};
use chump::json::{JsonNumber, JsonValue};
use chump::memory::{memory_action_exec, MemoryAction};
use chump::schedule::{parse_relative, ScheduleRequest, ScheduleTool};
use chump::state::{EgoRequest, EgoTool};
use chump::task::{TaskRequest, TaskTool};

fn st(x: &str) -> JsonValue {
    JsonValue::Str(x.to_string())
}

fn num(n: i64) -> JsonValue {
    JsonValue::Number(JsonNumber { as_u64: u64::try_from(n).ok(), as_i64: Some(n), as_f64_trunc: n.max(0) as u64 })
}

fn object(pairs: Vec<(&str, JsonValue)>) -> JsonValue {
    JsonValue::Object(pairs.into_iter().map(|(k, v)| (k.to_string(), v)).collect())
}

#[test]
fn task_request_with_given_action() {
    let input = object(vec![("action", st("Create")), ("title", st("  Fix login bug ")), ("issue_number", num(47))]);
    match TaskTool::request_with_action(&input, Some("create")) {
        Ok(TaskRequest::Create { title, repo, issue_number }) => {
            assert_eq!(title, "Fix login bug");
            assert!(repo.is_none());
            assert_eq!(issue_number, Some(47));
        }
        _ => panic!("expected a create request"),
    }
    assert!(matches!(TaskTool::request_with_action(&input, None), Err(e) if e == "missing action"));
    assert!(
        matches!(TaskTool::request_with_action(&input, Some("fly")), Err(e) if e == "action must be create, list, update, or complete")
    );
}

#[test]
fn schedule_request_with_given_action() {
    let input = object(vec![("id", num(9))]);
    assert!(matches!(ScheduleTool::request_with_action(&input, Some("cancel")), Ok(ScheduleRequest::Cancel { id: 9 })));
    assert!(matches!(ScheduleTool::request_with_action(&input, Some("list")), Ok(ScheduleRequest::List { include_fired: false })));
}

#[test]
fn relative_alarm_times() {
    assert!(matches!(parse_relative("4h", 1000), Some(Ok(v)) if v == 1000 + 4 * 3600));
    assert!(matches!(parse_relative("2d", 0), Some(Ok(v)) if v == 2 * 86400));
    assert!(matches!(parse_relative("30m", 10), Some(Ok(v)) if v == 10 + 1800));
    assert!(matches!(parse_relative("xh", 0), Some(Err(e)) if e == "fire_at: expected number before 'h' (e.g. 4h)"));
    assert!(matches!(parse_relative("soon", 0), Some(Err(e)) if e == "fire_at: use unix timestamp (seconds) or relative: 4h, 2d, 30m"));
    assert!(parse_relative("9223372036854775807d", 0).is_none());
}

#[test]
fn ego_and_episode_requests_with_given_action() {
    let input = object(vec![("key", st(" mood ")), ("value", st(" focused "))]);
    match EgoTool::request_with_action(&input, Some("write")) {
        Ok(EgoRequest::Write { key, value }) => {
            assert_eq!(key, "mood");
            assert_eq!(value, "focused");
        }
        _ => panic!("expected a write request"),
    }
    let q = object(vec![("query", st(" login "))]);
    match EpisodeTool::request_with_action(&q, Some("search")) {
        Ok(EpisodeRequest::Search { query, limit }) => {
            assert_eq!(query, "login");
            assert_eq!(limit, 10);
        }
        _ => panic!("expected a search request"),
    }
}

#[test]
fn brain_request_with_given_action() {
    let input = object(vec![("path", st(" notes.md ")), ("content", st("hi"))]);
    match MemoryBrainTool::request_with_action(&input, Some("append_file")) {
        Ok(BrainRequest::AppendFile { path, content }) => {
            assert_eq!(path, "notes.md");
            assert_eq!(content, "hi");
        }
        _ => panic!("expected an append request"),
    }
    assert!(matches!(MemoryBrainTool::request_with_action(&object(vec![]), Some("list_files")), Ok(BrainRequest::ListFiles)));
}

#[test]
fn delegate_task_with_given_type() {
    let input = object(vec![("text", st("foo"))]);
    let call = DelegateTool::single_with_type(&input, "extract").ok().unwrap();
    assert_eq!(call.text, "foo");
    assert_eq!(call.max_tokens, 1024);
    assert!(matches!(DelegateTool::single_with_type(&input, "translate"), Err(e) if e == "Error: unknown task_type \"translate\". Supported: summarize, extract."));
    assert_eq!(
        DelegateTool::unknown_task_type("\"x\""),
        "Error: unknown task_type \"x\". Supported: summarize, extract."
    );
}

#[test]
fn memory_action_from_lowered_field() {
    assert!(matches!(memory_action_exec("recall please", ""), MemoryAction::Recall));
    assert!(matches!(memory_action_exec("", "a fact"), MemoryAction::Store));
    assert!(matches!(memory_action_exec("remember", ""), MemoryAction::Store));
    assert!(matches!(memory_action_exec("", ""), MemoryAction::Recall));
}

use chump::delegate::DelegateTool;
use chump::json::JsonValue;
use chump::memory::{early_reply_exec, MemoryAction, MemoryRequest};
use chump::paths::checked_relative_exec;
use chump::turn::{message_intake, Admission, RateLimiter};

fn obj(pairs: Vec<(&str, JsonValue)>) -> JsonValue {
    JsonValue::Object(pairs.into_iter().map(|(k, v)| (k.to_string(), v)).collect())
}

#[test]
fn repo_paths_are_checked_before_the_root() {
    assert_eq!(checked_relative_exec("  "), Err("path is empty".to_string()));
    assert_eq!(checked_relative_exec("/etc/passwd"), Err("path must be relative".to_string()));
    assert_eq!(checked_relative_exec("src/../x"), Err("path must not contain ..".to_string()));
    assert_eq!(checked_relative_exec(" ./src//main.rs "), Ok("src/main.rs".to_string()));
}

#[test]
fn memory_tool_answers_before_the_store() {
    let none = early_reply_exec(None);
    assert_eq!(none.err(), Some("Memory tool needs an object with action (store or recall).".to_string()));
    let empty_store = MemoryRequest { action: MemoryAction::Store, content: String::new(), limit: 10 };
    assert_eq!(early_reply_exec(Some(empty_store)).err(), Some("Nothing to store (content was empty).".to_string()));
    let store = MemoryRequest { action: MemoryAction::Store, content: "likes tea".to_string(), limit: 10 };
    let kept = early_reply_exec(Some(store)).ok().unwrap();
    assert_eq!(kept.content, "likes tea");
    let recall = MemoryRequest { action: MemoryAction::Recall, content: String::new(), limit: 3 };
    assert_eq!(early_reply_exec(Some(recall)).ok().map(|q| q.limit), Some(3));
}

#[test]
fn delegate_plans_single_batch_and_empty_batch() {
    assert_eq!(DelegateTool::batch_plan(&obj(vec![("task_type", JsonValue::Str("summarize".into()))])), None);
    assert_eq!(
        DelegateTool::batch_plan(&obj(vec![("tasks", JsonValue::Array(vec![]))])),
        Some(Err("Error: tasks array is empty.".to_string()))
    );
    let two = JsonValue::Array(vec![obj(vec![]), obj(vec![])]);
    assert_eq!(DelegateTool::batch_plan(&obj(vec![("tasks", two)])), Some(Ok(2)));
    assert_eq!(DelegateTool::batch_plan(&obj(vec![("tasks", JsonValue::Str("x".into()))])), None);
}

#[test]
fn message_checks_pause_then_length_then_rate() {
    let sec: u64 = 1_000_000_000;
    let mut rl = RateLimiter::new();
    let paused = message_intake(true, "hello", 3, &mut rl, 7, 0, 1);
    assert!(matches!(paused, Admission::Paused(ref m) if m == "I'm paused."));
    let long = message_intake(false, "héllo", 3, &mut rl, 7, 0, 1);
    assert!(matches!(long, Admission::TooLong(ref m) if m == "Message too long (max 3 characters). You sent 5."));
    // Neither refusal above was counted: the first turn that passes is admitted.
    assert!(matches!(message_intake(false, "hé", 3, &mut rl, 7, 0, 1), Admission::Admitted));
    let limited = message_intake(false, "hi", 3, &mut rl, 7, 10 * sec, 1);
    assert!(matches!(limited, Admission::RateLimited(ref m) if m == "Rate limited; try again in a minute."));
    assert!(matches!(message_intake(false, "hi", 3, &mut rl, 8, 10 * sec, 1), Admission::Admitted));
    assert!(matches!(message_intake(false, "hi", 3, &mut rl, 7, 61 * sec, 1), Admission::Admitted));
    assert!(matches!(message_intake(false, "hi", 3, &mut rl, 7, 62 * sec, 0), Admission::Admitted));
}

#[test]
fn context_memories_are_numbered_in_order() {
    let picked = vec!["likes tea".to_string(), "works at night".to_string()];
    assert_eq!(chump::memory::context_list(&picked), "1. likes tea\n2. works at night");
    assert_eq!(chump::memory::context_list(&Vec::new()), "");
}

use chump::cli::cli_output_exec;
use chump::github::percent_encode_exec;
use chump::memory::stored_text_exec;
use chump::provider::{after_failure, AfterFailure};
use chump::repo_tools::EditFileTool;
use chump::schedule::{parse_fire_at, schedule_due, DueCandidate, ScheduleTool, ScheduledRow};
use chump::state::appended_value;
use chump::task::{task_list, TaskRow};
use chump::turn::reply_to_send;

fn row(id: i64, status: &str) -> TaskRow {
    TaskRow {
        id,
        title: format!("task {}", id),
        repo: None,
        issue_number: None,
        status: status.to_string(),
        notes: None,
        created_at: None,
        updated_at: None,
    }
}

#[test]
fn long_reply_fits_a_discord_message() {
    let reply = format!("a{}", "é".repeat(1500));
    let sent = reply_to_send(&reply);
    assert!(sent.chars().count() <= 1990);
    assert_eq!(sent.len(), 1992);
    assert!(sent.ends_with('…'));
    assert_eq!(sent.chars().count(), 996);
}

#[test]
fn stored_fact_is_at_most_five_hundred_characters() {
    let stored = stored_text_exec(&"x".repeat(800));
    assert_eq!(stored.chars().count(), 500);
    assert!(stored.ends_with('…'));
    assert_eq!(stored_text_exec("short fact"), "short fact");
}

#[test]
fn command_report_is_at_most_max_characters() {
    let out = cli_output_exec(&"o".repeat(40), &"e".repeat(40), Some(0), 25);
    assert_eq!(out.chars().count(), 25);
    assert!(out.ends_with('…'));
    assert_eq!(cli_output_exec("", "", Some(3), 25), "exit code 3");
}

#[test]
fn scheduled_prompt_is_cut_at_sixty_bytes() {
    let reply = ScheduleTool::created(7, "4h", &"p".repeat(100));
    assert_eq!(reply, format!("Scheduled id 7 to fire at 4h (prompt: {}…).", "p".repeat(60)));
}

#[test]
fn encoded_ref_has_no_url_delimiters() {
    let e = percent_encode_exec("a b?c#d&e%f");
    assert_eq!(e, "a%20b%3Fc%23d%26e%25f");
    assert!(!e.contains(' ') && !e.contains('?') && !e.contains('#') && !e.contains('&'));
}

#[test]
fn listing_by_status_shows_exactly_that_status() {
    let rows = vec![row(1, "open"), row(2, "done"), row(3, "done"), row(4, "blocked")];
    let done = task_list(rows, Some("done"));
    assert_eq!(done.iter().map(|r| r.id).collect::<Vec<_>>(), vec![2, 3]);
    assert!(done.iter().all(|r| r.status == "done"));
}

#[test]
fn fired_alarm_is_not_due_again() {
    let row = |id: i64, prompt: &str, context: Option<&str>, fired: i64, at: i64| DueCandidate {
        row: ScheduledRow { id, fire_at: at.to_string(), prompt: prompt.into(), context: context.map(String::from), fired },
        fire_at_secs: at,
    };
    let rows = vec![
        row(1, "Fire now prompt", None, 1, 100),
        row(2, "Also now", Some("task=1"), 0, 100),
        row(3, "Later", None, 0, 999999),
    ];
    let due = schedule_due(rows, 500);
    assert_eq!(due, vec![(2, "Also now".to_string(), "task=1".to_string())]);
}

#[test]
fn append_keeps_the_old_value() {
    assert_eq!(appended_value(Some("Auth module is tricky"), "Tests flaky"), "Auth module is tricky\nTests flaky");
    assert_eq!(appended_value(Some(""), "first"), "first");
    assert_eq!(appended_value(None, "first"), "first");
}

#[test]
fn edit_keeps_text_around_the_replacement() {
    let (content, line) = EditFileTool::edit("a\nfn foo() { bar(); }\nz", "bar()", "baz()").unwrap();
    assert_eq!(content, "a\nfn foo() { baz(); }\nz");
    assert_eq!(line, 2);
}

#[test]
fn retries_wait_longer_then_stop() {
    assert!(after_failure(0, true, true) == AfterFailure::Retry { delay_ms: 1000 });
    assert!(after_failure(1, true, true) == AfterFailure::Retry { delay_ms: 2000 });
    assert!(after_failure(2, true, true) == AfterFailure::Fallback);
    assert!(after_failure(2, true, false) == AfterFailure::Exhausted);
    assert!(after_failure(0, false, true) == AfterFailure::Fail);
}

#[test]
fn redaction_removes_tokens_with_capital_letters() {
    let secrets = vec!["MTAxNDE.GhRED.xACT".to_string(), "sk-REDACTEDx".to_string()];
    let out = chump::log::redact("t=MTAxNDE.GhRED.xACT k=sk-REDACTEDx", &secrets);
    assert_eq!(out, "t=[REDACTED] k=[REDACTED]");
    assert!(!out.contains("MTAxNDE.GhRED.xACT") && !out.contains("sk-REDACTEDx"));
    // A secret that lies inside the marker itself shows up again in it.
    assert!(chump::log::redact("ED", &vec!["ED".to_string()]).contains("ED"));
}

#[test]
fn no_think_tag_is_sent() {
    let reply = "<THINK>plan</Think>\nthink> still thinking\nAnswer <think>half";
    let out = chump::turn::strip_thinking(reply);
    assert_eq!(out, "Answer");
    assert!(!out.to_ascii_lowercase().contains("<think>"));
}

#[test]
fn closed_thinking_blocks_are_all_removed() {
    let reply = "<Think>a</THINK>one <think>b</think>two<think></think>";
    let out = chump::turn::strip_thinking(reply);
    assert_eq!(out, "one two");
    assert!(!out.to_lowercase().contains("<think>"));
}

#[test]
fn alarm_times_may_be_rfc3339_dates() {
    assert!(matches!(parse_fire_at("2030-01-01T00:00:00Z", 0), Some(Ok(1893456000))));
    assert!(matches!(parse_fire_at(" 2030-01-01T05:30:00+05:30 ", 7), Some(Ok(1893456000))));
    assert!(matches!(parse_fire_at("2029-12-31t19:00:00.999-05:00", 7), Some(Ok(1893456000))));
    assert!(matches!(parse_fire_at("1970-01-01T00:00:00Z", 5), Some(Ok(0))));
    assert!(matches!(parse_fire_at("2024-02-29T12:00:00Z", 0), Some(Ok(1709208000))));
    assert!(matches!(parse_fire_at("0000-01-01T00:00:00Z", 0), Some(Ok(-62167219200))));
    assert!(matches!(parse_fire_at("2023-02-29T00:00:00Z", 0), Some(Err(_))));
    assert!(matches!(parse_fire_at("2030-01-01T00:00:00", 0), Some(Err(_))));
    assert!(matches!(parse_fire_at("4h", 100), Some(Ok(14500))));
}

#[test]
fn rfc3339_reader_on_its_own() {
    let t: Vec<char> = "2000-03-01T00:00:00Z".chars().collect();
    assert_eq!(chump::rfc3339::parse_rfc3339(&t), Some(951868800));
    let bad: Vec<char> = "2000-13-01T00:00:00Z".chars().collect();
    assert_eq!(chump::rfc3339::parse_rfc3339(&bad), None);
}

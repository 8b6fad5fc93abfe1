use chump::memory::{keyword_recall, MemoryEntry};

fn entry(content: &str, ts: &str) -> MemoryEntry {
    MemoryEntry { id: None, content: content.into(), ts: ts.into(), source: "t".into() }
}

#[test]
fn keyword_recall_empty_entries() {
    let entries: Vec<MemoryEntry> = vec![];
    assert_eq!(keyword_recall(&entries, Some("x"), 10), "");
    assert_eq!(keyword_recall(&entries, None, 10), "");
}

#[test]
fn keyword_recall_with_entries_no_query() {
    let entries = vec![entry("first", "1"), entry("second", "2"), entry("third", "3")];
    let out = keyword_recall(&entries, None, 10);
    assert!(!out.is_empty());
    assert!(out.contains("third"));
    assert!(out.contains("second"));
    assert!(out.contains("first"));
}

#[test]
fn keyword_recall_with_query_matching() {
    let entries = vec![entry("hello world", "1"), entry("goodbye", "2")];
    let out = keyword_recall(&entries, Some("hello"), 10);
    assert!(!out.is_empty());
    assert!(out.contains("hello world"));
}

#[test]
fn keyword_recall_with_query_not_matching() {
    let entries = vec![entry("hello world", "1")];
    let out = keyword_recall(&entries, Some("xyznonexistent"), 10);
    // When no match, implementation falls back to latest N entries
    assert!(!out.is_empty());
    assert!(out.contains("hello world"));
}

#[test]
fn keyword_recall_numbers_oldest_first() {
    let entries = vec![entry("first", "1"), entry("second", "2"), entry("third", "3")];
    assert_eq!(keyword_recall(&entries, None, 10), "1. first\n2. second\n3. third");
}

#[test]
fn keyword_recall_limit_keeps_newest() {
    let entries = vec![entry("a1", "1"), entry("a2", "2"), entry("a3", "3")];
    assert_eq!(keyword_recall(&entries, None, 2), "1. a2\n2. a3");
}

#[test]
fn keyword_recall_filters_case_insensitively() {
    let entries = vec![entry("Rust is fun", "1"), entry("python", "2"), entry("RUST again", "3")];
    assert_eq!(keyword_recall(&entries, Some("  rust "), 10), "1. Rust is fun\n2. RUST again");
}

#[test]
fn keyword_recall_single_letter_words_do_not_filter() {
    let entries = vec![entry("alpha", "1"), entry("beta", "2")];
    // every query word is one byte long, so all recent entries come back
    assert_eq!(keyword_recall(&entries, Some("a b"), 10), "1. alpha\n2. beta");
}

#[test]
fn keyword_recall_caps_limit_at_twenty() {
    let entries: Vec<MemoryEntry> = (0..30).map(|i| entry(&format!("e{}", i), "1")).collect();
    let out = keyword_recall(&entries, None, 100);
    assert_eq!(out.lines().count(), 20);
    assert!(out.starts_with("1. e10\n"));
    assert!(out.ends_with("20. e29"));
}

#[test]
fn keyword_recall_works_on_given_lowered_forms() {
    let entries = vec![entry("Hello World", "1"), entry("Goodbye", "2"), entry("HELLO again", "3")];
    let lowered: Vec<String> = vec!["hello world".into(), "goodbye".into(), "hello again".into()];
    assert_eq!(
        chump::memory::keyword_recall_lowered(&entries, &lowered, Some("hello"), 10),
        "1. Hello World\n2. HELLO again"
    );
    assert_eq!(chump::memory::keyword_recall_lowered(&entries, &lowered, None, 2), "1. Goodbye\n2. HELLO again");
    assert_eq!(chump::memory::keyword_recall_lowered(&entries, &lowered, Some("zzz"), 1), "1. HELLO again");
}

#[test]
fn file_recall_matches_lowered_query() {
    let entries = vec![entry("Rust is fun", "1"), entry("Go is fine", "2"), entry("RUST again", "3")];
    let lowered: Vec<String> = vec!["rust is fun".into(), "go is fine".into(), "rust again".into()];
    assert_eq!(
        chump::memory::file_recall_lowered(&entries, &lowered, "Rust", "rust", 10),
        "1. Rust is fun\n2. RUST again"
    );
    assert_eq!(chump::memory::file_recall_exec(&entries, "RUST", 10), "1. Rust is fun\n2. RUST again");
    assert_eq!(chump::memory::file_recall_lowered(&entries, &lowered, "", "", 1), "1. RUST again");
    assert_eq!(chump::memory::file_recall_lowered(&entries, &lowered, "java", "java", 10), "No matching memories.");
}

#[test]
fn allowlist_is_checked_on_the_lowered_word() {
    let tool = chump::cli::CliTool::with_allowlist_blocklist(vec!["echo".into()], vec!["rm".into()]);
    assert!(tool.allowed_lowered(&"echo".chars().collect()));
    assert!(!tool.allowed_lowered(&"rm".chars().collect()));
    assert!(!tool.allowed_lowered(&"cat".chars().collect()));
    assert!(tool.allowed("ECHO"));
}

#[test]
fn newest_stored_fact_is_recalled() {
    let mut entries: Vec<MemoryEntry> = (0..30).map(|i| entry(&format!("deploy note {}", i), "1")).collect();
    entries.push(entry("Deploy key rotated", "2"));
    let out = keyword_recall(&entries, Some("DEPLOY"), 3);
    assert!(out.ends_with("Deploy key rotated"));
    assert_eq!(keyword_recall(&entries, Some("rotated"), 1), "1. Deploy key rotated");
    let file = chump::memory::file_recall_exec(&entries, "KEY", 5);
    assert!(file.ends_with("Deploy key rotated"));
}

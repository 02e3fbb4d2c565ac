use orch::registry::{delta, is_task_file, snapshot};
use orch::report::{jump_session_name, task_id_of, worker_desc, worker_lines};
use orch::task_doc::{context_line, extract_section, needs_attention, session_name_for, status_of};
use orch::text::{blank, chars_of, find_chars, lower_chars, split_lines, trim_str};

fn strings(v: &[&str]) -> Vec<String> {
    v.iter().map(|s| String::from(*s)).collect()
}

// ---------------------------------------------------------------------------
// Registry
// ---------------------------------------------------------------------------
#[test]
fn delta_of_a_snapshot_against_itself_is_empty() {
    let s = strings(&["a.md", "b.md"]);
    assert!(delta(&s, &s).is_empty());
}

#[test]
fn delta_from_empty_is_everything() {
    let prev = strings(&[]);
    let curr = strings(&["a.md", "b.md"]);
    assert_eq!(delta(&prev, &curr), strings(&["a.md", "b.md"]));
}

#[test]
fn delta_reports_only_new_names() {
    let prev = strings(&["a.md"]);
    let curr = strings(&["a.md", "b.md"]);
    assert_eq!(delta(&prev, &curr), strings(&["b.md"]));
}

#[test]
fn snapshot_keeps_only_task_documents() {
    let listing = strings(&["a.md", "notes.txt", "b.md", ".md", "c"]);
    assert_eq!(snapshot(&listing), strings(&["a.md", "b.md"]));
}

#[test]
fn task_file_test_wants_md_extension_and_stem() {
    assert!(is_task_file(&String::from("a.md")));
    assert!(!is_task_file(&String::from(".md")));
    assert!(!is_task_file(&String::from("a.txt")));
}

// ---------------------------------------------------------------------------
// Task documents
// ---------------------------------------------------------------------------
#[test]
fn summary_section_is_its_non_blank_lines() {
    let doc = "intro\n## Summary\nfirst line\nsecond line\n## Other\nrest\n";
    assert_eq!(extract_section(doc, "Summary"), strings(&["first line", "second line"]));
}

#[test]
fn summary_section_skips_blank_lines() {
    let doc = "## Summary\n\nonly line\n   \n## Other\n";
    assert_eq!(extract_section(doc, "Summary"), strings(&["only line"]));
}

#[test]
fn missing_section_is_empty() {
    assert!(extract_section("no sections here\n", "Summary").is_empty());
}

#[test]
fn section_runs_to_end_of_file_without_next_heading() {
    let doc = "## Summary\nalpha\nbeta";
    assert_eq!(extract_section(doc, "Summary"), strings(&["alpha", "beta"]));
}

#[test]
fn session_marker_overrides_default() {
    let doc = "## Status\nworker: `task-custom` is on it\n";
    assert_eq!(session_name_for(doc, "recon"), "task-custom");
}

#[test]
fn session_name_defaults_to_prefixed_id() {
    assert_eq!(session_name_for("plain document\n", "recon"), "task-recon");
}

#[test]
fn unclosed_marker_is_ignored() {
    let doc = "`task-broken has no closing tick\nlater `task-good` here\n";
    assert_eq!(session_name_for(doc, "x"), "task-good");
}

#[test]
fn status_is_new_without_status_section() {
    assert_eq!(status_of("just prose\n"), "new");
}

#[test]
fn status_is_trimmed_last_non_blank_line() {
    let doc = "## Status\nstarted\n  done with review  \n\n";
    assert_eq!(status_of(doc), "done with review");
}

#[test]
fn attention_phrases_are_found_case_insensitively() {
    assert!(needs_attention("Currently BLOCKED on credentials\n"));
    assert!(needs_attention("waiting for input from operator"));
    assert!(needs_attention("Open Question: which host?"));
    assert!(!needs_attention("all fine, cruising\n"));
}

#[test]
fn context_line_quotes_the_first_matching_line() {
    let doc = "title\nstill waiting on DNS\nblocked on firewall\n";
    assert_eq!(context_line(doc), "still waiting on DNS");
}

#[test]
fn context_line_is_empty_when_nothing_matches() {
    assert_eq!(context_line("nothing to see\n"), "");
}

// ---------------------------------------------------------------------------
// Report helpers
// ---------------------------------------------------------------------------
#[test]
fn task_id_strips_the_extension() {
    assert_eq!(task_id_of(&String::from("recon.md")), "recon");
    assert_eq!(task_id_of(&String::from("odd.txt")), "odd.txt");
}

#[test]
fn worker_desc_names_the_running_session() {
    assert_eq!(worker_desc(true, &String::from("task-a")), "running (task-a)");
    assert_eq!(worker_desc(false, &String::from("task-a")), "none");
}

#[test]
fn worker_lines_keep_only_task_sessions() {
    let listing = "task-a: 1 windows\nmain: 2 windows\ntask-b: 1 windows";
    assert_eq!(worker_lines(listing), strings(&["task-a: 1 windows", "task-b: 1 windows"]));
}

#[test]
fn jump_session_names_are_normalized() {
    assert_eq!(jump_session_name("recon"), "task-recon");
    assert_eq!(jump_session_name("task-recon"), "task-recon");
}

// ---------------------------------------------------------------------------
// Text utilities
// ---------------------------------------------------------------------------
#[test]
fn blank_accepts_only_whitespace() {
    assert!(blank(""));
    assert!(blank(" \t\r\n"));
    assert!(!blank(" x "));
}

#[test]
fn trim_strips_both_ends() {
    assert_eq!(trim_str("  padded value\t"), "padded value");
    assert_eq!(trim_str("   "), "");
    assert_eq!(trim_str("bare"), "bare");
}

#[test]
fn split_lines_counts_separators() {
    let lines = split_lines("a\nb\n");
    assert_eq!(lines, strings(&["a", "b", ""]));
    assert_eq!(split_lines(""), strings(&[""]));
}

#[test]
fn find_chars_returns_the_first_occurrence() {
    let h = chars_of("abcabc");
    assert_eq!(find_chars(&h, &chars_of("bc")), Some(1));
    assert_eq!(find_chars(&h, &chars_of("zz")), None);
}

#[test]
fn lower_chars_folds_ascii_only() {
    let low: String = lower_chars(&chars_of("Mixed CASE 123")).into_iter().collect();
    assert_eq!(low, "mixed case 123");
}

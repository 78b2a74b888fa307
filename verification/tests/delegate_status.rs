use std::collections::HashSet;
use std::time::{Duration, Instant};

use goose::delegate_status::{
    compose_entry_line, compose_entry_line_at, compose_status_block, compose_status_block_at,
    compose_status_line, truncate_to_width, DelegateState, MAX_VISIBLE, SPINNER_FRAMES,
};
use goose::paths::to_plain_path;
use goose::sanitize::sanitize_summary;
use goose::tailed_files::{claim_progress_file, release_progress_file, TailedFiles};

fn make_state(
    name: &str,
    tool: Option<&str>,
    tool_count: usize,
    turn_count: Option<u32>,
    age_secs: u64,
) -> DelegateState {
    DelegateState {
        name: name.to_string(),
        current_tool: tool.map(str::to_string),
        tool_count,
        turn_count,
        started_at: Instant::now() - Duration::from_secs(age_secs),
    }
}

// ── entry lines ──────────────────────────────────────────────────────────────

#[test]
fn single_entry_line_contains_expected_parts() {
    let s = make_state("file-locator", Some("Grep"), 12, Some(3), 34);
    let line = compose_entry_line(&s, 0, 200);
    assert!(line.contains("file-locator"), "name must appear");
    assert!(line.contains("Grep"), "tool must appear");
    assert!(line.contains("12 tools"), "tool count must appear");
    assert!(line.contains("3 turns"), "turn count must appear");
    assert!(line.contains("34s"), "elapsed must appear");
    assert!(
        SPINNER_FRAMES.iter().any(|f| line.contains(f)),
        "spinner must appear"
    );
}

#[test]
fn entry_line_no_tool_no_tool_label() {
    let s = make_state("investigator", None, 0, None, 1);
    let line = compose_entry_line(&s, 0, 200);
    assert!(line.contains("investigator"));
    assert!(!line.contains(": None"));
}

#[test]
fn entry_line_omits_turn_count_when_none() {
    let s = make_state("agent", Some("shell"), 5, None, 10);
    let line = compose_entry_line(&s, 0, 200);
    assert!(line.contains("5 tools"));
    assert!(!line.contains("turns"));
}

#[test]
fn entry_line_truncates_to_max_width() {
    let s = make_state(
        "very-long-delegate-name-that-goes-on-and-on",
        Some("SomeToolWithALongName"),
        999,
        Some(99),
        9999,
    );
    let line = compose_entry_line(&s, 0, 40);
    assert!(
        console::measure_text_width(&line) <= 40,
        "line '{}' wider than 40",
        line
    );
}

#[test]
fn entry_line_pluralizes_correctly() {
    let one_tool = make_state("agent", None, 1, Some(1), 0);
    let two_tools = make_state("agent", None, 2, Some(2), 0);
    assert!(compose_entry_line(&one_tool, 0, 200).contains("1 tool"));
    assert!(!compose_entry_line(&one_tool, 0, 200).contains("1 tools"));
    assert!(compose_entry_line(&two_tools, 0, 200).contains("2 tools"));
    let one_line = compose_entry_line(&one_tool, 0, 200);
    assert!(one_line.contains("1 turn"), "singular turn: {}", one_line);
    let two_line = compose_entry_line(&two_tools, 0, 200);
    assert!(two_line.contains("2 turns"), "plural turns: {}", two_line);
}

#[test]
fn spinner_cycles_through_all_frames() {
    let s = make_state("agent", None, 0, None, 0);
    let mut seen = HashSet::new();
    for i in 0..SPINNER_FRAMES.len() {
        let line = compose_entry_line(&s, i, 200);
        for frame in SPINNER_FRAMES.iter() {
            if line.contains(frame) {
                seen.insert(*frame);
                break;
            }
        }
    }
    assert_eq!(
        seen.len(),
        SPINNER_FRAMES.len(),
        "all spinner frames must be used"
    );
}

#[test]
fn entry_line_has_this_exact_form() {
    let s = make_state("worker", Some("Grep  foo"), 12, Some(1), 0);
    assert_eq!(
        compose_entry_line_at(&s, 34, 11, 0),
        "⠙ worker: \"Grep foo\" · 12 tools · 1 turn · 34s"
    );
    let s = make_state("worker", None, 1, None, 0);
    assert_eq!(compose_entry_line_at(&s, 0, 0, 200), "⠋ worker: · 1 tool · 0s");
}

#[test]
fn entry_line_of_a_name_with_line_breaks_is_one_line() {
    let s = make_state("two\nlines\r", None, 0, None, 0);
    assert_eq!(
        compose_entry_line_at(&s, 0, 0, 200),
        "⠋ two lines : · 0 tools · 0s"
    );
}

#[test]
fn tool_summary_is_cut_to_sixty_characters() {
    let s = make_state("w", Some(&"x".repeat(100)), 0, None, 0);
    let line = compose_entry_line_at(&s, 0, 0, 0);
    assert!(line.contains(&format!("\"{}…\"", "x".repeat(59))));
}

#[test]
fn truncation_counts_columns_not_characters() {
    // Wide characters take two columns each.
    assert_eq!(truncate_to_width("日本語日本語".to_string(), 7), "日本語…");
    assert_eq!(truncate_to_width("日本語".to_string(), 6), "日本語");
    assert_eq!(truncate_to_width("abc".to_string(), 1), "…");
    assert_eq!(truncate_to_width("abc".to_string(), 0), "abc");
    // Escape sequences take none.
    assert_eq!(
        truncate_to_width("\u{1b}[31mabc\u{1b}[0m".to_string(), 3),
        "\u{1b}[31mabc\u{1b}[0m"
    );
}

// ── blocks ───────────────────────────────────────────────────────────────────

#[test]
fn empty_states_returns_empty_block() {
    let block = compose_status_block(&[], 0, 200);
    assert!(block.is_empty());
}

#[test]
fn single_delegate_produces_one_line_block() {
    let s = make_state("file-locator", Some("Grep"), 3, None, 5);
    let block = compose_status_block(&[&s], 0, 200);
    assert_eq!(block.len(), 1);
    assert!(block[0].contains("file-locator"));
}

#[test]
fn two_delegates_produce_two_line_block() {
    let a = make_state("file-locator", Some("Grep"), 12, Some(4), 34);
    let b = make_state("codebase-analyzer", Some("Read"), 8, None, 21);
    let block = compose_status_block(&[&a, &b], 1, 200);
    assert_eq!(block.len(), 2);
    assert!(block[0].contains("file-locator"));
    assert!(block[1].contains("codebase-analyzer"));
}

#[test]
fn block_caps_at_max_visible_plus_footer() {
    let states: Vec<DelegateState> = (0..10)
        .map(|i| make_state(&format!("agent-{}", i), None, i, None, i as u64))
        .collect();
    let refs: Vec<&DelegateState> = states.iter().collect();
    let block = compose_status_block(&refs, 0, 200);
    assert_eq!(block.len(), MAX_VISIBLE + 1);
    assert!(
        block[MAX_VISIBLE].contains("… and 3 more"),
        "footer: {}",
        block[MAX_VISIBLE]
    );
}

#[test]
fn block_no_footer_when_exactly_max_visible() {
    let states: Vec<DelegateState> = (0..MAX_VISIBLE)
        .map(|i| make_state(&format!("agent-{}", i), None, i, None, i as u64))
        .collect();
    let refs: Vec<&DelegateState> = states.iter().collect();
    let block = compose_status_block(&refs, 0, 200);
    assert_eq!(block.len(), MAX_VISIBLE);
    assert!(!block[MAX_VISIBLE - 1].contains("more"));
}

#[test]
fn block_has_these_exact_lines() {
    let states: Vec<DelegateState> = (0..9)
        .map(|i| make_state(&format!("d{}", i), None, i, None, 0))
        .collect();
    let refs: Vec<&DelegateState> = states.iter().collect();
    let ages = vec![0, 1, 2, 3, 4, 5, 6, 7, 8];
    let block = compose_status_block_at(&refs, &ages, 2, 80);
    assert_eq!(block.len(), 8);
    assert_eq!(block[0], "⠹ d0: · 0 tools · 0s");
    assert_eq!(block[6], "⠹ d6: · 6 tools · 6s");
    assert_eq!(block[7], "  … and 2 more");
}

#[test]
fn two_delegates_joined_by_pipe() {
    let a = make_state("file-locator", Some("Grep"), 12, Some(4), 34);
    let b = make_state("codebase-analyzer", Some("Read"), 8, None, 21);
    let line = compose_status_line(&[&a, &b], 1, 200);
    assert!(line.contains(" | "), "delegates must be separated by ' | '");
    assert!(line.contains("file-locator"));
    assert!(line.contains("codebase-analyzer"));
}

#[test]
fn no_delegates_returns_empty() {
    let line = compose_status_line(&[], 0, 200);
    assert!(line.is_empty());
}

// ── summaries ────────────────────────────────────────────────────────────────

#[test]
fn sanitize_replaces_newlines_with_spaces() {
    let input = "gh api repos/.../issues\nimport sys,json\nprint(1)";
    let out = sanitize_summary(input, 200);
    assert!(!out.contains('\n'), "no newlines: {:?}", out);
    assert!(!out.contains('\r'), "no carriage returns: {:?}", out);
}

#[test]
fn sanitize_collapses_whitespace() {
    let input = "hello   \t  world\n  again";
    let out = sanitize_summary(input, 200);
    assert_eq!(out, "hello world again");
}

#[test]
fn sanitize_caps_length() {
    let long = "a".repeat(300);
    let out = sanitize_summary(&long, 50);
    assert!(
        out.chars().count() <= 50,
        "len {} > 50",
        out.chars().count()
    );
    assert!(out.ends_with('…'), "must end with ellipsis: {:?}", out);
}

#[test]
fn sanitize_short_string_unchanged() {
    let s = "kubectl get pods";
    let out = sanitize_summary(s, 200);
    assert_eq!(out, s);
}

#[test]
fn sanitize_strips_control_chars() {
    let input = "hello\x01\x02\x1b[31mworld\x00";
    let out = sanitize_summary(input, 200);
    assert!(
        !out.chars().any(|c| c.is_ascii_control()),
        "control chars remain: {:?}",
        out
    );
}

#[test]
fn entry_line_multiline_tool_rendered_single_line() {
    let s = make_state(
        "worker",
        Some("gh api ...\nimport sys\nprint(x)"),
        1,
        None,
        1,
    );
    let line = compose_entry_line(&s, 0, 200);
    assert!(!line.contains('\n'), "must be single line: {:?}", line);
    assert!(!line.contains('\r'), "must have no \\r: {:?}", line);
}

#[test]
fn sanitize_has_these_exact_results() {
    assert_eq!(sanitize_summary("", 5), "");
    assert_eq!(sanitize_summary(" \n\t ", 5), "");
    assert_eq!(sanitize_summary("  a\u{7f}b  ", 5), "a b");
    assert_eq!(sanitize_summary("abcdef", 6), "abcdef");
    assert_eq!(sanitize_summary("abcdef", 5), "abcd…");
    assert_eq!(sanitize_summary("abcdef", 1), "…");
    assert_eq!(sanitize_summary("abcdef", 0), "");
    assert_eq!(sanitize_summary("", 0), "");
    assert_eq!(sanitize_summary("äöüß", 3), "äö…");
    // Only ASCII space separates words.
    assert_eq!(sanitize_summary("a\u{a0}\u{a0}b", 9), "a\u{a0}\u{a0}b");
}

#[test]
fn sanitizing_twice_changes_nothing_more() {
    for text in ["a  b", "x\ny\nz", "long text that is cut somewhere"] {
        let once = sanitize_summary(text, 10);
        assert_eq!(sanitize_summary(&once, 10), once);
    }
}

// ── claims ───────────────────────────────────────────────────────────────────

#[test]
fn file_claim_deduplicates() {
    let mut files = TailedFiles::new();
    let path = "/tmp/test-claim.ndjson";
    assert!(claim_progress_file(&mut files, path));
    assert!(!claim_progress_file(&mut files, path));
    release_progress_file(&mut files, path);
    assert!(claim_progress_file(&mut files, path));
    release_progress_file(&mut files, path);
}

#[test]
fn claims_compare_paths_by_their_components() {
    let mut files = TailedFiles::new();
    assert!(claim_progress_file(&mut files, "/a/b"));
    assert!(!claim_progress_file(&mut files, "/a//b"));
    assert!(!claim_progress_file(&mut files, "/a/./b/"));
    assert!(claim_progress_file(&mut files, "a/b"));
    release_progress_file(&mut files, "//a/b/.");
    assert!(claim_progress_file(&mut files, "/a/b"));
}

#[test]
fn plain_paths_agree_as_paths_do() {
    let paths = [
        "", "/", "//", ".", "./", "./a", "a", "a/", "a/.", "/a", "//a", "/./a", "a/b", "a//b",
        "a/./b", "./a/b", "a/../b", "..", "../", "/..", ".a", "a.", "././a",
    ];
    for x in paths {
        for y in paths {
            assert_eq!(
                to_plain_path(x) == to_plain_path(y),
                std::path::Path::new(x) == std::path::Path::new(y),
                "{:?} and {:?}",
                x,
                y
            );
        }
    }
    assert_eq!(to_plain_path("//a/./b//"), "/a/b");
    assert_eq!(to_plain_path("./a/./b"), "./a/b");
}

#[test]
fn a_state_can_be_copied() {
    let s = make_state("worker", Some("Grep"), 12, Some(1), 0);
    let copy = s.clone();
    assert_eq!(format!("{:?}", copy), format!("{:?}", s));
}

#[test]
fn claims_on_different_files_are_independent() {
    let mut files = TailedFiles::new();
    assert!(claim_progress_file(&mut files, "/tmp/a"));
    assert!(claim_progress_file(&mut files, "/tmp/b"));
    release_progress_file(&mut files, "/tmp/a");
    release_progress_file(&mut files, "/tmp/never-claimed");
    assert!(claim_progress_file(&mut files, "/tmp/a"));
    assert!(!claim_progress_file(&mut files, "/tmp/b"));
}

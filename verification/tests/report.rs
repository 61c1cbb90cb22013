use sfhtml::header::HeaderSection;
use sfhtml::history::{create_entry_at, HistorySummary};
use sfhtml::locator::{AnchorListEntry, AnchorMatch, LocateResult};
use sfhtml::report::{
    anchor_list_text, apply_output_controls, has_header_text, history_rows, locate_text,
    rollback_text, section_text, show_text,
};

const OUT: &str = "alpha\nBeta\ngamma\ndelta beta";

#[test]
fn output_unchanged_without_controls() {
    assert_eq!(apply_output_controls(OUT, None, None, None, false, None), OUT);
}

#[test]
fn output_grep_ignores_case() {
    assert_eq!(apply_output_controls(OUT, None, None, Some("BETA"), false, None), "Beta\ndelta beta\n");
}

#[test]
fn output_head_tail_count() {
    assert_eq!(apply_output_controls(OUT, Some(2), None, None, false, None), "alpha\nBeta\n");
    assert_eq!(apply_output_controls(OUT, None, Some(1), None, false, None), "delta beta\n");
    assert_eq!(apply_output_controls(OUT, Some(3), Some(2), None, false, None), "Beta\ngamma\n");
    assert_eq!(apply_output_controls(OUT, None, None, None, true, None), "4");
    assert_eq!(apply_output_controls(OUT, None, None, Some("zzz"), false, None), "");
}

#[test]
fn output_truncated_at_char_boundary() {
    assert_eq!(
        apply_output_controls("héllo", None, None, None, false, Some(2)),
        "h\n... [truncated]\n"
    );
    assert_eq!(apply_output_controls("ab", None, None, None, false, Some(3)), "ab\n");
}

#[test]
fn locate_paragraphs() {
    let r = LocateResult {
        anchor: "render".to_string(),
        matches: vec![
            AnchorMatch { line: 108, end_line: Some(120), context_preview: "  function render() {".to_string() },
            AnchorMatch { line: 7, end_line: None, context_preview: "render".to_string() },
        ],
    };
    assert_eq!(
        locate_text(&r),
        "Anchor \"render\" found at line 108-120:\n  function render() {\nAnchor \"render\" found at line 7:\nrender\n"
    );
}

#[test]
fn section_paragraph() {
    let s = HeaderSection { number: 5, title: "Key Internal Modules".to_string(), content: "- a".to_string() };
    assert_eq!(section_text(&s), "## 5. Key Internal Modules\n- a");
}

#[test]
fn anchor_listing() {
    let a = |n: &str, l: usize, h: bool| AnchorListEntry { name: n.to_string(), line: l, anchor_type: "function".to_string(), in_header: h };
    let list = vec![a("render", 12, true), a("init", 3, false)];
    let t = anchor_list_text(&list, 1);
    assert_eq!(t, format!("{:<40} line {:>6}  function\n\n... and 1 more (use --top 0 to show all)\n", "render", 12));
    let all = anchor_list_text(&list, 0);
    assert!(all.ends_with("function [not in header]\n"));
}

#[test]
fn history_listing_rows() {
    let e = HistorySummary {
        id: "1_2_a.html".to_string(),
        file_path: "/w/a.html".to_string(),
        timestamp_human: "1970-01-01 00:00:01 UTC".to_string(),
        hunks_applied: 1,
        lines_added: 4,
        lines_removed: 2,
        size_bytes: 9,
        description: "a.html: +4 -2 (1 hunks)".to_string(),
    };
    assert_eq!(
        history_rows(&vec![e], 0),
        "  1_2_a.html | 1970-01-01 00:00:01 UTC | /w/a.html | +4 -2 | a.html: +4 -2 (1 hunks)\n"
    );
}

#[test]
fn history_show_and_rollback_texts() {
    let e = create_entry_at("a.html", "x\n", "y\n", "D", 1, 1, 1, 0, 0);
    let t = show_text(&e);
    assert!(t.starts_with("ID:        0_0_a.html\nFile:      a.html\nTime:      1970-01-01 00:00:00 UTC\nChanges:   +1 -1 (1 hunks)\n\n--- Forward Diff ---\nD\n\n--- Reverse Diff (for rollback) ---\n"));
    assert_eq!(rollback_text("m", true), "--- Dry run: reverse diff to apply ---\nm");
    assert_eq!(rollback_text("m", false), "m");
}

#[test]
fn header_marker_presence() {
    assert!(has_header_text("x <!-- AI-SKILL-HEADER START y"));
    assert!(!has_header_text("<!-- ai-skill-header start"));
}

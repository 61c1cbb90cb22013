use sfhtml::applier::{apply_diff_content, run_post_apply_validation, ApplyDiffError};
use sfhtml::differ::{generate_diff, parse_unified_diff, DiffError, DiffLine};
use sfhtml::header::{
    extract_header, extract_section, find_script_regions_full, generate_init_header, parse_anchor_list,
    parse_anchor_list_with_issues, rebuild_header, HeaderError,
};
use sfhtml::applier::{format_apply_result, ApplyError};
use sfhtml::html_structure::{build_tag_pair_tree, extract_ids, id_exists};
use sfhtml::locator::{list_anchors, locate_anchor};
use sfhtml::module_deps::{dep_walk_start, dep_walk_step, is_remote, is_scannable, scan_content, DepType, ModuleDep};
use sfhtml::applier::{plan_apply, write_plan};
use sfhtml::text::is_boundary;
use sfhtml::stats::{format_ago_at, get, increment, FileStats};
use sfhtml::syntax_check::{check_syntax, CheckContext};
use sfhtml::timeout::{check_outcome, default_timeout, TimeoutGuard};
use sfhtml::validator::validate_file;

fn demo() -> String {
    [
        "<!DOCTYPE html>",
        "<html>",
        "<head>",
        "<title>Demo</title>",
        "<!-- AI-SKILL-HEADER START",
        "# Demo \u{2014} A small app",
        "",
        "## 1. Overview",
        "Shows things.",
        "",
        "## 5. Key Internal Modules",
        "- `function render` \u{2014} draws the page",
        "- `const STATE` \u{2014} holds the data",
        "AI-SKILL-HEADER END -->",
        "</head>",
        "<body>",
        "<div id=\"app\"></div>",
        "<script>",
        "const STATE = {};",
        "function render() {",
        "  return 1;",
        "}",
        "</script>",
        "</body>",
        "</html>",
    ]
    .join("\n")
}

#[test]
fn header_of_demo_page() {
    let h = extract_header(&demo()).ok().unwrap();
    assert_eq!(h.app_name.as_deref(), Some("Demo"));
    assert_eq!(h.summary.as_deref(), Some("A small app"));
    assert_eq!(h.title_line.as_deref(), Some("# Demo \u{2014} A small app"));
    assert_eq!((h.start_line, h.end_line), (5, 14));
    let numbers: Vec<usize> = h.sections.iter().map(|s| s.number).collect();
    assert_eq!(numbers, vec![1, 5]);
}

#[test]
fn header_sections() {
    let s = extract_section(&demo(), 5).ok().unwrap();
    assert_eq!(s.title, "Key Internal Modules");
    let anchors = parse_anchor_list(&s.content);
    let names: Vec<&str> = anchors.iter().map(|a| a.name.as_str()).collect();
    assert_eq!(names, vec!["function render", "const STATE"]);
    assert_eq!(anchors[0].purpose, "draws the page");
    assert!(matches!(extract_section(&demo(), 3), Err(HeaderError::SectionNotFound(3))));
}

#[test]
fn page_without_header() {
    assert!(matches!(extract_header("<p>x</p>"), Err(HeaderError::NoHeader)));
    let fresh = generate_init_header("<html>\n<head>\n<title>T</title>\n</head>\n<body></body>\n</html>").ok().unwrap();
    assert!(fresh.contains("<!-- AI-SKILL-HEADER START"));
    assert!(extract_header(&fresh).is_ok());
}

#[test]
fn rebuilt_header_keeps_the_code() {
    let page = demo();
    let rebuilt = rebuild_header(&page, true).ok().unwrap();
    assert!(rebuilt.contains("function render() {"));
    assert!(rebuilt.contains("<div id=\"app\"></div>"));
    assert!(extract_header(&rebuilt).is_ok());
}

#[test]
fn locate_function_anchor() {
    let r = locate_anchor(&demo(), "function render", 1).ok().unwrap();
    assert_eq!(r.anchor, "function render");
    assert_eq!(r.matches[0].line, 20);
    assert_eq!(r.matches[0].end_line, Some(22));
}

#[test]
fn locate_missing_anchor() {
    let e = locate_anchor(&demo(), "function rendr", 0).err().unwrap();
    assert!(e.message().contains("not found"));
}

#[test]
fn anchors_of_demo_page() {
    let a = list_anchors(&demo());
    let render = a.iter().find(|e| e.name == "function render").unwrap();
    assert_eq!(render.line, 20);
    assert!(render.in_header);
}

#[test]
fn validate_demo_page() {
    let v = validate_file(&demo(), true).ok().unwrap();
    assert_eq!(v.anchor_consistency.total_in_header, 2);
    assert_eq!(v.anchor_consistency.found_in_code, 2);
    assert!(v.anchor_consistency.missing_from_code.is_empty());
}

#[test]
fn syntax_balance() {
    assert!(check_syntax("function a() { return [1]; }", CheckContext::Js).balanced);
    let r = check_syntax("{ (", CheckContext::Cli);
    assert!(r.balanced);
    assert!(!r.issues.is_empty());
    assert_eq!(r.issues[0].severity, "warning");
}

#[test]
fn diff_round_trip() {
    let old = "a\nb\nc\nd";
    let new = "a\nB\nc\nd\ne";
    let d = generate_diff(old, new, "f.html", "f.html", 3);
    assert!(d.starts_with("--- a/f.html\n+++ b/f.html\n"));
    let hunks = parse_unified_diff(&d).ok().unwrap();
    assert_eq!(hunks.len(), 1);
    assert!(hunks[0].lines.iter().any(|l| matches!(l, DiffLine::Add(s) if s == "B")));
    let (text, res) = apply_diff_content(old, &d, 0).ok().unwrap();
    assert_eq!(text, new);
    // the old last line has no newline, so `d` is replaced as well
    assert_eq!((res.lines_added, res.lines_removed, res.hunks_applied), (3, 2, 1));
}

#[test]
fn diff_errors() {
    assert!(matches!(parse_unified_diff("garbage"), Err(DiffError::NoHunks)));
    let d = generate_diff("a\nb\nc", "a\nX\nc", "f", "f", 3);
    assert!(matches!(apply_diff_content("q\nr\ns", &d, 0), Err(ApplyDiffError::Mismatch(_))));
}

#[test]
fn module_dependencies() {
    let deps = scan_content("<script src=\"app.js\"></script>\n<link rel=\"stylesheet\" href=\"s.css\">");
    assert_eq!(deps.len(), 2);
    assert!(matches!(deps[0].dep_type, DepType::JsScript));
    assert_eq!(deps[0].source, "app.js");
    assert!(matches!(deps[1].dep_type, DepType::CssLink));
    assert!(is_remote("https://cdn.example.com/x.js"));
    assert!(!is_remote("./x.js"));
}

#[test]
fn usage_statistics() {
    let mut data: Vec<(String, FileStats)> = Vec::new();
    increment(&mut data, "/w/a.html", 100);
    increment(&mut data, "/w/a.html", 200);
    let s = get("/w/a.html", &data);
    assert_eq!((s.calls, s.last_call), (2, 200));
    assert_eq!(get("/w/b.html", &data).calls, 0);
    assert_eq!(format_ago_at(0, 10), "unknown");
    assert_eq!(format_ago_at(100, 130), "30s ago");
    assert_eq!(format_ago_at(100, 100 + 7200), "2h ago");
    assert_eq!(format_ago_at(100, 100 + 3 * 86400), "3d ago");
}

#[test]
fn timeouts() {
    assert_eq!(default_timeout("scan"), 30_000);
    assert_eq!(default_timeout("apply"), 10_000);
    assert_eq!(default_timeout("other"), 5_000);
    assert!(TimeoutGuard::new(0).check("scan", "walk").is_ok());
    assert!(TimeoutGuard::new(60_000).check("scan", "walk").is_ok());
}

#[test]
fn timeout_decisions() {
    assert_eq!(check_outcome(true, Some(7), "scan", "walk"), Err("Command cancelled.".to_string()));
    assert_eq!(check_outcome(false, None, "scan", "walk"), Ok(()));
    assert_eq!(
        check_outcome(false, Some(1200), "scan", "walk"),
        Err("Error: Command timed out after 1200ms.\nCommand: scan\nPhase:   walk\nHint:    Increase timeout with --timeout 3600, or check if the file is unusually large.".to_string())
    );
    let held = check_outcome(false, Some(u64::MAX), "a", "b").unwrap_err();
    assert!(held.ends_with(&format!("--timeout {}, or check if the file is unusually large.", u64::MAX)));
}

#[test]
fn hunk_goes_to_the_nearest_context() {
    let content = "x\na\nb\nx\na\nb";
    let near_second = "--- a/f\n+++ b/f\n@@ -5,2 +5,2 @@\n a\n-b\n+B\n";
    let (text, res) = apply_diff_content(content, near_second, 2).ok().unwrap();
    assert_eq!(text, "x\na\nb\nx\na\nB");
    assert_eq!(res.hunk_details[0].matched_line, 5);
    let near_first = "--- a/f\n+++ b/f\n@@ -2,2 +2,2 @@\n a\n-b\n+B\n";
    let (text, res) = apply_diff_content(content, near_first, 2).ok().unwrap();
    assert_eq!(text, "x\na\nB\nx\na\nb");
    assert_eq!(res.hunk_details[0].matched_line, 2);
    assert_eq!(res.hunk_details[0].hunk_index, 0);
}

#[test]
fn ids_are_attributes() {
    let content = "<div data-id=\"x\"></div><p id='y'></p>";
    assert!(id_exists(content, "y"));
    assert!(!id_exists(content, "x"));
    let els = extract_ids("<div id=\"a\"><span id='b'></span></div>\n<p grid=\"3\">x</p>");
    assert_eq!(els.len(), 2);
    assert_eq!((els[0].tag.as_str(), els[0].id.as_deref(), els[0].line, els[0].depth), ("div", Some("a"), 1, 0));
    assert_eq!((els[1].tag.as_str(), els[1].id.as_deref(), els[1].line, els[1].depth), ("span", Some("b"), 1, 0));
}

#[test]
fn rebuild_reads_only_the_code() {
    let content = "<head>\n<!-- AI-SKILL-HEADER START\n# App \u{2014} S\n## 5. Key Internal Modules\n- `<div id=\"app\">`\n    AI-SKILL-HEADER END -->\n</head>\n<div id=\"app\"></div>";
    let r = rebuild_header(content, false).ok().unwrap();
    let h = extract_header(&r).ok().unwrap();
    let s5 = h.sections.iter().find(|s| s.number == 5).unwrap();
    assert_eq!(s5.content, "- `<div id=\"app\">`");
    assert_eq!(rebuild_header(&r, false).ok().unwrap(), r);
}

#[test]
fn reversed_diff_restores_the_text() {
    let old = "one\ntwo\nthree";
    let new = "one\n2\nthree";
    let forward = generate_diff(old, new, "f", "f", 3);
    let backward = generate_diff(new, old, "f", "f", 3);
    let (after, _) = apply_diff_content(old, &forward, 0).ok().unwrap();
    assert_eq!(after, new);
    let (restored, _) = apply_diff_content(&after, &backward, 0).ok().unwrap();
    assert_eq!(restored, old);
}

#[test]
fn validation_flags_each_check() {
    let v = run_post_apply_validation("<!DOCTYPE html>\n<html>\n<head><title>t</title></head>\n<body>\n<div>\n</body>\n</html>");
    assert!(!v.syntax_ok);
    assert!(v.anchor_ok);
    assert!(!v.warnings.is_empty());
}

#[test]
fn lone_quotes_cannot_be_scanned() {
    assert!(is_scannable("import x from './a.js';\n@import 'b.css';"));
    assert!(!is_scannable("  import \"  "));
    assert!(!is_scannable("@import ';"));
}

#[test]
fn char_boundaries() {
    let s: Vec<char> = "a\u{e9}b".chars().collect();
    assert!(is_boundary(&s, 1));
    assert!(!is_boundary(&s, 2));
    assert!(is_boundary(&s, 3));
    assert!(is_boundary(&s, 4));
    assert!(!is_boundary(&s, 5));
}

#[test]
fn tags_fold_case_beyond_ascii() {
    let tree = build_tag_pair_tree("<\u{c9}a>x</\u{e9}a>");
    assert_eq!(tree, vec!["start: <\u{e9}a>".to_string(), "end: </\u{e9}a>".to_string()]);
}

#[test]
fn anchor_table_frame_is_no_entry() {
    let (anchors, issues) = parse_anchor_list_with_issues("| Anchor | Purpose |\n|---|---|\n| `initApp` | Boot |\n- broken entry");
    assert_eq!(anchors.len(), 1);
    assert_eq!((anchors[0].name.as_str(), anchors[0].purpose.as_str()), ("initApp", "Boot"));
    assert_eq!(issues, vec!["- broken entry".to_string()]);
}

#[test]
fn one_line_script_is_an_empty_region() {
    let lines: Vec<Vec<char>> = vec!["<script>init()</script>".chars().collect(), "<p>x</p>".chars().collect()];
    let regions = find_script_regions_full(&lines);
    assert_eq!(regions.len(), 1);
    assert!(regions[0].content_start <= regions[0].content_end && regions[0].content_end <= lines.len());
    let v = validate_file("<script>var a = 1;</script>\n<p>x</p>", false);
    if let Ok(r) = v {
        assert_eq!(r.anchor_consistency.total_in_header, 0);
        assert!(r.anchor_consistency.missing_from_code.is_empty());
    }
    let page = "<script>init()</script>\n<p>initApp</p>";
    let found = locate_anchor(page, "initApp", 0).ok().unwrap();
    assert_eq!(found.matches.len(), 1);
}

#[test]
fn comments_span_lines() {
    assert_eq!(build_tag_pair_tree("<!--\n<div>\n-->\n<p></p>"), vec!["start: <p>".to_string(), "end: </p>".to_string()]);
}

#[test]
fn api_only_in_header_is_reported() {
    let content = "<!-- AI-SKILL-HEADER START\n# A\n## 2. Public JavaScript API\nwindow.foo()\n    AI-SKILL-HEADER END -->\n<script>\nlet x = 1;\n</script>";
    let r = validate_file(content, false).ok().unwrap();
    assert_eq!(r.anchor_consistency.api_issues, vec!["API window.foo listed in header but definition not found in code".to_string()]);
}

#[test]
fn mismatch_message_cuts_cells_on_boundaries() {
    let diff = format!("@@ -1,1 +1,1 @@\n-a{}\n+y\n", "\u{e9}".repeat(14));
    match apply_diff_content("x", &diff, 0) {
        Err(ApplyDiffError::Mismatch(e)) => {
            let ApplyError::ContextMismatch { hunk_index, .. } = &e;
            assert_eq!(*hunk_index, 1);
            let m = e.message("f.html");
            assert!(m.contains("Hunk 1 context mismatch at line 1"));
            assert!(m.contains(&format!("a{}...", "\u{e9}".repeat(10))));
        }
        _ => panic!("expected a mismatch"),
    }
}

#[test]
fn report_numbers_hunks_from_one() {
    let (_, res) = apply_diff_content("a\nb", "@@ -1,1 +1,1 @@\n-a\n+A\n", 0).ok().unwrap();
    assert_eq!(res.hunk_details[0].hunk_index, 0);
    assert!(format_apply_result(&res, "f.html").contains("Hunk 1: line 1"));
}

fn dep(source: &str, resolved: Option<&str>, exists: bool) -> ModuleDep {
    ModuleDep {
        source: source.to_string(),
        resolved_path: resolved.map(|r| r.to_string()),
        dep_type: DepType::JsModule,
        line: 1,
        exists,
        preview: None,
        has_header: false,
    }
}

#[test]
fn dependency_walk_steps() {
    let (walk, first) = dep_walk_start("a.html".to_string(), "/a.html".to_string());
    assert_eq!(first, ("a.html".to_string(), 0));
    let deps = vec![dep("./b.js", Some("b.js"), true), dep("./gone.js", Some("gone.js"), false)];
    let (walk, next) = dep_walk_step(walk, deps, vec!["/b.js".to_string(), "/gone.js".to_string()], 0, 2);
    assert_eq!(next, Some(("b.js".to_string(), 1)));
    assert_eq!(walk.found.len(), 2);
    assert_eq!(walk.visited, vec!["/a.html".to_string(), "/b.js".to_string()]);
    // b.js imports a.html again: seen already, so nothing more is read.
    let (walk, next) = dep_walk_step(walk, vec![dep("./a.html", Some("a.html"), true)], vec!["/a.html".to_string()], 1, 2);
    assert_eq!(next, None);
    assert_eq!(walk.found[2].source, "[depth 1] ./a.html");
    // At the depth limit nothing is followed.
    let (walk, _) = dep_walk_start("a.html".to_string(), "/a.html".to_string());
    let (_, next) = dep_walk_step(walk, vec![dep("./b.js", Some("b.js"), true)], vec!["/b.js".to_string()], 2, 2);
    assert_eq!(next, None);
}

#[test]
fn dry_run_plans_no_write() {
    let diff = "@@ -1,1 +1,1 @@\n-a\n+A\n";
    let (t1, r1, p1) = plan_apply("a\nb", diff, 0, true, true).ok().unwrap();
    let (t2, r2, p2) = plan_apply("a\nb", diff, 0, false, true).ok().unwrap();
    assert_eq!(t1, t2);
    assert_eq!((r1.hunks_applied, r1.lines_added, r1.lines_removed, r1.new_size), (r2.hunks_applied, r2.lines_added, r2.lines_removed, r2.new_size));
    assert!(!p1.write_file && !p1.make_backup && !p1.record_history);
    assert!(p2.write_file && p2.make_backup && p2.record_history);
    let p = write_plan(false, false);
    assert!(p.write_file && !p.make_backup && p.record_history);
}

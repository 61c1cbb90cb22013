use sfhtml::scanner::{
    count_file_lines, finish_scan, format_text, format_timeout_summary, is_html_extension,
    matches_keywords, scan_file, sort_paths_by_key, sort_scan_results, DirEntry, FullScanResult,
    OtherFileEntry, PathInfo, ScanResult, SortKey, SortOrder,
};

fn result(path: &str, has_header: bool, lines: usize, modified: u64) -> ScanResult {
    ScanResult {
        path: path.to_string(),
        app_name: if has_header { Some("App".to_string()) } else { None },
        summary: if has_header { Some("Does things".to_string()) } else { None },
        has_header,
        file_lines: lines,
        title_fallback: None,
        preview: None,
        modified_ts: modified,
        created_ts: 0,
        size_bytes: lines as u64,
        calls: 0,
        modified_ago: None,
    }
}

#[test]
fn sort_words() {
    assert!(matches!(SortKey::from_str("name"), SortKey::Name));
    assert!(matches!(SortKey::from_str("relevance"), SortKey::Relevance));
    assert!(matches!(SortKey::from_str("NAME"), SortKey::Modified));
    assert!(matches!(SortOrder::from_str("asc"), SortOrder::Asc));
    assert!(matches!(SortOrder::from_str("up"), SortOrder::Desc));
}

#[test]
fn scan_page_with_header() {
    let text = "<html>\n<!-- AI-SKILL-HEADER START\n# Todo \u{2014} Keeps tasks\n## 1. Overview\n-->";
    let r = scan_file("a/todo.html".to_string(), text.as_bytes(), 99, 5, 7, 8);
    assert!(r.has_header);
    assert_eq!(r.app_name.as_deref(), Some("Todo"));
    assert_eq!(r.summary.as_deref(), Some("Keeps tasks"));
    assert_eq!(r.preview, None);
    assert_eq!((r.file_lines, r.modified_ts, r.created_ts, r.size_bytes), (5, 7, 8, 99));
}

#[test]
fn scan_page_without_header() {
    let text = "<html><head><TITLE> My Page </title></head><body>hello</body></html>";
    let r = scan_file("p.html".to_string(), text.as_bytes(), 1, 1, 0, 0);
    assert!(!r.has_header);
    assert_eq!(r.title_fallback.as_deref(), Some("My Page"));
    assert_eq!(r.preview.as_deref(), Some(text));
}

#[test]
fn scan_preview_is_cut() {
    let text = "x".repeat(300);
    let r = scan_file("p.html".to_string(), text.as_bytes(), 300, 1, 0, 0);
    assert_eq!(r.preview, Some(format!("{}...", "x".repeat(200))));
}

#[test]
fn scan_invalid_utf8() {
    // Bytes that are no UTF-8 give no header, title or preview.
    let r = scan_file("b.html".to_string(), &[0xff, 0xfe, b'a'], 3, 1, 0, 0);
    assert!(!r.has_header);
    assert_eq!(r.preview, None);
    assert_eq!(r.title_fallback, None);
    let r = scan_file("c.html".to_string(), &[b'a', b'b', 0xff, b'c'], 4, 1, 0, 0);
    assert_eq!(r.preview, None);
    // A character cut off at the end of the read is left out.
    let r = scan_file("d.html".to_string(), &[b'a', b'b', 0xe4, 0xb8], 4, 1, 0, 0);
    assert_eq!(r.preview.as_deref(), Some("ab"));
}

#[test]
fn line_counts() {
    assert_eq!(count_file_lines(b""), 1);
    assert_eq!(count_file_lines(b"a\nb\n"), 3);
}

#[test]
fn keyword_filter() {
    let kws = vec!["Game".to_string(), "canvas".to_string()];
    assert!(matches_keywords("games/CanvasGame.html", &kws));
    assert!(!matches_keywords("games/pong.html", &kws));
    assert!(matches_keywords("anything", &Vec::new()));
}

#[test]
fn html_extensions() {
    assert!(is_html_extension("HTML"));
    assert!(is_html_extension("htm"));
    assert!(!is_html_extension("xhtml"));
}

#[test]
fn stable_sorts() {
    let mut v = vec![result("b", false, 1, 5), result("a", false, 2, 9), result("c", false, 3, 5)];
    sort_scan_results(&mut v, SortKey::Modified, SortOrder::Desc);
    let order: Vec<&str> = v.iter().map(|r| r.path.as_str()).collect();
    assert_eq!(order, vec!["a", "b", "c"]);
    sort_scan_results(&mut v, SortKey::Name, SortOrder::Asc);
    let order: Vec<&str> = v.iter().map(|r| r.path.as_str()).collect();
    assert_eq!(order, vec!["a", "b", "c"]);
    let info = |n: &str, s: u64| PathInfo { path: n.to_string(), name: n.to_string(), size: s, created: 0, modified: 0 };
    let mut p = vec![info("x", 3), info("y", 1), info("z", 3)];
    sort_paths_by_key(&mut p, SortKey::Size, SortOrder::Asc);
    let order: Vec<&str> = p.iter().map(|r| r.name.as_str()).collect();
    assert_eq!(order, vec!["y", "x", "z"]);
}

#[test]
fn scan_text_report() {
    let mut with = result("apps/todo.html", true, 10, 0);
    with.calls = 3;
    with.modified_ago = Some("2h ago".to_string());
    let without = result("b.html", false, 4, 0);
    let res = FullScanResult {
        html_files: vec![with, without],
        dirs: vec![DirEntry { path: "apps".to_string(), children: 2 }],
        other_files: vec![OtherFileEntry { path: "notes.txt".to_string() }],
        html_total: 2,
        timed_out: false,
    };
    let t = format_text(&res, 0);
    assert_eq!(
        t,
        "── HTML files (2) ──\napps/todo.html  (3×, 2h ago)   →  App — Does things\nb.html          (0×, ?)        →  [no header] (4 lines)\n\n── Directories (1) ──\n  apps/ (2 children)\n\n── Other files (1) ──\n  notes.txt\n"
    );
    let t1 = format_text(&res, 1);
    assert!(t1.contains("\n  ... 1 more\n"));
}

#[test]
fn timeout_report() {
    let res = FullScanResult {
        html_files: vec![result("b/x.html", true, 10, 0), result("a/y.html", false, 5, 0), result("top.html", true, 1, 0), result("b/z.html", false, 2, 0)],
        dirs: Vec::new(),
        other_files: Vec::new(),
        html_total: 6,
        timed_out: true,
    };
    let t = format_timeout_summary(&res);
    let mut expected = String::from(
        "\n⏱ Scan timed out. Scanned: 4 HTML (2 with header, 2 without, 18 lines), 0 dirs, 0 other files\nRemaining: ~2 HTML files not scanned\n\nHTML by directory:\n",
    );
    expected.push_str(&format!("  {:<30} {:>4} files ({} with header)\n", ".", 1, 1));
    expected.push_str(&format!("  {:<30} {:>4} files ({} with header)\n", "a", 1, 0));
    expected.push_str(&format!("  {:<30} {:>4} files ({} with header)\n", "b", 2, 1));
    assert_eq!(t, expected);
}

#[test]
fn finished_scan_marks_cut_short() {
    let r = finish_scan(vec![result("a", false, 1, 1)], Vec::new(), Vec::new(), 2, true, SortKey::Name, SortOrder::Asc);
    assert!(r.timed_out);
    let r = finish_scan(vec![result("a", false, 1, 1)], Vec::new(), Vec::new(), 1, false, SortKey::Name, SortOrder::Asc);
    assert!(!r.timed_out);
    // A page that could not be read is missing, yet no deadline was reached.
    let r = finish_scan(vec![result("a", false, 1, 1)], Vec::new(), Vec::new(), 2, false, SortKey::Name, SortOrder::Asc);
    assert!(!r.timed_out);
}

#[test]
fn cuts_fall_on_the_last_boundary() {
    // A header whose read is cut inside a character is still found.
    let mut page = "<!-- AI-SKILL-HEADER START\n# Todo \u{2014} Minimal task manager\n".as_bytes().to_vec();
    while page.len() < 8191 {
        page.push(b'x');
    }
    page.extend_from_slice("\u{e9}".as_bytes());
    let buf = &page[..8192];
    let r = scan_file("todo.html".to_string(), buf, 9000, 1, 0, 0);
    assert!(r.has_header);
    assert_eq!(r.app_name.as_deref(), Some("Todo"));
    assert_eq!(r.summary.as_deref(), Some("Minimal task manager"));
    assert!(r.title_fallback.is_none());
    // Without a header, the first KiB and the preview are cut before a
    // character that crosses the limit.
    let mut long = vec![b'a'; 1023];
    long.extend_from_slice("\u{e9}tail".as_bytes());
    let r = scan_file("a.html".to_string(), &long, 1030, 1, 0, 0);
    assert!(!r.has_header);
    let mut short = vec![b'a'; 199];
    short.extend_from_slice("\u{e9}z".as_bytes());
    let r = scan_file("b.html".to_string(), &short, 202, 1, 0, 0);
    assert_eq!(r.preview, Some(format!("{}...", "a".repeat(199))));
}

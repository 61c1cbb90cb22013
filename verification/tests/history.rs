use sfhtml::history::{
    create_entry, create_entry_at, enforce_cache_limit, format_timestamp, is_leap_year, rollback,
    select_entries, stem_timestamp, HistoryEntry, HistorySummary,
};

fn summary(id: &str, path: &str) -> HistorySummary {
    HistorySummary {
        id: id.to_string(),
        file_path: path.to_string(),
        timestamp_human: String::new(),
        hunks_applied: 1,
        lines_added: 1,
        lines_removed: 0,
        size_bytes: 10,
        description: String::new(),
    }
}

#[test]
fn timestamp_of_epoch() {
    assert_eq!(format_timestamp(0), "1970-01-01 00:00:00 UTC");
}

#[test]
fn timestamp_of_later_dates() {
    assert_eq!(format_timestamp(1773588106), "2026-03-15 15:21:46 UTC");
    assert_eq!(format_timestamp(951782400), "2000-02-29 00:00:00 UTC");
    assert_eq!(format_timestamp(4102444799), "2099-12-31 23:59:59 UTC");
}

#[test]
fn leap_years() {
    assert!(is_leap_year(2000));
    assert!(is_leap_year(2024));
    assert!(!is_leap_year(1900));
    assert!(!is_leap_year(2023));
}

#[test]
fn stem_timestamps() {
    assert_eq!(stem_timestamp("1773588106_308020016_todo.html"), 1773588106);
    assert_eq!(stem_timestamp("+12_x"), 12);
    assert_eq!(stem_timestamp("abc_1"), 0);
    assert_eq!(stem_timestamp(""), 0);
    assert_eq!(stem_timestamp("_5"), 0);
    assert_eq!(stem_timestamp("99999999999999999999_x"), 0);
}

#[test]
fn cache_limit_evicts_oldest_first() {
    let mb: u64 = 1024 * 1024;
    let entries = vec![(6 * mb, 300), (6 * mb, 100), (mb, 200)];
    assert_eq!(enforce_cache_limit(&entries), vec![1]);
}

#[test]
fn cache_limit_keeps_small_cache() {
    let entries = vec![(100, 3), (200, 1)];
    assert!(enforce_cache_limit(&entries).is_empty());
    assert!(enforce_cache_limit(&Vec::new()).is_empty());
}

#[test]
fn cache_limit_ties_go_by_listing_order() {
    let mb: u64 = 1024 * 1024;
    let entries = vec![(6 * mb, 5), (6 * mb, 5)];
    assert_eq!(enforce_cache_limit(&entries), vec![0]);
}

#[test]
fn entry_fields() {
    let e = create_entry_at("dir/my page!.html", "a\nb\n", "a\nc\n", "DIFF", 2, 3, 1, 12, 34);
    assert_eq!(e.id, "12_34_my_page_.html");
    assert_eq!(e.file_path, "dir/my page!.html");
    assert_eq!(e.timestamp, 12);
    assert_eq!(e.timestamp_human, "1970-01-01 00:00:12 UTC");
    assert_eq!(e.diff_text, "DIFF");
    assert_eq!(e.description, "my_page_.html: +3 -1 (2 hunks)");
    assert!(e.reverse_diff.contains("--- a/b/my_page_.html"));
    assert!(e.reverse_diff.contains("+++ b/a/my_page_.html"));
    assert!(e.reverse_diff.contains("-c"));
    assert!(e.reverse_diff.contains("+b"));
}

#[test]
fn entry_without_file_name() {
    let e = create_entry_at("..", "x", "y", "", 0, 0, 0, 1, 2);
    assert_eq!(e.id, "1_2_unknown");
}

#[test]
fn entry_now_has_the_clock_time() {
    let e = create_entry("f.html", "a", "b", "d", 1, 1, 1);
    assert!(e.id.ends_with("_f.html"));
    assert!(e.timestamp > 0);
}

#[test]
fn rollback_dry_run_answers_reverse_diff() {
    let e: HistoryEntry = create_entry_at("p.html", "one\ntwo\n", "one\nTWO\n", "d", 1, 1, 1, 5, 6);
    let r = rollback(&e, "", 0, true).ok().unwrap();
    assert_eq!(r.message, e.reverse_diff);
    assert!(r.applied.is_none());
}

#[test]
fn rollback_restores_the_original_text() {
    let e = create_entry_at("p.html", "one\ntwo\nthree", "one\nTWO\nthree", "d", 1, 1, 1, 5, 6);
    let r = rollback(&e, "one\nTWO\nthree", 0, false).ok().unwrap();
    let (text, res) = r.applied.unwrap();
    assert_eq!(text, "one\ntwo\nthree");
    assert_eq!(res.hunks_applied, 1);
    assert_eq!(r.message, "Rollback applied: 1 hunks, +1 -1 lines. Backup created.");
}

#[test]
fn listing_is_newest_first_and_filtered() {
    let entries = vec![
        summary("100_1_a.html", "/w/a.html"),
        summary("300_1_b.html", "/w/b.html"),
        summary("200_1_a.html", "/w/a.html"),
    ];
    let all = select_entries(entries, None);
    let ids: Vec<&str> = all.iter().map(|e| e.id.as_str()).collect();
    assert_eq!(ids, vec!["300_1_b.html", "200_1_a.html", "100_1_a.html"]);
    let only_a = select_entries(all, Some("a.html"));
    let ids: Vec<&str> = only_a.iter().map(|e| e.id.as_str()).collect();
    assert_eq!(ids, vec!["200_1_a.html", "100_1_a.html"]);
}

#[test]
fn cache_limit_keeps_at_most_the_limit() {
    let mb: u64 = 1024 * 1024;
    let entries = vec![(4 * mb, 9), (3 * mb, 2), (5 * mb, 4), (2 * mb, 7), (1 * mb, 1)];
    let gone = enforce_cache_limit(&entries);
    let kept: u64 = entries.iter().enumerate().filter(|(i, _)| !gone.contains(i)).map(|(_, e)| e.0).sum();
    assert!(kept <= 10 * mb);
    // timestamps 1, 2, 4 go first: 15 - 1 - 3 = 11 MB still too much, so the 5 MB one goes too
    assert_eq!(gone, vec![1, 2, 4]);
}

use sfhtml::search::{file_score, rank_results, score_file, search_files, search_files_checked, SearchResult};

const PAGE: &str = "<html>\n<title>Todo App</title>\n<!-- AI-SKILL-HEADER START\n# Todo — tasks\n-->\n<!-- ai-skill-header end -->\n<body>\nadd a todo item\n</body>\n</html>";

#[test]
fn score_by_where_the_query_stands() {
    let r = score_file("apps/todo.html", PAGE, "todo", 0).unwrap();
    // name 10, title line 10, header line 5, body line 1
    assert_eq!(r.score, 26);
    let kinds: Vec<(usize, &str)> = r.matches.iter().map(|m| (m.line, m.match_type.as_str())).collect();
    assert_eq!(kinds, vec![(0, "filename"), (2, "title"), (4, "header"), (8, "body")]);
    assert_eq!(r.matches[0].content, "apps/todo.html");
    assert_eq!(r.matches[3].content, "add a todo item");
}

#[test]
fn score_with_context_lines() {
    let r = score_file("x.html", PAGE, "add a", 1).unwrap();
    assert_eq!(r.score, 1);
    assert_eq!(r.matches[0].content, "<body>\nadd a todo item\n</body>");
}

#[test]
fn score_none_without_match() {
    assert!(score_file("x.html", PAGE, "zebra", 0).is_none());
}

#[test]
fn ranking_is_stable_and_limited() {
    let mk = |p: &str, s: u32| SearchResult { path: p.to_string(), score: s, matches: Vec::new() };
    let ranked = rank_results(vec![mk("a", 1), mk("b", 5), mk("c", 1), mk("d", 5)], 3);
    let order: Vec<(&str, u32)> = ranked.iter().map(|r| (r.path.as_str(), r.score)).collect();
    assert_eq!(order, vec![("b", 5), ("d", 5), ("a", 1)]);
}

#[test]
fn search_across_files() {
    let files = vec![
        ("one.html".to_string(), "nothing here".to_string()),
        ("two.html".to_string(), "<title>Render</title>\nrender()".to_string()),
        ("three.html".to_string(), "RENDER".to_string()),
    ];
    let found = search_files(files, "Render", 5, 0);
    let order: Vec<(&str, u32)> = found.iter().map(|r| (r.path.as_str(), r.score)).collect();
    assert_eq!(order, vec![("two.html", 11), ("three.html", 1)]);
}

#[test]
fn wide_score_and_checked_search() {
    assert_eq!(file_score("apps/todo.html", PAGE, "todo"), 26);
    assert_eq!(file_score("x.html", PAGE, "zebra"), 0);
    let files = vec![
        ("two.html".to_string(), "<title>Render</title>\nrender()".to_string()),
        ("three.html".to_string(), "RENDER".to_string()),
    ];
    let found = search_files_checked(files, "Render", 1, 0).unwrap();
    let order: Vec<(&str, u32)> = found.iter().map(|r| (r.path.as_str(), r.score)).collect();
    assert_eq!(order, vec![("two.html", 11)]);
}

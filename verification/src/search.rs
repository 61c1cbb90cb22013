//! Searching pages for a query: scoring each file's matches by where they
//! stand, and ranking the files.
use vstd::prelude::*;
use crate::order::{
    lemma_first_before, lemma_stable_sorted, lemma_stable_sorted_len, stable_sorted, strict_order,
};
use crate::text::{
    chars_of, contains, copy, includes, join, join_seq, lines_seq, str_lines, to_lowercase,
    to_string, unicode_lower, views,
};

verus! {

/// A file that matched, with its score and its matching lines.
pub struct SearchResult {
    pub path: String,
    pub score: u32,
    pub matches: Vec<SearchMatch>,
}

/// A match: the line (0 for the file's name), what is shown of it, and where
/// it stands (`filename`, `title`, `header` or `body`).
pub struct SearchMatch {
    pub line: usize,
    pub content: String,
    pub match_type: String,
}

pub open spec fn match_views(v: Seq<SearchMatch>) -> Seq<(usize, Seq<char>, Seq<char>)> {
    v.map_values(|m: SearchMatch| (m.line, m.content@, m.match_type@))
}

/// The lines, each lower-cased.
pub open spec fn lowered(ls: Seq<Seq<char>>) -> Seq<Seq<char>> {
    ls.map_values(|l: Seq<char>| unicode_lower(l))
}

pub open spec fn header_start() -> Seq<char> {
    "<!-- ai-skill-header start"@
}

pub open spec fn header_end() -> Seq<char> {
    "ai-skill-header end -->"@
}

/// Line `i` (lower-cased) lies inside the header: the last of the lines up
/// to it that opens or closes the header opens it (a line that does both
/// closes it).
pub open spec fn in_header(ll: Seq<Seq<char>>, i: int) -> bool
    decreases i + 1,
{
    if i < 0 {
        false
    } else if includes(ll[i], header_end()) {
        false
    } else if includes(ll[i], header_start()) {
        true
    } else {
        in_header(ll, i - 1)
    }
}

pub open spec fn is_title_line(l: Seq<char>) -> bool {
    includes(l, "<title>"@) || includes(l, "</title>"@)
}

/// What a matching line adds to the score: 10 on a title line, 5 in the
/// header, else 1.
pub open spec fn line_weight(ll: Seq<Seq<char>>, i: int) -> nat {
    if is_title_line(ll[i]) {
        10
    } else if in_header(ll, i) {
        5
    } else {
        1
    }
}

pub open spec fn line_kind(ll: Seq<Seq<char>>, i: int) -> Seq<char> {
    if is_title_line(ll[i]) {
        "title"@
    } else if in_header(ll, i) {
        "header"@
    } else {
        "body"@
    }
}

/// What is shown of matching line `i`: the line, or with `ctx > 0` the lines
/// from `ctx` before it to `ctx` after it, joined by newlines.
pub open spec fn match_text(ls: Seq<Seq<char>>, i: int, ctx: nat) -> Seq<char> {
    if ctx > 0 {
        let a = if i >= ctx {
            i - ctx
        } else {
            0
        };
        let b = if i + ctx + 1 < ls.len() {
            i + ctx + 1
        } else {
            ls.len() as int
        };
        join_seq(ls.subrange(a, b), seq!['\n'])
    } else {
        ls[i]
    }
}

/// The matches among the first `n` lines.
pub open spec fn line_hits(ls: Seq<Seq<char>>, q: Seq<char>, ctx: nat, n: int) -> Seq<
    (usize, Seq<char>, Seq<char>),
>
    decreases n,
{
    if n <= 0 {
        Seq::empty()
    } else if includes(lowered(ls)[n - 1], q) {
        line_hits(ls, q, ctx, n - 1).push(
            (n as usize, match_text(ls, n - 1, ctx), line_kind(lowered(ls), n - 1)),
        )
    } else {
        line_hits(ls, q, ctx, n - 1)
    }
}

/// The score of the matches among the first `n` lines.
pub open spec fn line_points(ls: Seq<Seq<char>>, q: Seq<char>, n: int) -> nat
    decreases n,
{
    if n <= 0 {
        0
    } else if includes(lowered(ls)[n - 1], q) {
        line_points(ls, q, n - 1) + line_weight(lowered(ls), n - 1)
    } else {
        line_points(ls, q, n - 1)
    }
}

pub open spec fn name_hit(path: Seq<char>, q: Seq<char>) -> bool {
    includes(unicode_lower(path), q)
}

/// A file's matches: its name (scoring 10) and its lines.
pub open spec fn file_hits(path: Seq<char>, content: Seq<char>, q: Seq<char>, ctx: nat) -> Seq<
    (usize, Seq<char>, Seq<char>),
> {
    let ls = lines_seq(content);
    (if name_hit(path, q) {
        seq![(0usize, path, "filename"@)]
    } else {
        Seq::empty()
    }) + line_hits(ls, q, ctx, ls.len() as int)
}

pub open spec fn file_points(path: Seq<char>, content: Seq<char>, q: Seq<char>) -> nat {
    let ls = lines_seq(content);
    (if name_hit(path, q) {
        10nat
    } else {
        0nat
    }) + line_points(ls, q, ls.len() as int)
}

proof fn lemma_points_bound(ls: Seq<Seq<char>>, q: Seq<char>, n: int)
    requires
        0 <= n,
    ensures
        line_points(ls, q, n) <= 10 * n,
    decreases n,
{
    if n > 0 {
        lemma_points_bound(ls, q, n - 1);
    }
}

proof fn lemma_points_mono(ls: Seq<Seq<char>>, q: Seq<char>, i: int, n: int)
    requires
        0 <= i <= n,
    ensures
        line_points(ls, q, i) <= line_points(ls, q, n),
    decreases n - i,
{
    if i < n {
        lemma_points_mono(ls, q, i, n - 1);
    }
}

/// A file's score fits the `u32` that holds it.
pub open spec fn score_fits(path: Seq<char>, content: Seq<char>, q: Seq<char>) -> bool {
    file_points(path, content, q) <= u32::MAX
}

/// The score of a file for a (lower-cased) query, computed wide enough that
/// it cannot overflow.
pub fn file_score(path: &str, content: &str, query: &str) -> (r: u128)
    ensures
        r == file_points(path@, content@, query@),
{
    let ls = str_lines(content);
    let ghost lv = views(ls@);
    let ghost ll = lowered(lv);
    let q = chars_of(query);
    let name_lower = chars_of(to_lowercase(path).as_str());
    let mut score: u128 = if contains(&name_lower, &q) {
        10
    } else {
        0
    };
    let ghost head: nat = score as nat;
    let n = ls.len();
    let mut in_hdr = false;
    let mut idx: usize = 0;
    while idx < n
        invariant
            n == ls@.len(),
            lv == views(ls@),
            lv == lines_seq(content@),
            ll == lowered(lv),
            q@ == query@,
            idx <= n,
            in_hdr == in_header(ll, idx - 1),
            head <= 10,
            score == head + line_points(lv, query@, idx as int),
            head == (if name_hit(path@, query@) { 10nat } else { 0nat }),
        decreases n - idx,
    {
        let lower = chars_of(to_lowercase(to_string(&ls[idx]).as_str()).as_str());
        proof {
            assert(ls@[idx as int]@ == lv[idx as int]);
            assert(lower@ == ll[idx as int]);
            lemma_points_bound(lv, query@, idx as int);
        }
        let title = contains(&lower, &chars_of("<title>")) || contains(&lower, &chars_of("</title>"));
        if contains(&lower, &chars_of("<!-- ai-skill-header start")) {
            in_hdr = true;
        }
        if contains(&lower, &chars_of("ai-skill-header end -->")) {
            in_hdr = false;
        }
        if contains(&lower, &q) {
            let weight: u128 = if title {
                10
            } else if in_hdr {
                5
            } else {
                1
            };
            score = score + weight;
        }
        idx = idx + 1;
    }
    score
}

/// Score a file for a (lower-cased) query: 10 where its name holds it, and
/// for each line that holds it 10 on a title line, 5 inside the header, else
/// 1; no result where nothing matched.
pub fn score_file(path: &str, content: &str, query: &str, context_lines: usize) -> (r: Option<
    SearchResult,
>)
    requires
        score_fits(path@, content@, query@),
        context_lines < usize::MAX - lines_seq(content@).len(),
    ensures
        r is Some <==> file_points(path@, content@, query@) > 0,
        r matches Some(sr) ==> {
            &&& sr.path@ == path@
            &&& sr.score == file_points(path@, content@, query@)
            &&& match_views(sr.matches@) == file_hits(path@, content@, query@, context_lines as nat)
        },
{
    let ls = str_lines(content);
    let ghost lv = views(ls@);
    let ghost ll = lowered(lv);
    let q = chars_of(query);
    let mut score: u32 = 0;
    let mut matches: Vec<SearchMatch> = Vec::new();
    let name_lower = chars_of(to_lowercase(path).as_str());
    if contains(&name_lower, &q) {
        score = 10;
        matches.push(
            SearchMatch { line: 0, content: path.to_string(), match_type: "filename".to_string() },
        );
    }
    let ghost head = match_views(matches@);
    let ghost head_points: nat = score as nat;
    assert(head =~= (if name_hit(path@, query@) {
        seq![(0usize, path@, "filename"@)]
    } else {
        Seq::empty()
    }));
    let n = ls.len();
    let mut in_hdr = false;
    let mut idx: usize = 0;
    while idx < n
        invariant
            n == ls@.len(),
            lv == views(ls@),
            lv == lines_seq(content@),
            ll == lowered(lv),
            q@ == query@,
            head_points + line_points(lv, query@, n as int) <= u32::MAX,
            context_lines < usize::MAX - n,
            idx <= n,
            in_hdr == in_header(ll, idx - 1),
            head_points <= 10,
            score == head_points + line_points(lv, query@, idx as int),
            match_views(matches@) == head + line_hits(lv, query@, context_lines as nat, idx as int),
        decreases n - idx,
    {
        let lower = chars_of(to_lowercase(to_string(&ls[idx]).as_str()).as_str());
        proof {
            assert(ls@[idx as int]@ == lv[idx as int]);
            assert(lower@ == ll[idx as int]);
            lemma_points_mono(lv, query@, idx + 1, n as int);
        }
        let title = contains(&lower, &chars_of("<title>")) || contains(&lower, &chars_of("</title>"));
        if contains(&lower, &chars_of("<!-- ai-skill-header start")) {
            in_hdr = true;
        }
        if contains(&lower, &chars_of("ai-skill-header end -->")) {
            in_hdr = false;
        }
        if contains(&lower, &q) {
            let weight: u32 = if title {
                10
            } else if in_hdr {
                5
            } else {
                1
            };
            score = score + weight;
            let kind = if title {
                "title"
            } else if in_hdr {
                "header"
            } else {
                "body"
            };
            let shown: Vec<char> = if context_lines > 0 {
                let a = if idx >= context_lines {
                    idx - context_lines
                } else {
                    0
                };
                let b = if idx + context_lines + 1 < n {
                    idx + context_lines + 1
                } else {
                    n
                };
                let mut part: Vec<Vec<char>> = Vec::new();
                let mut k = a;
                while k < b
                    invariant
                        a <= k <= b <= n,
                        n == ls@.len(),
                        views(part@) == views(ls@).subrange(a as int, k as int),
                    decreases b - k,
                {
                    let ghost old_part = part@;
                    let line = copy(&ls[k]);
                    proof {
                        assert(ls@[k as int]@ == views(ls@)[k as int]);
                    }
                    part.push(line);
                    assert(views(part@) =~= views(old_part).push(line@));
                    k = k + 1;
                    assert(views(part@) =~= views(ls@).subrange(a as int, k as int));
                }
                let mut nl: Vec<char> = Vec::new();
                nl.push('\n');
                assert(nl@ =~= seq!['\n']);
                join(&part, &nl)
            } else {
                copy(&ls[idx])
            };
            let ghost before = matches@;
            matches.push(
                SearchMatch { line: idx + 1, content: to_string(&shown), match_type: kind.to_string() },
            );
            proof {
                assert(match_views(matches@) =~= match_views(before).push(
                    ((idx + 1) as usize, match_text(lv, idx as int, context_lines as nat), line_kind(ll, idx as int)),
                ));
            }
        }
        idx = idx + 1;
    }
    if score > 0 {
        Some(SearchResult { path: path.to_string(), score, matches })
    } else {
        None
    }
}

/// `x` must precede `a` where it scores more.
pub open spec fn by_score() -> spec_fn(SearchResult, SearchResult) -> bool {
    |x: SearchResult, a: SearchResult| a.score < x.score
}

/// Results by descending score, those of equal score in the order they
/// came (a stable sort).
pub open spec fn ranked(s: Seq<SearchResult>) -> Seq<SearchResult> {
    stable_sorted(s, by_score())
}

/// The ranking keeps the results and puts them in descending order of
/// score.
pub proof fn lemma_ranking(s: Seq<SearchResult>)
    ensures
        ranked(s).to_multiset() == s.to_multiset(),
        forall|i: int, j: int| 0 <= i < j < ranked(s).len() ==> #[trigger] ranked(s)[i].score >= #[trigger] ranked(s)[j].score,
{
    let b = by_score();
    assert(strict_order(b));
    lemma_stable_sorted(s, b);
    assert forall|i: int, j: int| 0 <= i < j < ranked(s).len() implies #[trigger] ranked(s)[i].score >= #[trigger] ranked(s)[j].score by {
        assert(!b(ranked(s)[j], ranked(s)[i]));
    }
}

/// Rank results by descending score, keeping at most `top_n`.
pub fn rank_results(results: Vec<SearchResult>, top_n: usize) -> (r: Vec<SearchResult>)
    ensures
        r@ == ranked(results@).take(if top_n < results@.len() {
            top_n as int
        } else {
            results@.len() as int
        }),
{
    let ghost orig = results@;
    let mut rest = results;
    let n0 = rest.len();
    let mut out: Vec<SearchResult> = Vec::new();
    let mut k: usize = 0;
    assert(orig.take(0) =~= Seq::<SearchResult>::empty());
    assert(orig.skip(0) =~= orig);
    while rest.len() > 0
        invariant
            k + rest.len() == orig.len(),
            n0 == orig.len(),
            rest@ == orig.skip(k as int),
            out@ == ranked(orig.take(k as int)),
        decreases rest.len(),
    {
        let x = rest.remove(0);
        proof {
            assert(x == orig[k as int]);
            assert(orig.take(k + 1).drop_last() =~= orig.take(k as int));
            assert(orig.take(k + 1).last() == x);
            assert(rest@ =~= orig.skip(k + 1));
            lemma_stable_sorted_len(orig.take(k as int), by_score());
        }
        let mut p: usize = 0;
        while p < out.len() && !(out[p].score < x.score)
            invariant
                p <= out@.len(),
                forall|q: int| 0 <= q < p ==> !by_score()(x, #[trigger] out@[q]),
            decreases out@.len() - p,
        {
            p = p + 1;
        }
        proof {
            lemma_first_before(out@, x, by_score(), p as int);
        }
        out.insert(p, x);
        k = k + 1;
    }
    assert(orig.take(orig.len() as int) =~= orig);
    proof {
        lemma_stable_sorted_len(orig, by_score());
    }
    out.truncate(top_n);
    out
}

/// Every file's context window fits a `usize`.
pub open spec fn context_fits(files: Seq<(String, String)>, context_lines: usize) -> bool {
    forall|i: int| 0 <= i < files.len() ==> context_lines < usize::MAX - lines_seq(#[trigger] files[i].1@).len()
}

/// The files can be searched for a (lower-cased) query without a score
/// overflowing its `u32`.
pub open spec fn all_searchable(files: Seq<(String, String)>, q: Seq<char>, context_lines: usize) -> bool {
    &&& context_fits(files, context_lines)
    &&& forall|i: int| 0 <= i < files.len() ==> score_fits(#[trigger] files[i].0@, files[i].1@, q)
}

/// The scored results of the files, in order, for a lower-cased query.
pub open spec fn scored(files: Seq<(String, String)>, q: Seq<char>, ctx: nat) -> Seq<
    (Seq<char>, nat, Seq<(usize, Seq<char>, Seq<char>)>),
>
    decreases files.len(),
{
    if files.len() == 0 {
        Seq::empty()
    } else {
        let f = files.last();
        let prev = scored(files.drop_last(), q, ctx);
        if file_points(f.0@, f.1@, q) > 0 {
            prev.push((f.0@, file_points(f.0@, f.1@, q), file_hits(f.0@, f.1@, q, ctx)))
        } else {
            prev
        }
    }
}

pub open spec fn result_views(v: Seq<SearchResult>) -> Seq<
    (Seq<char>, nat, Seq<(usize, Seq<char>, Seq<char>)>),
> {
    v.map_values(|r: SearchResult| (r.path@, r.score as nat, match_views(r.matches@)))
}

/// Search files, given as (path relative to the searched directory, text),
/// for a query without regard to case: the files that match, best first,
/// at most `top_n` of them.
pub fn search_files(files: Vec<(String, String)>, query: &str, top_n: usize, context_lines: usize) -> (r:
    Vec<SearchResult>)
    requires
        all_searchable(files@, unicode_lower(query@), context_lines),
    ensures
        exists|found: Seq<SearchResult>|
            #![trigger ranked(found)]
            result_views(found) == scored(files@, unicode_lower(query@), context_lines as nat)
                && r@ == ranked(found).take(
                if top_n < found.len() {
                    top_n as int
                } else {
                    found.len() as int
                },
            ),
{
    let q = to_lowercase(query);
    let mut found: Vec<SearchResult> = Vec::new();
    let mut i: usize = 0;
    while i < files.len()
        invariant
            i <= files@.len(),
            all_searchable(files@, q@, context_lines),
            q@ == unicode_lower(query@),
            result_views(found@) == scored(files@.take(i as int), q@, context_lines as nat),
        decreases files@.len() - i,
    {
        let ghost before = found@;
        proof {
            assert(files@.take(i + 1).drop_last() =~= files@.take(i as int));
            assert(score_fits(files@[i as int].0@, files@[i as int].1@, q@));
            assert(context_lines < usize::MAX - lines_seq(files@[i as int].1@).len());
        }
        match score_file(files[i].0.as_str(), files[i].1.as_str(), q.as_str(), context_lines) {
            Some(sr) => {
                found.push(sr);
                assert(result_views(found@) =~= result_views(before).push(
                    (
                        files@[i as int].0@,
                        file_points(files@[i as int].0@, files@[i as int].1@, q@),
                        file_hits(files@[i as int].0@, files@[i as int].1@, q@, context_lines as nat),
                    ),
                ));
            },
            None => {},
        }
        i = i + 1;
    }
    assert(files@.take(files@.len() as int) =~= files@);
    let ghost all = found@;
    rank_results(found, top_n)
}

/// Search as [`search_files`] does, where every file's score fits the `u32`
/// that holds it; `None` where some file's score would not.
pub fn search_files_checked(files: Vec<(String, String)>, query: &str, top_n: usize, context_lines: usize) -> (r:
    Option<Vec<SearchResult>>)
    requires
        context_fits(files@, context_lines),
    ensures
        r is Some <==> all_searchable(files@, unicode_lower(query@), context_lines),
        r matches Some(v) ==> exists|found: Seq<SearchResult>|
            #![trigger ranked(found)]
            result_views(found) == scored(files@, unicode_lower(query@), context_lines as nat)
                && v@ == ranked(found).take(
                if top_n < found.len() {
                    top_n as int
                } else {
                    found.len() as int
                },
            ),
{
    let q = to_lowercase(query);
    let mut i: usize = 0;
    while i < files.len()
        invariant
            i <= files@.len(),
            q@ == unicode_lower(query@),
            forall|j: int| 0 <= j < i ==> score_fits(#[trigger] files@[j].0@, files@[j].1@, q@),
        decreases files@.len() - i,
    {
        if file_score(files[i].0.as_str(), files[i].1.as_str(), q.as_str()) > 0xffff_ffffu128 {
            assert(!score_fits(files@[i as int].0@, files@[i as int].1@, q@));
            return None;
        }
        i = i + 1;
    }
    Some(search_files(files, query, top_n, context_lines))
}

} // verus!

//! Finding code anchors: the lines that mention a name, with the end of the
//! declaration's scope and a preview of the text around it.
use vstd::prelude::*;
use crate::text::unicode_lower;

use crate::header::{
    anchor_views, anchors_of, content_ranges, extract_header, extract_header_spec, find_script_regions,
    header_spans_lines, parse_anchor_list, regions_in_order, script_regions_spec, section_numbered,
    sections_view,
};
use crate::js_scope::{
    JsDeclV, decl_type_label, detect_scope_end, extract_js_declarations, js_decls_spec,
    lemma_decl_lines_bounded, pair_views, scope_end_spec, triple_views, weight,
};
use crate::text::{
    chars_of, contains, includes, join, join_seq, lines_seq, lower_seq, push_all, push_str, str_lines,
    to_lower, to_string, views,
};

verus! {

// ---------------------------------------------------------------------------
// Types
// ---------------------------------------------------------------------------

/// Where an anchor was found.
#[derive(Debug, Clone)]
pub struct LocateResult {
    pub anchor: String,
    pub matches: Vec<AnchorMatch>,
}

/// One line that mentions the anchor.
#[derive(Debug, Clone)]
pub struct AnchorMatch {
    /// 1-based
    pub line: usize,
    /// 1-based end of the declaration's scope, when known
    pub end_line: Option<usize>,
    pub context_preview: String,
}

pub struct MatchV {
    pub line: nat,
    pub end_line: Option<nat>,
    pub context_preview: Seq<char>,
}

impl View for AnchorMatch {
    type V = MatchV;

    open spec fn view(&self) -> MatchV {
        MatchV {
            line: self.line as nat,
            end_line: match self.end_line {
                Some(n) => Some(n as nat),
                None => None,
            },
            context_preview: self.context_preview@,
        }
    }
}

pub open spec fn matches_view(v: Seq<AnchorMatch>) -> Seq<MatchV> {
    v.map_values(|m: AnchorMatch| m@)
}

/// Every match's lines are within `w + 1`.
pub open spec fn bounded(ms: Seq<AnchorMatch>, w: nat) -> bool {
    forall|i: int|
        0 <= i < ms.len() ==> 1 <= (#[trigger] ms[i]).line <= w + 1 && (ms[i].end_line matches Some(l)
            ==> l <= w + 1)
}

/// An anchor that no line mentions, with the declarations that look like it.
#[derive(Debug, Clone)]
pub enum LocateError {
    NotFound { anchor: String, suggestions: Vec<String> },
}

impl LocateError {
    /// The message shown for the error.
    pub fn message(&self) -> (r: String)
        ensures
            r@ == match self {
                LocateError::NotFound { anchor, suggestions } => not_found_message(
                    anchor@,
                    crate::header::string_views(suggestions@),
                ),
            },
    {
        match self {
            LocateError::NotFound { anchor, suggestions } => {
                let mut m = chars_of("Error: Anchor \"");
                push_str(&mut m, anchor.as_str());
                if suggestions.len() == 0 {
                    push_str(&mut m, "\" not found.");
                } else {
                    push_str(&mut m, "\" not found. Did you mean: ");
                    let sv = strings_to_chars(suggestions);
                    push_all(&mut m, &join(&sv, &chars_of(", ")));
                    push_str(&mut m, "?");
                }
                to_string(&m)
            },
        }
    }
}

pub open spec fn not_found_message(anchor: Seq<char>, suggestions: Seq<Seq<char>>) -> Seq<char> {
    if suggestions.len() == 0 {
        "Error: Anchor \""@ + anchor + "\" not found."@
    } else {
        "Error: Anchor \""@ + anchor + "\" not found. Did you mean: "@ + join_seq(suggestions, ", "@)
            + "?"@
    }
}

fn strings_to_chars(v: &Vec<String>) -> (r: Vec<Vec<char>>)
    ensures
        views(r@) == crate::header::string_views(v@),
{
    let mut out: Vec<Vec<char>> = Vec::new();
    let mut i: usize = 0;
    while i < v.len()
        invariant
            i <= v.len(),
            views(out@) == crate::header::string_views(v@).take(i as int),
        decreases v.len() - i,
    {
        let ghost before = views(out@);
        let c = chars_of(v[i].as_str());
        out.push(c);
        assert(views(out@) =~= before.push(v@[i as int]@));
        assert(crate::header::string_views(v@).take(i + 1) =~= crate::header::string_views(v@).take(
            i as int,
        ).push(v@[i as int]@));
        i = i + 1;
    }
    assert(crate::header::string_views(v@).take(v@.len() as int) =~= crate::header::string_views(
        v@,
    ));
    out
}

// ---------------------------------------------------------------------------
// Locating
// ---------------------------------------------------------------------------

pub open spec fn min_nat(a: nat, b: nat) -> nat {
    if a <= b {
        a
    } else {
        b
    }
}

/// Lines `a..b` joined by newlines; empty when `a` is past `b`.
pub open spec fn preview(lines: Seq<Seq<char>>, a: nat, b: nat) -> Seq<char> {
    if a <= b {
        join_seq(lines.subrange(a as int, b as int), seq!['\n'])
    } else {
        Seq::empty()
    }
}

/// The match on 0-based line `abs` of a script region.
pub open spec fn script_match(lines: Seq<Seq<char>>, abs: nat) -> MatchV {
    MatchV {
        line: abs + 1,
        end_line: match scope_end_spec(lines, abs) {
            Some(l) => Some(l + 1),
            None => None,
        },
        context_preview: preview(lines, abs, min_nat(abs + 3, lines.len())),
    }
}

/// The match on 0-based line `abs` outside the script regions.
pub open spec fn plain_match(lines: Seq<Seq<char>>, abs: nat) -> MatchV {
    MatchV {
        line: abs + 1,
        end_line: None,
        context_preview: preview(lines, abs, min_nat(abs + 3, lines.len())),
    }
}

/// Matches among lines `s..e` (of a script region when `in_script`).
pub open spec fn matches_in(lines: Seq<Seq<char>>, s: nat, e: nat, anchor: Seq<char>, in_script: bool) -> Seq<MatchV>
    decreases e - s,
{
    if e <= s {
        Seq::empty()
    } else {
        let p = matches_in(lines, s, (e - 1) as nat, anchor, in_script);
        let abs = (e - 1) as nat;
        if includes(lines[abs as int], anchor) {
            p.push(
                if in_script {
                    script_match(lines, abs)
                } else {
                    plain_match(lines, abs)
                },
            )
        } else {
            p
        }
    }
}

/// Matches in the script regions, region by region.
pub open spec fn region_matches(lines: Seq<Seq<char>>, regions: Seq<(nat, nat)>, anchor: Seq<char>) -> Seq<MatchV>
    decreases regions.len(),
{
    if regions.len() == 0 {
        Seq::empty()
    } else {
        region_matches(lines, regions.drop_last(), anchor) + matches_in(
            lines,
            regions.last().0,
            regions.last().1,
            anchor,
            true,
        )
    }
}

/// A match with the context widened by `ctx` lines around its scope.
pub open spec fn widen(lines: Seq<Seq<char>>, m: MatchV, ctx: nat) -> MatchV {
    let start: nat = if m.line - 1 - ctx > 0 {
        (m.line - 1 - ctx) as nat
    } else {
        0
    };
    let end_line = match m.end_line {
        Some(l) => l,
        None => m.line,
    };
    MatchV { context_preview: preview(lines, start, min_nat(end_line + ctx, lines.len())), ..m }
}

/// What locating `anchor` in `content` gives.
pub open spec fn locate_spec(content: Seq<char>, anchor: Seq<char>, ctx: nat) -> Result<Seq<MatchV>, Seq<Seq<char>>> {
    let lines = lines_seq(content);
    let in_scripts = region_matches(
        lines,
        content_ranges(script_regions_spec(lines)),
        anchor,
    );
    let ms = if in_scripts.len() > 0 {
        in_scripts
    } else {
        matches_in(lines, 0, lines.len(), anchor, false)
    };
    if ms.len() == 0 {
        Err(similar_spec(lines, anchor))
    } else if ctx > 0 {
        Ok(ms.map_values(|m: MatchV| widen(lines, m, ctx)))
    } else {
        Ok(ms)
    }
}

/// The text, with room for the context asked for, is far from the limits of
/// `usize`.
pub open spec fn fits(lines: Seq<Seq<char>>, ctx: nat) -> bool {
    weight(lines) + ctx + 3 <= usize::MAX && ctx <= isize::MAX
}

fn preview_exec(lines: &Vec<Vec<char>>, a: usize, b: usize) -> (r: String)
    requires
        b <= lines.len(),
    ensures
        r@ == preview(views(lines@), a as nat, b as nat),
{
    if a <= b {
        let part = crate::header::line_range(lines, a, b);
        let mut nl: Vec<char> = Vec::new();
        nl.push('\n');
        assert(nl@ =~= seq!['\n']);
        to_string(&join(&part, &nl))
    } else {
        String::new()
    }
}

proof fn lemma_weight_ge_len(v: Seq<Seq<char>>)
    ensures
        v.len() <= weight(v),
    decreases v.len(),
{
    if v.len() > 0 {
        lemma_weight_ge_len(v.drop_last());
    }
}

/// Push the matches among lines `s..e`.
fn push_matches_in(
    out: &mut Vec<AnchorMatch>,
    lines: &Vec<Vec<char>>,
    s: usize,
    e: usize,
    anchor: &Vec<char>,
    in_script: bool,
)
    requires
        s <= e <= lines.len(),
        weight(views(lines@)) + 3 <= usize::MAX,
        bounded(old(out)@, weight(views(lines@))),
    ensures
        matches_view(final(out)@) == matches_view(old(out)@) + matches_in(views(lines@), s as nat, e as nat, anchor@, in_script),
        bounded(final(out)@, weight(views(lines@))),
{
    let ghost ls = views(lines@);
    let ghost o = matches_view(out@);
    proof {
        lemma_weight_ge_len(ls);
    }
    let mut k: usize = s;
    assert(matches_view(out@) =~= o + matches_in(ls, s as nat, s as nat, anchor@, in_script));
    while k < e
        invariant
            s <= k <= e <= lines.len(),
            ls == views(lines@),
            lines.len() <= weight(ls),
            weight(ls) + 3 <= usize::MAX,
            matches_view(out@) == o + matches_in(ls, s as nat, k as nat, anchor@, in_script),
            bounded(out@, weight(ls)),
        decreases e - k,
    {
        if contains(&lines[k], anchor) {
            let end_line = if in_script {
                match detect_scope_end(lines, k) {
                    Some(l) => Some(l + 1),
                    None => None,
                }
            } else {
                None
            };
            let pe = if k + 3 < lines.len() {
                k + 3
            } else {
                lines.len()
            };
            let m = AnchorMatch { line: k + 1, end_line, context_preview: preview_exec(lines, k, pe) };
            let ghost before = matches_view(out@);
            let ghost mv = m@;
            let ghost ob = out@;
            out.push(m);
            assert(matches_view(out@) =~= before.push(mv));
            assert(out@ == ob.push(out@[ob.len() as int]));
        }
        k = k + 1;
    }
}

/// Widen the preview of every match by `ctx` lines around its scope.
fn widen_all(ms: &mut Vec<AnchorMatch>, lines: &Vec<Vec<char>>, ctx: usize)
    requires
        fits(views(lines@), ctx as nat),
        bounded(old(ms)@, weight(views(lines@))),
    ensures
        matches_view(final(ms)@) == matches_view(old(ms)@).map_values(
            |m: MatchV| widen(views(lines@), m, ctx as nat),
        ),
{
    let ghost ls = views(lines@);
    let ghost orig = matches_view(ms@);
    let mut out: Vec<AnchorMatch> = Vec::new();
    let mut i: usize = 0;
    while i < ms.len()
        invariant
            i <= ms.len(),
            ls == views(lines@),
            fits(ls, ctx as nat),
            orig == matches_view(ms@),
            bounded(ms@, weight(ls)),
            matches_view(out@) == orig.take(i as int).map_values(|m: MatchV| widen(ls, m, ctx as nat)),
        decreases ms.len() - i,
    {
        let m = &ms[i];
        assert(orig[i as int] == m@);
        let start = if m.line - 1 > ctx {
            m.line - 1 - ctx
        } else {
            0
        };
        let el = match m.end_line {
            Some(l) => l,
            None => m.line,
        };
        let end = if el + ctx < lines.len() {
            el + ctx
        } else {
            lines.len()
        };
        let w = AnchorMatch { line: m.line, end_line: m.end_line, context_preview: preview_exec(lines, start, end) };
        let ghost before = matches_view(out@);
        let ghost wv = w@;
        assert(wv == widen(ls, orig[i as int], ctx as nat));
        out.push(w);
        assert(matches_view(out@) =~= before.push(wv));
        assert(orig.take(i + 1) =~= orig.take(i as int).push(orig[i as int]));
        i = i + 1;
    }
    assert(orig.take(ms@.len() as int) =~= orig);
    *ms = out;
}

/// Line `k` (0-based) of the text mentions the anchor.
pub open spec fn mentions(lines: Seq<Seq<char>>, k: int, anchor: Seq<char>) -> bool {
    0 <= k < lines.len() && includes(lines[k], anchor)
}

/// Some match reports line `line` (1-based).
pub open spec fn reports_line(ms: Seq<MatchV>, line: int) -> bool {
    exists|j: int| 0 <= j < ms.len() && ms[j].line == line
}

/// Line `k` (0-based) lies in the content of one of the script regions.
pub open spec fn in_region(regions: Seq<(nat, nat)>, k: int) -> bool {
    exists|r: int| 0 <= r < regions.len() && (#[trigger] regions[r]).0 <= k < regions[r].1
}

/// The matches among lines `s..e` are exactly the lines there that mention
/// the anchor, one each, in the order of the text, each reported by its
/// 1-based number (with the scope's end in a script region).
pub proof fn lemma_matches_in_lines(lines: Seq<Seq<char>>, s: nat, e: nat, anchor: Seq<char>, in_script: bool)
    requires
        s <= e <= lines.len(),
    ensures
        ({
            let ms = matches_in(lines, s, e, anchor, in_script);
            &&& forall|j: int|
                0 <= j < ms.len() ==> s < (#[trigger] ms[j]).line <= e && mentions(lines, ms[j].line - 1, anchor)
                    && ms[j] == (if in_script {
                    script_match(lines, (ms[j].line - 1) as nat)
                } else {
                    plain_match(lines, (ms[j].line - 1) as nat)
                })
            &&& forall|i: int, j: int| 0 <= i < j < ms.len() ==> (#[trigger] ms[i]).line < (#[trigger] ms[j]).line
            &&& forall|k: int| s <= k < e && #[trigger] mentions(lines, k, anchor) ==> reports_line(ms, k + 1)
        }),
    decreases e - s,
{
    if e > s {
        let p = matches_in(lines, s, (e - 1) as nat, anchor, in_script);
        lemma_matches_in_lines(lines, s, (e - 1) as nat, anchor, in_script);
        let ms = matches_in(lines, s, e, anchor, in_script);
        assert forall|k: int| s <= k < e && #[trigger] mentions(lines, k, anchor) implies reports_line(ms, k + 1) by {
            if k < e - 1 {
                let j = choose|j: int| 0 <= j < p.len() && p[j].line == k + 1;
                assert(ms[j] == p[j]);
            } else {
                assert(ms[p.len() as int].line == k + 1);
            }
        }
    }
}

/// The matches in the script regions are exactly the lines of those regions
/// that mention the anchor: each such line is reported, and each match is
/// such a line.
pub proof fn lemma_region_matches_lines(lines: Seq<Seq<char>>, regions: Seq<(nat, nat)>, anchor: Seq<char>)
    requires
        forall|r: int| 0 <= r < regions.len() ==> (#[trigger] regions[r]).0 <= regions[r].1 <= lines.len(),
    ensures
        ({
            let ms = region_matches(lines, regions, anchor);
            &&& forall|j: int|
                0 <= j < ms.len() ==> in_region(regions, (#[trigger] ms[j]).line - 1) && mentions(
                    lines,
                    ms[j].line - 1,
                    anchor,
                )
            &&& forall|k: int| in_region(regions, k) && #[trigger] mentions(lines, k, anchor) ==> reports_line(ms, k + 1)
        }),
    decreases regions.len(),
{
    if regions.len() > 0 {
        let init = regions.drop_last();
        let (a, b) = regions.last();
        lemma_region_matches_lines(lines, init, anchor);
        lemma_matches_in_lines(lines, a, b, anchor, true);
        let p = region_matches(lines, init, anchor);
        let q = matches_in(lines, a, b, anchor, true);
        let ms = region_matches(lines, regions, anchor);
        assert(ms == p + q);
        assert forall|j: int| 0 <= j < ms.len() implies in_region(regions, (#[trigger] ms[j]).line - 1) && mentions(
            lines,
            ms[j].line - 1,
            anchor,
        ) by {
            if j < p.len() {
                assert(ms[j] == p[j]);
                let r = choose|r: int| 0 <= r < init.len() && (#[trigger] init[r]).0 <= p[j].line - 1 < init[r].1;
                assert(regions[r] == init[r]);
            } else {
                assert(ms[j] == q[j - p.len()]);
                assert(regions[regions.len() - 1] == (a, b));
            }
        }
        assert forall|k: int| in_region(regions, k) && #[trigger] mentions(lines, k, anchor) implies reports_line(
            ms,
            k + 1,
        ) by {
            let r = choose|r: int| 0 <= r < regions.len() && (#[trigger] regions[r]).0 <= k < regions[r].1;
            if r < regions.len() - 1 {
                assert(init[r] == regions[r]);
                assert(in_region(init, k));
                let j = choose|j: int| 0 <= j < p.len() && p[j].line == k + 1;
                assert(ms[j] == p[j]);
            } else {
                let j = choose|j: int| 0 <= j < q.len() && q[j].line == k + 1;
                assert(ms[p.len() + j] == q[j]);
            }
        }
    }
}

/// Locating an anchor reports every line of the script regions that mentions
/// it, and only those, in the order of the text; where no such line mentions
/// it, every line of the file that mentions it, and only those; where no line
/// does, it is not found. The context asked for changes no line reported.
pub proof fn lemma_locate_reports_lines(content: Seq<char>, anchor: Seq<char>, ctx: nat)
    ensures
        ({
            let lines = lines_seq(content);
            let regions = content_ranges(script_regions_spec(lines));
            let scripted = exists|k: int| in_region(regions, k) && #[trigger] mentions(lines, k, anchor);
            let anywhere = exists|k: int| #[trigger] mentions(lines, k, anchor);
            let r = locate_spec(content, anchor, ctx);
            &&& scripted ==> r is Ok && (forall|k: int|
                in_region(regions, k) && #[trigger] mentions(lines, k, anchor) ==> reports_line(r->Ok_0, k + 1))
                && (forall|j: int|
                0 <= j < r->Ok_0.len() ==> in_region(regions, (#[trigger] r->Ok_0[j]).line - 1) && mentions(
                    lines,
                    r->Ok_0[j].line - 1,
                    anchor,
                ))
            &&& (!scripted && anywhere) ==> r is Ok && (forall|k: int|
                #[trigger] mentions(lines, k, anchor) ==> reports_line(r->Ok_0, k + 1)) && (forall|j: int|
                0 <= j < r->Ok_0.len() ==> mentions(lines, (#[trigger] r->Ok_0[j]).line - 1, anchor))
            &&& !anywhere ==> r is Err
        }),
{
    let lines = lines_seq(content);
    let sr = script_regions_spec(lines);
    let regions = content_ranges(sr);
    crate::header::lemma_regions_in_order(lines);
    crate::header::lemma_regions_within(lines);
    assert forall|r: int| 0 <= r < regions.len() implies (#[trigger] regions[r]).0 <= regions[r].1 <= lines.len() by {
        assert(regions[r] == (sr[r].content_start, sr[r].content_end));
        assert(sr[r].content_end <= lines.len());
    }
    lemma_region_matches_lines(lines, regions, anchor);
    lemma_matches_in_lines(lines, 0, lines.len(), anchor, false);
    let in_scripts = region_matches(lines, regions, anchor);
    let plain = matches_in(lines, 0, lines.len(), anchor, false);
    let scripted = exists|k: int| in_region(regions, k) && #[trigger] mentions(lines, k, anchor);
    let anywhere = exists|k: int| #[trigger] mentions(lines, k, anchor);
    if scripted {
        let k = choose|k: int| in_region(regions, k) && #[trigger] mentions(lines, k, anchor);
        assert(reports_line(in_scripts, k + 1));
        assert(in_scripts.len() > 0);
    } else {
        if in_scripts.len() > 0 {
            assert(in_region(regions, in_scripts[0].line - 1) && mentions(lines, in_scripts[0].line - 1, anchor));
        }
        if anywhere {
            let k = choose|k: int| #[trigger] mentions(lines, k, anchor);
            assert(reports_line(plain, k + 1));
        } else {
            if plain.len() > 0 {
                assert(mentions(lines, plain[0].line - 1, anchor));
            }
        }
    }
    let ms = if in_scripts.len() > 0 {
        in_scripts
    } else {
        plain
    };
    if ms.len() > 0 && ctx > 0 {
        let w = ms.map_values(|m: MatchV| widen(lines, m, ctx));
        assert forall|j: int| 0 <= j < ms.len() implies #[trigger] w[j].line == ms[j].line by {
        }
        assert forall|k: int| #[trigger] reports_line(ms, k) implies reports_line(w, k) by {
            let j = choose|j: int| 0 <= j < ms.len() && ms[j].line == k;
            assert(w[j].line == k);
        }
    }
}

/// Locate an anchor in the file: the lines of the script regions that mention
/// it (with the end of the declaration starting there), else any line that
/// mentions it; with `context_lines`, the previews cover the scope and that
/// many lines around it.
pub fn locate_anchor(content: &str, anchor: &str, context_lines: usize) -> (r: Result<LocateResult, LocateError>)
    requires
        fits(lines_seq(content@), context_lines as nat),
    ensures
        match r {
            Ok(res) => res.anchor@ == anchor@ && locate_spec(content@, anchor@, context_lines as nat)
                == Ok::<Seq<MatchV>, Seq<Seq<char>>>(matches_view(res.matches@)),
            Err(LocateError::NotFound { anchor: a, suggestions }) => a@ == anchor@ && locate_spec(
                content@,
                anchor@,
                context_lines as nat,
            ) == Err::<Seq<MatchV>, Seq<Seq<char>>>(crate::header::string_views(suggestions@)),
        },
{
    proof {
        crate::header::lemma_regions_in_order(lines_seq(content@));
    }
    let lines = str_lines(content);
    let ghost ls = views(lines@);
    let a = chars_of(anchor);
    let regions = find_script_regions(&lines);
    let ghost rv = pair_views(regions@);
    proof {
        crate::header::lemma_regions_within(ls);
        lemma_weight_ge_len(ls);
    }
    let mut matches: Vec<AnchorMatch> = Vec::new();
    let mut i: usize = 0;
    assert(rv.take(0) =~= Seq::<(nat, nat)>::empty());
    assert(matches_view(matches@) =~= Seq::<MatchV>::empty());
    while i < regions.len()
        invariant
            i <= regions.len(),
            ls == views(lines@),
            rv == pair_views(regions@),
            rv == content_ranges(script_regions_spec(ls)),
            regions_in_order(ls),
            forall|k: int| 0 <= k < script_regions_spec(ls).len() ==> #[trigger] script_regions_spec(ls)[k].content_end <= ls.len(),
            fits(ls, context_lines as nat),
            bounded(matches@, weight(ls)),
            matches_view(matches@) == region_matches(ls, rv.take(i as int), a@),
        decreases regions.len() - i,
    {
        let (s, e) = regions[i];
        assert(rv[i as int] == (s as nat, e as nat));
        assert(rv.len() == script_regions_spec(ls).len());
        assert(script_regions_spec(ls)[i as int].content_start <= script_regions_spec(ls)[i as int].content_end);
        assert(script_regions_spec(ls)[i as int].content_end <= ls.len());
        push_matches_in(&mut matches, &lines, s, e, &a, true);
        assert(rv.take(i + 1).drop_last() =~= rv.take(i as int));
        i = i + 1;
    }
    assert(rv.take(rv.len() as int) =~= rv);
    if matches.len() == 0 {
        push_matches_in(&mut matches, &lines, 0, lines.len(), &a, false);
        assert(matches_view(matches@) =~= matches_in(ls, 0, ls.len(), a@, false));
    }
    if matches.len() == 0 {
        let suggestions = find_similar_anchors(content, anchor);
        return Err(LocateError::NotFound { anchor: to_string(&a), suggestions });
    }
    if context_lines > 0 {
        widen_all(&mut matches, &lines, context_lines);
    }
    Ok(LocateResult { anchor: to_string(&a), matches })
}


// ---------------------------------------------------------------------------
// Suggestions
// ---------------------------------------------------------------------------

/// Edit distance (insertions, deletions, substitutions of one character).
pub open spec fn edit_distance(a: Seq<char>, b: Seq<char>) -> nat
    decreases a.len() + b.len(),
{
    if a.len() == 0 {
        b.len()
    } else if b.len() == 0 {
        a.len()
    } else {
        let cost: nat = if a.last() == b.last() {
            0
        } else {
            1
        };
        let x = edit_distance(a.drop_last(), b) + 1;
        let y = edit_distance(a, b.drop_last()) + 1;
        let z = edit_distance(a.drop_last(), b.drop_last()) + cost;
        min_nat(min_nat(x, y), z)
    }
}

proof fn lemma_edit_distance_bound(a: Seq<char>, b: Seq<char>)
    ensures
        edit_distance(a, b) <= a.len() || edit_distance(a, b) <= b.len(),
        edit_distance(a, b) <= a.len() + b.len(),
        edit_distance(a, b) <= (if a.len() >= b.len() { a.len() } else { b.len() }),
    decreases a.len() + b.len(),
{
    if a.len() > 0 && b.len() > 0 {
        lemma_edit_distance_bound(a.drop_last(), b.drop_last());
    }
}

/// Edit distance between two character sequences.
fn levenshtein_distance(a: &Vec<char>, b: &Vec<char>) -> (r: usize)
    ensures
        r == edit_distance(a@, b@),
{
    let m = a.len();
    let n = b.len();
    // prev[j] is the distance between the first i-1 characters of a and the first j of b
    let mut prev: Vec<u128> = Vec::new();
    let mut j: usize = 0;
    prev.push(0);
    while j < n
        invariant
            j <= n == b.len(),
            prev.len() == j + 1,
            forall|k: int| 0 <= k <= j ==> #[trigger] prev@[k] == edit_distance(a@.take(0), b@.take(k)),
        decreases n - j,
    {
        j = j + 1;
        prev.push(j as u128);
        assert(a@.take(0).len() == 0);
    }
    let mut i: usize = 0;
    while i < m
        invariant
            i <= m == a.len(),
            n == b.len(),
            prev.len() == n + 1,
            forall|k: int| 0 <= k <= n ==> #[trigger] prev@[k] == edit_distance(a@.take(i as int), b@.take(k)),
        decreases m - i,
    {
        let ghost ai = a@.take(i as int);
        let ghost ai1 = a@.take(i + 1);
        assert(ai1.drop_last() =~= ai);
        let mut cur: Vec<u128> = Vec::new();
        cur.push((i + 1) as u128);
        assert(b@.take(0).len() == 0);
        let mut k: usize = 0;
        while k < n
            invariant
                k <= n == b.len(),
                i < m == a.len(),
                prev.len() == n + 1,
                ai == a@.take(i as int),
                ai1 == a@.take(i + 1),
                ai1.drop_last() == ai,
                forall|q: int| 0 <= q <= n ==> #[trigger] prev@[q] == edit_distance(ai, b@.take(q)),
                cur.len() == k + 1,
                forall|q: int| 0 <= q <= k ==> #[trigger] cur@[q] == edit_distance(ai1, b@.take(q)),
            decreases n - k,
        {
            proof {
                lemma_edit_distance_bound(ai1, b@.take(k as int));
                lemma_edit_distance_bound(ai, b@.take(k as int));
                lemma_edit_distance_bound(ai, b@.take(k + 1));
            }
            let cost: u128 = if a[i] == b[k] {
                0
            } else {
                1
            };
            let x = prev[k + 1] + 1;
            let y = cur[k] + 1;
            let z = prev[k] + cost;
            let mut v = if x < y {
                x
            } else {
                y
            };
            if z < v {
                v = z;
            }
            proof {
                let bk1 = b@.take(k + 1);
                assert(bk1.drop_last() =~= b@.take(k as int));
                assert(ai1.last() == a@[i as int]);
                assert(bk1.last() == b@[k as int]);
                lemma_edit_distance_bound(ai1, bk1);
                lemma_edit_distance_bound(ai, b@.take(k + 2));
            }
            cur.push(v);
            k = k + 1;
        }
        prev = cur;
        i = i + 1;
    }
    assert(a@.take(m as int) =~= a@);
    assert(b@.take(n as int) =~= b@);
    proof {
        lemma_edit_distance_bound(a@, b@);
    }
    prev[n] as usize
}

/// The declaration names of the script regions, region by region.
pub open spec fn candidates_of(lines: Seq<Seq<char>>, regions: Seq<(nat, nat)>) -> Seq<Seq<char>>
    decreases regions.len(),
{
    if regions.len() == 0 {
        Seq::empty()
    } else {
        candidates_of(lines, regions.drop_last()) + js_decls_spec(
            lines.subrange(regions.last().0 as int, regions.last().1 as int),
        ).map_values(|d: JsDeclV| d.name)
    }
}

/// A name looks like the (lower-case) query: one holds the other, or they are
/// at most 5 edits apart, case aside.
pub open spec fn looks_like(c: Seq<char>, q: Seq<char>) -> bool {
    let cl = unicode_lower(c);
    includes(cl, q) || includes(q, cl) || edit_distance(cl, q) <= 5
}

pub open spec fn filter_like(cs: Seq<Seq<char>>, q: Seq<char>) -> Seq<Seq<char>>
    decreases cs.len(),
{
    if cs.len() == 0 {
        Seq::empty()
    } else {
        let p = filter_like(cs.drop_last(), q);
        if looks_like(cs.last(), q) {
            p.push(cs.last())
        } else {
            p
        }
    }
}

/// `Vec::dedup`: runs of equal items collapse to one.
pub open spec fn dedup_seq(s: Seq<Seq<char>>) -> Seq<Seq<char>>
    decreases s.len(),
{
    if s.len() == 0 {
        Seq::empty()
    } else {
        let p = dedup_seq(s.drop_last());
        if p.len() > 0 && p.last() == s.last() {
            p
        } else {
            p.push(s.last())
        }
    }
}

/// Up to five declarations that look like the query, without repeats in a row.
pub open spec fn similar_spec(lines: Seq<Seq<char>>, query: Seq<char>) -> Seq<Seq<char>> {
    let f = filter_like(
        candidates_of(lines, content_ranges(script_regions_spec(lines))),
        unicode_lower(query),
    );
    dedup_seq(f.take(min_nat(5, f.len()) as int))
}

fn find_similar_anchors(content: &str, query: &str) -> (r: Vec<String>)
    ensures
        crate::header::string_views(r@) == similar_spec(lines_seq(content@), query@),
{
    proof {
        crate::header::lemma_regions_in_order(lines_seq(content@));
    }
    let lines = str_lines(content);
    let ghost ls = views(lines@);
    let regions = find_script_regions(&lines);
    let ghost rv = pair_views(regions@);
    proof {
        crate::header::lemma_regions_within(ls);
    }
    let mut candidates: Vec<Vec<char>> = Vec::new();
    let mut i: usize = 0;
    assert(rv.take(0) =~= Seq::<(nat, nat)>::empty());
    assert(views(candidates@) =~= Seq::<Seq<char>>::empty());
    while i < regions.len()
        invariant
            i <= regions.len(),
            ls == views(lines@),
            rv == pair_views(regions@),
            rv == content_ranges(script_regions_spec(ls)),
            regions_in_order(ls),
            forall|k: int| 0 <= k < script_regions_spec(ls).len() ==> #[trigger] script_regions_spec(ls)[k].content_end <= ls.len(),
            views(candidates@) == candidates_of(ls, rv.take(i as int)),
        decreases regions.len() - i,
    {
        let (s, e) = regions[i];
        assert(rv[i as int] == (s as nat, e as nat));
        assert(rv.len() == script_regions_spec(ls).len());
        assert(script_regions_spec(ls)[i as int].content_start <= script_regions_spec(ls)[i as int].content_end);
        assert(script_regions_spec(ls)[i as int].content_end <= ls.len());
        let region = crate::header::line_range(&lines, s, e);
        let decls = extract_js_declarations(&region);
        let ghost jd = js_decls_spec(views(region@));
        let ghost names = jd.map_values(|d: JsDeclV| d.name);
        let ghost c0 = views(candidates@);
        assert(triple_views(decls@).len() == jd.len());
        let mut j: usize = 0;
        while j < decls.len()
            invariant
                j <= decls.len(),
                triple_views(decls@) == jd.map_values(|d: JsDeclV| (d.name, d.decl_type, d.start_line)),
                names == jd.map_values(|d: JsDeclV| d.name),
                jd.len() == decls@.len(),
                views(candidates@) == c0 + names.take(j as int),
            decreases decls.len() - j,
        {
            assert(triple_views(decls@)[j as int].0 == decls@[j as int].0@);
            let ghost before = views(candidates@);
            candidates.push(chars_of(decls[j].0.as_str()));
            assert(views(candidates@) =~= before.push(names[j as int]));
            assert(names.take(j + 1) =~= names.take(j as int).push(names[j as int]));
            j = j + 1;
        }
        assert(names.take(j as int) =~= names);
        assert(rv.take(i + 1).drop_last() =~= rv.take(i as int));
        i = i + 1;
    }
    assert(rv.take(rv.len() as int) =~= rv);
    let q = crate::text::lowercase(&chars_of(query));
    let ghost cv = views(candidates@);
    let mut liked: Vec<Vec<char>> = Vec::new();
    let mut k: usize = 0;
    assert(cv.take(0) =~= Seq::<Seq<char>>::empty());
    assert(views(liked@) =~= Seq::<Seq<char>>::empty());
    while k < candidates.len()
        invariant
            k <= candidates.len(),
            cv == views(candidates@),
            views(liked@) == filter_like(cv.take(k as int), q@),
        decreases candidates.len() - k,
    {
        let c = &candidates[k];
        let cl = crate::text::lowercase(c);
        assert(cv.take(k + 1).drop_last() =~= cv.take(k as int));
        if contains(&cl, &q) || contains(&q, &cl) || levenshtein_distance(&cl, &q) <= 5 {
            let ghost before = views(liked@);
            liked.push(crate::text::copy(c));
            assert(views(liked@) =~= before.push(cv[k as int]));
        }
        k = k + 1;
    }
    assert(cv.take(cv.len() as int) =~= cv);
    let ghost lv = views(liked@);
    let top = if liked.len() < 5 {
        liked.len()
    } else {
        5
    };
    let mut out: Vec<String> = Vec::new();
    let mut t: usize = 0;
    assert(lv.take(0) =~= Seq::<Seq<char>>::empty());
    assert(crate::header::string_views(out@) =~= dedup_seq(lv.take(0)));
    while t < top
        invariant
            t <= top <= liked.len(),
            lv == views(liked@),
            crate::header::string_views(out@) == dedup_seq(lv.take(t as int)),
        decreases top - t,
    {
        assert(lv.take(t + 1).drop_last() =~= lv.take(t as int));
        let item = &liked[t];
        let dup = out.len() > 0 && crate::differ::vec_eq(&chars_of(out[out.len() - 1].as_str()), item);
        if !dup {
            let ghost before = crate::header::string_views(out@);
            out.push(to_string(item));
            assert(crate::header::string_views(out@) =~= before.push(lv[t as int]));
        }
        t = t + 1;
    }
    out
}

// ---------------------------------------------------------------------------
// Listing anchors
// ---------------------------------------------------------------------------

/// One declaration of the code, with whether section 5 lists it.
#[derive(Debug, Clone)]
pub struct AnchorListEntry {
    pub name: String,
    /// 1-based
    pub line: usize,
    pub anchor_type: String,
    pub in_header: bool,
}

pub struct EntryV {
    pub name: Seq<char>,
    pub line: nat,
    pub anchor_type: Seq<char>,
    pub in_header: bool,
}

impl View for AnchorListEntry {
    type V = EntryV;

    open spec fn view(&self) -> EntryV {
        EntryV {
            name: self.name@,
            line: self.line as nat,
            anchor_type: self.anchor_type@,
            in_header: self.in_header,
        }
    }
}

/// The names the header's section 5 lists.
pub open spec fn header_anchor_names(content: Seq<char>) -> Seq<Seq<char>> {
    match extract_header_spec(content) {
        Ok(h) => match section_numbered(h.sections, 5) {
            Some(s5) => anchors_of(lines_seq(s5.content)).0.map_values(
                |a: (Seq<char>, Seq<char>)| a.0,
            ),
            None => Seq::empty(),
        },
        Err(_) => Seq::empty(),
    }
}

pub open spec fn entry_of(d: JsDeclV, start: nat, names: Seq<Seq<char>>) -> EntryV {
    EntryV {
        name: d.name,
        line: start + d.start_line + 1,
        anchor_type: decl_type_label(d.decl_type),
        in_header: names.contains(d.name),
    }
}

/// The declarations of the script regions, region by region.
pub open spec fn list_entries(lines: Seq<Seq<char>>, regions: Seq<(nat, nat)>, names: Seq<Seq<char>>) -> Seq<EntryV>
    decreases regions.len(),
{
    if regions.len() == 0 {
        Seq::empty()
    } else {
        let g = regions.last();
        list_entries(lines, regions.drop_last(), names) + js_decls_spec(
            lines.subrange(g.0 as int, g.1 as int),
        ).map_values(|d: JsDeclV| entry_of(d, g.0, names))
    }
}

pub open spec fn list_anchors_spec(content: Seq<char>) -> Seq<EntryV> {
    let lines = lines_seq(content);
    list_entries(
        lines,
        content_ranges(script_regions_spec(lines)),
        header_anchor_names(content),
    )
}

pub open spec fn entries_view(v: Seq<AnchorListEntry>) -> Seq<EntryV> {
    v.map_values(|e: AnchorListEntry| e@)
}

pub fn header_names(content: &str) -> (r: Vec<Vec<char>>)
    requires
        header_spans_lines(lines_seq(content@)),
    ensures
        views(r@) == header_anchor_names(content@),
{
    match extract_header(content) {
        Ok(h) => {
            let ghost hv = h@;
            let mut out: Vec<Vec<char>> = Vec::new();
            let mut i: usize = 0;
            let ghost sv = sections_view(h.sections@);
            assert(sv.skip(0) =~= sv);
            while i < h.sections.len()
                invariant
                    i <= h.sections.len(),
                    out@ == Seq::<Vec<char>>::empty(),
                    sv == sections_view(h.sections@),
                    sv == h@.sections,
                    extract_header_spec(content@) == Ok::<crate::header::HeaderInfoV, crate::header::HeaderError>(h@),
                    section_numbered(sv, 5) == section_numbered(sv.skip(i as int), 5),
                decreases h.sections.len() - i,
            {
                assert(sv.skip(i as int)[0] == sv[i as int]);
                assert(sv.skip(i as int).skip(1) =~= sv.skip(i + 1));
                if h.sections[i].number == 5 {
                    let entries = parse_anchor_list(h.sections[i].content.as_str());
                    let ghost av = anchor_views(entries@);
                    let mut k: usize = 0;
                    while k < entries.len()
                        invariant
                            k <= entries.len(),
                            av == anchor_views(entries@),
                            views(out@) == av.take(k as int).map_values(|a: (Seq<char>, Seq<char>)| a.0),
                        decreases entries.len() - k,
                    {
                        let ghost before = views(out@);
                        out.push(chars_of(entries[k].name.as_str()));
                        assert(views(out@) =~= before.push(av[k as int].0));
                        assert(av.take(k + 1) =~= av.take(k as int).push(av[k as int]));
                        assert(av.take(k + 1).map_values(|a: (Seq<char>, Seq<char>)| a.0) =~= av.take(
                            k as int,
                        ).map_values(|a: (Seq<char>, Seq<char>)| a.0).push(av[k as int].0));
                        k = k + 1;
                    }
                    assert(av.take(k as int) =~= av);
                    assert(section_numbered(sv, 5) == Some(sv[i as int]));
                    assert(sv[i as int].content == h.sections@[i as int].content@);
                    return out;
                }
                i = i + 1;
            }
            assert(sv.skip(i as int) =~= Seq::<crate::header::SectionV>::empty());
            assert(views(out@) =~= Seq::<Seq<char>>::empty());
            out
        },
        Err(_) => {
            let out: Vec<Vec<char>> = Vec::new();
            assert(views(out@) =~= Seq::<Seq<char>>::empty());
            out
        },
    }
}

pub fn contains_name(names: &Vec<Vec<char>>, n: &Vec<char>) -> (r: bool)
    ensures
        r == views(names@).contains(n@),
{
    let mut i: usize = 0;
    while i < names.len()
        invariant
            i <= names.len(),
            forall|k: int| 0 <= k < i ==> views(names@)[k] != n@,
        decreases names.len() - i,
    {
        if crate::differ::vec_eq(&names[i], n) {
            assert(views(names@)[i as int] == n@);
            return true;
        }
        i = i + 1;
    }
    false
}

/// List all declarations of the code, each with whether the header's
/// section 5 lists it.
pub fn list_anchors(content: &str) -> (r: Vec<AnchorListEntry>)
    requires
        header_spans_lines(lines_seq(content@)),
        weight(lines_seq(content@)) < usize::MAX,
    ensures
        entries_view(r@) == list_anchors_spec(content@),
{
    proof {
        crate::header::lemma_regions_in_order(lines_seq(content@));
    }
    let lines = str_lines(content);
    let ghost ls = views(lines@);
    let regions = find_script_regions(&lines);
    let ghost rv = pair_views(regions@);
    let names = header_names(content);
    let ghost nv = views(names@);
    proof {
        crate::header::lemma_regions_within(ls);
    }
    let mut entries: Vec<AnchorListEntry> = Vec::new();
    let mut i: usize = 0;
    assert(rv.take(0) =~= Seq::<(nat, nat)>::empty());
    assert(entries_view(entries@) =~= Seq::<EntryV>::empty());
    while i < regions.len()
        invariant
            i <= regions.len(),
            ls == views(lines@),
            weight(ls) < usize::MAX,
            nv == views(names@),
            nv == header_anchor_names(content@),
            rv == pair_views(regions@),
            rv == content_ranges(script_regions_spec(ls)),
            regions_in_order(ls),
            forall|k: int| 0 <= k < script_regions_spec(ls).len() ==> #[trigger] script_regions_spec(ls)[k].content_end <= ls.len(),
            entries_view(entries@) == list_entries(ls, rv.take(i as int), nv),
        decreases regions.len() - i,
    {
        let (s, e) = regions[i];
        assert(rv[i as int] == (s as nat, e as nat));
        assert(rv.len() == script_regions_spec(ls).len());
        assert(script_regions_spec(ls)[i as int].content_start <= script_regions_spec(ls)[i as int].content_end);
        assert(script_regions_spec(ls)[i as int].content_end <= ls.len());
        let region = crate::header::line_range(&lines, s, e);
        let decls = extract_js_declarations(&region);
        let ghost jd = js_decls_spec(views(region@));
        let ghost add = jd.map_values(|d: JsDeclV| entry_of(d, s as nat, nv));
        let ghost e0 = entries_view(entries@);
        proof {
            lemma_decl_lines_bounded(ls, s as int, e as int);
        }
        assert(triple_views(decls@).len() == jd.len());
        let mut j: usize = 0;
        while j < decls.len()
            invariant
                j <= decls.len(),
                weight(ls) < usize::MAX,
                nv == views(names@),
                triple_views(decls@) == jd.map_values(|d: JsDeclV| (d.name, d.decl_type, d.start_line)),
                jd == js_decls_spec(ls.subrange(s as int, e as int)),
                forall|q: int| 0 <= q < jd.len() ==> s + (#[trigger] jd[q]).start_line <= weight(ls),
                add == jd.map_values(|d: JsDeclV| entry_of(d, s as nat, nv)),
                jd.len() == decls@.len(),
                entries_view(entries@) == e0 + add.take(j as int),
            decreases decls.len() - j,
        {
            let (name, decl_type, rel) = (&decls[j].0, decls[j].1, decls[j].2);
            assert(triple_views(decls@)[j as int] == (name@, decl_type, rel as nat));
            assert(s + jd[j as int].start_line <= weight(ls));
            let n = chars_of(name.as_str());
            let in_header = contains_name(&names, &n);
            let entry = AnchorListEntry {
                name: to_string(&n),
                line: s + rel + 1,
                anchor_type: decl_type.to_string(),
                in_header,
            };
            let ghost before = entries_view(entries@);
            let ghost ev = entry@;
            entries.push(entry);
            assert(entries_view(entries@) =~= before.push(ev));
            assert(add.take(j + 1) =~= add.take(j as int).push(add[j as int]));
            j = j + 1;
        }
        assert(add.take(j as int) =~= add);
        assert(rv.take(i + 1).drop_last() =~= rv.take(i as int));
        i = i + 1;
    }
    assert(rv.take(rv.len() as int) =~= rv);
    entries
}

} // verus!

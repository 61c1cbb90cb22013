//! Applying parsed unified-diff hunks to the lines of a file.
use vstd::prelude::*;

use crate::differ::{DiffHunk, DiffLine, HunkV, LineV, hunks_view};
use crate::header::{header_spans_lines, regions_in_order, string_views};
use crate::syntax_check::{CheckContext, IssueV, check_syntax, issues_view, issues_of};
use crate::text::{
    byte_len, cat, chars_of, dec, decimal, includes, join_seq, lines_seq, push_all, push_str, str_lines,
    to_string, views,
};
use crate::validator::{ValidateV, countable, validate_file, validate_spec};

verus! {

/// Where one hunk was applied.
#[derive(Debug, Clone, Copy)]
pub struct HunkDetail {
    /// 0-based index of the hunk in the diff.
    pub hunk_index: usize,
    /// The old-side start line the hunk header states.
    pub stated_line: usize,
    /// 1-based line at which the hunk's context was found.
    pub matched_line: usize,
    /// Matched position minus expected position.
    pub fuzz_offset: i32,
    /// true if matched via whole-file context search (line number was wrong)
    pub context_search: bool,
}

// ---------------------------------------------------------------------------
// Specification
// ---------------------------------------------------------------------------

/// The old side of hunk body lines: context and removed lines, in order.
pub open spec fn old_side(ls: Seq<LineV>) -> Seq<Seq<char>>
    decreases ls.len(),
{
    if ls.len() == 0 {
        Seq::<Seq<char>>::empty()
    } else {
        let p = old_side(ls.drop_last());
        match ls.last() {
            LineV::Context(s) => p.push(s),
            LineV::Remove(s) => p.push(s),
            LineV::Add(_) => p,
        }
    }
}

/// The new side of hunk body lines: context and added lines, in order.
pub open spec fn new_side(ls: Seq<LineV>) -> Seq<Seq<char>>
    decreases ls.len(),
{
    if ls.len() == 0 {
        Seq::<Seq<char>>::empty()
    } else {
        let p = new_side(ls.drop_last());
        match ls.last() {
            LineV::Context(s) => p.push(s),
            LineV::Remove(_) => p,
            LineV::Add(s) => p.push(s),
        }
    }
}

pub open spec fn count_removed(ls: Seq<LineV>) -> nat
    decreases ls.len(),
{
    if ls.len() == 0 {
        0
    } else {
        count_removed(ls.drop_last()) + if ls.last() is Remove {
            1nat
        } else {
            0nat
        }
    }
}

pub open spec fn count_added(ls: Seq<LineV>) -> nat
    decreases ls.len(),
{
    if ls.len() == 0 {
        0
    } else {
        count_added(ls.drop_last()) + if ls.last() is Add {
            1nat
        } else {
            0nat
        }
    }
}

/// `ctx` occurs in `lines` starting at `pos`.
pub open spec fn context_at(lines: Seq<Seq<char>>, ctx: Seq<Seq<char>>, pos: int) -> bool {
    &&& 0 <= pos
    &&& pos + ctx.len() <= lines.len()
    &&& lines.subrange(pos, pos + ctx.len()) == ctx
}

pub open spec fn dist(a: int, b: int) -> nat {
    if a >= b {
        (a - b) as nat
    } else {
        (b - a) as nat
    }
}

/// The fuzz window, searched outwards from distance `d`: at each distance the
/// position after the expected one is tried before the one before it.
pub open spec fn fuzz_scan(lines: Seq<Seq<char>>, ctx: Seq<Seq<char>>, e: int, fuzz: int, d: int) -> Option<int>
    decreases fuzz - d + 1,
{
    if d > fuzz || d <= 0 {
        None
    } else if e + d < lines.len() && context_at(lines, ctx, e + d) {
        Some(e + d)
    } else if e >= d && context_at(lines, ctx, e - d) {
        Some(e - d)
    } else {
        fuzz_scan(lines, ctx, e, fuzz, d + 1)
    }
}

/// A match outside the fuzz window.
pub open spec fn far_candidate(lines: Seq<Seq<char>>, ctx: Seq<Seq<char>>, e: int, fuzz: int, p: int) -> bool {
    &&& p < lines.len()
    &&& dist(p, e) > fuzz
    &&& context_at(lines, ctx, p)
}

/// The closest far candidate among positions `[0, n)`, the first one on ties.
pub open spec fn far_best(lines: Seq<Seq<char>>, ctx: Seq<Seq<char>>, e: int, fuzz: int, n: int) -> Option<int>
    decreases n,
{
    if n <= 0 {
        None
    } else {
        let b = far_best(lines, ctx, e, fuzz, n - 1);
        let p = n - 1;
        if far_candidate(lines, ctx, e, fuzz, p) && (b is None || dist(p, e) < dist(b->0, e)) {
            Some(p)
        } else {
            b
        }
    }
}

/// Where a hunk's old side is found: at the expected position, else within the
/// fuzz window, else at the closest position in the whole file.
pub open spec fn context_match(lines: Seq<Seq<char>>, ctx: Seq<Seq<char>>, e: int, fuzz: int) -> Option<int> {
    if ctx.len() == 0 {
        Some(if e <= lines.len() { e } else { lines.len() as int })
    } else if context_at(lines, ctx, e) {
        Some(e)
    } else {
        match fuzz_scan(lines, ctx, e, fuzz, 1) {
            Some(p) => Some(p),
            None => far_best(lines, ctx, e, fuzz, lines.len() as int),
        }
    }
}

/// The lines after replacing the hunk's old side at `pos` by its new side.
pub open spec fn splice_hunk(lines: Seq<Seq<char>>, pos: int, ls: Seq<LineV>) -> Seq<Seq<char>> {
    lines.take(pos) + new_side(ls) + lines.skip(pos + old_side(ls).len())
}

/// Where the search for hunk starts: its stated line, shifted by the lines that
/// earlier hunks added or removed, as a 0-based position.
pub open spec fn search_start(stated: usize, offset: int) -> int {
    let s = stated - 1 + offset;
    if s < 0 {
        0
    } else if s > usize::MAX {
        usize::MAX as int
    } else {
        s
    }
}

/// Abstract state while applying hunks one after the other.
pub struct ApplyStateV {
    pub lines: Seq<Seq<char>>,
    pub removed: nat,
    pub added: nat,
    pub details: Seq<HunkDetail>,
}

/// A hunk whose context was not found.
pub struct MismatchV {
    /// 0-based index of the failing hunk.
    pub hunk: int,
    /// The position at which its context was expected.
    pub start: int,
    /// The lines at that moment.
    pub lines: Seq<Seq<char>>,
}

/// The detail recorded for a hunk applied at `pos` when searching from `start`.
pub open spec fn detail_of(k: int, h: HunkV, pos: int, start: int, fuzz: int) -> HunkDetail {
    HunkDetail {
        hunk_index: k as usize,
        stated_line: h.old_start,
        matched_line: (pos + 1) as usize,
        fuzz_offset: (pos - start) as i32,
        context_search: dist(pos, start) > fuzz,
    }
}

/// Applying the hunks in order, each searched relative to the offset that the
/// earlier ones produced.
pub open spec fn apply_spec(lines0: Seq<Seq<char>>, hunks: Seq<HunkV>, fuzz: int) -> Result<ApplyStateV, MismatchV>
    decreases hunks.len(),
{
    if hunks.len() == 0 {
        Ok(ApplyStateV { lines: lines0, removed: 0, added: 0, details: Seq::<HunkDetail>::empty() })
    } else {
        match apply_spec(lines0, hunks.drop_last(), fuzz) {
            Err(m) => Err(m),
            Ok(st) => {
                let k = hunks.len() - 1;
                let h = hunks.last();
                let start = search_start(h.old_start, st.added - st.removed);
                match context_match(st.lines, old_side(h.lines), start, fuzz) {
                    None => Err(MismatchV { hunk: k, start, lines: st.lines }),
                    Some(pos) => Ok(
                        ApplyStateV {
                            lines: splice_hunk(st.lines, pos, h.lines),
                            removed: st.removed + count_removed(h.lines),
                            added: st.added + count_added(h.lines),
                            details: st.details.push(detail_of(k, h, pos, start, fuzz)),
                        },
                    ),
                }
            },
        }
    }
}

/// Total number of body lines in all hunks.
pub open spec fn body_total(hunks: Seq<HunkV>) -> nat
    decreases hunks.len(),
{
    if hunks.len() == 0 {
        0
    } else {
        body_total(hunks.drop_last()) + hunks.last().lines.len()
    }
}

// ---------------------------------------------------------------------------
// Lemmas
// ---------------------------------------------------------------------------

pub proof fn lemma_counts_bounded(ls: Seq<LineV>)
    ensures
        count_removed(ls) + count_added(ls) <= ls.len(),
        old_side(ls).len() <= ls.len(),
        old_side(ls).len() == ls.len() - count_added(ls),
        new_side(ls).len() == ls.len() - count_removed(ls),
    decreases ls.len(),
{
    if ls.len() > 0 {
        lemma_counts_bounded(ls.drop_last());
    }
}

pub proof fn lemma_body_total_prefix(hunks: Seq<HunkV>, k: int)
    requires
        0 <= k <= hunks.len(),
    ensures
        body_total(hunks.take(k)) <= body_total(hunks),
    decreases hunks.len() - k,
{
    if k < hunks.len() {
        assert(hunks.drop_last().take(k) =~= hunks.take(k));
        lemma_body_total_prefix(hunks.drop_last(), k);
    } else {
        assert(hunks.take(k) =~= hunks);
    }
}

/// The applied totals never exceed the body lines of the hunks applied.
pub proof fn lemma_apply_totals(lines0: Seq<Seq<char>>, hunks: Seq<HunkV>, fuzz: int)
    ensures
        apply_spec(lines0, hunks, fuzz) matches Ok(st) ==> st.removed + st.added <= body_total(
            hunks,
        ) && st.details.len() == hunks.len(),
    decreases hunks.len(),
{
    if hunks.len() > 0 {
        lemma_apply_totals(lines0, hunks.drop_last(), fuzz);
        lemma_counts_bounded(hunks.last().lines);
    }
}

/// How many lines the hunks add in all, less those they remove.
pub open spec fn shift(hunks: Seq<HunkV>) -> int
    decreases hunks.len(),
{
    if hunks.len() == 0 {
        0
    } else {
        shift(hunks.drop_last()) + new_side(hunks.last().lines).len() - old_side(hunks.last().lines).len()
    }
}

/// The text `a` with each hunk's old side replaced by its new side where the
/// hunk states it stands, shifted by what the hunks before it added or
/// removed.
pub open spec fn patched(a: Seq<Seq<char>>, hunks: Seq<HunkV>) -> Seq<Seq<char>>
    decreases hunks.len(),
{
    if hunks.len() == 0 {
        a
    } else {
        let h = hunks.last();
        splice_hunk(patched(a, hunks.drop_last()), h.old_start - 1 + shift(hunks.drop_last()), h.lines)
    }
}

/// The end, in `a`, of a hunk's old side.
pub open spec fn old_end(h: HunkV) -> int {
    h.old_start - 1 + old_side(h.lines).len()
}

/// The hunks take `a` to [`patched`]`(a, hunks)`: each one's old side stands
/// in `a` at its stated line, and they come in order without overlapping.
pub open spec fn placed_in(a: Seq<Seq<char>>, hunks: Seq<HunkV>) -> bool {
    &&& forall|k: int| 0 <= k < hunks.len() ==> context_at(a, old_side(#[trigger] hunks[k].lines), hunks[k].old_start - 1)
    &&& forall|j: int, k: int|
        #![trigger hunks[j], hunks[k]]
        0 <= j < k < hunks.len() ==> old_end(hunks[j]) <= hunks[k].old_start - 1
}

/// Where the last of the hunks ends in `a` (0 for none).
pub open spec fn placed_end(hunks: Seq<HunkV>) -> int {
    if hunks.len() == 0 {
        0
    } else {
        old_end(hunks.last())
    }
}

proof fn lemma_placed_apply(a: Seq<Seq<char>>, hunks: Seq<HunkV>, fuzz: int)
    requires
        placed_in(a, hunks),
        a.len() + body_total(hunks) <= usize::MAX,
    ensures
        apply_spec(a, hunks, fuzz) matches Ok(st) && st.lines == patched(a, hunks) && st.added - st.removed
            == shift(hunks),
        patched(a, hunks).len() == a.len() + shift(hunks),
        placed_end(hunks) + shift(hunks) >= 0,
        placed_end(hunks) <= a.len(),
        forall|q: int| placed_end(hunks) <= q < a.len() ==> #[trigger] patched(a, hunks)[q + shift(hunks)] == a[q],
    decreases hunks.len(),
{
    if hunks.len() > 0 {
        let prev = hunks.drop_last();
        let h = hunks.last();
        let n = hunks.len() - 1;
        assert forall|k: int| 0 <= k < prev.len() implies context_at(a, old_side(#[trigger] prev[k].lines), prev[k].old_start - 1) by {
            assert(prev[k] == hunks[k]);
        }
        assert forall|j: int, k: int| #![trigger prev[j], prev[k]] 0 <= j < k < prev.len() implies old_end(prev[j]) <= prev[k].old_start - 1 by {
            assert(prev[j] == hunks[j] && prev[k] == hunks[k]);
        }
        lemma_body_total_prefix(hunks, n);
        assert(hunks.take(n) =~= prev);
        lemma_placed_apply(a, prev, fuzz);
        lemma_apply_totals(a, prev, fuzz);
        lemma_counts_bounded(h.lines);
        let st = apply_spec(a, prev, fuzz)->Ok_0;
        let cur = patched(a, prev);
        let off = shift(prev);
        let p = h.old_start - 1;
        let o = old_side(h.lines);
        let nw = new_side(h.lines);
        assert(context_at(a, old_side(hunks[n].lines), hunks[n].old_start - 1));
        if n > 0 {
            assert(old_end(hunks[n - 1]) <= hunks[n].old_start - 1);
            assert(prev.last() == hunks[n - 1]);
        }
        assert(placed_end(prev) <= p);
        let s = p + off;
        assert(cur.len() == a.len() + off);
        assert(off <= st.added);
        assert(cur.len() <= usize::MAX);
        assert forall|i: int| 0 <= i < o.len() implies cur[s + i] == o[i] by {
            assert(placed_end(prev) <= p + i < a.len());
            assert(cur[(p + i) + off] == a[p + i]);
            assert(a.subrange(p, p + o.len())[i] == a[p + i]);
        }
        assert(cur.subrange(s, s + o.len()) =~= o);
        assert(context_at(cur, o, s));
        assert(search_start(h.old_start, st.added - st.removed) == s);
        assert(context_match(cur, o, s, fuzz) == Some(s));
        let after = splice_hunk(cur, s, h.lines);
        assert(after == patched(a, hunks));
        let off2 = shift(hunks);
        assert(off2 == off + nw.len() - o.len());
        assert(after.len() == cur.len() - o.len() + nw.len());
        assert forall|q: int| placed_end(hunks) <= q < a.len() implies #[trigger] patched(a, hunks)[q + shift(hunks)] == a[q] by {
            assert(q >= p + o.len());
            assert(after[q + off2] == cur.skip(s + o.len())[q + off2 - s - nw.len()]);
            assert(cur[q + off] == a[q]);
        }
    }
}

/// Applying a diff whose hunks take a text to another gives that other text:
/// where each hunk's old side stands in `a` at its stated line, in order and
/// without overlap, every hunk applies where it says (whatever the fuzz) and
/// the lines come out as [`patched`]`(a, hunks)`.
pub proof fn lemma_diff_applies(a: Seq<Seq<char>>, hunks: Seq<HunkV>, fuzz: int)
    requires
        placed_in(a, hunks),
        a.len() + body_total(hunks) <= usize::MAX,
    ensures
        apply_spec(a, hunks, fuzz) matches Ok(st) && st.lines == patched(a, hunks),
{
    lemma_placed_apply(a, hunks, fuzz);
}

/// If the fuzz window has been searched past both ends of the file, nothing
/// more can be found in it.
pub proof fn lemma_fuzz_scan_exhausted(lines: Seq<Seq<char>>, ctx: Seq<Seq<char>>, e: int, fuzz: int, d: int)
    requires
        d >= 1,
        e + d >= lines.len(),
        d > e,
    ensures
        fuzz_scan(lines, ctx, e, fuzz, d) is None,
    decreases fuzz - d + 1,
{
    if d <= fuzz {
        lemma_fuzz_scan_exhausted(lines, ctx, e, fuzz, d + 1);
    }
}

/// The far search returns a far candidate, and no far candidate below `n` is closer.
pub proof fn lemma_far_best(lines: Seq<Seq<char>>, ctx: Seq<Seq<char>>, e: int, fuzz: int, n: int)
    ensures
        far_best(lines, ctx, e, fuzz, n) matches Some(p) ==> 0 <= p < n && far_candidate(
            lines,
            ctx,
            e,
            fuzz,
            p,
        ) && forall|q: int|
            0 <= q < n && far_candidate(lines, ctx, e, fuzz, q) ==> dist(p, e) <= dist(q, e),
        far_best(lines, ctx, e, fuzz, n) is None ==> forall|q: int|
            0 <= q < n ==> !far_candidate(lines, ctx, e, fuzz, q),
    decreases n,
{
    if n > 0 {
        lemma_far_best(lines, ctx, e, fuzz, n - 1);
    }
}

/// Position `p` holds the hunk's old side; the context lines of the spliced
/// result are the file's own lines there.
pub proof fn lemma_old_side_prefix(ls: Seq<LineV>, t: int)
    requires
        0 <= t <= ls.len(),
    ensures
        old_side(ls.take(t)).len() <= old_side(ls).len(),
        old_side(ls).take(old_side(ls.take(t)).len() as int) == old_side(ls.take(t)),
    decreases ls.len() - t,
{
    if t < ls.len() {
        assert(ls.drop_last().take(t) =~= ls.take(t));
        lemma_old_side_prefix(ls.drop_last(), t);
        let a = old_side(ls.drop_last());
        let b = old_side(ls.take(t));
        assert(old_side(ls).take(b.len() as int) =~= a.take(b.len() as int));
    } else {
        assert(ls.take(t) =~= ls);
        assert(old_side(ls).take(old_side(ls).len() as int) =~= old_side(ls));
    }
}

// ---------------------------------------------------------------------------
// Context search
// ---------------------------------------------------------------------------

/// Does `ctx` occur in `lines` at `pos`?
fn matches_at(lines: &Vec<Vec<char>>, ctx: &Vec<Vec<char>>, pos: usize) -> (r: bool)
    ensures
        r == context_at(views(lines@), views(ctx@), pos as int),
{
    if pos > lines.len() || ctx.len() > lines.len() - pos {
        return false;
    }
    let mut i: usize = 0;
    while i < ctx.len()
        invariant
            pos + ctx.len() <= lines.len(),
            i <= ctx.len(),
            forall|j: int| 0 <= j < i ==> views(lines@)[pos + j] == views(ctx@)[j],
        decreases ctx.len() - i,
    {
        if !crate::differ::vec_eq(&lines[pos + i], &ctx[i]) {
            assert(views(lines@).subrange(pos as int, pos + ctx.len())[i as int] != views(
                ctx@,
            )[i as int]);
            return false;
        }
        i = i + 1;
    }
    assert(views(lines@).subrange(pos as int, pos + ctx.len()) =~= views(ctx@));
    true
}

/// Where the hunk context `ctx` matches in `lines`, searching from `expected_pos`.
fn find_context_match(lines: &Vec<Vec<char>>, ctx: &Vec<Vec<char>>, expected_pos: usize, fuzz: usize) -> (r:
    Option<usize>)
    ensures
        r matches Some(p) ==> context_match(views(lines@), views(ctx@), expected_pos as int, fuzz as int)
            == Some(p as int),
        r is None ==> context_match(views(lines@), views(ctx@), expected_pos as int, fuzz as int) is None,
{
    let ghost ls = views(lines@);
    let ghost cs = views(ctx@);
    if ctx.len() == 0 {
        return Some(if expected_pos <= lines.len() {
            expected_pos
        } else {
            lines.len()
        });
    }
    if matches_at(lines, ctx, expected_pos) {
        return Some(expected_pos);
    }
    let n = lines.len();
    let ghost e = expected_pos as int;
    let mut delta: usize = 1;
    loop
        invariant
            1 <= delta,
            delta as int <= fuzz as int + 1,
            n == ls.len(),
            ls == views(lines@),
            cs == views(ctx@),
            cs.len() > 0,
            !context_at(ls, cs, e),
            e == expected_pos as int,
            fuzz_scan(ls, cs, e, fuzz as int, 1) == fuzz_scan(ls, cs, e, fuzz as int, delta as int),
        ensures
            fuzz_scan(ls, cs, e, fuzz as int, 1) is None,
        decreases fuzz as int + 1 - delta,
    {
        if delta > fuzz {
            break;
        }
        if delta > expected_pos && (expected_pos >= n || delta >= n - expected_pos) {
            proof {
                lemma_fuzz_scan_exhausted(ls, cs, e, fuzz as int, delta as int);
            }
            break;
        }
        if expected_pos < n && delta < n - expected_pos && matches_at(lines, ctx, expected_pos + delta) {
            return Some(expected_pos + delta);
        }
        if expected_pos >= delta && matches_at(lines, ctx, expected_pos - delta) {
            return Some(expected_pos - delta);
        }
        if delta == fuzz {
            break;
        }
        delta = delta + 1;
    }
    let mut best: Option<usize> = None;
    let mut best_dist: usize = usize::MAX;
    let mut pos: usize = 0;
    while pos < n
        invariant
            pos <= n,
            n == ls.len(),
            ls == views(lines@),
            cs == views(ctx@),
            best == (match far_best(ls, cs, expected_pos as int, fuzz as int, pos as int) {
                Some(p) => Some(p as usize),
                None => None::<usize>,
            }),
            far_best(ls, cs, expected_pos as int, fuzz as int, pos as int) matches Some(p) ==> 0
                <= p < pos && best_dist == dist(p, expected_pos as int),
        decreases n - pos,
    {
        let d = if pos >= expected_pos {
            pos - expected_pos
        } else {
            expected_pos - pos
        };
        proof {
            lemma_far_best(ls, cs, expected_pos as int, fuzz as int, pos as int);
        }
        if d > fuzz && matches_at(lines, ctx, pos) {
            if best.is_none() || d < best_dist {
                best = Some(pos);
                best_dist = d;
            }
        }
        pos = pos + 1;
    }
    best
}

// ---------------------------------------------------------------------------
// Applying
// ---------------------------------------------------------------------------

fn line_text(l: &DiffLine) -> (r: Vec<char>)
    ensures
        r@ == match l@ {
            LineV::Context(s) => s,
            LineV::Remove(s) => s,
            LineV::Add(s) => s,
        },
{
    match l {
        DiffLine::Context(s) => crate::text::chars_of(s.as_str()),
        DiffLine::Remove(s) => crate::text::chars_of(s.as_str()),
        DiffLine::Add(s) => crate::text::chars_of(s.as_str()),
    }
}

/// The hunk's old side as lines.
fn old_side_of(h: &DiffHunk) -> (r: Vec<Vec<char>>)
    ensures
        views(r@) == old_side(h@.lines),
{
    let mut r: Vec<Vec<char>> = Vec::new();
    let mut t: usize = 0;
    while t < h.lines.len()
        invariant
            t <= h.lines.len(),
            views(r@) == old_side(h@.lines.take(t as int)),
        decreases h.lines.len() - t,
    {
        let ghost ls = h@.lines;
        assert(ls.take(t + 1).drop_last() =~= ls.take(t as int));
        assert(ls.take(t + 1).last() == h.lines@[t as int]@);
        let ghost old_r = r@;
        match &h.lines[t] {
            DiffLine::Add(_) => {},
            _ => {
                let x = line_text(&h.lines[t]);
                let ghost xv = x@;
                r.push(x);
                assert(views(r@) =~= views(old_r).push(xv));
            },
        }
        t = t + 1;
    }
    assert(h@.lines.take(h@.lines.len() as int) =~= h@.lines);
    r
}

/// Counts of removed and added lines of a hunk.
fn counts_of(h: &DiffHunk) -> (r: (usize, usize))
    requires
        h.lines.len() <= usize::MAX,
    ensures
        r.0 == count_removed(h@.lines),
        r.1 == count_added(h@.lines),
{
    let mut rem: usize = 0;
    let mut add: usize = 0;
    let mut t: usize = 0;
    while t < h.lines.len()
        invariant
            t <= h.lines.len(),
            rem == count_removed(h@.lines.take(t as int)),
            add == count_added(h@.lines.take(t as int)),
            rem + add <= t,
        decreases h.lines.len() - t,
    {
        let ghost ls = h@.lines;
        assert(ls.take(t + 1).drop_last() =~= ls.take(t as int));
        assert(ls.take(t + 1).last() == h.lines@[t as int]@);
        match &h.lines[t] {
            DiffLine::Remove(_) => {
                rem = rem + 1;
            },
            DiffLine::Add(_) => {
                add = add + 1;
            },
            _ => {},
        }
        t = t + 1;
    }
    assert(h@.lines.take(h@.lines.len() as int) =~= h@.lines);
    (rem, add)
}

/// Replace the hunk's old side at `pos` by its new side.
fn splice(lines: &Vec<Vec<char>>, pos: usize, h: &DiffHunk) -> (r: Vec<Vec<char>>)
    requires
        context_at(views(lines@), old_side(h@.lines), pos as int),
    ensures
        views(r@) == splice_hunk(views(lines@), pos as int, h@.lines),
{
    let ghost ls = views(lines@);
    let ghost hl = h@.lines;
    let n = lines.len();
    let mut result: Vec<Vec<char>> = Vec::new();
    let mut i: usize = 0;
    while i < pos
        invariant
            i <= pos,
            pos <= lines.len(),
            ls == views(lines@),
            views(result@) == ls.take(i as int),
        decreases pos - i,
    {
        let ghost old_r = result@;
        result.push(crate::text::copy(&lines[i]));
        assert(views(result@) =~= views(old_r).push(ls[i as int]));
        assert(ls.take(i + 1) =~= ls.take(i as int).push(ls[i as int]));
        i = i + 1;
    }
    let mut src: usize = pos;
    let mut t: usize = 0;
    while t < h.lines.len()
        invariant
            t <= h.lines.len(),
            hl == h@.lines,
            ls == views(lines@),
            n == ls.len(),
            context_at(ls, old_side(hl), pos as int),
            src == pos + old_side(hl.take(t as int)).len(),
            views(result@) == ls.take(pos as int) + new_side(hl.take(t as int)),
        decreases h.lines.len() - t,
    {
        assert(hl.take(t + 1).drop_last() =~= hl.take(t as int));
        assert(hl.take(t + 1).last() == h.lines@[t as int]@);
        proof {
            lemma_old_side_prefix(hl, t + 1);
            lemma_old_side_prefix(hl, t as int);
        }
        let ghost old_r = result@;
        match &h.lines[t] {
            DiffLine::Context(_) => {
                proof {
                    let k = old_side(hl.take(t as int)).len() as int;
                    assert(old_side(hl.take(t + 1)) == old_side(hl.take(t as int)).push(
                        h.lines@[t as int]@->Context_0,
                    ));
                    assert(old_side(hl)[k] == old_side(hl).take(k + 1)[k]);
                    assert(ls.subrange(pos as int, pos + old_side(hl).len())[k] == ls[pos + k]);
                }
                let x = crate::text::copy(&lines[src]);
                let ghost xv = x@;
                result.push(x);
                src = src + 1;
                assert(views(result@) =~= views(old_r).push(xv));
            },
            DiffLine::Remove(_) => {
                src = src + 1;
            },
            DiffLine::Add(s) => {
                let x = crate::text::chars_of(s.as_str());
                let ghost xv = x@;
                result.push(x);
                assert(views(result@) =~= views(old_r).push(xv));
            },
        }
        t = t + 1;
    }
    assert(hl.take(hl.len() as int) =~= hl);
    let mut j: usize = src;
    while j < lines.len()
        invariant
            src <= j <= lines.len(),
            ls == views(lines@),
            src == pos + old_side(hl).len(),
            views(result@) == ls.take(pos as int) + new_side(hl) + ls.subrange(src as int, j as int),
        decreases lines.len() - j,
    {
        let ghost old_r = result@;
        result.push(crate::text::copy(&lines[j]));
        assert(views(result@) =~= views(old_r).push(ls[j as int]));
        j = j + 1;
        assert(views(result@) =~= ls.take(pos as int) + new_side(hl) + ls.subrange(
            src as int,
            j as int,
        ));
    }
    assert(ls.subrange(src as int, ls.len() as int) =~= ls.skip(src as int));
    result
}

/// Why hunks could not be applied.
#[derive(Debug, Clone)]
pub enum ApplyError {
    /// A hunk whose context is nowhere in the file.
    ContextMismatch {
        /// 1-based hunk number.
        hunk_index: usize,
        /// The start line its header states.
        stated_line: usize,
        /// The hunk's context and removed lines.
        expected: Vec<String>,
        /// The file's lines where the context was expected.
        actual: Vec<String>,
    },
}

/// The result of applying all hunks to the lines of a file.
pub struct AppliedHunks {
    pub lines: Vec<Vec<char>>,
    pub lines_removed: usize,
    pub lines_added: usize,
    pub hunk_details: Vec<HunkDetail>,
}

fn strings_of(v: &Vec<Vec<char>>, a: usize, b: usize) -> (r: Vec<String>)
    requires
        a <= b <= v.len(),
    ensures
        r@.len() == b - a,
        forall|i: int| 0 <= i < b - a ==> #[trigger] r@[i]@ == v@[a + i]@,
{
    let mut r: Vec<String> = Vec::new();
    let mut i = a;
    while i < b
        invariant
            a <= i <= b <= v.len(),
            r@.len() == i - a,
            forall|k: int| 0 <= k < i - a ==> #[trigger] r@[k]@ == v@[a + k]@,
        decreases b - i,
    {
        r.push(to_string(&v[i]));
        i = i + 1;
    }
    r
}

/// Apply hunks one after the other to `lines`. Each hunk is searched from its
/// stated line shifted by what earlier hunks added and removed; its context is
/// taken at that position, else within `fuzz` lines, else at the closest place
/// in the whole file. Fails on the first hunk whose context is nowhere.
pub fn apply_hunks(lines: Vec<Vec<char>>, hunks: &Vec<DiffHunk>, fuzz: usize) -> (r: Result<
    AppliedHunks,
    ApplyError,
>)
    requires
        lines@.len() + body_total(hunks_view(hunks@)) < usize::MAX,
    ensures
        r matches Ok(a) ==> apply_spec(views(lines@), hunks_view(hunks@), fuzz as int) == Ok::<
            ApplyStateV,
            MismatchV,
        >(
            ApplyStateV {
                lines: views(a.lines@),
                removed: a.lines_removed as nat,
                added: a.lines_added as nat,
                details: a.hunk_details@,
            },
        ),
        r matches Err(ApplyError::ContextMismatch { hunk_index, stated_line, expected, actual }) ==> {
            &&& apply_spec(views(lines@), hunks_view(hunks@), fuzz as int) matches Err(m)
            &&& hunk_index == m.hunk + 1
            &&& 0 <= m.hunk < hunks@.len()
            &&& stated_line == hunks@[m.hunk].old_start
            &&& expected@.map_values(|s: String| s@) == old_side(hunks@[m.hunk]@.lines)
            &&& actual@.map_values(|s: String| s@) == m.lines.subrange(
                actual_from(m.start, m.lines.len() as int),
                actual_to(m.start, m.lines.len() as int, old_side(hunks@[m.hunk]@.lines).len() as int),
            )
        },
{
    let ghost hs = hunks_view(hunks@);
    let mut cur = lines;
    let mut removed: usize = 0;
    let mut added: usize = 0;
    let mut details: Vec<HunkDetail> = Vec::new();
    let mut k: usize = 0;
    proof {
        assert(hs.take(0) =~= Seq::<HunkV>::empty());
    }
    while k < hunks.len()
        invariant
            k <= hunks.len(),
            hs == hunks_view(hunks@),
            lines@.len() + body_total(hs) < usize::MAX,
            cur@.len() + removed == lines@.len() + added,
            apply_spec(views(lines@), hs.take(k as int), fuzz as int) == Ok::<ApplyStateV, MismatchV>(
                ApplyStateV {
                    lines: views(cur@),
                    removed: removed as nat,
                    added: added as nat,
                    details: details@,
                },
            ),
        decreases hunks.len() - k,
    {
        let h = &hunks[k];
        let ghost pre = hs.take(k as int);
        proof {
            assert(hs.take(k + 1).drop_last() =~= pre);
            assert(hs.take(k + 1).last() == h@);
            lemma_apply_totals(views(lines@), pre, fuzz as int);
            lemma_body_total_prefix(hs, k + 1);
            assert(body_total(hs.take(k + 1)) == body_total(pre) + h@.lines.len());
            lemma_counts_bounded(h@.lines);
        }
        let start_i: i128 = (h.old_start as i128) - 1 + (added as i128) - (removed as i128);
        let start: usize = if start_i < 0 {
            0
        } else if start_i > usize::MAX as i128 {
            usize::MAX
        } else {
            start_i as usize
        };
        assert(start == search_start(h@.old_start, added - removed));
        let ctx = old_side_of(h);
        match apply_one(&cur, &ctx, h, k, start, fuzz) {
            Some((next, detail)) => {
                let (rem, add) = counts_of(h);
                cur = next;
                removed = removed + rem;
                added = added + add;
                details.push(detail);
                k = k + 1;
            },
            None => {
                let n = cur.len();
                let a = if start < n {
                    start
                } else if n > 0 {
                    n - 1
                } else {
                    0
                };
                let b = if ctx.len() <= n - a {
                    a + ctx.len()
                } else {
                    n
                };
                assert(a == actual_from(start as int, n as int));
                assert(b == actual_to(start as int, n as int, ctx@.len() as int));
                let expected = strings_of(&ctx, 0, ctx.len());
                let actual = strings_of(&cur, a, b);
                proof {
                    lemma_apply_err(views(lines@), hs, fuzz as int, k + 1);
                    assert(expected@.map_values(|s: String| s@) =~= views(ctx@));
                    assert(actual@.map_values(|s: String| s@) =~= views(cur@).subrange(
                        a as int,
                        b as int,
                    ));
                }
                return Err(
                    ApplyError::ContextMismatch {
                        hunk_index: k + 1,
                        stated_line: h.old_start,
                        expected,
                        actual,
                    },
                );
            },
        }
    }
    assert(hs.take(hs.len() as int) =~= hs);
    Ok(AppliedHunks { lines: cur, lines_removed: removed, lines_added: added, hunk_details: details })
}

/// Apply one hunk whose old side is `ctx`, searching from `start`.
fn apply_one(cur: &Vec<Vec<char>>, ctx: &Vec<Vec<char>>, h: &DiffHunk, k: usize, start: usize, fuzz: usize) -> (r:
    Option<(Vec<Vec<char>>, HunkDetail)>)
    requires
        views(ctx@) == old_side(h@.lines),
        cur@.len() < usize::MAX,
        k < usize::MAX,
    ensures
        r is None <==> context_match(views(cur@), old_side(h@.lines), start as int, fuzz as int) is None,
        r matches Some(x) ==> {
            &&& context_match(views(cur@), old_side(h@.lines), start as int, fuzz as int) matches Some(pos)
            &&& views(x.0@) == splice_hunk(views(cur@), pos, h@.lines)
            &&& x.1 == detail_of(k as int, h@, pos, start as int, fuzz as int)
            &&& x.0@.len() + count_removed(h@.lines) == cur@.len() + count_added(h@.lines)
        },
{
    match find_context_match(cur, ctx, start, fuzz) {
        None => None,
        Some(pos) => {
            proof {
                let ls = views(cur@);
                let cs = views(ctx@);
                let e = start as int;
                if cs.len() > 0 {
                    if !context_at(ls, cs, e) {
                        lemma_fuzz_scan_found(ls, cs, e, fuzz as int, 1);
                        lemma_far_best(ls, cs, e, fuzz as int, ls.len() as int);
                    }
                    assert(context_at(ls, cs, pos as int));
                } else {
                    assert(ls.subrange(pos as int, pos as int) =~= cs);
                }
                lemma_counts_bounded(h@.lines);
            }
            let fo: i128 = (pos as i128) - (start as i128);
            let fuzz_offset: i32 = #[verifier::truncate] (fo as i32);
            let d: usize = if pos >= start {
                pos - start
            } else {
                start - pos
            };
            let detail = HunkDetail {
                hunk_index: k,
                stated_line: h.old_start,
                matched_line: pos + 1,
                fuzz_offset,
                context_search: d > fuzz,
            };
            let next = splice(cur, pos, h);
            proof {
                let ls = views(cur@);
                assert(views(next@).len() == next@.len());
                assert(ls.len() == cur@.len());
                assert(pos + old_side(h@.lines).len() <= ls.len());
                assert(next@.len() + count_removed(h@.lines) == cur@.len() + count_added(h@.lines));
            }
            Some((next, detail))
        },
    }
}

/// First line shown as "actual" in a mismatch report.
pub open spec fn actual_from(start: int, n: int) -> int {
    if start < n {
        start
    } else if n > 0 {
        n - 1
    } else {
        0
    }
}

/// End (exclusive) of the lines shown as "actual" in a mismatch report.
pub open spec fn actual_to(start: int, n: int, c: int) -> int {
    let a = actual_from(start, n);
    if a + c <= n {
        a + c
    } else {
        n
    }
}

pub proof fn lemma_fuzz_scan_found(lines: Seq<Seq<char>>, ctx: Seq<Seq<char>>, e: int, fuzz: int, d: int)
    ensures
        fuzz_scan(lines, ctx, e, fuzz, d) matches Some(p) ==> context_at(lines, ctx, p),
    decreases fuzz - d + 1,
{
    if d <= fuzz && d > 0 {
        lemma_fuzz_scan_found(lines, ctx, e, fuzz, d + 1);
    }
}

pub proof fn lemma_apply_err(lines0: Seq<Seq<char>>, hunks: Seq<HunkV>, fuzz: int, k: int)
    requires
        0 <= k <= hunks.len(),
        apply_spec(lines0, hunks.take(k), fuzz) is Err,
    ensures
        apply_spec(lines0, hunks, fuzz) == apply_spec(lines0, hunks.take(k), fuzz),
    decreases hunks.len() - k,
{
    if k < hunks.len() {
        assert(hunks.drop_last().take(k) =~= hunks.take(k));
        lemma_apply_err(lines0, hunks.drop_last(), fuzz, k);
    } else {
        assert(hunks.take(k) =~= hunks);
    }
}

// ---------------------------------------------------------------------------
// Laws
// ---------------------------------------------------------------------------

/// The hunk body with added and removed lines exchanged (the hunk read backwards).
pub open spec fn reversed_lines(ls: Seq<LineV>) -> Seq<LineV> {
    ls.map_values(
        |l: LineV|
            match l {
                LineV::Context(s) => LineV::Context(s),
                LineV::Remove(s) => LineV::Add(s),
                LineV::Add(s) => LineV::Remove(s),
            },
    )
}

proof fn lemma_reversed_sides(ls: Seq<LineV>)
    ensures
        old_side(reversed_lines(ls)) == new_side(ls),
        new_side(reversed_lines(ls)) == old_side(ls),
    decreases ls.len(),
{
    if ls.len() > 0 {
        assert(reversed_lines(ls).drop_last() =~= reversed_lines(ls.drop_last()));
        lemma_reversed_sides(ls.drop_last());
    }
}

/// When a hunk's old side is at `pos`, its new side is at `pos` after the hunk is
/// applied there, and applying the reversed hunk at `pos` gives back the lines
/// exactly: a hunk is undone by its reverse.
pub proof fn reverse_hunk_undoes(lines: Seq<Seq<char>>, ls: Seq<LineV>, pos: int)
    requires
        context_at(lines, old_side(ls), pos),
    ensures
        context_at(splice_hunk(lines, pos, ls), new_side(ls), pos),
        splice_hunk(splice_hunk(lines, pos, ls), pos, reversed_lines(ls)) == lines,
{
    lemma_reversed_sides(ls);
    let o = old_side(ls);
    let n = new_side(ls);
    let after = splice_hunk(lines, pos, ls);
    assert(after.subrange(pos, pos + n.len()) =~= n);
    assert(after.take(pos) =~= lines.take(pos));
    assert(after.skip(pos + n.len()) =~= lines.skip(pos + o.len()));
    assert(lines.subrange(pos, pos + o.len()) == o);
    assert(lines.take(pos) + o + lines.skip(pos + o.len()) =~= lines);
}

/// Applying a hunk at a position where its old side stands changes the line
/// count by exactly its added minus its removed lines, and leaves the lines
/// before `pos` and after the old side untouched.
pub proof fn splice_preserves_outside(lines: Seq<Seq<char>>, ls: Seq<LineV>, pos: int)
    requires
        context_at(lines, old_side(ls), pos),
    ensures
        splice_hunk(lines, pos, ls).len() + count_removed(ls) == lines.len() + count_added(ls),
        splice_hunk(lines, pos, ls).take(pos) == lines.take(pos),
        splice_hunk(lines, pos, ls).skip(pos + new_side(ls).len()) == lines.skip(
            pos + old_side(ls).len(),
        ),
{
    lemma_counts_bounded(ls);
    let after = splice_hunk(lines, pos, ls);
    assert(after.take(pos) =~= lines.take(pos));
    assert(after.skip(pos + new_side(ls).len()) =~= lines.skip(pos + old_side(ls).len()));
}

/// A hunk whose old side stands at the expected position is taken there, with
/// no fuzz; otherwise a match inside the fuzz window is preferred to any match
/// outside it, and outside it the closest match is taken.
pub proof fn context_match_prefers_nearest(lines: Seq<Seq<char>>, ctx: Seq<Seq<char>>, e: int, fuzz: int)
    requires
        ctx.len() > 0,
        e >= 0,
        fuzz >= 0,
    ensures
        context_at(lines, ctx, e) ==> context_match(lines, ctx, e, fuzz) == Some(e),
        context_match(lines, ctx, e, fuzz) matches Some(p) ==> context_at(lines, ctx, p),
        context_match(lines, ctx, e, fuzz) matches Some(p) ==> (dist(p, e) > fuzz ==> forall|q: int|
            0 <= q < lines.len() && context_at(lines, ctx, q) ==> dist(p, e) <= dist(q, e)),
        context_match(lines, ctx, e, fuzz) is None ==> forall|q: int| !context_at(lines, ctx, q),
{
    lemma_fuzz_scan_found(lines, ctx, e, fuzz, 1);
    lemma_far_best(lines, ctx, e, fuzz, lines.len() as int);
    lemma_fuzz_scan_window(lines, ctx, e, fuzz, 1);
    if context_match(lines, ctx, e, fuzz) is None {
        assert forall|q: int| !context_at(lines, ctx, q) by {
            if context_at(lines, ctx, q) {
                assert(q < lines.len());
                if dist(q, e) > fuzz {
                    assert(far_candidate(lines, ctx, e, fuzz, q));
                } else if q != e {
                    lemma_fuzz_scan_covers(lines, ctx, e, fuzz, 1, q);
                }
            }
        }
    }
    if let Some(p) = context_match(lines, ctx, e, fuzz) {
        if dist(p, e) > fuzz {
            assert forall|q: int|
                0 <= q < lines.len() && context_at(lines, ctx, q) implies dist(p, e) <= dist(q, e) by {
                if dist(q, e) > fuzz {
                    assert(far_candidate(lines, ctx, e, fuzz, q));
                } else if q != e {
                    lemma_fuzz_scan_covers(lines, ctx, e, fuzz, 1, q);
                }
            }
        }
    }
}

/// What the fuzz window finds lies within it.
proof fn lemma_fuzz_scan_window(lines: Seq<Seq<char>>, ctx: Seq<Seq<char>>, e: int, fuzz: int, d: int)
    requires
        d >= 1,
    ensures
        fuzz_scan(lines, ctx, e, fuzz, d) matches Some(p) ==> dist(p, e) <= fuzz && d <= dist(p, e),
    decreases fuzz - d + 1,
{
    if d <= fuzz {
        lemma_fuzz_scan_window(lines, ctx, e, fuzz, d + 1);
    }
}

/// A match within the fuzz window (other than at `e`) is found by the fuzz scan.
proof fn lemma_fuzz_scan_covers(lines: Seq<Seq<char>>, ctx: Seq<Seq<char>>, e: int, fuzz: int, d: int, q: int)
    requires
        d >= 1,
        ctx.len() > 0,
        d <= dist(q, e) <= fuzz,
        context_at(lines, ctx, q),
    ensures
        fuzz_scan(lines, ctx, e, fuzz, d) is Some,
    decreases fuzz - d + 1,
{
    if dist(q, e) == d {
        if q > e {
            assert(e + d < lines.len());
        }
    } else {
        if !(e + d < lines.len() && context_at(lines, ctx, e + d)) && !(e >= d && context_at(
            lines,
            ctx,
            e - d,
        )) {
            lemma_fuzz_scan_covers(lines, ctx, e, fuzz, d + 1, q);
        }
    }
}


// ---------------------------------------------------------------------------
// Post-apply validation
// ---------------------------------------------------------------------------

/// How an applied edit came out.
#[derive(Debug, Clone, Copy, PartialEq, Eq)]
pub enum ApplyStatus {
    /// Edit succeeded with no issues
    Success,
    /// Edit succeeded but there are warnings
    SuccessWithWarnings,
}

/// One warning about the edited file.
#[derive(Debug, Clone)]
pub struct ValidationIssue {
    pub severity: String,
    pub line: usize,
    pub message: String,
    pub locate_hint: Option<String>,
}

pub struct VIssueV {
    pub severity: Seq<char>,
    pub line: nat,
    pub message: Seq<char>,
    pub locate_hint: Option<Seq<char>>,
}

impl View for ValidationIssue {
    type V = VIssueV;

    open spec fn view(&self) -> VIssueV {
        VIssueV {
            severity: self.severity@,
            line: self.line as nat,
            message: self.message@,
            locate_hint: crate::header::opt_str(self.locate_hint),
        }
    }
}

pub open spec fn vissues_view(v: Seq<ValidationIssue>) -> Seq<VIssueV> {
    v.map_values(|i: ValidationIssue| i@)
}

/// The checks run on a file after an edit.
#[derive(Debug, Clone)]
pub struct ValidationResult {
    pub status: ApplyStatus,
    pub warnings: Vec<ValidationIssue>,
    /// The syntax check found nothing.
    pub syntax_ok: bool,
    /// The check of the header's anchors against the code found nothing.
    pub anchor_ok: bool,
}

/// The 1-based number of the first line of `content` holding `needle`.
pub open spec fn line_containing(lines: Seq<Seq<char>>, needle: Seq<char>) -> Option<nat>
    decreases lines.len(),
{
    if lines.len() == 0 {
        None
    } else if includes(lines[0], needle) {
        Some(1)
    } else {
        match line_containing(lines.skip(1), needle) {
            Some(k) => Some(k + 1),
            None => None,
        }
    }
}

/// Find the first line number (1-based) containing the given text.
fn find_line_containing(content: &str, needle: &Vec<char>) -> (r: Option<usize>)
    ensures
        r is None <==> line_containing(lines_seq(content@), needle@) is None,
        r matches Some(k) ==> line_containing(lines_seq(content@), needle@) == Some(k as nat),
{
    let lines = str_lines(content);
    let ghost ls = views(lines@);
    let mut i: usize = 0;
    assert(ls.skip(0) =~= ls);
    while i < lines.len()
        invariant
            i <= lines.len(),
            ls == views(lines@),
            ls == lines_seq(content@),
            line_containing(ls, needle@) == (match line_containing(ls.skip(i as int), needle@) {
                Some(k) => Some((k + i) as nat),
                None => None::<nat>,
            }),
        decreases lines.len() - i,
    {
        assert(ls.skip(i as int)[0] == ls[i as int]);
        assert(ls.skip(i as int).skip(1) =~= ls.skip(i + 1));
        if crate::text::contains(&lines[i], needle) {
            return Some(i + 1);
        }
        i = i + 1;
    }
    assert(ls.skip(i as int) =~= Seq::<Seq<char>>::empty());
    None
}

pub open spec fn warning(line: nat, message: Seq<char>, hint: Option<Seq<char>>) -> VIssueV {
    VIssueV { severity: "warning"@, line, message, locate_hint: hint }
}

/// The warnings of the syntax check: every syntax issue of the file.
pub open spec fn syntax_warnings(content: Seq<char>) -> Seq<VIssueV> {
    issues_of(content, CheckContext::Html).map_values(|i: IssueV| warning(i.line, i.message, i.context_snippet))
}

/// The warnings of the validation against the header.
pub open spec fn anchor_warnings(content: Seq<char>) -> Seq<VIssueV> {
    let v: ValidateV = validate_spec(content, false);
    let a = v.anchor_consistency;
    let lines = lines_seq(content);
    a.missing_from_code.map_values(
        |n: Seq<char>|
            warning(
                match line_containing(lines, n) {
                    Some(k) => k,
                    None => 0,
                },
                "Header anchor \""@ + n
                    + "\" not found in code \u{2014} run `sfhtml header-rebuild` to fix"@,
                Some(n),
            ),
    ) + a.missing_from_header.map_values(
        |m: (Seq<char>, nat)|
            warning(
                m.1,
                "Code block \""@ + m.0
                    + "\" not listed in header \u{2014} run `sfhtml header-rebuild` to update"@,
                Some(m.0),
            ),
    ) + a.api_issues.map_values(|t: Seq<char>| warning(0, t, None)) + v.syntax_validation.id_issues.map_values(
        |t: Seq<char>| warning(0, t, None),
    )
}

/// The warnings after an edit: every syntax issue of the file, then what the
/// validation against the header finds.
pub open spec fn post_apply_warnings(content: Seq<char>) -> Seq<VIssueV> {
    syntax_warnings(content) + anchor_warnings(content)
}

/// Whether the post-apply checks can run on a text: its header markers on
/// different lines, its script regions in order, its size far from the
/// limits of `usize`.
pub open spec fn checkable(content: Seq<char>) -> bool {
    header_spans_lines(lines_seq(content)) && regions_in_order(lines_seq(content)) && countable(
        content,
    )
}

fn push_vissue(v: &mut Vec<ValidationIssue>, line: usize, message: Vec<char>, hint: Option<Vec<char>>)
    ensures
        vissues_view(final(v)@) == vissues_view(old(v)@).push(
            warning(line as nat, message@, crate::html_structure::opt_chars(hint)),
        ),
{
    let ghost before = vissues_view(v@);
    let ghost hv = crate::html_structure::opt_chars(hint);
    let h = match hint {
        Some(x) => Some(to_string(&x)),
        None => None,
    };
    let i = ValidationIssue { severity: String::from_str("warning"), line, message: to_string(&message), locate_hint: h };
    let ghost iv = i@;
    v.push(i);
    assert(iv == warning(line as nat, message@, hv));
    assert(vissues_view(v@) =~= before.push(iv));
}

/// Push a warning for each message, at line 0 and without a hint.
fn push_plain(v: &mut Vec<ValidationIssue>, msgs: &Vec<String>)
    ensures
        vissues_view(final(v)@) == vissues_view(old(v)@) + string_views(msgs@).map_values(
            |t: Seq<char>| warning(0, t, None),
        ),
{
    let ghost o = vissues_view(v@);
    let ghost target = string_views(msgs@).map_values(|t: Seq<char>| warning(0, t, None));
    let mut i: usize = 0;
    assert(o + target.take(0) =~= o);
    while i < msgs.len()
        invariant
            i <= msgs.len(),
            o == vissues_view(old(v)@),
            target == string_views(msgs@).map_values(|t: Seq<char>| warning(0, t, None)),
            vissues_view(v@) == o + target.take(i as int),
        decreases msgs.len() - i,
    {
        push_vissue(v, 0, chars_of(msgs[i].as_str()), None);
        assert(target.take(i + 1) =~= target.take(i as int).push(target[i as int]));
        i = i + 1;
    }
    assert(target.take(msgs@.len() as int) =~= target);
}

/// Run the checks of a file after an edit: all of them are warnings.
pub fn run_post_apply_validation(content: &str) -> (r: ValidationResult)
    requires
        checkable(content@),
    ensures
        vissues_view(r.warnings@) == post_apply_warnings(content@),
        r.syntax_ok == (syntax_warnings(content@).len() == 0),
        r.anchor_ok == (anchor_warnings(content@).len() == 0),
        r.status == (if post_apply_warnings(content@).len() == 0 {
            ApplyStatus::Success
        } else {
            ApplyStatus::SuccessWithWarnings
        }),
{
    let mut warnings: Vec<ValidationIssue> = Vec::new();
    let check = check_syntax(content, CheckContext::Html);
    let ghost iv = issues_view(check.issues@);
    let ghost t1 = iv.map_values(|i: IssueV| warning(i.line, i.message, i.context_snippet));
    let mut i: usize = 0;
    assert(vissues_view(warnings@) =~= t1.take(0));
    while i < check.issues.len()
        invariant
            i <= check.issues.len(),
            iv == issues_view(check.issues@),
            t1 == iv.map_values(|i: IssueV| warning(i.line, i.message, i.context_snippet)),
            vissues_view(warnings@) == t1.take(i as int),
        decreases check.issues.len() - i,
    {
        let issue = &check.issues[i];
        assert(iv[i as int] == issue@);
        let hint = match &issue.context_snippet {
            Some(s) => Some(chars_of(s.as_str())),
            None => None,
        };
        push_vissue(&mut warnings, issue.line, chars_of(issue.message.as_str()), hint);
        assert(t1.take(i + 1) =~= t1.take(i as int).push(t1[i as int]));
        i = i + 1;
    }
    assert(t1.take(iv.len() as int) =~= t1);
    let syntax_count = warnings.len();
    let syntax_ok = syntax_count == 0;
    let v = validate_file(content, false);
    if let Ok(vr) = v {
        let a = &vr.anchor_consistency;
        let ghost av = a@;
        let ghost o2 = vissues_view(warnings@);
        let ghost t2 = av.missing_from_code.map_values(
            |n: Seq<char>|
                warning(
                    match line_containing(lines_seq(content@), n) {
                        Some(k) => k,
                        None => 0,
                    },
                    "Header anchor \""@ + n
                        + "\" not found in code \u{2014} run `sfhtml header-rebuild` to fix"@,
                    Some(n),
                ),
        );
        let mut k: usize = 0;
        assert(o2 + t2.take(0) =~= o2);
        while k < a.missing_from_code.len()
            invariant
                k <= a.missing_from_code.len(),
                av == a@,
                t2 == av.missing_from_code.map_values(
                    |n: Seq<char>|
                        warning(
                            match line_containing(lines_seq(content@), n) {
                                Some(k) => k,
                                None => 0,
                            },
                            "Header anchor \""@ + n
                                + "\" not found in code \u{2014} run `sfhtml header-rebuild` to fix"@,
                            Some(n),
                        ),
                ),
                vissues_view(warnings@) == o2 + t2.take(k as int),
            decreases a.missing_from_code.len() - k,
        {
            let name = chars_of(a.missing_from_code[k].as_str());
            assert(av.missing_from_code[k as int] == name@);
            let line = match find_line_containing(content, &name) {
                Some(l) => l,
                None => 0,
            };
            let mut m = chars_of("Header anchor \"");
            push_all(&mut m, &name);
            push_str(&mut m, "\" not found in code \u{2014} run `sfhtml header-rebuild` to fix");
            push_vissue(&mut warnings, line, m, Some(crate::text::copy(&name)));
            assert(t2.take(k + 1) =~= t2.take(k as int).push(t2[k as int]));
            k = k + 1;
        }
        assert(t2.take(av.missing_from_code.len() as int) =~= t2);
        let ghost o3 = vissues_view(warnings@);
        let ghost t3 = av.missing_from_header.map_values(
            |m: (Seq<char>, nat)|
                warning(
                    m.1,
                    "Code block \""@ + m.0
                        + "\" not listed in header \u{2014} run `sfhtml header-rebuild` to update"@,
                    Some(m.0),
                ),
        );
        let mut j: usize = 0;
        assert(o3 + t3.take(0) =~= o3);
        while j < a.missing_from_header.len()
            invariant
                j <= a.missing_from_header.len(),
                av == a@,
                t3 == av.missing_from_header.map_values(
                    |m: (Seq<char>, nat)|
                        warning(
                            m.1,
                            "Code block \""@ + m.0
                                + "\" not listed in header \u{2014} run `sfhtml header-rebuild` to update"@,
                            Some(m.0),
                        ),
                ),
                vissues_view(warnings@) == o3 + t3.take(j as int),
            decreases a.missing_from_header.len() - j,
        {
            let ma = &a.missing_from_header[j];
            let name = chars_of(ma.name.as_str());
            assert(av.missing_from_header[j as int] == (name@, ma.line as nat));
            let mut m = chars_of("Code block \"");
            push_all(&mut m, &name);
            push_str(&mut m, "\" not listed in header \u{2014} run `sfhtml header-rebuild` to update");
            push_vissue(&mut warnings, ma.line, m, Some(crate::text::copy(&name)));
            assert(t3.take(j + 1) =~= t3.take(j as int).push(t3[j as int]));
            j = j + 1;
        }
        assert(t3.take(av.missing_from_header.len() as int) =~= t3);
        push_plain(&mut warnings, &a.api_issues);
        push_plain(&mut warnings, &vr.syntax_validation.id_issues);
    }
    let status = if warnings.len() == 0 {
        ApplyStatus::Success
    } else {
        ApplyStatus::SuccessWithWarnings
    };
    let anchor_ok = warnings.len() == syntax_count;
    assert(vissues_view(warnings@) =~= syntax_warnings(content@) + anchor_warnings(content@));
    assert(vissues_view(warnings@).len() == warnings@.len());
    ValidationResult { status, warnings, syntax_ok, anchor_ok }
}


// ---------------------------------------------------------------------------
// Applying a diff to a text
// ---------------------------------------------------------------------------

pub open spec fn open_len(cur: Option<HunkV>) -> nat {
    match cur {
        Some(h) => h.lines.len(),
        None => 0,
    }
}

proof fn lemma_run_body(lines: Seq<Seq<char>>)
    ensures
        crate::differ::run_spec(lines) matches Ok(st) ==> body_total(st.done) + open_len(st.cur)
            <= lines.len(),
    decreases lines.len(),
{
    if lines.len() > 0 {
        lemma_run_body(lines.drop_last());
        if let Ok(st) = crate::differ::run_spec(lines.drop_last()) {
            if let Some(h) = st.cur {
                assert(st.done.push(h).drop_last() =~= st.done);
            }
        }
    }
}

/// A diff has no more body lines than lines.
pub proof fn lemma_parse_body_bound(text: Seq<char>)
    ensures
        crate::differ::parse_diff_spec(text) matches Ok(hs) ==> body_total(hs) <= lines_seq(text).len(),
{
    lemma_run_body(lines_seq(text));
    if let Ok(st) = crate::differ::run_spec(lines_seq(text)) {
        if let Some(h) = st.cur {
            assert(st.done.push(h).drop_last() =~= st.done);
        }
    }
}

/// Why a diff could not be applied to a text.
#[derive(Debug, Clone)]
pub enum ApplyDiffError {
    /// The diff could not be parsed.
    Parse(crate::differ::DiffError),
    /// A hunk's context is nowhere in the text.
    Mismatch(ApplyError),
}

/// The outcome of applying a diff.
#[derive(Debug, Clone)]
pub struct ApplyResult {
    pub hunks_applied: usize,
    pub lines_removed: usize,
    pub lines_added: usize,
    /// bytes of the new content
    pub new_size: usize,
    pub hunk_details: Vec<HunkDetail>,
    pub validation: Option<ValidationResult>,
    pub history_id: Option<String>,
}

/// The text and the diff are far from the limits of `usize`.
pub open spec fn diff_fits(content: Seq<char>, diff_text: Seq<char>) -> bool {
    lines_seq(content).len() + lines_seq(diff_text).len() < usize::MAX
}

/// What applying `diff_text` to `content` with `fuzz` gives: the new text
/// and the totals, or the parse error, or the first hunk that does not fit.
pub open spec fn apply_outcome(
    content: Seq<char>,
    diff_text: Seq<char>,
    fuzz: usize,
    r: Result<(String, ApplyResult), ApplyDiffError>,
) -> bool {
    match r {
        Ok((t, res)) => crate::differ::parse_diff_spec(diff_text) matches Ok(hs) && apply_spec(
            lines_seq(content),
            hs,
            fuzz as int,
        ) matches Ok(st) && t@ == join_seq(st.lines, seq!['\n']) && res.lines_removed == st.removed
            && res.lines_added == st.added && res.hunk_details@ == st.details && res.hunks_applied
            == st.details.len() && res.new_size == byte_len(t@) as usize && res.validation is None
            && res.history_id is None,
        Err(ApplyDiffError::Parse(e)) => crate::differ::parse_diff_spec(diff_text) == Err::<
            Seq<HunkV>,
            crate::differ::DiffErrorV,
        >(e@),
        Err(ApplyDiffError::Mismatch(ApplyError::ContextMismatch { hunk_index, stated_line, expected, actual })) => {
            &&& crate::differ::parse_diff_spec(diff_text) matches Ok(hs)
            &&& apply_spec(lines_seq(content), hs, fuzz as int) matches Err(m)
            &&& hunk_index == m.hunk + 1
            &&& 0 <= m.hunk < hs.len()
            &&& stated_line == hs[m.hunk].old_start
            &&& expected@.map_values(|s: String| s@) == old_side(hs[m.hunk].lines)
            &&& actual@.map_values(|s: String| s@) == m.lines.subrange(
                actual_from(m.start, m.lines.len() as int),
                actual_to(m.start, m.lines.len() as int, old_side(hs[m.hunk].lines).len() as int),
            )
        },
    }
}

/// Apply a unified diff to a text: parse it, apply its hunks one after the
/// other, and give the new text (its lines joined by newlines) with what was
/// done; the post-apply checks and the history are left to the caller.
pub fn apply_diff_content(content: &str, diff_text: &str, fuzz: usize) -> (r: Result<
    (String, ApplyResult),
    ApplyDiffError,
>)
    requires
        diff_fits(content@, diff_text@),
    ensures
        apply_outcome(content@, diff_text@, fuzz, r),
{
    let lines = str_lines(content);
    let hunks = match crate::differ::parse_unified_diff(diff_text) {
        Ok(h) => h,
        Err(e) => {
            return Err(ApplyDiffError::Parse(e));
        },
    };
    proof {
        lemma_parse_body_bound(diff_text@);
    }
    let applied = match apply_hunks(lines, &hunks, fuzz) {
        Ok(a) => a,
        Err(e) => {
            return Err(ApplyDiffError::Mismatch(e));
        },
    };
    proof {
        lemma_apply_totals(lines_seq(content@), hunks_view(hunks@), fuzz as int);
    }
    let mut nl: Vec<char> = Vec::new();
    nl.push('\n');
    assert(nl@ =~= seq!['\n']);
    let new_content = to_string(&crate::text::join(&applied.lines, &nl));
    let new_size = crate::text::str_len(new_content.as_str());
    let res = ApplyResult {
        hunks_applied: applied.hunk_details.len(),
        lines_removed: applied.lines_removed,
        lines_added: applied.lines_added,
        new_size,
        hunk_details: applied.hunk_details,
        validation: None,
        history_id: None,
    };
    Ok((new_content, res))
}

/// What an application does to the file: write the new text, keep a backup
/// of the old one first, record the change in the history.
#[derive(Debug, Clone, Copy)]
pub struct WritePlan {
    pub write_file: bool,
    pub make_backup: bool,
    pub record_history: bool,
}

/// A dry run touches nothing; a real run writes the file, backs it up where
/// asked, and records the change.
pub open spec fn plan_for(dry_run: bool, backup: bool) -> WritePlan {
    WritePlan { write_file: !dry_run, make_backup: !dry_run && backup, record_history: !dry_run }
}

/// The plan for a run: see [`plan_for`].
pub fn write_plan(dry_run: bool, backup: bool) -> (r: WritePlan)
    ensures
        r == plan_for(dry_run, backup),
{
    WritePlan { write_file: !dry_run, make_backup: !dry_run && backup, record_history: !dry_run }
}

/// Apply a diff to a file's text, and say what is to become of the file: the
/// new text and the counts do not depend on whether it is a dry run.
pub fn plan_apply(content: &str, diff_text: &str, fuzz: usize, dry_run: bool, backup: bool) -> (r: Result<
    (String, ApplyResult, WritePlan),
    ApplyDiffError,
>)
    requires
        diff_fits(content@, diff_text@),
    ensures
        match r {
            Ok((t, res, plan)) => apply_outcome(
                content@,
                diff_text@,
                fuzz,
                Ok::<(String, ApplyResult), ApplyDiffError>((t, res)),
            ) && plan == plan_for(dry_run, backup),
            Err(e) => apply_outcome(content@, diff_text@, fuzz, Err::<(String, ApplyResult), ApplyDiffError>(e)),
        },
{
    match apply_diff_content(content, diff_text, fuzz) {
        Ok((t, res)) => Ok((t, res, write_plan(dry_run, backup))),
        Err(e) => Err(e),
    }
}

/// A dry run reports what a real run on the same text would: the same new
/// text and the same counts and details, with no history entry; and it plans
/// no write, no backup and no history entry.
pub proof fn lemma_dry_run_matches(
    content: Seq<char>,
    diff_text: Seq<char>,
    fuzz: usize,
    backup: bool,
    dry: (String, ApplyResult),
    run: (String, ApplyResult),
)
    requires
        apply_outcome(content, diff_text, fuzz, Ok::<(String, ApplyResult), ApplyDiffError>(dry)),
        apply_outcome(content, diff_text, fuzz, Ok::<(String, ApplyResult), ApplyDiffError>(run)),
    ensures
        dry.0@ == run.0@,
        dry.1.hunks_applied == run.1.hunks_applied,
        dry.1.lines_added == run.1.lines_added,
        dry.1.lines_removed == run.1.lines_removed,
        dry.1.new_size == run.1.new_size,
        dry.1.hunk_details@ == run.1.hunk_details@,
        dry.1.history_id is None,
        !plan_for(true, backup).write_file && !plan_for(true, backup).make_backup
            && !plan_for(true, backup).record_history,
{
}

// ---------------------------------------------------------------------------
// The mismatch message
// ---------------------------------------------------------------------------

/// A cell of the mismatch table: the text, or when it is longer than 25
/// bytes what fits in its first 22 (cut at the last character boundary) and
/// `...`.
pub open spec fn cell(s: Seq<char>) -> Seq<char> {
    if byte_len(s) > 25 {
        crate::text::prefix_within(s, 22) + "..."@
    } else {
        s
    }
}

fn cell_exec(s: &Vec<char>) -> (r: Vec<char>)
    ensures
        r@ == cell(s@),
{
    let big = match crate::text::byte_len_exec(s) {
        Some(b) => b > 25,
        None => true,
    };
    if !big {
        return crate::text::copy(s);
    }
    let mut r = crate::text::cut_within(s, 22);
    push_str(&mut r, "...");
    r
}

pub open spec fn nth_or_empty(v: Seq<Seq<char>>, i: int) -> Seq<char> {
    if 0 <= i < v.len() {
        v[i]
    } else {
        Seq::empty()
    }
}

/// Rows `0..n` of the mismatch table.
pub open spec fn table_rows(expected: Seq<Seq<char>>, actual: Seq<Seq<char>>, n: nat) -> Seq<char>
    decreases n,
{
    if n == 0 {
        Seq::empty()
    } else {
        let i = n - 1;
        table_rows(expected, actual, (n - 1) as nat) + "  "@ + crate::text::pad_right(
            cell(nth_or_empty(expected, i)),
            28,
        ) + " "@ + cell(nth_or_empty(actual, i)) + "\n"@
    }
}

/// The message of a hunk whose context was not found, for the file shown as
/// `file`.
pub open spec fn mismatch_message(
    hunk_index: nat,
    stated_line: nat,
    expected: Seq<Seq<char>>,
    actual: Seq<Seq<char>>,
    file: Seq<char>,
) -> Seq<char> {
    let m = if expected.len() >= actual.len() {
        expected.len()
    } else {
        actual.len()
    };
    let n: nat = if m < 5 {
        m
    } else {
        5
    };
    "Error: Hunk "@ + dec(hunk_index) + " context mismatch at line "@ + dec(stated_line) + ".\n\n"@
        + "  Expected (from diff):     Actual (in file):\n"@ + "  ─────────────────────     ─────────────────\n"@ + table_rows(
        expected,
        actual,
        n,
    ) + "\n  The file may have been modified since the diff was generated.\n  Re-read the target region with `sfhtml read "@
        + file + " "@ + dec(if stated_line >= 5 {
        (stated_line - 5) as nat
    } else {
        0
    }) + " "@ + dec(stated_line + 10) + "` and regenerate the diff."@
}

fn nth_string(v: &Vec<String>, i: usize) -> (r: Vec<char>)
    ensures
        r@ == nth_or_empty(string_views(v@), i as int),
{
    if i < v.len() {
        chars_of(v[i].as_str())
    } else {
        Vec::new()
    }
}

fn push_row(m: &mut Vec<char>, e: &Vec<char>, g: &Vec<char>)
    ensures
        final(m)@ == old(m)@ + "  "@ + crate::text::pad_right(cell(e@), 28) + " "@ + cell(g@) + "\n"@,
{
    push_str(m, "  ");
    push_all(m, &crate::text::padded_right(&cell_exec(e), 28));
    push_str(m, " ");
    push_all(m, &cell_exec(g));
    push_str(m, "\n");
}

fn table_rows_exec(expected: &Vec<String>, actual: &Vec<String>, n: usize) -> (r: Vec<char>)
    requires
        n <= 5,
    ensures
        r@ == table_rows(string_views(expected@), string_views(actual@), n as nat),
{
    let ghost ev = string_views(expected@);
    let ghost av = string_views(actual@);
    let mut m: Vec<char> = Vec::new();
    let mut i: usize = 0;
    assert(m@ =~= table_rows(ev, av, 0));
    while i < n
        invariant
            i <= n <= 5,
            ev == string_views(expected@),
            av == string_views(actual@),
            m@ == table_rows(ev, av, i as nat),
        decreases n - i,
    {
        let e = nth_string(expected, i);
        let g = nth_string(actual, i);
        push_row(&mut m, &e, &g);
        i = i + 1;
    }
    m
}

/// The line numbers the message shows stay within `usize`.
pub open spec fn displayable(stated_line: nat, expected: Seq<Seq<char>>, actual: Seq<Seq<char>>) -> bool {
    stated_line + 10 <= usize::MAX
}

impl ApplyError {
    /// The message shown for the error, naming the file as `file_display`.
    pub fn message(&self, file_display: &str) -> (r: String)
        requires
            match self {
                ApplyError::ContextMismatch { stated_line, expected, actual, .. } => displayable(
                    *stated_line as nat,
                    string_views(expected@),
                    string_views(actual@),
                ),
            },
        ensures
            match self {
                ApplyError::ContextMismatch { hunk_index, stated_line, expected, actual } => r@
                    == mismatch_message(
                    *hunk_index as nat,
                    *stated_line as nat,
                    string_views(expected@),
                    string_views(actual@),
                    file_display@,
                ),
            },
    {
        match self {
            ApplyError::ContextMismatch { hunk_index, stated_line, expected, actual } => {
                let ghost ev = string_views(expected@);
                let ghost av = string_views(actual@);
                let mut m = chars_of("Error: Hunk ");
                push_all(&mut m, &decimal(*hunk_index));
                push_str(&mut m, " context mismatch at line ");
                push_all(&mut m, &decimal(*stated_line));
                push_str(&mut m, ".\n\n");
                push_str(&mut m, "  Expected (from diff):     Actual (in file):\n");
                push_str(&mut m, "  ─────────────────────     ─────────────────\n");
                let mx = if expected.len() >= actual.len() {
                    expected.len()
                } else {
                    actual.len()
                };
                let n = if mx < 5 {
                    mx
                } else {
                    5
                };
                let rows = table_rows_exec(expected, actual, n);
                push_all(&mut m, &rows);
                push_str(
                    &mut m,
                    "\n  The file may have been modified since the diff was generated.\n  Re-read the target region with `sfhtml read ",
                );
                push_str(&mut m, file_display);
                push_str(&mut m, " ");
                let lo = if *stated_line >= 5 {
                    *stated_line - 5
                } else {
                    0
                };
                push_all(&mut m, &decimal(lo));
                push_str(&mut m, " ");
                push_all(&mut m, &decimal(*stated_line + 10));
                push_str(&mut m, "` and regenerate the diff.");
                to_string(&m)
            },
        }
    }
}


// ---------------------------------------------------------------------------
// Text report
// ---------------------------------------------------------------------------

/// `format!("{:+}", n)`.
pub open spec fn signed(n: int) -> Seq<char> {
    if n >= 0 {
        "+"@ + dec(n as nat)
    } else {
        "-"@ + dec((-n) as nat)
    }
}

fn signed_exec(n: i32) -> (r: Vec<char>)
    ensures
        r@ == signed(n as int),
{
    let v = n as i64;
    if v >= 0 {
        let mut r = chars_of("+");
        push_all(&mut r, &decimal(v as usize));
        r
    } else {
        let mut r = chars_of("-");
        push_all(&mut r, &decimal((-v) as usize));
        r
    }
}

pub open spec fn fuzz_label(d: HunkDetail) -> Seq<char> {
    if d.fuzz_offset == 0 {
        "(exact)"@
    } else if d.context_search {
        "(context-search, offset "@ + signed(d.fuzz_offset as int) + ")"@
    } else {
        "(fuzz "@ + signed(d.fuzz_offset as int) + ")"@
    }
}

/// A hunk's line of the report, numbering hunks from 1.
pub open spec fn detail_line(d: HunkDetail) -> Seq<char> {
    "  Hunk "@ + dec((d.hunk_index + 1) as nat) + ": line "@ + dec(d.stated_line as nat)
        + " \u{2192} matched at "@ + dec(d.matched_line as nat) + " "@ + fuzz_label(d) + "\n"@
}

pub open spec fn detail_lines(ds: Seq<HunkDetail>) -> Seq<char>
    decreases ds.len(),
{
    if ds.len() == 0 {
        Seq::empty()
    } else {
        detail_lines(ds.drop_last()) + detail_line(ds.last())
    }
}

pub open spec fn warning_line(w: VIssueV) -> Seq<char> {
    "  \u{26a0} [warning] line "@ + dec(w.line) + ": "@ + w.message + (match w.locate_hint {
        Some(h) => " \u{2192} locate \""@ + h + "\""@,
        None => Seq::empty(),
    }) + "\n"@
}

pub open spec fn warning_lines(ws: Seq<VIssueV>) -> Seq<char>
    decreases ws.len(),
{
    if ws.len() == 0 {
        Seq::empty()
    } else {
        warning_lines(ws.drop_last()) + warning_line(ws.last())
    }
}

/// The text report of an applied diff.
pub open spec fn format_apply_spec(r: ApplyResult, file_name: Seq<char>) -> Seq<char> {
    "Applied "@ + dec(r.hunks_applied as nat) + " hunk"@ + crate::syntax_check::plural(
        r.hunks_applied as nat,
    ) + " to "@ + file_name + "\n"@ + detail_lines(r.hunk_details@) + "  Lines removed: "@ + dec(
        r.lines_removed as nat,
    ) + ", lines added: "@ + dec(r.lines_added as nat) + ", new size: "@ + dec(r.new_size as nat)
        + " bytes\n"@ + (match r.history_id {
        Some(id) => "  History saved: "@ + id@ + " (use `sfhtml history rollback` to undo)\n"@,
        None => Seq::empty(),
    }) + (match r.validation {
        Some(v) => "\n=== Post-Apply Validation ===\n"@ + (match v.status {
            ApplyStatus::Success => "\u{2713} Edit success \u{2014} no issues detected.\n"@,
            ApplyStatus::SuccessWithWarnings => "\u{2713} Edit success \u{2014} but warnings detected:\n"@,
        }) + warning_lines(vissues_view(v.warnings@)),
        None => Seq::empty(),
    })
}

fn push_detail(out: &mut Vec<char>, d: HunkDetail)
    ensures
        final(out)@ == old(out)@ + detail_line(d),
{
    let ghost o = out@;
    let label = if d.fuzz_offset == 0 {
        chars_of("(exact)")
    } else if d.context_search {
        let mut l = chars_of("(context-search, offset ");
        push_all(&mut l, &signed_exec(d.fuzz_offset));
        push_str(&mut l, ")");
        l
    } else {
        let mut l = chars_of("(fuzz ");
        push_all(&mut l, &signed_exec(d.fuzz_offset));
        push_str(&mut l, ")");
        l
    };
    assert(label@ =~= fuzz_label(d));
    push_str(out, "  Hunk ");
    push_all(out, &crate::text::decimal_u128(d.hunk_index as u128 + 1));
    push_str(out, ": line ");
    push_all(out, &decimal(d.stated_line));
    push_str(out, " \u{2192} matched at ");
    push_all(out, &decimal(d.matched_line));
    push_str(out, " ");
    push_all(out, &label);
    push_str(out, "\n");
    assert(out@ =~= o + detail_line(d));
}

fn push_details(out: &mut Vec<char>, details: &Vec<HunkDetail>)
    ensures
        final(out)@ == old(out)@ + detail_lines(details@),
{
    let ghost o = out@;
    let ghost ds = details@;
    let mut i: usize = 0;
    assert(ds.take(0) =~= Seq::<HunkDetail>::empty());
    assert(out@ =~= o + detail_lines(ds.take(0)));
    while i < details.len()
        invariant
            i <= details.len(),
            ds == details@,
            o == old(out)@,
            out@ == o + detail_lines(ds.take(i as int)),
        decreases details.len() - i,
    {
        let d = details[i];
        assert(ds[i as int] == d);
        assert(ds.take(i + 1).drop_last() =~= ds.take(i as int));
        push_detail(out, d);
        i = i + 1;
    }
    assert(ds.take(ds.len() as int) =~= ds);
}

fn push_warning(out: &mut Vec<char>, w: &ValidationIssue)
    ensures
        final(out)@ == old(out)@ + warning_line(w@),
{
    let ghost o = out@;
    push_str(out, "  \u{26a0} [warning] line ");
    push_all(out, &decimal(w.line));
    push_str(out, ": ");
    push_str(out, w.message.as_str());
    let ghost o1 = out@;
    match &w.locate_hint {
        Some(h) => {
            push_str(out, " \u{2192} locate \"");
            push_str(out, h.as_str());
            push_str(out, "\"");
        },
        None => {},
    }
    push_str(out, "\n");
    assert(out@ =~= o + warning_line(w@));
}

fn push_warnings(out: &mut Vec<char>, ws: &Vec<ValidationIssue>)
    ensures
        final(out)@ == old(out)@ + warning_lines(vissues_view(ws@)),
{
    let ghost o = out@;
    let ghost wv = vissues_view(ws@);
    let mut k: usize = 0;
    assert(wv.take(0) =~= Seq::<VIssueV>::empty());
    assert(out@ =~= o + warning_lines(wv.take(0)));
    while k < ws.len()
        invariant
            k <= ws.len(),
            wv == vissues_view(ws@),
            o == old(out)@,
            out@ == o + warning_lines(wv.take(k as int)),
        decreases ws.len() - k,
    {
        assert(wv[k as int] == ws@[k as int]@);
        assert(wv.take(k + 1).drop_last() =~= wv.take(k as int));
        push_warning(out, &ws[k]);
        k = k + 1;
    }
    assert(wv.take(wv.len() as int) =~= wv);
}

/// Format the apply result for text output.
pub fn format_apply_result(result: &ApplyResult, file_name: &str) -> (r: String)
    ensures
        r@ == format_apply_spec(*result, file_name@),
{
    let mut out = chars_of("Applied ");
    push_all(&mut out, &decimal(result.hunks_applied));
    push_str(&mut out, " hunk");
    if result.hunks_applied != 1 {
        push_str(&mut out, "s");
    }
    push_str(&mut out, " to ");
    push_str(&mut out, file_name);
    push_str(&mut out, "\n");
    push_details(&mut out, &result.hunk_details);
    push_str(&mut out, "  Lines removed: ");
    push_all(&mut out, &decimal(result.lines_removed));
    push_str(&mut out, ", lines added: ");
    push_all(&mut out, &decimal(result.lines_added));
    push_str(&mut out, ", new size: ");
    push_all(&mut out, &decimal(result.new_size));
    push_str(&mut out, " bytes\n");
    match &result.history_id {
        Some(id) => {
            push_str(&mut out, "  History saved: ");
            push_str(&mut out, id.as_str());
            push_str(&mut out, " (use `sfhtml history rollback` to undo)\n");
        },
        None => {},
    }
    match &result.validation {
        Some(v) => {
            push_str(&mut out, "\n=== Post-Apply Validation ===\n");
            match v.status {
                ApplyStatus::Success => push_str(&mut out, "\u{2713} Edit success \u{2014} no issues detected.\n"),
                ApplyStatus::SuccessWithWarnings => push_str(
                    &mut out,
                    "\u{2713} Edit success \u{2014} but warnings detected:\n",
                ),
            }
            push_warnings(&mut out, &v.warnings);
        },
        None => {},
    }
    assert(out@ =~= format_apply_spec(*result, file_name@));
    to_string(&out)
}

} // verus!

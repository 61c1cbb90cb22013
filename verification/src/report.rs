//! What the command line prints: the output controls every command shares
//! (`--grep`, `--head`, `--tail`, `--count`, `--truncate`) and the texts of
//! the commands that are not a module's own report.
use vstd::prelude::*;
use crate::locator::{AnchorListEntry, AnchorMatch, LocateResult};
use crate::header::HeaderSection;
use crate::history::{HistoryEntry, HistorySummary};
use crate::text::{
    byte_len, char_width, char_width_exec, chars_of, concat_seq, contains, dec, decimal, includes,
    join,
    join_seq, lemma_prefix_bytes_strict, lines_seq, pad_left, pad_right, padded_left, padded_right,
    push_all, push_str, str_lines, str_len, to_lowercase, to_string, unicode_lower, views,
};

verus! {

// ---------------------------------------------------------------------------
// Output controls
// ---------------------------------------------------------------------------

/// The lines that hold the pattern, without regard to case.
pub open spec fn grepped(ls: Seq<Seq<char>>, p: Seq<char>) -> Seq<Seq<char>>
    decreases ls.len(),
{
    if ls.len() == 0 {
        ls
    } else if includes(unicode_lower(ls.last()), unicode_lower(p)) {
        grepped(ls.drop_last(), p).push(ls.last())
    } else {
        grepped(ls.drop_last(), p)
    }
}

/// The lines kept: those that hold the pattern, then the first `head`, then
/// the last `tail`.
pub open spec fn controlled_lines(
    text: Seq<char>,
    head: Option<usize>,
    tail: Option<usize>,
    grep: Option<Seq<char>>,
) -> Seq<Seq<char>> {
    let ls0 = lines_seq(text);
    let ls1 = match grep {
        Some(p) => grepped(ls0, p),
        None => ls0,
    };
    let ls2 = match head {
        Some(n) => if n < ls1.len() {
            ls1.take(n as int)
        } else {
            ls1
        },
        None => ls1,
    };
    match tail {
        Some(n) => if ls2.len() > n {
            ls2.skip(ls2.len() - n)
        } else {
            ls2
        },
        None => ls2,
    }
}

/// The first `k` characters of `s` are the most that fit in `max` bytes.
pub open spec fn fits_in(s: Seq<char>, max: nat, k: int) -> bool {
    0 <= k <= s.len() && byte_len(s.take(k)) <= max && (k == s.len() || byte_len(s.take(k + 1))
        > max)
}

/// The text cut at the last character boundary within `max` bytes, and
/// marked, where it is longer.
pub open spec fn truncated(s: Seq<char>, max: nat) -> Seq<char> {
    if byte_len(s) > max {
        s.take(choose|k: int| fits_in(s, max, k)) + "\n... [truncated]\n"@
    } else {
        s
    }
}

/// A command's output after the controls: unchanged where none is given;
/// else the kept lines counted, or joined with a final newline and cut to
/// the byte limit.
pub open spec fn controlled(
    text: Seq<char>,
    head: Option<usize>,
    tail: Option<usize>,
    grep: Option<Seq<char>>,
    count: bool,
    truncate: Option<usize>,
) -> Seq<char> {
    if head is None && tail is None && grep is None && !count && truncate is None {
        text
    } else {
        let ls = controlled_lines(text, head, tail, grep);
        if count {
            dec(ls.len())
        } else {
            let r = if ls.len() == 0 {
                Seq::empty()
            } else {
                join_seq(ls, seq!['\n']) + seq!['\n']
            };
            match truncate {
                Some(m) => truncated(r, m as nat),
                None => r,
            }
        }
    }
}

proof fn lemma_fits_unique(s: Seq<char>, max: nat, k: int, j: int)
    requires
        fits_in(s, max, k),
        fits_in(s, max, j),
    ensures
        k == j,
{
    if k < j {
        lemma_prefix_bytes_strict(s, k + 1, j);
        if k + 1 == j {
        }
    } else if j < k {
        lemma_prefix_bytes_strict(s, j + 1, k);
    }
}

/// `--head n` and `--tail n` each keep at most `n` lines.
pub proof fn lemma_controls_bound(
    text: Seq<char>,
    head: Option<usize>,
    tail: Option<usize>,
    grep: Option<Seq<char>>,
)
    ensures
        head matches Some(h) ==> controlled_lines(text, head, tail, grep).len() <= h,
        tail matches Some(t) ==> controlled_lines(text, head, tail, grep).len() <= t,
{
}

proof fn lemma_fits_exists(s: Seq<char>, max: nat)
    ensures
        exists|k: int| fits_in(s, max, k),
    decreases s.len(),
{
    if byte_len(s) <= max {
        assert(s.take(s.len() as int) =~= s);
        assert(fits_in(s, max, s.len() as int));
    } else {
        let d = s.drop_last();
        assert(s.take(s.len() as int) =~= s);
        if byte_len(d) <= max {
            assert(d =~= s.take(s.len() - 1));
            assert(fits_in(s, max, s.len() - 1));
        } else {
            lemma_fits_exists(d, max);
            let k = choose|k: int| fits_in(d, max, k);
            assert(d.take(k) =~= s.take(k));
            if k < d.len() {
                assert(d.take(k + 1) =~= s.take(k + 1));
            }
            assert(fits_in(s, max, k));
        }
    }
}

/// `--truncate n` keeps at most `n` bytes of the output, a prefix of it,
/// followed by the mark.
pub proof fn lemma_truncate_bound(s: Seq<char>, max: nat)
    ensures
        byte_len(s) > max ==> {
            let k = choose|k: int| fits_in(s, max, k);
            &&& 0 <= k <= s.len()
            &&& byte_len(s.take(k)) <= max
            &&& truncated(s, max) == s.take(k) + "\n... [truncated]\n"@
        },
        byte_len(s) <= max ==> truncated(s, max) == s,
{
    lemma_fits_exists(s, max);
}

fn cut_to(s: &Vec<char>, max: usize) -> (r: usize)
    ensures
        fits_in(s@, max as nat, r as int),
{
    let mut k: usize = 0;
    let mut b: usize = 0;
    while k < s.len()
        invariant
            k <= s.len(),
            b == byte_len(s@.take(k as int)),
            b <= max,
        decreases s.len() - k,
    {
        let w = char_width_exec(s[k]);
        assert(s@.take(k + 1).drop_last() =~= s@.take(k as int));
        if w > max - b {
            return k;
        }
        b = b + w;
        k = k + 1;
    }
    assert(s@.take(k as int) =~= s@);
    k
}

/// Apply the output controls to a command's output.
pub fn apply_output_controls(
    text: &str,
    head: Option<usize>,
    tail: Option<usize>,
    grep: Option<&str>,
    count: bool,
    truncate: Option<usize>,
) -> (r: String)
    ensures
        r@ == controlled(
            text@,
            head,
            tail,
            match grep {
                Some(p) => Some(p@),
                None => None,
            },
            count,
            truncate,
        ),
{
    let ghost g = match grep {
        Some(p) => Some(p@),
        None => None::<Seq<char>>,
    };
    if head.is_none() && tail.is_none() && grep.is_none() && !count && truncate.is_none() {
        return text.to_string();
    }
    let ls0 = str_lines(text);
    let mut ls: Vec<Vec<char>> = Vec::new();
    match grep {
        Some(p) => {
            let lp = chars_of(to_lowercase(p).as_str());
            let mut i: usize = 0;
            while i < ls0.len()
                invariant
                    i <= ls0@.len(),
                    lp@ == unicode_lower(p@),
                    views(ls@) == grepped(views(ls0@).take(i as int), p@),
                decreases ls0@.len() - i,
            {
                let line = to_string(&ls0[i]);
                let lower = chars_of(to_lowercase(line.as_str()).as_str());
                proof {
                    assert(views(ls0@).take(i + 1).drop_last() =~= views(ls0@).take(i as int));
                    assert(ls0@[i as int]@ == views(ls0@)[i as int]);
                }
                if contains(&lower, &lp) {
                    let ghost before = ls@;
                    ls.push(crate::text::copy(&ls0[i]));
                    assert(views(ls@) =~= views(before).push(ls0@[i as int]@));
                }
                i = i + 1;
            }
            assert(views(ls0@).take(ls0@.len() as int) =~= views(ls0@));
        },
        None => {
            ls = ls0;
        },
    }
    assert(views(ls@) == match g {
        Some(p) => grepped(lines_seq(text@), p),
        None => lines_seq(text@),
    });
    if let Some(n) = head {
        ls.truncate(n);
    }
    let ghost ls2 = views(ls@);
    let mut kept: Vec<Vec<char>> = Vec::new();
    match tail {
        Some(n) => {
            if ls.len() > n {
                let mut i = ls.len() - n;
                let start = i;
                while i < ls.len()
                    invariant
                        start <= i <= ls@.len(),
                        views(kept@) == views(ls@).subrange(start as int, i as int),
                    decreases ls@.len() - i,
                {
                    let ghost before = kept@;
                    kept.push(crate::text::copy(&ls[i]));
                    proof {
                        assert(ls@[i as int]@ == views(ls@)[i as int]);
                    }
                    assert(views(kept@) =~= views(before).push(ls@[i as int]@));
                    i = i + 1;
                    assert(views(kept@) =~= views(ls@).subrange(start as int, i as int));
                }
                assert(views(ls@).subrange(start as int, ls@.len() as int) =~= views(ls@).skip(
                    start as int,
                ));
            } else {
                kept = ls;
            }
        },
        None => {
            kept = ls;
        },
    }
    assert(views(kept@) == controlled_lines(text@, head, tail, g)) by {
        assert(views(ls@) == ls2);
    }
    if count {
        return to_string(&decimal(kept.len()));
    }
    let mut out: Vec<char> = Vec::new();
    if kept.len() > 0 {
        let mut nl: Vec<char> = Vec::new();
        nl.push('\n');
        assert(nl@ =~= seq!['\n']);
        out = join(&kept, &nl);
        out.push('\n');
    }
    let ghost whole = out@;
    assert(whole =~= if views(kept@).len() == 0 {
        Seq::<char>::empty()
    } else {
        join_seq(views(kept@), seq!['\n']) + seq!['\n']
    });
    match truncate {
        Some(max) => {
            let total = str_len(to_string(&out).as_str());
            if total > max {
                let k = cut_to(&out, max);
                proof {
                    let c = choose|j: int| fits_in(whole, max as nat, j);
                    lemma_fits_unique(whole, max as nat, k as int, c);
                }
                out.truncate(k);
                push_str(&mut out, "\n... [truncated]\n");
                assert(out@ =~= truncated(whole, max as nat));
            } else {
                assert(out@ == truncated(whole, max as nat));
            }
        },
        None => {},
    }
    to_string(&out)
}

// ---------------------------------------------------------------------------
// Command texts
// ---------------------------------------------------------------------------

/// One match of an anchor as the locate command prints it.
pub open spec fn match_paragraph(anchor: Seq<char>, m: AnchorMatch) -> Seq<char> {
    "Anchor \""@ + anchor + "\" found at line "@ + dec(m.line as nat) + (match m.end_line {
        Some(e) => seq!['-'] + dec(e as nat),
        None => Seq::empty(),
    }) + ":\n"@ + m.context_preview@ + seq!['\n']
}

pub open spec fn locate_text_spec(r: LocateResult) -> Seq<char> {
    concat_seq(r.matches@.map_values(|m: AnchorMatch| match_paragraph(r.anchor@, m)))
}

/// Where an anchor was found: one paragraph a match, with its lines and the
/// code around them.
pub fn locate_text(r: &LocateResult) -> (t: String)
    ensures
        t@ == locate_text_spec(*r),
{
    let mut out: Vec<char> = Vec::new();
    let mut i: usize = 0;
    while i < r.matches.len()
        invariant
            i <= r.matches@.len(),
            out@ == concat_seq(
                r.matches@.take(i as int).map_values(|m: AnchorMatch| match_paragraph(r.anchor@, m)),
            ),
        decreases r.matches@.len() - i,
    {
        let m = &r.matches[i];
        push_str(&mut out, "Anchor \"");
        push_str(&mut out, r.anchor.as_str());
        push_str(&mut out, "\" found at line ");
        push_all(&mut out, &decimal(m.line));
        match m.end_line {
            Some(e) => {
                out.push('-');
                push_all(&mut out, &decimal(e));
            },
            None => {},
        }
        push_str(&mut out, ":\n");
        push_str(&mut out, m.context_preview.as_str());
        out.push('\n');
        proof {
            assert(r.matches@.take(i + 1).map_values(|m: AnchorMatch| match_paragraph(r.anchor@, m)).drop_last()
                =~= r.matches@.take(i as int).map_values(|m: AnchorMatch| match_paragraph(r.anchor@, m)));
        }
        i = i + 1;
    }
    assert(r.matches@.take(r.matches@.len() as int) =~= r.matches@);
    to_string(&out)
}

/// A section of the header as the header command prints it.
pub fn section_text(s: &HeaderSection) -> (t: String)
    ensures
        t@ == "## "@ + dec(s.number as nat) + ". "@ + s.title@ + seq!['\n'] + s.content@,
{
    let mut out: Vec<char> = Vec::new();
    push_str(&mut out, "## ");
    push_all(&mut out, &decimal(s.number));
    push_str(&mut out, ". ");
    push_str(&mut out, s.title.as_str());
    out.push('\n');
    push_str(&mut out, s.content.as_str());
    to_string(&out)
}

/// How many of `n` items a listing limited to `top` shows (all where `top`
/// is 0).
pub open spec fn listed(n: nat, top: usize) -> nat {
    if top > 0 && top < n {
        top as nat
    } else {
        n
    }
}

pub open spec fn more_note(n: nat, top: usize) -> Seq<char> {
    if top > 0 && n > top {
        "\n... and "@ + dec((n - top) as nat) + " more (use --top 0 to show all)\n"@
    } else {
        Seq::empty()
    }
}

pub open spec fn anchor_row(a: AnchorListEntry) -> Seq<char> {
    pad_right(a.name@, 40) + " line "@ + pad_left(dec(a.line as nat), 6) + "  "@ + a.anchor_type@
        + (if a.in_header {
        Seq::empty()
    } else {
        " [not in header]"@
    }) + seq!['\n']
}

pub open spec fn anchor_list_spec(anchors: Seq<AnchorListEntry>, top: usize) -> Seq<char> {
    concat_seq(anchors.take(listed(anchors.len(), top) as int).map_values(|a: AnchorListEntry| anchor_row(a)))
        + more_note(anchors.len(), top)
}

fn push_more_note(out: &mut Vec<char>, n: usize, top: usize)
    ensures
        final(out)@ == old(out)@ + more_note(n as nat, top),
{
    if top > 0 && n > top {
        push_str(out, "\n... and ");
        push_all(out, &decimal(n - top));
        push_str(out, " more (use --top 0 to show all)\n");
    }
}

/// The anchors of a page, one a line: name, line, kind, and whether the
/// header lists it; the first `top` where it is set.
pub fn anchor_list_text(anchors: &Vec<AnchorListEntry>, top: usize) -> (t: String)
    ensures
        t@ == anchor_list_spec(anchors@, top),
{
    let n = anchors.len();
    let shown = if top > 0 && top < n {
        top
    } else {
        n
    };
    let mut out: Vec<char> = Vec::new();
    let mut i: usize = 0;
    while i < shown
        invariant
            i <= shown <= anchors@.len(),
            out@ == concat_seq(anchors@.take(i as int).map_values(|a: AnchorListEntry| anchor_row(a))),
        decreases shown - i,
    {
        let a = &anchors[i];
        push_all(&mut out, &padded_right(&chars_of(a.name.as_str()), 40));
        push_str(&mut out, " line ");
        push_all(&mut out, &padded_left(&decimal(a.line), 6));
        push_str(&mut out, "  ");
        push_str(&mut out, a.anchor_type.as_str());
        if !a.in_header {
            push_str(&mut out, " [not in header]");
        }
        out.push('\n');
        proof {
            assert(anchors@.take(i + 1).map_values(|a: AnchorListEntry| anchor_row(a)).drop_last()
                =~= anchors@.take(i as int).map_values(|a: AnchorListEntry| anchor_row(a)));
        }
        i = i + 1;
    }
    push_more_note(&mut out, n, top);
    to_string(&out)
}

pub open spec fn history_row(e: HistorySummary) -> Seq<char> {
    "  "@ + e.id@ + " | "@ + e.timestamp_human@ + " | "@ + e.file_path@ + " | +"@ + dec(
        e.lines_added as nat,
    ) + " -"@ + dec(e.lines_removed as nat) + " | "@ + e.description@ + seq!['\n']
}

pub open spec fn history_rows_spec(entries: Seq<HistorySummary>, top: usize) -> Seq<char> {
    concat_seq(entries.take(listed(entries.len(), top) as int).map_values(|e: HistorySummary| history_row(e)))
        + more_note(entries.len(), top)
}

/// The history listing below its title line: one entry a line, the first
/// `top` where it is set.
pub fn history_rows(entries: &Vec<HistorySummary>, top: usize) -> (t: String)
    ensures
        t@ == history_rows_spec(entries@, top),
{
    let n = entries.len();
    let shown = if top > 0 && top < n {
        top
    } else {
        n
    };
    let mut out: Vec<char> = Vec::new();
    let mut i: usize = 0;
    while i < shown
        invariant
            i <= shown <= entries@.len(),
            out@ == concat_seq(entries@.take(i as int).map_values(|e: HistorySummary| history_row(e))),
        decreases shown - i,
    {
        let e = &entries[i];
        push_str(&mut out, "  ");
        push_str(&mut out, e.id.as_str());
        push_str(&mut out, " | ");
        push_str(&mut out, e.timestamp_human.as_str());
        push_str(&mut out, " | ");
        push_str(&mut out, e.file_path.as_str());
        push_str(&mut out, " | +");
        push_all(&mut out, &decimal(e.lines_added));
        push_str(&mut out, " -");
        push_all(&mut out, &decimal(e.lines_removed));
        push_str(&mut out, " | ");
        push_str(&mut out, e.description.as_str());
        out.push('\n');
        proof {
            assert(entries@.take(i + 1).map_values(|e: HistorySummary| history_row(e)).drop_last()
                =~= entries@.take(i as int).map_values(|e: HistorySummary| history_row(e)));
        }
        i = i + 1;
    }
    push_more_note(&mut out, n, top);
    to_string(&out)
}

/// A history entry as the show command prints it.
pub open spec fn entry_text(e: HistoryEntry) -> Seq<char> {
    "ID:        "@ + e.id@ + "\nFile:      "@ + e.file_path@ + "\nTime:      "@ + e.timestamp_human@
        + "\nChanges:   +"@ + dec(e.lines_added as nat) + " -"@ + dec(e.lines_removed as nat) + " ("@
        + dec(e.hunks_applied as nat) + " hunks)\n\n--- Forward Diff ---\n"@ + e.diff_text@
        + "\n\n--- Reverse Diff (for rollback) ---\n"@ + e.reverse_diff@
}

/// A history entry, with both its diffs.
pub fn show_text(e: &HistoryEntry) -> (t: String)
    ensures
        t@ == entry_text(*e),
{
    let mut out: Vec<char> = Vec::new();
    push_str(&mut out, "ID:        ");
    push_str(&mut out, e.id.as_str());
    push_str(&mut out, "\nFile:      ");
    push_str(&mut out, e.file_path.as_str());
    push_str(&mut out, "\nTime:      ");
    push_str(&mut out, e.timestamp_human.as_str());
    push_str(&mut out, "\nChanges:   +");
    push_all(&mut out, &decimal(e.lines_added));
    push_str(&mut out, " -");
    push_all(&mut out, &decimal(e.lines_removed));
    push_str(&mut out, " (");
    push_all(&mut out, &decimal(e.hunks_applied));
    push_str(&mut out, " hunks)\n\n--- Forward Diff ---\n");
    push_str(&mut out, e.diff_text.as_str());
    push_str(&mut out, "\n\n--- Reverse Diff (for rollback) ---\n");
    push_str(&mut out, e.reverse_diff.as_str());
    to_string(&out)
}

/// What the rollback command prints of a rollback's answer.
pub fn rollback_text(message: &str, dry_run: bool) -> (t: String)
    ensures
        t@ == if dry_run {
            "--- Dry run: reverse diff to apply ---\n"@ + message@
        } else {
            message@
        },
{
    let mut out: Vec<char> = Vec::new();
    if dry_run {
        push_str(&mut out, "--- Dry run: reverse diff to apply ---\n");
    }
    push_str(&mut out, message);
    to_string(&out)
}

/// The page already holds a header (its start marker occurs in it).
pub fn has_header_text(content: &str) -> (r: bool)
    ensures
        r == includes(content@, "<!-- AI-SKILL-HEADER START"@),
{
    contains(&chars_of(content), &chars_of("<!-- AI-SKILL-HEADER START"))
}

} // verus!

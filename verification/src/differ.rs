//! Unified diffs: generating them (through `similar`) and parsing them into hunks.
use vstd::prelude::*;
use similar::TextDiff;

use crate::text::{
    IntErrorKind, chars_of, occurs_at, find, find_seq, lines_seq, parse_usize, parse_usize_seq, push_str,
    skip, slice, starts, starts_with, str_lines, to_string, trim_start_char,
    trim_start_char_seq, views, words, words_seq,
};

verus! {

/// One hunk of a unified diff.
#[derive(Debug, Clone)]
pub struct DiffHunk {
    pub old_start: usize,
    pub old_count: usize,
    pub new_start: usize,
    pub new_count: usize,
    pub lines: Vec<DiffLine>,
}

/// One body line of a hunk.
#[derive(Debug, Clone)]
pub enum DiffLine {
    Context(String),
    Remove(String),
    Add(String),
}

/// Mathematical value of a [`DiffLine`].
pub enum LineV {
    Context(Seq<char>),
    Remove(Seq<char>),
    Add(Seq<char>),
}

/// Mathematical value of a [`DiffHunk`].
pub struct HunkV {
    pub old_start: usize,
    pub old_count: usize,
    pub new_start: usize,
    pub new_count: usize,
    pub lines: Seq<LineV>,
}

impl View for DiffLine {
    type V = LineV;

    open spec fn view(&self) -> LineV {
        match self {
            DiffLine::Context(s) => LineV::Context(s@),
            DiffLine::Remove(s) => LineV::Remove(s@),
            DiffLine::Add(s) => LineV::Add(s@),
        }
    }
}

impl View for DiffHunk {
    type V = HunkV;

    open spec fn view(&self) -> HunkV {
        HunkV {
            old_start: self.old_start,
            old_count: self.old_count,
            new_start: self.new_start,
            new_count: self.new_count,
            lines: self.lines@.map_values(|l: DiffLine| l@),
        }
    }
}

pub open spec fn opt_view(o: Option<DiffHunk>) -> Option<HunkV> {
    match o {
        Some(h) => Some(h@),
        None => None,
    }
}

pub open spec fn hunks_view(v: Seq<DiffHunk>) -> Seq<HunkV> {
    v.map_values(|h: DiffHunk| h@)
}

/// Why a diff text could not be parsed.
#[derive(Debug, Clone)]
pub enum DiffError {
    /// No `@@` hunk header at all.
    NoHunks,
    /// A `@@` line without four fields starting with `@@`; holds the line.
    InvalidHunkHeader(String),
    /// A range number that `usize` parsing refused.
    InvalidNumber(IntErrorKind),
}

pub enum DiffErrorV {
    NoHunks,
    InvalidHunkHeader(Seq<char>),
    InvalidNumber(IntErrorKind),
}

/// What `ParseIntError` displays for each kind.
pub open spec fn int_error_text(k: IntErrorKind) -> Seq<char> {
    match k {
        IntErrorKind::Empty => "cannot parse integer from empty string"@,
        IntErrorKind::InvalidDigit => "invalid digit found in string"@,
        IntErrorKind::PosOverflow => "number too large to fit in target type"@,
    }
}

impl DiffError {
    /// The error as the command line reports it.
    pub fn message(&self) -> (r: String)
        ensures
            r@ == match self {
                DiffError::NoHunks => "Error: Invalid unified diff format \u{2014} no hunks found"@,
                DiffError::InvalidHunkHeader(l) => "Error: Invalid hunk header: "@ + l@,
                DiffError::InvalidNumber(k) => int_error_text(*k),
            },
    {
        match self {
            DiffError::NoHunks => "Error: Invalid unified diff format \u{2014} no hunks found".to_string(),
            DiffError::InvalidHunkHeader(l) => {
                let mut v = crate::text::chars_of("Error: Invalid hunk header: ");
                crate::text::push_str(&mut v, l.as_str());
                crate::text::to_string(&v)
            },
            DiffError::InvalidNumber(k) => match k {
                IntErrorKind::Empty => "cannot parse integer from empty string".to_string(),
                IntErrorKind::InvalidDigit => "invalid digit found in string".to_string(),
                IntErrorKind::PosOverflow => "number too large to fit in target type".to_string(),
            },
        }
    }
}

impl View for DiffError {
    type V = DiffErrorV;

    open spec fn view(&self) -> DiffErrorV {
        match self {
            DiffError::NoHunks => DiffErrorV::NoHunks,
            DiffError::InvalidHunkHeader(s) => DiffErrorV::InvalidHunkHeader(s@),
            DiffError::InvalidNumber(k) => DiffErrorV::InvalidNumber(*k),
        }
    }
}

// ---------------------------------------------------------------------------
// Generation
// ---------------------------------------------------------------------------

/// Result of `similar`'s unified diff between two texts (line granularity), with
/// the given context radius and the two header names.
pub uninterp spec fn similar_unified_diff(
    old_text: Seq<char>,
    new_text: Seq<char>,
    old_header: Seq<char>,
    new_header: Seq<char>,
    context: usize,
) -> Seq<char>;

/// `similar::TextDiff::from_lines(old, new).unified_diff().context_radius(c)
/// .header(oh, nh).to_string()`: the contract names the result and claims
/// nothing else of it.
#[verifier::external_body]
fn unified_diff(old_text: &str, new_text: &str, old_header: &str, new_header: &str, context: usize) -> (r: String)
    ensures
        r@ == similar_unified_diff(old_text@, new_text@, old_header@, new_header@, context),
{
    TextDiff::from_lines(old_text, new_text).unified_diff().context_radius(context).header(
        old_header,
        new_header,
    ).to_string()
}

/// Generate a unified diff between two texts; the headers are `a/<old_name>`
/// and `b/<new_name>`.
pub fn generate_diff(
    old_text: &str,
    new_text: &str,
    old_name: &str,
    new_name: &str,
    context_lines: usize,
) -> (r: String)
    ensures
        r@ == similar_unified_diff(
            old_text@,
            new_text@,
            seq!['a', '/'] + old_name@,
            seq!['b', '/'] + new_name@,
            context_lines,
        ),
{
    let mut oh: Vec<char> = Vec::new();
    oh.push('a');
    oh.push('/');
    push_str(&mut oh, old_name);
    let mut nh: Vec<char> = Vec::new();
    nh.push('b');
    nh.push('/');
    push_str(&mut nh, new_name);
    assert(oh@ =~= seq!['a', '/'] + old_name@);
    assert(nh@ =~= seq!['b', '/'] + new_name@);
    let ohs = to_string(&oh);
    let nhs = to_string(&nh);
    unified_diff(old_text, new_text, ohs.as_str(), nhs.as_str(), context_lines)
}

// ---------------------------------------------------------------------------
// Parsing: specification
// ---------------------------------------------------------------------------

/// `(start, count)` of a range `start[,count]`; a missing count is 1.
pub open spec fn range_spec(s: Seq<char>) -> Result<(usize, usize), IntErrorKind> {
    match find_seq(s, seq![',']) {
        Some(c) => match parse_usize_seq(s.take(c)) {
            Err(e) => Err(e),
            Ok(a) => match parse_usize_seq(s.skip(c + 1)) {
                Err(e) => Err(e),
                Ok(b) => Ok((a, b)),
            },
        },
        None => match parse_usize_seq(s) {
            Err(e) => Err(e),
            Ok(a) => Ok((a, 1usize)),
        },
    }
}

/// A hunk header `@@ -a,b +c,d @@` as a hunk with no body lines yet.
pub open spec fn header_spec(line: Seq<char>) -> Result<HunkV, DiffErrorV> {
    let parts = words_seq(line);
    if parts.len() < 4 || parts[0] != seq!['@', '@'] {
        Err(DiffErrorV::InvalidHunkHeader(line))
    } else {
        match range_spec(trim_start_char_seq(parts[1], '-')) {
            Err(e) => Err(DiffErrorV::InvalidNumber(e)),
            Ok(o) => match range_spec(trim_start_char_seq(parts[2], '+')) {
                Err(e) => Err(DiffErrorV::InvalidNumber(e)),
                Ok(n) => Ok(
                    HunkV {
                        old_start: o.0,
                        old_count: o.1,
                        new_start: n.0,
                        new_count: n.1,
                        lines: Seq::<LineV>::empty(),
                    },
                ),
            },
        }
    }
}

/// The parser's state after some lines: finished hunks, the open hunk, and
/// whether a `---`/`+++` file line has been seen.
pub struct ParseState {
    pub done: Seq<HunkV>,
    pub cur: Option<HunkV>,
    pub started: bool,
}

pub open spec fn add_line(h: HunkV, l: LineV) -> HunkV {
    HunkV { lines: h.lines.push(l), ..h }
}

/// The effect of one diff line on the parser state.
pub open spec fn step_spec(st: ParseState, line: Seq<char>) -> Result<ParseState, DiffErrorV> {
    if starts(line, seq!['-', '-', '-', ' ']) || starts(line, seq!['+', '+', '+', ' ']) {
        Ok(ParseState { started: true, ..st })
    } else if starts(line, seq!['@', '@', ' ']) {
        let done = match st.cur {
            Some(h) => st.done.push(h),
            None => st.done,
        };
        match header_spec(line) {
            Err(e) => Err(e),
            Ok(h) => Ok(ParseState { done, cur: Some(h), started: st.started }),
        }
    } else {
        match st.cur {
            None => Ok(st),
            Some(h) => {
                if line.len() > 0 && line[0] == '-' {
                    Ok(ParseState { cur: Some(add_line(h, LineV::Remove(line.drop_first()))), ..st })
                } else if line.len() > 0 && line[0] == '+' {
                    Ok(ParseState { cur: Some(add_line(h, LineV::Add(line.drop_first()))), ..st })
                } else if line.len() > 0 && line[0] == ' ' {
                    Ok(
                        ParseState {
                            cur: Some(add_line(h, LineV::Context(line.drop_first()))),
                            ..st
                        },
                    )
                } else if line.len() == 0 && st.started {
                    Ok(
                        ParseState {
                            cur: Some(add_line(h, LineV::Context(Seq::<char>::empty()))),
                            ..st
                        },
                    )
                } else {
                    Ok(st)
                }
            },
        }
    }
}

/// The parser state after all of `lines`, or the first error.
pub open spec fn run_spec(lines: Seq<Seq<char>>) -> Result<ParseState, DiffErrorV>
    decreases lines.len(),
{
    if lines.len() == 0 {
        Ok(ParseState { done: Seq::<HunkV>::empty(), cur: None, started: false })
    } else {
        match run_spec(lines.drop_last()) {
            Err(e) => Err(e),
            Ok(st) => step_spec(st, lines.last()),
        }
    }
}

/// The hunks of a unified diff text.
pub open spec fn parse_diff_spec(text: Seq<char>) -> Result<Seq<HunkV>, DiffErrorV> {
    match run_spec(lines_seq(text)) {
        Err(e) => Err(e),
        Ok(st) => {
            let all = match st.cur {
                Some(h) => st.done.push(h),
                None => st.done,
            };
            if all.len() == 0 {
                Err(DiffErrorV::NoHunks)
            } else {
                Ok(all)
            }
        },
    }
}

// ---------------------------------------------------------------------------
// Parsing: implementation
// ---------------------------------------------------------------------------

fn parse_range(s: &Vec<char>) -> (r: Result<(usize, usize), IntErrorKind>)
    ensures
        r == range_spec(s@),
{
    let mut comma: Vec<char> = Vec::new();
    comma.push(',');
    assert(comma@ =~= seq![',']);
    match find(s, &comma) {
        Some(c) => {
            let n = s.len();
            assert(occurs_at(s@, comma@, c as int));
            let a = slice(s, 0, c);
            let b = skip(s, c + 1);
            assert(a@ =~= s@.take(c as int));
            let start = parse_usize(&a)?;
            let count = parse_usize(&b)?;
            Ok((start, count))
        },
        None => {
            let start = parse_usize(s)?;
            Ok((start, 1))
        },
    }
}

fn lit2(a: char, b: char) -> (r: Vec<char>)
    ensures
        r@ == seq![a, b],
{
    let mut v: Vec<char> = Vec::new();
    v.push(a);
    v.push(b);
    assert(v@ =~= seq![a, b]);
    v
}

fn parse_hunk_header(line: &Vec<char>) -> (r: Result<DiffHunk, DiffError>)
    ensures
        r matches Ok(h) ==> header_spec(line@) == Ok::<HunkV, DiffErrorV>(h@),
        r matches Err(e) ==> header_spec(line@) == Err::<HunkV, DiffErrorV>(e@),
{
    let parts = words(line);
    let at = lit2('@', '@');
    proof {
        if parts@.len() >= 1 {
            assert(views(parts@)[0] == parts@[0]@);
        }
    }
    if parts.len() < 4 || !vec_eq(&parts[0], &at) {
        return Err(DiffError::InvalidHunkHeader(to_string(line)));
    }
    proof {
        assert(views(parts@)[1] == parts@[1]@);
        assert(views(parts@)[2] == parts@[2]@);
    }
    let old_part = trim_start_char(&parts[1], '-');
    let new_part = trim_start_char(&parts[2], '+');
    let o = match parse_range(&old_part) {
        Ok(o) => o,
        Err(e) => {
            return Err(DiffError::InvalidNumber(e));
        },
    };
    let n = match parse_range(&new_part) {
        Ok(n) => n,
        Err(e) => {
            return Err(DiffError::InvalidNumber(e));
        },
    };
    let h = DiffHunk {
        old_start: o.0,
        old_count: o.1,
        new_start: n.0,
        new_count: n.1,
        lines: Vec::new(),
    };
    assert(h@.lines =~= Seq::<LineV>::empty());
    Ok(h)
}

/// Equality of two character vectors.
pub fn vec_eq(a: &Vec<char>, b: &Vec<char>) -> (r: bool)
    ensures
        r == (a@ == b@),
{
    if a.len() != b.len() {
        return false;
    }
    let mut i: usize = 0;
    while i < a.len()
        invariant
            a@.len() == b@.len(),
            i <= a.len(),
            forall|j: int| 0 <= j < i ==> a@[j] == b@[j],
        decreases a.len() - i,
    {
        if a[i] != b[i] {
            return false;
        }
        i = i + 1;
    }
    assert(a@ =~= b@);
    true
}

fn push_line(h: &mut DiffHunk, l: DiffLine)
    ensures
        final(h)@ == add_line(old(h)@, l@),
{
    h.lines.push(l);
    assert(final(h)@.lines =~= old(h)@.lines.push(l@));
}

/// Parse a unified diff string into hunks.
///
/// `--- ` and `+++ ` lines are skipped; each `@@ ` line opens a hunk; inside a
/// hunk, lines starting with `-`, `+` and ` ` are removed, added and context
/// lines, and an empty line after a file header is an empty context line.
pub fn parse_unified_diff(diff_text: &str) -> (r: Result<Vec<DiffHunk>, DiffError>)
    ensures
        r matches Ok(v) ==> parse_diff_spec(diff_text@) == Ok::<Seq<HunkV>, DiffErrorV>(
            hunks_view(v@),
        ),
        r matches Err(e) ==> parse_diff_spec(diff_text@) == Err::<Seq<HunkV>, DiffErrorV>(e@),
{
    let lines = str_lines(diff_text);
    let mut hunks: Vec<DiffHunk> = Vec::new();
    let mut current: Option<DiffHunk> = None;
    let mut started = false;
    let dashes = chars_of("--- ");
    let pluses = chars_of("+++ ");
    let ats = chars_of("@@ ");
    proof {
        reveal_strlit("--- ");
        reveal_strlit("+++ ");
        reveal_strlit("@@ ");
        assert(dashes@ =~= seq!['-', '-', '-', ' ']);
        assert(pluses@ =~= seq!['+', '+', '+', ' ']);
        assert(ats@ =~= seq!['@', '@', ' ']);
    }
    let ghost ls = views(lines@);
    assert(hunks_view(hunks@) =~= Seq::<HunkV>::empty());
    assert(ls.take(0) =~= Seq::<Seq<char>>::empty());
    let mut i: usize = 0;
    while i < lines.len()
        invariant
            i <= lines.len(),
            ls == views(lines@),
            ls == lines_seq(diff_text@),
            dashes@ == seq!['-', '-', '-', ' '],
            pluses@ == seq!['+', '+', '+', ' '],
            ats@ == seq!['@', '@', ' '],
            run_spec(ls.take(i as int)) == Ok::<ParseState, DiffErrorV>(
                ParseState {
                    done: hunks_view(hunks@),
                    cur: opt_view(current),
                    started,
                },
            ),
        decreases lines.len() - i,
    {
        let line = &lines[i];
        let ghost st = ParseState {
            done: hunks_view(hunks@),
            cur: opt_view(current),
            started,
        };
        proof {
            assert(ls.take(i + 1).drop_last() =~= ls.take(i as int));
            assert(ls.take(i + 1).last() == line@);
        }
        if starts_with(line, &dashes) || starts_with(line, &pluses) {
            started = true;
        } else if starts_with(line, &ats) {
            let ghost old_hunks = hunks@;
            match current.take() {
                Some(h) => {
                    let ghost hv = h@;
                    hunks.push(h);
                    assert(hunks_view(hunks@) =~= hunks_view(old_hunks).push(hv));
                },
                None => {},
            }
            match parse_hunk_header(line) {
                Ok(h) => {
                    current = Some(h);
                },
                Err(e) => {
                    proof {
                        assert(ls.take(i + 1) =~= ls.take(i + 1));
                        lemma_run_err(ls, (i + 1) as int);
                    }
                    return Err(e);
                },
            }
        } else {
            match current.take() {
                None => {},
                Some(h) => {
                    let mut h = h;
                    if line.len() > 0 && line[0] == '-' {
                        let body = skip(line, 1);
                        assert(body@ =~= line@.drop_first());
                        push_line(&mut h, DiffLine::Remove(to_string(&body)));
                    } else if line.len() > 0 && line[0] == '+' {
                        let body = skip(line, 1);
                        assert(body@ =~= line@.drop_first());
                        push_line(&mut h, DiffLine::Add(to_string(&body)));
                    } else if line.len() > 0 && line[0] == ' ' {
                        let body = skip(line, 1);
                        assert(body@ =~= line@.drop_first());
                        push_line(&mut h, DiffLine::Context(to_string(&body)));
                    } else if line.len() == 0 && started {
                        let empty: Vec<char> = Vec::new();
                        assert(empty@ =~= Seq::<char>::empty());
                        push_line(&mut h, DiffLine::Context(to_string(&empty)));
                    }
                    current = Some(h);
                },
            }
        }
        i = i + 1;
    }
    proof {
        assert(ls.take(ls.len() as int) =~= ls);
    }
    let ghost old_hunks = hunks@;
    match current {
        Some(h) => {
            let ghost hv = h@;
            hunks.push(h);
            assert(hunks_view(hunks@) =~= hunks_view(old_hunks).push(hv));
        },
        None => {},
    }
    if hunks.len() == 0 {
        return Err(DiffError::NoHunks);
    }
    Ok(hunks)
}

/// Once a prefix of the lines fails, the whole run fails the same way.
pub proof fn lemma_run_err(ls: Seq<Seq<char>>, k: int)
    requires
        0 <= k <= ls.len(),
        run_spec(ls.take(k)) is Err,
    ensures
        run_spec(ls) == run_spec(ls.take(k)),
    decreases ls.len() - k,
{
    if k < ls.len() {
        assert(ls.drop_last().take(k) =~= ls.take(k));
        lemma_run_err(ls.drop_last(), k);
    } else {
        assert(ls.take(k) =~= ls);
    }
}


// ---------------------------------------------------------------------------
// Parsing: hunks as segments of the text
// ---------------------------------------------------------------------------

/// A `@@ ` line, which opens a hunk.
pub open spec fn is_hunk_header(line: Seq<char>) -> bool {
    starts(line, seq!['@', '@', ' '])
}

/// A `--- ` or `+++ ` file line.
pub open spec fn is_file_line(line: Seq<char>) -> bool {
    starts(line, seq!['-', '-', '-', ' ']) || starts(line, seq!['+', '+', '+', ' '])
}

/// Some file line stands among `lines`.
pub open spec fn file_line_seen(lines: Seq<Seq<char>>) -> bool
    decreases lines.len(),
{
    lines.len() > 0 && (file_line_seen(lines.drop_last()) || is_file_line(lines.last()))
}

/// How many hunk headers stand among `lines`.
pub open spec fn header_count(lines: Seq<Seq<char>>) -> nat
    decreases lines.len(),
{
    if lines.len() == 0 {
        0
    } else {
        header_count(lines.drop_last()) + if is_hunk_header(lines.last()) {
            1nat
        } else {
            0nat
        }
    }
}

/// The position of the first hunk header at or after `j`, else the end.
pub open spec fn next_header(lines: Seq<Seq<char>>, j: int) -> int
    decreases lines.len() - j,
{
    if j >= lines.len() {
        lines.len() as int
    } else if is_hunk_header(lines[j]) {
        j
    } else {
        next_header(lines, j + 1)
    }
}

/// What a line inside a hunk adds to it: a removed, added or context line by
/// its first character (an empty line counts as empty context once a file
/// line has been seen); file lines and anything else add nothing.
pub open spec fn body_line(line: Seq<char>, seen: bool) -> Seq<LineV> {
    if is_file_line(line) {
        Seq::empty()
    } else if line.len() > 0 && line[0] == '-' {
        seq![LineV::Remove(line.drop_first())]
    } else if line.len() > 0 && line[0] == '+' {
        seq![LineV::Add(line.drop_first())]
    } else if line.len() > 0 && line[0] == ' ' {
        seq![LineV::Context(line.drop_first())]
    } else if line.len() == 0 && seen {
        seq![LineV::Context(Seq::empty())]
    } else {
        Seq::empty()
    }
}

/// The body that lines `a` to `b - 1` give a hunk.
pub open spec fn hunk_body(lines: Seq<Seq<char>>, a: int, b: int) -> Seq<LineV>
    decreases b - a,
{
    if b <= a {
        Seq::empty()
    } else {
        hunk_body(lines, a, b - 1) + body_line(lines[b - 1], file_line_seen(lines.take(b - 1)))
    }
}

/// The hunk that the header on line `k` opens, its body running to line `e`.
pub open spec fn hunk_at(lines: Seq<Seq<char>>, k: int, e: int) -> HunkV {
    HunkV { lines: hunk_body(lines, k + 1, e), ..header_spec(lines[k])->Ok_0 }
}

/// Every hunk header among `lines` is well formed.
pub open spec fn headers_parse(lines: Seq<Seq<char>>) -> bool {
    forall|k: int| 0 <= k < lines.len() && is_hunk_header(#[trigger] lines[k]) ==> header_spec(lines[k]) is Ok
}

proof fn lemma_hunk_body_prefix(p: Seq<Seq<char>>, l: Seq<char>, a: int, b: int)
    requires
        0 <= a,
        b <= p.len(),
    ensures
        hunk_body(p.push(l), a, b) == hunk_body(p, a, b),
    decreases b - a,
{
    if b > a {
        lemma_hunk_body_prefix(p, l, a, b - 1);
        assert(p.push(l).take(b - 1) =~= p.take(b - 1));
        assert(p.push(l)[b - 1] == p[b - 1]);
    }
}

proof fn lemma_next_header_push(p: Seq<Seq<char>>, l: Seq<char>, j: int)
    requires
        0 <= j <= p.len(),
    ensures
        next_header(p.push(l), j) == if next_header(p, j) < p.len() {
            next_header(p, j)
        } else if is_hunk_header(l) {
            p.len() as int
        } else {
            (p.len() + 1) as int
        },
    decreases p.len() - j,
{
    let q = p.push(l);
    if j < p.len() {
        assert(q[j] == p[j]);
        lemma_next_header_push(p, l, j + 1);
    } else {
        assert(q[j] == l);
        if !is_hunk_header(l) {
            assert(next_header(q, j + 1) == q.len());
        }
    }
}

proof fn lemma_header_count_take(lines: Seq<Seq<char>>, a: int, b: int)
    requires
        0 <= a <= b <= lines.len(),
    ensures
        header_count(lines.take(a)) <= header_count(lines.take(b)),
        a < b && is_hunk_header(lines[a]) ==> header_count(lines.take(a)) < header_count(lines.take(b)),
    decreases b - a,
{
    if a < b {
        lemma_header_count_take(lines, a, b - 1);
        assert(lines.take(b).drop_last() =~= lines.take(b - 1));
        if a == b - 1 {
            assert(lines.take(b).last() == lines[a]);
        }
    }
}

/// The parser state `st` after `lines` holds one hunk per header so far, each
/// the header's ranges with the body lines after it; the last one is open.
pub open spec fn segmented(lines: Seq<Seq<char>>, st: ParseState) -> bool {
    &&& st.started == file_line_seen(lines)
    &&& st.done.len() + (if st.cur is Some { 1nat } else { 0nat }) == header_count(lines)
    &&& (st.cur is Some <==> header_count(lines) > 0)
    &&& forall|k: int| 0 <= k < lines.len() && is_hunk_header(#[trigger] lines[k]) ==> hunk_placed(lines, st, k)
}

/// The hunk of the header on line `k` stands where the headers before it
/// number it: finished, or open as the last one.
pub open spec fn hunk_placed(lines: Seq<Seq<char>>, st: ParseState, k: int) -> bool {
    let idx = header_count(lines.take(k));
    if idx < st.done.len() {
        &&& st.done[idx as int] == hunk_at(lines, k, next_header(lines, k + 1))
        &&& next_header(lines, k + 1) < lines.len()
    } else {
        &&& idx == st.done.len()
        &&& st.cur == Some(hunk_at(lines, k, lines.len() as int))
        &&& next_header(lines, k + 1) == lines.len()
    }
}

proof fn lemma_prefix_facts(p: Seq<Seq<char>>, l: Seq<char>, k: int)
    requires
        0 <= k < p.len(),
    ensures
        p.push(l)[k] == p[k],
        p.push(l).take(k) == p.take(k),
        next_header(p.push(l), k + 1) == if next_header(p, k + 1) < p.len() {
            next_header(p, k + 1)
        } else if is_hunk_header(l) {
            p.len() as int
        } else {
            (p.len() + 1) as int
        },
        hunk_body(p.push(l), k + 1, p.len() as int) == hunk_body(p, k + 1, p.len() as int),
        forall|e: int| k + 1 <= e <= p.len() ==> #[trigger] hunk_body(p.push(l), k + 1, e) == hunk_body(p, k + 1, e),
        hunk_body(p.push(l), k + 1, (p.len() + 1) as int) == hunk_body(p, k + 1, p.len() as int) + body_line(
            l,
            file_line_seen(p),
        ),
{
    let q = p.push(l);
    assert(q.take(k) =~= p.take(k));
    lemma_next_header_push(p, l, k + 1);
    assert forall|e: int| k + 1 <= e <= p.len() implies #[trigger] hunk_body(q, k + 1, e) == hunk_body(p, k + 1, e) by {
        lemma_hunk_body_prefix(p, l, k + 1, e);
    }
    assert(q.take(p.len() as int) =~= p);
    assert(q[p.len() as int] == l);
}

proof fn lemma_step_file_line(p: Seq<Seq<char>>, l: Seq<char>, st: ParseState)
    requires
        segmented(p, st),
        is_file_line(l),
    ensures
        step_spec(st, l) == Ok::<ParseState, DiffErrorV>(ParseState { started: true, ..st }),
        segmented(p.push(l), ParseState { started: true, ..st }),
{
    let q = p.push(l);
    let n = p.len() as int;
    let st2 = ParseState { started: true, ..st };
    assert(q.drop_last() =~= p);
    assert(q.last() == l);
    assert(!is_hunk_header(l));
    assert forall|k: int| 0 <= k < q.len() && is_hunk_header(#[trigger] q[k]) implies hunk_placed(q, st2, k) by {
        assert(k < n);
        lemma_prefix_facts(p, l, k);
        assert(hunk_placed(p, st, k));
        assert(body_line(l, file_line_seen(p)) =~= Seq::<LineV>::empty());
        assert(hunk_body(q, k + 1, n + 1) =~= hunk_body(p, k + 1, n));
        let idx = header_count(p.take(k));
        if idx < st.done.len() {
            let e = next_header(p, k + 1);
            assert(hunk_body(q, k + 1, e) == hunk_body(p, k + 1, e));
            assert(hunk_at(q, k, e) == hunk_at(p, k, e));
        } else {
            assert(hunk_at(q, k, n + 1) == hunk_at(p, k, n));
        }
    }
}

proof fn lemma_step_header(p: Seq<Seq<char>>, l: Seq<char>, st: ParseState)
    requires
        segmented(p, st),
        is_hunk_header(l),
        header_spec(l) is Ok,
    ensures
        step_spec(st, l) is Ok,
        segmented(p.push(l), step_spec(st, l)->Ok_0),
{
    reveal_with_fuel(next_header, 2);
    let q = p.push(l);
    let n = p.len() as int;
    assert(q.drop_last() =~= p);
    assert(q.last() == l);
    assert(!is_file_line(l));
    let st2 = step_spec(st, l)->Ok_0;
    let h = header_spec(l)->Ok_0;
    assert(q.take(n) =~= p);
    assert(q[n] == l);
    assert forall|k: int| 0 <= k < q.len() && is_hunk_header(#[trigger] q[k]) implies hunk_placed(q, st2, k) by {
        if k < n {
            lemma_prefix_facts(p, l, k);
            assert(hunk_placed(p, st, k));
            lemma_header_count_take(p, k, n);
            assert(p.take(n) =~= p);
            let idx = header_count(p.take(k));
            if idx < st.done.len() {
                let e = next_header(p, k + 1);
                assert(hunk_body(q, k + 1, e) == hunk_body(p, k + 1, e));
                assert(hunk_at(q, k, e) == hunk_at(p, k, e));
                assert(st2.done[idx as int] == st.done[idx as int]);
            } else {
                assert(hunk_at(q, k, n) == hunk_at(p, k, n));
                assert(st2.done[idx as int] == st.cur->Some_0);
            }
        } else {
            assert(h.lines =~= hunk_body(q, n + 1, n + 1));
            assert(hunk_at(q, n, n + 1) == h);
        }
    }
}

proof fn lemma_step_other(p: Seq<Seq<char>>, l: Seq<char>, st: ParseState)
    requires
        segmented(p, st),
        !is_hunk_header(l),
        !is_file_line(l),
    ensures
        step_spec(st, l) is Ok,
        segmented(p.push(l), step_spec(st, l)->Ok_0),
{
    let q = p.push(l);
    let n = p.len() as int;
    assert(q.drop_last() =~= p);
    assert(q.last() == l);
    let st2 = step_spec(st, l)->Ok_0;
    assert forall|k: int| 0 <= k < q.len() && is_hunk_header(#[trigger] q[k]) implies hunk_placed(q, st2, k) by {
        assert(k < n);
        lemma_prefix_facts(p, l, k);
        assert(hunk_placed(p, st, k));
        let idx = header_count(p.take(k));
        if idx < st.done.len() {
            let e = next_header(p, k + 1);
            assert(hunk_body(q, k + 1, e) == hunk_body(p, k + 1, e));
            assert(hunk_at(q, k, e) == hunk_at(p, k, e));
        } else {
            let h = st.cur->Some_0;
            assert(st2.cur matches Some(h2) && h2.lines =~= h.lines + body_line(l, st.started));
            assert(hunk_at(q, k, n + 1).lines =~= h.lines + body_line(l, st.started));
        }
    }
}

/// The parser's state after `lines` whose hunk headers all parse: one hunk
/// per header so far, each the header's ranges with the body lines after it.
proof fn lemma_run_segments(lines: Seq<Seq<char>>)
    requires
        headers_parse(lines),
    ensures
        run_spec(lines) is Ok,
        segmented(lines, run_spec(lines)->Ok_0),
    decreases lines.len(),
{
    if lines.len() > 0 {
        let p = lines.drop_last();
        let l = lines.last();
        assert(lines =~= p.push(l));
        assert forall|k: int| 0 <= k < p.len() && is_hunk_header(#[trigger] p[k]) implies header_spec(p[k]) is Ok by {
            assert(lines[k] == p[k]);
        }
        lemma_run_segments(p);
        let st = run_spec(p)->Ok_0;
        if is_file_line(l) {
            lemma_step_file_line(p, l, st);
        } else if is_hunk_header(l) {
            assert(lines[lines.len() - 1] == l);
            lemma_step_header(p, l, st);
        } else {
            lemma_step_other(p, l, st);
        }
    }
}

/// Parsing a diff whose hunk headers all parse gives one hunk per `@@ ` line,
/// in order: the hunk of the header on line `k` is the one numbered by the
/// headers before it, with that header's ranges and the body lines that follow
/// it up to the next header; a text with no header has no hunks.
pub proof fn lemma_parse_hunks_follow_headers(text: Seq<char>)
    requires
        headers_parse(lines_seq(text)),
    ensures
        ({
            let ls = lines_seq(text);
            &&& header_count(ls) == 0 ==> parse_diff_spec(text) == Err::<Seq<HunkV>, DiffErrorV>(
                DiffErrorV::NoHunks,
            )
            &&& header_count(ls) > 0 ==> parse_diff_spec(text) is Ok && parse_diff_spec(text)->Ok_0.len()
                == header_count(ls) && forall|k: int|
                0 <= k < ls.len() && is_hunk_header(#[trigger] ls[k]) ==> parse_diff_spec(text)->Ok_0[header_count(
                    ls.take(k),
                ) as int] == hunk_at(ls, k, next_header(ls, k + 1))
        }),
{
    let ls = lines_seq(text);
    lemma_run_segments(ls);
    let st = run_spec(ls)->Ok_0;
    if header_count(ls) > 0 {
        let all = st.done.push(st.cur->Some_0);
        assert(parse_diff_spec(text) == Ok::<Seq<HunkV>, DiffErrorV>(all));
        assert forall|k: int| 0 <= k < ls.len() && is_hunk_header(#[trigger] ls[k]) implies all[header_count(
            ls.take(k),
        ) as int] == hunk_at(ls, k, next_header(ls, k + 1)) by {
            assert(hunk_placed(ls, st, k));
            let idx = header_count(ls.take(k));
            if idx < st.done.len() {
                assert(all[idx as int] == st.done[idx as int]);
            }
        }
    }
}

} // verus!

//! The AI-SKILL-HEADER: an HTML comment block of markdown at the top of a
//! single-file app. Reading it (title, numbered sections, the anchor list of
//! section 5), generating it, and rebuilding section 5 from the code.
use vstd::prelude::*;

use crate::text::{
    IntErrorKind, chars_of, find, find_seq, includes, join, join_seq, lines_of, lines_seq, parse_usize,
    parse_usize_seq, push_all, push_str, skip, skip_past, slice, starts, starts_with, str_lines,
    contains, lower_seq, unicode_lower, split_char, split_on, to_lower, to_string, trim, trim_char, trim_char_seq, trim_seq, views,
};

verus! {

// ---------------------------------------------------------------------------
// Types
// ---------------------------------------------------------------------------

/// A script region with tag info and content boundaries (all 0-based).
#[derive(Debug, Clone)]
pub struct ScriptRegion {
    /// line of `<script...>`
    pub tag_line: usize,
    /// first line of JS content
    pub content_start: usize,
    /// exclusive end of JS content
    pub content_end: usize,
    /// line of `</script>`
    pub close_line: usize,
    /// e.g. `<script type="module">` or `<script>`
    pub tag_label: String,
}

pub struct ScriptRegionV {
    pub tag_line: nat,
    pub content_start: nat,
    pub content_end: nat,
    pub close_line: nat,
    pub tag_label: Seq<char>,
}

impl View for ScriptRegion {
    type V = ScriptRegionV;

    open spec fn view(&self) -> ScriptRegionV {
        ScriptRegionV {
            tag_line: self.tag_line as nat,
            content_start: self.content_start as nat,
            content_end: self.content_end as nat,
            close_line: self.close_line as nat,
            tag_label: self.tag_label@,
        }
    }
}

/// The parsed header of a file.
#[derive(Debug, Clone)]
pub struct HeaderInfo {
    pub full_markdown: String,
    pub title_line: Option<String>,
    pub app_name: Option<String>,
    pub summary: Option<String>,
    pub sections: Vec<HeaderSection>,
    /// 1-based line of the start marker
    pub start_line: usize,
    /// 1-based line of the end marker
    pub end_line: usize,
}

/// One `## N. Title` section of the header.
#[derive(Debug, Clone)]
pub struct HeaderSection {
    pub number: usize,
    pub title: String,
    pub content: String,
}

/// One entry of the anchor list of section 5.
#[derive(Debug, Clone)]
pub struct AnchorEntry {
    pub name: String,
    pub purpose: String,
}

pub struct SectionV {
    pub number: nat,
    pub title: Seq<char>,
    pub content: Seq<char>,
}

impl View for HeaderSection {
    type V = SectionV;

    open spec fn view(&self) -> SectionV {
        SectionV { number: self.number as nat, title: self.title@, content: self.content@ }
    }
}

pub open spec fn opt_str(o: Option<String>) -> Option<Seq<char>> {
    match o {
        Some(s) => Some(s@),
        None => None,
    }
}

pub open spec fn sections_view(v: Seq<HeaderSection>) -> Seq<SectionV> {
    v.map_values(|s: HeaderSection| s@)
}

pub struct HeaderInfoV {
    pub full_markdown: Seq<char>,
    pub title_line: Option<Seq<char>>,
    pub app_name: Option<Seq<char>>,
    pub summary: Option<Seq<char>>,
    pub sections: Seq<SectionV>,
    pub start_line: nat,
    pub end_line: nat,
}

impl View for HeaderInfo {
    type V = HeaderInfoV;

    open spec fn view(&self) -> HeaderInfoV {
        HeaderInfoV {
            full_markdown: self.full_markdown@,
            title_line: opt_str(self.title_line),
            app_name: opt_str(self.app_name),
            summary: opt_str(self.summary),
            sections: sections_view(self.sections@),
            start_line: self.start_line as nat,
            end_line: self.end_line as nat,
        }
    }
}

/// Why a header or one of its sections could not be read.
#[derive(Debug, Clone, Copy, PartialEq, Eq)]
pub enum HeaderError {
    NoHeader,
    SectionNotFound(usize),
}

impl HeaderError {
    /// The message shown for the error.
    pub fn message(&self) -> (r: String)
        ensures
            r@ == header_error_message(*self),
    {
        match self {
            HeaderError::NoHeader => String::from_str(
                "No AI-SKILL-HEADER found. Run `sfhtml init <file>` to add one.",
            ),
            HeaderError::SectionNotFound(n) => {
                let mut m = chars_of("Section ");
                push_all(&mut m, &crate::text::decimal(*n));
                push_str(&mut m, " not found in header");
                to_string(&m)
            },
        }
    }
}

pub open spec fn header_error_message(e: HeaderError) -> Seq<char> {
    match e {
        HeaderError::NoHeader => "No AI-SKILL-HEADER found. Run `sfhtml init <file>` to add one."@,
        HeaderError::SectionNotFound(n) => "Section "@ + crate::text::dec(n as nat)
            + " not found in header"@,
    }
}

// ---------------------------------------------------------------------------
// Markers
// ---------------------------------------------------------------------------

pub open spec fn start_marker() -> Seq<char> {
    "<!-- AI-SKILL-HEADER START"@
}

pub open spec fn end_marker() -> Seq<char> {
    "AI-SKILL-HEADER END -->"@
}

/// `(start marker seen, 1-based line of the last start marker, 1-based line of
/// the first end marker after one)`; the scan stops at that end marker, and
/// the third part is 0 until then.
pub open spec fn header_scan(lines: Seq<Seq<char>>) -> (bool, nat, nat)
    decreases lines.len(),
{
    if lines.len() == 0 {
        (false, 0, 0)
    } else {
        let st = header_scan(lines.drop_last());
        if st.2 != 0 {
            st
        } else {
            let idx = (lines.len() - 1) as nat;
            let t = trim_seq(lines.last());
            let is_start = starts(t, start_marker());
            let found = st.0 || is_start;
            let s = if is_start {
                idx + 1
            } else {
                st.1
            };
            let e = if found && includes(t, end_marker()) {
                idx + 1
            } else {
                0
            };
            (found, s, e)
        }
    }
}

/// The 1-based lines of the start and end markers of the header, if any.
pub open spec fn header_span(lines: Seq<Seq<char>>) -> Option<(nat, nat)> {
    let st = header_scan(lines);
    if st.2 != 0 {
        Some((st.1, st.2))
    } else {
        None
    }
}

/// The header's markers are on different lines (a header whose end marker
/// shares the start marker's line has no body to slice out).
pub open spec fn header_spans_lines(lines: Seq<Seq<char>>) -> bool {
    header_span(lines) matches Some(p) ==> p.0 < p.1
}

proof fn lemma_header_scan_bounds(lines: Seq<Seq<char>>)
    ensures
        header_scan(lines).1 <= header_scan(lines).2 || header_scan(lines).2 == 0,
        header_scan(lines).2 <= lines.len(),
        header_scan(lines).1 <= lines.len(),
        header_scan(lines).2 != 0 ==> header_scan(lines).0,
        header_scan(lines).0 ==> header_scan(lines).1 >= 1,
    decreases lines.len(),
{
    if lines.len() > 0 {
        lemma_header_scan_bounds(lines.drop_last());
    }
}

proof fn lemma_header_scan_stops(lines: Seq<Seq<char>>, k: int)
    requires
        0 <= k <= lines.len(),
        header_scan(lines.take(k)).2 != 0,
    ensures
        header_scan(lines) == header_scan(lines.take(k)),
    decreases lines.len() - k,
{
    if k < lines.len() {
        assert(lines.drop_last().take(k) =~= lines.take(k));
        lemma_header_scan_stops(lines.drop_last(), k);
    } else {
        assert(lines.take(k) =~= lines);
    }
}

/// Where the header sits in `lines`: `(start, end)` as in [`header_span`].
pub fn find_header_span(lines: &Vec<Vec<char>>) -> (r: Option<(usize, usize)>)
    ensures
        r is None <==> header_span(views(lines@)) is None,
        r matches Some(p) ==> header_span(views(lines@)) == Some((p.0 as nat, p.1 as nat)),
{
    let sm = chars_of("<!-- AI-SKILL-HEADER START");
    let em = chars_of("AI-SKILL-HEADER END -->");
    let ghost ls = views(lines@);
    let mut found = false;
    let mut s: usize = 0;
    let mut idx: usize = 0;
    while idx < lines.len()
        invariant
            idx <= lines.len(),
            ls == views(lines@),
            sm@ == start_marker(),
            em@ == end_marker(),
            header_scan(ls.take(idx as int)) == (found, s as nat, 0nat),
        decreases lines.len() - idx,
    {
        let t = trim(&lines[idx]);
        assert(ls.take(idx + 1).drop_last() =~= ls.take(idx as int));
        if starts_with(&t, &sm) {
            s = idx + 1;
            found = true;
        }
        if found && crate::text::contains(&t, &em) {
            proof {
                lemma_header_scan_stops(ls, idx + 1);
            }
            return Some((s, idx + 1));
        }
        idx = idx + 1;
    }
    assert(ls.take(lines@.len() as int) =~= ls);
    None
}

// ---------------------------------------------------------------------------
// Title and sections
// ---------------------------------------------------------------------------

/// The first header line that is a `# ` title, trimmed.
pub open spec fn title_of(h: Seq<Seq<char>>) -> Option<Seq<char>>
    decreases h.len(),
{
    if h.len() == 0 {
        None
    } else if starts(trim_seq(h[0]), "# "@) {
        Some(trim_seq(h[0]))
    } else {
        title_of(h.skip(1))
    }
}

/// The app name and summary of a title (what follows `# `): split at the
/// first ` — `, else at the first ` - `.
pub open spec fn name_and_summary(title: Seq<char>) -> (Seq<char>, Option<Seq<char>>) {
    match find_seq(title, " \u{2014} "@) {
        Some(p) => (trim_seq(title.take(p)), Some(trim_seq(title.skip(p + 3)))),
        None => match find_seq(title, " - "@) {
            Some(p) => (trim_seq(title.take(p)), Some(trim_seq(title.skip(p + 3)))),
            None => (trim_seq(title), None),
        },
    }
}

/// State of the section scan.
pub struct SectionScan {
    pub in_section: bool,
    pub number: nat,
    pub title: Seq<char>,
    pub content: Seq<char>,
    pub sections: Seq<SectionV>,
}

/// Number and title of a `## ` heading (what follows `## `), given how many
/// sections came before: `N. Title` when `N` parses, else the next number and
/// the whole text.
pub open spec fn heading_of(rest: Seq<char>, count: nat) -> (nat, Seq<char>) {
    match find_seq(rest, ". "@) {
        Some(p) => match parse_usize_seq(trim_seq(rest.take(p))) {
            Ok(n) => (n as nat, trim_seq(rest.skip(p + 2))),
            Err(_) => (count + 1, rest),
        },
        None => (count + 1, rest),
    }
}

pub open spec fn close_section(st: SectionScan) -> Seq<SectionV> {
    if st.in_section {
        st.sections.push(SectionV { number: st.number, title: st.title, content: trim_seq(st.content) })
    } else {
        st.sections
    }
}

pub open spec fn section_step(st: SectionScan, line: Seq<char>) -> SectionScan {
    let t = trim_seq(line);
    if starts(t, "## "@) {
        let secs = close_section(st);
        let h = heading_of(t.skip(3), secs.len());
        SectionScan {
            in_section: true,
            number: h.0,
            title: h.1,
            content: Seq::empty(),
            sections: secs,
        }
    } else if st.in_section {
        SectionScan { content: st.content + line + seq!['\n'], ..st }
    } else {
        st
    }
}

pub open spec fn section_scan(lines: Seq<Seq<char>>) -> SectionScan
    decreases lines.len(),
{
    if lines.len() == 0 {
        SectionScan {
            in_section: false,
            number: 0,
            title: Seq::empty(),
            content: Seq::empty(),
            sections: Seq::empty(),
        }
    } else {
        section_step(section_scan(lines.drop_last()), lines.last())
    }
}

/// The `## ` sections of markdown made of `lines`.
pub open spec fn sections_spec(lines: Seq<Seq<char>>) -> Seq<SectionV> {
    close_section(section_scan(lines))
}

proof fn lemma_section_count(lines: Seq<Seq<char>>)
    ensures
        section_scan(lines).sections.len() <= lines.len(),
        section_scan(lines).in_section ==> section_scan(lines).sections.len() < lines.len(),
    decreases lines.len(),
{
    if lines.len() > 0 {
        lemma_section_count(lines.drop_last());
    }
}

/// The number and title of a heading (what follows `## `).
fn parse_heading(rest: &Vec<char>, count: usize) -> (r: (usize, String))
    requires
        count < usize::MAX,
    ensures
        (r.0 as nat, r.1@) == heading_of(rest@, count as nat),
{
    let dot = chars_of(". ");
    proof {
        reveal_strlit(". ");
    }
    assert(dot@.len() == 2);
    if let Some(p) = find(rest, &dot) {
        let num = trim(&slice(rest, 0, p));
        assert(rest@.subrange(0, p as int) =~= rest@.take(p as int));
        match parse_usize(&num) {
            Ok(n) => {
                let t = trim(&skip_past(rest, p, 2));
                return (n, to_string(&t));
            },
            Err(_) => {},
        }
    }
    (count + 1, to_string(rest))
}

/// Parse markdown sections (`## N. Title`).
fn parse_sections(markdown: &Vec<char>) -> (r: Vec<HeaderSection>)
    ensures
        sections_view(r@) == sections_spec(lines_seq(markdown@)),
{
    let lines = lines_of(markdown);
    let ghost ls = views(lines@);
    proof {
        reveal_strlit("## ");
    }
    let hh = chars_of("## ");
    assert(hh@.len() == 3);
    let mut sections: Vec<HeaderSection> = Vec::new();
    let mut in_section = false;
    let mut number: usize = 0;
    let mut title: Vec<char> = Vec::new();
    let mut content: Vec<char> = Vec::new();
    proof {
        assert(ls.take(0) =~= Seq::<Seq<char>>::empty());
        assert(title@ =~= Seq::<char>::empty());
        assert(content@ =~= Seq::<char>::empty());
        assert(sections_view(sections@) =~= Seq::<SectionV>::empty());
    }
    let mut i: usize = 0;
    while i < lines.len()
        invariant
            i <= lines.len(),
            ls == views(lines@),
            ls == lines_seq(markdown@),
            hh@ == "## "@,
            hh@.len() == 3,
            section_scan(ls.take(i as int)) == (SectionScan {
                in_section,
                number: number as nat,
                title: title@,
                content: content@,
                sections: sections_view(sections@),
            }),
        decreases lines.len() - i,
    {
        proof {
            assert(ls.take(i + 1).drop_last() =~= ls.take(i as int));
            lemma_section_count(ls.take(i as int));
        }
        let line = &lines[i];
        let ghost st = section_scan(ls.take(i as int));
        assert(section_scan(ls.take(i + 1)) == section_step(st, line@));
        let t = trim(line);
        if starts_with(&t, &hh) {
            if in_section {
                let ghost before = sections_view(sections@);
                let sec = HeaderSection {
                    number,
                    title: to_string(&title),
                    content: to_string(&trim(&content)),
                };
                sections.push(sec);
                assert(sections_view(sections@) =~= before.push(
                    SectionV { number: number as nat, title: title@, content: trim_seq(content@) },
                ));
            }
            assert(sections_view(sections@) == close_section(st));
            let rest = skip(&t, 3);
            let (n, ttl) = parse_heading(&rest, sections.len());
            number = n;
            title = chars_of(ttl.as_str());
            content = Vec::new();
            in_section = true;
            assert(content@ =~= Seq::<char>::empty());
        } else if in_section {
            let ghost c0 = content@;
            push_all(&mut content, line);
            content.push('\n');
            assert(content@ =~= c0 + line@ + seq!['\n']);
        }
        i = i + 1;
    }
    assert(ls.take(lines@.len() as int) =~= ls);
    if in_section {
        let ghost before = sections_view(sections@);
        let sec = HeaderSection {
            number,
            title: to_string(&title),
            content: to_string(&trim(&content)),
        };
        sections.push(sec);
        assert(sections_view(sections@) =~= before.push(
            SectionV { number: number as nat, title: title@, content: trim_seq(content@) },
        ));
    }
    sections
}

// ---------------------------------------------------------------------------
// Reading the header
// ---------------------------------------------------------------------------

/// The header read from `lines`, whose markers are on lines `s` and `e`.
pub open spec fn header_of(lines: Seq<Seq<char>>, s: nat, e: nat) -> HeaderInfoV {
    let hl = lines.subrange(s as int, e - 1);
    let md = join_seq(hl, seq!['\n']);
    let title = title_of(hl);
    let (app, summary) = match title {
        Some(t) => {
            let ns = name_and_summary(t.skip(2));
            (Some(ns.0), ns.1)
        },
        None => (None, None),
    };
    HeaderInfoV {
        full_markdown: md,
        title_line: title,
        app_name: app,
        summary,
        sections: sections_spec(lines_seq(md)),
        start_line: s,
        end_line: e,
    }
}

/// The header of a text, or why there is none.
pub open spec fn extract_header_spec(content: Seq<char>) -> Result<HeaderInfoV, HeaderError> {
    let lines = lines_seq(content);
    match header_span(lines) {
        Some(p) => Ok(header_of(lines, p.0, p.1)),
        None => Err(HeaderError::NoHeader),
    }
}

pub open spec fn header_result_view(r: Result<HeaderInfo, HeaderError>) -> Result<HeaderInfoV, HeaderError> {
    match r {
        Ok(h) => Ok(h@),
        Err(e) => Err(e),
    }
}

/// App name and summary of a title line's text (after `# `).
pub(crate) fn split_title(title: &Vec<char>) -> (r: (String, Option<String>))
    ensures
        (r.0@, opt_str(r.1)) == name_and_summary(title@),
{
    let em = chars_of(" \u{2014} ");
    let dash = chars_of(" - ");
    proof {
        reveal_strlit(" \u{2014} ");
        reveal_strlit(" - ");
    }
    assert(em@.len() == 3 && dash@.len() == 3);
    let found = match find(title, &em) {
        Some(p) => Some(p),
        None => find(title, &dash),
    };
    match found {
        Some(p) => {
            let name = trim(&slice(title, 0, p));
            let summary = trim(&skip_past(title, p, 3));
            assert(title@.subrange(0, p as int) =~= title@.take(p as int));
            (to_string(&name), Some(to_string(&summary)))
        },
        None => (to_string(&trim(title)), None),
    }
}

/// The first line of `h` that is a `# ` title, trimmed.
pub(crate) fn title_line_of(h: &Vec<Vec<char>>) -> (r: Option<Vec<char>>)
    ensures
        r is None <==> title_of(views(h@)) is None,
        r matches Some(t) ==> title_of(views(h@)) == Some(t@) && starts(t@, "# "@),
{
    let hash = chars_of("# ");
    let ghost hv = views(h@);
    let mut i: usize = 0;
    assert(hv.skip(0) =~= hv);
    while i < h.len()
        invariant
            i <= h.len(),
            hv == views(h@),
            hash@ == "# "@,
            title_of(hv) == title_of(hv.skip(i as int)),
        decreases h.len() - i,
    {
        assert(hv.skip(i as int)[0] == hv[i as int]);
        assert(hv.skip(i as int).skip(1) =~= hv.skip(i + 1));
        let t = trim(&h[i]);
        if starts_with(&t, &hash) {
            return Some(t);
        }
        i = i + 1;
    }
    assert(hv.skip(i as int) =~= Seq::<Seq<char>>::empty());
    None
}

/// Extract the full AI-SKILL-HEADER from a file.
pub fn extract_header(content: &str) -> (r: Result<HeaderInfo, HeaderError>)
    requires
        header_spans_lines(lines_seq(content@)),
    ensures
        header_result_view(r) == extract_header_spec(content@),
{
    let lines = str_lines(content);
    let ghost ls = views(lines@);
    let span = find_header_span(&lines);
    let (s, e) = match span {
        Some(p) => p,
        None => {
            return Err(HeaderError::NoHeader);
        },
    };
    proof {
        lemma_header_scan_bounds(ls);
    }
    let mut hl: Vec<Vec<char>> = Vec::new();
    let mut k: usize = s;
    while k < e - 1
        invariant
            s <= k <= e - 1,
            e <= lines.len(),
            views(hl@) == ls.subrange(s as int, k as int),
            ls == views(lines@),
        decreases e - 1 - k,
    {
        let ghost before = views(hl@);
        hl.push(crate::text::copy(&lines[k]));
        assert(views(hl@) =~= before.push(ls[k as int]));
        assert(ls.subrange(s as int, k + 1) =~= ls.subrange(s as int, k as int).push(ls[k as int]));
        k = k + 1;
    }
    let mut nl: Vec<char> = Vec::new();
    nl.push('\n');
    assert(nl@ =~= seq!['\n']);
    let md = join(&hl, &nl);
    let ghost hv = views(hl@);
    proof {
        reveal_strlit("# ");
    }
    let (title_line, app_name, summary) = match title_line_of(&hl) {
        Some(t) => {
            let rest = skip(&t, 2);
            let (name, summ) = split_title(&rest);
            (Some(to_string(&t)), Some(name), summ)
        },
        None => (None, None, None),
    };
    let sections = parse_sections(&md);
    Ok(HeaderInfo {
        full_markdown: to_string(&md),
        title_line,
        app_name,
        summary,
        sections,
        start_line: s,
        end_line: e,
    })
}


/// The first section numbered `n`.
pub open spec fn section_numbered(secs: Seq<SectionV>, n: nat) -> Option<SectionV>
    decreases secs.len(),
{
    if secs.len() == 0 {
        None
    } else if secs[0].number == n {
        Some(secs[0])
    } else {
        section_numbered(secs.skip(1), n)
    }
}

proof fn lemma_section_numbered(secs: Seq<SectionV>, n: nat)
    ensures
        section_numbered(secs, n) matches Some(x) ==> x.number == n,
    decreases secs.len(),
{
    if secs.len() > 0 {
        lemma_section_numbered(secs.skip(1), n);
    }
}

/// Section `n` of a text's header, or why it cannot be had.
pub open spec fn extract_section_spec(content: Seq<char>, n: nat) -> Result<SectionV, HeaderError> {
    match extract_header_spec(content) {
        Err(e) => Err(e),
        Ok(h) => match section_numbered(h.sections, n) {
            Some(x) => Ok(x),
            None => Err(HeaderError::SectionNotFound(n as usize)),
        },
    }
}

/// Index of the first section numbered `n` in `secs`.
pub fn position_of_section(secs: &Vec<HeaderSection>, n: usize) -> (r: Option<usize>)
    ensures
        r is None <==> section_numbered(sections_view(secs@), n as nat) is None,
        r matches Some(i) ==> i < secs.len() && section_numbered(sections_view(secs@), n as nat)
            == Some(secs@[i as int]@),
{
    let ghost sv = sections_view(secs@);
    let mut i: usize = 0;
    assert(sv.skip(0) =~= sv);
    while i < secs.len()
        invariant
            i <= secs.len(),
            sv == sections_view(secs@),
            section_numbered(sv, n as nat) == section_numbered(sv.skip(i as int), n as nat),
        decreases secs.len() - i,
    {
        assert(sv.skip(i as int)[0] == sv[i as int]);
        assert(sv.skip(i as int).skip(1) =~= sv.skip(i + 1));
        if secs[i].number == n {
            return Some(i);
        }
        i = i + 1;
    }
    assert(sv.skip(i as int) =~= Seq::<SectionV>::empty());
    None
}

/// Extract a specific section by number.
pub fn extract_section(content: &str, section_num: usize) -> (r: Result<HeaderSection, HeaderError>)
    requires
        header_spans_lines(lines_seq(content@)),
    ensures
        match r {
            Ok(x) => extract_section_spec(content@, section_num as nat) == Ok::<SectionV, HeaderError>(x@),
            Err(e) => extract_section_spec(content@, section_num as nat) == Err::<SectionV, HeaderError>(e),
        },
        r matches Ok(x) ==> x.number == section_num,
{
    let header = extract_header(content)?;
    match position_of_section(&header.sections, section_num) {
        Some(i) => {
            proof {
                lemma_section_numbered(sections_view(header.sections@), section_num as nat);
            }
            let sec = &header.sections[i];
            Ok(HeaderSection {
                number: sec.number,
                title: to_string(&chars_of(sec.title.as_str())),
                content: to_string(&chars_of(sec.content.as_str())),
            })
        },
        None => Err(HeaderError::SectionNotFound(section_num)),
    }
}

// ---------------------------------------------------------------------------
// The anchor list of section 5
// ---------------------------------------------------------------------------

pub open spec fn strip_dash(after: Seq<char>) -> Seq<char> {
    if starts(after, "\u{2014}"@) {
        after.skip(1)
    } else if starts(after, "-"@) {
        after.skip(1)
    } else {
        after
    }
}

/// A definition-list entry: ``- `name` — purpose``.
pub open spec fn def_list_entry(t: Seq<char>) -> Option<(Seq<char>, Seq<char>)> {
    if starts(t, "- `"@) {
        let rest = t.skip(3);
        match find_seq(rest, "`"@) {
            Some(e) => {
                let name = rest.take(e);
                let after = trim_seq(rest.skip(e + 1));
                if name.len() > 0 {
                    Some((name, trim_seq(strip_dash(after))))
                } else {
                    None
                }
            },
            None => None,
        }
    } else {
        None
    }
}

/// A table row: `| name | purpose |`, or the legacy
/// `| name | type | line | purpose |`.
pub open spec fn table_entry(t: Seq<char>) -> Option<(Seq<char>, Seq<char>)> {
    if starts(t, "|"@) && !starts(t, "|---"@) {
        let parts = split_on(t, '|');
        let legacy = parts.len() >= 5 && trim_seq(parts[1]) != "Name"@ && trim_seq(parts[1])
            != "Anchor"@;
        let (name, purpose) = if legacy {
            (trim_char_seq(trim_seq(parts[1]), '`'), trim_seq(parts[4]))
        } else if parts.len() >= 3 {
            (trim_char_seq(trim_seq(parts[1]), '`'), trim_seq(parts[2]))
        } else {
            (Seq::<char>::empty(), Seq::<char>::empty())
        };
        if name.len() > 0 && name != "Name"@ && name != "Anchor"@ && !starts(name, "---"@) {
            Some((name, purpose))
        } else {
            None
        }
    } else {
        None
    }
}

/// A row made only of `|`, `-`, `:` and spaces: a table's separator.
pub open spec fn rule_row(t: Seq<char>) -> bool {
    forall|i: int| 0 <= i < t.len() ==> (t[i] == '|' || t[i] == '-' || t[i] == ':' || t[i] == ' ')
}

/// A line of the anchor table that is no entry: its header row (first cell
/// `Name` or `Anchor`) or its separator.
pub open spec fn table_frame(t: Seq<char>) -> bool {
    starts(t, "|"@) && (rule_row(t) || {
        let parts = split_on(t, '|');
        parts.len() >= 2 && (trim_char_seq(trim_seq(parts[1]), '`') == "Name"@ || trim_char_seq(
            trim_seq(parts[1]),
            '`',
        ) == "Anchor"@)
    })
}

fn rule_row_exec(t: &Vec<char>) -> (r: bool)
    ensures
        r == rule_row(t@),
{
    let mut i: usize = 0;
    while i < t.len()
        invariant
            i <= t.len(),
            forall|j: int| 0 <= j < i ==> (t@[j] == '|' || t@[j] == '-' || t@[j] == ':' || t@[j] == ' '),
        decreases t.len() - i,
    {
        let c = t[i];
        if !(c == '|' || c == '-' || c == ':' || c == ' ') {
            return false;
        }
        i = i + 1;
    }
    true
}

fn table_frame_exec(t: &Vec<char>) -> (r: bool)
    ensures
        r == table_frame(t@),
{
    proof {
        reveal_strlit("|");
    }
    if !starts_with(t, &chars_of("|")) {
        return false;
    }
    if rule_row_exec(t) {
        return true;
    }
    let parts = split_char(t, '|');
    let ghost pv = views(parts@);
    if parts.len() < 2 {
        return false;
    }
    assert(pv[1] == parts@[1]@);
    let first = trim_char(&trim(&parts[1]), '`');
    eq_lit(&first, "Name") || eq_lit(&first, "Anchor")
}

/// What one trimmed line of section 5 gives: an entry, or whether it looks
/// like an entry that could not be read (the table's header row and its
/// separator are no entries).
pub open spec fn anchor_line(t: Seq<char>) -> (Option<(Seq<char>, Seq<char>)>, bool) {
    if t.len() == 0 || starts(t, "#"@) || starts(t, "("@) {
        (None, false)
    } else {
        let e = match def_list_entry(t) {
            Some(x) => Some(x),
            None => table_entry(t),
        };
        match e {
            Some(x) => (Some(x), false),
            None => (None, (starts(t, "- "@) || starts(t, "* "@) || starts(t, "|"@)) && !table_frame(t)),
        }
    }
}

/// Entries and unreadable entry-like lines of section 5 text made of `lines`.
pub open spec fn anchors_of(lines: Seq<Seq<char>>) -> (Seq<(Seq<char>, Seq<char>)>, Seq<Seq<char>>)
    decreases lines.len(),
{
    if lines.len() == 0 {
        (Seq::empty(), Seq::empty())
    } else {
        let p = anchors_of(lines.drop_last());
        let t = trim_seq(lines.last());
        let a = anchor_line(t);
        (
            match a.0 {
                Some(x) => p.0.push(x),
                None => p.0,
            },
            if a.1 {
                p.1.push(t)
            } else {
                p.1
            },
        )
    }
}

pub open spec fn anchor_views(v: Seq<AnchorEntry>) -> Seq<(Seq<char>, Seq<char>)> {
    v.map_values(|a: AnchorEntry| (a.name@, a.purpose@))
}

pub open spec fn string_views(v: Seq<String>) -> Seq<Seq<char>> {
    v.map_values(|s: String| s@)
}

fn eq_lit(a: &Vec<char>, lit: &str) -> (r: bool)
    ensures
        r == (a@ == lit@),
{
    let b = chars_of(lit);
    crate::differ::vec_eq(a, &b)
}

fn def_list_entry_exec(t: &Vec<char>) -> (r: Option<AnchorEntry>)
    ensures
        match r {
            Some(a) => def_list_entry(t@) == Some((a.name@, a.purpose@)),
            None => def_list_entry(t@) is None,
        },
{
    proof {
        reveal_strlit("- `");
        reveal_strlit("`");
        reveal_strlit("\u{2014}");
        reveal_strlit("-");
    }
    let p = chars_of("- `");
    if !starts_with(t, &p) {
        return None;
    }
    let rest = skip(t, 3);
    let tick = chars_of("`");
    let e = match find(&rest, &tick) {
        Some(e) => e,
        None => {
            return None;
        },
    };
    let name = slice(&rest, 0, e);
    assert(rest@.subrange(0, e as int) =~= rest@.take(e as int));
    let after = trim(&skip_past(&rest, e, 1));
    let dash = chars_of("\u{2014}");
    let hyphen = chars_of("-");
    let stripped = if starts_with(&after, &dash) || starts_with(&after, &hyphen) {
        skip(&after, 1)
    } else {
        crate::text::copy(&after)
    };
    if name.len() == 0 {
        return None;
    }
    Some(AnchorEntry { name: to_string(&name), purpose: to_string(&trim(&stripped)) })
}

fn table_entry_exec(t: &Vec<char>) -> (r: Option<AnchorEntry>)
    ensures
        match r {
            Some(a) => table_entry(t@) == Some((a.name@, a.purpose@)),
            None => table_entry(t@) is None,
        },
{
    let bar = chars_of("|");
    let rule = chars_of("|---");
    if !starts_with(t, &bar) || starts_with(t, &rule) {
        return None;
    }
    let parts = split_char(t, '|');
    let ghost pv = views(parts@);
    let n = parts.len();
    let legacy = n >= 5 && {
        let h = trim(&parts[1]);
        !eq_lit(&h, "Name") && !eq_lit(&h, "Anchor")
    };
    let (name, purpose) = if legacy {
        (trim_char(&trim(&parts[1]), '`'), trim(&parts[4]))
    } else if n >= 3 {
        (trim_char(&trim(&parts[1]), '`'), trim(&parts[2]))
    } else {
        (Vec::new(), Vec::new())
    };
    proof {
        if !legacy && n < 3 {
            assert(name@ =~= Seq::<char>::empty());
            assert(purpose@ =~= Seq::<char>::empty());
        }
    }
    let dashes = chars_of("---");
    if name.len() > 0 && !eq_lit(&name, "Name") && !eq_lit(&name, "Anchor") && !starts_with(
        &name,
        &dashes,
    ) {
        Some(AnchorEntry { name: to_string(&name), purpose: to_string(&purpose) })
    } else {
        None
    }
}

/// Parse entries from section 5 text, and return the lines that look like
/// entries but could not be read.
pub fn parse_anchor_list_with_issues(section_content: &str) -> (r: (Vec<AnchorEntry>, Vec<String>))
    ensures
        (anchor_views(r.0@), string_views(r.1@)) == anchors_of(lines_seq(section_content@)),
{
    let lines = str_lines(section_content);
    let ghost ls = views(lines@);
    let mut anchors: Vec<AnchorEntry> = Vec::new();
    let mut unparseable: Vec<String> = Vec::new();
    proof {
        reveal_strlit("#");
        reveal_strlit("(");
    }
    let hash = chars_of("#");
    let paren = chars_of("(");
    let li = chars_of("- ");
    let star = chars_of("* ");
    let bar = chars_of("|");
    let mut i: usize = 0;
    assert(ls.take(0) =~= Seq::<Seq<char>>::empty());
    assert(anchor_views(anchors@) =~= Seq::<(Seq<char>, Seq<char>)>::empty());
    assert(string_views(unparseable@) =~= Seq::<Seq<char>>::empty());
    while i < lines.len()
        invariant
            i <= lines.len(),
            ls == views(lines@),
            hash@ == "#"@,
            paren@ == "("@,
            li@ == "- "@,
            star@ == "* "@,
            bar@ == "|"@,
            (anchor_views(anchors@), string_views(unparseable@)) == anchors_of(ls.take(i as int)),
        decreases lines.len() - i,
    {
        assert(ls.take(i + 1).drop_last() =~= ls.take(i as int));
        let t = trim(&lines[i]);
        let ghost a = anchor_line(t@);
        let ghost a0 = anchor_views(anchors@);
        let ghost u0 = string_views(unparseable@);
        if t.len() == 0 || starts_with(&t, &hash) || starts_with(&t, &paren) {
        } else {
            let entry = match def_list_entry_exec(&t) {
                Some(x) => Some(x),
                None => table_entry_exec(&t),
            };
            match entry {
                Some(x) => {
                    anchors.push(x);
                    assert(anchor_views(anchors@) =~= a0.push(a.0.unwrap()));
                },
                None => {
                    if (starts_with(&t, &li) || starts_with(&t, &star) || starts_with(&t, &bar)) && !table_frame_exec(&t) {
                        unparseable.push(to_string(&t));
                        assert(string_views(unparseable@) =~= u0.push(t@));
                    }
                },
            }
        }
        i = i + 1;
    }
    assert(ls.take(lines@.len() as int) =~= ls);
    (anchors, unparseable)
}

/// Parse entries from section 5 text: the definition-list format
/// (``- `name` — purpose``), the table format (`| Anchor | Purpose |`) and the
/// legacy table format (`| Name | Type | Line | Purpose |`).
pub fn parse_anchor_list(section_content: &str) -> (r: Vec<AnchorEntry>)
    ensures
        anchor_views(r@) == anchors_of(lines_seq(section_content@)).0,
{
    parse_anchor_list_with_issues(section_content).0
}

/// `(inside the subsections, collected text)` after a scan of `lines`.
pub open spec fn subsection_scan(lines: Seq<Seq<char>>) -> (bool, Seq<char>)
    decreases lines.len(),
{
    if lines.len() == 0 {
        (false, Seq::empty())
    } else {
        let p = subsection_scan(lines.drop_last());
        let inside = p.0 || starts(trim_seq(lines.last()), "### "@);
        (inside, if inside {
            p.1 + lines.last() + seq!['\n']
        } else {
            p.1
        })
    }
}

/// The `### ` subsections of section 5 text: everything from the first such
/// heading on, right-trimmed; `None` when there is none.
pub open spec fn subsections_spec(content: Seq<char>) -> Option<Seq<char>> {
    let r = subsection_scan(lines_seq(content)).1;
    if r.len() == 0 {
        None
    } else {
        Some(crate::text::trim_end_seq(r))
    }
}

/// Extract subsections (### 5.1, ### 5.2, etc.) from section 5 content.
fn extract_subsections(section_content: &Vec<char>) -> (r: Option<Vec<char>>)
    ensures
        r is None <==> subsections_spec(section_content@) is None,
        r matches Some(x) ==> subsections_spec(section_content@) == Some(x@),
{
    let lines = lines_of(section_content);
    let ghost ls = views(lines@);
    let h3 = chars_of("### ");
    let mut result: Vec<char> = Vec::new();
    let mut inside = false;
    let mut i: usize = 0;
    assert(ls.take(0) =~= Seq::<Seq<char>>::empty());
    assert(result@ =~= Seq::<char>::empty());
    while i < lines.len()
        invariant
            i <= lines.len(),
            ls == views(lines@),
            h3@ == "### "@,
            subsection_scan(ls.take(i as int)) == (inside, result@),
        decreases lines.len() - i,
    {
        assert(ls.take(i + 1).drop_last() =~= ls.take(i as int));
        if starts_with(&trim(&lines[i]), &h3) {
            inside = true;
        }
        if inside {
            let ghost r0 = result@;
            push_all(&mut result, &lines[i]);
            result.push('\n');
            assert(result@ =~= r0 + ls[i as int] + seq!['\n']);
        }
        i = i + 1;
    }
    assert(ls.take(lines@.len() as int) =~= ls);
    if result.len() == 0 {
        None
    } else {
        Some(crate::text::trim_end(&result))
    }
}


// ---------------------------------------------------------------------------
// Script regions and element ids
// ---------------------------------------------------------------------------

/// The `<script ...>` tag of a line, as written (case kept), or `<script>`.
pub open spec fn script_tag_label(line: Seq<char>) -> Seq<char> {
    let t = trim_seq(line);
    match find_seq(lower_seq(t), "<script"@) {
        Some(st) => {
            let after = t.skip(st);
            match find_seq(after, ">"@) {
                Some(e) => after.take(e + 1),
                None => "<script>"@,
            }
        },
        None => "<script>"@,
    }
}

/// Extract a clean label from a `<script ...>` tag line, e.g. `<script type="module">`.
fn extract_script_tag_label(line: &Vec<char>) -> (r: String)
    ensures
        r@ == script_tag_label(line@),
{
    let t = trim(line);
    let low = to_lower(&t);
    let tag = chars_of("<script");
    if let Some(st) = find(&low, &tag) {
        let after = skip(&t, st);
        let gt = chars_of(">");
        proof {
            reveal_strlit(">");
        }
        if let Some(e) = find(&after, &gt) {
            assert(after@.subrange(0, e + 1) =~= after@.take(e + 1));
            return to_string(&slice(&after, 0, e + 1));
        }
    }
    String::from_str("<script>")
}

/// State of the region scan: `(inside, tag line, tag label, regions)`.
pub open spec fn full_region_step(
    st: (bool, nat, Seq<char>, Seq<ScriptRegionV>),
    idx: nat,
    line: Seq<char>,
) -> (bool, nat, Seq<char>, Seq<ScriptRegionV>) {
    let low = unicode_lower(line);
    let opened = !st.0 && includes(low, "<script"@) && !(includes(low, "src="@));
    let inside = st.0 || opened;
    let tag_line = if opened {
        idx
    } else {
        st.1
    };
    let label = if opened {
        script_tag_label(line)
    } else {
        st.2
    };
    if inside && includes(low, "</script>"@) {
        (
            false,
            tag_line,
            label,
            st.3.push(
                ScriptRegionV {
                    tag_line,
                    content_start: tag_line + 1,
                    content_end: if idx < tag_line + 1 {
                        tag_line + 1
                    } else {
                        idx
                    },
                    close_line: idx,
                    tag_label: label,
                },
            ),
        )
    } else {
        (inside, tag_line, label, st.3)
    }
}

pub open spec fn full_region_scan(lines: Seq<Seq<char>>) -> (bool, nat, Seq<char>, Seq<ScriptRegionV>)
    decreases lines.len(),
{
    if lines.len() == 0 {
        (false, 0, Seq::empty(), Seq::empty())
    } else {
        full_region_step(full_region_scan(lines.drop_last()), (lines.len() - 1) as nat, lines.last())
    }
}

/// The inline `<script>` regions of `lines`; a script left open runs to the end.
pub open spec fn script_regions_spec(lines: Seq<Seq<char>>) -> Seq<ScriptRegionV> {
    let st = full_region_scan(lines);
    if st.0 {
        st.3.push(
            ScriptRegionV {
                tag_line: st.1,
                content_start: st.1 + 1,
                content_end: lines.len(),
                close_line: (lines.len() - 1) as nat,
                tag_label: st.2,
            },
        )
    } else {
        st.3
    }
}

proof fn lemma_full_region_bounds(lines: Seq<Seq<char>>)
    ensures
        full_region_scan(lines).0 ==> full_region_scan(lines).1 < lines.len(),
        forall|k: int| 0 <= k < full_region_scan(lines).3.len() ==> {
            let g = #[trigger] full_region_scan(lines).3[k];
            g.content_end <= lines.len() && g.tag_line == g.content_start - 1 && g.content_start
                <= g.content_end
        },
    decreases lines.len(),
{
    if lines.len() > 0 {
        lemma_full_region_bounds(lines.drop_last());
    }
}

pub open spec fn regions_view(v: Seq<ScriptRegion>) -> Seq<ScriptRegionV> {
    v.map_values(|r: ScriptRegion| r@)
}

/// Find `<script>` regions with full tag info.
pub fn find_script_regions_full(lines: &Vec<Vec<char>>) -> (r: Vec<ScriptRegion>)
    ensures
        regions_view(r@) == script_regions_spec(views(lines@)),
{
    let ghost ls = views(lines@);
    let open_tag = chars_of("<script");
    let src_attr = chars_of("src=");
    let close_tag = chars_of("</script>");
    let mut regions: Vec<ScriptRegion> = Vec::new();
    let mut in_script = false;
    let mut tag_line: usize = 0;
    let mut tag_label: Vec<char> = Vec::new();
    let mut idx: usize = 0;
    assert(ls.take(0) =~= Seq::<Seq<char>>::empty());
    assert(tag_label@ =~= Seq::<char>::empty());
    assert(regions_view(regions@) =~= Seq::<ScriptRegionV>::empty());
    while idx < lines.len()
        invariant
            idx <= lines.len(),
            ls == views(lines@),
            open_tag@ == "<script"@,
            src_attr@ == "src="@,
            close_tag@ == "</script>"@,
            full_region_scan(ls.take(idx as int)) == (
                in_script,
                tag_line as nat,
                tag_label@,
                regions_view(regions@),
            ),
            in_script ==> tag_line < idx,
            tag_line <= idx,
        decreases lines.len() - idx,
    {
        assert(ls.take(idx + 1).drop_last() =~= ls.take(idx as int));
        let line = &lines[idx];
        let lower = crate::text::lowercase(line);
        if !in_script && contains(&lower, &open_tag) && !contains(&lower, &src_attr) {
            in_script = true;
            tag_line = idx;
            tag_label = chars_of(extract_script_tag_label(line).as_str());
        }
        if in_script && contains(&lower, &close_tag) {
            let ghost before = regions_view(regions@);
            let content_end = if idx < tag_line + 1 {
                tag_line + 1
            } else {
                idx
            };
            let region = ScriptRegion {
                tag_line,
                content_start: tag_line + 1,
                content_end,
                close_line: idx,
                tag_label: to_string(&tag_label),
            };
            regions.push(region);
            in_script = false;
            assert(regions_view(regions@) =~= before.push(
                ScriptRegionV {
                    tag_line: tag_line as nat,
                    content_start: (tag_line + 1) as nat,
                    content_end: content_end as nat,
                    close_line: idx as nat,
                    tag_label: tag_label@,
                },
            ));
        }
        idx = idx + 1;
    }
    assert(ls.take(lines@.len() as int) =~= ls);
    if in_script {
        let ghost before = regions_view(regions@);
        let n = lines.len();
        regions.push(
            ScriptRegion {
                tag_line,
                content_start: tag_line + 1,
                content_end: n,
                close_line: n - 1,
                tag_label: to_string(&tag_label),
            },
        );
        assert(regions_view(regions@) =~= before.push(
            ScriptRegionV {
                tag_line: tag_line as nat,
                content_start: (tag_line + 1) as nat,
                content_end: n as nat,
                close_line: (n - 1) as nat,
                tag_label: tag_label@,
            },
        ));
    }
    regions
}

pub open spec fn content_ranges(v: Seq<ScriptRegionV>) -> Seq<(nat, nat)> {
    v.map_values(|r: ScriptRegionV| (r.content_start, r.content_end))
}

/// Find `<script> ... </script>` regions, returning (start_line, end_line)
/// pairs (0-based, exclusive end).
pub fn find_script_regions(lines: &Vec<Vec<char>>) -> (r: Vec<(usize, usize)>)
    ensures
        crate::js_scope::pair_views(r@) == content_ranges(script_regions_spec(views(lines@))),
{
    let full = find_script_regions_full(lines);
    let ghost fv = regions_view(full@);
    let mut out: Vec<(usize, usize)> = Vec::new();
    let mut i: usize = 0;
    while i < full.len()
        invariant
            i <= full.len(),
            fv == regions_view(full@),
            crate::js_scope::pair_views(out@) == content_ranges(fv.take(i as int)),
        decreases full.len() - i,
    {
        let ghost before = crate::js_scope::pair_views(out@);
        out.push((full[i].content_start, full[i].content_end));
        assert(crate::js_scope::pair_views(out@) =~= before.push(
            (fv[i as int].content_start, fv[i as int].content_end),
        ));
        assert(fv.take(i + 1) =~= fv.take(i as int).push(fv[i as int]));
        i = i + 1;
        assert(crate::js_scope::pair_views(out@) =~= content_ranges(fv.take(i as int)));
    }
    assert(fv.take(full@.len() as int) =~= fv);
    out
}

/// Every script region's content range is in order.
pub open spec fn regions_in_order(lines: Seq<Seq<char>>) -> bool {
    forall|k: int|
        0 <= k < script_regions_spec(lines).len() ==> #[trigger] script_regions_spec(lines)[k].content_start
            <= script_regions_spec(lines)[k].content_end
}

/// A script region is a range of lines: its content starts at or before
/// its end (a `<script>` opened and closed on one line gives an empty one).
pub proof fn lemma_regions_in_order(lines: Seq<Seq<char>>)
    ensures
        regions_in_order(lines),
{
    lemma_full_region_bounds(lines);
    assert forall|k: int| 0 <= k < script_regions_spec(lines).len() implies #[trigger] script_regions_spec(lines)[k].content_start
        <= script_regions_spec(lines)[k].content_end by {
        let st = full_region_scan(lines);
        if k < st.3.len() {
            assert(script_regions_spec(lines)[k] == st.3[k]);
        }
    }
}

pub proof fn lemma_regions_within(lines: Seq<Seq<char>>)
    ensures
        forall|k: int|
            0 <= k < script_regions_spec(lines).len() ==> #[trigger] script_regions_spec(lines)[k].content_end
                <= lines.len(),
{
    lemma_full_region_bounds(lines);
    assert forall|k: int| 0 <= k < script_regions_spec(lines).len() implies #[trigger] script_regions_spec(lines)[k].content_end
        <= lines.len() by {
        let st = full_region_scan(lines);
        if k < st.3.len() {
            assert(script_regions_spec(lines)[k] == st.3[k]);
        }
    }
}

/// The value of the first `id="..."` attribute of a line (one that starts
/// the line or follows whitespace; ASCII case aside), if not empty.
pub open spec fn id_attr(line: Seq<char>) -> Option<Seq<char>> {
    match crate::html_structure::attr_from(lower_seq(line), "id=\""@, 0) {
        Some(p) => {
            let after = line.skip((p + 4) as int);
            match find_seq(after, "\""@) {
                Some(e) => if e > 0 {
                    Some(after.take(e))
                } else {
                    None
                },
                None => None,
            }
        },
        None => None,
    }
}

/// Extract the `id="..."` value from a line.
fn extract_id_attr(line: &Vec<char>) -> (r: Option<Vec<char>>)
    ensures
        r is None <==> id_attr(line@) is None,
        r matches Some(v) ==> id_attr(line@) == Some(v@),
{
    proof {
        reveal_strlit("id=\"");
        reveal_strlit("\"");
    }
    let low = to_lower(line);
    let pat = chars_of("id=\"");
    assert(pat@.len() == 4);
    if let Some(pos) = crate::html_structure::attr_find(&low, &pat) {
        proof {
            crate::html_structure::lemma_attr_from(low@, pat@, 0);
        }
        let after = skip_past(line, pos, 4);
        let q = chars_of("\"");
        if let Some(end) = find(&after, &q) {
            if end > 0 {
                assert(after@.subrange(0, end as int) =~= after@.take(end as int));
                return Some(slice(&after, 0, end));
            }
        }
    }
    None
}

/// Length of the tag name at the start of `s`: up to the first whitespace,
/// `>` or `/`.
pub open spec fn tag_name_len(s: Seq<char>) -> nat
    decreases s.len(),
{
    if s.len() == 0 || crate::text::is_ws(s[0]) || s[0] == '>' || s[0] == '/' {
        0
    } else {
        1 + tag_name_len(s.skip(1))
    }
}

/// The label of an element with id `id` on `line`, e.g. `<div id="app">`.
pub open spec fn element_label(line: Seq<char>, id: Seq<char>) -> Seq<char> {
    let low = unicode_lower(trim_seq(line));
    match find_seq(low, "<"@) {
        Some(st) => {
            let after = low.skip(st + 1);
            "<"@ + after.take(tag_name_len(after) as int) + " id=\""@ + id + "\">"@
        },
        None => "<div id=\""@ + id + "\">"@,
    }
}

/// Build a tag label like `<div id="app">` from a line.
fn extract_element_tag_label(line: &Vec<char>, id: &Vec<char>) -> (r: String)
    ensures
        r@ == element_label(line@, id@),
{
    let low = crate::text::lowercase(&trim(line));
    let lt = chars_of("<");
    proof {
        reveal_strlit("<");
    }
    match find(&low, &lt) {
        Some(st) => {
            let after = skip_past(&low, st, 1);
            let mut k: usize = 0;
            assert(after@.skip(0) =~= after@);
            while k < after.len() && !crate::text::is_whitespace(after[k]) && after[k] != '>'
                && after[k] != '/'
                invariant
                    k <= after.len(),
                    tag_name_len(after@) == k + tag_name_len(after@.skip(k as int)),
                decreases after.len() - k,
            {
                assert(after@.skip(k as int).skip(1) =~= after@.skip(k + 1));
                k = k + 1;
            }
            assert(after@.skip(k as int).len() == 0 || after@.skip(k as int)[0] == after@[k as int]);
            let mut r = chars_of("<");
            push_all(&mut r, &slice(&after, 0, k));
            assert(after@.subrange(0, k as int) =~= after@.take(k as int));
            push_str(&mut r, " id=\"");
            push_all(&mut r, id);
            push_str(&mut r, "\">");
            to_string(&r)
        },
        None => {
            let mut r = chars_of("<div id=\"");
            push_all(&mut r, id);
            push_str(&mut r, "\">");
            to_string(&r)
        },
    }
}

/// The id elements of `lines`: `(id, 0-based line, label)` for each line that
/// is no `<script` or `<style` line and has a non-empty `id="..."`.
pub open spec fn id_elements_spec(lines: Seq<Seq<char>>) -> Seq<(Seq<char>, nat, Seq<char>)>
    decreases lines.len(),
{
    if lines.len() == 0 {
        Seq::empty()
    } else {
        let p = id_elements_spec(lines.drop_last());
        let line = lines.last();
        let low = unicode_lower(line);
        if includes(low, "<script"@) || includes(low, "<style"@) {
            p
        } else {
            match id_attr(line) {
                Some(v) => p.push((v, (lines.len() - 1) as nat, element_label(line, v))),
                None => p,
            }
        }
    }
}

pub open spec fn id_element_views(v: Seq<(String, usize, String)>) -> Seq<(Seq<char>, nat, Seq<char>)> {
    v.map_values(|x: (String, usize, String)| (x.0@, x.1 as nat, x.2@))
}

/// Find HTML elements with id attributes: `(id value, 0-based tag line, tag label)`.
pub fn find_html_id_elements(lines: &Vec<Vec<char>>) -> (r: Vec<(String, usize, String)>)
    ensures
        id_element_views(r@) == id_elements_spec(views(lines@)),
{
    let ghost ls = views(lines@);
    let script = chars_of("<script");
    let style = chars_of("<style");
    let mut elements: Vec<(String, usize, String)> = Vec::new();
    let mut idx: usize = 0;
    assert(ls.take(0) =~= Seq::<Seq<char>>::empty());
    assert(id_element_views(elements@) =~= Seq::<(Seq<char>, nat, Seq<char>)>::empty());
    while idx < lines.len()
        invariant
            idx <= lines.len(),
            ls == views(lines@),
            script@ == "<script"@,
            style@ == "<style"@,
            id_element_views(elements@) == id_elements_spec(ls.take(idx as int)),
        decreases lines.len() - idx,
    {
        assert(ls.take(idx + 1).drop_last() =~= ls.take(idx as int));
        let line = &lines[idx];
        let lower = crate::text::lowercase(line);
        if !contains(&lower, &script) && !contains(&lower, &style) {
            if let Some(v) = extract_id_attr(line) {
                let label = extract_element_tag_label(line, &v);
                let ghost before = id_element_views(elements@);
                let ghost item = (v@, idx as nat, label@);
                elements.push((to_string(&v), idx, label));
                assert(id_element_views(elements@) =~= before.push(item));
            }
        }
        idx = idx + 1;
    }
    assert(ls.take(lines@.len() as int) =~= ls);
    elements
}

/// The trimmed text between the first `<title>` and the next `</title>`
/// (case-insensitive), if not empty.
pub open spec fn title_text(content: Seq<char>) -> Option<Seq<char>> {
    match find_seq(lower_seq(content), "<title>"@) {
        Some(st) => {
            let after = content.skip(st + 7);
            match find_seq(lower_seq(after), "</title>"@) {
                Some(e) => {
                    let t = trim_seq(after.take(e));
                    if t.len() > 0 {
                        Some(t)
                    } else {
                        None
                    }
                },
                None => None,
            }
        },
        None => None,
    }
}

/// The text of the page's `<title>` element.
pub(crate) fn extract_title_text(content: &Vec<char>) -> (r: Option<Vec<char>>)
    ensures
        r is None <==> title_text(content@) is None,
        r matches Some(t) ==> title_text(content@) == Some(t@),
{
    proof {
        reveal_strlit("<title>");
    }
    let open_tag = chars_of("<title>");
    assert(open_tag@.len() == 7);
    let close_tag = chars_of("</title>");
    let low = to_lower(content);
    if let Some(st) = find(&low, &open_tag) {
        let after = skip_past(content, st, 7);
        if let Some(e) = find(&to_lower(&after), &close_tag) {
            assert(lower_seq(after@).len() == after@.len());
            let t = trim(&slice(&after, 0, e));
            assert(after@.subrange(0, e as int) =~= after@.take(e as int));
            if t.len() > 0 {
                return Some(t);
            }
        }
    }
    None
}


// ---------------------------------------------------------------------------
// Section 5
// ---------------------------------------------------------------------------

/// A declaration name without its keyword: `function initApp` gives `initApp`.
pub open spec fn strip_keyword(name: Seq<char>) -> Seq<char> {
    if starts(name, "function "@) {
        name.skip(9)
    } else if starts(name, "class "@) {
        name.skip(6)
    } else if starts(name, "const "@) {
        name.skip(6)
    } else if starts(name, "let "@) {
        name.skip(4)
    } else if starts(name, "var "@) {
        name.skip(4)
    } else {
        name
    }
}

/// The purpose of the first entry named `name`.
pub open spec fn anchor_named(old: Seq<(Seq<char>, Seq<char>)>, name: Seq<char>) -> Option<Seq<char>>
    decreases old.len(),
{
    if old.len() == 0 {
        None
    } else if old[0].0 == name {
        Some(old[0].1)
    } else {
        anchor_named(old.skip(1), name)
    }
}

/// One line of section 5.
pub open spec fn entry_line(label: Seq<char>, purpose: Seq<char>) -> Seq<char> {
    if purpose.len() == 0 {
        "- `"@ + label + "`\n"@
    } else {
        "- `"@ + label + "` \u{2014} "@ + purpose + "\n"@
    }
}

/// The names declared at the top level of a script region, keywords stripped.
pub open spec fn region_names(lines: Seq<Seq<char>>, r: ScriptRegionV) -> Seq<Seq<char>> {
    crate::js_scope::js_decls_spec(lines.subrange(r.content_start as int, r.content_end as int)).map_values(
        |d: crate::js_scope::JsDeclV| strip_keyword(d.name),
    )
}

/// The line of section 5 for a script region.
pub open spec fn script_entry(
    lines: Seq<Seq<char>>,
    preserve: bool,
    old: Seq<(Seq<char>, Seq<char>)>,
    r: ScriptRegionV,
) -> Seq<char> {
    let joined = join_seq(region_names(lines, r), ", "@);
    let purpose = if preserve {
        match anchor_named(old, r.tag_label) {
            Some(p) => if p.len() > 0 {
                p
            } else {
                joined
            },
            None => joined,
        }
    } else {
        joined
    };
    entry_line(r.tag_label, purpose)
}

/// The line of section 5 for an element with an id.
pub open spec fn id_entry(
    preserve: bool,
    old: Seq<(Seq<char>, Seq<char>)>,
    e: (Seq<char>, nat, Seq<char>),
) -> Seq<char> {
    let purpose = if preserve {
        match anchor_named(old, e.2) {
            Some(p) => p,
            None => Seq::empty(),
        }
    } else {
        Seq::empty()
    };
    entry_line(e.2, purpose)
}

/// Section 5 built from the code: a line per script region, then a line per
/// element with an id.
pub open spec fn section5_spec(
    lines: Seq<Seq<char>>,
    preserve: bool,
    old: Seq<(Seq<char>, Seq<char>)>,
) -> Seq<char> {
    crate::text::concat_seq(
        script_regions_spec(lines).map_values(|r: ScriptRegionV| script_entry(lines, preserve, old, r)),
    ) + crate::text::concat_seq(
        id_elements_spec(lines).map_values(|e: (Seq<char>, nat, Seq<char>)| id_entry(preserve, old, e)),
    )
}

fn anchor_named_exec(old: &Vec<AnchorEntry>, name: &Vec<char>) -> (r: Option<Vec<char>>)
    ensures
        r is None <==> anchor_named(anchor_views(old@), name@) is None,
        r matches Some(p) ==> anchor_named(anchor_views(old@), name@) == Some(p@),
{
    let ghost ov = anchor_views(old@);
    let mut i: usize = 0;
    assert(ov.skip(0) =~= ov);
    while i < old.len()
        invariant
            i <= old.len(),
            ov == anchor_views(old@),
            anchor_named(ov, name@) == anchor_named(ov.skip(i as int), name@),
        decreases old.len() - i,
    {
        assert(ov.skip(i as int)[0] == ov[i as int]);
        assert(ov.skip(i as int).skip(1) =~= ov.skip(i + 1));
        let n = chars_of(old[i].name.as_str());
        if crate::differ::vec_eq(&n, name) {
            return Some(chars_of(old[i].purpose.as_str()));
        }
        i = i + 1;
    }
    assert(ov.skip(i as int) =~= Seq::<(Seq<char>, Seq<char>)>::empty());
    None
}

fn strip_keyword_exec(name: &Vec<char>) -> (r: Vec<char>)
    ensures
        r@ == strip_keyword(name@),
{
    proof {
        reveal_strlit("function ");
        reveal_strlit("class ");
        reveal_strlit("const ");
        reveal_strlit("let ");
        reveal_strlit("var ");
    }
    if starts_with(name, &chars_of("function ")) {
        skip(name, 9)
    } else if starts_with(name, &chars_of("class ")) {
        skip(name, 6)
    } else if starts_with(name, &chars_of("const ")) {
        skip(name, 6)
    } else if starts_with(name, &chars_of("let ")) {
        skip(name, 4)
    } else if starts_with(name, &chars_of("var ")) {
        skip(name, 4)
    } else {
        crate::text::copy(name)
    }
}

fn entry_line_exec(out: &mut Vec<char>, label: &Vec<char>, purpose: &Vec<char>)
    ensures
        final(out)@ == old(out)@ + entry_line(label@, purpose@),
{
    let ghost o = out@;
    push_str(out, "- `");
    push_all(out, label);
    if purpose.len() == 0 {
        push_str(out, "`\n");
        assert(out@ =~= o + entry_line(label@, purpose@));
    } else {
        push_str(out, "` \u{2014} ");
        push_all(out, purpose);
        push_str(out, "\n");
        assert(out@ =~= o + entry_line(label@, purpose@));
    }
}

/// The lines `a..b` of `lines`.
pub fn line_range(lines: &Vec<Vec<char>>, a: usize, b: usize) -> (r: Vec<Vec<char>>)
    requires
        a <= b <= lines.len(),
    ensures
        views(r@) == views(lines@).subrange(a as int, b as int),
{
    let mut out: Vec<Vec<char>> = Vec::new();
    let mut k: usize = a;
    while k < b
        invariant
            a <= k <= b <= lines.len(),
            views(out@) == views(lines@).subrange(a as int, k as int),
        decreases b - k,
    {
        let ghost before = views(out@);
        out.push(crate::text::copy(&lines[k]));
        assert(views(out@) =~= before.push(lines@[k as int]@));
        assert(views(lines@).subrange(a as int, k + 1) =~= views(lines@).subrange(a as int, k as int).push(
            lines@[k as int]@,
        ));
        k = k + 1;
    }
    out
}

/// Build section 5 with block-level anchors: `<script>` blocks described by
/// their top-level declarations, and HTML elements with an `id` attribute.
fn build_section5_content(
    lines: &Vec<Vec<char>>,
    preserve_descriptions: bool,
    old_anchors: &Vec<AnchorEntry>,
) -> (r: Vec<char>)
    ensures
        r@ == section5_spec(views(lines@), preserve_descriptions, anchor_views(old_anchors@)),
{
    proof {
        crate::header::lemma_regions_in_order(views(lines@));
    }
    let ghost ls = views(lines@);
    let ghost old = anchor_views(old_anchors@);
    let regions = find_script_regions_full(lines);
    let ghost rv = regions_view(regions@);
    let ghost entries = rv.map_values(|r: ScriptRegionV| script_entry(ls, preserve_descriptions, old, r));
    proof {
        lemma_regions_within(ls);
    }
    let sep = chars_of(", ");
    let mut section5: Vec<char> = Vec::new();
    let mut i: usize = 0;
    assert(entries.take(0) =~= Seq::<Seq<char>>::empty());
    assert(section5@ =~= Seq::<char>::empty());
    while i < regions.len()
        invariant
            i <= regions.len(),
            ls == views(lines@),
            old == anchor_views(old_anchors@),
            rv == regions_view(regions@),
            rv == script_regions_spec(ls),
            regions_in_order(ls),
            forall|k: int| 0 <= k < rv.len() ==> #[trigger] rv[k].content_end <= ls.len(),
            entries == rv.map_values(|r: ScriptRegionV| script_entry(ls, preserve_descriptions, old, r)),
            sep@ == ", "@,
            section5@ == crate::text::concat_seq(entries.take(i as int)),
        decreases regions.len() - i,
    {
        let region = &regions[i];
        assert(rv[i as int] == region@);
        assert(script_regions_spec(ls)[i as int].content_start <= script_regions_spec(
            ls,
        )[i as int].content_end);
        assert(rv[i as int].content_end <= ls.len());
        let region_lines = line_range(lines, region.content_start, region.content_end);
        let decls = crate::js_scope::extract_js_declarations(&region_lines);
        let ghost dn = region_names(ls, region@);
        let ghost jd = crate::js_scope::js_decls_spec(views(region_lines@));
        assert(dn =~= jd.map_values(|d: crate::js_scope::JsDeclV| strip_keyword(d.name)));
        assert(jd.len() == crate::js_scope::triple_views(decls@).len());
        let mut names: Vec<Vec<char>> = Vec::new();
        let mut j: usize = 0;
        while j < decls.len()
            invariant
                j <= decls.len(),
                crate::js_scope::triple_views(decls@) == crate::js_scope::js_decls_spec(views(region_lines@)).map_values(
                    |d: crate::js_scope::JsDeclV| (d.name, d.decl_type, d.start_line),
                ),
                views(region_lines@) == ls.subrange(region@.content_start as int, region@.content_end as int),
                dn == region_names(ls, region@),
                jd == crate::js_scope::js_decls_spec(views(region_lines@)),
                dn == jd.map_values(|d: crate::js_scope::JsDeclV| strip_keyword(d.name)),
                jd.len() == decls@.len(),
                views(names@) == dn.take(j as int),
            decreases decls.len() - j,
        {
            let ghost before = views(names@);
            assert(crate::js_scope::triple_views(decls@)[j as int].0 == decls@[j as int].0@);
            assert(crate::js_scope::triple_views(decls@)[j as int].0 == jd[j as int].name);
            let nm = strip_keyword_exec(&chars_of(decls[j].0.as_str()));
            names.push(nm);
            assert(views(names@) =~= before.push(dn[j as int]));
            assert(dn.take(j + 1) =~= dn.take(j as int).push(dn[j as int]));
            j = j + 1;
        }
        assert(dn.take(j as int) =~= dn);
        let joined = join(&names, &sep);
        let label = chars_of(region.tag_label.as_str());
        let purpose = if preserve_descriptions {
            match anchor_named_exec(old_anchors, &label) {
                Some(p) => if p.len() > 0 {
                    p
                } else {
                    joined
                },
                None => joined,
            }
        } else {
            joined
        };
        let ghost s0 = section5@;
        entry_line_exec(&mut section5, &label, &purpose);
        assert(entries[i as int] == script_entry(ls, preserve_descriptions, old, rv[i as int]));
        assert(entries.take(i + 1).drop_last() =~= entries.take(i as int));
        i = i + 1;
    }
    assert(entries.take(rv.len() as int) =~= entries);
    let ghost first = section5@;
    let ids = find_html_id_elements(lines);
    let ghost iv = id_element_views(ids@);
    let ghost id_entries = iv.map_values(
        |e: (Seq<char>, nat, Seq<char>)| id_entry(preserve_descriptions, old, e),
    );
    let mut k: usize = 0;
    assert(id_entries.take(0) =~= Seq::<Seq<char>>::empty());
    assert(section5@ =~= first + crate::text::concat_seq(id_entries.take(0)));
    while k < ids.len()
        invariant
            k <= ids.len(),
            old == anchor_views(old_anchors@),
            iv == id_element_views(ids@),
            id_entries == iv.map_values(
                |e: (Seq<char>, nat, Seq<char>)| id_entry(preserve_descriptions, old, e),
            ),
            section5@ == first + crate::text::concat_seq(id_entries.take(k as int)),
        decreases ids.len() - k,
    {
        let label = chars_of(ids[k].2.as_str());
        assert(iv[k as int].2 == label@);
        let purpose = if preserve_descriptions {
            match anchor_named_exec(old_anchors, &label) {
                Some(p) => p,
                None => Vec::new(),
            }
        } else {
            Vec::new()
        };
        assert(purpose@ == (if preserve_descriptions {
            match anchor_named(old, label@) {
                Some(p) => p,
                None => Seq::<char>::empty(),
            }
        } else {
            Seq::<char>::empty()
        }));
        entry_line_exec(&mut section5, &label, &purpose);
        assert(id_entries.take(k + 1).drop_last() =~= id_entries.take(k as int));
        k = k + 1;
    }
    assert(id_entries.take(iv.len() as int) =~= id_entries);
    section5
}


// ---------------------------------------------------------------------------
// Rebuilding and generating the header
// ---------------------------------------------------------------------------

/// Markdown of the sections numbered below 5, as the rebuilt header has them.
pub open spec fn kept_sections_md(secs: Seq<SectionV>) -> Seq<char>
    decreases secs.len(),
{
    if secs.len() == 0 {
        Seq::empty()
    } else {
        let p = kept_sections_md(secs.drop_last());
        let x = secs.last();
        if x.number >= 5 {
            p
        } else {
            p + "## "@ + crate::text::dec(x.number) + ". "@ + x.title + "\n"@ + (if x.content.len() > 0 {
                x.content + "\n"@
            } else {
                Seq::empty()
            }) + "\n"@
        }
    }
}

/// The markdown of a rebuilt header: title, sections 1-4, the new section 5
/// and the old section 5's subsections.
pub open spec fn rebuilt_markdown(h: HeaderInfoV, section5: Seq<char>) -> Seq<char> {
    (match h.title_line {
        Some(t) => t + "\n\n"@,
        None => Seq::empty(),
    }) + kept_sections_md(h.sections) + "## 5. Key Internal Modules\n\n"@ + section5 + (match section_numbered(
        h.sections,
        5,
    ) {
        Some(s5) => match subsections_spec(s5.content) {
            Some(sub) => "\n"@ + sub + "\n"@,
            None => Seq::empty(),
        },
        None => Seq::empty(),
    }) + "\n"@
}

/// The entries of the old section 5, if there is one.
pub open spec fn old_entries(h: HeaderInfoV) -> Seq<(Seq<char>, Seq<char>)> {
    match section_numbered(h.sections, 5) {
        Some(s5) => anchors_of(lines_seq(s5.content)).0,
        None => Seq::empty(),
    }
}

/// The page's lines with those from `first` to `last` (inclusive) blanked.
pub open spec fn outside_lines(lines: Seq<Seq<char>>, first: int, last: int) -> Seq<Seq<char>> {
    Seq::new(lines.len(), |i: int| if first <= i <= last { Seq::<char>::empty() } else { lines[i] })
}

/// The page's code: its lines with the header's own lines (markers included)
/// blanked, so that the header's text is never read as the page's blocks.
pub open spec fn code_lines_of(lines: Seq<Seq<char>>, h: HeaderInfoV) -> Seq<Seq<char>> {
    outside_lines(lines, h.start_line - 1, h.end_line - 1)
}

/// The lines with the header's, from 1-based line `start_line` to
/// `end_line` (inclusive), left empty.
pub fn blank_lines(lines: &Vec<Vec<char>>, start_line: usize, end_line: usize) -> (r: Vec<Vec<char>>)
    ensures
        views(r@) == outside_lines(views(lines@), start_line - 1, end_line - 1),
{
    let ghost ls = views(lines@);
    let ghost target = outside_lines(ls, start_line - 1, end_line - 1);
    let mut out: Vec<Vec<char>> = Vec::new();
    let mut i: usize = 0;
    while i < lines.len()
        invariant
            i <= lines.len(),
            ls == views(lines@),
            target == outside_lines(ls, start_line - 1, end_line - 1),
            views(out@) =~= target.take(i as int),
        decreases lines.len() - i,
    {
        let l = if start_line <= i + 1 && i + 1 <= end_line {
            Vec::new()
        } else {
            crate::text::copy(&lines[i])
        };
        push_line(&mut out, l);
        i = i + 1;
    }
    assert(target.take(i as int) =~= target);
    out
}

/// The text with its header replaced: every line before the start marker and
/// after the end marker is kept as it was.
pub open spec fn rebuild_spec(content: Seq<char>, preserve: bool) -> Result<Seq<char>, HeaderError> {
    match extract_header_spec(content) {
        Err(e) => Err(e),
        Ok(h) => {
            let lines = lines_seq(content);
            let md = rebuilt_markdown(h, section5_spec(code_lines_of(lines, h), preserve, old_entries(h)));
            Ok(
                join_seq(
                    lines.take(h.start_line - 1) + seq![start_marker()] + lines_seq(md) + seq![
                        "    "@ + end_marker(),
                    ] + lines.skip(h.end_line as int),
                    seq!['\n'],
                ),
            )
        },
    }
}

fn push_line(out: &mut Vec<Vec<char>>, l: Vec<char>)
    ensures
        views(final(out)@) == views(old(out)@).push(l@),
{
    let ghost before = views(out@);
    out.push(l);
    assert(views(out@) =~= before.push(l@));
}

/// The markdown of the rebuilt header (see [`rebuilt_markdown`]).
fn rebuilt_markdown_exec(header: &HeaderInfo, section5: &Vec<char>) -> (r: Vec<char>)
    ensures
        r@ == rebuilt_markdown(header@, section5@),
{
    let ghost h = header@;
    let mut md: Vec<char> = Vec::new();
    match &header.title_line {
        Some(t) => {
            push_str(&mut md, t.as_str());
            push_str(&mut md, "\n\n");
        },
        None => {},
    }
    let ghost md0 = md@;
    let ghost sv = sections_view(header.sections@);
    let mut i: usize = 0;
    assert(sv.take(0) =~= Seq::<SectionV>::empty());
    assert(md@ =~= md0 + kept_sections_md(sv.take(0)));
    while i < header.sections.len()
        invariant
            i <= header.sections.len(),
            sv == sections_view(header.sections@),
            md@ == md0 + kept_sections_md(sv.take(i as int)),
        decreases header.sections.len() - i,
    {
        let sec = &header.sections[i];
        assert(sv[i as int] == sec@);
        assert(sv.take(i + 1).drop_last() =~= sv.take(i as int));
        if sec.number < 5 {
            let ghost m1 = md@;
            push_str(&mut md, "## ");
            push_all(&mut md, &crate::text::decimal(sec.number));
            push_str(&mut md, ". ");
            push_str(&mut md, sec.title.as_str());
            push_str(&mut md, "\n");
            let c = chars_of(sec.content.as_str());
            if c.len() > 0 {
                push_all(&mut md, &c);
                push_str(&mut md, "\n");
            }
            push_str(&mut md, "\n");
            assert(md@ =~= m1 + "## "@ + crate::text::dec(sec.number as nat) + ". "@ + sec.title@ + "\n"@
                + (if c@.len() > 0 {
                c@ + "\n"@
            } else {
                Seq::<char>::empty()
            }) + "\n"@);
        }
        i = i + 1;
    }
    assert(sv.take(sv.len() as int) =~= sv);
    push_str(&mut md, "## 5. Key Internal Modules\n\n");
    push_all(&mut md, section5);
    match position_of_section(&header.sections, 5) {
        Some(i) => {
            let c = chars_of(header.sections[i].content.as_str());
            match extract_subsections(&c) {
                Some(subs) => {
                    push_str(&mut md, "\n");
                    push_all(&mut md, &subs);
                    push_str(&mut md, "\n");
                },
                None => {},
            }
        },
        None => {},
    }
    push_str(&mut md, "\n");
    assert(md@ =~= rebuilt_markdown(h, section5@));
    md
}

/// `lines` with lines `sm..=em` replaced by the start marker, `md_lines` and
/// the end marker.
fn splice_header(lines: &Vec<Vec<char>>, sm: usize, em: usize, md_lines: &Vec<Vec<char>>) -> (r: Vec<Vec<char>>)
    requires
        sm < em < lines.len(),
    ensures
        views(r@) == views(lines@).take(sm as int) + seq![start_marker()] + views(md_lines@) + seq![
            "    "@ + end_marker(),
        ] + views(lines@).skip(em + 1),
{
    let ghost ls = views(lines@);
    let mut out: Vec<Vec<char>> = Vec::new();
    let mut k: usize = 0;
    while k < sm
        invariant
            k <= sm < em < lines.len(),
            ls == views(lines@),
            views(out@) == ls.take(k as int),
        decreases sm - k,
    {
        push_line(&mut out, crate::text::copy(&lines[k]));
        assert(ls.take(k + 1) =~= ls.take(k as int).push(ls[k as int]));
        k = k + 1;
    }
    push_line(&mut out, chars_of("<!-- AI-SKILL-HEADER START"));
    let ghost o1 = views(out@);
    let mut j: usize = 0;
    while j < md_lines.len()
        invariant
            j <= md_lines.len(),
            views(out@) == o1 + views(md_lines@).take(j as int),
        decreases md_lines.len() - j,
    {
        push_line(&mut out, crate::text::copy(&md_lines[j]));
        assert(views(md_lines@).take(j + 1) =~= views(md_lines@).take(j as int).push(md_lines@[j as int]@));
        j = j + 1;
    }
    assert(views(md_lines@).take(md_lines@.len() as int) =~= views(md_lines@));
    let mut end_line = chars_of("    ");
    push_str(&mut end_line, "AI-SKILL-HEADER END -->");
    push_line(&mut out, end_line);
    let ghost o2 = views(out@);
    let mut k: usize = em + 1;
    while k < lines.len()
        invariant
            em + 1 <= k <= lines.len(),
            ls == views(lines@),
            views(out@) == o2 + ls.subrange(em + 1, k as int),
        decreases lines.len() - k,
    {
        push_line(&mut out, crate::text::copy(&lines[k]));
        assert(ls.subrange(em + 1, k + 1) =~= ls.subrange(em + 1, k as int).push(ls[k as int]));
        k = k + 1;
    }
    assert(ls.subrange(em + 1, ls.len() as int) =~= ls.skip(em + 1));
    assert(views(out@) =~= ls.take(sm as int) + seq![start_marker()] + views(md_lines@) + seq![
        "    "@ + end_marker(),
    ] + ls.skip(em + 1));
    out
}

/// Rebuild section 5 of the header from the code blocks of the file.
pub fn rebuild_header(content: &str, preserve_descriptions: bool) -> (r: Result<String, HeaderError>)
    requires
        header_spans_lines(lines_seq(content@)),
    ensures
        match r {
            Ok(t) => rebuild_spec(content@, preserve_descriptions) == Ok::<Seq<char>, HeaderError>(t@),
            Err(e) => rebuild_spec(content@, preserve_descriptions) == Err::<Seq<char>, HeaderError>(e),
        },
{
    let header = extract_header(content)?;
    let ghost h = header@;
    let lines = str_lines(content);
    let ghost ls = views(lines@);
    proof {
        lemma_header_scan_bounds(ls);
    }
    assert(1 <= h.start_line < h.end_line <= ls.len());
    let old_anchors = match position_of_section(&header.sections, 5) {
        Some(i) => parse_anchor_list(header.sections[i].content.as_str()),
        None => Vec::new(),
    };
    assert(anchor_views(old_anchors@) =~= old_entries(h));
    let code = blank_lines(&lines, header.start_line, header.end_line);
    let section5 = build_section5_content(&code, preserve_descriptions, &old_anchors);
    let md = rebuilt_markdown_exec(&header, &section5);
    let md_lines = lines_of(&md);
    let out = splice_header(&lines, header.start_line - 1, header.end_line - 1, &md_lines);
    let mut nl: Vec<char> = Vec::new();
    nl.push('\n');
    assert(nl@ =~= seq!['\n']);
    Ok(to_string(&join(&out, &nl)))
}

/// The header block that `init` adds, for an app name and a section 5.
pub open spec fn init_block(app: Seq<char>, section5: Seq<char>) -> Seq<char> {
    "<!-- AI-SKILL-HEADER START\n# "@ + app
        + " \u{2014} (feature summary)\n\n## 1. Overview\n(App description, deployment method)\n\n## 2. Public JavaScript API\n(Functions exposed on window, parameters, return values, side effects)\n\n## 3. Automation Example\n(Puppeteer / Playwright examples)\n\n## 4. Conventions\n(Units, angle formats, state management rules)\n\n## 5. Key Internal Modules\n\n"@
        + section5 + "\n    AI-SKILL-HEADER END -->"@
}

/// Index of the first line holding `<head` (any case).
pub open spec fn head_line(lines: Seq<Seq<char>>) -> Option<nat>
    decreases lines.len(),
{
    if lines.len() == 0 {
        None
    } else if includes(unicode_lower(lines[0]), "<head"@) {
        Some(0)
    } else {
        match head_line(lines.skip(1)) {
            Some(k) => Some(k + 1),
            None => None,
        }
    }
}

/// Each line followed by a newline.
pub open spec fn with_newlines(lines: Seq<Seq<char>>) -> Seq<char>
    decreases lines.len(),
{
    if lines.len() == 0 {
        Seq::empty()
    } else {
        with_newlines(lines.drop_last()) + lines.last() + seq!['\n']
    }
}

/// The text with a generated header after its `<head` line, or in front of it.
pub open spec fn init_spec(content: Seq<char>) -> Seq<char> {
    let lines = lines_seq(content);
    let app = match title_text(content) {
        Some(t) => t,
        None => "MyApp"@,
    };
    let block = init_block(app, section5_spec(lines, false, Seq::empty()));
    match head_line(lines) {
        Some(k) => with_newlines(lines.take(k + 1 as int)) + block + seq!['\n'] + with_newlines(
            lines.skip(k + 1 as int),
        ),
        None => block + seq!['\n'] + content,
    }
}

/// A text without newlines is one piece.
proof fn lemma_split_single(s: Seq<char>)
    requires
        forall|i: int| 0 <= i < s.len() ==> s[i] != '\n',
    ensures
        crate::text::split_nl(s) == seq![s],
    decreases s.len(),
{
    if s.len() == 0 {
        assert(s =~= Seq::<char>::empty());
    } else {
        lemma_split_single(s.drop_last());
        assert(s[s.len() - 1] != '\n');
        assert(s.drop_last().push(s.last()) =~= s);
        assert(seq![s.drop_last()].update(0, s.drop_last().push(s.last())) =~= seq![s]);
    }
}

/// Splitting at a newline splits the pieces.
proof fn lemma_split_concat(a: Seq<char>, b: Seq<char>)
    ensures
        crate::text::split_nl(a + seq!['\n'] + b) == crate::text::split_nl(a) + crate::text::split_nl(b),
        crate::text::split_nl(b).len() >= 1,
    decreases b.len(),
{
    let x = a + seq!['\n'];
    if b.len() == 0 {
        assert(x + b =~= x);
        assert(x.drop_last() =~= a);
        assert(crate::text::split_nl(a).push(Seq::<char>::empty()) =~= crate::text::split_nl(a) + seq![
            Seq::<char>::empty(),
        ]);
    } else {
        lemma_split_concat(a, b.drop_last());
        assert((a + seq!['\n'] + b).drop_last() =~= a + seq!['\n'] + b.drop_last());
        assert((a + seq!['\n'] + b).last() == b.last());
        let pa = crate::text::split_nl(a);
        let pb = crate::text::split_nl(b.drop_last());
        if b.last() == '\n' {
            assert((pa + pb).push(Seq::<char>::empty()) =~= pa + pb.push(Seq::<char>::empty()));
        } else {
            assert((pa + pb).update((pa + pb).len() - 1, (pa + pb).last().push(b.last())) =~= pa + pb.update(
                pb.len() - 1,
                pb.last().push(b.last()),
            ));
        }
    }
}

/// Once a start marker has been met, the scan has found the header's start
/// or already its end.
proof fn lemma_scan_found(lines: Seq<Seq<char>>, i: int)
    requires
        0 <= i < lines.len(),
        starts(trim_seq(lines[i]), start_marker()),
    ensures
        header_scan(lines).0 || header_scan(lines).2 != 0,
    decreases lines.len(),
{
    if i < lines.len() - 1 {
        lemma_scan_found(lines.drop_last(), i);
    }
}

/// A start marker followed by an end marker is a header.
proof fn lemma_scan_finds(lines: Seq<Seq<char>>, i: int, j: int)
    requires
        0 <= i < j < lines.len(),
        starts(trim_seq(lines[i]), start_marker()),
        includes(trim_seq(lines[j]), end_marker()),
    ensures
        header_scan(lines).2 != 0,
    decreases lines.len(),
{
    if j < lines.len() - 1 {
        lemma_scan_finds(lines.drop_last(), i, j);
    } else {
        lemma_scan_found(lines.drop_last(), i);
    }
}

/// The middle of the block `init` writes: its title line to its section 5.
spec fn init_middle(app: Seq<char>, section5: Seq<char>) -> Seq<char> {
    "# "@ + app
        + " \u{2014} (feature summary)\n\n## 1. Overview\n(App description, deployment method)\n\n## 2. Public JavaScript API\n(Functions exposed on window, parameters, return values, side effects)\n\n## 3. Automation Example\n(Puppeteer / Playwright examples)\n\n## 4. Conventions\n(Units, angle formats, state management rules)\n\n## 5. Key Internal Modules\n\n"@
        + section5
}

spec fn init_end_line() -> Seq<char> {
    "    AI-SKILL-HEADER END -->"@
}

/// The marker lines of the block `init` writes.
proof fn lemma_init_marker_lines()
    ensures
        starts(trim_seq(start_marker()), start_marker()),
        includes(trim_seq(init_end_line()), end_marker()),
        crate::text::split_nl(start_marker()) == seq![start_marker()],
        crate::text::split_nl(init_end_line()) == seq![init_end_line()],
        crate::text::strip_cr(start_marker()) == start_marker(),
        crate::text::strip_cr(init_end_line()) == init_end_line(),
{
    let sm = start_marker();
    let em = init_end_line();
    reveal_strlit("<!-- AI-SKILL-HEADER START");
    reveal_strlit("    AI-SKILL-HEADER END -->");
    reveal_strlit("AI-SKILL-HEADER END -->");
    lemma_split_single(sm);
    lemma_split_single(em);
    assert(trim_seq(sm) == sm) by {
        assert(!crate::text::is_ws(sm[0]));
        assert(!crate::text::is_ws(sm.last()));
    }
    assert(trim_seq(em) =~= em.skip(4)) by {
        crate::text::lemma_trim_start_skip(em, 4);
        assert(!crate::text::is_ws(em.skip(4)[0]));
        assert(!crate::text::is_ws(em.skip(4).last()));
    }
    assert(sm.take(sm.len() as int) =~= sm);
    assert(em.skip(4).subrange(0, end_marker().len() as int) =~= end_marker());
    assert(crate::text::occurs_at(em.skip(4), end_marker(), 0));
}

/// The pieces of the block `init` writes, followed by a newline and `rest`.
proof fn lemma_init_block_pieces(app: Seq<char>, section5: Seq<char>, rest: Seq<char>)
    ensures
        crate::text::split_nl(init_block(app, section5) + seq!['\n'] + rest) == seq![start_marker()]
            + crate::text::split_nl(init_middle(app, section5)) + seq![init_end_line()] + crate::text::split_nl(rest),
{
    let sm = start_marker();
    let em = init_end_line();
    let mid = init_middle(app, section5);
    reveal_strlit("<!-- AI-SKILL-HEADER START");
    reveal_strlit("<!-- AI-SKILL-HEADER START\n# ");
    reveal_strlit("# ");
    reveal_strlit("\n    AI-SKILL-HEADER END -->");
    reveal_strlit("    AI-SKILL-HEADER END -->");
    assert(init_block(app, section5) =~= sm + seq!['\n'] + mid + seq!['\n'] + em);
    assert(init_block(app, section5) + seq!['\n'] + rest =~= sm + seq!['\n'] + (mid + seq!['\n'] + (em + seq!['\n']
        + rest)));
    lemma_split_concat(sm, mid + seq!['\n'] + (em + seq!['\n'] + rest));
    lemma_split_concat(mid, em + seq!['\n'] + rest);
    lemma_split_concat(em, rest);
    lemma_init_marker_lines();
    assert(seq![sm] + (crate::text::split_nl(mid) + (seq![em] + crate::text::split_nl(rest))) =~= seq![sm]
        + crate::text::split_nl(mid) + seq![em] + crate::text::split_nl(rest));
}

/// `init` always writes a header that the tool finds: its start marker line
/// comes before its end marker line.
pub proof fn lemma_init_has_header(content: Seq<char>)
    ensures
        header_span(lines_seq(init_spec(content))) is Some,
{
    let lines = lines_seq(content);
    let app = match title_text(content) {
        Some(t) => t,
        None => "MyApp"@,
    };
    let s5 = section5_spec(lines, false, Seq::empty());
    let block = init_block(app, s5);
    let t = init_spec(content);
    let rest = match head_line(lines) {
        Some(k) => with_newlines(lines.skip(k + 1 as int)),
        None => content,
    };
    lemma_init_block_pieces(app, s5, rest);
    lemma_split_concat(init_end_line(), rest);
    let tail = block + seq!['\n'] + rest;
    let body = seq![start_marker()] + crate::text::split_nl(init_middle(app, s5)) + seq![init_end_line()]
        + crate::text::split_nl(rest);
    let front: Seq<Seq<char>> = match head_line(lines) {
        Some(k) => {
            lemma_head_line_bound(lines);
            let tk = lines.take(k + 1 as int);
            let w = with_newlines(tk.drop_last()) + tk.last();
            assert(with_newlines(tk) == w + seq!['\n']);
            assert(t =~= w + seq!['\n'] + tail);
            lemma_split_concat(w, tail);
            crate::text::split_nl(w)
        },
        None => {
            assert(t =~= tail);
            Seq::empty()
        },
    };
    let pieces = crate::text::split_nl(t);
    assert(pieces =~= front + body);
    let i = front.len() as int;
    let j = i + 1 + crate::text::split_nl(init_middle(app, s5)).len();
    assert(pieces[i] == start_marker());
    assert(pieces[j] == init_end_line());
    let ls = lines_seq(t);
    lemma_init_marker_lines();
    assert(ls[i] == start_marker());
    assert(ls[j] == init_end_line());
    lemma_scan_finds(ls, i, j);
}

proof fn lemma_head_line_bound(lines: Seq<Seq<char>>)
    ensures
        head_line(lines) matches Some(k) ==> k < lines.len() && includes(unicode_lower(lines[k as int]), "<head"@),
    decreases lines.len(),
{
    if lines.len() > 0 {
        lemma_head_line_bound(lines.skip(1));
    }
}

fn head_line_exec(lines: &Vec<Vec<char>>) -> (r: Option<usize>)
    ensures
        r is None <==> head_line(views(lines@)) is None,
        r matches Some(k) ==> head_line(views(lines@)) == Some(k as nat),
{
    let ghost ls = views(lines@);
    let head = chars_of("<head");
    let mut i: usize = 0;
    assert(ls.skip(0) =~= ls);
    while i < lines.len()
        invariant
            i <= lines.len(),
            ls == views(lines@),
            head@ == "<head"@,
            head_line(ls) == (match head_line(ls.skip(i as int)) {
                Some(k) => Some((k + i) as nat),
                None => None::<nat>,
            }),
        decreases lines.len() - i,
    {
        assert(ls.skip(i as int)[0] == ls[i as int]);
        assert(ls.skip(i as int).skip(1) =~= ls.skip(i + 1));
        if contains(&crate::text::lowercase(&lines[i]), &head) {
            return Some(i);
        }
        i = i + 1;
    }
    assert(ls.skip(i as int) =~= Seq::<Seq<char>>::empty());
    None
}

fn push_with_newlines(out: &mut Vec<char>, lines: &Vec<Vec<char>>, a: usize, b: usize)
    requires
        a <= b <= lines.len(),
    ensures
        final(out)@ == old(out)@ + with_newlines(views(lines@).subrange(a as int, b as int)),
{
    let ghost o = out@;
    let ghost ls = views(lines@);
    let mut k: usize = a;
    assert(ls.subrange(a as int, a as int) =~= Seq::<Seq<char>>::empty());
    assert(out@ =~= o + with_newlines(ls.subrange(a as int, a as int)));
    while k < b
        invariant
            a <= k <= b <= lines.len(),
            ls == views(lines@),
            out@ == o + with_newlines(ls.subrange(a as int, k as int)),
        decreases b - k,
    {
        let ghost o1 = out@;
        push_all(out, &lines[k]);
        out.push('\n');
        assert(ls.subrange(a as int, k + 1).drop_last() =~= ls.subrange(a as int, k as int));
        assert(out@ =~= o1 + ls[k as int] + seq!['\n']);
        k = k + 1;
    }
}

/// Generate an initial AI-SKILL-HEADER for a file without one: after the
/// first `<head` line, or in front of the text when there is none.
pub fn generate_init_header(content: &str) -> (r: Result<String, HeaderError>)
    ensures
        r matches Ok(t) && t@ == init_spec(content@),
{
    let lines = str_lines(content);
    let ghost ls = views(lines@);
    let chars = chars_of(content);
    let app = match extract_title_text(&chars) {
        Some(t) => t,
        None => chars_of("MyApp"),
    };
    let no_anchors: Vec<AnchorEntry> = Vec::new();
    assert(anchor_views(no_anchors@) =~= Seq::<(Seq<char>, Seq<char>)>::empty());
    let section5 = build_section5_content(&lines, false, &no_anchors);
    let mut block: Vec<char> = Vec::new();
    push_str(&mut block, "<!-- AI-SKILL-HEADER START\n# ");
    push_all(&mut block, &app);
    push_str(
        &mut block,
        " \u{2014} (feature summary)\n\n## 1. Overview\n(App description, deployment method)\n\n## 2. Public JavaScript API\n(Functions exposed on window, parameters, return values, side effects)\n\n## 3. Automation Example\n(Puppeteer / Playwright examples)\n\n## 4. Conventions\n(Units, angle formats, state management rules)\n\n## 5. Key Internal Modules\n\n",
    );
    push_all(&mut block, &section5);
    push_str(&mut block, "\n    AI-SKILL-HEADER END -->");
    assert(block@ =~= init_block(app@, section5@));
    let mut result: Vec<char> = Vec::new();
    match head_line_exec(&lines) {
        Some(k) => {
            proof {
                lemma_head_line_bound(ls);
            }
            push_with_newlines(&mut result, &lines, 0, k + 1);
            push_all(&mut result, &block);
            result.push('\n');
            push_with_newlines(&mut result, &lines, k + 1, lines.len());
            assert(ls.subrange(0, k + 1) =~= ls.take(k + 1));
            assert(ls.subrange(k + 1, ls.len() as int) =~= ls.skip(k + 1));
        },
        None => {
            push_all(&mut result, &block);
            result.push('\n');
            push_all(&mut result, &chars);
        },
    }
    Ok(to_string(&result))
}

/// The purpose comment above the declaration on 1-based line `abs`, found
/// in the first of `regions` that holds it and has one.
pub open spec fn purpose_from_comment_spec(
    lines: Seq<Seq<char>>,
    regions: Seq<(nat, nat)>,
    abs: nat,
) -> Seq<char>
    decreases regions.len(),
{
    if regions.len() == 0 {
        Seq::empty()
    } else {
        let rest = purpose_from_comment_spec(lines, regions.skip(1), abs);
        let (s, e) = regions[0];
        let a0: nat = if abs > 0 {
            (abs - 1) as nat
        } else {
            0
        };
        if s <= a0 && a0 < e {
            match crate::js_scope::purpose_spec(lines.subrange(s as int, e as int), (a0 - s) as nat) {
                Some(p) => p,
                None => rest,
            }
        } else {
            rest
        }
    }
}

/// Given a 1-based absolute line number, find the purpose comment from the
/// line above the declaration.
fn find_purpose_from_comment(
    lines: &Vec<Vec<char>>,
    script_regions: &Vec<(usize, usize)>,
    abs_line_1based: usize,
) -> (r: Vec<char>)
    requires
        forall|k: int| 0 <= k < script_regions.len() ==> #[trigger] script_regions@[k].0 <= script_regions@[k].1 <= lines.len(),
    ensures
        r@ == purpose_from_comment_spec(views(lines@), crate::js_scope::pair_views(script_regions@), abs_line_1based as nat),
{
    let ghost rv = crate::js_scope::pair_views(script_regions@);
    let ghost ls = views(lines@);
    let mut i: usize = 0;
    assert(rv.skip(0) =~= rv);
    while i < script_regions.len()
        invariant
            i <= script_regions.len(),
            rv == crate::js_scope::pair_views(script_regions@),
            ls == views(lines@),
            forall|k: int| 0 <= k < script_regions.len() ==> #[trigger] script_regions@[k].0 <= script_regions@[k].1 <= lines.len(),
            purpose_from_comment_spec(ls, rv, abs_line_1based as nat) == purpose_from_comment_spec(ls, rv.skip(i as int), abs_line_1based as nat),
        decreases script_regions.len() - i,
    {
        assert(rv.skip(i as int)[0] == rv[i as int]);
        assert(rv.skip(i as int).skip(1) =~= rv.skip(i + 1));
        let (start, end) = script_regions[i];
        assert(script_regions@[i as int].0 <= script_regions@[i as int].1 <= lines.len());
        let region_lines = line_range(lines, start, end);
        assert(views(region_lines@).len() == region_lines@.len());
        let abs0 = if abs_line_1based > 0 {
            abs_line_1based - 1
        } else {
            0
        };
        if abs0 >= start && abs0 < end {
            let rel = abs0 - start;
            if let Some(p) = crate::js_scope::extract_purpose_comment(&region_lines, rel) {
                return chars_of(p.as_str());
            }
        }
        i = i + 1;
    }
    assert(rv.skip(i as int) =~= Seq::<(nat, nat)>::empty());
    Vec::new()
}

} // verus!

//! Validation of a file against its header: the anchors section 5 lists and
//! the code declares, the APIs section 2 names, the ids section 6 refers to,
//! and the header's own tables.
use vstd::prelude::*;

use crate::header::{
    HeaderInfo, HeaderInfoV, content_ranges, extract_header, extract_header_spec, find_script_regions,
    header_spans_lines, regions_in_order, script_regions_spec, section_numbered, sections_view,
    string_views,
};
use crate::html_structure::{id_exists, id_exists_spec};
use crate::js_scope::{
    JsDeclV, extract_js_declarations, js_decls_spec, lemma_decl_lines_bounded, pair_views, triple_views,
    weight,
};
use crate::locator::header_anchor_names;
use crate::syntax_check::{CheckContext, IssueV, check_syntax, issues_view, plural, table_issues};
use crate::text::{
    chars_of, contains, dec, find, find_seq, includes, lines_seq, lower_seq, push_all, push_str, slice,
    str_lines, to_string, views, join, join_seq,
};

verus! {

// ---------------------------------------------------------------------------
// Types
// ---------------------------------------------------------------------------

/// The outcome of a validation.
#[derive(Debug, Clone)]
pub struct ValidateResult {
    pub anchor_consistency: AnchorConsistency,
    pub syntax_validation: SyntaxValidation,
    pub errors: usize,
    pub warnings: usize,
}

/// Section 5 against the code.
#[derive(Debug, Clone)]
pub struct AnchorConsistency {
    pub total_in_header: usize,
    pub found_in_code: usize,
    pub missing_from_code: Vec<String>,
    pub missing_from_header: Vec<MissingAnchor>,
    pub api_issues: Vec<String>,
}

/// A declaration of the code that section 5 does not list.
#[derive(Debug, Clone)]
pub struct MissingAnchor {
    pub name: String,
    /// 1-based
    pub line: usize,
}

/// The header's tables and the ids section 6 refers to.
#[derive(Debug, Clone)]
pub struct SyntaxValidation {
    pub brackets_balanced: bool,
    pub id_references_valid: bool,
    pub id_issues: Vec<String>,
    pub bracket_issues: Vec<String>,
}

pub struct ConsistencyV {
    pub total_in_header: nat,
    pub found_in_code: nat,
    pub missing_from_code: Seq<Seq<char>>,
    pub missing_from_header: Seq<(Seq<char>, nat)>,
    pub api_issues: Seq<Seq<char>>,
}

pub struct SyntaxV {
    pub brackets_balanced: bool,
    pub id_references_valid: bool,
    pub id_issues: Seq<Seq<char>>,
    pub bracket_issues: Seq<Seq<char>>,
}

pub struct ValidateV {
    pub anchor_consistency: ConsistencyV,
    pub syntax_validation: SyntaxV,
    pub errors: nat,
    pub warnings: nat,
}

pub open spec fn missing_view(v: Seq<MissingAnchor>) -> Seq<(Seq<char>, nat)> {
    v.map_values(|m: MissingAnchor| (m.name@, m.line as nat))
}

impl View for AnchorConsistency {
    type V = ConsistencyV;

    open spec fn view(&self) -> ConsistencyV {
        ConsistencyV {
            total_in_header: self.total_in_header as nat,
            found_in_code: self.found_in_code as nat,
            missing_from_code: string_views(self.missing_from_code@),
            missing_from_header: missing_view(self.missing_from_header@),
            api_issues: string_views(self.api_issues@),
        }
    }
}

impl View for SyntaxValidation {
    type V = SyntaxV;

    open spec fn view(&self) -> SyntaxV {
        SyntaxV {
            brackets_balanced: self.brackets_balanced,
            id_references_valid: self.id_references_valid,
            id_issues: string_views(self.id_issues@),
            bracket_issues: string_views(self.bracket_issues@),
        }
    }
}

impl View for ValidateResult {
    type V = ValidateV;

    open spec fn view(&self) -> ValidateV {
        ValidateV {
            anchor_consistency: self.anchor_consistency@,
            syntax_validation: self.syntax_validation@,
            errors: self.errors as nat,
            warnings: self.warnings as nat,
        }
    }
}

fn push_string(v: &mut Vec<String>, s: Vec<char>)
    ensures
        string_views(final(v)@) == string_views(old(v)@).push(s@),
{
    let ghost before = string_views(v@);
    let t = to_string(&s);
    v.push(t);
    assert(string_views(v@) =~= before.push(s@));
}

// ---------------------------------------------------------------------------
// Anchor consistency
// ---------------------------------------------------------------------------

/// The declarations of the script regions with their 1-based lines.
pub open spec fn code_decls(lines: Seq<Seq<char>>, regions: Seq<(nat, nat)>) -> Seq<(Seq<char>, nat)>
    decreases regions.len(),
{
    if regions.len() == 0 {
        Seq::empty()
    } else {
        let g = regions.last();
        code_decls(lines, regions.drop_last()) + js_decls_spec(lines.subrange(g.0 as int, g.1 as int)).map_values(
            |d: JsDeclV| (d.name, g.0 + d.start_line + 1),
        )
    }
}

pub open spec fn named_in(code: Seq<(Seq<char>, nat)>, a: Seq<char>) -> bool {
    exists|i: int| 0 <= i < code.len() && (#[trigger] code[i]).0 == a
}

/// Header anchors that no declaration of the code has the name of.
pub open spec fn missing_from_code_spec(hdr: Seq<Seq<char>>, code: Seq<(Seq<char>, nat)>) -> Seq<Seq<char>>
    decreases hdr.len(),
{
    if hdr.len() == 0 {
        Seq::empty()
    } else {
        let p = missing_from_code_spec(hdr.drop_last(), code);
        if named_in(code, hdr.last()) {
            p
        } else {
            p.push(hdr.last())
        }
    }
}

/// Declarations of the code that the header does not list.
pub open spec fn missing_from_header_spec(hdr: Seq<Seq<char>>, code: Seq<(Seq<char>, nat)>) -> Seq<(Seq<char>, nat)>
    decreases code.len(),
{
    if code.len() == 0 {
        Seq::empty()
    } else {
        let p = missing_from_header_spec(hdr, code.drop_last());
        if hdr.contains(code.last().0) {
            p
        } else {
            p.push(code.last())
        }
    }
}

proof fn lemma_missing_le(hdr: Seq<Seq<char>>, code: Seq<(Seq<char>, nat)>)
    ensures
        missing_from_code_spec(hdr, code).len() <= hdr.len(),
    decreases hdr.len(),
{
    if hdr.len() > 0 {
        lemma_missing_le(hdr.drop_last(), code);
    }
}

fn collect_code_decls(lines: &Vec<Vec<char>>) -> (r: Vec<(Vec<char>, usize)>)
    requires
        weight(views(lines@)) < usize::MAX,
    ensures
        r@.map_values(|x: (Vec<char>, usize)| (x.0@, x.1 as nat)) == code_decls(
            views(lines@),
            content_ranges(script_regions_spec(views(lines@))),
        ),
{
    proof {
        crate::header::lemma_regions_in_order(views(lines@));
    }
    let ghost ls = views(lines@);
    let regions = find_script_regions(lines);
    let ghost rv = pair_views(regions@);
    proof {
        crate::header::lemma_regions_within(ls);
    }
    let mut out: Vec<(Vec<char>, usize)> = Vec::new();
    let mut i: usize = 0;
    assert(rv.take(0) =~= Seq::<(nat, nat)>::empty());
    assert(out@.map_values(|x: (Vec<char>, usize)| (x.0@, x.1 as nat)) =~= Seq::<(Seq<char>, nat)>::empty());
    while i < regions.len()
        invariant
            i <= regions.len(),
            ls == views(lines@),
            weight(ls) < usize::MAX,
            rv == pair_views(regions@),
            rv == content_ranges(script_regions_spec(ls)),
            regions_in_order(ls),
            forall|k: int| 0 <= k < script_regions_spec(ls).len() ==> #[trigger] script_regions_spec(ls)[k].content_end <= ls.len(),
            out@.map_values(|x: (Vec<char>, usize)| (x.0@, x.1 as nat)) == code_decls(ls, rv.take(i as int)),
        decreases regions.len() - i,
    {
        let (s, e) = regions[i];
        assert(rv[i as int] == (s as nat, e as nat));
        assert(rv.len() == script_regions_spec(ls).len());
        assert(script_regions_spec(ls)[i as int].content_start <= script_regions_spec(ls)[i as int].content_end);
        assert(script_regions_spec(ls)[i as int].content_end <= ls.len());
        let region = crate::header::line_range(lines, s, e);
        let decls = extract_js_declarations(&region);
        let ghost jd = js_decls_spec(views(region@));
        let ghost add = jd.map_values(|d: JsDeclV| (d.name, (s + d.start_line + 1) as nat));
        let ghost o0 = out@.map_values(|x: (Vec<char>, usize)| (x.0@, x.1 as nat));
        proof {
            lemma_decl_lines_bounded(ls, s as int, e as int);
        }
        assert(triple_views(decls@).len() == jd.len());
        let mut j: usize = 0;
        while j < decls.len()
            invariant
                j <= decls.len(),
                weight(ls) < usize::MAX,
                triple_views(decls@) == jd.map_values(|d: JsDeclV| (d.name, d.decl_type, d.start_line)),
                jd == js_decls_spec(ls.subrange(s as int, e as int)),
                forall|q: int| 0 <= q < jd.len() ==> s + (#[trigger] jd[q]).start_line <= weight(ls),
                add == jd.map_values(|d: JsDeclV| (d.name, (s + d.start_line + 1) as nat)),
                jd.len() == decls@.len(),
                out@.map_values(|x: (Vec<char>, usize)| (x.0@, x.1 as nat)) == o0 + add.take(j as int),
            decreases decls.len() - j,
        {
            assert(triple_views(decls@)[j as int] == (decls@[j as int].0@, decls@[j as int].1, decls@[j as int].2 as nat));
            assert(s + jd[j as int].start_line <= weight(ls));
            let ghost before = out@;
            out.push((chars_of(decls[j].0.as_str()), s + decls[j].2 + 1));
            assert(out@.map_values(|x: (Vec<char>, usize)| (x.0@, x.1 as nat)) =~= before.map_values(
                |x: (Vec<char>, usize)| (x.0@, x.1 as nat),
            ).push(add[j as int]));
            assert(add.take(j + 1) =~= add.take(j as int).push(add[j as int]));
            j = j + 1;
        }
        assert(add.take(j as int) =~= add);
        assert(rv.take(i + 1).drop_last() =~= rv.take(i as int));
        i = i + 1;
    }
    assert(rv.take(rv.len() as int) =~= rv);
    out
}

// ---------------------------------------------------------------------------
// APIs of section 2
// ---------------------------------------------------------------------------

/// `char::is_alphanumeric` (the Unicode `Alphabetic` and `Numeric` properties).
pub uninterp spec fn alphanumeric(c: char) -> bool;

/// `char::is_alphanumeric`; the contract names the result.
#[verifier::external_body]
pub(crate) fn is_alphanumeric(c: char) -> (r: bool)
    ensures
        r == alphanumeric(c),
{
    c.is_alphanumeric()
}

/// Length of the API name at the start of `s`: alphanumerics, `.` and `_`.
pub open spec fn api_name_len(s: Seq<char>) -> nat
    decreases s.len(),
{
    if s.len() == 0 || !(alphanumeric(s[0]) || s[0] == '.' || s[0] == '_') {
        0
    } else {
        1 + api_name_len(s.skip(1))
    }
}

pub proof fn lemma_api_name_len_le(s: Seq<char>)
    ensures
        api_name_len(s) <= s.len(),
    decreases s.len(),
{
    if s.len() > 0 && (alphanumeric(s[0]) || s[0] == '.' || s[0] == '_') {
        lemma_api_name_len_le(s.skip(1));
    }
}

/// The issues of the `window.` names of a section 2 line, from `pos` on: one
/// per name that the content never writes as `window.<name>`.
pub open spec fn api_scan(line: Seq<char>, pos: nat, content: Seq<char>) -> Seq<Seq<char>>
    decreases line.len() + 1 - pos,
{
    if pos > line.len() {
        Seq::empty()
    } else {
        match find_seq(line.skip(pos as int), "window."@) {
            None => Seq::empty(),
            Some(idx) => {
                proof {
                    reveal_strlit("window.");
                    crate::text::lemma_find_some(line.skip(pos as int), "window."@);
                    lemma_api_name_len_le(line.skip(pos + idx + 7));
                }
                let start: nat = (pos + idx + 7) as nat;
                let end: nat = start + api_name_len(line.skip(start as int));
                let api = line.subrange(start as int, end as int);
                let here = if api.len() > 0 && !includes(content, "window."@ + api) {
                    seq!["API window."@ + api + " listed in header but definition not found in code"@]
                } else {
                    Seq::empty()
                };
                here + api_scan(line, end, content)
            },
        }
    }
}

pub open spec fn api_lines(lines: Seq<Seq<char>>, content: Seq<char>) -> Seq<Seq<char>>
    decreases lines.len(),
{
    if lines.len() == 0 {
        Seq::empty()
    } else {
        api_lines(lines.drop_last(), content) + api_scan(lines.last(), 0, content)
    }
}

pub open spec fn header_opt(content: Seq<char>) -> Option<HeaderInfoV> {
    match extract_header_spec(content) {
        Ok(h) => Some(h),
        Err(_) => None,
    }
}

/// The page's code: its text with the header's lines left empty.
pub open spec fn code_text(content: Seq<char>, h: HeaderInfoV) -> Seq<char> {
    join_seq(crate::header::code_lines_of(lines_seq(content), h), seq!['\n'])
}

/// The API issues: names of section 2 written `window.<name>` that the
/// page's code (outside the header) never writes so.
pub open spec fn api_issues_spec(content: Seq<char>, h: Option<HeaderInfoV>) -> Seq<Seq<char>> {
    match h {
        Some(info) => match section_numbered(info.sections, 2) {
            Some(s2) => api_lines(lines_seq(s2.content), code_text(content, info)),
            None => Seq::empty(),
        },
        None => Seq::empty(),
    }
}

fn api_scan_exec(out: &mut Vec<String>, line: &Vec<char>, content: &Vec<char>)
    ensures
        string_views(final(out)@) == string_views(old(out)@) + api_scan(line@, 0, content@),
{
    let ghost o = string_views(out@);
    let w = chars_of("window.");
    proof {
        reveal_strlit("window.");
    }
    assert(w@.len() == 7);
    let mut pos: usize = 0;
    while pos <= line.len()
        invariant
            w@ == "window."@,
            w@.len() == 7,
            o == string_views(old(out)@),
            pos <= line.len() + 1,
            string_views(out@) + api_scan(line@, pos as nat, content@) == o + api_scan(line@, 0, content@),
        decreases line.len() + 1 - pos,
    {
        let rest = crate::text::skip(line, pos);
        match find(&rest, &w) {
            None => {
                assert(api_scan(line@, pos as nat, content@) =~= Seq::<Seq<char>>::empty());
                assert(string_views(out@) + api_scan(line@, pos as nat, content@) =~= string_views(out@));
                assert(string_views(out@) == o + api_scan(line@, 0, content@));
                return;
            },
            Some(idx) => {
                let start = pos + idx + 7;
                let mut end = start;
                assert(line@.skip(start as int).skip(0) =~= line@.skip(start as int));
                while end < line.len() && (is_alphanumeric(line[end]) || line[end] == '.' || line[end] == '_')
                    invariant
                        start <= end <= line.len(),
                        api_name_len(line@.skip(start as int)) == (end - start) + api_name_len(line@.skip(end as int)),
                    decreases line.len() - end,
                {
                    assert(line@.skip(end as int).skip(1) =~= line@.skip(end + 1));
                    end = end + 1;
                }
                if end < line.len() {
                    assert(line@.skip(end as int)[0] == line@[end as int]);
                }
                let api = slice(line, start, end);
                let mut full = chars_of("window.");
                push_all(&mut full, &api);
                let ghost before = string_views(out@);
                if api.len() > 0 && !contains(content, &full) {
                    let mut m = chars_of("API window.");
                    push_all(&mut m, &api);
                    push_str(&mut m, " listed in header but definition not found in code");
                    assert(m@ =~= "API window."@ + api@ + " listed in header but definition not found in code"@);
                    push_string(out, m);
                    assert(string_views(out@) + api_scan(line@, end as nat, content@) =~= before + (seq![
                        "API window."@ + api@ + " listed in header but definition not found in code"@,
                    ] + api_scan(line@, end as nat, content@)));
                } else {
                    assert(string_views(out@) + api_scan(line@, end as nat, content@) =~= before + (
                    Seq::<Seq<char>>::empty() + api_scan(line@, end as nat, content@)));
                }
                pos = end;
            },
        }
    }
    assert(api_scan(line@, pos as nat, content@) =~= Seq::<Seq<char>>::empty());
}

fn check_api_consistency(content: &Vec<char>, header_info: &Option<HeaderInfo>) -> (r: Vec<String>)
    ensures
        string_views(r@) == api_issues_spec(
            content@,
            match header_info {
                Some(h) => Some(h@),
                None => None,
            },
        ),
{
    let mut issues: Vec<String> = Vec::new();
    assert(string_views(issues@) =~= Seq::<Seq<char>>::empty());
    if let Some(info) = header_info {
        let ghost sv = sections_view(info.sections@);
        if let Some(i) = crate::header::position_of_section(&info.sections, 2) {
            let page = str_lines(to_string(content).as_str());
            let code_lines = crate::header::blank_lines(&page, info.start_line, info.end_line);
            let mut nl: Vec<char> = Vec::new();
            nl.push('\n');
            assert(nl@ =~= seq!['\n']);
            let code = join(&code_lines, &nl);
            assert(code@ == code_text(content@, info@));
            let lines = str_lines(info.sections[i].content.as_str());
            let ghost ls = views(lines@);
            let mut k: usize = 0;
            assert(ls.take(0) =~= Seq::<Seq<char>>::empty());
            while k < lines.len()
                invariant
                    k <= lines.len(),
                    ls == views(lines@),
                    code@ == code_text(content@, info@),
                    string_views(issues@) == api_lines(ls.take(k as int), code@),
                decreases lines.len() - k,
            {
                api_scan_exec(&mut issues, &lines[k], &code);
                assert(ls.take(k + 1).drop_last() =~= ls.take(k as int));
                k = k + 1;
            }
            assert(ls.take(ls.len() as int) =~= ls);
        }
    }
    issues
}


// ---------------------------------------------------------------------------
// Syntax of the header
// ---------------------------------------------------------------------------

/// The issue of a section 6 line whose `id="..."` the content does not have.
pub open spec fn id_issue_of(line: Seq<char>, content: Seq<char>) -> Option<Seq<char>> {
    match find_seq(line, "id=\""@) {
        Some(i) => {
            let rest = line.skip(i + 4);
            match find_seq(rest, "\""@) {
                Some(e) => {
                    let v = rest.take(e);
                    if id_exists_spec(content, v) {
                        None
                    } else {
                        Some("id=\""@ + v + "\" referenced in Tag-Pair Tree but not found in HTML"@)
                    }
                },
                None => None,
            }
        },
        None => None,
    }
}

pub open spec fn id_issue_lines(lines: Seq<Seq<char>>, content: Seq<char>) -> Seq<Seq<char>>
    decreases lines.len(),
{
    if lines.len() == 0 {
        Seq::empty()
    } else {
        let p = id_issue_lines(lines.drop_last(), content);
        match id_issue_of(lines.last(), content) {
            Some(m) => p.push(m),
            None => p,
        }
    }
}

/// What the header's table check and its section 6 ids give.
pub open spec fn syntax_spec(content: Seq<char>, h: Option<HeaderInfoV>) -> SyntaxV {
    let bracket = match h {
        Some(info) => table_issues(lines_seq(info.full_markdown)).map_values(
            |i: IssueV| "Line "@ + dec(i.line) + " in header: "@ + i.message,
        ),
        None => Seq::empty(),
    };
    let ids = match h {
        Some(info) => match section_numbered(info.sections, 6) {
            Some(s6) => id_issue_lines(lines_seq(s6.content), content),
            None => Seq::empty(),
        },
        None => Seq::empty(),
    };
    SyntaxV {
        brackets_balanced: bracket.len() == 0,
        id_references_valid: ids.len() == 0,
        id_issues: ids,
        bracket_issues: bracket,
    }
}

pub open spec fn opt_header_view(h: Option<HeaderInfo>) -> Option<HeaderInfoV> {
    match h {
        Some(x) => Some(x@),
        None => None,
    }
}

fn id_issue_exec(line: &Vec<char>, content: &str) -> (r: Option<Vec<char>>)
    ensures
        r is None <==> id_issue_of(line@, content@) is None,
        r matches Some(m) ==> id_issue_of(line@, content@) == Some(m@),
{
    proof {
        reveal_strlit("id=\"");
        reveal_strlit("\"");
    }
    let pat = chars_of("id=\"");
    assert(pat@.len() == 4);
    if let Some(i) = find(line, &pat) {
        let rest = crate::text::skip_past(line, i, 4);
        if let Some(e) = find(&rest, &chars_of("\"")) {
            let v = slice(&rest, 0, e);
            assert(rest@.subrange(0, e as int) =~= rest@.take(e as int));
            let vs = to_string(&v);
            if !id_exists(content, vs.as_str()) {
                let mut m = chars_of("id=\"");
                push_all(&mut m, &v);
                push_str(&mut m, "\" referenced in Tag-Pair Tree but not found in HTML");
                return Some(m);
            }
        }
    }
    None
}

fn validate_syntax(content: &str, header_info: &Option<HeaderInfo>) -> (r: SyntaxValidation)
    ensures
        r@ == syntax_spec(content@, opt_header_view(*header_info)),
{
    let mut bracket_issues: Vec<String> = Vec::new();
    let mut id_issues: Vec<String> = Vec::new();
    assert(string_views(bracket_issues@) =~= Seq::<Seq<char>>::empty());
    assert(string_views(id_issues@) =~= Seq::<Seq<char>>::empty());
    if let Some(info) = header_info {
        let check = check_syntax(info.full_markdown.as_str(), CheckContext::Header);
        let ghost iv = issues_view(check.issues@);
        let ghost target = iv.map_values(|i: IssueV| "Line "@ + dec(i.line) + " in header: "@ + i.message);
        let mut k: usize = 0;
        while k < check.issues.len()
            invariant
                k <= check.issues.len(),
                iv == issues_view(check.issues@),
                target == iv.map_values(|i: IssueV| "Line "@ + dec(i.line) + " in header: "@ + i.message),
                string_views(bracket_issues@) == target.take(k as int),
            decreases check.issues.len() - k,
        {
            let issue = &check.issues[k];
            assert(iv[k as int] == issue@);
            let mut m = chars_of("Line ");
            push_all(&mut m, &crate::text::decimal(issue.line));
            push_str(&mut m, " in header: ");
            push_str(&mut m, issue.message.as_str());
            push_string(&mut bracket_issues, m);
            assert(target.take(k + 1) =~= target.take(k as int).push(target[k as int]));
            k = k + 1;
        }
        assert(target.take(iv.len() as int) =~= target);
        if let Some(i) = crate::header::position_of_section(&info.sections, 6) {
            let lines = str_lines(info.sections[i].content.as_str());
            let ghost ls = views(lines@);
            let mut j: usize = 0;
            assert(ls.take(0) =~= Seq::<Seq<char>>::empty());
            while j < lines.len()
                invariant
                    j <= lines.len(),
                    ls == views(lines@),
                    string_views(id_issues@) == id_issue_lines(ls.take(j as int), content@),
                decreases lines.len() - j,
            {
                assert(ls.take(j + 1).drop_last() =~= ls.take(j as int));
                if let Some(m) = id_issue_exec(&lines[j], content) {
                    push_string(&mut id_issues, m);
                }
                j = j + 1;
            }
            assert(ls.take(ls.len() as int) =~= ls);
        }
    }
    let brackets_balanced = bracket_issues.len() == 0;
    let id_references_valid = id_issues.len() == 0;
    SyntaxValidation { brackets_balanced, id_references_valid, id_issues, bracket_issues }
}

// ---------------------------------------------------------------------------
// The validation
// ---------------------------------------------------------------------------

/// How many messages mention `not found`.
pub open spec fn count_not_found(v: Seq<Seq<char>>) -> nat
    decreases v.len(),
{
    if v.len() == 0 {
        0
    } else {
        count_not_found(v.drop_last()) + if includes(v.last(), "not found"@) {
            1nat
        } else {
            0nat
        }
    }
}

/// The validation of a file (its counts held at `usize::MAX`, which no file
/// in memory reaches).
pub open spec fn validate_spec(content: Seq<char>, check_syntax_flag: bool) -> ValidateV {
    let lines = lines_seq(content);
    let h = header_opt(content);
    let hdr = header_anchor_names(content);
    let code = code_decls(lines, content_ranges(script_regions_spec(lines)));
    let mfc = missing_from_code_spec(hdr, code);
    let mfh = missing_from_header_spec(hdr, code);
    let api = api_issues_spec(content, h);
    let sv = if check_syntax_flag {
        syntax_spec(content, h)
    } else {
        SyntaxV {
            brackets_balanced: true,
            id_references_valid: true,
            id_issues: Seq::empty(),
            bracket_issues: Seq::empty(),
        }
    };
    ValidateV {
        anchor_consistency: ConsistencyV {
            total_in_header: hdr.len(),
            found_in_code: (hdr.len() - mfc.len()) as nat,
            missing_from_code: mfc,
            missing_from_header: mfh,
            api_issues: api,
        },
        syntax_validation: sv,
        errors: crate::syntax_check::clamp(mfc.len() + (if !sv.brackets_balanced {
            1nat
        } else {
            0nat
        }) + count_not_found(sv.id_issues) as int),
        warnings: crate::syntax_check::clamp((mfh.len() + api.len()) as int),
    }
}

/// The lines a file validation can count: within the limits of `usize`.
pub open spec fn countable(content: Seq<char>) -> bool {
    weight(lines_seq(content)) + 1 < usize::MAX
}

fn count_not_found_exec(v: &Vec<String>) -> (r: usize)
    ensures
        r == count_not_found(string_views(v@)),
        r <= v.len(),
{
    let ghost sv = string_views(v@);
    let nf = chars_of("not found");
    let mut n: usize = 0;
    let mut i: usize = 0;
    while i < v.len()
        invariant
            i <= v.len(),
            sv == string_views(v@),
            nf@ == "not found"@,
            n == count_not_found(sv.take(i as int)),
            n <= i,
        decreases v.len() - i,
    {
        assert(sv.take(i + 1).drop_last() =~= sv.take(i as int));
        if contains(&chars_of(v[i].as_str()), &nf) {
            n = n + 1;
        }
        i = i + 1;
    }
    assert(sv.take(sv.len() as int) =~= sv);
    n
}

proof fn lemma_missing_header_le(hdr: Seq<Seq<char>>, code: Seq<(Seq<char>, nat)>)
    ensures
        missing_from_header_spec(hdr, code).len() <= code.len(),
    decreases code.len(),
{
    if code.len() > 0 {
        lemma_missing_header_le(hdr, code.drop_last());
    }
}

/// The declarations that the header leaves out are exactly those of the code
/// whose name is not among the header anchors, in code order; the header
/// anchors that the code leaves out are exactly those that no declaration is
/// named after, in header order.
pub proof fn lemma_missing_are_filters(hdr: Seq<Seq<char>>, code: Seq<(Seq<char>, nat)>)
    ensures
        missing_from_header_spec(hdr, code) == code.filter(
            |d: (Seq<char>, nat)| !hdr.contains(d.0),
        ),
        missing_from_code_spec(hdr, code) == hdr.filter(|a: Seq<char>| !named_in(code, a)),
    decreases code.len() + hdr.len(),
{
    reveal(Seq::filter);
    if code.len() > 0 {
        lemma_missing_are_filters(hdr, code.drop_last());
    }
    if hdr.len() > 0 {
        lemma_missing_are_filters(hdr.drop_last(), code);
    }
}

/// What a validation reports as missing from the header is every declaration
/// of the file's script code whose name the header does not list, each once
/// and in code order, and nothing else; the warnings count them.
pub proof fn lemma_validation_reports_unlisted(content: Seq<char>, check_syntax_flag: bool)
    ensures
        ({
            let v = validate_spec(content, check_syntax_flag);
            let hdr = header_anchor_names(content);
            let lines = lines_seq(content);
            let code = code_decls(lines, content_ranges(script_regions_spec(lines)));
            let unlisted = code.filter(|d: (Seq<char>, nat)| !hdr.contains(d.0));
            &&& v.anchor_consistency.missing_from_header == unlisted
            &&& forall|i: int|
                0 <= i < code.len() && !hdr.contains(code[i].0)
                    ==> #[trigger] unlisted.contains(code[i])
            &&& forall|i: int|
                0 <= i < unlisted.len() ==> code.contains(#[trigger] unlisted[i])
                    && !hdr.contains(unlisted[i].0)
            &&& v.warnings == crate::syntax_check::clamp(
                (unlisted.len() + api_issues_spec(content, header_opt(content)).len()) as int,
            )
        }),
{
    let hdr = header_anchor_names(content);
    let lines = lines_seq(content);
    let code = code_decls(lines, content_ranges(script_regions_spec(lines)));
    let pred = |d: (Seq<char>, nat)| !hdr.contains(d.0);
    lemma_missing_are_filters(hdr, code);
    let unlisted = code.filter(pred);
    assert forall|i: int| 0 <= i < code.len() && !hdr.contains(code[i].0) implies #[trigger] unlisted.contains(
        code[i],
    ) by {
        code.lemma_filter_contains(pred, i);
    }
    assert forall|i: int| 0 <= i < unlisted.len() implies code.contains(
        #[trigger] unlisted[i],
    ) && !hdr.contains(unlisted[i].0) by {
        code.lemma_filter_pred(pred, i);
        assert(unlisted.contains(unlisted[i]));
        code.lemma_filter_contains_rev(pred, unlisted[i]);
    }
}

/// Validate the header against the code.
pub fn validate_file(content: &str, check_syntax_flag: bool) -> (r: Result<ValidateResult, crate::header::HeaderError>)
    requires
        header_spans_lines(lines_seq(content@)),
        countable(content@),
    ensures
        r matches Ok(v) && v@ == validate_spec(content@, check_syntax_flag),
{
    let lines = str_lines(content);
    let ghost ls = views(lines@);
    let chars = chars_of(content);
    let header_info = match extract_header(content) {
        Ok(h) => Some(h),
        Err(_) => None,
    };
    assert(opt_header_view(header_info) == header_opt(content@));
    let header_anchors = crate::locator::header_names(content);
    let ghost hdr = views(header_anchors@);
    let code = collect_code_decls(&lines);
    let ghost cv = code@.map_values(|x: (Vec<char>, usize)| (x.0@, x.1 as nat));
    let mut missing_from_code: Vec<String> = Vec::new();
    let mut i: usize = 0;
    assert(hdr.take(0) =~= Seq::<Seq<char>>::empty());
    assert(string_views(missing_from_code@) =~= Seq::<Seq<char>>::empty());
    while i < header_anchors.len()
        invariant
            i <= header_anchors.len(),
            hdr == views(header_anchors@),
            cv == code@.map_values(|x: (Vec<char>, usize)| (x.0@, x.1 as nat)),
            string_views(missing_from_code@) == missing_from_code_spec(hdr.take(i as int), cv),
        decreases header_anchors.len() - i,
    {
        assert(hdr.take(i + 1).drop_last() =~= hdr.take(i as int));
        let a = &header_anchors[i];
        let mut found = false;
        let mut k: usize = 0;
        while k < code.len()
            invariant
                k <= code.len(),
                cv == code@.map_values(|x: (Vec<char>, usize)| (x.0@, x.1 as nat)),
                found == exists|q: int| 0 <= q < k && (#[trigger] cv[q]).0 == a@,
            decreases code.len() - k,
        {
            assert(cv[k as int].0 == code@[k as int].0@);
            if crate::differ::vec_eq(&code[k].0, a) {
                found = true;
            }
            k = k + 1;
        }
        assert(found == named_in(cv, hdr[i as int]));
        if !found {
            push_string(&mut missing_from_code, crate::text::copy(a));
        }
        i = i + 1;
    }
    assert(hdr.take(hdr.len() as int) =~= hdr);
    let mut missing_from_header: Vec<MissingAnchor> = Vec::new();
    let mut j: usize = 0;
    assert(cv.take(0) =~= Seq::<(Seq<char>, nat)>::empty());
    assert(missing_view(missing_from_header@) =~= Seq::<(Seq<char>, nat)>::empty());
    while j < code.len()
        invariant
            j <= code.len(),
            hdr == views(header_anchors@),
            cv == code@.map_values(|x: (Vec<char>, usize)| (x.0@, x.1 as nat)),
            missing_view(missing_from_header@) == missing_from_header_spec(hdr, cv.take(j as int)),
        decreases code.len() - j,
    {
        assert(cv.take(j + 1).drop_last() =~= cv.take(j as int));
        assert(cv[j as int] == (code@[j as int].0@, code@[j as int].1 as nat));
        let found = crate::locator::contains_name(&header_anchors, &code[j].0);
        if !found {
            let ghost before = missing_view(missing_from_header@);
            let m = MissingAnchor { name: to_string(&code[j].0), line: code[j].1 };
            missing_from_header.push(m);
            assert(missing_view(missing_from_header@) =~= before.push(cv[j as int]));
        }
        j = j + 1;
    }
    assert(cv.take(cv.len() as int) =~= cv);
    proof {
        lemma_missing_le(hdr, cv);
        lemma_missing_header_le(hdr, cv);
    }
    let found_in_code = header_anchors.len() - missing_from_code.len();
    let api_issues = check_api_consistency(&chars, &header_info);
    let total_in_header = header_anchors.len();
    let anchor_consistency = AnchorConsistency {
        total_in_header,
        found_in_code,
        missing_from_code,
        missing_from_header,
        api_issues,
    };
    let syntax_validation = if check_syntax_flag {
        validate_syntax(content, &header_info)
    } else {
        let v = SyntaxValidation {
            brackets_balanced: true,
            id_references_valid: true,
            id_issues: Vec::new(),
            bracket_issues: Vec::new(),
        };
        assert(v@.id_issues =~= Seq::<Seq<char>>::empty());
        assert(v@.bracket_issues =~= Seq::<Seq<char>>::empty());
        v
    };
    let nf = count_not_found_exec(&syntax_validation.id_issues);
    let bracket_err: usize = if !syntax_validation.brackets_balanced {
        1
    } else {
        0
    };
    let e1 = anchor_consistency.missing_from_code.len();
    let errors = if e1 <= usize::MAX - bracket_err && e1 + bracket_err <= usize::MAX - nf {
        e1 + bracket_err + nf
    } else {
        usize::MAX
    };
    let w1 = anchor_consistency.missing_from_header.len();
    let w2 = anchor_consistency.api_issues.len();
    let warnings = if w1 <= usize::MAX - w2 {
        w1 + w2
    } else {
        usize::MAX
    };
    Ok(ValidateResult { anchor_consistency, syntax_validation, errors, warnings })
}


// ---------------------------------------------------------------------------
// Text report
// ---------------------------------------------------------------------------

/// Each item between `pre` and `post`, one after the other.
pub open spec fn framed(v: Seq<Seq<char>>, pre: Seq<char>, post: Seq<char>) -> Seq<char>
    decreases v.len(),
{
    if v.len() == 0 {
        Seq::empty()
    } else {
        framed(v.drop_last(), pre, post) + pre + v.last() + post
    }
}

fn push_framed(out: &mut Vec<char>, v: &Vec<String>, pre: &str, post: &str)
    ensures
        final(out)@ == old(out)@ + framed(string_views(v@), pre@, post@),
{
    let ghost o = out@;
    let ghost sv = string_views(v@);
    let mut i: usize = 0;
    assert(sv.take(0) =~= Seq::<Seq<char>>::empty());
    assert(out@ =~= o + framed(sv.take(0), pre@, post@));
    while i < v.len()
        invariant
            i <= v.len(),
            sv == string_views(v@),
            out@ == o + framed(sv.take(i as int), pre@, post@),
        decreases v.len() - i,
    {
        let ghost o1 = out@;
        push_str(out, pre);
        push_str(out, v[i].as_str());
        push_str(out, post);
        assert(sv.take(i + 1).drop_last() =~= sv.take(i as int));
        assert(out@ =~= o1 + pre@ + sv[i as int] + post@);
        i = i + 1;
    }
    assert(sv.take(sv.len() as int) =~= sv);
}

pub open spec fn missing_lines(v: Seq<(Seq<char>, nat)>) -> Seq<char>
    decreases v.len(),
{
    if v.len() == 0 {
        Seq::empty()
    } else {
        missing_lines(v.drop_last()) + "\u{2717} Missing from header: "@ + v.last().0 + " (line "@ + dec(
            v.last().1,
        ) + ")\n"@
    }
}

/// The text report of a validation.
pub open spec fn format_text_spec(r: ValidateV) -> Seq<char> {
    let a = r.anchor_consistency;
    let sv = r.syntax_validation;
    "=== Anchor Consistency ===\n"@ + "\u{2713} "@ + dec(a.found_in_code) + "/"@ + dec(
        a.total_in_header,
    ) + " anchors found in code\n"@ + framed(
        a.missing_from_code,
        "\u{2717} Header lists \""@,
        "\" but not found in code\n"@,
    ) + missing_lines(a.missing_from_header) + framed(a.api_issues, "\u{26a0} "@, "\n"@)
        + "\n=== Syntax Validation ===\n"@ + (if sv.brackets_balanced {
        "\u{2713} Bracket pairs balanced\n"@
    } else {
        framed(sv.bracket_issues, "\u{2717} "@, "\n"@)
    }) + (if sv.id_references_valid {
        "\u{2713} All id references exist in HTML\n"@
    } else {
        framed(sv.id_issues, "\u{2717} "@, "\n"@)
    }) + "\n\u{2192} "@ + dec(r.errors) + " error"@ + plural(r.errors) + ", "@ + dec(r.warnings)
        + " warning"@ + plural(r.warnings) + "."@ + (if r.errors > 0 || r.warnings > 0 {
        " Run `sfhtml validate --fix` to auto-repair or pass to AI for review.\n"@
    } else {
        "\n"@
    })
}

/// Format a validation result as text.
pub fn format_text(result: &ValidateResult) -> (r: String)
    ensures
        r@ == format_text_spec(result@),
{
    let a = &result.anchor_consistency;
    let sv = &result.syntax_validation;
    let mut out: Vec<char> = Vec::new();
    push_str(&mut out, "=== Anchor Consistency ===\n");
    push_str(&mut out, "\u{2713} ");
    push_all(&mut out, &crate::text::decimal(a.found_in_code));
    push_str(&mut out, "/");
    push_all(&mut out, &crate::text::decimal(a.total_in_header));
    push_str(&mut out, " anchors found in code\n");
    push_framed(&mut out, &a.missing_from_code, "\u{2717} Header lists \"", "\" but not found in code\n");
    let ghost o = out@;
    let ghost mv = missing_view(a.missing_from_header@);
    let mut i: usize = 0;
    assert(mv.take(0) =~= Seq::<(Seq<char>, nat)>::empty());
    assert(out@ =~= o + missing_lines(mv.take(0)));
    while i < a.missing_from_header.len()
        invariant
            i <= a.missing_from_header.len(),
            mv == missing_view(a.missing_from_header@),
            out@ == o + missing_lines(mv.take(i as int)),
        decreases a.missing_from_header.len() - i,
    {
        let m = &a.missing_from_header[i];
        let ghost o1 = out@;
        push_str(&mut out, "\u{2717} Missing from header: ");
        push_str(&mut out, m.name.as_str());
        push_str(&mut out, " (line ");
        push_all(&mut out, &crate::text::decimal(m.line));
        push_str(&mut out, ")\n");
        assert(mv.take(i + 1).drop_last() =~= mv.take(i as int));
        assert(mv[i as int] == (m.name@, m.line as nat));
        i = i + 1;
    }
    assert(mv.take(mv.len() as int) =~= mv);
    push_framed(&mut out, &a.api_issues, "\u{26a0} ", "\n");
    push_str(&mut out, "\n=== Syntax Validation ===\n");
    if sv.brackets_balanced {
        push_str(&mut out, "\u{2713} Bracket pairs balanced\n");
    } else {
        push_framed(&mut out, &sv.bracket_issues, "\u{2717} ", "\n");
    }
    if sv.id_references_valid {
        push_str(&mut out, "\u{2713} All id references exist in HTML\n");
    } else {
        push_framed(&mut out, &sv.id_issues, "\u{2717} ", "\n");
    }
    push_str(&mut out, "\n\u{2192} ");
    push_all(&mut out, &crate::text::decimal(result.errors));
    push_str(&mut out, " error");
    if result.errors != 1 {
        push_str(&mut out, "s");
    }
    push_str(&mut out, ", ");
    push_all(&mut out, &crate::text::decimal(result.warnings));
    push_str(&mut out, " warning");
    if result.warnings != 1 {
        push_str(&mut out, "s");
    }
    push_str(&mut out, ".");
    if result.errors > 0 || result.warnings > 0 {
        push_str(&mut out, " Run `sfhtml validate --fix` to auto-repair or pass to AI for review.\n");
    } else {
        push_str(&mut out, "\n");
    }
    assert(out@ =~= format_text_spec(result@));
    to_string(&out)
}

} // verus!

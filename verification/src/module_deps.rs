//! Module and resource dependencies of an HTML file: ES imports, classic
//! scripts, stylesheets, CSS imports, iframes and objects, read line by line.
use vstd::prelude::*;
use memchr::memmem;

use crate::header::{extract_header, header_spans_lines, string_views};
use crate::text::{
    byte_len, chars_of, dec, find, find_seq, includes, lines_seq, lower_seq, push_all, push_str, skip,
    skip_past, slice, starts, starts_with, str_lines, to_lower, to_string, trim, trim_end_char_seq,
    trim_seq, unicode_lower, views,
};

verus! {

// ---------------------------------------------------------------------------
// Types
// ---------------------------------------------------------------------------

/// Kind of reference.
#[derive(Debug, Clone, Copy, PartialEq, Eq)]
pub enum DepType {
    /// ES module: import ... from '...' / import('...')
    JsModule,
    /// Classic script: `<script src="...">`
    JsScript,
    /// CSS link: `<link rel="stylesheet" href="...">`
    CssLink,
    /// CSS @import: `@import url('...')`
    CssImport,
    /// HTML reference: `<iframe src="...">`, `<object data="...">`
    HtmlRef,
}

pub open spec fn dep_type_label(t: DepType) -> Seq<char> {
    match t {
        DepType::JsModule => "js-module"@,
        DepType::JsScript => "js-script"@,
        DepType::CssLink => "css-link"@,
        DepType::CssImport => "css-import"@,
        DepType::HtmlRef => "html-ref"@,
    }
}

impl DepType {
    /// The label of the kind, e.g. `js-module`.
    pub fn to_string(&self) -> (r: String)
        ensures
            r@ == dep_type_label(*self),
    {
        match self {
            DepType::JsModule => String::from_str("js-module"),
            DepType::JsScript => String::from_str("js-script"),
            DepType::CssLink => String::from_str("css-link"),
            DepType::CssImport => String::from_str("css-import"),
            DepType::HtmlRef => String::from_str("html-ref"),
        }
    }
}

/// One dependency of a file.
#[derive(Debug, Clone)]
pub struct ModuleDep {
    /// The import/reference source text (e.g. "./utils.js")
    pub source: String,
    /// Resolved path (if local)
    pub resolved_path: Option<String>,
    pub dep_type: DepType,
    /// Line number where the import appears (1-based)
    pub line: usize,
    /// Whether the file exists on disk
    pub exists: bool,
    /// The header's title line when the file has one, else its first 100 characters
    pub preview: Option<String>,
    /// Whether the dependent file has an AI-SKILL-HEADER
    pub has_header: bool,
}

/// The dependencies of a file (and, when scanned recursively, of its own).
#[derive(Debug, Clone)]
pub struct ModuleDepsResult {
    pub file: String,
    pub total: usize,
    pub local: usize,
    pub remote: usize,
    pub missing: usize,
    pub deps: Vec<ModuleDep>,
}

impl ModuleDepsResult {
    /// The command's exit code: 1 where some local dependency is missing.
    pub fn exit_code(&self) -> (r: i32)
        ensures
            r == (if self.missing > 0 { 1i32 } else { 0i32 }),
    {
        if self.missing > 0 {
            1
        } else {
            0
        }
    }
}

/// A dependency as found in the text: `(source, kind, 1-based line)`.
pub type FoundDep = (Seq<char>, DepType, nat);

pub open spec fn found_view(d: ModuleDep) -> FoundDep {
    (d.source@, d.dep_type, d.line as nat)
}

pub open spec fn found_views(v: Seq<ModuleDep>) -> Seq<FoundDep> {
    v.map_values(|d: ModuleDep| found_view(d))
}

/// A dependency just found: not resolved, not checked on disk.
pub open spec fn fresh(d: ModuleDep) -> bool {
    d.resolved_path is None && !d.exists && d.preview is None && !d.has_header
}

pub open spec fn all_fresh(v: Seq<ModuleDep>) -> bool {
    forall|i: int| 0 <= i < v.len() ==> fresh(#[trigger] v[i])
}

fn push_dep(deps: &mut Vec<ModuleDep>, source: Vec<char>, dep_type: DepType, line: usize)
    requires
        all_fresh(old(deps)@),
    ensures
        found_views(final(deps)@) == found_views(old(deps)@).push((source@, dep_type, line as nat)),
        all_fresh(final(deps)@),
{
    let ghost before = found_views(deps@);
    deps.push(
        ModuleDep {
            source: to_string(&source),
            resolved_path: None,
            dep_type,
            line,
            exists: false,
            preview: None,
            has_header: false,
        },
    );
    assert(found_views(deps@) =~= before.push((source@, dep_type, line as nat)));
}

// ---------------------------------------------------------------------------
// Quoted text
// ---------------------------------------------------------------------------

/// The text between the quotes of a trimmed `'x'` or `"x"`.
pub open spec fn quoted(s: Seq<char>) -> Option<Seq<char>> {
    let t = trim_seq(s);
    if (starts(t, "\""@) && crate::text::ends(t, "\""@)) || (starts(t, "'"@) && crate::text::ends(
        t,
        "'"@,
    )) {
        Some(t.subrange(1, t.len() - 1))
    } else {
        None
    }
}

/// The text is no lone quote character (which has no inside to take).
pub open spec fn quotable(s: Seq<char>) -> bool {
    let t = trim_seq(s);
    !(t.len() == 1 && (t[0] == '"' || t[0] == '\''))
}

fn extract_quoted(s: &Vec<char>) -> (r: Option<Vec<char>>)
    requires
        quotable(s@),
    ensures
        r is None <==> quoted(s@) is None,
        r matches Some(v) ==> quoted(s@) == Some(v@),
{
    proof {
        reveal_strlit("\"");
        reveal_strlit("'");
    }
    let t = trim(s);
    let dq = chars_of("\"");
    let sq = chars_of("'");
    if (starts_with(&t, &dq) && crate::text::ends_with(&t, &dq)) || (starts_with(&t, &sq)
        && crate::text::ends_with(&t, &sq)) {
        proof {
            if t@.len() == 1 {
                assert(t@.take(1)[0] == t@[0]);
            }
        }
        Some(slice(&t, 1, t.len() - 1))
    } else {
        None
    }
}

/// The text between the first pair of `"`, else of `'`.
pub open spec fn quoted_in(s: Seq<char>) -> Option<Seq<char>> {
    match quoted_with(s, '"') {
        Some(v) => Some(v),
        None => quoted_with(s, '\''),
    }
}

pub open spec fn quoted_with(s: Seq<char>, q: char) -> Option<Seq<char>> {
    match find_seq(s, seq![q]) {
        Some(st) => match find_seq(s.skip(st + 1), seq![q]) {
            Some(e) => Some(s.subrange(st + 1, st + 1 + e)),
            None => None,
        },
        None => None,
    }
}

fn quoted_with_exec(s: &Vec<char>, q: char) -> (r: Option<Vec<char>>)
    ensures
        r is None <==> quoted_with(s@, q) is None,
        r matches Some(v) ==> quoted_with(s@, q) == Some(v@),
{
    let mut qv: Vec<char> = Vec::new();
    qv.push(q);
    assert(qv@ =~= seq![q]);
    match find(s, &qv) {
        Some(st) => {
            let rest = skip_past(s, st, 1);
            match find(&rest, &qv) {
                Some(e) => {
                    let n = s.len();
                    assert(e + 1 <= rest@.len());
                    Some(slice(s, st + 1, st + 1 + e))
                },
                None => None,
            }
        },
        None => None,
    }
}

/// Find content between the first quote pair in a text.
fn find_quoted_in(s: &Vec<char>) -> (r: Option<Vec<char>>)
    ensures
        r is None <==> quoted_in(s@) is None,
        r matches Some(v) ==> quoted_in(s@) == Some(v@),
{
    match quoted_with_exec(s, '"') {
        Some(v) => Some(v),
        None => quoted_with_exec(s, '\''),
    }
}

// ---------------------------------------------------------------------------
// Scanners (each takes a trimmed line)
// ---------------------------------------------------------------------------

/// What an `import`/`export` line hands to the quote extraction, if anything.
pub open spec fn es_rest(t: Seq<char>) -> Option<Seq<char>> {
    if !(starts(t, "import "@) || starts(t, "export "@)) {
        None
    } else {
        match find_seq(t, " from "@) {
            Some(fp) => Some(trim_end_char_seq(trim_seq(t.skip(fp + 6)), ';')),
            None => if starts(t, "import "@) {
                Some(trim_end_char_seq(trim_seq(t.skip(7)), ';'))
            } else {
                None
            },
        }
    }
}

pub open spec fn es_deps(t: Seq<char>, n: nat) -> Seq<FoundDep> {
    match es_rest(t) {
        Some(rest) => match quoted(rest) {
            Some(p) => seq![(p, DepType::JsModule, n)],
            None => Seq::empty(),
        },
        None => Seq::empty(),
    }
}

/// `import(...)` calls from position `pos` of the line on.
pub open spec fn dynamic_deps(t: Seq<char>, n: nat) -> Seq<FoundDep>
    decreases t.len(),
{
    match find_seq(t, "import("@) {
        Some(pos) => {
            proof {
                reveal_strlit("import(");
                crate::text::lemma_find_some(t, "import("@);
            }
            let rest = t.skip(pos + 7);
            let here = match quoted_in(rest) {
                Some(p) => seq![(p, DepType::JsModule, n)],
                None => Seq::empty(),
            };
            here + dynamic_deps(rest, n)
        },
        None => Seq::empty(),
    }
}

/// The reference held by the first `attr` of a line whose lower case holds
/// `tag` (and `also`), of kind `kind`.
pub open spec fn attr_dep(t: Seq<char>, n: nat, tag: Seq<char>, also: Seq<char>, attr: Seq<char>, kind: DepType) -> Seq<FoundDep> {
    let low = lower_seq(t);
    if !includes(unicode_lower(t), tag) || !(includes(unicode_lower(t), also)) {
        Seq::empty()
    } else {
        match find_seq(low, attr) {
            Some(pos) => match quoted_in(t.skip(pos + attr.len())) {
                Some(p) => seq![(p, kind, n)],
                None => Seq::empty(),
            },
            None => Seq::empty(),
        }
    }
}

/// Quote characters trimmed from both ends.
pub open spec fn trim_quotes(s: Seq<char>) -> Seq<char>
    decreases s.len(),
{
    if s.len() > 0 && (s[0] == '\'' || s[0] == '"') {
        trim_quotes(s.drop_first())
    } else if s.len() > 0 && (s.last() == '\'' || s.last() == '"') {
        trim_quotes(s.drop_last())
    } else {
        s
    }
}

/// What a plain `@import` line hands to the quote extraction, if anything.
pub open spec fn css_rest(t: Seq<char>) -> Option<Seq<char>> {
    let tt = trim_seq(t);
    if !starts(tt, "@import"@) {
        None
    } else {
        let rest = trim_seq(tt.skip(7));
        if starts(rest, "url("@) {
            None
        } else {
            Some(trim_seq(trim_end_char_seq(rest, ';')))
        }
    }
}

pub open spec fn css_deps(t: Seq<char>, n: nat) -> Seq<FoundDep> {
    let tt = trim_seq(t);
    if !starts(tt, "@import"@) {
        Seq::empty()
    } else {
        let rest = trim_seq(tt.skip(7));
        if starts(rest, "url("@) {
            let inner = rest.skip(4);
            match find_seq(inner, ")"@) {
                Some(e) => {
                    let path = trim_quotes(trim_seq(inner.take(e)));
                    if path.len() > 0 {
                        seq![(path, DepType::CssImport, n)]
                    } else {
                        Seq::empty()
                    }
                },
                None => Seq::empty(),
            }
        } else {
            match quoted(trim_seq(trim_end_char_seq(rest, ';'))) {
                Some(p) => seq![(p, DepType::CssImport, n)],
                None => Seq::empty(),
            }
        }
    }
}

/// The dependencies a trimmed line declares, in the order of the scanners.
pub open spec fn line_deps(t: Seq<char>, n: nat) -> Seq<FoundDep> {
    es_deps(t, n) + dynamic_deps(t, n) + attr_dep(t, n, "<script"@, "src="@, "src="@, DepType::JsScript)
        + attr_dep(t, n, "<link"@, "stylesheet"@, "href="@, DepType::CssLink) + css_deps(t, n)
        + attr_dep(t, n, "<iframe"@, "<iframe"@, "src="@, DepType::HtmlRef) + attr_dep(
        t,
        n,
        "<object"@,
        "<object"@,
        "data="@,
        DepType::HtmlRef,
    )
}

/// The line can be scanned: no quote extraction meets a lone quote.
pub open spec fn line_scannable(t: Seq<char>) -> bool {
    &&& (es_rest(t) matches Some(r) ==> quotable(r))
    &&& (css_rest(t) matches Some(r) ==> quotable(r))
}

/// The dependencies of the first `k` lines.
pub open spec fn content_deps(lines: Seq<Seq<char>>, k: nat) -> Seq<FoundDep>
    decreases k,
{
    if k == 0 || k > lines.len() {
        Seq::empty()
    } else {
        content_deps(lines, (k - 1) as nat) + line_deps(trim_seq(lines[k - 1]), k)
    }
}

/// Every line of the text can be scanned.
pub open spec fn scannable(content: Seq<char>) -> bool {
    forall|i: int| 0 <= i < lines_seq(content).len() ==> line_scannable(trim_seq(#[trigger] lines_seq(content)[i]))
}

/// What follows `from` (or `import`) on an ES import or export line.
fn es_rest_exec(line: &Vec<char>) -> (r: Option<Vec<char>>)
    ensures
        r is None <==> es_rest(line@) is None,
        r matches Some(v) ==> es_rest(line@) == Some(v@),
{
    proof {
        reveal_strlit(" from ");
        reveal_strlit("import ");
    }
    let imp = chars_of("import ");
    let exp = chars_of("export ");
    if !(starts_with(line, &imp) || starts_with(line, &exp)) {
        return None;
    }
    let from = chars_of(" from ");
    match find(line, &from) {
        Some(fp) => Some(trim_end_char(&trim(&skip_past(line, fp, 6)), ';')),
        None => if starts_with(line, &imp) {
            Some(trim_end_char(&trim(&skip(line, 7)), ';'))
        } else {
            None
        },
    }
}

/// What follows `@import` on a CSS import line, unless it is a `url(...)`.
fn css_rest_exec(line: &Vec<char>) -> (r: Option<Vec<char>>)
    ensures
        r is None <==> css_rest(line@) is None,
        r matches Some(v) ==> css_rest(line@) == Some(v@),
{
    proof {
        reveal_strlit("@import");
        reveal_strlit("url(");
    }
    let t = trim(line);
    if !starts_with(&t, &chars_of("@import")) {
        return None;
    }
    let rest = trim(&skip(&t, 7));
    if starts_with(&rest, &chars_of("url(")) {
        None
    } else {
        Some(trim(&trim_end_char(&rest, ';')))
    }
}

fn quotable_exec(s: &Vec<char>) -> (r: bool)
    ensures
        r == quotable(s@),
{
    let t = trim(s);
    !(t.len() == 1 && (t[0] == '"' || t[0] == '\''))
}

/// Whether every line of the text can be scanned (see [`scannable`]): where
/// a line that imports names a lone quote, the dependencies cannot be read.
pub fn is_scannable(content: &str) -> (r: bool)
    ensures
        r == scannable(content@),
{
    let lines = str_lines(content);
    let ghost ls = views(lines@);
    let mut i: usize = 0;
    while i < lines.len()
        invariant
            i <= lines.len(),
            ls == views(lines@),
            ls == lines_seq(content@),
            forall|j: int| 0 <= j < i ==> line_scannable(trim_seq(#[trigger] ls[j])),
        decreases lines.len() - i,
    {
        let t = trim(&lines[i]);
        assert(t@ == trim_seq(ls[i as int]));
        let es_ok = match es_rest_exec(&t) {
            Some(r) => quotable_exec(&r),
            None => true,
        };
        let css_ok = match css_rest_exec(&t) {
            Some(r) => quotable_exec(&r),
            None => true,
        };
        if !(es_ok && css_ok) {
            return false;
        }
        i = i + 1;
    }
    true
}

fn scan_es_imports(line: &Vec<char>, line_num: usize, deps: &mut Vec<ModuleDep>)
    requires
        all_fresh(old(deps)@),
        line_scannable(line@),
    ensures
        found_views(final(deps)@) == found_views(old(deps)@) + es_deps(line@, line_num as nat),
        all_fresh(final(deps)@),
{
    let ghost o = found_views(deps@);
    let rest = es_rest_exec(line);
    match rest {
        Some(r) => match extract_quoted(&r) {
            Some(p) => push_dep(deps, p, DepType::JsModule, line_num),
            None => {
                assert(found_views(deps@) =~= o + Seq::<FoundDep>::empty());
            },
        },
        None => {
            assert(found_views(deps@) =~= o + Seq::<FoundDep>::empty());
        },
    }
}

fn trim_end_char(s: &Vec<char>, c: char) -> (r: Vec<char>)
    ensures
        r@ == trim_end_char_seq(s@, c),
{
    let mut k: usize = s.len();
    while k > 0 && s[k - 1] == c
        invariant
            k <= s.len(),
            forall|j: int| k <= j < s@.len() ==> #[trigger] s@[j] == c,
        decreases k,
    {
        k = k - 1;
    }
    proof {
        crate::text::lemma_trim_end_char_take(s@, c, k as int);
        if k > 0 {
            assert(s@.take(k as int).last() == s@[k - 1]);
        }
    }
    slice(s, 0, k)
}

fn scan_dynamic_imports(line: &Vec<char>, line_num: usize, deps: &mut Vec<ModuleDep>)
    requires
        all_fresh(old(deps)@),
    ensures
        all_fresh(final(deps)@),
        found_views(final(deps)@) == found_views(old(deps)@) + dynamic_deps(line@, line_num as nat),
{
    let ghost o = found_views(deps@);
    let pat = chars_of("import(");
    proof {
        reveal_strlit("import(");
    }
    assert(pat@.len() == 7);
    let mut search = crate::text::copy(line);
    assert(found_views(deps@) + dynamic_deps(search@, line_num as nat) =~= o + dynamic_deps(line@, line_num as nat));
    loop
        invariant
            pat@ == "import("@,
            pat@.len() == 7,
            o == found_views(old(deps)@),
            all_fresh(deps@),
            found_views(deps@) + dynamic_deps(search@, line_num as nat) == o + dynamic_deps(line@, line_num as nat),
        decreases search@.len(),
    {
        match find(&search, &pat) {
            Some(pos) => {
                let rest = skip_past(&search, pos, 7);
                let ghost d0 = found_views(deps@);
                match find_quoted_in(&rest) {
                    Some(p) => {
                        push_dep(deps, p, DepType::JsModule, line_num);
                    },
                    None => {},
                }
                assert(found_views(deps@) + dynamic_deps(rest@, line_num as nat) =~= d0 + dynamic_deps(
                    search@,
                    line_num as nat,
                ));
                search = rest;
            },
            None => {
                assert(found_views(deps@) =~= o + dynamic_deps(line@, line_num as nat));
                return;
            },
        }
    }
}

fn scan_attr(
    line: &Vec<char>,
    line_num: usize,
    tag: &str,
    also: &str,
    attr: &str,
    kind: DepType,
    deps: &mut Vec<ModuleDep>,
)
    requires
        all_fresh(old(deps)@),
    ensures
        all_fresh(final(deps)@),
        found_views(final(deps)@) == found_views(old(deps)@) + attr_dep(line@, line_num as nat, tag@, also@, attr@, kind),
{
    let ghost o = found_views(deps@);
    let folded = crate::text::lowercase(line);
    let lower = to_lower(line);
    assert(lower@.len() == line@.len());
    if !crate::text::contains(&folded, &chars_of(tag)) || !crate::text::contains(&folded, &chars_of(also)) {
        assert(found_views(deps@) =~= o + Seq::<FoundDep>::empty());
        return;
    }
    let a = chars_of(attr);
    match find(&lower, &a) {
        Some(pos) => {
            let rest = skip_past(line, pos, a.len());
            match find_quoted_in(&rest) {
                Some(p) => push_dep(deps, p, kind, line_num),
                None => {
                    assert(found_views(deps@) =~= o + Seq::<FoundDep>::empty());
                },
            }
        },
        None => {
            assert(found_views(deps@) =~= o + Seq::<FoundDep>::empty());
        },
    }
}

fn trim_quotes_exec(s: &Vec<char>) -> (r: Vec<char>)
    ensures
        r@ == trim_quotes(s@),
{
    let mut a: usize = 0;
    let mut b: usize = s.len();
    assert(s@.subrange(0, s@.len() as int) =~= s@);
    while a < b && (s[a] == '\'' || s[a] == '"')
        invariant
            a <= b <= s.len(),
            b == s.len(),
            trim_quotes(s@) == trim_quotes(s@.subrange(a as int, b as int)),
        decreases b - a,
    {
        assert(s@.subrange(a as int, b as int).drop_first() =~= s@.subrange(a + 1, b as int));
        a = a + 1;
    }
    while a < b && (s[b - 1] == '\'' || s[b - 1] == '"')
        invariant
            a <= b <= s.len(),
            a == b || !(s@[a as int] == '\'' || s@[a as int] == '"'),
            trim_quotes(s@) == trim_quotes(s@.subrange(a as int, b as int)),
        decreases b - a,
    {
        assert(s@.subrange(a as int, b as int).drop_last() =~= s@.subrange(a as int, b - 1));
        if a < b - 1 {
            assert(s@.subrange(a as int, b - 1)[0] == s@[a as int]);
        }
        b = b - 1;
    }
    if a < b {
        assert(s@.subrange(a as int, b as int)[0] == s@[a as int]);
        assert(s@.subrange(a as int, b as int).last() == s@[b - 1]);
    } else {
        assert(s@.subrange(a as int, b as int) =~= Seq::<char>::empty());
    }
    slice(s, a, b)
}

fn scan_css_import(line: &Vec<char>, line_num: usize, deps: &mut Vec<ModuleDep>)
    requires
        all_fresh(old(deps)@),
        line_scannable(line@),
    ensures
        found_views(final(deps)@) == found_views(old(deps)@) + css_deps(line@, line_num as nat),
        all_fresh(final(deps)@),
{
    let ghost o = found_views(deps@);
    proof {
        reveal_strlit("@import");
        reveal_strlit("url(");
        reveal_strlit(")");
    }
    let t = trim(line);
    if !starts_with(&t, &chars_of("@import")) {
        assert(found_views(deps@) =~= o + Seq::<FoundDep>::empty());
        return;
    }
    let rest = trim(&skip(&t, 7));
    if starts_with(&rest, &chars_of("url(")) {
        let inner = skip(&rest, 4);
        match find(&inner, &chars_of(")")) {
            Some(e) => {
                let part = trim(&slice(&inner, 0, e));
                assert(inner@.subrange(0, e as int) =~= inner@.take(e as int));
                let path = trim_quotes_exec(&part);
                if path.len() > 0 {
                    push_dep(deps, path, DepType::CssImport, line_num);
                } else {
                    assert(found_views(deps@) =~= o + Seq::<FoundDep>::empty());
                }
            },
            None => {
                assert(found_views(deps@) =~= o + Seq::<FoundDep>::empty());
            },
        }
    } else {
        let r = trim(&trim_end_char(&rest, ';'));
        match extract_quoted(&r) {
            Some(p) => push_dep(deps, p, DepType::CssImport, line_num),
            None => {
                assert(found_views(deps@) =~= o + Seq::<FoundDep>::empty());
            },
        }
    }
}

/// The dependencies a trimmed line declares.
#[verifier::rlimit(30)]
fn scan_line(t: &Vec<char>, line_num: usize, deps: &mut Vec<ModuleDep>)
    requires
        line_scannable(t@),
        all_fresh(old(deps)@),
    ensures
        found_views(final(deps)@) == found_views(old(deps)@) + line_deps(t@, line_num as nat),
        all_fresh(final(deps)@),
{
    let ghost o = found_views(deps@);
    scan_es_imports(t, line_num, deps);
    scan_dynamic_imports(t, line_num, deps);
    scan_attr(t, line_num, "<script", "src=", "src=", DepType::JsScript, deps);
    scan_attr(t, line_num, "<link", "stylesheet", "href=", DepType::CssLink, deps);
    scan_css_import(t, line_num, deps);
    scan_attr(t, line_num, "<iframe", "<iframe", "src=", DepType::HtmlRef, deps);
    scan_attr(t, line_num, "<object", "<object", "data=", DepType::HtmlRef, deps);
    assert(found_views(deps@) =~= o + line_deps(t@, line_num as nat));
}


// ---------------------------------------------------------------------------
// Scanning a file's text
// ---------------------------------------------------------------------------

/// The dependencies declared by the lines of a text, each not yet resolved.
pub fn scan_content(content: &str) -> (r: Vec<ModuleDep>)
    requires
        scannable(content@),
    ensures
        found_views(r@) == content_deps(lines_seq(content@), lines_seq(content@).len()),
        all_fresh(r@),
{
    let lines = str_lines(content);
    let ghost ls = views(lines@);
    let mut deps: Vec<ModuleDep> = Vec::new();
    let mut idx: usize = 0;
    assert(found_views(deps@) =~= Seq::<FoundDep>::empty());
    while idx < lines.len()
        invariant
            idx <= lines.len(),
            ls == views(lines@),
            ls == lines_seq(content@),
            scannable(content@),
            all_fresh(deps@),
            found_views(deps@) == content_deps(ls, idx as nat),
        decreases lines.len() - idx,
    {
        let t = trim(&lines[idx]);
        assert(line_scannable(trim_seq(lines_seq(content@)[idx as int])));
        scan_line(&t, idx + 1, &mut deps);
        idx = idx + 1;
    }
    deps
}

/// An ES import or export line `kw x from 'p'` (or with double quotes), with a
/// `;` at its end or not.
pub open spec fn es_from_line(kw: Seq<char>, x: Seq<char>, q: char, p: Seq<char>, semi: bool) -> Seq<char> {
    kw + x + " from "@ + seq![q] + p + seq![q] + if semi {
        seq![';']
    } else {
        Seq::<char>::empty()
    }
}

/// A line `import x from 'p'` or `export x from 'p'` (double quotes too, with
/// or without `;`) in which ` from ` first stands right before the quoted
/// path declares one ES module dependency: `p`, at that line's number.
pub proof fn lemma_es_from_line_deps(kw: Seq<char>, x: Seq<char>, q: char, p: Seq<char>, semi: bool, n: nat)
    requires
        kw == "import "@ || kw == "export "@,
        q == '\'' || q == '"',
        !includes(kw + x + " from"@, " from "@),
    ensures
        es_deps(es_from_line(kw, x, q, p, semi), n) == seq![(p, DepType::JsModule, n)],
        line_deps(es_from_line(kw, x, q, p, semi), n)[0] == (p, DepType::JsModule, n),
{
    reveal_strlit("import ");
    reveal_strlit("export ");
    reveal_strlit(" from ");
    reveal_strlit(" from");
    reveal_strlit("\"");
    reveal_strlit("'");
    let t = es_from_line(kw, x, q, p, semi);
    let pre = kw + x + " from"@;
    let qp = seq![q] + p + seq![q];
    let tail = qp + if semi {
        seq![';']
    } else {
        Seq::<char>::empty()
    };
    let i: int = (kw.len() + x.len()) as int;
    assert(t =~= pre + seq![' '] + tail);
    assert(t.take(7) =~= kw);
    assert(starts(t, "import "@) || starts(t, "export "@));
    assert(t.subrange(i, i + 6) =~= " from "@);
    assert forall|j: int| 0 <= j < i implies !crate::text::occurs_at(t, " from "@, j) by {
        if crate::text::occurs_at(t, " from "@, j) {
            assert(t.subrange(j, j + 6) =~= pre.subrange(j, j + 6));
            assert(crate::text::occurs_at(pre, " from "@, j));
        }
    }
    crate::text::lemma_find_is(t, " from "@, i);
    assert(t.skip(i + 6) =~= tail);
    assert(trim_seq(tail) == tail) by {
        assert(tail[0] == q);
        assert(crate::text::trim_start_seq(tail) == tail);
        assert(!crate::text::is_ws(tail.last()));
    }
    assert(trim_end_char_seq(tail, ';') == qp) by {
        if semi {
            assert(tail.drop_last() =~= qp);
            assert(trim_end_char_seq(qp, ';') == qp);
        }
    }
    assert(es_rest(t) == Some(qp));
    assert(trim_seq(qp) == qp) by {
        assert(qp[0] == q);
        assert(crate::text::trim_start_seq(qp) == qp);
        assert(qp.last() == q);
    }
    assert(starts(qp, seq![q]) && crate::text::ends(qp, seq![q])) by {
        assert(qp.take(1) =~= seq![q]);
        assert(qp.skip(qp.len() - 1) =~= seq![q]);
    }
    assert(qp.subrange(1, qp.len() - 1) =~= p);
    if q == '\'' {
        assert("'"@ =~= seq![q]);
    } else {
        assert("\""@ =~= seq![q]);
    }
    assert(quoted(qp) == Some(p));
    assert(es_deps(t, n) =~= seq![(p, DepType::JsModule, n)]);
}

/// A bare import line `import 'p'` (or with double quotes), with a `;` at
/// its end or not.
pub open spec fn es_bare_line(q: char, p: Seq<char>, semi: bool) -> Seq<char> {
    "import "@ + seq![q] + p + seq![q] + if semi {
        seq![';']
    } else {
        Seq::<char>::empty()
    }
}

/// A bare import line `import 'p'` (double quotes too, with or without `;`)
/// in which no ` from ` stands declares one ES module dependency: `p`, at
/// that line's number.
pub proof fn lemma_es_bare_line_deps(q: char, p: Seq<char>, semi: bool, n: nat)
    requires
        q == '\'' || q == '"',
        !includes(es_bare_line(q, p, semi), " from "@),
    ensures
        es_deps(es_bare_line(q, p, semi), n) == seq![(p, DepType::JsModule, n)],
        line_deps(es_bare_line(q, p, semi), n)[0] == (p, DepType::JsModule, n),
{
    reveal_strlit("import ");
    reveal_strlit("\"");
    reveal_strlit("'");
    let t = es_bare_line(q, p, semi);
    let qp = seq![q] + p + seq![q];
    let tail = qp + if semi {
        seq![';']
    } else {
        Seq::<char>::empty()
    };
    assert(t =~= "import "@ + tail);
    assert(t.take(7) =~= "import "@);
    assert(find_seq(t, " from "@) is None);
    assert(t.skip(7) =~= tail);
    assert(trim_seq(tail) == tail) by {
        assert(tail[0] == q);
        assert(crate::text::trim_start_seq(tail) == tail);
        assert(!crate::text::is_ws(tail.last()));
    }
    assert(trim_end_char_seq(tail, ';') == qp) by {
        if semi {
            assert(tail.drop_last() =~= qp);
            assert(trim_end_char_seq(qp, ';') == qp);
        }
    }
    assert(es_rest(t) == Some(qp));
    assert(trim_seq(qp) == qp) by {
        assert(qp[0] == q);
        assert(crate::text::trim_start_seq(qp) == qp);
        assert(qp.last() == q);
    }
    assert(starts(qp, seq![q]) && crate::text::ends(qp, seq![q])) by {
        assert(qp.take(1) =~= seq![q]);
        assert(qp.skip(qp.len() - 1) =~= seq![q]);
    }
    assert(qp.subrange(1, qp.len() - 1) =~= p);
    if q == '\'' {
        assert("'"@ =~= seq![q]);
    } else {
        assert("\""@ =~= seq![q]);
    }
    assert(quoted(qp) == Some(p));
    assert(es_deps(t, n) =~= seq![(p, DepType::JsModule, n)]);
}

/// The lines of a text that declare a dependency keep it in what the text
/// declares: each dependency of line `k` (1-based) is among those of the text.
pub proof fn lemma_content_deps_keep_line(lines: Seq<Seq<char>>, k: nat, m: nat, j: int)
    requires
        1 <= k <= m <= lines.len(),
        0 <= j < line_deps(trim_seq(lines[k - 1]), k).len(),
    ensures
        content_deps(lines, m).contains(line_deps(trim_seq(lines[k - 1]), k)[j]),
    decreases m,
{
    let d = line_deps(trim_seq(lines[k - 1]), k)[j];
    if m == k {
        let a = content_deps(lines, (k - 1) as nat);
        let b = line_deps(trim_seq(lines[k - 1]), k);
        assert((a + b)[a.len() + j] == d);
    } else {
        lemma_content_deps_keep_line(lines, k, (m - 1) as nat, j);
        let a = content_deps(lines, (m - 1) as nat);
        let w = choose|w: int| 0 <= w < a.len() && a[w] == d;
        assert((a + line_deps(trim_seq(lines[m - 1]), m))[w] == d);
    }
}

/// A text one of whose lines reads, trimmed, `import x from 'p'` (or
/// `export`, double quotes, a final `;`) with ` from ` first right before the
/// path declares `p` as an ES module dependency at that line's number.
pub proof fn lemma_text_declares_es_import(
    content: Seq<char>,
    k: nat,
    kw: Seq<char>,
    x: Seq<char>,
    q: char,
    p: Seq<char>,
    semi: bool,
)
    requires
        1 <= k <= lines_seq(content).len(),
        trim_seq(lines_seq(content)[k - 1]) == es_from_line(kw, x, q, p, semi),
        kw == "import "@ || kw == "export "@,
        q == '\'' || q == '"',
        !includes(kw + x + " from"@, " from "@),
    ensures
        content_deps(lines_seq(content), lines_seq(content).len()).contains(
            (p, DepType::JsModule, k),
        ),
{
    let ls = lines_seq(content);
    lemma_es_from_line_deps(kw, x, q, p, semi, k);
    lemma_content_deps_keep_line(ls, k, ls.len(), 0);
}

pub open spec fn is_remote_spec(s: Seq<char>) -> bool {
    starts(s, "http://"@) || starts(s, "https://"@) || starts(s, "//"@) || starts(s, "data:"@)
}

/// A URL, a protocol-relative reference or a data URL.
pub fn is_remote(source: &str) -> (r: bool)
    ensures
        r == is_remote_spec(source@),
{
    let s = chars_of(source);
    starts_with(&s, &chars_of("http://")) || starts_with(&s, &chars_of("https://")) || starts_with(
        &s,
        &chars_of("//"),
    ) || starts_with(&s, &chars_of("data:"))
}

/// A source without its `[depth N] ` tag.
pub open spec fn strip_depth(s: Seq<char>) -> Seq<char> {
    if starts(s, "[depth "@) {
        match find_seq(s, "] "@) {
            Some(p) => s.skip(p + 2),
            None => s,
        }
    } else {
        s
    }
}

/// Whether a source, possibly tagged with its depth, is remote.
fn is_remote_from_source(source: &str) -> (r: bool)
    ensures
        r == is_remote_spec(strip_depth(source@)),
{
    proof {
        reveal_strlit("] ");
    }
    let s = chars_of(source);
    let clean = if starts_with(&s, &chars_of("[depth ")) {
        match find(&s, &chars_of("] ")) {
            Some(p) => skip_past(&s, p, 2),
            None => s,
        }
    } else {
        s
    };
    is_remote(to_string(&clean).as_str())
}

/// Mark remote dependencies as existing (they are not checked); returns the
/// positions of the local ones, whose files are to be looked for.
pub fn settle_remote(deps: &mut Vec<ModuleDep>) -> (r: Vec<usize>)
    ensures
        final(deps)@.len() == old(deps)@.len(),
        forall|i: int|
            0 <= i < old(deps)@.len() ==> #[trigger] final(deps)@[i] == (if is_remote_spec(old(deps)@[i].source@) {
                ModuleDep { exists: true, ..old(deps)@[i] }
            } else {
                old(deps)@[i]
            }),
        forall|k: int| 0 <= k < r@.len() ==> #[trigger] r@[k] < old(deps)@.len(),
        forall|k: int| 0 <= k < r@.len() ==> !is_remote_spec(#[trigger] old(deps)@[r@[k] as int].source@),
        forall|i: int|
            0 <= i < old(deps)@.len() && !is_remote_spec(old(deps)@[i].source@) ==> r@.contains(i as usize),
        forall|j: int, k: int| 0 <= j < k < r@.len() ==> r@[j] < r@[k],
{
    let ghost d0 = deps@;
    let mut locals: Vec<usize> = Vec::new();
    let mut i: usize = 0;
    while i < deps.len()
        invariant
            i <= deps.len(),
            deps@.len() == d0.len(),
            forall|j: int|
                0 <= j < i ==> #[trigger] deps@[j] == (if is_remote_spec(d0[j].source@) {
                    ModuleDep { exists: true, ..d0[j] }
                } else {
                    d0[j]
                }),
            forall|j: int| i <= j < d0.len() ==> #[trigger] deps@[j] == d0[j],
            forall|k: int| 0 <= k < locals@.len() ==> #[trigger] locals@[k] < i,
            forall|k: int| 0 <= k < locals@.len() ==> !is_remote_spec(#[trigger] d0[locals@[k] as int].source@),
            forall|j: int| 0 <= j < i && !is_remote_spec(d0[j].source@) ==> locals@.contains(j as usize),
            forall|j: int, k: int| 0 <= j < k < locals@.len() ==> locals@[j] < locals@[k],
        decreases deps.len() - i,
    {
        if is_remote(deps[i].source.as_str()) {
            let mut d = deps.remove(i);
            d.exists = true;
            deps.insert(i, d);
        } else {
            let ghost before = locals@;
            locals.push(i);
            assert(locals@[before.len() as int] == i);
            assert forall|j: int| 0 <= j < i + 1 && !is_remote_spec(d0[j].source@) implies locals@.contains(j as usize) by {
                if j < i {
                    let k = choose|k: int| 0 <= k < before.len() && before[k] == j as usize;
                    assert(locals@[k] == j as usize);
                } else {
                    assert(locals@[before.len() as int] == i);
                }
            }
        }
        i = i + 1;
    }
    locals
}

/// The dependency counts of a list (sources tagged with their depth when
/// `tagged`).
pub open spec fn count_local(v: Seq<ModuleDep>, tagged: bool) -> nat
    decreases v.len(),
{
    if v.len() == 0 {
        0
    } else {
        let s = if tagged {
            strip_depth(v.last().source@)
        } else {
            v.last().source@
        };
        count_local(v.drop_last(), tagged) + if !is_remote_spec(s) {
            1nat
        } else {
            0nat
        }
    }
}

pub open spec fn count_missing(v: Seq<ModuleDep>, tagged: bool) -> nat
    decreases v.len(),
{
    if v.len() == 0 {
        0
    } else {
        let s = if tagged {
            strip_depth(v.last().source@)
        } else {
            v.last().source@
        };
        count_missing(v.drop_last(), tagged) + if !v.last().exists && !is_remote_spec(s) {
            1nat
        } else {
            0nat
        }
    }
}

proof fn lemma_counts_le(v: Seq<ModuleDep>, tagged: bool)
    ensures
        count_missing(v, tagged) <= count_local(v, tagged) <= v.len(),
    decreases v.len(),
{
    if v.len() > 0 {
        lemma_counts_le(v.drop_last(), tagged);
    }
}

/// The result of a scan of `file`: the dependencies with their counts.
pub fn summarize_deps(file: String, deps: Vec<ModuleDep>, tagged: bool) -> (r: ModuleDepsResult)
    ensures
        r.file@ == file@,
        r.deps@ == deps@,
        r.total == deps@.len(),
        r.local == count_local(deps@, tagged),
        r.remote == deps@.len() - count_local(deps@, tagged),
        r.missing == count_missing(deps@, tagged),
{
    let ghost dv = deps@;
    let mut local: usize = 0;
    let mut missing: usize = 0;
    let mut i: usize = 0;
    while i < deps.len()
        invariant
            i <= deps.len(),
            dv == deps@,
            local == count_local(dv.take(i as int), tagged),
            missing == count_missing(dv.take(i as int), tagged),
            local <= i,
            missing <= i,
        decreases deps.len() - i,
    {
        assert(dv.take(i + 1).drop_last() =~= dv.take(i as int));
        let remote = if tagged {
            is_remote_from_source(deps[i].source.as_str())
        } else {
            is_remote(deps[i].source.as_str())
        };
        if !remote {
            local = local + 1;
            if !deps[i].exists {
                missing = missing + 1;
            }
        }
        i = i + 1;
    }
    assert(dv.take(dv.len() as int) =~= dv);
    proof {
        lemma_counts_le(dv, tagged);
    }
    let total = deps.len();
    ModuleDepsResult { file, total, local, remote: total - local, missing, deps }
}

/// Tag a dependency found at `depth` (below the first file) with its depth.
pub fn tag_depth(dep: &mut ModuleDep, depth: usize)
    ensures
        final(dep).source@ == (if depth > 0 {
            "[depth "@ + dec(depth as nat) + "] "@ + old(dep).source@
        } else {
            old(dep).source@
        }),
        final(dep).resolved_path == old(dep).resolved_path,
        final(dep).dep_type == old(dep).dep_type,
        final(dep).line == old(dep).line,
        final(dep).exists == old(dep).exists,
        final(dep).preview == old(dep).preview,
        final(dep).has_header == old(dep).has_header,
{
    if depth > 0 {
        let mut t = chars_of("[depth ");
        push_all(&mut t, &crate::text::decimal(depth));
        push_str(&mut t, "] ");
        push_str(&mut t, dep.source.as_str());
        dep.source = to_string(&t);
    }
}

/// Whether a dependency found at `depth` is to be scanned in turn: it
/// exists, is resolved, and `depth` is below `max_depth`.
pub fn should_follow(dep: &ModuleDep, depth: usize, max_depth: usize) -> (r: bool)
    ensures
        r == (dep.exists && depth < max_depth && dep.resolved_path is Some),
{
    dep.exists && depth < max_depth && dep.resolved_path.is_some()
}

/// Record `canonical` as visited; whether it was new.
pub fn first_visit(visited: &mut Vec<String>, canonical: &str) -> (r: bool)
    ensures
        r == !string_views(old(visited)@).contains(canonical@),
        string_views(final(visited)@) == (if r {
            string_views(old(visited)@).push(canonical@)
        } else {
            string_views(old(visited)@)
        }),
{
    let c = chars_of(canonical);
    let ghost sv = string_views(visited@);
    let mut i: usize = 0;
    while i < visited.len()
        invariant
            i <= visited.len(),
            sv == string_views(visited@),
            c@ == canonical@,
            forall|k: int| 0 <= k < i ==> sv[k] != c@,
        decreases visited.len() - i,
    {
        if crate::differ::vec_eq(&chars_of(visited[i].as_str()), &c) {
            assert(sv[i as int] == c@);
            assert(sv.contains(canonical@));
            return false;
        }
        i = i + 1;
    }
    assert(!sv.contains(canonical@));
    visited.push(to_string(&c));
    assert(string_views(visited@) =~= sv.push(c@));
    true
}

// ---------------------------------------------------------------------------
// The walk through the dependencies of dependencies
// ---------------------------------------------------------------------------

/// The walk through a page's dependencies and theirs: the files still to
/// read with their depths (the last is read next), the canonical paths seen,
/// and the dependencies found so far.
pub struct DepWalk {
    pub queue: Vec<(String, usize)>,
    pub visited: Vec<String>,
    pub found: Vec<ModuleDep>,
}

pub open spec fn queue_view(q: Seq<(String, usize)>) -> Seq<(Seq<char>, nat)> {
    q.map_values(|e: (String, usize)| (e.0@, e.1 as nat))
}

/// The source shown for a dependency found at `depth`.
pub open spec fn tagged_source(s: Seq<char>, depth: nat) -> Seq<char> {
    if depth > 0 {
        "[depth "@ + dec(depth) + "] "@ + s
    } else {
        s
    }
}

/// `t` is `d` as found at `depth`: its source tagged with the depth.
pub open spec fn tagged_as(t: ModuleDep, d: ModuleDep, depth: nat) -> bool {
    &&& t.source@ == tagged_source(d.source@, depth)
    &&& t.resolved_path == d.resolved_path
    &&& t.dep_type == d.dep_type
    &&& t.line == d.line
    &&& t.exists == d.exists
    &&& t.preview == d.preview
    &&& t.has_header == d.has_header
}

/// The files still to read and the paths seen after the dependencies `deps`
/// of a file at `depth` (with `canons` the canonical paths of their files):
/// each one that exists, is resolved and lies above `max` is to be read at
/// the next depth, unless its canonical path was seen already.
pub open spec fn walk_after(
    queue: Seq<(Seq<char>, nat)>,
    visited: Seq<Seq<char>>,
    deps: Seq<ModuleDep>,
    canons: Seq<Seq<char>>,
    depth: nat,
    max: nat,
) -> (Seq<(Seq<char>, nat)>, Seq<Seq<char>>)
    decreases deps.len(),
{
    if deps.len() == 0 {
        (queue, visited)
    } else {
        let (q, v) = walk_after(queue, visited, deps.drop_last(), canons.take(deps.len() - 1), depth, max);
        let d = deps.last();
        let c = canons[deps.len() - 1];
        if d.exists && depth < max && d.resolved_path is Some && !v.contains(c) {
            (q.push((d.resolved_path->0@, depth + 1)), v.push(c))
        } else {
            (q, v)
        }
    }
}

/// Start the walk at `file`, whose canonical path is `canonical`: it is the
/// first file to read, at depth 0.
pub fn dep_walk_start(file: String, canonical: String) -> (r: (DepWalk, (String, usize)))
    ensures
        r.0.queue@.len() == 0,
        string_views(r.0.visited@) == seq![canonical@],
        r.0.found@.len() == 0,
        r.1.0@ == file@,
        r.1.1 == 0,
{
    let mut visited: Vec<String> = Vec::new();
    visited.push(canonical);
    let ghost c = visited@[0]@;
    assert(string_views(visited@) =~= seq![c]);
    (DepWalk { queue: Vec::new(), visited, found: Vec::new() }, (file, 0))
}

/// One step of the walk: take in the dependencies `deps` read from a file at
/// `depth` (with `canons` the canonical paths of their files), tagged with
/// the depth, and queue those to follow; then give the next file to read,
/// the last queued, if any.
pub fn dep_walk_step(
    walk: DepWalk,
    deps: Vec<ModuleDep>,
    canons: Vec<String>,
    depth: usize,
    max_depth: usize,
) -> (r: (DepWalk, Option<(String, usize)>))
    requires
        canons.len() == deps.len(),
    ensures
        ({
            let after = walk_after(
                queue_view(walk.queue@),
                string_views(walk.visited@),
                deps@,
                string_views(canons@),
                depth as nat,
                max_depth as nat,
            );
            &&& string_views(r.0.visited@) == after.1
            &&& match r.1 {
                Some(next) => after.0.len() > 0 && (next.0@, next.1 as nat) == after.0.last() && queue_view(
                    r.0.queue@,
                ) == after.0.drop_last(),
                None => after.0.len() == 0 && r.0.queue@.len() == 0,
            }
        }),
        r.0.found@.len() == walk.found@.len() + deps@.len(),
        forall|i: int| 0 <= i < walk.found@.len() ==> r.0.found@[i] == walk.found@[i],
        forall|i: int|
            0 <= i < deps@.len() ==> tagged_as(#[trigger] r.0.found@[walk.found@.len() + i], deps@[i], depth as nat),
{
    let DepWalk { mut queue, mut visited, mut found } = walk;
    let ghost q0 = queue_view(queue@);
    let ghost v0 = string_views(visited@);
    let ghost f0 = found@;
    let ghost dv = deps@;
    let ghost cv = string_views(canons@);
    let mut rest = deps;
    let mut i: usize = 0;
    assert(dv.take(0) =~= Seq::<ModuleDep>::empty());
    assert(cv.take(0) =~= Seq::<Seq<char>>::empty());
    while i < canons.len()
        invariant
            i <= canons.len() == dv.len(),
            cv == string_views(canons@),
            rest@ == dv.skip(i as int),
            (queue_view(queue@), string_views(visited@)) == walk_after(
                q0,
                v0,
                dv.take(i as int),
                cv.take(i as int),
                depth as nat,
                max_depth as nat,
            ),
            found@.len() == f0.len() + i,
            forall|k: int| 0 <= k < f0.len() ==> found@[k] == f0[k],
            forall|k: int| 0 <= k < i ==> tagged_as(#[trigger] found@[f0.len() + k], dv[k], depth as nat),
        decreases canons.len() - i,
    {
        assert(dv.take(i + 1).drop_last() =~= dv.take(i as int));
        assert(cv.take(i + 1).take(i as int) =~= cv.take(i as int));
        assert(dv.skip(i as int)[0] == dv[i as int]);
        assert(dv.skip(i as int).skip(1) =~= dv.skip(i + 1));
        let mut d = rest.remove(0);
        assert(rest@ =~= dv.skip(i + 1));
        let ghost d0 = d;
        tag_depth(&mut d, depth);
        if should_follow(&d, depth, max_depth) {
            let ghost qb = queue_view(queue@);
            if first_visit(&mut visited, canons[i].as_str()) {
                let target = match &d.resolved_path {
                    Some(p) => String::from_str(p.as_str()),
                    None => String::new(),
                };
                queue.push((target, depth + 1));
                assert(queue_view(queue@) =~= qb.push((d0.resolved_path->0@, (depth + 1) as nat)));
            }
        }
        let ghost fb = found@;
        found.push(d);
        assert(found@[f0.len() + i] == d);
        assert forall|k: int| 0 <= k < i + 1 implies tagged_as(#[trigger] found@[f0.len() + k], dv[k], depth as nat) by {
            if k < i {
                assert(found@[f0.len() + k] == fb[f0.len() + k]);
            }
        }
        i = i + 1;
    }
    assert(dv.take(i as int) =~= dv);
    assert(cv.take(i as int) =~= cv);
    let next = queue.pop();
    (DepWalk { queue, visited, found }, next)
}

// ---------------------------------------------------------------------------
// Previews and header markers
// ---------------------------------------------------------------------------

/// `c` with `'\n'` as a space and `'\r'` left out.
pub open spec fn flatten(s: Seq<char>) -> Seq<char>
    decreases s.len(),
{
    if s.len() == 0 {
        Seq::empty()
    } else {
        let p = flatten(s.drop_last());
        if s.last() == '\n' {
            p.push(' ')
        } else if s.last() == '\r' {
            p
        } else {
            p.push(s.last())
        }
    }
}

/// The preview of a file's text: its header's title line, else its first
/// 100 characters on one line, trimmed.
pub open spec fn preview_spec(content: Seq<char>) -> Seq<char> {
    match crate::header::extract_header_spec(content) {
        Ok(h) if h.title_line is Some => h.title_line.unwrap(),
        _ => trim_seq(flatten(content.take(if content.len() < 100 { content.len() as int } else { 100 }))),
    }
}

/// Get a file's preview from its text.
pub fn preview_of(content: &str) -> (r: String)
    requires
        header_spans_lines(lines_seq(content@)),
    ensures
        r@ == preview_spec(content@),
{
    if let Ok(h) = extract_header(content) {
        if let Some(title) = &h.title_line {
            return to_string(&chars_of(title.as_str()));
        }
    }
    let c = chars_of(content);
    let n = if c.len() < 100 {
        c.len()
    } else {
        100
    };
    let mut out: Vec<char> = Vec::new();
    let mut i: usize = 0;
    assert(out@ =~= flatten(c@.take(0)));
    while i < n
        invariant
            i <= n <= c.len(),
            out@ == flatten(c@.take(i as int)),
        decreases n - i,
    {
        assert(c@.take(i + 1).drop_last() =~= c@.take(i as int));
        let ch = c[i];
        if ch == '\n' {
            out.push(' ');
        } else if ch != '\r' {
            out.push(ch);
        }
        i = i + 1;
    }
    to_string(&trim(&out))
}

/// `needle` occurs in `hay` at `i`.
pub open spec fn bytes_at(hay: Seq<u8>, needle: Seq<u8>, i: int) -> bool {
    0 <= i && i + needle.len() <= hay.len() && hay.subrange(i, i + needle.len()) == needle
}

/// `memchr::memmem::find`: the first position of `needle` in `haystack`.
#[verifier::external_body]
pub(crate) fn memmem_find(haystack: &[u8], needle: &[u8]) -> (r: Option<usize>)
    ensures
        match r {
            Some(i) => bytes_at(haystack@, needle@, i as int) && forall|j: int|
                0 <= j < i ==> !bytes_at(haystack@, needle@, j),
            None => forall|j: int| !bytes_at(haystack@, needle@, j),
        },
{
    memmem::find(haystack, needle)
}

/// The bytes of the header's start marker.
pub open spec fn marker_bytes() -> Seq<u8> {
    "<!-- AI-SKILL-HEADER START"@.map_values(|c: char| c as u8)
}

/// The header's start marker as bytes.
pub(crate) fn marker_needle() -> (r: Vec<u8>)
    ensures
        r@ == marker_bytes(),
{
    let m = chars_of("<!-- AI-SKILL-HEADER START");
    let mut needle: Vec<u8> = Vec::new();
    let mut i: usize = 0;
    while i < m.len()
        invariant
            i <= m.len(),
            m@ == "<!-- AI-SKILL-HEADER START"@,
            needle@ == m@.take(i as int).map_values(|c: char| c as u8),
        decreases m.len() - i,
    {
        needle.push(m[i] as u8);
        assert(m@.take(i + 1).map_values(|c: char| c as u8) =~= m@.take(i as int).map_values(
            |c: char| c as u8,
        ).push(m@[i as int] as u8));
        i = i + 1;
    }
    assert(m@.take(m@.len() as int) =~= m@);
    assert(needle@ == marker_bytes());
    needle
}

/// Whether the first bytes of a file hold the header's start marker.
pub fn has_header_marker(buf: &[u8]) -> (r: bool)
    ensures
        r == exists|j: int| bytes_at(buf@, marker_bytes(), j),
{
    let needle = marker_needle();
    let found = memmem_find(buf, needle.as_slice());
    match found {
        Some(j) => {
            assert(bytes_at(buf@, marker_bytes(), j as int));
            true
        },
        None => false,
    }
}


// ---------------------------------------------------------------------------
// Text report
// ---------------------------------------------------------------------------

pub open spec fn status_label(d: ModuleDep) -> Seq<char> {
    if is_remote_spec(d.source@) {
        "\u{2197} remote"@
    } else if d.exists {
        if d.has_header {
            "\u{2713} header"@
        } else {
            "\u{2713} exists"@
        }
    } else {
        "\u{2717} MISSING"@
    }
}

/// A preview shown in at most 72 bytes: when longer, what fits in its first
/// 69 (cut at the last character boundary) and `...`.
pub open spec fn shown_preview(p: Seq<char>) -> Seq<char> {
    if byte_len(p) > 72 {
        crate::text::prefix_within(p, 69) + "..."@
    } else {
        p
    }
}

pub open spec fn dep_entry(d: ModuleDep) -> Seq<char> {
    "  ["@ + status_label(d) + "] "@ + crate::text::pad_right(dep_type_label(d.dep_type), 13) + " "@
        + crate::text::pad_right(d.source@, 40) + " (line "@ + dec(d.line as nat) + ")\n"@ + (match d.preview {
        Some(p) => "    \u{2192} "@ + shown_preview(p@) + "\n"@,
        None => Seq::empty(),
    })
}

pub open spec fn dep_entries(v: Seq<ModuleDep>) -> Seq<char>
    decreases v.len(),
{
    if v.len() == 0 {
        Seq::empty()
    } else {
        dep_entries(v.drop_last()) + dep_entry(v.last())
    }
}

/// How many dependencies the report shows.
pub open spec fn shown_count(len: nat, top: nat) -> nat {
    if top > 0 && top < len {
        top
    } else {
        len
    }
}

/// The text report of a dependency scan, showing the first `top` (0: all).
pub open spec fn deps_text(r: ModuleDepsResult, top: nat) -> Seq<char> {
    let n = r.deps@.len();
    "Dependencies for "@ + r.file@ + " ("@ + dec(r.total as nat) + " total, "@ + dec(r.local as nat)
        + " local, "@ + dec(r.remote as nat) + " remote, "@ + dec(r.missing as nat) + " missing)\n\n"@
        + dep_entries(r.deps@.take(shown_count(n, top) as int)) + (if top > 0 && n > top {
        "\n... and "@ + dec((n - top) as nat) + " more (use --top 0 to show all)\n"@
    } else {
        Seq::empty()
    }) + (if r.missing > 0 {
        "\n\u{26a0} "@ + dec(r.missing as nat) + " missing dependency file"@
            + crate::syntax_check::plural(r.missing as nat)
            + ". AI should create or fix these references.\n"@
    } else {
        Seq::empty()
    })
}

fn status_exec(d: &ModuleDep) -> (r: Vec<char>)
    ensures
        r@ == status_label(*d),
{
    if is_remote(d.source.as_str()) {
        chars_of("\u{2197} remote")
    } else if d.exists {
        if d.has_header {
            chars_of("\u{2713} header")
        } else {
            chars_of("\u{2713} exists")
        }
    } else {
        chars_of("\u{2717} MISSING")
    }
}

fn shown_preview_exec(p: &str) -> (r: Vec<char>)
    ensures
        r@ == shown_preview(p@),
{
    let pc = chars_of(p);
    let big = match crate::text::byte_len_exec(&pc) {
        Some(b) => b > 72,
        None => true,
    };
    if big {
        let mut x = crate::text::cut_within(&pc, 69);
        push_str(&mut x, "...");
        x
    } else {
        pc
    }
}

fn push_dep_entry(out: &mut Vec<char>, d: &ModuleDep)
    ensures
        final(out)@ == old(out)@ + dep_entry(*d),
{
    let ghost o = out@;
    let status = status_exec(d);
    push_str(out, "  [");
    push_all(out, &status);
    push_str(out, "] ");
    push_all(out, &crate::text::padded_right(&chars_of(d.dep_type.to_string().as_str()), 13));
    push_str(out, " ");
    push_all(out, &crate::text::padded_right(&chars_of(d.source.as_str()), 40));
    push_str(out, " (line ");
    push_all(out, &crate::text::decimal(d.line));
    push_str(out, ")\n");
    let ghost o1 = out@;
    match &d.preview {
        Some(p) => {
            let disp = shown_preview_exec(p.as_str());
            push_str(out, "    \u{2192} ");
            push_all(out, &disp);
            push_str(out, "\n");
            assert(out@ =~= o1 + "    \u{2192} "@ + shown_preview(p@) + "\n"@);
        },
        None => {},
    }
    assert(out@ =~= o + dep_entry(*d));
}

/// Format as human readable text, showing the first `top` dependencies (0: all).
#[verifier::rlimit(40)]
pub fn format_text(result: &ModuleDepsResult, top: usize) -> (r: String)
    ensures
        r@ == deps_text(*result, top as nat),
{
    let mut out = chars_of("Dependencies for ");
    push_str(&mut out, result.file.as_str());
    push_str(&mut out, " (");
    push_all(&mut out, &crate::text::decimal(result.total));
    push_str(&mut out, " total, ");
    push_all(&mut out, &crate::text::decimal(result.local));
    push_str(&mut out, " local, ");
    push_all(&mut out, &crate::text::decimal(result.remote));
    push_str(&mut out, " remote, ");
    push_all(&mut out, &crate::text::decimal(result.missing));
    push_str(&mut out, " missing)\n\n");
    let n = result.deps.len();
    let shown = if top > 0 && top < n {
        top
    } else {
        n
    };
    let ghost o = out@;
    let ghost dv = result.deps@;
    let mut i: usize = 0;
    assert(dv.take(0) =~= Seq::<ModuleDep>::empty());
    assert(out@ =~= o + dep_entries(dv.take(0)));
    while i < shown
        invariant
            i <= shown <= n == dv.len(),
            dv == result.deps@,
            out@ == o + dep_entries(dv.take(i as int)),
        decreases shown - i,
    {
        assert(dv[i as int] == result.deps@[i as int]);
        push_dep_entry(&mut out, &result.deps[i]);
        assert(dv.take(i + 1).drop_last() =~= dv.take(i as int));
        i = i + 1;
    }
    if top > 0 && n > top {
        push_str(&mut out, "\n... and ");
        push_all(&mut out, &crate::text::decimal(n - top));
        push_str(&mut out, " more (use --top 0 to show all)\n");
    }
    if result.missing > 0 {
        push_str(&mut out, "\n\u{26a0} ");
        push_all(&mut out, &crate::text::decimal(result.missing));
        push_str(&mut out, " missing dependency file");
        if result.missing != 1 {
            push_str(&mut out, "s");
        }
        push_str(&mut out, ". AI should create or fix these references.\n");
    }
    assert(out@ =~= deps_text(*result, top as nat));
    to_string(&out)
}

} // verus!

//! Syntax checks of text an agent is about to use: JavaScript through the
//! `oxc` parser, HTML through `html5ever`, and the tables of header markdown.
use vstd::prelude::*;
use html5ever::parse_document;
use html5ever::tendril::TendrilSink;
use markup5ever_rcdom::{NodeData, RcDom};

use crate::js_scope::{opt_view, oxc_module, oxc_syntax_errors};
use crate::text::{
    byte_len, chars_of, contains, dec, ends, find, find_seq, includes, lines_seq, lower_seq, parse_usize,
    parse_usize_seq, push_all, push_str, slice, split_char, split_on, starts, starts_with, str_len,
    str_lines, to_lower, to_string, trim, trim_seq, views, lowercase, unicode_lower,
};

verus! {

// ---------------------------------------------------------------------------
// Types
// ---------------------------------------------------------------------------

/// Result of a syntax check.
#[derive(Debug, Clone)]
pub struct CheckResult {
    pub input_bytes: usize,
    pub input_lines: usize,
    pub balanced: bool,
    pub issues: Vec<Issue>,
    pub summary: String,
}

/// One finding of a syntax check.
#[derive(Debug, Clone)]
pub struct Issue {
    pub severity: String,
    /// 1-based; 0 when unknown
    pub line: usize,
    pub column: usize,
    pub message: String,
    pub context_snippet: Option<String>,
}

pub struct IssueV {
    pub severity: Seq<char>,
    pub line: nat,
    pub column: nat,
    pub message: Seq<char>,
    pub context_snippet: Option<Seq<char>>,
}

impl View for Issue {
    type V = IssueV;

    open spec fn view(&self) -> IssueV {
        IssueV {
            severity: self.severity@,
            line: self.line as nat,
            column: self.column as nat,
            message: self.message@,
            context_snippet: crate::header::opt_str(self.context_snippet),
        }
    }
}

pub open spec fn issues_view(v: Seq<Issue>) -> Seq<IssueV> {
    v.map_values(|i: Issue| i@)
}

/// What kind of text is checked.
#[derive(Debug, Clone, Copy, PartialEq, Eq)]
pub enum CheckContext {
    Cli,
    Header,
    Js,
    Html,
}

pub open spec fn context_of(s: Seq<char>) -> CheckContext {
    let l = unicode_lower(s);
    if l == "header"@ {
        CheckContext::Header
    } else if l == "js"@ {
        CheckContext::Js
    } else if l == "html"@ {
        CheckContext::Html
    } else {
        CheckContext::Cli
    }
}

impl CheckContext {
    /// The context a name stands for (any case); `cli` for anything else.
    pub fn from_str(s: &str) -> (r: CheckContext)
        ensures
            r == context_of(s@),
    {
        proof {
            reveal_strlit("cli");
            reveal_strlit("header");
            reveal_strlit("js");
            reveal_strlit("html");
        }
        let l = lowercase(&chars_of(s));
        if crate::differ::vec_eq(&l, &chars_of("cli")) {
            assert(l@.len() == 3);
            assert(l@ != "header"@ && l@ != "js"@ && l@ != "html"@);
            CheckContext::Cli
        } else if crate::differ::vec_eq(&l, &chars_of("header")) {
            CheckContext::Header
        } else if crate::differ::vec_eq(&l, &chars_of("js")) {
            CheckContext::Js
        } else if crate::differ::vec_eq(&l, &chars_of("html")) {
            CheckContext::Html
        } else {
            CheckContext::Cli
        }
    }
}

/// The line `n` (1-based; 0 counts as 1) of `lines`, if there is one.
pub open spec fn line_at(lines: Seq<Seq<char>>, n: nat) -> Option<Seq<char>> {
    let i: int = if n > 0 {
        n - 1
    } else {
        0
    };
    if i < lines.len() {
        Some(lines[i])
    } else {
        None
    }
}

fn line_at_exec(lines: &Vec<Vec<char>>, n: usize) -> (r: Option<String>)
    ensures
        crate::header::opt_str(r) == line_at(views(lines@), n as nat),
{
    let i = if n > 0 {
        n - 1
    } else {
        0
    };
    if i < lines.len() {
        Some(to_string(&lines[i]))
    } else {
        None
    }
}

fn push_issue(issues: &mut Vec<Issue>, i: Issue)
    ensures
        issues_view(final(issues)@) == issues_view(old(issues)@).push(i@),
{
    let ghost before = issues_view(issues@);
    let ghost iv = i@;
    issues.push(i);
    assert(issues_view(issues@) =~= before.push(iv));
}

// ---------------------------------------------------------------------------
// JavaScript
// ---------------------------------------------------------------------------

/// Line and column of a parser message written as `file:line:col ...`;
/// `(1, 0)` when it is not.
pub open spec fn line_col(msg: Seq<char>) -> (nat, nat) {
    let parts = split_on(msg, ':');
    if parts.len() >= 3 {
        match (parse_usize_seq(trim_seq(parts[1])), parse_usize_seq(trim_seq(parts[2]))) {
            (Ok(line), Ok(col)) => if line > 0 {
                (line as nat, col as nat)
            } else {
                (1, 0)
            },
            _ => (1, 0),
        }
    } else {
        (1, 0)
    }
}

/// Extract line/column from a parser message (format: `filename:line:col ...`).
fn extract_line_col_from_error(msg: &Vec<char>) -> (r: (usize, usize))
    ensures
        (r.0 as nat, r.1 as nat) == line_col(msg@),
{
    let parts = split_char(msg, ':');
    assert(views(parts@).len() == parts@.len());
    if parts.len() >= 3 {
        let a = parse_usize(&trim(&parts[1]));
        let b = parse_usize(&trim(&parts[2]));
        match (a, b) {
            (Ok(line), Ok(col)) => {
                if line > 0 {
                    return (line, col);
                }
            },
            _ => {},
        }
    }
    (1, 0)
}

/// The issue a parser message gives for a JavaScript text.
pub open spec fn js_issue(text: Seq<char>, msg: Seq<char>) -> IssueV {
    let (line, col) = line_col(msg);
    IssueV {
        severity: "warning"@,
        line,
        column: col,
        message: msg,
        context_snippet: line_at(lines_seq(text), line),
    }
}

/// The issues of a JavaScript text: one per message of the parser.
pub open spec fn js_issues(text: Seq<char>) -> Seq<IssueV> {
    oxc_module(text).1.map_values(|m: Seq<char>| js_issue(text, m))
}

/// Validate JavaScript with the `oxc` parser.
fn check_js_with_oxc(js_text: &str, issues: &mut Vec<Issue>)
    ensures
        issues_view(final(issues)@) == issues_view(old(issues)@) + js_issues(js_text@),
{
    let errors = oxc_syntax_errors(js_text);
    push_js_issues(js_text, &errors, issues);
}

/// Add the issues that the parser's messages `errors` give for a JavaScript
/// text: one per message, at the line and column the message names.
pub fn push_js_issues(js_text: &str, errors: &Vec<String>, issues: &mut Vec<Issue>)
    ensures
        issues_view(final(issues)@) == issues_view(old(issues)@) + errors@.map_values(|e: String| e@).map_values(
            |m: Seq<char>| js_issue(js_text@, m),
        ),
{
    let ghost ev = errors@.map_values(|e: String| e@);
    let lines = str_lines(js_text);
    let ghost o = issues_view(issues@);
    let ghost target = ev.map_values(|m: Seq<char>| js_issue(js_text@, m));
    let mut i: usize = 0;
    assert(o + target.take(0) =~= o);
    while i < errors.len()
        invariant
            i <= errors.len(),
            ev == errors@.map_values(|e: String| e@),
            views(lines@) == lines_seq(js_text@),
            target == ev.map_values(|m: Seq<char>| js_issue(js_text@, m)),
            issues_view(issues@) == o + target.take(i as int),
        decreases errors.len() - i,
    {
        let msg = chars_of(errors[i].as_str());
        assert(ev[i as int] == msg@);
        let (line, col) = extract_line_col_from_error(&msg);
        let issue = Issue {
            severity: String::from_str("warning"),
            line,
            column: col,
            message: to_string(&msg),
            context_snippet: line_at_exec(&lines, line),
        };
        push_issue(issues, issue);
        assert(target.take(i + 1) =~= target.take(i as int).push(target[i as int]));
        i = i + 1;
    }
    assert(target.take(errors@.len() as int) =~= target);
}

// ---------------------------------------------------------------------------
// HTML
// ---------------------------------------------------------------------------

/// What `html5ever` reports of a document: its parse error messages, and
/// every node of the document tree in document order (the document node
/// first, each node before its children), each as its element name (none for
/// a node that is not an element) and its number of children.
pub uninterp spec fn html5ever_document(html: Seq<char>) -> (Seq<Seq<char>>, Seq<(Option<Seq<char>>, nat)>);

pub open spec fn node_views(v: Seq<(Option<String>, usize)>) -> Seq<(Option<Seq<char>>, nat)> {
    v.map_values(|x: (Option<String>, usize)| (opt_view(x.0), x.1 as nat))
}

/// `html5ever::parse_document` into a `markup5ever_rcdom::RcDom`, read for its
/// error messages and for its nodes, taken one for one in document order (the
/// element's local name, the number of children); the contract names the
/// result and claims nothing else.
#[verifier::external_body]
fn html5ever_parse(html: &str) -> (r: (Vec<String>, Vec<(Option<String>, usize)>))
    ensures
        (r.0@.map_values(|e: String| e@), node_views(r.1@)) == html5ever_document(html@),
{
    let dom = parse_document(RcDom::default(), Default::default()).from_utf8().read_from(&mut html.as_bytes()).unwrap_or_else(|_| RcDom::default());
    let (mut nodes, mut stack) = (Vec::new(), vec![dom.document.clone()]);
    while let Some(node) = stack.pop() {
        let name = match &node.data { NodeData::Element { name, .. } => Some(name.local.to_string()), _ => None };
        nodes.push((name, node.children.borrow().len()));
        stack.extend(node.children.borrow().iter().rev().cloned());
    }
    (dom.errors.iter().map(|e| e.to_string()).collect(), nodes)
}

/// The names of the elements among the nodes, in order.
pub open spec fn element_names(nodes: Seq<(Option<Seq<char>>, nat)>) -> Seq<Seq<char>>
    decreases nodes.len(),
{
    if nodes.len() == 0 {
        Seq::empty()
    } else {
        element_names(nodes.drop_last()) + match nodes.last().0 {
            Some(n) => seq![n],
            None => Seq::empty(),
        }
    }
}

fn element_names_exec(nodes: &Vec<(Option<String>, usize)>) -> (r: Vec<String>)
    ensures
        r@.map_values(|e: String| e@) == element_names(node_views(nodes@)),
{
    let ghost nv = node_views(nodes@);
    let mut out: Vec<String> = Vec::new();
    let mut i: usize = 0;
    assert(out@.map_values(|e: String| e@) =~= element_names(nv.take(0)));
    while i < nodes.len()
        invariant
            i <= nodes.len(),
            nv == node_views(nodes@),
            out@.map_values(|e: String| e@) == element_names(nv.take(i as int)),
        decreases nodes.len() - i,
    {
        assert(nv.take(i + 1).drop_last() =~= nv.take(i as int));
        assert(nv.take(i + 1).last() == (opt_view(nodes@[i as int].0), nodes@[i as int].1 as nat));
        let ghost before = out@.map_values(|e: String| e@);
        match &nodes[i].0 {
            Some(n) => {
                out.push(String::from_str(n.as_str()));
                assert(out@.map_values(|e: String| e@) =~= before + seq![n@]);
            },
            None => {
                assert(before + Seq::<Seq<char>>::empty() =~= before);
            },
        }
        i = i + 1;
    }
    assert(nv.take(i as int) =~= nv);
    out
}

/// The first line holding `pat` (compared case-insensitively), 0-based.
pub open spec fn first_line_with(lines: Seq<Seq<char>>, pat: Seq<char>) -> Option<nat>
    decreases lines.len(),
{
    if lines.len() == 0 {
        None
    } else if includes(unicode_lower(lines[0]), pat) {
        Some(0)
    } else {
        match first_line_with(lines.skip(1), pat) {
            Some(k) => Some(k + 1),
            None => None,
        }
    }
}

fn first_line_with_exec(lines: &Vec<Vec<char>>, pat: &Vec<char>) -> (r: Option<usize>)
    ensures
        r is None <==> first_line_with(views(lines@), pat@) is None,
        r matches Some(k) ==> first_line_with(views(lines@), pat@) == Some(k as nat) && k < lines.len(),
{
    let ghost ls = views(lines@);
    let mut i: usize = 0;
    assert(ls.skip(0) =~= ls);
    while i < lines.len()
        invariant
            i <= lines.len(),
            ls == views(lines@),
            first_line_with(ls, pat@) == (match first_line_with(ls.skip(i as int), pat@) {
                Some(k) => Some((k + i) as nat),
                None => None::<nat>,
            }),
        decreases lines.len() - i,
    {
        assert(ls.skip(i as int)[0] == ls[i as int]);
        assert(ls.skip(i as int).skip(1) =~= ls.skip(i + 1));
        if contains(&lowercase(&lines[i]), pat) {
            return Some(i);
        }
        i = i + 1;
    }
    assert(ls.skip(i as int) =~= Seq::<Seq<char>>::empty());
    None
}

/// The 1-based line an HTML parse message points at: the first line holding
/// the message's first `<...>` (case-insensitively); 0 when there is none.
pub open spec fn error_line(lines: Seq<Seq<char>>, msg: Seq<char>) -> nat {
    match find_seq(lower_seq(msg), "<"@) {
        Some(ts) => match find_seq(lower_seq(msg).skip(ts), ">"@) {
            Some(te) => match first_line_with(lines, unicode_lower(msg.subrange(ts, ts + te + 1))) {
                Some(i) => i + 1,
                None => 0,
            },
            None => 0,
        },
        None => 0,
    }
}

/// Try to match an error message to a source line.
fn find_error_line(lines: &Vec<Vec<char>>, error_msg: &Vec<char>) -> (r: usize)
    ensures
        r == error_line(views(lines@), error_msg@),
{
    proof {
        reveal_strlit("<");
        reveal_strlit(">");
    }
    let lower = to_lower(error_msg);
    if let Some(ts) = find(&lower, &chars_of("<")) {
        let rest = crate::text::skip(&lower, ts);
        if let Some(te) = find(&rest, &chars_of(">")) {
            let n = error_msg.len();
            assert(lower@.len() == n && te + 1 <= rest@.len());
            let tag_ref = slice(error_msg, ts, ts + te + 1);
            if let Some(i) = first_line_with_exec(lines, &lowercase(&tag_ref)) {
                return i + 1;
            }
        }
    }
    0
}

pub open spec fn is_void(tag: Seq<char>) -> bool {
    tag == "area"@ || tag == "base"@ || tag == "br"@ || tag == "col"@ || tag == "embed"@ || tag
        == "hr"@ || tag == "img"@ || tag == "input"@ || tag == "link"@ || tag == "meta"@ || tag
        == "param"@ || tag == "source"@ || tag == "track"@ || tag == "wbr"@
}

/// Some line opens `tag` without closing it on that line.
pub open spec fn opens(lines: Seq<Seq<char>>, tag: Seq<char>) -> bool {
    exists|i: int|
        0 <= i < lines.len() && includes(unicode_lower(#[trigger] lines[i]), "<"@ + tag) && !(includes(
            unicode_lower(lines[i]),
            "</"@ + tag,
        ))
}

/// Some line closes `tag`.
pub open spec fn closes(lines: Seq<Seq<char>>, tag: Seq<char>) -> bool {
    exists|i: int| 0 <= i < lines.len() && includes(unicode_lower(#[trigger] lines[i]), "</"@ + tag + ">"@)
}

/// The issue an element of the document gives: one when the source opens it
/// and never closes it (void elements and `html`, `head`, `body` aside).
pub open spec fn element_issue(lines: Seq<Seq<char>>, tag: Seq<char>) -> Option<IssueV> {
    if !is_void(tag) && opens(lines, tag) && !closes(lines, tag) && tag != "html"@ && tag
        != "head"@ && tag != "body"@ {
        let line: nat = match first_line_with(lines, "<"@ + tag) {
            Some(i) => i + 1,
            None => 0,
        };
        Some(
            IssueV {
                severity: "warning"@,
                line,
                column: 0,
                message: "HTML: `<"@ + tag + ">` has no matching `</"@ + tag + ">` in source"@,
                context_snippet: line_at(lines, line),
            },
        )
    } else {
        None
    }
}

pub open spec fn element_issues(lines: Seq<Seq<char>>, tags: Seq<Seq<char>>) -> Seq<IssueV>
    decreases tags.len(),
{
    if tags.len() == 0 {
        Seq::empty()
    } else {
        let p = element_issues(lines, tags.drop_last());
        match element_issue(lines, tags.last()) {
            Some(i) => p.push(i),
            None => p,
        }
    }
}

/// The issue an HTML parse message gives.
pub open spec fn parse_issue(lines: Seq<Seq<char>>, msg: Seq<char>) -> IssueV {
    let line = error_line(lines, msg);
    IssueV {
        severity: "warning"@,
        line,
        column: 0,
        message: "HTML parse: "@ + msg,
        context_snippet: line_at(lines, line),
    }
}

/// The structural issues of an HTML document.
pub open spec fn structure_issues(html: Seq<char>, lines: Seq<Seq<char>>) -> Seq<IssueV> {
    let d = html5ever_document(html);
    d.0.map_values(|m: Seq<char>| parse_issue(lines, m)) + element_issues(lines, element_names(d.1))
}

pub fn is_void_exec(tag: &Vec<char>) -> (r: bool)
    ensures
        r == is_void(tag@),
{
    crate::differ::vec_eq(tag, &chars_of("area")) || crate::differ::vec_eq(tag, &chars_of("base"))
        || crate::differ::vec_eq(tag, &chars_of("br")) || crate::differ::vec_eq(tag, &chars_of("col"))
        || crate::differ::vec_eq(tag, &chars_of("embed")) || crate::differ::vec_eq(tag, &chars_of("hr"))
        || crate::differ::vec_eq(tag, &chars_of("img")) || crate::differ::vec_eq(tag, &chars_of("input"))
        || crate::differ::vec_eq(tag, &chars_of("link")) || crate::differ::vec_eq(tag, &chars_of("meta"))
        || crate::differ::vec_eq(tag, &chars_of("param")) || crate::differ::vec_eq(
        tag,
        &chars_of("source"),
    ) || crate::differ::vec_eq(tag, &chars_of("track")) || crate::differ::vec_eq(tag, &chars_of("wbr"))
}

fn element_issue_exec(lines: &Vec<Vec<char>>, tag: &Vec<char>) -> (r: Option<Issue>)
    ensures
        match r {
            Some(i) => element_issue(views(lines@), tag@) == Some(i@),
            None => element_issue(views(lines@), tag@) is None,
        },
{
    let ghost ls = views(lines@);
    if is_void_exec(tag) {
        return None;
    }
    let mut open_pat = chars_of("<");
    push_all(&mut open_pat, tag);
    let mut close_pat = chars_of("</");
    push_all(&mut close_pat, tag);
    let mut full_close = crate::text::copy(&close_pat);
    push_str(&mut full_close, ">");
    let mut has_open = false;
    let mut has_close = false;
    let mut i: usize = 0;
    while i < lines.len()
        invariant
            i <= lines.len(),
            ls == views(lines@),
            open_pat@ == "<"@ + tag@,
            close_pat@ == "</"@ + tag@,
            full_close@ == "</"@ + tag@ + ">"@,
            has_open == exists|k: int|
                0 <= k < i && includes(unicode_lower(#[trigger] ls[k]), "<"@ + tag@) && !(includes(unicode_lower(ls[k]), "</"@ + tag@)),
            has_close == exists|k: int| 0 <= k < i && includes(unicode_lower(#[trigger] ls[k]), "</"@ + tag@ + ">"@),
        decreases lines.len() - i,
    {
        let lower = lowercase(&lines[i]);
        assert(lower@ == unicode_lower(ls[i as int]));
        if contains(&lower, &open_pat) && !contains(&lower, &close_pat) {
            has_open = true;
        }
        if contains(&lower, &full_close) {
            has_close = true;
        }
        i = i + 1;
    }
    if has_open && !has_close && !crate::differ::vec_eq(tag, &chars_of("html"))
        && !crate::differ::vec_eq(tag, &chars_of("head")) && !crate::differ::vec_eq(
        tag,
        &chars_of("body"),
    ) {
        let line = match first_line_with_exec(lines, &open_pat) {
            Some(k) => k + 1,
            None => 0,
        };
        let mut msg = chars_of("HTML: `<");
        push_all(&mut msg, tag);
        push_str(&mut msg, ">` has no matching `</");
        push_all(&mut msg, tag);
        push_str(&mut msg, ">` in source");
        Some(
            Issue {
                severity: String::from_str("warning"),
                line,
                column: 0,
                message: to_string(&msg),
                context_snippet: line_at_exec(lines, line),
            },
        )
    } else {
        None
    }
}

/// Check HTML structure with `html5ever`: its parse errors, then elements the
/// source opens and never closes.
fn check_html_structure(html: &str, lines: &Vec<Vec<char>>, issues: &mut Vec<Issue>)
    ensures
        issues_view(final(issues)@) == issues_view(old(issues)@) + structure_issues(html@, views(lines@)),
{
    let (errors, nodes) = html5ever_parse(html);
    push_structure_issues(lines, &errors, &nodes, issues);
}

/// Add the structural issues of a document from what its parse gave: one
/// per parse error message, then one per element (in document order) that
/// the source `lines` open and never close.
pub fn push_structure_issues(
    lines: &Vec<Vec<char>>,
    errors: &Vec<String>,
    nodes: &Vec<(Option<String>, usize)>,
    issues: &mut Vec<Issue>,
)
    ensures
        issues_view(final(issues)@) == issues_view(old(issues)@) + errors@.map_values(|e: String| e@).map_values(
            |m: Seq<char>| parse_issue(views(lines@), m),
        ) + element_issues(views(lines@), element_names(node_views(nodes@))),
{
    let ghost ls = views(lines@);
    let names = element_names_exec(nodes);
    let ghost ev = errors@.map_values(|e: String| e@);
    let ghost nv = names@.map_values(|e: String| e@);
    let ghost o = issues_view(issues@);
    let ghost pi = ev.map_values(|m: Seq<char>| parse_issue(ls, m));
    let mut i: usize = 0;
    assert(o + pi.take(0) =~= o);
    while i < errors.len()
        invariant
            i <= errors.len(),
            ls == views(lines@),
            ev == errors@.map_values(|e: String| e@),
            pi == ev.map_values(|m: Seq<char>| parse_issue(ls, m)),
            issues_view(issues@) == o + pi.take(i as int),
        decreases errors.len() - i,
    {
        let msg = chars_of(errors[i].as_str());
        assert(ev[i as int] == msg@);
        let line = find_error_line(lines, &msg);
        let mut m = chars_of("HTML parse: ");
        push_all(&mut m, &msg);
        let issue = Issue {
            severity: String::from_str("warning"),
            line,
            column: 0,
            message: to_string(&m),
            context_snippet: line_at_exec(lines, line),
        };
        push_issue(issues, issue);
        assert(pi.take(i + 1) =~= pi.take(i as int).push(pi[i as int]));
        i = i + 1;
    }
    assert(pi.take(errors@.len() as int) =~= pi);
    let ghost o2 = issues_view(issues@);
    let mut k: usize = 0;
    assert(nv.take(0) =~= Seq::<Seq<char>>::empty());
    assert(o2 + element_issues(ls, nv.take(0)) =~= o2);
    while k < names.len()
        invariant
            k <= names.len(),
            ls == views(lines@),
            nv == names@.map_values(|e: String| e@),
            issues_view(issues@) == o2 + element_issues(ls, nv.take(k as int)),
        decreases names.len() - k,
    {
        let tag = chars_of(names[k].as_str());
        assert(nv[k as int] == tag@);
        assert(nv.take(k + 1).drop_last() =~= nv.take(k as int));
        match element_issue_exec(lines, &tag) {
            Some(issue) => push_issue(issues, issue),
            None => {},
        }
        k = k + 1;
    }
    assert(nv.take(names@.len() as int) =~= nv);
}


// ---------------------------------------------------------------------------
// Scripts inside HTML
// ---------------------------------------------------------------------------

/// `a`, or `usize::MAX` when `a` does not fit.
pub open spec fn clamp(a: int) -> nat {
    if a > usize::MAX {
        usize::MAX as nat
    } else if a < 0 {
        0
    } else {
        a as nat
    }
}

/// The issue a parser message gives for a script whose content starts on
/// 1-based line `start + 1` of the file.
pub open spec fn script_issue(lines: Seq<Seq<char>>, start: nat, msg: Seq<char>) -> IssueV {
    let (el, col) = line_col(msg);
    let abs = clamp(start + (if el > 0 {
        el - 1
    } else {
        0
    }));
    IssueV {
        severity: "warning"@,
        line: abs,
        column: col,
        message: "JS syntax: "@ + msg,
        context_snippet: line_at(lines, abs),
    }
}

/// The issues of one script's content (none for blank content).
pub open spec fn script_issues(lines: Seq<Seq<char>>, start: nat, content: Seq<char>) -> Seq<IssueV> {
    if trim_seq(content).len() == 0 {
        Seq::empty()
    } else {
        oxc_module(content).1.map_values(|m: Seq<char>| script_issue(lines, start, m))
    }
}

/// State of the scan of an HTML document's scripts.
pub struct ScriptScan {
    pub in_script: bool,
    pub start: nat,
    pub content: Seq<char>,
    pub issues: Seq<IssueV>,
}

/// What follows the first `>` of a script's opening line, with a newline,
/// when it is not blank.
pub open spec fn opening_rest(line: Seq<char>) -> Seq<char> {
    match find_seq(lower_seq(line), ">"@) {
        Some(pos) => {
            let after = line.skip(pos + 1);
            if trim_seq(after).len() > 0 {
                after + seq!['\n']
            } else {
                Seq::empty()
            }
        },
        None => Seq::empty(),
    }
}

pub open spec fn script_step(lines: Seq<Seq<char>>, st: ScriptScan, idx: nat, line: Seq<char>) -> ScriptScan {
    let t = unicode_lower(trim_seq(line));
    if !st.in_script && includes(t, "<script"@) && includes(t, ">"@) {
        ScriptScan { in_script: true, start: idx + 1, content: st.content + opening_rest(line), ..st }
    } else if st.in_script && includes(t, "</script"@) {
        ScriptScan {
            in_script: false,
            content: Seq::empty(),
            issues: st.issues + script_issues(lines, st.start, st.content),
            ..st
        }
    } else if st.in_script {
        ScriptScan { content: st.content + line + seq!['\n'], ..st }
    } else {
        st
    }
}

pub open spec fn script_scan(lines: Seq<Seq<char>>, k: nat) -> ScriptScan
    decreases k,
{
    if k == 0 || k > lines.len() {
        ScriptScan { in_script: false, start: 0, content: Seq::empty(), issues: Seq::empty() }
    } else {
        script_step(lines, script_scan(lines, (k - 1) as nat), (k - 1) as nat, lines[k - 1])
    }
}

/// The issues of a full HTML document: its structure, then its scripts.
pub open spec fn html_issues(html: Seq<char>, lines: Seq<Seq<char>>) -> Seq<IssueV> {
    structure_issues(html, lines) + script_scan(lines, lines.len()).issues
}

fn push_script_issues(issues: &mut Vec<Issue>, lines: &Vec<Vec<char>>, start: usize, content: &Vec<char>)
    requires
        start <= lines.len(),
    ensures
        issues_view(final(issues)@) == issues_view(old(issues)@) + script_issues(views(lines@), start as nat, content@),
{
    let ghost ls = views(lines@);
    let ghost o = issues_view(issues@);
    if trim(content).len() == 0 {
        assert(o + Seq::<IssueV>::empty() =~= o);
        return;
    }
    let src = to_string(content);
    let errors = oxc_syntax_errors(src.as_str());
    let ghost ev = errors@.map_values(|e: String| e@);
    let ghost target = script_issues(ls, start as nat, content@);
    let mut i: usize = 0;
    assert(o + target.take(0) =~= o);
    while i < errors.len()
        invariant
            i <= errors.len(),
            start <= lines.len(),
            ls == views(lines@),
            ev == errors@.map_values(|e: String| e@),
            ev == oxc_module(content@).1,
            target == ev.map_values(|m: Seq<char>| script_issue(ls, start as nat, m)),
            issues_view(issues@) == o + target.take(i as int),
        decreases errors.len() - i,
    {
        let msg = chars_of(errors[i].as_str());
        assert(ev[i as int] == msg@);
        let (el, col) = extract_line_col_from_error(&msg);
        let off = if el > 0 {
            el - 1
        } else {
            0
        };
        let abs = if off > usize::MAX - start {
            usize::MAX
        } else {
            start + off
        };
        let mut m = chars_of("JS syntax: ");
        push_all(&mut m, &msg);
        let issue = Issue {
            severity: String::from_str("warning"),
            line: abs,
            column: col,
            message: to_string(&m),
            context_snippet: line_at_exec(lines, abs),
        };
        push_issue(issues, issue);
        assert(target.take(i + 1) =~= target.take(i as int).push(target[i as int]));
        i = i + 1;
    }
    assert(target.take(errors@.len() as int) =~= target);
}

/// Validate a full HTML document: `html5ever` for its structure, the `oxc`
/// parser for the JavaScript of its scripts.
fn check_html_with_parsers(html: &str, lines: &Vec<Vec<char>>, issues: &mut Vec<Issue>)
    ensures
        issues_view(final(issues)@) == issues_view(old(issues)@) + html_issues(html@, views(lines@)),
{
    let ghost ls = views(lines@);
    let ghost o = issues_view(issues@);
    check_html_structure(html, lines, issues);
    let ghost o1 = issues_view(issues@);
    let open_tag = chars_of("<script");
    let gt = chars_of(">");
    let close_tag = chars_of("</script");
    proof {
        reveal_strlit(">");
    }
    let mut in_script = false;
    let mut script_start: usize = 0;
    let mut content: Vec<char> = Vec::new();
    let mut idx: usize = 0;
    assert(content@ =~= Seq::<char>::empty());
    assert(o1 + script_scan(ls, 0).issues =~= o1);
    while idx < lines.len()
        invariant
            idx <= lines.len(),
            ls == views(lines@),
            open_tag@ == "<script"@,
            gt@ == ">"@,
            gt@.len() == 1,
            close_tag@ == "</script"@,
            script_start <= idx,
            script_scan(ls, idx as nat) == (ScriptScan {
                in_script,
                start: script_start as nat,
                content: content@,
                issues: script_scan(ls, idx as nat).issues,
            }),
            issues_view(issues@) == o1 + script_scan(ls, idx as nat).issues,
        decreases lines.len() - idx,
    {
        let line = &lines[idx];
        let ghost st = script_scan(ls, idx as nat);
        assert(script_scan(ls, (idx + 1) as nat) == script_step(ls, st, idx as nat, ls[idx as int]));
        let t = lowercase(&trim(line));
        if !in_script && contains(&t, &open_tag) && contains(&t, &gt) {
            in_script = true;
            script_start = idx + 1;
            let ghost c0 = content@;
            let ll = to_lower(line);
            assert(ll@.len() == line@.len());
            match find(&ll, &gt) {
                Some(pos) => {
                    let after = crate::text::skip_past(line, pos, 1);
                    if trim(&after).len() > 0 {
                        push_all(&mut content, &after);
                        content.push('\n');
                    }
                },
                None => {},
            }
            assert(content@ =~= c0 + opening_rest(ls[idx as int]));
        } else if in_script && contains(&t, &close_tag) {
            push_script_issues(issues, lines, script_start, &content);
            in_script = false;
            content = Vec::new();
            assert(content@ =~= Seq::<char>::empty());
        } else if in_script {
            let ghost c0 = content@;
            push_all(&mut content, line);
            content.push('\n');
            assert(content@ =~= c0 + ls[idx as int] + seq!['\n']);
        }
        idx = idx + 1;
    }
}

// ---------------------------------------------------------------------------
// Markdown tables
// ---------------------------------------------------------------------------

/// How many times `c` occurs in `s`.
pub open spec fn count_char(s: Seq<char>, c: char) -> nat
    decreases s.len(),
{
    if s.len() == 0 {
        0
    } else {
        count_char(s.drop_last(), c) + if s.last() == c {
            1nat
        } else {
            0nat
        }
    }
}

proof fn lemma_count_char_le(s: Seq<char>, c: char)
    ensures
        count_char(s, c) <= s.len(),
    decreases s.len(),
{
    if s.len() > 0 {
        lemma_count_char_le(s.drop_last(), c);
    }
}

/// The issue of a table row with `count` bars where `expected` were due.
pub open spec fn row_issue(idx: nat, line: Seq<char>, count: nat, expected: nat) -> IssueV {
    IssueV {
        severity: "warning"@,
        line: idx + 1,
        column: 1,
        message: "Markdown table row has "@ + dec(count) + " `|` but expected "@ + dec(expected)
            + " (based on header row)"@,
        context_snippet: Some(line),
    }
}

/// `(in a table, bars of its first row, issues)` after the first `k` lines.
pub open spec fn table_scan(lines: Seq<Seq<char>>, k: nat) -> (bool, nat, Seq<IssueV>)
    decreases k,
{
    if k == 0 || k > lines.len() {
        (false, 0, Seq::empty())
    } else {
        let st = table_scan(lines, (k - 1) as nat);
        let idx = (k - 1) as nat;
        let line = lines[idx as int];
        let t = trim_seq(line);
        if starts(t, "|"@) && ends(t, "|"@) {
            let c = count_char(t, '|');
            if !st.0 {
                (true, c, st.2)
            } else if c != st.1 {
                (st.0, st.1, st.2.push(row_issue(idx, line, c, st.1)))
            } else {
                st
            }
        } else {
            (false, st.1, st.2)
        }
    }
}

/// Rows of a markdown table with another number of `|` than its first row.
pub open spec fn table_issues(lines: Seq<Seq<char>>) -> Seq<IssueV> {
    table_scan(lines, lines.len()).2
}

fn count_bars(t: &Vec<char>) -> (r: usize)
    ensures
        r == count_char(t@, '|'),
{
    let mut n: usize = 0;
    let mut i: usize = 0;
    while i < t.len()
        invariant
            i <= t.len(),
            n == count_char(t@.take(i as int), '|'),
            n <= i,
        decreases t.len() - i,
    {
        assert(t@.take(i + 1).drop_last() =~= t@.take(i as int));
        if t[i] == '|' {
            n = n + 1;
        }
        i = i + 1;
    }
    assert(t@.take(t@.len() as int) =~= t@);
    n
}

fn check_markdown_table_integrity(lines: &Vec<Vec<char>>, issues: &mut Vec<Issue>)
    ensures
        issues_view(final(issues)@) == issues_view(old(issues)@) + table_issues(views(lines@)),
{
    let ghost ls = views(lines@);
    let ghost o = issues_view(issues@);
    let bar = chars_of("|");
    let mut in_table = false;
    let mut expected: usize = 0;
    let mut idx: usize = 0;
    assert(o + table_scan(ls, 0).2 =~= o);
    while idx < lines.len()
        invariant
            idx <= lines.len(),
            ls == views(lines@),
            bar@ == "|"@,
            table_scan(ls, idx as nat).0 == in_table,
            table_scan(ls, idx as nat).1 == expected,
            issues_view(issues@) == o + table_scan(ls, idx as nat).2,
        decreases lines.len() - idx,
    {
        let line = &lines[idx];
        let t = trim(line);
        if starts_with(&t, &bar) && crate::text::ends_with(&t, &bar) {
            let c = count_bars(&t);
            if !in_table {
                in_table = true;
                expected = c;
            } else if c != expected {
                let mut m = chars_of("Markdown table row has ");
                push_all(&mut m, &crate::text::decimal(c));
                push_str(&mut m, " `|` but expected ");
                push_all(&mut m, &crate::text::decimal(expected));
                push_str(&mut m, " (based on header row)");
                let issue = Issue {
                    severity: String::from_str("warning"),
                    line: idx + 1,
                    column: 1,
                    message: to_string(&m),
                    context_snippet: Some(to_string(line)),
                };
                push_issue(issues, issue);
            }
        } else {
            in_table = false;
        }
        idx = idx + 1;
    }
}

// ---------------------------------------------------------------------------
// The check
// ---------------------------------------------------------------------------

/// The issues of a text checked as `context`.
pub open spec fn issues_of(text: Seq<char>, context: CheckContext) -> Seq<IssueV> {
    match context {
        CheckContext::Js | CheckContext::Cli => js_issues(text),
        CheckContext::Html => html_issues(text, lines_seq(text)),
        CheckContext::Header => table_issues(lines_seq(text)),
    }
}

/// How many issues have the severity `sev`.
pub open spec fn count_severity(v: Seq<IssueV>, sev: Seq<char>) -> nat
    decreases v.len(),
{
    if v.len() == 0 {
        0
    } else {
        count_severity(v.drop_last(), sev) + if v.last().severity == sev {
            1nat
        } else {
            0nat
        }
    }
}

pub open spec fn plural(n: nat) -> Seq<char> {
    if n != 1 {
        "s"@
    } else {
        Seq::empty()
    }
}

/// The one-line summary of a check with these counts.
pub open spec fn summary_of(errors: nat, warnings: nat) -> Seq<char> {
    if errors == 0 && warnings == 0 {
        "No issues found \u{2014} output is safe to use"@
    } else {
        dec(errors) + " error"@ + plural(errors) + ", "@ + dec(warnings) + " warning"@ + plural(
            warnings,
        ) + " \u{2014} review before applying"@
    }
}

fn count_severity_exec(v: &Vec<Issue>, sev: &str) -> (r: usize)
    ensures
        r == count_severity(issues_view(v@), sev@),
{
    let ghost iv = issues_view(v@);
    let s = chars_of(sev);
    let mut n: usize = 0;
    let mut i: usize = 0;
    while i < v.len()
        invariant
            i <= v.len(),
            iv == issues_view(v@),
            s@ == sev@,
            n == count_severity(iv.take(i as int), sev@),
            n <= i,
        decreases v.len() - i,
    {
        assert(iv.take(i + 1).drop_last() =~= iv.take(i as int));
        assert(iv[i as int].severity == v@[i as int].severity@);
        if crate::differ::vec_eq(&chars_of(v[i].severity.as_str()), &s) {
            n = n + 1;
        }
        i = i + 1;
    }
    assert(iv.take(iv.len() as int) =~= iv);
    n
}

/// Check the syntax of a text: JavaScript with the `oxc` parser (`js`,
/// `cli`), a full HTML document (`html`), or header markdown tables
/// (`header`).
pub fn check_syntax(text: &str, context: CheckContext) -> (r: CheckResult)
    ensures
        issues_view(r.issues@) == issues_of(text@, context),
        r.input_bytes == byte_len(text@) as usize,
        r.input_lines == lines_seq(text@).len(),
        r.balanced == (count_severity(issues_of(text@, context), "error"@) == 0),
        r.summary@ == summary_of(
            count_severity(issues_of(text@, context), "error"@),
            count_severity(issues_of(text@, context), "warning"@),
        ),
{
    let lines = str_lines(text);
    let input_bytes = str_len(text);
    let input_lines = lines.len();
    let mut issues: Vec<Issue> = Vec::new();
    assert(issues_view(issues@) =~= Seq::<IssueV>::empty());
    match context {
        CheckContext::Js => check_js_with_oxc(text, &mut issues),
        CheckContext::Html => check_html_with_parsers(text, &lines, &mut issues),
        CheckContext::Header => check_markdown_table_integrity(&lines, &mut issues),
        CheckContext::Cli => check_js_with_oxc(text, &mut issues),
    }
    assert(issues_view(issues@) =~= issues_of(text@, context));
    let errors = count_severity_exec(&issues, "error");
    let warnings = count_severity_exec(&issues, "warning");
    let balanced = errors == 0;
    let summary = if balanced && warnings == 0 {
        String::from_str("No issues found \u{2014} output is safe to use")
    } else {
        let mut m = crate::text::decimal(errors);
        push_str(&mut m, " error");
        if errors != 1 {
            push_str(&mut m, "s");
        }
        push_str(&mut m, ", ");
        push_all(&mut m, &crate::text::decimal(warnings));
        push_str(&mut m, " warning");
        if warnings != 1 {
            push_str(&mut m, "s");
        }
        push_str(&mut m, " \u{2014} review before applying");
        assert(m@ =~= summary_of(errors as nat, warnings as nat));
        to_string(&m)
    };
    CheckResult { input_bytes, input_lines, balanced, issues, summary }
}

} // verus!

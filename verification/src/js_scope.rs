//! JS scope and declaration detection from the `oxc` parser's AST: top-level
//! function, class and variable declarations with their line spans.
use vstd::prelude::*;
use oxc_allocator::Allocator;
use oxc_ast::ast::BindingIdentifier;
use oxc_ast::ast::Statement::{ClassDeclaration, FunctionDeclaration, VariableDeclaration};
use oxc_parser::Parser;
use oxc_span::{GetSpan, SourceType};

use crate::text::{
    byte_len, unicode_lower, chars_of, char_width_exec, contains, find, find_seq, includes, join, join_seq, lower_seq,
    push_str, skip_past, starts, starts_with, to_lower, to_string, trim, trim_seq, views,
};

verus! {

// ---------------------------------------------------------------------------
// The parser
// ---------------------------------------------------------------------------

/// A statement at the top level of a module, as the parser gives it: a
/// function or class declaration with its name (none for an anonymous one), a
/// variable declaration with its keyword and, for each declarator, the name it
/// binds where it binds a plain identifier (none for a destructuring pattern),
/// or any other statement.
pub enum TopStatement {
    Function(Option<String>),
    Class(Option<String>),
    Variable(String, Vec<Option<String>>),
    Other,
}

pub enum TopStatementV {
    Function(Option<Seq<char>>),
    Class(Option<Seq<char>>),
    Variable(Seq<char>, Seq<Option<Seq<char>>>),
    Other,
}

pub open spec fn opt_view(o: Option<String>) -> Option<Seq<char>> {
    match o {
        Some(s) => Some(s@),
        None => None,
    }
}

pub open spec fn opt_views(v: Seq<Option<String>>) -> Seq<Option<Seq<char>>> {
    v.map_values(|o: Option<String>| opt_view(o))
}

impl View for TopStatement {
    type V = TopStatementV;

    open spec fn view(&self) -> TopStatementV {
        match self {
            TopStatement::Function(n) => TopStatementV::Function(opt_view(*n)),
            TopStatement::Class(n) => TopStatementV::Class(opt_view(*n)),
            TopStatement::Variable(k, ns) => TopStatementV::Variable(k@, opt_views(ns@)),
            TopStatement::Other => TopStatementV::Other,
        }
    }
}

/// The statements with their byte spans `(start, end)`.
pub open spec fn statement_views(v: Seq<(TopStatement, u32, u32)>) -> Seq<(TopStatementV, u32, u32)> {
    v.map_values(|x: (TopStatement, u32, u32)| (x.0@, x.1, x.2))
}

/// What `oxc` reports of a source text parsed as an ECMAScript module: its
/// top-level statements in source order with their byte spans, and the
/// messages of its syntax errors.
pub uninterp spec fn oxc_module(source: Seq<char>) -> (Seq<(TopStatementV, u32, u32)>, Seq<Seq<char>>);

/// `(keyword, name, span start, span end)` for each name bound.
pub open spec fn named_decls(keyword: Seq<char>, names: Seq<Option<Seq<char>>>, start: u32, end: u32) -> Seq<
    (Seq<char>, Seq<char>, u32, u32),
>
    decreases names.len(),
{
    if names.len() == 0 {
        Seq::empty()
    } else {
        named_decls(keyword, names.drop_last(), start, end) + match names.last() {
            Some(n) => seq![(keyword, n, start, end)],
            None => Seq::empty(),
        }
    }
}

/// The declarations a top-level statement makes: a named function or class
/// (keyword `function` or `class`), or each plain identifier that a variable
/// declaration binds (with its own keyword); nothing for other statements.
pub open spec fn statement_decls(st: (TopStatementV, u32, u32)) -> Seq<(Seq<char>, Seq<char>, u32, u32)> {
    match st.0 {
        TopStatementV::Function(n) => named_decls("function"@, seq![n], st.1, st.2),
        TopStatementV::Class(n) => named_decls("class"@, seq![n], st.1, st.2),
        TopStatementV::Variable(k, ns) => named_decls(k, ns, st.1, st.2),
        TopStatementV::Other => Seq::empty(),
    }
}

/// The top-level declarations of a module's statements, in source order.
pub open spec fn top_decls(stmts: Seq<(TopStatementV, u32, u32)>) -> Seq<(Seq<char>, Seq<char>, u32, u32)>
    decreases stmts.len(),
{
    if stmts.len() == 0 {
        Seq::empty()
    } else {
        top_decls(stmts.drop_last()) + statement_decls(stmts.last())
    }
}

pub open spec fn raw_views(v: Seq<(Vec<char>, String, u32, u32)>) -> Seq<(Seq<char>, Seq<char>, u32, u32)> {
    v.map_values(|x: (Vec<char>, String, u32, u32)| (x.0@, x.1@, x.2, x.3))
}

/// `oxc_parser::Parser::new(.., SourceType::mjs()).parse()`, read for its
/// top-level statements: each converted to a [`TopStatement`] (the names that
/// its declarations bind, by `BindingPattern::get_binding_identifier`), with its
/// span. The contract names the result and claims nothing else.
#[verifier::external_body]
fn oxc_statements(source: &str) -> (r: Vec<(TopStatement, u32, u32)>)
    ensures
        statement_views(r@) == oxc_module(source@).0,
{
    let a = Allocator::default();
    let r = Parser::new(&a, source, SourceType::mjs()).parse();
    let nm = |i: &BindingIdentifier| i.name.to_string();
    r.program.body.iter().map(|s| (match s {
        FunctionDeclaration(f) => TopStatement::Function(f.id.as_ref().map(nm)),
        ClassDeclaration(c) => TopStatement::Class(c.id.as_ref().map(nm)),
        VariableDeclaration(v) => TopStatement::Variable(v.kind.as_str().to_string(), v.declarations.iter().map(|d| d.id.get_binding_identifier().map(nm)).collect()),
        _ => TopStatement::Other,
    }, s.span().start, s.span().end)).collect()
}

fn push_decl(out: &mut Vec<(Vec<char>, String, u32, u32)>, keyword: &Vec<char>, name: &String, start: u32, end: u32)
    ensures
        raw_views(final(out)@) == raw_views(old(out)@).push((keyword@, name@, start, end)),
{
    let ghost before = raw_views(out@);
    let entry = (crate::text::copy(keyword), String::from_str(name.as_str()), start, end);
    out.push(entry);
    assert(raw_views(out@) =~= before.push((keyword@, name@, start, end)));
}

fn push_named(out: &mut Vec<(Vec<char>, String, u32, u32)>, keyword: &Vec<char>, names: &Vec<Option<String>>, start: u32, end: u32)
    ensures
        raw_views(final(out)@) == raw_views(old(out)@) + named_decls(keyword@, opt_views(names@), start, end),
{
    let ghost before = raw_views(out@);
    let ghost nv = opt_views(names@);
    let mut i: usize = 0;
    assert(nv.take(0) =~= Seq::<Option<Seq<char>>>::empty());
    assert(before + named_decls(keyword@, nv.take(0), start, end) =~= before);
    while i < names.len()
        invariant
            i <= names.len(),
            nv == opt_views(names@),
            raw_views(out@) == before + named_decls(keyword@, nv.take(i as int), start, end),
        decreases names.len() - i,
    {
        assert(nv.take(i + 1).drop_last() =~= nv.take(i as int));
        assert(nv.take(i + 1).last() == opt_view(names@[i as int]));
        match &names[i] {
            Some(n) => {
                push_decl(out, keyword, n, start, end);
            },
            None => {},
        }
        assert(raw_views(out@) =~= before + named_decls(keyword@, nv.take(i + 1), start, end));
        i = i + 1;
    }
    assert(nv.take(i as int) =~= nv);
}

/// The declarations of a module's top-level statements (as the parser gives
/// them, with their spans), selected as [`top_decls`] states.
pub fn select_decls(stmts: &Vec<(TopStatement, u32, u32)>) -> (r: Vec<(Vec<char>, String, u32, u32)>)
    ensures
        raw_views(r@) == top_decls(statement_views(stmts@)),
{
    let ghost sv = statement_views(stmts@);
    let mut out: Vec<(Vec<char>, String, u32, u32)> = Vec::new();
    let mut i: usize = 0;
    assert(raw_views(out@) =~= top_decls(sv.take(0)));
    while i < stmts.len()
        invariant
            i <= stmts.len(),
            sv == statement_views(stmts@),
            raw_views(out@) == top_decls(sv.take(i as int)),
        decreases stmts.len() - i,
    {
        assert(sv.take(i + 1).drop_last() =~= sv.take(i as int));
        let (st, start, end) = &stmts[i];
        assert(sv.take(i + 1).last() == (st@, *start, *end));
        match st {
            TopStatement::Function(n) => {
                let one: Vec<Option<String>> = match n {
                    Some(x) => vec![Some(String::from_str(x.as_str()))],
                    None => vec![None],
                };
                assert(opt_views(one@) =~= seq![opt_view(*n)]);
                push_named(&mut out, &chars_of("function"), &one, *start, *end);
            },
            TopStatement::Class(n) => {
                let one: Vec<Option<String>> = match n {
                    Some(x) => vec![Some(String::from_str(x.as_str()))],
                    None => vec![None],
                };
                assert(opt_views(one@) =~= seq![opt_view(*n)]);
                push_named(&mut out, &chars_of("class"), &one, *start, *end);
            },
            TopStatement::Variable(k, ns) => {
                push_named(&mut out, &chars_of(k.as_str()), ns, *start, *end);
            },
            TopStatement::Other => {
                assert(raw_views(out@) =~= raw_views(out@) + Seq::<(Seq<char>, Seq<char>, u32, u32)>::empty());
            },
        }
        i = i + 1;
    }
    assert(sv.take(i as int) =~= sv);
    out
}

/// `oxc_parser::Parser::new(.., SourceType::mjs()).parse()`, read for the
/// display texts of its diagnostics; the contract names the result and claims
/// nothing else.
#[verifier::external_body]
pub(crate) fn oxc_syntax_errors(source: &str) -> (r: Vec<String>)
    ensures
        r@.map_values(|e: String| e@) == oxc_module(source@).1,
{
    Parser::new(&Allocator::default(), source, SourceType::mjs()).parse().diagnostics.iter().map(|e| e.to_string()).collect()
}

// ---------------------------------------------------------------------------
// Declarations
// ---------------------------------------------------------------------------

/// Classify a JS declaration type
#[derive(Debug, Clone, Copy, PartialEq, Eq)]
pub enum JsDeclType {
    Const,
    Let,
    Var,
    Function,
    Class,
    Unknown,
}

impl JsDeclType {
    /// The label of the type, e.g. `js-const`.
    pub fn to_string(&self) -> (r: String)
        ensures
            r@ == decl_type_label(*self),
    {
        match self {
            JsDeclType::Const => String::from_str("js-const"),
            JsDeclType::Let => String::from_str("js-let"),
            JsDeclType::Var => String::from_str("js-var"),
            JsDeclType::Function => String::from_str("js-function"),
            JsDeclType::Class => String::from_str("js-class"),
            JsDeclType::Unknown => String::from_str("js-unknown"),
        }
    }
}

pub open spec fn decl_type_label(t: JsDeclType) -> Seq<char> {
    match t {
        JsDeclType::Const => "js-const"@,
        JsDeclType::Let => "js-let"@,
        JsDeclType::Var => "js-var"@,
        JsDeclType::Function => "js-function"@,
        JsDeclType::Class => "js-class"@,
        JsDeclType::Unknown => "js-unknown"@,
    }
}

/// A JS declaration with precise start/end line info from AST
#[derive(Debug, Clone)]
pub struct JsDeclaration {
    pub name: String,
    pub decl_type: JsDeclType,
    /// 0-based, relative to the lines given
    pub start_line: usize,
    /// 0-based, relative to the lines given
    pub end_line: usize,
}

pub struct JsDeclV {
    pub name: Seq<char>,
    pub decl_type: JsDeclType,
    pub start_line: nat,
    pub end_line: nat,
}

impl View for JsDeclaration {
    type V = JsDeclV;

    open spec fn view(&self) -> JsDeclV {
        JsDeclV {
            name: self.name@,
            decl_type: self.decl_type,
            start_line: self.start_line as nat,
            end_line: self.end_line as nat,
        }
    }
}

pub open spec fn decl_type_of(keyword: Seq<char>) -> JsDeclType {
    if keyword == "const"@ {
        JsDeclType::Const
    } else if keyword == "let"@ {
        JsDeclType::Let
    } else if keyword == "var"@ {
        JsDeclType::Var
    } else if keyword == "function"@ {
        JsDeclType::Function
    } else if keyword == "class"@ {
        JsDeclType::Class
    } else {
        JsDeclType::Unknown
    }
}

/// Number of line starts (after the first) at byte offsets up to `x`: the
/// 0-based line holding byte offset `x` of `s`.
pub open spec fn line_of_offset(s: Seq<char>, x: nat) -> nat
    decreases s.len(),
{
    if s.len() == 0 {
        0
    } else {
        line_of_offset(s.drop_last(), x) + if s.last() == '\n' && byte_len(s) <= x {
            1nat
        } else {
            0nat
        }
    }
}

/// The declaration the library records for one parser item of source `src`.
pub open spec fn decl_from(raw: (Seq<char>, Seq<char>, u32, u32), src: Seq<char>) -> JsDeclV {
    let t = decl_type_of(raw.0);
    let kw = if t is Unknown {
        "var"@
    } else {
        raw.0
    };
    JsDeclV {
        name: kw + seq![' '] + raw.1,
        decl_type: t,
        start_line: line_of_offset(src, raw.2 as nat),
        end_line: line_of_offset(src, if raw.3 == 0 { 0 } else { (raw.3 - 1) as nat }),
    }
}

/// The top-level declarations of the script text made of `lines`.
pub open spec fn js_decls_spec(lines: Seq<Seq<char>>) -> Seq<JsDeclV> {
    let src = join_seq(lines, seq!['\n']);
    top_decls(oxc_module(src).0).map_values(|r: (Seq<char>, Seq<char>, u32, u32)| decl_from(r, src))
}

pub proof fn lemma_byte_len_mono(s: Seq<char>, i: int, j: int)
    requires
        0 <= i <= j <= s.len(),
    ensures
        byte_len(s.take(i)) <= byte_len(s.take(j)),
    decreases j - i,
{
    if i < j {
        assert(s.take(j).drop_last() =~= s.take(j - 1));
        lemma_byte_len_mono(s, i, j - 1);
    }
}

proof fn lemma_line_of_offset_stable(s: Seq<char>, x: nat, i: int, k: int)
    requires
        0 <= i <= k <= s.len(),
        byte_len(s.take(i)) > x,
    ensures
        line_of_offset(s.take(k), x) == line_of_offset(s.take(i), x),
    decreases k - i,
{
    if i < k {
        assert(s.take(k).drop_last() =~= s.take(k - 1));
        lemma_line_of_offset_stable(s, x, i, k - 1);
        lemma_byte_len_mono(s, i, k);
    }
}

/// The 0-based line of byte offset `x` in `src`.
pub fn offset_to_line(src: &Vec<char>, x: u32) -> (r: usize)
    ensures
        r == line_of_offset(src@, x as nat),
{
    let mut pos: u64 = 0;
    let mut line: usize = 0;
    let mut i: usize = 0;
    while i < src.len()
        invariant
            i <= src.len(),
            pos == byte_len(src@.take(i as int)),
            pos <= x as u64,
            line == line_of_offset(src@.take(i as int), x as nat),
            line <= i,
        decreases src.len() - i,
    {
        let c = src[i];
        let w = char_width_exec(c) as u64;
        assert(src@.take(i + 1).drop_last() =~= src@.take(i as int));
        let npos = pos + w;
        i = i + 1;
        if npos > x as u64 {
            proof {
                lemma_line_of_offset_stable(src@, x as nat, i as int, src@.len() as int);
                assert(src@.take(src@.len() as int) =~= src@);
            }
            if c == '\n' {
                return line;
            }
            return line;
        }
        if c == '\n' {
            line = line + 1;
        }
        pos = npos;
    }
    assert(src@.take(src@.len() as int) =~= src@);
    line
}

fn keyword_type(k: &Vec<char>) -> (r: JsDeclType)
    ensures
        r == decl_type_of(k@),
{
    let c = chars_of("const");
    let l = chars_of("let");
    let v = chars_of("var");
    let f = chars_of("function");
    let cl = chars_of("class");
    if crate::differ::vec_eq(k, &c) {
        JsDeclType::Const
    } else if crate::differ::vec_eq(k, &l) {
        JsDeclType::Let
    } else if crate::differ::vec_eq(k, &v) {
        JsDeclType::Var
    } else if crate::differ::vec_eq(k, &f) {
        JsDeclType::Function
    } else if crate::differ::vec_eq(k, &cl) {
        JsDeclType::Class
    } else {
        JsDeclType::Unknown
    }
}

/// Extract top-level JS declarations with precise scope boundaries using oxc_parser.
/// Returns the declarations with start_line and end_line (0-based, relative to provided lines).
pub fn extract_js_declarations_full(lines: &Vec<Vec<char>>) -> (r: Vec<JsDeclaration>)
    ensures
        r@.map_values(|d: JsDeclaration| d@) == js_decls_spec(views(lines@)),
{
    let mut nl: Vec<char> = Vec::new();
    nl.push('\n');
    assert(nl@ =~= seq!['\n']);
    let src = join(lines, &nl);
    let src_s = to_string(&src);
    let stmts = oxc_statements(src_s.as_str());
    let raws = select_decls(&stmts);
    let ghost rv = raw_views(raws@);
    let ghost target = js_decls_spec(views(lines@));
    let mut out: Vec<JsDeclaration> = Vec::new();
    let mut i: usize = 0;
    while i < raws.len()
        invariant
            i <= raws.len(),
            src@ == join_seq(views(lines@), seq!['\n']),
            rv == raw_views(raws@),
            rv == top_decls(oxc_module(src@).0),
            target == js_decls_spec(views(lines@)),
            out@.map_values(|d: JsDeclaration| d@) == target.take(i as int),
        decreases raws.len() - i,
    {
        let raw = &raws[i];
        let ghost r = rv[i as int];
        assert(r == (raw.0@, raw.1@, raw.2, raw.3));
        let k = crate::text::copy(&raw.0);
        let t = keyword_type(&k);
        let mut name: Vec<char> = match t {
            JsDeclType::Unknown => chars_of("var"),
            _ => k,
        };
        let ghost kw = name@;
        assert(kw == (if t is Unknown { "var"@ } else { r.0 }));
        name.push(' ');
        push_str(&mut name, raw.1.as_str());
        assert(name@ =~= kw + seq![' '] + r.1);
        let start_line = offset_to_line(&src, raw.2);
        let end_off: u32 = if raw.3 == 0 {
            0
        } else {
            raw.3 - 1
        };
        let end_line = offset_to_line(&src, end_off);
        let d = JsDeclaration { name: to_string(&name), decl_type: t, start_line, end_line };
        let ghost old_out = out@;
        let ghost dv = d@;
        proof {
            assert(dv == decl_from(rv[i as int], src@));
            assert(target[i as int] == decl_from(rv[i as int], src@));
            assert(old_out.map_values(|d: JsDeclaration| d@).len() == i);
        }
        out.push(d);
        proof {
            assert(out@.map_values(|d: JsDeclaration| d@) =~= old_out.map_values(
                |d: JsDeclaration| d@,
            ).push(dv));
            assert(target.take(i + 1) =~= target.take(i as int).push(target[i as int]));
        }
        i = i + 1;
    }
    proof {
        assert(target.len() == raws@.len());
        assert(target.take(raws@.len() as int) =~= target);
    }
    out
}

/// The view of a (name, type, line) triple list.
pub open spec fn triple_views(v: Seq<(String, JsDeclType, usize)>) -> Seq<(Seq<char>, JsDeclType, nat)> {
    v.map_values(|x: (String, JsDeclType, usize)| (x.0@, x.1, x.2 as nat))
}

/// Extract top-level JS declarations from script content lines.
/// Returns: (name, declaration_type, 0-based line index within the provided lines)
pub fn extract_js_declarations(lines: &Vec<Vec<char>>) -> (r: Vec<(String, JsDeclType, usize)>)
    ensures
        triple_views(r@) == js_decls_spec(views(lines@)).map_values(
            |d: JsDeclV| (d.name, d.decl_type, d.start_line),
        ),
{
    let full = extract_js_declarations_full(lines);
    let ghost fv = full@.map_values(|d: JsDeclaration| d@);
    let mut out: Vec<(String, JsDeclType, usize)> = Vec::new();
    let mut i: usize = 0;
    while i < full.len()
        invariant
            i <= full.len(),
            fv == full@.map_values(|d: JsDeclaration| d@),
            triple_views(out@) == fv.take(i as int).map_values(
                |d: JsDeclV| (d.name, d.decl_type, d.start_line),
            ),
        decreases full.len() - i,
    {
        let d = &full[i];
        let n = crate::text::chars_of(d.name.as_str());
        let ghost prev = out@;
        assert(triple_views(prev).len() == i);
        out.push((to_string(&n), d.decl_type, d.start_line));
        proof {
            assert(fv[i as int] == d@);
            assert(out@ == prev.push(out@[i as int]));
            assert(triple_views(out@) =~= triple_views(prev).push(
                (d.name@, d.decl_type, d.start_line as nat),
            ));
            assert(fv.take(i + 1) =~= fv.take(i as int).push(fv[i as int]));
        }
        i = i + 1;
        assert(triple_views(out@) =~= fv.take(i as int).map_values(
            |d: JsDeclV| (d.name, d.decl_type, d.start_line),
        ));
    }
    assert(fv.take(full@.len() as int) =~= fv);
    out
}


// ---------------------------------------------------------------------------
// Scope ends
// ---------------------------------------------------------------------------

/// Size of a list of lines: its characters plus one per line (the room its
/// newline-joined text needs).
pub open spec fn weight(v: Seq<Seq<char>>) -> nat
    decreases v.len(),
{
    if v.len() == 0 {
        0
    } else {
        weight(v.drop_last()) + v.last().len() + 1
    }
}

proof fn lemma_weight_len(v: Seq<Seq<char>>)
    ensures
        v.len() <= weight(v),
    decreases v.len(),
{
    if v.len() > 0 {
        lemma_weight_len(v.drop_last());
    }
}

proof fn lemma_weight_range(v: Seq<Seq<char>>, a: int, b: int)
    requires
        0 <= a <= b <= v.len(),
    ensures
        a + weight(v.subrange(a, b)) <= weight(v),
    decreases v.len(),
{
    if b < v.len() {
        assert(v.drop_last().subrange(a, b) =~= v.subrange(a, b));
        lemma_weight_range(v.drop_last(), a, b);
    } else if a < b {
        assert(v.subrange(a, b).drop_last() =~= v.drop_last().subrange(a, b - 1));
        lemma_weight_range(v.drop_last(), a, b - 1);
    } else {
        assert(v.subrange(a, b) =~= Seq::<Seq<char>>::empty());
        lemma_weight_len(v);
    }
}

proof fn lemma_join_len(v: Seq<Seq<char>>)
    ensures
        join_seq(v, seq!['\n']).len() <= weight(v),
    decreases v.len(),
{
    if v.len() > 1 {
        lemma_join_len(v.drop_last());
    }
}

proof fn lemma_line_of_offset_len(s: Seq<char>, x: nat)
    ensures
        line_of_offset(s, x) <= s.len(),
    decreases s.len(),
{
    if s.len() > 0 {
        lemma_line_of_offset_len(s.drop_last(), x);
    }
}

/// The lines a declaration of a region spans, counted from the file's start,
/// stay within the file's [`weight`].
pub proof fn lemma_decl_lines_bounded(lines: Seq<Seq<char>>, a: int, b: int)
    requires
        0 <= a <= b <= lines.len(),
    ensures
        forall|j: int|
            0 <= j < js_decls_spec(lines.subrange(a, b)).len() ==> a + (#[trigger] js_decls_spec(
                lines.subrange(a, b),
            )[j]).start_line <= weight(lines) && a + js_decls_spec(lines.subrange(a, b))[j].end_line
                <= weight(lines),
{
    let rv = lines.subrange(a, b);
    let src = join_seq(rv, seq!['\n']);
    lemma_join_len(rv);
    lemma_weight_range(lines, a, b);
    assert forall|j: int| 0 <= j < js_decls_spec(rv).len() implies a + (#[trigger] js_decls_spec(rv)[j]).start_line
        <= weight(lines) && a + js_decls_spec(rv)[j].end_line <= weight(lines) by {
        let raw = top_decls(oxc_module(src).0)[j];
        let e: nat = if raw.3 == 0 {
            0
        } else {
            (raw.3 - 1) as nat
        };
        lemma_line_of_offset_len(src, e);
        lemma_line_of_offset_len(src, raw.2 as nat);
    }
}

/// The first declaration (in source order) that starts on line `line`.
pub open spec fn decl_at(decls: Seq<JsDeclV>, line: nat) -> Option<JsDeclV>
    decreases decls.len(),
{
    if decls.len() == 0 {
        None
    } else if decls[0].start_line == line {
        Some(decls[0])
    } else {
        decl_at(decls.skip(1), line)
    }
}

/// Where the declaration starting on `start_line` ends, for the script region
/// `script_start..script_end` of `lines` (all 0-based, end exclusive).
pub open spec fn scope_end_in_region_spec(
    lines: Seq<Seq<char>>,
    start_line: nat,
    script_start: nat,
    script_end: nat,
) -> Option<nat> {
    if start_line < script_start {
        None
    } else {
        match decl_at(
            js_decls_spec(lines.subrange(script_start as int, script_end as int)),
            (start_line - script_start) as nat,
        ) {
            Some(d) => Some(script_start + d.end_line),
            None => None,
        }
    }
}

/// Detect the end of a JS scope starting from a given line using the AST.
/// `lines` are the file's lines, `start_line` is the 0-based line of the
/// declaration, `script_start..script_end` the script region (0-based, end
/// exclusive). Returns the 0-based line where the scope ends.
pub fn detect_scope_end_in_region(
    lines: &Vec<Vec<char>>,
    start_line: usize,
    script_start: usize,
    script_end: usize,
) -> (r: Option<usize>)
    requires
        script_start <= script_end <= lines.len(),
        weight(views(lines@)) <= usize::MAX,
    ensures
        r is None <==> scope_end_in_region_spec(views(lines@), start_line as nat, script_start as nat, script_end as nat) is None,
        r matches Some(n) ==> scope_end_in_region_spec(views(lines@), start_line as nat, script_start as nat, script_end as nat) == Some(n as nat),
        r matches Some(n) ==> n <= weight(views(lines@)),
{
    let mut region: Vec<Vec<char>> = Vec::new();
    let mut k: usize = script_start;
    while k < script_end
        invariant
            script_start <= k <= script_end <= lines.len(),
            views(region@) == views(lines@).subrange(script_start as int, k as int),
        decreases script_end - k,
    {
        let ghost prev = views(region@);
        region.push(crate::text::copy(&lines[k]));
        assert(views(region@) =~= prev.push(lines@[k as int]@));
        k = k + 1;
        assert(views(region@) =~= views(lines@).subrange(script_start as int, k as int));
    }
    let decls = extract_js_declarations_full(&region);
    if start_line < script_start {
        return None;
    }
    let rel = start_line - script_start;
    let ghost dv = decls@.map_values(|d: JsDeclaration| d@);
    let ghost rv = views(region@);
    proof {
        lemma_decl_lines_bounded(views(lines@), script_start as int, script_end as int);
    }
    assert(dv.skip(0) =~= dv);
    let mut i: usize = 0;
    while i < decls.len()
        invariant
            i <= decls.len(),
            dv == decls@.map_values(|d: JsDeclaration| d@),
            dv == js_decls_spec(views(lines@).subrange(script_start as int, script_end as int)),
            script_start <= start_line,
            rel == start_line - script_start,
            decl_at(dv, rel as nat) == decl_at(dv.skip(i as int), rel as nat),
            weight(views(lines@)) <= usize::MAX,
            forall|j: int| 0 <= j < dv.len() ==> script_start + #[trigger] dv[j].end_line <= weight(views(lines@)),
        decreases decls.len() - i,
    {
        assert(dv.skip(i as int)[0] == dv[i as int]);
        assert(dv.skip(i as int).skip(1) =~= dv.skip(i + 1));
        assert(dv[i as int] == decls@[i as int]@);
        assert(script_start + dv[i as int].end_line <= weight(views(lines@)));
        if decls[i].start_line == rel {
            assert(decl_at(dv.skip(i as int), rel as nat) == Some(dv[i as int]));
            return Some(script_start + decls[i].end_line);
        }
        i = i + 1;
    }
    assert(dv.skip(i as int) =~= Seq::<JsDeclV>::empty());
    None
}

/// `(in a script, where it started, regions so far)` after scanning a line.
pub open spec fn region_step(
    st: (bool, nat, Seq<(nat, nat)>),
    idx: nat,
    line: Seq<char>,
) -> (bool, nat, Seq<(nat, nat)>) {
    let low = unicode_lower(line);
    let opened = !st.0 && includes(low, "<script"@) && !(includes(low, "src="@));
    let inside = st.0 || opened;
    let start = if opened {
        idx + 1
    } else {
        st.1
    };
    if inside && includes(low, "</script>"@) {
        (false, start, st.2.push((start, idx)))
    } else {
        (inside, start, st.2)
    }
}

pub open spec fn region_scan(lines: Seq<Seq<char>>) -> (bool, nat, Seq<(nat, nat)>)
    decreases lines.len(),
{
    if lines.len() == 0 {
        (false, 0, Seq::empty())
    } else {
        region_step(region_scan(lines.drop_last()), (lines.len() - 1) as nat, lines.last())
    }
}

/// Inline script regions `(first content line, closing line)`, 0-based; a
/// script left open runs to the end of the lines.
pub open spec fn script_regions_simple_spec(lines: Seq<Seq<char>>) -> Seq<(nat, nat)> {
    let st = region_scan(lines);
    if st.0 {
        st.2.push((st.1, lines.len()))
    } else {
        st.2
    }
}

proof fn lemma_region_scan_bounds(lines: Seq<Seq<char>>)
    ensures
        region_scan(lines).1 <= lines.len(),
        forall|k: int| 0 <= k < region_scan(lines).2.len() ==> #[trigger] region_scan(lines).2[k].1 < lines.len(),
    decreases lines.len(),
{
    if lines.len() > 0 {
        lemma_region_scan_bounds(lines.drop_last());
    }
}

pub open spec fn pair_views(v: Seq<(usize, usize)>) -> Seq<(nat, nat)> {
    v.map_values(|x: (usize, usize)| (x.0 as nat, x.1 as nat))
}

/// Simple script region finder.
pub fn find_script_regions_simple(lines: &Vec<Vec<char>>) -> (r: Vec<(usize, usize)>)
    ensures
        pair_views(r@) == script_regions_simple_spec(views(lines@)),
{
    let open_tag = chars_of("<script");
    let src_attr = chars_of("src=");
    let close_tag = chars_of("</script>");
    let mut regions: Vec<(usize, usize)> = Vec::new();
    let mut in_script = false;
    let mut script_start: usize = 0;
    let mut idx: usize = 0;
    while idx < lines.len()
        invariant
            idx <= lines.len(),
            open_tag@ == "<script"@,
            src_attr@ == "src="@,
            close_tag@ == "</script>"@,
            region_scan(views(lines@).take(idx as int)) == (in_script, script_start as nat, pair_views(regions@)),
        decreases lines.len() - idx,
    {
        let lower = crate::text::lowercase(&lines[idx]);
        let ghost before = pair_views(regions@);
        if !in_script && contains(&lower, &open_tag) && !contains(&lower, &src_attr) {
            in_script = true;
            script_start = idx + 1;
        }
        if in_script && contains(&lower, &close_tag) {
            regions.push((script_start, idx));
            in_script = false;
            assert(pair_views(regions@) =~= before.push((script_start as nat, idx as nat)));
        }
        assert(views(lines@).take(idx + 1).drop_last() =~= views(lines@).take(idx as int));
        idx = idx + 1;
    }
    assert(views(lines@).take(lines@.len() as int) =~= views(lines@));
    if in_script {
        let ghost before = pair_views(regions@);
        regions.push((script_start, lines.len()));
        assert(pair_views(regions@) =~= before.push((script_start as nat, lines@.len() as nat)));
    }
    regions
}

/// The first region of `regs` holding line `x`.
pub open spec fn region_of(regs: Seq<(nat, nat)>, x: nat) -> Option<(nat, nat)>
    decreases regs.len(),
{
    if regs.len() == 0 {
        None
    } else if regs[0].0 <= x < regs[0].1 {
        Some(regs[0])
    } else {
        region_of(regs.skip(1), x)
    }
}

proof fn lemma_region_of_in(regs: Seq<(nat, nat)>, x: nat)
    ensures
        region_of(regs, x) matches Some(g) ==> exists|k: int| 0 <= k < regs.len() && regs[k] == g,
    decreases regs.len(),
{
    if regs.len() > 0 {
        lemma_region_of_in(regs.skip(1), x);
        if let Some(g) = region_of(regs.skip(1), x) {
            if !(regs[0].0 <= x < regs[0].1) {
                let k = choose|k: int| 0 <= k < regs.skip(1).len() && regs.skip(1)[k] == g;
                assert(regs[k + 1] == g);
            }
        }
    }
}

/// Where the scope of the declaration on `start_line` ends, searched in the
/// first inline script region that holds that line.
pub open spec fn scope_end_spec(lines: Seq<Seq<char>>, start_line: nat) -> Option<nat> {
    match region_of(script_regions_simple_spec(lines), start_line) {
        Some(g) => scope_end_in_region_spec(lines, start_line, g.0, g.1),
        None => None,
    }
}

/// Detect the end of the scope starting on `start_line`, within whichever
/// inline script region holds that line.
pub fn detect_scope_end(lines: &Vec<Vec<char>>, start_line: usize) -> (r: Option<usize>)
    requires
        weight(views(lines@)) <= usize::MAX,
    ensures
        r is None <==> scope_end_spec(views(lines@), start_line as nat) is None,
        r matches Some(n) ==> scope_end_spec(views(lines@), start_line as nat) == Some(n as nat),
        r matches Some(n) ==> n <= weight(views(lines@)),
{
    let regions = find_script_regions_simple(lines);
    let ghost regs = pair_views(regions@);
    proof {
        lemma_region_scan_bounds(views(lines@));
        lemma_region_of_in(regs, start_line as nat);
    }
    assert(regs.skip(0) =~= regs);
    let mut i: usize = 0;
    while i < regions.len()
        invariant
            i <= regions.len(),
            regs == pair_views(regions@),
            regs == script_regions_simple_spec(views(lines@)),
            weight(views(lines@)) <= usize::MAX,
            region_of(regs, start_line as nat) == region_of(regs.skip(i as int), start_line as nat),
        decreases regions.len() - i,
    {
        assert(regs.skip(i as int)[0] == regs[i as int]);
        assert(regs.skip(i as int).skip(1) =~= regs.skip(i + 1));
        let (rs, re) = regions[i];
        assert(regs[i as int] == (rs as nat, re as nat));
        if start_line >= rs && start_line < re {
            proof {
                lemma_region_scan_bounds(views(lines@));
                let st = region_scan(views(lines@));
                if !(st.0 && i as int == regs.len() - 1) {
                    assert(regs[i as int] == st.2[i as int]);
                }
            }
            return detect_scope_end_in_region(lines, start_line, rs, re);
        }
        i = i + 1;
    }
    None
}

// ---------------------------------------------------------------------------
// Purpose comments
// ---------------------------------------------------------------------------

/// The description in the comment line above line `idx`, if that line is a
/// `//` comment holding ` — ` or `() - ` before the description.
pub open spec fn purpose_spec(lines: Seq<Seq<char>>, idx: nat) -> Option<Seq<char>> {
    if idx == 0 {
        None
    } else {
        let prev = trim_seq(lines[idx - 1]);
        if !starts(prev, "//"@) {
            None
        } else {
            match find_seq(prev, " \u{2014} "@) {
                Some(p) => Some(trim_seq(prev.skip(p + 3))),
                None => match find_seq(prev, "() - "@) {
                    Some(p) => Some(trim_seq(prev.skip(p + 5))),
                    None => None,
                },
            }
        }
    }
}

/// Extract the purpose comment from the line above a declaration.
/// Matches `// name() — description` or `// name() - description`.
pub fn extract_purpose_comment(lines: &Vec<Vec<char>>, decl_line_idx: usize) -> (r: Option<String>)
    requires
        decl_line_idx <= lines.len(),
    ensures
        r is None <==> purpose_spec(views(lines@), decl_line_idx as nat) is None,
        r matches Some(t) ==> purpose_spec(views(lines@), decl_line_idx as nat) == Some(t@),
{
    if decl_line_idx == 0 {
        return None;
    }
    let prev = trim(&lines[decl_line_idx - 1]);
    let slashes = chars_of("//");
    if !starts_with(&prev, &slashes) {
        return None;
    }
    proof {
        reveal_strlit(" \u{2014} ");
    }
    let dash = chars_of(" \u{2014} ");
    assert(dash@.len() == 3);
    if let Some(pos) = find(&prev, &dash) {
        let rest = skip_past(&prev, pos, 3);
        return Some(to_string(&trim(&rest)));
    }
    proof {
        reveal_strlit("() - ");
    }
    let paren = chars_of("() - ");
    assert(paren@.len() == 5);
    if let Some(pos) = find(&prev, &paren) {
        let rest = skip_past(&prev, pos, 5);
        return Some(to_string(&trim(&rest)));
    }
    None
}

} // verus!

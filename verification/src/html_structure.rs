//! HTML structure read from the source text: elements with ids, and the
//! tag-pair tree of section 6 of the header.
use vstd::prelude::*;

use crate::text::{
    chars_of, find, find_seq, includes, is_ws, occurs_at, unicode_lower, lines_seq, lower_seq, push_all, push_str, slice, starts, starts_with,
    str_lines, to_lower, to_string, views,
};

verus! {

/// An HTML element with an id attribute.
#[derive(Debug, Clone)]
pub struct HtmlElement {
    pub tag: String,
    pub id: Option<String>,
    /// 1-based line number
    pub line: usize,
    pub depth: usize,
}

pub struct ElementV {
    pub tag: Seq<char>,
    pub id: Option<Seq<char>>,
    pub line: nat,
    pub depth: nat,
}

impl View for HtmlElement {
    type V = ElementV;

    open spec fn view(&self) -> ElementV {
        ElementV {
            tag: self.tag@,
            id: crate::header::opt_str(self.id),
            line: self.line as nat,
            depth: self.depth as nat,
        }
    }
}

pub open spec fn elements_view(v: Seq<HtmlElement>) -> Seq<ElementV> {
    v.map_values(|e: HtmlElement| e@)
}

// ---------------------------------------------------------------------------
// Attributes and tag names
// ---------------------------------------------------------------------------

/// `pat` stands at `i` of `t` as the start of an attribute: at the start of
/// the text or after whitespace (so `grid="` or `data-id="` hold no `id="`).
pub open spec fn attr_at(t: Seq<char>, pat: Seq<char>, i: int) -> bool {
    occurs_at(t, pat, i) && (i == 0 || is_ws(t[i - 1]))
}

/// The first position at or after `i` where `pat` starts an attribute.
pub open spec fn attr_from(t: Seq<char>, pat: Seq<char>, i: nat) -> Option<nat>
    decreases t.len() + 1 - i,
{
    if i > t.len() {
        None
    } else if attr_at(t, pat, i as int) {
        Some(i)
    } else {
        attr_from(t, pat, i + 1)
    }
}

pub proof fn lemma_attr_from(t: Seq<char>, pat: Seq<char>, i: nat)
    ensures
        attr_from(t, pat, i) matches Some(k) ==> i <= k && attr_at(t, pat, k as int) && forall|j: int|
            i <= j < k ==> !attr_at(t, pat, j),
        attr_from(t, pat, i) is None ==> forall|j: int| i <= j ==> !attr_at(t, pat, j),
    decreases t.len() + 1 - i,
{
    if i <= t.len() && !attr_at(t, pat, i as int) {
        lemma_attr_from(t, pat, i + 1);
        assert forall|j: int| i <= j && !(i + 1 <= j) implies !attr_at(t, pat, j) by {
            assert(j == i);
        }
    } else if i > t.len() {
        assert forall|j: int| i <= j implies !attr_at(t, pat, j) by {
            assert(!occurs_at(t, pat, j));
        }
    }
}

/// The first position where `pat` starts an attribute of `t`.
pub(crate) fn attr_find(t: &Vec<char>, pat: &Vec<char>) -> (r: Option<usize>)
    ensures
        r is None <==> attr_from(t@, pat@, 0) is None,
        r matches Some(k) ==> attr_from(t@, pat@, 0) == Some(k as nat),
{
    let mut i: usize = 0;
    while i < t.len()
        invariant
            i <= t.len(),
            attr_from(t@, pat@, 0) == attr_from(t@, pat@, i as nat),
        decreases t.len() - i,
    {
        let boundary = i == 0 || crate::text::is_whitespace(t[i - 1]);
        if boundary && crate::text::occurs_at_exec(t, pat, i) {
            return Some(i);
        }
        i = i + 1;
    }
    let boundary = i == 0 || crate::text::is_whitespace(t[i - 1]);
    if boundary && crate::text::occurs_at_exec(t, pat, i) {
        return Some(i);
    }
    assert(attr_from(t@, pat@, (i + 1) as nat) is None);
    None
}

/// The value after the first `pat` that starts an attribute of `t`, up to the
/// quote `q`.
pub open spec fn id_with(t: Seq<char>, pat: Seq<char>, q: char) -> Option<Seq<char>> {
    match attr_from(t, pat, 0) {
        Some(st) => {
            let rest = t.skip((st + pat.len()) as int);
            match find_seq(rest, seq![q]) {
                Some(e) => Some(rest.take(e)),
                None => None,
            }
        },
        None => None,
    }
}

/// The id of a tag's text: `id="..."`, `id='...'`, `id = "..."` or
/// `id = '...'`, tried in that order.
pub open spec fn tag_id(t: Seq<char>) -> Option<Seq<char>> {
    match id_with(t, "id=\""@, '"') {
        Some(v) => Some(v),
        None => match id_with(t, "id='"@, '\'') {
            Some(v) => Some(v),
            None => match id_with(t, "id = \""@, '"') {
                Some(v) => Some(v),
                None => id_with(t, "id = '"@, '\''),
            },
        },
    }
}

fn id_with_exec(t: &Vec<char>, pat: &str, q: char) -> (r: Option<Vec<char>>)
    ensures
        r is None <==> id_with(t@, pat@, q) is None,
        r matches Some(v) ==> id_with(t@, pat@, q) == Some(v@),
{
    let p = chars_of(pat);
    match attr_find(t, &p) {
        Some(st) => {
            proof {
                lemma_attr_from(t@, p@, 0);
            }
            let rest = crate::text::skip_past(t, st, p.len());
            let mut qv: Vec<char> = Vec::new();
            qv.push(q);
            assert(qv@ =~= seq![q]);
            match find(&rest, &qv) {
                Some(e) => {
                    assert(rest@.subrange(0, e as int) =~= rest@.take(e as int));
                    Some(slice(&rest, 0, e))
                },
                None => None,
            }
        },
        None => None,
    }
}

/// Extract the id attribute of a tag's text.
fn extract_id_attr(tag_content: &Vec<char>) -> (r: Option<Vec<char>>)
    ensures
        r is None <==> tag_id(tag_content@) is None,
        r matches Some(v) ==> tag_id(tag_content@) == Some(v@),
{
    if let Some(v) = id_with_exec(tag_content, "id=\"", '"') {
        return Some(v);
    }
    if let Some(v) = id_with_exec(tag_content, "id='", '\'') {
        return Some(v);
    }
    if let Some(v) = id_with_exec(tag_content, "id = \"", '"') {
        return Some(v);
    }
    id_with_exec(tag_content, "id = '", '\'')
}

/// Length of the tag name at the start of `s`: up to a space, `>` or `/`.
pub open spec fn name_len(s: Seq<char>) -> nat
    decreases s.len(),
{
    if s.len() == 0 || s[0] == ' ' || s[0] == '>' || s[0] == '/' {
        0
    } else {
        1 + name_len(s.skip(1))
    }
}

pub proof fn lemma_name_len_le(s: Seq<char>)
    ensures
        name_len(s) <= s.len(),
    decreases s.len(),
{
    if s.len() > 0 && !(s[0] == ' ' || s[0] == '>' || s[0] == '/') {
        lemma_name_len_le(s.skip(1));
    }
}

/// The end of the tag name that starts at `ts`.
fn name_end(line: &Vec<char>, ts: usize) -> (r: usize)
    requires
        ts <= line.len(),
    ensures
        r == ts + name_len(line@.skip(ts as int)),
        r <= line.len(),
{
    let mut end = ts;
    assert(line@.skip(ts as int).skip(0) =~= line@.skip(ts as int));
    while end < line.len() && line[end] != ' ' && line[end] != '>' && line[end] != '/'
        invariant
            ts <= end <= line.len(),
            name_len(line@.skip(ts as int)) == (end - ts) + name_len(line@.skip(end as int)),
        decreases line.len() - end,
    {
        assert(line@.skip(end as int).skip(1) =~= line@.skip(end + 1));
        end = end + 1;
    }
    if end < line.len() {
        assert(line@.skip(end as int)[0] == line@[end as int]);
    }
    end
}

/// The position of the first `>` at or after `pos`, or the line's length.
pub open spec fn tag_end_at(line: Seq<char>, pos: nat) -> nat {
    match find_seq(line.skip(pos as int), ">"@) {
        Some(i) => pos + i as nat,
        None => line.len(),
    }
}

pub proof fn lemma_tag_end_ge(line: Seq<char>, pos: nat)
    requires
        pos <= line.len(),
    ensures
        pos <= tag_end_at(line, pos) <= line.len(),
{
    let rest = line.skip(pos as int);
    if includes(rest, ">"@) {
        crate::text::lemma_find_some(rest, ">"@);
    }
}

fn tag_end_exec(line: &Vec<char>, pos: usize) -> (r: usize)
    requires
        pos < line.len(),
    ensures
        r == tag_end_at(line@, pos as nat),
        pos <= r <= line.len(),
{
    let rest = crate::text::skip(line, pos);
    proof {
        reveal_strlit(">");
    }
    match find(&rest, &chars_of(">")) {
        Some(i) => pos + i,
        None => line.len(),
    }
}

// ---------------------------------------------------------------------------
// Elements with ids
// ---------------------------------------------------------------------------

/// Elements with an id among the tags of `line` from `pos` on (`idx` is the
/// line's 0-based index).
pub open spec fn ids_from(line: Seq<char>, pos: nat, idx: nat) -> Seq<ElementV>
    decreases line.len() + 1 - pos,
{
    if pos >= line.len() {
        Seq::empty()
    } else if line[pos as int] == '<' && pos + 1 < line.len() && line[pos + 1 as int] != '/' && line[pos
        + 1 as int] != '!' {
        let ts: int = pos + 1int;
        let end: int = ts + name_len(line.skip(ts));
        let tag = unicode_lower(line.subrange(ts, end));
        if tag.len() == 0 {
            ids_from(line, pos + 1, idx)
        } else {
            let te = tag_end_at(line, pos);
            proof {
                lemma_tag_end_ge(line, pos);
            }
            let here = match tag_id(line.subrange(pos as int, te as int)) {
                Some(id) => seq![ElementV { tag, id: Some(id), line: idx + 1, depth: 0 }],
                None => Seq::empty(),
            };
            here + ids_from(line, te + 1, idx)
        }
    } else {
        ids_from(line, pos + 1, idx)
    }
}

/// Elements with an id in the first `k` lines.
pub open spec fn ids_in(lines: Seq<Seq<char>>, k: nat) -> Seq<ElementV>
    decreases k,
{
    if k == 0 || k > lines.len() {
        Seq::empty()
    } else {
        ids_in(lines, (k - 1) as nat) + ids_from(lines[k - 1], 0, (k - 1) as nat)
    }
}

/// Extract all elements with id attributes from HTML content.
pub fn extract_ids(content: &str) -> (r: Vec<HtmlElement>)
    ensures
        elements_view(r@) == ids_in(lines_seq(content@), lines_seq(content@).len()),
{
    let lines = str_lines(content);
    let ghost ls = views(lines@);
    let mut results: Vec<HtmlElement> = Vec::new();
    let mut li: usize = 0;
    assert(elements_view(results@) =~= Seq::<ElementV>::empty());
    while li < lines.len()
        invariant
            li <= lines.len(),
            ls == views(lines@),
            elements_view(results@) == ids_in(ls, li as nat),
        decreases lines.len() - li,
    {
        let line = &lines[li];
        let ghost lv = line@;
        let ghost r0 = elements_view(results@);
        let mut pos: usize = 0;
        assert(r0 + ids_from(lv, 0, li as nat) =~= r0 + ids_from(lv, 0, li as nat));
        while pos < line.len()
            invariant
                lv == line@,
                li < lines.len(),
                elements_view(results@) + ids_from(lv, pos as nat, li as nat) == r0 + ids_from(lv, 0, li as nat),
            decreases line.len() - pos,
        {
            if line[pos] == '<' && pos + 1 < line.len() && line[pos + 1] != '/' && line[pos + 1] != '!' {
                let ts = pos + 1;
                let end = name_end(line, ts);
                let tag = crate::text::lowercase(&slice(line, ts, end));
                if tag.len() == 0 {
                    pos = pos + 1;
                    continue;
                }
                let te = tag_end_exec(line, pos);
                let tag_content = slice(line, pos, te);
                let ghost before = elements_view(results@);
                match extract_id_attr(&tag_content) {
                    Some(id) => {
                        let e = HtmlElement { tag: to_string(&tag), id: Some(to_string(&id)), line: li + 1, depth: 0 };
                        let ghost ev = e@;
                        results.push(e);
                        assert(elements_view(results@) =~= before.push(ev));
                        assert(before.push(ev) + ids_from(lv, (te + 1) as nat, li as nat) =~= before + (seq![ev]
                            + ids_from(lv, (te + 1) as nat, li as nat)));
                    },
                    None => {
                        assert(before + (Seq::<ElementV>::empty() + ids_from(lv, (te + 1) as nat, li as nat))
                            =~= before + ids_from(lv, (te + 1) as nat, li as nat));
                    },
                }
                if te < line.len() {
                    pos = te + 1;
                } else {
                    assert(ids_from(lv, (te + 1) as nat, li as nat) =~= ids_from(lv, te as nat, li as nat));
                    pos = te;
                }
                continue;
            }
            pos = pos + 1;
        }
        assert(ids_from(lv, pos as nat, li as nat) =~= Seq::<ElementV>::empty());
        assert(elements_view(results@) =~= r0 + ids_from(lv, 0, li as nat));
        li = li + 1;
    }
    results
}

/// Whether the content has an attribute `id="<id>"` or `id='<id>'` (one that
/// starts the text or follows whitespace).
pub open spec fn id_exists_spec(content: Seq<char>, id: Seq<char>) -> bool {
    (exists|i: int| attr_at(content, "id=\""@ + id + "\""@, i)) || (exists|i: int|
        attr_at(content, "id='"@ + id + "'"@, i))
}

/// Check if a given id exists in the HTML content.
pub fn id_exists(content: &str, id: &str) -> (r: bool)
    ensures
        r == id_exists_spec(content@, id@),
{
    let c = chars_of(content);
    let mut p1 = chars_of("id=\"");
    push_str(&mut p1, id);
    push_str(&mut p1, "\"");
    let mut p2 = chars_of("id='");
    push_str(&mut p2, id);
    push_str(&mut p2, "'");
    let a = attr_find(&c, &p1);
    let b = attr_find(&c, &p2);
    proof {
        lemma_attr_from(c@, p1@, 0);
        lemma_attr_from(c@, p2@, 0);
        reveal_strlit("id=\"");
        reveal_strlit("id='");
        reveal_strlit("\"");
        reveal_strlit("'");
    }
    assert(p1@ =~= "id=\""@ + id@ + "\""@);
    assert(p2@ =~= "id='"@ + id@ + "'"@);
    a.is_some() || b.is_some()
}


// ---------------------------------------------------------------------------
// The tag-pair tree
// ---------------------------------------------------------------------------

/// The open elements (tag, id, depth) and the tree lines so far.
pub struct TreeState {
    pub stack: Seq<(Seq<char>, Option<Seq<char>>, nat)>,
    pub out: Seq<Seq<char>>,
    /// Inside a comment that an earlier line opened.
    pub in_comment: bool,
}

pub open spec fn indent(d: nat) -> Seq<char> {
    Seq::new(2 * d, |i: int| ' ')
}

pub open spec fn id_suffix(id: Option<Seq<char>>) -> Seq<char> {
    match id {
        Some(v) => " id=\""@ + v + "\""@,
        None => Seq::empty(),
    }
}

/// Index of the innermost open element named `tag`.
pub open spec fn last_named(stack: Seq<(Seq<char>, Option<Seq<char>>, nat)>, tag: Seq<char>) -> Option<nat>
    decreases stack.len(),
{
    if stack.len() == 0 {
        None
    } else if stack.last().0 == tag {
        Some((stack.len() - 1) as nat)
    } else {
        last_named(stack.drop_last(), tag)
    }
}

proof fn lemma_last_named(stack: Seq<(Seq<char>, Option<Seq<char>>, nat)>, tag: Seq<char>)
    ensures
        last_named(stack, tag) matches Some(i) ==> i < stack.len() && stack[i as int].0 == tag,
    decreases stack.len(),
{
    if stack.len() > 0 {
        lemma_last_named(stack.drop_last(), tag);
    }
}

/// The tree state after the tags of `line` from `pos` on: comments are
/// skipped up to their `-->`, on this line or a later one, void and
/// self-closing elements ignored, an opening tag pushes an element and a
/// `start:` line, a closing tag pops back to the innermost open element of
/// that name and adds an `end:` line.
pub open spec fn tree_from(line: Seq<char>, pos: nat, st: TreeState) -> TreeState
    decreases line.len() + 1 - pos,
{
    if pos >= line.len() {
        st
    } else if st.in_comment {
        match find_seq(line.skip(pos as int), "-->"@) {
            Some(e) => {
                proof {
                    reveal_strlit("-->");
                    crate::text::lemma_find_some(line.skip(pos as int), "-->"@);
                }
                tree_from(line, (pos + e + 3) as nat, TreeState { in_comment: false, ..st })
            },
            None => st,
        }
    } else if line[pos as int] != '<' {
        tree_from(line, pos + 1, st)
    } else if starts(line.skip(pos as int), "<!--"@) {
        match find_seq(line.skip(pos as int), "-->"@) {
            Some(e) => {
                proof {
                    reveal_strlit("-->");
                    crate::text::lemma_find_some(line.skip(pos as int), "-->"@);
                }
                tree_from(line, (pos + e + 3) as nat, st)
            },
            None => TreeState { in_comment: true, ..st },
        }
    } else {
        let closing = pos + 1 < line.len() && line[pos + 1int] == '/';
        let ts: nat = if closing {
            pos + 2
        } else {
            pos + 1
        };
        proof {
            lemma_name_len_le(line.skip(ts as int));
        }
        let end: nat = ts + name_len(line.skip(ts as int));
        let tag = unicode_lower(line.subrange(ts as int, end as int));
        if tag.len() == 0 || starts(tag, "!"@) {
            tree_from(line, end, st)
        } else {
            let te = tag_end_at(line, pos);
            proof {
                lemma_tag_end_ge(line, pos);
            }
            let self_closing = te > 0 && pos < te && line[te - 1] == '/';
            if crate::syntax_check::is_void(tag) || self_closing {
                tree_from(line, te + 1, st)
            } else if closing {
                match last_named(st.stack, tag) {
                    Some(i) => {
                        let e = st.stack[i as int];
                        tree_from(
                            line,
                            te + 1,
                            TreeState {
                                stack: st.stack.take(i as int),
                                out: st.out.push(indent(e.2) + "end: </"@ + tag + id_suffix(e.1) + ">"@),
                                ..st
                            },
                        )
                    },
                    None => tree_from(line, te + 1, st),
                }
            } else {
                let id = tag_id(line.subrange(pos as int, te as int));
                let d = st.stack.len();
                tree_from(
                    line,
                    te + 1,
                    TreeState {
                        stack: st.stack.push((tag, id, d)),
                        out: st.out.push(indent(d) + "start: <"@ + tag + id_suffix(id) + ">"@),
                        ..st
                    },
                )
            }
        }
    }
}

/// The tree state after the first `k` lines.
pub open spec fn tree_lines(lines: Seq<Seq<char>>, k: nat) -> TreeState
    decreases k,
{
    if k == 0 || k > lines.len() {
        TreeState { stack: Seq::empty(), out: Seq::empty(), in_comment: false }
    } else {
        tree_from(lines[k - 1], 0, tree_lines(lines, (k - 1) as nat))
    }
}

pub open spec fn opt_chars(o: Option<Vec<char>>) -> Option<Seq<char>> {
    match o {
        Some(v) => Some(v@),
        None => None,
    }
}

pub open spec fn stack_view(v: Seq<(Vec<char>, Option<Vec<char>>, usize)>) -> Seq<(Seq<char>, Option<Seq<char>>, nat)> {
    v.map_values(
        |x: (Vec<char>, Option<Vec<char>>, usize)|
(x.0@, opt_chars(x.1), x.2 as nat),
    )
}

fn tree_line(prefix: &str, depth: usize, tag: &Vec<char>, id: &Option<Vec<char>>) -> (r: String)
    ensures
        r@ == indent(depth as nat) + prefix@ + tag@ + id_suffix(opt_chars(*id)) + ">"@,
{
    let mut v: Vec<char> = Vec::new();
    let mut k: usize = 0;
    while k < depth
        invariant
            k <= depth,
            v@ =~= indent(k as nat),
        decreases depth - k,
    {
        v.push(' ');
        v.push(' ');
        k = k + 1;
        assert(v@ =~= indent(k as nat));
    }
    push_str(&mut v, prefix);
    push_all(&mut v, tag);
    match id {
        Some(x) => {
            push_str(&mut v, " id=\"");
            push_all(&mut v, x);
            push_str(&mut v, "\"");
        },
        None => {},
    }
    push_str(&mut v, ">");
    to_string(&v)
}

fn last_named_exec(stack: &Vec<(Vec<char>, Option<Vec<char>>, usize)>, tag: &Vec<char>) -> (r: Option<usize>)
    ensures
        r is None <==> last_named(stack_view(stack@), tag@) is None,
        r matches Some(i) ==> last_named(stack_view(stack@), tag@) == Some(i as nat) && i < stack.len(),
{
    let ghost sv = stack_view(stack@);
    let mut k: usize = stack.len();
    assert(sv.take(k as int) =~= sv);
    while k > 0
        invariant
            k <= stack.len(),
            sv == stack_view(stack@),
            last_named(sv, tag@) == last_named(sv.take(k as int), tag@),
        decreases k,
    {
        assert(sv.take(k as int).drop_last() =~= sv.take(k - 1));
        assert(sv.take(k as int).last() == sv[k - 1]);
        if crate::differ::vec_eq(&stack[k - 1].0, tag) {
            return Some(k - 1);
        }
        k = k - 1;
    }
    None
}

/// Build a simple tag-pair tree of the document for section 6: a `start:`
/// line per opened element and an `end:` line per closed one, indented by
/// depth.
pub fn build_tag_pair_tree(content: &str) -> (r: Vec<String>)
    ensures
        crate::header::string_views(r@) == tree_lines(lines_seq(content@), lines_seq(content@).len()).out,
{
    let lines = str_lines(content);
    let ghost ls = views(lines@);
    let mut stack: Vec<(Vec<char>, Option<Vec<char>>, usize)> = Vec::new();
    let mut result: Vec<String> = Vec::new();
    let comment = chars_of("<!--");
    let comment_end = chars_of("-->");
    let bang = chars_of("!");
    proof {
        reveal_strlit("-->");
    }
    let mut li: usize = 0;
    let mut in_comment = false;
    assert(stack_view(stack@) =~= Seq::<(Seq<char>, Option<Seq<char>>, nat)>::empty());
    assert(crate::header::string_views(result@) =~= Seq::<Seq<char>>::empty());
    while li < lines.len()
        invariant
            li <= lines.len(),
            ls == views(lines@),
            comment@ == "<!--"@,
            comment_end@ == "-->"@,
            comment_end@.len() == 3,
            bang@ == "!"@,
            tree_lines(ls, li as nat) == (TreeState {
                stack: stack_view(stack@),
                out: crate::header::string_views(result@),
                in_comment,
            }),
        decreases lines.len() - li,
    {
        let line = &lines[li];
        let ghost lv = line@;
        let ghost goal = tree_from(lv, 0, tree_lines(ls, li as nat));
        let mut pos: usize = 0;
        while pos < line.len()
            invariant
                lv == line@,
                comment@ == "<!--"@,
                comment_end@ == "-->"@,
                comment_end@.len() == 3,
                bang@ == "!"@,
                goal == tree_from(lv, pos as nat, TreeState {
                    stack: stack_view(stack@),
                    out: crate::header::string_views(result@),
                    in_comment,
                }),
            decreases line.len() - pos,
        {
            if in_comment {
                let rest = crate::text::skip(line, pos);
                match find(&rest, &comment_end) {
                    Some(e) => {
                        proof {
                            crate::text::lemma_find_some(rest@, comment_end@);
                        }
                        in_comment = false;
                        pos = pos + e + 3;
                    },
                    None => {
                        pos = line.len();
                    },
                }
                continue;
            }
            if line[pos] != '<' {
                pos = pos + 1;
                continue;
            }
            let rest = crate::text::skip(line, pos);
            if starts_with(&rest, &comment) {
                match find(&rest, &comment_end) {
                    Some(e) => {
                        pos = pos + e + 3;
                    },
                    None => {
                        in_comment = true;
                        pos = line.len();
                    },
                }
                continue;
            }
            let closing = pos + 1 < line.len() && line[pos + 1] == '/';
            let ts = if closing {
                pos + 2
            } else {
                pos + 1
            };
            let end = name_end(line, ts);
            let tag = crate::text::lowercase(&slice(line, ts, end));
            if tag.len() == 0 || starts_with(&tag, &bang) {
                pos = end;
                continue;
            }
            let te = tag_end_exec(line, pos);
            let self_closing = te > 0 && pos < te && line[te - 1] == '/';
            let next = if te < line.len() {
                te + 1
            } else {
                line.len()
            };
            let ghost st = TreeState { stack: stack_view(stack@), out: crate::header::string_views(result@), in_comment };
            proof {
                if te == line.len() {
                    assert(tree_from(lv, (te + 1) as nat, st) == st);
                }
            }
            if crate::syntax_check::is_void_exec(&tag) || self_closing {
                pos = next;
                continue;
            }
            if closing {
                match last_named_exec(&stack, &tag) {
                    Some(i) => {
                        proof {
                            lemma_last_named(stack_view(stack@), tag@);
                        }
                        let depth = stack[i].2;
                        let l = tree_line("end: </", depth, &tag, &stack[i].1);
                        let ghost before = crate::header::string_views(result@);
                        result.push(l);
                        assert(crate::header::string_views(result@) =~= before.push(l@));
                        stack.truncate(i);
                        assert(stack_view(stack@) =~= st.stack.take(i as int));
                        proof {
                            if te == line.len() {
                                assert(tree_from(lv, (te + 1) as nat, TreeState {
                                    stack: stack_view(stack@),
                                    out: crate::header::string_views(result@),
                                    in_comment,
                                }) == tree_from(lv, te as nat, TreeState {
                                    stack: stack_view(stack@),
                                    out: crate::header::string_views(result@),
                                    in_comment,
                                }));
                            }
                        }
                    },
                    None => {},
                }
            } else {
                let tag_content = slice(line, pos, te);
                let id = extract_id_attr(&tag_content);
                let depth = stack.len();
                let l = tree_line("start: <", depth, &tag, &id);
                let ghost before = crate::header::string_views(result@);
                result.push(l);
                assert(crate::header::string_views(result@) =~= before.push(l@));
                let ghost sb = stack_view(stack@);
                let ghost item = (tag@, crate::html_structure::opt_chars(id), depth as nat);
                stack.push((tag, id, depth));
                assert(stack_view(stack@) =~= sb.push(item));
                proof {
                    if te == line.len() {
                        assert(tree_from(lv, (te + 1) as nat, TreeState {
                            stack: stack_view(stack@),
                            out: crate::header::string_views(result@),
                            in_comment,
                        }) == tree_from(lv, te as nat, TreeState {
                            stack: stack_view(stack@),
                            out: crate::header::string_views(result@),
                            in_comment,
                        }));
                    }
                }
            }
            pos = next;
        }
        li = li + 1;
    }
    result
}

} // verus!

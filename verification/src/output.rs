//! Aligned text tables.
use vstd::prelude::*;

use crate::text::{byte_len, chars_of, join, join_seq, pad_right, push_all, push_str, to_string, views};

verus! {

/// The widest left cell, in bytes.
pub open spec fn max_left(rows: Seq<(Seq<char>, Seq<char>)>) -> nat
    decreases rows.len(),
{
    if rows.len() == 0 {
        0
    } else {
        let m = max_left(rows.drop_last());
        let b = byte_len(rows.last().0);
        if b > m {
            b
        } else {
            m
        }
    }
}

pub open spec fn rows_view(rows: Seq<(String, String)>) -> Seq<(Seq<char>, Seq<char>)> {
    rows.map_values(|r: (String, String)| (r.0@, r.1@))
}

/// The table: each left cell padded to the widest (in bytes), an arrow, the
/// right cell; rows joined by newlines.
pub open spec fn table_spec(rows: Seq<(Seq<char>, Seq<char>)>) -> Seq<char> {
    let w = max_left(rows);
    join_seq(
        rows.map_values(|r: (Seq<char>, Seq<char>)| pad_right(r.0, w) + "  \u{2192}  "@ + r.1),
        seq!['\n'],
    )
}

/// Print a text table with aligned columns.
pub fn print_aligned_table(rows: &Vec<(String, String)>) -> (r: String)
    requires
        max_left(rows_view(rows@)) <= usize::MAX,
    ensures
        r@ == table_spec(rows_view(rows@)),
{
    let ghost rv = rows_view(rows@);
    let mut w: usize = 0;
    let mut i: usize = 0;
    while i < rows.len()
        invariant
            i <= rows.len(),
            rv == rows_view(rows@),
            max_left(rv) <= usize::MAX,
            w == max_left(rv.take(i as int)),
        decreases rows.len() - i,
    {
        assert(rv.take(i + 1).drop_last() =~= rv.take(i as int));
        proof {
            lemma_max_left_prefix(rv, i + 1);
        }
        let b = crate::text::str_len(rows[i].0.as_str());
        assert(rv[i as int].0 == rows@[i as int].0@);
        if b > w {
            w = b;
        }
        i = i + 1;
    }
    assert(rv.take(rv.len() as int) =~= rv);
    let ghost cells = rv.map_values(|r: (Seq<char>, Seq<char>)| pad_right(r.0, w as nat) + "  \u{2192}  "@ + r.1);
    let mut lines: Vec<Vec<char>> = Vec::new();
    let mut k: usize = 0;
    while k < rows.len()
        invariant
            k <= rows.len(),
            rv == rows_view(rows@),
            cells == rv.map_values(|r: (Seq<char>, Seq<char>)| pad_right(r.0, w as nat) + "  \u{2192}  "@ + r.1),
            views(lines@) == cells.take(k as int),
        decreases rows.len() - k,
    {
        let mut l = crate::text::padded_right(&chars_of(rows[k].0.as_str()), w);
        push_str(&mut l, "  \u{2192}  ");
        push_str(&mut l, rows[k].1.as_str());
        assert(rv[k as int] == (rows@[k as int].0@, rows@[k as int].1@));
        let ghost before = views(lines@);
        lines.push(l);
        assert(views(lines@) =~= before.push(cells[k as int]));
        assert(cells.take(k + 1) =~= cells.take(k as int).push(cells[k as int]));
        k = k + 1;
    }
    assert(cells.take(cells.len() as int) =~= cells);
    let mut nl: Vec<char> = Vec::new();
    nl.push('\n');
    assert(nl@ =~= seq!['\n']);
    to_string(&join(&lines, &nl))
}

proof fn lemma_max_left_prefix(rows: Seq<(Seq<char>, Seq<char>)>, k: int)
    requires
        0 <= k <= rows.len(),
    ensures
        max_left(rows.take(k)) <= max_left(rows),
    decreases rows.len() - k,
{
    if k < rows.len() {
        assert(rows.drop_last().take(k) =~= rows.take(k));
        lemma_max_left_prefix(rows.drop_last(), k);
    } else {
        assert(rows.take(k) =~= rows);
    }
}

} // verus!

//! Reading a range of a file's lines, numbered.
use vstd::prelude::*;
use crate::text::{dec, decimal, lines_seq, pad_left, padded_left, push_all, push_str, str_lines, to_string, views};

verus! {

/// Why a line range was refused.
pub enum ReadError {
    /// A start or an end of 0 with both given.
    ZeroLine,
    /// A start of 0 given alone.
    ZeroStart,
    /// The start lies past the last line.
    StartPastEnd { start: usize, total: usize },
}

impl ReadError {
    /// The error as the command line reports it.
    pub fn message(&self) -> (r: String)
        ensures
            r@ == match self {
                ReadError::ZeroLine => "Line numbers are 1-based. Use 1 for the first line."@,
                ReadError::ZeroStart => "Line numbers are 1-based."@,
                ReadError::StartPastEnd { start, total } => "Start line "@ + dec(*start as nat)
                    + " exceeds file length ("@ + dec(*total as nat) + " lines)"@,
            },
    {
        match self {
            ReadError::ZeroLine => "Line numbers are 1-based. Use 1 for the first line.".to_string(),
            ReadError::ZeroStart => "Line numbers are 1-based.".to_string(),
            ReadError::StartPastEnd { start, total } => {
                let mut v: Vec<char> = Vec::new();
                push_str(&mut v, "Start line ");
                push_all(&mut v, &decimal(*start));
                push_str(&mut v, " exceeds file length (");
                push_all(&mut v, &decimal(*total));
                push_str(&mut v, " lines)");
                to_string(&v)
            },
        }
    }
}

/// The lines to show, 1-based and inclusive, of a file of `total` lines:
/// the first `head`, or the last `tail`, or `start` to `end`, or from `start`
/// on, or all.
pub open spec fn line_span(
    total: nat,
    start: Option<usize>,
    end: Option<usize>,
    head: Option<usize>,
    tail: Option<usize>,
) -> Result<(int, int), ReadError> {
    if head is Some {
        Ok((1, if head->0 < total { head->0 as int } else { total as int }))
    } else if tail is Some {
        Ok((if tail->0 < total { total - tail->0 } else { 0 } + 1, total as int))
    } else if start is Some && end is Some {
        let (s, e) = (start->0, end->0);
        if s == 0 || e == 0 {
            Err(ReadError::ZeroLine)
        } else if s > total {
            Err(ReadError::StartPastEnd { start: s, total: total as usize })
        } else {
            Ok((s as int, if e < total { e as int } else { total as int }))
        }
    } else if start is Some {
        if start->0 == 0 {
            Err(ReadError::ZeroStart)
        } else {
            Ok((start->0 as int, total as int))
        }
    } else {
        Ok((1, total as int))
    }
}

/// Line `i` (0-based) as shown: its number right-aligned in six columns, a
/// bar, the text and a newline.
pub open spec fn shown_line(ls: Seq<Seq<char>>, i: int) -> Seq<char> {
    pad_left(dec((i + 1) as nat), 6) + seq!['│'] + ls[i] + seq!['\n']
}

/// Lines `a` to `b - 1` (0-based) as shown.
pub open spec fn shown_lines(ls: Seq<Seq<char>>, a: int, b: int) -> Seq<char>
    decreases b - a,
{
    if b <= a {
        Seq::empty()
    } else {
        shown_lines(ls, a, b - 1) + shown_line(ls, b - 1)
    }
}

/// What reading a line range of a text gives.
pub open spec fn read_spec(
    content: Seq<char>,
    start: Option<usize>,
    end: Option<usize>,
    head: Option<usize>,
    tail: Option<usize>,
) -> Result<Seq<char>, ReadError> {
    let ls = lines_seq(content);
    if ls.len() == 0 {
        Ok(Seq::empty())
    } else {
        match line_span(ls.len(), start, end, head, tail) {
            Ok((from, to)) => Ok(shown_lines(ls, from - 1, to)),
            Err(e) => Err(e),
        }
    }
}

/// The lines that each way of asking selects, for a text of `n` lines: the
/// first `min(h, n)` for a head of `h` (whatever else is asked), the last
/// `min(t, n)` for a tail of `t`, lines `s` to `min(e, n)` for a start `s` and
/// an end `e` (refused when either is 0, or when `s` lies past the text), the
/// lines from `s` on for a start alone (refused when it is 0), and every line
/// when nothing is asked.
pub proof fn lemma_read_selects(
    content: Seq<char>,
    start: Option<usize>,
    end: Option<usize>,
    head: Option<usize>,
    tail: Option<usize>,
)
    ensures
        ({
            let ls = lines_seq(content);
            let n = ls.len() as int;
            let r = read_spec(content, start, end, head, tail);
            &&& head is Some ==> r == Ok::<Seq<char>, ReadError>(
                shown_lines(ls, 0, if head->0 <= n { head->0 as int } else { n }),
            )
            &&& (head is None && tail is Some) ==> r == Ok::<Seq<char>, ReadError>(
                shown_lines(ls, if tail->0 <= n { n - tail->0 } else { 0 }, n),
            )
            &&& (head is None && tail is None && start is Some && end is Some) ==> r == if n == 0 {
                Ok::<Seq<char>, ReadError>(Seq::empty())
            } else if start->0 == 0 || end->0 == 0 {
                Err::<Seq<char>, ReadError>(ReadError::ZeroLine)
            } else if start->0 > n {
                Err::<Seq<char>, ReadError>(
                    ReadError::StartPastEnd { start: start->0, total: n as usize },
                )
            } else {
                Ok::<Seq<char>, ReadError>(
                    shown_lines(ls, start->0 - 1, if end->0 <= n { end->0 as int } else { n }),
                )
            }
            &&& (head is None && tail is None && start is Some && end is None) ==> r == if n == 0 {
                Ok::<Seq<char>, ReadError>(Seq::empty())
            } else if start->0 == 0 {
                Err::<Seq<char>, ReadError>(ReadError::ZeroStart)
            } else {
                Ok::<Seq<char>, ReadError>(shown_lines(ls, start->0 - 1, n))
            }
            &&& (head is None && tail is None && start is None) ==> r == Ok::<Seq<char>, ReadError>(
                shown_lines(ls, 0, n),
            )
        }),
{
}

/// Asking for a head, or a tail, of at least as many lines as the text has
/// reads the whole text, the same as asking for nothing.
pub proof fn lemma_long_head_or_tail_is_whole(content: Seq<char>, k: usize)
    requires
        k >= lines_seq(content).len(),
    ensures
        read_spec(content, None, None, Some(k), None) == read_spec(content, None, None, None, None),
        read_spec(content, None, None, None, Some(k)) == read_spec(content, None, None, None, None),
{
}

/// Read a range of a text's lines, each numbered.
pub fn read_lines(
    content: &str,
    start: Option<usize>,
    end: Option<usize>,
    head: Option<usize>,
    tail: Option<usize>,
) -> (r: Result<String, ReadError>)
    requires
        lines_seq(content@).len() < usize::MAX,
    ensures
        match r {
            Ok(t) => read_spec(content@, start, end, head, tail) == Ok::<Seq<char>, ReadError>(t@),
            Err(e) => read_spec(content@, start, end, head, tail) == Err::<Seq<char>, ReadError>(e),
        },
{
    let ls = str_lines(content);
    let total = ls.len();
    if total == 0 {
        return Ok(String::new());
    }
    let (from, to): (usize, usize) = if let Some(h) = head {
        (1, if h < total { h } else { total })
    } else if let Some(t) = tail {
        ((if t < total { total - t } else { 0 }) + 1, total)
    } else if start.is_some() && end.is_some() {
        let s = start.unwrap();
        let e = end.unwrap();
        if s == 0 || e == 0 {
            return Err(ReadError::ZeroLine);
        }
        if s > total {
            return Err(ReadError::StartPastEnd { start: s, total });
        }
        (s, if e < total { e } else { total })
    } else if let Some(s) = start {
        if s == 0 {
            return Err(ReadError::ZeroStart);
        }
        (s, total)
    } else {
        (1, total)
    };
    assert(line_span(total as nat, start, end, head, tail) == Ok::<(int, int), ReadError>(
        (from as int, to as int),
    ));
    let mut out: Vec<char> = Vec::new();
    let mut i = from - 1;
    while i < to
        invariant
            from >= 1,
            from - 1 <= i,
            to >= from - 1 ==> i <= to,
            to < from - 1 ==> i == from - 1,
            to <= total,
            total == ls@.len(),
            out@ == shown_lines(views(ls@), from - 1, i as int),
        decreases to - i,
    {
        push_all(&mut out, &padded_left(&decimal(i + 1), 6));
        out.push('│');
        push_all(&mut out, &ls[i]);
        out.push('\n');
        proof {
            assert(ls@[i as int]@ == views(ls@)[i as int]);
        }
        i = i + 1;
    }
    proof {
        if to < from - 1 {
            assert(shown_lines(views(ls@), from - 1, to as int) == Seq::<char>::empty());
        }
    }
    Ok(to_string(&out))
}

} // verus!

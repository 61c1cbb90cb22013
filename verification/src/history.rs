//! The diff history: the entries recorded for each applied diff, the
//! timestamps they carry, which entries the cache limit evicts, and rollback.
use vstd::prelude::*;
use crate::text::{chars_of, contains, includes, dec, is_digit, is_digit_exec, sign_stripped, decimal, decimal_u64, push_all, push_str, to_string};
use crate::differ::{generate_diff, similar_unified_diff};
use crate::validator::{alphanumeric, is_alphanumeric};
use crate::stats::unix_time;
use crate::applier::{apply_diff_content, apply_outcome, diff_fits, ApplyDiffError, ApplyResult};

verus! {

/// The history cache holds at most this many bytes of entries.
pub const MAX_CACHE_BYTES: u64 = 10485760;

/// One applied diff, with what is needed to undo it.
pub struct HistoryEntry {
    pub id: String,
    pub file_path: String,
    pub timestamp: u64,
    pub timestamp_human: String,
    pub diff_text: String,
    pub reverse_diff: String,
    pub hunks_applied: usize,
    pub lines_added: usize,
    pub lines_removed: usize,
    pub description: String,
}

/// A line of the history listing.
pub struct HistorySummary {
    pub id: String,
    pub file_path: String,
    pub timestamp_human: String,
    pub hunks_applied: usize,
    pub lines_added: usize,
    pub lines_removed: usize,
    pub size_bytes: u64,
    pub description: String,
}

// ---------------------------------------------------------------------------
// Calendar
// ---------------------------------------------------------------------------

/// Gregorian leap year.
pub open spec fn leap(y: int) -> bool {
    (y % 4 == 0 && y % 100 != 0) || y % 400 == 0
}

pub open spec fn year_len(y: int) -> int {
    if leap(y) {
        366
    } else {
        365
    }
}

/// Length of month `i` (0 for January).
pub open spec fn month_len(lp: bool, i: int) -> int {
    if i == 1 {
        if lp {
            29
        } else {
            28
        }
    } else if i == 3 || i == 5 || i == 8 || i == 10 {
        30
    } else {
        31
    }
}

/// The year that holds day `days` counted from January 1 of year `y`, and
/// the day's index within that year.
pub open spec fn year_and_day(y: int, days: int) -> (int, int)
    decreases days,
{
    if days < year_len(y) || days < 0 {
        (y, days)
    } else {
        year_and_day(y + 1, days - year_len(y))
    }
}

/// The month (1 to 12) that holds day `rem` of a year, counting from month
/// `i` (0-based), and the day's index within it.
pub open spec fn month_and_day(lp: bool, i: int, rem: int) -> (int, int)
    decreases 12 - i,
{
    if i >= 12 {
        (12, rem)
    } else if rem < month_len(lp, i) {
        (i + 1, rem)
    } else {
        month_and_day(lp, i + 1, rem - month_len(lp, i))
    }
}

/// `s` padded on the left with zeros to `w` characters (`{:0w}`).
pub open spec fn zero_pad(s: Seq<char>, w: nat) -> Seq<char> {
    if s.len() >= w {
        s
    } else {
        Seq::new((w - s.len()) as nat, |i: int| '0') + s
    }
}

pub open spec fn two(n: int) -> Seq<char> {
    zero_pad(dec(n as nat), 2)
}

/// The UTC date and time of `secs` seconds after the Unix epoch, written
/// `YYYY-MM-DD hh:mm:ss UTC`.
pub open spec fn timestamp_text(secs: nat) -> Seq<char> {
    let days = secs as int / 86400;
    let tod = secs as int % 86400;
    let (y, rem) = year_and_day(1970, days);
    let (m, d0) = month_and_day(leap(y), 0, rem);
    zero_pad(dec(y as nat), 4) + seq!['-'] + two(m) + seq!['-'] + two(d0 + 1) + seq![' '] + two(
        tod / 3600,
    ) + seq![':'] + two((tod % 3600) / 60) + seq![':'] + two(tod % 60) + seq![' ', 'U', 'T', 'C']
}

/// Whether `y` is a leap year of the Gregorian calendar.
pub fn is_leap_year(y: u64) -> (r: bool)
    ensures
        r == leap(y as int),
{
    (y % 4 == 0 && y % 100 != 0) || (y % 400 == 0)
}

fn month_days(lp: bool, i: u64) -> (r: u64)
    requires
        i < 12,
    ensures
        r == month_len(lp, i as int),
{
    if i == 1 {
        if lp {
            29
        } else {
            28
        }
    } else if i == 3 || i == 5 || i == 8 || i == 10 {
        30
    } else {
        31
    }
}

fn zero_padded(s: Vec<char>, w: usize) -> (r: Vec<char>)
    ensures
        r@ == zero_pad(s@, w as nat),
{
    if s.len() >= w {
        return s;
    }
    let mut r: Vec<char> = Vec::new();
    let n = w - s.len();
    let mut i: usize = 0;
    while i < n
        invariant
            i <= n,
            r@ == Seq::new(i as nat, |k: int| '0'),
        decreases n - i,
    {
        r.push('0');
        i = i + 1;
        assert(r@ =~= Seq::new(i as nat, |k: int| '0'));
    }
    push_all(&mut r, &s);
    r
}

fn two_digits(n: u64) -> (r: Vec<char>)
    ensures
        r@ == two(n as int),
{
    zero_padded(decimal_u64(n), 2)
}

/// The year and the day within it of day `days` after 1970-01-01.
fn civil_year(days: u64) -> (r: (u64, u64))
    requires
        days <= u64::MAX / 86400,
    ensures
        (r.0 as int, r.1 as int) == year_and_day(1970, days as int),
        r.1 < year_len(r.0 as int),
{
    let mut y: u64 = 1970;
    let mut rem = days;
    loop
        invariant
            1970 <= y,
            rem <= days,
            days <= u64::MAX / 86400,
            (y - 1970) * 365 <= days - rem,
            year_and_day(y as int, rem as int) == year_and_day(1970, days as int),
        decreases rem,
    {
        let lp = is_leap_year(y);
        let diy: u64 = if lp {
            366
        } else {
            365
        };
        if rem < diy {
            return (y, rem);
        }
        rem = rem - diy;
        y = y + 1;
    }
}

/// The month (1 to 12) and the day's index within it of day `rem` of a year.
fn civil_month(lp: bool, rem: u64) -> (r: (u64, u64))
    ensures
        (r.0 as int, r.1 as int) == month_and_day(lp, 0, rem as int),
{
    let mut i: u64 = 0;
    let mut left = rem;
    while i < 12
        invariant
            i <= 12,
            left <= rem,
            month_and_day(lp, i as int, left as int) == month_and_day(lp, 0, rem as int),
        decreases 12 - i,
    {
        let md = month_days(lp, i);
        if left < md {
            return (i + 1, left);
        }
        left = left - md;
        i = i + 1;
    }
    (12, left)
}

/// Format seconds since the Unix epoch as `YYYY-MM-DD hh:mm:ss UTC`.
pub fn format_timestamp(secs: u64) -> (r: String)
    ensures
        r@ == timestamp_text(secs as nat),
{
    let days = secs / 86400;
    let tod = secs % 86400;
    let (y, rem) = civil_year(days);
    let lp = is_leap_year(y);
    let (m, d0) = civil_month(lp, rem);
    proof {
        reveal_with_fuel(month_and_day, 13);
        assert(d0 < 31);
    }
    let mut out = zero_padded(decimal_u64(y), 4);
    out.push('-');
    push_all(&mut out, &two_digits(m));
    out.push('-');
    push_all(&mut out, &two_digits(d0 + 1));
    out.push(' ');
    push_all(&mut out, &two_digits(tod / 3600));
    out.push(':');
    push_all(&mut out, &two_digits((tod % 3600) / 60));
    out.push(':');
    push_all(&mut out, &two_digits(tod % 60));
    push_str(&mut out, " UTC");
    proof {
        reveal_strlit(" UTC");
    }
    let r = to_string(&out);
    assert(r@ =~= timestamp_text(secs as nat));
    r
}

// ---------------------------------------------------------------------------
// Entries
// ---------------------------------------------------------------------------

/// `Path::file_name` of a path given as text, by its view: the last normal
/// component, or none where the path ends in `..` or has no such component.
pub uninterp spec fn path_file_name(path: Seq<char>) -> Option<Seq<char>>;

/// `Path::new(path).file_name()`, as text. The contract names the result;
/// how a path splits into components is left to std.
#[verifier::external_body]
fn file_name_of(path: &str) -> (r: Option<String>)
    ensures
        match r {
            Some(n) => path_file_name(path@) == Some(n@),
            None => path_file_name(path@) is None,
        },
{
    std::path::Path::new(path).file_name().and_then(|n| n.to_str()).map(|n| n.to_string())
}

/// A character of a file name as it stands in an entry id.
pub open spec fn stem_char(c: char) -> char {
    if !alphanumeric(c) && c != '.' && c != '-' && c != '_' {
        '_'
    } else {
        c
    }
}

/// The file's name (`unknown` where the path has none) with every character
/// other than alphanumerics, `.`, `-` and `_` replaced by `_`.
pub open spec fn file_stem_of(path: Seq<char>) -> Seq<char> {
    let name = match path_file_name(path) {
        Some(n) => n,
        None => seq!['u', 'n', 'k', 'n', 'o', 'w', 'n'],
    };
    name.map_values(|c: char| stem_char(c))
}

/// `<secs>_<nanos>_<stem>`.
pub open spec fn entry_id(secs: nat, sub: nat, stem: Seq<char>) -> Seq<char> {
    dec(secs) + seq!['_'] + dec(sub) + seq!['_'] + stem
}

/// `<stem>: +<added> -<removed> (<hunks> hunks)`.
pub open spec fn entry_description(stem: Seq<char>, added: nat, removed: nat, hunks: nat) -> Seq<
    char,
> {
    stem + seq![':', ' ', '+'] + dec(added) + seq![' ', '-'] + dec(removed) + seq![' ', '('] + dec(
        hunks,
    ) + seq![' ', 'h', 'u', 'n', 'k', 's', ')']
}

/// The entry recorded at `secs` seconds and `sub` nanoseconds after the epoch
/// for a diff that turned `original` into `new` in the file at `path`: its
/// reverse diff is the unified diff that `similar` gives from `new` to
/// `original`.
pub open spec fn is_entry_at(
    r: HistoryEntry,
    path: Seq<char>,
    original: Seq<char>,
    new: Seq<char>,
    diff_text: Seq<char>,
    hunks: usize,
    added: usize,
    removed: usize,
    secs: u64,
    sub: u32,
) -> bool {
    let stem = file_stem_of(path);
    &&& r.id@ == entry_id(secs as nat, sub as nat, stem)
    &&& r.file_path@ == path
    &&& r.timestamp == secs
    &&& r.timestamp_human@ == timestamp_text(secs as nat)
    &&& r.diff_text@ == diff_text
    &&& r.reverse_diff@ == similar_unified_diff(
        new,
        original,
        seq!['a', '/', 'b', '/'] + stem,
        seq!['b', '/', 'a', '/'] + stem,
        3,
    )
    &&& r.hunks_applied == hunks
    &&& r.lines_added == added
    &&& r.lines_removed == removed
    &&& r.description@ == entry_description(stem, added as nat, removed as nat, hunks as nat)
}

fn file_stem(file_path: &str) -> (r: Vec<char>)
    ensures
        r@ == file_stem_of(file_path@),
{
    let name: Vec<char> = match file_name_of(file_path) {
        Some(n) => chars_of(n.as_str()),
        None => {
            let mut v: Vec<char> = Vec::new();
            push_str(&mut v, "unknown");
            proof {
                reveal_strlit("unknown");
                assert(v@ =~= seq!['u', 'n', 'k', 'n', 'o', 'w', 'n']);
            }
            v
        },
    };
    let mut r: Vec<char> = Vec::new();
    let mut i: usize = 0;
    while i < name.len()
        invariant
            i <= name.len(),
            r@ =~= name@.take(i as int).map_values(|c: char| stem_char(c)),
        decreases name.len() - i,
    {
        let c = name[i];
        let keep = is_alphanumeric(c) || c == '.' || c == '-' || c == '_';
        r.push(
            if keep {
                c
            } else {
                '_'
            },
        );
        i = i + 1;
        assert(r@ =~= name@.take(i as int).map_values(|c: char| stem_char(c)));
    }
    assert(name@.take(name.len() as int) =~= name@);
    r
}

/// The history entry of an applied diff, recorded at `secs` seconds and `sub`
/// nanoseconds after the Unix epoch.
pub fn create_entry_at(
    file_path: &str,
    original_content: &str,
    new_content: &str,
    diff_text: &str,
    hunks_applied: usize,
    lines_added: usize,
    lines_removed: usize,
    secs: u64,
    sub: u32,
) -> (r: HistoryEntry)
    ensures
        is_entry_at(
            r,
            file_path@,
            original_content@,
            new_content@,
            diff_text@,
            hunks_applied,
            lines_added,
            lines_removed,
            secs,
            sub,
        ),
{
    let stem = file_stem(file_path);
    let mut id = decimal_u64(secs);
    id.push('_');
    push_all(&mut id, &decimal_u64(sub as u64));
    id.push('_');
    push_all(&mut id, &stem);
    let mut b_name: Vec<char> = Vec::new();
    b_name.push('b');
    b_name.push('/');
    push_all(&mut b_name, &stem);
    let mut a_name: Vec<char> = Vec::new();
    a_name.push('a');
    a_name.push('/');
    push_all(&mut a_name, &stem);
    let b_text = to_string(&b_name);
    let a_text = to_string(&a_name);
    let reverse_diff = generate_diff(new_content, original_content, b_text.as_str(), a_text.as_str(), 3);
    let mut desc = stem.clone();
    proof {
        assert(desc@ == stem@);
    }
    push_str(&mut desc, ": +");
    push_all(&mut desc, &decimal(lines_added));
    push_str(&mut desc, " -");
    push_all(&mut desc, &decimal(lines_removed));
    push_str(&mut desc, " (");
    push_all(&mut desc, &decimal(hunks_applied));
    push_str(&mut desc, " hunks)");
    proof {
        reveal_strlit(": +");
        reveal_strlit(" -");
        reveal_strlit(" (");
        reveal_strlit(" hunks)");
    }
    let r = HistoryEntry {
        id: to_string(&id),
        file_path: file_path.to_string(),
        timestamp: secs,
        timestamp_human: format_timestamp(secs),
        diff_text: diff_text.to_string(),
        reverse_diff,
        hunks_applied,
        lines_added,
        lines_removed,
        description: to_string(&desc),
    };
    assert(r.id@ =~= entry_id(secs as nat, sub as nat, stem@));
    assert(r.description@ =~= entry_description(
        stem@,
        lines_added as nat,
        lines_removed as nat,
        hunks_applied as nat,
    ));
    assert(seq!['a', '/'] + b_text@ =~= seq!['a', '/', 'b', '/'] + stem@);
    assert(seq!['b', '/'] + a_text@ =~= seq!['b', '/', 'a', '/'] + stem@);
    r
}

/// The history entry of an applied diff, recorded now by the system clock.
pub fn create_entry(
    file_path: &str,
    original_content: &str,
    new_content: &str,
    diff_text: &str,
    hunks_applied: usize,
    lines_added: usize,
    lines_removed: usize,
) -> (r: HistoryEntry)
    ensures
        exists|secs: u64, sub: u32|
            sub < 1_000_000_000 && #[trigger] is_entry_at(
                r,
                file_path@,
                original_content@,
                new_content@,
                diff_text@,
                hunks_applied,
                lines_added,
                lines_removed,
                secs,
                sub,
            ),
{
    let (secs, sub) = unix_time();
    create_entry_at(
        file_path,
        original_content,
        new_content,
        diff_text,
        hunks_applied,
        lines_added,
        lines_removed,
        secs,
        sub,
    )
}

// ---------------------------------------------------------------------------
// The cache limit
// ---------------------------------------------------------------------------

/// The value of a run of decimal digits.
pub open spec fn digits_value(d: Seq<char>) -> nat
    decreases d.len(),
{
    if d.len() == 0 {
        0
    } else {
        digits_value(d.drop_last()) * 10 + (d.last() as nat - '0' as nat) as nat
    }
}

pub open spec fn all_digits(d: Seq<char>) -> bool {
    forall|i: int| 0 <= i < d.len() ==> is_digit(#[trigger] d[i])
}

/// The text up to the first `_`.
pub open spec fn first_piece(s: Seq<char>) -> Seq<char>
    decreases s.len(),
{
    if s.len() == 0 || s[0] == '_' {
        Seq::empty()
    } else {
        seq![s[0]] + first_piece(s.drop_first())
    }
}

/// `str::parse::<u64>`, with 0 where it fails.
pub open spec fn u64_or_zero(s: Seq<char>) -> u64 {
    let d = sign_stripped(s);
    if d.len() > 0 && all_digits(d) && digits_value(d) <= u64::MAX {
        digits_value(d) as u64
    } else {
        0
    }
}

proof fn lemma_digits_value_prefix(d: Seq<char>, k: int)
    requires
        0 <= k <= d.len(),
        all_digits(d),
    ensures
        digits_value(d.take(k)) <= digits_value(d),
    decreases d.len(),
{
    if k < d.len() {
        assert(all_digits(d.drop_last()));
        assert(d.drop_last().take(k) =~= d.take(k));
        lemma_digits_value_prefix(d.drop_last(), k);
    } else {
        assert(d.take(k) =~= d);
    }
}

/// The time an entry's file name gives: the text of its stem up to the first
/// `_`, read as a number of seconds (0 where it is none).
pub fn stem_timestamp(stem: &str) -> (r: u64)
    ensures
        r == u64_or_zero(first_piece(stem@)),
{
    let s = chars_of(stem);
    let mut n: usize = 0;
    assert(s@.skip(0) =~= s@);
    assert(s@.take(0) + s@ =~= s@);
    while n < s.len() && s[n] != '_'
        invariant
            n <= s.len(),
            first_piece(s@) == s@.take(n as int) + first_piece(s@.skip(n as int)),
        decreases s.len() - n,
    {
        proof {
            assert(s@.skip(n as int).drop_first() =~= s@.skip(n + 1));
            assert(s@.take(n as int) + seq![s@[n as int]] =~= s@.take(n + 1));
        }
        n = n + 1;
    }
    let ghost piece = s@.take(n as int);
    proof {
        assert(first_piece(s@.skip(n as int)) =~= Seq::<char>::empty());
        assert(first_piece(s@) =~= piece);
    }
    if n == 0 {
        return 0;
    }
    let start: usize = if s[0] == '+' {
        1
    } else {
        0
    };
    let ghost d = sign_stripped(piece);
    assert(d =~= piece.skip(start as int));
    if start >= n {
        proof {
            assert(piece[0] == s@[0]);
            assert(d.len() == 0);
        }
        return 0;
    }
    let mut v: u64 = 0;
    let mut i = start;
    while i < n
        invariant
            start <= i <= n <= s.len(),
            d == s@.subrange(start as int, n as int),
            d == sign_stripped(first_piece(stem@)),
            forall|k: int| start <= k < i ==> is_digit(#[trigger] s@[k]),
            v as nat == digits_value(s@.subrange(start as int, i as int)),
        decreases n - i,
    {
        let c = s[i];
        let ghost t1 = s@.subrange(start as int, i + 1);
        proof {
            assert(t1.drop_last() =~= s@.subrange(start as int, i as int));
        }
        if !is_digit_exec(c) {
            proof {
                assert(d[i - start] == s@[i as int]);
                assert(!is_digit(d[i - start]));
                assert(!all_digits(d));
            }
            return 0;
        }
        let dv = ((c as u32) - 48) as u64;
        if v > (u64::MAX - dv) / 10 {
            proof {
                assert(v * 10 + dv > u64::MAX) by (nonlinear_arith)
                    requires
                        v > (u64::MAX - dv) / 10,
                        dv <= 9,
                ;
                assert(d.take((i + 1 - start) as int) =~= t1);
                if all_digits(d) {
                    lemma_digits_value_prefix(d, (i + 1 - start) as int);
                }
            }
            return 0;
        }
        v = v * 10 + dv;
        i = i + 1;
    }
    assert(s@.subrange(start as int, n as int) =~= d);
    v
}

/// Entry `j` is older than entry `i`: by timestamp, then by position.
pub open spec fn older(e: Seq<(u64, u64)>, j: int, i: int) -> bool {
    e[j].1 < e[i].1 || (e[j].1 == e[i].1 && j < i)
}

/// Total size of the first `n` entries.
pub open spec fn size_sum(e: Seq<(u64, u64)>, n: int) -> int
    decreases n,
{
    if n <= 0 {
        0
    } else {
        size_sum(e, n - 1) + e[n - 1].0
    }
}

/// Total size of those of the first `n` entries that are older than entry `i`.
pub open spec fn older_sum(e: Seq<(u64, u64)>, i: int, n: int) -> int
    decreases n,
{
    if n <= 0 {
        0
    } else {
        older_sum(e, i, n - 1) + if older(e, n - 1, i) {
            e[n - 1].0 as int
        } else {
            0
        }
    }
}

/// Removing entries oldest first until the cache is within its limit removes
/// entry `i` exactly when the entries left before it would still exceed it.
pub open spec fn evicted(e: Seq<(u64, u64)>, i: int) -> bool {
    size_sum(e, e.len() as int) - older_sum(e, i, e.len() as int) > MAX_CACHE_BYTES
}

/// Total size of those of the first `n` entries that are kept.
pub open spec fn kept_sum(e: Seq<(u64, u64)>, n: int) -> int
    decreases n,
{
    if n <= 0 {
        0
    } else {
        kept_sum(e, n - 1) + if evicted(e, n - 1) {
            0
        } else {
            e[n - 1].0 as int
        }
    }
}

proof fn lemma_sums_bounded(e: Seq<(u64, u64)>, i: int, n: int)
    requires
        0 <= n <= e.len(),
    ensures
        0 <= older_sum(e, i, n) <= size_sum(e, n),
        size_sum(e, n) <= size_sum(e, e.len() as int),
    decreases e.len() - n,
{
    lemma_older_bounded(e, i, n);
    if n < e.len() {
        lemma_sums_bounded(e, i, n + 1);
    }
}

proof fn lemma_older_bounded(e: Seq<(u64, u64)>, i: int, n: int)
    requires
        0 <= n <= e.len(),
    ensures
        0 <= older_sum(e, i, n) <= size_sum(e, n),
    decreases n,
{
    if n > 0 {
        lemma_older_bounded(e, i, n - 1);
    }
}

/// Entries older than `i` count towards the sum before `i`, and every entry
/// older than `j` is older than `i` too.
proof fn lemma_older_sum_mono(e: Seq<(u64, u64)>, j: int, i: int, n: int)
    requires
        0 <= j < e.len(),
        0 <= i < e.len(),
        0 <= n <= e.len(),
        older(e, j, i),
    ensures
        older_sum(e, j, n) + (if j < n {
            e[j].0 as int
        } else {
            0
        }) <= older_sum(e, i, n),
    decreases n,
{
    if n > 0 {
        lemma_older_sum_mono(e, j, i, n - 1);
    }
}

/// Entries are evicted oldest first: whatever is older than an evicted entry
/// is evicted too.
pub proof fn lemma_evicts_oldest_first(e: Seq<(u64, u64)>, i: int, j: int)
    requires
        0 <= i < e.len(),
        0 <= j < e.len(),
        evicted(e, i),
        older(e, j, i),
    ensures
        evicted(e, j),
{
    lemma_older_sum_mono(e, j, i, e.len() as int);
}

/// The kept entry that is oldest among the first `n` (-1 where none is kept).
spec fn oldest_kept(e: Seq<(u64, u64)>, n: int) -> int
    decreases n,
{
    if n <= 0 {
        -1
    } else {
        let m = oldest_kept(e, n - 1);
        if evicted(e, n - 1) {
            m
        } else if m == -1 || older(e, n - 1, m) {
            n - 1
        } else {
            m
        }
    }
}

proof fn lemma_oldest_kept(e: Seq<(u64, u64)>, n: int)
    requires
        0 <= n <= e.len(),
    ensures
        oldest_kept(e, n) == -1 ==> forall|j: int| 0 <= j < n ==> #[trigger] evicted(e, j),
        oldest_kept(e, n) != -1 ==> {
            let m = oldest_kept(e, n);
            &&& 0 <= m < n
            &&& !evicted(e, m)
            &&& forall|j: int| 0 <= j < n && !evicted(e, j) ==> !#[trigger] older(e, j, m)
        },
    decreases n,
{
    if n > 0 {
        lemma_oldest_kept(e, n - 1);
        let p = oldest_kept(e, n - 1);
        let m = oldest_kept(e, n);
        if m != -1 {
            assert forall|j: int| 0 <= j < n && !evicted(e, j) implies !#[trigger] older(e, j, m) by {
                if j < n - 1 && p != -1 && m == n - 1 {
                    assert(!older(e, j, p));
                }
            }
        }
    }
}

proof fn lemma_kept_sum_all_evicted(e: Seq<(u64, u64)>, n: int)
    requires
        0 <= n <= e.len(),
        forall|j: int| 0 <= j < n ==> #[trigger] evicted(e, j),
    ensures
        kept_sum(e, n) == 0,
    decreases n,
{
    if n > 0 {
        lemma_kept_sum_all_evicted(e, n - 1);
    }
}

proof fn lemma_kept_sum_split(e: Seq<(u64, u64)>, m: int, n: int)
    requires
        0 <= n <= e.len(),
        forall|j: int| 0 <= j < e.len() ==> (#[trigger] evicted(e, j) <==> older(e, j, m)),
    ensures
        kept_sum(e, n) == size_sum(e, n) - older_sum(e, m, n),
    decreases n,
{
    if n > 0 {
        lemma_kept_sum_split(e, m, n - 1);
    }
}

/// After eviction the entries kept fit within the cache limit.
pub proof fn lemma_kept_within_limit(e: Seq<(u64, u64)>)
    ensures
        kept_sum(e, e.len() as int) <= MAX_CACHE_BYTES,
{
    let n = e.len() as int;
    lemma_oldest_kept(e, n);
    let m = oldest_kept(e, n);
    if m == -1 {
        lemma_kept_sum_all_evicted(e, n);
    } else {
        assert forall|j: int| 0 <= j < e.len() implies (#[trigger] evicted(e, j) <==> older(e, j, m)) by {
            if evicted(e, j) && !older(e, j, m) {
                assert(j != m);
                assert(older(e, m, j));
                lemma_evicts_oldest_first(e, j, m);
            }
        }
        lemma_kept_sum_split(e, m, n);
    }
}

/// Which history entries, given as (size in bytes, timestamp) in the order
/// the directory listed them, the cache limit removes: the oldest first (by
/// timestamp, then listing order) until the rest fit. The positions come in
/// increasing order.
pub fn enforce_cache_limit(entries: &Vec<(u64, u64)>) -> (r: Vec<usize>)
    requires
        size_sum(entries@, entries@.len() as int) <= u64::MAX,
    ensures
        forall|k: int| 0 <= k < r.len() ==> r[k] < entries.len(),
        forall|k: int, l: int| 0 <= k < l < r.len() ==> r[k] < r[l],
        forall|i: int| 0 <= i < entries.len() ==> (evicted(entries@, i) <==> r@.contains(i as usize)),
{
    let ghost e = entries@;
    let len = entries.len();
    let mut total: u64 = 0;
    let mut n: usize = 0;
    while n < len
        invariant
            e == entries@,
            len == e.len(),
            n <= len,
            total == size_sum(e, n as int),
            size_sum(e, len as int) <= u64::MAX,
        decreases len - n,
    {
        proof {
            lemma_sums_bounded(e, 0, n + 1);
        }
        total = total + entries[n].0;
        n = n + 1;
    }
    let mut r: Vec<usize> = Vec::new();
    let mut i: usize = 0;
    while i < len
        invariant
            e == entries@,
            len == e.len(),
            i <= len,
            total == size_sum(e, len as int),
            forall|k: int| 0 <= k < r.len() ==> r[k] < i,
            forall|k: int, l: int| 0 <= k < l < r.len() ==> r[k] < r[l],
            forall|j: int| 0 <= j < i ==> (evicted(e, j) <==> r@.contains(j as usize)),
        decreases len - i,
    {
        let mut before: u64 = 0;
        let mut k: usize = 0;
        while k < len
            invariant
                e == entries@,
                len == e.len(),
                i < len,
                k <= len,
                before == older_sum(e, i as int, k as int),
                total == size_sum(e, len as int),
            decreases len - k,
        {
            proof {
                lemma_sums_bounded(e, i as int, k + 1);
            }
            let (ki, kt) = (entries[k].1, entries[i].1);
            if ki < kt || (ki == kt && k < i) {
                before = before + entries[k].0;
            }
            k = k + 1;
        }
        proof {
            lemma_sums_bounded(e, i as int, len as int);
        }
        let ghost r0 = r@;
        if total - before > MAX_CACHE_BYTES {
            r.push(i);
        }
        proof {
            assert forall|j: int| 0 <= j < i + 1 implies (evicted(e, j) <==> r@.contains(
                j as usize,
            )) by {
                if j < i {
                    if r0.contains(j as usize) {
                        let w = r0.index_of(j as usize);
                        assert(r@[w] == j as usize);
                    }
                    if r@.contains(j as usize) {
                        let w = r@.index_of(j as usize);
                        assert(r0.contains(j as usize) || r@[w] == i);
                    }
                } else {
                    if r@.contains(j as usize) && !evicted(e, j) {
                        let w = r@.index_of(j as usize);
                        assert(r0[w] < i);
                    }
                    if evicted(e, j) {
                        assert(r@[r@.len() - 1] == i);
                    }
                }
            }
        }
        i = i + 1;
    }
    r
}

// ---------------------------------------------------------------------------
// Rollback
// ---------------------------------------------------------------------------

/// `Rollback applied: <hunks> hunks, +<added> -<removed> lines. Backup created.`
pub open spec fn rollback_text(hunks: nat, added: nat, removed: nat) -> Seq<char> {
    seq!['R', 'o', 'l', 'l', 'b', 'a', 'c', 'k', ' ', 'a', 'p', 'p', 'l', 'i', 'e', 'd', ':', ' ']
        + dec(hunks) + seq![' ', 'h', 'u', 'n', 'k', 's', ',', ' ', '+'] + dec(added) + seq![' ', '-']
        + dec(removed) + seq![
        ' ',
        'l',
        'i',
        'n',
        'e',
        's',
        '.',
        ' ',
        'B',
        'a',
        'c',
        'k',
        'u',
        'p',
        ' ',
        'c',
        'r',
        'e',
        'a',
        't',
        'e',
        'd',
        '.',
    ]
}

/// What a rollback answers, and, where it is not a dry run, the text to
/// write back with what applying the reverse diff did.
pub struct Rollback {
    pub message: String,
    pub applied: Option<(String, ApplyResult)>,
}

/// Roll a file back with a history entry: a dry run answers the entry's
/// reverse diff; otherwise the reverse diff is applied to the file's text.
pub fn rollback(entry: &HistoryEntry, content: &str, fuzz: usize, dry_run: bool) -> (r: Result<
    Rollback,
    ApplyDiffError,
>)
    requires
        dry_run || diff_fits(content@, entry.reverse_diff@),
    ensures
        dry_run ==> (r matches Ok(rb) && rb.message@ == entry.reverse_diff@ && rb.applied is None),
        !dry_run ==> match r {
            Ok(rb) => rb.applied matches Some((t, res)) && apply_outcome(
                content@,
                entry.reverse_diff@,
                fuzz,
                Ok((t, res)),
            ) && rb.message@ == rollback_text(
                res.hunks_applied as nat,
                res.lines_added as nat,
                res.lines_removed as nat,
            ),
            Err(e) => apply_outcome(content@, entry.reverse_diff@, fuzz, Err(e)),
        },
{
    if dry_run {
        return Ok(Rollback { message: entry.reverse_diff.clone(), applied: None });
    }
    match apply_diff_content(content, entry.reverse_diff.as_str(), fuzz) {
        Err(e) => Err(e),
        Ok((t, res)) => {
            let mut m: Vec<char> = Vec::new();
            push_str(&mut m, "Rollback applied: ");
            push_all(&mut m, &decimal(res.hunks_applied));
            push_str(&mut m, " hunks, +");
            push_all(&mut m, &decimal(res.lines_added));
            push_str(&mut m, " -");
            push_all(&mut m, &decimal(res.lines_removed));
            push_str(&mut m, " lines. Backup created.");
            proof {
                reveal_strlit("Rollback applied: ");
                reveal_strlit(" hunks, +");
                reveal_strlit(" -");
                reveal_strlit(" lines. Backup created.");
                assert(m@ =~= rollback_text(
                    res.hunks_applied as nat,
                    res.lines_added as nat,
                    res.lines_removed as nat,
                ));
            }
            Ok(Rollback { message: to_string(&m), applied: Some((t, res)) })
        },
    }
}

// ---------------------------------------------------------------------------
// Listing
// ---------------------------------------------------------------------------

/// The order of texts, character by character (that of `str`: UTF-8 keeps
/// the order of code points).
pub open spec fn text_lt(a: Seq<char>, b: Seq<char>) -> bool
    decreases a.len(),
{
    if a.len() == 0 {
        b.len() > 0
    } else if b.len() == 0 {
        false
    } else if a[0] != b[0] {
        a[0] < b[0]
    } else {
        text_lt(a.drop_first(), b.drop_first())
    }
}

/// `text_lt` is a strict total order.
pub proof fn lemma_text_order(a: Seq<char>, b: Seq<char>, c: Seq<char>)
    ensures
        !text_lt(a, a),
        text_lt(a, b) ==> !text_lt(b, a),
        text_lt(a, b) && text_lt(b, c) ==> text_lt(a, c),
        !text_lt(a, b) && !text_lt(b, a) ==> a == b,
    decreases a.len(),
{
    if a.len() > 0 && b.len() > 0 && c.len() > 0 {
        lemma_text_order(a.drop_first(), b.drop_first(), c.drop_first());
    } else if a.len() > 0 && b.len() > 0 {
        lemma_text_order(a.drop_first(), b.drop_first(), b.drop_first());
    } else if a.len() > 0 {
        lemma_text_order(a.drop_first(), a.drop_first(), a.drop_first());
    }
    if !text_lt(a, b) && !text_lt(b, a) && a.len() > 0 && b.len() > 0 {
        assert(a[0] == b[0]);
        assert(a.drop_first() == b.drop_first());
        assert(a =~= b) by {
            assert forall|i: int| 0 <= i < a.len() implies a[i] == b[i] by {
                if i > 0 {
                    assert(a[i] == a.drop_first()[i - 1]);
                    assert(b[i] == b.drop_first()[i - 1]);
                }
            }
        }
    }
}

pub(crate) fn text_less(a: &String, b: &String) -> (r: bool)
    ensures
        r == text_lt(a@, b@),
{
    let x = chars_of(a.as_str());
    let y = chars_of(b.as_str());
    let mut i: usize = 0;
    assert(x@.skip(0) =~= x@);
    assert(y@.skip(0) =~= y@);
    while i < x.len() && i < y.len() && x[i] == y[i]
        invariant
            i <= x.len(),
            i <= y.len(),
            text_lt(x@, y@) == text_lt(x@.skip(i as int), y@.skip(i as int)),
            x@ == a@,
            y@ == b@,
        decreases x.len() - i,
    {
        proof {
            assert(x@.skip(i as int).drop_first() =~= x@.skip(i + 1));
            assert(y@.skip(i as int).drop_first() =~= y@.skip(i + 1));
        }
        i = i + 1;
    }
    if i == x.len() {
        i < y.len()
    } else if i == y.len() {
        false
    } else {
        x[i] < y[i]
    }
}

/// The entry passes the filter: there is none, or it occurs in the entry's path.
pub open spec fn passes(e: HistorySummary, filter: Option<Seq<char>>) -> bool {
    match filter {
        Some(f) => includes(e.file_path@, f),
        None => true,
    }
}

/// The entries that pass the filter, in their order.
pub open spec fn passing(s: Seq<HistorySummary>, filter: Option<Seq<char>>) -> Seq<HistorySummary>
    decreases s.len(),
{
    if s.len() == 0 {
        s
    } else if passes(s.last(), filter) {
        passing(s.drop_last(), filter).push(s.last())
    } else {
        passing(s.drop_last(), filter)
    }
}

/// Newest first: ids never increase along the listing.
pub open spec fn newest_first(s: Seq<HistorySummary>) -> bool {
    forall|a: int, b: int| 0 <= a < b < s.len() ==> !text_lt(#[trigger] s[a].id@, #[trigger] s[b].id@)
}

/// The history listing: the entries whose path holds `filter` (all where
/// there is none), newest first by id.
pub fn select_entries(entries: Vec<HistorySummary>, filter: Option<&str>) -> (r: Vec<HistorySummary>)
    ensures
        r@.to_multiset() == passing(
            entries@,
            match filter {
                Some(f) => Some(f@),
                None => None,
            },
        ).to_multiset(),
        newest_first(r@),
{
    let ghost f = match filter {
        Some(f) => Some(f@),
        None => None::<Seq<char>>,
    };
    let fchars: Option<Vec<char>> = match filter {
        Some(t) => Some(chars_of(t)),
        None => None,
    };
    broadcast use vstd::seq_lib::group_to_multiset_ensures;

    let ghost orig = entries@;
    let mut rest = entries;
    assert(orig.take(0) =~= Seq::<HistorySummary>::empty());
    assert(orig.skip(0) =~= orig);
    let n0 = rest.len();
    assert(orig.len() == n0);
    let mut r: Vec<HistorySummary> = Vec::new();
    let mut k: usize = 0;
    while rest.len() > 0
        invariant
            k + rest.len() == orig.len(),
            orig.len() <= usize::MAX,
            rest@ == orig.skip(k as int),
            r@.to_multiset() == passing(orig.take(k as int), f).to_multiset(),
            newest_first(r@),
            match fchars {
                Some(v) => f == Some(v@),
                None => f is None,
            },
        decreases rest.len(),
    {
        let x = rest.remove(0);
        proof {
            assert(x == orig[k as int]);
            assert(orig.take(k + 1).drop_last() =~= orig.take(k as int));
            assert(orig.take(k + 1).last() == x);
            assert(rest@ =~= orig.skip(k + 1));
        }
        let keep = match &fchars {
            Some(v) => contains(&chars_of(x.file_path.as_str()), v),
            None => true,
        };
        assert(keep == passes(x, f));
        let ghost before = r@;
        if keep {
            let mut p: usize = 0;
            while p < r.len() && !text_less(&r[p].id, &x.id)
                invariant
                    p <= r.len(),
                    forall|q: int| 0 <= q < p ==> !text_lt(#[trigger] r@[q].id@, x.id@),
                decreases r.len() - p,
            {
                p = p + 1;
            }
            let ghost r0 = r@;
            proof {
                vstd::seq_lib::to_multiset_insert(r0, p as int, x);
                assert forall|a: int, b: int| 0 <= a < b < r0.len() + 1 implies !text_lt(
                    #[trigger] r0.insert(p as int, x)[a].id@,
                    #[trigger] r0.insert(p as int, x)[b].id@,
                ) by {
                    let s2 = r0.insert(p as int, x);
                    if a < p && b == p {
                    } else if a == p && b > p {
                        lemma_text_order(r0[p as int].id@, r0[b - 1].id@, x.id@);
                        lemma_text_order(r0[b - 1].id@, r0[p as int].id@, x.id@);
                        lemma_text_order(x.id@, r0[b - 1].id@, x.id@);
                        if r0[p as int].id@ =~= r0[b - 1].id@ {
                        }
                    } else {
                        let a0 = if a < p { a } else { a - 1 };
                        let b0 = if b <= p { b } else { b - 1 };
                        assert(s2[a] == r0[a0]);
                        assert(s2[b] == r0[b0]);
                    }
                }
            }
            r.insert(p, x);
            assert(r@.to_multiset() == before.to_multiset().insert(x));
        }
        proof {
            let t = orig.take(k + 1);
            assert(t.len() > 0);
            assert(passing(t, f) == if passes(t.last(), f) {
                passing(t.drop_last(), f).push(t.last())
            } else {
                passing(t.drop_last(), f)
            });
            vstd::seq_lib::to_multiset_build(passing(orig.take(k as int), f), x);
        }
        assert(r@.to_multiset() == passing(orig.take(k + 1), f).to_multiset());
        k = k + 1;
    }
    proof {
        assert(orig.take(orig.len() as int) =~= orig);
    }
    r
}

} // verus!

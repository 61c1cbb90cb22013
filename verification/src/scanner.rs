//! The workspace scan: what a page's first bytes tell of it, which entries
//! the keywords keep, the sort orders, and the text reports.
use vstd::prelude::*;
use vstd::utf8::{decode_utf8, valid_utf8};
use crate::text::{
    byte_len, chars_of, lines_seq, prefix_within, push_str, skip, str_len,
    str_lines, to_string,
};
use crate::header::{
    extract_title_text, line_range, name_and_summary, opt_str, split_title, title_line_of,
    title_of, title_text,
};
use crate::module_deps::{bytes_at, marker_bytes, marker_needle, memmem_find};
use crate::history::{lemma_text_order, text_less, text_lt};
use crate::order::{
    first_before, lemma_first_before, lemma_stable_sorted, lemma_stable_sorted_len, sorted_by,
    stable_sorted, strict_order,
};
use crate::stats::{ago, by_suffix, entries_view, format_ago, get_by_suffix, FileStats};
use crate::text::{
    concat_seq, contains, dec, decimal, find_seq, includes, join, join_seq, lower_seq, pad_left,
    pad_right, padded_left, padded_right,
    push_all, to_lower, to_lowercase, unicode_lower, views,
};

verus! {

// ---------------------------------------------------------------------------
// Sort keys
// ---------------------------------------------------------------------------

/// What the scan sorts pages by.
#[derive(Clone, Copy, PartialEq, Eq, Structural)]
pub enum SortKey {
    Modified,
    Created,
    Name,
    Size,
    Relevance,
}

pub open spec fn sort_key_of(s: Seq<char>) -> SortKey {
    if s == "created"@ {
        SortKey::Created
    } else if s == "name"@ {
        SortKey::Name
    } else if s == "size"@ {
        SortKey::Size
    } else if s == "relevance"@ {
        SortKey::Relevance
    } else {
        SortKey::Modified
    }
}

fn is_word(s: &str, lit: &str) -> (r: bool)
    ensures
        r == (s@ == lit@),
{
    crate::differ::vec_eq(&chars_of(s), &chars_of(lit))
}

impl SortKey {
    /// The key a word names; `modified` for any other word.
    pub fn from_str(s: &str) -> (r: Self)
        ensures
            r == sort_key_of(s@),
    {
        if is_word(s, "created") {
            SortKey::Created
        } else if is_word(s, "name") {
            SortKey::Name
        } else if is_word(s, "size") {
            SortKey::Size
        } else if is_word(s, "relevance") {
            SortKey::Relevance
        } else {
            SortKey::Modified
        }
    }
}

/// The direction of a sort.
#[derive(Clone, Copy, PartialEq, Eq, Structural)]
pub enum SortOrder {
    Asc,
    Desc,
}

impl SortOrder {
    /// `asc` for ascending; any other word for descending.
    pub fn from_str(s: &str) -> (r: Self)
        ensures
            r == (if s@ == "asc"@ {
                SortOrder::Asc
            } else {
                SortOrder::Desc
            }),
    {
        if is_word(s, "asc") {
            SortOrder::Asc
        } else {
            SortOrder::Desc
        }
    }
}

// ---------------------------------------------------------------------------
// Results
// ---------------------------------------------------------------------------

/// What the scan tells of a page.
pub struct ScanResult {
    pub path: String,
    pub app_name: Option<String>,
    pub summary: Option<String>,
    pub has_header: bool,
    pub file_lines: usize,
    pub title_fallback: Option<String>,
    pub preview: Option<String>,
    /// modification time as a Unix timestamp
    pub modified_ts: u64,
    /// creation time as a Unix timestamp
    pub created_ts: u64,
    /// file size in bytes
    pub size_bytes: u64,
    /// how often the tool was called on the file
    pub calls: usize,
    /// the modification time, relative to now
    pub modified_ago: Option<String>,
}

/// A directory met by the scan, with how many entries it holds.
pub struct DirEntry {
    pub path: String,
    pub children: usize,
}

/// A file met by the scan that is not a page.
pub struct OtherFileEntry {
    pub path: String,
}

/// Everything a workspace scan found.
pub struct FullScanResult {
    pub html_files: Vec<ScanResult>,
    pub dirs: Vec<DirEntry>,
    pub other_files: Vec<OtherFileEntry>,
    pub html_total: usize,
    /// the scan stopped at its deadline
    pub timed_out: bool,
}

// ---------------------------------------------------------------------------
// One page
// ---------------------------------------------------------------------------

/// `std::str::from_utf8`: the text the bytes encode where they are valid
/// UTF-8; else the error's `valid_up_to`, which its documentation states is
/// the largest index up to which the bytes are valid UTF-8, and whether its
/// `error_len` is `None`, which it documents as the input ending inside a
/// character (some further bytes would make it valid) rather than holding an
/// unexpected byte (the validity and decoding being vstd's statement of
/// UTF-8).
#[verifier::external_body]
pub(crate) fn utf8_text(bytes: &[u8]) -> (r: Result<String, (usize, bool)>)
    ensures
        match r {
            Ok(s) => valid_utf8(bytes@) && s@ == decode_utf8(bytes@),
            Err((k, cut)) => !valid_utf8(bytes@) && longest_valid(bytes@, k as int) && cut == completable(
                bytes@,
            ),
        },
{
    match std::str::from_utf8(bytes) {
        Ok(s) => Ok(s.to_string()),
        Err(e) => Err((e.valid_up_to(), e.error_len().is_none())),
    }
}

/// Some further bytes would make these valid UTF-8: they end inside a
/// character and hold no unexpected byte.
pub open spec fn completable(b: Seq<u8>) -> bool {
    exists|ext: Seq<u8>| valid_utf8(b + ext)
}

/// What of a page's first bytes is read: all of them where they are valid
/// UTF-8, those before a character that the read cut off, else nothing.
pub open spec fn readable_part(b: Seq<u8>) -> Option<Seq<u8>> {
    if valid_utf8(b) {
        Some(b)
    } else if completable(b) {
        Some(valid_part(b))
    } else {
        None
    }
}

/// What a scan tells of a page from the text of its first bytes `t`.
pub open spec fn scanned_from(r: ScanResult, t: Seq<u8>) -> bool {
    &&& r.has_header == has_marker(t)
    &&& has_marker(t) ==> {
        &&& r.title_fallback is None
        &&& r.preview is None
        &&& match header_title(t) {
            Some(h) => opt_str(r.app_name) == Some(name_and_summary(h.skip(2)).0) && opt_str(r.summary)
                == name_and_summary(h.skip(2)).1,
            None => r.app_name is None && r.summary is None,
        }
    }
    &&& !has_marker(t) ==> {
        &&& r.app_name is None
        &&& r.summary is None
        &&& opt_str(r.title_fallback) == title_text(fallback_text(decode_utf8(t)))
        &&& opt_str(r.preview) == Some(preview_of(fallback_text(decode_utf8(t))))
    }
}

/// `k` is the largest index up to which the bytes are valid UTF-8.
pub open spec fn longest_valid(b: Seq<u8>, k: int) -> bool {
    &&& 0 <= k <= b.len()
    &&& valid_utf8(b.take(k))
    &&& forall|j: int| k < j <= b.len() ==> !valid_utf8(#[trigger] b.take(j))
}

/// The bytes up to the last full character: the longest prefix that is
/// valid UTF-8.
pub open spec fn valid_part(b: Seq<u8>) -> Seq<u8> {
    b.take(choose|k: int| longest_valid(b, k))
}

proof fn lemma_valid_part(b: Seq<u8>, k: int)
    requires
        longest_valid(b, k),
    ensures
        valid_part(b) == b.take(k),
{
    let c = choose|k: int| longest_valid(b, k);
    assert(longest_valid(b, c));
    if c < k {
        assert(!valid_utf8(b.take(k)));
    } else if k < c {
        assert(!valid_utf8(b.take(c)));
    }
}

pub open spec fn has_marker(b: Seq<u8>) -> bool {
    exists|j: int| bytes_at(b, marker_bytes(), j)
}

/// Where the header's start marker first occurs.
pub open spec fn first_marker(b: Seq<u8>) -> int {
    choose|j: int| bytes_at(b, marker_bytes(), j) && forall|k: int| 0 <= k < j ==> !bytes_at(b, marker_bytes(), k)
}

/// The `# ` title line of the header, looked for in the lines after the
/// marker's own.
pub open spec fn header_title(b: Seq<u8>) -> Option<Seq<char>> {
    let ls = lines_seq(decode_utf8(b.subrange(first_marker(b), b.len() as int)));
    title_of(
        if ls.len() > 0 {
            ls.skip(1)
        } else {
            ls
        },
    )
}

/// The first KiB of a page without a header.
pub open spec fn fallback_text(t: Seq<char>) -> Seq<char> {
    if byte_len(t) > 1024 {
        prefix_within(t, 1024)
    } else {
        t
    }
}

/// The preview of a page without a header: its first 200 bytes, marked
/// where cut.
pub open spec fn preview_of(fb: Seq<char>) -> Seq<char> {
    if byte_len(fb) > 200 {
        prefix_within(fb, 200) + "..."@
    } else {
        fb
    }
}

/// The header's marker begins with an ASCII byte, so in valid UTF-8 it
/// starts a character.
proof fn lemma_marker_boundary(b: Seq<u8>, pos: int)
    requires
        valid_utf8(b),
        bytes_at(b, marker_bytes(), pos),
    ensures
        valid_utf8(b.subrange(pos, b.len() as int)),
{
    reveal_strlit("<!-- AI-SKILL-HEADER START");
    assert(marker_bytes()[0] == b[pos]) by {
        assert(b.subrange(pos, pos + marker_bytes().len())[0] == b[pos]);
    }
    assert(marker_bytes()[0] == 60u8);
    vstd::utf8::is_char_boundary_iff_not_is_continuation_byte(b, pos);
    vstd::utf8::valid_utf8_split(b, pos);
}

/// A page's first bytes, all of them valid UTF-8, read as [`scan_file`] states.
fn scan_text_of(
    rel_path: String,
    buf: &[u8],
    file_size: u64,
    file_lines: usize,
    modified_ts: u64,
    created_ts: u64,
) -> (r: ScanResult)
    requires
        valid_utf8(buf@),
    ensures
        r.path@ == rel_path@,
        r.file_lines == file_lines,
        r.modified_ts == modified_ts,
        r.created_ts == created_ts,
        r.size_bytes == file_size,
        r.calls == 0,
        r.modified_ago is None,
        r.has_header == has_marker(buf@),
        has_marker(buf@) ==> {
            &&& r.title_fallback is None
            &&& r.preview is None
            &&& match header_title(buf@) {
                Some(t) => opt_str(r.app_name) == Some(name_and_summary(t.skip(2)).0) && opt_str(
                    r.summary,
                ) == name_and_summary(t.skip(2)).1,
                None => r.app_name is None && r.summary is None,
            }
        },
        !has_marker(buf@) ==> {
            &&& r.app_name is None
            &&& r.summary is None
            &&& opt_str(r.title_fallback) == title_text(fallback_text(decode_utf8(buf@)))
            &&& opt_str(r.preview) == Some(preview_of(fallback_text(decode_utf8(buf@))))
        },
{
    let mut r = ScanResult {
        path: rel_path,
        app_name: None,
        summary: None,
        has_header: false,
        file_lines,
        title_fallback: None,
        preview: None,
        modified_ts,
        created_ts,
        size_bytes: file_size,
        calls: 0,
        modified_ago: None,
    };
    let text = match utf8_text(buf) {
        Ok(t) => t,
        Err(_) => {
            return r;
        },
    };
    let needle = marker_needle();
    match memmem_find(buf, needle.as_slice()) {
        Some(pos) => {
            proof {
                lemma_marker_boundary(buf@, pos as int);
                assert(first_marker(buf@) == pos);
            }
            let mut tail: Vec<u8> = Vec::new();
            let mut i = pos;
            while i < buf.len()
                invariant
                    pos <= i <= buf@.len(),
                    tail@ == buf@.subrange(pos as int, i as int),
                decreases buf@.len() - i,
            {
                tail.push(buf[i]);
                i = i + 1;
                assert(tail@ =~= buf@.subrange(pos as int, i as int));
            }
            r.has_header = true;
            let after = match utf8_text(tail.as_slice()) {
                Ok(t) => t,
                Err(_) => {
                    return r;
                },
            };
            let ls = str_lines(after.as_str());
            let rest = if ls.len() > 0 {
                line_range(&ls, 1, ls.len())
            } else {
                Vec::new()
            };
            proof {
                if ls@.len() > 0 {
                    assert(crate::text::views(ls@).subrange(1, ls@.len() as int) =~= crate::text::views(
                        ls@,
                    ).skip(1));
                } else {
                    assert(crate::text::views(rest@) =~= crate::text::views(ls@));
                }
            }
            match title_line_of(&rest) {
                Some(tl) => {
                    proof {
                        reveal_strlit("# ");
                    }
                    let (name, summary) = split_title(&skip(&tl, 2));
                    r.app_name = Some(name);
                    r.summary = summary;
                },
                None => {},
            }
            r
        },
        None => {
            assert(!has_marker(buf@));
            assert(text@ == decode_utf8(buf@));
            let tv = chars_of(text.as_str());
            let n = str_len(text.as_str());
            let fb = if n > 1024 {
                crate::text::cut_within(&tv, 1024)
            } else {
                tv
            };
            r.title_fallback = match extract_title_text(&fb) {
                Some(t) => Some(to_string(&t)),
                None => None,
            };
            let fb_text = to_string(&fb);
            let fbn = str_len(fb_text.as_str());
            assert(fb@ == fallback_text(decode_utf8(buf@)));
            let shown = if fbn > 200 {
                let mut p = crate::text::cut_within(&fb, 200);
                push_str(&mut p, "...");
                to_string(&p)
            } else {
                fb_text
            };
            r.preview = Some(shown);
            r
        },
    }
}

/// Read a page's first bytes as `scan` does: the header's name and summary
/// where the header's marker stands in them, else the page's title and a
/// preview of its first KiB. A character cut off at the end of the read is
/// left out; bytes that are no UTF-8 otherwise give nothing but the file's
/// figures.
pub fn scan_file(
    rel_path: String,
    buf: &[u8],
    file_size: u64,
    file_lines: usize,
    modified_ts: u64,
    created_ts: u64,
) -> (r: ScanResult)
    ensures
        r.path@ == rel_path@,
        r.file_lines == file_lines,
        r.modified_ts == modified_ts,
        r.created_ts == created_ts,
        r.size_bytes == file_size,
        r.calls == 0,
        r.modified_ago is None,
        match readable_part(buf@) {
            Some(t) => scanned_from(r, t),
            None => !r.has_header && r.app_name is None && r.summary is None && r.title_fallback is None
                && r.preview is None,
        },
{
    match utf8_text(buf) {
        Ok(_) => {
            scan_text_of(rel_path, buf, file_size, file_lines, modified_ts, created_ts)
        },
        Err((k, cut)) => {
            if !cut {
                return ScanResult {
                    path: rel_path,
                    app_name: None,
                    summary: None,
                    has_header: false,
                    file_lines,
                    title_fallback: None,
                    preview: None,
                    modified_ts,
                    created_ts,
                    size_bytes: file_size,
                    calls: 0,
                    modified_ago: None,
                };
            }
            proof {
                lemma_valid_part(buf@, k as int);
            }
            let mut part: Vec<u8> = Vec::new();
            let mut i: usize = 0;
            while i < k
                invariant
                    i <= k <= buf@.len(),
                    part@ == buf@.take(i as int),
                decreases k - i,
            {
                part.push(buf[i]);
                i = i + 1;
                assert(part@ =~= buf@.take(i as int));
            }
            scan_text_of(rel_path, part.as_slice(), file_size, file_lines, modified_ts, created_ts)
        },
    }
}

// ---------------------------------------------------------------------------
// Entries of the walk
// ---------------------------------------------------------------------------

/// How many times `x` occurs in `b`.
pub open spec fn count_byte(b: Seq<u8>, x: u8) -> nat
    decreases b.len(),
{
    if b.len() == 0 {
        0
    } else {
        count_byte(b.drop_last(), x) + if b.last() == x {
            1nat
        } else {
            0nat
        }
    }
}

proof fn lemma_count_byte_bound(b: Seq<u8>, x: u8)
    ensures
        count_byte(b, x) <= b.len(),
    decreases b.len(),
{
    if b.len() > 0 {
        lemma_count_byte_bound(b.drop_last(), x);
    }
}

/// `memchr::memchr_iter(needle, haystack).count()`: the number of positions
/// that hold the byte, as the crate documents its iterator.
#[verifier::external_body]
fn memchr_count(needle: u8, haystack: &[u8]) -> (r: usize)
    ensures
        r == count_byte(haystack@, needle),
{
    memchr::memchr_iter(needle, haystack).count()
}

/// The lines of a file, counted as its newlines plus one.
pub fn count_file_lines(bytes: &[u8]) -> (r: usize)
    requires
        bytes@.len() < usize::MAX,
    ensures
        r == count_byte(bytes@, 10) + 1,
{
    proof {
        lemma_count_byte_bound(bytes@, 10);
    }
    memchr_count(10, bytes) + 1
}

/// Every keyword occurs in the path, without regard to case.
pub open spec fn keywords_match(rel: Seq<char>, keywords: Seq<String>) -> bool {
    forall|i: int| 0 <= i < keywords.len() ==> includes(unicode_lower(rel), unicode_lower(#[trigger] keywords[i]@))
}

/// Whether the walk keeps an entry for the keywords: all of them occur in
/// its relative path, without regard to case (every entry where none is
/// given).
pub fn matches_keywords(rel: &str, keywords: &Vec<String>) -> (r: bool)
    ensures
        r == keywords_match(rel@, keywords@),
{
    if keywords.len() == 0 {
        return true;
    }
    let lower = chars_of(to_lowercase(rel).as_str());
    let mut i: usize = 0;
    while i < keywords.len()
        invariant
            i <= keywords@.len(),
            lower@ == unicode_lower(rel@),
            forall|k: int| 0 <= k < i ==> includes(unicode_lower(rel@), unicode_lower(#[trigger] keywords@[k]@)),
        decreases keywords@.len() - i,
    {
        let kw = chars_of(to_lowercase(keywords[i].as_str()).as_str());
        if !contains(&lower, &kw) {
            return false;
        }
        i = i + 1;
    }
    true
}

/// A file extension names a page: `html` or `htm`, without regard to ASCII
/// case.
pub fn is_html_extension(ext: &str) -> (r: bool)
    ensures
        r == (lower_seq(ext@) == "html"@ || lower_seq(ext@) == "htm"@),
{
    let e = to_lower(&chars_of(ext));
    crate::differ::vec_eq(&e, &chars_of("html")) || crate::differ::vec_eq(&e, &chars_of("htm"))
}

// ---------------------------------------------------------------------------
// Sorting
// ---------------------------------------------------------------------------

/// `a` comes before `b` by the key, ascending (never for relevance, which
/// orders by a floating-point score).
pub open spec fn scan_less(key: SortKey, a: ScanResult, b: ScanResult) -> bool {
    match key {
        SortKey::Name => text_lt(a.path@, b.path@),
        SortKey::Size => a.size_bytes < b.size_bytes,
        SortKey::Created => a.created_ts < b.created_ts,
        SortKey::Modified => a.modified_ts < b.modified_ts,
        SortKey::Relevance => false,
    }
}

/// `x` must precede `a` in the order.
pub open spec fn scan_before(key: SortKey, order: SortOrder) -> spec_fn(ScanResult, ScanResult) -> bool {
    |x: ScanResult, a: ScanResult|
        if order == SortOrder::Asc {
            scan_less(key, x, a)
        } else {
            scan_less(key, a, x)
        }
}

fn scan_less_exec(key: SortKey, a: &ScanResult, b: &ScanResult) -> (r: bool)
    ensures
        r == scan_less(key, *a, *b),
{
    match key {
        SortKey::Name => text_less(&a.path, &b.path),
        SortKey::Size => a.size_bytes < b.size_bytes,
        SortKey::Created => a.created_ts < b.created_ts,
        SortKey::Modified => a.modified_ts < b.modified_ts,
        SortKey::Relevance => false,
    }
}

fn scan_goes_before(x: &ScanResult, a: &ScanResult, key: SortKey, order: SortOrder) -> (r: bool)
    ensures
        r == scan_before(key, order)(*x, *a),
{
    if order == SortOrder::Asc {
        scan_less_exec(key, x, a)
    } else {
        scan_less_exec(key, a, x)
    }
}

/// Sort scan results by a key other than relevance (a stable sort).
pub fn sort_scan_results(results: &mut Vec<ScanResult>, key: SortKey, order: SortOrder)
    requires
        key != SortKey::Relevance,
    ensures
        final(results)@ == stable_sorted(old(results)@, scan_before(key, order)),
{
    let ghost before = scan_before(key, order);
    let mut rest: Vec<ScanResult> = Vec::new();
    std::mem::swap(&mut rest, results);
    let ghost orig = rest@;
    let n0 = rest.len();
    let mut out: Vec<ScanResult> = Vec::new();
    let mut k: usize = 0;
    assert(orig.take(0) =~= Seq::<ScanResult>::empty());
    assert(orig.skip(0) =~= orig);
    while rest.len() > 0
        invariant
            k + rest.len() == orig.len(),
            n0 == orig.len(),
            rest@ == orig.skip(k as int),
            out@ == stable_sorted(orig.take(k as int), before),
            before == scan_before(key, order),
        decreases rest.len(),
    {
        let x = rest.remove(0);
        proof {
            assert(x == orig[k as int]);
            assert(orig.take(k + 1).drop_last() =~= orig.take(k as int));
            assert(orig.take(k + 1).last() == x);
            assert(rest@ =~= orig.skip(k + 1));
            lemma_stable_sorted_len(orig.take(k as int), before);
        }
        let mut p: usize = 0;
        while p < out.len() && !scan_goes_before(&x, &out[p], key, order)
            invariant
                p <= out@.len(),
                before == scan_before(key, order),
                forall|q: int| 0 <= q < p ==> !before(x, #[trigger] out@[q]),
            decreases out@.len() - p,
        {
            p = p + 1;
        }
        proof {
            lemma_first_before(out@, x, before, p as int);
        }
        out.insert(p, x);
        k = k + 1;
    }
    assert(orig.take(orig.len() as int) =~= orig);
    *results = out;
}

/// Sorting scan results by a key other than relevance keeps them and puts
/// them in the order of the key: no result comes after one that it must
/// precede.
pub proof fn lemma_scan_sort(results: Seq<ScanResult>, key: SortKey, order: SortOrder)
    requires
        key != SortKey::Relevance,
    ensures
        sorted_by(stable_sorted(results, scan_before(key, order)), scan_before(key, order)),
        stable_sorted(results, scan_before(key, order)).to_multiset() == results.to_multiset(),
{
    let b = scan_before(key, order);
    assert forall|x: ScanResult, y: ScanResult| #[trigger] b(x, y) implies !b(y, x) by {
        lemma_text_order(x.path@, y.path@, y.path@);
    }
    assert forall|x: ScanResult, y: ScanResult, z: ScanResult| #[trigger] b(x, y) && #[trigger] b(y, z) implies b(x, z) by {
        lemma_text_order(x.path@, y.path@, z.path@);
        lemma_text_order(z.path@, y.path@, x.path@);
    }
    assert(strict_order(b));
    lemma_stable_sorted(results, b);
}

/// What the walk knows of a page before it is scanned.
pub struct PathInfo {
    pub path: String,
    pub name: String,
    pub size: u64,
    pub created: u64,
    pub modified: u64,
}

/// `a` comes before `b` by the key, ascending; relevance orders by the
/// modification time here.
pub open spec fn path_less(key: SortKey, a: PathInfo, b: PathInfo) -> bool {
    match key {
        SortKey::Name => text_lt(a.name@, b.name@),
        SortKey::Size => a.size < b.size,
        SortKey::Created => a.created < b.created,
        _ => a.modified < b.modified,
    }
}

pub open spec fn path_before(key: SortKey, order: SortOrder) -> spec_fn(PathInfo, PathInfo) -> bool {
    |x: PathInfo, a: PathInfo|
        if order == SortOrder::Asc {
            path_less(key, x, a)
        } else {
            path_less(key, a, x)
        }
}

fn path_less_exec(key: SortKey, a: &PathInfo, b: &PathInfo) -> (r: bool)
    ensures
        r == path_less(key, *a, *b),
{
    match key {
        SortKey::Name => text_less(&a.name, &b.name),
        SortKey::Size => a.size < b.size,
        SortKey::Created => a.created < b.created,
        _ => a.modified < b.modified,
    }
}

fn path_goes_before(x: &PathInfo, a: &PathInfo, key: SortKey, order: SortOrder) -> (r: bool)
    ensures
        r == path_before(key, order)(*x, *a),
{
    if order == SortOrder::Asc {
        path_less_exec(key, x, a)
    } else {
        path_less_exec(key, a, x)
    }
}

/// Sort the pages found by the walk before they are scanned (a stable
/// sort), so that a scan cut short by its deadline covers the first ones.
pub fn sort_paths_by_key(paths: &mut Vec<PathInfo>, key: SortKey, order: SortOrder)
    ensures
        final(paths)@ == stable_sorted(old(paths)@, path_before(key, order)),
{
    let ghost before = path_before(key, order);
    let mut rest: Vec<PathInfo> = Vec::new();
    std::mem::swap(&mut rest, paths);
    let ghost orig = rest@;
    let n0 = rest.len();
    let mut out: Vec<PathInfo> = Vec::new();
    let mut k: usize = 0;
    assert(orig.take(0) =~= Seq::<PathInfo>::empty());
    assert(orig.skip(0) =~= orig);
    while rest.len() > 0
        invariant
            k + rest.len() == orig.len(),
            n0 == orig.len(),
            rest@ == orig.skip(k as int),
            out@ == stable_sorted(orig.take(k as int), before),
            before == path_before(key, order),
        decreases rest.len(),
    {
        let x = rest.remove(0);
        proof {
            assert(x == orig[k as int]);
            assert(orig.take(k + 1).drop_last() =~= orig.take(k as int));
            assert(orig.take(k + 1).last() == x);
            assert(rest@ =~= orig.skip(k + 1));
            lemma_stable_sorted_len(orig.take(k as int), before);
        }
        let mut p: usize = 0;
        while p < out.len() && !path_goes_before(&x, &out[p], key, order)
            invariant
                p <= out@.len(),
                before == path_before(key, order),
                forall|q: int| 0 <= q < p ==> !before(x, #[trigger] out@[q]),
            decreases out@.len() - p,
        {
            p = p + 1;
        }
        proof {
            lemma_first_before(out@, x, before, p as int);
        }
        out.insert(p, x);
        k = k + 1;
    }
    assert(orig.take(orig.len() as int) =~= orig);
    *paths = out;
}

// ---------------------------------------------------------------------------
// Usage statistics
// ---------------------------------------------------------------------------

/// Give each result its call count from the usage statistics, found by the
/// result's path, and its modification time relative to now.
pub fn inject_stats(results: &mut Vec<ScanResult>, stats_data: &Vec<(String, FileStats)>)
    ensures
        final(results)@.len() == old(results)@.len(),
        forall|i: int|
            0 <= i < old(results)@.len() ==> {
                let (a, b) = (old(results)@[i], #[trigger] final(results)@[i]);
                &&& b.path == a.path
                &&& b.app_name == a.app_name
                &&& b.summary == a.summary
                &&& b.has_header == a.has_header
                &&& b.file_lines == a.file_lines
                &&& b.title_fallback == a.title_fallback
                &&& b.preview == a.preview
                &&& b.modified_ts == a.modified_ts
                &&& b.created_ts == a.created_ts
                &&& b.size_bytes == a.size_bytes
                &&& exists|sep: char|
                    (sep == '/' || sep == '\\') && b.calls == by_suffix(
                        entries_view(stats_data@),
                        a.path@,
                        sep,
                    ).calls
                &&& exists|now: u64| b.modified_ago matches Some(t) && t@ == #[trigger] ago(a.modified_ts, now)
            },
{
    let mut rest: Vec<ScanResult> = Vec::new();
    std::mem::swap(&mut rest, results);
    let ghost orig = rest@;
    let n0 = rest.len();
    let mut k: usize = 0;
    assert(orig.skip(0) =~= orig);
    while rest.len() > 0
        invariant
            k + rest.len() == orig.len(),
            n0 == orig.len(),
            rest@ == orig.skip(k as int),
            results@.len() == k,
            forall|i: int|
                0 <= i < k ==> {
                    let (a, b) = (orig[i], #[trigger] results@[i]);
                    &&& b.path == a.path
                    &&& b.app_name == a.app_name
                    &&& b.summary == a.summary
                    &&& b.has_header == a.has_header
                    &&& b.file_lines == a.file_lines
                    &&& b.title_fallback == a.title_fallback
                    &&& b.preview == a.preview
                    &&& b.modified_ts == a.modified_ts
                    &&& b.created_ts == a.created_ts
                    &&& b.size_bytes == a.size_bytes
                    &&& exists|sep: char|
                        (sep == '/' || sep == '\\') && b.calls == by_suffix(
                            entries_view(stats_data@),
                            a.path@,
                            sep,
                        ).calls
                    &&& exists|now: u64| b.modified_ago matches Some(t) && t@ == #[trigger] ago(a.modified_ts, now)
                },
        decreases rest.len(),
    {
        let mut r = rest.remove(0);
        proof {
            assert(r == orig[k as int]);
            assert(rest@ =~= orig.skip(k + 1));
        }
        let fs = get_by_suffix(r.path.as_str(), stats_data);
        r.calls = fs.calls;
        r.modified_ago = Some(format_ago(r.modified_ts));
        results.push(r);
        k = k + 1;
    }
}

// ---------------------------------------------------------------------------
// Text report
// ---------------------------------------------------------------------------

/// The widest of the texts, in bytes.
pub open spec fn max_bytes(v: Seq<Seq<char>>) -> nat
    decreases v.len(),
{
    if v.len() == 0 {
        0
    } else if byte_len(v.last()) > max_bytes(v.drop_last()) {
        byte_len(v.last())
    } else {
        max_bytes(v.drop_last())
    }
}

/// `(<calls>×, <modified ago>)`.
pub open spec fn meta_of(r: ScanResult) -> Seq<char> {
    "("@ + dec(r.calls as nat) + "×, "@ + (match r.modified_ago {
        Some(t) => t@,
        None => "?"@,
    }) + ")"@
}

/// What a page's row tells of it: the header's name and summary, else the
/// page's title, else its size in lines.
pub open spec fn right_of(r: ScanResult) -> Seq<char> {
    if r.has_header {
        (match r.app_name {
            Some(a) => a@,
            None => "Unknown"@,
        }) + " — "@ + (match r.summary {
            Some(s) => s@,
            None => Seq::empty(),
        })
    } else {
        match r.title_fallback {
            Some(t) => "[no header] "@ + t@,
            None => "[no header] ("@ + dec(r.file_lines as nat) + " lines)"@,
        }
    }
}

/// How many pages the report lists: the first `top`, where it is set and
/// smaller than their number.
pub open spec fn shown_count(n: nat, top: usize) -> nat {
    if top > 0 && top < n {
        top as nat
    } else {
        n
    }
}

pub open spec fn page_rows(shown: Seq<ScanResult>) -> Seq<Seq<char>> {
    let ml = max_bytes(shown.map_values(|r: ScanResult| r.path@));
    let mm = max_bytes(shown.map_values(|r: ScanResult| meta_of(r)));
    shown.map_values(
        |r: ScanResult|
            pad_right(r.path@, ml) + "  "@ + pad_right(meta_of(r), mm) + "  →  "@ + right_of(r),
    )
}

pub open spec fn pages_section(files: Seq<ScanResult>, top: usize) -> Seq<char> {
    if files.len() == 0 {
        Seq::empty()
    } else {
        "── HTML files ("@ + dec(files.len()) + ") ──\n"@ + join_seq(
            page_rows(files.take(shown_count(files.len(), top) as int)),
            seq!['\n'],
        ) + (if top > 0 && files.len() > top {
            "\n  ... "@ + dec((files.len() - top) as nat) + " more"@
        } else {
            Seq::empty()
        }) + seq!['\n']
    }
}

pub open spec fn dirs_section(d: Seq<DirEntry>) -> Seq<char> {
    if d.len() == 0 {
        Seq::empty()
    } else {
        "\n── Directories ("@ + dec(d.len()) + ") ──\n"@ + concat_seq(
            d.map_values(
                |e: DirEntry| "  "@ + e.path@ + "/ ("@ + dec(e.children as nat) + " children)\n"@,
            ),
        )
    }
}

pub open spec fn others_section(o: Seq<OtherFileEntry>) -> Seq<char> {
    if o.len() == 0 {
        Seq::empty()
    } else {
        "\n── Other files ("@ + dec(o.len()) + ") ──\n"@ + concat_seq(
            o.map_values(|f: OtherFileEntry| "  "@ + f.path@ + "\n"@),
        )
    }
}

/// The scan as text: its pages, its directories, its other files.
pub open spec fn scan_text(r: FullScanResult, top: usize) -> Seq<char> {
    pages_section(r.html_files@, top) + dirs_section(r.dirs@) + others_section(r.other_files@)
}

fn meta_exec(r: &ScanResult) -> (m: Vec<char>)
    ensures
        m@ == meta_of(*r),
{
    let mut m: Vec<char> = Vec::new();
    push_str(&mut m, "(");
    push_all(&mut m, &decimal(r.calls));
    push_str(&mut m, "×, ");
    match &r.modified_ago {
        Some(t) => push_str(&mut m, t.as_str()),
        None => push_str(&mut m, "?"),
    }
    push_str(&mut m, ")");
    m
}

fn right_exec(r: &ScanResult) -> (m: Vec<char>)
    ensures
        m@ == right_of(*r),
{
    let mut m: Vec<char> = Vec::new();
    if r.has_header {
        match &r.app_name {
            Some(a) => push_str(&mut m, a.as_str()),
            None => push_str(&mut m, "Unknown"),
        }
        push_str(&mut m, " — ");
        match &r.summary {
            Some(s) => push_str(&mut m, s.as_str()),
            None => {},
        }
    } else {
        match &r.title_fallback {
            Some(t) => {
                push_str(&mut m, "[no header] ");
                push_str(&mut m, t.as_str());
            },
            None => {
                push_str(&mut m, "[no header] (");
                push_all(&mut m, &decimal(r.file_lines));
                push_str(&mut m, " lines)");
            },
        }
    }
    m
}

fn rows_exec(files: &Vec<ScanResult>, n: usize) -> (r: Vec<Vec<char>>)
    requires
        n <= files@.len(),
    ensures
        views(r@) == page_rows(files@.take(n as int)),
{
    let ghost shown = files@.take(n as int);
    let ghost lefts = shown.map_values(|r: ScanResult| r.path@);
    let ghost metas = shown.map_values(|r: ScanResult| meta_of(r));
    let mut ml: usize = 0;
    let mut mm: usize = 0;
    let mut i: usize = 0;
    while i < n
        invariant
            i <= n <= files@.len(),
            shown == files@.take(n as int),
            lefts == shown.map_values(|r: ScanResult| r.path@),
            metas == shown.map_values(|r: ScanResult| meta_of(r)),
            ml == max_bytes(lefts.take(i as int)),
            mm == max_bytes(metas.take(i as int)),
        decreases n - i,
    {
        let lb = str_len(files[i].path.as_str());
        let mb = str_len(to_string(&meta_exec(&files[i])).as_str());
        proof {
            assert(lefts.take(i + 1).drop_last() =~= lefts.take(i as int));
            assert(metas.take(i + 1).drop_last() =~= metas.take(i as int));
        }
        if lb > ml {
            ml = lb;
        }
        if mb > mm {
            mm = mb;
        }
        i = i + 1;
    }
    assert(lefts.take(n as int) =~= lefts);
    assert(metas.take(n as int) =~= metas);
    let mut rows: Vec<Vec<char>> = Vec::new();
    let mut j: usize = 0;
    while j < n
        invariant
            j <= n <= files@.len(),
            shown == files@.take(n as int),
            ml == max_bytes(shown.map_values(|r: ScanResult| r.path@)),
            mm == max_bytes(shown.map_values(|r: ScanResult| meta_of(r))),
            views(rows@) == page_rows(shown).take(j as int),
        decreases n - j,
    {
        let mut row = padded_right(&chars_of(files[j].path.as_str()), ml);
        push_str(&mut row, "  ");
        push_all(&mut row, &padded_right(&meta_exec(&files[j]), mm));
        push_str(&mut row, "  →  ");
        push_all(&mut row, &right_exec(&files[j]));
        let ghost before = rows@;
        rows.push(row);
        proof {
            assert(views(rows@) =~= views(before).push(row@));
            assert(page_rows(shown).take(j + 1) =~= page_rows(shown).take(j as int).push(
                page_rows(shown)[j as int],
            ));
        }
        j = j + 1;
    }
    assert(page_rows(shown).take(n as int) =~= page_rows(shown));
    rows
}

/// The scan as text: the pages (the first `top` where it is set) with their
/// usage and what they are, then the directories, then the other files.
#[verifier::rlimit(40)]
pub fn format_text(result: &FullScanResult, top: usize) -> (r: String)
    ensures
        r@ == scan_text(*result, top),
{
    let mut out: Vec<char> = Vec::new();
    let files = &result.html_files;
    let n = files.len();
    if n > 0 {
        push_str(&mut out, "── HTML files (");
        push_all(&mut out, &decimal(n));
        push_str(&mut out, ") ──\n");
        let shown = if top > 0 && top < n {
            top
        } else {
            n
        };
        let rows = rows_exec(files, shown);
        let mut nl: Vec<char> = Vec::new();
        nl.push('\n');
        assert(nl@ =~= seq!['\n']);
        push_all(&mut out, &join(&rows, &nl));
        if top > 0 && n > top {
            push_str(&mut out, "\n  ... ");
            push_all(&mut out, &decimal(n - top));
            push_str(&mut out, " more");
        }
        out.push('\n');
    }
    let ghost after_pages = out@;
    assert(after_pages =~= pages_section(files@, top));
    let dirs = &result.dirs;
    if dirs.len() > 0 {
        push_str(&mut out, "\n── Directories (");
        push_all(&mut out, &decimal(dirs.len()));
        push_str(&mut out, ") ──\n");
        let ghost head = out@;
        let mut i: usize = 0;
        while i < dirs.len()
            invariant
                i <= dirs@.len(),
                out@ == head + concat_seq(
                    dirs@.take(i as int).map_values(
                        |e: DirEntry| "  "@ + e.path@ + "/ ("@ + dec(e.children as nat) + " children)\n"@,
                    ),
                ),
            decreases dirs@.len() - i,
        {
            push_str(&mut out, "  ");
            push_str(&mut out, dirs[i].path.as_str());
            push_str(&mut out, "/ (");
            push_all(&mut out, &decimal(dirs[i].children));
            push_str(&mut out, " children)\n");
            proof {
                assert(dirs@.take(i + 1).map_values(
                    |e: DirEntry| "  "@ + e.path@ + "/ ("@ + dec(e.children as nat) + " children)\n"@,
                ).drop_last() =~= dirs@.take(i as int).map_values(
                    |e: DirEntry| "  "@ + e.path@ + "/ ("@ + dec(e.children as nat) + " children)\n"@,
                ));
            }
            i = i + 1;
        }
        assert(dirs@.take(dirs@.len() as int) =~= dirs@);
    }
    let ghost after_dirs = out@;
    assert(after_dirs =~= after_pages + dirs_section(dirs@));
    let others = &result.other_files;
    if others.len() > 0 {
        push_str(&mut out, "\n── Other files (");
        push_all(&mut out, &decimal(others.len()));
        push_str(&mut out, ") ──\n");
        let ghost head = out@;
        let mut i: usize = 0;
        while i < others.len()
            invariant
                i <= others@.len(),
                out@ == head + concat_seq(
                    others@.take(i as int).map_values(|f: OtherFileEntry| "  "@ + f.path@ + "\n"@),
                ),
            decreases others@.len() - i,
        {
            push_str(&mut out, "  ");
            push_str(&mut out, others[i].path.as_str());
            push_str(&mut out, "\n");
            proof {
                assert(others@.take(i + 1).map_values(
                    |f: OtherFileEntry| "  "@ + f.path@ + "\n"@,
                ).drop_last() =~= others@.take(i as int).map_values(
                    |f: OtherFileEntry| "  "@ + f.path@ + "\n"@,
                ));
            }
            i = i + 1;
        }
        assert(others@.take(others@.len() as int) =~= others@);
    }
    assert(out@ =~= scan_text(*result, top));
    to_string(&out)
}

// ---------------------------------------------------------------------------
// Timeout summary
// ---------------------------------------------------------------------------

/// The top directory of a relative path (`.` for a file at the top).
pub open spec fn top_dir(path: Seq<char>) -> Seq<char> {
    match find_seq(path, seq!['/']) {
        Some(p) => path.take(p),
        None => seq!['.'],
    }
}

/// A directory's group: its name, its pages, and those with a header.
pub type DirGroup = (Seq<char>, nat, nat);

/// The groups with one more page of `dir` counted, kept in the order of
/// their names.
pub open spec fn group_add(g: Seq<DirGroup>, dir: Seq<char>, h: bool) -> Seq<DirGroup>
    decreases g.len(),
{
    let one: nat = if h {
        1
    } else {
        0
    };
    if g.len() == 0 {
        seq![(dir, 1nat, one)]
    } else if g[0].0 == dir {
        seq![(dir, g[0].1 + 1, g[0].2 + one)] + g.drop_first()
    } else if text_lt(dir, g[0].0) {
        seq![(dir, 1nat, one)] + g
    } else {
        seq![g[0]] + group_add(g.drop_first(), dir, h)
    }
}

/// The pages grouped by top directory, in the order of the directories'
/// names.
pub open spec fn dir_groups(files: Seq<ScanResult>) -> Seq<DirGroup>
    decreases files.len(),
{
    if files.len() == 0 {
        Seq::empty()
    } else {
        group_add(
            dir_groups(files.drop_last()),
            top_dir(files.last().path@),
            files.last().has_header,
        )
    }
}

proof fn lemma_group_add(g: Seq<DirGroup>, dir: Seq<char>, h: bool, p: int)
    requires
        0 <= p <= g.len(),
        forall|q: int| 0 <= q < p ==> text_lt(#[trigger] g[q].0, dir),
        p == g.len() || !text_lt(g[p].0, dir),
    ensures
        group_add(g, dir, h) == if p < g.len() && g[p].0 == dir {
            g.update(p, (dir, g[p].1 + 1, g[p].2 + if h {
                1nat
            } else {
                0nat
            }))
        } else {
            g.insert(p, (dir, 1nat, if h {
                1nat
            } else {
                0nat
            }))
        },
    decreases g.len(),
{
    if g.len() > 0 {
        if p > 0 {
            lemma_text_order(g[0].0, dir, dir);
            assert forall|q: int| 0 <= q < p - 1 implies text_lt(#[trigger] g.drop_first()[q].0, dir) by {
                assert(g.drop_first()[q] == g[q + 1]);
            }
            lemma_group_add(g.drop_first(), dir, h, p - 1);
            let one: nat = if h {
                1
            } else {
                0
            };
            if p < g.len() && g[p].0 == dir {
                assert(seq![g[0]] + g.drop_first().update(p - 1, (dir, g[p].1 + 1, g[p].2 + one))
                    =~= g.update(p, (dir, g[p].1 + 1, g[p].2 + one)));
            } else {
                assert(seq![g[0]] + g.drop_first().insert(p - 1, (dir, 1nat, one)) =~= g.insert(
                    p,
                    (dir, 1nat, one),
                ));
            }
        } else {
            lemma_text_order(g[0].0, dir, dir);
            let one: nat = if h {
                1
            } else {
                0
            };
            if g[0].0 == dir {
                assert(seq![(dir, g[0].1 + 1, g[0].2 + one)] + g.drop_first() =~= g.update(
                    0,
                    (dir, g[0].1 + 1, g[0].2 + one),
                ));
            } else {
                assert(seq![(dir, 1nat, one)] + g =~= g.insert(0, (dir, 1nat, one)));
            }
        }
    } else {
        assert(seq![(dir, 1nat, if h {
            1nat
        } else {
            0nat
        })] =~= g.insert(0, (dir, 1nat, if h {
            1nat
        } else {
            0nat
        })));
    }
}

pub open spec fn header_count(files: Seq<ScanResult>) -> nat
    decreases files.len(),
{
    if files.len() == 0 {
        0
    } else {
        header_count(files.drop_last()) + if files.last().has_header {
            1nat
        } else {
            0nat
        }
    }
}

pub open spec fn lines_total(files: Seq<ScanResult>) -> nat
    decreases files.len(),
{
    if files.len() == 0 {
        0
    } else {
        lines_total(files.drop_last()) + files.last().file_lines as nat
    }
}

pub open spec fn group_line(g: DirGroup) -> Seq<char> {
    "  "@ + pad_right(g.0, 30) + " "@ + pad_left(dec(g.1), 4) + " files ("@ + dec(g.2)
        + " with header)\n"@
}

/// What a scan cut short by its deadline reports.
pub open spec fn timeout_text(r: FullScanResult) -> Seq<char> {
    let files = r.html_files@;
    let n = files.len();
    let with = header_count(files);
    let remaining: nat = if r.html_total > n {
        (r.html_total - n) as nat
    } else {
        0
    };
    let groups = dir_groups(files);
    "\n⏱ Scan timed out. Scanned: "@ + dec(n) + " HTML ("@ + dec(with) + " with header, "@ + dec(
        (n - with) as nat,
    ) + " without, "@ + dec(lines_total(files)) + " lines), "@ + dec(r.dirs@.len()) + " dirs, "@
        + dec(r.other_files@.len()) + " other files\n"@ + (if remaining > 0 {
        "Remaining: ~"@ + dec(remaining) + " HTML files not scanned\n"@
    } else {
        Seq::empty()
    }) + (if groups.len() > 0 {
        "\nHTML by directory:\n"@ + concat_seq(groups.map_values(|g: DirGroup| group_line(g)))
    } else {
        Seq::empty()
    })
}

pub open spec fn groups_view(g: Seq<(Vec<char>, usize, usize)>) -> Seq<DirGroup> {
    g.map_values(|e: (Vec<char>, usize, usize)| (e.0@, e.1 as nat, e.2 as nat))
}

proof fn lemma_header_count_bound(files: Seq<ScanResult>)
    ensures
        header_count(files) <= files.len(),
    decreases files.len(),
{
    if files.len() > 0 {
        lemma_header_count_bound(files.drop_last());
    }
}

/// The summary of a scan cut short by its deadline: what was scanned, what
/// remains, and the pages by top directory.
pub fn format_timeout_summary(result: &FullScanResult) -> (r: String)
    requires
        lines_total(result.html_files@) <= usize::MAX,
    ensures
        r@ == timeout_text(*result),
{
    let files = &result.html_files;
    let n = files.len();
    let mut with: usize = 0;
    let mut total: usize = 0;
    let mut groups: Vec<(Vec<char>, usize, usize)> = Vec::new();
    let mut i: usize = 0;
    while i < n
        invariant
            i <= n == files@.len(),
            lines_total(files@) <= usize::MAX,
            with == header_count(files@.take(i as int)),
            total == lines_total(files@.take(i as int)),
            groups_view(groups@) == dir_groups(files@.take(i as int)),
            forall|q: int| 0 <= q < groups@.len() ==> (#[trigger] groups@[q]).1 <= i,
            forall|q: int| 0 <= q < groups@.len() ==> (#[trigger] groups@[q]).2 <= groups@[q].1,
        decreases n - i,
    {
        let ghost t = files@.take(i + 1);
        proof {
            assert(t.drop_last() =~= files@.take(i as int));
            lemma_lines_total_prefix(files@, i + 1);
            lemma_header_count_bound(files@.take(i as int));
        }
        let f = &files[i];
        if f.has_header {
            with = with + 1;
        }
        total = total + f.file_lines;
        let path = chars_of(f.path.as_str());
        let mut slash: Vec<char> = Vec::new();
        slash.push('/');
        assert(slash@ =~= seq!['/']);
        let dir: Vec<char> = match crate::text::find(&path, &slash) {
            Some(p) => crate::text::slice(&path, 0, p),
            None => {
                let mut v: Vec<char> = Vec::new();
                v.push('.');
                v
            },
        };
        proof {
            assert(dir@ == top_dir(f.path@)) by {
                assert(seq!['/'] =~= seq!['/']);
                if find_seq(f.path@, seq!['/']) is Some {
                    assert(path@.subrange(0, find_seq(f.path@, seq!['/'])->0) =~= path@.take(
                        find_seq(f.path@, seq!['/'])->0,
                    ));
                }
                assert(seq!['.'] =~= seq!['.']);
            }
        }
        let dir_text = to_string(&dir);
        let mut p: usize = 0;
        while p < groups.len() && text_less(&to_string(&groups[p].0), &dir_text)
            invariant
                p <= groups@.len(),
                dir_text@ == dir@,
                forall|q: int| 0 <= q < p ==> text_lt(#[trigger] groups_view(groups@)[q].0, dir@),
            decreases groups@.len() - p,
        {
            proof {
                assert(groups_view(groups@)[p as int].0 == groups@[p as int].0@);
            }
            p = p + 1;
        }
        let ghost gv = groups_view(groups@);
        proof {
            if p < groups@.len() {
                assert(gv[p as int].0 == groups@[p as int].0@);
            }
            lemma_group_add(gv, dir@, f.has_header, p as int);
        }
        let hit = if p < groups.len() {
            crate::differ::vec_eq(&groups[p].0, &dir)
        } else {
            false
        };
        let one: usize = if f.has_header {
            1
        } else {
            0
        };
        if hit {
            let (name, c, h) = groups.remove(p);
            groups.insert(p, (name, c + 1, h + one));
            proof {
                assert(groups_view(groups@) =~= gv.update(p as int, (dir@, gv[p as int].1 + 1, gv[p as int].2 + one as nat)));
            }
        } else {
            groups.insert(p, (dir, 1, one));
            proof {
                assert(groups_view(groups@) =~= gv.insert(p as int, (dir@, 1nat, one as nat)));
            }
        }
        i = i + 1;
    }
    assert(files@.take(n as int) =~= files@);
    proof {
        lemma_header_count_bound(files@);
    }
    let mut out: Vec<char> = Vec::new();
    push_str(&mut out, "\n⏱ Scan timed out. Scanned: ");
    push_all(&mut out, &decimal(n));
    push_str(&mut out, " HTML (");
    push_all(&mut out, &decimal(with));
    push_str(&mut out, " with header, ");
    push_all(&mut out, &decimal(n - with));
    push_str(&mut out, " without, ");
    push_all(&mut out, &decimal(total));
    push_str(&mut out, " lines), ");
    push_all(&mut out, &decimal(result.dirs.len()));
    push_str(&mut out, " dirs, ");
    push_all(&mut out, &decimal(result.other_files.len()));
    push_str(&mut out, " other files\n");
    let remaining = if result.html_total > n {
        result.html_total - n
    } else {
        0
    };
    if remaining > 0 {
        push_str(&mut out, "Remaining: ~");
        push_all(&mut out, &decimal(remaining));
        push_str(&mut out, " HTML files not scanned\n");
    }
    let ghost head = out@;
    if groups.len() > 0 {
        push_str(&mut out, "\nHTML by directory:\n");
        let ghost head2 = out@;
        let ghost gv = groups_view(groups@);
        let mut k: usize = 0;
        while k < groups.len()
            invariant
                k <= groups@.len(),
                gv == groups_view(groups@),
                out@ == head2 + concat_seq(gv.take(k as int).map_values(|g: DirGroup| group_line(g))),
            decreases groups@.len() - k,
        {
            push_str(&mut out, "  ");
            push_all(&mut out, &padded_right(&groups[k].0, 30));
            push_str(&mut out, " ");
            push_all(&mut out, &padded_left(&decimal(groups[k].1), 4));
            push_str(&mut out, " files (");
            push_all(&mut out, &decimal(groups[k].2));
            push_str(&mut out, " with header)\n");
            proof {
                assert(gv[k as int] == (groups@[k as int].0@, groups@[k as int].1 as nat, groups@[k as int].2 as nat));
                assert(gv.take(k + 1).map_values(|g: DirGroup| group_line(g)).drop_last() =~= gv.take(
                    k as int,
                ).map_values(|g: DirGroup| group_line(g)));
            }
            k = k + 1;
        }
        assert(gv.take(gv.len() as int) =~= gv);
    }
    assert(out@ =~= timeout_text(*result));
    to_string(&out)
}

proof fn lemma_lines_total_prefix(files: Seq<ScanResult>, k: int)
    requires
        0 <= k <= files.len(),
    ensures
        lines_total(files.take(k)) <= lines_total(files),
    decreases files.len() - k,
{
    if k < files.len() {
        lemma_lines_total_prefix(files, k + 1);
        assert(files.take(k + 1).drop_last() =~= files.take(k));
    } else {
        assert(files.take(k) =~= files);
    }
}

/// The result of a walk and its scans: the pages sorted by the key (by
/// relevance they come sorted already), and the scan marked timed out exactly
/// where the walk or the scans stopped at the deadline (a page that could not
/// be read is left out without that mark).
pub fn finish_scan(
    html_files: Vec<ScanResult>,
    dirs: Vec<DirEntry>,
    other_files: Vec<OtherFileEntry>,
    html_total: usize,
    deadline_reached: bool,
    key: SortKey,
    order: SortOrder,
) -> (r: FullScanResult)
    ensures
        key != SortKey::Relevance ==> r.html_files@ == stable_sorted(html_files@, scan_before(key, order)),
        key == SortKey::Relevance ==> r.html_files@ == html_files@,
        r.dirs@ == dirs@,
        r.other_files@ == other_files@,
        r.html_total == html_total,
        r.timed_out == deadline_reached,
{
    let mut files = html_files;
    if key != SortKey::Relevance {
        sort_scan_results(&mut files, key, order);
    }
    FullScanResult {
        html_files: files,
        dirs,
        other_files,
        html_total,
        timed_out: deadline_reached,
    }
}

} // verus!

//! Usage statistics of files: call counts and the time of the last call.
use vstd::prelude::*;

use crate::text::{chars_of, dec, ends, ends_with, push_all, push_str, to_string};

verus! {

/// How often a file was used, and when last.
#[derive(Debug, Clone, Copy, PartialEq, Eq)]
pub struct FileStats {
    pub calls: usize,
    pub last_call: u64,
}

/// `s` with every `from` replaced by `to`.
pub open spec fn replace_char(s: Seq<char>, from: char, to: char) -> Seq<char> {
    s.map_values(|c: char| if c == from { to } else { c })
}

/// The key stands for the relative path: it ends with it, or with it written
/// with the platform's separator `sep`.
pub open spec fn key_matches(key: Seq<char>, rel: Seq<char>, sep: char) -> bool {
    ends(key, rel) || ends(key, replace_char(rel, '/', sep))
}

/// The stats of the first entry (in the order given) whose key stands for
/// `rel`, or zero.
pub open spec fn by_suffix(data: Seq<(Seq<char>, FileStats)>, rel: Seq<char>, sep: char) -> FileStats
    decreases data.len(),
{
    if data.len() == 0 {
        FileStats { calls: 0, last_call: 0 }
    } else if key_matches(data[0].0, rel, sep) {
        data[0].1
    } else {
        by_suffix(data.skip(1), rel, sep)
    }
}

pub open spec fn entries_view(data: Seq<(String, FileStats)>) -> Seq<(Seq<char>, FileStats)> {
    data.map_values(|e: (String, FileStats)| (e.0@, e.1))
}

/// `std::path::MAIN_SEPARATOR`: `/` or `\`, by platform.
#[verifier::external_body]
fn main_separator() -> (c: char)
    ensures
        c == '/' || c == '\\',
{
    std::path::MAIN_SEPARATOR
}

/// Look up stats for a relative path by matching its end against the keys
/// (canonical paths), in the order of `data`.
pub fn get_by_suffix(rel_path: &str, data: &Vec<(String, FileStats)>) -> (r: FileStats)
    ensures
        exists|sep: char| (sep == '/' || sep == '\\') && r == by_suffix(entries_view(data@), rel_path@, sep),
{
    let sep = main_separator();
    let rel = chars_of(rel_path);
    let mut alt: Vec<char> = Vec::new();
    let mut k: usize = 0;
    while k < rel.len()
        invariant
            k <= rel.len(),
            alt@ == replace_char(rel@.take(k as int), '/', sep),
        decreases rel.len() - k,
    {
        alt.push(if rel[k] == '/' { sep } else { rel[k] });
        assert(replace_char(rel@.take(k + 1), '/', sep) =~= replace_char(rel@.take(k as int), '/', sep).push(
            if rel@[k as int] == '/' { sep } else { rel@[k as int] },
        ));
        k = k + 1;
    }
    assert(rel@.take(rel@.len() as int) =~= rel@);
    let ghost ev = entries_view(data@);
    let mut i: usize = 0;
    assert(ev.skip(0) =~= ev);
    while i < data.len()
        invariant
            i <= data.len(),
            ev == entries_view(data@),
            rel@ == rel_path@,
            sep == '/' || sep == '\\',
            alt@ == replace_char(rel_path@, '/', sep),
            by_suffix(ev, rel_path@, sep) == by_suffix(ev.skip(i as int), rel_path@, sep),
        decreases data.len() - i,
    {
        assert(ev.skip(i as int)[0] == ev[i as int]);
        assert(ev.skip(i as int).skip(1) =~= ev.skip(i + 1));
        let key = chars_of(data[i].0.as_str());
        if ends_with(&key, &rel) || ends_with(&key, &alt) {
            assert(by_suffix(ev, rel_path@, sep) == data[i as int].1);
            return data[i].1;
        }
        i = i + 1;
    }
    assert(ev.skip(i as int) =~= Seq::<(Seq<char>, FileStats)>::empty());
    assert(by_suffix(ev, rel_path@, sep) == FileStats { calls: 0, last_call: 0 });
    FileStats { calls: 0, last_call: 0 }
}

/// The stats of the first entry whose key is `key`, or zero.
pub open spec fn stats_of(data: Seq<(Seq<char>, FileStats)>, key: Seq<char>) -> FileStats
    decreases data.len(),
{
    if data.len() == 0 {
        FileStats { calls: 0, last_call: 0 }
    } else if data[0].0 == key {
        data[0].1
    } else {
        stats_of(data.skip(1), key)
    }
}

fn position_of(data: &Vec<(String, FileStats)>, key: &Vec<char>) -> (r: Option<usize>)
    ensures
        r is None ==> forall|j: int| 0 <= j < data@.len() ==> data@[j].0@ != key@,
        r matches Some(i) ==> i < data@.len() && data@[i as int].0@ == key@ && forall|j: int|
            0 <= j < i ==> data@[j].0@ != key@,
{
    let mut i: usize = 0;
    while i < data.len()
        invariant
            i <= data.len(),
            forall|j: int| 0 <= j < i ==> data@[j].0@ != key@,
        decreases data.len() - i,
    {
        if crate::differ::vec_eq(&chars_of(data[i].0.as_str()), key) {
            return Some(i);
        }
        i = i + 1;
    }
    None
}

proof fn lemma_stats_of(data: Seq<(Seq<char>, FileStats)>, key: Seq<char>, i: int)
    requires
        0 <= i <= data.len(),
        forall|j: int| 0 <= j < i ==> data[j].0 != key,
    ensures
        stats_of(data, key) == stats_of(data.skip(i), key),
    decreases i,
{
    if i > 0 {
        assert(data.skip(1).skip(i - 1) =~= data.skip(i));
        lemma_stats_of(data.skip(1), key, i - 1);
    } else {
        assert(data.skip(0) =~= data);
    }
}

/// Get the stats recorded under `key` (a canonical path).
pub fn get(key: &str, data: &Vec<(String, FileStats)>) -> (r: FileStats)
    ensures
        r == stats_of(entries_view(data@), key@),
{
    let k = chars_of(key);
    let ghost ev = entries_view(data@);
    match position_of(data, &k) {
        Some(i) => {
            proof {
                lemma_stats_of(ev, key@, i as int);
                assert(ev.skip(i as int)[0] == ev[i as int]);
            }
            data[i].1
        },
        None => {
            proof {
                lemma_stats_of(ev, key@, ev.len() as int);
                assert(ev.skip(ev.len() as int) =~= Seq::<(Seq<char>, FileStats)>::empty());
            }
            FileStats { calls: 0, last_call: 0 }
        },
    }
}

/// Count one more call of the file recorded under `key`, at time `now`: its
/// entry is created with no calls when there is none.
pub fn increment(data: &mut Vec<(String, FileStats)>, key: &str, now: u64)
    requires
        stats_of(entries_view(old(data)@), key@).calls < usize::MAX,
    ensures
        stats_of(entries_view(final(data)@), key@) == (FileStats {
            calls: (stats_of(entries_view(old(data)@), key@).calls + 1) as usize,
            last_call: now,
        }),
        forall|k: Seq<char>| k != key@ ==> stats_of(entries_view(final(data)@), k) == stats_of(
            entries_view(old(data)@),
            k,
        ),
{
    let k = chars_of(key);
    let ghost ev = entries_view(data@);
    match position_of(data, &k) {
        Some(i) => {
            proof {
                lemma_stats_of(ev, key@, i as int);
                assert(ev.skip(i as int)[0] == ev[i as int]);
            }
            let (name, st) = data.remove(i);
            let ghost after_remove = entries_view(data@);
            data.insert(i, (name, FileStats { calls: st.calls + 1, last_call: now }));
            let ghost nv = entries_view(data@);
            proof {
                assert(nv =~= ev.update(i as int, (key@, FileStats { calls: (st.calls + 1) as usize, last_call: now })));
                lemma_stats_of(nv, key@, i as int);
                assert(nv.skip(i as int)[0] == nv[i as int]);
                assert forall|q: Seq<char>| q != key@ implies stats_of(nv, q) == stats_of(ev, q) by {
                    lemma_stats_update(ev, i as int, key@, (key@, FileStats { calls: (st.calls + 1) as usize, last_call: now }), q);
                }
            }
        },
        None => {
            proof {
                lemma_stats_of(ev, key@, ev.len() as int);
                assert(ev.skip(ev.len() as int) =~= Seq::<(Seq<char>, FileStats)>::empty());
            }
            data.push((to_string(&k), FileStats { calls: 1, last_call: now }));
            let ghost nv = entries_view(data@);
            proof {
                assert(nv =~= ev.push((key@, FileStats { calls: 1, last_call: now })));
                lemma_stats_push(ev, (key@, FileStats { calls: 1, last_call: now }), key@);
                assert(!has_key(ev, key@));
                assert forall|q: Seq<char>| q != key@ implies stats_of(nv, q) == stats_of(ev, q) by {
                    lemma_stats_push(ev, (key@, FileStats { calls: 1, last_call: now }), q);
                }
            }
        },
    }
}

proof fn lemma_stats_update(
    ev: Seq<(Seq<char>, FileStats)>,
    i: int,
    key: Seq<char>,
    e: (Seq<char>, FileStats),
    q: Seq<char>,
)
    requires
        0 <= i < ev.len(),
        ev[i].0 == key,
        e.0 == key,
        q != key,
    ensures
        stats_of(ev.update(i, e), q) == stats_of(ev, q),
    decreases ev.len(),
{
    if i > 0 {
        assert(ev.update(i, e).skip(1) =~= ev.skip(1).update(i - 1, e));
        lemma_stats_update(ev.skip(1), i - 1, key, e, q);
    } else {
        assert(ev.update(i, e).skip(1) =~= ev.skip(1));
    }
}

pub open spec fn has_key(ev: Seq<(Seq<char>, FileStats)>, q: Seq<char>) -> bool {
    exists|j: int| 0 <= j < ev.len() && ev[j].0 == q
}

proof fn lemma_stats_push(ev: Seq<(Seq<char>, FileStats)>, e: (Seq<char>, FileStats), q: Seq<char>)
    ensures
        !has_key(ev, q) ==> stats_of(ev, q) == (FileStats { calls: 0, last_call: 0 }),
        stats_of(ev.push(e), q) == (if has_key(ev, q) {
            stats_of(ev, q)
        } else if e.0 == q {
            e.1
        } else {
            FileStats { calls: 0, last_call: 0 }
        }),
    decreases ev.len(),
{
    if ev.len() > 0 {
        assert(ev.push(e).skip(1) =~= ev.skip(1).push(e));
        assert(ev.push(e)[0] == ev[0]);
        assert(stats_of(ev.push(e), q) == if ev[0].0 == q {
            ev[0].1
        } else {
            stats_of(ev.skip(1).push(e), q)
        });
        assert(stats_of(ev, q) == if ev[0].0 == q {
            ev[0].1
        } else {
            stats_of(ev.skip(1), q)
        });
        lemma_stats_push(ev.skip(1), e, q);
        if ev[0].0 != q {
            if has_key(ev.skip(1), q) {
                let j = choose|j: int| 0 <= j < ev.skip(1).len() && ev.skip(1)[j].0 == q;
                assert(ev[j + 1].0 == q);
            }
            if has_key(ev, q) {
                let j = choose|j: int| 0 <= j < ev.len() && ev[j].0 == q;
                assert(ev.skip(1)[j - 1].0 == q);
            }
        } else {
            assert(has_key(ev, q));
        }
    } else {
        assert(ev.push(e)[0] == e);
        assert(ev.push(e).skip(1) =~= Seq::<(Seq<char>, FileStats)>::empty());
        assert(stats_of(ev.push(e).skip(1), q) == FileStats { calls: 0, last_call: 0 });
        assert(!has_key(ev, q));
    }
}

/// Human-readable time since `ts`, seen at `now` (both in seconds).
pub open spec fn ago(ts: u64, now: u64) -> Seq<char> {
    if ts == 0 || ts > now {
        "unknown"@
    } else {
        let diff = (now - ts) as nat;
        if diff < 60 {
            dec(diff) + "s ago"@
        } else if diff < 3600 {
            dec(diff / 60) + "m ago"@
        } else if diff < 86400 {
            dec(diff / 3600) + "h ago"@
        } else {
            dec(diff / 86400) + "d ago"@
        }
    }
}

/// Format the time since `ts` as seen at `now`.
pub fn format_ago_at(ts: u64, now: u64) -> (r: String)
    ensures
        r@ == ago(ts, now),
{
    if ts == 0 || ts > now {
        return String::from_str("unknown");
    }
    let diff = now - ts;
    let (n, unit) = if diff < 60 {
        (diff, "s ago")
    } else if diff < 3600 {
        (diff / 60, "m ago")
    } else if diff < 86400 {
        (diff / 3600, "h ago")
    } else {
        (diff / 86400, "d ago")
    };
    let mut v = crate::text::decimal_u64(n);
    push_str(&mut v, unit);
    to_string(&v)
}

/// `SystemTime::now().duration_since(UNIX_EPOCH)` (zero before the epoch),
/// as whole seconds and the nanoseconds past them. Nothing is claimed of the
/// clock's reading; `subsec_nanos` is documented to stay below one billion.
#[verifier::external_body]
pub(crate) fn unix_time() -> (r: (u64, u32))
    ensures
        r.1 < 1_000_000_000,
{
    let d = std::time::SystemTime::now().duration_since(std::time::UNIX_EPOCH).unwrap_or_default();
    (d.as_secs(), d.subsec_nanos())
}

/// Format seconds-ago as human-readable relative time, by the system clock.
pub fn format_ago(ts: u64) -> (r: String)
    ensures
        exists|now: u64| r@ == ago(ts, now),
{
    let now = unix_time().0;
    format_ago_at(ts, now)
}

} // verus!

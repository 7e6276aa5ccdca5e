//! Scanning support: which directory entries count as media files, and
//! turning a file's modification timestamp into a local calendar date.
//!
//! The filesystem itself is read outside the library; this module works
//! on plain values (file names as strings, timestamps as seconds since
//! the Unix epoch).

use vstd::prelude::*;

use crate::date::Date;
use chrono::Datelike;

verus! {

/// A scanned media file: its file name and its last-modified local
/// calendar date.
pub struct MediaFile {
    pub name: String,
    pub date: Date,
}

/// ASCII lowercase of a character: `A`..`Z` map to `a`..`z`, everything
/// else is unchanged.
pub open spec fn lower_char(c: char) -> char {
    if 65 <= c as u32 && c as u32 <= 90 {
        ((c as u32 + 32) as u8) as char
    } else {
        c
    }
}

/// Character-wise ASCII lowercase of a sequence.
pub open spec fn lower_seq(s: Seq<char>) -> Seq<char> {
    s.map_values(|c: char| lower_char(c))
}

/// The supported media extensions, compared case-insensitively:
/// `jpg`, `jpeg` and `mp4`.
pub open spec fn supported_extension(e: Seq<char>) -> bool {
    ||| lower_seq(e) == seq!['j', 'p', 'g']
    ||| lower_seq(e) == seq!['j', 'p', 'e', 'g']
    ||| lower_seq(e) == seq!['m', 'p', '4']
}

/// `i` is the position of the last `.` in `s`, and not the leading
/// character (a name that starts with its only `.` is a hidden file
/// with no extension).
pub open spec fn is_last_dot(s: Seq<char>, i: int) -> bool {
    &&& 0 < i < s.len()
    &&& s[i] == '.'
    &&& forall|j: int| i < j < s.len() ==> s[j] != '.'
}

/// The characters after position `i`.
pub open spec fn extension_at(s: Seq<char>, i: int) -> Seq<char> {
    s.subrange(i + 1, s.len() as int)
}

/// The file name has an extension and it is a supported media extension.
pub open spec fn has_supported_extension(s: Seq<char>) -> bool {
    exists|i: int| is_last_dot(s, i) && supported_extension(extension_at(s, i))
}

fn lower_char_exec(c: char) -> (r: char)
    ensures
        r == lower_char(c),
{
    let u = c as u32;
    if 65 <= u && u <= 90 {
        ((u + 32) as u8) as char
    } else {
        c
    }
}

fn matches3(name: &str, start: usize, a: char, b: char, c: char) -> (r: bool)
    requires
        start + 3 == name@.len(),
        name@.len() <= usize::MAX,
    ensures
        r == (lower_seq(name@.subrange(start as int, name@.len() as int)) == seq![a, b, c]),
{
    let r = lower_char_exec(name.get_char(start)) == a
        && lower_char_exec(name.get_char(start + 1)) == b
        && lower_char_exec(name.get_char(start + 2)) == c;
    proof {
        let e = name@.subrange(start as int, name@.len() as int);
        let le = lower_seq(e);
        assert(le[0] == lower_char(name@[start as int]));
        assert(le[1] == lower_char(name@[start as int + 1]));
        assert(le[2] == lower_char(name@[start as int + 2]));
        if r {
            assert(le =~= seq![a, b, c]);
        } else {
            assert(le != seq![a, b, c]) by {
                if le == seq![a, b, c] {
                    assert(le[0] == a && le[1] == b && le[2] == c);
                }
            }
        }
    }
    r
}

fn matches4(name: &str, start: usize, a: char, b: char, c: char, d: char) -> (r: bool)
    requires
        start + 4 == name@.len(),
        name@.len() <= usize::MAX,
    ensures
        r == (lower_seq(name@.subrange(start as int, name@.len() as int)) == seq![a, b, c, d]),
{
    let r = lower_char_exec(name.get_char(start)) == a
        && lower_char_exec(name.get_char(start + 1)) == b
        && lower_char_exec(name.get_char(start + 2)) == c
        && lower_char_exec(name.get_char(start + 3)) == d;
    proof {
        let e = name@.subrange(start as int, name@.len() as int);
        let le = lower_seq(e);
        assert(le[0] == lower_char(name@[start as int]));
        assert(le[1] == lower_char(name@[start as int + 1]));
        assert(le[2] == lower_char(name@[start as int + 2]));
        assert(le[3] == lower_char(name@[start as int + 3]));
        if r {
            assert(le =~= seq![a, b, c, d]);
        } else {
            assert(le != seq![a, b, c, d]) by {
                if le == seq![a, b, c, d] {
                    assert(le[0] == a && le[1] == b && le[2] == c && le[3] == d);
                }
            }
        }
    }
    r
}

/// Whether a file name names a supported media file: its extension
/// (the part after the last `.`, which must not be the leading
/// character) is `jpg`, `jpeg` or `mp4`, case-insensitively.
pub fn is_image_file(name: &str) -> (r: bool)
    ensures
        r == has_supported_extension(name@),
{
    let n = name.unicode_len();
    let mut j: usize = 0;
    let mut dot: usize = 0;
    let mut found = false;
    while j < n
        invariant
            n == name@.len(),
            j <= n,
            found ==> dot < j && name@[dot as int] == '.' && (forall|t: int|
                dot < t < j ==> name@[t] != '.'),
            !found ==> forall|t: int| 0 <= t < j ==> name@[t] != '.',
        decreases n - j,
    {
        if name.get_char(j) == '.' {
            dot = j;
            found = true;
        }
        j += 1;
    }
    if !found || dot == 0 {
        proof {
            assert forall|i: int| !(is_last_dot(name@, i) && supported_extension(
                extension_at(name@, i),
            )) by {
                if is_last_dot(name@, i) {
                    assert(name@[i] == '.');
                }
            }
        }
        return false;
    }
    proof {
        assert(is_last_dot(name@, dot as int));
        assert forall|i: int| is_last_dot(name@, i) ==> i == dot as int by {
            if is_last_dot(name@, i) {
                if i < dot as int {
                    assert(name@[dot as int] == '.');
                } else if i > dot as int {
                    assert(name@[i] != '.');
                }
            }
        }
    }
    let elen = n - dot - 1;
    let ghost e = extension_at(name@, dot as int);
    proof {
        assert(lower_seq(e).len() == e.len());
        assert(lower_seq(e).len() == elen as int);
    }
    let r = if elen == 3 {
        matches3(name, dot + 1, 'j', 'p', 'g') || matches3(name, dot + 1, 'm', 'p', '4')
    } else if elen == 4 {
        matches4(name, dot + 1, 'j', 'p', 'e', 'g')
    } else {
        false
    };
    proof {
        if r {
            assert(has_supported_extension(name@));
        } else {
            assert forall|i: int| !(is_last_dot(name@, i) && supported_extension(
                extension_at(name@, i),
            )) by {
                if is_last_dot(name@, i) {
                    assert(i == dot as int);
                }
            }
        }
    }
    r
}

/// The first second this library places on the calendar:
/// 0002-01-01T00:00:00 UTC.
pub const EARLIEST_PLACEABLE_SECS: i64 = -62104060800;

/// The last second this library places on the calendar:
/// 9998-12-31T23:59:59 UTC.
pub const LATEST_PLACEABLE_SECS: i64 = 253370764799;

/// The Unix timestamps this library places on the calendar: those whose
/// UTC year lies in 2..=9998. Time-zone offsets are strictly shorter
/// than one day, so every local date of such a timestamp has a year of
/// one to four digits, in every time zone.
pub open spec fn in_placeable_band(secs: i64) -> bool {
    EARLIEST_PLACEABLE_SECS <= secs <= LATEST_PLACEABLE_SECS
}

/// Relies on chrono's `DateTime::from_timestamp`, `Local` time-zone
/// conversion and the `Datelike` accessors. For the admitted seconds
/// (UTC year 2..=9998) `from_timestamp` returns `Some` — it fails only
/// on seconds whose day count leaves chrono's calendar — and the local
/// conversion stays on that calendar, since every offset is strictly
/// shorter than one day (`FixedOffset::east_opt`); for the same reason
/// the local year stays within 1..=9999. Month and day of a date are
/// 1-based (at most 12 and 31). The result depends on the machine's
/// local time zone, so nothing more is claimed of which date comes back.
#[verifier::external_body]
fn local_civil_date(secs: i64) -> (r: Option<(i32, u32, u32)>)
    requires
        in_placeable_band(secs),
    ensures
        r is Some,
        r matches Some(p) ==> 1 <= p.0 <= 9999 && 1 <= p.1 <= 12 && 1 <= p.2 <= 31,
{
    match chrono::DateTime::from_timestamp(secs, 0) {
        None => None,
        Some(utc) => {
            let local = utc.with_timezone(&chrono::Local).date_naive();
            Some((local.year(), local.month(), local.day()))
        },
    }
}

/// The local calendar date of a Unix timestamp. Exactly the timestamps
/// of the placeable band (UTC year 2..=9998) are placed; the one-day
/// margin keeps every local year at four digits in every time zone.
/// Anything earlier or later is rejected.
pub fn date_of_timestamp(secs: i64) -> (r: Option<Date>)
    ensures
        r is Some <==> in_placeable_band(secs),
        r matches Some(d) ==> d.wf(),
{
    if secs < EARLIEST_PLACEABLE_SECS || secs > LATEST_PLACEABLE_SECS {
        return None;
    }
    match local_civil_date(secs) {
        None => None,
        Some((y, m, d)) => Some(Date { year: y as u16, month: m as u8, day: d as u8 }),
    }
}

/// The media files `r` are drawn from `entries` in order: a strictly
/// increasing selection of entry indices gives, entry by entry, the
/// name of each media file.
pub open spec fn is_ordered_selection(
    sel: Seq<int>,
    entries: Seq<(String, i64)>,
    r: Seq<MediaFile>,
) -> bool {
    &&& sel.len() == r.len()
    &&& forall|a: int, b: int| 0 <= a < b < sel.len() ==> #[trigger] sel[a] < #[trigger] sel[b]
    &&& forall|k: int| 0 <= k < sel.len() ==> 0 <= #[trigger] sel[k] < entries.len()
    &&& forall|k: int| 0 <= k < sel.len() ==> (#[trigger] r[k]).name@ == entries[sel[k]].0@
}

/// No placeable entry is dropped: every entry whose timestamp lies in
/// the placeable band is picked by the selection.
pub open spec fn selection_complete(sel: Seq<int>, entries: Seq<(String, i64)>) -> bool {
    forall|j: int|
        0 <= j < entries.len() && in_placeable_band((#[trigger] entries[j]).1) ==> sel.contains(j)
}

/// Turns scanned entries (file name, modification time as Unix seconds)
/// into media files with well-formed local dates. Exactly the entries
/// whose timestamp lies outside the placeable band are skipped; the
/// rest keep their names and their order.
pub fn media_from_entries(entries: Vec<(String, i64)>) -> (r: Vec<MediaFile>)
    ensures
        r@.len() <= entries@.len(),
        forall|k: int| 0 <= k < r@.len() ==> (#[trigger] r@[k]).date.wf(),
        exists|sel: Seq<int>|
            is_ordered_selection(sel, entries@, r@) && selection_complete(sel, entries@),
{
    let mut r: Vec<MediaFile> = Vec::new();
    let mut k: usize = 0;
    let ghost mut sel: Seq<int> = Seq::empty();
    while k < entries.len()
        invariant
            k <= entries@.len(),
            r@.len() <= k,
            forall|t: int| 0 <= t < r@.len() ==> (#[trigger] r@[t]).date.wf(),
            is_ordered_selection(sel, entries@, r@),
            forall|t: int| 0 <= t < sel.len() ==> #[trigger] sel[t] < k,
            forall|j: int|
                0 <= j < k && in_placeable_band((#[trigger] entries@[j]).1) ==> sel.contains(j),
        decreases entries@.len() - k,
    {
        match date_of_timestamp(entries[k].1) {
            Some(date) => {
                let name = entries[k].0.clone();
                r.push(MediaFile { name, date });
                proof {
                    let prev_sel = sel;
                    sel = sel.push(k as int);
                    assert(r@[r@.len() - 1].name@ == entries@[k as int].0@);
                    assert forall|j: int|
                        0 <= j < k + 1 && in_placeable_band(
                            (#[trigger] entries@[j]).1,
                        ) implies sel.contains(j) by {
                        if j < k {
                            assert(prev_sel.contains(j));
                            let t = choose|t: int| 0 <= t < prev_sel.len() && prev_sel[t] == j;
                            assert(sel[t] == j);
                        } else {
                            assert(sel[sel.len() - 1] == k as int);
                        }
                    }
                }
            },
            None => {
                proof {
                    assert(!in_placeable_band(entries@[k as int].1));
                }
            },
        }
        k += 1;
    }
    proof {
        assert(is_ordered_selection(sel, entries@, r@) && selection_complete(sel, entries@));
    }
    r
}

} // verus!

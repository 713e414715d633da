//! What the library views show: release versions, clock and duration
//! labels, the album grid's rows, the search filter, the status summary,
//! the row indexes artwork is written through, and the image cache.
use vstd::prelude::*;
use crate::text::{chars_of, lower, lower_of, string_of, trim, trim_of, find_from, lemma_find_from_bounds, lemma_find_from_is, slice_of, contains, contains_exec, views};
use crate::lrc::{parse_u64, parse_u64_of};
use crate::providers::{decimal, decimal_of, push_all};
use crate::model::{LyricsStatus, Track};
use crate::memo::KeyedMemo;
use crate::art::{chars_lt, chars_lt_exec, lemma_chars_lt_irreflexive, lemma_chars_lt_total, lemma_chars_lt_transitive};
use crate::text::same_chars;

verus! {

// ---------------------------------------------------------------------------
// Release versions
// ---------------------------------------------------------------------------

/// The pieces of `s` between the `c`s, from index `i` on, as `str::split`
/// yields them (empty pieces included).
pub open spec fn split_from(s: Seq<char>, c: char, i: int) -> Seq<Seq<char>>
    decreases s.len() - i,
{
    if i < 0 || i > s.len() {
        Seq::empty()
    } else {
        let k = find_from(s, c, i);
        proof {
            lemma_find_from_bounds(s, c, i);
        }
        if k >= s.len() {
            seq![s.subrange(i, s.len() as int)]
        } else {
            seq![s.subrange(i, k)] + split_from(s, c, k + 1)
        }
    }
}

/// What `u32::from_str` reads from `s`.
pub open spec fn parse_u32(s: Seq<char>) -> Option<u32> {
    match parse_u64(s) {
        Some(v) => if v <= u32::MAX {
            Some(v as u32)
        } else {
            None
        },
        None => None,
    }
}

/// Every piece read as a number once trimmed, or `None` when one is not.
pub open spec fn parse_all(pieces: Seq<Seq<char>>) -> Option<Seq<u32>>
    decreases pieces.len(),
{
    if pieces.len() == 0 {
        Some(Seq::empty())
    } else {
        match (parse_all(pieces.drop_last()), parse_u32(trim(pieces.last()))) {
            (Some(v), Some(n)) => Some(v.push(n)),
            _ => None,
        }
    }
}

/// The dotted numbers of a version, `None` when any part is not a number.
pub open spec fn version_numbers(v: Seq<char>) -> Option<Seq<u32>> {
    parse_all(split_from(v, '.', 0))
}

/// The `i`-th number of a version, 0 past its end.
pub open spec fn number_at(v: Seq<u32>, i: int) -> u32 {
    if 0 <= i < v.len() {
        v[i]
    } else {
        0
    }
}

/// Whether `a` is later than `b` from position `i` on: the first position
/// where they differ decides, missing numbers counting as 0.
pub open spec fn later_from(a: Seq<u32>, b: Seq<u32>, i: int) -> bool
    decreases a.len() + b.len() - i,
{
    if i < 0 || (i >= a.len() && i >= b.len()) {
        false
    } else if number_at(a, i) != number_at(b, i) {
        number_at(a, i) > number_at(b, i)
    } else {
        later_from(a, b, i + 1)
    }
}

/// Whether the release `candidate` is newer than `current`; a version either
/// side cannot read is never newer.
pub open spec fn version_newer(candidate: Seq<char>, current: Seq<char>) -> bool {
    match (version_numbers(candidate), version_numbers(current)) {
        (Some(a), Some(b)) => later_from(a, b, 0),
        _ => false,
    }
}

/// The pieces of `s` between the `c`s.
pub fn split_on(s: &[char], c: char) -> (r: Vec<Vec<char>>)
    ensures
        views(r@) == split_from(s@, c, 0),
{
    let mut r: Vec<Vec<char>> = Vec::new();
    let mut start: usize = 0;
    let mut i: usize = 0;
    while i < s.len()
        invariant
            start <= i <= s.len(),
            forall|j: int| start <= j < i ==> s@[j] != c,
            views(r@) + split_from(s@, c, start as int) == split_from(s@, c, 0),
        decreases s.len() - i,
    {
        if s[i] == c {
            proof {
                lemma_find_from_is(s@, c, start as int, i as int);
            }
            let piece = slice_of(s, start, i);
            let ghost before = r@;
            r.push(piece);
            assert(views(r@) =~= views(before).push(piece@));
            assert(split_from(s@, c, start as int) == seq![piece@] + split_from(s@, c, i + 1));
            assert(views(r@) + split_from(s@, c, i + 1) =~= views(before) + split_from(
                s@,
                c,
                start as int,
            ));
            start = i + 1;
        }
        i += 1;
    }
    proof {
        lemma_find_from_is(s@, c, start as int, s.len() as int);
    }
    let piece = slice_of(s, start, s.len());
    let ghost before = r@;
    r.push(piece);
    assert(views(r@) =~= views(before).push(piece@));
    assert(views(r@) =~= views(before) + split_from(s@, c, start as int));
    r
}

pub fn parse_u32_of(s: &[char]) -> (r: Option<u32>)
    ensures
        r == parse_u32(s@),
{
    match parse_u64_of(s) {
        Some(v) => if v <= 0xffff_ffff {
            Some(v as u32)
        } else {
            None
        },
        None => None,
    }
}

fn version_numbers_of(v: &str) -> (r: Option<Vec<u32>>)
    ensures
        match version_numbers(v@) {
            Some(ns) => r is Some && r->0@ == ns,
            None => r is None,
        },
{
    let chars = chars_of(v);
    let pieces = split_on(&chars, '.');
    let ghost ps = views(pieces@);
    assert(ps == split_from(v@, '.', 0));
    let mut out: Vec<u32> = Vec::new();
    let mut i: usize = 0;
    while i < pieces.len()
        invariant
            i <= pieces.len(),
            ps == views(pieces@),
            ps == split_from(v@, '.', 0),
            parse_all(ps.take(i as int)) == Some(out@),
        decreases pieces.len() - i,
    {
        proof {
            assert(ps.take(i + 1).drop_last() =~= ps.take(i as int));
            assert(ps.take(i + 1).last() == pieces@[i as int]@);
        }
        let trimmed = trim_of(&pieces[i]);
        match parse_u32_of(&trimmed) {
            Some(n) => {
                out.push(n);
            },
            None => {
                proof {
                    assert(parse_u32(trim(ps.take(i + 1).last())) is None);
                    assert(parse_all(ps.take(i + 1)) is None);
                    lemma_parse_all_fails(ps, i as int);
                }
                return None;
            },
        }
        i += 1;
    }
    assert(ps.take(i as int) =~= ps);
    Some(out)
}

proof fn lemma_parse_all_fails(ps: Seq<Seq<char>>, i: int)
    requires
        0 <= i < ps.len(),
        parse_all(ps.take(i + 1)) is None,
    ensures
        parse_all(ps) is None,
    decreases ps.len() - i,
{
    if i + 1 < ps.len() {
        assert(ps.take(i + 2).drop_last() =~= ps.take(i + 1));
        lemma_parse_all_fails(ps, i + 1);
    } else {
        assert(ps.take(i + 1) =~= ps);
    }
}

/// Whether the release tagged `candidate` is newer than `current`, comparing
/// dotted numbers. Anything it cannot read (a pre-release suffix, say)
/// counts as not newer, so it never reports an update it does not
/// understand.
pub fn version_is_newer(candidate: &str, current: &str) -> (r: bool)
    ensures
        r == version_newer(candidate@, current@),
{
    let a = match version_numbers_of(candidate) {
        Some(a) => a,
        None => return false,
    };
    let b = match version_numbers_of(current) {
        Some(b) => b,
        None => return false,
    };
    assert(version_newer(candidate@, current@) == later_from(a@, b@, 0));
    let n = if a.len() > b.len() {
        a.len()
    } else {
        b.len()
    };
    let mut i: usize = 0;
    while i < n
        invariant
            i <= n,
            n == if a@.len() > b@.len() {
                a@.len()
            } else {
                b@.len()
            },
            later_from(a@, b@, 0) == later_from(a@, b@, i as int),
            version_newer(candidate@, current@) == later_from(a@, b@, 0),
        decreases n - i,
    {
        let x: u32 = if i < a.len() {
            a[i]
        } else {
            0
        };
        let y: u32 = if i < b.len() {
            b[i]
        } else {
            0
        };
        assert(x == number_at(a@, i as int));
        assert(y == number_at(b@, i as int));
        if x != y {
            return x > y;
        }
        i += 1;
    }
    false
}

/// No release is newer than itself, and of two releases at most one is
/// newer than the other.
pub proof fn newer_is_a_strict_order(a: Seq<char>, b: Seq<char>)
    ensures
        !version_newer(a, a),
        !(version_newer(a, b) && version_newer(b, a)),
{
    match (version_numbers(a), version_numbers(b)) {
        (Some(x), Some(y)) => {
            lemma_later_irreflexive(x, 0);
            lemma_later_asymmetric(x, y, 0);
        },
        (Some(x), None) => {
            lemma_later_irreflexive(x, 0);
        },
        _ => {},
    }
}

proof fn lemma_later_irreflexive(a: Seq<u32>, i: int)
    ensures
        !later_from(a, a, i),
    decreases a.len() + a.len() - i,
{
    if !(i < 0 || i >= a.len()) {
        lemma_later_irreflexive(a, i + 1);
    }
}

proof fn lemma_later_asymmetric(a: Seq<u32>, b: Seq<u32>, i: int)
    ensures
        !(later_from(a, b, i) && later_from(b, a, i)),
    decreases a.len() + b.len() - i,
{
    if !(i < 0 || (i >= a.len() && i >= b.len())) && number_at(a, i) == number_at(b, i) {
        lemma_later_asymmetric(a, b, i + 1);
    }
}


/// `s` without the `v` and `V` it starts with.
pub open spec fn without_leading_v(s: Seq<char>) -> Seq<char>
    decreases s.len(),
{
    if s.len() > 0 && (s[0] == 'v' || s[0] == 'V') {
        without_leading_v(s.drop_first())
    } else {
        s
    }
}

fn without_leading_v_of(s: &str) -> (r: Vec<char>)
    ensures
        r@ == without_leading_v(s@),
{
    let c = chars_of(s);
    let mut i: usize = 0;
    assert(c@.subrange(0, c@.len() as int) =~= c@);
    while i < c.len() && (c[i] == 'v' || c[i] == 'V')
        invariant
            i <= c@.len(),
            without_leading_v(c@.subrange(i as int, c@.len() as int)) == without_leading_v(c@),
        decreases c.len() - i,
    {
        assert(c@.subrange(i as int, c@.len() as int).drop_first() =~= c@.subrange(i + 1, c@.len() as int));
        i += 1;
    }
    slice_of(&c, i, c.len())
}

/// What the release check says once the latest release's tag is known: no
/// tag means nothing was published; a tag (its leading `v`s aside) newer
/// than `current` is announced; anything else is up to date.
pub fn release_status(tag: Option<&str>, current: &str) -> (r: String)
    ensures
        r@ == match tag {
            None => "No releases published yet"@,
            Some(t) => if version_newer(without_leading_v(t@), current@) {
                "Version "@ + t@ + " is available"@
            } else {
                "Up to date (v"@ + current@ + ")"@
            },
        },
{
    let t = match tag {
        None => return string_of(&chars_of("No releases published yet")),
        Some(t) => t,
    };
    let bare = string_of(&without_leading_v_of(t));
    if version_is_newer(bare.as_str(), current) {
        let mut out = chars_of("Version ");
        push_all(&mut out, &chars_of(t));
        push_all(&mut out, &chars_of(" is available"));
        string_of(&out)
    } else {
        let mut out = chars_of("Up to date (v");
        push_all(&mut out, &chars_of(current));
        push_all(&mut out, &chars_of(")"));
        string_of(&out)
    }
}

/// What the release check says when the reply's HTTP status ends it: 404
/// is "nothing published", any other status outside 200..=299 a failure
/// shown with its `status_text`; `None` when the reply is to be read.
pub fn release_reply_status(status: u16, status_text: &str) -> (r: Option<String>)
    ensures
        match r {
            Some(line) => if status == 404 {
                line@ == "No releases published yet"@
            } else {
                (status < 200 || status > 299) && line@ == "GitHub returned "@ + status_text@ + " \u{2014} try again later"@
            },
            None => 200 <= status <= 299,
        },
{
    if status == 404 {
        Some(string_of(&chars_of("No releases published yet")))
    } else if status < 200 || status > 299 {
        let mut out = chars_of("GitHub returned ");
        push_all(&mut out, &chars_of(status_text));
        push_all(&mut out, &chars_of(" \u{2014} try again later"));
        Some(string_of(&out))
    } else {
        None
    }
}

// ---------------------------------------------------------------------------
// The album grid
// ---------------------------------------------------------------------------

/// Cards per row of the album grid.
pub const ALBUM_GRID_COLUMNS: usize = 5;

/// Rows needed for `count` cards, `ALBUM_GRID_COLUMNS` to a row.
pub open spec fn rows_needed(count: nat) -> nat {
    (count + 4) / 5
}

/// How many row indices the grid lists: the rows needed, as an `i32`.
pub open spec fn grid_row_count(count: nat) -> nat {
    let rows = (rows_needed(count) as usize) as i32;
    if rows > 0 {
        rows as nat
    } else {
        0
    }
}

/// Row indices for the album grid, `0, 1, ...`: one per row of
/// `ALBUM_GRID_COLUMNS` cards.
pub fn album_rows(album_count: usize) -> (r: Vec<i32>)
    ensures
        r@.len() == grid_row_count(album_count as nat),
        forall|k: int| 0 <= k < r@.len() ==> r@[k] == k,
{
    let rows: usize = album_count / ALBUM_GRID_COLUMNS + if album_count % ALBUM_GRID_COLUMNS != 0 {
        1
    } else {
        0
    };
    assert(rows == rows_needed(album_count as nat));
    assert((rows_needed(album_count as nat) as usize) == rows);
    let n = rows as i32;
    assert(grid_row_count(album_count as nat) == if n > 0 {
        n as nat
    } else {
        0
    });
    let mut out: Vec<i32> = Vec::new();
    let mut i: i32 = 0;
    while i < n
        invariant
            0 <= i <= if n > 0 {
                n as int
            } else {
                0
            },
            out@.len() == i,
            forall|k: int| 0 <= k < out@.len() ==> out@[k] == k,
        decreases n - i,
    {
        out.push(i);
        i += 1;
    }
    out
}

/// The grid has a row for every album and no row without one, for every
/// count whose rows an `i32` can number.
pub proof fn album_rows_cover_every_album(count: nat)
    requires
        count <= 5 * (i32::MAX as nat),
    ensures
        grid_row_count(count) * ALBUM_GRID_COLUMNS >= count,
        grid_row_count(count) * ALBUM_GRID_COLUMNS < count + ALBUM_GRID_COLUMNS,
{
    assert(rows_needed(count) <= i32::MAX);
    assert(((rows_needed(count) as usize) as i32) == rows_needed(count));
}

// ---------------------------------------------------------------------------
// Labels
// ---------------------------------------------------------------------------

/// `n` in decimal, at least two digits wide, as `{:02}` writes it.
pub open spec fn pad2(n: nat) -> Seq<char> {
    if n < 10 {
        seq!['0'] + decimal(n)
    } else {
        decimal(n)
    }
}

fn pad2_of(n: u64) -> (r: Vec<char>)
    ensures
        r@ == pad2(n as nat),
{
    let digits = decimal_of(n as u128);
    if n < 10 {
        let mut out = vec!['0'];
        push_all(&mut out, &digits);
        out
    } else {
        digits
    }
}

/// `m:ss` for a whole number of seconds.
pub open spec fn minutes_seconds(secs: nat) -> Seq<char> {
    decimal(secs / 60) + seq![':'] + pad2(secs % 60)
}

/// A playback position or length, `m:ss`.
pub fn format_time(secs: u64) -> (r: String)
    ensures
        r@ == minutes_seconds(secs as nat),
{
    let mut out = decimal_of((secs / 60) as u128);
    out.push(':');
    push_all(&mut out, &pad2_of(secs % 60));
    assert(out@ =~= minutes_seconds(secs as nat));
    string_of(&out)
}

/// `hh:mm:ss` of the UTC time of day `secs` seconds after the epoch.
pub open spec fn clock_text(secs: nat) -> Seq<char> {
    pad2((secs / 3600) % 24) + seq![':'] + pad2((secs / 60) % 60) + seq![':'] + pad2(secs % 60)
}

/// The time of day shown in the activity log, `hh:mm:ss` (UTC), for a time
/// given in seconds since the epoch.
pub fn current_timestamp(secs: u64) -> (r: String)
    ensures
        r@ == clock_text(secs as nat),
{
    let mut out = pad2_of((secs / 3600) % 24);
    out.push(':');
    push_all(&mut out, &pad2_of((secs / 60) % 60));
    out.push(':');
    push_all(&mut out, &pad2_of(secs % 60));
    assert(out@ =~= clock_text(secs as nat));
    string_of(&out)
}

/// A track's length as its row shows it: `m:ss`, or `--:--` when unknown.
pub open spec fn duration_text(duration_ms: Option<u64>) -> Seq<char> {
    match duration_ms {
        Some(ms) => minutes_seconds((ms / 1000) as nat),
        None => "--:--"@,
    }
}

pub fn duration_label(duration_ms: Option<u64>) -> (r: String)
    ensures
        r@ == duration_text(duration_ms),
{
    match duration_ms {
        Some(ms) => format_time(ms / 1000),
        None => string_of(&chars_of("--:--")),
    }
}

/// The image-cache key of an album's cover: `album:<name>`.
pub fn album_image_key(album: &str) -> (r: String)
    ensures
        r@ == "album:"@ + album@,
{
    let mut out = chars_of("album:");
    push_all(&mut out, &chars_of(album));
    string_of(&out)
}

/// The line under the playing track's title: `<artist> • <album>`.
pub fn track_subtitle(track: &Track) -> (r: String)
    ensures
        r@ == track.artist@ + " \u{2022} "@ + track.album@,
{
    let mut out = chars_of(track.artist.as_str());
    push_all(&mut out, &chars_of(" \u{2022} "));
    push_all(&mut out, &chars_of(track.album.as_str()));
    string_of(&out)
}

/// The artwork key of a track: its audio file's path.
pub fn track_art_key(audio_path: &str) -> (r: String)
    ensures
        r@ == audio_path@,
{
    string_of(&chars_of(audio_path))
}

// ---------------------------------------------------------------------------
// Summary and filter
// ---------------------------------------------------------------------------

/// How many of `tracks` have lyrics in the state `s`.
pub open spec fn count_with(tracks: Seq<Track>, s: LyricsStatus) -> nat
    decreases tracks.len(),
{
    if tracks.len() == 0 {
        0
    } else {
        count_with(tracks.drop_last(), s) + if tracks.last().status == s {
            1nat
        } else {
            0
        }
    }
}

proof fn lemma_count_with_bound(tracks: Seq<Track>, s: LyricsStatus)
    ensures
        count_with(tracks, s) <= tracks.len(),
    decreases tracks.len(),
{
    if tracks.len() > 0 {
        lemma_count_with_bound(tracks.drop_last(), s);
    }
}

proof fn lemma_counts_bound(tracks: Seq<Track>)
    ensures
        count_with(tracks, LyricsStatus::Synced) + count_with(tracks, LyricsStatus::Plain) <= tracks.len(),
    decreases tracks.len(),
{
    if tracks.len() > 0 {
        lemma_counts_bound(tracks.drop_last());
    }
}

/// `<n> tracks | <s> synced | <p> plain | <m> missing`, where "missing"
/// counts every track that has neither synced nor plain lyrics.
pub open spec fn summary_text(tracks: Seq<Track>) -> Seq<char> {
    let synced = count_with(tracks, LyricsStatus::Synced);
    let plain = count_with(tracks, LyricsStatus::Plain);
    decimal(tracks.len()) + " tracks | "@ + decimal(synced) + " synced | "@ + decimal(plain)
        + " plain | "@ + decimal((tracks.len() - synced - plain) as nat) + " missing"@
}

/// The status line under the library list.
pub fn build_summary(tracks: &[Track]) -> (r: String)
    ensures
        r@ == summary_text(tracks@),
{
    let mut synced: usize = 0;
    let mut plain: usize = 0;
    let mut i: usize = 0;
    while i < tracks.len()
        invariant
            i <= tracks.len(),
            synced == count_with(tracks@.take(i as int), LyricsStatus::Synced),
            plain == count_with(tracks@.take(i as int), LyricsStatus::Plain),
        decreases tracks.len() - i,
    {
        proof {
            assert(tracks@.take(i + 1).drop_last() =~= tracks@.take(i as int));
            lemma_counts_bound(tracks@.take(i as int));
        }
        match tracks[i].status {
            LyricsStatus::Synced => synced += 1,
            LyricsStatus::Plain => plain += 1,
            _ => {},
        }
        i += 1;
    }
    assert(tracks@.take(i as int) =~= tracks@);
    proof {
        lemma_counts_bound(tracks@);
    }
    let missing = tracks.len() - synced - plain;
    let mut out = decimal_of(tracks.len() as u128);
    push_all(&mut out, &chars_of(" tracks | "));
    push_all(&mut out, &decimal_of(synced as u128));
    push_all(&mut out, &chars_of(" synced | "));
    push_all(&mut out, &decimal_of(plain as u128));
    push_all(&mut out, &chars_of(" plain | "));
    push_all(&mut out, &decimal_of(missing as u128));
    push_all(&mut out, &chars_of(" missing"));
    assert(out@ =~= summary_text(tracks@));
    string_of(&out)
}

/// The status line under the library list as shown: the summary of the
/// whole library when nothing filters it, otherwise how many tracks the
/// filter shows.
pub fn library_status_line(tracks: &[Track], search: &str, status_filter: i32, shown: usize) -> (r: String)
    ensures
        r@ == if status_filter == 0 && search@.len() == 0 {
            summary_text(tracks@)
        } else {
            decimal(shown as nat) + " tracks (filtered)"@
        },
{
    if status_filter == 0 && search.is_empty() {
        build_summary(tracks)
    } else {
        let mut out = decimal_of(shown as u128);
        push_all(&mut out, &chars_of(" tracks (filtered)"));
        string_of(&out)
    }
}

/// Whether a track shows under the search text (already lower-cased) and the
/// status filter: `1` missing, `2` plain, `3` synced, anything else all.
pub open spec fn shows(track: Track, search_lower: Seq<char>, status_filter: i32) -> bool {
    let haystack = lower(track.title@) + seq![' '] + lower(track.artist@) + seq![' '] + lower(
        track.album@,
    );
    &&& (search_lower.len() == 0 || contains(haystack, search_lower))
    &&& match status_filter {
        1 => track.status == LyricsStatus::Missing,
        2 => track.status == LyricsStatus::Plain,
        3 => track.status == LyricsStatus::Synced,
        _ => true,
    }
}

/// `needle` found in `part` is found in `before + part + after`.
proof fn lemma_contains_within(before: Seq<char>, part: Seq<char>, after: Seq<char>, needle: Seq<char>)
    requires
        contains(part, needle),
    ensures
        contains(before + part + after, needle),
{
    let i = choose|i: int| crate::text::occurs_at(part, needle, i);
    let hay = before + part + after;
    let k = before.len() + i;
    assert(hay.subrange(k, k + needle.len()) =~= part.subrange(i, i + needle.len()));
    assert(crate::text::occurs_at(hay, needle, k));
}

/// The library's search looks in the title, the artist and the album alike:
/// without a status filter, a track shows whenever the lower-cased search
/// text occurs in its lower-cased title, artist or album, or the search is
/// empty; a status filter (1 missing, 2 plain, 3 synced) shows only tracks
/// of that status.
pub proof fn search_looks_in_title_artist_and_album(track: Track, search: Seq<char>, status_filter: i32)
    ensures
        lower(search).len() == 0 ==> shows(track, lower(search), 0),
        contains(lower(track.title@), lower(search)) ==> shows(track, lower(search), 0),
        contains(lower(track.artist@), lower(search)) ==> shows(track, lower(search), 0),
        contains(lower(track.album@), lower(search)) ==> shows(track, lower(search), 0),
        shows(track, lower(search), 1) <==> shows(track, lower(search), 0) && track.status == LyricsStatus::Missing,
        shows(track, lower(search), 2) <==> shows(track, lower(search), 0) && track.status == LyricsStatus::Plain,
        shows(track, lower(search), 3) <==> shows(track, lower(search), 0) && track.status == LyricsStatus::Synced,
        !(1 <= status_filter <= 3) ==> (shows(track, lower(search), status_filter) <==> shows(
            track,
            lower(search),
            0,
        )),
{
    let t = lower(track.title@);
    let a = lower(track.artist@);
    let b = lower(track.album@);
    let hay = t + seq![' '] + a + seq![' '] + b;
    let n = lower(search);
    if contains(t, n) {
        lemma_contains_within(Seq::empty(), t, seq![' '] + a + seq![' '] + b, n);
        assert(Seq::<char>::empty() + t + (seq![' '] + a + seq![' '] + b) =~= hay);
    }
    if contains(a, n) {
        lemma_contains_within(t + seq![' '], a, seq![' '] + b, n);
        assert(t + seq![' '] + a + (seq![' '] + b) =~= hay);
    }
    if contains(b, n) {
        lemma_contains_within(t + seq![' '] + a + seq![' '], b, Seq::empty(), n);
        assert(t + seq![' '] + a + seq![' '] + b + Seq::<char>::empty() =~= hay);
    }
}

/// The indices, in order, of the first `n` tracks that show.
pub open spec fn shown(tracks: Seq<Track>, search_lower: Seq<char>, status_filter: i32, n: int) -> Seq<
    usize,
>
    decreases n,
{
    if n <= 0 {
        Seq::empty()
    } else if shows(tracks[n - 1], search_lower, status_filter) {
        shown(tracks, search_lower, status_filter, n - 1).push((n - 1) as usize)
    } else {
        shown(tracks, search_lower, status_filter, n - 1)
    }
}

fn shows_exec(track: &Track, search_lower: &[char], status_filter: i32) -> (r: bool)
    ensures
        r == shows(*track, search_lower@, status_filter),
{
    if search_lower.len() > 0 {
        let mut haystack = lower_of(&chars_of(track.title.as_str()));
        haystack.push(' ');
        push_all(&mut haystack, &lower_of(&chars_of(track.artist.as_str())));
        haystack.push(' ');
        push_all(&mut haystack, &lower_of(&chars_of(track.album.as_str())));
        assert(haystack@ =~= lower(track.title@) + seq![' '] + lower(track.artist@) + seq![' ']
            + lower(track.album@));
        if !contains_exec(&haystack, search_lower) {
            return false;
        }
    }
    match status_filter {
        1 => track.status == LyricsStatus::Missing,
        2 => track.status == LyricsStatus::Plain,
        3 => track.status == LyricsStatus::Synced,
        _ => true,
    }
}

/// The list the library shows: the tracks, the indices of those shown, the
/// row selected among them, whether playback was on, and the tracks of the
/// open album and artist in the order their lists show them.
pub struct AppState {
    pub all_tracks: Vec<Track>,
    pub filtered_tracks: Vec<usize>,
    pub current_filtered_row: Option<usize>,
    pub was_playing: bool,
    pub album_detail_tracks: Vec<usize>,
    pub artist_detail_tracks: Vec<usize>,
}

impl AppState {
    pub fn new() -> (r: Self)
        ensures
            r.all_tracks@.len() == 0,
            r.filtered_tracks@.len() == 0,
            r.current_filtered_row is None,
            !r.was_playing,
            r.album_detail_tracks@.len() == 0,
            r.artist_detail_tracks@.len() == 0,
    {
        AppState {
            all_tracks: Vec::new(),
            filtered_tracks: Vec::new(),
            current_filtered_row: None,
            was_playing: false,
            album_detail_tracks: Vec::new(),
            artist_detail_tracks: Vec::new(),
        }
    }

    /// Recomputes which tracks show: those whose title, artist or album
    /// contains `search` (ignoring ASCII case) and whose lyrics match the
    /// status filter. Nothing else changes.
    pub fn rebuild_filter(&mut self, search: &str, status_filter: i32)
        ensures
            final(self).filtered_tracks@ == shown(
                old(self).all_tracks@,
                lower(search@),
                status_filter,
                old(self).all_tracks@.len() as int,
            ),
            final(self).all_tracks@ == old(self).all_tracks@,
            final(self).current_filtered_row == old(self).current_filtered_row,
            final(self).was_playing == old(self).was_playing,
            final(self).album_detail_tracks@ == old(self).album_detail_tracks@,
            final(self).artist_detail_tracks@ == old(self).artist_detail_tracks@,
    {
        let search_lower = lower_of(&chars_of(search));
        let mut out: Vec<usize> = Vec::new();
        let mut i: usize = 0;
        while i < self.all_tracks.len()
            invariant
                i <= self.all_tracks@.len(),
                search_lower@ == lower(search@),
                out@ == shown(self.all_tracks@, search_lower@, status_filter, i as int),
            decreases self.all_tracks.len() - i,
        {
            if shows_exec(&self.all_tracks[i], &search_lower, status_filter) {
                out.push(i);
            }
            i += 1;
        }
        self.filtered_tracks = out;
    }
}

/// The filtered row after `current`, wrapping round; the first row when
/// nothing is current.
pub open spec fn next_row(current: Option<usize>, total: nat) -> nat {
    match current {
        Some(c) => ((c + 1) % (total as int)) as nat,
        None => 0,
    }
}

/// The filtered row before `current`, wrapping round; the first row when
/// nothing is current.
pub open spec fn prev_row(current: Option<usize>, total: nat) -> int {
    match current {
        Some(c) => if c == 0 {
            total - 1
        } else {
            c - 1
        },
        None => 0,
    }
}

/// The track `indices[row]` points to, when both exist.
pub open spec fn track_at(tracks: Seq<Track>, indices: Seq<usize>, row: int) -> Option<Track> {
    if 0 <= row < indices.len() && indices[row] < tracks.len() {
        Some(tracks[indices[row] as int])
    } else {
        None
    }
}

impl AppState {
    /// Whatever a move in the playing order changes, it changes nothing but
    /// the current row.
    pub open spec fn same_but_row(&self, other: &AppState) -> bool {
        &&& self.all_tracks@ == other.all_tracks@
        &&& self.filtered_tracks@ == other.filtered_tracks@
        &&& self.was_playing == other.was_playing
        &&& self.album_detail_tracks@ == other.album_detail_tracks@
        &&& self.artist_detail_tracks@ == other.artist_detail_tracks@
    }

    fn track_of(&self, indices: &Vec<usize>, row: usize) -> (r: Option<Track>)
        ensures
            r == track_at(self.all_tracks@, indices@, row as int),
    {
        if row < indices.len() && indices[row] < self.all_tracks.len() {
            Some(self.all_tracks[indices[row]].copy())
        } else {
            None
        }
    }

    /// Moves to the next row of the filtered list (wrapping round, the
    /// first when none is current) and gives its track. An empty list
    /// changes nothing.
    pub fn step_next(&mut self) -> (r: Option<Track>)
        ensures
            final(self).same_but_row(&*old(self)),
            old(self).filtered_tracks@.len() == 0 ==> r is None && final(self).current_filtered_row == old(self).current_filtered_row,
            old(self).filtered_tracks@.len() > 0 ==> {
                let row = next_row(old(self).current_filtered_row, old(self).filtered_tracks@.len());
                &&& final(self).current_filtered_row == Some(row as usize)
                &&& r == track_at(old(self).all_tracks@, old(self).filtered_tracks@, row as int)
            },
    {
        let total = self.filtered_tracks.len();
        if total == 0 {
            return None;
        }
        let row = match self.current_filtered_row {
            Some(cur) => {
                let c = cur % total;
                assert((c + 1) % (total as int) == (cur + 1) % (total as int)) by (nonlinear_arith)
                    requires
                        c == cur % total,
                        total > 0,
                {
                    vstd::arithmetic::div_mod::lemma_add_mod_noop(cur as int, 1, total as int);
                    vstd::arithmetic::div_mod::lemma_add_mod_noop(c as int, 1, total as int);
                    vstd::arithmetic::div_mod::lemma_mod_twice(cur as int, total as int);
                };
                (c + 1) % total
            },
            None => 0,
        };
        self.current_filtered_row = Some(row);
        self.track_of(&self.filtered_tracks, row)
    }

    /// Moves to the previous row of the filtered list (wrapping round, the
    /// first when none is current) and gives its track. An empty list
    /// changes nothing.
    pub fn step_prev(&mut self) -> (r: Option<Track>)
        requires
            old(self).filtered_tracks@.len() > 0 ==> match old(self).current_filtered_row {
                Some(c) => c <= old(self).filtered_tracks@.len(),
                None => true,
            },
        ensures
            final(self).same_but_row(&*old(self)),
            old(self).filtered_tracks@.len() == 0 ==> r is None && final(self).current_filtered_row == old(self).current_filtered_row,
            old(self).filtered_tracks@.len() > 0 ==> {
                let row = prev_row(old(self).current_filtered_row, old(self).filtered_tracks@.len());
                &&& final(self).current_filtered_row == Some(row as usize)
                &&& r == track_at(old(self).all_tracks@, old(self).filtered_tracks@, row)
            },
    {
        let total = self.filtered_tracks.len();
        if total == 0 {
            return None;
        }
        let row = match self.current_filtered_row {
            Some(cur) => if cur == 0 {
                total - 1
            } else {
                cur - 1
            },
            None => 0,
        };
        self.current_filtered_row = Some(row);
        self.track_of(&self.filtered_tracks, row)
    }

    /// The track that plays after the current one, for fetching ahead;
    /// nothing changes.
    pub fn upcoming(&self) -> (r: Option<Track>)
        ensures
            self.filtered_tracks@.len() == 0 ==> r is None,
            self.filtered_tracks@.len() > 0 ==> r == track_at(
                self.all_tracks@,
                self.filtered_tracks@,
                next_row(self.current_filtered_row, self.filtered_tracks@.len()) as int,
            ),
    {
        let total = self.filtered_tracks.len();
        if total == 0 {
            return None;
        }
        let row = match self.current_filtered_row {
            Some(cur) => {
                let c = cur % total;
                assert((c + 1) % (total as int) == (cur + 1) % (total as int)) by (nonlinear_arith)
                    requires
                        c == cur % total,
                        total > 0,
                {
                    vstd::arithmetic::div_mod::lemma_add_mod_noop(cur as int, 1, total as int);
                    vstd::arithmetic::div_mod::lemma_add_mod_noop(c as int, 1, total as int);
                    vstd::arithmetic::div_mod::lemma_mod_twice(cur as int, total as int);
                };
                (c + 1) % total
            },
            None => 0,
        };
        self.track_of(&self.filtered_tracks, row)
    }

    /// The track of row `row` of the open album's list, or of the open
    /// artist's list.
    pub fn detail_track(&self, row: i32, from_artist_view: bool) -> (r: Option<Track>)
        ensures
            r == if row < 0 {
                None
            } else if from_artist_view {
                track_at(self.all_tracks@, self.artist_detail_tracks@, row as int)
            } else {
                track_at(self.all_tracks@, self.album_detail_tracks@, row as int)
            },
    {
        if row < 0 {
            return None;
        }
        let row = row as usize;
        if from_artist_view {
            self.track_of(&self.artist_detail_tracks, row)
        } else {
            self.track_of(&self.album_detail_tracks, row)
        }
    }
}

/// In a filtered list of `total` rows, moving on always lands on a row of
/// the list, and moving back from there returns to the row one started
/// from; moving back then on returns too.
pub proof fn stepping_back_undoes_stepping_on(c: usize, total: nat)
    requires
        c < total,
        total <= usize::MAX,
    ensures
        next_row(Some(c), total) < total,
        0 <= prev_row(Some(c), total) < total,
        prev_row(Some(next_row(Some(c), total) as usize), total) == c,
        next_row(Some(prev_row(Some(c), total) as usize), total) == c,
{
    let n = next_row(Some(c), total);
    if c + 1 < total {
        vstd::arithmetic::div_mod::lemma_small_mod((c + 1) as nat, total);
    } else {
        vstd::arithmetic::div_mod::lemma_mod_self_0(total as int);
    }
    let p = prev_row(Some(c), total);
    if c == 0 {
        vstd::arithmetic::div_mod::lemma_mod_self_0(total as int);
    } else {
        vstd::arithmetic::div_mod::lemma_small_mod(c as nat, total);
    }
}

/// Every index the filter shows is a track that shows, the indices rise,
/// and every track that shows is among them.
pub proof fn filter_shows_exactly_the_matching_tracks(
    tracks: Seq<Track>,
    search_lower: Seq<char>,
    status_filter: i32,
    n: int,
)
    requires
        0 <= n <= tracks.len(),
        tracks.len() <= usize::MAX,
    ensures
        forall|k: int|
            0 <= k < shown(tracks, search_lower, status_filter, n).len() ==> (#[trigger] shown(
                tracks,
                search_lower,
                status_filter,
                n,
            )[k] as int) < n && shows(
                tracks[shown(tracks, search_lower, status_filter, n)[k] as int],
                search_lower,
                status_filter,
            ),
        forall|a: int, b: int|
            0 <= a < b < shown(tracks, search_lower, status_filter, n).len() ==> #[trigger] shown(
                tracks,
                search_lower,
                status_filter,
                n,
            )[a] < #[trigger] shown(tracks, search_lower, status_filter, n)[b],
        forall|i: int|
            0 <= i < n && shows(tracks[i], search_lower, status_filter) ==> #[trigger] shown(
                tracks,
                search_lower,
                status_filter,
                n,
            ).contains(i as usize),
    decreases n,
{
    if n > 0 {
        filter_shows_exactly_the_matching_tracks(tracks, search_lower, status_filter, n - 1);
        let prev = shown(tracks, search_lower, status_filter, n - 1);
        let cur = shown(tracks, search_lower, status_filter, n);
        if shows(tracks[n - 1], search_lower, status_filter) {
            assert(cur == prev.push((n - 1) as usize));
            assert forall|k: int| 0 <= k < cur.len() implies (cur[k] as int) < n && shows(
                tracks[cur[k] as int],
                search_lower,
                status_filter,
            ) by {
                if k < prev.len() {
                    assert(cur[k] == prev[k]);
                }
            }
            assert forall|a: int, b: int| 0 <= a < b < cur.len() implies cur[a] < cur[b] by {
                assert(cur[a] == prev[a]);
                if b < prev.len() {
                    assert(cur[b] == prev[b]);
                }
            }
            assert forall|i: int| 0 <= i < n && shows(tracks[i], search_lower, status_filter) implies cur.contains(i as usize) by {
                if i < n - 1 {
                    assert(prev.contains(i as usize));
                    let k = choose|k: int| 0 <= k < prev.len() && prev[k] == i as usize;
                    assert(cur[k] == i as usize);
                } else {
                    assert(cur[prev.len() as int] == i as usize);
                }
            }
        } else {
            assert(cur == prev);
            assert forall|i: int| 0 <= i < n && shows(tracks[i], search_lower, status_filter) implies cur.contains(i as usize) by {
                assert(i < n - 1);
                assert(prev.contains(i as usize));
            }
        }
    }
}


// ---------------------------------------------------------------------------
// Row indexes
// ---------------------------------------------------------------------------

/// The rows among the first `n` whose key is `k`, in order.
pub open spec fn rows_with(keys: Seq<Seq<char>>, k: Seq<char>, n: int) -> Seq<usize>
    decreases n,
{
    if n <= 0 {
        Seq::empty()
    } else if keys[n - 1] == k {
        rows_with(keys, k, n - 1).push((n - 1) as usize)
    } else {
        rows_with(keys, k, n - 1)
    }
}

/// Every key of the first `n` rows, mapped to its rows.
pub open spec fn row_map(keys: Seq<Seq<char>>, n: int) -> Map<Seq<char>, Seq<usize>> {
    Map::new(|k: Seq<char>| exists|j: int| 0 <= j < n && keys[j] == k, |k: Seq<char>| rows_with(keys, k, n))
}

fn copy_indices(v: &[usize]) -> (r: Vec<usize>)
    ensures
        r@ == v@,
{
    let mut r: Vec<usize> = Vec::new();
    let mut i: usize = 0;
    while i < v.len()
        invariant
            i <= v.len(),
            r@ == v@.take(i as int),
        decreases v.len() - i,
    {
        r.push(v[i]);
        i += 1;
        assert(r@ =~= v@.take(i as int));
    }
    assert(v@.take(i as int) =~= v@);
    r
}

/// Each key, mapped to the rows that have it, in order.
pub fn index_rows(keys: &[String]) -> (r: KeyedMemo<Vec<usize>>)
    ensures
        r.wf(),
        r@.map_values(|v: Vec<usize>| v@) == row_map(crate::art::texts_view(keys@), keys@.len() as int),
{
    let ghost ks = crate::art::texts_view(keys@);
    let mut memo: KeyedMemo<Vec<usize>> = KeyedMemo::new();
    let mut i: usize = 0;
    assert(memo@.map_values(|v: Vec<usize>| v@) =~= row_map(ks, 0));
    while i < keys.len()
        invariant
            i <= keys@.len(),
            ks == crate::art::texts_view(keys@),
            memo.wf(),
            memo@.map_values(|v: Vec<usize>| v@) == row_map(ks, i as int),
        decreases keys.len() - i,
    {
        let key = &keys[i];
        let mut rows: Vec<usize> = match memo.get(key.as_str()) {
            Some(v) => copy_indices(v.as_slice()),
            None => Vec::new(),
        };
        proof {
            if !memo@.contains_key(key@) {
                assert(!row_map(ks, i as int).contains_key(key@));
                assert forall|j: int| 0 <= j < i implies ks[j] != key@ by {
                    if ks[j] == key@ {
                        assert(row_map(ks, i as int).contains_key(key@));
                    }
                }
                lemma_rows_with_empty(ks, key@, i as int);
            } else {
                assert(row_map(ks, i as int)[key@] == memo@[key@]@);
            }
            assert(rows@ == rows_with(ks, key@, i as int));
        }
        rows.push(i);
        let ghost before = memo@;
        memo.insert(key.clone(), rows);
        proof {
            assert(ks[i as int] == key@);
            let m = memo@.map_values(|v: Vec<usize>| v@);
            let want = row_map(ks, i + 1);
            assert forall|k: Seq<char>| #[trigger] m.contains_key(k) == want.contains_key(k) by {
                if k != key@ {
                    if want.contains_key(k) {
                        let j = choose|j: int| 0 <= j < i + 1 && ks[j] == k;
                        assert(j < i);
                        assert(row_map(ks, i as int).contains_key(k));
                    }
                    if m.contains_key(k) {
                        assert(before.contains_key(k));
                        assert(row_map(ks, i as int).contains_key(k));
                        let j = choose|j: int| 0 <= j < i && ks[j] == k;
                        assert(0 <= j < i + 1 && ks[j] == k);
                    }
                } else {
                    assert(0 <= i < i + 1 && ks[i as int] == k);
                }
            }
            assert forall|k: Seq<char>| m.contains_key(k) implies #[trigger] m[k] == want[k] by {
                if k != key@ {
                    assert(before.contains_key(k));
                    assert(row_map(ks, i as int)[k] == before[k]@);
                }
            }
            assert(m =~= want);
        }
        i += 1;
    }
    memo
}

proof fn lemma_rows_with_empty(keys: Seq<Seq<char>>, k: Seq<char>, n: int)
    requires
        forall|j: int| 0 <= j < n ==> keys[j] != k,
    ensures
        rows_with(keys, k, n) == Seq::<usize>::empty(),
    decreases n,
{
    if n > 0 {
        lemma_rows_with_empty(keys, k, n - 1);
    }
}

/// One track list's rows indexed by the file each shows and by its album,
/// so that arriving artwork is written into exactly the rows waiting for it.
pub fn row_index(paths: &[String], albums: &[String]) -> (r: (KeyedMemo<Vec<usize>>, KeyedMemo<Vec<usize>>))
    ensures
        r.0.wf(),
        r.1.wf(),
        r.0@.map_values(|v: Vec<usize>| v@) == row_map(crate::art::texts_view(paths@), paths@.len() as int),
        r.1@.map_values(|v: Vec<usize>| v@) == row_map(crate::art::texts_view(albums@), albums@.len() as int),
{
    (index_rows(paths), index_rows(albums))
}


// ---------------------------------------------------------------------------
// Grouping rows by key
// ---------------------------------------------------------------------------

pub open spec fn group_view(g: Seq<(String, Vec<usize>)>) -> Seq<(Seq<char>, Seq<usize>)> {
    Seq::new(g.len(), |a: int| (g[a].0@, g[a].1@))
}

/// `g` lists every key of the first `n` rows once, in code point order, each
/// with the rows that hold it.
pub open spec fn groups_of(ks: Seq<Seq<char>>, n: int, g: Seq<(Seq<char>, Seq<usize>)>) -> bool {
    &&& forall|a: int, b: int| 0 <= a < b < g.len() ==> chars_lt(#[trigger] g[a].0, #[trigger] g[b].0)
    &&& forall|a: int|
        0 <= a < g.len() ==> (#[trigger] g[a]).1 == rows_with(ks, g[a].0, n) && g[a].1.len() > 0
    &&& forall|j: int|
        #![trigger ks[j]]
        0 <= j < n ==> exists|a: int| 0 <= a < g.len() && (#[trigger] g[a]).0 == ks[j]
}

proof fn lemma_rows_with_len(keys: Seq<Seq<char>>, k: Seq<char>, n: int)
    ensures
        rows_with(keys, k, n).len() <= if n > 0 { n } else { 0 },
    decreases n,
{
    if n > 0 {
        lemma_rows_with_len(keys, k, n - 1);
    }
}

/// The distinct keys of the rows, in code point order, each with the rows
/// that hold it in order.
#[verifier::rlimit(40)]
pub fn group_indices(keys: &[String]) -> (r: Vec<(String, Vec<usize>)>)
    ensures
        groups_of(crate::art::texts_view(keys@), keys@.len() as int, group_view(r@)),
{
    let ghost ks = crate::art::texts_view(keys@);
    let mut g: Vec<(String, Vec<usize>)> = Vec::new();
    let mut i: usize = 0;
    while i < keys.len()
        invariant
            i <= keys@.len(),
            ks == crate::art::texts_view(keys@),
            groups_of(ks, i as int, group_view(g@)),
            g@.len() <= i,
        decreases keys.len() - i,
    {
        let ghost gv = group_view(g@);
        let k = chars_of(keys[i].as_str());
        let mut p: usize = 0;
        while p < g.len() && chars_lt_exec(&chars_of(g[p].0.as_str()), &k)
            invariant
                p <= g@.len(),
                gv == group_view(g@),
                forall|a: int| 0 <= a < p ==> chars_lt(#[trigger] gv[a].0, k@),
            decreases g.len() - p,
        {
            p += 1;
        }
        proof {
            assert forall|a: int| 0 <= a < p implies gv[a].0 != k@ by {
                lemma_chars_lt_irreflexive(k@);
            }
        }
        if p < g.len() && same_chars(&chars_of(g[p].0.as_str()), &k) {
            let mut rows = copy_indices(g[p].1.as_slice());
            proof {
                lemma_rows_with_len(ks, k@, i as int);
            }
            rows.push(i);
            let name = g[p].0.clone();
            g.set(p, (name, rows));
            proof {
                let gv2 = group_view(g@);
                assert forall|a: int| 0 <= a < gv.len() && a != p implies gv[a].0 != k@ by {
                    if a > p {
                        assert(chars_lt(gv[p as int].0, gv[a].0));
                        lemma_chars_lt_irreflexive(k@);
                    }
                }
                assert forall|a: int, b: int| 0 <= a < b < gv2.len() implies chars_lt(
                    #[trigger] gv2[a].0,
                    #[trigger] gv2[b].0,
                ) by {
                    assert(gv2[a].0 == gv[a].0);
                    assert(gv2[b].0 == gv[b].0);
                }
                assert forall|a: int| 0 <= a < gv2.len() implies (#[trigger] gv2[a]).1 == rows_with(
                    ks,
                    gv2[a].0,
                    i + 1,
                ) && gv2[a].1.len() > 0 by {
                    if a == p {
                        assert(gv2[a].1 =~= gv[a].1.push(i as usize));
                    } else {
                        assert(gv2[a] == gv[a]);
                    }
                }
                assert forall|j: int| #![trigger ks[j]] 0 <= j < i + 1 implies exists|a: int|
                    0 <= a < gv2.len() && (#[trigger] gv2[a]).0 == ks[j] by {
                    if j < i {
                        let a = choose|a: int| 0 <= a < gv.len() && (#[trigger] gv[a]).0 == ks[j];
                        assert(gv2[a].0 == gv[a].0);
                    } else {
                        assert(gv2[p as int].0 == ks[j]);
                    }
                }
                assert(groups_of(ks, i + 1, gv2));
            }
        } else {
            proof {
                assert forall|a: int| 0 <= a < gv.len() implies gv[a].0 != k@ by {
                    if a >= p {
                        assert(gv[p as int].0 != k@);
                        assert(!chars_lt(gv[p as int].0, k@));
                        lemma_chars_lt_total(gv[p as int].0, k@);
                        if a > p {
                            assert(chars_lt(gv[p as int].0, gv[a].0));
                            lemma_chars_lt_transitive(k@, gv[p as int].0, gv[a].0);
                        }
                        lemma_chars_lt_irreflexive(k@);
                    }
                }
                assert forall|j: int| #![trigger ks[j]] 0 <= j < i implies ks[j] != k@ by {
                    let a = choose|a: int| 0 <= a < gv.len() && (#[trigger] gv[a]).0 == ks[j];
                }
                lemma_rows_with_empty(ks, k@, i as int);
            }
            let ghost x = (k@, seq![i as usize]);
            let name = keys[i].clone();
            let first = vec![i];
            assert(first@ =~= seq![i as usize]);
            assert(name@ == k@);
            let ghost before = g@;
            g.insert(p, (name, first));
            proof {
                let gv2 = group_view(g@);
                assert(g@ == before.insert(p as int, (name, first)));
                assert forall|a: int| 0 <= a < gv2.len() implies #[trigger] gv2[a] == gv.insert(p as int, x)[a] by {
                    if a < p {
                        assert(g@[a] == before[a]);
                    } else if a == p {
                    } else {
                        assert(g@[a] == before[a - 1]);
                    }
                }
                assert(gv2 =~= gv.insert(p as int, x));
                assert forall|a: int| 0 <= a < gv2.len() implies #[trigger] gv2[a] == if a < p {
                    gv[a]
                } else if a == p {
                    x
                } else {
                    gv[a - 1]
                } by {}
                assert forall|a: int, b: int| 0 <= a < b < gv2.len() implies chars_lt(
                    #[trigger] gv2[a].0,
                    #[trigger] gv2[b].0,
                ) by {
                    if b == p {
                    } else if a == p {
                        assert(chars_lt(k@, gv[p as int].0)) by {
                            lemma_chars_lt_total(gv[p as int].0, k@);
                        }
                        if b - 1 > p {
                            assert(chars_lt(gv[p as int].0, gv[b - 1].0));
                            lemma_chars_lt_transitive(k@, gv[p as int].0, gv[b - 1].0);
                        }
                    } else if a < p && b > p {
                        assert(chars_lt(gv[a].0, k@));
                        assert(chars_lt(k@, gv[p as int].0)) by {
                            lemma_chars_lt_total(gv[p as int].0, k@);
                        }
                        lemma_chars_lt_transitive(gv[a].0, k@, gv[p as int].0);
                        if b - 1 > p {
                            assert(chars_lt(gv[p as int].0, gv[b - 1].0));
                            lemma_chars_lt_transitive(gv[a].0, gv[p as int].0, gv[b - 1].0);
                        }
                    } else if a > p {
                        assert(chars_lt(gv[a - 1].0, gv[b - 1].0));
                    }
                }
                assert forall|a: int| 0 <= a < gv2.len() implies (#[trigger] gv2[a]).1 == rows_with(
                    ks,
                    gv2[a].0,
                    i + 1,
                ) && gv2[a].1.len() > 0 by {
                    if a == p {
                        assert(rows_with(ks, k@, i + 1) =~= seq![i as usize]);
                    } else if a < p {
                        assert(gv[a].0 != k@);
                    } else {
                        assert(gv[a - 1].0 != k@);
                    }
                }
                assert forall|j: int| #![trigger ks[j]] 0 <= j < i + 1 implies exists|a: int|
                    0 <= a < gv2.len() && (#[trigger] gv2[a]).0 == ks[j] by {
                    if j < i {
                        let a = choose|a: int| 0 <= a < gv.len() && (#[trigger] gv[a]).0 == ks[j];
                        if a < p {
                            assert(gv2[a].0 == ks[j]);
                        } else {
                            assert(gv2[a + 1].0 == ks[j]);
                        }
                    } else {
                        assert(gv2[p as int].0 == ks[j]);
                    }
                }
                assert(groups_of(ks, i + 1, gv2));
            }
        }
        i += 1;
    }
    g
}


proof fn lemma_rows_with_elements(keys: Seq<Seq<char>>, k: Seq<char>, n: int)
    requires
        n <= usize::MAX,
    ensures
        forall|t: int|
            0 <= t < rows_with(keys, k, n).len() ==> (#[trigger] rows_with(keys, k, n)[t] as int) < n
                && keys[rows_with(keys, k, n)[t] as int] == k && 0 <= rows_with(keys, k, n)[t],
    decreases n,
{
    if n > 0 {
        lemma_rows_with_elements(keys, k, n - 1);
        let prev = rows_with(keys, k, n - 1);
        if keys[n - 1] == k {
            assert forall|t: int| 0 <= t < prev.len() + 1 implies (#[trigger] prev.push((n - 1) as usize)[t]
                as int) < n && keys[prev.push((n - 1) as usize)[t] as int] == k by {
                if t < prev.len() {
                    assert(prev.push((n - 1) as usize)[t] == prev[t]);
                }
            }
        }
    }
}

/// How many of the tracks at `rows` have synchronized lyrics.
pub open spec fn synced_among(ts: Seq<Track>, rows: Seq<usize>) -> nat
    decreases rows.len(),
{
    if rows.len() == 0 {
        0
    } else {
        synced_among(ts, rows.drop_last()) + if ts[rows.last() as int].status == LyricsStatus::Synced {
            1nat
        } else {
            0
        }
    }
}

proof fn lemma_synced_among_bound(ts: Seq<Track>, rows: Seq<usize>)
    ensures
        synced_among(ts, rows) <= rows.len(),
    decreases rows.len(),
{
    if rows.len() > 0 {
        lemma_synced_among_bound(ts, rows.drop_last());
    }
}

fn count_synced(tracks: &[Track], rows: &[usize]) -> (r: usize)
    requires
        forall|t: int| 0 <= t < rows@.len() ==> (#[trigger] rows@[t] as int) < tracks@.len(),
    ensures
        r == synced_among(tracks@, rows@),
{
    let mut n: usize = 0;
    let mut t: usize = 0;
    while t < rows.len()
        invariant
            t <= rows@.len(),
            forall|u: int| 0 <= u < rows@.len() ==> (#[trigger] rows@[u] as int) < tracks@.len(),
            n == synced_among(tracks@, rows@.take(t as int)),
        decreases rows.len() - t,
    {
        proof {
            assert(rows@.take(t + 1).drop_last() =~= rows@.take(t as int));
            lemma_synced_among_bound(tracks@, rows@.take(t as int));
        }
        if tracks[rows[t]].status == LyricsStatus::Synced {
            n += 1;
        }
        t += 1;
    }
    assert(rows@.take(t as int) =~= rows@);
    n
}

pub open spec fn album_keys(ts: Seq<Track>) -> Seq<Seq<char>> {
    Seq::new(ts.len(), |i: int| ts[i].album@)
}

pub open spec fn artist_keys(ts: Seq<Track>) -> Seq<Seq<char>> {
    Seq::new(ts.len(), |i: int| ts[i].artist@)
}

fn album_names(tracks: &[Track]) -> (r: Vec<String>)
    ensures
        crate::art::texts_view(r@) == album_keys(tracks@),
{
    let mut r: Vec<String> = Vec::new();
    let mut i: usize = 0;
    while i < tracks.len()
        invariant
            i <= tracks@.len(),
            crate::art::texts_view(r@) == album_keys(tracks@).take(i as int),
        decreases tracks.len() - i,
    {
        let ghost before = r@;
        let name = tracks[i].album.clone();
        r.push(name);
        assert(crate::art::texts_view(r@) =~= crate::art::texts_view(before).push(tracks@[i as int].album@));
        i += 1;
        assert(crate::art::texts_view(r@) =~= album_keys(tracks@).take(i as int));
    }
    assert(album_keys(tracks@).take(i as int) =~= album_keys(tracks@));
    r
}

fn artist_names(tracks: &[Track]) -> (r: Vec<String>)
    ensures
        crate::art::texts_view(r@) == artist_keys(tracks@),
{
    let mut r: Vec<String> = Vec::new();
    let mut i: usize = 0;
    while i < tracks.len()
        invariant
            i <= tracks@.len(),
            crate::art::texts_view(r@) == artist_keys(tracks@).take(i as int),
        decreases tracks.len() - i,
    {
        let ghost before = r@;
        let name = tracks[i].artist.clone();
        r.push(name);
        assert(crate::art::texts_view(r@) =~= crate::art::texts_view(before).push(tracks@[i as int].artist@));
        i += 1;
        assert(crate::art::texts_view(r@) =~= artist_keys(tracks@).take(i as int));
    }
    assert(artist_keys(tracks@).take(i as int) =~= artist_keys(tracks@));
    r
}

/// One card of the album grid: the album's name, the artist and file of its
/// first track (where its cover comes from), and how many of its tracks
/// there are and have synchronized lyrics.
pub struct AlbumSummary {
    pub name: String,
    pub artist: String,
    pub first_path: String,
    pub track_count: usize,
    pub synced_count: usize,
}

/// One row of the artist list: the artist, and how many tracks, distinct
/// albums and tracks with synchronized lyrics are theirs.
pub struct ArtistSummary {
    pub name: String,
    pub track_count: usize,
    pub album_count: usize,
    pub synced_count: usize,
}

/// The album grid: one card per album name, in code point order.
pub fn build_album_data(tracks: &[Track]) -> (r: Vec<AlbumSummary>)
    ensures
        forall|a: int, b: int| 0 <= a < b < r@.len() ==> chars_lt(#[trigger] r@[a].name@, #[trigger] r@[b].name@),
        forall|j: int|
            #![trigger tracks@[j]]
            0 <= j < tracks@.len() ==> exists|a: int| 0 <= a < r@.len() && (#[trigger] r@[a]).name@ == tracks@[j].album@,
        forall|a: int|
            0 <= a < r@.len() ==> {
                let rows = rows_with(album_keys(tracks@), (#[trigger] r@[a]).name@, tracks@.len() as int);
                &&& rows.len() > 0
                &&& r@[a].track_count == rows.len()
                &&& r@[a].synced_count == synced_among(tracks@, rows)
                &&& r@[a].artist@ == tracks@[rows[0] as int].artist@
                &&& r@[a].first_path@ == tracks@[rows[0] as int].audio_path@
            },
{
    let names = album_names(tracks);
    assert(names@.len() == tracks@.len()) by {
        assert(crate::art::texts_view(names@).len() == names@.len());
    }
    let groups = group_indices(&names);
    let ghost ks = album_keys(tracks@);
    let ghost gv = group_view(groups@);
    let mut r: Vec<AlbumSummary> = Vec::new();
    let mut a: usize = 0;
    while a < groups.len()
        invariant
            a <= groups@.len(),
            ks == album_keys(tracks@),
            gv == group_view(groups@),
            groups_of(ks, tracks@.len() as int, gv),
            r@.len() == a,
            forall|b: int| 0 <= b < a ==> (#[trigger] r@[b]).name@ == gv[b].0 && {
                let rows = gv[b].1;
                &&& r@[b].track_count == rows.len()
                &&& r@[b].synced_count == synced_among(tracks@, rows)
                &&& r@[b].artist@ == tracks@[rows[0] as int].artist@
                &&& r@[b].first_path@ == tracks@[rows[0] as int].audio_path@
            },
        decreases groups.len() - a,
    {
        let rows = &groups[a].1;
        proof {
            assert(gv[a as int] == (groups@[a as int].0@, groups@[a as int].1@));
            assert(tracks@.len() == tracks.len());
            lemma_rows_with_elements(ks, gv[a as int].0, tracks@.len() as int);
            lemma_rows_with_len(ks, gv[a as int].0, tracks@.len() as int);
        }
        let first = rows[0];
        let synced = count_synced(tracks, rows.as_slice());
        r.push(
            AlbumSummary {
                name: groups[a].0.clone(),
                artist: tracks[first].artist.clone(),
                first_path: tracks[first].audio_path.clone(),
                track_count: rows.len(),
                synced_count: synced,
            },
        );
        a += 1;
    }
    proof {
        assert forall|j: int|
            #![trigger tracks@[j]]
            0 <= j < tracks@.len() implies exists|b: int| 0 <= b < r@.len() && (#[trigger] r@[b]).name@ == tracks@[j].album@ by {
            assert(ks[j] == tracks@[j].album@);
            let b = choose|b: int| 0 <= b < gv.len() && (#[trigger] gv[b]).0 == ks[j];
            assert(r@[b].name@ == gv[b].0);
        }
        assert forall|x: int, y: int| 0 <= x < y < r@.len() implies chars_lt(#[trigger] r@[x].name@, #[trigger] r@[y].name@) by {
            assert(chars_lt(gv[x].0, gv[y].0));
        }
    }
    r
}

/// The albums of the tracks at `rows`.
pub open spec fn albums_among(ts: Seq<Track>, rows: Seq<usize>) -> Set<Seq<char>> {
    Set::new(|al: Seq<char>| exists|k: int| 0 <= k < rows.len() && ts[rows[k] as int].album@ == al)
}

proof fn lemma_group_keys_are_the_set(ks: Seq<Seq<char>>, m: int, g: Seq<(Seq<char>, Seq<usize>)>)
    requires
        0 <= m <= ks.len(),
        m <= usize::MAX,
        groups_of(ks, m, g),
    ensures
        g.len() == Set::new(|x: Seq<char>| exists|j: int| 0 <= j < m && ks[j] == x).len(),
        Set::new(|x: Seq<char>| exists|j: int| 0 <= j < m && ks[j] == x).finite(),
{
    let names = Seq::new(g.len(), |a: int| g[a].0);
    let set = Set::new(|x: Seq<char>| exists|j: int| 0 <= j < m && ks[j] == x);
    assert forall|a: int, b: int| 0 <= a < names.len() && 0 <= b < names.len() && a != b implies names[a] != names[b] by {
        if a < b {
            assert(chars_lt(g[a].0, g[b].0));
            lemma_chars_lt_irreflexive(g[a].0);
        } else {
            assert(chars_lt(g[b].0, g[a].0));
            lemma_chars_lt_irreflexive(g[b].0);
        }
    }
    assert(names.no_duplicates());
    names.unique_seq_to_set();
    assert forall|x: Seq<char>| set.contains(x) <==> names.to_set().contains(x) by {
        if set.contains(x) {
            let j = choose|j: int| 0 <= j < m && ks[j] == x;
            let a = choose|a: int| 0 <= a < g.len() && (#[trigger] g[a]).0 == ks[j];
            assert(names[a] == x);
        }
        if names.to_set().contains(x) {
            let a = choose|a: int| 0 <= a < names.len() && names[a] == x;
            assert(g[a].1 == rows_with(ks, g[a].0, m) && g[a].1.len() > 0);
            lemma_rows_with_elements(ks, g[a].0, m);
            let j = g[a].1[0] as int;
            assert(ks[j] == x);
        }
    }
    assert(set =~= names.to_set());
}

/// How many different albums the tracks at `rows` are on.
fn distinct_album_count(tracks: &[Track], rows: &[usize]) -> (r: usize)
    requires
        forall|u: int| 0 <= u < rows@.len() ==> (#[trigger] rows@[u] as int) < tracks@.len(),
    ensures
        r == albums_among(tracks@, rows@).len(),
{
    let mut albums: Vec<String> = Vec::new();
    let mut t: usize = 0;
    while t < rows.len()
        invariant
            t <= rows@.len(),
            forall|u: int| 0 <= u < rows@.len() ==> (#[trigger] rows@[u] as int) < tracks@.len(),
            albums@.len() == t,
            forall|u: int| 0 <= u < t ==> (#[trigger] albums@[u])@ == tracks@[rows@[u] as int].album@,
        decreases rows.len() - t,
    {
        albums.push(tracks[rows[t]].album.clone());
        t += 1;
    }
    let album_groups = group_indices(&albums);
    proof {
        let sub = crate::art::texts_view(albums@);
        assert(sub.len() == albums.len());
        lemma_group_keys_are_the_set(sub, sub.len() as int, group_view(album_groups@));
        let s1 = Set::new(|x: Seq<char>| exists|j: int| 0 <= j < sub.len() && sub[j] == x);
        assert forall|x: Seq<char>| s1.contains(x) <==> albums_among(tracks@, rows@).contains(x) by {
            if s1.contains(x) {
                let j = choose|j: int| 0 <= j < sub.len() && sub[j] == x;
                assert(tracks@[rows@[j] as int].album@ == x);
            }
            if albums_among(tracks@, rows@).contains(x) {
                let k = choose|k: int| 0 <= k < rows@.len() && tracks@[rows@[k] as int].album@ == x;
                assert(sub[k] == albums@[k]@);
            }
        }
        assert(s1 =~= albums_among(tracks@, rows@));
    }
    album_groups.len()
}

/// The names of an artist list's rows.
pub open spec fn artist_names_of(rs: Seq<ArtistSummary>) -> Seq<Seq<char>> {
    Seq::new(rs.len(), |a: int| rs[a].name@)
}

/// The artist list: one row per artist name, in code point order.
pub fn build_artist_data(tracks: &[Track]) -> (r: Vec<ArtistSummary>)
    ensures
        forall|a: int, b: int| 0 <= a < b < r@.len() ==> chars_lt(#[trigger] r@[a].name@, #[trigger] r@[b].name@),
        forall|j: int| 0 <= j < tracks@.len() ==> artist_names_of(r@).contains(#[trigger] artist_keys(tracks@)[j]),
        forall|a: int|
            0 <= a < r@.len() ==> {
                let rows = rows_with(artist_keys(tracks@), (#[trigger] r@[a]).name@, tracks@.len() as int);
                &&& rows.len() > 0
                &&& r@[a].track_count == rows.len()
                &&& r@[a].synced_count == synced_among(tracks@, rows)
                &&& r@[a].album_count == albums_among(tracks@, rows).len()
            },
{
    let names = artist_names(tracks);
    assert(names@.len() == tracks@.len()) by {
        assert(crate::art::texts_view(names@).len() == names@.len());
    }
    let groups = group_indices(&names);
    let ghost ks = artist_keys(tracks@);
    let ghost gv = group_view(groups@);
    let mut r: Vec<ArtistSummary> = Vec::new();
    let mut gi: usize = 0;
    while gi < groups.len()
        invariant
            gi <= groups@.len(),
            ks == artist_keys(tracks@),
            gv == group_view(groups@),
            groups_of(ks, tracks@.len() as int, gv),
            r@.len() == gi,
            forall|b: int| 0 <= b < gi ==> (#[trigger] r@[b]).name@ == gv[b].0 && {
                let rows = gv[b].1;
                &&& r@[b].track_count == rows.len()
                &&& r@[b].synced_count == synced_among(tracks@, rows)
                &&& r@[b].album_count == albums_among(tracks@, rows).len()
            },
        decreases groups.len() - gi,
    {
        let rows = &groups[gi].1;
        proof {
            assert(gv[gi as int] == (groups@[gi as int].0@, groups@[gi as int].1@));
            assert(tracks@.len() == tracks.len());
            lemma_rows_with_elements(ks, gv[gi as int].0, tracks@.len() as int);
            lemma_rows_with_len(ks, gv[gi as int].0, tracks@.len() as int);
        }
        let synced = count_synced(tracks, rows.as_slice());
        let album_count = distinct_album_count(tracks, rows.as_slice());
        r.push(
            ArtistSummary {
                name: groups[gi].0.clone(),
                track_count: rows.len(),
                album_count,
                synced_count: synced,
            },
        );
        gi += 1;
    }
    proof {
        assert(r@.len() == gv.len());
        assert forall|j: int| 0 <= j < tracks@.len() implies artist_names_of(r@).contains(#[trigger] artist_keys(tracks@)[j]) by {
            assert(ks[j] == artist_keys(tracks@)[j]);
            let b = choose|b: int| 0 <= b < gv.len() && (#[trigger] gv[b]).0 == ks[j];
            assert(artist_names_of(r@)[b] == gv[b].0);
        }
        assert forall|x: int, y: int| 0 <= x < y < r@.len() implies chars_lt(#[trigger] r@[x].name@, #[trigger] r@[y].name@) by {
            assert(chars_lt(gv[x].0, gv[y].0));
        }
    }

    r
}

/// The names of a list of album sources.
pub open spec fn source_names(r: Seq<(Seq<char>, Track)>) -> Seq<Seq<char>> {
    Seq::new(r.len(), |a: int| r[a].0)
}

/// `r` lists each album of `ts` once, in code point order of the names,
/// with the album's first track.
pub open spec fn cover_sources_of(ts: Seq<Track>, r: Seq<(Seq<char>, Track)>) -> bool {
    &&& forall|a: int, b: int| 0 <= a < b < r.len() ==> chars_lt(#[trigger] r[a].0, #[trigger] r[b].0)
    &&& forall|j: int| 0 <= j < ts.len() ==> source_names(r).contains(#[trigger] album_keys(ts)[j])
    &&& forall|a: int|
        0 <= a < r.len() ==> {
            let rows = rows_with(album_keys(ts), (#[trigger] r[a]).0, ts.len() as int);
            rows.len() > 0 && r[a].1 == ts[rows[0] as int]
        }
}

pub open spec fn sources_view(r: Seq<(String, Track)>) -> Seq<(Seq<char>, Track)> {
    Seq::new(r.len(), |a: int| (r[a].0@, r[a].1))
}

/// Each album's first track, which is where its cover comes from, with the
/// album's name, in code point order of the names.
pub fn album_cover_sources(tracks: &[Track]) -> (r: Vec<(String, Track)>)
    ensures
        cover_sources_of(tracks@, sources_view(r@)),
{
    let names = album_names(tracks);
    assert(names@.len() == tracks@.len()) by {
        assert(crate::art::texts_view(names@).len() == names@.len());
    }
    let groups = group_indices(&names);
    let ghost ks = album_keys(tracks@);
    let ghost gv = group_view(groups@);
    let mut r: Vec<(String, Track)> = Vec::new();
    let mut a: usize = 0;
    while a < groups.len()
        invariant
            a <= groups@.len(),
            ks == album_keys(tracks@),
            gv == group_view(groups@),
            groups_of(ks, tracks@.len() as int, gv),
            r@.len() == a,
            forall|b: int| 0 <= b < a ==> (#[trigger] r@[b]).0@ == gv[b].0 && r@[b].1 == tracks@[gv[b].1[0] as int],
        decreases groups.len() - a,
    {
        let rows = &groups[a].1;
        proof {
            assert(gv[a as int] == (groups@[a as int].0@, groups@[a as int].1@));
            assert(tracks@.len() == tracks.len());
            lemma_rows_with_elements(ks, gv[a as int].0, tracks@.len() as int);
        }
        let first = rows[0];
        r.push((groups[a].0.clone(), tracks[first].copy()));
        a += 1;
    }
    proof {
        let v = sources_view(r@);
        assert forall|j: int| 0 <= j < tracks@.len() implies source_names(v).contains(#[trigger] album_keys(tracks@)[j]) by {
            let b = choose|b: int| 0 <= b < gv.len() && (#[trigger] gv[b]).0 == ks[j];
            assert(source_names(v)[b] == gv[b].0);
        }
        assert forall|x: int, y: int| 0 <= x < y < v.len() implies chars_lt(#[trigger] v[x].0, #[trigger] v[y].0) by {
            assert(chars_lt(gv[x].0, gv[y].0));
        }
        assert forall|x: int| 0 <= x < v.len() implies ({
            let rows = rows_with(album_keys(tracks@), (#[trigger] v[x]).0, tracks@.len() as int);
            rows.len() > 0 && v[x].1 == tracks@[rows[0] as int]
        }) by {
            assert(v[x].0 == gv[x].0);
        }
    }
    r
}

} // verus!

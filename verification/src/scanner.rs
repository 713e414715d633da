//! Library scanning rules: which files are audio, what a track is called when
//! its tags say nothing, what state its lyrics are in, and how a rescan
//! reuses what an earlier scan found.
use vstd::prelude::*;
use crate::lrc::{audit, audit_lrc, synced, is_synced, LrcIssue};
use crate::model::{LyricsStatus, Track};
use crate::providers::push_all;
use crate::text::{
    chars_of, contains, same_chars, first_occurrence, find_seq, is_blank, lower, lower_of, slice_of,
    string_of, trim,
};

verus! {

/// Why a scan could not run: the folder is missing, or reading it failed
/// (with the system's message).
#[derive(Debug)]
pub enum ScanError {
    RootMissing(String),
    Io(String),
}

/// How many tracks a scan found, by lyrics status.
#[derive(Debug, Clone, Copy, PartialEq, Eq, Structural)]
pub struct ScanSummary {
    pub total: usize,
    pub missing: usize,
    pub plain: usize,
    pub synced: usize,
    pub suspicious: usize,
}

/// The lower-case extensions of the audio formats the library reads.
pub open spec fn audio_extensions() -> Seq<Seq<char>> {
    seq![
        "flac"@, "mp3"@, "m4a"@, "mp4"@, "m4b"@, "opus"@, "ogg"@, "oga"@, "wav"@, "wave"@,
        "wma"@, "aac"@, "aiff"@, "aif"@, "ape"@, "wv"@, "alac"@, "webm"@,
    ]
}

/// The index of the last `.` in `s`, or -1.
pub open spec fn last_dot(s: Seq<char>) -> int
    decreases s.len(),
{
    if s.len() == 0 {
        -1
    } else if s.last() == '.' {
        s.len() - 1
    } else {
        last_dot(s.drop_last())
    }
}

/// A file name's extension as `Path::extension` gives it: after the last
/// `.`, unless there is none or the only one starts the name.
pub open spec fn extension(name: Seq<char>) -> Option<Seq<char>> {
    let k = last_dot(name);
    if k <= 0 {
        None
    } else {
        Some(name.subrange(k + 1, name.len() as int))
    }
}

/// A file name's stem as `Path::file_stem` gives it: before the last `.`,
/// or the whole name when it has no extension.
pub open spec fn stem(name: Seq<char>) -> Seq<char> {
    let k = last_dot(name);
    if k <= 0 {
        name
    } else {
        name.subrange(0, k)
    }
}

/// Whether a file of that name is one the library reads.
pub open spec fn is_audio_name(name: Seq<char>) -> bool {
    match extension(name) {
        Some(e) => audio_extensions().contains(lower(e)),
        None => false,
    }
}

proof fn lemma_last_dot(s: Seq<char>)
    ensures
        -1 <= last_dot(s) < s.len(),
        last_dot(s) >= 0 ==> s[last_dot(s)] == '.',
        forall|j: int| last_dot(s) < j < s.len() ==> s[j] != '.',
    decreases s.len(),
{
    if s.len() > 0 && s.last() != '.' {
        lemma_last_dot(s.drop_last());
        assert forall|j: int| last_dot(s) < j < s.len() implies s[j] != '.' by {
            if j < s.len() - 1 {
                assert(s.drop_last()[j] == s[j]);
            }
        }
    }
}

proof fn lemma_last_dot_is(s: Seq<char>, k: int)
    requires
        -1 <= k < s.len(),
        k >= 0 ==> s[k] == '.',
        forall|j: int| k < j < s.len() ==> s[j] != '.',
    ensures
        last_dot(s) == k,
    decreases s.len(),
{
    if s.len() > 0 && s.last() != '.' {
        lemma_last_dot_is(s.drop_last(), k);
    }
}

pub(crate) fn last_dot_of(s: &[char]) -> (r: Option<usize>)
    ensures
        match r {
            Some(k) => last_dot(s@) == k && k < s@.len(),
            None => last_dot(s@) == -1,
        },
{
    let mut k = s.len();
    while k > 0
        invariant
            k <= s.len(),
            forall|j: int| k <= j < s.len() ==> s@[j] != '.',
        decreases k,
    {
        if s[k - 1] == '.' {
            proof {
                lemma_last_dot_is(s@, k - 1);
            }
            return Some(k - 1);
        }
        k -= 1;
    }
    proof {
        lemma_last_dot_is(s@, -1);
    }
    None
}

/// Whether a file named `file_name` is audio the library reads, judged by
/// its extension in any case.
pub fn is_supported_audio(file_name: &str) -> (r: bool)
    ensures
        r == is_audio_name(file_name@),
{
    let name = chars_of(file_name);
    let k = match last_dot_of(&name) {
        Some(k) => k,
        None => return false,
    };
    if k == 0 {
        return false;
    }
    assert(k < name.len());
    let ext = lower_of(&slice_of(&name, k + 1, name.len()));
    let known = vec![
        chars_of("flac"), chars_of("mp3"), chars_of("m4a"), chars_of("mp4"), chars_of("m4b"),
        chars_of("opus"), chars_of("ogg"), chars_of("oga"), chars_of("wav"), chars_of("wave"),
        chars_of("wma"), chars_of("aac"), chars_of("aiff"), chars_of("aif"), chars_of("ape"),
        chars_of("wv"), chars_of("alac"), chars_of("webm"),
    ];
    assert(crate::text::views(known@) =~= audio_extensions());
    let mut i: usize = 0;
    while i < known.len()
        invariant
            i <= known.len(),
            crate::text::views(known@) == audio_extensions(),
            0 < k < name@.len(),
            last_dot(name@) == k,
            name@ == file_name@,
            ext@ == lower(name@.subrange(k + 1, name@.len() as int)),
            forall|j: int| 0 <= j < i ==> audio_extensions()[j] != ext@,
        decreases known.len() - i,
    {
        if same_chars(&known[i], &ext) {
            assert(audio_extensions()[i as int] == ext@);
            assert(audio_extensions().contains(ext@));
            return true;
        }
        i += 1;
    }
    false
}

// ---------------------------------------------------------------------------
// Names from file names
// ---------------------------------------------------------------------------

pub open spec fn separator() -> Seq<char> {
    seq![' ', '-', ' ']
}

/// Artist and title read off a file stem `Artist - Title`; a stem without
/// ` - ` is all title, by an unknown artist.
pub open spec fn names_from_stem(stem: Seq<char>) -> (Seq<char>, Seq<char>) {
    let p = first_occurrence(stem, separator(), 0);
    if p > stem.len() {
        ("Unknown Artist"@, stem)
    } else {
        (stem.subrange(0, p), stem.subrange(p + 3, stem.len() as int))
    }
}

/// The artist and title a file name stands for when its tags are silent.
pub fn fallback_names(file_name: Option<&str>) -> (r: (String, String))
    ensures
        ({
            let s = match file_name {
                Some(n) => stem(n@),
                None => "Unknown title"@,
            };
            (r.0@, r.1@) == names_from_stem(s)
        }),
{
    let s: Vec<char> = match file_name {
        Some(n) => {
            let name = chars_of(n);
            match last_dot_of(&name) {
                Some(k) => if k == 0 {
                    name
                } else {
                    slice_of(&name, 0, k)
                },
                None => name,
            }
        },
        None => chars_of("Unknown title"),
    };
    let sep = vec![' ', '-', ' '];
    assert(sep@ =~= separator());
    assert(separator().len() == 3);
    match find_seq(&s, &sep, 0) {
        Some(p) => (string_of(&slice_of(&s, 0, p)), string_of(&slice_of(&s, p + 3, s.len()))),
        None => (string_of(&chars_of("Unknown Artist")), string_of(&s)),
    }
}

// ---------------------------------------------------------------------------
// Lyrics status
// ---------------------------------------------------------------------------

/// The state of the lyrics beside a track: `contents` is the lyrics file's
/// text, `None` when there is no readable file.
pub open spec fn status_of(contents: Option<Seq<char>>, duration_ms: Option<u64>, title: Seq<char>) -> LyricsStatus {
    match contents {
        None => LyricsStatus::Missing,
        Some(text) => if trim(text).len() == 0 {
            LyricsStatus::Missing
        } else if synced(text) {
            match audit(text, duration_ms, title) {
                Some(LrcIssue::TooFewTimestamps) | Some(LrcIssue::TooLong) | Some(
                    LrcIssue::EndsTooEarly,
                ) | Some(LrcIssue::TitleMismatch) => LyricsStatus::Suspicious,
                _ => LyricsStatus::Synced,
            }
        } else {
            LyricsStatus::Plain
        },
    }
}

/// The state of the lyrics beside a track, given the lyrics file's text.
pub fn lyric_status(contents: Option<&str>, duration_ms: Option<u64>, title: &str) -> (r:
    LyricsStatus)
    ensures
        r == status_of(
            match contents {
                Some(t) => Some(t@),
                None => None,
            },
            duration_ms,
            title@,
        ),
{
    let text = match contents {
        Some(t) => t,
        None => return LyricsStatus::Missing,
    };
    if is_blank(&chars_of(text)) {
        return LyricsStatus::Missing;
    }
    if is_synced(text) {
        match audit_lrc(text, duration_ms, title) {
            Some(LrcIssue::TooFewTimestamps) | Some(LrcIssue::TooLong) | Some(
                LrcIssue::EndsTooEarly,
            ) | Some(LrcIssue::TitleMismatch) => LyricsStatus::Suspicious,
            _ => LyricsStatus::Synced,
        }
    } else {
        LyricsStatus::Plain
    }
}

// ---------------------------------------------------------------------------
// Incremental scans
// ---------------------------------------------------------------------------

/// Two modification times are the same file version: both known, and less
/// than 10 ms apart.
pub open spec fn same_version(current: Option<u64>, previous: Option<u64>) -> bool {
    match (current, previous) {
        (Some(c), Some(p)) => -10 < c - p < 10,
        _ => false,
    }
}

/// Whether a file must be read again: it is new to the library or it changed.
pub fn needs_metadata(previous: Option<&Track>, mtime_ms: Option<u64>) -> (r: bool)
    ensures
        r == match previous {
            Some(p) => !same_version(mtime_ms, p.mtime_ms),
            None => true,
        },
{
    match previous {
        None => true,
        Some(p) => match (mtime_ms, p.mtime_ms) {
            (Some(c), Some(q)) => {
                let diff = if c >= q {
                    c - q
                } else {
                    q - c
                };
                !(diff < 10)
            },
            _ => true,
        },
    }
}

/// What a file's tags say, each part possibly missing; the duration in
/// milliseconds, missing when zero.
pub struct AudioTags {
    pub artist: Option<String>,
    pub title: Option<String>,
    pub album: Option<String>,
    pub duration_ms: Option<u64>,
}

pub open spec fn or_else(v: Option<String>, fallback: Seq<char>) -> Seq<char> {
    match v {
        Some(s) => s@,
        None => fallback,
    }
}

/// The track a scan records for a file it read afresh: the tags' names, or
/// the file name's, or "Unknown Album"; the lyrics status judged against
/// the tags' duration and the title.
pub fn fresh_track(
    audio_path: String,
    lrc_path: String,
    file_name: Option<&str>,
    tags: AudioTags,
    lrc_contents: Option<&str>,
    mtime_ms: Option<u64>,
) -> (r: Track)
    ensures
        ({
            let s = match file_name {
                Some(n) => stem(n@),
                None => "Unknown title"@,
            };
            let (fa, ft) = names_from_stem(s);
            let title = or_else(tags.title, ft);
            &&& r.audio_path == audio_path
            &&& r.lrc_path == lrc_path
            &&& r.artist@ == or_else(tags.artist, fa)
            &&& r.title@ == title
            &&& r.album@ == or_else(tags.album, "Unknown Album"@)
            &&& r.duration_ms == tags.duration_ms
            &&& r.status == status_of(
                match lrc_contents {
                    Some(t) => Some(t@),
                    None => None,
                },
                tags.duration_ms,
                title,
            )
            &&& r.mtime_ms == mtime_ms
            &&& r.last_checked_ms is None
        }),
{
    let (fallback_artist, fallback_title) = fallback_names(file_name);
    let title = match tags.title {
        Some(t) => t,
        None => fallback_title,
    };
    let status = lyric_status(lrc_contents, tags.duration_ms, title.as_str());
    let artist = match tags.artist {
        Some(a) => a,
        None => fallback_artist,
    };
    let album = match tags.album {
        Some(a) => a,
        None => string_of(&chars_of("Unknown Album")),
    };
    Track {
        audio_path,
        lrc_path,
        artist,
        title,
        album,
        duration_ms: tags.duration_ms,
        status,
        mtime_ms,
        last_checked_ms: None,
    }
}

/// The track a scan records for an unchanged file: what the last scan knew,
/// with the lyrics status judged again; and whether that status changed.
pub fn rescanned_track(
    audio_path: String,
    lrc_path: String,
    previous: &Track,
    lrc_contents: Option<&str>,
    mtime_ms: Option<u64>,
) -> (r: (Track, bool))
    ensures
        ({
            let status = status_of(
                match lrc_contents {
                    Some(t) => Some(t@),
                    None => None,
                },
                previous.duration_ms,
                previous.title@,
            );
            &&& r.0.audio_path == audio_path
            &&& r.0.lrc_path == lrc_path
            &&& r.0.artist == previous.artist
            &&& r.0.title == previous.title
            &&& r.0.album == previous.album
            &&& r.0.duration_ms == previous.duration_ms
            &&& r.0.status == status
            &&& r.0.mtime_ms == mtime_ms
            &&& r.0.last_checked_ms == previous.last_checked_ms
            &&& r.1 == (status != previous.status)
        }),
{
    let status = lyric_status(lrc_contents, previous.duration_ms, previous.title.as_str());
    let changed = status != previous.status;
    (
        Track {
            audio_path,
            lrc_path,
            artist: previous.artist.clone(),
            title: previous.title.clone(),
            album: previous.album.clone(),
            duration_ms: previous.duration_ms,
            status,
            mtime_ms,
            last_checked_ms: previous.last_checked_ms,
        },
        changed,
    )
}

/// What a scan found: every track, the counts by status, and the tracks that
/// are new or whose lyrics status changed.
pub struct IncrementalScanResult {
    pub all_tracks: Vec<Track>,
    pub summary: ScanSummary,
    pub changed_tracks: Vec<Track>,
}

/// How many of `statuses` are `s`.
pub open spec fn count_status(statuses: Seq<LyricsStatus>, s: LyricsStatus) -> nat
    decreases statuses.len(),
{
    if statuses.len() == 0 {
        0
    } else {
        count_status(statuses.drop_last(), s) + if statuses.last() == s {
            1nat
        } else {
            0nat
        }
    }
}

pub open spec fn statuses_of(tracks: Seq<Track>) -> Seq<LyricsStatus> {
    Seq::new(tracks.len(), |i: int| tracks[i].status)
}

impl IncrementalScanResult {
    /// The tallies agree with the tracks recorded.
    pub open spec fn wf(&self) -> bool {
        let st = statuses_of(self.all_tracks@);
        &&& self.summary.missing == count_status(st, LyricsStatus::Missing)
        &&& self.summary.plain == count_status(st, LyricsStatus::Plain)
        &&& self.summary.synced == count_status(st, LyricsStatus::Synced)
        &&& self.summary.suspicious == count_status(st, LyricsStatus::Suspicious)
        &&& self.all_tracks@.len() <= self.summary.total
    }

    /// An empty result for a scan of `total` files.
    pub fn new(total: usize) -> (r: Self)
        ensures
            r.wf(),
            r.summary.total == total,
            r.all_tracks@.len() == 0,
            r.changed_tracks@.len() == 0,
    {
        IncrementalScanResult {
            all_tracks: Vec::new(),
            summary: ScanSummary { total, missing: 0, plain: 0, synced: 0, suspicious: 0 },
            changed_tracks: Vec::new(),
        }
    }

    /// Scans one file: an unchanged file (same modification time as the
    /// track `previous` an earlier scan recorded for it) keeps what that scan
    /// knew and counts as changed only when its lyrics status did; any other
    /// file is recorded afresh from its `tags` and counts as changed.
    /// `lrc_contents` is the text of the lyrics file beside it, if readable.
    pub fn scan_file(
        &mut self,
        audio_path: String,
        lrc_path: String,
        file_name: Option<&str>,
        previous: Option<&Track>,
        mtime_ms: Option<u64>,
        lrc_contents: Option<&str>,
        tags: Option<AudioTags>,
    )
        requires
            old(self).wf(),
            old(self).all_tracks@.len() < old(self).summary.total,
            match previous {
                Some(p) => !same_version(mtime_ms, p.mtime_ms),
                None => true,
            } ==> tags is Some,
        ensures
            final(self).wf(),
            final(self).summary.total == old(self).summary.total,
            final(self).all_tracks@.len() == old(self).all_tracks@.len() + 1,
            ({
                let t = final(self).all_tracks@.last();
                let contents = match lrc_contents {
                    Some(c) => Some(c@),
                    None => None,
                };
                match previous {
                    Some(p) if same_version(mtime_ms, p.mtime_ms) => {
                        let status = status_of(contents, p.duration_ms, p.title@);
                        &&& t.audio_path == audio_path
                        &&& t.lrc_path == lrc_path
                        &&& t.artist == p.artist
                        &&& t.title == p.title
                        &&& t.album == p.album
                        &&& t.duration_ms == p.duration_ms
                        &&& t.status == status
                        &&& t.mtime_ms == mtime_ms
                        &&& t.last_checked_ms == p.last_checked_ms
                        &&& final(self).changed_tracks@ == if status != p.status {
                            old(self).changed_tracks@.push(t)
                        } else {
                            old(self).changed_tracks@
                        }
                    },
                    _ => {
                        let tg = tags->0;
                        let s = match file_name {
                            Some(n) => stem(n@),
                            None => "Unknown title"@,
                        };
                        let (fa, ft) = names_from_stem(s);
                        let title = or_else(tg.title, ft);
                        &&& t.audio_path == audio_path
                        &&& t.lrc_path == lrc_path
                        &&& t.artist@ == or_else(tg.artist, fa)
                        &&& t.title@ == title
                        &&& t.album@ == or_else(tg.album, "Unknown Album"@)
                        &&& t.duration_ms == tg.duration_ms
                        &&& t.status == status_of(contents, tg.duration_ms, title)
                        &&& t.mtime_ms == mtime_ms
                        &&& t.last_checked_ms is None
                        &&& final(self).changed_tracks@ == old(self).changed_tracks@.push(t)
                    },
                }
            }),
            final(self).all_tracks@.drop_last() == old(self).all_tracks@,
    {
        if !needs_metadata(previous, mtime_ms) {
            if let Some(p) = previous {
                let (track, changed) = rescanned_track(audio_path, lrc_path, p, lrc_contents, mtime_ms);
                self.record(track, changed);
                return;
            }
        }
        match tags {
            Some(tg) => {
                let track = fresh_track(audio_path, lrc_path, file_name, tg, lrc_contents, mtime_ms);
                self.record(track, true);
            },
            None => {},
        }
        assert(old(self).all_tracks@ =~= self.all_tracks@.drop_last());
    }

    /// Records one scanned file's track; `changed` adds it to the changed list.
    pub fn record(&mut self, track: Track, changed: bool)
        requires
            old(self).wf(),
            old(self).all_tracks@.len() < old(self).summary.total,
        ensures
            final(self).wf(),
            final(self).summary.total == old(self).summary.total,
            final(self).all_tracks@ == old(self).all_tracks@.push(track),
            final(self).changed_tracks@ == if changed {
                old(self).changed_tracks@.push(track)
            } else {
                old(self).changed_tracks@
            },
    {
        let ghost before = statuses_of(self.all_tracks@);
        proof {
            lemma_count_bound(before);
        }
        match track.status {
            LyricsStatus::Missing => self.summary.missing = self.summary.missing + 1,
            LyricsStatus::Plain => self.summary.plain = self.summary.plain + 1,
            LyricsStatus::Synced => self.summary.synced = self.summary.synced + 1,
            LyricsStatus::Suspicious => self.summary.suspicious = self.summary.suspicious + 1,
        }
        if changed {
            self.changed_tracks.push(track.copy());
        }
        self.all_tracks.push(track);
        proof {
            assert(statuses_of(self.all_tracks@).drop_last() =~= before);
        }
    }
}

proof fn lemma_count_bound(st: Seq<LyricsStatus>)
    ensures
        count_status(st, LyricsStatus::Missing) + count_status(st, LyricsStatus::Plain)
            + count_status(st, LyricsStatus::Synced) + count_status(st, LyricsStatus::Suspicious)
            == st.len(),
    decreases st.len(),
{
    if st.len() > 0 {
        lemma_count_bound(st.drop_last());
    }
}

/// Every recorded track is counted under exactly one status.
pub proof fn summary_counts_every_track(result: IncrementalScanResult)
    requires
        result.wf(),
    ensures
        result.summary.missing + result.summary.plain + result.summary.synced
            + result.summary.suspicious == result.all_tracks@.len(),
{
    lemma_count_bound(statuses_of(result.all_tracks@));
}

} // verus!

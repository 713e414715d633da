//! The library's track model: lyric status, download modes and which
//! tracks a mode downloads.
use vstd::prelude::*;
use crate::text::{chars_of, same_chars};

verus! {

/// What lyrics a track has beside it.
#[derive(Debug, Clone, Copy, PartialEq, Eq, Structural)]
pub enum LyricsStatus {
    Missing,
    Plain,
    Synced,
    Suspicious,
}

impl LyricsStatus {
    /// Whether there are lyrics to show: synchronized or plain.
    pub fn has_lyrics(self) -> (r: bool)
        ensures
            r == (self == LyricsStatus::Synced || self == LyricsStatus::Plain),
    {
        match self {
            LyricsStatus::Synced | LyricsStatus::Plain => true,
            _ => false,
        }
    }
}

/// Which tracks a bulk download works on.
#[derive(Debug, Clone, Copy, PartialEq, Eq, Structural)]
pub enum DownloadMode {
    MissingOnly,
    SmartUpdate,
    UpgradePlain,
    FixSuspicious,
    ReplaceAll,
}

/// One audio file of the library. Times are whole milliseconds: the audio's
/// length, the file's modification time and when lyrics were last looked for.
#[derive(Debug, Clone)]
pub struct Track {
    pub audio_path: String,
    pub lrc_path: String,
    pub artist: String,
    pub title: String,
    pub album: String,
    pub duration_ms: Option<u64>,
    pub status: LyricsStatus,
    pub mtime_ms: Option<u64>,
    pub last_checked_ms: Option<u64>,
}

/// Whether `mode` downloads lyrics for a track whose lyrics are `status`.
pub open spec fn wants(status: LyricsStatus, mode: DownloadMode) -> bool {
    match mode {
        DownloadMode::MissingOnly => status == LyricsStatus::Missing,
        DownloadMode::SmartUpdate => status != LyricsStatus::Synced,
        DownloadMode::UpgradePlain => status == LyricsStatus::Plain,
        DownloadMode::FixSuspicious => status == LyricsStatus::Suspicious,
        DownloadMode::ReplaceAll => true,
    }
}

/// What each bulk download mode works on, status by status: Missing Only
/// takes exactly the tracks without lyrics; Smart Update every track but the
/// synchronized ones; Upgrade Plain exactly those with plain lyrics; Fix
/// Suspicious exactly those flagged suspicious; Replace All every track.
pub proof fn modes_select_as_documented(status: LyricsStatus)
    ensures
        wants(status, DownloadMode::MissingOnly) <==> status == LyricsStatus::Missing,
        wants(status, DownloadMode::SmartUpdate) <==> status != LyricsStatus::Synced,
        wants(status, DownloadMode::UpgradePlain) <==> status == LyricsStatus::Plain,
        wants(status, DownloadMode::FixSuspicious) <==> status == LyricsStatus::Suspicious,
        wants(status, DownloadMode::ReplaceAll),
{
}

/// The name a status is stored under.
pub open spec fn status_label(status: LyricsStatus) -> Seq<char> {
    match status {
        LyricsStatus::Missing => seq!['m', 'i', 's', 's', 'i', 'n', 'g'],
        LyricsStatus::Plain => seq!['p', 'l', 'a', 'i', 'n'],
        LyricsStatus::Synced => seq!['s', 'y', 'n', 'c', 'e', 'd'],
        LyricsStatus::Suspicious => seq!['s', 'u', 's', 'p', 'i', 'c', 'i', 'o', 'u', 's'],
    }
}

/// The status a stored name stands for; anything unknown reads as missing.
pub open spec fn status_from_label(name: Seq<char>) -> LyricsStatus {
    if name == status_label(LyricsStatus::Plain) {
        LyricsStatus::Plain
    } else if name == status_label(LyricsStatus::Synced) {
        LyricsStatus::Synced
    } else if name == status_label(LyricsStatus::Suspicious) {
        LyricsStatus::Suspicious
    } else {
        LyricsStatus::Missing
    }
}

impl Track {
    /// The title shown for the track.
    pub fn display_title(&self) -> (r: &str)
        ensures
            r@ == self.title@,
    {
        self.title.as_str()
    }

    /// Whether a download in `mode` should look for lyrics for this track.
    pub fn should_download(&self, mode: DownloadMode) -> (r: bool)
        ensures
            r == wants(self.status, mode),
    {
        match mode {
            DownloadMode::MissingOnly => self.status == LyricsStatus::Missing,
            DownloadMode::SmartUpdate => match self.status {
                LyricsStatus::Missing | LyricsStatus::Plain | LyricsStatus::Suspicious => true,
                LyricsStatus::Synced => false,
            },
            DownloadMode::UpgradePlain => self.status == LyricsStatus::Plain,
            DownloadMode::FixSuspicious => self.status == LyricsStatus::Suspicious,
            DownloadMode::ReplaceAll => true,
        }
    }

    /// A field-by-field copy of the track.
    pub fn copy(&self) -> (r: Track)
        ensures
            r == *self,
    {
        Track {
            audio_path: self.audio_path.clone(),
            lrc_path: self.lrc_path.clone(),
            artist: self.artist.clone(),
            title: self.title.clone(),
            album: self.album.clone(),
            duration_ms: self.duration_ms,
            status: self.status,
            mtime_ms: self.mtime_ms,
            last_checked_ms: self.last_checked_ms,
        }
    }
}

/// Replace-all downloads every track, and every track some mode downloads is
/// also downloaded by a smart update unless its lyrics are already synced.
pub proof fn download_modes_nest(status: LyricsStatus, mode: DownloadMode)
    ensures
        wants(status, DownloadMode::ReplaceAll),
        wants(status, mode) && mode != DownloadMode::ReplaceAll ==> wants(
            status,
            DownloadMode::SmartUpdate,
        ),
        wants(status, DownloadMode::SmartUpdate) <==> status != LyricsStatus::Synced,
{
}

/// The name `status` is stored under.
pub fn status_name(status: LyricsStatus) -> (r: String)
    ensures
        r@ == status_label(status),
{
    let name = match status {
        LyricsStatus::Missing => vec!['m', 'i', 's', 's', 'i', 'n', 'g'],
        LyricsStatus::Plain => vec!['p', 'l', 'a', 'i', 'n'],
        LyricsStatus::Synced => vec!['s', 'y', 'n', 'c', 'e', 'd'],
        LyricsStatus::Suspicious => vec!['s', 'u', 's', 'p', 'i', 'c', 'i', 'o', 'u', 's'],
    };
    let r = crate::text::string_of(&name);
    assert(r@ =~= status_label(status));
    r
}

/// The status stored under `name`; anything unknown reads as missing.
pub fn parse_status(name: &str) -> (r: LyricsStatus)
    ensures
        r == status_from_label(name@),
{
    let chars = chars_of(name);
    let plain = vec!['p', 'l', 'a', 'i', 'n'];
    let synced = vec!['s', 'y', 'n', 'c', 'e', 'd'];
    let suspicious = vec!['s', 'u', 's', 'p', 'i', 'c', 'i', 'o', 'u', 's'];
    assert(plain@ =~= status_label(LyricsStatus::Plain));
    assert(synced@ =~= status_label(LyricsStatus::Synced));
    assert(suspicious@ =~= status_label(LyricsStatus::Suspicious));
    if same_chars(&chars, &plain) {
        LyricsStatus::Plain
    } else if same_chars(&chars, &synced) {
        LyricsStatus::Synced
    } else if same_chars(&chars, &suspicious) {
        LyricsStatus::Suspicious
    } else {
        LyricsStatus::Missing
    }
}

/// Reading a stored status name gives back the status it was stored from.
pub proof fn status_names_round_trip(status: LyricsStatus)
    ensures
        status_from_label(status_label(status)) == status,
{
    assert(status_label(LyricsStatus::Missing) != status_label(LyricsStatus::Plain));
    assert(status_label(LyricsStatus::Missing) != status_label(LyricsStatus::Synced));
    assert(status_label(LyricsStatus::Missing) != status_label(LyricsStatus::Suspicious));
    assert(status_label(LyricsStatus::Synced) != status_label(LyricsStatus::Plain));
    assert(status_label(LyricsStatus::Suspicious) != status_label(LyricsStatus::Plain));
    assert(status_label(LyricsStatus::Suspicious) != status_label(LyricsStatus::Synced));
}

} // verus!

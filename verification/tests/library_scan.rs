use lyrics_core::model::{parse_status, status_name, DownloadMode, LyricsStatus, Track};
use lyrics_core::scanner::{
    fallback_names, fresh_track, is_supported_audio, lyric_status, needs_metadata, rescanned_track, AudioTags,
    IncrementalScanResult,
};

fn untagged() -> AudioTags {
    AudioTags { artist: None, title: None, album: None, duration_ms: None }
}

#[test]
fn recognises_audio_by_extension_in_any_case() {
    assert!(is_supported_audio("song.MP3"));
    assert!(is_supported_audio("a.b.flac"));
    assert!(!is_supported_audio("cover.jpg"));
    assert!(!is_supported_audio(".mp3"));
    assert!(!is_supported_audio("mp3"));
}

#[test]
fn falls_back_to_the_file_name_for_names() {
    assert_eq!(fallback_names(Some("Artist - Title.mp3")), ("Artist".to_string(), "Title".to_string()));
    assert_eq!(fallback_names(Some("Just a title.flac")), ("Unknown Artist".to_string(), "Just a title".to_string()));
    assert_eq!(fallback_names(None), ("Unknown Artist".to_string(), "Unknown title".to_string()));
}

#[test]
fn a_fresh_track_uses_tags_then_the_file_name() {
    let t = fresh_track("/m/A - B.mp3".to_string(), "/m/A - B.lrc".to_string(), Some("A - B.mp3"), untagged(), None, Some(5));
    assert_eq!(t.artist, "A");
    assert_eq!(t.title, "B");
    assert_eq!(t.album, "Unknown Album");
    assert_eq!(t.status, LyricsStatus::Missing);
    assert_eq!(t.mtime_ms, Some(5));
    let tags = AudioTags { artist: Some("X".to_string()), title: Some("Y".to_string()), album: Some("Z".to_string()), duration_ms: Some(1000) };
    let t = fresh_track("/m/a.mp3".to_string(), "/m/a.lrc".to_string(), Some("a.mp3"), tags, Some("words"), None);
    assert_eq!((t.artist.as_str(), t.title.as_str(), t.album.as_str()), ("X", "Y", "Z"));
    assert_eq!(t.status, LyricsStatus::Plain);
}

#[test]
fn reports_each_lyrics_status() {
    assert_eq!(lyric_status(None, None, "t"), LyricsStatus::Missing);
    assert_eq!(lyric_status(Some("  \n"), None, "t"), LyricsStatus::Missing);
    assert_eq!(lyric_status(Some("plain words"), None, "t"), LyricsStatus::Plain);
    assert_eq!(lyric_status(Some("[00:01]a\n[00:02]b\n[00:03]c"), Some(4_000), "t"), LyricsStatus::Synced);
    assert_eq!(lyric_status(Some("[00:01]a\n[00:02]b"), None, "t"), LyricsStatus::Plain);
    assert_eq!(lyric_status(Some("[00:01]a\n[00:02]b\n[00:30]c"), Some(4_000), "t"), LyricsStatus::Suspicious);
}

#[test]
fn metadata_is_read_again_only_for_a_changed_file() {
    let previous = fresh_track("a.mp3".to_string(), "a.lrc".to_string(), Some("a.mp3"), untagged(), None, Some(1_000));
    assert!(!needs_metadata(Some(&previous), Some(1_005)));
    assert!(needs_metadata(Some(&previous), Some(1_010)));
    assert!(needs_metadata(Some(&previous), None));
    assert!(needs_metadata(None, Some(1_000)));
    let (again, changed) = rescanned_track("a.mp3".to_string(), "a.lrc".to_string(), &previous, Some("text"), Some(1_000));
    assert!(changed);
    assert_eq!(again.status, LyricsStatus::Plain);
    assert_eq!(again.title, previous.title);
}

#[test]
fn the_summary_counts_every_scanned_track() {
    let mut result = IncrementalScanResult::new(3);
    let a = fresh_track("a.mp3".to_string(), "a.lrc".to_string(), Some("a.mp3"), untagged(), None, None);
    let b = fresh_track("b.mp3".to_string(), "b.lrc".to_string(), Some("b.mp3"), untagged(), Some("words"), None);
    let c = fresh_track("c.mp3".to_string(), "c.lrc".to_string(), Some("c.mp3"), untagged(), Some("[00:01]a\n[00:02]b\n[00:03]c"), None);
    result.record(a, true);
    result.record(b, false);
    result.record(c, true);
    assert_eq!(result.summary.total, 3);
    assert_eq!(result.summary.missing, 1);
    assert_eq!(result.summary.plain, 1);
    assert_eq!(result.summary.synced, 1);
    assert_eq!(result.changed_tracks.len(), 2);
    assert_eq!(result.all_tracks.len(), 3);
}

#[test]
fn status_names_round_trip() {
    for s in [LyricsStatus::Missing, LyricsStatus::Plain, LyricsStatus::Synced, LyricsStatus::Suspicious] {
        assert_eq!(parse_status(&status_name(s)), s);
    }
    assert_eq!(parse_status("nonsense"), LyricsStatus::Missing);
}

#[test]
fn modes_pick_their_tracks() {
    let mut t: Track = fresh_track("a.mp3".to_string(), "a.lrc".to_string(), Some("a.mp3"), untagged(), None, None);
    assert!(t.should_download(DownloadMode::MissingOnly));
    t.status = LyricsStatus::Synced;
    assert!(!t.should_download(DownloadMode::SmartUpdate));
    assert!(t.should_download(DownloadMode::ReplaceAll));
    t.status = LyricsStatus::Plain;
    assert!(t.should_download(DownloadMode::UpgradePlain));
    assert!(!t.should_download(DownloadMode::FixSuspicious));
    assert_eq!(t.display_title(), "a");
}

#[test]
fn scans_supported_files_and_falls_back_to_filename_metadata() {
    let files = ["Artist - Song.mp3", "ignored.txt"];
    let audio: Vec<&str> = files.iter().copied().filter(|f| is_supported_audio(f)).collect();
    let mut result = IncrementalScanResult::new(audio.len());
    for name in &audio {
        result.scan_file(
            format!("/m/{name}"),
            "/m/Artist - Song.lrc".to_string(),
            Some(name),
            None,
            Some(1_000),
            Some("[00:01]a\n[00:02]b\n[00:03]c"),
            Some(untagged()),
        );
    }
    assert_eq!(result.all_tracks.len(), 1);
    assert_eq!(result.all_tracks[0].artist, "Artist");
    assert_eq!(result.all_tracks[0].title, "Song");
    assert_eq!(result.summary.synced, 1);
    assert_eq!(result.changed_tracks.len(), 1);
}

#[test]
fn reports_each_lyrics_status_in_summary() {
    let files = [
        ("Artist - Missing.mp3", None),
        ("Artist - Plain.mp3", Some("plain lyrics")),
        ("Artist - Synced.mp3", Some("[00:01]a\n[00:02]b\n[00:03]c")),
    ];
    let mut result = IncrementalScanResult::new(files.len());
    for (name, lyrics) in files {
        result.scan_file(format!("/m/{name}"), format!("/m/{name}.lrc"), Some(name), None, None, lyrics, Some(untagged()));
    }
    assert_eq!(result.summary.total, 3);
    assert_eq!(result.summary.missing, 1);
    assert_eq!(result.summary.plain, 1);
    assert_eq!(result.summary.synced, 1);
}

#[test]
fn incremental_scan_skips_metadata_when_mtime_matches() {
    let previous = Track {
        audio_path: "/m/Artist - Song.mp3".to_string(),
        lrc_path: "/m/Artist - Song.lrc".to_string(),
        artist: "PreExistingArtist".to_string(),
        title: "PreExistingTitle".to_string(),
        album: "PreExistingAlbum".to_string(),
        duration_ms: Some(4_000),
        status: LyricsStatus::Synced,
        mtime_ms: Some(1_700_000_000_000),
        last_checked_ms: None,
    };
    let mtime = Some(1_700_000_000_000);
    assert!(!needs_metadata(Some(&previous), mtime));
    let mut result = IncrementalScanResult::new(1);
    result.scan_file(
        previous.audio_path.clone(),
        previous.lrc_path.clone(),
        Some("Artist - Song.mp3"),
        Some(&previous),
        mtime,
        Some("[00:01]a\n[00:02]b\n[00:03]c"),
        None,
    );
    assert_eq!(result.all_tracks.len(), 1);
    assert_eq!(result.all_tracks[0].artist, "PreExistingArtist");
    assert_eq!(result.all_tracks[0].album, "PreExistingAlbum");
    assert_eq!(result.all_tracks[0].status, LyricsStatus::Synced);
    assert!(result.changed_tracks.is_empty(), "Unchanged track must not be marked as changed!");
}

#[test]
fn a_changed_file_is_read_afresh_and_reported() {
    let previous = fresh_track("/m/a.mp3".to_string(), "/m/a.lrc".to_string(), Some("a.mp3"), untagged(), None, Some(1_000));
    let mut result = IncrementalScanResult::new(2);
    let tags = AudioTags { artist: Some("New".to_string()), title: None, album: None, duration_ms: None };
    result.scan_file("/m/a.mp3".to_string(), "/m/a.lrc".to_string(), Some("a.mp3"), Some(&previous), Some(2_000), None, Some(tags));
    assert_eq!(result.all_tracks[0].artist, "New");
    assert_eq!(result.changed_tracks.len(), 1);
    // An unchanged file whose lyrics appeared counts as changed.
    result.scan_file("/m/a.mp3".to_string(), "/m/a.lrc".to_string(), Some("a.mp3"), Some(&previous), Some(1_000), Some("words"), None);
    assert_eq!(result.all_tracks[1].status, LyricsStatus::Plain);
    assert_eq!(result.changed_tracks.len(), 2);
}

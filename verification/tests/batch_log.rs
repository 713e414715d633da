use lyrics_core::batch::{
    current_track_text, download_candidates, finish_text, progress_text, provider_summary, BatchStats,
};
use lyrics_core::download::{DownloadEvent, DownloadOutcome};
use lyrics_core::model::{DownloadMode, LyricsStatus, Track};
use lyrics_core::providers::ProviderName;

fn track(title: &str, status: LyricsStatus) -> Track {
    Track {
        audio_path: format!("{title}.mp3"),
        lrc_path: format!("{title}.lrc"),
        artist: "Artist".to_string(),
        title: title.to_string(),
        album: "Album".to_string(),
        duration_ms: None,
        status,
        mtime_ms: None,
        last_checked_ms: None,
    }
}

#[test]
fn a_batch_works_on_the_tracks_its_mode_wants_in_order() {
    let tracks = vec![
        track("a", LyricsStatus::Synced),
        track("b", LyricsStatus::Missing),
        track("c", LyricsStatus::Plain),
        track("d", LyricsStatus::Suspicious),
    ];
    let smart = download_candidates(&tracks, DownloadMode::SmartUpdate);
    let titles: Vec<&str> = smart.iter().map(|t| t.title.as_str()).collect();
    assert_eq!(titles, vec!["b", "c", "d"]);
    let missing = download_candidates(&tracks, DownloadMode::MissingOnly);
    assert_eq!(missing.len(), 1);
    assert_eq!(missing[0].title, "b");
    assert_eq!(download_candidates(&tracks, DownloadMode::ReplaceAll).len(), 4);
    assert!(download_candidates(&[], DownloadMode::ReplaceAll).is_empty());
}

#[test]
fn the_progress_line_counts_from_one_and_shows_what_is_left() {
    assert_eq!(progress_text(0, 3), "Song 1 of 3 (3 remaining)");
    assert_eq!(progress_text(2, 3), "Song 3 of 3 (1 remaining)");
    assert_eq!(current_track_text(&track("Song", LyricsStatus::Missing)), "Artist \u{2014} Song");
}

#[test]
fn each_outcome_is_tallied_and_logged() {
    let mut stats = BatchStats::new(5);
    let synced = stats.record(0, &Ok(DownloadOutcome::Downloaded { provider: ProviderName::Lrclib, synced: true }));
    assert_eq!(synced.badge_text, "SYNCED");
    assert_eq!(synced.badge_type, "synced");
    assert_eq!(synced.action_text, "\u{2192} Saved synced lyrics from LRCLib");
    assert!(!synced.stopped);
    assert!(matches!(synced.written, Some((LyricsStatus::Synced, ProviderName::Lrclib))));

    let plain = stats.record(1, &Ok(DownloadOutcome::Downloaded { provider: ProviderName::Genius, synced: false }));
    assert_eq!(plain.badge_text, "PLAIN");
    assert_eq!(plain.action_text, "\u{2192} Saved plain lyrics from Genius");
    assert!(matches!(plain.written, Some((LyricsStatus::Plain, ProviderName::Genius))));

    let missing = stats.record(2, &Ok(DownloadOutcome::NotFound));
    assert_eq!(missing.badge_text, "NOT FOUND");
    assert_eq!(missing.badge_type, "missing");
    assert!(missing.written.is_none());

    let skipped = stats.record(3, &Ok(DownloadOutcome::Skipped));
    assert_eq!(skipped.badge_text, "SKIPPED");
    assert_eq!(skipped.action_text, "\u{2192} Skipped (kept existing lyrics)");

    let failed = stats.record(4, &Err("timeout".to_string()));
    assert_eq!(failed.badge_text, "ERROR");
    assert_eq!(failed.badge_type, "error");
    assert_eq!(failed.action_text, "\u{2192} Error: timeout");

    assert_eq!(stats.processed, 5);
    assert_eq!(stats.remaining, 0);
    assert_eq!((stats.synced, stats.plain, stats.not_found, stats.errors), (1, 1, 1, 1));
    assert_eq!(
        finish_text(&stats, 5),
        "Processed 5/5 tracks. Synced: 1, Plain: 1, Not Found: 1, Errors: 1"
    );
}

#[test]
fn a_cancelled_track_stops_the_batch_without_a_tally() {
    let mut stats = BatchStats::new(3);
    let entry = stats.record(0, &Ok(DownloadOutcome::Cancelled));
    assert!(entry.stopped);
    assert_eq!(entry.badge_text, "CANCELLED");
    assert_eq!(entry.action_text, "\u{2192} Cancelled by user");
    assert_eq!(stats.processed, 1);
    assert_eq!(stats.remaining, 2);
    assert_eq!(stats.synced + stats.plain + stats.not_found + stats.errors, 0);
}

#[test]
fn the_provider_summary_joins_each_answer() {
    let events = vec![
        DownloadEvent::Started { title: "Song".to_string() },
        DownloadEvent::Searching { provider: ProviderName::Lrclib },
        DownloadEvent::ProviderNotFound { provider: ProviderName::Lrclib },
        DownloadEvent::ProviderFailed { provider: ProviderName::Netease, message: "boom".to_string() },
        DownloadEvent::ProviderFound { provider: ProviderName::Musixmatch, synced: true },
        DownloadEvent::Written { provider: ProviderName::Musixmatch, synced: true },
    ];
    assert_eq!(
        provider_summary(&events),
        "\u{2717} LRCLib  |  \u{26a0} NetEase (error)  |  \u{2713} Musixmatch (synced)"
    );
    let plain = vec![DownloadEvent::ProviderFound { provider: ProviderName::Genius, synced: false }];
    assert_eq!(provider_summary(&plain), "\u{2713} Genius (plain)");
    assert_eq!(provider_summary(&[DownloadEvent::Skipped]), "No provider responses");
}

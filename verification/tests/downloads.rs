use lyrics_core::download::{DownloadAction, DownloadError, DownloadEvent, DownloadOutcome, DownloadSession};
use lyrics_core::model::{DownloadMode, LyricsStatus, Track};
use lyrics_core::providers::{ProviderError, ProviderLyrics, ProviderName};

type Answer = Result<Option<ProviderLyrics>, ProviderError>;

fn track(status: LyricsStatus) -> Track {
    Track {
        audio_path: "song.mp3".to_string(),
        lrc_path: "song.lrc".to_string(),
        artist: "Artist".to_string(),
        title: "Song".to_string(),
        album: "Album".to_string(),
        duration_ms: None,
        status,
        mtime_ms: None,
        last_checked_ms: None,
    }
}

fn lyrics(provider: ProviderName, synced: Option<&str>, plain: Option<&str>, confidence: u32) -> ProviderLyrics {
    ProviderLyrics {
        provider,
        synced: synced.map(|s| s.to_string()),
        plain: plain.map(|s| s.to_string()),
        confidence,
    }
}

/// Runs a session to its end: `answers[i]` are provider `i`'s answers in
/// the order it is asked; the cancel flag reads `cancel_after` checks in.
fn drive(
    track: &Track,
    mode: DownloadMode,
    names: Vec<ProviderName>,
    mut answers: Vec<Vec<Answer>>,
    cancel_after: Option<usize>,
) -> (Result<DownloadOutcome, DownloadError>, Vec<DownloadEvent>, Option<String>, usize) {
    let mut session = DownloadSession::new(track, mode, names);
    let mut events = Vec::new();
    let mut written = None;
    let mut checks = 0;
    let mut sleeps = 0;
    let mut step = session.start();
    loop {
        events.extend(step.events);
        step = match step.action {
            DownloadAction::CheckCancelled => {
                checks += 1;
                let cancelled = cancel_after.map_or(false, |n| checks > n);
                session.on_cancel_flag(cancelled)
            }
            DownloadAction::Search { index } => session.on_search(answers[index].remove(0)),
            DownloadAction::SleepOneSecond => {
                sleeps += 1;
                session.on_slept()
            }
            DownloadAction::Write { text } => {
                written = Some(text);
                session.on_written(Ok(()))
            }
            DownloadAction::Finish { outcome } => return (outcome, events, written, sleeps),
        }
    }
}

#[test]
fn chooses_synced_result_and_writes_it() {
    let (outcome, events, written, _) = drive(
        &track(LyricsStatus::Missing),
        DownloadMode::MissingOnly,
        vec![ProviderName::Genius, ProviderName::Lrclib],
        vec![
            vec![Ok(Some(lyrics(ProviderName::Genius, None, Some("plain"), 1000)))],
            vec![Ok(Some(lyrics(ProviderName::Lrclib, Some("[00:01]synced"), None, 500)))],
        ],
        None,
    );
    assert!(matches!(
        outcome,
        Ok(DownloadOutcome::Downloaded { provider: ProviderName::Lrclib, synced: true })
    ));
    assert_eq!(written.as_deref(), Some("[00:01]synced"));
    assert!(events.iter().any(|e| matches!(e, DownloadEvent::Written { synced: true, .. })));
}

#[test]
fn retries_temporary_provider_failures() {
    let (outcome, events, _, sleeps) = drive(
        &track(LyricsStatus::Missing),
        DownloadMode::MissingOnly,
        vec![ProviderName::Lrclib],
        vec![vec![
            Err(ProviderError::Request("temporary failure".to_string())),
            Ok(Some(lyrics(ProviderName::Lrclib, Some("[00:01]retried"), None, 900))),
        ]],
        None,
    );
    assert!(matches!(outcome, Ok(DownloadOutcome::Downloaded { .. })));
    assert!(events.iter().any(|e| matches!(e, DownloadEvent::Retrying { attempt: 1, delay_seconds: 2, .. })));
    assert_eq!(sleeps, 2);
}

#[test]
fn upgrade_plain_ignores_plain_only_and_emits_provider_events() {
    let (outcome, events, written, _) = drive(
        &track(LyricsStatus::Plain),
        DownloadMode::UpgradePlain,
        vec![ProviderName::Genius, ProviderName::Lrclib],
        vec![
            vec![Ok(Some(lyrics(ProviderName::Genius, None, Some("plain lyrics only"), 500)))],
            vec![Ok(None)],
        ],
        None,
    );
    assert!(matches!(outcome, Ok(DownloadOutcome::NotFound)));
    assert!(written.is_none());
    assert!(events.iter().any(|e| matches!(
        e,
        DownloadEvent::ProviderFound { provider: ProviderName::Genius, synced: false }
    )));
    assert!(events.iter().any(|e| matches!(e, DownloadEvent::ProviderNotFound { provider: ProviderName::Lrclib })));
}

#[test]
fn a_track_the_mode_does_not_want_is_skipped() {
    let (outcome, events, written, _) = drive(
        &track(LyricsStatus::Synced),
        DownloadMode::MissingOnly,
        vec![ProviderName::Lrclib],
        vec![vec![]],
        None,
    );
    assert!(matches!(outcome, Ok(DownloadOutcome::Skipped)));
    assert!(written.is_none());
    assert!(matches!(events.first(), Some(DownloadEvent::Started { .. })));
    assert!(matches!(events.last(), Some(DownloadEvent::Skipped)));
}

#[test]
fn a_cancelled_download_stops_before_the_next_provider() {
    let (outcome, events, written, _) = drive(
        &track(LyricsStatus::Missing),
        DownloadMode::MissingOnly,
        vec![ProviderName::Lrclib, ProviderName::Genius],
        vec![vec![], vec![]],
        Some(0),
    );
    assert!(matches!(outcome, Ok(DownloadOutcome::Cancelled)));
    assert!(written.is_none());
    assert!(events.iter().any(|e| matches!(e, DownloadEvent::Cancelled)));
}

#[test]
fn a_rate_limit_waits_as_told_up_to_a_minute() {
    let (outcome, events, _, sleeps) = drive(
        &track(LyricsStatus::Missing),
        DownloadMode::MissingOnly,
        vec![ProviderName::Lrclib],
        vec![vec![
            Err(ProviderError::RateLimited { retry_after_seconds: Some(3) }),
            Ok(None),
        ]],
        None,
    );
    assert!(matches!(outcome, Ok(DownloadOutcome::NotFound)));
    assert!(events.iter().any(|e| matches!(e, DownloadEvent::Retrying { attempt: 1, delay_seconds: 3, .. })));
    assert_eq!(sleeps, 3);
}

#[test]
fn a_provider_that_keeps_failing_is_reported_after_two_retries() {
    let (outcome, events, _, sleeps) = drive(
        &track(LyricsStatus::Missing),
        DownloadMode::MissingOnly,
        vec![ProviderName::Netease],
        vec![vec![
            Err(ProviderError::Request("down".to_string())),
            Err(ProviderError::Request("down".to_string())),
            Err(ProviderError::Request("down".to_string())),
        ]],
        None,
    );
    assert!(matches!(outcome, Ok(DownloadOutcome::NotFound)));
    assert_eq!(sleeps, 2 + 4);
    assert!(events.iter().any(|e| matches!(
        e,
        DownloadEvent::ProviderFailed { message, .. } if message == "provider request failed: down"
    )));
}

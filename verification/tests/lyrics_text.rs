use lyrics_core::lrc::{
    audit_lrc, is_synced, lyrics_panel, parse_lines, parse_timestamps, strip_timestamps, titles_match,
    LrcIssue, LyricsPanel,
};

#[test]
fn parses_two_and_three_digit_centiseconds() {
    assert_eq!(parse_timestamps("[01:02.34]a\n[01:03.456]b"), vec![62340u128, 63456]);
}

#[test]
fn audits_short_timestamp_sets_as_not_downloadable() {
    assert_eq!(
        audit_lrc("[00:01]one\n[00:02]two", Some(3000), ""),
        Some(LrcIssue::TooFewTimestamps)
    );
}

#[test]
fn matches_titles_without_release_noise() {
    assert!(titles_match("Song (Live)", "song"));
}

#[test]
fn title_match_is_symmetric_on_examples() {
    assert_eq!(titles_match("song", "Song (Live)"), titles_match("Song (Live)", "song"));
    assert!(titles_match("Hello", "Hello"));
    assert!(!titles_match("Hello", "Goodbye Forever"));
}

#[test]
fn timestamps_come_out_sorted() {
    assert_eq!(parse_timestamps("[00:03]c\n[00:01]a\n[00:02]b"), vec![1000u128, 2000, 3000]);
}

#[test]
fn synchronized_lyrics_need_three_time_tags() {
    assert!(!is_synced("[00:01]a\n[00:02]b"));
    assert!(is_synced("[00:01]a\n[00:02]b\n[00:03]c"));
    assert!(!is_synced("plain words only"));
}

#[test]
fn lines_are_ordered_by_time() {
    let lines = parse_lines("[00:02.00]second\n[00:01.00]first");
    assert_eq!(lines.len(), 2);
    assert_eq!(lines[0].timestamp_ms, 1000);
    assert_eq!(lines[0].text, "first");
    assert_eq!(lines[1].text, "second");
}

#[test]
fn plain_text_drops_tags_and_blank_lines() {
    assert_eq!(strip_timestamps("[00:01]Hello\n[00:02]World"), "Hello\nWorld");
    assert_eq!(strip_timestamps("[00:01]Hello"), "Hello");
    assert_eq!(strip_timestamps("[ar:Someone]\n\n[00:01] Hi "), "Hi");
}

#[test]
fn audit_flags_each_issue() {
    assert_eq!(audit_lrc("", None, ""), Some(LrcIssue::Empty));
    assert_eq!(audit_lrc("just words", None, ""), Some(LrcIssue::NotSynced));
    let three = "[00:01]a\n[00:02]b\n[00:03]c";
    assert_eq!(audit_lrc(three, None, ""), None);
}

#[test]
fn audit_flags_lyrics_longer_or_far_shorter_than_the_audio() {
    let late = "[00:01]a\n[00:02]b\n[00:20]c";
    assert_eq!(audit_lrc(late, Some(10_000), ""), Some(LrcIssue::TooLong));
    let early = "[00:01]a\n[00:02]b\n[00:03]c";
    assert_eq!(audit_lrc(early, Some(100_000), ""), Some(LrcIssue::EndsTooEarly));
    assert_eq!(audit_lrc(early, Some(4_000), ""), None);
}

#[test]
fn the_lyrics_panel_shows_timed_plain_or_nothing() {
    match lyrics_panel(Some("[00:02.50]b\n[00:01]a")) {
        LyricsPanel::Synced(lines) => {
            let got: Vec<(u128, String)> = lines.into_iter().map(|l| (l.timestamp_ms, l.text)).collect();
            assert_eq!(got, vec![(1_000, "a".to_string()), (2_500, "b".to_string())]);
        }
        _ => panic!("timed lines should show as synchronized"),
    }
    // Only lines at the very start: the text is shown as it is.
    match lyrics_panel(Some("[00:00]intro")) {
        LyricsPanel::Plain(text) => assert_eq!(text, "[00:00]intro"),
        _ => panic!("untimed text should show as plain"),
    }
    match lyrics_panel(Some("just words\n")) {
        LyricsPanel::Plain(text) => assert_eq!(text, "just words\n"),
        _ => panic!("plain text should show as plain"),
    }
    assert!(matches!(lyrics_panel(Some("  \n ")), LyricsPanel::Missing));
    assert!(matches!(lyrics_panel(None), LyricsPanel::Missing));
    assert!(lyrics_core::model::LyricsStatus::Plain.has_lyrics());
    assert!(!lyrics_core::model::LyricsStatus::Suspicious.has_lyrics());
}

#[test]
fn seconds_are_read_as_decimal_numbers_with_sign_and_exponent() {
    assert_eq!(parse_timestamps("[00:1e1]a"), vec![10_000u128]);
    assert_eq!(parse_timestamps("[01:+5]a"), vec![65_000u128]);
    assert_eq!(parse_timestamps("[00:-0]a"), vec![0u128]);
    assert_eq!(parse_timestamps("[00:5.5E-1]a"), vec![550u128]);
    assert_eq!(parse_timestamps("[00:.5]a\n[00:2.]b"), vec![500u128, 2_000]);
    assert_eq!(parse_timestamps("[00:0.0004]a\n[00:0.0005]b"), vec![0u128, 1]);
    assert_eq!(parse_timestamps("[00:59.9996]a"), vec![60_000u128]);
    assert_eq!(parse_timestamps("[00:6e1]a"), Vec::<u128>::new());
    assert_eq!(parse_timestamps("[00:-5]a"), Vec::<u128>::new());
    assert_eq!(parse_timestamps("[00:1e]a\n[00:e1]b\n[00:.]c\n[00:inf]d\n[00:NaN]e"), Vec::<u128>::new());
    assert_eq!(parse_timestamps("[00:1e-99999999999999999999999]a"), vec![0u128]);
    assert_eq!(parse_timestamps("[00:1e99999999999999999999999]a"), Vec::<u128>::new());
    assert_eq!(parse_timestamps("[00:0000000000000000000000000012.5e0]a"), vec![12_500u128]);
}

#[test]
fn malformed_lines_are_skipped_not_fatal() {
    assert!(parse_lines("]x").is_empty());
    assert!(parse_lines("\u{e9}]y").is_empty());
    let lines = parse_lines("]x\n[00:01]one\n\u{e9}[00:02]two");
    assert_eq!(lines.len(), 1);
    assert_eq!(lines[0].text, "one");
    assert!(matches!(lyrics_panel(Some("]x\n[00:03]three")), LyricsPanel::Synced(_)));
}

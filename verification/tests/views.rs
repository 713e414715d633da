use lyrics_core::art_jobs::ArtLoader;
use lyrics_core::library::{
    album_cover_sources, build_album_data, build_artist_data, album_image_key, library_status_line, release_reply_status, release_status, track_subtitle, album_rows, build_summary, current_timestamp, duration_label, format_time, row_index,
    track_art_key, version_is_newer, AppState, ALBUM_GRID_COLUMNS,
};
use lyrics_core::model::{LyricsStatus, Track};

fn mk_track(path: &str, artist: &str, title: &str, album: &str, status: LyricsStatus) -> Track {
    Track {
        audio_path: path.to_string(),
        lrc_path: path.replace(".mp3", ".lrc"),
        artist: artist.to_string(),
        title: title.to_string(),
        album: album.to_string(),
        duration_ms: Some(180_000),
        status,
        mtime_ms: None,
        last_checked_ms: None,
    }
}

#[test]
fn version_compare_handles_the_shapes_a_release_tag_takes() {
    assert!(version_is_newer("1.0.1", "1.0.0"));
    assert!(version_is_newer("0.2", "0.1.9"));
    assert!(version_is_newer("2.0.0", "1.9.9"));
    assert!(!version_is_newer("1.0.0", "1.0.0"));
    assert!(!version_is_newer("0.9.9", "1.0.0"));
    assert!(!version_is_newer("1.1.0-beta.1", "1.0.0"));
    assert!(!version_is_newer("", "1.0.0"));
}

#[test]
fn versions_pad_missing_parts_with_zeros_and_trim_spaces() {
    assert!(!version_is_newer("1.0", "1.0.0"));
    assert!(!version_is_newer("1.0.0", "1.0"));
    assert!(!version_is_newer("1.0.0", "1"));
    assert!(version_is_newer(" 1 . 2 ", "1.1"));
    assert!(!version_is_newer("1.2", "junk"));
    assert!(!version_is_newer("1..2", "1.0"));
}

#[test]
fn album_grid_rows_cover_every_album() {
    for count in [0usize, 1, 4, 5, 6, 12, 118] {
        let rows = album_rows(count);
        assert!(
            rows.len() * ALBUM_GRID_COLUMNS >= count,
            "{count} albums need at least {} rows, got {}",
            count.div_ceil(ALBUM_GRID_COLUMNS),
            rows.len()
        );
    }
    assert!(album_rows(0).is_empty());
    assert_eq!(album_rows(ALBUM_GRID_COLUMNS).len(), 1);
}

#[test]
fn album_rows_count_up_from_zero() {
    assert_eq!(album_rows(11), vec![0, 1, 2]);
    assert_eq!(album_rows(10), vec![0, 1]);
}

#[test]
fn format_time_formats_correctly() {
    assert_eq!(format_time(0), "0:00");
    assert_eq!(format_time(65), "1:05");
    assert_eq!(format_time(3661), "61:01");
}

#[test]
fn clock_and_duration_labels() {
    assert_eq!(current_timestamp(0), "00:00:00");
    assert_eq!(current_timestamp(86_400 + 3_600 * 13 + 60 * 4 + 9), "13:04:09");
    assert_eq!(duration_label(Some(125_999)), "2:05");
    assert_eq!(duration_label(None), "--:--");
}

#[test]
fn keys_for_artwork() {
    assert_eq!(album_image_key("Abbey Road"), "album:Abbey Road");
    assert_eq!(track_art_key("C:/m/a.mp3"), "C:/m/a.mp3");
}

#[test]
fn summary_counts_every_status() {
    let tracks = vec![
        mk_track("a.mp3", "A", "T1", "X", LyricsStatus::Synced),
        mk_track("b.mp3", "A", "T2", "X", LyricsStatus::Plain),
        mk_track("c.mp3", "A", "T3", "X", LyricsStatus::Missing),
        mk_track("d.mp3", "A", "T4", "X", LyricsStatus::Suspicious),
    ];
    assert_eq!(build_summary(&tracks), "4 tracks | 1 synced | 1 plain | 2 missing");
    assert_eq!(build_summary(&[]), "0 tracks | 0 synced | 0 plain | 0 missing");
}

#[test]
fn the_filter_matches_text_and_status() {
    let mut state = AppState::new();
    state.all_tracks = vec![
        mk_track("a.mp3", "Adele", "Hello", "25", LyricsStatus::Synced),
        mk_track("b.mp3", "Beatles", "Help", "Help!", LyricsStatus::Plain),
        mk_track("c.mp3", "Coldplay", "Yellow", "Parachutes", LyricsStatus::Missing),
    ];
    state.rebuild_filter("", 0);
    assert_eq!(state.filtered_tracks, vec![0, 1, 2]);
    state.rebuild_filter("HEL", 0);
    assert_eq!(state.filtered_tracks, vec![0, 1]);
    state.rebuild_filter("hel", 2);
    assert_eq!(state.filtered_tracks, vec![1]);
    state.rebuild_filter("", 1);
    assert_eq!(state.filtered_tracks, vec![2]);
    state.rebuild_filter("parachutes coldplay", 0);
    assert_eq!(state.filtered_tracks, Vec::<usize>::new());
    state.rebuild_filter("yellow coldplay", 0);
    assert_eq!(state.filtered_tracks, vec![2]);
}

#[test]
fn rows_are_indexed_by_file_and_by_album() {
    let paths = vec!["a.mp3".to_string(), "b.mp3".to_string(), "c.mp3".to_string()];
    let albums = vec!["Album1".to_string(), "Album1".to_string(), "Album2".to_string()];
    let (by_path, by_album) = row_index(&paths, &albums);
    assert_eq!(by_path.get("b.mp3"), Some(&vec![1]));
    assert_eq!(by_album.get("Album1"), Some(&vec![0, 1]));
    assert_eq!(by_album.get("Album2"), Some(&vec![2]));
    assert_eq!(by_album.get("Album3"), None);
}

#[test]
fn build_album_data_groups_correctly() {
    let tracks = vec![
        Track {
            audio_path: "a.mp3".into(),
            lrc_path: "a.lrc".into(),
            artist: "A".into(),
            title: "T1".into(),
            album: "Album1".into(),
            duration_ms: Some(100_000),
            status: LyricsStatus::Synced,
            mtime_ms: None,
            last_checked_ms: None,
        },
        Track {
            audio_path: "b.mp3".into(),
            lrc_path: "b.lrc".into(),
            artist: "A".into(),
            title: "T2".into(),
            album: "Album1".into(),
            duration_ms: Some(200_000),
            status: LyricsStatus::Missing,
            mtime_ms: None,
            last_checked_ms: None,
        },
    ];
    let mut loader = ArtLoader::new();
    loader.remember_library(&tracks);
    let albums = build_album_data(&tracks);
    assert_eq!(albums.len(), 1);
    assert_eq!(albums[0].track_count, 2);
    assert_eq!(albums[0].synced_count, 1);
    assert_eq!(albums[0].name, "Album1");
    assert_eq!(albums[0].artist, "A");
    assert_eq!(albums[0].first_path, "a.mp3");
    // No artwork has been extracted, so every album starts as a placeholder.
    assert!(loader.album_art(&albums[0].name).is_none());
}

#[test]
fn albums_come_in_name_order() {
    let tracks = vec![
        mk_track("a.mp3", "B", "T1", "Zeta", LyricsStatus::Synced),
        mk_track("b.mp3", "A", "T2", "Alpha", LyricsStatus::Synced),
        mk_track("c.mp3", "B", "T3", "Zeta", LyricsStatus::Plain),
    ];
    let albums = build_album_data(&tracks);
    let names: Vec<&str> = albums.iter().map(|a| a.name.as_str()).collect();
    assert_eq!(names, vec!["Alpha", "Zeta"]);
    assert_eq!((albums[1].track_count, albums[1].synced_count), (2, 1));
    assert_eq!(albums[1].first_path, "a.mp3");
    assert!(build_album_data(&[]).is_empty());
}

#[test]
fn album_cover_sources_use_the_first_track_of_each_album() {
    let tracks = vec![
        mk_track("a.mp3", "A", "T1", "Album1", LyricsStatus::Synced),
        mk_track("b.mp3", "A", "T2", "Album1", LyricsStatus::Synced),
        mk_track("c.mp3", "B", "T3", "Album2", LyricsStatus::Synced),
    ];
    let sources: Vec<(String, String)> =
        album_cover_sources(&tracks).into_iter().map(|(album, track)| (album, track.audio_path)).collect();
    assert_eq!(
        sources,
        vec![("Album1".to_string(), "a.mp3".to_string()), ("Album2".to_string(), "c.mp3".to_string())]
    );
}

#[test]
fn build_artist_data_groups_correctly() {
    let tracks = vec![Track {
        audio_path: "a.mp3".into(),
        lrc_path: "a.lrc".into(),
        artist: "The Beatles".into(),
        title: "T1".into(),
        album: "Abbey Road".into(),
        duration_ms: Some(180_000),
        status: LyricsStatus::Synced,
        mtime_ms: None,
        last_checked_ms: None,
    }];
    let artists = build_artist_data(&tracks);
    assert_eq!(artists.len(), 1);
    assert_eq!(artists[0].name, "The Beatles");
    assert_eq!(artists[0].track_count, 1);
    assert_eq!(artists[0].album_count, 1);
}

#[test]
fn artists_count_their_distinct_albums() {
    let tracks = vec![
        mk_track("a.mp3", "A", "T1", "One", LyricsStatus::Synced),
        mk_track("b.mp3", "A", "T2", "Two", LyricsStatus::Missing),
        mk_track("c.mp3", "A", "T3", "One", LyricsStatus::Synced),
        mk_track("d.mp3", "B", "T4", "One", LyricsStatus::Plain),
    ];
    let artists = build_artist_data(&tracks);
    let summary: Vec<(&str, usize, usize, usize)> =
        artists.iter().map(|a| (a.name.as_str(), a.track_count, a.album_count, a.synced_count)).collect();
    assert_eq!(summary, vec![("A", 3, 2, 2), ("B", 1, 1, 0)]);
}

#[test]
fn the_release_check_says_what_it_found() {
    assert_eq!(release_status(None, "1.0.0"), "No releases published yet");
    assert_eq!(release_status(Some("v1.2.0"), "1.0.0"), "Version v1.2.0 is available");
    assert_eq!(release_status(Some("Vv2"), "1.0.0"), "Version Vv2 is available");
    assert_eq!(release_status(Some("v1.0.0"), "1.0.0"), "Up to date (v1.0.0)");
    assert_eq!(release_status(Some("v1.1.0-beta.1"), "1.0.0"), "Up to date (v1.0.0)");
    assert_eq!(release_reply_status(404, "404 Not Found"), Some("No releases published yet".to_string()));
    assert_eq!(
        release_reply_status(503, "503 Service Unavailable"),
        Some("GitHub returned 503 Service Unavailable \u{2014} try again later".to_string())
    );
    assert_eq!(release_reply_status(200, "200 OK"), None);
}

#[test]
fn playback_moves_round_the_filtered_list() {
    let mut state = AppState::new();
    assert!(state.step_next().is_none());
    assert!(state.step_prev().is_none());
    assert_eq!(state.current_filtered_row, None);
    state.all_tracks = vec![
        mk_track("a.mp3", "A", "T1", "X", LyricsStatus::Synced),
        mk_track("b.mp3", "A", "T2", "X", LyricsStatus::Synced),
        mk_track("c.mp3", "A", "T3", "X", LyricsStatus::Synced),
    ];
    state.filtered_tracks = vec![0, 2];
    assert_eq!(state.upcoming().map(|t| t.audio_path), Some("a.mp3".to_string()));
    assert_eq!(state.step_next().map(|t| t.audio_path), Some("a.mp3".to_string()));
    assert_eq!(state.current_filtered_row, Some(0));
    assert_eq!(state.upcoming().map(|t| t.audio_path), Some("c.mp3".to_string()));
    assert_eq!(state.step_next().map(|t| t.audio_path), Some("c.mp3".to_string()));
    assert_eq!(state.step_next().map(|t| t.audio_path), Some("a.mp3".to_string()));
    assert_eq!(state.step_prev().map(|t| t.audio_path), Some("c.mp3".to_string()));
    assert_eq!(state.current_filtered_row, Some(1));
    assert_eq!(state.step_prev().map(|t| t.audio_path), Some("a.mp3".to_string()));
    state.current_filtered_row = None;
    assert_eq!(state.step_prev().map(|t| t.audio_path), Some("a.mp3".to_string()));
    // A row pointing past the library gives no track, but still moves.
    state.filtered_tracks = vec![7];
    assert!(state.step_next().is_none());
    assert_eq!(state.current_filtered_row, Some(0));
}

#[test]
fn detail_rows_map_through_their_lists() {
    let mut state = AppState::new();
    state.all_tracks = vec![
        mk_track("a.mp3", "A", "T1", "X", LyricsStatus::Synced),
        mk_track("b.mp3", "B", "T2", "Y", LyricsStatus::Synced),
    ];
    state.album_detail_tracks = vec![1];
    state.artist_detail_tracks = vec![0, 1];
    assert_eq!(state.detail_track(0, false).map(|t| t.audio_path), Some("b.mp3".to_string()));
    assert_eq!(state.detail_track(1, true).map(|t| t.audio_path), Some("b.mp3".to_string()));
    assert_eq!(state.detail_track(0, true).map(|t| t.audio_path), Some("a.mp3".to_string()));
    assert!(state.detail_track(1, false).is_none());
    assert!(state.detail_track(-1, true).is_none());
}

#[test]
fn each_bar_covers_its_share_of_the_envelope() {
    let windows = lyrics_core::waveform::bar_windows(8, 2);
    assert_eq!(windows, vec![(0, 4), (4, 8)]);
    assert_eq!(lyrics_core::waveform::bar_windows(8, 8), (0..8).map(|i| (i, i + 1)).collect::<Vec<_>>());
    // More bars than values: every bar still covers one value.
    assert_eq!(lyrics_core::waveform::bar_windows(2, 4), vec![(0, 1), (0, 1), (1, 2), (1, 2)]);
    assert_eq!(lyrics_core::waveform::bar_windows(3, lyrics_core::waveform::WAVEFORM_BARS).len(), 72);
}

#[test]
fn the_status_line_says_when_the_list_is_filtered() {
    let tracks = vec![
        mk_track("a.mp3", "A", "T1", "X", LyricsStatus::Synced),
        mk_track("b.mp3", "A", "T2", "X", LyricsStatus::Missing),
    ];
    assert_eq!(library_status_line(&tracks, "", 0, 2), build_summary(&tracks));
    assert_eq!(library_status_line(&tracks, "t1", 0, 1), "1 tracks (filtered)");
    assert_eq!(library_status_line(&tracks, "", 2, 0), "0 tracks (filtered)");
}

#[test]
fn the_player_names_artist_and_album_under_the_title() {
    let track = mk_track("a.mp3", "Artist", "Song", "Album", LyricsStatus::Synced);
    assert_eq!(track_subtitle(&track), "Artist \u{2022} Album");
}

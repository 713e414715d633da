use lyrics_core::art::{thumbnail_jpeg, FolderArtCache};
use lyrics_core::art_jobs::{
    absorb_ready_art, art_stamp, index_library_art, player_album_arrived, worker_count, ArtList, ArtLoader, ArtQueue, ArtRows, CoverNeed, UiLibrary,
    LibraryIndex,
};
use lyrics_core::image_cache::{UiImageCache, UI_IMAGE_CACHE_LIMIT};
use lyrics_core::library::{album_image_key, index_rows};
use lyrics_core::model::{LyricsStatus, Track};

fn mk_track(path: &str, artist: &str, title: &str, album: &str) -> Track {
    Track {
        audio_path: path.to_string(),
        lrc_path: format!("{path}.lrc"),
        artist: artist.to_string(),
        title: title.to_string(),
        album: album.to_string(),
        duration_ms: Some(120_000),
        status: LyricsStatus::Synced,
        mtime_ms: None,
        last_checked_ms: None,
    }
}

fn jpeg_bytes() -> Vec<u8> {
    let image = image::RgbImage::from_fn(96, 96, |x, y| image::Rgb([(x * 2) as u8, (y * 2) as u8, 90]));
    let mut bytes = Vec::new();
    image.write_to(&mut std::io::Cursor::new(&mut bytes), image::ImageFormat::Jpeg).expect("encode jpeg fixture");
    bytes
}

fn next_key(queue: &mut ArtQueue) -> Option<String> {
    queue.next_job().map(|job| job.key)
}

#[test]
fn only_a_changed_file_is_read_again() {
    let mut loader = ArtLoader::new();
    assert!(loader.queue.request("a.mp3", "a.mp3", 10, false));
    assert!(!loader.queue.request("a.mp3", "a.mp3", 10, false));
    assert_eq!(next_key(&mut loader.queue), Some("a.mp3".to_string()));
    assert!(loader.queue.next_job().is_none(), "the file was asked for twice");

    // A re-tagged file is a different question, and gets asked.
    loader.queue.request("a.mp3", "a.mp3", 11, false);
    assert_eq!(next_key(&mut loader.queue), Some("a.mp3".to_string()));
}

#[test]
fn a_file_without_a_path_is_never_queued_and_urgent_work_goes_first() {
    let mut queue = ArtQueue::new();
    assert!(queue.is_empty());
    assert!(!queue.request("k", "", 1, false));
    assert!(queue.next_job().is_none());
    queue.request("a.mp3", "a.mp3", 1, false);
    assert!(!queue.is_empty());
    queue.request("b.mp3", "b.mp3", 1, true);
    let job = queue.next_job().unwrap();
    assert_eq!((job.key.as_str(), job.path.as_str(), job.stamp), ("b.mp3", "b.mp3", 1));
    assert_eq!(next_key(&mut queue), Some("a.mp3".to_string()));
}

#[test]
fn a_scan_makes_the_loader_look_at_the_artwork_again() {
    let mut loader = ArtLoader::new();
    let mut folders = FolderArtCache::new();
    let mut images: UiImageCache<Option<Vec<u8>>> = UiImageCache::new();
    loader.remember_library(&[mk_track("a.mp3", "A", "T1", "Album1")]);
    loader.queue.request("a.mp3", "a.mp3", 10, false);
    assert_eq!(next_key(&mut loader.queue), Some("a.mp3".to_string()));
    loader.thumbs.insert("a.mp3".to_string(), None);
    images.insert("a.mp3".to_string(), None);

    loader.reset_after_scan(&mut folders, &mut images);

    assert!(images.get("a.mp3").is_none(), "stale answers must go");
    assert!(loader.thumbnail_for("a.mp3").is_none());
    assert!(loader.album_art("Album1").is_none());
    assert!(loader.queue.next_job().is_none(), "the stale queue must go too");
    // Which files make up an album is still known.
    assert_eq!(loader.library.album_of("a.mp3").as_deref(), Some("Album1"));

    // ...and the file is asked about again, which is what picks up a cover
    // that appeared after the last look.
    loader.queue.request("a.mp3", "a.mp3", 10, false);
    assert_eq!(next_key(&mut loader.queue), Some("a.mp3".to_string()));
}

#[test]
fn the_whole_library_is_indexed_including_what_is_not_on_screen() {
    let mut loader = ArtLoader::new();
    let tracks = vec![
        mk_track("a.mp3", "A", "T1", "Album1"),
        mk_track("b.mp3", "A", "T2", "Album1"),
        mk_track("c.mp3", "B", "T3", "Album2"),
        mk_track("d.mp3", "B", "T4", "Album2"),
    ];
    index_library_art(&tracks, &mut loader.queue);

    let queued: Vec<String> = std::iter::from_fn(|| loader.queue.next_job()).map(|job| job.key).collect();
    assert_eq!(queued.len(), tracks.len(), "every file must be indexed, on screen or not");
    assert_eq!(&queued[..2], &["a.mp3".to_string(), "c.mp3".to_string()]);

    // And a second pass queues nothing: the index already has those files.
    index_library_art(&tracks, &mut loader.queue);
    assert!(loader.queue.next_job().is_none());
}

#[test]
fn the_stamp_is_the_modification_time_in_whole_seconds() {
    let mut track = mk_track("a.mp3", "A", "T1", "Album1");
    assert_eq!(art_stamp(&track), 0);
    track.mtime_ms = Some(12_999);
    assert_eq!(art_stamp(&track), 12);
}

#[test]
fn an_untagged_track_borrows_its_albums_cover() {
    let mut loader = ArtLoader::new();
    let tracks = vec![
        mk_track("a.mp3", "A", "T1", "Album1"),
        mk_track("b.mp3", "A", "T2", "Album1"),
        mk_track("c.mp3", "B", "T3", "Album2"),
    ];
    loader.remember_library(&tracks);
    assert_eq!(loader.library.album_of("b.mp3").as_deref(), Some("Album1"));
    assert_eq!(loader.library.album_of("nope.mp3"), None);
    assert_eq!(loader.library.files_of_album("Album1"), Some(vec!["a.mp3".to_string(), "b.mp3".to_string()]));

    // Nothing has been extracted yet.
    assert!(loader.album_art("Album1").is_none());

    // Only the album's *second* file carries artwork.
    let thumbnail = thumbnail_jpeg(&jpeg_bytes()).expect("jpeg to thumbnail");
    loader.thumbs.insert("a.mp3".to_string(), None);
    loader.thumbs.insert("b.mp3".to_string(), Some(thumbnail.clone()));

    assert_eq!(loader.album_art("Album1"), Some(thumbnail.clone()));
    assert_eq!(loader.thumbnail_for("b.mp3"), Some(Some(thumbnail)));
    assert_eq!(loader.thumbnail_for("a.mp3"), Some(None));
    // An album with no artwork must stay a placeholder rather than borrow
    // whichever cover happened to be decoded last.
    assert!(loader.album_art("Album2").is_none());
    assert!(loader.album_art("Album3").is_none());
}

#[test]
fn an_arriving_cover_lights_up_its_album_with_the_same_pixels() {
    let mut loader = ArtLoader::new();
    let mut images: UiImageCache<Option<Vec<u8>>> = UiImageCache::new();
    loader.remember_library(&[mk_track("a.mp3", "A", "T1", "Album1"), mk_track("b.mp3", "A", "T2", "Album1")]);

    let pixels = vec![1u8, 2, 3];
    let (paths, albums) = absorb_ready_art(vec![("b.mp3".to_string(), Some(pixels.clone()))], &loader.library, &mut images);

    assert_eq!(paths, vec!["b.mp3".to_string()]);
    assert_eq!(albums, vec!["Album1".to_string()]);
    // Nothing has been *extracted* here, so the album's cover cannot have
    // come from a decode: the arriving pixels were shared with it.
    assert!(loader.album_art("Album1").is_none());
    assert_eq!(images.get(&album_image_key("Album1")), Some(&Some(pixels.clone())));
    assert_eq!(images.get("b.mp3"), Some(&Some(pixels.clone())));

    // A track that has no artwork of its own reports no picture, so it keeps
    // the placeholder it already has instead of being handed a wrong one.
    let (none, no_albums) = absorb_ready_art(vec![("a.mp3".to_string(), None)], &loader.library, &mut images);
    assert!(none.is_empty());
    assert!(no_albums.is_empty());
    assert_eq!(images.get("a.mp3"), Some(&None));

    // An album that already shows a picture keeps it and is not repainted.
    let (again, no_more) = absorb_ready_art(vec![("a.mp3".to_string(), Some(vec![9u8]))], &loader.library, &mut images);
    assert_eq!(again, vec!["a.mp3".to_string()]);
    assert!(no_more.is_empty());
    assert_eq!(images.get(&album_image_key("Album1")), Some(&Some(pixels)));
}

#[test]
fn an_album_is_repainted_once_per_batch() {
    let mut loader = ArtLoader::new();
    let mut images: UiImageCache<Option<u8>> = UiImageCache::new();
    loader.remember_library(&[mk_track("a.mp3", "A", "T1", "Album1"), mk_track("z.mp3", "Z", "T9", "Other")]);
    let (paths, albums) = absorb_ready_art(
        vec![
            ("a.mp3".to_string(), Some(1)),
            ("loose.mp3".to_string(), Some(2)),
            ("z.mp3".to_string(), Some(3)),
        ],
        &loader.library,
        &mut images,
    );
    assert_eq!(paths, vec!["a.mp3".to_string(), "loose.mp3".to_string(), "z.mp3".to_string()]);
    assert_eq!(albums, vec!["Album1".to_string(), "Other".to_string()]);
    assert_eq!(images.get("album:Other"), Some(&Some(3)));
}

#[test]
fn the_ui_image_cache_forgets_what_it_is_not_using() {
    let image = Some(jpeg_bytes());
    let mut cache: UiImageCache<Option<Vec<u8>>> = UiImageCache::new();

    cache.insert("oldest".to_string(), image.clone());
    for index in 0..UI_IMAGE_CACHE_LIMIT {
        cache.insert(format!("cover-{index}"), image.clone());
    }
    assert!(cache.get("oldest").is_none(), "the least recently used cover should have been dropped");

    // A cover that keeps being asked for survives a backfill of new ones.
    cache.insert("in-view".to_string(), image.clone());
    for index in 0..UI_IMAGE_CACHE_LIMIT - 1 {
        assert!(cache.get("in-view").is_some());
        cache.insert(format!("backfill-{index}"), image.clone());
    }
    assert!(cache.get("in-view").is_some());
}

#[test]
fn a_small_cache_drops_the_least_recently_used() {
    let mut cache: UiImageCache<u8> = UiImageCache::with_limit(2);
    cache.insert("a".to_string(), 1);
    cache.insert("b".to_string(), 2);
    assert_eq!(cache.get("a"), Some(&1));
    cache.insert("c".to_string(), 3);
    assert_eq!(cache.get("b"), None);
    assert_eq!(cache.get("a"), Some(&1));
    cache.insert("a".to_string(), 4);
    assert_eq!(cache.get("a"), Some(&4));
    cache.clear();
    assert_eq!(cache.get("c"), None);
}

#[test]
fn arriving_covers_are_written_to_every_row_that_shows_them() {
    let mut rows = ArtRows::new();
    rows.library = index_rows(&["a.mp3".to_string(), "b.mp3".to_string(), "c.mp3".to_string()]);
    rows.library_by_album = index_rows(&["Album1".to_string(), "Album1".to_string(), "Album2".to_string()]);
    rows.album_cards = index_rows(&["Album1".to_string(), "Album2".to_string()]);
    let work = rows.patch_work(&["b.mp3".to_string(), "x.mp3".to_string()], &["Album1".to_string()]);
    let summary: Vec<(ArtList, String, Vec<usize>)> =
        work.into_iter().map(|item| (item.list, item.key, item.rows)).collect();
    assert_eq!(
        summary,
        vec![
            (ArtList::Library, "b.mp3".to_string(), vec![1]),
            (ArtList::Library, "album:Album1".to_string(), vec![0, 1]),
            (ArtList::AlbumCards, "album:Album1".to_string(), vec![0]),
        ]
    );
    assert!(player_album_arrived(Some("Album1"), &["Album1".to_string()]));
    assert!(!player_album_arrived(Some("Album2"), &["Album1".to_string()]));
    assert!(!player_album_arrived(None, &["Album1".to_string()]));
}

#[test]
fn a_library_index_of_nothing_knows_no_album() {
    let index = LibraryIndex::remember_library(&[]);
    assert_eq!(index.album_of("a.mp3"), None);
    assert_eq!(index.stamp_of_file("a.mp3"), None);
    assert_eq!(index.files_of_album("Album1"), None);
}

#[test]
fn urgent_cover_lookup_consults_the_index_before_queueing() {
    let mut loader = ArtLoader::new();
    // Not read yet, not urgent: the file is queued.
    assert!(matches!(loader.cover_need("a.mp3", "a.mp3", 1, false), CoverNeed::Queued));
    assert_eq!(next_key(&mut loader.queue), Some("a.mp3".to_string()));
    // Urgent: the index is looked at first, and nothing is queued yet.
    assert!(matches!(loader.cover_need("b.mp3", "b.mp3", 1, true), CoverNeed::LookInIndex));
    assert!(loader.queue.next_job().is_none());
    // The index had it: it is remembered and handed back.
    assert_eq!(loader.index_answer("b.mp3".to_string(), "b.mp3", 1, Some(vec![5, 6])), Some(vec![5, 6]));
    assert!(matches!(loader.cover_need("b.mp3", "b.mp3", 1, true), CoverNeed::Decode(Some(ref t)) if t == &vec![5, 6]));
    // The index did not: the file jumps the queue.
    loader.queue.request("z.mp3", "z.mp3", 1, false);
    assert_eq!(loader.index_answer("c.mp3".to_string(), "c.mp3", 1, None), None);
    assert_eq!(next_key(&mut loader.queue), Some("c.mp3".to_string()));
    // A file known to have no artwork is answered at once.
    loader.thumbs.insert("d.mp3".to_string(), None);
    assert!(matches!(loader.cover_need("d.mp3", "d.mp3", 1, false), CoverNeed::Decode(None)));
}

#[test]
fn an_albums_files_are_looked_up_with_their_stamps() {
    let mut loader = ArtLoader::new();
    let mut b = mk_track("b.mp3", "A", "T2", "Album1");
    b.mtime_ms = Some(7_500);
    loader.remember_library(&[mk_track("a.mp3", "A", "T1", "Album1"), b, mk_track("c.mp3", "B", "T3", "Album2")]);
    assert_eq!(
        loader.album_art_sources("Album1"),
        vec![("a.mp3".to_string(), 0), ("b.mp3".to_string(), 7)]
    );
    assert!(loader.album_art_sources("Nope").is_empty());
}

#[test]
fn covers_reach_every_list_that_shows_them() {
    let mut loader = ArtLoader::new();
    let paths = vec!["a.mp3".to_string(), "b.mp3".to_string()];
    let albums = vec!["Album1".to_string(), "Album1".to_string()];
    loader.remember_library_rows(&paths, &albums);
    loader.remember_album_detail_rows(&paths[1..], &albums[1..]);
    loader.remember_artist_detail_rows(&paths[..1], &albums[..1]);
    loader.remember_album_cards(&["Album0".to_string(), "Album1".to_string()]);
    let work: Vec<(ArtList, String, Vec<usize>)> = loader
        .rows
        .patch_work(&["b.mp3".to_string()], &["Album1".to_string()])
        .into_iter()
        .map(|item| (item.list, item.key, item.rows))
        .collect();
    assert_eq!(
        work,
        vec![
            (ArtList::Library, "b.mp3".to_string(), vec![1]),
            (ArtList::AlbumDetail, "b.mp3".to_string(), vec![0]),
            (ArtList::Library, "album:Album1".to_string(), vec![0, 1]),
            (ArtList::AlbumDetail, "album:Album1".to_string(), vec![0]),
            (ArtList::ArtistDetail, "album:Album1".to_string(), vec![0]),
            (ArtList::AlbumCards, "album:Album1".to_string(), vec![1]),
        ]
    );
}

#[test]
fn the_player_stops_waiting_once_its_album_has_a_cover() {
    let mut loader = ArtLoader::new();
    assert_eq!(loader.take_arrived_player_album(&["Album1".to_string()]), None);
    loader.set_player_album(Some("Album1".to_string()));
    assert_eq!(loader.take_arrived_player_album(&["Other".to_string()]), None);
    assert_eq!(loader.player_album.as_deref(), Some("Album1"));
    assert_eq!(loader.take_arrived_player_album(&["Other".to_string(), "Album1".to_string()]), Some("Album1".to_string()));
    assert_eq!(loader.player_album, None);
}

#[test]
fn one_core_is_left_for_the_interface() {
    assert_eq!(worker_count(None), 1);
    assert_eq!(worker_count(Some(0)), 1);
    assert_eq!(worker_count(Some(1)), 1);
    assert_eq!(worker_count(Some(3)), 2);
    assert_eq!(worker_count(Some(5)), 4);
    assert_eq!(worker_count(Some(64)), 4);
}

#[test]
fn arriving_covers_fill_the_rows_that_wait_for_them() {
    let paths = vec!["a.mp3".to_string(), "b.mp3".to_string(), "c.mp3".to_string(), "b.mp3".to_string()];
    let albums = vec!["Album1".to_string(), "Album1".to_string(), "Album2".to_string(), "Album1".to_string()];
    let mut library = UiLibrary::set_tracks(&paths, &albums, vec![false, false, false, false]);
    let mut images: UiImageCache<Option<u8>> = UiImageCache::new();
    images.insert("b.mp3".to_string(), Some(1));
    images.insert("c.mp3".to_string(), None);
    images.insert(album_image_key("Album1"), Some(2));

    let handed = library.patch_covers(
        &["b.mp3".to_string(), "c.mp3".to_string(), "x.mp3".to_string()],
        &["Album1".to_string(), "Album2".to_string()],
        &mut images,
    );
    // The file's own picture goes to the last row showing it; the album's
    // picture to the album's other rows; a file with no picture gets none.
    assert_eq!(
        handed,
        vec![(3, "b.mp3".to_string()), (0, "album:Album1".to_string()), (1, "album:Album1".to_string())]
    );
    assert_eq!(library.get_filtered(&[3, 9, 0]), vec![3, 0]);

    // A second arrival changes nothing for rows that already show a picture.
    let again = library.patch_covers(&[], &["Album1".to_string()], &mut images);
    assert!(again.is_empty());
}

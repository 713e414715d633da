use lyrics_core::art::{
    artwork_stamp, choose_embedded_picture, clear_folder_art_cache, cover_file_for, extract_cover_art_with_fallback,
    fingerprint, fingerprint_path, folder_art_fingerprint, is_cover_keyword, mix, read_folder_art, stem_matches,
    thumbnail_jpeg, ArtCache, ArtLookup, EmbeddedPicture, FolderArt, FolderArtCache, FolderEntry, ThumbnailStore,
    WaveformStore, FNV_OFFSET, THUMBNAIL_MAX_PX,
};

/// A 1x1 PNG, i.e. the smallest thing that is really an image.
const TINY_PNG: &[u8] = &[
    0x89, 0x50, 0x4E, 0x47, 0x0D, 0x0A, 0x1A, 0x0A, 0x00, 0x00, 0x00, 0x0D, 0x49, 0x48, 0x44, 0x52, 0x00, 0x00,
    0x00, 0x01, 0x00, 0x00, 0x00, 0x01, 0x08, 0x02, 0x00, 0x00, 0x00, 0x90, 0x77, 0x53, 0xDE, 0x00, 0x00, 0x00,
    0x0C, 0x49, 0x44, 0x41, 0x54, 0x08, 0xD7, 0x63, 0xF8, 0xCF, 0xC0, 0x00, 0x00, 0x03, 0x01, 0x01, 0x00, 0x18,
    0xDD, 0x8D, 0xB0, 0x00, 0x00, 0x00, 0x00, 0x49, 0x45, 0x4E, 0x44, 0xAE, 0x42, 0x60, 0x82,
];

fn entry(name: &str, len: u64, modified: u64) -> FolderEntry {
    FolderEntry { path: format!("/music/Album/{name}"), name: name.to_string(), is_file: true, len, modified_secs: modified }
}

fn listing(names: &[&str]) -> FolderArt {
    let entries: Vec<FolderEntry> = names.iter().map(|n| entry(n, 10, 1)).collect();
    read_folder_art(&entries)
}

fn cover(art: &FolderArt, audio: &str) -> Option<String> {
    cover_file_for(art, Some(audio), Some("Album"))
}

#[test]
fn fnv_matches_known_values() {
    // FNV-1a of the empty input is the offset basis; of "a" it is 0xaf63dc4c8601ec8c.
    assert_eq!(FNV_OFFSET, 0xcbf2_9ce4_8422_2325);
    let a = fingerprint("a", 0);
    let mut expected: u64 = 0xaf63dc4c8601ec8c;
    for _ in 0..8 {
        expected ^= 0;
        expected = expected.wrapping_mul(0x100000001b3);
    }
    assert_eq!(a, expected);
    assert_ne!(fingerprint("C:\\music\\a.mp3", 111), fingerprint("C:\\music\\a.mp3", 222));
    assert_ne!(fingerprint("C:\\music\\a.mp3", 111), fingerprint("C:\\music\\c.mp3", 111));
    assert_ne!(mix(1, 2), mix(2, 1));
}

#[test]
fn path_fingerprints_fold_utf16_units() {
    let mut expected: u64 = 0xcbf2_9ce4_8422_2325;
    for unit in "é😀".encode_utf16() {
        for byte in unit.to_le_bytes() {
            expected ^= byte as u64;
            expected = expected.wrapping_mul(0x100000001b3);
        }
    }
    assert_eq!(fingerprint_path("é😀"), expected);
}

#[test]
fn a_cover_next_to_the_audio_is_used_when_the_tags_have_none() {
    // Neither the back cover nor a text file may be picked up.
    assert_eq!(cover(&listing(&["Song.mp3", "back.jpg", "notes.txt"]), "Song.mp3"), None);
    let art = listing(&["Song.mp3", "back.jpg", "notes.txt", "Cover.JPG"]);
    assert_eq!(cover(&art, "Song.mp3"), Some("/music/Album/Cover.JPG".to_string()));
}

#[test]
fn a_folder_named_image_counts_as_the_cover() {
    let art = listing(&["track.flac", "Album.jpg"]);
    assert_eq!(cover(&art, "track.flac"), Some("/music/Album/Album.jpg".to_string()));
}

#[test]
fn an_unrelated_image_in_the_folder_is_not_treated_as_a_cover() {
    let art = listing(&["song.mp3", "band-photo.jpg", "01.png"]);
    assert_eq!(cover(&art, "song.mp3"), None);
}

#[test]
fn an_image_named_after_the_track_is_that_tracks_cover() {
    let art = listing(&["First.mp3", "Second.mp3", "First.jpg", "Second.jpg"]);
    assert_eq!(cover(&art, "First.mp3"), Some("/music/Album/First.jpg".to_string()));
    assert_eq!(cover(&art, "Second.mp3"), Some("/music/Album/Second.jpg".to_string()));
}

#[test]
fn the_only_image_in_a_folder_is_the_cover() {
    let art = listing(&["01 Song.mp3", "02 Other.mp3", "Artist - Album X.jpg"]);
    assert_eq!(cover_file_for(&art, Some("01 Song.mp3"), Some("Elsewhere")), Some("/music/Album/Artist - Album X.jpg".to_string()));
}

#[test]
fn keyword_covers_are_ranked() {
    let art = listing(&["AlbumArtSmall.jpg", "AlbumArt_{GUID}_Large.jpg", "x.mp3"]);
    assert_eq!(cover_file_for(&art, Some("x.mp3"), None), Some("/music/Album/AlbumArt_{GUID}_Large.jpg".to_string()));
    assert!(is_cover_keyword("front_cover"));
    assert!(is_cover_keyword("Folder-Art"));
    assert!(is_cover_keyword("thumb"));
    assert!(!is_cover_keyword("band photo"));
}

#[test]
fn stems_match_ignoring_case_and_separators() {
    assert!(stem_matches("Album_Art.PNG", "album art"));
    assert!(stem_matches("Song.jpg", "song"));
    assert!(!stem_matches("Song.jpg", "songs"));
}

#[test]
fn listings_are_ordered_and_fingerprinted() {
    let one = read_folder_art(&[entry("b.jpg", 1, 1), entry("a.png", 2, 2), entry("disc.jpg", 3, 3)]);
    let two = read_folder_art(&[entry("a.png", 2, 2), entry("b.jpg", 1, 1)]);
    assert_eq!(one.images.len(), 2);
    assert_eq!(one.images[0].name, "a.png");
    assert_eq!(one.fingerprint, two.fingerprint);
    let changed = read_folder_art(&[entry("a.png", 2, 3), entry("b.jpg", 1, 1)]);
    assert_ne!(changed.fingerprint, one.fingerprint);
    let none = read_folder_art(&[]);
    assert_eq!(none.fingerprint, 0);
    let dir = FolderEntry { path: "/m/cover.jpg".to_string(), name: "cover.jpg".to_string(), is_file: false, len: 0, modified_secs: 0 };
    assert!(read_folder_art(&[dir]).images.is_empty());
}

#[test]
fn a_cover_appearing_beside_the_audio_changes_the_index_stamp() {
    let without = read_folder_art(&[entry("Song.mp3", 0, 5)]);
    let stamp = artwork_stamp(7, folder_art_fingerprint(Some(&without)));
    assert_eq!(stamp, artwork_stamp(7, folder_art_fingerprint(Some(&without))));
    let with = read_folder_art(&[entry("Song.mp3", 0, 5), entry("Song.jpg", 67, 9)]);
    let with_stamp = artwork_stamp(7, folder_art_fingerprint(Some(&with)));
    assert_ne!(stamp, with_stamp);
    let replaced = read_folder_art(&[entry("Song.mp3", 0, 5), entry("Song.jpg", 12, 9)]);
    assert_ne!(with_stamp, artwork_stamp(7, folder_art_fingerprint(Some(&replaced))));
    assert_eq!(folder_art_fingerprint(None), 0);
}

#[test]
fn the_folder_memo_remembers_until_cleared() {
    let mut cache = FolderArtCache::new();
    cache.folders.insert("/music/Album".to_string(), listing(&["cover.jpg"]));
    cache.thumbnails.insert("/music/Album/cover.jpg".to_string(), Some(vec![1, 2, 3]));
    assert!(cache.folders.get("/music/Album").is_some());
    assert_eq!(cache.thumbnails.get("/music/Album/cover.jpg"), Some(&Some(vec![1, 2, 3])));
    clear_folder_art_cache(&mut cache);
    assert!(cache.folders.get("/music/Album").is_none());
    assert_eq!(cache.thumbnails.len(), 0);
}

#[test]
fn thumbnails_round_trip_and_are_shrunk() {
    let mut source = image::RgbImage::new(900, 700);
    for (x, y, pixel) in source.enumerate_pixels_mut() {
        *pixel = image::Rgb([(x % 256) as u8, (y % 256) as u8, 120]);
    }
    let mut png = Vec::new();
    source.write_to(&mut std::io::Cursor::new(&mut png), image::ImageFormat::Png).unwrap();

    let thumbnail = thumbnail_jpeg(&png).expect("png should convert to a thumbnail");
    let decoded = image::load_from_memory(&thumbnail).expect("thumbnail should decode");
    assert!(
        decoded.width() <= THUMBNAIL_MAX_PX && decoded.height() <= THUMBNAIL_MAX_PX,
        "thumbnail should be shrunk to {THUMBNAIL_MAX_PX}px, got {}x{}",
        decoded.width(),
        decoded.height()
    );
    assert!(thumbnail_jpeg(b"definitely not an image").is_none());
    assert!(thumbnail_jpeg(TINY_PNG).is_some());
}

#[test]
fn a_thumbnail_is_a_framed_jpeg_and_a_small_image_keeps_its_size() {
    let mut source = image::RgbImage::new(40, 30);
    for (x, _, pixel) in source.enumerate_pixels_mut() {
        *pixel = image::Rgb([(x * 6) as u8, 10, 200]);
    }
    let mut png = Vec::new();
    source.write_to(&mut std::io::Cursor::new(&mut png), image::ImageFormat::Png).unwrap();
    let thumbnail = thumbnail_jpeg(&png).expect("a small image converts");
    assert_eq!(&thumbnail[..2], &[0xFF, 0xD8]);
    assert_eq!(&thumbnail[thumbnail.len() - 2..], &[0xFF, 0xD9]);
    let decoded = image::load_from_memory(&thumbnail).unwrap();
    assert_eq!((decoded.width(), decoded.height()), (40, 30));

    let mut tall = Vec::new();
    image::RgbImage::new(10, 5000).write_to(&mut std::io::Cursor::new(&mut tall), image::ImageFormat::Png).unwrap();
    let shrunk = image::load_from_memory(&thumbnail_jpeg(&tall).expect("a tall image converts")).unwrap();
    assert_eq!(shrunk.height(), THUMBNAIL_MAX_PX);
    assert!(shrunk.width() >= 1);
}

#[test]
fn the_thumbnail_index_remembers_art_and_the_lack_of_it() {
    let store = ThumbnailStore::at("/data/covers".to_string());
    let a = store.entry_path("C:\\music\\a.mp3", 111);
    assert!(a.starts_with("/data/covers/"));
    assert!(a.ends_with(".img"));
    assert_eq!(a.len(), "/data/covers/".len() + 16 + 4);
    assert_ne!(a, store.entry_path("C:\\music\\a.mp3", 222));
    assert_ne!(a, store.entry_path("C:\\music\\c.mp3", 111));
    let stored = ThumbnailStore::entry_contents(Some(TINY_PNG));
    assert_eq!(ThumbnailStore::read_entry(Some(stored)), Some(Some(TINY_PNG.to_vec())));
    let none = ThumbnailStore::entry_contents(None);
    assert_eq!(ThumbnailStore::read_entry(Some(none)), Some(None));
    assert_eq!(ThumbnailStore::read_entry(None), None);
    let expected = format!("/data/covers/{:016x}.img", fingerprint("C:\\music\\a.mp3", 111));
    assert_eq!(a, expected);
}

#[test]
fn stores_live_in_the_data_directory() {
    assert_eq!(ThumbnailStore::default_location(Some("/data")).unwrap().directory(), "/data/covers");
    assert_eq!(ThumbnailStore::default_location(Some("/data/")).unwrap().directory(), "/data/covers");
    assert!(ThumbnailStore::default_location(None).is_none());
    let wf = WaveformStore::default_location(Some("/data")).unwrap();
    assert_eq!(wf.directory(), "/data/waveforms");
    assert_eq!(wf.entry_path("C:/Music/test.mp3", 12345), format!("/data/waveforms/{:016x}.wf", fingerprint("C:/Music/test.mp3", 12345)));
    assert!(WaveformStore::holds_bars(16));
    assert!(!WaveformStore::holds_bars(0));
    assert!(!WaveformStore::holds_bars(6));
}

#[test]
fn test_art_cache_memory() {
    let mut cache = ArtCache::new("dummy_dir".to_string(), 2);
    let key = cache.generate_key("dummy/path/audio.mp3");
    cache.store(key.clone(), vec![1, 2, 3]);
    match cache.lookup(&key) {
        ArtLookup::Hit(art) => assert_eq!(art, vec![1, 2, 3]),
        _ => panic!("stored artwork should be found"),
    }
}

#[test]
fn the_art_cache_evicts_the_least_recently_used() {
    let mut cache = ArtCache::new("/cache".to_string(), 2);
    cache.store("a".to_string(), vec![1]);
    cache.store("b".to_string(), vec![2]);
    assert!(matches!(cache.lookup("a"), ArtLookup::Hit(_)));
    cache.store("c".to_string(), vec![3]);
    assert!(matches!(cache.lookup("b"), ArtLookup::Unknown));
    assert!(matches!(cache.lookup("a"), ArtLookup::Hit(_)));
    cache.mark_missing("d".to_string());
    assert!(matches!(cache.lookup("d"), ArtLookup::Missing));
    assert_eq!(cache.master_path("a"), "/cache/a_master.png");
    let key = cache.generate_key("x.mp3");
    assert!(key.chars().all(|c| c.is_ascii_hexdigit()));
}

#[test]
fn embedded_front_covers_come_first() {
    let pictures = vec![
        EmbeddedPicture { front_cover: false, data: vec![9] },
        EmbeddedPicture { front_cover: true, data: vec![] },
        EmbeddedPicture { front_cover: true, data: vec![7] },
    ];
    assert_eq!(choose_embedded_picture(&pictures), Some(vec![7]));
    let others = vec![EmbeddedPicture { front_cover: false, data: vec![] }, EmbeddedPicture { front_cover: false, data: vec![4] }];
    assert_eq!(choose_embedded_picture(&others), Some(vec![4]));
    assert_eq!(choose_embedded_picture(&[]), None);
    assert_eq!(extract_cover_art_with_fallback(None, Some(vec![1])), Some(vec![1]));
    assert_eq!(extract_cover_art_with_fallback(Some(vec![2]), Some(vec![1])), Some(vec![2]));
}

use lyrics_core::sources::first_result_id;
use lyrics_core::lrc::strip_timestamps;
use lyrics_core::providers::{
    lrclib_api_url, lrclib_lyrics, non_empty, plain_lyrics, search_query, synced_lyrics, ProviderError, ProviderLyrics,
    ProviderName,
};
use lyrics_core::sources::{
    check_status, clean_container_html, extract_lyrics, genius_lyrics, genius_song_url, header_rate_limited,
    lyrics_from_parts, lyrics_from_texts, megalobiz_detail_url, megalobiz_lyrics, megalobiz_query, megalobiz_status,
    musixmatch_uses_api_key, token_expiry, token_is_fresh, user_token, SearchSection,
};

#[test]
fn prefers_synchronized_provider_text() {
    let result = ProviderLyrics {
        provider: ProviderName::Lrclib,
        synced: Some("[00:01]synced".to_string()),
        plain: Some("plain".to_string()),
        confidence: 900,
    };
    assert_eq!(result.best_text(), Some("[00:01]synced"));
    assert!(result.is_synced());
}

#[test]
fn parses_synced_and_plain_fields() {
    let lyrics = lrclib_lyrics(Some("[00:01]hello".to_string()), Some("hello".to_string()), Some(false)).unwrap();
    assert_eq!(lyrics.provider, ProviderName::Lrclib);
    assert_eq!(lyrics.synced.as_deref(), Some("[00:01]hello"));
    assert_eq!(lyrics.plain.as_deref(), Some("hello"));
    assert_eq!(lyrics.confidence, 950);
}

#[test]
fn treats_instrumental_response_as_empty_result() {
    let lyrics = lrclib_lyrics(None, None, Some(true)).unwrap();
    assert!(lyrics.best_text().is_none());
    assert_eq!(lyrics.confidence, 100);
}

#[test]
fn an_lrclib_reply_without_lyrics_is_not_found() {
    assert!(matches!(lrclib_lyrics(Some("  ".to_string()), None, None), Err(ProviderError::NotFound)));
    let plain_only = lrclib_lyrics(None, Some("words".to_string()), None).unwrap();
    assert_eq!(plain_only.confidence, 700);
    assert!(!plain_only.is_synced());
}

#[test]
fn lrclib_endpoint_drops_trailing_slashes() {
    assert_eq!(lrclib_api_url("https://lrclib.net"), "https://lrclib.net/api/get");
    assert_eq!(lrclib_api_url("https://lrclib.example//"), "https://lrclib.example/api/get");
}

#[test]
fn blank_values_are_missing() {
    assert_eq!(non_empty(Some(" \t".to_string())), None);
    assert_eq!(non_empty(Some(" x ".to_string())), Some(" x ".to_string()));
    assert_eq!(non_empty(None), None);
}

#[test]
fn parses_subtitle_and_plain_response_shapes() {
    assert_eq!(strip_timestamps("[00:01]Hello"), "Hello");
}

#[test]
fn parses_token_response() {
    assert_eq!(user_token(Some("sample_token_xyz".to_string())).unwrap(), "sample_token_xyz");
}

#[test]
fn a_missing_token_is_a_parse_failure() {
    match user_token(Some("   ".to_string())) {
        Err(ProviderError::Parse(m)) => assert_eq!(m, "Missing user_token in response"),
        other => panic!("unexpected {other:?}"),
    }
    assert!(user_token(None).is_err());
}

#[test]
fn tokens_expire_after_nine_minutes() {
    assert_eq!(token_expiry(1_000), 541_000);
    assert!(token_is_fresh(540_999, 541_000));
    assert!(!token_is_fresh(541_000, 541_000));
    assert!(header_rate_limited(Some(429)));
    assert!(!header_rate_limited(Some(200)));
    assert!(!header_rate_limited(None));
    assert!(musixmatch_uses_api_key(" key "));
    assert!(!musixmatch_uses_api_key("  "));
}

#[test]
fn parses_search_and_lyrics_payloads() {
    assert_eq!(strip_timestamps("[00:01]Hello\n[00:02]World"), "Hello\nWorld");
    let found = synced_lyrics(ProviderName::Netease, "[00:01]Hello\n[00:02]World".to_string(), 800).unwrap();
    assert_eq!(found.plain.as_deref(), Some("Hello\nWorld"));
    assert_eq!(found.confidence, 800);
    assert!(synced_lyrics(ProviderName::Netease, " \n ".to_string(), 800).is_none());
}

#[test]
fn plain_lyrics_need_words() {
    assert!(plain_lyrics(ProviderName::Musixmatch, "\n".to_string(), 700).is_none());
    let p = plain_lyrics(ProviderName::Musixmatch, "words".to_string(), 700).unwrap();
    assert_eq!(p.plain.as_deref(), Some("words"));
    assert!(p.synced.is_none());
}

#[test]
fn http_statuses_are_judged() {
    assert!(matches!(
        check_status(429, "429 Too Many Requests", "Genius"),
        Err(ProviderError::RateLimited { retry_after_seconds: Some(60) })
    ));
    match check_status(404, "404 Not Found", "NetEase search") {
        Err(ProviderError::Request(m)) => assert_eq!(m, "NetEase search returned HTTP 404 Not Found"),
        other => panic!("unexpected {other:?}"),
    }
    assert!(check_status(200, "200 OK", "x").is_ok());
    assert!(matches!(megalobiz_status(429), Err(ProviderError::RateLimited { retry_after_seconds: None })));
    assert!(megalobiz_status(500).is_ok());
}

#[test]
fn search_queries_join_the_words() {
    assert_eq!(search_query("Title", "Artist"), "Title Artist");
    assert_eq!(megalobiz_query(" Artist", "Title "), "Artist Title");
}

#[test]
fn parses_search_response_and_lyrics_containers() {
    assert_eq!(
        extract_lyrics("<div data-lyrics-container='true'>Hello<br>World</div>"),
        "Hello\nWorld"
    );
}

#[test]
fn cleans_excluded_header_elements_from_lyrics() {
    let snippet = r#"<div data-lyrics-container="true">
            <div data-exclude-from-selection="true"><span>234 Contributors</span><span>Translations</span></div>
            [Verse 1]<br>Hello from the other side
        </div>"#;
    assert_eq!(extract_lyrics(snippet), "[Verse 1]\nHello from the other side");
}

#[test]
fn pages_without_lyrics_give_nothing() {
    assert_eq!(extract_lyrics("<html><body>nothing here</body></html>"), "");
    assert!(genius_lyrics(String::new()).is_none());
    let found = genius_lyrics("words".to_string()).unwrap();
    assert_eq!(found.provider, ProviderName::Genius);
    assert_eq!(found.confidence, 700);
}

#[test]
fn container_texts_are_trimmed_and_filtered() {
    let texts = vec![" a ".to_string(), "[Music Video]".to_string(), "  ".to_string(), "b".to_string()];
    assert_eq!(lyrics_from_texts(&texts), "a\nb");
    assert_eq!(
        clean_container_html("x<br/>y<span>z</span><br />w", &["<span>z</span>".to_string()]),
        "x\ny\nw"
    );
}

#[test]
fn parses_multi_search_response() {
    let sections = vec![
        SearchSection { section_type: Some("top_hit".to_string()), hit_urls: Some(vec![]) },
        SearchSection {
            section_type: Some("song".to_string()),
            hit_urls: Some(vec!["https://genius.com/Adele-hello-lyrics".to_string()]),
        },
    ];
    assert_eq!(genius_song_url(&sections), Some("https://genius.com/Adele-hello-lyrics".to_string()));
    let empty_song = vec![
        SearchSection { section_type: Some("song".to_string()), hit_urls: Some(vec![]) },
        SearchSection { section_type: Some("song".to_string()), hit_urls: Some(vec!["later".to_string()]) },
    ];
    assert_eq!(genius_song_url(&empty_song), None);
}

#[test]
fn test_megalobiz_parsing() {
    let html_text = r#"
            <html>
                <body>
                    <div class="entity_name">
                        <a href="/lyrics/something">Link</a>
                    </div>
                </body>
            </html>
        "#;
    assert_eq!(
        megalobiz_detail_url(html_text),
        Some("https://www.megalobiz.com/lyrics/something".to_string())
    );
    assert_eq!(megalobiz_detail_url("<html></html>"), None);
}

#[test]
fn megalobiz_lyrics_are_the_details_span() {
    let found = megalobiz_lyrics("<span class=\"lyrics_details\">[00:01]la <b>la</b></span>").unwrap();
    assert_eq!(found.synced.as_deref(), Some("[00:01]la la"));
    assert!(found.plain.is_none());
    assert_eq!(found.provider, ProviderName::Megalobiz);
    assert!(megalobiz_lyrics("<p>none</p>").is_none());
}

#[test]
fn provider_errors_read_like_messages() {
    assert_eq!(ProviderError::NotFound.message(), "provider has no matching lyrics");
    assert_eq!(
        ProviderError::RateLimited { retry_after_seconds: Some(5) }.message(),
        "provider rate limit reached; retry after Some(5) seconds"
    );
    assert_eq!(ProviderError::Parse("x".to_string()).message(), "provider response could not be parsed: x");
}

#[test]
fn providers_are_labelled() {
    assert_eq!(ProviderName::Netease.label(), "NetEase");
    assert_eq!(ProviderName::all().len(), 5);
}

#[test]
fn container_parts_give_their_lyrics() {
    let parts = vec![
        (
            "<b>Hi</b><br/>there<div x=\"1\">skip</div>".to_string(),
            vec!["<div x=\"1\">skip</div>".to_string()],
        ),
        ("  ".to_string(), Vec::new()),
        ("[Music Video]".to_string(), Vec::new()),
        ("last<br />line".to_string(), Vec::new()),
    ];
    assert_eq!(lyrics_from_parts(&parts), "Hi\nthere\nlast\nline");
    assert_eq!(lyrics_from_parts(&[]), "");
}

#[test]
fn the_first_listed_result_is_the_one_asked_for() {
    assert_eq!(first_result_id(&[Some(7), Some(9)]), Some(7));
    assert_eq!(first_result_id(&[None, Some(9)]), None);
    assert_eq!(first_result_id(&[]), None);
}

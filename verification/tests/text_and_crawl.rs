use ncudio::crawl::{build_parsed_track, is_supported_extension, picture_cache_key,
    select_tag_source, TagFields};
use ncudio::model::{Artist, TrackDTO};
use ncudio::search::track_query_filter_condition;
use ncudio::timefmt::duration_to_string;

fn dto(title: Option<&str>, artist: Option<&str>, album: Option<&str>) -> TrackDTO {
    TrackDTO {
        id: 1,
        title: title.map(|s| s.to_string()),
        artist: artist.map(|s| Artist { id: 1, name: s.to_string(), created_at: 0 }),
        album: album.map(|s| ncudio::model::Album {
            id: 1,
            name: s.to_string(),
            artist_id: None,
            created_at: 0,
        }),
        number: None,
        disc: None,
        duration_ms: 1000,
        location: "/music/x.mp3".to_string(),
        mount_point: "/music".to_string(),
        picture_id: None,
    }
}

#[test]
fn search_matches_case_insensitive_substring() {
    assert!(track_query_filter_condition(
        "taylor".to_string(),
        dto(Some("Love Story"), Some("Taylor Swift"), Some("Fearless")),
    ));
}

#[test]
fn search_matches_title_and_album_too() {
    assert!(track_query_filter_condition(
        "love".to_string(),
        dto(Some("Love Story"), None, None),
    ));
    assert!(track_query_filter_condition(
        "fear".to_string(),
        dto(None, None, Some("Fearless")),
    ));
}

#[test]
fn search_rejects_unrelated_query() {
    assert!(!track_query_filter_condition(
        "zzz".to_string(),
        dto(Some("Love Story"), Some("Taylor Swift"), Some("Fearless")),
    ));
}

#[test]
fn search_matches_romanized_query() {
    // a Latin query reaches Japanese metadata through the phonetic form
    assert!(track_query_filter_condition(
        "nihon".to_string(),
        dto(Some("日本"), None, None),
    ));
}

#[test]
fn search_treats_absent_fields_as_empty() {
    assert!(!track_query_filter_condition("a".to_string(), dto(None, None, None)));
    // the empty query matches any track, including one with no fields
    assert!(track_query_filter_condition(String::new(), dto(None, None, None)));
}

#[test]
fn duration_formats_minutes_and_seconds() {
    assert_eq!(duration_to_string(0), "00:00");
    assert_eq!(duration_to_string(200000), "03:20");
    assert_eq!(duration_to_string(59999), "00:59");
    assert_eq!(duration_to_string(600000), "10:00");
}

#[test]
fn duration_shows_hours_once_reached() {
    assert_eq!(duration_to_string(3600000), "01:00:00");
    assert_eq!(duration_to_string(3723000), "01:02:03");
    assert_eq!(duration_to_string(360000000), "100:00:00");
}

#[test]
fn extension_filter_is_case_sensitive_and_fixed() {
    assert!(is_supported_extension("mp3"));
    assert!(is_supported_extension("flac"));
    assert!(is_supported_extension("wav"));
    assert!(is_supported_extension("ogg"));
    assert!(!is_supported_extension("MP3"));
    assert!(!is_supported_extension("m4a"));
    assert!(!is_supported_extension(""));
}

#[test]
fn identical_artwork_shares_cache_key() {
    let a = vec![1u8, 2, 3, 4];
    let b = vec![1u8, 2, 3, 4];
    assert_eq!(picture_cache_key(&a), picture_cache_key(&b));
    assert_eq!(picture_cache_key(&a).len(), 32);
}

#[test]
fn cache_key_is_md5_hex() {
    assert_eq!(
        picture_cache_key(&Vec::new()),
        "d41d8cd98f00b204e9800998ecf8427e"
    );
    assert_eq!(
        picture_cache_key(&b"abc".to_vec()),
        "900150983cd24fb0d6963f7d28e17f72"
    );
}

fn tag(title: &str) -> TagFields {
    TagFields {
        title: Some(title.to_string()),
        artist: None,
        album: None,
        number: None,
        disc: None,
    }
}

#[test]
fn primary_tag_wins_over_first() {
    let chosen = select_tag_source(Some(tag("primary")), Some(tag("first")));
    assert_eq!(chosen.unwrap().title.as_deref(), Some("primary"));
    let fallback = select_tag_source(None, Some(tag("first")));
    assert_eq!(fallback.unwrap().title.as_deref(), Some("first"));
    assert!(select_tag_source(None, None).is_none());
}

#[test]
fn build_parsed_track_without_tag_has_only_structural_fields() {
    let r = build_parsed_track(
        "/music/a.mp3".to_string(),
        "/music".to_string(),
        4500,
        None,
        Some("cafe".to_string()),
    );
    assert!(r.title.is_none());
    assert!(r.artist.is_none());
    assert!(r.album.is_none());
    assert_eq!(r.duration_ms, 4500);
    assert_eq!(r.location, "/music/a.mp3");
    assert_eq!(r.picture_id.as_deref(), Some("cafe"));
}

#[test]
fn build_parsed_track_copies_tag_fields() {
    let t = TagFields {
        title: Some("T".to_string()),
        artist: Some("A".to_string()),
        album: Some("B".to_string()),
        number: Some(3),
        disc: Some(1),
    };
    let r = build_parsed_track(
        "/music/a.mp3".to_string(),
        "/music".to_string(),
        100,
        Some(t),
        None,
    );
    assert_eq!(r.title.as_deref(), Some("T"));
    assert_eq!(r.artist.as_deref(), Some("A"));
    assert_eq!(r.album.as_deref(), Some("B"));
    assert_eq!(r.number, Some(3));
    assert_eq!(r.disc, Some(1));
}

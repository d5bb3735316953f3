use ncudio::library::Library;
use ncudio::model::ParsedTrack;

fn record(
    title: Option<&str>,
    artist: Option<&str>,
    album: Option<&str>,
    number: Option<i32>,
    disc: Option<i32>,
    duration_ms: i32,
    location: &str,
) -> ParsedTrack {
    ParsedTrack {
        title: title.map(|s| s.to_string()),
        artist: artist.map(|s| s.to_string()),
        album: album.map(|s| s.to_string()),
        number,
        disc,
        duration_ms,
        location: location.to_string(),
        mount_point: "/music".to_string(),
        picture_id: None,
    }
}

#[test]
fn sync_creates_track_with_metadata() {
    let mut lib = Library::new();
    let records = vec![record(
        Some("Song"),
        Some("A"),
        Some("B"),
        Some(1),
        Some(1),
        200000,
        "/music/song.mp3",
    )];
    lib.sync(&records, 1000);
    let tracks = lib.get_all_tracks();
    assert_eq!(tracks.len(), 1);
    let t = &tracks[0];
    assert_eq!(t.title.as_deref(), Some("Song"));
    assert_eq!(t.artist.as_ref().map(|a| a.name.as_str()), Some("A"));
    assert_eq!(t.album.as_ref().map(|a| a.name.as_str()), Some("B"));
    assert_eq!(t.duration_ms, 200000);
    assert_eq!(t.location, "/music/song.mp3");
    assert_eq!(t.mount_point, "/music");
}

#[test]
fn untagged_file_yields_bare_track() {
    let mut lib = Library::new();
    let records = vec![record(None, None, None, None, None, 123456, "/music/raw.wav")];
    lib.sync(&records, 1000);
    let tracks = lib.get_all_tracks();
    assert_eq!(tracks.len(), 1);
    let t = &tracks[0];
    assert!(t.title.is_none());
    assert!(t.artist.is_none());
    assert!(t.album.is_none());
    assert_eq!(t.duration_ms, 123456);
    // a track with no album reference never shows up under any album id
    for album_id in 0..5 {
        assert!(lib.find_track_by_album(album_id).is_empty());
    }
}

#[test]
fn sync_twice_is_idempotent() {
    let records = vec![
        record(Some("One"), Some("X"), Some("Alb"), Some(1), None, 1000, "/music/1.mp3"),
        record(Some("Two"), Some("X"), Some("Alb"), Some(2), None, 2000, "/music/2.flac"),
        record(None, None, None, None, None, 3000, "/music/3.ogg"),
    ];
    let mut lib = Library::new();
    lib.sync(&records, 10);
    let artists_once = lib.artists.len();
    let albums_once = lib.albums.len();
    let tracks_once = lib.tracks.len();
    let titles_once: Vec<Option<String>> = lib.tracks.iter().map(|t| t.title.clone()).collect();
    let ids_once: Vec<i32> = lib.tracks.iter().map(|t| t.id).collect();
    lib.sync(&records, 20);
    assert_eq!(lib.artists.len(), artists_once);
    assert_eq!(lib.albums.len(), albums_once);
    assert_eq!(lib.tracks.len(), tracks_once);
    let titles_twice: Vec<Option<String>> = lib.tracks.iter().map(|t| t.title.clone()).collect();
    let ids_twice: Vec<i32> = lib.tracks.iter().map(|t| t.id).collect();
    assert_eq!(titles_once, titles_twice);
    assert_eq!(ids_once, ids_twice);
}

#[test]
fn same_artist_name_deduplicates() {
    let mut lib = Library::new();
    let records = vec![
        record(Some("One"), Some("X"), None, None, None, 1000, "/music/1.mp3"),
        record(Some("Two"), Some("X"), None, None, None, 2000, "/music/2.mp3"),
    ];
    lib.sync(&records, 10);
    assert_eq!(lib.artists.len(), 1);
    assert_eq!(lib.artists[0].name, "X");
    let shared = lib.artists[0].id;
    assert_eq!(lib.tracks.len(), 2);
    assert_eq!(lib.tracks[0].artist_id, Some(shared));
    assert_eq!(lib.tracks[1].artist_id, Some(shared));
}

#[test]
fn rescanned_location_upserts_in_place() {
    let mut lib = Library::new();
    lib.sync(
        &vec![record(Some("Old"), Some("A"), None, Some(1), None, 1000, "/music/x.mp3")],
        10,
    );
    assert_eq!(lib.tracks.len(), 1);
    let id_before = lib.tracks[0].id;
    let created_before = lib.tracks[0].created_at;
    lib.sync(
        &vec![record(Some("New"), Some("B"), None, Some(7), None, 5000, "/music/x.mp3")],
        99,
    );
    assert_eq!(lib.tracks.len(), 1);
    assert_eq!(lib.tracks[0].id, id_before);
    assert_eq!(lib.tracks[0].created_at, created_before);
    assert_eq!(lib.tracks[0].title.as_deref(), Some("New"));
    assert_eq!(lib.tracks[0].number, Some(7));
    assert_eq!(lib.tracks[0].duration_ms, 5000);
}

#[test]
fn album_shares_artist_reference() {
    let mut lib = Library::new();
    lib.sync(
        &vec![record(Some("S"), Some("A"), Some("B"), None, None, 1000, "/music/s.mp3")],
        10,
    );
    assert_eq!(lib.albums.len(), 1);
    assert_eq!(lib.albums[0].name, "B");
    assert_eq!(lib.albums[0].artist_id, Some(lib.artists[0].id));
}

#[test]
fn sorted_by_title_orders_and_breaks_ties() {
    let mut lib = Library::new();
    let records = vec![
        record(Some("Beta"), None, None, None, None, 1000, "/music/b.mp3"),
        record(Some("Alpha"), None, None, None, None, 1000, "/music/a.mp3"),
        record(None, None, None, None, None, 1000, "/music/none.mp3"),
        record(Some("Alpha"), None, None, None, None, 1000, "/music/a2.mp3"),
    ];
    lib.sync(&records, 10);
    let ids = lib.get_all_track_ids_sorted_by_title();
    // rows got ids 1..=4 in scan order; absent titles sort first, equal
    // titles fall back to the id
    assert_eq!(ids, vec![3, 2, 4, 1]);
}

#[test]
fn sorted_by_duration_breaks_ties_by_title() {
    let mut lib = Library::new();
    let records = vec![
        record(Some("B"), None, None, None, None, 2000, "/music/1.mp3"),
        record(Some("A"), None, None, None, None, 2000, "/music/2.mp3"),
        record(Some("C"), None, None, None, None, 1000, "/music/3.mp3"),
    ];
    lib.sync(&records, 10);
    let ids = lib.get_all_track_ids_sorted_by_duration();
    assert_eq!(ids, vec![3, 2, 1]);
}

#[test]
fn sorted_by_artist_groups_absent_first() {
    let mut lib = Library::new();
    let records = vec![
        record(Some("One"), Some("Zed"), None, None, None, 1000, "/music/1.mp3"),
        record(Some("Two"), None, None, None, None, 1000, "/music/2.mp3"),
        record(Some("Three"), Some("Ann"), None, None, None, 1000, "/music/3.mp3"),
    ];
    lib.sync(&records, 10);
    let ids = lib.get_all_track_ids_sorted_by_artist();
    assert_eq!(ids, vec![2, 3, 1]);
}

#[test]
fn sorted_by_album_uses_album_name() {
    let mut lib = Library::new();
    let records = vec![
        record(Some("One"), None, Some("Zoo"), Some(2), None, 1000, "/music/1.mp3"),
        record(Some("Two"), None, Some("Ark"), None, None, 1000, "/music/2.mp3"),
        record(Some("Three"), None, Some("Zoo"), Some(1), None, 1000, "/music/3.mp3"),
    ];
    lib.sync(&records, 10);
    let ids = lib.get_all_track_ids_sorted_by_album();
    assert_eq!(ids, vec![2, 3, 1]);
}

#[test]
fn every_sort_returns_each_id_once() {
    let mut lib = Library::new();
    let records = vec![
        record(Some("A"), Some("P"), Some("U"), Some(1), Some(1), 100, "/music/1.mp3"),
        record(None, None, None, None, None, 200, "/music/2.mp3"),
        record(Some("B"), Some("Q"), Some("V"), Some(2), Some(1), 300, "/music/3.mp3"),
    ];
    lib.sync(&records, 10);
    for mut ids in [
        lib.get_all_track_ids_sorted_by_title(),
        lib.get_all_track_ids_sorted_by_artist(),
        lib.get_all_track_ids_sorted_by_album(),
        lib.get_all_track_ids_sorted_by_duration(),
    ] {
        ids.sort();
        assert_eq!(ids, vec![1, 2, 3]);
    }
}

#[test]
fn find_track_by_album_filters_and_orders() {
    let mut lib = Library::new();
    let records = vec![
        record(Some("Late"), Some("A"), Some("Alb"), Some(9), None, 100, "/music/1.mp3"),
        record(Some("Early"), Some("A"), Some("Alb"), Some(1), None, 100, "/music/2.mp3"),
        record(Some("Other"), Some("A"), Some("Else"), Some(1), None, 100, "/music/3.mp3"),
        record(Some("Bare"), Some("A"), None, Some(1), None, 100, "/music/4.mp3"),
    ];
    lib.sync(&records, 10);
    let album_id = lib.albums.iter().find(|a| a.name == "Alb").unwrap().id;
    let views = lib.find_track_by_album(album_id);
    let titles: Vec<Option<String>> = views.iter().map(|v| v.title.clone()).collect();
    assert_eq!(
        titles,
        vec![Some("Early".to_string()), Some("Late".to_string())]
    );
    for v in &views {
        assert_eq!(v.album.as_ref().map(|a| a.id), Some(album_id));
    }
}

#[test]
fn delete_all_tracks_keeps_entities() {
    let mut lib = Library::new();
    lib.sync(
        &vec![record(Some("S"), Some("A"), Some("B"), None, None, 1000, "/music/s.mp3")],
        10,
    );
    lib.delete_all_tracks();
    assert!(lib.tracks.is_empty());
    assert_eq!(lib.artists.len(), 1);
    assert_eq!(lib.albums.len(), 1);
    assert!(lib.get_all_tracks().is_empty());
}

#[test]
fn hydration_resolves_references() {
    let mut lib = Library::new();
    lib.sync(
        &vec![
            record(Some("S1"), Some("A"), Some("B"), None, None, 1000, "/music/1.mp3"),
            record(Some("S2"), Some("A"), Some("B"), None, None, 1000, "/music/2.mp3"),
        ],
        10,
    );
    let views = lib.get_all_tracks();
    assert_eq!(views.len(), 2);
    assert_eq!(views[0].artist.as_ref().unwrap().id, views[1].artist.as_ref().unwrap().id);
    assert_eq!(views[0].album.as_ref().unwrap().name, "B");
}

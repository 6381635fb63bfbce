use rmus::model::CatalogStore;
use rmus::sync::has_flac_extension;
use rmus::sync::synchronize;
use rmus::sync::FileTags;
use rmus::sync::ScanEntry;
use rmus::sync::SyncError;

fn entry(path: &str, artists: &[&str], album: &str, title: &str) -> ScanEntry {
    ScanEntry {
        path: String::from(path),
        tags: Some(FileTags {
            artists: artists.iter().map(|a| String::from(*a)).collect(),
            album: String::from(album),
            title: String::from(title),
        }),
    }
}

#[test]
fn extension_filter_accepts_only_real_flac_names() {
    assert!(has_flac_extension("a.flac"));
    assert!(has_flac_extension("/music/epica/alpha.flac"));
    assert!(has_flac_extension("weird..flac"));
    assert!(has_flac_extension("x.b.flac"));
    assert!(!has_flac_extension(".flac"));
    assert!(!has_flac_extension("/music/.flac"));
    assert!(!has_flac_extension("song.mp3"));
    assert!(!has_flac_extension("flac"));
    assert!(!has_flac_extension(""));
}

#[test]
fn synchronize_inserts_each_entity_once() {
    let mut store = CatalogStore::new();
    let entries = vec![
        entry("/m/a.flac", &["Epica"], "Omega", "Alpha"),
        entry("/m/b.flac", &["Epica"], "Omega", "Abyss of Time"),
    ];
    synchronize(&entries, &mut store).unwrap();
    assert_eq!(store.artists.len(), 1);
    assert_eq!(store.albums.len(), 1);
    assert_eq!(store.tracks.len(), 2);
}

#[test]
fn synchronize_twice_adds_no_rows() {
    let mut store = CatalogStore::new();
    let entries = vec![
        entry("/m/a.flac", &["Epica"], "Omega", "Alpha"),
        entry("/m/b.flac", &["Ayreon"], "01011001", "Age of Shadows"),
        entry("/m/notes.txt", &["ignored"], "ignored", "ignored"),
    ];
    synchronize(&entries, &mut store).unwrap();
    let artists = store.artists.len();
    let albums = store.albums.len();
    let tracks = store.tracks.len();

    synchronize(&entries, &mut store).unwrap();
    assert_eq!(store.artists.len(), artists);
    assert_eq!(store.albums.len(), albums);
    assert_eq!(store.tracks.len(), tracks);
}

#[test]
fn same_album_different_titles_share_one_album_row() {
    let mut store = CatalogStore::new();
    let entries = vec![
        entry("/m/a.flac", &["Epica"], "Omega", "Alpha"),
        entry("/m/b.flac", &["Epica"], "Omega", "Abyss of Time"),
    ];
    synchronize(&entries, &mut store).unwrap();
    assert_eq!(store.albums.len(), 1);
    assert_eq!(store.tracks.len(), 2);
}

#[test]
fn multi_artist_file_creates_two_artist_rows_one_track() {
    let mut store = CatalogStore::new();
    let entries = vec![entry("/m/duet.flac", &["A", "B"], "Omega", "Duet")];
    synchronize(&entries, &mut store).unwrap();
    assert_eq!(store.artists.len(), 2);
    assert_eq!(store.artists[0].name, "A");
    assert_eq!(store.artists[1].name, "B");
    assert_eq!(store.tracks.len(), 1);
    let tracks = store.list_all_tracks();
    assert_eq!(tracks[0].artist.name, "A");
}

#[test]
fn files_without_the_extension_are_skipped_silently() {
    let mut store = CatalogStore::new();
    let entries = vec![
        ScanEntry {
            path: String::from("/m/cover.jpg"),
            tags: None,
        },
        entry("/m/song.mp3", &["Someone"], "Somewhere", "Something"),
    ];
    synchronize(&entries, &mut store).unwrap();
    assert_eq!(store.artists.len(), 0);
    assert_eq!(store.albums.len(), 0);
    assert_eq!(store.tracks.len(), 0);
}

#[test]
fn unreadable_tags_abort_the_run_and_keep_prior_rows() {
    let mut store = CatalogStore::new();
    let entries = vec![
        entry("/m/a.flac", &["Epica"], "Omega", "Alpha"),
        ScanEntry {
            path: String::from("/m/broken.flac"),
            tags: None,
        },
        entry("/m/c.flac", &["Ayreon"], "01011001", "Age of Shadows"),
    ];
    let err = synchronize(&entries, &mut store).unwrap_err();
    match err {
        SyncError::TagRead(path) => assert_eq!(path, "/m/broken.flac"),
    }
    // the first file's rows stay; the file after the failure was never reached
    assert_eq!(store.artists.len(), 1);
    assert_eq!(store.albums.len(), 1);
    assert_eq!(store.tracks.len(), 1);
}

#[test]
fn a_file_with_an_empty_album_tag_aborts_the_run() {
    let mut store = CatalogStore::new();
    let entries = vec![entry("/m/a.flac", &["Epica"], "", "Alpha")];
    let err = synchronize(&entries, &mut store).unwrap_err();
    match err {
        SyncError::TagRead(path) => assert_eq!(path, "/m/a.flac"),
    }
    assert_eq!(store.artists.len(), 0);
}

#[test]
fn a_file_with_an_empty_title_tag_aborts_the_run() {
    let mut store = CatalogStore::new();
    let entries = vec![entry("/m/a.flac", &["Epica"], "Omega", "")];
    let err = synchronize(&entries, &mut store).unwrap_err();
    match err {
        SyncError::TagRead(path) => assert_eq!(path, "/m/a.flac"),
    }
    assert_eq!(store.albums.len(), 0);
}

#[test]
fn a_file_without_any_artist_tag_aborts_the_run() {
    let mut store = CatalogStore::new();
    let entries = vec![entry("/m/a.flac", &[], "Omega", "Alpha")];
    let err = synchronize(&entries, &mut store).unwrap_err();
    match err {
        SyncError::TagRead(path) => assert_eq!(path, "/m/a.flac"),
    }
    assert_eq!(store.albums.len(), 0);
}

#[test]
fn duplicate_artist_tags_within_one_file_are_cached() {
    let mut store = CatalogStore::new();
    let entries = vec![entry("/m/a.flac", &["Epica", "Epica"], "Omega", "Alpha")];
    synchronize(&entries, &mut store).unwrap();
    assert_eq!(store.artists.len(), 1);
}

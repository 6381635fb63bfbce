use rmus::model::Album;
use rmus::model::Artist;
use rmus::model::CatalogStore;
use rmus::model::Track;

#[test]
fn test_artist_insert_into_db() {
    let mut pool = CatalogStore::new();
    let artist = Artist {
        id: 1,
        name: String::from("Epica"),
    };

    let artist_from_db = pool.get_or_create_artist(&artist.name).unwrap();
    assert_eq!(artist.name, artist_from_db.name);
}

#[test]
fn test_album_insert_into_db() {
    let mut pool = CatalogStore::new();
    let album = Album {
        id: 1,
        name: String::from("Omega"),
    };

    let album_from_db = pool.get_or_create_album(&album.name).unwrap();
    assert_eq!(album.name, album_from_db.name);
}

#[test]
fn test_track_insert_into_db_with_existing_album() {
    let mut pool = CatalogStore::new();

    let track = Track {
        id: 1,
        title: String::from("Alpha – Anteludium"),
        album: Album {
            id: 1,
            name: String::from("Omega"),
        },
        artist: Artist {
            id: 1,
            name: String::from("Epica"),
        },
        file_path: String::from("/music/epica/alpah.flac"),
    };

    let album_from_db = pool.get_or_create_album(&track.album.name).unwrap();
    assert_eq!(track.album.name, album_from_db.name);

    let artist_from_db = pool.get_or_create_artist(&track.artist.name).unwrap();
    assert_eq!(track.artist.name, artist_from_db.name);

    let track_from_db = pool
        .get_or_create_track(
            &track.title,
            &album_from_db,
            &artist_from_db,
            &track.file_path,
        )
        .unwrap();
    assert_eq!(track.title, track_from_db.title);
}

#[test]
fn test_track_insert_into_db_with_non_existing_album() {
    let mut pool = CatalogStore::new();

    let track = Track {
        id: 1,
        title: String::from("Alpha – Anteludium"),
        album: Album {
            id: 1,
            name: String::from("Omega"),
        },
        artist: Artist {
            id: 1,
            name: String::from("Epica"),
        },
        file_path: String::from("/music/epica/alpah.flac"),
    };

    let track_from_db =
        pool.get_or_create_track(&track.title, &track.album, &track.artist, &track.file_path);
    assert_eq!(
        track_from_db.err().unwrap().message(),
        "no rows returned by a query that expected to return at least one row".to_string()
    );
}

#[test]
fn test_track_insert_multiple_song_into_db_with_same_album() {
    let mut pool = CatalogStore::new();

    let track = Track {
        id: 1,
        title: String::from("Alpha – Anteludium"),
        album: Album {
            id: 1,
            name: String::from("Omega"),
        },
        file_path: String::from("/music/epica/alpah.flac"),
        artist: Artist {
            id: 1,
            name: String::from("Epica"),
        },
    };

    let track2 = Track {
        id: 2,
        title: String::from("Abyss of Time – Countdown to Singularity"),
        album: Album {
            id: 1,
            name: String::from("Omega"),
        },
        artist: Artist {
            id: 1,
            name: String::from("Epica"),
        },
        file_path: String::from("/music/epica/abyss.flac"),
    };

    let track_from_db =
        pool.get_or_create_track(&track.title, &track.album, &track.artist, &track.file_path);
    assert_eq!(
        track_from_db.err().unwrap().message(),
        "no rows returned by a query that expected to return at least one row".to_string()
    );

    let track_from_db = pool.get_or_create_track(
        &track2.title,
        &track2.album,
        &track2.artist,
        &track2.file_path,
    );
    assert_eq!(
        track_from_db.err().unwrap().message(),
        "no rows returned by a query that expected to return at least one row".to_string()
    );
}

#[test]
fn get_or_create_artist_is_idempotent() {
    let mut store = CatalogStore::new();
    let first = store.get_or_create_artist("Epica").unwrap();
    let second = store.get_or_create_artist("Epica").unwrap();
    assert_eq!(first.id, 1);
    assert_eq!(second.id, 1);
    assert_eq!(store.artists.len(), 1);

    let other = store.get_or_create_artist("Ayreon").unwrap();
    assert_eq!(other.id, 2);
    assert_eq!(store.artists.len(), 2);
}

#[test]
fn get_or_create_album_is_idempotent() {
    let mut store = CatalogStore::new();
    let first = store.get_or_create_album("Omega").unwrap();
    let second = store.get_or_create_album("Omega").unwrap();
    assert_eq!(first.id, 1);
    assert_eq!(second.id, 1);
    assert_eq!(store.albums.len(), 1);
}

#[test]
fn get_or_create_track_returns_hydrated_existing_row() {
    let mut store = CatalogStore::new();
    let album = store.get_or_create_album("Omega").unwrap();
    let artist = store.get_or_create_artist("Epica").unwrap();
    let created = store
        .get_or_create_track("Alpha", &album, &artist, "/music/a.flac")
        .unwrap();
    assert_eq!(created.id, 1);
    assert_eq!(created.album.name, "Omega");
    assert_eq!(created.artist.name, "Epica");
    assert_eq!(created.file_path, "/music/a.flac");

    // a second insertion under the same natural key returns the stored row,
    // keeping the first file path, and adds nothing
    let again = store
        .get_or_create_track("Alpha", &album, &artist, "/music/elsewhere.flac")
        .unwrap();
    assert_eq!(again.id, 1);
    assert_eq!(again.file_path, "/music/a.flac");
    assert_eq!(store.tracks.len(), 1);
}

#[test]
fn track_conflict_when_album_name_differs_for_id() {
    let mut store = CatalogStore::new();
    store.get_or_create_album("Omega").unwrap();
    let artist = store.get_or_create_artist("Epica").unwrap();
    let wrong = Album {
        id: 1,
        name: String::from("Design Your Universe"),
    };
    let res = store.get_or_create_track("Alpha", &wrong, &artist, "/music/a.flac");
    assert!(res.is_err());
    assert_eq!(store.tracks.len(), 0);
}

#[test]
fn list_queries_return_hydrated_rows() {
    let mut store = CatalogStore::new();
    let album = store.get_or_create_album("Omega").unwrap();
    let epica = store.get_or_create_artist("Epica").unwrap();
    let ayreon = store.get_or_create_artist("Ayreon").unwrap();
    store
        .get_or_create_track("Alpha", &album, &epica, "/music/a.flac")
        .unwrap();
    store
        .get_or_create_track("Beta", &album, &ayreon, "/music/b.flac")
        .unwrap();

    let artists = store.list_artists();
    assert_eq!(artists.len(), 2);
    assert_eq!(artists[0].name, "Epica");
    assert_eq!(artists[1].name, "Ayreon");

    let all = store.list_all_tracks();
    assert_eq!(all.len(), 2);
    assert_eq!(all[0].title, "Alpha");
    assert_eq!(all[0].album.name, "Omega");
    assert_eq!(all[0].artist.name, "Epica");
    assert_eq!(all[1].artist.name, "Ayreon");

    let by_epica = store.list_tracks_by_artist(&epica);
    assert_eq!(by_epica.len(), 1);
    assert_eq!(by_epica[0].title, "Alpha");

    let by_ayreon = store.list_tracks_by_artist(&ayreon);
    assert_eq!(by_ayreon.len(), 1);
    assert_eq!(by_ayreon[0].title, "Beta");
}

//! The catalog store: artists, albums and tracks held relationally, with
//! get-or-create insertion keyed by each entity's natural key (artist name,
//! album name, and `(title, album id)` for tracks).
//!
//! Row identities are assigned by the store on first insertion, starting at 1
//! and growing by one per row, and rows are never mutated or deleted. Track
//! reads are hydrated: the returned value embeds the full album and artist
//! rows, never a bare foreign key.

use vstd::prelude::*;

verus! {

/// Mathematical view of an artist or album row: an identity and a natural key.
#[verifier::ext_equal]
pub ghost struct NamedV {
    pub id: int,
    pub name: Seq<char>,
}

/// Mathematical view of a track row as stored, with foreign keys.
#[verifier::ext_equal]
pub ghost struct TrackRowV {
    pub id: int,
    pub title: Seq<char>,
    pub album_id: int,
    pub artist_id: int,
    pub file_path: Seq<char>,
}

/// Mathematical view of a hydrated track: referenced rows embedded as values.
#[verifier::ext_equal]
pub ghost struct TrackV {
    pub id: int,
    pub title: Seq<char>,
    pub album: NamedV,
    pub artist: NamedV,
    pub file_path: Seq<char>,
}

/// Mathematical view of the whole store.
#[verifier::ext_equal]
pub ghost struct StoreV {
    pub artists: Seq<NamedV>,
    pub albums: Seq<NamedV>,
    pub tracks: Seq<TrackRowV>,
}

/// The first row carrying the given name, if any.
pub open spec fn find_named(rows: Seq<NamedV>, name: Seq<char>) -> Option<NamedV>
    decreases rows.len(),
{
    if rows.len() == 0 {
        None
    } else if rows[0].name == name {
        Some(rows[0])
    } else {
        find_named(rows.drop_first(), name)
    }
}

/// Some row carries the given name.
pub open spec fn has_name(rows: Seq<NamedV>, name: Seq<char>) -> bool {
    exists|i: int| 0 <= i < rows.len() && rows[i].name == name
}

/// Get-or-create on a sequence of named rows: return the existing row for the
/// name, or append one with the next identity.
pub open spec fn goc_named(rows: Seq<NamedV>, name: Seq<char>) -> (Seq<NamedV>, NamedV) {
    match find_named(rows, name) {
        Some(r) => (rows, r),
        None => {
            let r = NamedV { id: rows.len() as int + 1, name };
            (rows.push(r), r)
        },
    }
}

/// Get-or-create an artist row by name.
pub open spec fn goc_artist(s: StoreV, name: Seq<char>) -> (StoreV, NamedV) {
    let (rows, r) = goc_named(s.artists, name);
    (StoreV { artists: rows, ..s }, r)
}

/// Get-or-create an album row by name.
pub open spec fn goc_album(s: StoreV, name: Seq<char>) -> (StoreV, NamedV) {
    let (rows, r) = goc_named(s.albums, name);
    (StoreV { albums: rows, ..s }, r)
}

/// The first track row with the given natural key `(title, album id)`, if any.
pub open spec fn find_track(rows: Seq<TrackRowV>, title: Seq<char>, album_id: int) -> Option<
    TrackRowV,
>
    decreases rows.len(),
{
    if rows.len() == 0 {
        None
    } else if rows[0].title == title && rows[0].album_id == album_id {
        Some(rows[0])
    } else {
        find_track(rows.drop_first(), title, album_id)
    }
}

/// Some track row carries the given natural key.
pub open spec fn has_track(rows: Seq<TrackRowV>, title: Seq<char>, album_id: int) -> bool {
    exists|i: int|
        0 <= i < rows.len() && rows[i].title == title && rows[i].album_id == album_id
}

/// Some row carries both the given identity and the given name.
pub open spec fn named_with_id(rows: Seq<NamedV>, id: int, name: Seq<char>) -> bool {
    exists|i: int| 0 <= i < rows.len() && rows[i].id == id && rows[i].name == name
}

/// Some row carries the given identity.
pub open spec fn id_known(rows: Seq<NamedV>, id: int) -> bool {
    exists|i: int| 0 <= i < rows.len() && rows[i].id == id
}

/// What get-or-create of a track does, beyond the store it leaves behind.
pub ghost enum TrackOutcome {
    /// A row with the natural key was already there.
    Existing(TrackRowV),
    /// No row had the key and the referenced rows exist: one was appended.
    Created(TrackRowV),
    /// No row had the key and a referenced row is missing: nothing changed.
    Conflict,
}

/// Get-or-create a track row. The lookup goes by `(title, album id)` alone;
/// only on a miss are the referenced album (by id and name, as the reselect
/// queries it) and artist (by id, as the hydrating join resolves it) checked,
/// and a missing one surfaces as a conflict with the store unchanged.
pub open spec fn goc_track(
    s: StoreV,
    title: Seq<char>,
    album: NamedV,
    artist: NamedV,
    file_path: Seq<char>,
) -> (StoreV, TrackOutcome) {
    match find_track(s.tracks, title, album.id) {
        Some(row) => (s, TrackOutcome::Existing(row)),
        None => {
            if !named_with_id(s.albums, album.id, album.name) || !id_known(
                s.artists,
                artist.id,
            ) {
                (s, TrackOutcome::Conflict)
            } else {
                let row = TrackRowV {
                    id: s.tracks.len() as int + 1,
                    title,
                    album_id: album.id,
                    artist_id: artist.id,
                    file_path,
                };
                (StoreV { tracks: s.tracks.push(row), ..s }, TrackOutcome::Created(row))
            }
        },
    }
}

/// A stored track row joined with the album and artist rows it references.
pub open spec fn hydrated(s: StoreV, row: TrackRowV) -> TrackV {
    TrackV {
        id: row.id,
        title: row.title,
        album: s.albums[row.album_id - 1],
        artist: s.artists[row.artist_id - 1],
        file_path: row.file_path,
    }
}

/// Every track row of the store, hydrated, in insertion order.
pub open spec fn all_tracks_of(s: StoreV) -> Seq<TrackV> {
    s.tracks.map_values(|r: TrackRowV| hydrated(s, r))
}

/// Holds of the track rows that reference the given artist.
pub open spec fn references_artist(artist_id: int) -> spec_fn(TrackRowV) -> bool {
    |r: TrackRowV| r.artist_id == artist_id
}

/// The track rows referencing the given artist, hydrated, in insertion order.
pub open spec fn tracks_of_artist(s: StoreV, artist_id: int) -> Seq<TrackV> {
    s.tracks.filter(references_artist(artist_id)).map_values(|r: TrackRowV| hydrated(s, r))
}

/// Well-formedness of the store: identities equal position plus one, natural
/// keys are unique, and every track row references existing album and artist
/// rows.
pub open spec fn store_wf(s: StoreV) -> bool {
    &&& forall|i: int| 0 <= i < s.artists.len() ==> (#[trigger] s.artists[i]).id == i + 1
    &&& forall|i: int, j: int|
        0 <= i < j < s.artists.len() ==> s.artists[i].name != s.artists[j].name
    &&& forall|i: int| 0 <= i < s.albums.len() ==> (#[trigger] s.albums[i]).id == i + 1
    &&& forall|i: int, j: int|
        0 <= i < j < s.albums.len() ==> s.albums[i].name != s.albums[j].name
    &&& forall|i: int| 0 <= i < s.tracks.len() ==> (#[trigger] s.tracks[i]).id == i + 1
    &&& forall|i: int, j: int|
        0 <= i < j < s.tracks.len() ==> !(s.tracks[i].title == s.tracks[j].title
            && s.tracks[i].album_id == s.tracks[j].album_id)
    &&& forall|i: int|
        0 <= i < s.tracks.len() ==> 1 <= (#[trigger] s.tracks[i]).album_id <= s.albums.len()
    &&& forall|i: int|
        0 <= i < s.tracks.len() ==> 1 <= (#[trigger] s.tracks[i]).artist_id
            <= s.artists.len()
}

/// The store with nothing in it.
pub open spec fn empty_store() -> StoreV {
    StoreV { artists: Seq::empty(), albums: Seq::empty(), tracks: Seq::empty() }
}

/// `find_named` returns a row exactly when some row carries the name, and
/// what it returns carries the name and sits in the sequence.
pub proof fn lemma_find_named_characterize(rows: Seq<NamedV>, name: Seq<char>)
    ensures
        find_named(rows, name) matches Some(r) ==> r.name == name && exists|i: int|
            0 <= i < rows.len() && rows[i] == r,
        find_named(rows, name) is Some <==> has_name(rows, name),
    decreases rows.len(),
{
    if rows.len() == 0 {
    } else if rows[0].name == name {
        assert(exists|i: int| 0 <= i < rows.len() && #[trigger] rows[i] == rows[0]);
    } else {
        lemma_find_named_characterize(rows.drop_first(), name);
        if let Some(r) = find_named(rows.drop_first(), name) {
            let i = choose|i: int|
                0 <= i < rows.drop_first().len() && rows.drop_first()[i] == r;
            assert(rows[i + 1] == r);
        }
        if has_name(rows, name) {
            let i = choose|i: int| 0 <= i < rows.len() && rows[i].name == name;
            assert(rows.drop_first()[i - 1] == rows[i]);
            assert(has_name(rows.drop_first(), name));
        }
    }
}

/// Under unique names, `find_named` returns the row at any index that
/// carries the name.
pub proof fn lemma_find_named_at(rows: Seq<NamedV>, name: Seq<char>, i: int)
    requires
        forall|p: int, q: int| 0 <= p < q < rows.len() ==> rows[p].name != rows[q].name,
        0 <= i < rows.len(),
        rows[i].name == name,
    ensures
        find_named(rows, name) == Some(rows[i]),
    decreases rows.len(),
{
    if rows[0].name == name {
        assert(i == 0);
    } else {
        assert(rows.drop_first()[i - 1] == rows[i]);
        lemma_find_named_at(rows.drop_first(), name, i - 1);
    }
}

/// `find_track` returns a row exactly when some row carries the key, and
/// what it returns carries the key and sits in the sequence.
pub proof fn lemma_find_track_characterize(rows: Seq<TrackRowV>, title: Seq<char>, album_id: int)
    ensures
        find_track(rows, title, album_id) matches Some(r) ==> r.title == title && r.album_id
            == album_id && exists|i: int| 0 <= i < rows.len() && rows[i] == r,
        find_track(rows, title, album_id) is Some <==> has_track(rows, title, album_id),
    decreases rows.len(),
{
    if rows.len() == 0 {
    } else if rows[0].title == title && rows[0].album_id == album_id {
        assert(exists|i: int| 0 <= i < rows.len() && #[trigger] rows[i] == rows[0]);
    } else {
        lemma_find_track_characterize(rows.drop_first(), title, album_id);
        if let Some(r) = find_track(rows.drop_first(), title, album_id) {
            let i = choose|i: int|
                0 <= i < rows.drop_first().len() && rows.drop_first()[i] == r;
            assert(rows[i + 1] == r);
        }
        if has_track(rows, title, album_id) {
            let i = choose|i: int|
                0 <= i < rows.len() && rows[i].title == title && rows[i].album_id == album_id;
            assert(rows.drop_first()[i - 1] == rows[i]);
            assert(has_track(rows.drop_first(), title, album_id));
        }
    }
}

/// Under unique keys, `find_track` returns the row at any index that carries
/// the key.
pub proof fn lemma_find_track_at(rows: Seq<TrackRowV>, title: Seq<char>, album_id: int, i: int)
    requires
        forall|p: int, q: int|
            0 <= p < q < rows.len() ==> !(rows[p].title == rows[q].title && rows[p].album_id
                == rows[q].album_id),
        0 <= i < rows.len(),
        rows[i].title == title,
        rows[i].album_id == album_id,
    ensures
        find_track(rows, title, album_id) == Some(rows[i]),
    decreases rows.len(),
{
    if rows[0].title == title && rows[0].album_id == album_id {
        assert(i == 0);
    } else {
        assert(rows.drop_first()[i - 1] == rows[i]);
        lemma_find_track_at(rows.drop_first(), title, album_id, i - 1);
    }
}

/// An artist row: an identity assigned by the store and the name that is the
/// natural key. Immutable once created.
pub struct Artist {
    pub id: i64,
    pub name: String,
}

/// An album row: an identity assigned by the store and the name that is the
/// natural key. Immutable once created.
pub struct Album {
    pub id: i64,
    pub name: String,
}

/// A track row as stored: title, foreign keys and the file path.
pub struct TrackRow {
    pub id: i64,
    pub title: String,
    pub album_id: i64,
    pub artist_id: i64,
    pub file_path: String,
}

/// A hydrated track, as every track read returns it: the referenced album
/// and artist rows embedded as values.
pub struct Track {
    pub id: i64,
    pub title: String,
    pub album: Album,
    pub artist: Artist,
    pub file_path: String,
}

impl View for Artist {
    type V = NamedV;

    open spec fn view(&self) -> NamedV {
        NamedV { id: self.id as int, name: self.name@ }
    }
}

impl View for Album {
    type V = NamedV;

    open spec fn view(&self) -> NamedV {
        NamedV { id: self.id as int, name: self.name@ }
    }
}

impl View for TrackRow {
    type V = TrackRowV;

    open spec fn view(&self) -> TrackRowV {
        TrackRowV {
            id: self.id as int,
            title: self.title@,
            album_id: self.album_id as int,
            artist_id: self.artist_id as int,
            file_path: self.file_path@,
        }
    }
}

impl View for Track {
    type V = TrackV;

    open spec fn view(&self) -> TrackV {
        TrackV {
            id: self.id as int,
            title: self.title@,
            album: self.album@,
            artist: self.artist@,
            file_path: self.file_path@,
        }
    }
}

impl Clone for Artist {
    fn clone(&self) -> (res: Self)
        ensures
            res == *self,
    {
        Artist { id: self.id, name: self.name.clone() }
    }
}

impl Clone for Album {
    fn clone(&self) -> (res: Self)
        ensures
            res == *self,
    {
        Album { id: self.id, name: self.name.clone() }
    }
}

impl Clone for Track {
    fn clone(&self) -> (res: Self)
        ensures
            res == *self,
    {
        Track {
            id: self.id,
            title: self.title.clone(),
            album: self.album.clone(),
            artist: self.artist.clone(),
            file_path: self.file_path.clone(),
        }
    }
}

/// The store-level failure: a query that had to return a row returned none,
/// as when a track insertion references an album row that does not exist.
#[derive(Clone, Copy, Debug, PartialEq, Eq, Structural)]
pub enum StoreError {
    RowNotFound,
}

impl StoreError {
    /// The message the surrounding interface shows for this failure.
    pub fn message(&self) -> (s: String)
        ensures
            s@ == "no rows returned by a query that expected to return at least one row"@,
    {
        "no rows returned by a query that expected to return at least one row".to_owned()
    }
}

/// The relational store itself: one growing table per entity.
pub struct CatalogStore {
    pub artists: Vec<Artist>,
    pub albums: Vec<Album>,
    pub tracks: Vec<TrackRow>,
}

impl View for CatalogStore {
    type V = StoreV;

    open spec fn view(&self) -> StoreV {
        StoreV {
            artists: self.artists@.map_values(|a: Artist| a@),
            albums: self.albums@.map_values(|a: Album| a@),
            tracks: self.tracks@.map_values(|t: TrackRow| t@),
        }
    }
}

impl CatalogStore {
    /// The store is well formed as `store_wf` has it.
    pub open spec fn wf(&self) -> bool {
        store_wf(self@)
    }

    /// A store with nothing in it.
    pub fn new() -> (s: CatalogStore)
        ensures
            s@ == empty_store(),
            s.wf(),
    {
        let s = CatalogStore { artists: Vec::new(), albums: Vec::new(), tracks: Vec::new() };
        proof {
            assert(s@ =~= empty_store());
        }
        s
    }

    /// Index of the first artist row with the given name, tied to
    /// `find_named` on the store's view.
    fn find_artist(&self, name: &String) -> (r: Option<usize>)
        requires
            self.wf(),
        ensures
            match r {
                Some(i) => i < self.artists@.len() && find_named(self@.artists, name@)
                    == Some(self.artists@[i as int]@),
                None => find_named(self@.artists, name@) is None,
            },
    {
        let n = self.artists.len();
        let mut i: usize = 0;
        while i < n
            invariant
                n == self.artists@.len(),
                i <= n,
                self.wf(),
                forall|j: int| 0 <= j < i ==> self@.artists[j].name != name@,
            decreases n - i,
        {
            if self.artists[i].name == *name {
                proof {
                    lemma_find_named_at(self@.artists, name@, i as int);
                }
                return Some(i);
            }
            i += 1;
        }
        proof {
            lemma_find_named_characterize(self@.artists, name@);
        }
        None
    }

    /// Look up an artist by name; insert it with the next identity if it is
    /// not there; either way return the row that now carries the name.
    pub fn get_or_create_artist(&mut self, name: &str) -> (r: Result<Artist, StoreError>)
        requires
            old(self).wf(),
            old(self)@.artists.len() < i64::MAX,
        ensures
            final(self).wf(),
            final(self)@ == goc_artist(old(self)@, name@).0,
            r matches Ok(a) && a@ == goc_artist(old(self)@, name@).1,
    {
        let name_owned: String = name.to_owned();
        match self.find_artist(&name_owned) {
            Some(i) => {
                let a = self.artists[i].clone();
                proof {
                    assert(final(self)@ =~= goc_artist(old(self)@, name@).0);
                }
                Ok(a)
            },
            None => {
                let id = self.artists.len() as i64 + 1;
                let a = Artist { id, name: name_owned };
                let res = a.clone();
                self.artists.push(a);
                proof {
                    let ghost sv = goc_artist(old(self)@, name@).0;
                    assert(self@.artists =~= old(self)@.artists.push(res@));
                    assert(self@ =~= sv);
                    lemma_find_named_characterize(old(self)@.artists, name@);
                    assert forall|p: int, q: int|
                        0 <= p < q < self@.artists.len() implies self@.artists[p].name
                        != self@.artists[q].name by {
                        if q == self@.artists.len() - 1 {
                            assert(!has_name(old(self)@.artists, name@));
                        }
                    }
                }
                Ok(res)
            },
        }
    }

    /// Index of the first album row with the given name, tied to
    /// `find_named` on the store's view.
    fn find_album(&self, name: &String) -> (r: Option<usize>)
        requires
            self.wf(),
        ensures
            match r {
                Some(i) => i < self.albums@.len() && find_named(self@.albums, name@)
                    == Some(self.albums@[i as int]@),
                None => find_named(self@.albums, name@) is None,
            },
    {
        let n = self.albums.len();
        let mut i: usize = 0;
        while i < n
            invariant
                n == self.albums@.len(),
                i <= n,
                self.wf(),
                forall|j: int| 0 <= j < i ==> self@.albums[j].name != name@,
            decreases n - i,
        {
            if self.albums[i].name == *name {
                proof {
                    lemma_find_named_at(self@.albums, name@, i as int);
                }
                return Some(i);
            }
            i += 1;
        }
        proof {
            lemma_find_named_characterize(self@.albums, name@);
        }
        None
    }

    /// Look up an album by name; insert it with the next identity if it is
    /// not there; either way return the row that now carries the name.
    pub fn get_or_create_album(&mut self, name: &str) -> (r: Result<Album, StoreError>)
        requires
            old(self).wf(),
            old(self)@.albums.len() < i64::MAX,
        ensures
            final(self).wf(),
            final(self)@ == goc_album(old(self)@, name@).0,
            r matches Ok(a) && a@ == goc_album(old(self)@, name@).1,
    {
        let name_owned: String = name.to_owned();
        match self.find_album(&name_owned) {
            Some(i) => {
                let a = self.albums[i].clone();
                proof {
                    assert(final(self)@ =~= goc_album(old(self)@, name@).0);
                }
                Ok(a)
            },
            None => {
                let id = self.albums.len() as i64 + 1;
                let a = Album { id, name: name_owned };
                let res = a.clone();
                self.albums.push(a);
                proof {
                    let ghost sv = goc_album(old(self)@, name@).0;
                    assert(self@.albums =~= old(self)@.albums.push(res@));
                    assert(self@ =~= sv);
                    lemma_find_named_characterize(old(self)@.albums, name@);
                    assert forall|p: int, q: int|
                        0 <= p < q < self@.albums.len() implies self@.albums[p].name
                        != self@.albums[q].name by {
                        if q == self@.albums.len() - 1 {
                            assert(!has_name(old(self)@.albums, name@));
                        }
                    }
                }
                Ok(res)
            },
        }
    }

    /// Index of the first track row with the given natural key, tied to
    /// `find_track` on the store's view.
    fn find_track_index(&self, title: &String, album_id: i64) -> (r: Option<usize>)
        requires
            self.wf(),
        ensures
            match r {
                Some(i) => i < self.tracks@.len() && find_track(
                    self@.tracks,
                    title@,
                    album_id as int,
                ) == Some(self.tracks@[i as int]@),
                None => find_track(self@.tracks, title@, album_id as int) is None,
            },
    {
        let n = self.tracks.len();
        let mut i: usize = 0;
        while i < n
            invariant
                n == self.tracks@.len(),
                i <= n,
                self.wf(),
                forall|j: int|
                    0 <= j < i ==> !(self@.tracks[j].title == title@ && self@.tracks[j].album_id
                        == album_id as int),
            decreases n - i,
        {
            if self.tracks[i].title == *title && self.tracks[i].album_id == album_id {
                proof {
                    lemma_find_track_at(self@.tracks, title@, album_id as int, i as int);
                }
                return Some(i);
            }
            i += 1;
        }
        proof {
            lemma_find_track_characterize(self@.tracks, title@, album_id as int);
        }
        None
    }

    /// Whether a row with this album's identity and name is in the store,
    /// as the reselect before a track insertion queries it.
    fn album_matches(&self, album: &Album) -> (r: bool)
        requires
            self.wf(),
        ensures
            r == named_with_id(self@.albums, album@.id, album@.name),
    {
        if album.id >= 1 && ((album.id - 1) as u64) < (self.albums.len() as u64) {
            let idx = (album.id - 1) as usize;
            let hit = self.albums[idx].name == album.name;
            proof {
                if hit {
                    assert(self@.albums[idx as int].id == album@.id);
                } else {
                    assert forall|i: int|
                        0 <= i < self@.albums.len() && self@.albums[i].id == album@.id implies self@.albums[i].name
                        != album@.name by {
                        assert(self@.albums[i].id == i + 1);
                    }
                }
            }
            hit
        } else {
            proof {
                assert forall|i: int|
                    0 <= i < self@.albums.len() implies (#[trigger] self@.albums[i]).id
                    != album@.id by {
                    assert(self@.albums[i].id == i + 1);
                }
            }
            false
        }
    }

    /// Whether any artist row carries the given identity.
    fn artist_known(&self, id: i64) -> (r: bool)
        requires
            self.wf(),
        ensures
            r == id_known(self@.artists, id as int),
    {
        let known = id >= 1 && ((id - 1) as u64) < (self.artists.len() as u64);
        proof {
            if known {
                assert(self@.artists[id - 1].id == id as int);
            } else {
                assert forall|i: int|
                    0 <= i < self@.artists.len() implies (#[trigger] self@.artists[i]).id
                    != id as int by {
                    assert(self@.artists[i].id == i + 1);
                }
            }
        }
        known
    }

    /// The track row at the given index, hydrated with the album and artist
    /// rows it references.
    fn hydrate_row(&self, i: usize) -> (t: Track)
        requires
            self.wf(),
            i < self.tracks@.len(),
        ensures
            t@ == hydrated(self@, self@.tracks[i as int]),
    {
        let row = &self.tracks[i];
        let albums_len = self.albums.len();
        let artists_len = self.artists.len();
        proof {
            assert(self@.tracks[i as int] == self.tracks@[i as int]@);
            assert(0 <= row.album_id - 1 < albums_len);
            assert(0 <= row.artist_id - 1 < artists_len);
        }
        let album_idx = (row.album_id - 1) as usize;
        let artist_idx = (row.artist_id - 1) as usize;
        let t = Track {
            id: row.id,
            title: row.title.clone(),
            album: self.albums[album_idx].clone(),
            artist: self.artists[artist_idx].clone(),
            file_path: row.file_path.clone(),
        };
        proof {
            assert(t@.album == self@.albums[self@.tracks[i as int].album_id - 1]);
            assert(t@.artist == self@.artists[self@.tracks[i as int].artist_id - 1]);
            assert(t@ =~= hydrated(self@, self@.tracks[i as int]));
        }
        t
    }

    /// Look up a track by `(title, album id)`; if it is there, return it
    /// hydrated and change nothing. On a miss, reselect the referenced album
    /// (by id and name) and artist (by id): if either is missing, fail with
    /// `StoreError::RowNotFound` and change nothing; otherwise insert a row
    /// with the next identity and return it hydrated.
    pub fn get_or_create_track(
        &mut self,
        title: &str,
        album: &Album,
        artist: &Artist,
        file_path: &str,
    ) -> (r: Result<Track, StoreError>)
        requires
            old(self).wf(),
            old(self)@.tracks.len() < i64::MAX,
        ensures
            final(self).wf(),
            final(self)@ == goc_track(old(self)@, title@, album@, artist@, file_path@).0,
            match goc_track(old(self)@, title@, album@, artist@, file_path@).1 {
                TrackOutcome::Existing(row) => r matches Ok(t) && t@ == hydrated(
                    old(self)@,
                    row,
                ),
                TrackOutcome::Created(row) => r matches Ok(t) && t@ == hydrated(
                    final(self)@,
                    row,
                ),
                TrackOutcome::Conflict => r == Err::<Track, StoreError>(StoreError::RowNotFound),
            },
    {
        let title_owned: String = title.to_owned();
        match self.find_track_index(&title_owned, album.id) {
            Some(i) => {
                proof {
                    lemma_find_track_characterize(self@.tracks, title@, album@.id);
                }
                Ok(self.hydrate_row(i))
            },
            None => {
                if !self.album_matches(album) {
                    return Err(StoreError::RowNotFound);
                }
                if !self.artist_known(artist.id) {
                    return Err(StoreError::RowNotFound);
                }
                let id = self.tracks.len() as i64 + 1;
                let row = TrackRow {
                    id,
                    title: title_owned,
                    album_id: album.id,
                    artist_id: artist.id,
                    file_path: file_path.to_owned(),
                };
                self.tracks.push(row);
                proof {
                    let ghost sv = goc_track(old(self)@, title@, album@, artist@, file_path@).0;
                    assert(self@.tracks =~= old(self)@.tracks.push(
                        goc_track(old(self)@, title@, album@, artist@, file_path@).1->Created_0,
                    ));
                    assert(self@ =~= sv);
                    lemma_find_track_characterize(old(self)@.tracks, title@, album@.id);
                    assert forall|p: int, q: int|
                        0 <= p < q < self@.tracks.len() implies !(self@.tracks[p].title
                        == self@.tracks[q].title && self@.tracks[p].album_id
                        == self@.tracks[q].album_id) by {
                        if q == self@.tracks.len() - 1 {
                            assert(!has_track(old(self)@.tracks, title@, album@.id));
                        }
                    }
                    let ghost wi = choose|i: int|
                        0 <= i < old(self)@.albums.len() && old(self)@.albums[i].id == album@.id
                            && old(self)@.albums[i].name == album@.name;
                    assert(old(self)@.albums[wi].id == wi + 1);
                    let ghost wa = choose|i: int|
                        0 <= i < old(self)@.artists.len() && old(self)@.artists[i].id
                            == artist@.id;
                    assert(old(self)@.artists[wa].id == wa + 1);
                }
                let n = self.tracks.len();
                Ok(self.hydrate_row(n - 1))
            },
        }
    }

    /// Every artist row, in insertion order.
    pub fn list_artists(&self) -> (r: Vec<Artist>)
        ensures
            r@ == self.artists@,
    {
        let n = self.artists.len();
        let mut r: Vec<Artist> = Vec::new();
        let mut i: usize = 0;
        while i < n
            invariant
                n == self.artists@.len(),
                i <= n,
                r@ =~= self.artists@.take(i as int),
            decreases n - i,
        {
            r.push(self.artists[i].clone());
            i += 1;
        }
        proof {
            assert(r@ =~= self.artists@);
        }
        r
    }

    /// Every track row, hydrated, in insertion order.
    pub fn list_all_tracks(&self) -> (r: Vec<Track>)
        requires
            self.wf(),
        ensures
            r@.map_values(|t: Track| t@) == all_tracks_of(self@),
    {
        let n = self.tracks.len();
        let mut r: Vec<Track> = Vec::new();
        let mut i: usize = 0;
        while i < n
            invariant
                n == self.tracks@.len(),
                i <= n,
                self.wf(),
                r@.len() == i,
                r@.map_values(|t: Track| t@) =~= all_tracks_of(self@).take(i as int),
            decreases n - i,
        {
            r.push(self.hydrate_row(i));
            proof {
                assert(r@.map_values(|t: Track| t@) =~= all_tracks_of(self@).take(i + 1));
            }
            i += 1;
        }
        proof {
            assert(all_tracks_of(self@).take(n as int) =~= all_tracks_of(self@));
        }
        r
    }

    /// The tracks referencing the given artist, hydrated, in insertion order.
    pub fn list_tracks_by_artist(&self, artist: &Artist) -> (r: Vec<Track>)
        requires
            self.wf(),
        ensures
            r@.map_values(|t: Track| t@) == tracks_of_artist(self@, artist@.id),
    {
        let ghost pred = references_artist(artist@.id);
        let n = self.tracks.len();
        let mut r: Vec<Track> = Vec::new();
        let mut i: usize = 0;
        while i < n
            invariant
                n == self.tracks@.len(),
                i <= n,
                self.wf(),
                pred == references_artist(artist@.id),
                r@.len() == self@.tracks.take(i as int).filter(pred).len(),
                forall|k: int|
                    0 <= k < r@.len() ==> (#[trigger] r@[k])@ == hydrated(
                        self@,
                        self@.tracks.take(i as int).filter(pred)[k],
                    ),
            decreases n - i,
        {
            proof {
                lemma_filter_push(self@.tracks.take(i as int), pred, self@.tracks[i as int]);
                assert(self@.tracks.take(i + 1) =~= self@.tracks.take(i as int).push(
                    self@.tracks[i as int],
                ));
            }
            if self.tracks[i].artist_id == artist.id {
                r.push(self.hydrate_row(i));
                proof {
                    assert(pred(self@.tracks[i as int]));
                }
            } else {
                proof {
                    assert(!pred(self@.tracks[i as int]));
                }
            }
            i += 1;
        }
        proof {
            assert(self@.tracks.take(n as int) =~= self@.tracks);
            assert(r@.map_values(|t: Track| t@) =~= tracks_of_artist(self@, artist@.id));
        }
        r
    }
}

/// A specific row (identity and name both) stands somewhere in a sequence
/// of rows.
pub open spec fn row_in(rows: Seq<NamedV>, r: NamedV) -> bool {
    exists|i: int| 0 <= i < rows.len() && rows[i] == r
}

/// Get-or-create returns a row of the sequence it leaves behind, carrying
/// the requested name; it keeps every existing row in place and grows the
/// sequence by at most one.
pub proof fn lemma_goc_named_frame(rows: Seq<NamedV>, name: Seq<char>)
    ensures
        row_in(goc_named(rows, name).0, goc_named(rows, name).1),
        goc_named(rows, name).1.name == name,
        forall|r: NamedV| row_in(rows, r) ==> row_in(goc_named(rows, name).0, r),
        rows.len() <= goc_named(rows, name).0.len() <= rows.len() + 1,
        goc_named(rows, name).0.len() == rows.len() + 1 ==> !has_name(rows, name)
            && goc_named(rows, name).0 == rows.push(goc_named(rows, name).1),
{
    lemma_find_named_characterize(rows, name);
    match find_named(rows, name) {
        Some(r) => {
            let i = choose|i: int| 0 <= i < rows.len() && rows[i] == r;
            assert(row_in(rows, r));
        },
        None => {
            let out = rows.push(NamedV { id: rows.len() as int + 1, name });
            assert(out[rows.len() as int] == goc_named(rows, name).1);
            assert forall|r: NamedV| row_in(rows, r) implies row_in(out, r) by {
                let i = choose|i: int| 0 <= i < rows.len() && rows[i] == r;
                assert(out[i] == r);
            }
        },
    }
}

/// Under unique names, get-or-create of a name whose row is already there
/// returns that very row and changes nothing.
pub proof fn lemma_goc_named_present(rows: Seq<NamedV>, r: NamedV)
    requires
        forall|p: int, q: int| 0 <= p < q < rows.len() ==> rows[p].name != rows[q].name,
        row_in(rows, r),
    ensures
        goc_named(rows, r.name) == (rows, r),
{
    let i = choose|i: int| 0 <= i < rows.len() && rows[i] == r;
    lemma_find_named_at(rows, r.name, i);
}

/// `lemma_goc_named_present` lifted to the artist table of a well-formed
/// store: the store is unchanged and the row itself comes back.
pub proof fn lemma_goc_artist_present(s: StoreV, r: NamedV)
    requires
        store_wf(s),
        row_in(s.artists, r),
    ensures
        goc_artist(s, r.name) == (s, r),
{
    lemma_goc_named_present(s.artists, r);
    assert(StoreV { artists: s.artists, ..s } =~= s);
}

/// `lemma_goc_named_present` lifted to the album table of a well-formed
/// store: the store is unchanged and the row itself comes back.
pub proof fn lemma_goc_album_present(s: StoreV, r: NamedV)
    requires
        store_wf(s),
        row_in(s.albums, r),
    ensures
        goc_album(s, r.name) == (s, r),
{
    lemma_goc_named_present(s.albums, r);
    assert(StoreV { albums: s.albums, ..s } =~= s);
}

/// Filtering a sequence extended by one element keeps the filtered prefix and
/// appends the new element exactly when it satisfies the predicate.
pub proof fn lemma_filter_push<A>(s: Seq<A>, pred: spec_fn(A) -> bool, x: A)
    ensures
        s.push(x).filter(pred) == if pred(x) {
            s.filter(pred).push(x)
        } else {
            s.filter(pred)
        },
{
    reveal(Seq::filter);
    assert(s.push(x).drop_last() =~= s);
    assert(s.push(x).last() == x);
}

/// A track insertion that references an album identity no row carries fails
/// with a conflict and leaves the store unchanged: no track row is generated.
pub proof fn lemma_conflict_surfaced(
    s: StoreV,
    title: Seq<char>,
    album: NamedV,
    artist: NamedV,
    file_path: Seq<char>,
)
    requires
        store_wf(s),
        !id_known(s.albums, album.id),
    ensures
        goc_track(s, title, album, artist, file_path) == (s, TrackOutcome::Conflict),
{
    lemma_find_track_characterize(s.tracks, title, album.id);
    if let Some(row) = find_track(s.tracks, title, album.id) {
        let i = choose|i: int| 0 <= i < s.tracks.len() && s.tracks[i] == row;
        assert(1 <= s.tracks[i].album_id <= s.albums.len());
        assert(s.albums[row.album_id - 1].id == row.album_id);
        assert(false);
    }
    if named_with_id(s.albums, album.id, album.name) {
        let i = choose|i: int|
            0 <= i < s.albums.len() && s.albums[i].id == album.id && s.albums[i].name
                == album.name;
        assert(false);
    }
}

} // verus!

//! The library synchronizer: walks a scanned file listing, filters it to the
//! supported audio extension, and performs deduplicated get-or-create
//! insertion into the catalog store, keeping an in-run cache so that a name
//! seen twice costs only one store lookup.
//!
//! Tag extraction itself is an outside collaborator: the synchronizer takes
//! each file's path together with the tags that could be read from it, and a
//! file whose tags could not be read is fatal to the whole run.

use vstd::prelude::*;

use crate::model::Album;
use crate::model::Artist;
use crate::model::CatalogStore;
use crate::model::NamedV;
use crate::model::StoreV;
use crate::model::goc_album;
use crate::model::goc_artist;
use crate::model::goc_named;
use crate::model::goc_track;
use crate::model::TrackOutcome;
use crate::model::TrackRowV;
use crate::model::empty_store;
use crate::model::find_named;
use crate::model::find_track;
use crate::model::lemma_find_named_at;
use crate::model::has_name;
use crate::model::has_track;
use crate::model::id_known;
use crate::model::lemma_find_named_characterize;
use crate::model::lemma_find_track_characterize;
use crate::model::lemma_goc_album_present;
use crate::model::lemma_goc_artist_present;
use crate::model::lemma_goc_named_frame;
use crate::model::lemma_goc_named_present;
use crate::model::named_with_id;
use crate::model::row_in;
use crate::model::store_wf;

verus! {

/// Mathematical view of the tags read from one file.
#[verifier::ext_equal]
pub ghost struct FileTagsV {
    pub artists: Seq<Seq<char>>,
    pub album: Seq<char>,
    pub title: Seq<char>,
}

/// Mathematical view of one scanned file: its path, and its tags where they
/// could be read.
#[verifier::ext_equal]
pub ghost struct ScanEntryV {
    pub path: Seq<char>,
    pub tags: Option<FileTagsV>,
}

/// The tags read from one file: every artist tag in order, the album name
/// and the title. A missing album or title tag reads as the empty string,
/// and every required tag must really be there: a file with no artist tag,
/// an empty album or an empty title is unreadable for the run.
pub struct FileTags {
    pub artists: Vec<String>,
    pub album: String,
    pub title: String,
}

/// One scanned file handed to the synchronizer: the path, and `None` for the
/// tags when the file could not be parsed.
pub struct ScanEntry {
    pub path: String,
    pub tags: Option<FileTags>,
}

impl View for FileTags {
    type V = FileTagsV;

    open spec fn view(&self) -> FileTagsV {
        FileTagsV {
            artists: self.artists@.map_values(|s: String| s@),
            album: self.album@,
            title: self.title@,
        }
    }
}

impl View for ScanEntry {
    type V = ScanEntryV;

    open spec fn view(&self) -> ScanEntryV {
        ScanEntryV {
            path: self.path@,
            tags: match self.tags {
                Some(t) => Some(t@),
                None => None,
            },
        }
    }
}

/// The views of a scanned listing, in order.
pub open spec fn entries_v(es: Seq<ScanEntry>) -> Seq<ScanEntryV> {
    es.map_values(|e: ScanEntry| e@)
}

/// The suffix that marks the supported audio format.
pub open spec fn flac_suffix() -> Seq<char> {
    seq!['.', 'f', 'l', 'a', 'c']
}

/// Whether a path names a file with the supported extension: the file name
/// ends in `.flac` and has at least one character before that suffix, so a
/// bare `.flac` (a dotfile with no extension) does not count.
pub open spec fn is_flac_path(p: Seq<char>) -> bool {
    &&& p.len() >= 6
    &&& p.subrange(p.len() - 5, p.len() as int) == flac_suffix()
    &&& p[p.len() - 6] != '/'
}

/// A scanned file takes part in the run exactly when its path carries the
/// supported extension; other files are silently skipped.
pub open spec fn entry_relevant(e: ScanEntryV) -> bool {
    is_flac_path(e.path)
}

/// A relevant file is readable when its tags were parsed and every required
/// tag is really there: at least one artist tag, a nonempty album name and a
/// nonempty title. Anything less is a tag-read failure for the run.
pub open spec fn entry_readable(e: ScanEntryV) -> bool {
    e.tags matches Some(t) && {
        &&& t.artists.len() > 0
        &&& t.album.len() > 0
        &&& t.title.len() > 0
    }
}

/// Get-or-create each artist name in order.
pub open spec fn add_artists(s: StoreV, names: Seq<Seq<char>>) -> StoreV
    decreases names.len(),
{
    if names.len() == 0 {
        s
    } else {
        add_artists(goc_artist(s, names[0]).0, names.drop_first())
    }
}

/// What one relevant, readable file does to the store: get-or-create every
/// artist tag, then the album, then the track, whose primary artist is the
/// row named by the first artist tag.
pub open spec fn apply_entry(s: StoreV, e: ScanEntryV) -> StoreV {
    match e.tags {
        Some(t) => {
            let s1 = add_artists(s, t.artists);
            let album = goc_album(s1, t.album).1;
            let s2 = goc_album(s1, t.album).0;
            let artist = goc_named(s1.artists, t.artists[0]).1;
            goc_track(s2, t.title, album, artist, e.path).0
        },
        None => s,
    }
}

/// The store a synchronization run leaves behind: skipped files change
/// nothing, the first unreadable relevant file stops the run with everything
/// inserted so far kept, and each relevant readable file is applied in order.
pub open spec fn sync_run(es: Seq<ScanEntryV>, s: StoreV) -> StoreV
    decreases es.len(),
{
    if es.len() == 0 {
        s
    } else if !entry_relevant(es[0]) {
        sync_run(es.drop_first(), s)
    } else if !entry_readable(es[0]) {
        s
    } else {
        sync_run(es.drop_first(), apply_entry(s, es[0]))
    }
}

/// A run succeeds exactly when every relevant file is readable.
pub open spec fn sync_ok(es: Seq<ScanEntryV>) -> bool {
    forall|i: int|
        0 <= i < es.len() && entry_relevant(#[trigger] es[i]) ==> entry_readable(es[i])
}

/// Index of the first relevant file that is not readable.
pub open spec fn first_unreadable(es: Seq<ScanEntryV>) -> int
    decreases es.len(),
{
    if es.len() == 0 {
        0
    } else if entry_relevant(es[0]) && !entry_readable(es[0]) {
        0
    } else {
        1 + first_unreadable(es.drop_first())
    }
}

/// How many artist tags the listing carries in all: an upper bound on the
/// artist rows a run can insert.
pub open spec fn tag_count(es: Seq<ScanEntryV>) -> nat
    decreases es.len(),
{
    if es.len() == 0 {
        0
    } else {
        (match es[0].tags {
            Some(t) => t.artists.len(),
            None => 0,
        }) + tag_count(es.drop_first())
    }
}

/// Whether a path names a file with the supported audio extension, as
/// `is_flac_path` has it.
pub fn has_flac_extension(path: &str) -> (r: bool)
    ensures
        r == is_flac_path(path@),
{
    let n = path.unicode_len();
    if n < 6 {
        return false;
    }
    let sep = path.get_char(n - 6);
    if sep == '/' {
        return false;
    }
    let c0 = path.get_char(n - 5);
    let c1 = path.get_char(n - 4);
    let c2 = path.get_char(n - 3);
    let c3 = path.get_char(n - 2);
    let c4 = path.get_char(n - 1);
    let hit = c0 == '.' && c1 == 'f' && c2 == 'l' && c3 == 'a' && c4 == 'c';
    proof {
        let ghost p = path@;
        let ghost suf = p.subrange(p.len() - 5, p.len() as int);
        if hit {
            assert(suf =~= flac_suffix());
        } else {
            assert(suf.len() == 5);
            if suf == flac_suffix() {
                assert(suf[0] == '.' && suf[1] == 'f' && suf[2] == 'l' && suf[3] == 'a'
                    && suf[4] == 'c');
                assert(false);
            }
        }
    }
    hit
}

/// The synchronization failure: a relevant file whose tags could not be
/// read (or that carries no artist tag), fatal to the whole run.
#[derive(Debug)]
pub enum SyncError {
    /// Carries the path of the offending file.
    TagRead(String),
}

/// The in-run cache: artist and album rows already obtained from the store
/// during this run, so that a name seen twice costs only one store lookup.
/// It is created by `synchronize`, passed through its scan loop, and dropped
/// when the run ends; it never outlives a run.
struct SyncCache {
    artists: Vec<Artist>,
    albums: Vec<Album>,
}

impl SyncCache {
    /// Views of the cached artist rows.
    spec fn artists_v(&self) -> Seq<NamedV> {
        self.artists@.map_values(|a: Artist| a@)
    }

    /// Views of the cached album rows.
    spec fn albums_v(&self) -> Seq<NamedV> {
        self.albums@.map_values(|a: Album| a@)
    }

    /// Every cached row is a row of the store.
    spec fn wf(&self, s: StoreV) -> bool {
        &&& forall|i: int|
            0 <= i < self.artists_v().len() ==> row_in(
                s.artists,
                #[trigger] self.artists_v()[i],
            )
        &&& forall|i: int|
            0 <= i < self.albums_v().len() ==> row_in(s.albums, #[trigger] self.albums_v()[i])
    }

    fn new() -> (c: SyncCache)
        ensures
            c.artists_v() == Seq::<NamedV>::empty(),
            c.albums_v() == Seq::<NamedV>::empty(),
    {
        let c = SyncCache { artists: Vec::new(), albums: Vec::new() };
        proof {
            assert(c.artists_v() =~= Seq::<NamedV>::empty());
            assert(c.albums_v() =~= Seq::<NamedV>::empty());
        }
        c
    }

    /// The cached artist row carrying the given name, if one is there.
    fn get_artist(&self, name: &String) -> (r: Option<Artist>)
        ensures
            match r {
                Some(a) => row_in(self.artists_v(), a@) && a@.name == name@,
                None => !has_name(self.artists_v(), name@),
            },
    {
        let n = self.artists.len();
        let mut i: usize = 0;
        while i < n
            invariant
                n == self.artists@.len(),
                i <= n,
                forall|j: int| 0 <= j < i ==> self.artists_v()[j].name != name@,
            decreases n - i,
        {
            if self.artists[i].name == *name {
                let a = self.artists[i].clone();
                proof {
                    assert(self.artists_v()[i as int] == a@);
                }
                return Some(a);
            }
            i += 1;
        }
        None
    }

    /// The cached album row carrying the given name, if one is there.
    fn get_album(&self, name: &String) -> (r: Option<Album>)
        ensures
            match r {
                Some(a) => row_in(self.albums_v(), a@) && a@.name == name@,
                None => !has_name(self.albums_v(), name@),
            },
    {
        let n = self.albums.len();
        let mut i: usize = 0;
        while i < n
            invariant
                n == self.albums@.len(),
                i <= n,
                forall|j: int| 0 <= j < i ==> self.albums_v()[j].name != name@,
            decreases n - i,
        {
            if self.albums[i].name == *name {
                let a = self.albums[i].clone();
                proof {
                    assert(self.albums_v()[i as int] == a@);
                }
                return Some(a);
            }
            i += 1;
        }
        None
    }

    fn put_artist(&mut self, a: Artist)
        ensures
            final(self).artists_v() == old(self).artists_v().push(a@),
            final(self).albums_v() == old(self).albums_v(),
    {
        self.artists.push(a);
        proof {
            assert(self.artists_v() =~= old(self).artists_v().push(
                self.artists@[self.artists@.len() - 1]@,
            ));
        }
    }

    fn put_album(&mut self, a: Album)
        ensures
            final(self).albums_v() == old(self).albums_v().push(a@),
            final(self).artists_v() == old(self).artists_v(),
    {
        self.albums.push(a);
        proof {
            assert(self.albums_v() =~= old(self).albums_v().push(
                self.albums@[self.albums@.len() - 1]@,
            ));
        }
    }
}

/// `first_unreadable` names the position of the first relevant entry that
/// is not readable, when everything before a known such position is in
/// order.
proof fn lemma_first_unreadable_at(es: Seq<ScanEntryV>, i: int)
    requires
        0 <= i < es.len(),
        forall|k: int|
            0 <= k < i ==> !(entry_relevant(#[trigger] es[k]) && !entry_readable(es[k])),
        entry_relevant(es[i]),
        !entry_readable(es[i]),
    ensures
        first_unreadable(es) == i,
    decreases i,
{
    if i == 0 {
    } else {
        assert(!(entry_relevant(es[0]) && !entry_readable(es[0])));
        assert forall|k: int|
            0 <= k < i - 1 implies !(entry_relevant(#[trigger] es.drop_first()[k])
            && !entry_readable(es.drop_first()[k])) by {
            assert(es.drop_first()[k] == es[k + 1]);
        }
        assert(es.drop_first()[i - 1] == es[i]);
        lemma_first_unreadable_at(es.drop_first(), i - 1);
    }
}

/// Walk the scanned listing and perform deduplicated get-or-create
/// insertion into the store, exactly as `sync_run` describes it: files
/// without the supported extension are skipped silently; the first relevant
/// file whose tags are missing, or that carries no artist tag, aborts the
/// run with everything inserted so far kept (a file with no artist tag, an
/// empty album or an empty title counts as unreadable); every other
/// relevant file has
/// each of its artist tags, its album and its track get-or-created in that
/// order, with the track's primary artist the row named by the first artist
/// tag. An in-run cache keeps a name seen twice from costing a second store
/// lookup; it changes nothing about the outcome.
///
/// The arithmetic preconditions only keep the store's `i64` identities from
/// overflowing; any listing a real machine can hold satisfies them.
pub fn synchronize(entries: &Vec<ScanEntry>, store: &mut CatalogStore) -> (r: Result<
    (),
    SyncError,
>)
    requires
        old(store).wf(),
        old(store)@.artists.len() + tag_count(entries_v(entries@)) <= i64::MAX,
        old(store)@.albums.len() + entries@.len() <= i64::MAX,
        old(store)@.tracks.len() + entries@.len() <= i64::MAX,
    ensures
        final(store).wf(),
        final(store)@ == sync_run(entries_v(entries@), old(store)@),
        match r {
            Ok(_) => sync_ok(entries_v(entries@)),
            Err(e) => {
                &&& !sync_ok(entries_v(entries@))
                &&& e matches SyncError::TagRead(p) && p@ == entries_v(entries@)[
                    first_unreadable(entries_v(entries@))
                ].path
            },
        },
{
    let ghost ev = entries_v(entries@);
    let ghost s0 = old(store)@;
    proof {
        assert(ev.skip(0) =~= ev);
    }
    let mut cache = SyncCache::new();
    let n = entries.len();
    let mut i: usize = 0;
    while i < n
        invariant
            n == entries@.len(),
            i <= n,
            ev == entries_v(entries@),
            ev.len() == n,
            store.wf(),
            cache.wf(store@),
            s0 == old(store)@,
            sync_run(ev, s0) == sync_run(ev.skip(i as int), store@),
            forall|k: int|
                0 <= k < i && entry_relevant(#[trigger] ev[k]) ==> entry_readable(ev[k]),
            store@.artists.len() + tag_count(ev.skip(i as int)) <= i64::MAX,
            store@.albums.len() + (n - i) <= i64::MAX,
            store@.tracks.len() + (n - i) <= i64::MAX,
        decreases n - i,
    {
        let e = &entries[i];
        proof {
            assert(ev[i as int] == e@);
            assert(ev.skip(i as int)[0] == ev[i as int]);
            assert(ev.skip(i as int).drop_first() =~= ev.skip(i as int + 1));
            assert(tag_count(ev.skip(i as int)) == (match ev[i as int].tags {
                Some(t) => t.artists.len(),
                None => 0nat,
            }) + tag_count(ev.skip(i as int + 1)));
        }
        if has_flac_extension(e.path.as_str()) {
            let tags = match &e.tags {
                Some(tags) => tags,
                None => {
                    proof {
                        assert(!entry_readable(ev[i as int]));
                        assert(!sync_ok(ev));
                        lemma_first_unreadable_at(ev, i as int);
                    }
                    return Err(SyncError::TagRead(e.path.clone()));
                },
            };
            proof {
                assert(e@.tags == Some(tags@));
            }
            if tags.artists.len() == 0 || tags.album.as_str().is_empty()
                || tags.title.as_str().is_empty() {
                proof {
                    assert(!entry_readable(ev[i as int]));
                    assert(!sync_ok(ev));
                    lemma_first_unreadable_at(ev, i as int);
                }
                return Err(SyncError::TagRead(e.path.clone()));
            }
            let ghost s_entry = store@;
            let ghost names = tags@.artists;
            proof {
                assert(names.skip(0) =~= names);
            }
            let m = tags.artists.len();
            let mut j: usize = 0;
            while j < m
                invariant
                    m == tags@.artists.len(),
                    j <= m,
                    names == tags@.artists,
                    store.wf(),
                    cache.wf(store@),
                    store_wf(s_entry),
                    add_artists(store@, names.skip(j as int)) == add_artists(s_entry, names),
                    forall|k: int|
                        0 <= k < j ==> has_name(cache.artists_v(), #[trigger] names[k]),
                    store@.albums == s_entry.albums,
                    store@.tracks == s_entry.tracks,
                    store@.artists.len() + (m - j) + tag_count(ev.skip(i as int + 1))
                        <= i64::MAX,
                decreases m - j,
            {
                proof {
                    assert(names.skip(j as int)[0] == names[j as int]);
                    assert(names.skip(j as int).drop_first() =~= names.skip(j as int + 1));
                }
                let ghost cache0 = cache.artists_v();
                let name = &tags.artists[j];
                proof {
                    assert(names[j as int] == name@);
                }
                match cache.get_artist(name) {
                    Some(a) => {
                        proof {
                            assert(row_in(store@.artists, a@));
                            lemma_goc_artist_present(store@, a@);
                            assert(has_name(cache.artists_v(), names[j as int]));
                        }
                    },
                    None => {
                        let ghost pre = store@;
                        let created = match store.get_or_create_artist(name.as_str()) {
                            Ok(a) => a,
                            Err(_) => unreached(),
                        };
                        proof {
                            lemma_goc_named_frame(pre.artists, name@);
                            assert(store@ == goc_artist(pre, name@).0);
                            assert(store@.artists == goc_named(pre.artists, name@).0);
                            assert(row_in(store@.artists, created@));
                        }
                        let ghost pre_cache_artists = cache.artists_v();
                        cache.put_artist(created);
                        proof {
                            assert forall|k: int|
                                0 <= k < cache.artists_v().len() implies row_in(
                                store@.artists,
                                #[trigger] cache.artists_v()[k],
                            ) by {
                                if k < pre_cache_artists.len() {
                                    assert(cache.artists_v()[k] == pre_cache_artists[k]);
                                    assert(row_in(pre.artists, pre_cache_artists[k]));
                                } else {
                                    assert(cache.artists_v()[k] == created@);
                                }
                            }
                            assert(cache.artists_v()[cache.artists_v().len() - 1] == created@);
                            assert(has_name(cache.artists_v(), names[j as int]));
                        }
                    },
                }
                proof {
                    assert(has_name(cache.artists_v(), names[j as int]));
                    assert forall|k: int|
                        0 <= k < j + 1 implies has_name(
                        cache.artists_v(),
                        #[trigger] names[k],
                    ) by {
                        if k < j as int {
                            assert(has_name(cache0, names[k]));
                            let w = choose|w: int|
                                0 <= w < cache0.len() && cache0[w].name == names[k];
                            assert(cache.artists_v()[w] == cache0[w]);
                        }
                    }
                }
                j += 1;
            }
            let ghost s1 = store@;
            proof {
                assert(names.skip(m as int) =~= Seq::<Seq<char>>::empty());
                assert(add_artists(s1, names.skip(m as int)) == s1);
                assert(s1 == add_artists(s_entry, names));
            }
            let album = match cache.get_album(&tags.album) {
                Some(a) => {
                    proof {
                        assert(row_in(store@.albums, a@));
                        lemma_goc_album_present(store@, a@);
                    }
                    a
                },
                None => {
                    let ghost pre = store@;
                    let a = match store.get_or_create_album(tags.album.as_str()) {
                        Ok(a) => a,
                        Err(_) => unreached(),
                    };
                    proof {
                        lemma_goc_named_frame(pre.albums, tags@.album);
                        assert(store@.albums == goc_named(pre.albums, tags@.album).0);
                        assert(row_in(store@.albums, a@));
                    }
                    let ghost pre_cache_albums = cache.albums_v();
                    cache.put_album(a.clone());
                    proof {
                        assert forall|k: int|
                            0 <= k < cache.albums_v().len() implies row_in(
                            store@.albums,
                            #[trigger] cache.albums_v()[k],
                        ) by {
                            if k < pre_cache_albums.len() {
                                assert(cache.albums_v()[k] == pre_cache_albums[k]);
                                assert(row_in(pre.albums, pre_cache_albums[k]));
                            } else {
                                assert(cache.albums_v()[k] == a@);
                            }
                        }
                    }
                    a
                },
            };
            let ghost s2 = store@;
            proof {
                assert(album@ == goc_album(s1, tags@.album).1);
                assert(s2 == goc_album(s1, tags@.album).0);
                assert(s2.artists == s1.artists);
                assert(s2.tracks == s1.tracks);
            }
            let primary = match cache.get_artist(&tags.artists[0]) {
                Some(a) => a,
                None => {
                    proof {
                        assert(has_name(cache.artists_v(), names[0]));
                    }
                    unreached()
                },
            };
            proof {
                assert(row_in(s2.artists, primary@));
                lemma_goc_named_present(s1.artists, primary@);
                assert(primary@ == goc_named(s1.artists, names[0]).1);
            }
            let track_outcome = store.get_or_create_track(
                tags.title.as_str(),
                &album,
                &primary,
                e.path.as_str(),
            );
            match track_outcome {
                Ok(_) => {},
                Err(_) => {
                    proof {
                        let gi = choose|gi: int|
                            0 <= gi < s2.albums.len() && s2.albums[gi] == album@;
                        assert(named_with_id(s2.albums, album@.id, album@.name));
                        let gj = choose|gj: int|
                            0 <= gj < s2.artists.len() && s2.artists[gj] == primary@;
                        assert(id_known(s2.artists, primary@.id));
                    }
                    unreached()
                },
            }
            proof {
                assert(store@ == goc_track(s2, tags@.title, album@, primary@, e@.path).0);
                assert(store@ == apply_entry(s_entry, ev[i as int]));
                assert(entry_relevant(ev[i as int]));
                assert(entry_readable(ev[i as int]));
                assert(sync_run(ev.skip(i as int), s_entry) == sync_run(
                    ev.skip(i as int + 1),
                    apply_entry(s_entry, ev[i as int]),
                ));
                assert(store@.artists == s1.artists);
                assert(store@.albums == s2.albums);
                assert(s2.albums.len() <= s_entry.albums.len() + 1);
                assert(store@.tracks.len() <= s_entry.tracks.len() + 1);
                assert forall|k: int|
                    0 <= k < cache.artists_v().len() implies row_in(
                    store@.artists,
                    #[trigger] cache.artists_v()[k],
                ) by {}
                assert forall|k: int|
                    0 <= k < cache.albums_v().len() implies row_in(
                    store@.albums,
                    #[trigger] cache.albums_v()[k],
                ) by {}
            }
        } else {
            proof {
                assert(!entry_relevant(ev[i as int]));
                assert(sync_run(ev.skip(i as int), store@) == sync_run(
                    ev.skip(i as int + 1),
                    store@,
                ));
            }
        }
        i += 1;
    }
    proof {
        assert(ev.skip(n as int) =~= Seq::<ScanEntryV>::empty());
        assert(sync_run(ev.skip(n as int), store@) == store@);
    }
    Ok(())
}

/// One store extends another: every table of the first is a prefix of the
/// same table of the second. Every operation of a run only ever appends.
pub open spec fn store_leq(s1: StoreV, s2: StoreV) -> bool {
    &&& s1.artists.is_prefix_of(s2.artists)
    &&& s1.albums.is_prefix_of(s2.albums)
    &&& s1.tracks.is_prefix_of(s2.tracks)
}

/// Everything one relevant, readable file asks for is already in the store:
/// every artist name, the album name, and the track under the key
/// `(title, id of the album row carrying the album name)`.
pub open spec fn entry_in_store(s: StoreV, e: ScanEntryV) -> bool {
    e.tags matches Some(t) && {
        &&& forall|k: int|
            0 <= k < t.artists.len() ==> has_name(s.artists, #[trigger] t.artists[k])
        &&& has_name(s.albums, t.album)
        &&& (find_named(s.albums, t.album) matches Some(a) && has_track(
            s.tracks,
            t.title,
            a.id,
        ))
    }
}

/// Store extension is reflexive and transitive.
proof fn lemma_store_leq_trans(s1: StoreV, s2: StoreV, s3: StoreV)
    requires
        store_leq(s1, s2),
        store_leq(s2, s3),
    ensures
        store_leq(s1, s3),
{
    assert(s1.artists =~= s3.artists.take(s1.artists.len() as int));
    assert(s1.albums =~= s3.albums.take(s1.albums.len() as int));
    assert(s1.tracks =~= s3.tracks.take(s1.tracks.len() as int));
}

/// Each table of the first store is unchanged or extended by one row in the
/// second: then the first store extends into the second.
proof fn lemma_store_leq_tables(s1: StoreV, s2: StoreV)
    requires
        s2.artists == s1.artists || exists|x: NamedV| s2.artists == s1.artists.push(x),
        s2.albums == s1.albums || exists|x: NamedV| s2.albums == s1.albums.push(x),
        s2.tracks == s1.tracks || exists|x: TrackRowV| s2.tracks == s1.tracks.push(x),
    ensures
        store_leq(s1, s2),
{
    assert(s1.artists =~= s2.artists.take(s1.artists.len() as int));
    assert(s1.albums =~= s2.albums.take(s1.albums.len() as int));
    assert(s1.tracks =~= s2.tracks.take(s1.tracks.len() as int));
}

/// Get-or-create of an artist preserves well-formedness and only appends.
pub proof fn lemma_goc_artist_wf(s: StoreV, name: Seq<char>)
    requires
        store_wf(s),
    ensures
        store_wf(goc_artist(s, name).0),
        store_leq(s, goc_artist(s, name).0),
        has_name(goc_artist(s, name).0.artists, name),
        row_in(goc_artist(s, name).0.artists, goc_artist(s, name).1),
        goc_artist(s, name).1.name == name,
{
    lemma_goc_named_frame(s.artists, name);
    lemma_find_named_characterize(s.artists, name);
    let out = goc_artist(s, name).0;
    lemma_store_leq_tables(s, out);
    if !has_name(s.artists, name) {
        assert forall|p: int, q: int|
            0 <= p < q < out.artists.len() implies out.artists[p].name != out.artists[q].name by {
            if q == out.artists.len() - 1 {
                assert(out.artists[p] == s.artists[p]);
            }
        }
    } else {
        assert(out =~= s);
    }
    let r = goc_artist(s, name).1;
    let i = choose|i: int| 0 <= i < out.artists.len() && out.artists[i] == r;
    assert(out.artists[i].name == name);
}

/// Get-or-create of an album preserves well-formedness and only appends.
pub proof fn lemma_goc_album_wf(s: StoreV, name: Seq<char>)
    requires
        store_wf(s),
    ensures
        store_wf(goc_album(s, name).0),
        store_leq(s, goc_album(s, name).0),
        has_name(goc_album(s, name).0.albums, name),
        row_in(goc_album(s, name).0.albums, goc_album(s, name).1),
        goc_album(s, name).1.name == name,
{
    lemma_goc_named_frame(s.albums, name);
    lemma_find_named_characterize(s.albums, name);
    let out = goc_album(s, name).0;
    lemma_store_leq_tables(s, out);
    if !has_name(s.albums, name) {
        assert forall|p: int, q: int|
            0 <= p < q < out.albums.len() implies out.albums[p].name != out.albums[q].name by {
            if q == out.albums.len() - 1 {
                assert(out.albums[p] == s.albums[p]);
            }
        }
    } else {
        assert(out =~= s);
    }
    let r = goc_album(s, name).1;
    let i = choose|i: int| 0 <= i < out.albums.len() && out.albums[i] == r;
    assert(out.albums[i].name == name);
}

/// Get-or-create of a track preserves well-formedness and only appends.
pub proof fn lemma_goc_track_wf(
    s: StoreV,
    title: Seq<char>,
    album: NamedV,
    artist: NamedV,
    file_path: Seq<char>,
)
    requires
        store_wf(s),
    ensures
        store_wf(goc_track(s, title, album, artist, file_path).0),
        store_leq(s, goc_track(s, title, album, artist, file_path).0),
{
    let out = goc_track(s, title, album, artist, file_path).0;
    lemma_find_track_characterize(s.tracks, title, album.id);
    lemma_store_leq_tables(s, out);
    match goc_track(s, title, album, artist, file_path).1 {
        TrackOutcome::Existing(_) => {
            assert(out =~= s);
        },
        TrackOutcome::Conflict => {
            assert(out =~= s);
        },
        TrackOutcome::Created(_) => {
            assert forall|p: int, q: int|
                0 <= p < q < out.tracks.len() implies !(out.tracks[p].title
                == out.tracks[q].title && out.tracks[p].album_id == out.tracks[q].album_id) by {
                if q == out.tracks.len() - 1 {
                    assert(out.tracks[p] == s.tracks[p]);
                }
            }
            let wi = choose|wi: int|
                0 <= wi < s.albums.len() && s.albums[wi].id == album.id && s.albums[wi].name
                    == album.name;
            assert(s.albums[wi].id == wi + 1);
            let wa = choose|wa: int| 0 <= wa < s.artists.len() && s.artists[wa].id == artist.id;
            assert(s.artists[wa].id == wa + 1);
        },
    }
}

/// Adding a list of artist names preserves well-formedness, only appends to
/// the artist table, leaves the other tables alone, and leaves every name of
/// the list present.
pub proof fn lemma_add_artists_effect(s: StoreV, names: Seq<Seq<char>>)
    requires
        store_wf(s),
    ensures
        store_wf(add_artists(s, names)),
        store_leq(s, add_artists(s, names)),
        add_artists(s, names).albums == s.albums,
        add_artists(s, names).tracks == s.tracks,
        forall|k: int|
            0 <= k < names.len() ==> has_name(add_artists(s, names).artists, #[trigger] names[k]),
    decreases names.len(),
{
    if names.len() == 0 {
        lemma_store_leq_refl(s);
    } else {
        let s1 = goc_artist(s, names[0]).0;
        lemma_goc_artist_wf(s, names[0]);
        lemma_add_artists_effect(s1, names.drop_first());
        lemma_store_leq_trans(s, s1, add_artists(s1, names.drop_first()));
        let out = add_artists(s, names);
        assert(out == add_artists(s1, names.drop_first()));
        assert forall|k: int|
            0 <= k < names.len() implies has_name(out.artists, #[trigger] names[k]) by {
            if k == 0 {
                let i = choose|i: int|
                    0 <= i < s1.artists.len() && s1.artists[i].name == names[0];
                assert(out.artists[i] == s1.artists[i]);
            } else {
                assert(names.drop_first()[k - 1] == names[k]);
                assert(has_name(out.artists, names.drop_first()[k - 1]));
            }
        }
    }
}

/// A store extends itself.
proof fn lemma_store_leq_refl(s: StoreV)
    ensures
        store_leq(s, s),
{
    assert(s.artists =~= s.artists.take(s.artists.len() as int));
    assert(s.albums =~= s.albums.take(s.albums.len() as int));
    assert(s.tracks =~= s.tracks.take(s.tracks.len() as int));
}

/// The first row carrying a name does not move when the sequence is only
/// extended, as long as the name is already there.
proof fn lemma_find_named_prefix(rows1: Seq<NamedV>, rows2: Seq<NamedV>, name: Seq<char>)
    requires
        rows1.is_prefix_of(rows2),
        has_name(rows1, name),
    ensures
        find_named(rows1, name) is Some,
        find_named(rows2, name) == find_named(rows1, name),
    decreases rows1.len(),
{
    lemma_find_named_characterize(rows1, name);
    assert(rows1[0] == rows2[0]);
    if rows1[0].name == name {
    } else {
        assert(rows1.drop_first() =~= rows2.drop_first().take(rows1.len() - 1));
        let i = choose|i: int| 0 <= i < rows1.len() && rows1[i].name == name;
        assert(rows1.drop_first()[i - 1] == rows1[i]);
        assert(has_name(rows1.drop_first(), name));
        lemma_find_named_prefix(rows1.drop_first(), rows2.drop_first(), name);
    }
}

/// What one file needs of the store stays there when the store only grows.
proof fn lemma_entry_in_store_monotone(s1: StoreV, s2: StoreV, e: ScanEntryV)
    requires
        store_leq(s1, s2),
        entry_in_store(s1, e),
    ensures
        entry_in_store(s2, e),
{
    let t = e.tags->Some_0;
    assert forall|k: int|
        0 <= k < t.artists.len() implies has_name(s2.artists, #[trigger] t.artists[k]) by {
        let i = choose|i: int|
            0 <= i < s1.artists.len() && s1.artists[i].name == t.artists[k];
        assert(s1.artists[i] == s2.artists[i]);
    }
    let i = choose|i: int| 0 <= i < s1.albums.len() && s1.albums[i].name == t.album;
    assert(s1.albums[i] == s2.albums[i]);
    assert(has_name(s2.albums, t.album));
    lemma_find_named_prefix(s1.albums, s2.albums, t.album);
    let a = find_named(s1.albums, t.album)->Some_0;
    let j = choose|j: int|
        0 <= j < s1.tracks.len() && s1.tracks[j].title == t.title && s1.tracks[j].album_id
            == a.id;
    assert(s1.tracks[j] == s2.tracks[j]);
    assert(has_track(s2.tracks, t.title, a.id));
}

/// Applying one readable file leaves a well-formed store that extends the
/// old one and holds everything the file asked for.
proof fn lemma_apply_entry_establishes(s: StoreV, e: ScanEntryV)
    requires
        store_wf(s),
        entry_readable(e),
    ensures
        store_wf(apply_entry(s, e)),
        store_leq(s, apply_entry(s, e)),
        entry_in_store(apply_entry(s, e), e),
{
    let t = e.tags->Some_0;
    let s1 = add_artists(s, t.artists);
    lemma_add_artists_effect(s, t.artists);
    let a = goc_album(s1, t.album).1;
    let s2 = goc_album(s1, t.album).0;
    lemma_goc_album_wf(s1, t.album);
    let r = goc_named(s1.artists, t.artists[0]).1;
    lemma_find_named_characterize(s1.artists, t.artists[0]);
    assert(has_name(s1.artists, t.artists[0]));
    assert(row_in(s1.artists, r));
    let out = goc_track(s2, t.title, a, r, e.path).0;
    lemma_goc_track_wf(s2, t.title, a, r, e.path);
    lemma_store_leq_trans(s, s1, s2);
    lemma_store_leq_trans(s, s2, out);
    assert(out.artists == s2.artists && out.albums == s2.albums);
    assert(s2.artists == s1.artists);
    // the file's needs are met in `out`
    assert forall|k: int|
        0 <= k < t.artists.len() implies has_name(out.artists, #[trigger] t.artists[k]) by {
        assert(has_name(s1.artists, t.artists[k]));
    }
    let wi = choose|wi: int| 0 <= wi < s2.albums.len() && s2.albums[wi] == a;
    assert(has_name(out.albums, t.album));
    lemma_find_named_at(s2.albums, t.album, wi);
    assert(find_named(out.albums, t.album) == Some(a));
    let wr = choose|wr: int| 0 <= wr < s1.artists.len() && s1.artists[wr] == r;
    assert(named_with_id(s2.albums, a.id, a.name));
    assert(id_known(s2.artists, r.id));
    lemma_find_track_characterize(s2.tracks, t.title, a.id);
    match goc_track(s2, t.title, a, r, e.path).1 {
        TrackOutcome::Existing(row) => {
            let wt = choose|wt: int| 0 <= wt < s2.tracks.len() && s2.tracks[wt] == row;
            assert(has_track(out.tracks, t.title, a.id));
        },
        TrackOutcome::Created(row) => {
            assert(out.tracks[out.tracks.len() - 1] == row);
            assert(has_track(out.tracks, t.title, a.id));
        },
        TrackOutcome::Conflict => {
            assert(false);
        },
    }
}

/// Get-or-create of a list of artist names all already present changes
/// nothing.
proof fn lemma_add_artists_present(s: StoreV, names: Seq<Seq<char>>)
    requires
        store_wf(s),
        forall|k: int| 0 <= k < names.len() ==> has_name(s.artists, #[trigger] names[k]),
    ensures
        add_artists(s, names) == s,
    decreases names.len(),
{
    if names.len() == 0 {
    } else {
        lemma_find_named_characterize(s.artists, names[0]);
        assert(goc_artist(s, names[0]).0 =~= s);
        assert forall|k: int|
            0 <= k < names.drop_first().len() implies has_name(
            s.artists,
            #[trigger] names.drop_first()[k],
        ) by {
            assert(names.drop_first()[k] == names[k + 1]);
        }
        lemma_add_artists_present(s, names.drop_first());
    }
}

/// Applying a readable file whose needs the store already meets changes
/// nothing.
proof fn lemma_apply_entry_present(s: StoreV, e: ScanEntryV)
    requires
        store_wf(s),
        entry_readable(e),
        entry_in_store(s, e),
    ensures
        apply_entry(s, e) == s,
{
    let t = e.tags->Some_0;
    lemma_add_artists_present(s, t.artists);
    assert(add_artists(s, t.artists) == s);
    lemma_find_named_characterize(s.albums, t.album);
    let a = goc_album(s, t.album).1;
    assert(find_named(s.albums, t.album) == Some(a));
    assert(goc_album(s, t.album).0 =~= s);
    lemma_find_track_characterize(s.tracks, t.title, a.id);
    assert(has_track(s.tracks, t.title, a.id));
    assert(find_track(s.tracks, t.title, a.id) is Some);
    assert(goc_track(s, t.title, a, goc_named(s.artists, t.artists[0]).1, e.path).0 == s);
}

/// A run leaves a well-formed store that extends the one it started from.
proof fn lemma_sync_run_extends(es: Seq<ScanEntryV>, s: StoreV)
    requires
        store_wf(s),
    ensures
        store_wf(sync_run(es, s)),
        store_leq(s, sync_run(es, s)),
    decreases es.len(),
{
    lemma_store_leq_refl(s);
    if es.len() == 0 {
    } else if !entry_relevant(es[0]) {
        lemma_sync_run_extends(es.drop_first(), s);
    } else if !entry_readable(es[0]) {
    } else {
        lemma_apply_entry_establishes(s, es[0]);
        lemma_sync_run_extends(es.drop_first(), apply_entry(s, es[0]));
        lemma_store_leq_trans(s, apply_entry(s, es[0]), sync_run(es, s));
    }
}

/// Synchronization is idempotent: running the same listing a second time
/// over the store the first run left behind changes nothing at all -- in
/// particular, no duplicate artist, album or track rows appear. This holds
/// whether or not the run succeeded: a failed run stops at the same file
/// both times.
pub proof fn lemma_synchronize_idempotent(es: Seq<ScanEntryV>, s: StoreV)
    requires
        store_wf(s),
    ensures
        sync_run(es, sync_run(es, s)) == sync_run(es, s),
    decreases es.len(),
{
    if es.len() == 0 {
    } else if !entry_relevant(es[0]) {
        lemma_synchronize_idempotent(es.drop_first(), s);
    } else if !entry_readable(es[0]) {
    } else {
        let e = es[0];
        let sx = apply_entry(s, e);
        lemma_apply_entry_establishes(s, e);
        let s1 = sync_run(es.drop_first(), sx);
        lemma_sync_run_extends(es.drop_first(), sx);
        lemma_entry_in_store_monotone(sx, s1, e);
        lemma_apply_entry_present(s1, e);
        assert(apply_entry(s1, e) == s1);
        lemma_synchronize_idempotent(es.drop_first(), sx);
        assert(sync_run(es, s1) == sync_run(es.drop_first(), s1));
        assert(sync_run(es.drop_first(), s1) == s1);
    }
}
/// Natural-key deduplication: two relevant, readable files tagged with the
/// same album name and different titles, synchronized into an empty store,
/// produce exactly one album row and two track rows.
pub proof fn lemma_natural_key_dedup(e1: ScanEntryV, e2: ScanEntryV)
    requires
        entry_relevant(e1),
        entry_relevant(e2),
        e1.tags matches Some(t1) && e2.tags matches Some(t2) && {
            &&& t1.artists.len() > 0
            &&& t2.artists.len() > 0
            &&& t1.album == t2.album
            &&& t1.album.len() > 0
            &&& t1.title != t2.title
            &&& t1.title.len() > 0
            &&& t2.title.len() > 0
        },
    ensures
        sync_run(seq![e1, e2], empty_store()).albums.len() == 1,
        sync_run(seq![e1, e2], empty_store()).albums[0].name == e1.tags->Some_0.album,
        sync_run(seq![e1, e2], empty_store()).tracks.len() == 2,
        sync_run(seq![e1, e2], empty_store()).tracks[0].title == e1.tags->Some_0.title,
        sync_run(seq![e1, e2], empty_store()).tracks[1].title == e2.tags->Some_0.title,
        sync_run(seq![e1, e2], empty_store()).tracks[0].album_id == sync_run(
            seq![e1, e2],
            empty_store(),
        ).albums[0].id,
        sync_run(seq![e1, e2], empty_store()).tracks[1].album_id == sync_run(
            seq![e1, e2],
            empty_store(),
        ).albums[0].id,
{
    let es = seq![e1, e2];
    let s0 = empty_store();
    let t1 = e1.tags->Some_0;
    let t2 = e2.tags->Some_0;
    assert(store_wf(s0));

    // first file: one album row and one track row appear
    let s1 = add_artists(s0, t1.artists);
    lemma_add_artists_effect(s0, t1.artists);
    assert(s1.albums.len() == 0 && s1.tracks.len() == 0);
    assert(find_named(s1.albums, t1.album) is None);
    let a = goc_album(s1, t1.album).1;
    let s2 = goc_album(s1, t1.album).0;
    assert(s2.albums == s1.albums.push(a) && s2.albums.len() == 1 && s2.albums[0] == a);
    lemma_goc_album_wf(s1, t1.album);
    let r = goc_named(s1.artists, t1.artists[0]).1;
    lemma_find_named_characterize(s1.artists, t1.artists[0]);
    assert(row_in(s1.artists, r));
    let wr = choose|wr: int| 0 <= wr < s1.artists.len() && s1.artists[wr] == r;
    assert(id_known(s2.artists, r.id));
    assert(named_with_id(s2.albums, a.id, a.name));
    assert(find_track(s2.tracks, t1.title, a.id) is None);
    let sa = goc_track(s2, t1.title, a, r, e1.path).0;
    let row1 = TrackRowV {
        id: 1,
        title: t1.title,
        album_id: a.id,
        artist_id: r.id,
        file_path: e1.path,
    };
    assert(sa.tracks == s2.tracks.push(row1) && sa.tracks.len() == 1 && sa.tracks[0] == row1);
    assert(sa.albums == s2.albums);
    assert(sa == apply_entry(s0, e1));
    lemma_apply_entry_establishes(s0, e1);
    assert(store_wf(sa));

    // second file: the album row is reused, a second track row appears
    let s1b = add_artists(sa, t2.artists);
    lemma_add_artists_effect(sa, t2.artists);
    assert(s1b.albums == sa.albums && s1b.tracks == sa.tracks);
    lemma_find_named_at(s1b.albums, a.name, 0);
    assert(find_named(s1b.albums, t2.album) == Some(a));
    let s2b = goc_album(s1b, t2.album).0;
    assert(goc_album(s1b, t2.album).1 == a);
    assert(s2b =~= s1b);
    let rb = goc_named(s1b.artists, t2.artists[0]).1;
    lemma_find_named_characterize(s1b.artists, t2.artists[0]);
    assert(row_in(s1b.artists, rb));
    let wrb = choose|wrb: int| 0 <= wrb < s1b.artists.len() && s1b.artists[wrb] == rb;
    assert(id_known(s2b.artists, rb.id));
    assert(named_with_id(s2b.albums, a.id, a.name));
    assert(s2b.tracks[0].title == t1.title && t1.title != t2.title);
    assert(s2b.tracks.drop_first() =~= Seq::<TrackRowV>::empty());
    assert(find_track(Seq::<TrackRowV>::empty(), t2.title, a.id) is None);
    assert(find_track(s2b.tracks, t2.title, a.id) is None);
    let sb = goc_track(s2b, t2.title, a, rb, e2.path).0;
    let row2 = TrackRowV {
        id: 2,
        title: t2.title,
        album_id: a.id,
        artist_id: rb.id,
        file_path: e2.path,
    };
    assert(sb.tracks == s2b.tracks.push(row2));
    assert(sb.tracks.len() == 2 && sb.tracks[0] == row1 && sb.tracks[1] == row2);
    assert(sb.albums.len() == 1 && sb.albums[0] == a);
    assert(sb == apply_entry(sa, e2));

    // the run is exactly these two applications
    assert(es[0] == e1);
    assert(es.drop_first() =~= seq![e2]);
    assert(seq![e2][0] == e2);
    assert(seq![e2].drop_first() =~= Seq::<ScanEntryV>::empty());
    assert(sync_run(es, s0) == sync_run(seq![e2], sa));
    assert(sync_run(seq![e2], sa) == sync_run(Seq::<ScanEntryV>::empty(), sb));
    assert(sync_run(es, s0) == sb);
}

/// A multi-artist file: one relevant, readable file tagged with two
/// different artist names, synchronized into an empty store, produces two
/// distinct artist rows, while the single track row it produces references
/// only the first (primary) artist.
pub proof fn lemma_multi_artist_track(e: ScanEntryV)
    requires
        entry_relevant(e),
        e.tags matches Some(t) && {
            &&& t.artists.len() == 2
            &&& t.artists[0] != t.artists[1]
            &&& t.album.len() > 0
            &&& t.title.len() > 0
        },
    ensures
        sync_run(seq![e], empty_store()).artists.len() == 2,
        sync_run(seq![e], empty_store()).artists[0].name == e.tags->Some_0.artists[0],
        sync_run(seq![e], empty_store()).artists[1].name == e.tags->Some_0.artists[1],
        sync_run(seq![e], empty_store()).tracks.len() == 1,
        sync_run(seq![e], empty_store()).tracks[0].artist_id == sync_run(
            seq![e],
            empty_store(),
        ).artists[0].id,
{
    let s0 = empty_store();
    let t = e.tags->Some_0;
    let names = t.artists;
    assert(store_wf(s0));

    // the two artist rows, in tag order
    let ra = NamedV { id: 1, name: names[0] };
    let sx = goc_artist(s0, names[0]).0;
    assert(find_named(s0.artists, names[0]) is None);
    assert(sx.artists == s0.artists.push(ra) && sx.artists.len() == 1 && sx.artists[0] == ra);
    let rb = NamedV { id: 2, name: names[1] };
    assert(sx.artists.drop_first() =~= Seq::<NamedV>::empty());
    assert(find_named(Seq::<NamedV>::empty(), names[1]) is None);
    assert(find_named(sx.artists, names[1]) is None);
    let sy = goc_artist(sx, names[1]).0;
    assert(sy.artists == sx.artists.push(rb) && sy.artists.len() == 2);
    assert(names.drop_first() =~= seq![names[1]]);
    assert(seq![names[1]][0] == names[1]);
    assert(seq![names[1]].drop_first() =~= Seq::<Seq<char>>::empty());
    let s1 = add_artists(s0, names);
    assert(add_artists(sy, Seq::<Seq<char>>::empty()) == sy);
    assert(add_artists(sx, seq![names[1]]) == sy);
    assert(s1 == sy);

    // one album row and one track row, referencing the first artist
    assert(find_named(s1.albums, t.album) is None);
    let a = goc_album(s1, t.album).1;
    let s2 = goc_album(s1, t.album).0;
    assert(s2.albums.len() == 1 && s2.albums[0] == a);
    let r = goc_named(s1.artists, names[0]).1;
    assert(s1.artists[0] == ra);
    assert(r == ra);
    assert(id_known(s2.artists, ra.id));
    assert(named_with_id(s2.albums, a.id, a.name));
    assert(find_track(s2.tracks, t.title, a.id) is None);
    let sa = goc_track(s2, t.title, a, r, e.path).0;
    assert(sa.tracks.len() == 1);
    assert(sa.tracks[0].artist_id == ra.id);
    assert(sa.artists == sy.artists);
    assert(sa == apply_entry(s0, e));

    // the run is exactly this one application
    assert(entry_readable(e));
    assert(seq![e][0] == e);
    assert(seq![e].drop_first() =~= Seq::<ScanEntryV>::empty());
    assert(sync_run(Seq::<ScanEntryV>::empty(), sa) == sa);
    assert(sync_run(seq![e], s0) == sa);
}

} // verus!
//! The library store and its reconciliation engine.
//!
//! `Library` is the normalized relational model: artist, album and track
//! rows with surrogate ids. The reconciler resolves-or-creates artists and
//! albums by exact name and upserts tracks keyed by file location, so that
//! repeated scans never duplicate rows.

use std::collections::HashMap;

use vstd::prelude::*;

use crate::model::{
    Album, AlbumModel, Artist, ArtistModel, NewAlbum, NewArtist, NewTrack, NewTrackModel,
    ParsedTrack, ParsedTrackModel, Track, TrackDTO, TrackDTOModel, TrackModel, opt_i32_view,
};

verus! {

// ---------------------------------------------------------------------------
// Ghost model of the whole store
// ---------------------------------------------------------------------------

#[verifier::ext_equal]
pub ghost struct LibraryModel {
    pub artists: Seq<ArtistModel>,
    pub albums: Seq<AlbumModel>,
    pub tracks: Seq<TrackModel>,
    pub next_artist_id: int,
    pub next_album_id: int,
    pub next_track_id: int,
}

// ---------------------------------------------------------------------------
// Spec-level lookups
// ---------------------------------------------------------------------------

pub open spec fn has_artist_named(l: LibraryModel, name: Seq<char>) -> bool {
    exists|i: int| 0 <= i < l.artists.len() && l.artists[i].name == name
}

pub open spec fn artist_named(l: LibraryModel, name: Seq<char>) -> ArtistModel {
    l.artists[choose|i: int| 0 <= i < l.artists.len() && l.artists[i].name == name]
}

pub open spec fn has_artist_id(l: LibraryModel, id: int) -> bool {
    exists|i: int| 0 <= i < l.artists.len() && l.artists[i].id == id
}

pub open spec fn artist_with_id(l: LibraryModel, id: int) -> ArtistModel {
    l.artists[choose|i: int| 0 <= i < l.artists.len() && l.artists[i].id == id]
}

pub open spec fn has_album_named(l: LibraryModel, name: Seq<char>) -> bool {
    exists|i: int| 0 <= i < l.albums.len() && l.albums[i].name == name
}

pub open spec fn album_named(l: LibraryModel, name: Seq<char>) -> AlbumModel {
    l.albums[choose|i: int| 0 <= i < l.albums.len() && l.albums[i].name == name]
}

pub open spec fn has_album_id(l: LibraryModel, id: int) -> bool {
    exists|i: int| 0 <= i < l.albums.len() && l.albums[i].id == id
}

pub open spec fn album_with_id(l: LibraryModel, id: int) -> AlbumModel {
    l.albums[choose|i: int| 0 <= i < l.albums.len() && l.albums[i].id == id]
}

pub open spec fn has_track_id(l: LibraryModel, id: int) -> bool {
    exists|i: int| 0 <= i < l.tracks.len() && l.tracks[i].id == id
}

pub open spec fn track_with_id(l: LibraryModel, id: int) -> TrackModel {
    l.tracks[choose|i: int| 0 <= i < l.tracks.len() && l.tracks[i].id == id]
}

pub open spec fn has_track_at(l: LibraryModel, loc: Seq<char>) -> bool {
    exists|i: int| 0 <= i < l.tracks.len() && l.tracks[i].location == loc
}

pub open spec fn track_loc_index(l: LibraryModel, loc: Seq<char>) -> int {
    choose|i: int| 0 <= i < l.tracks.len() && l.tracks[i].location == loc
}

pub open spec fn track_at(l: LibraryModel, loc: Seq<char>) -> TrackModel {
    l.tracks[track_loc_index(l, loc)]
}

/// An optional reference is valid when it is absent or points at an
/// existing row.
pub open spec fn valid_artist_ref(l: LibraryModel, r: Option<int>) -> bool {
    match r {
        Some(id) => has_artist_id(l, id),
        None => true,
    }
}

pub open spec fn valid_album_ref(l: LibraryModel, r: Option<int>) -> bool {
    match r {
        Some(id) => has_album_id(l, id),
        None => true,
    }
}

/// The denormalized view of one track row: its references resolved to full
/// rows where they resolve at all.
pub open spec fn spec_hydrate_one(l: LibraryModel, t: TrackModel) -> TrackDTOModel {
    TrackDTOModel {
        id: t.id,
        title: t.title,
        artist: match t.artist_id {
            Some(a) => if has_artist_id(l, a) {
                Some(artist_with_id(l, a))
            } else {
                None
            },
            None => None,
        },
        album: match t.album_id {
            Some(a) => if has_album_id(l, a) {
                Some(album_with_id(l, a))
            } else {
                None
            },
            None => None,
        },
        number: t.number,
        disc: t.disc,
        duration_ms: t.duration_ms,
        location: t.location,
        mount_point: t.mount_point,
        picture_id: t.picture_id,
    }
}

// ---------------------------------------------------------------------------
// Well-formedness
// ---------------------------------------------------------------------------

pub open spec fn wf_artists(l: LibraryModel) -> bool {
    &&& forall|i: int|
        0 <= i < l.artists.len() ==> 1 <= (#[trigger] l.artists[i]).id < l.next_artist_id
    &&& forall|i: int, j: int|
        0 <= i < j < l.artists.len() ==> l.artists[i].id != l.artists[j].id
            && l.artists[i].name != l.artists[j].name
}

pub open spec fn wf_albums(l: LibraryModel) -> bool {
    &&& forall|i: int|
        0 <= i < l.albums.len() ==> 1 <= (#[trigger] l.albums[i]).id < l.next_album_id
    &&& forall|i: int, j: int|
        0 <= i < j < l.albums.len() ==> l.albums[i].id != l.albums[j].id
            && l.albums[i].name != l.albums[j].name
    &&& forall|i: int| 0 <= i < l.albums.len() ==> valid_artist_ref(l, (#[trigger] l.albums[i]).artist_id)
}

pub open spec fn wf_tracks(l: LibraryModel) -> bool {
    &&& forall|i: int|
        0 <= i < l.tracks.len() ==> 1 <= (#[trigger] l.tracks[i]).id < l.next_track_id
    &&& forall|i: int, j: int|
        0 <= i < j < l.tracks.len() ==> l.tracks[i].id != l.tracks[j].id
            && l.tracks[i].location != l.tracks[j].location
    &&& forall|i: int|
        0 <= i < l.tracks.len() ==> valid_artist_ref(l, (#[trigger] l.tracks[i]).artist_id)
            && valid_album_ref(l, l.tracks[i].album_id) && l.tracks[i].duration_ms >= 0
}

/// The store invariant: ids are unique and below their counter, artist and
/// album names are unique, track locations are unique, every reference
/// points at an existing row, and durations are non-negative.
pub open spec fn wf(l: LibraryModel) -> bool {
    &&& wf_artists(l)
    &&& wf_albums(l)
    &&& wf_tracks(l)
    &&& 1 <= l.next_artist_id
    &&& 1 <= l.next_album_id
    &&& 1 <= l.next_track_id
}

// ---------------------------------------------------------------------------
// The reconciliation algorithm as a function on models
// ---------------------------------------------------------------------------

pub open spec fn empty_model() -> LibraryModel {
    LibraryModel {
        artists: Seq::empty(),
        albums: Seq::empty(),
        tracks: Seq::empty(),
        next_artist_id: 1,
        next_album_id: 1,
        next_track_id: 1,
    }
}

/// Resolve-or-create an artist by exact name; yields the store afterwards
/// and the id the name resolves to.
pub open spec fn spec_resolve_artist(l: LibraryModel, name: Seq<char>, now: int) -> (LibraryModel, int) {
    if has_artist_named(l, name) {
        (l, artist_named(l, name).id)
    } else {
        (
            LibraryModel {
                artists: l.artists.push(
                    ArtistModel { id: l.next_artist_id, name, created_at: now },
                ),
                next_artist_id: l.next_artist_id + 1,
                ..l
            },
            l.next_artist_id,
        )
    }
}

/// Resolve-or-create an album by exact name, carrying the artist reference
/// it would be created with.
pub open spec fn spec_resolve_album(
    l: LibraryModel,
    name: Seq<char>,
    artist_id: Option<int>,
    now: int,
) -> (LibraryModel, int) {
    if has_album_named(l, name) {
        (l, album_named(l, name).id)
    } else {
        (
            LibraryModel {
                albums: l.albums.push(
                    AlbumModel { id: l.next_album_id, name, artist_id, created_at: now },
                ),
                next_album_id: l.next_album_id + 1,
                ..l
            },
            l.next_album_id,
        )
    }
}

/// The row an in-place upsert leaves behind: identity and creation time of
/// the old row, every other field from the payload.
pub open spec fn replaced_track(t: TrackModel, nt: NewTrackModel) -> TrackModel {
    TrackModel {
        id: t.id,
        created_at: t.created_at,
        picture_id: nt.picture_id,
        album_id: nt.album_id,
        artist_id: nt.artist_id,
        number: nt.number,
        title: nt.title,
        disc: nt.disc,
        duration_ms: nt.duration_ms,
        location: nt.location,
        mount_point: nt.mount_point,
    }
}

/// The row an insert creates from the payload.
pub open spec fn inserted_track(nt: NewTrackModel, id: int, now: int) -> TrackModel {
    TrackModel {
        id,
        created_at: now,
        picture_id: nt.picture_id,
        album_id: nt.album_id,
        artist_id: nt.artist_id,
        number: nt.number,
        title: nt.title,
        disc: nt.disc,
        duration_ms: nt.duration_ms,
        location: nt.location,
        mount_point: nt.mount_point,
    }
}

/// Upsert keyed by location: replace the fields of the existing row in
/// place, or append a fresh row.
pub open spec fn spec_upsert_track(l: LibraryModel, nt: NewTrackModel, now: int) -> LibraryModel {
    if has_track_at(l, nt.location) {
        let i = track_loc_index(l, nt.location);
        LibraryModel { tracks: l.tracks.update(i, replaced_track(l.tracks[i], nt)), ..l }
    } else {
        LibraryModel {
            tracks: l.tracks.push(inserted_track(nt, l.next_track_id, now)),
            next_track_id: l.next_track_id + 1,
            ..l
        }
    }
}

/// The track payload a parsed record reconciles to, given the entity ids
/// its names resolved to.
pub open spec fn payload_of(r: ParsedTrackModel, artist_id: Option<int>, album_id: Option<int>) -> NewTrackModel {
    NewTrackModel {
        picture_id: r.picture_id,
        album_id,
        artist_id,
        number: r.number,
        title: r.title,
        disc: r.disc,
        duration_ms: r.duration_ms,
        location: r.location,
        mount_point: r.mount_point,
    }
}

/// Reconcile one parsed record: resolve-or-create its artist, then its
/// album (referencing that artist), then upsert the track by location.
pub open spec fn spec_reconcile(l: LibraryModel, r: ParsedTrackModel, now: int) -> LibraryModel {
    let (l1, artist_id) = match r.artist {
        Some(name) => {
            let p = spec_resolve_artist(l, name, now);
            (p.0, Some(p.1))
        },
        None => (l, None::<int>),
    };
    let (l2, album_id) = match r.album {
        Some(name) => {
            let p = spec_resolve_album(l1, name, artist_id, now);
            (p.0, Some(p.1))
        },
        None => (l1, None::<int>),
    };
    spec_upsert_track(l2, payload_of(r, artist_id, album_id), now)
}

/// Reconcile a whole scan, front to back.
pub open spec fn spec_sync(l: LibraryModel, rs: Seq<ParsedTrackModel>, now: int) -> LibraryModel
    decreases rs.len(),
{
    if rs.len() == 0 {
        l
    } else {
        spec_sync(spec_reconcile(l, rs[0], now), rs.drop_first(), now)
    }
}

// ---------------------------------------------------------------------------
// The executable store
// ---------------------------------------------------------------------------

/// The in-memory store: three tables and their id counters.
pub struct Library {
    pub artists: Vec<Artist>,
    pub albums: Vec<Album>,
    pub tracks: Vec<Track>,
    pub next_artist_id: i32,
    pub next_album_id: i32,
    pub next_track_id: i32,
}

impl View for Library {
    type V = LibraryModel;

    open spec fn view(&self) -> LibraryModel {
        LibraryModel {
            artists: self.artists@.map_values(|a: Artist| a@),
            albums: self.albums@.map_values(|a: Album| a@),
            tracks: self.tracks@.map_values(|t: Track| t@),
            next_artist_id: self.next_artist_id as int,
            next_album_id: self.next_album_id as int,
            next_track_id: self.next_track_id as int,
        }
    }
}

impl Library {
    /// The well-formedness of the underlying model.
    pub open spec fn wf(&self) -> bool {
        wf(self@)
    }

    /// An empty store.
    pub fn new() -> (r: Library)
        ensures
            r@ == empty_model(),
            r.wf(),
    {
        let r = Library {
            artists: Vec::new(),
            albums: Vec::new(),
            tracks: Vec::new(),
            next_artist_id: 1,
            next_album_id: 1,
            next_track_id: 1,
        };
        proof {
            assert(r@ =~= empty_model());
        }
        r
    }

    /// Index of the artist row with exactly this name, if any.
    fn find_artist_index_by_name(&self, name: &String) -> (r: Option<usize>)
        ensures
            match r {
                Some(i) => i < self.artists.len() && self@.artists[i as int].name == name@,
                None => !has_artist_named(self@, name@),
            },
    {
        let ghost m = self@;
        let n = self.artists.len();
        for k in 0..n
            invariant
                n == self.artists.len(),
                m == self@,
                forall|j: int| 0 <= j < k ==> m.artists[j].name != name@,
        {
            assert(m.artists[k as int] == self.artists@[k as int]@);
            if self.artists[k].name == *name {
                return Some(k);
            }
        }
        None
    }

    /// Resolve-or-create an artist row by exact name; returns the id the
    /// name now resolves to.
    pub fn resolve_or_create_artist(&mut self, new_artist: &NewArtist, now: i64) -> (id: i32)
        requires
            old(self).wf(),
            old(self).next_artist_id < i32::MAX,
        ensures
            final(self).wf(),
            (final(self)@, id as int) == spec_resolve_artist(old(self)@, new_artist.name@, now as int),
            has_artist_named(final(self)@, new_artist.name@),
            artist_named(final(self)@, new_artist.name@).id == id as int,
    {
        let ghost l0 = self@;
        match self.find_artist_index_by_name(&new_artist.name) {
            Some(i) => {
                let id = self.artists[i].id;
                proof {
                    lemma_artist_named_is(l0, new_artist.name@, i as int);
                }
                id
            },
            None => {
                let id = self.next_artist_id;
                self.artists.push(Artist {
                    id,
                    name: new_artist.name.clone(),
                    created_at: now,
                });
                self.next_artist_id = id + 1;
                proof {
                    assert(self@.artists =~= l0.artists.push(
                        ArtistModel { id: id as int, name: new_artist.name@, created_at: now as int },
                    ));
                    assert(self@ =~= spec_resolve_artist(l0, new_artist.name@, now as int).0);
                    lemma_resolve_artist_wf(l0, new_artist.name@, now as int);
                    lemma_artist_named_is(self@, new_artist.name@, l0.artists.len() as int);
                }
                id
            },
        }
    }
    /// Index of the album row with exactly this name, if any.
    fn find_album_index_by_name(&self, name: &String) -> (r: Option<usize>)
        ensures
            match r {
                Some(i) => i < self.albums.len() && self@.albums[i as int].name == name@,
                None => !has_album_named(self@, name@),
            },
    {
        let ghost m = self@;
        let n = self.albums.len();
        for k in 0..n
            invariant
                n == self.albums.len(),
                m == self@,
                forall|j: int| 0 <= j < k ==> m.albums[j].name != name@,
        {
            assert(m.albums[k as int] == self.albums@[k as int]@);
            if self.albums[k].name == *name {
                return Some(k);
            }
        }
        None
    }

    /// Resolve-or-create an album row by exact name, carrying the given
    /// artist reference if a row has to be created; returns the id the
    /// name now resolves to.
    pub fn resolve_or_create_album(&mut self, new_album: &NewAlbum, now: i64) -> (id: i32)
        requires
            old(self).wf(),
            old(self).next_album_id < i32::MAX,
            valid_artist_ref(old(self)@, opt_i32_view(new_album.artist_id)),
        ensures
            final(self).wf(),
            (final(self)@, id as int) == spec_resolve_album(
                old(self)@,
                new_album.name@,
                opt_i32_view(new_album.artist_id),
                now as int,
            ),
            has_album_named(final(self)@, new_album.name@),
            album_named(final(self)@, new_album.name@).id == id as int,
    {
        let ghost l0 = self@;
        match self.find_album_index_by_name(&new_album.name) {
            Some(i) => {
                let id = self.albums[i].id;
                proof {
                    lemma_album_named_is(l0, new_album.name@, i as int);
                }
                id
            },
            None => {
                let id = self.next_album_id;
                self.albums.push(Album {
                    id,
                    name: new_album.name.clone(),
                    artist_id: new_album.artist_id,
                    created_at: now,
                });
                self.next_album_id = id + 1;
                proof {
                    assert(self@.albums =~= l0.albums.push(
                        AlbumModel {
                            id: id as int,
                            name: new_album.name@,
                            artist_id: opt_i32_view(new_album.artist_id),
                            created_at: now as int,
                        },
                    ));
                    assert(self@ =~= spec_resolve_album(
                        l0,
                        new_album.name@,
                        opt_i32_view(new_album.artist_id),
                        now as int,
                    ).0);
                    lemma_resolve_album_wf(l0, new_album.name@, opt_i32_view(new_album.artist_id), now as int);
                    lemma_album_named_is(self@, new_album.name@, l0.albums.len() as int);
                }
                id
            },
        }
    }

    /// Index of the track row at exactly this location, if any.
    fn find_track_index_by_location(&self, loc: &String) -> (r: Option<usize>)
        ensures
            match r {
                Some(i) => i < self.tracks.len() && self@.tracks[i as int].location == loc@,
                None => !has_track_at(self@, loc@),
            },
    {
        let ghost m = self@;
        let n = self.tracks.len();
        for k in 0..n
            invariant
                n == self.tracks.len(),
                m == self@,
                forall|j: int| 0 <= j < k ==> m.tracks[j].location != loc@,
        {
            assert(m.tracks[k as int] == self.tracks@[k as int]@);
            if self.tracks[k].location == *loc {
                return Some(k);
            }
        }
        None
    }

    /// Conflict-aware write keyed by location: replace the mutable fields
    /// of the existing row in place, or insert a fresh row.
    pub fn upsert_track(&mut self, new_track: NewTrack, now: i64)
        requires
            old(self).wf(),
            old(self).next_track_id < i32::MAX,
            valid_artist_ref(old(self)@, opt_i32_view(new_track.artist_id)),
            valid_album_ref(old(self)@, opt_i32_view(new_track.album_id)),
            new_track.duration_ms >= 0,
        ensures
            final(self).wf(),
            final(self)@ == spec_upsert_track(old(self)@, new_track@, now as int),
    {
        let ghost l0 = self@;
        let ghost nt = new_track@;
        match self.find_track_index_by_location(&new_track.location) {
            Some(i) => {
                proof {
                    lemma_track_at_is(l0, new_track.location@, i as int);
                }
                let old_row = &self.tracks[i];
                let id = old_row.id;
                let created_at = old_row.created_at;
                let row = Track {
                    id,
                    picture_id: new_track.picture_id,
                    album_id: new_track.album_id,
                    artist_id: new_track.artist_id,
                    number: new_track.number,
                    title: new_track.title,
                    disc: new_track.disc,
                    duration_ms: new_track.duration_ms,
                    location: new_track.location,
                    mount_point: new_track.mount_point,
                    created_at,
                };
                self.tracks.set(i, row);
                proof {
                    assert(self@.tracks =~= l0.tracks.update(
                        i as int,
                        replaced_track(l0.tracks[i as int], nt),
                    ));
                    assert(self@ =~= spec_upsert_track(l0, nt, now as int));
                    lemma_upsert_track_wf(l0, nt, now as int);
                }
            },
            None => {
                let id = self.next_track_id;
                let row = Track {
                    id,
                    picture_id: new_track.picture_id,
                    album_id: new_track.album_id,
                    artist_id: new_track.artist_id,
                    number: new_track.number,
                    title: new_track.title,
                    disc: new_track.disc,
                    duration_ms: new_track.duration_ms,
                    location: new_track.location,
                    mount_point: new_track.mount_point,
                    created_at: now,
                };
                self.tracks.push(row);
                self.next_track_id = id + 1;
                proof {
                    assert(self@.tracks =~= l0.tracks.push(
                        inserted_track(nt, id as int, now as int),
                    ));
                    assert(self@ =~= spec_upsert_track(l0, nt, now as int));
                    lemma_upsert_track_wf(l0, nt, now as int);
                }
            },
        }
    }
    /// The artist row with this id, as a copied row, if any.
    pub fn find_artist_by_id(&self, id: i32) -> (r: Option<Artist>)
        requires
            self.wf(),
        ensures
            match r {
                Some(a) => has_artist_id(self@, id as int) && a@ == artist_with_id(
                    self@,
                    id as int,
                ),
                None => !has_artist_id(self@, id as int),
            },
    {
        let ghost m = self@;
        let n = self.artists.len();
        for k in 0..n
            invariant
                n == self.artists.len(),
                m == self@,
                self.wf(),
                forall|j: int| 0 <= j < k ==> m.artists[j].id != id as int,
        {
            assert(m.artists[k as int] == self.artists@[k as int]@);
            if self.artists[k].id == id {
                proof {
                    lemma_artist_with_id_is(m, id as int, k as int);
                }
                return Some(self.artists[k].duplicate());
            }
        }
        None
    }

    /// The album row with this id, as a copied row, if any.
    pub fn find_album_by_id(&self, id: i32) -> (r: Option<Album>)
        requires
            self.wf(),
        ensures
            match r {
                Some(a) => has_album_id(self@, id as int) && a@ == album_with_id(
                    self@,
                    id as int,
                ),
                None => !has_album_id(self@, id as int),
            },
    {
        let ghost m = self@;
        let n = self.albums.len();
        for k in 0..n
            invariant
                n == self.albums.len(),
                m == self@,
                self.wf(),
                forall|j: int| 0 <= j < k ==> m.albums[j].id != id as int,
        {
            assert(m.albums[k as int] == self.albums@[k as int]@);
            if self.albums[k].id == id {
                proof {
                    lemma_album_with_id_is(m, id as int, k as int);
                }
                return Some(self.albums[k].duplicate());
            }
        }
        None
    }

    /// The track row with this id, as a copied row, if any.
    pub fn find_track_by_id(&self, id: i32) -> (r: Option<Track>)
        requires
            self.wf(),
        ensures
            match r {
                Some(t) => has_track_id(self@, id as int) && t@ == track_with_id(
                    self@,
                    id as int,
                ),
                None => !has_track_id(self@, id as int),
            },
    {
        let ghost m = self@;
        let n = self.tracks.len();
        for k in 0..n
            invariant
                n == self.tracks.len(),
                m == self@,
                self.wf(),
                forall|j: int| 0 <= j < k ==> m.tracks[j].id != id as int,
        {
            assert(m.tracks[k as int] == self.tracks@[k as int]@);
            if self.tracks[k].id == id {
                proof {
                    lemma_track_with_id_is(m, id as int, k as int);
                }
                return Some(self.tracks[k].duplicate());
            }
        }
        None
    }

    /// Hydrate raw track rows into denormalized views: resolve each row's
    /// artist and album reference to a full row, through a transient id-to-row
    /// cache scoped to this call; a reference that does not resolve yields an
    /// absent association, never an error.
    pub fn populate_tracks(&self, tracks: &Vec<Track>) -> (r: Vec<TrackDTO>)
        requires
            self.wf(),
        ensures
            r@.len() == tracks@.len(),
            forall|i: int|
                0 <= i < r@.len() ==> (#[trigger] r@[i])@ == spec_hydrate_one(
                    self@,
                    tracks@[i]@,
                ),
    {
        broadcast use vstd::std_specs::hash::group_hash_axioms;

        let mut artist_cache: HashMap<i32, Artist> = HashMap::new();
        let mut album_cache: HashMap<i32, Album> = HashMap::new();
        let mut out: Vec<TrackDTO> = Vec::new();
        let n = tracks.len();
        for k in 0..n
            invariant
                n == tracks.len(),
                self.wf(),
                out@.len() == k,
                forall|i: int|
                    0 <= i < k ==> (#[trigger] out@[i])@ == spec_hydrate_one(
                        self@,
                        tracks@[i]@,
                    ),
                forall|id: i32|
                    #[trigger] artist_cache@.contains_key(id) ==> has_artist_id(self@, id as int)
                        && artist_cache@[id]@ == artist_with_id(self@, id as int),
                forall|id: i32|
                    #[trigger] album_cache@.contains_key(id) ==> has_album_id(self@, id as int)
                        && album_cache@[id]@ == album_with_id(self@, id as int),
        {
            let t = tracks[k].duplicate();
            let artist = match t.artist_id {
                Some(aid) => {
                    let mut cached: Option<Artist> = None;
                    match artist_cache.get(&aid) {
                        Some(a) => {
                            cached = Some(a.duplicate());
                        },
                        None => {},
                    }
                    match cached {
                        Some(a) => Some(a),
                        None => match self.find_artist_by_id(aid) {
                            Some(a) => {
                                artist_cache.insert(aid, a.duplicate());
                                Some(a)
                            },
                            None => None,
                        },
                    }
                },
                None => None,
            };
            let album = match t.album_id {
                Some(aid) => {
                    let mut cached: Option<Album> = None;
                    match album_cache.get(&aid) {
                        Some(a) => {
                            cached = Some(a.duplicate());
                        },
                        None => {},
                    }
                    match cached {
                        Some(a) => Some(a),
                        None => match self.find_album_by_id(aid) {
                            Some(a) => {
                                album_cache.insert(aid, a.duplicate());
                                Some(a)
                            },
                            None => None,
                        },
                    }
                },
                None => None,
            };
            let dto = TrackDTO {
                id: t.id,
                title: t.title,
                artist,
                album,
                number: t.number,
                disc: t.disc,
                duration_ms: t.duration_ms,
                location: t.location,
                mount_point: t.mount_point,
                picture_id: t.picture_id,
            };
            proof {
                assert(dto@ =~= spec_hydrate_one(self@, tracks@[k as int]@));
            }
            out.push(dto);
        }
        out
    }

    /// All track rows, hydrated, in store order.
    pub fn get_all_tracks(&self) -> (r: Vec<TrackDTO>)
        requires
            self.wf(),
        ensures
            r@.len() == self@.tracks.len(),
            forall|i: int|
                0 <= i < r@.len() ==> (#[trigger] r@[i])@ == spec_hydrate_one(
                    self@,
                    self@.tracks[i],
                ),
    {
        self.populate_tracks(&self.tracks)
    }

    /// Remove every track row; artist and album rows stay.
    pub fn delete_all_tracks(&mut self)
        requires
            old(self).wf(),
        ensures
            final(self).wf(),
            final(self)@ == (LibraryModel { tracks: Seq::empty(), ..old(self)@ }),
    {
        let ghost l0 = self@;
        self.tracks.clear();
        proof {
            assert(self@ =~= (LibraryModel { tracks: Seq::empty(), ..l0 }));
            let l1 = self@;
            assert forall|i: int| 0 <= i < l1.albums.len() implies valid_artist_ref(
                l1,
                (#[trigger] l1.albums[i]).artist_id,
            ) by {
                lemma_artist_ref_mono(l0, l1, l0.albums[i].artist_id);
            }
        }
    }

    /// Reconcile one parsed record into the store: resolve-or-create its
    /// artist and album by exact name, then upsert the track by location.
    pub fn reconcile(&mut self, record: &ParsedTrack, now: i64)
        requires
            old(self).wf(),
            record.wf(),
            old(self).next_artist_id < i32::MAX,
            old(self).next_album_id < i32::MAX,
            old(self).next_track_id < i32::MAX,
        ensures
            final(self).wf(),
            final(self)@ == spec_reconcile(old(self)@, record@, now as int),
            final(self)@.next_artist_id <= old(self)@.next_artist_id + 1,
            final(self)@.next_album_id <= old(self)@.next_album_id + 1,
            final(self)@.next_track_id <= old(self)@.next_track_id + 1,
    {
        let ghost l0 = self@;
        let ghost l1 = match record@.artist {
            Some(nm) => spec_resolve_artist(l0, nm, now as int).0,
            None => l0,
        };
        let ghost gaid = match record@.artist {
            Some(nm) => Some(spec_resolve_artist(l0, nm, now as int).1),
            None => None::<int>,
        };
        let artist_id: Option<i32> = match &record.artist {
            Some(name) => {
                let new_artist = NewArtist { name: name.clone() };
                let id = self.resolve_or_create_artist(&new_artist, now);
                proof {
                    let j = choose|j: int|
                        0 <= j < self@.artists.len() && self@.artists[j].name == new_artist.name@;
                    assert(self@.artists[j].id == id as int);
                    assert(has_artist_id(self@, id as int));
                }
                Some(id)
            },
            None => None,
        };
        proof {
            assert(self@ == l1);
            assert(opt_i32_view(artist_id) == gaid);
            assert(valid_artist_ref(l1, gaid));
        }
        let ghost l2 = match record@.album {
            Some(nm) => spec_resolve_album(l1, nm, gaid, now as int).0,
            None => l1,
        };
        let ghost gbid = match record@.album {
            Some(nm) => Some(spec_resolve_album(l1, nm, gaid, now as int).1),
            None => None::<int>,
        };
        let album_id: Option<i32> = match &record.album {
            Some(name) => {
                let new_album = NewAlbum { name: name.clone(), artist_id };
                let id = self.resolve_or_create_album(&new_album, now);
                proof {
                    let j = choose|j: int|
                        0 <= j < self@.albums.len() && self@.albums[j].name == new_album.name@;
                    assert(self@.albums[j].id == id as int);
                    assert(has_album_id(self@, id as int));
                }
                Some(id)
            },
            None => None,
        };
        proof {
            assert(self@ == l2);
            assert(opt_i32_view(album_id) == gbid);
            assert(l2.artists =~= l1.artists);
            lemma_artist_ref_mono(l1, l2, gaid);
            assert(valid_artist_ref(l2, gaid));
            assert(valid_album_ref(l2, gbid));
        }
        let record_copy = record.duplicate();
        let new_track = NewTrack {
            picture_id: record_copy.picture_id,
            album_id,
            artist_id,
            number: record_copy.number,
            title: record_copy.title,
            disc: record_copy.disc,
            duration_ms: record_copy.duration_ms,
            location: record_copy.location,
            mount_point: record_copy.mount_point,
        };
        proof {
            assert(new_track@ =~= payload_of(record@, gaid, gbid));
        }
        self.upsert_track(new_track, now);
        proof {
            assert(self@ =~= spec_reconcile(l0, record@, now as int));
        }
    }

    /// Reconcile a whole scan's parsed records, front to back.
    pub fn sync(&mut self, records: &Vec<ParsedTrack>, now: i64)
        requires
            old(self).wf(),
            forall|i: int| 0 <= i < records@.len() ==> (#[trigger] records@[i]).wf(),
            old(self)@.next_artist_id + records@.len() <= i32::MAX,
            old(self)@.next_album_id + records@.len() <= i32::MAX,
            old(self)@.next_track_id + records@.len() <= i32::MAX,
        ensures
            final(self).wf(),
            final(self)@ == spec_sync(
                old(self)@,
                records@.map_values(|r: ParsedTrack| r@),
                now as int,
            ),
    {
        let ghost l0 = self@;
        let ghost rs = records@.map_values(|r: ParsedTrack| r@);
        let n = records.len();
        for k in 0..n
            invariant
                n == records.len(),
                rs == records@.map_values(|r: ParsedTrack| r@),
                forall|i: int| 0 <= i < records@.len() ==> (#[trigger] records@[i]).wf(),
                self.wf(),
                self@ == spec_sync(l0, rs.take(k as int), now as int),
                self@.next_artist_id <= l0.next_artist_id + k,
                self@.next_album_id <= l0.next_album_id + k,
                self@.next_track_id <= l0.next_track_id + k,
                l0.next_artist_id + n <= i32::MAX,
                l0.next_album_id + n <= i32::MAX,
                l0.next_track_id + n <= i32::MAX,
        {
            self.reconcile(&records[k], now);
            proof {
                assert(rs.take(k as int).push(rs[k as int]) =~= rs.take(k as int + 1));
                lemma_sync_snoc(l0, rs.take(k as int), rs[k as int], now as int);
            }
        }
        proof {
            assert(rs.take(n as int) =~= rs);
        }
    }
}

// ---------------------------------------------------------------------------
// Basic lemmas about the model
// ---------------------------------------------------------------------------

/// Reconciling a sequence and then one more record is reconciling the
/// extended sequence.
pub proof fn lemma_sync_snoc(l: LibraryModel, rs: Seq<ParsedTrackModel>, r: ParsedTrackModel, now: int)
    ensures
        spec_sync(l, rs.push(r), now) == spec_reconcile(spec_sync(l, rs, now), r, now),
    decreases rs.len(),
{
    let s1 = rs.push(r);
    assert(spec_sync(l, s1, now) == spec_sync(spec_reconcile(l, s1[0], now), s1.drop_first(), now));
    if rs.len() == 0 {
        assert(s1[0] == r);
        assert(s1.drop_first() =~= Seq::<ParsedTrackModel>::empty());
        assert(spec_sync(spec_reconcile(l, r, now), Seq::<ParsedTrackModel>::empty(), now)
            == spec_reconcile(l, r, now));
        assert(spec_sync(l, rs, now) == l);
    } else {
        assert(s1[0] == rs[0]);
        assert(s1.drop_first() =~= rs.drop_first().push(r));
        lemma_sync_snoc(spec_reconcile(l, rs[0], now), rs.drop_first(), r, now);
        assert(spec_sync(l, rs, now) == spec_sync(spec_reconcile(l, rs[0], now), rs.drop_first(), now));
    }
}

/// Under id uniqueness, any index whose row carries the id identifies the
/// row `artist_with_id` denotes.
pub proof fn lemma_artist_with_id_is(l: LibraryModel, id: int, i: int)
    requires
        wf_artists(l),
        0 <= i < l.artists.len(),
        l.artists[i].id == id,
    ensures
        has_artist_id(l, id),
        artist_with_id(l, id) == l.artists[i],
{
    assert(has_artist_id(l, id));
    let j = choose|j: int| 0 <= j < l.artists.len() && l.artists[j].id == id;
    if i != j {
        assert(l.artists[i].id != l.artists[j].id);
    }
}

/// Under id uniqueness, any index whose row carries the id identifies the
/// row `album_with_id` denotes.
pub proof fn lemma_album_with_id_is(l: LibraryModel, id: int, i: int)
    requires
        wf_albums(l),
        0 <= i < l.albums.len(),
        l.albums[i].id == id,
    ensures
        has_album_id(l, id),
        album_with_id(l, id) == l.albums[i],
{
    assert(has_album_id(l, id));
    let j = choose|j: int| 0 <= j < l.albums.len() && l.albums[j].id == id;
    if i != j {
        assert(l.albums[i].id != l.albums[j].id);
    }
}

/// Under id uniqueness, any index whose row carries the id identifies the
/// row `track_with_id` denotes.
pub proof fn lemma_track_with_id_is(l: LibraryModel, id: int, i: int)
    requires
        wf_tracks(l),
        0 <= i < l.tracks.len(),
        l.tracks[i].id == id,
    ensures
        has_track_id(l, id),
        track_with_id(l, id) == l.tracks[i],
{
    assert(has_track_id(l, id));
    let j = choose|j: int| 0 <= j < l.tracks.len() && l.tracks[j].id == id;
    if i != j {
        assert(l.tracks[i].id != l.tracks[j].id);
    }
}

/// Under name uniqueness, any index whose row carries the name identifies
/// the row `album_named` denotes.
pub proof fn lemma_album_named_is(l: LibraryModel, name: Seq<char>, i: int)
    requires
        wf_albums(l),
        0 <= i < l.albums.len(),
        l.albums[i].name == name,
    ensures
        has_album_named(l, name),
        album_named(l, name) == l.albums[i],
{
    assert(has_album_named(l, name));
    let j = choose|j: int| 0 <= j < l.albums.len() && l.albums[j].name == name;
    if i != j {
        assert(l.albums[i].name != l.albums[j].name);
    }
}

/// Under location uniqueness, any index whose row carries the location
/// identifies the row `track_at` denotes.
pub proof fn lemma_track_at_is(l: LibraryModel, loc: Seq<char>, i: int)
    requires
        wf_tracks(l),
        0 <= i < l.tracks.len(),
        l.tracks[i].location == loc,
    ensures
        has_track_at(l, loc),
        track_loc_index(l, loc) == i,
        track_at(l, loc) == l.tracks[i],
{
    assert(has_track_at(l, loc));
    let j = track_loc_index(l, loc);
    if i != j {
        assert(l.tracks[i].location != l.tracks[j].location);
    }
}

/// A valid artist reference stays valid when the artist table is only
/// extended.
pub proof fn lemma_artist_ref_mono(l: LibraryModel, l1: LibraryModel, r: Option<int>)
    requires
        valid_artist_ref(l, r),
        l.artists.len() <= l1.artists.len(),
        forall|i: int| 0 <= i < l.artists.len() ==> l1.artists[i] == l.artists[i],
    ensures
        valid_artist_ref(l1, r),
{
    match r {
        Some(a) => {
            let w = choose|w: int| 0 <= w < l.artists.len() && l.artists[w].id == a;
            assert(l1.artists[w] == l.artists[w]);
        },
        None => {},
    }
}

/// A valid album reference stays valid when the album table is only
/// extended.
pub proof fn lemma_album_ref_mono(l: LibraryModel, l1: LibraryModel, r: Option<int>)
    requires
        valid_album_ref(l, r),
        l.albums.len() <= l1.albums.len(),
        forall|i: int| 0 <= i < l.albums.len() ==> l1.albums[i] == l.albums[i],
    ensures
        valid_album_ref(l1, r),
{
    match r {
        Some(a) => {
            let w = choose|w: int| 0 <= w < l.albums.len() && l.albums[w].id == a;
            assert(l1.albums[w] == l.albums[w]);
        },
        None => {},
    }
}

/// Resolve-or-create of an album keeps the store well formed, and the id
/// it yields is a valid album reference.
pub proof fn lemma_resolve_album_wf(l: LibraryModel, name: Seq<char>, artist_id: Option<int>, now: int)
    requires
        wf(l),
        valid_artist_ref(l, artist_id),
    ensures
        wf(spec_resolve_album(l, name, artist_id, now).0),
        has_album_id(
            spec_resolve_album(l, name, artist_id, now).0,
            spec_resolve_album(l, name, artist_id, now).1,
        ),
        spec_resolve_album(l, name, artist_id, now).0.artists == l.artists,
{
    let (l1, id) = spec_resolve_album(l, name, artist_id, now);
    if has_album_named(l, name) {
        let j = choose|j: int| 0 <= j < l.albums.len() && l.albums[j].name == name;
        assert(has_album_id(l1, id));
    } else {
        let n = l.albums.len() as int;
        assert(l1.albums[n].id == l.next_album_id);
        assert forall|i: int, j: int| 0 <= i < j < l1.albums.len() implies l1.albums[i].id
            != l1.albums[j].id && l1.albums[i].name != l1.albums[j].name by {
            if j < n {
                assert(l.albums[i].id != l.albums[j].id);
            } else {
                assert(l1.albums[i] == l.albums[i]);
                assert(l.albums[i].id < l.next_album_id);
                assert(!(l.albums[i].name == name));
            }
        }
        assert forall|i: int| 0 <= i < l1.albums.len() implies valid_artist_ref(
            l1,
            (#[trigger] l1.albums[i]).artist_id,
        ) by {
            if i < n {
                assert(l1.albums[i] == l.albums[i]);
                assert(valid_artist_ref(l, l.albums[i].artist_id));
                lemma_artist_ref_mono(l, l1, l.albums[i].artist_id);
            } else {
                assert(l1.albums[i].artist_id == artist_id);
                lemma_artist_ref_mono(l, l1, artist_id);
            }
        }
        assert forall|i: int| 0 <= i < l1.tracks.len() implies valid_artist_ref(
            l1,
            (#[trigger] l1.tracks[i]).artist_id,
        ) && valid_album_ref(l1, l1.tracks[i].album_id) && l1.tracks[i].duration_ms >= 0 by {
            assert(l1.tracks[i] == l.tracks[i]);
            assert(valid_artist_ref(l, l.tracks[i].artist_id));
            assert(valid_album_ref(l, l.tracks[i].album_id));
            lemma_artist_ref_mono(l, l1, l.tracks[i].artist_id);
            lemma_album_ref_mono(l, l1, l.tracks[i].album_id);
        }
        assert(l1.albums[n].id == id);
        assert(has_album_id(l1, id));
    }
}

/// An upsert keeps the store well formed.
pub proof fn lemma_upsert_track_wf(l: LibraryModel, nt: NewTrackModel, now: int)
    requires
        wf(l),
        valid_artist_ref(l, nt.artist_id),
        valid_album_ref(l, nt.album_id),
        nt.duration_ms >= 0,
    ensures
        wf(spec_upsert_track(l, nt, now)),
{
    let l1 = spec_upsert_track(l, nt, now);
    if has_track_at(l, nt.location) {
        let i = track_loc_index(l, nt.location);
        assert(0 <= i < l.tracks.len() && l.tracks[i].location == nt.location);
        assert forall|a: int, b: int| 0 <= a < b < l1.tracks.len() implies l1.tracks[a].id
            != l1.tracks[b].id && l1.tracks[a].location != l1.tracks[b].location by {
            assert(l.tracks[a].id != l.tracks[b].id);
            assert(l.tracks[a].location != l.tracks[b].location);
            assert(l1.tracks[a].id == l.tracks[a].id && l1.tracks[b].id == l.tracks[b].id);
            assert(l1.tracks[a].location == l.tracks[a].location);
            assert(l1.tracks[b].location == l.tracks[b].location);
        }
        assert forall|a: int| 0 <= a < l1.tracks.len() implies 1 <= (#[trigger] l1.tracks[a]).id
            < l1.next_track_id && valid_artist_ref(l1, l1.tracks[a].artist_id) && valid_album_ref(
            l1,
            l1.tracks[a].album_id,
        ) && l1.tracks[a].duration_ms >= 0 by {
            if a == i {
                assert(l1.tracks[a] == replaced_track(l.tracks[i], nt));
                lemma_artist_ref_mono(l, l1, nt.artist_id);
                lemma_album_ref_mono(l, l1, nt.album_id);
            } else {
                assert(l1.tracks[a] == l.tracks[a]);
                lemma_artist_ref_mono(l, l1, l.tracks[a].artist_id);
                lemma_album_ref_mono(l, l1, l.tracks[a].album_id);
            }
        }
        assert forall|a: int| 0 <= a < l1.albums.len() implies valid_artist_ref(
            l1,
            (#[trigger] l1.albums[a]).artist_id,
        ) by {
            lemma_artist_ref_mono(l, l1, l.albums[a].artist_id);
        }
    } else {
        let n = l.tracks.len() as int;
        assert(l1.tracks[n] == inserted_track(nt, l.next_track_id, now));
        assert forall|a: int, b: int| 0 <= a < b < l1.tracks.len() implies l1.tracks[a].id
            != l1.tracks[b].id && l1.tracks[a].location != l1.tracks[b].location by {
            if b < n {
                assert(l.tracks[a].id != l.tracks[b].id);
            } else {
                assert(l1.tracks[a] == l.tracks[a]);
                assert(l.tracks[a].id < l.next_track_id);
                assert(!has_track_at(l, nt.location));
                assert(!(l.tracks[a].location == nt.location));
            }
        }
        assert forall|a: int| 0 <= a < l1.tracks.len() implies 1 <= (#[trigger] l1.tracks[a]).id
            < l1.next_track_id && valid_artist_ref(l1, l1.tracks[a].artist_id) && valid_album_ref(
            l1,
            l1.tracks[a].album_id,
        ) && l1.tracks[a].duration_ms >= 0 by {
            if a == n {
                lemma_artist_ref_mono(l, l1, nt.artist_id);
                lemma_album_ref_mono(l, l1, nt.album_id);
            } else {
                assert(l1.tracks[a] == l.tracks[a]);
                lemma_artist_ref_mono(l, l1, l.tracks[a].artist_id);
                lemma_album_ref_mono(l, l1, l.tracks[a].album_id);
            }
        }
        assert forall|a: int| 0 <= a < l1.albums.len() implies valid_artist_ref(
            l1,
            (#[trigger] l1.albums[a]).artist_id,
        ) by {
            lemma_artist_ref_mono(l, l1, l.albums[a].artist_id);
        }
    }
}

/// Under name uniqueness, any index whose row carries the name identifies
/// the row `artist_named` denotes.
pub proof fn lemma_artist_named_is(l: LibraryModel, name: Seq<char>, i: int)
    requires
        wf_artists(l),
        0 <= i < l.artists.len(),
        l.artists[i].name == name,
    ensures
        has_artist_named(l, name),
        artist_named(l, name) == l.artists[i],
{
    assert(has_artist_named(l, name));
    let j = choose|j: int| 0 <= j < l.artists.len() && l.artists[j].name == name;
    if i != j {
        assert(l.artists[i].name != l.artists[j].name);
    }
}

/// Resolve-or-create keeps the store well formed, and the id it yields is
/// a valid artist reference.
pub proof fn lemma_resolve_artist_wf(l: LibraryModel, name: Seq<char>, now: int)
    requires
        wf(l),
    ensures
        wf(spec_resolve_artist(l, name, now).0),
        has_artist_id(spec_resolve_artist(l, name, now).0, spec_resolve_artist(l, name, now).1),
        l.artists.len() <= spec_resolve_artist(l, name, now).0.artists.len(),
{
    let (l1, id) = spec_resolve_artist(l, name, now);
    if has_artist_named(l, name) {
        let j = choose|j: int| 0 <= j < l.artists.len() && l.artists[j].name == name;
        assert(has_artist_id(l1, id));
    } else {
        let n = l.artists.len() as int;
        assert(l1.artists[n].id == l.next_artist_id);
        assert forall|i: int, j: int| 0 <= i < j < l1.artists.len() implies l1.artists[i].id
            != l1.artists[j].id && l1.artists[i].name != l1.artists[j].name by {
            if j < n {
                assert(l.artists[i].id != l.artists[j].id);
            } else {
                assert(l1.artists[i] == l.artists[i]);
                assert(l1.artists[j].id == l.next_artist_id);
                assert(l.artists[i].id < l.next_artist_id);
                assert(!(l.artists[i].name == name));
            }
        }
        assert(forall|i: int| 0 <= i < l1.albums.len() ==> valid_artist_ref(l1, (#[trigger] l1.albums[i]).artist_id)) by {
            assert forall|i: int| 0 <= i < l1.albums.len() implies valid_artist_ref(
                l1,
                (#[trigger] l1.albums[i]).artist_id,
            ) by {
                assert(valid_artist_ref(l, l.albums[i].artist_id));
                match l.albums[i].artist_id {
                    Some(a) => {
                        let w = choose|w: int| 0 <= w < l.artists.len() && l.artists[w].id == a;
                        assert(l1.artists[w].id == a);
                    },
                    None => {},
                }
            }
        }
        assert forall|i: int| 0 <= i < l1.tracks.len() implies valid_artist_ref(
            l1,
            (#[trigger] l1.tracks[i]).artist_id,
        ) && valid_album_ref(l1, l1.tracks[i].album_id) && l1.tracks[i].duration_ms >= 0 by {
            assert(valid_artist_ref(l, l.tracks[i].artist_id));
            assert(valid_album_ref(l, l.tracks[i].album_id));
            match l.tracks[i].artist_id {
                Some(a) => {
                    let w = choose|w: int| 0 <= w < l.artists.len() && l.artists[w].id == a;
                    assert(l1.artists[w].id == a);
                },
                None => {},
            }
        }
        assert(l1.artists[n].id == id);
        assert(has_artist_id(l1, id));
    }
}

} // verus!

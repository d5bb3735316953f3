//! Row types of the normalized library model (artists, albums, tracks),
//! the insert payloads used by the reconciler, and the parsed-record and
//! denormalized-view types that surround them.
//!
//! Each executable type has a ghost model over `int` and `Seq<char>` that the
//! contracts speak of.

use vstd::prelude::*;

verus! {

// ---------------------------------------------------------------------------
// Ghost models
// ---------------------------------------------------------------------------

#[verifier::ext_equal]
pub ghost struct ArtistModel {
    pub id: int,
    pub name: Seq<char>,
    pub created_at: int,
}

#[verifier::ext_equal]
pub ghost struct AlbumModel {
    pub id: int,
    pub name: Seq<char>,
    pub artist_id: Option<int>,
    pub created_at: int,
}

#[verifier::ext_equal]
pub ghost struct TrackModel {
    pub id: int,
    pub picture_id: Option<Seq<char>>,
    pub album_id: Option<int>,
    pub artist_id: Option<int>,
    pub number: Option<int>,
    pub title: Option<Seq<char>>,
    pub disc: Option<int>,
    pub duration_ms: int,
    pub location: Seq<char>,
    pub mount_point: Seq<char>,
    pub created_at: int,
}

/// Model of the field bundle written by a track upsert: everything a track
/// row holds except its identity and creation time, which the upsert never
/// touches.
#[verifier::ext_equal]
pub ghost struct NewTrackModel {
    pub picture_id: Option<Seq<char>>,
    pub album_id: Option<int>,
    pub artist_id: Option<int>,
    pub number: Option<int>,
    pub title: Option<Seq<char>>,
    pub disc: Option<int>,
    pub duration_ms: int,
    pub location: Seq<char>,
    pub mount_point: Seq<char>,
}

#[verifier::ext_equal]
pub ghost struct ParsedTrackModel {
    pub title: Option<Seq<char>>,
    pub artist: Option<Seq<char>>,
    pub album: Option<Seq<char>>,
    pub number: Option<int>,
    pub disc: Option<int>,
    pub duration_ms: int,
    pub location: Seq<char>,
    pub mount_point: Seq<char>,
    pub picture_id: Option<Seq<char>>,
}

#[verifier::ext_equal]
pub ghost struct TrackDTOModel {
    pub id: int,
    pub title: Option<Seq<char>>,
    pub artist: Option<ArtistModel>,
    pub album: Option<AlbumModel>,
    pub number: Option<int>,
    pub disc: Option<int>,
    pub duration_ms: int,
    pub location: Seq<char>,
    pub mount_point: Seq<char>,
    pub picture_id: Option<Seq<char>>,
}

pub open spec fn opt_str_view(o: Option<String>) -> Option<Seq<char>> {
    match o {
        Some(s) => Some(s@),
        None => None,
    }
}

pub open spec fn opt_i32_view(o: Option<i32>) -> Option<int> {
    match o {
        Some(n) => Some(n as int),
        None => None,
    }
}

// ---------------------------------------------------------------------------
// Executable rows
// ---------------------------------------------------------------------------

/// An artist row: surrogate id, unique name, creation time (epoch seconds).
pub struct Artist {
    pub id: i32,
    pub name: String,
    pub created_at: i64,
}

impl View for Artist {
    type V = ArtistModel;

    open spec fn view(&self) -> ArtistModel {
        ArtistModel { id: self.id as int, name: self.name@, created_at: self.created_at as int }
    }
}

impl Artist {
    /// A field-for-field copy of the row.
    pub fn duplicate(&self) -> (r: Artist)
        ensures
            r@ == self@,
    {
        Artist { id: self.id, name: self.name.clone(), created_at: self.created_at }
    }
}

/// An album row: surrogate id, unique name, optional artist reference,
/// creation time.
pub struct Album {
    pub id: i32,
    pub name: String,
    pub artist_id: Option<i32>,
    pub created_at: i64,
}

impl View for Album {
    type V = AlbumModel;

    open spec fn view(&self) -> AlbumModel {
        AlbumModel {
            id: self.id as int,
            name: self.name@,
            artist_id: opt_i32_view(self.artist_id),
            created_at: self.created_at as int,
        }
    }
}

impl Album {
    /// A field-for-field copy of the row.
    pub fn duplicate(&self) -> (r: Album)
        ensures
            r@ == self@,
    {
        Album {
            id: self.id,
            name: self.name.clone(),
            artist_id: self.artist_id,
            created_at: self.created_at,
        }
    }
}

/// A track row. `location` is the natural key for upserts; `duration_ms`
/// is required and non-negative; the entity references are nullable.
pub struct Track {
    pub id: i32,
    pub picture_id: Option<String>,
    pub album_id: Option<i32>,
    pub artist_id: Option<i32>,
    pub number: Option<i32>,
    pub title: Option<String>,
    pub disc: Option<i32>,
    pub duration_ms: i32,
    pub location: String,
    pub mount_point: String,
    pub created_at: i64,
}

impl View for Track {
    type V = TrackModel;

    open spec fn view(&self) -> TrackModel {
        TrackModel {
            id: self.id as int,
            picture_id: opt_str_view(self.picture_id),
            album_id: opt_i32_view(self.album_id),
            artist_id: opt_i32_view(self.artist_id),
            number: opt_i32_view(self.number),
            title: opt_str_view(self.title),
            disc: opt_i32_view(self.disc),
            duration_ms: self.duration_ms as int,
            location: self.location@,
            mount_point: self.mount_point@,
            created_at: self.created_at as int,
        }
    }
}

fn opt_string_duplicate(o: &Option<String>) -> (r: Option<String>)
    ensures
        opt_str_view(r) == opt_str_view(*o),
{
    match o {
        Some(s) => Some(s.clone()),
        None => None,
    }
}

impl Track {
    /// A field-for-field copy of the row.
    pub fn duplicate(&self) -> (r: Track)
        ensures
            r@ == self@,
    {
        Track {
            id: self.id,
            picture_id: opt_string_duplicate(&self.picture_id),
            album_id: self.album_id,
            artist_id: self.artist_id,
            number: self.number,
            title: opt_string_duplicate(&self.title),
            disc: self.disc,
            duration_ms: self.duration_ms,
            location: self.location.clone(),
            mount_point: self.mount_point.clone(),
            created_at: self.created_at,
        }
    }
}

/// Insert payload for an artist row.
pub struct NewArtist {
    pub name: String,
}

impl View for NewArtist {
    type V = Seq<char>;

    open spec fn view(&self) -> Seq<char> {
        self.name@
    }
}

/// Insert payload for an album row.
pub struct NewAlbum {
    pub name: String,
    pub artist_id: Option<i32>,
}

/// Upsert payload for a track row: every mutable field, keyed by `location`.
pub struct NewTrack {
    pub picture_id: Option<String>,
    pub album_id: Option<i32>,
    pub artist_id: Option<i32>,
    pub number: Option<i32>,
    pub title: Option<String>,
    pub disc: Option<i32>,
    pub duration_ms: i32,
    pub location: String,
    pub mount_point: String,
}

impl View for NewTrack {
    type V = NewTrackModel;

    open spec fn view(&self) -> NewTrackModel {
        NewTrackModel {
            picture_id: opt_str_view(self.picture_id),
            album_id: opt_i32_view(self.album_id),
            artist_id: opt_i32_view(self.artist_id),
            number: opt_i32_view(self.number),
            title: opt_str_view(self.title),
            disc: opt_i32_view(self.disc),
            duration_ms: self.duration_ms as int,
            location: self.location@,
            mount_point: self.mount_point@,
        }
    }
}

/// One record produced by scanning a single audio file: the tag fields that
/// were present, the technical duration, and the content-addressed picture
/// key if artwork was found and cached.
pub struct ParsedTrack {
    pub title: Option<String>,
    pub artist: Option<String>,
    pub album: Option<String>,
    pub number: Option<i32>,
    pub disc: Option<i32>,
    pub duration_ms: i32,
    pub location: String,
    pub mount_point: String,
    pub picture_id: Option<String>,
}

impl View for ParsedTrack {
    type V = ParsedTrackModel;

    open spec fn view(&self) -> ParsedTrackModel {
        ParsedTrackModel {
            title: opt_str_view(self.title),
            artist: opt_str_view(self.artist),
            album: opt_str_view(self.album),
            number: opt_i32_view(self.number),
            disc: opt_i32_view(self.disc),
            duration_ms: self.duration_ms as int,
            location: self.location@,
            mount_point: self.mount_point@,
            picture_id: opt_str_view(self.picture_id),
        }
    }
}

impl ParsedTrack {
    /// A record is well formed when its duration is non-negative.
    pub open spec fn wf(&self) -> bool {
        self.duration_ms >= 0
    }

    /// A field-for-field copy of the record.
    pub fn duplicate(&self) -> (r: ParsedTrack)
        ensures
            r@ == self@,
    {
        ParsedTrack {
            title: opt_string_duplicate(&self.title),
            artist: opt_string_duplicate(&self.artist),
            album: opt_string_duplicate(&self.album),
            number: self.number,
            disc: self.disc,
            duration_ms: self.duration_ms,
            location: self.location.clone(),
            mount_point: self.mount_point.clone(),
            picture_id: opt_string_duplicate(&self.picture_id),
        }
    }
}

/// The denormalized read model: a track row with its artist and album
/// references resolved to full rows where they resolve at all.
pub struct TrackDTO {
    pub id: i32,
    pub title: Option<String>,
    pub artist: Option<Artist>,
    pub album: Option<Album>,
    pub number: Option<i32>,
    pub disc: Option<i32>,
    pub duration_ms: i32,
    pub location: String,
    pub mount_point: String,
    pub picture_id: Option<String>,
}

impl View for TrackDTO {
    type V = TrackDTOModel;

    open spec fn view(&self) -> TrackDTOModel {
        TrackDTOModel {
            id: self.id as int,
            title: opt_str_view(self.title),
            artist: match self.artist {
                Some(a) => Some(a@),
                None => None,
            },
            album: match self.album {
                Some(a) => Some(a@),
                None => None,
            },
            number: opt_i32_view(self.number),
            disc: opt_i32_view(self.disc),
            duration_ms: self.duration_ms as int,
            location: self.location@,
            mount_point: self.mount_point@,
            picture_id: opt_str_view(self.picture_id),
        }
    }
}

} // verus!

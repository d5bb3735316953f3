//! The compute side of the directory crawl: supported-extension filtering,
//! the content-addressed picture key, tag-source selection, and the
//! assembly of one parsed record per audio file. Opening files, probing
//! containers and writing cache artifacts are the caller's side.

use vstd::prelude::*;

use crate::model::{ParsedTrack, ParsedTrackModel, opt_i32_view, opt_str_view};

verus! {

/// Returns true when `ext` is one of the supported audio container
/// extensions (case-sensitive): mp3, flac, wav, ogg.
pub fn is_supported_extension(ext: &str) -> (r: bool)
    ensures
        r == (ext@ == "mp3"@ || ext@ == "flac"@ || ext@ == "wav"@ || ext@ == "ogg"@),
{
    crate::text::str_eq(ext, "mp3") || crate::text::str_eq(ext, "flac") || crate::text::str_eq(
        ext,
        "wav",
    ) || crate::text::str_eq(ext, "ogg")
}

/// What the md5 digest of a byte sequence renders to in lowercase hex.
pub uninterp spec fn md5_hex_of(data: Seq<u8>) -> Seq<char>;

/// Relies on `md5::compute` and the crate's `LowerHex` rendering of a
/// digest: the digest depends on the bytes alone, and a 16-byte digest
/// renders as exactly 32 hex characters.
#[verifier::external_body]
fn md5_hex(data: &Vec<u8>) -> (r: String)
    ensures
        r@ == md5_hex_of(data@),
        r@.len() == 32,
{
    format!("{:x}", md5::compute(data.as_slice()))
}

/// The content-addressed cache key of a piece of embedded artwork: the hex
/// form of a digest of the bytes, so byte-identical artwork always yields
/// the same key.
pub fn picture_cache_key(data: &Vec<u8>) -> (r: String)
    ensures
        r@ == md5_hex_of(data@),
        r@.len() == 32,
{
    md5_hex(data)
}

/// Content addressing: byte-identical artwork yields the same cache key,
/// so one artifact serves every track carrying that artwork.
pub proof fn lemma_picture_key_content_addressed(a: Seq<u8>, b: Seq<u8>)
    requires
        a == b,
    ensures
        md5_hex_of(a) == md5_hex_of(b),
{
}

// ---------------------------------------------------------------------------
// Tag fields and record assembly
// ---------------------------------------------------------------------------

/// Ghost form of the metadata fields read from one tag.
#[verifier::ext_equal]
pub ghost struct TagFieldsModel {
    pub title: Option<Seq<char>>,
    pub artist: Option<Seq<char>>,
    pub album: Option<Seq<char>>,
    pub number: Option<int>,
    pub disc: Option<int>,
}

/// The metadata fields read from one tag of an audio file; each is absent
/// when the tag lacks it.
pub struct TagFields {
    pub title: Option<String>,
    pub artist: Option<String>,
    pub album: Option<String>,
    pub number: Option<i32>,
    pub disc: Option<i32>,
}

impl View for TagFields {
    type V = TagFieldsModel;

    open spec fn view(&self) -> TagFieldsModel {
        TagFieldsModel {
            title: opt_str_view(self.title),
            artist: opt_str_view(self.artist),
            album: opt_str_view(self.album),
            number: opt_i32_view(self.number),
            disc: opt_i32_view(self.disc),
        }
    }
}

/// The tag a record is read from: the file's primary tag when present,
/// else its first available tag, else none.
pub fn select_tag_source(primary: Option<TagFields>, first: Option<TagFields>) -> (r: Option<
    TagFields,
>)
    ensures
        match (primary, r) {
            (Some(p), Some(s)) => s@ == p@,
            (None, _) => match (first, r) {
                (Some(f), Some(s)) => s@ == f@,
                (None, None) => true,
                _ => false,
            },
            _ => false,
        },
{
    match primary {
        Some(p) => Some(p),
        None => first,
    }
}

/// The record `build_parsed_track` assembles.
pub open spec fn spec_parsed_track(
    location: Seq<char>,
    mount_point: Seq<char>,
    duration_ms: int,
    tag: Option<TagFieldsModel>,
    picture_id: Option<Seq<char>>,
) -> ParsedTrackModel {
    match tag {
        Some(t) => ParsedTrackModel {
            title: t.title,
            artist: t.artist,
            album: t.album,
            number: t.number,
            disc: t.disc,
            duration_ms,
            location,
            mount_point,
            picture_id,
        },
        None => ParsedTrackModel {
            title: None,
            artist: None,
            album: None,
            number: None,
            disc: None,
            duration_ms,
            location,
            mount_point,
            picture_id,
        },
    }
}

/// Assemble one parsed record from a file's structural data, its selected
/// tag (if any) and the cache key of its stored artwork (if any). A file
/// without tag data yields a record with only structural fields.
pub fn build_parsed_track(
    location: String,
    mount_point: String,
    duration_ms: i32,
    tag: Option<TagFields>,
    picture_id: Option<String>,
) -> (r: ParsedTrack)
    requires
        duration_ms >= 0,
    ensures
        r@ == spec_parsed_track(
            location@,
            mount_point@,
            duration_ms as int,
            match tag {
                Some(t) => Some(t@),
                None => None,
            },
            opt_str_view(picture_id),
        ),
        r.wf(),
{
    match tag {
        Some(t) => ParsedTrack {
            title: t.title,
            artist: t.artist,
            album: t.album,
            number: t.number,
            disc: t.disc,
            duration_ms,
            location,
            mount_point,
            picture_id,
        },
        None => ParsedTrack {
            title: None,
            artist: None,
            album: None,
            number: None,
            disc: None,
            duration_ms,
            location,
            mount_point,
            picture_id,
        },
    }
}

} // verus!

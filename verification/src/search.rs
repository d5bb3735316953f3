//! Fuzzy, script-aware search over track views.
//!
//! A query matches a track when, after case folding, it is a substring of
//! the track's title, artist name or album name — or when it still is after
//! both sides are romanized, which lets a Latin query match Japanese
//! metadata through a shared phonetic form. Absent fields count as empty
//! strings.

use vstd::prelude::*;

use crate::model::TrackDTO;
use crate::text::{chars_contains, chars_of, str_contains};

verus! {

/// What `str::to_lowercase` returns for a given character sequence.
pub uninterp spec fn lower_of(s: Seq<char>) -> Seq<char>;

/// What kakasi's romanization returns for a given character sequence.
pub uninterp spec fn romaji_of(s: Seq<char>) -> Seq<char>;

/// Relies on `str::to_lowercase`: the result depends on the characters
/// alone.
#[verifier::external_body]
fn lowercase(s: &str) -> (r: String)
    ensures
        r@ == lower_of(s@),
{
    s.to_lowercase()
}

/// Relies on `kakasi::convert`: the romanized form depends on the
/// characters alone.
#[verifier::external_body]
fn romanize(s: &str) -> (r: String)
    ensures
        r@ == romaji_of(s@),
{
    kakasi::convert(s).romaji
}

/// The text of an optional field: absent fields read as empty.
pub open spec fn field_or_empty(o: Option<Seq<char>>) -> Seq<char> {
    match o {
        Some(s) => s,
        None => Seq::empty(),
    }
}

/// The three searched fields of a track view, before folding: its title,
/// its artist's name and its album's name, each empty when absent.
pub open spec fn searched_fields(t: crate::model::TrackDTOModel) -> (Seq<char>, Seq<char>, Seq<char>) {
    (
        field_or_empty(t.title),
        match t.artist {
            Some(a) => a.name,
            None => Seq::empty(),
        },
        match t.album {
            Some(a) => a.name,
            None => Seq::empty(),
        },
    )
}

/// Whether a query matches a track view: the case-folded query is a
/// substring of a case-folded field, or the romanized forms of the folded
/// query and of a folded field stand in the same relation.
pub open spec fn spec_track_matches(query: Seq<char>, t: crate::model::TrackDTOModel) -> bool {
    let q = lower_of(query);
    let fields = searched_fields(t);
    let title = lower_of(fields.0);
    let artist = lower_of(fields.1);
    let album = lower_of(fields.2);
    ||| str_contains(title, q)
    ||| str_contains(artist, q)
    ||| str_contains(album, q)
    ||| str_contains(romaji_of(title), romaji_of(q))
    ||| str_contains(romaji_of(artist), romaji_of(q))
    ||| str_contains(romaji_of(album), romaji_of(q))
}

fn opt_field_str<'a>(o: &'a Option<String>) -> (r: &'a str)
    ensures
        r@ == field_or_empty(crate::model::opt_str_view(*o)),
{
    let r = match o {
        Some(s) => s.as_str(),
        None => "",
    };
    proof {
        reveal_strlit("");
        assert(""@ =~= Seq::<char>::empty());
    }
    r
}

/// Whether the query matches the track view, by case-folded substring
/// search with a romanized second pass.
pub fn track_query_filter_condition(query: String, track: TrackDTO) -> (r: bool)
    ensures
        r == spec_track_matches(query@, track@),
{
    let q = lowercase(query.as_str());
    let title = lowercase(opt_field_str(&track.title));
    let artist = lowercase(match &track.artist {
        Some(a) => a.name.as_str(),
        None => "",
    });
    let album = lowercase(match &track.album {
        Some(a) => a.name.as_str(),
        None => "",
    });
    proof {
        reveal_strlit("");
        assert(""@ =~= Seq::<char>::empty());
    }
    let qc = chars_of(q.as_str());
    if chars_contains(&chars_of(title.as_str()), &qc) {
        return true;
    }
    if chars_contains(&chars_of(artist.as_str()), &qc) {
        return true;
    }
    if chars_contains(&chars_of(album.as_str()), &qc) {
        return true;
    }
    let qk = chars_of(romanize(q.as_str()).as_str());
    if chars_contains(&chars_of(romanize(title.as_str()).as_str()), &qk) {
        return true;
    }
    if chars_contains(&chars_of(romanize(artist.as_str()).as_str()), &qk) {
        return true;
    }
    chars_contains(&chars_of(romanize(album.as_str()).as_str()), &qk)
}

} // verus!

//! Laws of the reconciliation engine: reconciling preserves the store
//! invariant, a record already reflected in the store reconciles to no
//! change (so repeated scans of unchanged files are idempotent), equal
//! artist names resolve to one shared row, and re-scanning a known
//! location replaces the row in place.

use vstd::prelude::*;

use crate::library::{
    LibraryModel, album_named, artist_named, has_album_named, has_artist_named, has_track_at,
    lemma_album_named_is, lemma_artist_named_is, lemma_artist_ref_mono, lemma_resolve_album_wf,
    lemma_resolve_artist_wf, lemma_track_at_is, lemma_upsert_track_wf, payload_of, replaced_track,
    spec_reconcile, spec_resolve_album, spec_resolve_artist, spec_sync, spec_upsert_track,
    track_at, track_loc_index, wf, wf_albums, wf_artists, wf_tracks,
};
use crate::model::ParsedTrackModel;

verus! {

// ---------------------------------------------------------------------------
// Settledness: a record fully reflected in the store
// ---------------------------------------------------------------------------

/// The artist id the record's artist name resolves to, given the name is
/// present in the store.
pub open spec fn resolved_artist_id(l: LibraryModel, r: ParsedTrackModel) -> Option<int> {
    match r.artist {
        Some(nm) => Some(artist_named(l, nm).id),
        None => None,
    }
}

/// The album id the record's album name resolves to, given the name is
/// present in the store.
pub open spec fn resolved_album_id(l: LibraryModel, r: ParsedTrackModel) -> Option<int> {
    match r.album {
        Some(nm) => Some(album_named(l, nm).id),
        None => None,
    }
}

/// The record is fully reflected in the store: its names resolve, a track
/// row sits at its location, and that row already carries exactly the
/// fields reconciliation would write.
pub open spec fn settled(l: LibraryModel, r: ParsedTrackModel) -> bool {
    &&& match r.artist {
        Some(nm) => has_artist_named(l, nm),
        None => true,
    }
    &&& match r.album {
        Some(nm) => has_album_named(l, nm),
        None => true,
    }
    &&& has_track_at(l, r.location)
    &&& track_at(l, r.location) == replaced_track(
        track_at(l, r.location),
        payload_of(r, resolved_artist_id(l, r), resolved_album_id(l, r)),
    )
}

// ---------------------------------------------------------------------------
// How one reconciliation step changes the store
// ---------------------------------------------------------------------------

/// Reconciling preserves the store invariant.
pub proof fn lemma_reconcile_wf(l: LibraryModel, r: ParsedTrackModel, now: int)
    requires
        wf(l),
        r.duration_ms >= 0,
    ensures
        wf(spec_reconcile(l, r, now)),
{
    let (l1, aid) = artist_step(l, r, now);
    let (l2, bid) = album_step(l1, aid, r, now);
    if r.artist is Some {
        lemma_resolve_artist_wf(l, r.artist->0, now);
    }
    if r.album is Some {
        lemma_resolve_album_wf(l1, r.album->0, aid, now);
    }
    assert(wf(l2));
    assert(crate::library::valid_artist_ref(l2, aid)) by {
        lemma_artist_ref_mono(l1, l2, aid);
    }
    lemma_upsert_track_wf(l2, payload_of(r, aid, bid), now);
}

/// The store and artist id after the artist step of reconciliation.
pub open spec fn artist_step(l: LibraryModel, r: ParsedTrackModel, now: int) -> (LibraryModel, Option<int>) {
    match r.artist {
        Some(nm) => {
            let p = spec_resolve_artist(l, nm, now);
            (p.0, Some(p.1))
        },
        None => (l, None),
    }
}

/// The store and album id after the album step of reconciliation.
pub open spec fn album_step(l1: LibraryModel, aid: Option<int>, r: ParsedTrackModel, now: int) -> (
    LibraryModel,
    Option<int>,
) {
    match r.album {
        Some(nm) => {
            let p = spec_resolve_album(l1, nm, aid, now);
            (p.0, Some(p.1))
        },
        None => (l1, None),
    }
}

/// Reconciling only appends to the artist and album tables, touches no
/// track row at another location, and extends each table by at most one
/// row.
pub proof fn lemma_reconcile_grows(l: LibraryModel, r: ParsedTrackModel, now: int)
    requires
        wf(l),
    ensures
        ({
            let l3 = spec_reconcile(l, r, now);
            &&& l.artists.len() <= l3.artists.len() <= l.artists.len() + 1
            &&& forall|i: int| 0 <= i < l.artists.len() ==> l3.artists[i] == l.artists[i]
            &&& l.albums.len() <= l3.albums.len() <= l.albums.len() + 1
            &&& forall|i: int| 0 <= i < l.albums.len() ==> l3.albums[i] == l.albums[i]
            &&& l.tracks.len() <= l3.tracks.len() <= l.tracks.len() + 1
            &&& forall|i: int|
                0 <= i < l.tracks.len() && l.tracks[i].location != r.location ==> l3.tracks[i]
                    == l.tracks[i]
        }),
{
    let (l1, aid) = artist_step(l, r, now);
    let (l2, bid) = album_step(l1, aid, r, now);
    let l3 = spec_upsert_track(l2, payload_of(r, aid, bid), now);
    if has_track_at(l2, r.location) {
        let i = track_loc_index(l2, r.location);
        assert(l3.tracks =~= l2.tracks.update(i, replaced_track(l2.tracks[i], payload_of(r, aid, bid))));
        assert forall|j: int|
            0 <= j < l.tracks.len() && l.tracks[j].location != r.location implies l3.tracks[j]
            == l.tracks[j] by {
            assert(l2.tracks[j] == l.tracks[j]);
            assert(l2.tracks[i].location == r.location);
        }
    }
}

/// Reconciling a record leaves it settled: its names resolve and its row
/// carries exactly the reconciled fields.
pub proof fn lemma_reconcile_settles(l: LibraryModel, r: ParsedTrackModel, now: int)
    requires
        wf(l),
        r.duration_ms >= 0,
    ensures
        settled(spec_reconcile(l, r, now), r),
{
    let (l1, aid) = artist_step(l, r, now);
    let (l2, bid) = album_step(l1, aid, r, now);
    let nt = payload_of(r, aid, bid);
    let l3 = spec_upsert_track(l2, nt, now);
    lemma_reconcile_wf(l, r, now);
    if r.artist is Some {
        lemma_resolve_artist_wf(l, r.artist->0, now);
    }
    if r.album is Some {
        lemma_resolve_album_wf(l1, r.album->0, aid, now);
    }
    assert(wf(l1) && wf(l2));
    // the artist name resolves in l3 to the id used in the payload
    if r.artist is Some {
        let nm = r.artist->0;
        if has_artist_named(l, nm) {
            let j = choose|j: int| 0 <= j < l.artists.len() && l.artists[j].name == nm;
            assert(l3.artists[j] == l.artists[j]);
            lemma_artist_named_is(l3, nm, j);
            assert(artist_named(l3, nm).id == aid->0);
        } else {
            let n = l.artists.len() as int;
            assert(l1.artists[n].name == nm && l1.artists[n].id == aid->0);
            assert(l3.artists[n] == l1.artists[n]);
            lemma_artist_named_is(l3, nm, n);
        }
    }
    // the album name resolves in l3 to the id used in the payload
    if r.album is Some {
        let nm = r.album->0;
        if has_album_named(l1, nm) {
            let j = choose|j: int| 0 <= j < l1.albums.len() && l1.albums[j].name == nm;
            assert(l3.albums[j] == l1.albums[j]);
            lemma_album_named_is(l3, nm, j);
            assert(album_named(l3, nm).id == bid->0);
        } else {
            let n = l1.albums.len() as int;
            assert(l2.albums[n].name == nm && l2.albums[n].id == bid->0);
            assert(l3.albums[n] == l2.albums[n]);
            lemma_album_named_is(l3, nm, n);
        }
    }
    // the track row at the location carries the payload
    if has_track_at(l2, nt.location) {
        let i = track_loc_index(l2, nt.location);
        assert(l3.tracks[i] == replaced_track(l2.tracks[i], nt));
        lemma_track_at_is(l3, nt.location, i);
        assert(track_at(l3, r.location) == replaced_track(l2.tracks[i], nt));
    } else {
        let n = l2.tracks.len() as int;
        assert(l3.tracks[n].location == nt.location);
        lemma_track_at_is(l3, nt.location, n);
    }
    assert(resolved_artist_id(l3, r) == aid);
    assert(resolved_album_id(l3, r) == bid);
    assert(track_at(l3, r.location) =~= replaced_track(
        track_at(l3, r.location),
        payload_of(r, resolved_artist_id(l3, r), resolved_album_id(l3, r)),
    ));
}

/// Reconciling one record keeps any other settled record (at another
/// location) settled.
pub proof fn lemma_reconcile_preserves_settled(
    l: LibraryModel,
    r: ParsedTrackModel,
    r0: ParsedTrackModel,
    now: int,
)
    requires
        wf(l),
        r.duration_ms >= 0,
        settled(l, r0),
        r0.location != r.location,
    ensures
        settled(spec_reconcile(l, r, now), r0),
{
    let l3 = spec_reconcile(l, r, now);
    lemma_reconcile_wf(l, r, now);
    lemma_reconcile_grows(l, r, now);
    // name lookups are stable on the preserved prefix
    if r0.artist is Some {
        let nm = r0.artist->0;
        let j = choose|j: int| 0 <= j < l.artists.len() && l.artists[j].name == nm;
        assert(l3.artists[j] == l.artists[j]);
        lemma_artist_named_is(l3, nm, j);
        lemma_artist_named_is(l, nm, j);
        assert(artist_named(l3, nm) == artist_named(l, nm));
    }
    if r0.album is Some {
        let nm = r0.album->0;
        let j = choose|j: int| 0 <= j < l.albums.len() && l.albums[j].name == nm;
        assert(l3.albums[j] == l.albums[j]);
        lemma_album_named_is(l3, nm, j);
        lemma_album_named_is(l, nm, j);
        assert(album_named(l3, nm) == album_named(l, nm));
    }
    // the row at r0's location is untouched
    let i = track_loc_index(l, r0.location);
    assert(0 <= i < l.tracks.len() && l.tracks[i].location == r0.location);
    assert(l3.tracks[i] == l.tracks[i]);
    lemma_track_at_is(l3, r0.location, i);
    lemma_track_at_is(l, r0.location, i);
    assert(track_at(l3, r0.location) == track_at(l, r0.location));
    assert(track_at(l3, r0.location) =~= replaced_track(
        track_at(l3, r0.location),
        payload_of(r0, resolved_artist_id(l3, r0), resolved_album_id(l3, r0)),
    ));
}

/// Reconciling a settled record changes nothing.
pub proof fn lemma_reconcile_noop_when_settled(l: LibraryModel, r: ParsedTrackModel, now: int)
    requires
        wf(l),
        settled(l, r),
    ensures
        spec_reconcile(l, r, now) == l,
{
    let (l1, aid) = artist_step(l, r, now);
    assert(l1 == l);
    let (l2, bid) = album_step(l1, aid, r, now);
    assert(l2 == l);
    assert(aid == resolved_artist_id(l, r));
    assert(bid == resolved_album_id(l, r));
    let nt = payload_of(r, aid, bid);
    let i = track_loc_index(l, r.location);
    assert(0 <= i < l.tracks.len() && l.tracks[i].location == r.location);
    assert(l.tracks[i] == track_at(l, r.location));
    assert(replaced_track(l.tracks[i], nt) == l.tracks[i]);
    assert(spec_upsert_track(l, nt, now).tracks =~= l.tracks.update(i, l.tracks[i]));
    assert(l.tracks.update(i, l.tracks[i]) =~= l.tracks);
    assert(spec_reconcile(l, r, now) =~= l);
}

// ---------------------------------------------------------------------------
// Laws of a whole scan
// ---------------------------------------------------------------------------

/// The locations of a record sequence are pairwise distinct (a scan yields
/// one record per file).
pub open spec fn distinct_locations(rs: Seq<ParsedTrackModel>) -> bool {
    forall|i: int, j: int| 0 <= i < j < rs.len() ==> rs[i].location != rs[j].location
}

pub open spec fn all_nonnegative_durations(rs: Seq<ParsedTrackModel>) -> bool {
    forall|i: int| 0 <= i < rs.len() ==> (#[trigger] rs[i]).duration_ms >= 0
}

/// After a scan with pairwise-distinct locations, the store is well
/// formed, every scanned record is settled, and records settled before the
/// scan at untouched locations stay settled.
pub proof fn lemma_sync_settles_all(l: LibraryModel, rs: Seq<ParsedTrackModel>, now: int)
    requires
        wf(l),
        distinct_locations(rs),
        all_nonnegative_durations(rs),
    ensures
        wf(spec_sync(l, rs, now)),
        forall|i: int| 0 <= i < rs.len() ==> settled(spec_sync(l, rs, now), #[trigger] rs[i]),
        forall|r0: ParsedTrackModel|
            settled(l, r0) && (forall|i: int|
                0 <= i < rs.len() ==> (#[trigger] rs[i]).location != r0.location) ==> settled(
                spec_sync(l, rs, now),
                r0,
            ),
    decreases rs.len(),
{
    if rs.len() == 0 {
    } else {
        let r = rs[0];
        let l1 = spec_reconcile(l, r, now);
        let tail = rs.drop_first();
        lemma_reconcile_wf(l, r, now);
        lemma_reconcile_settles(l, r, now);
        lemma_sync_settles_all(l1, tail, now);
        assert(spec_sync(l, rs, now) == spec_sync(l1, tail, now));
        // rs[0] stays settled through the tail
        assert forall|i: int| 0 <= i < rs.len() implies settled(
            spec_sync(l, rs, now),
            #[trigger] rs[i],
        ) by {
            if i == 0 {
                assert(forall|j: int|
                    0 <= j < tail.len() ==> (#[trigger] tail[j]).location != r.location);
                assert(settled(l1, r));
                assert(settled(spec_sync(l1, tail, now), r));
            } else {
                assert(tail[i - 1] == rs[i]);
                assert(settled(spec_sync(l1, tail, now), tail[i - 1]));
            }
        }
        // records settled before, at untouched locations, stay settled
        assert forall|r0: ParsedTrackModel|
            settled(l, r0) && (forall|i: int|
                0 <= i < rs.len() ==> (#[trigger] rs[i]).location != r0.location) implies settled(
            spec_sync(l, rs, now),
            r0,
        ) by {
            assert(rs[0].location != r0.location);
            lemma_reconcile_preserves_settled(l, r, r0, now);
            assert(forall|i: int|
                0 <= i < tail.len() ==> (#[trigger] tail[i]).location != r0.location) by {
                assert(forall|i: int| 0 <= i < tail.len() ==> tail[i] == rs[i + 1]);
            }
            assert(settled(spec_sync(l1, tail, now), r0));
        }
    }
}

/// A scan over a store in which every record is already settled changes
/// nothing.
pub proof fn lemma_sync_noop_when_all_settled(l: LibraryModel, rs: Seq<ParsedTrackModel>, now: int)
    requires
        wf(l),
        forall|i: int| 0 <= i < rs.len() ==> settled(l, #[trigger] rs[i]),
    ensures
        spec_sync(l, rs, now) == l,
    decreases rs.len(),
{
    if rs.len() == 0 {
    } else {
        lemma_reconcile_noop_when_settled(l, rs[0], now);
        assert(forall|i: int|
            0 <= i < rs.drop_first().len() ==> rs.drop_first()[i] == rs[i + 1]);
        lemma_sync_noop_when_all_settled(l, rs.drop_first(), now);
    }
}

/// Idempotence: scanning the same records twice (at any two times) leaves
/// exactly the store of the first scan — no duplicated artist, album or
/// track rows.
pub proof fn lemma_sync_idempotent(
    l: LibraryModel,
    rs: Seq<ParsedTrackModel>,
    now1: int,
    now2: int,
)
    requires
        wf(l),
        distinct_locations(rs),
        all_nonnegative_durations(rs),
    ensures
        spec_sync(spec_sync(l, rs, now1), rs, now2) == spec_sync(l, rs, now1),
{
    lemma_sync_settles_all(l, rs, now1);
    lemma_sync_noop_when_all_settled(spec_sync(l, rs, now1), rs, now2);
}

/// Dedup: two records naming the same artist resolve to one shared artist
/// row — at most one artist row is added, and both track rows reference
/// the id of the row carrying that name.
pub proof fn lemma_artist_dedup(
    l: LibraryModel,
    r1: ParsedTrackModel,
    r2: ParsedTrackModel,
    nm: Seq<char>,
    now1: int,
    now2: int,
)
    requires
        wf(l),
        r1.artist == Some(nm),
        r2.artist == Some(nm),
        r1.location != r2.location,
        r1.duration_ms >= 0,
        r2.duration_ms >= 0,
    ensures
        ({
            let l2 = spec_reconcile(spec_reconcile(l, r1, now1), r2, now2);
            &&& l2.artists.len() <= l.artists.len() + 1
            &&& track_at(l2, r1.location).artist_id == Some(artist_named(l2, nm).id)
            &&& track_at(l2, r2.location).artist_id == Some(artist_named(l2, nm).id)
        }),
{
    let l1 = spec_reconcile(l, r1, now1);
    let l2 = spec_reconcile(l1, r2, now2);
    lemma_reconcile_wf(l, r1, now1);
    lemma_reconcile_settles(l, r1, now1);
    lemma_reconcile_preserves_settled(l1, r2, r1, now2);
    lemma_reconcile_settles(l1, r2, now2);
    lemma_reconcile_grows(l, r1, now1);
    lemma_reconcile_grows(l1, r2, now2);
    // the second reconcile finds the name and creates no artist
    assert(has_artist_named(l1, nm));
    assert(l2.artists.len() == l1.artists.len());
    assert(settled(l2, r1));
    assert(settled(l2, r2));
}

/// Upsert by location: re-scanning a known location replaces the row's
/// fields in place — the table does not grow, the row keeps its identity
/// and creation time, and the location still names exactly one row.
pub proof fn lemma_upsert_in_place(l: LibraryModel, r: ParsedTrackModel, now: int)
    requires
        wf(l),
        r.duration_ms >= 0,
        has_track_at(l, r.location),
    ensures
        ({
            let l1 = spec_reconcile(l, r, now);
            &&& l1.tracks.len() == l.tracks.len()
            &&& has_track_at(l1, r.location)
            &&& track_at(l1, r.location).id == track_at(l, r.location).id
            &&& track_at(l1, r.location).created_at == track_at(l, r.location).created_at
            &&& track_at(l1, r.location).title == r.title
            &&& track_at(l1, r.location).number == r.number
            &&& track_at(l1, r.location).disc == r.disc
            &&& track_at(l1, r.location).duration_ms == r.duration_ms
            &&& track_at(l1, r.location).picture_id == r.picture_id
            &&& track_at(l1, r.location).mount_point == r.mount_point
            &&& forall|i: int, j: int|
                0 <= i < j < l1.tracks.len() ==> l1.tracks[i].location != l1.tracks[j].location
        }),
{
    let (la, aid) = artist_step(l, r, now);
    let (lb, bid) = album_step(la, aid, r, now);
    let nt = payload_of(r, aid, bid);
    let l1 = spec_reconcile(l, r, now);
    lemma_reconcile_wf(l, r, now);
    if r.artist is Some {
        lemma_resolve_artist_wf(l, r.artist->0, now);
    }
    if r.album is Some {
        lemma_resolve_album_wf(la, r.album->0, aid, now);
    }
    assert(wf(lb));
    let i = track_loc_index(l, r.location);
    assert(0 <= i < l.tracks.len() && l.tracks[i].location == r.location);
    assert(lb.tracks == l.tracks);
    lemma_track_at_is(lb, r.location, i);
    assert(has_track_at(lb, nt.location));
    assert(l1.tracks =~= lb.tracks.update(i, replaced_track(lb.tracks[i], nt)));
    lemma_track_at_is(l1, r.location, i);
    lemma_track_at_is(l, r.location, i);
    assert(track_at(l1, r.location) == replaced_track(l.tracks[i], nt));
}

} // verus!

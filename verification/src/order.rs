//! Deterministic total orders over tracks.
//!
//! Every browsing order is expressed as a sort key: an optional leading
//! number, an optional text component (an absent text sorts first, like a
//! database `NULL` in ascending order), four numeric tie-breaks, and the
//! track id as the final tie-break, which makes each order total.

use vstd::prelude::*;

use crate::library::{LibraryModel, album_with_id, artist_with_id, has_album_id, has_artist_id,
    has_track_id, lemma_track_with_id_is, spec_hydrate_one, track_with_id, wf, Library};
use crate::model::{Track, TrackDTO, TrackModel};
use crate::text::{chars_eq, chars_lt, chars_of, lemma_str_lt_asymm, lemma_str_lt_connected,
    lemma_str_lt_trans, str_lt};

verus! {

/// Ghost form of a sort key.
#[verifier::ext_equal]
pub ghost struct KeyModel {
    pub num: int,
    pub text: Option<Seq<char>>,
    pub a: int,
    pub b: int,
    pub c: int,
    pub d: int,
    pub id: int,
}

/// An executable sort key.
pub struct SortKey {
    pub num: i64,
    pub text: Option<Vec<char>>,
    pub a: i64,
    pub b: i64,
    pub c: i64,
    pub d: i64,
    pub id: i32,
}

impl View for SortKey {
    type V = KeyModel;

    open spec fn view(&self) -> KeyModel {
        KeyModel {
            num: self.num as int,
            text: match self.text {
                Some(ref v) => Some(v@),
                None => None,
            },
            a: self.a as int,
            b: self.b as int,
            c: self.c as int,
            d: self.d as int,
            id: self.id as int,
        }
    }
}

/// Order on optional text: absent text sorts before any present text.
pub open spec fn opt_text_lt(x: Option<Seq<char>>, y: Option<Seq<char>>) -> bool {
    match (x, y) {
        (None, Some(_)) => true,
        (Some(a), Some(b)) => str_lt(a, b),
        _ => false,
    }
}

/// Strict lexicographic order on sort keys: number, then text, then the
/// four numeric tie-breaks, then the id.
pub open spec fn key_lt(x: KeyModel, y: KeyModel) -> bool {
    x.num < y.num || (x.num == y.num && (opt_text_lt(x.text, y.text) || (x.text == y.text && (
    x.a < y.a || (x.a == y.a && (x.b < y.b || (x.b == y.b && (x.c < y.c || (x.c == y.c && (x.d
        < y.d || (x.d == y.d && x.id < y.id)))))))))))
}

/// Non-strict order: `y` is not strictly below `x`.
pub open spec fn key_le(x: KeyModel, y: KeyModel) -> bool {
    !key_lt(y, x)
}

/// A key sequence in nondecreasing order.
pub open spec fn sorted_keys(s: Seq<KeyModel>) -> bool {
    forall|i: int, j: int| 0 <= i < j < s.len() ==> key_le(#[trigger] s[i], #[trigger] s[j])
}

/// The key order is a strict total order: connected, asymmetric (hence
/// irreflexive) and transitive. Together with the id tie-break this makes
/// every browsing order deterministic.
pub proof fn lemma_key_order_total(x: KeyModel, y: KeyModel, z: KeyModel)
    ensures
        x != y ==> key_lt(x, y) || key_lt(y, x),
        !(key_lt(x, y) && key_lt(y, x)),
        key_lt(x, y) && key_lt(y, z) ==> key_lt(x, z),
{
    match (x.text, y.text) {
        (Some(a), Some(b)) => {
            lemma_str_lt_connected(a, b);
            lemma_str_lt_asymm(a, b);
        },
        _ => {},
    }
    if x != y && !key_lt(x, y) && !key_lt(y, x) {
        assert(x =~= y);
    }
    if key_lt(x, y) && key_lt(y, z) {
        match (x.text, y.text, z.text) {
            (Some(a), Some(b), Some(c)) => {
                if str_lt(a, b) && str_lt(b, c) {
                    lemma_str_lt_trans(a, b, c);
                }
                lemma_str_lt_asymm(a, b);
                lemma_str_lt_asymm(b, c);
            },
            _ => {},
        }
    }
}

/// The non-strict key order is total and transitive.
pub proof fn lemma_key_le_total(x: KeyModel, y: KeyModel, z: KeyModel)
    ensures
        key_le(x, y) || key_le(y, x),
        key_le(x, y) && key_le(y, z) ==> key_le(x, z),
{
    lemma_key_order_total(x, y, z);
    lemma_key_order_total(y, z, x);
    lemma_key_order_total(z, x, y);
    if key_le(x, y) && key_le(y, z) && !key_le(x, z) {
        assert(key_lt(z, x));
        if z == y {
        } else if x == y {
        } else {
            assert(key_lt(y, x) || key_lt(x, y));
        }
    }
}

fn opt_chars_lt(x: &Option<Vec<char>>, y: &Option<Vec<char>>) -> (r: bool)
    ensures
        r == opt_text_lt(
            match x {
                Some(v) => Some(v@),
                None => None,
            },
            match y {
                Some(v) => Some(v@),
                None => None,
            },
        ),
{
    match (x, y) {
        (None, Some(_)) => true,
        (Some(a), Some(b)) => chars_lt(a, b),
        _ => false,
    }
}

fn opt_chars_eq(x: &Option<Vec<char>>, y: &Option<Vec<char>>) -> (r: bool)
    ensures
        r == (match x {
            Some(v) => Some(v@),
            None => None::<Seq<char>>,
        } == match y {
            Some(v) => Some(v@),
            None => None::<Seq<char>>,
        }),
{
    match (x, y) {
        (None, None) => true,
        (Some(a), Some(b)) => chars_eq(a, b),
        _ => false,
    }
}

/// Executable strict comparison of two sort keys.
pub fn key_lt_exec(x: &SortKey, y: &SortKey) -> (r: bool)
    ensures
        r == key_lt(x@, y@),
{
    if x.num != y.num {
        return x.num < y.num;
    }
    if opt_chars_lt(&x.text, &y.text) {
        return true;
    }
    if !opt_chars_eq(&x.text, &y.text) {
        return false;
    }
    if x.a != y.a {
        return x.a < y.a;
    }
    if x.b != y.b {
        return x.b < y.b;
    }
    if x.c != y.c {
        return x.c < y.c;
    }
    if x.d != y.d {
        return x.d < y.d;
    }
    x.id < y.id
}

/// Sort a vector of keys: the result is in nondecreasing key order and
/// holds exactly the keys that went in.
pub fn sort_keys(v: &mut Vec<SortKey>)
    ensures
        final(v)@.len() == old(v)@.len(),
        final(v)@.map_values(|k: SortKey| k@).to_multiset() == old(v)@.map_values(
            |k: SortKey| k@,
        ).to_multiset(),
        sorted_keys(final(v)@.map_values(|k: SortKey| k@)),
{
    let ghost m0 = old(v)@.map_values(|k: SortKey| k@).to_multiset();
    let n = v.len();
    if n <= 1 {
        return ;
    }
    for i in 1..n
        invariant
            n == v.len(),
            v@.map_values(|k: SortKey| k@).to_multiset() == m0,
            sorted_keys(v@.map_values(|k: SortKey| k@).take(i as int)),
    {
        broadcast use vstd::seq_lib::group_to_multiset_ensures;

        let ghost s0 = v@.map_values(|k: SortKey| k@);
        let mut p: usize = i;
        while p > 0 && key_lt_exec(&v[i], &v[p - 1])
            invariant
                n == v.len(),
                p <= i < n,
                s0 == v@.map_values(|k: SortKey| k@),
                forall|j: int| p <= j < i ==> key_lt(s0[i as int], #[trigger] s0[j]),
            decreases p,
        {
            p = p - 1;
        }
        let x = v.remove(i);
        v.insert(p, x);
        proof {
            let s1 = v@.map_values(|k: SortKey| k@);
            let xk = x@;
            assert(s1 =~= s0.remove(i as int).insert(p as int, xk));
            assert(s0.remove(i as int).to_multiset() == s0.to_multiset().remove(xk));
            assert(s1.to_multiset() == s0.remove(i as int).to_multiset().insert(xk));
            assert(s0.to_multiset().contains(xk)) by {
                assert(s0[i as int] == xk);
                assert(s0.contains(xk));
            }
            assert(s1.to_multiset() =~= s0.to_multiset());
            // sortedness of the prefix of length i + 1
            assert forall|a: int, b: int| 0 <= a < b < i + 1 implies key_le(
                #[trigger] s1.take(i as int + 1)[a],
                #[trigger] s1.take(i as int + 1)[b],
            ) by {
                let t1 = s1.take(i as int + 1);
                assert(t1[a] == s1[a] && t1[b] == s1[b]);
                let pi = p as int;
                // relate positions of s1 to s0
                assert(forall|j: int| 0 <= j < pi ==> s1[j] == s0[j]);
                assert(s1[pi] == xk);
                assert(forall|j: int| pi < j <= i ==> s1[j] == s0[j - 1]);
                if p > 0 {
                    assert(!key_lt(xk, s0[pi - 1]));
                }
                assert(forall|j: int| pi <= j < i ==> key_lt(xk, #[trigger] s0[j]));
                assert(forall|u: int, w: int| 0 <= u < w < i ==> key_le(
                    #[trigger] s0.take(i as int)[u],
                    #[trigger] s0.take(i as int)[w],
                ));
                assert(forall|u: int, w: int| 0 <= u < w < i ==> key_le(#[trigger] s0[u], #[trigger] s0[w]))
                    by {
                    assert(forall|u: int| 0 <= u < i ==> s0.take(i as int)[u] == #[trigger] s0[u]);
                }
                if a < pi && b < pi {
                    assert(key_le(s1[a], s1[b]));
                } else if a < pi && b == pi {
                    // s1[b] is xk; s0[a] <= s0[p-1] <= xk
                    lemma_key_le_total(s0[a], s0[pi - 1], xk);
                    lemma_key_order_total(xk, s0[pi - 1], s0[a]);
                } else if a < pi && b > pi {
                    assert(key_le(s0[a], s0[b - 1]));
                } else if a == pi {
                    // xk < s0[j] for all j in [p, i)
                    assert(key_lt(xk, s0[b - 1]));
                    lemma_key_order_total(s0[b - 1], xk, xk);
                } else {
                    assert(key_le(s0[a - 1], s0[b - 1]));
                }
            }
            assert(sorted_keys(s1.take(i as int + 1)));
        }
    }
    proof {
        if n == 0 {
        } else {
            let s = v@.map_values(|k: SortKey| k@);
            assert(s.take(n as int) =~= s);
        }
        assert(sorted_keys(v@.map_values(|k: SortKey| k@)));
    }
}

// ---------------------------------------------------------------------------
// The four browsing orders
// ---------------------------------------------------------------------------

/// Numeric encoding of an optional number: an absent number sorts before
/// every present one.
pub open spec fn opt_num(o: Option<int>) -> int {
    match o {
        Some(v) => v,
        None => i64::MIN as int,
    }
}

/// The artist name a track row joins to, if its reference resolves (the
/// left-join view: no reference or a dangling one yields no name).
pub open spec fn joined_artist_name(l: LibraryModel, t: TrackModel) -> Option<Seq<char>> {
    match t.artist_id {
        Some(a) => if has_artist_id(l, a) {
            Some(artist_with_id(l, a).name)
        } else {
            None
        },
        None => None,
    }
}

/// The album name a track row joins to, if its reference resolves.
pub open spec fn joined_album_name(l: LibraryModel, t: TrackModel) -> Option<Seq<char>> {
    match t.album_id {
        Some(a) => if has_album_id(l, a) {
            Some(album_with_id(l, a).name)
        } else {
            None
        },
        None => None,
    }
}

/// Order by title, then album id, artist id, disc, track number, id.
pub open spec fn title_key(l: LibraryModel, t: TrackModel) -> KeyModel {
    KeyModel {
        num: 0,
        text: t.title,
        a: opt_num(t.album_id),
        b: opt_num(t.artist_id),
        c: opt_num(t.disc),
        d: opt_num(t.number),
        id: t.id,
    }
}

/// Order by joined artist name (absent grouped first), then album id,
/// disc, track number, id.
pub open spec fn artist_key(l: LibraryModel, t: TrackModel) -> KeyModel {
    KeyModel {
        num: 0,
        text: joined_artist_name(l, t),
        a: opt_num(t.album_id),
        b: opt_num(t.disc),
        c: opt_num(t.number),
        d: 0,
        id: t.id,
    }
}

/// Order by joined album name, then disc, track number, id.
pub open spec fn album_key(l: LibraryModel, t: TrackModel) -> KeyModel {
    KeyModel {
        num: 0,
        text: joined_album_name(l, t),
        a: opt_num(t.disc),
        b: opt_num(t.number),
        c: 0,
        d: 0,
        id: t.id,
    }
}

/// Order by duration ascending, then title, then id.
pub open spec fn duration_key(l: LibraryModel, t: TrackModel) -> KeyModel {
    KeyModel {
        num: t.duration_ms,
        text: t.title,
        a: 0,
        b: 0,
        c: 0,
        d: 0,
        id: t.id,
    }
}

/// Order of tracks within one album: track number, then disc, then id.
pub open spec fn album_position_key(l: LibraryModel, t: TrackModel) -> KeyModel {
    KeyModel {
        num: 0,
        text: None,
        a: opt_num(t.number),
        b: opt_num(t.disc),
        c: 0,
        d: 0,
        id: t.id,
    }
}

/// `ids` enumerates every track of the store exactly once, in
/// nondecreasing order of the given key.
pub open spec fn sorted_ids_by(
    l: LibraryModel,
    ids: Seq<int>,
    kf: spec_fn(LibraryModel, TrackModel) -> KeyModel,
) -> bool {
    &&& ids.len() == l.tracks.len()
    &&& forall|i: int| 0 <= i < ids.len() ==> has_track_id(l, #[trigger] ids[i])
    &&& forall|i: int, j: int| 0 <= i < j < ids.len() ==> ids[i] != ids[j]
    &&& forall|i: int| 0 <= i < l.tracks.len() ==> ids.contains((#[trigger] l.tracks[i]).id)
    &&& forall|i: int, j: int|
        0 <= i < j < ids.len() ==> key_le(
            kf(l, track_with_id(l, #[trigger] ids[i])),
            kf(l, track_with_id(l, #[trigger] ids[j])),
        )
}

proof fn lemma_sorted_ids_unique_prefix(
    l: LibraryModel,
    ids1: Seq<int>,
    ids2: Seq<int>,
    kf: spec_fn(LibraryModel, TrackModel) -> KeyModel,
    i: int,
)
    requires
        wf(l),
        sorted_ids_by(l, ids1, kf),
        sorted_ids_by(l, ids2, kf),
        forall|t: TrackModel| (#[trigger] kf(l, t)).id == t.id,
        0 <= i <= ids1.len(),
    ensures
        forall|j: int| 0 <= j < i ==> ids1[j] == ids2[j],
    decreases i,
{
    if i > 0 {
        lemma_sorted_ids_unique_prefix(l, ids1, ids2, kf, i - 1);
        let p = i - 1;
        let x = ids1[p];
        let y = ids2[p];
        if x != y {
            // x names a track, so it occurs in ids2 as well, at some px
            let jx = choose|j: int| 0 <= j < l.tracks.len() && l.tracks[j].id == x;
            assert(ids2.contains(l.tracks[jx].id));
            let px = choose|w: int| 0 <= w < ids2.len() && ids2[w] == x;
            let jy = choose|j: int| 0 <= j < l.tracks.len() && l.tracks[j].id == y;
            assert(ids1.contains(l.tracks[jy].id));
            let py = choose|w: int| 0 <= w < ids1.len() && ids1[w] == y;
            // neither occurrence can sit in the equal prefix or at p itself
            if px < p {
                assert(ids1[px] == x);
            }
            assert(px > p);
            if py < p {
                assert(ids2[py] == y);
            }
            assert(py > p);
            // so each sequence puts the other's element no earlier, and the
            // keys compare both ways
            let kx = kf(l, track_with_id(l, x));
            let ky = kf(l, track_with_id(l, y));
            assert(key_le(ky, kx)) by {
                assert(key_le(
                    kf(l, track_with_id(l, ids2[p])),
                    kf(l, track_with_id(l, ids2[px])),
                ));
            }
            assert(key_le(kx, ky)) by {
                assert(key_le(
                    kf(l, track_with_id(l, ids1[p])),
                    kf(l, track_with_id(l, ids1[py])),
                ));
            }
            lemma_key_order_total(kx, ky, ky);
            assert(kx == ky);
            // but a key names its track's id, so the ids agree after all
            assert(track_with_id(l, x).id == x) by {
                let w = choose|w: int| 0 <= w < l.tracks.len() && l.tracks[w].id == x;
                assert(l.tracks[w].id == x);
            }
            assert(track_with_id(l, y).id == y) by {
                let w = choose|w: int| 0 <= w < l.tracks.len() && l.tracks[w].id == y;
                assert(l.tracks[w].id == y);
            }
            assert(kx.id == x && ky.id == y);
            assert(false);
        }
    }
}

/// The browsing orders are reproducible: for one store and one key, there
/// is exactly one id sequence that sorts it — any two outputs meeting the
/// sort contract are equal.
pub proof fn lemma_sorted_ids_unique(
    l: LibraryModel,
    ids1: Seq<int>,
    ids2: Seq<int>,
    kf: spec_fn(LibraryModel, TrackModel) -> KeyModel,
)
    requires
        wf(l),
        sorted_ids_by(l, ids1, kf),
        sorted_ids_by(l, ids2, kf),
        forall|t: TrackModel| (#[trigger] kf(l, t)).id == t.id,
    ensures
        ids1 == ids2,
{
    lemma_sorted_ids_unique_prefix(l, ids1, ids2, kf, ids1.len() as int);
    assert(ids1 =~= ids2);
}

/// From the keys of a family of rows (given by their indices) and any key
/// sequence that sorts them, the ids drawn from the sorted keys enumerate
/// exactly those rows, each once, in key order.
proof fn lemma_ids_from_sorted_keys(
    l: LibraryModel,
    idxs: Seq<int>,
    built: Seq<KeyModel>,
    sorted: Seq<KeyModel>,
    kf: spec_fn(LibraryModel, TrackModel) -> KeyModel,
)
    requires
        wf(l),
        built.len() == idxs.len(),
        forall|j: int| 0 <= j < idxs.len() ==> 0 <= #[trigger] idxs[j] < l.tracks.len(),
        forall|a: int, b: int| 0 <= a < b < idxs.len() ==> idxs[a] != idxs[b],
        forall|j: int| 0 <= j < built.len() ==> #[trigger] built[j] == kf(l, l.tracks[idxs[j]]),
        forall|j: int| 0 <= j < built.len() ==> (#[trigger] built[j]).id == l.tracks[idxs[j]].id,
        sorted.len() == built.len(),
        sorted.to_multiset() == built.to_multiset(),
        sorted_keys(sorted),
    ensures
        ({
            let ids = sorted.map_values(|k: KeyModel| k.id);
            &&& forall|i: int|
                0 <= i < ids.len() ==> has_track_id(l, #[trigger] ids[i]) && kf(
                    l,
                    track_with_id(l, ids[i]),
                ) == sorted[i]
            &&& forall|i: int|
                0 <= i < ids.len() ==> exists|j: int|
                    0 <= j < idxs.len() && track_with_id(l, #[trigger] ids[i]) == l.tracks[idxs[j]]
            &&& forall|i: int, j: int| 0 <= i < j < ids.len() ==> ids[i] != ids[j]
            &&& forall|j: int|
                0 <= j < idxs.len() ==> ids.contains(l.tracks[#[trigger] idxs[j]].id)
            &&& forall|i: int, j: int|
                0 <= i < j < ids.len() ==> key_le(
                    kf(l, track_with_id(l, #[trigger] ids[i])),
                    kf(l, track_with_id(l, #[trigger] ids[j])),
                )
        }),
{
    broadcast use vstd::seq_lib::group_to_multiset_ensures;

    let ids = sorted.map_values(|k: KeyModel| k.id);
    assert forall|i: int| 0 <= i < ids.len() implies has_track_id(l, #[trigger] ids[i])
        && kf(l, track_with_id(l, ids[i])) == sorted[i] && exists|j: int|
        0 <= j < idxs.len() && track_with_id(l, ids[i]) == l.tracks[idxs[j]] by {
        assert(sorted.contains(sorted[i]));
        assert(sorted.to_multiset().contains(sorted[i]));
        assert(built.to_multiset().contains(sorted[i]));
        assert(built.contains(sorted[i]));
        let j = choose|j: int| 0 <= j < built.len() && built[j] == sorted[i];
        assert(built[j] == kf(l, l.tracks[idxs[j]]));
        assert(l.tracks[idxs[j]].id == sorted[i].id);
        lemma_track_with_id_is(l, sorted[i].id, idxs[j]);
        assert(track_with_id(l, ids[i]) == l.tracks[idxs[j]]);
    }
    // keys are pairwise distinct, because row ids are
    assert(built.no_duplicates()) by {
        assert forall|a: int, b: int|
            0 <= a < built.len() && 0 <= b < built.len() && a != b implies built[a] != built[b] by {
            assert(l.tracks[idxs[a]].id != l.tracks[idxs[b]].id);
        }
    }
    built.lemma_multiset_has_no_duplicates();
    sorted.lemma_multiset_has_no_duplicates_conv();
    assert forall|i: int, j: int| 0 <= i < j < ids.len() implies ids[i] != ids[j] by {
        assert(sorted[i] != sorted[j]);
        assert(sorted.contains(sorted[i]));
        assert(sorted.contains(sorted[j]));
        assert(built.to_multiset().contains(sorted[i]));
        assert(built.to_multiset().contains(sorted[j]));
        assert(built.contains(sorted[i]));
        assert(built.contains(sorted[j]));
        let ji = choose|w: int| 0 <= w < built.len() && built[w] == sorted[i];
        let jj = choose|w: int| 0 <= w < built.len() && built[w] == sorted[j];
        if ids[i] == ids[j] {
            assert(l.tracks[idxs[ji]].id == l.tracks[idxs[jj]].id);
            if ji != jj {
                assert(idxs[ji] != idxs[jj]);
                assert(l.tracks[idxs[ji]].id != l.tracks[idxs[jj]].id);
            }
            assert(sorted[i] == sorted[j]);
        }
    }
    // completeness: each selected row's id appears
    assert forall|j: int| 0 <= j < idxs.len() implies ids.contains(
        l.tracks[#[trigger] idxs[j]].id,
    ) by {
        assert(built[j] == kf(l, l.tracks[idxs[j]]));
        assert(built.contains(built[j]));
        assert(built.to_multiset().contains(built[j]));
        assert(sorted.to_multiset().contains(built[j]));
        assert(sorted.contains(built[j]));
        let w = choose|w: int| 0 <= w < sorted.len() && sorted[w] == built[j];
        assert(ids[w] == l.tracks[idxs[j]].id);
    }
    // order transfers through the id lookup
    assert forall|i: int, j: int| 0 <= i < j < ids.len() implies key_le(
        kf(l, track_with_id(l, #[trigger] ids[i])),
        kf(l, track_with_id(l, #[trigger] ids[j])),
    ) by {
        assert(key_le(sorted[i], sorted[j]));
    }
}

impl Library {
    /// Extract the ids of already-sorted keys.
    fn extract_ids(keys: &Vec<SortKey>) -> (r: Vec<i32>)
        ensures
            r@.map_values(|x: i32| x as int) =~= keys@.map_values(|k: SortKey| k@).map_values(
                |k: KeyModel| k.id,
            ),
    {
        let mut out: Vec<i32> = Vec::new();
        let n = keys.len();
        for k in 0..n
            invariant
                n == keys.len(),
                out@.len() == k,
                forall|i: int| 0 <= i < k ==> out@[i] as int == keys@[i]@.id,
        {
            out.push(keys[k].id);
        }
        out
    }

    /// Track ids in the documented title order: title (absent first), then
    /// album id, artist id, disc, track number, and finally the id itself.
    pub fn get_all_track_ids_sorted_by_title(&self) -> (r: Vec<i32>)
        requires
            self.wf(),
        ensures
            sorted_ids_by(
                self@,
                r@.map_values(|x: i32| x as int),
                |l: LibraryModel, t: TrackModel| title_key(l, t),
            ),
    {
        let ghost m = self@;
        let ghost kf = |l: LibraryModel, t: TrackModel| title_key(l, t);
        let mut keys: Vec<SortKey> = Vec::new();
        let n = self.tracks.len();
        for k in 0..n
            invariant
                n == self.tracks.len(),
                m == self@,
                self.wf(),
                keys@.len() == k,
                forall|i: int| 0 <= i < k ==> (#[trigger] keys@[i])@ == title_key(m, m.tracks[i]),
        {
            let t = &self.tracks[k];
            let key = SortKey {
                num: 0,
                text: match &t.title {
                    Some(s) => Some(chars_of(s.as_str())),
                    None => None,
                },
                a: opt_num_exec(t.album_id),
                b: opt_num_exec(t.artist_id),
                c: opt_num_exec(t.disc),
                d: opt_num_exec(t.number),
                id: t.id,
            };
            proof {
                assert(m.tracks[k as int] == self.tracks@[k as int]@);
                assert(key@ =~= title_key(m, m.tracks[k as int]));
            }
            keys.push(key);
        }
        self.finish_sort(keys, Ghost(kf))
    }

    /// Track ids in the documented artist order: joined artist name
    /// (absent grouped first), then album id, disc, track number, id.
    pub fn get_all_track_ids_sorted_by_artist(&self) -> (r: Vec<i32>)
        requires
            self.wf(),
        ensures
            sorted_ids_by(
                self@,
                r@.map_values(|x: i32| x as int),
                |l: LibraryModel, t: TrackModel| artist_key(l, t),
            ),
    {
        let ghost m = self@;
        let ghost kf = |l: LibraryModel, t: TrackModel| artist_key(l, t);
        let mut keys: Vec<SortKey> = Vec::new();
        let n = self.tracks.len();
        for k in 0..n
            invariant
                n == self.tracks.len(),
                m == self@,
                self.wf(),
                keys@.len() == k,
                forall|i: int| 0 <= i < k ==> (#[trigger] keys@[i])@ == artist_key(m, m.tracks[i]),
        {
            let t = &self.tracks[k];
            let joined = match t.artist_id {
                Some(aid) => self.find_artist_by_id(aid),
                None => None,
            };
            let key = SortKey {
                num: 0,
                text: match &joined {
                    Some(a) => Some(chars_of(a.name.as_str())),
                    None => None,
                },
                a: opt_num_exec(t.album_id),
                b: opt_num_exec(t.disc),
                c: opt_num_exec(t.number),
                d: 0,
                id: t.id,
            };
            proof {
                assert(m.tracks[k as int] == self.tracks@[k as int]@);
                assert(key@ =~= artist_key(m, m.tracks[k as int]));
            }
            keys.push(key);
        }
        self.finish_sort(keys, Ghost(kf))
    }

    /// Track ids in the documented album order: joined album name (absent
    /// grouped first), then disc, track number, id.
    pub fn get_all_track_ids_sorted_by_album(&self) -> (r: Vec<i32>)
        requires
            self.wf(),
        ensures
            sorted_ids_by(
                self@,
                r@.map_values(|x: i32| x as int),
                |l: LibraryModel, t: TrackModel| album_key(l, t),
            ),
    {
        let ghost m = self@;
        let ghost kf = |l: LibraryModel, t: TrackModel| album_key(l, t);
        let mut keys: Vec<SortKey> = Vec::new();
        let n = self.tracks.len();
        for k in 0..n
            invariant
                n == self.tracks.len(),
                m == self@,
                self.wf(),
                keys@.len() == k,
                forall|i: int| 0 <= i < k ==> (#[trigger] keys@[i])@ == album_key(m, m.tracks[i]),
        {
            let t = &self.tracks[k];
            let joined = match t.album_id {
                Some(aid) => self.find_album_by_id(aid),
                None => None,
            };
            let key = SortKey {
                num: 0,
                text: match &joined {
                    Some(a) => Some(chars_of(a.name.as_str())),
                    None => None,
                },
                a: opt_num_exec(t.disc),
                b: opt_num_exec(t.number),
                c: 0,
                d: 0,
                id: t.id,
            };
            proof {
                assert(m.tracks[k as int] == self.tracks@[k as int]@);
                assert(key@ =~= album_key(m, m.tracks[k as int]));
            }
            keys.push(key);
        }
        self.finish_sort(keys, Ghost(kf))
    }

    /// Track ids in the documented duration order: duration ascending,
    /// then title, then id.
    pub fn get_all_track_ids_sorted_by_duration(&self) -> (r: Vec<i32>)
        requires
            self.wf(),
        ensures
            sorted_ids_by(
                self@,
                r@.map_values(|x: i32| x as int),
                |l: LibraryModel, t: TrackModel| duration_key(l, t),
            ),
    {
        let ghost m = self@;
        let ghost kf = |l: LibraryModel, t: TrackModel| duration_key(l, t);
        let mut keys: Vec<SortKey> = Vec::new();
        let n = self.tracks.len();
        for k in 0..n
            invariant
                n == self.tracks.len(),
                m == self@,
                self.wf(),
                keys@.len() == k,
                forall|i: int| 0 <= i < k ==> (#[trigger] keys@[i])@ == duration_key(m, m.tracks[i]),
        {
            let t = &self.tracks[k];
            let key = SortKey {
                num: t.duration_ms as i64,
                text: match &t.title {
                    Some(s) => Some(chars_of(s.as_str())),
                    None => None,
                },
                a: 0,
                b: 0,
                c: 0,
                d: 0,
                id: t.id,
            };
            proof {
                assert(m.tracks[k as int] == self.tracks@[k as int]@);
                assert(key@ =~= duration_key(m, m.tracks[k as int]));
            }
            keys.push(key);
        }
        self.finish_sort(keys, Ghost(kf))
    }

    /// Sort the per-row keys and return their ids, with the shared
    /// correctness argument.
    fn finish_sort(
        &self,
        keys: Vec<SortKey>,
        Ghost(kf): Ghost<spec_fn(LibraryModel, TrackModel) -> KeyModel>,
    ) -> (r: Vec<i32>)
        requires
            self.wf(),
            keys@.len() == self@.tracks.len(),
            forall|i: int|
                0 <= i < keys@.len() ==> (#[trigger] keys@[i])@ == kf(self@, self@.tracks[i]),
            forall|i: int| 0 <= i < keys@.len() ==> (#[trigger] keys@[i])@.id == self@.tracks[i].id,
        ensures
            sorted_ids_by(self@, r@.map_values(|x: i32| x as int), kf),
    {
        let ghost m = self@;
        let ghost built = keys@.map_values(|k: SortKey| k@);
        let mut keys = keys;
        sort_keys(&mut keys);
        let ghost sorted = keys@.map_values(|k: SortKey| k@);
        let r = Self::extract_ids(&keys);
        proof {
            assert(sorted.len() == built.len()) by {
                broadcast use vstd::seq_lib::group_to_multiset_ensures;

                assert(sorted.to_multiset().len() == built.to_multiset().len());
            }
            let idxs = Seq::new(m.tracks.len(), |i: int| i);
            assert(forall|j: int| 0 <= j < built.len() ==> #[trigger] built[j] == kf(m, m.tracks[idxs[j]]));
            assert(forall|j: int|
                0 <= j < built.len() ==> (#[trigger] built[j]).id == m.tracks[idxs[j]].id);
            lemma_ids_from_sorted_keys(m, idxs, built, sorted, kf);
            let ids = sorted.map_values(|k: KeyModel| k.id);
            assert(r@.map_values(|x: i32| x as int) =~= ids);
            assert forall|i: int| 0 <= i < m.tracks.len() implies ids.contains(
                (#[trigger] m.tracks[i]).id,
            ) by {
                assert(idxs[i] == i);
                assert(ids.contains(m.tracks[idxs[i]].id));
            }
        }
        r
    }
}

impl Library {
    /// The hydrated tracks of one album, ordered by track number, then
    /// disc, then id (absent numbers first). A track with no album
    /// reference, or with another album's, is never returned.
    pub fn find_track_by_album(&self, album_id: i32) -> (r: Vec<TrackDTO>)
        requires
            self.wf(),
        ensures
            forall|i: int|
                0 <= i < r@.len() ==> has_track_id(self@, (#[trigger] r@[i])@.id)
                    && track_with_id(self@, r@[i]@.id).album_id == Some(album_id as int)
                    && r@[i]@ == spec_hydrate_one(self@, track_with_id(self@, r@[i]@.id)),
            forall|i: int, j: int| 0 <= i < j < r@.len() ==> (#[trigger] r@[i])@.id != (
            #[trigger] r@[j])@.id,
            forall|i: int|
                0 <= i < self@.tracks.len() && (#[trigger] self@.tracks[i]).album_id == Some(
                    album_id as int,
                ) ==> exists|w: int| 0 <= w < r@.len() && (#[trigger] r@[w])@.id == self@.tracks[i].id,
            forall|i: int, j: int|
                0 <= i < j < r@.len() ==> key_le(
                    album_position_key(self@, track_with_id(self@, (#[trigger] r@[i])@.id)),
                    album_position_key(self@, track_with_id(self@, (#[trigger] r@[j])@.id)),
                ),
    {
        let ghost m = self@;
        let ghost kf = |l: LibraryModel, t: TrackModel| album_position_key(l, t);
        let mut keys: Vec<SortKey> = Vec::new();
        let ghost mut idxs = Seq::<int>::empty();
        let n = self.tracks.len();
        for k in 0..n
            invariant
                n == self.tracks.len(),
                m == self@,
                self.wf(),
                keys@.len() == idxs.len(),
                forall|j: int| 0 <= j < idxs.len() ==> 0 <= #[trigger] idxs[j] < k,
                forall|a: int, b: int| 0 <= a < b < idxs.len() ==> idxs[a] < idxs[b],
                forall|j: int|
                    0 <= j < idxs.len() ==> (#[trigger] keys@[j])@ == album_position_key(
                        m,
                        m.tracks[idxs[j]],
                    ),
                forall|j: int|
                    0 <= j < idxs.len() ==> m.tracks[#[trigger] idxs[j]].album_id == Some(
                        album_id as int,
                    ),
                forall|t: int|
                    0 <= t < k && (#[trigger] m.tracks[t]).album_id == Some(album_id as int)
                        ==> idxs.contains(t),
        {
            let t = &self.tracks[k];
            let matches_album = match t.album_id {
                Some(a) => a == album_id,
                None => false,
            };
            assert(m.tracks[k as int] == self.tracks@[k as int]@);
            if matches_album {
                let key = SortKey {
                    num: 0,
                    text: None,
                    a: opt_num_exec(t.number),
                    b: opt_num_exec(t.disc),
                    c: 0,
                    d: 0,
                    id: t.id,
                };
                proof {
                    assert(key@ =~= album_position_key(m, m.tracks[k as int]));
                }
                keys.push(key);
                proof {
                    let idxs0 = idxs;
                    idxs = idxs.push(k as int);
                    assert forall|t: int|
                        0 <= t < k + 1 && (#[trigger] m.tracks[t]).album_id == Some(
                            album_id as int,
                        ) implies idxs.contains(t) by {
                        if t < k {
                            assert(idxs0.contains(t));
                            let w = choose|w: int| 0 <= w < idxs0.len() && idxs0[w] == t;
                            assert(idxs[w] == t);
                        } else {
                            assert(idxs[idxs.len() - 1] == t);
                        }
                    }
                }
            } else {
                proof {
                    assert forall|t: int|
                        0 <= t < k + 1 && (#[trigger] m.tracks[t]).album_id == Some(
                            album_id as int,
                        ) implies idxs.contains(t) by {}
                }
            }
        }
        let ghost built = keys@.map_values(|k: SortKey| k@);
        let mut keys = keys;
        sort_keys(&mut keys);
        let ghost sorted = keys@.map_values(|k: SortKey| k@);
        let ids = Self::extract_ids(&keys);
        proof {
            assert(sorted.len() == built.len()) by {
                broadcast use vstd::seq_lib::group_to_multiset_ensures;

                assert(sorted.to_multiset().len() == built.to_multiset().len());
            }
            lemma_ids_from_sorted_keys(m, idxs, built, sorted, kf);
            assert(ids@.map_values(|x: i32| x as int) =~= sorted.map_values(|k: KeyModel| k.id));
        }
        let ghost gids = sorted.map_values(|k: KeyModel| k.id);
        let mut rows: Vec<Track> = Vec::new();
        let cnt = ids.len();
        for w in 0..cnt
            invariant
                cnt == ids.len(),
                m == self@,
                self.wf(),
                gids == ids@.map_values(|x: i32| x as int),
                forall|i: int| 0 <= i < gids.len() ==> has_track_id(m, #[trigger] gids[i]),
                rows@.len() == w,
                forall|i: int|
                    0 <= i < w ==> (#[trigger] rows@[i])@ == track_with_id(m, gids[i]),
        {
            assert(has_track_id(m, gids[w as int]));
            let row = self.find_track_by_id(ids[w]);
            match row {
                Some(t) => {
                    rows.push(t);
                },
                None => {
                    proof {
                        assert(false);
                    }
                },
            }
        }
        let r = self.populate_tracks(&rows);
        proof {
            assert forall|i: int| 0 <= i < r@.len() implies (#[trigger] r@[i])@.id == gids[i]
                && has_track_id(m, r@[i]@.id) && track_with_id(m, r@[i]@.id).album_id == Some(
                album_id as int,
            ) && r@[i]@ == spec_hydrate_one(m, track_with_id(m, r@[i]@.id)) by {
                assert(r@[i]@ == spec_hydrate_one(m, rows@[i]@));
                assert(rows@[i]@ == track_with_id(m, gids[i]));
                let j = choose|j: int|
                    0 <= j < idxs.len() && track_with_id(m, gids[i]) == m.tracks[idxs[j]];
                assert(m.tracks[idxs[j]].album_id == Some(album_id as int));
            }
            assert forall|i: int|
                0 <= i < m.tracks.len() && (#[trigger] m.tracks[i]).album_id == Some(
                    album_id as int,
                ) implies exists|w: int|
                0 <= w < r@.len() && (#[trigger] r@[w])@.id == m.tracks[i].id by {
                assert(idxs.contains(i));
                let j = choose|j: int| 0 <= j < idxs.len() && idxs[j] == i;
                assert(gids.contains(m.tracks[idxs[j]].id));
                let w = choose|w: int| 0 <= w < gids.len() && gids[w] == m.tracks[idxs[j]].id;
                assert(r@[w]@.id == m.tracks[i].id);
            }
        }
        r
    }
}

/// Numeric encoding of an optional number, executable form.
fn opt_num_exec(o: Option<i32>) -> (r: i64)
    ensures
        r as int == opt_num(crate::model::opt_i32_view(o)),
{
    match o {
        Some(v) => v as i64,
        None => i64::MIN,
    }
}

} // verus!

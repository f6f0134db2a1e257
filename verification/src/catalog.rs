//! The catalog pipeline: drive-based filtering of discovered games,
//! re-admission of custom games, favorite marking, first-occurrence
//! deduplication by composite key, and a stable case-insensitive sort by
//! title.

use vstd::prelude::*;

use crate::model::{fav_set, keys_view, recs_view, seqs_view, state_wf, GameKey, GameRecord, KeyV,
    OverlayState, Platform, RecV, StateV};
use crate::text::{bytes_eq, fold_case, folded_le, is_prefix, lemma_lex_le_refl,
    lemma_lex_le_total, lemma_lex_le_trans, lex_le, norm_path, starts_with_bytes, to_norm_path};

verus! {

broadcast use vstd::seq_lib::group_seq_lib_default;

// ----- Drive filter -----

/// The install directory lies under one of the selected storage roots,
/// compared case-insensitively with separators canonicalized.
pub open spec fn drive_match(dir: Seq<u8>, drives: Seq<Seq<u8>>) -> bool {
    exists|i: int|
        0 <= i < drives.len() && is_prefix(norm_path(#[trigger] drives[i]), norm_path(dir))
}

/// A discovered game passes the drive filter: no drives are selected, or its
/// install location is unknown, or it lies under a selected root.
pub open spec fn retained(g: RecV, drives: Seq<Seq<u8>>) -> bool {
    drives.len() == 0 || g.install_dir.len() == 0 || drive_match(g.install_dir, drives)
}

/// The discovered games that pass the drive filter, in order.
pub open spec fn spec_drive_filter(s: Seq<RecV>, drives: Seq<Seq<u8>>) -> Seq<RecV> {
    s.filter(|g: RecV| retained(g, drives))
}

/// A game whose install location is unknown passes every drive filter.
pub proof fn lemma_unknown_location_retained(g: RecV, drives: Seq<Seq<u8>>)
    requires
        g.install_dir.len() == 0,
    ensures
        retained(g, drives),
{
}

/// A retained element of the scan appears in the filtered sequence.
pub proof fn lemma_retained_present(s: Seq<RecV>, drives: Seq<Seq<u8>>, i: int)
    requires
        0 <= i < s.len(),
        retained(s[i], drives),
    ensures
        spec_drive_filter(s, drives).contains(s[i]),
{
    s.lemma_filter_contains(|g: RecV| retained(g, drives), i);
}

/// Whether `g` passes the drive filter.
pub fn is_retained(g: &GameRecord, drives: &Vec<Vec<u8>>) -> (r: bool)
    ensures
        r == retained(g@, seqs_view(drives@)),
{
    if drives.len() == 0 {
        return true;
    }
    if g.install_dir.len() == 0 {
        return true;
    }
    let ndir = to_norm_path(g.install_dir.as_slice());
    let mut i: usize = 0;
    while i < drives.len()
        invariant
            i <= drives@.len(),
            ndir@ == norm_path(g.install_dir@),
            forall|k: int|
                0 <= k < i ==> !is_prefix(norm_path(#[trigger] seqs_view(drives@)[k]), norm_path(
                    g.install_dir@,
                )),
        decreases drives@.len() - i,
    {
        let nd = to_norm_path(drives[i].as_slice());
        if starts_with_bytes(ndir.as_slice(), nd.as_slice()) {
            proof {
                assert(is_prefix(norm_path(seqs_view(drives@)[i as int]), norm_path(
                    g.install_dir@,
                )));
            }
            return true;
        }
        i = i + 1;
    }
    proof {
        assert(!drive_match(g.install_dir@, seqs_view(drives@)));
    }
    false
}

/// Keeps the discovered games that pass the drive filter, in order.
pub fn drive_filter(games: Vec<GameRecord>, drives: &Vec<Vec<u8>>) -> (r: Vec<GameRecord>)
    ensures
        recs_view(r@) == spec_drive_filter(recs_view(games@), seqs_view(drives@)),
{
    let ghost rv = recs_view(games@);
    let ghost pred = |g: RecV| retained(g, seqs_view(drives@));
    let mut games = games;
    let mut out: Vec<GameRecord> = Vec::new();
    let mut i: usize = 0;
    let n = games.len();
    while i < n
        invariant
            i <= n,
            n == games@.len(),
            rv == recs_view(games@),
            pred == (|g: RecV| retained(g, seqs_view(drives@))),
            recs_view(out@) == rv.take(i as int).filter(pred),
        decreases n - i,
    {
        let keep = is_retained(&games[i], drives);
        proof {
            assert(rv.take(i + 1).drop_last() =~= rv.take(i as int));
            assert(rv.take(i + 1) =~= rv.take(i as int).push(rv[i as int]));
            rv.take(i as int).lemma_filter_push(rv[i as int], pred);
            assert(rv[i as int] == games@[i as int]@);
        }
        if keep {
            let g = clone_record(&games[i]);
            out.push(g);
            proof {
                assert(recs_view(out@) =~= rv.take(i + 1).filter(pred));
            }
        } else {
            proof {
                assert(recs_view(out@) =~= rv.take(i + 1).filter(pred));
            }
        }
        i = i + 1;
    }
    proof {
        assert(rv.take(n as int) =~= rv);
    }
    out
}

// ----- Cloning -----

/// A structural copy of a record, equal under the view.
pub fn clone_record(g: &GameRecord) -> (r: GameRecord)
    ensures
        r@ == g@,
{
    GameRecord {
        id: vstd::slice::slice_to_vec(g.id.as_slice()),
        title: vstd::slice::slice_to_vec(g.title.as_slice()),
        platform: g.platform,
        image_path: vstd::slice::slice_to_vec(g.image_path.as_slice()),
        exe_path: vstd::slice::slice_to_vec(g.exe_path.as_slice()),
        install_dir: vstd::slice::slice_to_vec(g.install_dir.as_slice()),
        is_favorite: g.is_favorite,
    }
}

// ----- Favorite marking -----

/// The record with its favorite flag set from the favorites set.
pub open spec fn mark(g: RecV, favs: Set<KeyV>) -> RecV {
    RecV { is_favorite: favs.contains(g.key()), ..g }
}

/// Every record marked against the favorites set.
pub open spec fn spec_mark_all(s: Seq<RecV>, favs: Set<KeyV>) -> Seq<RecV> {
    s.map_values(|g: RecV| mark(g, favs))
}

/// Whether the composite key `(platform, id)` is among the favorites.
pub fn key_in_favorites(favorites: &Vec<GameKey>, platform: Platform, id: &[u8]) -> (r: bool)
    ensures
        r == fav_set(keys_view(favorites@)).contains(KeyV { platform, id: id@ }),
{
    let ghost k = KeyV { platform, id: id@ };
    let mut i: usize = 0;
    while i < favorites.len()
        invariant
            i <= favorites@.len(),
            k == (KeyV { platform, id: id@ }),
            forall|j: int| 0 <= j < i ==> #[trigger] keys_view(favorites@)[j] != k,
        decreases favorites@.len() - i,
    {
        let same_platform = favorites[i].platform == platform;
        if same_platform && bytes_eq(favorites[i].id.as_slice(), id) {
            proof {
                assert(keys_view(favorites@)[i as int] == k);
                assert(keys_view(favorites@).contains(k));
            }
            return true;
        }
        i = i + 1;
    }
    proof {
        assert forall|j: int| 0 <= j < keys_view(favorites@).len() implies #[trigger] keys_view(
            favorites@,
        )[j] != k by {}
        assert(!keys_view(favorites@).contains(k));
    }
    false
}

/// Sets the favorite flag of every record from the favorites, afresh.
pub fn mark_favorites(games: Vec<GameRecord>, favorites: &Vec<GameKey>) -> (r: Vec<GameRecord>)
    ensures
        recs_view(r@) == spec_mark_all(recs_view(games@), fav_set(keys_view(favorites@))),
{
    let ghost rv = recs_view(games@);
    let ghost favs = fav_set(keys_view(favorites@));
    let mut games = games;
    let mut out: Vec<GameRecord> = Vec::new();
    let mut i: usize = 0;
    let n = games.len();
    while i < n
        invariant
            i <= n,
            n == games@.len(),
            rv == recs_view(games@),
            favs == fav_set(keys_view(favorites@)),
            recs_view(out@) == rv.take(i as int).map_values(|g: RecV| mark(g, favs)),
        decreases n - i,
    {
        let mut g = clone_record(&games[i]);
        let fav = key_in_favorites(favorites, g.platform, g.id.as_slice());
        g.is_favorite = fav;
        proof {
            assert(g@ == mark(rv[i as int], favs));
        }
        let ghost prev = out@;
        out.push(g);
        i = i + 1;
        proof {
            prev.lemma_push_map_commute(|g: GameRecord| g@, g);
            assert(rv.take(i as int) =~= rv.take(i - 1).push(rv[i - 1]));
            rv.take(i - 1).lemma_push_map_commute(|g: RecV| mark(g, favs), rv[i - 1]);
            assert(recs_view(out@) =~= rv.take(i as int).map_values(|g: RecV| mark(g, favs)));
        }
    }
    proof {
        assert(rv.take(n as int) =~= rv);
    }
    out
}

// ----- Deduplication -----

/// No earlier position shares the key of position `i`.
pub open spec fn first_occurrence(s: Seq<RecV>, i: int) -> bool {
    forall|j: int| 0 <= j < i ==> (#[trigger] s[j]).key() != s[i].key()
}

/// No two positions share a composite key.
pub open spec fn distinct_keys(s: Seq<RecV>) -> bool {
    forall|i: int, j: int|
        0 <= i < j < s.len() ==> (#[trigger] s[i]).key() != (#[trigger] s[j]).key()
}

/// Some position carries the key `k`.
pub open spec fn has_key(s: Seq<RecV>, k: KeyV) -> bool {
    exists|i: int| 0 <= i < s.len() && (#[trigger] s[i]).key() == k
}

/// First-occurrence-wins deduplication by composite key: position `i`
/// survives exactly when no earlier position shares its key.
pub open spec fn spec_dedup(s: Seq<RecV>) -> Seq<RecV>
    decreases s.len(),
{
    if s.len() == 0 {
        Seq::empty()
    } else if first_occurrence(s, s.len() - 1) {
        spec_dedup(s.drop_last()).push(s.last())
    } else {
        spec_dedup(s.drop_last())
    }
}

/// Deduplication keeps exactly the keys of the input.
pub proof fn lemma_dedup_keys(s: Seq<RecV>)
    ensures
        forall|k: KeyV| has_key(spec_dedup(s), k) <==> has_key(s, k),
    decreases s.len(),
{
    if s.len() > 0 {
        let front = s.drop_last();
        let d = spec_dedup(s);
        lemma_dedup_keys(front);
        assert forall|k: KeyV| has_key(s, k) implies has_key(d, k) by {
            let v = choose|v: int| 0 <= v < s.len() && (#[trigger] s[v]).key() == k;
            if v < s.len() - 1 {
                assert(front[v].key() == k);
                assert(has_key(front, k));
                let w = choose|w: int|
                    0 <= w < spec_dedup(front).len() && (#[trigger] spec_dedup(front)[w]).key()
                        == k;
                assert(d[w].key() == k);
            } else {
                if first_occurrence(s, s.len() - 1) {
                    assert(d[d.len() - 1].key() == k);
                } else {
                    let j = choose|j: int|
                        0 <= j < s.len() - 1 && (#[trigger] s[j]).key() == s[s.len() - 1].key();
                    assert(front[j].key() == k);
                    assert(has_key(front, k));
                    let w = choose|w: int|
                        0 <= w < spec_dedup(front).len() && (#[trigger] spec_dedup(front)[w]).key()
                            == k;
                    assert(d[w].key() == k);
                }
            }
        }
        assert forall|k: KeyV| has_key(d, k) implies has_key(s, k) by {
            let w = choose|w: int| 0 <= w < d.len() && (#[trigger] d[w]).key() == k;
            if first_occurrence(s, s.len() - 1) && w == d.len() - 1 {
                assert(s[s.len() - 1].key() == k);
            } else {
                assert(spec_dedup(front)[w].key() == k);
                assert(has_key(front, k));
                let v = choose|v: int| 0 <= v < front.len() && (#[trigger] front[v]).key() == k;
                assert(s[v].key() == k);
            }
        }
    }
}

/// Deduplication yields pairwise distinct keys.
pub proof fn lemma_dedup_distinct(s: Seq<RecV>)
    ensures
        distinct_keys(spec_dedup(s)),
    decreases s.len(),
{
    if s.len() > 0 {
        let front = s.drop_last();
        lemma_dedup_distinct(front);
        lemma_dedup_keys(front);
        if first_occurrence(s, s.len() - 1) {
            let d = spec_dedup(s);
            assert(!has_key(front, s.last().key())) by {
                if has_key(front, s.last().key()) {
                    let v = choose|v: int|
                        0 <= v < front.len() && (#[trigger] front[v]).key() == s.last().key();
                    assert(s[v].key() == s[s.len() - 1].key());
                }
            }
            assert forall|i: int, j: int| 0 <= i < j < d.len() implies (#[trigger] d[i]).key() != (
            #[trigger] d[j]).key() by {
                if j < d.len() - 1 {
                    assert(spec_dedup(front)[i] == d[i]);
                    assert(spec_dedup(front)[j] == d[j]);
                } else {
                    assert(d[i] == spec_dedup(front)[i]);
                    assert(has_key(spec_dedup(front), d[i].key()));
                    assert(has_key(front, d[i].key()));
                }
            }
        }
    }
}

/// Every first occurrence survives deduplication as a whole record.
pub proof fn lemma_dedup_first(s: Seq<RecV>, i: int)
    requires
        0 <= i < s.len(),
        first_occurrence(s, i),
    ensures
        spec_dedup(s).contains(s[i]),
    decreases s.len(),
{
    let front = s.drop_last();
    if i == s.len() - 1 {
        assert(spec_dedup(s)[spec_dedup(s).len() - 1] == s[i]);
    } else {
        assert(forall|j: int| 0 <= j < i ==> (#[trigger] front[j]).key() != front[i].key());
        lemma_dedup_first(front, i);
        let w = choose|w: int|
            0 <= w < spec_dedup(front).len() && spec_dedup(front)[w] == front[i];
        assert(spec_dedup(s)[w] == s[i]);
    }
}

/// Whether some record of `games` carries the key `(platform, id)`.
fn vec_has_key(games: &Vec<GameRecord>, platform: Platform, id: &[u8]) -> (r: bool)
    ensures
        r == has_key(recs_view(games@), KeyV { platform, id: id@ }),
{
    let ghost k = KeyV { platform, id: id@ };
    let mut i: usize = 0;
    while i < games.len()
        invariant
            i <= games@.len(),
            k == (KeyV { platform, id: id@ }),
            forall|j: int| 0 <= j < i ==> (#[trigger] recs_view(games@)[j]).key() != k,
        decreases games@.len() - i,
    {
        let same_platform = games[i].platform == platform;
        if same_platform && bytes_eq(games[i].id.as_slice(), id) {
            proof {
                assert((recs_view(games@)[i as int]).key() == k);
            }
            return true;
        }
        i = i + 1;
    }
    false
}

/// Drops every record whose composite key already occurred, keeping first
/// occurrences in order.
pub fn dedup_records(games: Vec<GameRecord>) -> (r: Vec<GameRecord>)
    ensures
        recs_view(r@) == spec_dedup(recs_view(games@)),
{
    let ghost rv = recs_view(games@);
    let mut games = games;
    let mut out: Vec<GameRecord> = Vec::new();
    let mut i: usize = 0;
    let n = games.len();
    while i < n
        invariant
            i <= n,
            n == games@.len(),
            rv == recs_view(games@),
            recs_view(out@) == spec_dedup(rv.take(i as int)),
        decreases n - i,
    {
        let g = clone_record(&games[i]);
        let seen = vec_has_key(&out, g.platform, g.id.as_slice());
        proof {
            lemma_dedup_keys(rv.take(i as int));
            assert(rv.take(i + 1).drop_last() =~= rv.take(i as int));
            assert(rv.take(i + 1).last() == rv[i as int]);
            assert(g@ == rv[i as int]);
            assert(g@.key() == (KeyV { platform: g.platform, id: g.id@ }));
            assert(has_key(rv.take(i as int), g@.key()) == !first_occurrence(
                rv.take(i + 1),
                i as int,
            )) by {
                if has_key(rv.take(i as int), g@.key()) {
                    let v = choose|v: int|
                        0 <= v < i && (#[trigger] rv.take(i as int)[v]).key() == g@.key();
                    assert(rv.take(i + 1)[v].key() == rv.take(i + 1)[i as int].key());
                } else {
                    assert forall|j: int| 0 <= j < i implies (#[trigger] rv.take(i + 1)[j]).key()
                        != rv.take(i + 1)[i as int].key() by {
                        assert(rv.take(i as int)[j].key() != g@.key());
                    }
                }
            }
        }
        if !seen {
            out.push(g);
        }
        i = i + 1;
        proof {
            assert(recs_view(out@) =~= spec_dedup(rv.take(i as int)));
        }
    }
    proof {
        assert(rv.take(n as int) =~= rv);
    }
    out
}

// ----- Stable sort by case-folded title -----

/// The title of `a` comes no later than the title of `b`, case-insensitively.
pub open spec fn title_le(a: RecV, b: RecV) -> bool {
    lex_le(fold_case(a.title), fold_case(b.title))
}

/// Stable insertion: `x` goes in front of the first element with a strictly
/// later title, hence after every element it ties with.
pub open spec fn spec_insert_sorted(x: RecV, s: Seq<RecV>) -> Seq<RecV>
    decreases s.len(),
{
    if s.len() == 0 {
        seq![x]
    } else if title_le(s[0], x) {
        seq![s[0]] + spec_insert_sorted(x, s.drop_first())
    } else {
        seq![x] + s
    }
}

/// Stable insertion sort: elements are inserted in input order, so records
/// with equal titles keep their relative order.
pub open spec fn spec_sort(s: Seq<RecV>) -> Seq<RecV>
    decreases s.len(),
{
    if s.len() == 0 {
        s
    } else {
        spec_insert_sorted(s.last(), spec_sort(s.drop_last()))
    }
}

/// Ascending by case-folded title.
pub open spec fn sorted_by_title(s: Seq<RecV>) -> bool {
    forall|i: int, j: int| 0 <= i < j < s.len() ==> title_le(#[trigger] s[i], #[trigger] s[j])
}

/// Insertion adds exactly `x` to the elements.
proof fn lemma_insert_sorted_contains(x: RecV, s: Seq<RecV>)
    ensures
        spec_insert_sorted(x, s).len() == s.len() + 1,
        forall|e: RecV|
            #[trigger] spec_insert_sorted(x, s).contains(e) <==> e == x || s.contains(e),
    decreases s.len(),
{
    let r = spec_insert_sorted(x, s);
    if s.len() == 0 {
        assert forall|e: RecV| #[trigger] r.contains(e) implies e == x || s.contains(e) by {
            let w = choose|w: int| 0 <= w < r.len() && r[w] == e;
        }
        assert(r[0] == x);
        assert(r.contains(x));
    } else if title_le(s[0], x) {
        lemma_insert_sorted_contains(x, s.drop_first());
        let w = spec_insert_sorted(x, s.drop_first());
        assert forall|e: RecV| #[trigger] r.contains(e) implies e == x || s.contains(e) by {
            let v = choose|v: int| 0 <= v < r.len() && r[v] == e;
            if v == 0 {
                assert(s[0] == e);
            } else {
                assert(w[v - 1] == e);
                assert(w.contains(e));
                if e != x {
                    assert(s.drop_first().contains(e));
                    let u = choose|u: int|
                        0 <= u < s.drop_first().len() && s.drop_first()[u] == e;
                    assert(s[u + 1] == e);
                }
            }
        }
        assert forall|e: RecV| e == x || s.contains(e) implies #[trigger] r.contains(e) by {
            if e == x {
                assert(w.contains(x));
                let v = choose|v: int| 0 <= v < w.len() && w[v] == x;
                assert(r[v + 1] == x);
            } else {
                let u = choose|u: int| 0 <= u < s.len() && s[u] == e;
                if u == 0 {
                    assert(r[0] == e);
                } else {
                    assert(s.drop_first()[u - 1] == e);
                    assert(s.drop_first().contains(e));
                    assert(w.contains(e));
                    let v = choose|v: int| 0 <= v < w.len() && w[v] == e;
                    assert(r[v + 1] == e);
                }
            }
        }
    } else {
        assert forall|e: RecV| #[trigger] r.contains(e) implies e == x || s.contains(e) by {
            let v = choose|v: int| 0 <= v < r.len() && r[v] == e;
            if v > 0 {
                assert(s[v - 1] == e);
            }
        }
        assert forall|e: RecV| e == x || s.contains(e) implies #[trigger] r.contains(e) by {
            if e == x {
                assert(r[0] == x);
            } else {
                let u = choose|u: int| 0 <= u < s.len() && s[u] == e;
                assert(r[u + 1] == e);
            }
        }
    }
}

/// Insertion into a sorted sequence keeps it sorted.
proof fn lemma_insert_sorted_keeps_order(x: RecV, s: Seq<RecV>)
    requires
        sorted_by_title(s),
    ensures
        sorted_by_title(spec_insert_sorted(x, s)),
    decreases s.len(),
{
    let r = spec_insert_sorted(x, s);
    if s.len() == 0 {
    } else if title_le(s[0], x) {
        let rest = s.drop_first();
        let w = spec_insert_sorted(x, rest);
        lemma_insert_sorted_keeps_order(x, rest);
        lemma_insert_sorted_contains(x, rest);
        assert forall|i: int, j: int| 0 <= i < j < r.len() implies title_le(
            #[trigger] r[i],
            #[trigger] r[j],
        ) by {
            if i == 0 {
                assert(w.contains(w[j - 1]));
                if w[j - 1] == x {
                    assert(title_le(s[0], r[j]));
                } else {
                    assert(rest.contains(w[j - 1]));
                    let u = choose|u: int| 0 <= u < rest.len() && rest[u] == w[j - 1];
                    assert(title_le(s[0], s[u + 1]));
                }
            } else {
                assert(title_le(w[i - 1], w[j - 1]));
            }
        }
    } else {
        lemma_lex_le_total(fold_case(x.title), fold_case(s[0].title));
        assert forall|i: int, j: int| 0 <= i < j < r.len() implies title_le(
            #[trigger] r[i],
            #[trigger] r[j],
        ) by {
            if i == 0 {
                assert(title_le(x, s[0]));
                if j > 1 {
                    assert(title_le(s[0], s[j - 1]));
                    lemma_lex_le_trans(
                        fold_case(x.title),
                        fold_case(s[0].title),
                        fold_case(s[j - 1].title),
                    );
                }
            } else {
                assert(title_le(s[i - 1], s[j - 1]));
            }
        }
    }
}

/// The sort yields an ascending sequence with exactly the input's elements.
pub proof fn lemma_sort_sorted(s: Seq<RecV>)
    ensures
        sorted_by_title(spec_sort(s)),
        spec_sort(s).len() == s.len(),
        forall|e: RecV| #[trigger] spec_sort(s).contains(e) <==> s.contains(e),
    decreases s.len(),
{
    if s.len() > 0 {
        let front = s.drop_last();
        lemma_sort_sorted(front);
        lemma_insert_sorted_keeps_order(s.last(), spec_sort(front));
        lemma_insert_sorted_contains(s.last(), spec_sort(front));
        assert forall|e: RecV| #[trigger] spec_sort(s).contains(e) implies s.contains(e) by {
            if e == s.last() {
                assert(s[s.len() - 1] == e);
            } else {
                assert(front.contains(e));
                let u = choose|u: int| 0 <= u < front.len() && front[u] == e;
                assert(s[u] == e);
            }
        }
        assert forall|e: RecV| s.contains(e) implies #[trigger] spec_sort(s).contains(e) by {
            let u = choose|u: int| 0 <= u < s.len() && s[u] == e;
            if u < s.len() - 1 {
                assert(front[u] == e);
                assert(front.contains(e));
            }
        }
    }
}

/// Insertion of a fresh key keeps composite keys pairwise distinct.
proof fn lemma_insert_sorted_distinct(x: RecV, s: Seq<RecV>)
    requires
        distinct_keys(s),
        !has_key(s, x.key()),
    ensures
        distinct_keys(spec_insert_sorted(x, s)),
        forall|k: KeyV|
            #[trigger] has_key(spec_insert_sorted(x, s), k) <==> k == x.key() || has_key(s, k),
    decreases s.len(),
{
    let r = spec_insert_sorted(x, s);
    if s.len() == 0 {
        assert forall|k: KeyV| #[trigger] has_key(r, k) implies k == x.key() || has_key(s, k) by {
            let w = choose|w: int| 0 <= w < r.len() && (#[trigger] r[w]).key() == k;
        }
        assert(r[0].key() == x.key());
    } else if title_le(s[0], x) {
        let rest = s.drop_first();
        assert(!has_key(rest, x.key())) by {
            if has_key(rest, x.key()) {
                let v = choose|v: int|
                    0 <= v < rest.len() && (#[trigger] rest[v]).key() == x.key();
                assert(s[v + 1].key() == x.key());
            }
        }
        assert(distinct_keys(rest)) by {
            assert forall|i: int, j: int| 0 <= i < j < rest.len() implies (
            #[trigger] rest[i]).key() != (#[trigger] rest[j]).key() by {
                assert(s[i + 1].key() != s[j + 1].key());
            }
        }
        lemma_insert_sorted_distinct(x, rest);
        let w = spec_insert_sorted(x, rest);
        assert forall|k: KeyV| #[trigger] has_key(r, k) implies k == x.key() || has_key(s, k) by {
            let v = choose|v: int| 0 <= v < r.len() && (#[trigger] r[v]).key() == k;
            if v == 0 {
                assert(s[0].key() == k);
            } else {
                assert(w[v - 1].key() == k);
                assert(has_key(w, k));
                if k != x.key() {
                    assert(has_key(rest, k));
                    let u = choose|u: int|
                        0 <= u < rest.len() && (#[trigger] rest[u]).key() == k;
                    assert(s[u + 1].key() == k);
                }
            }
        }
        assert forall|k: KeyV| k == x.key() || has_key(s, k) implies #[trigger] has_key(r, k) by {
            if k == x.key() {
                assert(has_key(w, k));
                let v = choose|v: int| 0 <= v < w.len() && (#[trigger] w[v]).key() == k;
                assert(r[v + 1].key() == k);
            } else {
                let u = choose|u: int| 0 <= u < s.len() && (#[trigger] s[u]).key() == k;
                if u == 0 {
                    assert(r[0].key() == k);
                } else {
                    assert(rest[u - 1].key() == k);
                    assert(has_key(rest, k));
                    assert(has_key(w, k));
                    let v = choose|v: int| 0 <= v < w.len() && (#[trigger] w[v]).key() == k;
                    assert(r[v + 1].key() == k);
                }
            }
        }
        assert forall|i: int, j: int| 0 <= i < j < r.len() implies (#[trigger] r[i]).key() != (
        #[trigger] r[j]).key() by {
            if i == 0 {
                assert(w[j - 1].key() == r[j].key());
                assert(has_key(w, r[j].key()));
                if r[j].key() == s[0].key() {
                    if r[j].key() == x.key() {
                        assert(has_key(s, x.key()));
                    } else {
                        assert(has_key(rest, r[j].key()));
                        let u = choose|u: int|
                            0 <= u < rest.len() && (#[trigger] rest[u]).key() == r[j].key();
                        assert(s[u + 1].key() == s[0].key());
                    }
                }
            } else {
                assert(w[i - 1].key() != w[j - 1].key());
            }
        }
    } else {
        assert forall|k: KeyV| #[trigger] has_key(r, k) implies k == x.key() || has_key(s, k) by {
            let v = choose|v: int| 0 <= v < r.len() && (#[trigger] r[v]).key() == k;
            if v > 0 {
                assert(s[v - 1].key() == k);
            }
        }
        assert forall|k: KeyV| k == x.key() || has_key(s, k) implies #[trigger] has_key(r, k) by {
            if k == x.key() {
                assert(r[0].key() == k);
            } else {
                let u = choose|u: int| 0 <= u < s.len() && (#[trigger] s[u]).key() == k;
                assert(r[u + 1].key() == k);
            }
        }
        assert forall|i: int, j: int| 0 <= i < j < r.len() implies (#[trigger] r[i]).key() != (
        #[trigger] r[j]).key() by {
            if i == 0 {
                assert(r[j].key() == s[j - 1].key());
                if r[j].key() == x.key() {
                    assert(has_key(s, x.key()));
                }
            } else {
                assert(s[i - 1].key() != s[j - 1].key());
            }
        }
    }
}

/// Sorting keeps composite keys pairwise distinct.
pub proof fn lemma_sort_distinct(s: Seq<RecV>)
    requires
        distinct_keys(s),
    ensures
        distinct_keys(spec_sort(s)),
    decreases s.len(),
{
    if s.len() > 0 {
        let front = s.drop_last();
        assert(distinct_keys(front)) by {
            assert forall|i: int, j: int| 0 <= i < j < front.len() implies (
            #[trigger] front[i]).key() != (#[trigger] front[j]).key() by {
                assert(s[i].key() != s[j].key());
            }
        }
        lemma_sort_distinct(front);
        lemma_sort_keys(front);
        assert(!has_key(spec_sort(front), s.last().key())) by {
            if has_key(front, s.last().key()) {
                let v = choose|v: int|
                    0 <= v < front.len() && (#[trigger] front[v]).key() == s.last().key();
                assert(s[v].key() == s[s.len() - 1].key());
            }
        }
        lemma_insert_sorted_distinct(s.last(), spec_sort(front));
    }
}

/// Sorting keeps exactly the keys of the input.
pub proof fn lemma_sort_keys(s: Seq<RecV>)
    requires
        distinct_keys(s),
    ensures
        forall|k: KeyV| #[trigger] has_key(spec_sort(s), k) <==> has_key(s, k),
    decreases s.len(),
{
    if s.len() > 0 {
        let front = s.drop_last();
        assert(distinct_keys(front)) by {
            assert forall|i: int, j: int| 0 <= i < j < front.len() implies (
            #[trigger] front[i]).key() != (#[trigger] front[j]).key() by {
                assert(s[i].key() != s[j].key());
            }
        }
        lemma_sort_distinct(front);
        lemma_sort_keys(front);
        assert(!has_key(spec_sort(front), s.last().key())) by {
            if has_key(front, s.last().key()) {
                let v = choose|v: int|
                    0 <= v < front.len() && (#[trigger] front[v]).key() == s.last().key();
                assert(s[v].key() == s[s.len() - 1].key());
            }
        }
        lemma_insert_sorted_distinct(s.last(), spec_sort(front));
        assert forall|k: KeyV| #[trigger] has_key(spec_sort(s), k) implies has_key(s, k) by {
            if k == s.last().key() {
                assert(s[s.len() - 1].key() == k);
            } else {
                assert(has_key(front, k));
                let v = choose|v: int| 0 <= v < front.len() && (#[trigger] front[v]).key() == k;
                assert(s[v].key() == k);
            }
        }
        assert forall|k: KeyV| has_key(s, k) implies #[trigger] has_key(spec_sort(s), k) by {
            let v = choose|v: int| 0 <= v < s.len() && (#[trigger] s[v]).key() == k;
            if v < s.len() - 1 {
                assert(front[v].key() == k);
                assert(has_key(front, k));
            }
        }
    }
}

/// Stable insertion sends a record of the watched title to the end of its
/// title class and leaves the rest of the class in place.
proof fn lemma_insert_sorted_filter(x: RecV, w: Seq<RecV>, t: Seq<u8>)
    requires
        sorted_by_title(w),
    ensures
        spec_insert_sorted(x, w).filter(|g: RecV| fold_case(g.title) == t) == if fold_case(x.title)
            == t {
            w.filter(|g: RecV| fold_case(g.title) == t).push(x)
        } else {
            w.filter(|g: RecV| fold_case(g.title) == t)
        },
    decreases w.len(),
{
    broadcast use vstd::seq_lib::group_seq_properties;

    let p = |g: RecV| fold_case(g.title) == t;
    let r = spec_insert_sorted(x, w);
    if w.len() == 0 {
        assert(seq![x] =~= Seq::<RecV>::empty().push(x));
        Seq::<RecV>::empty().lemma_filter_push(x, p);
        assert(Seq::<RecV>::empty().filter(p) =~= Seq::<RecV>::empty());
        if p(x) {
            assert(r.filter(p) =~= w.filter(p).push(x));
        } else {
            assert(r.filter(p) =~= w.filter(p));
        }
    } else if title_le(w[0], x) {
        let rest = w.drop_first();
        assert(sorted_by_title(rest)) by {
            assert forall|a: int, c: int| 0 <= a < c < rest.len() implies title_le(
                #[trigger] rest[a],
                #[trigger] rest[c],
            ) by {
                assert(title_le(w[a + 1], w[c + 1]));
            }
        }
        lemma_insert_sorted_filter(x, rest, t);
        Seq::<RecV>::filter_distributes_over_add(seq![w[0]], spec_insert_sorted(x, rest), p);
        Seq::<RecV>::filter_distributes_over_add(seq![w[0]], rest, p);
        assert(seq![w[0]] + rest =~= w);
        assert(r == seq![w[0]] + spec_insert_sorted(x, rest));
        if p(x) {
            assert(seq![w[0]].filter(p) + (rest.filter(p).push(x)) =~= (seq![w[0]].filter(p)
                + rest.filter(p)).push(x));
        }
    } else {
        lemma_lex_le_total(fold_case(w[0].title), fold_case(x.title));
        assert(title_le(x, w[0]));
        if p(x) {
            assert forall|c: int| 0 <= c < w.len() implies !p(#[trigger] w[c]) by {
                if fold_case(w[c].title) == t {
                    lemma_lex_le_refl(t);
                    assert(title_le(w[c], x));
                    if c > 0 {
                        assert(title_le(w[0], w[c]));
                        lemma_lex_le_trans(
                            fold_case(w[0].title),
                            fold_case(w[c].title),
                            fold_case(x.title),
                        );
                    }
                }
            }
            w.lemma_all_neg_filter_empty(p);
            Seq::<RecV>::filter_distributes_over_add(seq![x], w, p);
            assert(seq![x] =~= Seq::<RecV>::empty().push(x));
            Seq::<RecV>::empty().lemma_filter_push(x, p);
            assert(Seq::<RecV>::empty().filter(p) =~= Seq::<RecV>::empty());
            assert(r.filter(p) =~= w.filter(p).push(x));
        } else {
            Seq::<RecV>::filter_distributes_over_add(seq![x], w, p);
            assert(seq![x] =~= Seq::<RecV>::empty().push(x));
            Seq::<RecV>::empty().lemma_filter_push(x, p);
            assert(Seq::<RecV>::empty().filter(p) =~= Seq::<RecV>::empty());
            assert(r.filter(p) =~= w.filter(p));
        }
    }
}

/// Stability: within one case-folded title, the sort is the identity — ties
/// keep their merge order.
pub proof fn lemma_sort_ties_keep_order(s: Seq<RecV>, t: Seq<u8>)
    ensures
        spec_sort(s).filter(|g: RecV| fold_case(g.title) == t) == s.filter(
            |g: RecV| fold_case(g.title) == t,
        ),
    decreases s.len(),
{
    let p = |g: RecV| fold_case(g.title) == t;
    if s.len() > 0 {
        let front = s.drop_last();
        lemma_sort_ties_keep_order(front, t);
        lemma_sort_sorted(front);
        lemma_insert_sorted_filter(s.last(), spec_sort(front), t);
        front.lemma_filter_push(s.last(), p);
        assert(front.push(s.last()) =~= s);
    }
}

/// Ties in the returned catalog keep the merge order: within one case-folded
/// title, the catalog lists its records exactly as the deduplicated merge
/// produced them — drive-filtered discoveries in discovery order, then the
/// custom games.
pub proof fn lemma_catalog_ties_keep_merge_order(scanned: Seq<RecV>, st: StateV, t: Seq<u8>)
    ensures
        spec_catalog(scanned, st).filter(|g: RecV| fold_case(g.title) == t) == spec_dedup(
            spec_mark_all(
                spec_drive_filter(scanned, st.selected_drives) + st.custom_games,
                fav_set(st.favorites),
            ),
        ).filter(|g: RecV| fold_case(g.title) == t),
{
    lemma_sort_ties_keep_order(
        spec_dedup(
            spec_mark_all(
                spec_drive_filter(scanned, st.selected_drives) + st.custom_games,
                fav_set(st.favorites),
            ),
        ),
        t,
    );
}

/// Inserting at the first position whose element exceeds `x` realizes the
/// stable insertion.
proof fn lemma_insert_sorted_at(s: Seq<RecV>, x: RecV, j: int)
    requires
        0 <= j <= s.len(),
        forall|k: int| 0 <= k < j ==> title_le(#[trigger] s[k], x),
        j == s.len() || !title_le(s[j as int], x),
    ensures
        spec_insert_sorted(x, s) == s.insert(j, x),
    decreases j,
{
    if j == 0 {
        if s.len() == 0 {
            assert(spec_insert_sorted(x, s) =~= s.insert(0, x));
        } else {
            assert(spec_insert_sorted(x, s) =~= s.insert(0, x));
        }
    } else {
        assert(title_le(s[0], x));
        lemma_insert_sorted_at(s.drop_first(), x, j - 1);
        assert(seq![s[0]] + s.drop_first().insert(j - 1, x) =~= s.insert(j, x));
    }
}

/// Inserts a record into a title-sorted sequence, stably.
pub fn insert_record(out: &mut Vec<GameRecord>, x: GameRecord)
    ensures
        recs_view(final(out)@) == spec_insert_sorted(x@, recs_view(old(out)@)),
{
    let ghost rv = recs_view(out@);
    let n = out.len();
    let mut j: usize = 0;
    loop
        invariant
            j <= n,
            n == out@.len(),
            rv == recs_view(out@),
            forall|k: int| 0 <= k < j ==> title_le(#[trigger] rv[k], x@),
        ensures
            j <= out@.len(),
            rv == recs_view(out@),
            forall|k: int| 0 <= k < j ==> title_le(#[trigger] rv[k], x@),
            j == out@.len() || !title_le(rv[j as int], x@),
        decreases n - j,
    {
        if j == n {
            break ;
        }
        if !folded_le(out[j].title.as_slice(), x.title.as_slice()) {
            proof {
                assert(!title_le(rv[j as int], x@));
            }
            break ;
        }
        proof {
            assert(title_le(rv[j as int], x@));
        }
        j = j + 1;
    }
    proof {
        lemma_insert_sorted_at(rv, x@, j as int);
    }
    let ghost prev = out@;
    out.insert(j, x);
    proof {
        assert(recs_view(prev.insert(j as int, x)) =~= recs_view(prev).insert(j as int, x@));
    }
}

/// Sorts records ascending by case-folded title; ties keep their input
/// order.
pub fn sort_records(games: Vec<GameRecord>) -> (r: Vec<GameRecord>)
    ensures
        recs_view(r@) == spec_sort(recs_view(games@)),
    decreases games@.len(),
{
    let ghost rv = recs_view(games@);
    let mut games = games;
    match games.pop() {
        None => {
            proof {
                assert(recs_view(games@) =~= spec_sort(rv));
            }
            games
        },
        Some(x) => {
            proof {
                assert(recs_view(games@) =~= rv.drop_last());
                assert(x@ == rv.last());
            }
            let mut out = sort_records(games);
            insert_record(&mut out, x);
            out
        },
    }
}

// ----- The catalog -----

/// The whole pipeline: drive-filter the discovered games, re-admit every
/// custom game unconditionally, mark favorites afresh, drop later duplicates
/// of each composite key, and sort by case-folded title, stably.
pub open spec fn spec_catalog(scanned: Seq<RecV>, st: StateV) -> Seq<RecV> {
    spec_sort(
        spec_dedup(
            spec_mark_all(
                spec_drive_filter(scanned, st.selected_drives) + st.custom_games,
                fav_set(st.favorites),
            ),
        ),
    )
}

/// Builds the catalog from the scanners' output and the overlay state.
pub fn build_catalog(scanned: Vec<GameRecord>, st: &OverlayState) -> (r: Vec<GameRecord>)
    ensures
        recs_view(r@) == spec_catalog(recs_view(scanned@), st@),
        distinct_keys(recs_view(r@)),
        sorted_by_title(recs_view(r@)),
{
    let ghost sv = recs_view(scanned@);
    let ghost stv = st@;
    let mut merged = drive_filter(scanned, &st.selected_drives);
    let ghost fl = spec_drive_filter(sv, stv.selected_drives);
    let mut c: usize = 0;
    let ncustom = st.custom_games.len();
    while c < ncustom
        invariant
            c <= ncustom,
            ncustom == st.custom_games@.len(),
            fl == spec_drive_filter(sv, stv.selected_drives),
            stv == st@,
            recs_view(merged@) == fl + recs_view(st.custom_games@).take(c as int),
        decreases ncustom - c,
    {
        let g = clone_record(&st.custom_games[c]);
        let ghost prev = merged@;
        merged.push(g);
        c = c + 1;
        proof {
            prev.lemma_push_map_commute(|g: GameRecord| g@, g);
            assert(recs_view(merged@) =~= fl + recs_view(st.custom_games@).take(c as int));
        }
    }
    proof {
        assert(recs_view(st.custom_games@).take(ncustom as int) =~= recs_view(st.custom_games@));
        assert(recs_view(merged@) == fl + stv.custom_games);
    }
    let marked = mark_favorites(merged, &st.favorites);
    let deduped = dedup_records(marked);
    let sorted = sort_records(deduped);
    proof {
        lemma_dedup_distinct(spec_mark_all(fl + stv.custom_games, fav_set(stv.favorites)));
        lemma_sort_distinct(
            spec_dedup(spec_mark_all(fl + stv.custom_games, fav_set(stv.favorites))),
        );
        lemma_sort_sorted(
            spec_dedup(spec_mark_all(fl + stv.custom_games, fav_set(stv.favorites))),
        );
    }
    sorted
}

// ----- Laws of the catalog -----

/// Scanning is idempotent: from one filesystem and registry snapshot (the
/// scanners' output) and one overlay state, any two catalog builds yield the
/// same ordered list.
pub proof fn lemma_catalog_deterministic(
    scanned: Seq<RecV>,
    st: StateV,
    first: Seq<RecV>,
    second: Seq<RecV>,
)
    requires
        first == spec_catalog(scanned, st),
        second == spec_catalog(scanned, st),
    ensures
        first == second,
{
}

/// Deduplication invariant: a returned catalog holds at most one record per
/// composite key.
pub proof fn lemma_catalog_distinct_keys(scanned: Seq<RecV>, st: StateV)
    ensures
        distinct_keys(spec_catalog(scanned, st)),
{
    let merged = spec_mark_all(
        spec_drive_filter(scanned, st.selected_drives) + st.custom_games,
        fav_set(st.favorites),
    );
    lemma_dedup_distinct(merged);
    lemma_sort_distinct(spec_dedup(merged));
}

/// A returned catalog is sorted ascending by case-folded title.
pub proof fn lemma_catalog_sorted(scanned: Seq<RecV>, st: StateV)
    ensures
        sorted_by_title(spec_catalog(scanned, st)),
{
    let merged = spec_mark_all(
        spec_drive_filter(scanned, st.selected_drives) + st.custom_games,
        fav_set(st.favorites),
    );
    lemma_sort_sorted(spec_dedup(merged));
}

/// The concrete three-title instance of the sort order: wherever a
/// title-sorted sequence — any catalog, whatever the discovery order was —
/// holds records whose case-folded titles are `alpha`, `beta` and `zeta`,
/// they stand in that order.
pub proof fn lemma_three_titles_sort_ascending(s: Seq<RecV>, i: int, j: int, k: int)
    requires
        sorted_by_title(s),
        0 <= i < s.len(),
        0 <= j < s.len(),
        0 <= k < s.len(),
        fold_case(s[i].title) == seq![97u8, 108u8, 112u8, 104u8, 97u8],
        fold_case(s[j].title) == seq![98u8, 101u8, 116u8, 97u8],
        fold_case(s[k].title) == seq![122u8, 101u8, 116u8, 97u8],
    ensures
        i < j < k,
{
    assert(!title_le(s[j], s[i])) by {
        assert(fold_case(s[j].title)[0] == 98);
        assert(fold_case(s[i].title)[0] == 97);
    }
    assert(!title_le(s[k], s[j])) by {
        assert(fold_case(s[k].title)[0] == 122);
        assert(fold_case(s[j].title)[0] == 98);
    }
    if j <= i {
        assert(fold_case(s[i].title).len() != fold_case(s[j].title).len());
        assert(j < i);
        assert(title_le(s[j], s[i]));
    }
    if k <= j {
        assert(fold_case(s[j].title).len() == 4 && fold_case(s[k].title).len() == 4);
        assert(fold_case(s[j].title)[0] != fold_case(s[k].title)[0]);
        assert(k < j);
        assert(title_le(s[k], s[j]));
    }
}

/// Every survivor of deduplication is a record of the input.
proof fn lemma_dedup_elements(s: Seq<RecV>)
    ensures
        forall|e: RecV| #[trigger] spec_dedup(s).contains(e) ==> s.contains(e),
    decreases s.len(),
{
    if s.len() > 0 {
        let front = s.drop_last();
        lemma_dedup_elements(front);
        assert forall|e: RecV| #[trigger] spec_dedup(s).contains(e) implies s.contains(e) by {
            let w = choose|w: int| 0 <= w < spec_dedup(s).len() && spec_dedup(s)[w] == e;
            if first_occurrence(s, s.len() - 1) && w == spec_dedup(s).len() - 1 {
                assert(s[s.len() - 1] == e);
            } else {
                assert(spec_dedup(front)[w] == e);
                assert(spec_dedup(front).contains(e));
                let v = choose|v: int| 0 <= v < front.len() && front[v] == e;
                assert(s[v] == e);
            }
        }
    }
}

/// The favorite flag of every returned record is set exactly when its
/// composite key stands in the favorites set, computed afresh on each build.
pub proof fn lemma_catalog_marks_favorites(scanned: Seq<RecV>, st: StateV, i: int)
    requires
        0 <= i < spec_catalog(scanned, st).len(),
    ensures
        spec_catalog(scanned, st)[i].is_favorite == fav_set(st.favorites).contains(
            spec_catalog(scanned, st)[i].key(),
        ),
{
    let favs = fav_set(st.favorites);
    let merged = spec_drive_filter(scanned, st.selected_drives) + st.custom_games;
    let marked = spec_mark_all(merged, favs);
    let e = spec_catalog(scanned, st)[i];
    lemma_sort_sorted(spec_dedup(marked));
    assert(spec_catalog(scanned, st).contains(e));
    assert(spec_dedup(marked).contains(e));
    lemma_dedup_elements(marked);
    let w = choose|w: int| 0 <= w < marked.len() && marked[w] == e;
    assert(marked[w] == mark(merged[w], favs));
}

/// Custom-game exemption: whatever drives are selected, every custom game of
/// a well-formed overlay state stands in the catalog, marked against the
/// favorites.
pub proof fn lemma_custom_game_present(scanned: Seq<RecV>, st: StateV, c: int)
    requires
        state_wf(st),
        forall|i: int|
            0 <= i < scanned.len() ==> (#[trigger] scanned[i]).platform != Platform::Custom,
        0 <= c < st.custom_games.len(),
    ensures
        spec_catalog(scanned, st).contains(mark(st.custom_games[c], fav_set(st.favorites))),
{
    let favs = fav_set(st.favorites);
    let pred = |g: RecV| retained(g, st.selected_drives);
    let fl = spec_drive_filter(scanned, st.selected_drives);
    let merged = fl + st.custom_games;
    let marked = spec_mark_all(merged, favs);
    let p = fl.len() + c;
    assert(marked[p] == mark(st.custom_games[c], favs));
    assert forall|j: int| 0 <= j < fl.len() implies (#[trigger] fl[j]).platform
        != Platform::Custom by {
        assert(fl.contains(fl[j]));
        scanned.lemma_filter_contains_rev(pred, fl[j]);
        let v = choose|v: int| 0 <= v < scanned.len() && scanned[v] == fl[j];
        assert(scanned[v].platform != Platform::Custom);
    }
    assert forall|j: int| 0 <= j < p implies (#[trigger] marked[j]).key() != marked[p].key() by {
        if j < fl.len() {
            assert(marked[j].platform == fl[j].platform);
        } else {
            assert(merged[j] == st.custom_games[j - fl.len()]);
            assert(st.custom_games[j - fl.len()].id != st.custom_games[c].id);
        }
    }
    lemma_dedup_first(marked, p);
    lemma_sort_sorted(spec_dedup(marked));
}

} // verus!

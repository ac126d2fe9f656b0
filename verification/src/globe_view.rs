//! One globe-view frame over a globe contour cache: a change of zoom bucket
//! or root keeps the current tiles' geometry as the fallback and starts a new
//! scene; reads are claimed as on any frame; and past the tile cap the tiles
//! farthest from the view centre are evicted.
use crate::flatten::{clones_of, concat_contours, contour_lists, flat};
use crate::globe_cache::{cell_listed, globe_entries, globe_read_outcome, has_cell, GlobeRegionCache};
use crate::local_cache::{copy_opt_bytes, keys_distinct, next_rev, opt_bytes, same_opt_bytes};
use crate::tiles::{FocusContourAsset, TileKey};
use std::sync::Arc;
use vstd::prelude::*;

verus! {

/// Most decoded tiles the Earth globe keeps.
pub const GLOBE_MAX_TILES: usize = 1600;

/// Most decoded tiles a Moon or Mars globe keeps.
pub const PLANET_GLOBE_MAX_TILES: usize = 800;

/// Preparing a globe frame for `zoom_bucket` and `root`: on a change of
/// either, the tiles' contours (cloned) become the fallback (none when there
/// are no contours), the bucket and root are adopted and the tiles cleared.
pub open spec fn globe_prepared<P: Clone>(
    before: GlobeRegionCache<P>,
    mid: GlobeRegionCache<P>,
    zoom_bucket: i32,
    root: Option<Seq<u8>>,
) -> bool {
    if before.zoom_bucket == zoom_bucket && opt_bytes(before.root) == root {
        mid == before
    } else {
        let shown = flat(contour_lists(before.tiles@));
        &&& mid.tiles@.len() == 0
        &&& mid.in_flight@.len() == 0
        &&& mid.order@.len() == 0
        &&& opt_bytes(mid.root) == root
        &&& (shown.len() == 0 ==> mid.zoom_fallback is None)
        &&& (shown.len() > 0 ==> (mid.zoom_fallback matches Some(f) && clones_of(shown, f@)))
        &&& mid == (GlobeRegionCache {
            zoom_bucket,
            root: mid.root,
            zoom_fallback: mid.zoom_fallback,
            tiles: mid.tiles,
            in_flight: mid.in_flight,
            order: mid.order,
            tiles_revision: next_rev(before.tiles_revision),
            merged: None,
            merged_revision: None,
            load_epoch: next_rev(before.load_epoch),
            read_retry_at: None,
            ..before
        })
    }
}

/// The first phase of a globe frame: adopt the zoom bucket and root (see
/// [`globe_prepared`]), then claim a read of the region's assets unless
/// there are none.
pub fn begin_globe_frame<P: Clone>(
    cache: &mut GlobeRegionCache<P>,
    zoom_bucket: i32,
    root: &Option<Vec<u8>>,
    assets: &[FocusContourAsset],
    now: u64,
) -> (r: Option<(u64, Vec<(TileKey, FocusContourAsset)>)>)
    ensures
        old(cache).well_keyed() ==> final(cache).well_keyed(),
        old(cache).order_lists_tiles() ==> final(cache).order_lists_tiles(),
        exists|mid: GlobeRegionCache<P>|
            {
                &&& #[trigger] globe_prepared(*old(cache), mid, zoom_bucket, opt_bytes(*root))
                &&& (assets@.len() == 0 ==> r is None && *final(cache) == mid)
                &&& (assets@.len() > 0 ==> globe_read_outcome(mid, *final(cache), r, assets@, now))
            },
{
    let ghost before = *cache;
    if cache.zoom_bucket != zoom_bucket || !same_opt_bytes(&cache.root, root) {
        let shown: Vec<P> = concat_contours(&cache.tiles);
        cache.zoom_fallback = if shown.len() == 0 {
            None
        } else {
            Some(Arc::new(shown))
        };
        cache.zoom_bucket = zoom_bucket;
        cache.root = copy_opt_bytes(root);
        cache.clear_tiles_for_new_scene();
    }
    let ghost mid = *cache;
    assert(globe_prepared(before, mid, zoom_bucket, opt_bytes(*root)));
    if assets.len() == 0 {
        return None;
    }
    cache.begin_globe_read(assets, now)
}

/// Squared distance, in buckets, of a bucket pair to the centre.
pub open spec fn cell_sq_distance(c: (i32, i32), center_lat: i32, center_lon: i32) -> int {
    (c.0 - center_lat) * (c.0 - center_lat) + (c.1 - center_lon) * (c.1 - center_lon)
}

/// Every squared distance of `s` to the centre is an `i32` value.
pub open spec fn sq_distances_defined(s: Seq<(i32, i32)>, center_lat: i32, center_lon: i32) -> bool {
    forall|i: int| 0 <= i < s.len() ==> cell_sq_distance(#[trigger] s[i], center_lat, center_lon) <= i32::MAX
}

/// `x` inserted into `s` after every element not farther than it.
pub open spec fn insert_by_sq(s: Seq<(i32, i32)>, x: (i32, i32), center_lat: i32, center_lon: i32) -> Seq<(i32, i32)>
    decreases s.len(),
{
    if s.len() == 0 {
        seq![x]
    } else if cell_sq_distance(s.last(), center_lat, center_lon) <= cell_sq_distance(x, center_lat, center_lon) {
        s.push(x)
    } else {
        insert_by_sq(s.drop_last(), x, center_lat, center_lon).push(s.last())
    }
}

/// The bucket pairs ordered nearest first; pairs at equal distance keep
/// their order.
pub open spec fn nearest_cells(s: Seq<(i32, i32)>, center_lat: i32, center_lon: i32) -> Seq<(i32, i32)>
    decreases s.len(),
{
    if s.len() == 0 {
        Seq::empty()
    } else {
        insert_by_sq(nearest_cells(s.drop_last(), center_lat, center_lon), s.last(), center_lat, center_lon)
    }
}

/// The pairs of `s` that `keep` holds, in order.
pub open spec fn kept_cells(s: Seq<(i32, i32)>, keep: Seq<(i32, i32)>) -> Seq<(i32, i32)>
    decreases s.len(),
{
    if s.len() == 0 {
        Seq::empty()
    } else {
        let r = kept_cells(s.drop_last(), keep);
        if keep.contains(s.last()) {
            r.push(s.last())
        } else {
            r
        }
    }
}

/// The tiles of `s` whose bucket pair `keep` holds, in order.
pub open spec fn kept_tiles<P>(s: Seq<((i32, i32), Seq<P>)>, keep: Seq<(i32, i32)>) -> Seq<((i32, i32), Seq<P>)>
    decreases s.len(),
{
    if s.len() == 0 {
        Seq::empty()
    } else {
        let r = kept_tiles(s.drop_last(), keep);
        if keep.contains(s.last().0) {
            r.push(s.last())
        } else {
            r
        }
    }
}

/// The pairs of `s` are ordered by squared distance to the centre, nearest
/// first.
pub open spec fn nearest_sorted(s: Seq<(i32, i32)>, center_lat: i32, center_lon: i32) -> bool {
    forall|i: int, j: int|
        0 <= i < j < s.len() ==> cell_sq_distance(#[trigger] s[i], center_lat, center_lon) <= cell_sq_distance(
            #[trigger] s[j],
            center_lat,
            center_lon,
        )
}

proof fn lemma_insert_by_sq_facts(s: Seq<(i32, i32)>, x: (i32, i32), clat: i32, clon: i32)
    ensures
        insert_by_sq(s, x, clat, clon).len() == s.len() + 1,
        forall|c: (i32, i32)| #[trigger] insert_by_sq(s, x, clat, clon).contains(c) <==> (s.contains(c) || c == x),
        s.no_duplicates() && !s.contains(x) ==> insert_by_sq(s, x, clat, clon).no_duplicates(),
        nearest_sorted(s, clat, clon) ==> nearest_sorted(insert_by_sq(s, x, clat, clon), clat, clon),
    decreases s.len(),
{
    let r = insert_by_sq(s, x, clat, clon);
    if s.len() == 0 {
        assert(r =~= seq![x]);
        assert forall|c: (i32, i32)| #[trigger] r.contains(c) <==> (s.contains(c) || c == x) by {
            if r.contains(c) {
                assert(r[0] == x);
            }
            if c == x {
                assert(r[0] == x);
            }
        }
    } else if cell_sq_distance(s.last(), clat, clon) <= cell_sq_distance(x, clat, clon) {
        assert(r == s.push(x));
        assert forall|c: (i32, i32)| #[trigger] r.contains(c) <==> (s.contains(c) || c == x) by {
            if r.contains(c) {
                let k = choose|k: int| 0 <= k < r.len() && r[k] == c;
                if k < s.len() {
                    assert(s[k] == c);
                }
            }
            if s.contains(c) {
                let k = choose|k: int| 0 <= k < s.len() && s[k] == c;
                assert(r[k] == c);
            }
            if c == x {
                assert(r[s.len() as int] == x);
            }
        }
        if s.no_duplicates() && !s.contains(x) {
            assert forall|i: int, j: int| 0 <= i < r.len() && 0 <= j < r.len() && i != j implies r[i] != r[j] by {
                if i == s.len() {
                    assert(s.contains(r[j]));
                } else if j == s.len() {
                    assert(s.contains(r[i]));
                }
            }
        }
        if nearest_sorted(s, clat, clon) {
            assert forall|i: int, j: int| 0 <= i < j < r.len() implies cell_sq_distance(#[trigger] r[i], clat, clon)
                <= cell_sq_distance(#[trigger] r[j], clat, clon) by {
                if j == s.len() && i < s.len() - 1 {
                    assert(cell_sq_distance(s[i], clat, clon) <= cell_sq_distance(s[s.len() - 1], clat, clon));
                }
            }
        }
    } else {
        let t = s.drop_last();
        let l = s.last();
        lemma_insert_by_sq_facts(t, x, clat, clon);
        let q = insert_by_sq(t, x, clat, clon);
        assert(r == q.push(l));
        assert(s == t.push(l));
        assert forall|c: (i32, i32)| #[trigger] r.contains(c) <==> (s.contains(c) || c == x) by {
            if r.contains(c) {
                let k = choose|k: int| 0 <= k < r.len() && r[k] == c;
                if k < q.len() {
                    assert(q.contains(c));
                    if t.contains(c) {
                        let w = choose|w: int| 0 <= w < t.len() && t[w] == c;
                        assert(s[w] == c);
                    }
                } else {
                    assert(s[t.len() as int] == c);
                }
            }
            if s.contains(c) {
                let k = choose|k: int| 0 <= k < s.len() && s[k] == c;
                if k < t.len() {
                    assert(t[k] == c);
                    assert(q.contains(c));
                    let w = choose|w: int| 0 <= w < q.len() && q[w] == c;
                    assert(r[w] == c);
                } else {
                    assert(r[q.len() as int] == c);
                }
            }
            if c == x {
                assert(q.contains(x));
                let w = choose|w: int| 0 <= w < q.len() && q[w] == x;
                assert(r[w] == x);
            }
        }
        if s.no_duplicates() && !s.contains(x) {
            assert(t.no_duplicates()) by {
                assert forall|i: int, j: int| 0 <= i < t.len() && 0 <= j < t.len() && i != j implies t[i] != t[j] by {
                    assert(t[i] == s[i] && t[j] == s[j]);
                }
            }
            assert(!t.contains(x)) by {
                if t.contains(x) {
                    let w = choose|w: int| 0 <= w < t.len() && t[w] == x;
                    assert(s[w] == x);
                }
            }
            assert(!q.contains(l)) by {
                if q.contains(l) {
                    if t.contains(l) {
                        let w = choose|w: int| 0 <= w < t.len() && t[w] == l;
                        assert(s[w] == s[t.len() as int]);
                    } else {
                        assert(s[t.len() as int] == x);
                    }
                }
            }
            assert forall|i: int, j: int| 0 <= i < r.len() && 0 <= j < r.len() && i != j implies r[i] != r[j] by {
                if i == q.len() {
                    assert(q.contains(r[j]));
                } else if j == q.len() {
                    assert(q.contains(r[i]));
                } else {
                    assert(r[i] == q[i] && r[j] == q[j]);
                }
            }
        }
        if nearest_sorted(s, clat, clon) {
            assert(nearest_sorted(t, clat, clon)) by {
                assert forall|i: int, j: int| 0 <= i < j < t.len() implies cell_sq_distance(#[trigger] t[i], clat, clon)
                    <= cell_sq_distance(#[trigger] t[j], clat, clon) by {
                    assert(t[i] == s[i] && t[j] == s[j]);
                }
            }
            assert forall|i: int, j: int| 0 <= i < j < r.len() implies cell_sq_distance(#[trigger] r[i], clat, clon)
                <= cell_sq_distance(#[trigger] r[j], clat, clon) by {
                if j == q.len() {
                    assert(r[i] == q[i]);
                    assert(q.contains(q[i]));
                    if t.contains(q[i]) {
                        let w = choose|w: int| 0 <= w < t.len() && t[w] == q[i];
                        assert(s[w] == q[i]);
                        assert(cell_sq_distance(s[w], clat, clon) <= cell_sq_distance(s[t.len() as int], clat, clon));
                    }
                } else {
                    assert(r[i] == q[i] && r[j] == q[j]);
                }
            }
        }
    }
}

proof fn lemma_nearest_cells_facts(s: Seq<(i32, i32)>, clat: i32, clon: i32)
    ensures
        nearest_cells(s, clat, clon).len() == s.len(),
        forall|c: (i32, i32)| #[trigger] nearest_cells(s, clat, clon).contains(c) <==> s.contains(c),
        s.no_duplicates() ==> nearest_cells(s, clat, clon).no_duplicates(),
        nearest_sorted(nearest_cells(s, clat, clon), clat, clon),
    decreases s.len(),
{
    if s.len() > 0 {
        let t = s.drop_last();
        lemma_nearest_cells_facts(t, clat, clon);
        let n = nearest_cells(t, clat, clon);
        lemma_insert_by_sq_facts(n, s.last(), clat, clon);
        assert(s == t.push(s.last()));
        assert forall|c: (i32, i32)| #[trigger] nearest_cells(s, clat, clon).contains(c) <==> s.contains(c) by {
            if t.contains(c) {
                let w = choose|w: int| 0 <= w < t.len() && t[w] == c;
                assert(s[w] == c);
            }
            if s.contains(c) {
                let w = choose|w: int| 0 <= w < s.len() && s[w] == c;
                if w < t.len() {
                    assert(t[w] == c);
                }
            }
        }
        if s.no_duplicates() {
            assert(t.no_duplicates()) by {
                assert forall|i: int, j: int| 0 <= i < t.len() && 0 <= j < t.len() && i != j implies t[i] != t[j] by {
                    assert(t[i] == s[i] && t[j] == s[j]);
                }
            }
            assert(!n.contains(s.last())) by {
                if t.contains(s.last()) {
                    let w = choose|w: int| 0 <= w < t.len() && t[w] == s.last();
                    assert(s[w] == s[t.len() as int]);
                }
            }
        }
    } else {
        assert(nearest_cells(s, clat, clon) =~= Seq::<(i32, i32)>::empty());
    }
}

/// The pairs of a duplicate-free `s` that its first `m` pairs hold are those
/// first `m` pairs.
proof fn lemma_kept_cells_prefix(s: Seq<(i32, i32)>, m: int, n: int)
    requires
        s.no_duplicates(),
        0 <= m <= s.len(),
        0 <= n <= s.len(),
    ensures
        kept_cells(s.take(n), s.take(m)) == s.take(if n < m { n } else { m }),
    decreases n,
{
    let keep = s.take(m);
    if n == 0 {
        assert(s.take(0) =~= Seq::<(i32, i32)>::empty());
    } else {
        lemma_kept_cells_prefix(s, m, n - 1);
        assert(s.take(n).drop_last() =~= s.take(n - 1));
        assert(s.take(n).last() == s[n - 1]);
        if n - 1 < m {
            assert(keep[n - 1] == s[n - 1]);
            assert(keep.contains(s[n - 1]));
            assert(s.take(n - 1).push(s[n - 1]) =~= s.take(n));
        } else {
            assert(!keep.contains(s[n - 1])) by {
                if keep.contains(s[n - 1]) {
                    let w = choose|w: int| 0 <= w < keep.len() && keep[w] == s[n - 1];
                    assert(s[w] == s[n - 1]);
                }
            }
        }
    }
}

proof fn lemma_kept_tiles_cells<P>(s: Seq<((i32, i32), Seq<P>)>, keep: Seq<(i32, i32)>)
    ensures
        forall|c: (i32, i32)|
            #[trigger] cell_listed(kept_tiles(s, keep), c) <==> (cell_listed(s, c) && keep.contains(c)),
    decreases s.len(),
{
    if s.len() > 0 {
        let t = s.drop_last();
        lemma_kept_tiles_cells(t, keep);
        let w = kept_tiles(t, keep);
        let r = kept_tiles(s, keep);
        assert forall|c: (i32, i32)| #[trigger] cell_listed(r, c) <==> (cell_listed(s, c) && keep.contains(c)) by {
            if cell_listed(r, c) {
                let k = choose|k: int| 0 <= k < r.len() && (#[trigger] r[k]).0 == c;
                if k < w.len() {
                    assert(r[k] == w[k]);
                    assert(cell_listed(w, c));
                    let q = choose|q: int| 0 <= q < t.len() && (#[trigger] t[q]).0 == c;
                    assert(s[q] == t[q]);
                } else {
                    assert(r[k] == s.last());
                    assert(s[s.len() - 1] == s.last());
                }
            }
            if cell_listed(s, c) && keep.contains(c) {
                let k = choose|k: int| 0 <= k < s.len() && (#[trigger] s[k]).0 == c;
                if k < t.len() {
                    assert(t[k] == s[k]);
                    assert(cell_listed(t, c));
                    assert(cell_listed(w, c));
                    let q = choose|q: int| 0 <= q < w.len() && (#[trigger] w[q]).0 == c;
                    if r.len() != w.len() {
                        assert(r[q] == w[q]);
                    }
                } else {
                    assert(r[r.len() - 1] == s.last());
                }
            }
        }
    } else {
        assert forall|c: (i32, i32)| #[trigger] cell_listed(kept_tiles(s, keep), c) <==> (cell_listed(s, c)
            && keep.contains(c)) by {}
    }
}

/// What eviction keeps when the order lists the tiles once each: the order
/// becomes the `max` nearest pairs, exactly their tiles stay, and no dropped
/// tile is nearer the centre than a kept one.
proof fn lemma_evict_facts<P>(
    tiles: Seq<((i32, i32), Seq<P>)>,
    order: Seq<(i32, i32)>,
    max: int,
    clat: i32,
    clon: i32,
)
    requires
        keys_distinct(tiles),
        order.no_duplicates(),
        forall|c: (i32, i32)| #![trigger order.contains(c)] order.contains(c) <==> cell_listed(tiles, c),
        0 <= max <= order.len(),
    ensures
        ({
            let sorted = nearest_cells(order, clat, clon);
            let keep = sorted.take(max);
            let kt = kept_tiles(tiles, keep);
            let ko = kept_cells(sorted, keep);
            &&& ko.no_duplicates()
            &&& forall|c: (i32, i32)|
                #![trigger ko.contains(c)]
                #![trigger cell_listed(kt, c)]
                ko.contains(c) <==> cell_listed(kt, c)
            &&& kt.len() == max
            &&& forall|i: int, j: int|
                0 <= i < tiles.len() && !cell_listed(kt, tiles[i].0) && 0 <= j < kt.len() ==> cell_sq_distance(
                    (#[trigger] kt[j]).0,
                    clat,
                    clon,
                ) <= cell_sq_distance((#[trigger] tiles[i]).0, clat, clon)
        }),
{
    let sorted = nearest_cells(order, clat, clon);
    let keep = sorted.take(max);
    let kt = kept_tiles(tiles, keep);
    let ko = kept_cells(sorted, keep);
    lemma_nearest_cells_facts(order, clat, clon);
    lemma_kept_cells_prefix(sorted, max, sorted.len() as int);
    assert(sorted.take(sorted.len() as int) =~= sorted);
    assert(ko == keep);
    assert(keep.no_duplicates()) by {
        assert forall|i: int, j: int| 0 <= i < keep.len() && 0 <= j < keep.len() && i != j implies keep[i] != keep[j] by {
            assert(keep[i] == sorted[i] && keep[j] == sorted[j]);
        }
    }
    lemma_kept_tiles_cells(tiles, keep);
    lemma_kept_tiles_distinct(tiles, keep);
    assert forall|c: (i32, i32)| #![trigger ko.contains(c)] #![trigger cell_listed(kt, c)] ko.contains(c)
        <==> cell_listed(kt, c) by {
        if keep.contains(c) {
            let q = choose|q: int| 0 <= q < keep.len() && keep[q] == c;
            assert(sorted[q] == c);
            assert(sorted.contains(c));
            assert(order.contains(c));
        }
    }
    let ids = Seq::new(kt.len(), |i: int| kt[i].0);
    assert(ids.no_duplicates()) by {
        assert forall|i: int, j: int| 0 <= i < ids.len() && 0 <= j < ids.len() && i != j implies ids[i] != ids[j] by {
            if i < j {
                assert(kt[i].0 != kt[j].0);
            } else {
                assert(kt[j].0 != kt[i].0);
            }
        }
    }
    assert(ids.to_set() =~= keep.to_set()) by {
        assert forall|c: (i32, i32)| ids.to_set().contains(c) <==> keep.to_set().contains(c) by {
            if ids.contains(c) {
                let k = choose|k: int| 0 <= k < ids.len() && ids[k] == c;
                assert(kt[k].0 == c);
                assert(cell_listed(kt, c));
            }
            if keep.contains(c) {
                assert(cell_listed(kt, c));
                let k = choose|k: int| 0 <= k < kt.len() && (#[trigger] kt[k]).0 == c;
                assert(ids[k] == c);
            }
        }
    }
    ids.unique_seq_to_set();
    keep.unique_seq_to_set();
    assert forall|i: int, j: int|
        0 <= i < tiles.len() && !cell_listed(kt, tiles[i].0) && 0 <= j < kt.len() implies cell_sq_distance(
        (#[trigger] kt[j]).0,
        clat,
        clon,
    ) <= cell_sq_distance((#[trigger] tiles[i]).0, clat, clon) by {
        let c = tiles[i].0;
        assert(cell_listed(tiles, c));
        assert(order.contains(c));
        assert(sorted.contains(c));
        let p = choose|p: int| 0 <= p < sorted.len() && sorted[p] == c;
        if p < max {
            assert(keep[p] == c);
            assert(keep.contains(c));
        }
        let k = kt[j].0;
        assert(cell_listed(kt, k));
        assert(keep.contains(k));
        let q = choose|q: int| 0 <= q < keep.len() && keep[q] == k;
        assert(sorted[q] == k);
    }
}

proof fn lemma_kept_tiles_from<P>(s: Seq<((i32, i32), Seq<P>)>, keep: Seq<(i32, i32)>)
    ensures
        forall|k: int| 0 <= k < kept_tiles(s, keep).len() ==> exists|i: int|
            0 <= i < s.len() && s[i] == #[trigger] kept_tiles(s, keep)[k],
    decreases s.len(),
{
    if s.len() > 0 {
        let t = s.drop_last();
        lemma_kept_tiles_from(t, keep);
        let w = kept_tiles(t, keep);
        assert forall|k: int| 0 <= k < kept_tiles(s, keep).len() implies exists|i: int|
            0 <= i < s.len() && s[i] == #[trigger] kept_tiles(s, keep)[k] by {
            if k < w.len() {
                let i = choose|i: int| 0 <= i < t.len() && t[i] == w[k];
                assert(s[i] == t[i]);
            } else {
                assert(s[s.len() - 1] == s.last());
            }
        }
    }
}

proof fn lemma_kept_tiles_distinct<P>(s: Seq<((i32, i32), Seq<P>)>, keep: Seq<(i32, i32)>)
    requires
        keys_distinct(s),
    ensures
        keys_distinct(kept_tiles(s, keep)),
    decreases s.len(),
{
    if s.len() > 0 {
        let t = s.drop_last();
        assert(keys_distinct(t)) by {
            assert forall|i: int, j: int| 0 <= i < j < t.len() implies (#[trigger] t[i]).0 != (#[trigger] t[j]).0 by {
                assert(t[i] == s[i] && t[j] == s[j]);
            }
        }
        lemma_kept_tiles_distinct(t, keep);
        lemma_kept_tiles_from(t, keep);
        let w = kept_tiles(t, keep);
        let x = s.last();
        let r = kept_tiles(s, keep);
        if r.len() != w.len() {
            assert(r == w.push(x));
            assert forall|i: int, j: int| 0 <= i < j < r.len() implies (#[trigger] r[i]).0 != (#[trigger] r[j]).0 by {
                if j == w.len() {
                    assert(r[i] == w[i]);
                    let q = choose|q: int| 0 <= q < t.len() && t[q] == w[i];
                    assert(s[q] == t[q] && s[s.len() - 1] == x);
                } else {
                    assert(r[i] == w[i] && r[j] == w[j]);
                }
            }
        }
    }
}

proof fn lemma_insert_by_sq_at(s: Seq<(i32, i32)>, x: (i32, i32), j: int, clat: i32, clon: i32)
    requires
        0 <= j <= s.len(),
        forall|k: int| j <= k < s.len() ==> cell_sq_distance(#[trigger] s[k], clat, clon) > cell_sq_distance(x, clat, clon),
        j == 0 || cell_sq_distance(s[j - 1], clat, clon) <= cell_sq_distance(x, clat, clon),
    ensures
        insert_by_sq(s, x, clat, clon) == s.insert(j, x),
    decreases s.len(),
{
    if s.len() == 0 {
        assert(s.insert(j, x) =~= seq![x]);
    } else if j == s.len() {
        assert(s.insert(j, x) =~= s.push(x));
    } else {
        let t = s.drop_last();
        lemma_insert_by_sq_at(t, x, j, clat, clon);
        assert(t.insert(j, x).push(s.last()) =~= s.insert(j, x));
    }
}

/// Squared distance of a bucket pair to the centre.
fn sq_distance(c: (i32, i32), center_lat: i32, center_lon: i32) -> (r: i32)
    requires
        cell_sq_distance(c, center_lat, center_lon) <= i32::MAX,
    ensures
        r == cell_sq_distance(c, center_lat, center_lon),
{
    let ghost x: int = c.0 - center_lat;
    let ghost y: int = c.1 - center_lon;
    assert(-46341 <= x <= 46341 && -46341 <= y <= 46341 && 0 <= x * x && 0 <= y * y) by (nonlinear_arith)
        requires
            x * x + y * y <= 0x7fff_ffff,
    ;
    let dlat: i32 = c.0 - center_lat;
    let dlon: i32 = c.1 - center_lon;
    let a: i32 = dlat * dlat;
    let b: i32 = dlon * dlon;
    a + b
}

impl<P> GlobeRegionCache<P> {
    /// Past `max_tiles` decoded tiles, keep only those whose bucket pair is
    /// among the nearest `max_tiles` of the insertion order
    /// (ties keep their order); the order becomes the sorted order filtered
    /// the same way, claims outside it are dropped, and a shrunk tile set is
    /// recorded as a new revision.
    pub fn evict_far_tiles(&mut self, center_lat_bucket: i32, center_lon_bucket: i32, max_tiles: usize)
        requires
            old(self).tiles@.len() > max_tiles ==> old(self).order@.len() >= max_tiles,
            old(self).tiles@.len() > max_tiles ==> sq_distances_defined(
                old(self).order@,
                center_lat_bucket,
                center_lon_bucket,
            ),
        ensures
            old(self).well_keyed() && old(self).order_lists_tiles() ==> final(self).order_lists_tiles(),
            old(self).well_keyed() && old(self).order_lists_tiles() && old(self).tiles@.len() > max_tiles
                ==> final(self).tiles@.len() == max_tiles,
            old(self).well_keyed() && old(self).order_lists_tiles() ==> forall|i: int, j: int|
                0 <= i < old(self).tiles@.len() && !cell_listed(globe_entries(final(self).tiles@), old(self).tiles@[i].0)
                    && 0 <= j < final(self).tiles@.len() ==> cell_sq_distance(
                    (#[trigger] final(self).tiles@[j]).0,
                    center_lat_bucket,
                    center_lon_bucket,
                ) <= cell_sq_distance((#[trigger] old(self).tiles@[i]).0, center_lat_bucket, center_lon_bucket),
            old(self).well_keyed() ==> final(self).well_keyed(),
            old(self).tiles@.len() <= max_tiles ==> *final(self) == *old(self),
            old(self).tiles@.len() > max_tiles ==> ({
                let sorted = nearest_cells(old(self).order@, center_lat_bucket, center_lon_bucket);
                let keep = sorted.take(max_tiles as int);
                let changed = final(self).tiles@.len() != old(self).tiles@.len();
                &&& final(self).order@ == kept_cells(sorted, keep)
                &&& globe_entries(final(self).tiles@) == kept_tiles(globe_entries(old(self).tiles@), keep)
                &&& final(self).in_flight@ == kept_cells(old(self).in_flight@, keep)
                &&& *final(self) == (GlobeRegionCache {
                    tiles: final(self).tiles,
                    order: final(self).order,
                    in_flight: final(self).in_flight,
                    tiles_revision: if changed {
                        next_rev(old(self).tiles_revision)
                    } else {
                        old(self).tiles_revision
                    },
                    merged: if changed {
                        None
                    } else {
                        old(self).merged
                    },
                    merged_revision: if changed {
                        None
                    } else {
                        old(self).merged_revision
                    },
                    ..*old(self)
                })
            }),
    {
        if self.tiles.len() <= max_tiles {
            proof {
                assert forall|i: int| 0 <= i < self.tiles@.len() implies cell_listed(
                    globe_entries(self.tiles@),
                    (#[trigger] self.tiles@[i]).0,
                ) by {
                    assert(globe_entries(self.tiles@)[i].0 == self.tiles@[i].0);
                }
            }
            return;
        }
        let ghost order0 = self.order@;
        let ghost old_tiles = self.tiles@;
        // Stable insertion sort of the order by squared distance.
        let mut sorted: Vec<(i32, i32)> = Vec::new();
        let mut i: usize = 0;
        while i < self.order.len()
            invariant
                order0 == self.order@,
                i <= order0.len(),
                sq_distances_defined(order0, center_lat_bucket, center_lon_bucket),
                sorted@ == nearest_cells(order0.take(i as int), center_lat_bucket, center_lon_bucket),
                sorted@.len() == i,
                sq_distances_defined(sorted@, center_lat_bucket, center_lon_bucket),
            decreases order0.len() - i,
        {
            let c: (i32, i32) = self.order[i];
            assert(order0.take(i + 1).drop_last() =~= order0.take(i as int));
            let d: i32 = sq_distance(c, center_lat_bucket, center_lon_bucket);
            let mut j: usize = sorted.len();
            while j > 0 && sq_distance(sorted[j - 1], center_lat_bucket, center_lon_bucket) > d
                invariant
                    j <= sorted@.len(),
                    d == cell_sq_distance(c, center_lat_bucket, center_lon_bucket),
                    sq_distances_defined(sorted@, center_lat_bucket, center_lon_bucket),
                    forall|k: int|
                        j <= k < sorted@.len() ==> cell_sq_distance(
                            #[trigger] sorted@[k],
                            center_lat_bucket,
                            center_lon_bucket,
                        ) > d,
                decreases j,
            {
                j = j - 1;
            }
            let ghost before = sorted@;
            proof {
                lemma_insert_by_sq_at(before, c, j as int, center_lat_bucket, center_lon_bucket);
            }
            sorted.insert(j, c);
            assert(sorted@ =~= before.insert(j as int, c));
            assert forall|k: int| 0 <= k < sorted@.len() implies cell_sq_distance(
                #[trigger] sorted@[k],
                center_lat_bucket,
                center_lon_bucket,
            ) <= i32::MAX by {
                if k < j {
                    assert(sorted@[k] == before[k]);
                } else if k > j {
                    assert(sorted@[k] == before[k - 1]);
                }
            }
            i = i + 1;
        }
        assert(order0.take(order0.len() as int) =~= order0);
        let ghost sorted_all = sorted@;
        let mut keep: Vec<(i32, i32)> = Vec::new();
        let mut k: usize = 0;
        while k < max_tiles
            invariant
                sorted@ == sorted_all,
                sorted@.len() >= max_tiles,
                k <= max_tiles,
                keep@ == sorted_all.take(k as int),
            decreases max_tiles - k,
        {
            keep.push(sorted[k]);
            k = k + 1;
            assert(keep@ =~= sorted_all.take(k as int));
        }
        // Keep the tiles of the kept pairs.
        let old_len: usize = self.tiles.len();
        let mut tiles: Vec<((i32, i32), Arc<Vec<P>>)> = Vec::new();
        std::mem::swap(&mut self.tiles, &mut tiles);
        let ghost tiles0 = globe_entries(tiles@);
        let mut kept: Vec<((i32, i32), Arc<Vec<P>>)> = Vec::new();
        let mut t: usize = 0;
        while t < tiles.len()
            invariant
                tiles0 == globe_entries(tiles@),
                t <= tiles@.len(),
                globe_entries(kept@) == kept_tiles(tiles0.take(t as int), keep@),
            decreases tiles@.len() - t,
        {
            assert(tiles0.take(t + 1).drop_last() =~= tiles0.take(t as int));
            let cell: (i32, i32) = tiles[t].0;
            if has_cell(&keep, cell) {
                let ghost before = kept@;
                let shared: Arc<Vec<P>> = crate::shared::share(&tiles[t].1);
                kept.push((cell, shared));
                assert(globe_entries(kept@) =~= globe_entries(before).push(tiles0[t as int]));
            }
            t = t + 1;
        }
        assert(tiles0.take(tiles@.len() as int) =~= tiles0);
        proof {
            if keys_distinct(tiles0) {
                lemma_kept_tiles_distinct(tiles0, keep@);
            }
        }
        self.tiles = kept;
        // Keep the claims of the kept pairs.
        let mut claims: Vec<(i32, i32)> = Vec::new();
        std::mem::swap(&mut self.in_flight, &mut claims);
        let ghost claims0 = claims@;
        let mut kept_claims: Vec<(i32, i32)> = Vec::new();
        let mut u: usize = 0;
        while u < claims.len()
            invariant
                claims0 == claims@,
                u <= claims0.len(),
                kept_claims@ == kept_cells(claims0.take(u as int), keep@),
            decreases claims0.len() - u,
        {
            assert(claims0.take(u + 1).drop_last() =~= claims0.take(u as int));
            if has_cell(&keep, claims[u]) {
                kept_claims.push(claims[u]);
            }
            u = u + 1;
        }
        assert(claims0.take(claims0.len() as int) =~= claims0);
        self.in_flight = kept_claims;
        // The order becomes the sorted order, filtered likewise.
        let mut kept_order: Vec<(i32, i32)> = Vec::new();
        let mut v: usize = 0;
        while v < sorted.len()
            invariant
                sorted@ == sorted_all,
                v <= sorted_all.len(),
                kept_order@ == kept_cells(sorted_all.take(v as int), keep@),
            decreases sorted_all.len() - v,
        {
            assert(sorted_all.take(v + 1).drop_last() =~= sorted_all.take(v as int));
            if has_cell(&keep, sorted[v]) {
                kept_order.push(sorted[v]);
            }
            v = v + 1;
        }
        assert(sorted_all.take(sorted_all.len() as int) =~= sorted_all);
        self.order = kept_order;
        proof {
            if keys_distinct(tiles0) && order0.no_duplicates() && (forall|c: (i32, i32)|
                #![trigger order0.contains(c)]
                order0.contains(c) <==> cell_listed(tiles0, c)) {
                lemma_evict_facts(tiles0, order0, max_tiles as int, center_lat_bucket, center_lon_bucket);
                let kt = globe_entries(self.tiles@);
                assert(kt.len() == self.tiles@.len());
                assert forall|i: int, j: int|
                    0 <= i < old_tiles.len() && !cell_listed(kt, old_tiles[i].0) && 0 <= j < self.tiles@.len()
                        implies cell_sq_distance(
                    (#[trigger] self.tiles@[j]).0,
                    center_lat_bucket,
                    center_lon_bucket,
                ) <= cell_sq_distance((#[trigger] old_tiles[i]).0, center_lat_bucket, center_lon_bucket) by {
                    assert(tiles0[i].0 == old_tiles[i].0);
                    assert(kt[j].0 == self.tiles@[j].0);
                }
            }
        }
        if self.tiles.len() != old_len {
            self.mark_tiles_changed();
        }
    }
}

} // verus!

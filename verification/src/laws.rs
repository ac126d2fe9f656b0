//! Properties of the caches and helpers that span several calls or hold of
//! every input, each proved from the contracts of the functions involved.
use crate::globe_cache::{
    globe_finish_outcome, globe_read_outcome, globe_render_of, publish_outcome, GlobeRegionCache,
    GlobeRender,
};
use crate::local_cache::{
    asset_distance, decoded_ids, entry_ids, finish_manifest_outcome, finish_merge_outcome,
    finish_read_outcome, insert_absent, insert_by_distance, manifest_views, nearest_first,
    read_batch, read_outcome, request_ids, tile_ids, unclaimed, within, LocalManifestKey,
    LocalMergeKey, LocalRegionCache, ManifestId, LOCAL_CONTOUR_READ_BATCH_SIZE,
};
use crate::tiles::{
    asset_ids, asset_tile, bucket_distance, AssetId, FocusContourAsset, TileId, TileKey,
};
use crate::contour_rows::{line_views, ContourLine};
use crate::flatten::{clones_of, contour_lists, flat};
use crate::features::{admin_boundaries_of, polylines_of, RawFeature};
use crate::instances::{chunk_sizes, per_buffer, LocalTileId, BUFFER_HEADROOM};
use crate::region::ready_cells;
use crate::residency::{evictable, evictions, insert_by_age, oldest_first, slot_ids, Candidate, TileSlot};
use crate::polyline::{same_point, simplified, PointBits};
use crate::raster::{fill_depth, ocean_cells_upto, row_ocean_cells};
use crate::features::{polyline_of, RawGeometry};
use crate::terrain::{covers, road_build_outcome, with_margin, RoadCacheStore, RoadCoverage};
use std::sync::Arc;
use vstd::arithmetic::div_mod::lemma_fundamental_div_mod;
use vstd::prelude::*;

verus! {

/// A local reader whose cache is reset while it runs cannot repopulate it:
/// its late result adds no tile and only releases its marker.
pub proof fn law_reset_discards_late_local_read<P>(
    idle: LocalRegionCache<P>,
    reading: LocalRegionCache<P>,
    reset: LocalRegionCache<P>,
    done: LocalRegionCache<P>,
    epoch: u64,
    requests: Vec<(TileKey, FocusContourAsset)>,
    assets: Seq<FocusContourAsset>,
    center_lat_bucket: i32,
    center_lon_bucket: i32,
    claimed_at: u64,
    loaded: Option<Vec<(TileKey, Vec<P>)>>,
    finished_at: u64,
)
    requires
        read_outcome(
            idle,
            reading,
            Some((epoch, requests)),
            assets,
            center_lat_bucket,
            center_lon_bucket,
            claimed_at,
        ),
        reset.is_reset_of(reading),
        finish_read_outcome(reset, done, epoch, requests@, loaded, finished_at),
    ensures
        done.entries@.len() == 0,
        done.load_in_flight is None,
        done.load_epoch != epoch,
{
}

/// A globe reader whose cache is reset while it runs cannot repopulate it.
pub proof fn law_reset_discards_late_globe_read<P>(
    idle: GlobeRegionCache<P>,
    reading: GlobeRegionCache<P>,
    reset: GlobeRegionCache<P>,
    done: GlobeRegionCache<P>,
    epoch: u64,
    requests: Vec<(TileKey, FocusContourAsset)>,
    assets: Seq<FocusContourAsset>,
    claimed_at: u64,
    loaded: Option<Vec<(TileKey, Vec<P>)>>,
    finished_at: u64,
)
    requires
        globe_read_outcome(idle, reading, Some((epoch, requests)), assets, claimed_at),
        reset.is_reset_of(reading),
        globe_finish_outcome(reset, done, epoch, requests@, loaded, finished_at),
    ensures
        done.tiles@.len() == 0,
        done.load_in_flight is None,
        done.load_epoch != epoch,
{
}

/// At most one local reader runs: once a read is claimed, no further read
/// is claimed (and nothing changes) until it completes.
pub proof fn law_one_local_reader_at_a_time<P>(
    c0: LocalRegionCache<P>,
    c1: LocalRegionCache<P>,
    c2: LocalRegionCache<P>,
    first: Option<(u64, Vec<(TileKey, FocusContourAsset)>)>,
    second: Option<(u64, Vec<(TileKey, FocusContourAsset)>)>,
    assets1: Seq<FocusContourAsset>,
    assets2: Seq<FocusContourAsset>,
    lat1: i32,
    lon1: i32,
    lat2: i32,
    lon2: i32,
    t1: u64,
    t2: u64,
)
    requires
        read_outcome(c0, c1, first, assets1, lat1, lon1, t1),
        first is Some,
        read_outcome(c1, c2, second, assets2, lat2, lon2, t2),
    ensures
        second is None,
        c2 == c1,
{
}

/// At most one globe reader runs.
pub proof fn law_one_globe_reader_at_a_time<P>(
    c0: GlobeRegionCache<P>,
    c1: GlobeRegionCache<P>,
    c2: GlobeRegionCache<P>,
    first: Option<(u64, Vec<(TileKey, FocusContourAsset)>)>,
    second: Option<(u64, Vec<(TileKey, FocusContourAsset)>)>,
    assets1: Seq<FocusContourAsset>,
    assets2: Seq<FocusContourAsset>,
    t1: u64,
    t2: u64,
)
    requires
        globe_read_outcome(c0, c1, first, assets1, t1),
        first is Some,
        globe_read_outcome(c1, c2, second, assets2, t2),
    ensures
        second is None,
        c2 == c1,
{
}

proof fn lemma_insert_absent_prefix<P>(entries: Seq<(TileId, Seq<P>)>, loaded: Seq<(TileId, Seq<P>)>)
    ensures
        insert_absent(entries, loaded).len() >= entries.len(),
        insert_absent(entries, loaded).take(entries.len() as int) == entries,
    decreases loaded.len(),
{
    if loaded.len() > 0 {
        lemma_insert_absent_prefix(entries, loaded.drop_last());
        let r = insert_absent(entries, loaded.drop_last());
        assert(r.push(loaded.last()).take(entries.len() as int) =~= r.take(entries.len() as int));
    }
}

/// A completed read never replaces or drops a decoded tile: the tiles
/// decoded before keep their place and contours.
pub proof fn law_read_keeps_decoded_tiles<P>(
    before: LocalRegionCache<P>,
    after: LocalRegionCache<P>,
    epoch: u64,
    requests: Seq<(TileKey, FocusContourAsset)>,
    loaded: Option<Vec<(TileKey, Vec<P>)>>,
    now: u64,
)
    requires
        finish_read_outcome(before, after, epoch, requests, loaded, now),
    ensures
        entry_ids(after.entries@).len() >= entry_ids(before.entries@).len(),
        entry_ids(after.entries@).take(before.entries@.len() as int) == entry_ids(before.entries@),
{
    if before.load_in_flight == Some(epoch) && before.load_epoch == epoch {
        let added = match loaded {
            Some(l) => crate::local_cache::loaded_ids(l@),
            None => Seq::empty(),
        };
        lemma_insert_absent_prefix(entry_ids(before.entries@), added);
    } else {
        assert(entry_ids(before.entries@).take(before.entries@.len() as int) =~= entry_ids(
            before.entries@,
        ));
    }
}

/// A merge result is published only when it was computed for the cache's
/// current epoch and tile revision and is still the latest request;
/// otherwise the published merge stays as it was.
pub proof fn law_stale_merge_is_not_published<P>(
    before: LocalRegionCache<P>,
    after: LocalRegionCache<P>,
    key: LocalMergeKey,
    merged: Option<Arc<Vec<P>>>,
)
    requires
        finish_merge_outcome(before, after, key, merged),
        before.load_epoch != key.load_epoch || before.entries_revision != key.entries_revision
            || before.merge_requested_key != Some(key),
    ensures
        after.merged == before.merged,
        after.merged_key == before.merged_key,
        after.zoom_fallback == before.zoom_fallback,
{
}

/// A manifest selection finished for a window other than the latest
/// requested one never replaces the snapshot.
pub proof fn law_stale_manifest_is_not_published<P>(
    before: LocalRegionCache<P>,
    after: LocalRegionCache<P>,
    key: LocalManifestKey,
    assets: Option<Vec<FocusContourAsset>>,
    manifest_revision: u64,
    now: u64,
)
    requires
        finish_manifest_outcome(before, after, key, assets, manifest_revision, now),
        !(before.manifest_requested_key matches Some(k) && k@ == key@),
    ensures
        after.manifest_snapshot == before.manifest_snapshot,
{
}

/// Reads are driven only by a snapshot of exactly the requested window; a
/// snapshot of another window offers at most its tiles inside the
/// requested prefetch window, for display.
pub proof fn law_reads_come_only_from_the_exact_window(
    snapshot: Option<(ManifestId, Seq<AssetId>)>,
    requested: ManifestId,
)
    ensures
        manifest_views(snapshot, requested).1 <==> (snapshot matches Some((k, _)) && k == requested),
        !manifest_views(snapshot, requested).1 ==> forall|i: int|
            0 <= i < manifest_views(snapshot, requested).0.len() ==> crate::local_cache::in_prefetch_window(
                #[trigger] manifest_views(snapshot, requested).0[i],
                requested,
            ),
{
    if let Some((k, a)) = snapshot {
        if k != requested && crate::local_cache::same_display_contract(k, requested) {
            lemma_window_assets_inside(a, requested);
        }
    }
}

proof fn lemma_window_assets_inside(s: Seq<AssetId>, k: ManifestId)
    ensures
        forall|i: int|
            0 <= i < crate::local_cache::window_assets(s, k).len() ==> crate::local_cache::in_prefetch_window(
                #[trigger] crate::local_cache::window_assets(s, k)[i],
                k,
            ),
    decreases s.len(),
{
    if s.len() > 0 {
        lemma_window_assets_inside(s.drop_last(), k);
        let r = crate::local_cache::window_assets(s.drop_last(), k);
        let w = crate::local_cache::window_assets(s, k);
        assert forall|i: int| 0 <= i < w.len() implies crate::local_cache::in_prefetch_window(
            #[trigger] w[i],
            k,
        ) by {
            if i < r.len() {
                assert(w[i] == r[i]);
            }
        }
    }
}

/// A published non-empty globe merge is what the globe keeps showing (the
/// same shared vector) until the tile set changes.
pub proof fn law_published_globe_merge_is_reused<P>(
    before: GlobeRegionCache<P>,
    after: GlobeRegionCache<P>,
    merged: Seq<P>,
    shown: Option<Arc<Vec<P>>>,
)
    requires
        publish_outcome(before, after, merged, shown),
        merged.len() > 0,
        before.tiles@.len() > 0,
    ensures
        shown is Some,
        globe_render_of(after) == GlobeRender::Show(shown),
{
}

/// While the tiles of a new zoom hold no contours, the globe keeps showing
/// the previous zoom's fallback, before and after the empty merge is
/// published.
pub proof fn law_empty_globe_merge_keeps_the_fallback<P>(
    before: GlobeRegionCache<P>,
    after: GlobeRegionCache<P>,
    shown: Option<Arc<Vec<P>>>,
)
    requires
        publish_outcome(before, after, Seq::empty(), shown),
        before.tiles@.len() > 0,
    ensures
        shown == before.zoom_fallback,
        globe_render_of(after) == GlobeRender::Show(before.zoom_fallback),
{
}

/// Every asset of `s` is a new tile: neither decoded nor claimed.
pub open spec fn all_new(s: Seq<AssetId>, decoded: Seq<TileId>, claimed: Seq<TileId>) -> bool {
    forall|i: int|
        0 <= i < s.len() ==> !decoded.contains(asset_tile(#[trigger] s[i])) && !claimed.contains(
            asset_tile(s[i]),
        )
}

/// The assets of `s` are ordered by distance from the centre, nearest first.
pub open spec fn nearest_ordered(s: Seq<AssetId>, center_lat: i32, center_lon: i32) -> bool {
    forall|i: int, j: int|
        0 <= i < j < s.len() ==> asset_distance(#[trigger] s[i], center_lat, center_lon) <= asset_distance(
            #[trigger] s[j],
            center_lat,
            center_lon,
        )
}

proof fn lemma_unclaimed_new(s: Seq<AssetId>, decoded: Seq<TileId>, claimed: Seq<TileId>)
    ensures
        all_new(unclaimed(s, decoded, claimed), decoded, claimed),
    decreases s.len(),
{
    if s.len() > 0 {
        lemma_unclaimed_new(s.drop_last(), decoded, claimed);
        let r = unclaimed(s.drop_last(), decoded, claimed);
        let u = unclaimed(s, decoded, claimed);
        assert forall|i: int| 0 <= i < u.len() implies !decoded.contains(asset_tile(#[trigger] u[i]))
            && !claimed.contains(asset_tile(u[i])) by {
            if i < r.len() {
                assert(u[i] == r[i]);
            }
        }
    }
}

proof fn lemma_insert_by_distance_props(s: Seq<AssetId>, x: AssetId, clat: i32, clon: i32, decoded: Seq<TileId>, claimed: Seq<TileId>)
    requires
        nearest_ordered(s, clat, clon),
        all_new(s, decoded, claimed),
        all_new(seq![x], decoded, claimed),
    ensures
        nearest_ordered(insert_by_distance(s, x, clat, clon), clat, clon),
        all_new(insert_by_distance(s, x, clat, clon), decoded, claimed),
        insert_by_distance(s, x, clat, clon).len() == s.len() + 1,
        forall|i: int|
            0 <= i < insert_by_distance(s, x, clat, clon).len() ==> (asset_distance(
                #[trigger] insert_by_distance(s, x, clat, clon)[i],
                clat,
                clon,
            ) <= asset_distance(x, clat, clon) || (s.len() > 0 && asset_distance(
                insert_by_distance(s, x, clat, clon)[i],
                clat,
                clon,
            ) <= asset_distance(s.last(), clat, clon))),
    decreases s.len(),
{
    assert(seq![x][0] == x);
    if s.len() == 0 {
    } else if asset_distance(s.last(), clat, clon) <= asset_distance(x, clat, clon) {
        let r = s.push(x);
        assert forall|i: int, j: int| 0 <= i < j < r.len() implies asset_distance(
            #[trigger] r[i],
            clat,
            clon,
        ) <= asset_distance(#[trigger] r[j], clat, clon) by {
            if j == s.len() {
                assert(r[i] == s[i]);
                if i < s.len() - 1 {
                    assert(asset_distance(s[i], clat, clon) <= asset_distance(s[s.len() - 1], clat, clon));
                }
            } else {
                assert(r[i] == s[i] && r[j] == s[j]);
            }
        }
        assert forall|i: int| 0 <= i < r.len() implies !decoded.contains(asset_tile(#[trigger] r[i]))
            && !claimed.contains(asset_tile(r[i])) by {
            if i < s.len() {
                assert(r[i] == s[i]);
            }
        }
        assert forall|i: int| 0 <= i < r.len() implies (asset_distance(#[trigger] r[i], clat, clon)
            <= asset_distance(x, clat, clon) || (s.len() > 0 && asset_distance(r[i], clat, clon)
            <= asset_distance(s.last(), clat, clon))) by {
            if i < s.len() - 1 {
                assert(r[i] == s[i]);
                assert(asset_distance(s[i], clat, clon) <= asset_distance(s[s.len() - 1], clat, clon));
            }
        }
    } else {
        let t = s.drop_last();
        assert forall|i: int, j: int| 0 <= i < j < t.len() implies asset_distance(
            #[trigger] t[i],
            clat,
            clon,
        ) <= asset_distance(#[trigger] t[j], clat, clon) by {
            assert(t[i] == s[i] && t[j] == s[j]);
        }
        assert forall|i: int| 0 <= i < t.len() implies !decoded.contains(asset_tile(#[trigger] t[i]))
            && !claimed.contains(asset_tile(t[i])) by {
            assert(t[i] == s[i]);
        }
        lemma_insert_by_distance_props(t, x, clat, clon, decoded, claimed);
        let m = insert_by_distance(t, x, clat, clon);
        let r = m.push(s.last());
        assert forall|i: int| 0 <= i < m.len() implies asset_distance(#[trigger] m[i], clat, clon)
            <= asset_distance(s.last(), clat, clon) by {
            if asset_distance(m[i], clat, clon) > asset_distance(x, clat, clon) {
                assert(t.len() > 0);
                assert(asset_distance(t[t.len() - 1], clat, clon) <= asset_distance(s[s.len() - 1], clat, clon));
            }
        }
        assert forall|i: int, j: int| 0 <= i < j < r.len() implies asset_distance(
            #[trigger] r[i],
            clat,
            clon,
        ) <= asset_distance(#[trigger] r[j], clat, clon) by {
            if j == m.len() {
                assert(r[i] == m[i]);
            } else {
                assert(r[i] == m[i] && r[j] == m[j]);
            }
        }
        assert forall|i: int| 0 <= i < r.len() implies !decoded.contains(asset_tile(#[trigger] r[i]))
            && !claimed.contains(asset_tile(r[i])) by {
            if i < m.len() {
                assert(r[i] == m[i]);
            }
        }
        assert forall|i: int| 0 <= i < r.len() implies (asset_distance(#[trigger] r[i], clat, clon)
            <= asset_distance(x, clat, clon) || (s.len() > 0 && asset_distance(r[i], clat, clon)
            <= asset_distance(s.last(), clat, clon))) by {
            if i < m.len() {
                assert(r[i] == m[i]);
            }
        }
    }
}

proof fn lemma_nearest_first_props(s: Seq<AssetId>, clat: i32, clon: i32, decoded: Seq<TileId>, claimed: Seq<TileId>)
    requires
        all_new(s, decoded, claimed),
    ensures
        nearest_ordered(nearest_first(s, clat, clon), clat, clon),
        all_new(nearest_first(s, clat, clon), decoded, claimed),
        nearest_first(s, clat, clon).len() == s.len(),
    decreases s.len(),
{
    if s.len() > 0 {
        let t = s.drop_last();
        assert forall|i: int| 0 <= i < t.len() implies !decoded.contains(asset_tile(#[trigger] t[i]))
            && !claimed.contains(asset_tile(t[i])) by {
            assert(t[i] == s[i]);
        }
        lemma_nearest_first_props(t, clat, clon, decoded, claimed);
        assert(seq![s.last()][0] == s[s.len() - 1]);
        lemma_insert_by_distance_props(nearest_first(t, clat, clon), s.last(), clat, clon, decoded, claimed);
    }
}

/// A claimed read batch holds at most eight tiles, none of them decoded or
/// already claimed, nearest the viewport centre first.
pub proof fn law_read_batch_is_small_new_and_nearest_first<P>(
    before: LocalRegionCache<P>,
    after: LocalRegionCache<P>,
    epoch: u64,
    requests: Vec<(TileKey, FocusContourAsset)>,
    assets: Seq<FocusContourAsset>,
    center_lat_bucket: i32,
    center_lon_bucket: i32,
    now: u64,
)
    requires
        read_outcome(
            before,
            after,
            Some((epoch, requests)),
            assets,
            center_lat_bucket,
            center_lon_bucket,
            now,
        ),
    ensures
        requests@.len() <= LOCAL_CONTOUR_READ_BATCH_SIZE,
        all_new(request_ids(requests@), decoded_ids(before.entries@), tile_ids(before.in_flight@)),
        nearest_ordered(request_ids(requests@), center_lat_bucket, center_lon_bucket),
{
    let decoded = decoded_ids(before.entries@);
    let claimed = tile_ids(before.in_flight@);
    let u = unclaimed(asset_ids(assets), decoded, claimed);
    lemma_unclaimed_new(asset_ids(assets), decoded, claimed);
    lemma_nearest_first_props(u, center_lat_bucket, center_lon_bucket, decoded, claimed);
    let sorted = nearest_first(u, center_lat_bucket, center_lon_bucket);
    let batch = read_batch(asset_ids(assets), decoded, claimed, center_lat_bucket, center_lon_bucket);
    assert(request_ids(requests@) == batch);
    if sorted.len() > LOCAL_CONTOUR_READ_BATCH_SIZE {
        let b = sorted.take(LOCAL_CONTOUR_READ_BATCH_SIZE as int);
        assert forall|i: int, j: int| 0 <= i < j < b.len() implies asset_distance(
            #[trigger] b[i],
            center_lat_bucket,
            center_lon_bucket,
        ) <= asset_distance(#[trigger] b[j], center_lat_bucket, center_lon_bucket) by {
            assert(b[i] == sorted[i] && b[j] == sorted[j]);
        }
        assert forall|i: int| 0 <= i < b.len() implies !decoded.contains(asset_tile(#[trigger] b[i]))
            && !claimed.contains(asset_tile(b[i])) by {
            assert(b[i] == sorted[i]);
        }
    }
}

/// Retention keeps exactly the decoded tiles within the radius of the
/// centre.
pub proof fn law_retention_keeps_exactly_the_near_tiles<P>(
    tiles: Seq<(TileId, Seq<P>)>,
    center_lat_bucket: i32,
    center_lon_bucket: i32,
    radius: int,
    tile: (TileId, Seq<P>),
)
    ensures
        within(tiles, center_lat_bucket, center_lon_bucket, radius).contains(tile) <==> (tiles.contains(
            tile,
        ) && bucket_distance(
            tile.0.1 as int,
            tile.0.2 as int,
            center_lat_bucket as int,
            center_lon_bucket as int,
        ) <= radius),
    decreases tiles.len(),
{
    if tiles.len() > 0 {
        let t = tiles.drop_last();
        law_retention_keeps_exactly_the_near_tiles(t, center_lat_bucket, center_lon_bucket, radius, tile);
        let r = within(t, center_lat_bucket, center_lon_bucket, radius);
        let w = within(tiles, center_lat_bucket, center_lon_bucket, radius);
        if w.contains(tile) {
            let k = choose|k: int| 0 <= k < w.len() && w[k] == tile;
            if k < r.len() {
                assert(w[k] == r[k]);
                assert(r.contains(tile));
                let m = choose|m: int| 0 <= m < t.len() && t[m] == tile;
                assert(tiles[m] == tile);
            } else {
                assert(tiles[tiles.len() - 1] == tile);
            }
        }
        if tiles.contains(tile) && bucket_distance(
            tile.0.1 as int,
            tile.0.2 as int,
            center_lat_bucket as int,
            center_lon_bucket as int,
        ) <= radius {
            let m = choose|m: int| 0 <= m < tiles.len() && tiles[m] == tile;
            if m < t.len() {
                assert(t[m] == tile);
                assert(t.contains(tile));
                let k = choose|k: int| 0 <= k < r.len() && r[k] == tile;
                assert(w[k] == tile);
            } else {
                assert(w[w.len() - 1] == tile);
            }
        }
    }
}

proof fn lemma_evictions_prefix(c: Seq<Candidate>, resident: int, budget: int)
    ensures
        evictions(c, resident, budget).0.len() <= c.len(),
        forall|k: int|
            0 <= k < evictions(c, resident, budget).0.len() ==> #[trigger] evictions(c, resident, budget).0[k]
                == c[k].0,
        evictions(c, resident, budget).1 <= budget || evictions(c, resident, budget).0.len() == c.len(),
    decreases c.len(),
{
    if c.len() > 0 && resident > budget {
        let next = if resident >= c[0].2 { resident - c[0].2 } else { 0 };
        lemma_evictions_prefix(c.drop_first(), next, budget);
        let rest = evictions(c.drop_first(), next, budget);
        let all = evictions(c, resident, budget);
        assert(all.0 == seq![c[0].0].add(rest.0));
        assert forall|k: int| 0 <= k < all.0.len() implies #[trigger] all.0[k] == c[k].0 by {
            if k > 0 {
                assert(all.0[k] == rest.0[k - 1]);
                assert(c.drop_first()[k - 1] == c[k]);
            }
        }
    }
}

proof fn lemma_insert_by_age_members(s: Seq<Candidate>, x: Candidate)
    ensures
        forall|y: Candidate| #[trigger] insert_by_age(s, x).contains(y) ==> y == x || s.contains(y),
    decreases s.len(),
{
    if s.len() > 0 {
        lemma_insert_by_age_members(s.drop_last(), x);
        assert forall|y: Candidate| #[trigger] insert_by_age(s, x).contains(y) implies y == x || s.contains(y) by {
            let r = insert_by_age(s, x);
            let k = choose|k: int| 0 <= k < r.len() && r[k] == y;
            if s.last().1 <= x.1 {
                if k < s.len() {
                    assert(s[k] == y);
                }
            } else {
                let m = insert_by_age(s.drop_last(), x);
                if k < m.len() {
                    assert(m[k] == y);
                    assert(m.contains(y));
                    if s.drop_last().contains(y) {
                        let q = choose|q: int| 0 <= q < s.drop_last().len() && s.drop_last()[q] == y;
                        assert(s[q] == y);
                    }
                } else {
                    assert(s[s.len() - 1] == y);
                }
            }
        }
    }
}

proof fn lemma_oldest_first_members(s: Seq<Candidate>)
    ensures
        forall|y: Candidate| #[trigger] oldest_first(s).contains(y) ==> s.contains(y),
    decreases s.len(),
{
    if s.len() > 0 {
        lemma_oldest_first_members(s.drop_last());
        lemma_insert_by_age_members(oldest_first(s.drop_last()), s.last());
        assert forall|y: Candidate| #[trigger] oldest_first(s).contains(y) implies s.contains(y) by {
            if y != s.last() {
                assert(oldest_first(s.drop_last()).contains(y));
                let q = choose|q: int| 0 <= q < s.drop_last().len() && s.drop_last()[q] == y;
                assert(s[q] == y);
            } else {
                assert(s[s.len() - 1] == y);
            }
        }
    }
}

proof fn lemma_evictable_members<B>(t: Seq<(LocalTileId, TileSlot<B>)>, frame: u64)
    ensures
        forall|c: Candidate|
            #[trigger] evictable(t, frame).contains(c) ==> c.1 != frame && exists|i: int|
                0 <= i < t.len() && t[i].0 == c.0 && t[i].1.last_used == c.1,
    decreases t.len(),
{
    if t.len() > 0 {
        lemma_evictable_members(t.drop_last(), frame);
        let r = evictable(t.drop_last(), frame);
        assert forall|c: Candidate| #[trigger] evictable(t, frame).contains(c) implies c.1 != frame && exists|
            i: int,
        | 0 <= i < t.len() && t[i].0 == c.0 && t[i].1.last_used == c.1 by {
            let e = evictable(t, frame);
            let k = choose|k: int| 0 <= k < e.len() && e[k] == c;
            if k < r.len() {
                assert(r[k] == c);
                assert(r.contains(c));
                let i = choose|i: int| 0 <= i < t.drop_last().len() && t.drop_last()[i].0 == c.0
                    && t.drop_last()[i].1.last_used == c.1;
                assert(t[i] == t.drop_last()[i]);
            } else {
                assert(t[t.len() - 1].0 == c.0);
            }
        }
    }
}

/// Eviction never drops a tile drawn in the current frame, and it stops as
/// soon as the charge fits the budget (or when no candidate is left).
pub proof fn law_eviction_spares_the_current_frame<B>(
    tiles: Seq<(LocalTileId, TileSlot<B>)>,
    frame: u64,
    resident: u64,
    budget: u64,
)
    requires
        slot_ids(tiles).no_duplicates(),
    ensures
        ({
            let cands = oldest_first(evictable(tiles, frame));
            let plan = evictions(cands, resident as int, budget as int);
            &&& forall|k: int, i: int|
                0 <= k < plan.0.len() && 0 <= i < tiles.len() && tiles[i].0 == #[trigger] plan.0[k]
                    ==> (#[trigger] tiles[i]).1.last_used != frame
            &&& (plan.1 <= budget || plan.0.len() == cands.len())
        }),
{
    let cands = oldest_first(evictable(tiles, frame));
    let plan = evictions(cands, resident as int, budget as int);
    lemma_evictions_prefix(cands, resident as int, budget as int);
    lemma_oldest_first_members(evictable(tiles, frame));
    lemma_evictable_members(tiles, frame);
    assert forall|k: int, i: int|
        0 <= k < plan.0.len() && 0 <= i < tiles.len() && tiles[i].0 == #[trigger] plan.0[k] implies (
        #[trigger] tiles[i]).1.last_used != frame by {
        let c = cands[k];
        assert(cands.contains(c));
        assert(evictable(tiles, frame).contains(c));
        let j = choose|j: int| 0 <= j < tiles.len() && tiles[j].0 == c.0 && tiles[j].1.last_used == c.1;
        if i != j {
            assert(slot_ids(tiles)[i] == slot_ids(tiles)[j]);
        }
    }
}

/// The sum of a list of counts.
pub open spec fn total(s: Seq<nat>) -> nat
    decreases s.len(),
{
    if s.len() == 0 {
        0
    } else {
        s[0] + total(s.drop_first())
    }
}

/// Splitting `count` instances into buffers of at most `per` covers them
/// all, and every buffer holds between one and `per` instances.
pub proof fn law_chunks_cover_and_fit(count: nat, per: nat)
    requires
        per >= 1,
    ensures
        total(chunk_sizes(count, per)) == count,
        forall|i: int|
            0 <= i < chunk_sizes(count, per).len() ==> 1 <= #[trigger] chunk_sizes(count, per)[i] <= per,
    decreases count,
{
    if count > per {
        let rest = (count - per) as nat;
        law_chunks_cover_and_fit(rest, per);
        let c = chunk_sizes(count, per);
        assert(c == seq![per] + chunk_sizes(rest, per));
        assert(c.drop_first() =~= chunk_sizes(rest, per));
        assert(c[0] == per);
        assert(total(c) == c[0] + total(c.drop_first()));
        assert forall|i: int| 0 <= i < c.len() implies 1 <= #[trigger] c[i] <= per by {
            if i > 0 {
                assert(c[i] == chunk_sizes(rest, per)[i - 1]);
            }
        }
    } else if count > 0 {
        assert(chunk_sizes(count, per) =~= seq![count]);
        assert(seq![count].drop_first() =~= Seq::<nat>::empty());
        assert(total(seq![count]) == seq![count][0] + total(seq![count].drop_first()));
    }
}

/// Whenever a buffer can hold one instance, a buffer of the planned size
/// stays under the device limit less the headroom.
pub proof fn law_buffers_land_under_the_limit(max_buffer_size: u64, stride: usize)
    requires
        stride >= 1,
        max_buffer_size as usize as int >= BUFFER_HEADROOM + stride,
    ensures
        per_buffer(max_buffer_size, stride) * stride <= max_buffer_size as usize as int - BUFFER_HEADROOM,
{
    let budget = max_buffer_size as usize as int - BUFFER_HEADROOM;
    let n = budget / stride as int;
    lemma_fundamental_div_mod(budget, stride as int);
    assert(n >= 1 && n * stride <= budget) by (nonlinear_arith)
        requires
            budget >= stride,
            stride >= 1,
            budget == stride * n + budget % (stride as int),
            0 <= budget % (stride as int) < stride,
    {
        if n < 1 {
            assert(stride * n <= 0);
        }
    }
}

/// Every administrative boundary kept from a file has at least two points.
pub proof fn law_boundaries_have_two_points(level: u8, features: Seq<RawFeature<PointBits>>)
    ensures
        forall|i: int|
            0 <= i < admin_boundaries_of(level, features).len() ==> (#[trigger] admin_boundaries_of(
                level,
                features,
            )[i]).3.len() >= 2,
    decreases features.len(),
{
    if features.len() > 0 {
        law_boundaries_have_two_points(level, features.drop_last());
        let r = admin_boundaries_of(level, features.drop_last());
        let all = admin_boundaries_of(level, features);
        assert forall|i: int| 0 <= i < all.len() implies (#[trigger] all[i]).3.len() >= 2 by {
            if i < r.len() {
                assert(all[i] == r[i]);
            }
        }
    }
}

/// Every polyline kept from a cell file has at least two points.
pub proof fn law_polylines_have_two_points(features: Seq<RawFeature<PointBits>>)
    ensures
        forall|i: int| 0 <= i < polylines_of(features).len() ==> (#[trigger] polylines_of(features)[i]).3.len() >= 2,
    decreases features.len(),
{
    if features.len() > 0 {
        law_polylines_have_two_points(features.drop_last());
        let r = polylines_of(features.drop_last());
        let all = polylines_of(features);
        assert forall|i: int| 0 <= i < all.len() implies (#[trigger] all[i]).3.len() >= 2 by {
            if i < r.len() {
                assert(all[i] == r[i]);
            }
        }
    }
}

/// The ready cells of a local window are distinct cells of its build window.
pub proof fn law_ready_cells_are_distinct_window_cells(
    assets: Seq<AssetId>,
    center_lat: i32,
    center_lon: i32,
    zoom_bucket: i32,
    radius: int,
)
    ensures
        ready_cells(assets, center_lat, center_lon, zoom_bucket, radius).no_duplicates(),
        forall|i: int|
            0 <= i < ready_cells(assets, center_lat, center_lon, zoom_bucket, radius).len() ==> bucket_distance(
                (#[trigger] ready_cells(assets, center_lat, center_lon, zoom_bucket, radius)[i]).0 as int,
                ready_cells(assets, center_lat, center_lon, zoom_bucket, radius)[i].1 as int,
                center_lat as int,
                center_lon as int,
            ) <= radius,
    decreases assets.len(),
{
    if assets.len() > 0 {
        law_ready_cells_are_distinct_window_cells(assets.drop_last(), center_lat, center_lon, zoom_bucket, radius);
        let r = ready_cells(assets.drop_last(), center_lat, center_lon, zoom_bucket, radius);
        let all = ready_cells(assets, center_lat, center_lon, zoom_bucket, radius);
        assert forall|i: int| 0 <= i < all.len() implies bucket_distance(
            (#[trigger] all[i]).0 as int,
            all[i].1 as int,
            center_lat as int,
            center_lon as int,
        ) <= radius by {
            if i < r.len() {
                assert(all[i] == r[i]);
            }
        }
        assert forall|i: int, j: int| 0 <= i < all.len() && 0 <= j < all.len() && i != j implies all[i]
            != all[j] by {
            if i < r.len() && j < r.len() {
                assert(all[i] == r[i] && all[j] == r[j]);
            } else if i < r.len() {
                assert(all[i] == r[i]);
                assert(r.contains(r[i]));
            } else if j < r.len() {
                assert(all[j] == r[j]);
                assert(r.contains(r[j]));
            }
        }
    }
}


/// Flattening a merge keeps every contour line unchanged: the lines that
/// come out are, in order, the values of the tiles' lines one after the
/// other.
pub proof fn law_flatten_keeps_every_contour<K, E: Copy>(
    tiles: Seq<(K, Arc<Vec<ContourLine<E>>>)>,
    merged: Seq<ContourLine<E>>,
)
    requires
        clones_of(flat(contour_lists(tiles)), merged),
    ensures
        line_views(merged) == line_views(flat(contour_lists(tiles))),
{
    let all = flat(contour_lists(tiles));
    assert forall|k: int| 0 <= k < merged.len() implies #[trigger] merged[k]@ == all[k]@ by {
        assert(cloned(all[k], merged[k]));
    }
    assert(line_views(merged) =~= line_views(all));
}


/// At most one road (or water) build runs: while one runs, asking again
/// starts nothing and changes nothing.
pub proof fn law_one_road_build_at_a_time<C>(
    before: RoadCacheStore<C>,
    after: RoadCacheStore<C>,
    want: RoadCoverage,
    r: Option<RoadCoverage>,
)
    requires
        before.building,
        road_build_outcome(before, after, want, r),
    ensures
        r is None,
        after == before,
{
}

/// A finished build serves the request it started for: once the cache built
/// for the widened range is installed, asking again for the same range
/// starts no build.
pub proof fn law_finished_road_build_serves_its_request<C>(
    s0: RoadCacheStore<C>,
    s1: RoadCacheStore<C>,
    want: RoadCoverage,
    started: Option<RoadCoverage>,
    data: C,
    s2: RoadCacheStore<C>,
    again: Option<RoadCoverage>,
)
    requires
        want.tile_x_max < u32::MAX,
        want.tile_y_max < u32::MAX,
        road_build_outcome(s0, s1, want, started),
        started is Some,
        s2.cache == Some((started->0, data)),
        !s2.building,
    ensures
        road_build_outcome(s2, s2, want, None),
        forall|s3: RoadCacheStore<C>, r: Option<RoadCoverage>|
            road_build_outcome(s2, s3, want, r) ==> r is None && s3 == s2,
{
    assert(covers(with_margin(want), want));
}


/// The depth-fill grid is read row-major, 180 cells to a row: the depth of
/// cell (`row`, `col`) is sample `row * 180 + col` when that sample is below
/// sea level and not the nodata value -32767, and nothing otherwise. Cells
/// past the last row or column read the last one.
pub proof fn law_depth_fill_is_row_major(pixels: Seq<i16>, row: int, col: int)
    requires
        pixels.len() == 180 * 90,
        0 <= row,
        0 <= col,
    ensures
        ({
            let r = if row > 89 { 89 } else { row };
            let c = if col > 179 { 179 } else { col };
            let v = pixels[r * 180 + c];
            fill_depth(pixels, row, col) == (if v < 0 && v != -32767 { Some(v) } else { None::<i16> })
        }),
{
}

/// The points of a coordinate list that are present, in order.
pub open spec fn present(s: Seq<Option<PointBits>>) -> Seq<PointBits>
    decreases s.len(),
{
    if s.len() == 0 {
        Seq::empty()
    } else if s[0] is Some {
        seq![s[0]->0] + present(s.drop_first())
    } else {
        present(s.drop_first())
    }
}

proof fn lemma_present_push(s: Seq<Option<PointBits>>, x: Option<PointBits>)
    ensures
        present(s.push(x)) == (match x {
            Some(p) => present(s).push(p),
            None => present(s),
        }),
    decreases s.len(),
{
    if s.len() == 0 {
        assert(s.push(x).drop_first() =~= s);
        assert(present(s) =~= Seq::<PointBits>::empty());
        if x is Some {
            assert(seq![x->0] + Seq::<PointBits>::empty() =~= Seq::<PointBits>::empty().push(x->0));
        }
    } else {
        assert(s.push(x).drop_first() =~= s.drop_first().push(x));
        lemma_present_push(s.drop_first(), x);
        if s[0] is Some {
            if x is Some {
                assert(seq![s[0]->0] + present(s.drop_first()).push(x->0) =~= (seq![s[0]->0] + present(
                    s.drop_first(),
                )).push(x->0));
            }
        }
    }
}

proof fn lemma_present_matches(s: Seq<Option<PointBits>>)
    ensures
        present(s) == crate::features::present_points(s),
    decreases s.len(),
{
    if s.len() > 0 {
        lemma_present_matches(s.drop_last());
        assert(s.drop_last().push(s.last()) =~= s);
        lemma_present_push(s.drop_last(), s.last());
    }
}

/// A polygon feature of a cell layer gives the points of its first ring: it
/// is kept exactly when that ring has at least two well-formed points, and
/// then as a polygon with exactly those points, in order; a line string
/// gives the points of its coordinate array likewise, as no polygon.
pub proof fn law_polygons_take_their_first_ring(f: RawFeature<PointBits>, g: RawGeometry<PointBits>, kind: Seq<char>)
    requires
        f.geometry == Some(g),
        g.kind matches Some(k) && k@ == kind,
        kind == "Polygon"@ || kind == "LineString"@,
    ensures
        ({
            let list = if kind == "Polygon"@ { g.first_ring } else { g.coordinates };
            &&& polyline_of(f) is Some <==> (list is Some && present(list->0@).len() >= 2)
            &&& polyline_of(f) matches Some(v) ==> v.3 == present(list->0@) && v.4 == (kind == "Polygon"@)
        }),
{
    reveal_strlit("Polygon");
    reveal_strlit("LineString");
    assert("Polygon"@.len() == 7 && "LineString"@.len() == 10);
    assert("Polygon"@ != "LineString"@);
    assert(crate::features::kind_text(g) == kind);
    match g.first_ring {
        Some(r) => lemma_present_matches(r@),
        None => {},
    }
    match g.coordinates {
        Some(c) => lemma_present_matches(c@),
        None => {},
    }
}


/// A depth sample is ocean: below sea level and not the nodata value.
pub open spec fn ocean_depth(v: i16) -> bool {
    v < 0 && v != -32767
}

/// Row-major position of a cell of the 1440-column depth grid.
pub open spec fn grid_pos(c: (u32, u32, i16)) -> int {
    c.0 * 1440 + c.1
}

/// `cells` lists ocean cells of `pixels` on the sampling lattice of `s`:
/// each a cell of the grid at a row and a column that are multiples of `s`,
/// with its own sample, in strictly increasing row-major order.
pub open spec fn lattice_ocean_cells(pixels: Seq<i16>, s: int, cells: Seq<(u32, u32, i16)>, rows: int) -> bool {
    &&& forall|k: int|
        0 <= k < cells.len() ==> {
            let c = #[trigger] cells[k];
            &&& c.0 < rows && c.1 < 1440
            &&& (c.0 as int) % s == 0 && (c.1 as int) % s == 0
            &&& c.2 == pixels[c.0 * 1440 + c.1]
            &&& ocean_depth(c.2)
        }
    &&& forall|k1: int, k2: int| 0 <= k1 < k2 < cells.len() ==> grid_pos(#[trigger] cells[k1]) < grid_pos(#[trigger] cells[k2])
}

proof fn lemma_row_ocean_cells(pixels: Seq<i16>, s: int, row: int, c: int)
    requires
        s >= 1,
        0 <= row < 720,
        0 <= c <= 1440,
        pixels.len() == 1440 * 720,
    ensures
        ({
            let cells = row_ocean_cells(pixels, s, row, c);
            &&& forall|k: int|
                0 <= k < cells.len() ==> {
                    let x = #[trigger] cells[k];
                    &&& x.0 == row && x.1 < c
                    &&& (x.1 as int) % s == 0
                    &&& x.2 == pixels[row * 1440 + x.1]
                    &&& ocean_depth(x.2)
                }
            &&& forall|k1: int, k2: int| 0 <= k1 < k2 < cells.len() ==> (#[trigger] cells[k1]).1 < (#[trigger] cells[k2]).1
            &&& forall|col: int|
                0 <= col < c && col % s == 0 && ocean_depth(#[trigger] pixels[row * 1440 + col]) ==> cells.contains(
                    (row as u32, col as u32, pixels[row * 1440 + col]),
                )
        }),
    decreases c,
{
    let cells = row_ocean_cells(pixels, s, row, c);
    if c > 0 {
        lemma_row_ocean_cells(pixels, s, row, c - 1);
        let prev = row_ocean_cells(pixels, s, row, c - 1);
        let v = pixels[row * 1440 + (c - 1)];
        assert forall|col: int|
            0 <= col < c && col % s == 0 && ocean_depth(#[trigger] pixels[row * 1440 + col]) implies cells.contains(
            (row as u32, col as u32, pixels[row * 1440 + col]),
        ) by {
            if col < c - 1 {
                let k = choose|k: int| 0 <= k < prev.len() && prev[k] == (row as u32, col as u32, pixels[row * 1440 + col]);
                assert(cells[k] == prev[k]);
            } else {
                assert(cells[cells.len() - 1] == (row as u32, col as u32, v));
            }
        }
        assert forall|k: int| 0 <= k < cells.len() implies {
            let x = #[trigger] cells[k];
            &&& x.0 == row && x.1 < c
            &&& (x.1 as int) % s == 0
            &&& x.2 == pixels[row * 1440 + x.1]
            &&& ocean_depth(x.2)
        } by {
            if k < prev.len() {
                assert(cells[k] == prev[k]);
            }
        }
        assert forall|k1: int, k2: int| 0 <= k1 < k2 < cells.len() implies (#[trigger] cells[k1]).1 < (
        #[trigger] cells[k2]).1 by {
            assert(cells[k1] == prev[k1]);
            if k2 < prev.len() {
                assert(cells[k2] == prev[k2]);
            }
        }
    }
}

proof fn lemma_ocean_cells_upto(pixels: Seq<i16>, s: int, r: int)
    requires
        s >= 1,
        0 <= r <= 720,
        pixels.len() == 1440 * 720,
    ensures
        ({
            let cells = ocean_cells_upto(pixels, s, r);
            &&& lattice_ocean_cells(pixels, s, cells, r)
            &&& forall|row: int, col: int|
                0 <= row < r && 0 <= col < 1440 && row % s == 0 && col % s == 0 && ocean_depth(
                    #[trigger] pixels[row * 1440 + col],
                ) ==> cells.contains((row as u32, col as u32, pixels[row * 1440 + col]))
        }),
    decreases r,
{
    let cells = ocean_cells_upto(pixels, s, r);
    if r > 0 {
        lemma_ocean_cells_upto(pixels, s, r - 1);
        let prev = ocean_cells_upto(pixels, s, r - 1);
        if (r - 1) % s == 0 {
            lemma_row_ocean_cells(pixels, s, r - 1, 1440);
            let rc = row_ocean_cells(pixels, s, r - 1, 1440);
            assert(cells == prev + rc);
            assert forall|k: int| 0 <= k < cells.len() implies {
                let c = #[trigger] cells[k];
                &&& c.0 < r && c.1 < 1440
                &&& (c.0 as int) % s == 0 && (c.1 as int) % s == 0
                &&& c.2 == pixels[c.0 * 1440 + c.1]
                &&& ocean_depth(c.2)
            } by {
                if k < prev.len() {
                    assert(cells[k] == prev[k]);
                } else {
                    assert(cells[k] == rc[k - prev.len()]);
                }
            }
            assert forall|k1: int, k2: int| 0 <= k1 < k2 < cells.len() implies grid_pos(#[trigger] cells[k1])
                < grid_pos(#[trigger] cells[k2]) by {
                if k2 < prev.len() {
                    assert(cells[k1] == prev[k1] && cells[k2] == prev[k2]);
                } else if k1 >= prev.len() {
                    assert(cells[k1] == rc[k1 - prev.len()] && cells[k2] == rc[k2 - prev.len()]);
                } else {
                    assert(cells[k1] == prev[k1] && cells[k2] == rc[k2 - prev.len()]);
                    assert(prev[k1].0 < r - 1 && prev[k1].1 < 1440);
                    assert(rc[k2 - prev.len()].0 == r - 1);
                }
            }
            assert forall|row: int, col: int|
                0 <= row < r && 0 <= col < 1440 && row % s == 0 && col % s == 0 && ocean_depth(
                    #[trigger] pixels[row * 1440 + col],
                ) implies cells.contains((row as u32, col as u32, pixels[row * 1440 + col])) by {
                if row < r - 1 {
                    let k = choose|k: int| 0 <= k < prev.len() && prev[k] == (row as u32, col as u32, pixels[row * 1440 + col]);
                    assert(cells[k] == prev[k]);
                } else {
                    let k = choose|k: int| 0 <= k < rc.len() && rc[k] == (row as u32, col as u32, pixels[row * 1440 + col]);
                    assert(cells[prev.len() + k] == rc[k]);
                }
            }
        }
    }
}

/// The ocean cells listed at a sampling step are exactly the grid cells
/// whose row and column are both multiples of the step (at least one), whose
/// sample is below sea level and not nodata, each with its own sample, in
/// row-major order.
pub proof fn law_ocean_cells_sample_rows_and_columns(pixels: Seq<i16>, step: u32)
    requires
        pixels.len() == 1440 * 720,
    ensures
        ({
            let s: int = if step == 0 { 1 } else { step as int };
            let cells = ocean_cells_upto(pixels, s, 720);
            &&& lattice_ocean_cells(pixels, s, cells, 720)
            &&& forall|row: int, col: int|
                0 <= row < 720 && 0 <= col < 1440 && row % s == 0 && col % s == 0 && ocean_depth(
                    #[trigger] pixels[row * 1440 + col],
                ) ==> cells.contains((row as u32, col as u32, pixels[row * 1440 + col]))
        }),
{
    let s: int = if step == 0 { 1 } else { step as int };
    lemma_ocean_cells_upto(pixels, s, 720);
}


/// Two binary32 patterns compare equal as `f32` values: neither is a NaN
/// (exponent all ones, fraction not zero), and they are the same pattern or
/// both zeros.
pub open spec fn f32_values_equal(a: u32, b: u32) -> bool {
    let a_nan = (a / 0x80_0000) % 0x100 == 0xff && a % 0x80_0000 != 0;
    let b_nan = (b / 0x80_0000) % 0x100 == 0xff && b % 0x80_0000 != 0;
    !a_nan && !b_nan && (a == b || (a % 0x8000_0000 == 0 && b % 0x8000_0000 == 0))
}

/// Two points are the same place: both ordinates compare equal as `f32`.
pub open spec fn same_place(a: PointBits, b: PointBits) -> bool {
    f32_values_equal(a.lat_bits, b.lat_bits) && f32_values_equal(a.lon_bits, b.lon_bits)
}

/// The points of `s[..k]` at index 0, at the last index of `s` and at the
/// multiples of `step`, in order.
pub open spec fn lattice_points(s: Seq<PointBits>, step: int, k: int) -> Seq<PointBits>
    decreases k,
{
    if k <= 0 {
        Seq::empty()
    } else {
        let i = k - 1;
        let t = lattice_points(s, step, i);
        if i == 0 || i == s.len() - 1 || i % step == 0 {
            t.push(s[i])
        } else {
            t
        }
    }
}

proof fn lemma_lattice_points(s: Seq<PointBits>, step: int, k: int)
    requires
        0 <= k <= s.len(),
    ensures
        crate::polyline::thinned_prefix(s, step, k) == lattice_points(s, step, k),
    decreases k,
{
    if k > 0 {
        lemma_lattice_points(s, step, k - 1);
    }
}

/// The input positions the lattice points of `s[..k]` come from.
proof fn lemma_lattice_positions(s: Seq<PointBits>, step: int, k: int) -> (idx: Seq<int>)
    requires
        0 <= k <= s.len(),
    ensures
        idx.len() == lattice_points(s, step, k).len(),
        forall|a: int| 0 <= a < idx.len() ==> 0 <= #[trigger] idx[a] < k && lattice_points(s, step, k)[a] == s[idx[a]],
    decreases k,
{
    if k == 0 {
        Seq::empty()
    } else {
        let prev = lemma_lattice_positions(s, step, k - 1);
        let t = lattice_points(s, step, k - 1);
        let l = lattice_points(s, step, k);
        let i = k - 1;
        if i == 0 || i == s.len() - 1 || i % step == 0 {
            let idx = prev.push(i);
            assert forall|a: int| 0 <= a < idx.len() implies 0 <= #[trigger] idx[a] < k && l[a] == s[idx[a]] by {
                if a < prev.len() {
                    assert(idx[a] == prev[a] && l[a] == t[a]);
                }
            }
            idx
        } else {
            prev
        }
    }
}

proof fn lemma_lattice_points_apart(s: Seq<PointBits>, step: int, k: int)
    requires
        0 <= k <= s.len(),
        forall|i: int, j: int| 0 <= i < j < s.len() ==> !same_place(#[trigger] s[i], #[trigger] s[j]),
    ensures
        forall|a: int, b: int|
            0 <= a < b < lattice_points(s, step, k).len() ==> !same_place(
                #[trigger] lattice_points(s, step, k)[a],
                #[trigger] lattice_points(s, step, k)[b],
            ),
    decreases k,
{
    if k > 0 {
        lemma_lattice_points_apart(s, step, k - 1);
        let idx = lemma_lattice_positions(s, step, k - 1);
        let t = lattice_points(s, step, k - 1);
        let l = lattice_points(s, step, k);
        assert forall|a: int, b: int| 0 <= a < b < l.len() implies !same_place(#[trigger] l[a], #[trigger] l[b]) by {
            assert(l[a] == t[a]);
            if b < t.len() {
                assert(l[b] == t[b]);
            } else {
                assert(l[b] == s[k - 1]);
                let p = idx[a];
                assert(t[a] == s[p] && p < k - 1);
                assert(!same_place(s[p], s[k - 1]));
            }
        }
    }
}

proof fn lemma_dedup_of_apart(t: Seq<PointBits>)
    requires
        forall|a: int, b: int| 0 <= a < b < t.len() ==> !same_place(#[trigger] t[a], #[trigger] t[b]),
    ensures
        crate::polyline::dedup_points(t) == t,
    decreases t.len(),
{
    if t.len() > 0 {
        let u = t.drop_last();
        assert forall|a: int, b: int| 0 <= a < b < u.len() implies !same_place(#[trigger] u[a], #[trigger] u[b]) by {
            assert(u[a] == t[a] && u[b] == t[b]);
        }
        lemma_dedup_of_apart(u);
        if u.len() > 0 {
            assert(!same_place(t[u.len() - 1], t[u.len() as int]));
            assert(!same_point(u.last(), t.last()));
        }
        assert(u.push(t.last()) =~= t);
    }
}

/// Thinning keeps the first point, the last point and every `step`-th point
/// (a step of at most one, or a line of at most two points, keeps every
/// point); it drops a kept point as a repeat only when both its latitude and
/// its longitude compare equal, as `f32`, to the point kept before it, so a
/// line with no two such equal points keeps exactly those points, in order.
pub proof fn law_thinning_keeps_the_lattice_points(s: Seq<PointBits>, step: int)
    requires
        forall|i: int, j: int| 0 <= i < j < s.len() ==> !same_place(#[trigger] s[i], #[trigger] s[j]),
    ensures
        simplified(s, step) == (if s.len() <= 2 || step <= 1 {
            s
        } else {
            lattice_points(s, step, s.len() as int)
        }),
{
    if !(s.len() <= 2 || step <= 1) {
        lemma_lattice_points(s, step, s.len() as int);
        lemma_lattice_points_apart(s, step, s.len() as int);
        lemma_dedup_of_apart(lattice_points(s, step, s.len() as int));
    }
}


/// The Chebyshev distance, in buckets, of a bucket pair from the centre: the
/// larger of the latitude and the longitude differences.
pub open spec fn bucket_gap(lat: i32, lon: i32, center_lat: i32, center_lon: i32) -> int {
    let dlat: int = lat - center_lat;
    let dlon: int = lon - center_lon;
    let alat: int = if dlat < 0 { -dlat } else { dlat };
    let alon: int = if dlon < 0 { -dlon } else { dlon };
    if alat >= alon { alat } else { alon }
}

proof fn lemma_insert_by_distance_contains(s: Seq<AssetId>, x: AssetId, clat: i32, clon: i32)
    ensures
        insert_by_distance(s, x, clat, clon).contains(x),
        forall|c: AssetId| s.contains(c) ==> #[trigger] insert_by_distance(s, x, clat, clon).contains(c),
    decreases s.len(),
{
    let r = insert_by_distance(s, x, clat, clon);
    if s.len() == 0 {
        assert(r[0] == x);
    } else if asset_distance(s.last(), clat, clon) <= asset_distance(x, clat, clon) {
        assert(r[s.len() as int] == x);
        assert forall|c: AssetId| s.contains(c) implies #[trigger] r.contains(c) by {
            let k = choose|k: int| 0 <= k < s.len() && s[k] == c;
            assert(r[k] == c);
        }
    } else {
        let t = s.drop_last();
        lemma_insert_by_distance_contains(t, x, clat, clon);
        let q = insert_by_distance(t, x, clat, clon);
        assert(r == q.push(s.last()));
        let w = choose|w: int| 0 <= w < q.len() && q[w] == x;
        assert(r[w] == x);
        assert forall|c: AssetId| s.contains(c) implies #[trigger] r.contains(c) by {
            let k = choose|k: int| 0 <= k < s.len() && s[k] == c;
            if k < t.len() {
                assert(t[k] == c);
                assert(q.contains(c));
                let v = choose|v: int| 0 <= v < q.len() && q[v] == c;
                assert(r[v] == c);
            } else {
                assert(r[q.len() as int] == c);
            }
        }
    }
}

proof fn lemma_nearest_first_contains(s: Seq<AssetId>, clat: i32, clon: i32)
    ensures
        forall|c: AssetId| s.contains(c) ==> #[trigger] nearest_first(s, clat, clon).contains(c),
    decreases s.len(),
{
    if s.len() > 0 {
        let t = s.drop_last();
        lemma_nearest_first_contains(t, clat, clon);
        lemma_insert_by_distance_contains(nearest_first(t, clat, clon), s.last(), clat, clon);
        assert forall|c: AssetId| s.contains(c) implies #[trigger] nearest_first(s, clat, clon).contains(c) by {
            let k = choose|k: int| 0 <= k < s.len() && s[k] == c;
            if k < t.len() {
                assert(t[k] == c);
            }
        }
    }
}

proof fn lemma_unclaimed_contains(s: Seq<AssetId>, decoded: Seq<TileId>, claimed: Seq<TileId>, a: int)
    requires
        0 <= a < s.len(),
        !decoded.contains(asset_tile(s[a])),
        !claimed.contains(asset_tile(s[a])),
    ensures
        unclaimed(s, decoded, claimed).contains(s[a]),
    decreases s.len(),
{
    let u = unclaimed(s, decoded, claimed);
    if a == s.len() - 1 {
        assert(u[u.len() - 1] == s[a]);
    } else {
        let t = s.drop_last();
        assert(t[a] == s[a]);
        lemma_unclaimed_contains(t, decoded, claimed, a);
        let r = unclaimed(t, decoded, claimed);
        let k = choose|k: int| 0 <= k < r.len() && r[k] == s[a];
        assert(u[k] == s[a]);
    }
}

/// A claimed read batch is ordered by Chebyshev bucket distance from the
/// centre, nearest first; and an asset that is neither decoded nor claimed
/// is left out only when the batch is full (eight tiles) and it is at least
/// as far from the centre as every tile claimed.
pub proof fn law_read_batch_takes_the_nearest_tiles<P>(
    before: LocalRegionCache<P>,
    after: LocalRegionCache<P>,
    epoch: u64,
    requests: Vec<(TileKey, FocusContourAsset)>,
    assets: Seq<FocusContourAsset>,
    center_lat_bucket: i32,
    center_lon_bucket: i32,
    now: u64,
)
    requires
        read_outcome(
            before,
            after,
            Some((epoch, requests)),
            assets,
            center_lat_bucket,
            center_lon_bucket,
            now,
        ),
    ensures
        forall|i: int, j: int|
            0 <= i < j < requests@.len() ==> bucket_gap(
                (#[trigger] requests@[i]).1.lat_bucket,
                requests@[i].1.lon_bucket,
                center_lat_bucket,
                center_lon_bucket,
            ) <= bucket_gap(
                (#[trigger] requests@[j]).1.lat_bucket,
                requests@[j].1.lon_bucket,
                center_lat_bucket,
                center_lon_bucket,
            ),
        forall|a: int, k: int|
            0 <= a < assets.len() && 0 <= k < requests@.len() && !decoded_ids(before.entries@).contains(
                asset_tile((#[trigger] assets[a])@),
            ) && !tile_ids(before.in_flight@).contains(asset_tile(assets[a]@)) && !request_ids(
                requests@,
            ).contains(assets[a]@) ==> requests@.len() == LOCAL_CONTOUR_READ_BATCH_SIZE && bucket_gap(
                (#[trigger] requests@[k]).1.lat_bucket,
                requests@[k].1.lon_bucket,
                center_lat_bucket,
                center_lon_bucket,
            ) <= bucket_gap(assets[a].lat_bucket, assets[a].lon_bucket, center_lat_bucket, center_lon_bucket),
        forall|a: int|
            0 <= a < assets.len() && !decoded_ids(before.entries@).contains(asset_tile((#[trigger] assets[a])@))
                && !tile_ids(before.in_flight@).contains(asset_tile(assets[a]@))
                && requests@.len() < LOCAL_CONTOUR_READ_BATCH_SIZE ==> request_ids(requests@).contains(
                assets[a]@,
            ),
        forall|i: int|
            0 <= i < requests@.len() ==> {
                let (key, asset) = #[trigger] requests@[i];
                &&& key.path@ == asset.path@
                &&& key.lat_bucket == asset.lat_bucket
                &&& key.lon_bucket == asset.lon_bucket
                &&& key.zoom_bucket == asset.zoom_bucket
            },
{
    let decoded = decoded_ids(before.entries@);
    let claimed = tile_ids(before.in_flight@);
    let ids = asset_ids(assets);
    let u = unclaimed(ids, decoded, claimed);
    lemma_unclaimed_new(ids, decoded, claimed);
    lemma_nearest_first_props(u, center_lat_bucket, center_lon_bucket, decoded, claimed);
    lemma_nearest_first_contains(u, center_lat_bucket, center_lon_bucket);
    let sorted = nearest_first(u, center_lat_bucket, center_lon_bucket);
    let batch = request_ids(requests@);
    assert(batch == read_batch(ids, decoded, claimed, center_lat_bucket, center_lon_bucket));
    assert forall|k: int| 0 <= k < batch.len() implies #[trigger] batch[k] == sorted[k] by {}
    assert forall|i: int, j: int| 0 <= i < j < requests@.len() implies bucket_gap(
        (#[trigger] requests@[i]).1.lat_bucket,
        requests@[i].1.lon_bucket,
        center_lat_bucket,
        center_lon_bucket,
    ) <= bucket_gap(
        (#[trigger] requests@[j]).1.lat_bucket,
        requests@[j].1.lon_bucket,
        center_lat_bucket,
        center_lon_bucket,
    ) by {
        assert(batch[i] == sorted[i] && batch[j] == sorted[j]);
        assert(batch[i] == requests@[i].1@ && batch[j] == requests@[j].1@);
    }
    assert forall|a: int, k: int|
        0 <= a < assets.len() && 0 <= k < requests@.len() && !decoded.contains(asset_tile((#[trigger] assets[a])@))
            && !claimed.contains(asset_tile(assets[a]@)) && !batch.contains(assets[a]@) implies requests@.len()
        == LOCAL_CONTOUR_READ_BATCH_SIZE && bucket_gap(
        (#[trigger] requests@[k]).1.lat_bucket,
        requests@[k].1.lon_bucket,
        center_lat_bucket,
        center_lon_bucket,
    ) <= bucket_gap(assets[a].lat_bucket, assets[a].lon_bucket, center_lat_bucket, center_lon_bucket) by {
        assert(ids[a] == assets[a]@);
        lemma_unclaimed_contains(ids, decoded, claimed, a);
        assert(sorted.contains(assets[a]@));
        let p = choose|p: int| 0 <= p < sorted.len() && sorted[p] == assets[a]@;
        if sorted.len() <= LOCAL_CONTOUR_READ_BATCH_SIZE {
            assert(batch == sorted);
            assert(batch[p] == assets[a]@);
        }
        if p < LOCAL_CONTOUR_READ_BATCH_SIZE {
            assert(batch[p] == assets[a]@);
        }
        assert(batch[k] == sorted[k]);
        assert(batch[k] == requests@[k].1@);
    }
    assert forall|a: int|
        0 <= a < assets.len() && !decoded.contains(asset_tile((#[trigger] assets[a])@)) && !claimed.contains(
            asset_tile(assets[a]@),
        ) && requests@.len() < LOCAL_CONTOUR_READ_BATCH_SIZE implies batch.contains(assets[a]@) by {
        assert(ids[a] == assets[a]@);
        lemma_unclaimed_contains(ids, decoded, claimed, a);
        assert(sorted.contains(assets[a]@));
        assert(batch == sorted);
    }
    assert forall|i: int| 0 <= i < requests@.len() implies {
        let (key, asset) = #[trigger] requests@[i];
        &&& key.path@ == asset.path@
        &&& key.lat_bucket == asset.lat_bucket
        &&& key.lon_bucket == asset.lon_bucket
        &&& key.zoom_bucket == asset.zoom_bucket
    } by {
        assert(requests@[i].0@ == asset_tile(requests@[i].1@));
    }
}


/// A raw Int16 buffer holds one sample per byte pair, in order: sample `i`
/// is bytes `2i` and `2i + 1` read as a two's-complement number, the first
/// byte the high one in big-endian order and the low one otherwise.
pub proof fn law_samples_read_byte_pairs(bytes: Seq<u8>, big_endian: bool, i: int)
    requires
        0 <= i < bytes.len() / 2,
    ensures
        ({
            let hi: int = if big_endian { bytes[2 * i] as int } else { bytes[2 * i + 1] as int };
            let lo: int = if big_endian { bytes[2 * i + 1] as int } else { bytes[2 * i] as int };
            let u: int = hi * 256 + lo;
            &&& crate::raster::samples(bytes, big_endian).len() == bytes.len() / 2
            &&& crate::raster::samples(bytes, big_endian)[i] as int == (if u >= 32768 { u - 65536 } else { u })
        }),
{
}

/// Thinning never leaves two consecutive points at the same place (both
/// ordinates equal as `f32`), and it keeps the first point of a line.
pub proof fn law_thinning_leaves_no_repeats(s: Seq<PointBits>, step: int)
    requires
        s.len() > 2,
        step > 1,
    ensures
        forall|k: int|
            0 <= k < simplified(s, step).len() - 1 ==> !same_place(
                #[trigger] simplified(s, step)[k],
                simplified(s, step)[k + 1],
            ),
        simplified(s, step).len() > 0 && simplified(s, step)[0] == s[0],
{
    lemma_lattice_points(s, step, s.len() as int);
    let t = lattice_points(s, step, s.len() as int);
    lemma_dedup_no_repeats(t);
    lemma_lattice_first(s, step, s.len() as int);
    lemma_dedup_first(t);
}

proof fn lemma_lattice_first(s: Seq<PointBits>, step: int, k: int)
    requires
        1 <= k <= s.len(),
    ensures
        lattice_points(s, step, k).len() > 0,
        lattice_points(s, step, k)[0] == s[0],
    decreases k,
{
    if k > 1 {
        lemma_lattice_first(s, step, k - 1);
        let t = lattice_points(s, step, k - 1);
        assert(lattice_points(s, step, k)[0] == t[0]);
    } else {
        assert(lattice_points(s, step, 0) =~= Seq::<PointBits>::empty());
        assert(lattice_points(s, step, 1) == Seq::<PointBits>::empty().push(s[0]));
    }
}

proof fn lemma_dedup_first(t: Seq<PointBits>)
    requires
        t.len() > 0,
    ensures
        crate::polyline::dedup_points(t).len() > 0,
        crate::polyline::dedup_points(t)[0] == t[0],
    decreases t.len(),
{
    let d = crate::polyline::dedup_points(t.drop_last());
    if t.len() > 1 {
        lemma_dedup_first(t.drop_last());
        assert(t.drop_last()[0] == t[0]);
        assert(crate::polyline::dedup_points(t)[0] == d[0]);
    } else {
        assert(d =~= Seq::<PointBits>::empty());
        assert(crate::polyline::dedup_points(t) == d.push(t.last()));
    }
}

proof fn lemma_dedup_no_repeats(t: Seq<PointBits>)
    ensures
        forall|k: int|
            0 <= k < crate::polyline::dedup_points(t).len() - 1 ==> !same_place(
                #[trigger] crate::polyline::dedup_points(t)[k],
                crate::polyline::dedup_points(t)[k + 1],
            ),
    decreases t.len(),
{
    if t.len() > 0 {
        lemma_dedup_no_repeats(t.drop_last());
        let d = crate::polyline::dedup_points(t.drop_last());
        let r = crate::polyline::dedup_points(t);
        if !(d.len() > 0 && same_point(d.last(), t.last())) {
            assert(r == d.push(t.last()));
            assert forall|k: int| 0 <= k < r.len() - 1 implies !same_place(#[trigger] r[k], r[k + 1]) by {
                if k + 1 < d.len() {
                    assert(r[k] == d[k] && r[k + 1] == d[k + 1]);
                } else {
                    assert(r[k] == d.last());
                }
            }
        }
    }
}

/// A cell-layer feature that is kept carries its way (0 when absent), its
/// class (empty when absent) and its name only when the name is not empty.
pub proof fn law_polyline_properties_default(f: RawFeature<PointBits>)
    ensures
        polyline_of(f) matches Some(v) ==> {
            &&& v.0 == (match f.way_id {
                Some(id) => id,
                None => 0i64,
            })
            &&& v.1 == (match f.class {
                Some(c) => c@,
                None => Seq::<char>::empty(),
            })
            &&& v.2 == (match f.name {
                Some(n) => if n@.len() > 0 {
                    Some(n@)
                } else {
                    None
                },
                None => None,
            })
        },
{
}

} // verus!

//! One local-terrain frame over a local contour cache: the window's radii
//! and read budget, its progress over the manifest tiles shown, the claim of
//! the next read batch after a scene change, and the retention and merge
//! request that follow; and the synchronous flatten of the decoded window.
use crate::flatten::{clones_of, concat_contours, contour_lists, flat, seconds};
use crate::local_cache::{
    assets_distance_defined, entries_distance_defined, entries_within, entry_ids, merge_outcome,
    read_outcome, within, LocalMergeSpec, LocalMergeWork, LocalRegionCache, SceneKey,
    LOCAL_CONTOUR_RETAIN_RADIUS,
};
use crate::shared::share;
use crate::tiles::{
    asset_ids, bucket_distance, AssetId, FocusContourAsset, FocusContourRegionStatus, TileKey,
};
use std::sync::Arc;
use vstd::prelude::*;

verus! {

/// Largest prefetch radius of a local window, in buckets.
pub const MAX_PREFETCH_RADIUS: i32 = 16;

/// Smallest per-tile feature budget of a read.
pub const MIN_PER_ASSET_BUDGET: usize = 120;

/// The prefetch radius is held to 0..=16 and the build radius to
/// 0..=prefetch.
pub fn clamp_radii(prefetch_radius: i32, build_radius: i32) -> (r: (i32, i32))
    ensures
        r.0 == (if prefetch_radius < 0 {
            0
        } else if prefetch_radius > MAX_PREFETCH_RADIUS {
            MAX_PREFETCH_RADIUS
        } else {
            prefetch_radius
        }),
        r.1 == (if build_radius < 0 {
            0
        } else if build_radius > r.0 {
            r.0
        } else {
            build_radius
        }),
{
    let p: i32 = if prefetch_radius < 0 {
        0
    } else if prefetch_radius > MAX_PREFETCH_RADIUS {
        MAX_PREFETCH_RADIUS
    } else {
        prefetch_radius
    };
    let b: i32 = if build_radius < 0 {
        0
    } else if build_radius > p {
        p
    } else {
        build_radius
    };
    (p, b)
}

/// The feature budget of each tile of a read: the zoom's budget shared among
/// the reader's tiles (at least one), but never below 120.
pub fn per_asset_budget(feature_budget: usize, reader_assets: usize) -> (r: usize)
    ensures
        ({
            let n = if reader_assets == 0 { 1 } else { reader_assets as int };
            let share = feature_budget as int / n;
            r == (if share < MIN_PER_ASSET_BUDGET { MIN_PER_ASSET_BUDGET as int } else { share })
        }),
{
    let n: usize = if reader_assets == 0 { 1 } else { reader_assets };
    let share: usize = feature_budget / n;
    if share < MIN_PER_ASSET_BUDGET {
        MIN_PER_ASSET_BUDGET
    } else {
        share
    }
}

/// The asset lies in the build window: its zoom bucket is the window's and
/// it is within `radius` buckets of the centre.
pub open spec fn in_build_window(a: AssetId, center_lat: i32, center_lon: i32, zoom_bucket: i32, radius: int) -> bool {
    a.2 == zoom_bucket && bucket_distance(a.3 as int, a.4 as int, center_lat as int, center_lon as int)
        <= radius
}

/// The cells of the build window that hold a manifest tile, each once, in the
/// order first seen.
pub open spec fn ready_cells(
    assets: Seq<AssetId>,
    center_lat: i32,
    center_lon: i32,
    zoom_bucket: i32,
    radius: int,
) -> Seq<(i32, i32)>
    decreases assets.len(),
{
    if assets.len() == 0 {
        Seq::empty()
    } else {
        let r = ready_cells(assets.drop_last(), center_lat, center_lon, zoom_bucket, radius);
        let a = assets.last();
        if in_build_window(a, center_lat, center_lon, zoom_bucket, radius) && !r.contains(
            (a.3, a.4),
        ) {
            r.push((a.3, a.4))
        } else {
            r
        }
    }
}

/// The number of cells of a build window of `radius` buckets.
pub open spec fn window_cells(radius: int) -> int {
    (2 * radius + 1) * (2 * radius + 1)
}

/// Progress of a local window: its ready cells and status.
pub struct LocalRegionState {
    pub ready_buckets: Vec<(i32, i32)>,
    pub status: FocusContourRegionStatus,
}

/// Progress of the build window around the centre over the manifest tiles
/// shown: the cells of the window holding a tile of its zoom bucket (each
/// once), their number as ready, every cell of the window in total, and the
/// builder's pending count as given.
pub fn local_region_state(
    assets: &[FocusContourAsset],
    center_lat_bucket: i32,
    center_lon_bucket: i32,
    zoom_bucket: i32,
    build_radius: i32,
    pending_assets: usize,
) -> (r: LocalRegionState)
    requires
        0 <= build_radius <= 0x7fff,
        assets_distance_defined(assets@, center_lat_bucket, center_lon_bucket),
    ensures
        r.ready_buckets@ == ready_cells(
            asset_ids(assets@),
            center_lat_bucket,
            center_lon_bucket,
            zoom_bucket,
            build_radius as int,
        ),
        r.status.ready_assets == r.ready_buckets@.len(),
        r.status.total_assets == window_cells(build_radius as int),
        r.status.pending_assets == pending_assets,
{
    let ghost ids = asset_ids(assets@);
    let mut cells: Vec<(i32, i32)> = Vec::new();
    let mut i: usize = 0;
    while i < assets.len()
        invariant
            ids == asset_ids(assets@),
            i <= assets@.len(),
            assets_distance_defined(assets@, center_lat_bucket, center_lon_bucket),
            cells@ == ready_cells(
                ids.take(i as int),
                center_lat_bucket,
                center_lon_bucket,
                zoom_bucket,
                build_radius as int,
            ),
        decreases assets@.len() - i,
    {
        assert(ids.take(i + 1).drop_last() =~= ids.take(i as int));
        let a = &assets[i];
        let dlat: i32 = a.lat_bucket - center_lat_bucket;
        let dlon: i32 = a.lon_bucket - center_lon_bucket;
        let alat: i32 = if dlat < 0 { -dlat } else { dlat };
        let alon: i32 = if dlon < 0 { -dlon } else { dlon };
        let d: i32 = if alat >= alon { alat } else { alon };
        if a.zoom_bucket == zoom_bucket && d <= build_radius {
            let mut seen: bool = false;
            let mut j: usize = 0;
            while j < cells.len()
                invariant
                    j <= cells@.len(),
                    seen == cells@.take(j as int).contains((a.lat_bucket, a.lon_bucket)),
                decreases cells@.len() - j,
            {
                let ghost x = (a.lat_bucket, a.lon_bucket);
                let ghost t = cells@.take(j as int);
                assert(cells@.take(j + 1) =~= t.push(cells@[j as int]));
                if cells[j].0 == a.lat_bucket && cells[j].1 == a.lon_bucket {
                    seen = true;
                    assert(t.push(cells@[j as int])[j as int] == x);
                }
                proof {
                    if t.contains(x) {
                        let k = choose|k: int| 0 <= k < t.len() && t[k] == x;
                        assert(t.push(cells@[j as int])[k] == x);
                    }
                    if t.push(cells@[j as int]).contains(x) && cells@[j as int] != x {
                        let k = choose|k: int| 0 <= k < t.len() + 1 && t.push(cells@[j as int])[k] == x;
                        assert(t[k] == x);
                    }
                }
                j = j + 1;
            }
            assert(cells@.take(cells@.len() as int) =~= cells@);
            if !seen {
                cells.push((a.lat_bucket, a.lon_bucket));
            }
        }
        i = i + 1;
    }
    assert(ids.take(assets@.len() as int) =~= ids);
    let side: usize = 2 * (build_radius as usize) + 1;
    assert(side * side <= 0xffff * 0xffff) by (nonlinear_arith)
        requires
            side <= 0xffff,
    ;
    let total: usize = side * side;
    let ready: usize = cells.len();
    LocalRegionState {
        ready_buckets: cells,
        status: FocusContourRegionStatus {
            ready_assets: ready,
            pending_assets,
            total_assets: total,
        },
    }
}

/// Preparing a frame: a cache on another scene forgets its decoded tiles
/// and reader state and takes the new scene (when `keep_zoom_fallback`, the
/// published merge first becomes the fallback shown until the new scene has
/// lines); then the status is recorded.
pub open spec fn frame_prepared<P>(
    before: LocalRegionCache<P>,
    mid: LocalRegionCache<P>,
    scene_key: SceneKey,
    status: FocusContourRegionStatus,
    keep_zoom_fallback: bool,
) -> bool {
    if before.scene_key matches Some(k) && k@ == scene_key@ {
        mid == (LocalRegionCache { last_status: Some(status), ..before })
    } else {
        &&& mid.entries@.len() == 0
        &&& mid.in_flight@.len() == 0
        &&& mid == (LocalRegionCache {
            scene_key: Some(scene_key),
            entries: mid.entries,
            in_flight: mid.in_flight,
            last_status: Some(status),
            zoom_fallback: if keep_zoom_fallback {
                before.merged
            } else {
                before.zoom_fallback
            },
            merged: None,
            merged_key: None,
            merge_requested_key: None,
            merge_in_flight: None,
            entries_revision: crate::local_cache::next_rev(before.entries_revision),
            load_epoch: crate::local_cache::next_rev(before.load_epoch),
            read_retry_at: None,
            ..before
        })
    }
}

/// A frame measures the distances only of the reader assets its read would
/// claim: none when a Moon or Mars frame has no reader assets; on the same
/// scene, as [`LocalRegionCache::read_distances_defined`] says; on a new
/// scene (nothing decoded or claimed, no retry pending) all of them unless a
/// reader still runs.
pub open spec fn frame_distances_defined<P>(
    cache: LocalRegionCache<P>,
    scene_key: SceneKey,
    reader_assets: Seq<FocusContourAsset>,
    center_lat: i32,
    center_lon: i32,
    now: u64,
    keep_zoom_fallback: bool,
) -> bool {
    if keep_zoom_fallback && reader_assets.len() == 0 {
        true
    } else if cache.scene_key matches Some(k) && k@ == scene_key@ {
        cache.read_distances_defined(reader_assets, center_lat, center_lon, now)
    } else {
        cache.load_in_flight is None ==> assets_distance_defined(reader_assets, center_lat, center_lon)
    }
}

/// The first phase of a local frame: adopt the scene (a different one clears
/// the decoded tiles), record the window's status, and claim the next read
/// batch of the reader assets around the centre. Moon and Mars frames
/// (`keep_zoom_fallback`) keep the old scene's merge as the fallback and
/// claim nothing when there are no reader assets.
pub fn begin_region_frame<P>(
    cache: &mut LocalRegionCache<P>,
    scene_key: SceneKey,
    status: FocusContourRegionStatus,
    reader_assets: &[FocusContourAsset],
    center_lat_bucket: i32,
    center_lon_bucket: i32,
    now: u64,
    keep_zoom_fallback: bool,
) -> (r: Option<(u64, Vec<(TileKey, FocusContourAsset)>)>)
    requires
        frame_distances_defined(
            *old(cache),
            scene_key,
            reader_assets@,
            center_lat_bucket,
            center_lon_bucket,
            now,
            keep_zoom_fallback,
        ),
    ensures
        old(cache).well_keyed() ==> final(cache).well_keyed(),
        exists|mid: LocalRegionCache<P>|
            {
                &&& #[trigger] frame_prepared(*old(cache), mid, scene_key, status, keep_zoom_fallback)
                &&& (keep_zoom_fallback && reader_assets@.len() == 0 ==> r is None && *final(cache)
                    == mid)
                &&& (!keep_zoom_fallback || reader_assets@.len() > 0 ==> read_outcome(
                    mid,
                    *final(cache),
                    r,
                    reader_assets@,
                    center_lat_bucket,
                    center_lon_bucket,
                    now,
                ))
            },
{
    let ghost before = *cache;
    let same: bool = match &cache.scene_key {
        Some(k) => k.same(&scene_key),
        None => false,
    };
    if !same {
        if keep_zoom_fallback {
            cache.zoom_fallback = match &cache.merged {
                Some(m) => Some(share(m)),
                None => None,
            };
        }
        cache.scene_key = Some(scene_key);
        cache.clear_entries_for_new_scene();
    }
    cache.last_status = Some(status);
    let ghost mid = *cache;
    assert(frame_prepared(before, mid, scene_key, status, keep_zoom_fallback));
    if keep_zoom_fallback && reader_assets.len() == 0 {
        return None;
    }
    cache.begin_local_read(reader_assets, center_lat_bucket, center_lon_bucket, now)
}

/// The contours a local frame shows: the published merge; a window merged
/// with ownership partitioning (Moon and Mars tiles) shows the previous
/// zoom's fallback instead while its merge is missing or empty.
pub open spec fn shown_contours<P>(
    cache: LocalRegionCache<P>,
    partition_bucket_step_bits: Option<u32>,
) -> Option<Arc<Vec<P>>> {
    match partition_bucket_step_bits {
        None => cache.merged,
        Some(_) => match cache.merged {
            Some(m) if m@.len() > 0 => Some(m),
            _ => cache.zoom_fallback,
        },
    }
}

/// The second phase of a local frame: keep the decoded tiles within the
/// retention radius, request the merge of the prefetch window (partitioned
/// by tile ownership when a bucket step is given), and return the contours
/// to show with the claimed merge job, if any.
pub fn region_merge_step<P>(
    cache: &mut LocalRegionCache<P>,
    center_lat_bucket: i32,
    center_lon_bucket: i32,
    prefetch_radius: i32,
    partition_bucket_step_bits: Option<u32>,
) -> (r: (Option<Arc<Vec<P>>>, Option<LocalMergeWork<P>>))
    requires
        entries_distance_defined(old(cache).entries@, center_lat_bucket, center_lon_bucket),
    ensures
        old(cache).well_keyed() ==> final(cache).well_keyed(),
        exists|mid: LocalRegionCache<P>|
            {
                &&& entry_ids(#[trigger] mid.entries@) == within(
                    entry_ids(old(cache).entries@),
                    center_lat_bucket,
                    center_lon_bucket,
                    LOCAL_CONTOUR_RETAIN_RADIUS as int,
                )
                &&& (mid.entries@.len() != old(cache).entries@.len() ==> mid == (LocalRegionCache {
                    entries: mid.entries,
                    entries_revision: crate::local_cache::next_rev(old(cache).entries_revision),
                    merged_key: None,
                    ..*old(cache)
                }))
                &&& (mid.entries@.len() == old(cache).entries@.len() ==> mid == (LocalRegionCache {
                    entries: mid.entries,
                    ..*old(cache)
                }))
                &&& merge_outcome(
                    mid,
                    *final(cache),
                    r.1,
                    LocalMergeSpec {
                        center_lat_bucket,
                        center_lon_bucket,
                        source_radius: prefetch_radius,
                        partition_bucket_step_bits,
                    },
                )
            },
        r.0 == shown_contours(*final(cache), partition_bucket_step_bits),
{
    cache.retain_local_entries(center_lat_bucket, center_lon_bucket);
    let ghost mid = *cache;
    let work = cache.begin_local_merge(
        LocalMergeSpec {
            center_lat_bucket,
            center_lon_bucket,
            source_radius: prefetch_radius,
            partition_bucket_step_bits,
        },
    );
    let merged: Option<Arc<Vec<P>>> = match &cache.merged {
        Some(m) => {
            if partition_bucket_step_bits.is_none() || m.len() > 0 {
                Some(share(m))
            } else {
                None
            }
        },
        None => None,
    };
    let shown: Option<Arc<Vec<P>>> = match merged {
        Some(m) => Some(m),
        None => {
            if partition_bucket_step_bits.is_some() {
                match &cache.zoom_fallback {
                    Some(f) => Some(share(f)),
                    None => None,
                }
            } else {
                None
            }
        },
    };
    (shown, work)
}

/// The decoded tiles within `source_radius` of the centre flattened into
/// one list, or nothing when it would be empty.
pub fn merged_local_contours<P: Clone>(
    cache: &LocalRegionCache<P>,
    center_lat_bucket: i32,
    center_lon_bucket: i32,
    source_radius: i32,
) -> (r: Option<Arc<Vec<P>>>)
    requires
        entries_distance_defined(cache.entries@, center_lat_bucket, center_lon_bucket),
    ensures
        ({
            let all = flat(
                seconds(
                    within(
                        entry_ids(cache.entries@),
                        center_lat_bucket,
                        center_lon_bucket,
                        source_radius as int,
                    ),
                ),
            );
            match r {
                None => all.len() == 0,
                Some(m) => all.len() > 0 && clones_of(all, m@),
            }
        }),
{
    let tiles = entries_within(&cache.entries, center_lat_bucket, center_lon_bucket, source_radius);
    let merged: Vec<P> = concat_contours(&tiles);
    assert(contour_lists(tiles@) =~= seconds(entry_ids(tiles@)));
    if merged.len() == 0 {
        None
    } else {
        Some(Arc::new(merged))
    }
}

/// The cells of the row at latitude bucket `lat`, from longitude bucket
/// `lon0` on for `cols` cells, that are not ready.
pub open spec fn pending_row(lat: int, lon0: int, cols: int, ready: Seq<(i32, i32)>) -> Seq<(i32, i32)>
    decreases cols,
{
    if cols <= 0 {
        Seq::empty()
    } else {
        let r = pending_row(lat, lon0, cols - 1, ready);
        let cell = (lat as i32, (lon0 + cols - 1) as i32);
        if ready.contains(cell) {
            r
        } else {
            r.push(cell)
        }
    }
}

/// The cells of the first `rows` rows of the window of `radius` buckets
/// around the centre (north to south in bucket order, west to east) that
/// are not ready.
pub open spec fn pending_cells(
    center_lat: int,
    center_lon: int,
    radius: int,
    rows: int,
    ready: Seq<(i32, i32)>,
) -> Seq<(i32, i32)>
    decreases rows,
{
    if rows <= 0 {
        Seq::empty()
    } else {
        pending_cells(center_lat, center_lon, radius, rows - 1, ready) + pending_row(
            center_lat - radius + rows - 1,
            center_lon - radius,
            2 * radius + 1,
            ready,
        )
    }
}

/// The cells of the window of `radius` buckets around the centre whose
/// tiles are not ready yet (each gets the loading animation), row by row.
pub fn pending_window_cells(
    center_lat_bucket: i32,
    center_lon_bucket: i32,
    radius: i32,
    ready_buckets: &[(i32, i32)],
) -> (r: Vec<(i32, i32)>)
    requires
        0 <= radius,
        i32::MIN <= center_lat_bucket - radius,
        center_lat_bucket + radius <= i32::MAX,
        i32::MIN <= center_lon_bucket - radius,
        center_lon_bucket + radius <= i32::MAX,
    ensures
        r@ == pending_cells(
            center_lat_bucket as int,
            center_lon_bucket as int,
            radius as int,
            2 * radius + 1,
            ready_buckets@,
        ),
{
    let mut out: Vec<(i32, i32)> = Vec::new();
    let r64: i64 = radius as i64;
    let mut dlat: i64 = -r64;
    while dlat <= r64
        invariant
            0 <= radius,
            i32::MIN <= center_lat_bucket - radius,
            center_lat_bucket + radius <= i32::MAX,
            i32::MIN <= center_lon_bucket - radius,
            center_lon_bucket + radius <= i32::MAX,
            r64 == radius,
            -radius <= dlat <= radius + 1,
            out@ == pending_cells(
                center_lat_bucket as int,
                center_lon_bucket as int,
                radius as int,
                dlat + radius,
                ready_buckets@,
            ),
        decreases radius + 1 - dlat,
    {
        let lat: i32 = (center_lat_bucket as i64 + dlat) as i32;
        let ghost base = out@;
        let mut dlon: i64 = -r64;
        while dlon <= r64
            invariant
                0 <= radius,
                r64 == radius,
                -radius <= dlat <= radius,
                lat == center_lat_bucket + dlat,
                i32::MIN <= center_lon_bucket - radius,
                center_lon_bucket + radius <= i32::MAX,
                -radius <= dlon <= radius + 1,
                out@ == base + pending_row(
                    lat as int,
                    center_lon_bucket - radius,
                    dlon + radius,
                    ready_buckets@,
                ),
            decreases radius + 1 - dlon,
        {
            let cell: (i32, i32) = (lat, (center_lon_bucket as i64 + dlon) as i32);
            let mut seen: bool = false;
            let mut k: usize = 0;
            while k < ready_buckets.len()
                invariant
                    k <= ready_buckets@.len(),
                    seen == ready_buckets@.take(k as int).contains(cell),
                decreases ready_buckets@.len() - k,
            {
                let ghost t = ready_buckets@.take(k as int);
                assert(ready_buckets@.take(k + 1) =~= t.push(ready_buckets@[k as int]));
                if ready_buckets[k].0 == cell.0 && ready_buckets[k].1 == cell.1 {
                    seen = true;
                    assert(t.push(ready_buckets@[k as int])[k as int] == cell);
                }
                proof {
                    if t.contains(cell) {
                        let q = choose|q: int| 0 <= q < t.len() && t[q] == cell;
                        assert(t.push(ready_buckets@[k as int])[q] == cell);
                    }
                    if t.push(ready_buckets@[k as int]).contains(cell) && ready_buckets@[k as int] != cell {
                        let q = choose|q: int| 0 <= q < t.len() + 1 && t.push(ready_buckets@[k as int])[q] == cell;
                        assert(t[q] == cell);
                    }
                }
                k = k + 1;
            }
            assert(ready_buckets@.take(ready_buckets@.len() as int) =~= ready_buckets@);
            if !seen {
                out.push(cell);
            }
            assert(base + pending_row(lat as int, center_lon_bucket - radius, dlon + radius + 1, ready_buckets@)
                =~= out@);
            dlon = dlon + 1;
        }
        dlat = dlat + 1;
    }
    out
}

} // verus!

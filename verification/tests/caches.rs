use electric_eye_map::caches::{
    globe_srtm_pending, has_pending_cache, is_active, ActiveBody, CachedGlobalContours,
    GlobalContourSlot, LocalSceneCaches, TileCaches,
};
use electric_eye_map::globe_cache::GlobeRegionCache;
use electric_eye_map::globe_view::{begin_globe_frame, GLOBE_MAX_TILES, PLANET_GLOBE_MAX_TILES};
use electric_eye_map::infra::{InfraCache, InfraCacheStore, InfraCaches};
use electric_eye_map::local_cache::{LocalRegionCache, SceneKey};
use electric_eye_map::raster::{DepthFillCache, DepthFillGrid};
use electric_eye_map::region::{
    begin_region_frame, clamp_radii, local_region_state, per_asset_budget, region_merge_step,
};
use electric_eye_map::terrain::RoadCoverage;
use electric_eye_map::tiles::{FocusContourAsset, FocusContourRegionStatus, TileKey};
use std::sync::Arc;

fn asset(lat_bucket: i32, lon_bucket: i32) -> FocusContourAsset {
    FocusContourAsset {
        path: b"cache.sqlite".to_vec(),
        simplify_step: 1,
        zoom_bucket: 0,
        lat_bucket,
        lon_bucket,
    }
}

fn key(lat_bucket: i32, lon_bucket: i32) -> TileKey {
    TileKey {
        path: b"cache.sqlite".to_vec(),
        lat_bucket,
        lon_bucket,
        zoom_bucket: 0,
    }
}

fn scene(anchor_lat_bucket: i32) -> SceneKey {
    SceneKey {
        root: Some(b"root".to_vec()),
        anchor_lat_bucket,
        anchor_lon_bucket: 0,
        zoom_bucket: 0,
    }
}

fn status(ready: usize, total: usize) -> FocusContourRegionStatus {
    FocusContourRegionStatus {
        ready_assets: ready,
        pending_assets: 0,
        total_assets: total,
    }
}

#[test]
fn blast_resets_every_cache_and_discards_a_late_read() {
    let mut caches: TileCaches<u32> = TileCaches::new();
    let mut local: LocalRegionCache<u32> = LocalRegionCache::new();
    let (epoch, requests) = local.begin_local_read(&[asset(0, 0)], 0, 0, 0).expect("read");
    local.entries.push((key(1, 1), Arc::new(vec![7])));
    caches.local_earth = Some(local);
    caches.globe_moon = Some(GlobeRegionCache::new());
    caches.coastlines.cached = Some(CachedGlobalContours {
        lod_bucket: 0,
        path: b"coast.gpkg".to_vec(),
        contours: Arc::new(vec![1, 2]),
    });
    caches.coastlines.loading = true;

    caches.blast_tile_caches();

    let local = caches.local_earth.as_mut().expect("local cache kept");
    assert!(local.entries.is_empty());
    assert_ne!(local.load_epoch, epoch);
    assert_eq!(caches.globe_moon.as_ref().map(|g| g.zoom_bucket), Some(-1));
    assert!(caches.local_moon.is_none());
    assert!(caches.coastlines.cached.is_none());
    assert!(caches.coastlines.loading);
    assert!(caches.depth_fill.grid.is_none());

    local.finish_local_read(epoch, &requests, Some(vec![(key(0, 0), vec![5])]), 0);
    assert!(local.entries.is_empty());
    assert_eq!(local.load_in_flight, None);
}

#[test]
fn local_contours_pending_follows_reader_and_status() {
    let mut caches: TileCaches<u32> = TileCaches::new();
    assert!(caches.local_contours_pending(ActiveBody::Mars));
    let mut local: LocalRegionCache<u32> = LocalRegionCache::new();
    assert!(caches.local_contours_pending(ActiveBody::Earth));
    local.last_status = Some(status(9, 9));
    caches.local_earth = Some(local);
    assert!(!caches.local_contours_pending(ActiveBody::Earth));
    caches.local_earth.as_mut().unwrap().last_status = Some(status(8, 9));
    assert!(caches.local_contours_pending(ActiveBody::Earth));
    caches.local_earth.as_mut().unwrap().last_status = Some(status(9, 9));
    caches.local_earth.as_mut().unwrap().load_in_flight = Some(0);
    assert!(caches.local_contours_pending(ActiveBody::Earth));
    assert!(caches.local_contours_pending(ActiveBody::Moon));
}

#[test]
fn scene_queries_follow_focus_and_status() {
    assert!(is_active(true, true, true));
    assert!(!is_active(false, true, true));
    assert!(!is_active(true, false, true));
    assert!(!is_active(true, true, false));
    assert!(!has_pending_cache(false, None));
    assert!(has_pending_cache(true, None));
    assert!(has_pending_cache(true, Some(status(3, 4))));
    assert!(!has_pending_cache(true, Some(status(4, 4))));
    assert!(!globe_srtm_pending(false, false, None));
    assert!(!globe_srtm_pending(true, false, Some(status(0, 4))));
    assert!(!globe_srtm_pending(false, true, Some(status(0, 4))));
    assert!(globe_srtm_pending(false, false, Some(status(0, 4))));
    let mut pending = status(4, 4);
    pending.pending_assets = 1;
    assert!(globe_srtm_pending(false, false, Some(pending)));
    assert!(!globe_srtm_pending(false, false, Some(status(4, 4))));
}

#[test]
fn global_layer_loads_once_and_keeps_the_old_lod_meanwhile() {
    let mut slot: GlobalContourSlot<u32> = GlobalContourSlot::new();
    let path = b"topo.gpkg".to_vec();
    let (shown, start) = slot.request(&path, 1);
    assert!(shown.is_none());
    assert!(start);
    let (_, again) = slot.request(&path, 1);
    assert!(!again, "one load at a time");
    slot.finish(Some(CachedGlobalContours {
        lod_bucket: 1,
        path: path.clone(),
        contours: Arc::new(vec![1, 2, 3]),
    }));
    assert!(!slot.loading);
    let (shown, start) = slot.request(&path, 1);
    assert_eq!(shown.map(|c| c.len()), Some(3));
    assert!(!start);
    let (shown, start) = slot.request(&path, 2);
    assert_eq!(shown.map(|c| c.len()), Some(3), "old level of detail shown while reloading");
    assert!(start);
    slot.finish(None);
    assert!(!slot.loading);
    assert_eq!(slot.cached.as_ref().map(|c| c.lod_bucket), Some(1));
}

#[test]
fn road_and_water_caches_invalidate_independently() {
    let mut scene_caches: LocalSceneCaches<u32, u32> = LocalSceneCaches::new();
    let want = RoadCoverage {
        tile_zoom: 12,
        tile_x_min: 0,
        tile_x_max: 4,
        tile_y_min: 3,
        tile_y_max: 5,
        data_gen: 1,
        had_major: true,
        had_minor: false,
    };
    let load = scene_caches.roads.begin_build(want).expect("stale cache starts a build");
    assert_eq!((load.tile_x_min, load.tile_x_max, load.tile_y_min, load.tile_y_max), (0, 5, 2, 6));
    assert!(scene_caches.road_cache_building());
    assert!(scene_caches.roads.begin_build(want).is_none(), "one build at a time");
    scene_caches.roads.finish_build(load, 42);
    assert!(!scene_caches.road_cache_building());
    assert!(scene_caches.roads.begin_build(want).is_none(), "covered request");
    let wider = RoadCoverage { tile_x_max: 6, ..want };
    assert!(scene_caches.roads.begin_build(wider).is_some());
    scene_caches.water.finish_build(want, 7);
    scene_caches.invalidate_road_cache();
    assert!(scene_caches.roads.cache.is_none());
    assert!(scene_caches.road_cache_building(), "a running build still lands");
    assert!(scene_caches.water.cache.is_some());
    scene_caches.invalidate_water_cache();
    assert!(scene_caches.water.cache.is_none());
    assert!(!scene_caches.water_cache_building());
}

#[test]
fn hidden_road_layers_drop_the_cache_and_start_nothing() {
    let mut scene_caches: LocalSceneCaches<u32, u32> = LocalSceneCaches::new();
    let want = RoadCoverage {
        tile_zoom: 10,
        tile_x_min: 1,
        tile_x_max: 1,
        tile_y_min: 0,
        tile_y_max: 2,
        data_gen: 3,
        had_major: false,
        had_minor: true,
    };
    let load = scene_caches.roads.frame(want).expect("first frame builds");
    assert_eq!((load.tile_x_min, load.tile_y_min, load.tile_y_max), (0, 0, 3));
    scene_caches.roads.finish_build(load, 9);
    assert!(scene_caches.roads.frame(want).is_none());
    let hidden = RoadCoverage { had_minor: false, ..want };
    assert!(scene_caches.roads.frame(hidden).is_none());
    assert!(scene_caches.roads.cache.is_none());
    assert!(!scene_caches.road_cache_building());
}

#[derive(Clone, Copy, Debug, PartialEq)]
struct Window(i32);

#[test]
fn infra_layers_report_their_running_loads() {
    let mut infra: InfraCaches<Window, u32> = InfraCaches::new();
    let root = b"root".to_vec();
    assert!(infra.rail.begin_build(1, &root, false, Window(3)));
    assert_eq!(infra.rail_cache_building_bounds(), Some(Window(3)));
    assert_eq!(infra.pipeline_cache_building_bounds(), None);
    assert!(!infra.rail.begin_build(1, &root, false, Window(4)), "one load at a time");
    infra.rail.finish_build(InfraCache {
        data_gen: 1,
        last_root: root.clone(),
        covered: Window(3),
        features: vec![1, 2],
    });
    assert_eq!(infra.rail_cache_building_bounds(), None);
    assert!(!infra.rail.begin_build(1, &root, true, Window(5)), "fresh cache covers the view");
    assert!(infra.rail.begin_build(2, &root, true, Window(5)), "new data generation");
    assert!(infra.aeroway.begin_build(1, &root, false, Window(8)));
    assert_eq!(infra.aeroway_cache_building_bounds(), Some(Window(8)));
    assert!(infra.military.begin_build(1, &root, false, Window(9)));
    assert_eq!(infra.military_cache_building_bounds(), Some(Window(9)));
    assert!(infra.pipeline.begin_build(1, &root, false, Window(1)));
    assert_eq!(infra.pipeline_cache_building_bounds(), Some(Window(1)));
    let mut store: InfraCacheStore<Window, u32> = InfraCacheStore::empty();
    store.finish_build(InfraCache {
        data_gen: 1,
        last_root: root.clone(),
        covered: Window(3),
        features: vec![1],
    });
    store.drop_features();
    assert!(store.cache.is_none());
}

#[test]
fn depth_fill_cache_loads_once_and_clears() {
    let bytes = vec![0u8; 2 * 180 * 90];
    let mut cache = DepthFillCache::new();
    assert!(!cache.is_loaded());
    assert!(!cache.ensure_loaded(None));
    assert!(cache.ensure_loaded(DepthFillGrid::decode(&bytes, false)));
    assert!(cache.is_loaded());
    assert!(cache.ensure_loaded(None), "a loaded grid stays");
    assert_eq!(cache.depth_at_cell(0, 0), None);
    cache.clear();
    assert!(!cache.is_loaded());
    assert_eq!(cache.depth_at_cell(0, 0), None);
}

#[test]
fn region_radii_and_budget() {
    assert_eq!(clamp_radii(20, 30), (16, 16));
    assert_eq!(clamp_radii(-3, 2), (0, 0));
    assert_eq!(clamp_radii(6, 4), (6, 4));
    assert_eq!(clamp_radii(6, -1), (6, 0));
    assert_eq!(per_asset_budget(10_000, 8), 1250);
    assert_eq!(per_asset_budget(500, 8), 120);
    assert_eq!(per_asset_budget(1000, 0), 1000);
}

#[test]
fn region_state_counts_distinct_ready_cells_in_the_build_window() {
    let assets = vec![asset(0, 0), asset(0, 0), asset(1, 1), asset(3, 0)];
    let state = local_region_state(&assets, 0, 0, 0, 1, 2);
    assert_eq!(state.ready_buckets, vec![(0, 0), (1, 1)]);
    assert_eq!(state.status.ready_assets, 2);
    assert_eq!(state.status.total_assets, 9);
    assert_eq!(state.status.pending_assets, 2);
    let wrong_zoom = FocusContourAsset { zoom_bucket: 3, ..asset(0, 0) };
    assert_eq!(local_region_state(&[wrong_zoom], 0, 0, 0, 0, 0).status.ready_assets, 0);
}

#[test]
fn a_new_scene_clears_the_window_before_the_next_read() {
    let mut cache: LocalRegionCache<u32> = LocalRegionCache::new();
    let first = begin_region_frame(&mut cache, scene(0), status(0, 1), &[asset(0, 0)], 0, 0, 0, false);
    let (epoch, requests) = first.expect("first read");
    cache.finish_local_read(epoch, &requests, Some(vec![(key(0, 0), vec![1])]), 0);
    assert_eq!(cache.entries.len(), 1);
    assert!(begin_region_frame(&mut cache, scene(0), status(1, 1), &[asset(0, 0)], 0, 0, 0, false).is_none());
    assert_eq!(cache.entries.len(), 1);
    assert_eq!(cache.last_status, Some(status(1, 1)));
    let moved = begin_region_frame(&mut cache, scene(1), status(0, 1), &[asset(0, 0)], 0, 0, 0, false);
    assert!(moved.is_some(), "the new scene reads its tiles again");
    assert!(cache.entries.is_empty());
}

#[test]
fn a_planet_scene_change_keeps_the_old_merge_as_fallback() {
    let mut cache: LocalRegionCache<u32> = LocalRegionCache::new();
    assert!(begin_region_frame(&mut cache, scene(0), status(0, 0), &[], 0, 0, 0, true).is_none());
    cache.merged = Some(Arc::new(vec![3, 4]));
    cache.read_retry_at = Some(5);
    assert!(begin_region_frame(&mut cache, scene(0), status(0, 0), &[], 0, 0, 9, true).is_none());
    assert_eq!(cache.read_retry_at, Some(5), "no reader assets, no read attempt");
    let read = begin_region_frame(&mut cache, scene(1), status(0, 1), &[asset(0, 0)], 0, 0, 9, true);
    assert!(read.is_some());
    assert_eq!(cache.zoom_fallback.as_deref(), Some(&vec![3, 4]));
    assert!(cache.merged.is_none());
}

#[test]
fn merge_step_retains_then_requests_the_window_merge() {
    let mut cache: LocalRegionCache<u32> = LocalRegionCache::new();
    cache.entries.push((key(0, 0), Arc::new(vec![1])));
    cache.entries.push((key(20, 0), Arc::new(vec![2])));
    cache.mark_entries_changed();
    let (shown, work) = region_merge_step(&mut cache, 0, 0, 2, None);
    assert!(shown.is_none());
    let work = work.expect("merge job");
    assert_eq!(work.tiles.len(), 1);
    assert_eq!(cache.entries.len(), 1, "the far tile left the retention window");
    let (_, again) = region_merge_step(&mut cache, 0, 0, 2, None);
    assert!(again.is_none(), "one merge job at a time");
}

#[test]
fn partitioned_merge_step_shows_the_zoom_fallback_until_a_merge_has_lines() {
    let mut cache: LocalRegionCache<u32> = LocalRegionCache::new();
    cache.zoom_fallback = Some(Arc::new(vec![7]));
    cache.entries.push((key(0, 0), Arc::new(vec![1])));
    cache.mark_entries_changed();
    let step = Some(0.5f32.to_bits());
    let (shown, work) = region_merge_step(&mut cache, 0, 0, 2, step);
    assert_eq!(shown.as_deref(), Some(&vec![7]));
    let work = work.expect("partitioned merge job");
    assert_eq!(work.key.partition_bucket_step_bits, step);
    cache.finish_local_merge(work.key, Some(Arc::new(Vec::new())));
    let (shown, _) = region_merge_step(&mut cache, 0, 0, 2, step);
    assert_eq!(shown.as_deref(), Some(&vec![7]), "an empty merge keeps the fallback");
    let (shown, _) = region_merge_step(&mut cache, 0, 0, 2, None);
    assert_eq!(shown.as_deref(), Some(&Vec::new()), "an unpartitioned window shows its merge");
}

#[test]
fn globe_zoom_change_keeps_geometry_as_fallback_and_evicts_far_tiles() {
    let mut cache: GlobeRegionCache<u32> = GlobeRegionCache::new();
    let read = begin_globe_frame(&mut cache, 0, &None, &[asset(0, 0)], 0);
    let (epoch, requests) = read.expect("first globe read");
    cache.finish_globe_read(epoch, &requests, Some(vec![(key(0, 0), vec![4, 5])]), 0);
    assert_eq!(cache.tiles.len(), 1);
    assert!(begin_globe_frame(&mut cache, 0, &None, &[], 0).is_none());
    assert_eq!(cache.tiles.len(), 1);
    assert!(begin_globe_frame(&mut cache, 1, &None, &[], 0).is_none());
    assert!(cache.tiles.is_empty());
    assert_eq!(cache.zoom_fallback.as_deref(), Some(&vec![4, 5]));
    assert_eq!(cache.zoom_bucket, 1);

    let mut big: GlobeRegionCache<u32> = GlobeRegionCache::new();
    for i in 0..(GLOBE_MAX_TILES as i32 + 1) {
        big.tiles.push(((i, 0), Arc::new(vec![1])));
        big.order.push((i, 0));
    }
    big.in_flight.push((GLOBE_MAX_TILES as i32, 0));
    big.in_flight.push((3, 0));
    let revision = big.tiles_revision;
    big.evict_far_tiles(0, 0, GLOBE_MAX_TILES);
    assert_eq!(big.tiles.len(), GLOBE_MAX_TILES);
    assert!(!big.tiles.iter().any(|(cell, _)| *cell == (GLOBE_MAX_TILES as i32, 0)));
    assert_eq!(big.in_flight, vec![(3, 0)]);
    assert_eq!(big.order.len(), GLOBE_MAX_TILES);
    assert_ne!(big.tiles_revision, revision);
    let before = big.tiles.len();
    big.evict_far_tiles(0, 0, GLOBE_MAX_TILES);
    assert_eq!(big.tiles.len(), before);
}

#[test]
fn planet_globe_keeps_the_nearest_eight_hundred_tiles() {
    let mut cache: GlobeRegionCache<u32> = GlobeRegionCache::new();
    for i in 0..(PLANET_GLOBE_MAX_TILES as i32 + 2) {
        cache.tiles.push(((i, 0), Arc::new(vec![1])));
        cache.order.push((i, 0));
    }
    let far_end = PLANET_GLOBE_MAX_TILES as i32 + 1;
    cache.evict_far_tiles(far_end, 0, PLANET_GLOBE_MAX_TILES);
    assert_eq!(cache.tiles.len(), PLANET_GLOBE_MAX_TILES);
    assert!(!cache.tiles.iter().any(|(cell, _)| *cell == (0, 0) || *cell == (1, 0)));
    assert_eq!(cache.order.first(), Some(&(far_end, 0)), "nearest first");
}

#[test]
fn reads_measure_only_the_tiles_they_could_claim() {
    let mut cache: LocalRegionCache<u32> = LocalRegionCache::new();
    cache.entries.push((key(i32::MIN, 0), Arc::new(vec![1])));
    let far_decoded = asset(i32::MIN, 0);
    let read = cache.begin_local_read(&[far_decoded.clone(), asset(2, 0)], 1, 0, 0);
    let (epoch, requests) = read.expect("the near tile is read");
    assert_eq!(requests.len(), 1);
    assert_eq!(requests[0].0.lat_bucket, 2);
    // While that reader runs nothing is measured or claimed.
    let before = cache.in_flight.len();
    assert!(cache.begin_local_read(&[asset(i32::MAX, 0)], i32::MIN, 0, 0).is_none());
    assert_eq!(cache.in_flight.len(), before);
    cache.finish_local_read(epoch, &requests, None, 10);
    assert!(cache.begin_local_read(&[asset(i32::MAX, 0)], i32::MIN, 0, 11).is_none(), "retry pending");
}

use electric_eye_map::flatten::concat_contours;
use electric_eye_map::globe_cache::{GlobeRegionCache, GlobeRender};
use electric_eye_map::local_cache::{
    local_manifest_asset_views, LocalManifestKey, LocalManifestSnapshot, LocalMergeSpec,
    LocalRegionCache, LOCAL_CONTOUR_READ_BATCH_SIZE, LOCAL_CONTOUR_RETAIN_RADIUS,
};
use electric_eye_map::region::{local_region_state, merged_local_contours};
use electric_eye_map::tiles::{FocusContourAsset, TileKey};
use electric_eye_map::wkb::parse_wkb_geometry;
use std::sync::Arc;

#[derive(Clone, Debug, PartialEq)]
struct TestContour {
    elevation_m: f32,
    points: Vec<(f32, f32)>,
}

fn test_contour(elevation_m: f32) -> TestContour {
    TestContour {
        elevation_m,
        points: vec![(0.0, 0.0), (0.1, 0.1)],
    }
}

fn test_asset(lat_bucket: i32, lon_bucket: i32) -> FocusContourAsset {
    FocusContourAsset {
        path: b"test-cache.sqlite".to_vec(),
        simplify_step: 1,
        zoom_bucket: 0,
        lat_bucket,
        lon_bucket,
    }
}

fn test_cache_key(lat_bucket: i32, lon_bucket: i32) -> TileKey {
    TileKey {
        path: b"test-cache.sqlite".to_vec(),
        lat_bucket,
        lon_bucket,
        zoom_bucket: 0,
    }
}

fn has_entry<P>(cache: &LocalRegionCache<P>, key: &TileKey) -> bool {
    cache.entries.iter().any(|(k, _)| k.same(key))
}

fn flatten(cache_tiles: &Vec<(TileKey, Arc<Vec<TestContour>>)>) -> Arc<Vec<TestContour>> {
    Arc::new(concat_contours(cache_tiles))
}

#[test]
fn compatible_manifest_pan_fallback_keeps_overlapping_tiles_ready() {
    let source_key = LocalManifestKey {
        root: Some(b"terrain-root".to_vec()),
        center_lat_bucket: 0,
        center_lon_bucket: 0,
        zoom_bucket: 0,
        prefetch_radius: 1,
        build_radius: 1,
    };
    let snapshot = LocalManifestSnapshot {
        key: source_key.clone(),
        assets: (-1..=1)
            .flat_map(|lat_bucket| (-1..=1).map(move |lon_bucket| test_asset(lat_bucket, lon_bucket)))
            .collect(),
        manifest_revision: 0,
        refreshed_at: 0,
    };

    let exact = local_manifest_asset_views(Some(&snapshot), &source_key);
    assert_eq!(exact.reader_assets().len(), 9);
    assert_eq!(exact.display_assets().len(), 9);

    let adjacent_key = LocalManifestKey {
        center_lat_bucket: 1,
        ..source_key.clone()
    };
    let adjacent = local_manifest_asset_views(Some(&snapshot), &adjacent_key);
    assert!(adjacent.reader_assets().is_empty());
    assert_eq!(adjacent.display_assets().len(), 6);
    assert!(adjacent
        .display_assets()
        .iter()
        .all(|asset| (0..=1).contains(&asset.lat_bucket)));

    // The viewport centre one bucket north of the source window, in buckets.
    let progress = local_region_state(adjacent.display_assets(), 1, 0, 0, 1, 0);
    assert_eq!(progress.status.ready_assets, 6);
    assert_eq!(progress.status.total_assets, 9);

    let different_root = LocalManifestKey {
        root: Some(b"other-root".to_vec()),
        ..adjacent_key.clone()
    };
    let different_zoom = LocalManifestKey {
        zoom_bucket: 1,
        ..adjacent_key.clone()
    };
    let different_radii = LocalManifestKey {
        prefetch_radius: 2,
        ..adjacent_key
    };
    for incompatible_key in [different_root, different_zoom, different_radii] {
        let incompatible = local_manifest_asset_views(Some(&snapshot), &incompatible_key);
        assert!(incompatible.reader_assets().is_empty());
        assert!(incompatible.display_assets().is_empty());
    }
}

#[test]
fn local_draw_window_keeps_outer_tiles_decoded_for_return_pans() {
    let near = test_cache_key(0, 0);
    let outer = test_cache_key(5, 0);
    let mut cache: LocalRegionCache<TestContour> = LocalRegionCache::new();
    cache.entries.push((near.clone(), Arc::new(vec![test_contour(10.0)])));
    cache.entries.push((outer.clone(), Arc::new(vec![test_contour(20.0)])));
    cache.mark_entries_changed();

    let visible = merged_local_contours(&cache, 0, 0, 4).expect("near tile should be in the draw window");
    assert_eq!(visible.len(), 1);
    assert_eq!(visible[0].elevation_m, 10.0);
    assert!(has_entry(&cache, &outer));

    let after_pan = merged_local_contours(&cache, 5, 0, 4)
        .expect("retained outer tile should render after return pan");
    assert_eq!(after_pan.len(), 1);
    assert_eq!(after_pan[0].elevation_m, 20.0);
    assert!(has_entry(&cache, &near));
}

#[test]
fn background_local_merge_discards_a_stale_tile_snapshot() {
    let first = test_cache_key(0, 0);
    let second = test_cache_key(1, 0);
    let mut state: LocalRegionCache<TestContour> = LocalRegionCache::new();
    let spec = LocalMergeSpec {
        center_lat_bucket: 0,
        center_lon_bucket: 0,
        source_radius: 2,
        partition_bucket_step_bits: None,
    };

    state.entries.push((first, Arc::new(vec![test_contour(10.0)])));
    state.mark_entries_changed();
    let stale_work = state.begin_local_merge(spec).expect("initial merge work");
    let stale_key = stale_work.key;

    state.entries.push((second, Arc::new(vec![test_contour(20.0)])));
    state.mark_entries_changed();
    // A new request is recorded, but waits for the active worker.
    assert!(state.begin_local_merge(spec).is_none());
    assert_ne!(state.merge_requested_key, Some(stale_key));

    let stale_merge = flatten(&stale_work.tiles);
    state.finish_local_merge(stale_key, Some(stale_merge));

    assert!(state.merged_key.is_none());
    assert!(state.merge_in_flight.is_none());
    let fresh_work = state.begin_local_merge(spec).expect("fresh merge work");
    let fresh_key = fresh_work.key;

    let fresh_merge = flatten(&fresh_work.tiles);
    state.finish_local_merge(fresh_key, Some(fresh_merge));
    let merged = state.merged.as_ref().expect("published current merge");
    assert_eq!(merged.len(), 2);
    assert_eq!(state.merged_key, Some(fresh_key));
}

#[test]
fn stale_manifest_worker_cannot_replace_the_latest_window() {
    let stale_key = LocalManifestKey {
        root: None,
        center_lat_bucket: 0,
        center_lon_bucket: 0,
        zoom_bucket: 1,
        prefetch_radius: 6,
        build_radius: 6,
    };
    let requested_key = LocalManifestKey {
        center_lat_bucket: 1,
        ..stale_key.clone()
    };
    let mut state: LocalRegionCache<TestContour> = LocalRegionCache::new();
    state.manifest_snapshot = Some(LocalManifestSnapshot {
        key: requested_key.clone(),
        assets: vec![test_asset(1, 0)],
        manifest_revision: 0,
        refreshed_at: 0,
    });
    state.manifest_requested_key = Some(requested_key.clone());
    state.manifest_in_flight = Some(stale_key.clone());

    state.finish_local_manifest(&stale_key, Some(vec![test_asset(0, 0)]), 0, 10);

    assert!(state.manifest_in_flight.is_none());
    let snapshot = state.manifest_snapshot.as_ref().expect("current snapshot");
    assert!(snapshot.key.same(&requested_key));
    assert_eq!(snapshot.assets[0].lat_bucket, 1);
}

#[test]
fn manifest_publication_preserves_revision_observed_before_selection() {
    let key = LocalManifestKey {
        root: None,
        center_lat_bucket: 0,
        center_lon_bucket: 0,
        zoom_bucket: 10,
        prefetch_radius: 2,
        build_radius: 2,
    };
    let mut state: LocalRegionCache<TestContour> = LocalRegionCache::new();
    state.manifest_requested_key = Some(key.clone());
    state.manifest_in_flight = Some(key.clone());
    // The snapshot keeps the worker's revision, not a later one.
    state.finish_local_manifest(&key, Some(Vec::new()), 41, 0);
    assert_eq!(state.manifest_snapshot.as_ref().unwrap().manifest_revision, 41);
    assert!(state.manifest_in_flight.is_none());
}

#[test]
fn local_retention_window_prunes_only_distant_tiles() {
    let retained = test_cache_key(LOCAL_CONTOUR_RETAIN_RADIUS, 0);
    let distant = test_cache_key(LOCAL_CONTOUR_RETAIN_RADIUS + 1, 0);
    let mut cache: LocalRegionCache<TestContour> = LocalRegionCache::new();
    cache.entries.push((retained.clone(), Arc::new(vec![test_contour(10.0)])));
    cache.entries.push((distant.clone(), Arc::new(vec![test_contour(20.0)])));
    cache.mark_entries_changed();

    cache.retain_local_entries(0, 0);

    assert!(has_entry(&cache, &retained));
    assert!(!has_entry(&cache, &distant));
}

#[test]
fn local_reader_prioritizes_the_viewport_center_and_bounds_its_batch() {
    let assets: Vec<_> = (0..=LOCAL_CONTOUR_READ_BATCH_SIZE as i32)
        .map(|lat_bucket| test_asset(lat_bucket, 0))
        .collect();
    let mut cache: LocalRegionCache<TestContour> = LocalRegionCache::new();

    let (_epoch, requests) = cache.begin_local_read(&assets, 0, 0, 0).expect("local read batch");

    assert_eq!(requests.len(), LOCAL_CONTOUR_READ_BATCH_SIZE);
    assert_eq!(requests[0].0.lat_bucket, 0);
    assert!(!requests
        .iter()
        .any(|(key, _)| key.lat_bucket == LOCAL_CONTOUR_READ_BATCH_SIZE as i32));
}

#[test]
fn stale_globe_read_cannot_repopulate_a_reset_cache() {
    let asset = test_asset(4, -7);
    let mut state: GlobeRegionCache<TestContour> = GlobeRegionCache::new();
    let (epoch, requests) = state
        .begin_globe_read(std::slice::from_ref(&asset), 0)
        .expect("first read");
    assert!(state.begin_globe_read(std::slice::from_ref(&asset), 0).is_none());

    state.reset_all();
    assert_ne!(state.load_epoch, epoch);
    state.finish_globe_read(
        epoch,
        &requests,
        Some(vec![(requests[0].0.clone(), vec![test_contour(10.0)])]),
        0,
    );

    assert!(state.tiles.is_empty());
    assert_eq!(state.load_in_flight, None);
    assert!(state.begin_globe_read(std::slice::from_ref(&asset), 0).is_some());
}

/// What the globe shows: the memoized merge, or a fresh one published now.
fn render(cache: &mut GlobeRegionCache<TestContour>) -> Option<Arc<Vec<TestContour>>> {
    match cache.render_globe_tiles() {
        GlobeRender::Show(shown) => shown,
        GlobeRender::Rebuild => {
            let merged = concat_contours(&cache.tiles);
            cache.publish_globe_merge(merged)
        }
    }
}

#[test]
fn globe_merge_reuses_its_arc_until_the_tile_set_changes() {
    let mut cache: GlobeRegionCache<TestContour> = GlobeRegionCache::new();
    cache.tiles.push(((0, 0), Arc::new(vec![test_contour(100.0)])));
    cache.mark_tiles_changed();

    let first = render(&mut cache).expect("first merged globe tile");
    let second = render(&mut cache).expect("cached globe merge");
    assert!(Arc::ptr_eq(&first, &second));

    cache.tiles.push(((0, 1), Arc::new(vec![test_contour(200.0)])));
    cache.mark_tiles_changed();
    let updated = render(&mut cache).expect("updated globe merge");
    assert!(!Arc::ptr_eq(&first, &updated));
    assert_eq!(updated.len(), 2);

    cache.tiles.retain(|(cell, _)| *cell != (0, 1));
    cache.mark_tiles_changed();
    let evicted = render(&mut cache).expect("evicted globe merge");
    assert!(!Arc::ptr_eq(&updated, &evicted));
    assert_eq!(evicted.len(), 1);
}

#[test]
fn globe_merge_keeps_the_zoom_fallback_for_empty_tiles() {
    let fallback = Arc::new(vec![test_contour(100.0)]);
    let mut cache: GlobeRegionCache<TestContour> = GlobeRegionCache::new();
    cache.zoom_fallback = Some(Arc::clone(&fallback));
    cache.tiles.push(((0, 0), Arc::new(Vec::new())));
    cache.mark_tiles_changed();

    let first = render(&mut cache).expect("zoom fallback");
    let second = render(&mut cache).expect("cached zoom fallback");
    assert!(Arc::ptr_eq(&first, &fallback));
    assert!(Arc::ptr_eq(&second, &fallback));
}

#[test]
fn wkb_parser_rejects_nested_multiline_collections_without_recursing() {
    let mut wkb = Vec::new();
    wkb.push(1);
    wkb.extend_from_slice(&2u32.to_le_bytes());
    wkb.extend_from_slice(&2u32.to_le_bytes());
    for (lon, lat) in [(0.0f64, 0.0f64), (1.0, 1.0)] {
        wkb.extend_from_slice(&lon.to_le_bytes());
        wkb.extend_from_slice(&lat.to_le_bytes());
    }

    for _ in 0..64 {
        let mut parent = Vec::with_capacity(wkb.len() + 9);
        parent.push(1);
        parent.extend_from_slice(&5u32.to_le_bytes());
        parent.extend_from_slice(&1u32.to_le_bytes());
        parent.extend_from_slice(&wkb);
        wkb = parent;
    }

    assert!(parse_wkb_geometry(&wkb).is_none());
}

#[test]
fn wkb_parser_accepts_direct_multiline_linestring_children() {
    let mut wkb = Vec::new();
    wkb.push(1);
    wkb.extend_from_slice(&5u32.to_le_bytes());
    wkb.extend_from_slice(&1u32.to_le_bytes());
    wkb.push(1);
    wkb.extend_from_slice(&2u32.to_le_bytes());
    wkb.extend_from_slice(&2u32.to_le_bytes());
    for (lon, lat) in [(12.5f64, -3.0f64), (13.0, -2.5)] {
        wkb.extend_from_slice(&lon.to_le_bytes());
        wkb.extend_from_slice(&lat.to_le_bytes());
    }

    let lines = parse_wkb_geometry(&wkb).expect("valid multiline geometry");
    assert_eq!(lines.len(), 1);
    assert_eq!(lines[0].len(), 2);
    assert_eq!(f64::from_bits(lines[0][0].lon_bits) as f32, 12.5);
    assert_eq!(f64::from_bits(lines[0][0].lat_bits) as f32, -3.0);
}

#[test]
fn wkb_parser_rejects_impossible_point_count_before_allocating() {
    let mut wkb = Vec::new();
    wkb.push(1);
    wkb.extend_from_slice(&2u32.to_le_bytes());
    wkb.extend_from_slice(&u32::MAX.to_le_bytes());
    assert!(parse_wkb_geometry(&wkb).is_none());
}

use electric_eye_map::contour_rows::{
    batch_outcome, depth_level_budgets, push_row_lines, select_coastline_lines,
    select_topo_lines, sort_longest_first, thin_to_budget, topo_fetch_stride, ContourLine,
};
use electric_eye_map::json::{JsonNumber, JsonValue};
use electric_eye_map::features::{
    features_of_json, parse_feature_collection,
    admin_boundaries_from_features, polylines_from_features, AdminCache, LoadedAdminBoundary,
    RawFeature, RawGeometry,
};
use electric_eye_map::instances::{
    palette_key, request_instances, request_tile_instances, split_counts, LayerInstances,
    LocalTileId, TileInstanceLookup,
};
use electric_eye_map::jobs::{GenerationGate, ImportThrottle};
use electric_eye_map::polyline::{f32_bits_eq, simplify_line, PointBits};
use electric_eye_map::raster::{
    decode_i16_samples, header_says_big_endian, is_gebco_dir_name, is_gebco_tile_name, DepthFillGrid,
    DepthRasterCache, GebcoDepthGrid,
};
use electric_eye_map::region::pending_window_cells;
use electric_eye_map::residency::TileResidency;
use electric_eye_map::terrain::{
    build_grid_indices, cell_rand_bits, elevation_sample_indices, tile_hash, HeightmapKey,
    HeightmapState,
};
use electric_eye_map::wkb::parse_gpkg_lines;
use std::sync::Arc;

fn pt(lat: f32, lon: f32) -> PointBits {
    PointBits {
        lat_bits: lat.to_bits(),
        lon_bits: lon.to_bits(),
    }
}

#[test]
fn grid_indices_cover_each_quad_with_two_triangles() {
    assert_eq!(build_grid_indices(1), vec![0, 1, 2, 1, 3, 2]);
    let two = build_grid_indices(2);
    assert_eq!(two.len(), 24);
    assert_eq!(&two[18..24], &[4, 5, 7, 5, 8, 7]);
    assert!(build_grid_indices(0).is_empty());
}

#[test]
fn tile_seeds_match_the_multiplicative_hash() {
    let expected = |lat: i32, lon: i32| {
        (lat as u32 as u64)
            .wrapping_mul(2_654_435_761)
            .wrapping_add((lon as u32 as u64).wrapping_mul(2_246_822_519))
            .wrapping_mul(6_364_136_223_846_793_005)
    };
    assert_eq!(tile_hash(0, 0), 0);
    assert_eq!(tile_hash(1, 0), 2_654_435_761u64.wrapping_mul(6_364_136_223_846_793_005));
    assert_eq!(tile_hash(-3, 17), expected(-3, 17));
    assert_eq!(tile_hash(i32::MIN, i32::MAX), expected(i32::MIN, i32::MAX));
}

#[test]
fn dissolve_thresholds_are_the_top_bits_of_splitmix() {
    let mix = |seed: u64, row: u64, col: u64| {
        let mut x = seed
            .wrapping_add(row.wrapping_mul(0x9e37_79b9_7f4a_7c15))
            .wrapping_add(col.wrapping_mul(0x6c62_272e_07bb_0142));
        x = (x ^ (x >> 30)).wrapping_mul(0xbf58_476d_1ce4_e5b9);
        x = (x ^ (x >> 27)).wrapping_mul(0x94d0_49bb_1331_11eb);
        x ^ (x >> 31)
    };
    for (seed, row, col) in [(0u64, 0u64, 0u64), (42, 3, 9), (u64::MAX, 7, 1)] {
        assert_eq!(cell_rand_bits(seed, row, col) as u64, mix(seed, row, col) >> 40);
    }
    assert!(cell_rand_bits(5, 6, 7) < (1 << 24));
}

#[test]
fn elevation_samples_include_every_step_and_the_last_vertex() {
    assert_eq!(elevation_sample_indices(0, 3), Vec::<usize>::new());
    assert_eq!(elevation_sample_indices(1, 3), vec![0]);
    assert_eq!(elevation_sample_indices(7, 3), vec![0, 3, 6]);
    assert_eq!(elevation_sample_indices(8, 3), vec![0, 3, 6, 7]);
    assert_eq!(elevation_sample_indices(4, 0), vec![0, 1, 2, 3]);
}

#[test]
fn heightmap_builds_once_and_never_blocks_the_scene() {
    let key = HeightmapKey {
        lat_q: 1,
        lon_q: 2,
        extent_q: 3,
        root_hash: 4,
    };
    let other = HeightmapKey { lat_q: 9, ..key };
    let mut state = HeightmapState::new();
    let first = state.prepare(key, None);
    assert!(first.start_build && !first.upload_pending);
    assert!(!state.is_heightmap_ready(key));
    let second = state.prepare(key, None);
    assert!(!second.start_build, "one build at a time");
    state.finish_build();
    let third = state.prepare(key, Some(key));
    assert!(third.upload_pending && !third.start_build);
    assert!(state.is_heightmap_ready(key));
    let moved = state.prepare(other, None);
    assert!(moved.start_build);
    assert!(!state.is_heightmap_ready(key));
}

#[test]
fn decoding_raw_samples_checks_the_length() {
    assert_eq!(decode_i16_samples(&[1, 0, 0xff, 0xff], false, 2), Some(vec![1, -1]));
    assert_eq!(decode_i16_samples(&[0, 1, 0x80, 0], true, 2), Some(vec![1, i16::MIN]));
    assert_eq!(decode_i16_samples(&[1, 0, 0], false, 2), None);
    assert!(GebcoDepthGrid::from_raw_int16_le(&[0u8; 10]).is_none());
    assert!(DepthFillGrid::decode(&[0u8; 2 * 180 * 90 - 2], true).is_none());
}

#[test]
fn depth_grid_ocean_cells_skip_land_and_nodata() {
    let mut bytes = vec![0u8; 2 * 1440 * 720];
    // (row 0, col 0) ocean -5; (row 0, col 2) nodata; (row 2, col 0) ocean -7.
    bytes[0..2].copy_from_slice(&(-5i16).to_le_bytes());
    bytes[4..6].copy_from_slice(&(-32767i16).to_le_bytes());
    let at = 2 * (2 * 1440);
    bytes[at..at + 2].copy_from_slice(&(-7i16).to_le_bytes());
    let grid = GebcoDepthGrid::from_raw_int16_le(&bytes).expect("full grid");
    assert_eq!(grid.ocean_cells(1), vec![(0, 0, -5), (2, 0, -7)]);
    assert_eq!(grid.ocean_cells(2), vec![(0, 0, -5), (2, 0, -7)]);
    assert_eq!(grid.ocean_cells(3), vec![(0, 0, -5)]);
}

#[test]
fn luma_images_need_the_grid_size_and_a_negative_sample() {
    let mut raw = vec![10u16; 1440 * 720];
    assert!(GebcoDepthGrid::from_luma16(1440, 720, &raw).is_none(), "sign lost");
    raw[1] = 0xfffb;
    let grid = GebcoDepthGrid::from_luma16(1440, 720, &raw).expect("grid");
    assert_eq!(grid.ocean_cells(1), vec![(0, 1, -5)]);
    assert!(GebcoDepthGrid::from_luma16(720, 1440, &raw).is_none());
}

#[test]
fn tiff_bytes_decode_into_the_depth_grid() {
    let mut image = image::ImageBuffer::<image::Luma<u16>, Vec<u16>>::new(1440, 720);
    image.put_pixel(3, 2, image::Luma([(-12i16) as u16]));
    let mut bytes = std::io::Cursor::new(Vec::new());
    image
        .write_to(&mut bytes, image::ImageFormat::Tiff)
        .expect("encode tiff");
    let grid = GebcoDepthGrid::from_tiff_bytes(bytes.get_ref()).expect("decoded grid");
    assert_eq!(grid.ocean_cells(1), vec![(2, 3, -12)]);
    assert!(GebcoDepthGrid::from_tiff_bytes(b"not a tiff").is_none());
}

#[test]
fn fill_grid_depth_lookup_clamps_to_the_grid() {
    let mut bytes = vec![0u8; 2 * 180 * 90];
    let last = 2 * (180 * 90 - 1);
    bytes[last..last + 2].copy_from_slice(&(-40i16).to_be_bytes());
    let grid = DepthFillGrid::decode(&bytes, true).expect("fill grid");
    assert_eq!(grid.depth_at_cell(89, 179), Some(-40));
    assert_eq!(grid.depth_at_cell(500, 900), Some(-40));
    assert_eq!(grid.depth_at_cell(0, 0), None);
}

#[test]
fn depth_raster_cache_shares_its_samples() {
    let mut cache: DepthRasterCache<u8> = DepthRasterCache::new();
    assert!(cache.cached().is_none());
    let coarse = Arc::new(vec![1u8]);
    let fine = Arc::new(vec![2u8, 3]);
    cache.store(Arc::clone(&coarse), Arc::clone(&fine));
    let (c, f) = cache.cached().expect("cached samples");
    assert!(Arc::ptr_eq(&c, &coarse) && Arc::ptr_eq(&f, &fine));
    cache.blast_cache();
    assert!(cache.cached().is_none());
}

#[test]
fn gebco_tiles_are_selected_by_name() {
    assert!(is_gebco_tile_name("gebco_2025_n90.0_s0.0_w-180.0_e-120.0.tif", "tif"));
    assert!(!is_gebco_tile_name("gebco_2025_sub_ice_n90.tif", "tif"));
    assert!(!is_gebco_tile_name("gebco_2025_x_tid_n90.tif", "tif"));
    assert!(!is_gebco_tile_name("gebco_2025_n90.tif", "tiff"));
    assert!(!is_gebco_tile_name("other_2025_n90.tif", "tif"));
    assert!(is_gebco_dir_name("GEBCO_2025"));
    assert!(!is_gebco_dir_name("gebco"));
}

#[test]
fn simplified_lines_keep_ends_and_drop_repeats() {
    let line: Vec<PointBits> = (0..7).map(|i| pt(i as f32, 0.0)).collect();
    let thinned = simplify_line(line.clone(), 3);
    assert_eq!(thinned, vec![pt(0.0, 0.0), pt(3.0, 0.0), pt(6.0, 0.0)]);
    assert_eq!(simplify_line(line.clone(), 1), line);
    let repeated = vec![pt(1.0, 1.0), pt(1.0, 1.0), pt(1.0, 1.0), pt(2.0, 2.0)];
    assert_eq!(simplify_line(repeated, 2), vec![pt(1.0, 1.0), pt(2.0, 2.0)]);
    let zeros = vec![pt(0.0, 0.0), pt(-0.0, 0.0), pt(5.0, 5.0)];
    assert_eq!(simplify_line(zeros, 2), vec![pt(0.0, 0.0), pt(5.0, 5.0)]);
    assert!(f32_bits_eq(0.0f32.to_bits(), (-0.0f32).to_bits()));
    assert!(!f32_bits_eq(f32::NAN.to_bits(), f32::NAN.to_bits()));
}

fn gpkg_line(points: &[(f64, f64)]) -> Vec<u8> {
    let mut geometry = b"GP\0\0\0\0\0\0".to_vec();
    geometry.push(1);
    geometry.extend_from_slice(&2u32.to_le_bytes());
    geometry.extend_from_slice(&(points.len() as u32).to_le_bytes());
    for (lon, lat) in points {
        geometry.extend_from_slice(&lon.to_le_bytes());
        geometry.extend_from_slice(&lat.to_le_bytes());
    }
    geometry
}

#[test]
fn gpkg_blobs_decode_their_lines() {
    let lines = parse_gpkg_lines(&gpkg_line(&[(0.0, 0.0), (1.0, 1.0)]));
    assert_eq!(lines.len(), 1);
    assert_eq!(f64::from_bits(lines[0][1].lat_bits), 1.0);
    assert!(parse_gpkg_lines(b"XX\0\0\0\0\0\0\x01").is_empty());
    let mut with_envelope = b"GP\0\x02".to_vec();
    with_envelope.extend_from_slice(&[0u8; 4 + 32]);
    with_envelope.extend_from_slice(&gpkg_line(&[(2.0, 3.0), (4.0, 5.0)])[8..]);
    let lines = parse_gpkg_lines(&with_envelope);
    assert_eq!(lines.len(), 1);
    assert_eq!(f64::from_bits(lines[0][0].lon_bits), 2.0);
}

#[test]
fn row_lines_are_thinned_and_filtered() {
    let mut out: Vec<ContourLine<i32>> = Vec::new();
    let long: Vec<PointBits> = (0..5).map(|i| pt(i as f32, 0.0)).collect();
    let single = vec![pt(0.0, 0.0)];
    let pair = vec![pt(0.0, 0.0), pt(1.0, 1.0)];
    push_row_lines(&mut out, -200, vec![long, single, pair], 2, 3);
    assert_eq!(out.len(), 1);
    assert_eq!(out[0].elevation, -200);
    assert_eq!(out[0].points.len(), 3);
    push_row_lines(&mut out, 10, vec![vec![pt(0.0, 0.0), pt(0.0, 0.0)]], 1, 0);
    assert_eq!(out.len(), 2);
}

fn line(points: usize) -> ContourLine<i32> {
    ContourLine {
        elevation: points as i32,
        points: (0..points).map(|i| pt(i as f32, 0.0)).collect(),
    }
}

fn lengths(lines: &[ContourLine<i32>]) -> Vec<usize> {
    lines.iter().map(|l| l.points.len()).collect()
}

#[test]
fn feature_budget_keeps_the_longest_contours_in_order() {
    let short_then_long = vec![line(2), line(3)];
    assert_eq!(lengths(&thin_to_budget(short_then_long, 1)), vec![3]);

    let counts = [5, 2, 9, 2, 7, 9, 3];
    let items: Vec<ContourLine<i32>> = counts.iter().map(|&n| line(n)).collect();
    assert_eq!(lengths(&thin_to_budget(items.clone(), 3)), vec![9, 7, 9]);
    assert_eq!(lengths(&thin_to_budget(items.clone(), 4)), vec![5, 9, 7, 9]);
    assert_eq!(lengths(&thin_to_budget(items.clone(), 0)), vec![9], "a zero budget keeps one line");
    assert_eq!(lengths(&thin_to_budget(items.clone(), 7)), counts.to_vec());
    // Ties keep the earlier lines.
    let ties: Vec<ContourLine<i32>> = [4, 4, 4, 1].iter().map(|&n| line(n)).collect();
    let kept = thin_to_budget(ties, 2);
    assert_eq!(lengths(&kept), vec![4, 4]);
    for budget in 1..7 {
        assert_eq!(thin_to_budget(items.clone(), budget).len(), budget);
    }
}

#[test]
fn global_selections_prefer_the_longest_lines() {
    let sorted = sort_longest_first(vec![line(2), line(5), line(3), line(5)]);
    let lengths: Vec<usize> = sorted.iter().map(|l| l.points.len()).collect();
    assert_eq!(lengths, vec![5, 5, 3, 2]);
    let topo = select_topo_lines(vec![line(2), line(4)], 5);
    assert_eq!(topo.iter().map(|l| l.points.len()).collect::<Vec<_>>(), vec![4, 2]);
    let coast = select_coastline_lines(vec![line(2), line(4)], 5);
    assert_eq!(coast.iter().map(|l| l.points.len()).collect::<Vec<_>>(), vec![2, 4]);
    let cut = select_coastline_lines(vec![line(2), line(4), line(3)], 2);
    assert_eq!(cut.iter().map(|l| l.points.len()).collect::<Vec<_>>(), vec![4, 3]);
}

#[test]
fn bathymetry_budgets_and_topography_stride() {
    assert_eq!(depth_level_budgets(1000), vec![220, 120, 120, 160, 140, 120, 80, 40]);
    assert_eq!(depth_level_budgets(10), vec![2, 1, 1, 1, 1, 1, 0, 0]);
    assert_eq!(topo_fetch_stride(0, 400), 1);
    assert_eq!(topo_fetch_stride(100_000, 400), 31);
    assert_eq!(topo_fetch_stride(100_000, 100), 33);
}

#[test]
fn a_batch_fails_only_when_nothing_was_read() {
    assert_eq!(batch_outcome::<u8, &str>(Vec::new(), Some("locked")), Err("locked"));
    assert_eq!(batch_outcome::<u8, &str>(vec![1], Some("locked")), Ok(vec![1]));
    assert_eq!(batch_outcome::<u8, &str>(Vec::new(), None), Ok(Vec::new()));
}

fn line_geometry(kind: &str, coordinates: Vec<Option<PointBits>>) -> RawGeometry<PointBits> {
    RawGeometry {
        kind: Some(kind.to_string()),
        coordinates: Some(coordinates.clone()),
        first_ring: Some(coordinates),
    }
}

fn feature(geometry: Option<RawGeometry<PointBits>>) -> RawFeature<PointBits> {
    RawFeature {
        relation_id: None,
        way_id: None,
        admin_level: None,
        name: Some(String::new()),
        class: None,
        geometry,
    }
}

#[test]
fn admin_features_keep_linestrings_of_two_points() {
    let two = vec![Some(pt(1.0, 2.0)), None, Some(pt(3.0, 4.0))];
    let mut named = feature(Some(line_geometry("LineString", two.clone())));
    named.relation_id = Some(77);
    named.admin_level = Some(4);
    named.name = Some("Ohio".to_string());
    let features = vec![
        named,
        feature(Some(line_geometry("LineString", vec![Some(pt(1.0, 1.0)), None]))),
        feature(Some(line_geometry("Polygon", two.clone()))),
        feature(None),
        feature(Some(line_geometry("LineString", two))),
    ];
    let boundaries = admin_boundaries_from_features(6, &features);
    assert_eq!(boundaries.len(), 2);
    assert_eq!(boundaries[0].relation_id, 77);
    assert_eq!(boundaries[0].admin_level, 4);
    assert_eq!(boundaries[0].name.as_deref(), Some("Ohio"));
    assert_eq!(boundaries[0].points, vec![pt(1.0, 2.0), pt(3.0, 4.0)]);
    assert_eq!(boundaries[1].relation_id, 0);
    assert_eq!(boundaries[1].admin_level, 6);
    assert_eq!(boundaries[1].name, None);
}

#[test]
fn cell_features_keep_lines_and_first_rings() {
    let two = vec![Some(pt(1.0, 2.0)), Some(pt(3.0, 4.0))];
    let mut polygon = feature(Some(line_geometry("Polygon", two.clone())));
    polygon.way_id = Some(9);
    polygon.class = Some("harbour".to_string());
    let features = vec![
        feature(Some(line_geometry("LineString", two.clone()))),
        polygon,
        feature(Some(line_geometry("Point", two))),
    ];
    let lines = polylines_from_features(&features);
    assert_eq!(lines.len(), 2);
    assert!(!lines[0].is_polygon);
    assert_eq!(lines[0].class, "");
    assert!(lines[1].is_polygon);
    assert_eq!(lines[1].way_id, 9);
    assert_eq!(lines[1].class, "harbour");
}

fn boundary(id: i64) -> LoadedAdminBoundary {
    LoadedAdminBoundary {
        relation_id: id,
        admin_level: 2,
        name: None,
        points: vec![pt(0.0, 0.0), pt(1.0, 1.0)],
    }
}

#[test]
fn admin_boundaries_load_once_per_root() {
    let mut cache = AdminCache::new();
    let root = b"/data".to_vec();
    assert!(cache.needs_load(&root));
    let first = cache.get_or_load_admin_boundaries(&root, Some(vec![boundary(1)]));
    assert_eq!(first.len(), 1);
    assert!(!cache.needs_load(&root));
    let again = cache.get_or_load_admin_boundaries(&root, Some(vec![boundary(2), boundary(3)]));
    assert_eq!(again.len(), 1, "the same root is not reloaded");
    assert_eq!(again[0].relation_id, 1);
    let other = b"/other".to_vec();
    assert!(cache.needs_load(&other));
    let moved = cache.get_or_load_admin_boundaries(&other, Some(vec![boundary(2), boundary(3)]));
    assert_eq!(moved.len(), 2);
}

#[test]
fn residency_plans_three_uploads_and_evicts_the_oldest() {
    let id = |lat: i32| LocalTileId {
        zoom_bucket: 0,
        lat_bucket: lat,
        lon_bucket: 0,
    };
    let mut table: TileResidency<&str> = TileResidency::new();
    let frame = table.begin_pass(true);
    assert_eq!(frame, 1);
    let batches = vec![(id(0), 1, 4), (id(1), 1, 0), (id(2), 1, 4), (id(3), 1, 4), (id(4), 1, 4)];
    let plan = table.plan_uploads(&batches, frame);
    assert_eq!(plan, vec![0, 2, 3]);
    for &i in &plan {
        let (tile, version, count) = batches[i];
        table.install(tile, version, "buffer", count as u32, 100, frame);
    }
    assert_eq!(table.resident_bytes, 300);
    let frame = table.begin_pass(true);
    assert_eq!(table.begin_pass(false), frame);
    let plan = table.plan_uploads(&[(id(2), 1, 4), (id(4), 1, 4)], frame);
    assert_eq!(plan, vec![1]);
    table.install(id(4), 1, "buffer", 4, 100, frame);
    table.install(id(4), 2, "buffer", 4, 50, frame);
    assert_eq!(table.resident_bytes, 350);
    table.enforce_budget(200, frame);
    // Tiles 0 and 3 were drawn in the previous frame; 2 and 4 in this one.
    assert_eq!(table.resident_bytes, 150);
    assert_eq!(table.tiles.len(), 2);
    assert!(table.tiles.iter().all(|(_, slot)| slot.last_used == frame));
    table.enforce_budget(0, frame);
    assert_eq!(table.tiles.len(), 2, "tiles drawn this frame stay");
}

#[test]
fn instance_caches_serve_stale_sets_while_one_build_runs() {
    let mut entry: LayerInstances<u8> = LayerInstances::new();
    let first = request_instances(&mut entry, 5);
    assert!(first.start_build && first.instances.is_none());
    let second = request_instances(&mut entry, 6);
    assert!(!second.start_build);
    let mut tile: LayerInstances<u8> = LayerInstances {
        current: Some((1, Arc::new(vec![9]))),
        building: None,
    };
    assert!(matches!(request_tile_instances(&mut tile, 1), TileInstanceLookup::Ready(1, _)));
    assert!(matches!(request_tile_instances(&mut tile, 2), TileInstanceLookup::StartBuild));
    assert!(matches!(request_tile_instances(&mut tile, 2), TileInstanceLookup::Pending));
    assert_eq!(split_counts(10, 4), vec![4, 4, 2]);
    assert_eq!(split_counts(0, 4), Vec::<usize>::new());
    assert_eq!(palette_key([1, 0, 0, 0], [2, 0, 0, 0]), (1u64 << 32) | 2);
}

#[test]
fn import_checks_are_rate_limited_and_wait_for_jobs() {
    let mut throttle = ImportThrottle::new();
    assert!(!throttle.should_queue_imports(false, true, false, 0));
    assert!(throttle.should_queue_imports(true, true, false, 1000));
    assert!(!throttle.should_queue_imports(true, true, false, 1400));
    assert!(!throttle.should_queue_imports(true, true, true, 1500));
    assert_eq!(throttle.last_check_ms, Some(1500));
    assert!(throttle.should_queue_imports(true, true, false, 2000));
    let mut gate = GenerationGate::new();
    assert!(!gate.try_begin(false));
    assert!(gate.try_begin(true));
    assert!(!gate.try_begin(true));
    gate.mark_done();
    assert!(gate.try_begin(true));
}

#[test]
fn pending_cells_skip_ready_tiles_in_row_order() {
    let ready = vec![(0, 0), (1, 1), (9, 9)];
    let cells = pending_window_cells(0, 0, 1, &ready);
    assert_eq!(
        cells,
        vec![(-1, -1), (-1, 0), (-1, 1), (0, -1), (0, 1), (1, -1), (1, 0)]
    );
    assert_eq!(pending_window_cells(5, -3, 0, &[]), vec![(5, -3)]);
    assert!(pending_window_cells(5, -3, 0, &[(5, -3)]).is_empty());
}

#[test]
fn header_byte_order_is_read_from_its_line() {
    assert!(!header_says_big_endian(b"ncols 180\nnrows 90\n  byteorder I\n"));
    assert!(header_says_big_endian(b"ncols 180\r\nBYTEORDER M\r\n"));
    assert!(header_says_big_endian(b"ncols 180\nnrows 90\n"));
    assert!(header_says_big_endian(b""));
    // The first byte-order line decides.
    assert!(header_says_big_endian(b"BYTEORDER M\nBYTEORDER I\n"));
    // A key that is not at the start of its line does not count.
    assert!(header_says_big_endian(b"layout BYTEORDER I\n"));
}

#[test]
fn geojson_text_parses_to_its_features() {
    let text = r#"{"type":"FeatureCollection","features":[
        {"type":"Feature","properties":{"relation_id":7,"admin_level":4,"name":"Region","class":3},
         "geometry":{"type":"LineString","coordinates":[[1.5,2.25],[3,4],"x",[5]]}},
        {"properties":null,"geometry":{"type":"Polygon","coordinates":[[[0,1],[2,3]],[[9,9]]]}},
        {"type":"Feature"}
    ]}"#;
    let features = parse_feature_collection(text).expect("a feature collection");
    assert_eq!(features.len(), 3);
    let first = &features[0];
    assert_eq!(first.relation_id, Some(7));
    assert_eq!(first.way_id, None);
    assert_eq!(first.admin_level, Some(4));
    assert_eq!(first.name.as_deref(), Some("Region"));
    assert_eq!(first.class, None, "a number is not a class");
    let g = first.geometry.as_ref().expect("geometry");
    assert_eq!(g.kind.as_deref(), Some("LineString"));
    let coords = g.coordinates.as_ref().expect("coordinates");
    assert_eq!(coords.len(), 4);
    let p = coords[0].expect("a point");
    assert_eq!(f64::from_bits(p.lon_bits), 1.5);
    assert_eq!(f64::from_bits(p.lat_bits), 2.25);
    assert_eq!(f64::from_bits(coords[1].expect("a point").lon_bits), 3.0);
    assert!(coords[2].is_none() && coords[3].is_none());
    let polygon = features[1].geometry.as_ref().expect("geometry");
    assert_eq!(polygon.first_ring.as_ref().map(|r| r.len()), Some(2));
    assert_eq!(polygon.coordinates.as_ref().map(|c| c.iter().all(|p| p.is_none())), Some(true));
    assert!(features[2].geometry.is_none());

    assert!(parse_feature_collection("not json").is_none());
    assert!(parse_feature_collection(r#"{"type":"FeatureCollection"}"#).is_none());
    assert!(parse_feature_collection(r#"{"features":{}}"#).is_none());
    assert_eq!(parse_feature_collection(r#"{"features":[]}"#).map(|f| f.len()), Some(0));
}

#[test]
fn feature_walk_reads_a_parsed_document() {
    let number = |v: i64| {
        JsonValue::Number(JsonNumber { as_i64: Some(v), as_u64: u64::try_from(v).ok(), f64_bits: Some((v as f64).to_bits()) })
    };
    let point = JsonValue::Array(vec![number(10), number(-20)]);
    let geometry = JsonValue::Object(vec![
        ("coordinates".to_string(), JsonValue::Array(vec![point, JsonValue::Null])),
        ("type".to_string(), JsonValue::Text("LineString".to_string())),
    ]);
    let props = JsonValue::Object(vec![
        ("admin_level".to_string(), number(-1)),
        ("way_id".to_string(), number(42)),
    ]);
    let feature = JsonValue::Object(vec![
        ("geometry".to_string(), geometry),
        ("properties".to_string(), props),
    ]);
    let doc = JsonValue::Object(vec![("features".to_string(), JsonValue::Array(vec![feature]))]);
    let features = features_of_json(&doc).expect("features");
    assert_eq!(features[0].way_id, Some(42));
    assert_eq!(features[0].admin_level, None, "-1 is no u64");
    let coords = features[0].geometry.as_ref().unwrap().coordinates.as_ref().unwrap();
    assert_eq!(f64::from_bits(coords[0].unwrap().lat_bits), -20.0);
    assert!(coords[1].is_none());
    assert!(features_of_json(&JsonValue::Null).is_none());
}

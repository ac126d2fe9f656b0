//! Local terrain helpers: the terrain mesh index buffer, per-tile dissolve
//! seeds, elevation sampling plans, the road and water cache stores, and the
//! non-blocking heightmap build protocol.
use vstd::arithmetic::div_mod::{lemma_add_mod_noop, lemma_mul_mod_noop_left};
use vstd::prelude::*;
use vstd::wrapping::u64_specs::{wrapping_add, wrapping_mul};

verus! {

/// The six indices (two triangles) of the quad at (`row`, `col`) of an
/// `n`x`n` quad grid over an `(n + 1)`x`(n + 1)` vertex grid, as `u16`.
pub open spec fn quad_indices(n: int, row: int, col: int) -> Seq<u16> {
    let tl = (row * (n + 1) + col) as u16;
    let tr = (row * (n + 1) + col + 1) as u16;
    let bl = ((row + 1) * (n + 1) + col) as u16;
    let br = ((row + 1) * (n + 1) + col + 1) as u16;
    seq![tl, tr, bl, tr, br, bl]
}

/// The indices of the first `c` quads of row `row`.
pub open spec fn row_indices(n: int, row: int, c: int) -> Seq<u16>
    decreases c,
{
    if c <= 0 {
        Seq::empty()
    } else {
        row_indices(n, row, c - 1) + quad_indices(n, row, c - 1)
    }
}

/// The indices of the first `r` rows of quads.
pub open spec fn grid_indices(n: int, r: int) -> Seq<u16>
    decreases r,
{
    if r <= 0 {
        Seq::empty()
    } else {
        grid_indices(n, r - 1) + row_indices(n, r - 1, n)
    }
}

/// Triangle-list indices of an `n`x`n` quad grid, row by row and quad by quad:
/// top-left, top-right, bottom-left, then top-right, bottom-right, bottom-left.
pub fn build_grid_indices(n: u32) -> (r: Vec<u16>)
    requires
        n * n * 6 <= u32::MAX,
    ensures
        r@ == grid_indices(n as int, n as int),
{
    let mut idx: Vec<u16> = Vec::new();
    let mut row: u32 = 0;
    while row < n
        invariant
            n * n * 6 <= u32::MAX,
            row <= n,
            idx@ == grid_indices(n as int, row as int),
        decreases n - row,
    {
        let ghost base = idx@;
        let mut col: u32 = 0;
        while col < n
            invariant
                n * n * 6 <= u32::MAX,
                row < n,
                col <= n,
                idx@ == base + row_indices(n as int, row as int, col as int),
            decreases n - col,
        {
            assert(n + 1 <= n * n * 6 && row * (n + 1) <= (row + 1) * (n + 1) && (row + 1) * (n
                + 1) + col + 1 <= n * n * 6) by (nonlinear_arith)
                requires
                    row < n,
                    col < n,
            ;
            let top: u32 = row * (n + 1);
            let bottom: u32 = (row + 1) * (n + 1);
            let tl: u16 = (top + col) as u16;
            let tr: u16 = (top + col + 1) as u16;
            let bl: u16 = (bottom + col) as u16;
            let br: u16 = (bottom + col + 1) as u16;
            let ghost before = idx@;
            idx.push(tl);
            idx.push(tr);
            idx.push(bl);
            idx.push(tr);
            idx.push(br);
            idx.push(bl);
            assert(idx@ =~= before + quad_indices(n as int, row as int, col as int));
            assert(base + row_indices(n as int, row as int, col + 1) =~= base + row_indices(
                n as int,
                row as int,
                col as int,
            ) + quad_indices(n as int, row as int, col as int));
            col = col + 1;
        }
        row = row + 1;
    }
    idx
}

/// The low 32 bits of a signed bucket, as an unsigned value.
pub open spec fn low32(x: i32) -> int {
    if x < 0 { x + 0x1_0000_0000 } else { x as int }
}

/// 2^64.
pub open spec fn two64() -> int {
    0x1_0000_0000_0000_0000
}

/// The per-tile seed: `(lat * 2654435761 + lon * 2246822519) * 6364136223846793005`
/// modulo 2^64, over the low 32 bits of each bucket.
pub open spec fn tile_seed(lat_b: i32, lon_b: i32) -> int {
    ((low32(lat_b) * 2_654_435_761 + low32(lon_b) * 2_246_822_519) * 6_364_136_223_846_793_005) % two64()
}

/// Stable per-tile seed from bucket coordinates.
pub fn tile_hash(lat_b: i32, lon_b: i32) -> (r: u64)
    ensures
        r == tile_seed(lat_b, lon_b),
{
    let a: u64 = if lat_b < 0 { (lat_b as i64 + 0x1_0000_0000) as u64 } else { lat_b as u64 };
    let b: u64 = if lon_b < 0 { (lon_b as i64 + 0x1_0000_0000) as u64 } else { lon_b as u64 };
    let x: u64 = a.wrapping_mul(2_654_435_761);
    let y: u64 = b.wrapping_mul(2_246_822_519);
    let s: u64 = x.wrapping_add(y);
    let r: u64 = s.wrapping_mul(6_364_136_223_846_793_005);
    proof {
        let m = two64();
        let ia = a as int * 2_654_435_761;
        let ib = b as int * 2_246_822_519;
        assert(x == ia % m);
        assert(y == ib % m);
        lemma_add_mod_noop(ia, ib, m);
        assert(s == (ia + ib) % m);
        lemma_mul_mod_noop_left(ia + ib, 6_364_136_223_846_793_005, m);
        assert(r == (s as int * 6_364_136_223_846_793_005) % m);
    }
    r
}

/// The splitmix64 finalizer of a dissolve cell, before the top 24 bits are kept.
pub open spec fn cell_mix(seed: u64, row: u64, col: u64) -> u64 {
    let x0 = wrapping_add(
        wrapping_add(seed, wrapping_mul(row, 0x9e37_79b9_7f4a_7c15)),
        wrapping_mul(col, 0x6c62_272e_07bb_0142),
    );
    let x1 = wrapping_mul(x0 ^ (x0 >> 30u64), 0xbf58_476d_1ce4_e5b9);
    let x2 = wrapping_mul(x1 ^ (x1 >> 27u64), 0x94d0_49bb_1331_11eb);
    x2 ^ (x2 >> 31u64)
}

/// The deterministic 24-bit dissolve threshold of cell (`row`, `col`) of a
/// tile: the top 24 bits of its splitmix64 value (the threshold in [0, 1) is
/// this value divided by 2^24).
pub fn cell_rand_bits(seed: u64, row: u64, col: u64) -> (r: u32)
    ensures
        r == cell_mix(seed, row, col) >> 40u64,
{
    let mut x: u64 = seed.wrapping_add(row.wrapping_mul(0x9e37_79b9_7f4a_7c15)).wrapping_add(
        col.wrapping_mul(0x6c62_272e_07bb_0142),
    );
    x = (x ^ (x >> 30u64)).wrapping_mul(0xbf58_476d_1ce4_e5b9);
    x = (x ^ (x >> 27u64)).wrapping_mul(0x94d0_49bb_1331_11eb);
    x = x ^ (x >> 31u64);
    let top: u64 = x >> 40u64;
    assert(x >> 40u64 <= 0xff_ffff) by (bit_vector);
    top as u32
}

/// The indices below `k` that are multiples of `step`.
pub open spec fn step_indices(step: int, k: int) -> Seq<usize>
    decreases k,
{
    if k <= 0 {
        Seq::empty()
    } else if (k - 1) % step == 0 {
        step_indices(step, k - 1).push((k - 1) as usize)
    } else {
        step_indices(step, k - 1)
    }
}

/// The vertices of an `n`-vertex line at which elevation is sampled: every
/// `step`-th one (a step of zero counts as one), and the last one.
pub open spec fn sample_plan(n: int, step: int) -> Seq<usize> {
    if n == 0 {
        Seq::empty()
    } else {
        let s = if step == 0 { 1 } else { step };
        let base = step_indices(s, n);
        if base.last() == n - 1 {
            base
        } else {
            base.push((n - 1) as usize)
        }
    }
}

/// The vertex indices to sample elevation at for an `n`-vertex line; the
/// vertices between two samples are interpolated.
pub fn elevation_sample_indices(n: usize, elev_step: usize) -> (r: Vec<usize>)
    ensures
        r@ == sample_plan(n as int, elev_step as int),
{
    if n == 0 {
        return Vec::new();
    }
    let step: usize = if elev_step == 0 { 1 } else { elev_step };
    let mut out: Vec<usize> = Vec::new();
    let mut i: usize = 0;
    while i < n
        invariant
            step >= 1,
            i <= n,
            out@ == step_indices(step as int, i as int),
            i > 0 ==> out@.len() > 0 && out@[0] == 0,
            forall|k: int| 0 <= k < out@.len() ==> #[trigger] out@[k] < i,
        decreases n - i,
    {
        if i % step == 0 {
            out.push(i);
        }
        i = i + 1;
    }
    if out[out.len() - 1] != n - 1 {
        out.push(n - 1);
    }
    out
}

/// The tile range and content a road (or water) cache was built for.
#[derive(Clone, Copy, PartialEq, Eq, Debug)]
pub struct RoadCoverage {
    pub tile_zoom: u8,
    pub tile_x_min: u32,
    pub tile_x_max: u32,
    pub tile_y_min: u32,
    pub tile_y_max: u32,
    /// Data generation of the road/water store when built.
    pub data_gen: u64,
    pub had_major: bool,
    pub had_minor: bool,
}

/// A built cache can serve a request: same zoom, generation and layers, and
/// its tile range contains the requested one.
pub open spec fn covers(built: RoadCoverage, want: RoadCoverage) -> bool {
    built.tile_zoom == want.tile_zoom && built.data_gen == want.data_gen && built.had_major
        == want.had_major && built.had_minor == want.had_minor && built.tile_x_min
        <= want.tile_x_min && built.tile_x_max >= want.tile_x_max && built.tile_y_min
        <= want.tile_y_min && built.tile_y_max >= want.tile_y_max
}

/// A request widened by one tile on every side (not below tile zero).
pub open spec fn with_margin(want: RoadCoverage) -> RoadCoverage {
    RoadCoverage {
        tile_x_min: if want.tile_x_min >= 1 { (want.tile_x_min - 1) as u32 } else { 0 },
        tile_x_max: (want.tile_x_max + 1) as u32,
        tile_y_min: if want.tile_y_min >= 1 { (want.tile_y_min - 1) as u32 } else { 0 },
        tile_y_max: (want.tile_y_max + 1) as u32,
        ..want
    }
}

/// The outcome of asking for a build of `want`: a build starts, for the
/// request widened by one tile, exactly when no cache covers `want` and no
/// build runs; otherwise nothing changes.
pub open spec fn road_build_outcome<C>(
    before: RoadCacheStore<C>,
    after: RoadCacheStore<C>,
    want: RoadCoverage,
    r: Option<RoadCoverage>,
) -> bool {
    let stale = match before.cache {
        None => true,
        Some((built, _)) => !covers(built, want),
    };
    if stale && !before.building {
        r == Some(with_margin(want)) && after.building && after.cache == before.cache
    } else {
        r is None && after == before
    }
}

/// A tile-range cache of one line layer (roads or water) and its build flag.
pub struct RoadCacheStore<C> {
    pub cache: Option<(RoadCoverage, C)>,
    /// A background build is running.
    pub building: bool,
}

impl<C> RoadCacheStore<C> {
    /// Nothing cached or building.
    pub fn new() -> (r: RoadCacheStore<C>)
        ensures
            r.cache is None,
            !r.building,
    {
        RoadCacheStore { cache: None, building: false }
    }

    /// Drop the cached geometry; a running build still completes.
    pub fn invalidate(&mut self)
        ensures
            final(self).cache is None,
            final(self).building == old(self).building,
    {
        self.cache = None;
    }

    /// Whether a background build is running.
    pub fn is_building(&self) -> (r: bool)
        ensures
            r == self.building,
    {
        self.building
    }

    /// Decide whether to start a build for the requested range: only when no
    /// cache covers it and no build runs. The build is then marked running and
    /// the range to load (the request widened by one tile) is returned.
    pub fn begin_build(&mut self, want: RoadCoverage) -> (r: Option<RoadCoverage>)
        requires
            want.tile_x_max < u32::MAX,
            want.tile_y_max < u32::MAX,
        ensures
            road_build_outcome(*old(self), *final(self), want, r),
    {
        let stale: bool = match &self.cache {
            None => true,
            Some((b, _)) => !(b.tile_zoom == want.tile_zoom && b.data_gen == want.data_gen
                && b.had_major == want.had_major && b.had_minor == want.had_minor && b.tile_x_min
                <= want.tile_x_min && b.tile_x_max >= want.tile_x_max && b.tile_y_min
                <= want.tile_y_min && b.tile_y_max >= want.tile_y_max),
        };
        if !stale || self.building {
            return None;
        }
        self.building = true;
        Some(
            RoadCoverage {
                tile_x_min: want.tile_x_min.saturating_sub(1),
                tile_x_max: want.tile_x_max + 1,
                tile_y_min: want.tile_y_min.saturating_sub(1),
                tile_y_max: want.tile_y_max + 1,
                ..want
            },
        )
    }

    /// One frame of the layer for the requested range: with both layers
    /// hidden the cached geometry is dropped and no build starts; otherwise
    /// see [`Self::begin_build`].
    pub fn frame(&mut self, want: RoadCoverage) -> (r: Option<RoadCoverage>)
        requires
            want.tile_x_max < u32::MAX,
            want.tile_y_max < u32::MAX,
        ensures
            !want.had_major && !want.had_minor ==> r is None && final(self).cache is None
                && final(self).building == old(self).building,
            want.had_major || want.had_minor ==> road_build_outcome(*old(self), *final(self), want, r),
    {
        if !want.had_major && !want.had_minor {
            self.cache = None;
            return None;
        }
        self.begin_build(want)
    }

    /// Install a finished build and clear the build flag.
    pub fn finish_build(&mut self, coverage: RoadCoverage, data: C)
        ensures
            final(self).cache == Some((coverage, data)),
            !final(self).building,
    {
        self.cache = Some((coverage, data));
        self.building = false;
    }
}

/// Identity of an uploaded heightmap: centre and extent quantized, and the
/// hash of the data root.
#[derive(Clone, Copy, PartialEq, Eq, Debug)]
pub struct HeightmapKey {
    pub lat_q: i32,
    pub lon_q: i32,
    pub extent_q: i32,
    pub root_hash: u64,
}

/// Whether two heightmap keys are equal.
pub fn same_heightmap_key(a: &HeightmapKey, b: &HeightmapKey) -> (r: bool)
    ensures
        r == (*a == *b),
{
    a.lat_q == b.lat_q && a.lon_q == b.lon_q && a.extent_q == b.extent_q && a.root_hash
        == b.root_hash
}

/// Whether an optional key is present and equal to `key`.
fn opt_heightmap_is(o: Option<HeightmapKey>, key: &HeightmapKey) -> (r: bool)
    ensures
        r == (o == Some(*key)),
{
    match o {
        Some(k) => same_heightmap_key(&k, key),
        None => false,
    }
}

/// The heightmap shared by the render thread and its builder: the key on the
/// GPU, the key the scene may draw with, and whether a build runs.
pub struct HeightmapState {
    pub cached_key: Option<HeightmapKey>,
    pub ready_key: Option<HeightmapKey>,
    pub building: bool,
}

/// What the render thread must do this frame.
#[derive(Clone, Copy, PartialEq, Eq, Debug)]
pub struct HeightmapActions {
    /// Upload the finished pending heightmap.
    pub upload_pending: bool,
    /// Start a background build for the requested key.
    pub start_build: bool,
}

impl HeightmapState {
    /// Nothing uploaded, ready or building.
    pub fn new() -> (r: HeightmapState)
        ensures
            r.cached_key is None,
            r.ready_key is None,
            !r.building,
    {
        HeightmapState { cached_key: None, ready_key: None, building: false }
    }

    /// One render-thread step for the viewport `key`, given the key of a
    /// finished build waiting to be uploaded. A pending heightmap is uploaded
    /// and becomes both cached and ready. When the cached key is the viewport's
    /// and nothing is marked ready, it is marked ready. When the cached key is
    /// not the viewport's and no build runs, readiness is withdrawn and a build
    /// starts. The scene never waits.
    pub fn prepare(&mut self, key: HeightmapKey, pending: Option<HeightmapKey>) -> (r: HeightmapActions)
        ensures
            r.upload_pending == pending is Some,
            ({
                let cached = if pending is Some { pending } else { old(self).cached_key };
                let ready1 = if pending is Some { pending } else { old(self).ready_key };
                let ready2 = if cached == Some(key) && ready1 is None { Some(key) } else { ready1 };
                let start = cached != Some(key) && !old(self).building;
                &&& r.start_build == start
                &&& final(self).cached_key == cached
                &&& final(self).ready_key == (if start { None } else { ready2 })
                &&& final(self).building == (old(self).building || start)
            }),
    {
        let upload: bool = pending.is_some();
        if let Some(pk) = pending {
            self.cached_key = Some(pk);
            self.ready_key = Some(pk);
        }
        if opt_heightmap_is(self.cached_key, &key) && self.ready_key.is_none() {
            self.ready_key = Some(key);
        }
        let start: bool = !opt_heightmap_is(self.cached_key, &key) && !self.building;
        if start {
            self.ready_key = None;
            self.building = true;
        }
        HeightmapActions { upload_pending: upload, start_build: start }
    }

    /// The background build finished (its result waits to be uploaded).
    pub fn finish_build(&mut self)
        ensures
            !final(self).building,
            final(self).cached_key == old(self).cached_key,
            final(self).ready_key == old(self).ready_key,
    {
        self.building = false;
    }

    /// Whether the heightmap for `key` is uploaded and ready to draw.
    pub fn is_heightmap_ready(&self, key: HeightmapKey) -> (r: bool)
        ensures
            r == (self.ready_key == Some(key)),
    {
        opt_heightmap_is(self.ready_key, &key)
    }
}

} // verus!

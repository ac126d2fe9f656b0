//! The session caches of the world map held as one value: the per-body local
//! and globe contour caches, the three global contour layers, the depth-fill
//! grid, and the local scene's road and water stores, with the queries the
//! repaint scheduler asks of them.
use crate::globe_cache::GlobeRegionCache;
use crate::local_cache::LocalRegionCache;
use crate::raster::DepthFillCache;
use crate::shared::share;
use crate::terrain::RoadCacheStore;
use crate::tiles::{bytes_equal, FocusContourRegionStatus};
use std::sync::Arc;
use vstd::prelude::*;

verus! {

/// The planetary body the map shows.
#[derive(Clone, Copy, PartialEq, Eq, Debug)]
pub enum ActiveBody {
    Earth,
    Moon,
    Mars,
}

/// A decoded global contour layer and the level of detail and file it came from.
pub struct CachedGlobalContours<P> {
    pub lod_bucket: i32,
    pub path: Vec<u8>,
    pub contours: Arc<Vec<P>>,
}

/// One global contour layer: what is cached and whether its background load
/// runs (at most one at a time).
pub struct GlobalContourSlot<P> {
    pub cached: Option<CachedGlobalContours<P>>,
    pub loading: bool,
}

/// The cached layer must be reloaded: nothing is cached, or it came from
/// another file or level of detail.
pub open spec fn needs_reload<P>(cached: Option<CachedGlobalContours<P>>, path: Seq<u8>, lod_bucket: i32) -> bool {
    match cached {
        None => true,
        Some(c) => c.path@ != path || c.lod_bucket != lod_bucket,
    }
}

/// The contours a slot holds, if any.
pub open spec fn slot_contours<P>(cached: Option<CachedGlobalContours<P>>) -> Option<Arc<Vec<P>>> {
    match cached {
        None => None,
        Some(c) => Some(c.contours),
    }
}

impl<P> GlobalContourSlot<P> {
    /// Nothing cached, no load running.
    pub fn new() -> (r: GlobalContourSlot<P>)
        ensures
            r.cached is None,
            !r.loading,
    {
        GlobalContourSlot { cached: None, loading: false }
    }

    /// The layer for `path` at `lod_bucket`: the cached contours (possibly of
    /// another level of detail while a reload runs), and whether a background
    /// load must start now. A load starts only when the cached layer does not
    /// match and none runs; it is then marked running.
    pub fn request(&mut self, path: &Vec<u8>, lod_bucket: i32) -> (r: (Option<Arc<Vec<P>>>, bool))
        ensures
            r.0 == slot_contours(old(self).cached),
            r.1 == (needs_reload(old(self).cached, path@, lod_bucket) && !old(self).loading),
            final(self).cached == old(self).cached,
            final(self).loading == (old(self).loading || r.1),
    {
        let stale: bool = match &self.cached {
            None => true,
            Some(c) => !bytes_equal(&c.path, path) || c.lod_bucket != lod_bucket,
        };
        let current: Option<Arc<Vec<P>>> = match &self.cached {
            None => None,
            Some(c) => Some(share(&c.contours)),
        };
        if stale && !self.loading {
            self.loading = true;
            (current, true)
        } else {
            (current, false)
        }
    }

    /// A background load ended; a successful one replaces the cached layer.
    pub fn finish(&mut self, loaded: Option<CachedGlobalContours<P>>)
        ensures
            !final(self).loading,
            final(self).cached == (if loaded is Some { loaded } else { old(self).cached }),
    {
        if loaded.is_some() {
            self.cached = loaded;
        }
        self.loading = false;
    }
}

/// Every in-memory contour cache of the map, by body and view.
pub struct TileCaches<P> {
    pub local_earth: Option<LocalRegionCache<P>>,
    pub local_moon: Option<LocalRegionCache<P>>,
    pub local_mars: Option<LocalRegionCache<P>>,
    pub globe_earth: Option<GlobeRegionCache<P>>,
    pub globe_moon: Option<GlobeRegionCache<P>>,
    pub globe_mars: Option<GlobeRegionCache<P>>,
    pub coastlines: GlobalContourSlot<P>,
    pub topo: GlobalContourSlot<P>,
    pub bathymetry: GlobalContourSlot<P>,
    pub depth_fill: DepthFillCache,
}

/// After a reset, an absent local cache stays absent and a present one is reset.
pub open spec fn local_reset<P>(before: Option<LocalRegionCache<P>>, after: Option<LocalRegionCache<P>>) -> bool {
    match before {
        None => after is None,
        Some(b) => after matches Some(a) && a.is_reset_of(b),
    }
}

/// After a reset, an absent globe cache stays absent and a present one is reset.
pub open spec fn globe_reset<P>(before: Option<GlobeRegionCache<P>>, after: Option<GlobeRegionCache<P>>) -> bool {
    match before {
        None => after is None,
        Some(b) => after matches Some(a) && a.is_reset_of(b),
    }
}

/// A local contour window still needs tiles: its cache was never created, a
/// reader runs, no status was recorded yet, or fewer assets are ready than
/// the window holds.
pub open spec fn local_pending<P>(cache: Option<LocalRegionCache<P>>) -> bool {
    match cache {
        None => true,
        Some(c) => c.load_in_flight is Some || match c.last_status {
            None => true,
            Some(s) => s.ready_assets < s.total_assets,
        },
    }
}

fn reset_local<P>(cache: &mut Option<LocalRegionCache<P>>)
    ensures
        local_reset(*old(cache), *final(cache)),
{
    match cache {
        Some(c) => c.reset_all(),
        None => {},
    }
}

fn reset_globe<P>(cache: &mut Option<GlobeRegionCache<P>>)
    ensures
        globe_reset(*old(cache), *final(cache)),
{
    match cache {
        Some(c) => c.reset_all(),
        None => {},
    }
}

fn pending_of<P>(cache: &Option<LocalRegionCache<P>>) -> (r: bool)
    ensures
        r == local_pending(*cache),
{
    match cache {
        None => true,
        Some(c) => c.load_in_flight.is_some() || match c.last_status {
            None => true,
            Some(s) => s.ready_assets < s.total_assets,
        },
    }
}

impl<P> TileCaches<P> {
    /// No cache created yet.
    pub fn new() -> (r: TileCaches<P>)
        ensures
            r.local_earth is None,
            r.local_moon is None,
            r.local_mars is None,
            r.globe_earth is None,
            r.globe_moon is None,
            r.globe_mars is None,
            r.coastlines.cached is None && !r.coastlines.loading,
            r.topo.cached is None && !r.topo.loading,
            r.bathymetry.cached is None && !r.bathymetry.loading,
            r.depth_fill.grid is None,
    {
        TileCaches {
            local_earth: None,
            local_moon: None,
            local_mars: None,
            globe_earth: None,
            globe_moon: None,
            globe_mars: None,
            coastlines: GlobalContourSlot::new(),
            topo: GlobalContourSlot::new(),
            bathymetry: GlobalContourSlot::new(),
            depth_fill: DepthFillCache::new(),
        }
    }

    /// The local cache of a body.
    pub open spec fn local_for(self, body: ActiveBody) -> Option<LocalRegionCache<P>> {
        match body {
            ActiveBody::Earth => self.local_earth,
            ActiveBody::Moon => self.local_moon,
            ActiveBody::Mars => self.local_mars,
        }
    }

    /// Drop every in-memory tile cache at once: each local and globe cache is
    /// reset (its workers' late results are then discarded), the global
    /// layers are forgotten and the depth-fill grid is dropped. A running
    /// global load keeps its flag. Nothing on disk is touched.
    pub fn blast_tile_caches(&mut self)
        ensures
            local_reset(old(self).local_earth, final(self).local_earth),
            local_reset(old(self).local_moon, final(self).local_moon),
            local_reset(old(self).local_mars, final(self).local_mars),
            globe_reset(old(self).globe_earth, final(self).globe_earth),
            globe_reset(old(self).globe_moon, final(self).globe_moon),
            globe_reset(old(self).globe_mars, final(self).globe_mars),
            final(self).coastlines.cached is None,
            final(self).topo.cached is None,
            final(self).bathymetry.cached is None,
            final(self).coastlines.loading == old(self).coastlines.loading,
            final(self).topo.loading == old(self).topo.loading,
            final(self).bathymetry.loading == old(self).bathymetry.loading,
            final(self).depth_fill.grid is None,
    {
        reset_local(&mut self.local_earth);
        reset_local(&mut self.local_moon);
        reset_local(&mut self.local_mars);
        reset_globe(&mut self.globe_earth);
        reset_globe(&mut self.globe_moon);
        reset_globe(&mut self.globe_mars);
        self.coastlines.cached = None;
        self.topo.cached = None;
        self.bathymetry.cached = None;
        self.depth_fill.clear();
    }

    /// Whether the local contour window of `body` still needs tiles; an
    /// in-memory check for the repaint scheduler.
    pub fn local_contours_pending(&self, body: ActiveBody) -> (r: bool)
        ensures
            r == local_pending(self.local_for(body)),
    {
        match body {
            ActiveBody::Earth => pending_of(&self.local_earth),
            ActiveBody::Moon => pending_of(&self.local_moon),
            ActiveBody::Mars => pending_of(&self.local_mars),
        }
    }
}

/// The local terrain scene is shown: local mode is on, a focus location is
/// set and an SRTM root was found.
pub fn is_active(local_mode: bool, has_focus: bool, has_srtm_root: bool) -> (r: bool)
    ensures
        r == (local_mode && has_focus && has_srtm_root),
{
    local_mode && has_focus && has_srtm_root
}

/// The focus region still has tiles to load: false without a focus; with
/// one, true when no status is known (no cache database yet) or fewer assets
/// are ready than the region holds.
pub fn has_pending_cache(has_focus: bool, status: Option<FocusContourRegionStatus>) -> (r: bool)
    ensures
        r == (has_focus && match status {
            None => true,
            Some(s) => s.ready_assets < s.total_assets,
        }),
{
    if !has_focus {
        return false;
    }
    match status {
        None => true,
        Some(s) => s.ready_assets < s.total_assets,
    }
}

/// The globe view still streams SRTM tiles: only in the globe view at zoom
/// two or more, and only when a known status has pending or unready assets.
pub fn globe_srtm_pending(local_mode: bool, zoom_below_two: bool, status: Option<FocusContourRegionStatus>) -> (r: bool)
    ensures
        r == (!local_mode && !zoom_below_two && match status {
            None => false,
            Some(s) => s.pending_assets > 0 || s.ready_assets < s.total_assets,
        }),
{
    if zoom_below_two || local_mode {
        return false;
    }
    match status {
        None => false,
        Some(s) => s.pending_assets > 0 || s.ready_assets < s.total_assets,
    }
}

/// The local scene's road and water line caches.
pub struct LocalSceneCaches<R, W> {
    pub roads: RoadCacheStore<R>,
    pub water: RoadCacheStore<W>,
}

impl<R, W> LocalSceneCaches<R, W> {
    /// Nothing cached or building.
    pub fn new() -> (r: LocalSceneCaches<R, W>)
        ensures
            r.roads.cache is None && !r.roads.building,
            r.water.cache is None && !r.water.building,
    {
        LocalSceneCaches { roads: RoadCacheStore::new(), water: RoadCacheStore::new() }
    }

    /// Drop the road geometry so the next draw reloads it; a running build
    /// still completes and the stale check then starts a fresh one.
    pub fn invalidate_road_cache(&mut self)
        ensures
            final(self).roads.cache is None,
            final(self).roads.building == old(self).roads.building,
            final(self).water == old(self).water,
    {
        self.roads.invalidate();
    }

    /// Whether a background road build runs.
    pub fn road_cache_building(&self) -> (r: bool)
        ensures
            r == self.roads.building,
    {
        self.roads.is_building()
    }

    /// Drop the water geometry so the next draw reloads it.
    pub fn invalidate_water_cache(&mut self)
        ensures
            final(self).water.cache is None,
            final(self).water.building == old(self).water.building,
            final(self).roads == old(self).roads,
    {
        self.water.invalidate();
    }

    /// Whether a background water build runs.
    pub fn water_cache_building(&self) -> (r: bool)
        ensures
            r == self.water.building,
    {
        self.water.is_building()
    }
}

} // verus!

//! The infrastructure line layers (rail, pipelines, aeroways, military,
//! communications, industry, ports, government, surveillance): one cache per
//! layer of the features loaded for a geographic window, with at most one
//! background load per layer. Windows are opaque to the library; whether a
//! cached window covers the view is decided by the caller.
use crate::tiles::bytes_equal;
use vstd::prelude::*;

verus! {

/// Features loaded for one window of one layer.
pub struct InfraCache<B, F> {
    /// Data generation of the OSM store when loaded.
    pub data_gen: u64,
    /// The data root the features came from.
    pub last_root: Vec<u8>,
    /// The window loaded (with its margin).
    pub covered: B,
    pub features: Vec<F>,
}

/// One layer's cache and the window of its running load, if any.
pub struct InfraCacheStore<B, F> {
    pub cache: Option<InfraCache<B, F>>,
    pub building: Option<B>,
}

/// The cache cannot serve the view: nothing is loaded, or it was loaded from
/// another generation or root, or its window does not cover the view.
pub open spec fn infra_stale<B, F>(cache: Option<InfraCache<B, F>>, data_gen: u64, root: Seq<u8>, covers_view: bool) -> bool {
    match cache {
        None => true,
        Some(c) => c.data_gen != data_gen || c.last_root@ != root || !covers_view,
    }
}

impl<B: Copy, F> InfraCacheStore<B, F> {
    /// Nothing loaded or loading.
    pub fn empty() -> (r: InfraCacheStore<B, F>)
        ensures
            r.cache is None,
            r.building is None,
    {
        InfraCacheStore { cache: None, building: None }
    }

    /// The layer is hidden: drop its features (a running load still lands).
    pub fn drop_features(&mut self)
        ensures
            final(self).cache is None,
            final(self).building == old(self).building,
    {
        self.cache = None;
    }

    /// Decide whether to start loading `load_window` for the current view:
    /// only when the cache is stale and no load runs. The load is then
    /// recorded as running.
    pub fn begin_build(&mut self, data_gen: u64, root: &Vec<u8>, covers_view: bool, load_window: B) -> (r: bool)
        ensures
            r == (infra_stale(old(self).cache, data_gen, root@, covers_view) && old(self).building is None),
            r ==> final(self).building == Some(load_window) && final(self).cache == old(self).cache,
            !r ==> *final(self) == *old(self),
    {
        let stale: bool = match &self.cache {
            None => true,
            Some(c) => c.data_gen != data_gen || !bytes_equal(&c.last_root, root) || !covers_view,
        };
        if stale && self.building.is_none() {
            self.building = Some(load_window);
            true
        } else {
            false
        }
    }

    /// A load finished: its features replace the cache and no load runs.
    pub fn finish_build(&mut self, loaded: InfraCache<B, F>)
        ensures
            final(self).cache == Some(loaded),
            final(self).building is None,
    {
        self.cache = Some(loaded);
        self.building = None;
    }
}

/// The caches of every infrastructure layer.
pub struct InfraCaches<B, F> {
    pub rail: InfraCacheStore<B, F>,
    pub pipeline: InfraCacheStore<B, F>,
    pub aeroway: InfraCacheStore<B, F>,
    pub military: InfraCacheStore<B, F>,
    pub comm: InfraCacheStore<B, F>,
    pub industrial: InfraCacheStore<B, F>,
    pub port: InfraCacheStore<B, F>,
    pub govt: InfraCacheStore<B, F>,
    pub surv: InfraCacheStore<B, F>,
}

impl<B: Copy, F> InfraCaches<B, F> {
    /// Nothing loaded or loading in any layer.
    pub fn new() -> (r: InfraCaches<B, F>)
        ensures
            r.rail.cache is None && r.rail.building is None,
            r.pipeline.cache is None && r.pipeline.building is None,
            r.aeroway.cache is None && r.aeroway.building is None,
            r.military.cache is None && r.military.building is None,
            r.comm.cache is None && r.comm.building is None,
            r.industrial.cache is None && r.industrial.building is None,
            r.port.cache is None && r.port.building is None,
            r.govt.cache is None && r.govt.building is None,
            r.surv.cache is None && r.surv.building is None,
    {
        InfraCaches {
            rail: InfraCacheStore::empty(),
            pipeline: InfraCacheStore::empty(),
            aeroway: InfraCacheStore::empty(),
            military: InfraCacheStore::empty(),
            comm: InfraCacheStore::empty(),
            industrial: InfraCacheStore::empty(),
            port: InfraCacheStore::empty(),
            govt: InfraCacheStore::empty(),
            surv: InfraCacheStore::empty(),
        }
    }

    /// The window of the running rail load, if any.
    pub fn rail_cache_building_bounds(&self) -> (r: Option<B>)
        ensures
            r == self.rail.building,
    {
        self.rail.building
    }

    /// The window of the running pipeline load, if any.
    pub fn pipeline_cache_building_bounds(&self) -> (r: Option<B>)
        ensures
            r == self.pipeline.building,
    {
        self.pipeline.building
    }

    /// The window of the running aeroway load, if any.
    pub fn aeroway_cache_building_bounds(&self) -> (r: Option<B>)
        ensures
            r == self.aeroway.building,
    {
        self.aeroway.building
    }

    /// The window of the running military load, if any.
    pub fn military_cache_building_bounds(&self) -> (r: Option<B>)
        ensures
            r == self.military.building,
    {
        self.military.building
    }
}

} // verus!

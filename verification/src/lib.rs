//! Verified core of the world-map contour and terrain layers: GeoPackage/WKB
//! geometry decoding, polyline thinning, the contour tile caches and their
//! single-flight read and merge protocol, GPU instance bookkeeping, and the
//! raster and grid helpers used by the terrain passes.
pub mod caches;
pub mod contour_rows;
pub mod features;
pub mod flatten;
pub mod globe_cache;
pub mod globe_view;
pub mod infra;
pub mod instances;
pub mod jobs;
pub mod json;
pub mod laws;
pub mod local_cache;
pub mod polyline;
pub mod raster;
pub mod region;
pub mod residency;
pub mod shared;
pub mod terrain;
pub mod tiles;
pub mod wkb;

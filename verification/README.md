# electric_eye_map

The verified core of the world map's contour and terrain layers, written in
Verus. The functions in `src/` carry contracts that Verus proves, except the
few that call outside code: `share` (`Arc::clone`), `decode_tiff_luma16`
(the `image` crate's TIFF decoder), and `parse_json` with its conversion
`json_tree` (`serde_json`). Their contracts are trusted, and each doc comment
says what it claims.

## Layout

- `src/` — the library:
  - `wkb`, `polyline`: GeoPackage/WKB line decoding and point thinning.
  - `tiles`, `local_cache`, `globe_cache`, `globe_view`, `region`, `flatten`:
    the contour tile caches, their single-reader and single-merge protocol,
    retention and eviction, and the per-frame steps built on them.
  - `contour_rows`: rows of a contour database turned into lines, the
    per-tile feature budget and the global-layer selections.
  - `json`, `features`: GeoJSON parsed with `serde_json` and the boundary
    and polyline features kept from it.
  - `caches`, `infra`, `instances`, `jobs`, `residency`, `terrain`,
    `raster`: the remaining caches, GPU instance bookkeeping, job gates,
    terrain grids and the bathymetry rasters.
  - `laws`: properties that span several operations, proved from the
    contracts above.
- `tests/` — tests of the library on concrete values.
- `app/` — the process around it: SQLite queries, file reads, worker
  threads, the global caches, and the `f32` conversions and orderings.

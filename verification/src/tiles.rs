//! Contour tile identities, manifest assets and tile-grid distances.
use vstd::prelude::*;

verus! {

/// Identity of one cached contour tile: the cache database it comes from (the
/// bytes of its path) and its zoom, latitude and longitude buckets.
pub struct TileKey {
    pub path: Vec<u8>,
    pub lat_bucket: i32,
    pub lon_bucket: i32,
    pub zoom_bucket: i32,
}

/// The mathematical value of a [`TileKey`]: path bytes, latitude bucket,
/// longitude bucket, zoom bucket.
pub type TileId = (Seq<u8>, i32, i32, i32);

impl View for TileKey {
    type V = TileId;

    open spec fn view(&self) -> TileId {
        (self.path@, self.lat_bucket, self.lon_bucket, self.zoom_bucket)
    }
}

/// Copy a byte vector; the copy has the same contents.
pub fn copy_bytes(v: &Vec<u8>) -> (r: Vec<u8>)
    ensures
        r@ == v@,
{
    let r: Vec<u8> = v.clone();
    assert(r@ =~= v@);
    r
}

/// Compare two byte vectors for equal contents.
pub fn bytes_equal(a: &Vec<u8>, b: &Vec<u8>) -> (r: bool)
    ensures
        r == (a@ == b@),
{
    if a.len() != b.len() {
        return false;
    }
    let mut i: usize = 0;
    while i < a.len()
        invariant
            a.len() == b.len(),
            i <= a.len(),
            forall|j: int| 0 <= j < i ==> a@[j] == b@[j],
        decreases a.len() - i,
    {
        if a[i] != b[i] {
            return false;
        }
        i = i + 1;
    }
    assert(a@ =~= b@);
    true
}

impl Clone for TileKey {
    fn clone(&self) -> (r: Self)
        ensures
            r@ == self@,
    {
        TileKey {
            path: copy_bytes(&self.path),
            lat_bucket: self.lat_bucket,
            lon_bucket: self.lon_bucket,
            zoom_bucket: self.zoom_bucket,
        }
    }
}

impl TileKey {
    /// Whether two keys name the same tile.
    pub fn same(&self, other: &TileKey) -> (r: bool)
        ensures
            r == (self@ == other@),
    {
        self.lat_bucket == other.lat_bucket && self.lon_bucket == other.lon_bucket
            && self.zoom_bucket == other.zoom_bucket && bytes_equal(&self.path, &other.path)
    }
}

/// One tile of a contour manifest: where it is cached, the thinning step its
/// polylines are read with, and its buckets.
pub struct FocusContourAsset {
    pub path: Vec<u8>,
    pub simplify_step: usize,
    pub zoom_bucket: i32,
    pub lat_bucket: i32,
    pub lon_bucket: i32,
}

/// The mathematical value of a [`FocusContourAsset`]: path bytes, thinning
/// step, zoom bucket, latitude bucket, longitude bucket.
pub type AssetId = (Seq<u8>, usize, i32, i32, i32);

impl View for FocusContourAsset {
    type V = AssetId;

    open spec fn view(&self) -> AssetId {
        (self.path@, self.simplify_step, self.zoom_bucket, self.lat_bucket, self.lon_bucket)
    }
}

impl Clone for FocusContourAsset {
    fn clone(&self) -> (r: Self)
        ensures
            r@ == self@,
    {
        FocusContourAsset {
            path: copy_bytes(&self.path),
            simplify_step: self.simplify_step,
            zoom_bucket: self.zoom_bucket,
            lat_bucket: self.lat_bucket,
            lon_bucket: self.lon_bucket,
        }
    }
}

/// The tile an asset is cached as.
pub open spec fn asset_tile(a: AssetId) -> TileId {
    (a.0, a.3, a.4, a.2)
}

impl FocusContourAsset {
    /// The cache key of this asset's tile.
    pub fn tile_key(&self) -> (r: TileKey)
        ensures
            r@ == asset_tile(self@),
    {
        TileKey {
            path: copy_bytes(&self.path),
            lat_bucket: self.lat_bucket,
            lon_bucket: self.lon_bucket,
            zoom_bucket: self.zoom_bucket,
        }
    }
}

/// The views of a sequence of assets.
pub open spec fn asset_ids(s: Seq<FocusContourAsset>) -> Seq<AssetId> {
    Seq::new(s.len(), |i: int| s[i]@)
}

/// Progress of a contour region: tiles ready, still building, and in total.
#[derive(Clone, Copy, PartialEq, Eq, Debug)]
pub struct FocusContourRegionStatus {
    pub ready_assets: usize,
    pub pending_assets: usize,
    pub total_assets: usize,
}

/// Chebyshev distance between two bucket pairs, in buckets.
pub open spec fn bucket_distance(lat: int, lon: int, center_lat: int, center_lon: int) -> int {
    let dlat = if lat >= center_lat { lat - center_lat } else { center_lat - lat };
    let dlon = if lon >= center_lon { lon - center_lon } else { center_lon - lon };
    if dlat >= dlon { dlat } else { dlon }
}

/// Both bucket differences and their magnitudes are `i32` values, so the
/// distance can be computed in `i32` without overflow.
pub open spec fn distance_defined(lat: i32, lon: i32, center_lat: i32, center_lon: i32) -> bool {
    -i32::MAX <= lat - center_lat <= i32::MAX && -i32::MAX <= lon - center_lon <= i32::MAX
}

/// Distance, in tile buckets, from a tile to the viewport centre bucket.
pub fn local_tile_distance(key: &TileKey, center_lat_bucket: i32, center_lon_bucket: i32) -> (r: i32)
    requires
        distance_defined(key.lat_bucket, key.lon_bucket, center_lat_bucket, center_lon_bucket),
    ensures
        r == bucket_distance(
            key.lat_bucket as int,
            key.lon_bucket as int,
            center_lat_bucket as int,
            center_lon_bucket as int,
        ),
{
    let dlat: i32 = key.lat_bucket - center_lat_bucket;
    let dlon: i32 = key.lon_bucket - center_lon_bucket;
    let alat: i32 = if dlat < 0 { -dlat } else { dlat };
    let alon: i32 = if dlon < 0 { -dlon } else { dlon };
    if alat >= alon { alat } else { alon }
}

} // verus!

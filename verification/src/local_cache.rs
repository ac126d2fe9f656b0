//! The local-terrain contour tile cache: manifest snapshots, decoded tiles,
//! the single-flight batch reader and the background merge protocol.
use crate::shared::share;
use crate::tiles::{
    asset_ids, asset_tile, bucket_distance, bytes_equal, copy_bytes, distance_defined, local_tile_distance,
    AssetId, FocusContourAsset, FocusContourRegionStatus, TileId, TileKey,
};
use std::sync::Arc;
use vstd::prelude::*;

verus! {

/// How many tiles one local read batch claims at most.
pub const LOCAL_CONTOUR_READ_BATCH_SIZE: usize = 8;

/// Decoded tiles farther than this many buckets from the viewport centre are dropped.
pub const LOCAL_CONTOUR_RETAIN_RADIUS: i32 = 12;

/// After a failed read, no new read is claimed for this many milliseconds.
pub const CONTOUR_READ_RETRY_DELAY_MS: u64 = 250;

/// A manifest snapshot younger than this many milliseconds is not refreshed.
pub const LOCAL_MANIFEST_SNAPSHOT_TTL_MS: u64 = 350;

/// The value of an optional path.
pub open spec fn opt_bytes(o: Option<Vec<u8>>) -> Option<Seq<u8>> {
    match o {
        Some(v) => Some(v@),
        None => None,
    }
}

/// Copy an optional path.
pub fn copy_opt_bytes(o: &Option<Vec<u8>>) -> (r: Option<Vec<u8>>)
    ensures
        opt_bytes(r) == opt_bytes(*o),
{
    match o {
        Some(v) => Some(copy_bytes(v)),
        None => None,
    }
}

/// Compare two optional paths.
pub fn same_opt_bytes(a: &Option<Vec<u8>>, b: &Option<Vec<u8>>) -> (r: bool)
    ensures
        r == (opt_bytes(*a) == opt_bytes(*b)),
{
    match (a, b) {
        (Some(x), Some(y)) => bytes_equal(x, y),
        (None, None) => true,
        _ => false,
    }
}

/// The camera window a manifest selection was made for.
pub struct LocalManifestKey {
    pub root: Option<Vec<u8>>,
    pub center_lat_bucket: i32,
    pub center_lon_bucket: i32,
    pub zoom_bucket: i32,
    pub prefetch_radius: i32,
    pub build_radius: i32,
}

/// Value of a [`LocalManifestKey`]: root, centre latitude and longitude
/// buckets, zoom bucket, prefetch radius, build radius.
pub type ManifestId = (Option<Seq<u8>>, i32, i32, i32, i32, i32);

impl View for LocalManifestKey {
    type V = ManifestId;

    open spec fn view(&self) -> ManifestId {
        (
            opt_bytes(self.root),
            self.center_lat_bucket,
            self.center_lon_bucket,
            self.zoom_bucket,
            self.prefetch_radius,
            self.build_radius,
        )
    }
}

impl Clone for LocalManifestKey {
    fn clone(&self) -> (r: Self)
        ensures
            r@ == self@,
    {
        LocalManifestKey {
            root: copy_opt_bytes(&self.root),
            center_lat_bucket: self.center_lat_bucket,
            center_lon_bucket: self.center_lon_bucket,
            zoom_bucket: self.zoom_bucket,
            prefetch_radius: self.prefetch_radius,
            build_radius: self.build_radius,
        }
    }
}

impl LocalManifestKey {
    /// Whether two keys describe the same window.
    pub fn same(&self, other: &LocalManifestKey) -> (r: bool)
        ensures
            r == (self@ == other@),
    {
        self.center_lat_bucket == other.center_lat_bucket && self.center_lon_bucket
            == other.center_lon_bucket && self.zoom_bucket == other.zoom_bucket
            && self.prefetch_radius == other.prefetch_radius && self.build_radius
            == other.build_radius && same_opt_bytes(&self.root, &other.root)
    }
}

/// Whether an optional key is present and equal to `key`.
pub fn opt_key_is(o: &Option<LocalManifestKey>, key: &LocalManifestKey) -> (r: bool)
    ensures
        r == (o matches Some(k) && k@ == key@),
{
    match o {
        Some(k) => k.same(key),
        None => false,
    }
}

/// A published manifest selection: its window, its assets, the manifest
/// revision observed after selecting, and when it was refreshed (milliseconds).
pub struct LocalManifestSnapshot {
    pub key: LocalManifestKey,
    pub assets: Vec<FocusContourAsset>,
    pub manifest_revision: u64,
    pub refreshed_at: u64,
}

/// The assets a paint frame may use: all of them for progress display, and for
/// scheduling reads only when they were selected for exactly this window.
pub struct LocalManifestAssetViews {
    pub assets: Vec<FocusContourAsset>,
    pub exact_for_reads: bool,
}

impl LocalManifestAssetViews {
    /// No assets at all.
    pub fn empty() -> (r: LocalManifestAssetViews)
        ensures
            r.assets@.len() == 0,
            !r.exact_for_reads,
    {
        LocalManifestAssetViews { assets: Vec::new(), exact_for_reads: false }
    }

    /// The assets that may drive new reads: all of them for an exact
    /// selection, none otherwise.
    pub fn reader_assets(&self) -> (r: &[FocusContourAsset])
        ensures
            r@ == (if self.exact_for_reads {
                self.assets@
            } else {
                Seq::<FocusContourAsset>::empty()
            }),
    {
        if self.exact_for_reads {
            self.assets.as_slice()
        } else {
            let none: &[FocusContourAsset] = &[];
            assert(none@ =~= Seq::<FocusContourAsset>::empty());
            none
        }
    }

    /// The assets that describe ready tiles for progress display.
    pub fn display_assets(&self) -> (r: &[FocusContourAsset])
        ensures
            r@ == self.assets@,
    {
        self.assets.as_slice()
    }
}

/// Two windows can share display progress: same root, zoom bucket and radii.
pub open spec fn same_display_contract(a: ManifestId, b: ManifestId) -> bool {
    a.0 == b.0 && a.3 == b.3 && a.4 == b.4 && a.5 == b.5
}

/// An asset of an older window that lies in the requested prefetch window at
/// the requested zoom.
pub open spec fn in_prefetch_window(a: AssetId, k: ManifestId) -> bool {
    a.2 == k.3 && bucket_distance(a.3 as int, a.4 as int, k.1 as int, k.2 as int) <= k.4
}

/// The assets of `s` that lie in the prefetch window of `k`, in order.
pub open spec fn window_assets(s: Seq<AssetId>, k: ManifestId) -> Seq<AssetId>
    decreases s.len(),
{
    if s.len() == 0 {
        Seq::empty()
    } else {
        let r = window_assets(s.drop_last(), k);
        if in_prefetch_window(s.last(), k) {
            r.push(s.last())
        } else {
            r
        }
    }
}

/// The views a snapshot offers a requested window (see
/// [`local_manifest_asset_views`]): `(assets, exact_for_reads)`.
pub open spec fn manifest_views(snapshot: Option<(ManifestId, Seq<AssetId>)>, requested: ManifestId) -> (
    Seq<AssetId>,
    bool,
) {
    match snapshot {
        None => (Seq::empty(), false),
        Some((key, assets)) => if key == requested {
            (assets, true)
        } else if !same_display_contract(key, requested) {
            (Seq::empty(), false)
        } else {
            (window_assets(assets, requested), false)
        },
    }
}

/// The value of an optional snapshot: its window and its assets.
pub open spec fn snapshot_view(s: Option<&LocalManifestSnapshot>) -> Option<(ManifestId, Seq<AssetId>)> {
    match s {
        Some(snap) => Some((snap.key@, asset_ids(snap.assets@))),
        None => None,
    }
}

proof fn lemma_window_assets_push(s: Seq<AssetId>, x: AssetId, k: ManifestId)
    ensures
        window_assets(s.push(x), k) == (if in_prefetch_window(x, k) {
            window_assets(s, k).push(x)
        } else {
            window_assets(s, k)
        }),
{
    assert(s.push(x).drop_last() =~= s);
}

/// Return the asset views that are safe for the requested local window: an
/// exact snapshot drives both reads and progress; a snapshot of a compatible
/// window (same root, zoom and radii) only reports its tiles that overlap the
/// new prefetch window, and drives no reads; anything else offers nothing.
pub fn local_manifest_asset_views(
    snapshot: Option<&LocalManifestSnapshot>,
    requested_key: &LocalManifestKey,
) -> (r: LocalManifestAssetViews)
    ensures
        (asset_ids(r.assets@), r.exact_for_reads) == manifest_views(
            snapshot_view(snapshot),
            requested_key@,
        ),
{
    let snap = match snapshot {
        Some(s) => s,
        None => {
            let r = LocalManifestAssetViews::empty();
            assert(asset_ids(r.assets@) =~= Seq::<AssetId>::empty());
            return r;
        },
    };
    if snap.key.same(requested_key) {
        let mut assets: Vec<FocusContourAsset> = Vec::new();
        let mut i: usize = 0;
        while i < snap.assets.len()
            invariant
                i <= snap.assets@.len(),
                asset_ids(assets@) =~= asset_ids(snap.assets@).take(i as int),
            decreases snap.assets@.len() - i,
        {
            let ghost before = assets@;
            assets.push(snap.assets[i].clone());
            assert(asset_ids(assets@) =~= asset_ids(before).push(snap.assets@[i as int]@));
            i = i + 1;
        }
        assert(asset_ids(snap.assets@).take(i as int) =~= asset_ids(snap.assets@));
        return LocalManifestAssetViews { assets, exact_for_reads: true };
    }
    let same_contract: bool = same_opt_bytes(&snap.key.root, &requested_key.root)
        && snap.key.zoom_bucket == requested_key.zoom_bucket && snap.key.prefetch_radius
        == requested_key.prefetch_radius && snap.key.build_radius == requested_key.build_radius;
    if !same_contract {
        let r = LocalManifestAssetViews::empty();
        assert(asset_ids(r.assets@) =~= Seq::<AssetId>::empty());
        return r;
    }
    let ghost all = asset_ids(snap.assets@);
    let mut assets: Vec<FocusContourAsset> = Vec::new();
    let mut i: usize = 0;
    while i < snap.assets.len()
        invariant
            all == asset_ids(snap.assets@),
            i <= snap.assets@.len(),
            asset_ids(assets@) == window_assets(all.take(i as int), requested_key@),
        decreases snap.assets@.len() - i,
    {
        let a = &snap.assets[i];
        let dlat: i64 = a.lat_bucket as i64 - requested_key.center_lat_bucket as i64;
        let dlon: i64 = a.lon_bucket as i64 - requested_key.center_lon_bucket as i64;
        let alat: i64 = if dlat < 0 { -dlat } else { dlat };
        let alon: i64 = if dlon < 0 { -dlon } else { dlon };
        let dist: i64 = if alat >= alon { alat } else { alon };
        proof {
            assert(all.take(i + 1) =~= all.take(i as int).push(all[i as int]));
            lemma_window_assets_push(all.take(i as int), all[i as int], requested_key@);
        }
        if a.zoom_bucket == requested_key.zoom_bucket && dist <= requested_key.prefetch_radius as i64 {
            let ghost before = assets@;
            assets.push(a.clone());
            assert(asset_ids(assets@) =~= asset_ids(before).push(all[i as int]));
        }
        i = i + 1;
    }
    assert(all.take(i as int) =~= all);
    LocalManifestAssetViews { assets, exact_for_reads: false }
}

/// The scene (root, anchor and zoom) that a local cache's decoded tiles belong to.
pub struct SceneKey {
    pub root: Option<Vec<u8>>,
    pub anchor_lat_bucket: i32,
    pub anchor_lon_bucket: i32,
    pub zoom_bucket: i32,
}

impl View for SceneKey {
    type V = (Option<Seq<u8>>, i32, i32, i32);

    open spec fn view(&self) -> (Option<Seq<u8>>, i32, i32, i32) {
        (opt_bytes(self.root), self.anchor_lat_bucket, self.anchor_lon_bucket, self.zoom_bucket)
    }
}

impl SceneKey {
    /// Whether two scene keys are equal.
    pub fn same(&self, other: &SceneKey) -> (r: bool)
        ensures
            r == (self@ == other@),
    {
        self.anchor_lat_bucket == other.anchor_lat_bucket && self.anchor_lon_bucket
            == other.anchor_lon_bucket && self.zoom_bucket == other.zoom_bucket
            && same_opt_bytes(&self.root, &other.root)
    }
}

/// Identity of one requested flatten of the decoded tiles: the cache state it
/// reads (load epoch, entries revision) and the window and partition it covers.
/// A merge result is published only while its key is still the latest request.
#[derive(Clone, Copy, PartialEq, Eq, Debug)]
pub struct LocalMergeKey {
    pub load_epoch: u64,
    pub entries_revision: u64,
    pub partition_bucket_step_bits: Option<u32>,
    pub center_lat_bucket: i32,
    pub center_lon_bucket: i32,
    pub source_radius: i32,
}

/// Whether two merge keys are equal, field by field.
pub fn same_merge_key(a: &LocalMergeKey, b: &LocalMergeKey) -> (r: bool)
    ensures
        r == (*a == *b),
{
    let same_step: bool = match (a.partition_bucket_step_bits, b.partition_bucket_step_bits) {
        (Some(x), Some(y)) => x == y,
        (None, None) => true,
        _ => false,
    };
    a.load_epoch == b.load_epoch && a.entries_revision == b.entries_revision && same_step
        && a.center_lat_bucket == b.center_lat_bucket && a.center_lon_bucket
        == b.center_lon_bucket && a.source_radius == b.source_radius
}

/// Whether an optional merge key is present and equal to `key`.
pub fn opt_merge_key_is(o: &Option<LocalMergeKey>, key: &LocalMergeKey) -> (r: bool)
    ensures
        r == (*o == Some(*key)),
{
    match o {
        Some(k) => same_merge_key(k, key),
        None => false,
    }
}

/// The window and optional ownership partition of a requested merge. The
/// partition step is the bit pattern of an `f32` bucket size.
#[derive(Clone, Copy, PartialEq, Eq, Debug)]
pub struct LocalMergeSpec {
    pub center_lat_bucket: i32,
    pub center_lon_bucket: i32,
    pub source_radius: i32,
    pub partition_bucket_step_bits: Option<u32>,
}

/// A claimed merge job: its key and the decoded tiles it flattens.
pub struct LocalMergeWork<P> {
    pub key: LocalMergeKey,
    pub tiles: Vec<(TileKey, Arc<Vec<P>>)>,
}

/// The local contour cache of one terrain body.
pub struct LocalRegionCache<P> {
    pub scene_key: Option<SceneKey>,
    pub manifest_snapshot: Option<LocalManifestSnapshot>,
    /// Most recent manifest request; it may be newer than the published snapshot.
    pub manifest_requested_key: Option<LocalManifestKey>,
    /// The manifest selection currently running, at most one.
    pub manifest_in_flight: Option<LocalManifestKey>,
    pub last_status: Option<FocusContourRegionStatus>,
    /// Decoded tiles, each key at most once (`well_keyed`, kept by every step).
    pub entries: Vec<(TileKey, Arc<Vec<P>>)>,
    /// Tiles claimed by the running reader.
    pub in_flight: Vec<TileKey>,
    /// Geometry of the previous zoom, shown until the new zoom has tiles.
    pub zoom_fallback: Option<Arc<Vec<P>>>,
    /// Most recently published flattened merge.
    pub merged: Option<Arc<Vec<P>>>,
    pub entries_revision: u64,
    /// Key of the published merge.
    pub merged_key: Option<LocalMergeKey>,
    /// The latest merge window requested by paint.
    pub merge_requested_key: Option<LocalMergeKey>,
    /// The merge currently running, at most one.
    pub merge_in_flight: Option<LocalMergeKey>,
    /// Generation of reader requests; a reset advances it.
    pub load_epoch: u64,
    /// Epoch of the running reader, at most one.
    pub load_in_flight: Option<u64>,
    /// No read is claimed before this time (milliseconds).
    pub read_retry_at: Option<u64>,
}

/// The successor of a revision or epoch counter, wrapping at the top.
pub open spec fn next_rev(x: u64) -> u64 {
    if x == u64::MAX {
        0
    } else {
        (x + 1) as u64
    }
}

/// The value of a decoded tile list: each tile's identity and contours.
pub open spec fn entry_ids<P>(s: Seq<(TileKey, Arc<Vec<P>>)>) -> Seq<(TileId, Seq<P>)> {
    Seq::new(s.len(), |i: int| (s[i].0@, s[i].1@))
}

/// The identities of a list of tile keys.
pub open spec fn tile_ids(s: Seq<TileKey>) -> Seq<TileId> {
    Seq::new(s.len(), |i: int| s[i]@)
}

/// The tiles of `s` within `radius` buckets of the centre, in order.
pub open spec fn within<P>(s: Seq<(TileId, Seq<P>)>, center_lat: i32, center_lon: i32, radius: int) -> Seq<
    (TileId, Seq<P>),
>
    decreases s.len(),
{
    if s.len() == 0 {
        Seq::empty()
    } else {
        let r = within(s.drop_last(), center_lat, center_lon, radius);
        let e = s.last();
        if bucket_distance(e.0.1 as int, e.0.2 as int, center_lat as int, center_lon as int)
            <= radius {
            r.push(e)
        } else {
            r
        }
    }
}

proof fn lemma_within_push<P>(s: Seq<(TileId, Seq<P>)>, x: (TileId, Seq<P>), clat: i32, clon: i32, radius: int)
    ensures
        within(s.push(x), clat, clon, radius) == (if bucket_distance(
            x.0.1 as int,
            x.0.2 as int,
            clat as int,
            clon as int,
        ) <= radius {
            within(s, clat, clon, radius).push(x)
        } else {
            within(s, clat, clon, radius)
        }),
{
    assert(s.push(x).drop_last() =~= s);
}

proof fn lemma_within_len<P>(s: Seq<(TileId, Seq<P>)>, clat: i32, clon: i32, radius: int)
    ensures
        within(s, clat, clon, radius).len() <= s.len(),
    decreases s.len(),
{
    if s.len() > 0 {
        lemma_within_len(s.drop_last(), clat, clon, radius);
    }
}

/// Every decoded tile's distance to the centre can be computed in `i32`.
pub open spec fn entries_distance_defined<P>(s: Seq<(TileKey, Arc<Vec<P>>)>, center_lat: i32, center_lon: i32) -> bool {
    forall|i: int|
        0 <= i < s.len() ==> distance_defined(
            #[trigger] s[i].0.lat_bucket,
            s[i].0.lon_bucket,
            center_lat,
            center_lon,
        )
}

/// Copy the decoded tiles of `s` within `radius` buckets of the centre; the
/// copies share the contour vectors.
pub fn entries_within<P>(s: &Vec<(TileKey, Arc<Vec<P>>)>, center_lat: i32, center_lon: i32, radius: i32) -> (r: Vec<
    (TileKey, Arc<Vec<P>>),
>)
    requires
        entries_distance_defined(s@, center_lat, center_lon),
    ensures
        entry_ids(r@) == within(entry_ids(s@), center_lat, center_lon, radius as int),
        entries_distance_defined(r@, center_lat, center_lon),
{
    let ghost all = entry_ids(s@);
    let mut out: Vec<(TileKey, Arc<Vec<P>>)> = Vec::new();
    let mut i: usize = 0;
    while i < s.len()
        invariant
            all == entry_ids(s@),
            i <= s@.len(),
            entries_distance_defined(s@, center_lat, center_lon),
            entries_distance_defined(out@, center_lat, center_lon),
            entry_ids(out@) == within(all.take(i as int), center_lat, center_lon, radius as int),
        decreases s@.len() - i,
    {
        proof {
            assert(all.take(i + 1) =~= all.take(i as int).push(all[i as int]));
            lemma_within_push(all.take(i as int), all[i as int], center_lat, center_lon, radius as int);
        }
        let d: i32 = local_tile_distance(&s[i].0, center_lat, center_lon);
        if d <= radius {
            let ghost before = out@;
            let key: TileKey = s[i].0.clone();
            let contours: Arc<Vec<P>> = share(&s[i].1);
            out.push((key, contours));
            assert(entry_ids(out@) =~= entry_ids(before).push(all[i as int]));
        }
        i = i + 1;
    }
    assert(all.take(i as int) =~= all);
    out
}

/// The key a merge request of `spec` gets on `cache`.
pub open spec fn merge_key_of<P>(cache: LocalRegionCache<P>, spec: LocalMergeSpec) -> LocalMergeKey {
    LocalMergeKey {
        load_epoch: cache.load_epoch,
        entries_revision: cache.entries_revision,
        partition_bucket_step_bits: spec.partition_bucket_step_bits,
        center_lat_bucket: spec.center_lat_bucket,
        center_lon_bucket: spec.center_lon_bucket,
        source_radius: spec.source_radius,
    }
}

/// A merge request of `spec` measures the decoded tiles' distances only when
/// it claims a job (its key is not already merged and no merge runs); then
/// they fit in `i32`.
pub open spec fn merge_distances_defined<P>(cache: LocalRegionCache<P>, spec: LocalMergeSpec) -> bool {
    !(cache.merged_key == Some(merge_key_of(cache, spec)) || cache.merge_in_flight is Some)
        ==> entries_distance_defined(cache.entries@, spec.center_lat_bucket, spec.center_lon_bucket)
}

/// The outcome of requesting the merge `spec`: `before` and `after` are the
/// cache around the request.
pub open spec fn merge_outcome<P>(
    before: LocalRegionCache<P>,
    after: LocalRegionCache<P>,
    r: Option<LocalMergeWork<P>>,
    spec: LocalMergeSpec,
) -> bool {
    let key = LocalMergeKey {
        load_epoch: before.load_epoch,
        entries_revision: before.entries_revision,
        partition_bucket_step_bits: spec.partition_bucket_step_bits,
        center_lat_bucket: spec.center_lat_bucket,
        center_lon_bucket: spec.center_lon_bucket,
        source_radius: spec.source_radius,
    };
    let tiles = within(
        entry_ids(before.entries@),
        spec.center_lat_bucket,
        spec.center_lon_bucket,
        spec.source_radius as int,
    );
    if before.merged_key == Some(key) || before.merge_in_flight is Some {
        r is None && after == (LocalRegionCache {
            merge_requested_key: Some(key),
            ..before
        })
    } else if tiles.len() == 0 {
        r is None && after == (LocalRegionCache {
            merge_requested_key: Some(key),
            merged: None,
            merged_key: Some(key),
            ..before
        })
    } else {
        r matches Some(work) && work.key == key && entry_ids(work.tiles@) == tiles
            && after == (LocalRegionCache {
            merge_requested_key: Some(key),
            merge_in_flight: Some(key),
            ..before
        })
    }
}

/// The outcome of completing the merge job `key` with `merged` (`None` for a
/// failed job): `before` and `after` are the cache around it.
pub open spec fn finish_merge_outcome<P>(
    before: LocalRegionCache<P>,
    after: LocalRegionCache<P>,
    key: LocalMergeKey,
    merged: Option<Arc<Vec<P>>>,
) -> bool {
    let released = if before.merge_in_flight == Some(key) {
        None
    } else {
        before.merge_in_flight
    };
    let current = before.load_epoch == key.load_epoch
        && before.entries_revision == key.entries_revision
        && before.merge_requested_key == Some(key);
    if !current || merged is None {
        after == (LocalRegionCache { merge_in_flight: released, ..before })
    } else {
        let m = merged.unwrap();
        let fallback = if key.partition_bucket_step_bits is Some && m@.len() > 0 {
            None
        } else {
            before.zoom_fallback
        };
        after == (LocalRegionCache {
            merge_in_flight: released,
            zoom_fallback: fallback,
            merged: Some(m),
            merged_key: Some(key),
            ..before
        })
    }
}

impl<P> LocalRegionCache<P> {
    /// `self` is `before` with scene, manifest, fallback, status, merge state
    /// and decoded tiles forgotten and both counters advanced; the running
    /// workers' markers remain.
    /// Each decoded tile appears once.
    pub open spec fn well_keyed(self) -> bool {
        keys_distinct(entry_ids(self.entries@))
    }

    /// A read claimed now measures only the distances of the assets that are
    /// neither decoded nor claimed; they fit in `i32`. Nothing is measured
    /// while a reader runs or before the retry time.
    pub open spec fn read_distances_defined(
        self,
        assets: Seq<FocusContourAsset>,
        center_lat: i32,
        center_lon: i32,
        now: u64,
    ) -> bool {
        self.load_in_flight is None && !(self.read_retry_at matches Some(t) && t > now)
            ==> unclaimed_distance_defined(
            assets,
            decoded_ids(self.entries@),
            tile_ids(self.in_flight@),
            center_lat,
            center_lon,
        )
    }

    pub open spec fn is_reset_of(self, before: LocalRegionCache<P>) -> bool {
        &&& self.entries@.len() == 0
        &&& self.in_flight@.len() == 0
        &&& self == (LocalRegionCache {
            scene_key: None,
            manifest_snapshot: None,
            manifest_requested_key: None,
            manifest_in_flight: None,
            zoom_fallback: None,
            entries: self.entries,
            in_flight: self.in_flight,
            last_status: None,
            merged: None,
            merged_key: None,
            merge_requested_key: None,
            merge_in_flight: None,
            entries_revision: next_rev(before.entries_revision),
            load_epoch: next_rev(before.load_epoch),
            read_retry_at: None,
            ..before
        })
    }
}

impl<P> LocalRegionCache<P> {
    /// An empty cache with no scene, manifest, tiles or workers.
    pub fn new() -> (r: LocalRegionCache<P>)
        ensures
            r.well_keyed(),
            r.scene_key is None,
            r.manifest_snapshot is None,
            r.manifest_requested_key is None,
            r.manifest_in_flight is None,
            r.last_status is None,
            r.entries@.len() == 0,
            r.in_flight@.len() == 0,
            r.zoom_fallback is None,
            r.merged is None,
            r.entries_revision == 0,
            r.merged_key is None,
            r.merge_requested_key is None,
            r.merge_in_flight is None,
            r.load_epoch == 0,
            r.load_in_flight is None,
            r.read_retry_at is None,
    {
        LocalRegionCache {
            scene_key: None,
            manifest_snapshot: None,
            manifest_requested_key: None,
            manifest_in_flight: None,
            last_status: None,
            entries: Vec::new(),
            in_flight: Vec::new(),
            zoom_fallback: None,
            merged: None,
            entries_revision: 0,
            merged_key: None,
            merge_requested_key: None,
            merge_in_flight: None,
            load_epoch: 0,
            load_in_flight: None,
            read_retry_at: None,
        }
    }

    /// Record that the decoded tile set changed: a new revision, and the
    /// published merge no longer matches it (it stays drawable meanwhile).
    pub fn mark_entries_changed(&mut self)
        ensures
            old(self).well_keyed() ==> final(self).well_keyed(),
            *final(self) == (LocalRegionCache {
                entries_revision: next_rev(old(self).entries_revision),
                merged_key: None,
                ..*old(self)
            }),
    {
        self.entries_revision = self.entries_revision.wrapping_add(1);
        self.merged_key = None;
    }

    /// Drop the decoded tiles and reader/merge state for a new scene, and
    /// advance the load epoch so a reader of the old scene cannot publish.
    pub fn clear_entries_for_new_scene(&mut self)
        ensures
            final(self).well_keyed(),
            final(self).entries@.len() == 0,
            final(self).in_flight@.len() == 0,
            *final(self) == (LocalRegionCache {
                entries: final(self).entries,
                in_flight: final(self).in_flight,
                last_status: None,
                merged: None,
                merged_key: None,
                merge_requested_key: None,
                merge_in_flight: None,
                entries_revision: next_rev(old(self).entries_revision),
                load_epoch: next_rev(old(self).load_epoch),
                read_retry_at: None,
                ..*old(self)
            }),
    {
        self.entries = Vec::new();
        self.in_flight = Vec::new();
        self.last_status = None;
        self.merged = None;
        self.merged_key = None;
        self.merge_requested_key = None;
        self.merge_in_flight = None;
        self.mark_entries_changed();
        self.load_epoch = self.load_epoch.wrapping_add(1);
        self.read_retry_at = None;
    }

    /// Forget everything: scene, manifest, fallback and decoded tiles. Only
    /// the epochs advance and the running workers' markers remain, so their
    /// late results are discarded.
    pub fn reset_all(&mut self)
        ensures
            final(self).well_keyed(),
            final(self).is_reset_of(*old(self)),
    {
        self.scene_key = None;
        self.manifest_snapshot = None;
        self.manifest_requested_key = None;
        self.manifest_in_flight = None;
        self.last_status = None;
        self.zoom_fallback = None;
        self.clear_entries_for_new_scene();
    }

    /// Keep only decoded tiles within the retention radius of the centre; a
    /// change of the tile set is recorded as a new revision.
    pub fn retain_local_entries(&mut self, center_lat_bucket: i32, center_lon_bucket: i32)
        requires
            entries_distance_defined(old(self).entries@, center_lat_bucket, center_lon_bucket),
        ensures
            entry_ids(final(self).entries@) == within(
                entry_ids(old(self).entries@),
                center_lat_bucket,
                center_lon_bucket,
                LOCAL_CONTOUR_RETAIN_RADIUS as int,
            ),
            entries_distance_defined(final(self).entries@, center_lat_bucket, center_lon_bucket),
            final(self).entries@.len() != old(self).entries@.len() ==> *final(self) == (
            LocalRegionCache {
                entries: final(self).entries,
                entries_revision: next_rev(old(self).entries_revision),
                merged_key: None,
                ..*old(self)
            }),
            final(self).entries@.len() == old(self).entries@.len() ==> *final(self) == (
            LocalRegionCache { entries: final(self).entries, ..*old(self) }),
            old(self).well_keyed() ==> final(self).well_keyed(),
    {
        proof {
            if self.well_keyed() {
                lemma_within_distinct(
                    entry_ids(self.entries@),
                    center_lat_bucket,
                    center_lon_bucket,
                    LOCAL_CONTOUR_RETAIN_RADIUS as int,
                );
            }
        }
        let before: usize = self.entries.len();
        let kept = entries_within(
            &self.entries,
            center_lat_bucket,
            center_lon_bucket,
            LOCAL_CONTOUR_RETAIN_RADIUS,
        );
        self.entries = kept;
        if self.entries.len() != before {
            self.mark_entries_changed();
        }
    }

    /// Claim a background flatten of the decoded tiles within the source
    /// radius. The request is always recorded as the latest; no job is
    /// claimed while one runs or when the published merge already has this
    /// key. A window with no decoded tiles publishes an empty merge at once.
    pub fn begin_local_merge(&mut self, spec: LocalMergeSpec) -> (r: Option<LocalMergeWork<P>>)
        requires
            merge_distances_defined(*old(self), spec),
        ensures
            old(self).well_keyed() ==> final(self).well_keyed(),
            merge_outcome(*old(self), *final(self), r, spec),
    {
        let key = LocalMergeKey {
            load_epoch: self.load_epoch,
            entries_revision: self.entries_revision,
            partition_bucket_step_bits: spec.partition_bucket_step_bits,
            center_lat_bucket: spec.center_lat_bucket,
            center_lon_bucket: spec.center_lon_bucket,
            source_radius: spec.source_radius,
        };
        self.merge_requested_key = Some(key);
        if opt_merge_key_is(&self.merged_key, &key) || self.merge_in_flight.is_some() {
            return None;
        }
        let tiles = entries_within(
            &self.entries,
            spec.center_lat_bucket,
            spec.center_lon_bucket,
            spec.source_radius,
        );
        if tiles.len() == 0 {
            self.merged = None;
            self.merged_key = Some(key);
            return None;
        }
        self.merge_in_flight = Some(key);
        Some(LocalMergeWork { key, tiles })
    }

    /// Complete a merge job. Its in-flight marker is always released; the
    /// result is published only if the cache still reads the same epoch and
    /// revision and the key is still the latest request. A non-empty
    /// partitioned result also retires the zoom fallback.
    pub fn finish_local_merge(&mut self, key: LocalMergeKey, merged: Option<Arc<Vec<P>>>)
        ensures
            old(self).well_keyed() ==> final(self).well_keyed(),
            finish_merge_outcome(*old(self), *final(self), key, merged),
    {
        if opt_merge_key_is(&self.merge_in_flight, &key) {
            self.merge_in_flight = None;
        }
        if self.load_epoch != key.load_epoch || self.entries_revision != key.entries_revision
            || !opt_merge_key_is(&self.merge_requested_key, &key) {
            return;
        }
        if let Some(m) = merged {
            if key.partition_bucket_step_bits.is_some() && m.len() > 0 {
                self.zoom_fallback = None;
            }
            self.merged = Some(m);
            self.merged_key = Some(key);
        }
    }
}

/// The value of an owned optional snapshot: its window and its assets.
pub open spec fn held_snapshot_view(s: Option<LocalManifestSnapshot>) -> Option<(ManifestId, Seq<AssetId>)> {
    match s {
        Some(snap) => Some((snap.key@, asset_ids(snap.assets@))),
        None => None,
    }
}

/// The identities of a list of decoded tiles.
pub open spec fn decoded_ids<P>(s: Seq<(TileKey, Arc<Vec<P>>)>) -> Seq<TileId> {
    Seq::new(s.len(), |i: int| s[i].0@)
}

/// Assets whose tile is neither decoded nor claimed by a reader, in order.
pub open spec fn unclaimed(assets: Seq<AssetId>, decoded: Seq<TileId>, claimed: Seq<TileId>) -> Seq<AssetId>
    decreases assets.len(),
{
    if assets.len() == 0 {
        Seq::empty()
    } else {
        let r = unclaimed(assets.drop_last(), decoded, claimed);
        let t = asset_tile(assets.last());
        if !decoded.contains(t) && !claimed.contains(t) {
            r.push(assets.last())
        } else {
            r
        }
    }
}

/// Distance of an asset's tile from the centre bucket.
pub open spec fn asset_distance(a: AssetId, center_lat: i32, center_lon: i32) -> int {
    bucket_distance(a.3 as int, a.4 as int, center_lat as int, center_lon as int)
}

/// Insert `x` after every element no farther from the centre than it.
pub open spec fn insert_by_distance(s: Seq<AssetId>, x: AssetId, center_lat: i32, center_lon: i32) -> Seq<AssetId>
    decreases s.len(),
{
    if s.len() == 0 {
        seq![x]
    } else if asset_distance(s.last(), center_lat, center_lon) <= asset_distance(x, center_lat, center_lon) {
        s.push(x)
    } else {
        insert_by_distance(s.drop_last(), x, center_lat, center_lon).push(s.last())
    }
}

/// The assets ordered nearest first; assets at equal distance keep their order.
pub open spec fn nearest_first(s: Seq<AssetId>, center_lat: i32, center_lon: i32) -> Seq<AssetId>
    decreases s.len(),
{
    if s.len() == 0 {
        Seq::empty()
    } else {
        insert_by_distance(nearest_first(s.drop_last(), center_lat, center_lon), s.last(), center_lat, center_lon)
    }
}

/// The batch a reader claims: the unclaimed assets, nearest first, at most
/// [`LOCAL_CONTOUR_READ_BATCH_SIZE`] of them.
pub open spec fn read_batch(
    assets: Seq<AssetId>,
    decoded: Seq<TileId>,
    claimed: Seq<TileId>,
    center_lat: i32,
    center_lon: i32,
) -> Seq<AssetId> {
    let sorted = nearest_first(unclaimed(assets, decoded, claimed), center_lat, center_lon);
    if sorted.len() > LOCAL_CONTOUR_READ_BATCH_SIZE {
        sorted.take(LOCAL_CONTOUR_READ_BATCH_SIZE as int)
    } else {
        sorted
    }
}

/// The assets of a list of read requests.
pub open spec fn request_ids(s: Seq<(TileKey, FocusContourAsset)>) -> Seq<AssetId> {
    Seq::new(s.len(), |i: int| s[i].1@)
}

/// Every request's key is its asset's tile.
pub open spec fn requests_keyed(s: Seq<(TileKey, FocusContourAsset)>) -> bool {
    forall|i: int| 0 <= i < s.len() ==> (#[trigger] s[i]).0@ == asset_tile(s[i].1@)
}

/// The tiles of a list of assets.
pub open spec fn asset_tiles(s: Seq<AssetId>) -> Seq<TileId> {
    Seq::new(s.len(), |i: int| asset_tile(s[i]))
}

/// Every asset's distance to the centre can be computed in `i32`.
pub open spec fn assets_distance_defined(s: Seq<FocusContourAsset>, center_lat: i32, center_lon: i32) -> bool {
    forall|i: int|
        0 <= i < s.len() ==> distance_defined(
            #[trigger] s[i].lat_bucket,
            s[i].lon_bucket,
            center_lat,
            center_lon,
        )
}

/// Every asset of `s` whose tile is neither decoded nor claimed has a
/// distance to the centre that can be computed in `i32`.
pub open spec fn unclaimed_distance_defined(
    s: Seq<FocusContourAsset>,
    decoded: Seq<TileId>,
    claimed: Seq<TileId>,
    center_lat: i32,
    center_lon: i32,
) -> bool {
    forall|i: int|
        0 <= i < s.len() && !decoded.contains(asset_tile(#[trigger] s[i]@)) && !claimed.contains(
            asset_tile(s[i]@),
        ) ==> distance_defined(s[i].lat_bucket, s[i].lon_bucket, center_lat, center_lon)
}

/// `entries` with each loaded tile appended unless its key is already present.
pub open spec fn insert_absent<P>(entries: Seq<(TileId, Seq<P>)>, loaded: Seq<(TileId, Seq<P>)>) -> Seq<
    (TileId, Seq<P>),
>
    decreases loaded.len(),
{
    if loaded.len() == 0 {
        entries
    } else {
        let r = insert_absent(entries, loaded.drop_last());
        let e = loaded.last();
        if exists|i: int| 0 <= i < r.len() && (#[trigger] r[i]).0 == e.0 {
            r
        } else {
            r.push(e)
        }
    }
}

/// No two entries of `s` have the same key.
pub open spec fn keys_distinct<K, V>(s: Seq<(K, V)>) -> bool {
    forall|i: int, j: int| 0 <= i < j < s.len() ==> (#[trigger] s[i]).0 != (#[trigger] s[j]).0
}

proof fn lemma_insert_absent_distinct<P>(entries: Seq<(TileId, Seq<P>)>, loaded: Seq<(TileId, Seq<P>)>)
    requires
        keys_distinct(entries),
    ensures
        keys_distinct(insert_absent(entries, loaded)),
    decreases loaded.len(),
{
    if loaded.len() > 0 {
        lemma_insert_absent_distinct(entries, loaded.drop_last());
        let r = insert_absent(entries, loaded.drop_last());
        let e = loaded.last();
        if !(exists|i: int| 0 <= i < r.len() && (#[trigger] r[i]).0 == e.0) {
            let t = r.push(e);
            assert forall|i: int, j: int| 0 <= i < j < t.len() implies (#[trigger] t[i]).0 != (#[trigger] t[j]).0 by {
                if j == r.len() {
                    assert(t[i] == r[i]);
                } else {
                    assert(t[i] == r[i] && t[j] == r[j]);
                }
            }
        }
    }
}

proof fn lemma_within_from<P>(s: Seq<(TileId, Seq<P>)>, clat: i32, clon: i32, radius: int)
    ensures
        forall|k: int| 0 <= k < within(s, clat, clon, radius).len() ==> exists|i: int|
            0 <= i < s.len() && s[i] == #[trigger] within(s, clat, clon, radius)[k],
    decreases s.len(),
{
    if s.len() > 0 {
        let t = s.drop_last();
        lemma_within_from(t, clat, clon, radius);
        let w = within(t, clat, clon, radius);
        assert forall|k: int| 0 <= k < within(s, clat, clon, radius).len() implies exists|i: int|
            0 <= i < s.len() && s[i] == #[trigger] within(s, clat, clon, radius)[k] by {
            if k < w.len() {
                let i = choose|i: int| 0 <= i < t.len() && t[i] == w[k];
                assert(s[i] == t[i]);
            } else {
                assert(s[s.len() - 1] == s.last());
            }
        }
    }
}

proof fn lemma_within_distinct<P>(s: Seq<(TileId, Seq<P>)>, clat: i32, clon: i32, radius: int)
    requires
        keys_distinct(s),
    ensures
        keys_distinct(within(s, clat, clon, radius)),
    decreases s.len(),
{
    if s.len() > 0 {
        let t = s.drop_last();
        assert(keys_distinct(t)) by {
            assert forall|i: int, j: int| 0 <= i < j < t.len() implies (#[trigger] t[i]).0 != (#[trigger] t[j]).0 by {
                assert(t[i] == s[i] && t[j] == s[j]);
            }
        }
        lemma_within_distinct(t, clat, clon, radius);
        lemma_within_from(t, clat, clon, radius);
        let w = within(t, clat, clon, radius);
        let x = s.last();
        let r = within(s, clat, clon, radius);
        if r.len() != w.len() {
            assert(r == w.push(x));
            assert forall|i: int, j: int| 0 <= i < j < r.len() implies (#[trigger] r[i]).0 != (#[trigger] r[j]).0 by {
                if j == w.len() {
                    assert(r[i] == w[i]);
                    let q = choose|q: int| 0 <= q < t.len() && t[q] == w[i];
                    assert(s[q] == t[q] && s[s.len() - 1] == x);
                } else {
                    assert(r[i] == w[i] && r[j] == w[j]);
                }
            }
        }
    }
}

/// The value of a list of loaded tiles.
pub open spec fn loaded_ids<P>(s: Seq<(TileKey, Vec<P>)>) -> Seq<(TileId, Seq<P>)> {
    Seq::new(s.len(), |i: int| (s[i].0@, s[i].1@))
}

/// `s` without any element of `removed`.
pub open spec fn without_tiles(s: Seq<TileId>, removed: Seq<TileId>) -> Seq<TileId>
    decreases s.len(),
{
    if s.len() == 0 {
        Seq::empty()
    } else {
        let r = without_tiles(s.drop_last(), removed);
        if removed.contains(s.last()) {
            r
        } else {
            r.push(s.last())
        }
    }
}

/// The tiles a list of read requests names.
pub open spec fn request_tiles(s: Seq<(TileKey, FocusContourAsset)>) -> Seq<TileId> {
    Seq::new(s.len(), |i: int| s[i].0@)
}

proof fn lemma_unclaimed_push(s: Seq<AssetId>, x: AssetId, decoded: Seq<TileId>, claimed: Seq<TileId>)
    ensures
        unclaimed(s.push(x), decoded, claimed) == (if !decoded.contains(asset_tile(x))
            && !claimed.contains(asset_tile(x)) {
            unclaimed(s, decoded, claimed).push(x)
        } else {
            unclaimed(s, decoded, claimed)
        }),
{
    assert(s.push(x).drop_last() =~= s);
}

proof fn lemma_nearest_first_push(s: Seq<AssetId>, x: AssetId, clat: i32, clon: i32)
    ensures
        nearest_first(s.push(x), clat, clon) == insert_by_distance(nearest_first(s, clat, clon), x, clat, clon),
{
    assert(s.push(x).drop_last() =~= s);
}

proof fn lemma_insert_by_distance_at(s: Seq<AssetId>, x: AssetId, j: int, clat: i32, clon: i32)
    requires
        0 <= j <= s.len(),
        forall|k: int| j <= k < s.len() ==> asset_distance(#[trigger] s[k], clat, clon) > asset_distance(x, clat, clon),
        j == 0 || asset_distance(s[j - 1], clat, clon) <= asset_distance(x, clat, clon),
    ensures
        insert_by_distance(s, x, clat, clon) == s.insert(j, x),
    decreases s.len(),
{
    if s.len() == 0 {
        assert(s.insert(j, x) =~= seq![x]);
    } else if j == s.len() {
        assert(s.insert(j, x) =~= s.push(x));
    } else {
        let t = s.drop_last();
        lemma_insert_by_distance_at(t, x, j, clat, clon);
        assert(t.insert(j, x).push(s.last()) =~= s.insert(j, x));
    }
}

proof fn lemma_insert_absent_push<P>(entries: Seq<(TileId, Seq<P>)>, loaded: Seq<(TileId, Seq<P>)>, e: (TileId, Seq<P>))
    ensures
        insert_absent(entries, loaded.push(e)) == ({
            let r = insert_absent(entries, loaded);
            if exists|i: int| 0 <= i < r.len() && (#[trigger] r[i]).0 == e.0 {
                r
            } else {
                r.push(e)
            }
        }),
{
    assert(loaded.push(e).drop_last() =~= loaded);
}

proof fn lemma_insert_absent_grows<P>(entries: Seq<(TileId, Seq<P>)>, loaded: Seq<(TileId, Seq<P>)>)
    ensures
        insert_absent(entries, loaded).len() >= entries.len(),
        insert_absent(entries, loaded).take(entries.len() as int) == entries,
    decreases loaded.len(),
{
    if loaded.len() > 0 {
        lemma_insert_absent_grows(entries, loaded.drop_last());
        let r = insert_absent(entries, loaded.drop_last());
        assert(r.push(loaded.last()).take(entries.len() as int) =~= r.take(entries.len() as int));
    }
}

proof fn lemma_without_tiles_push(s: Seq<TileId>, x: TileId, removed: Seq<TileId>)
    ensures
        without_tiles(s.push(x), removed) == (if removed.contains(x) {
            without_tiles(s, removed)
        } else {
            without_tiles(s, removed).push(x)
        }),
{
    assert(s.push(x).drop_last() =~= s);
}

/// Whether a decoded tile with this key is present.
fn has_decoded<P>(entries: &Vec<(TileKey, Arc<Vec<P>>)>, key: &TileKey) -> (r: bool)
    ensures
        r == decoded_ids(entries@).contains(key@),
{
    let mut i: usize = 0;
    while i < entries.len()
        invariant
            i <= entries@.len(),
            forall|k: int| 0 <= k < i ==> decoded_ids(entries@)[k] != key@,
        decreases entries@.len() - i,
    {
        if entries[i].0.same(key) {
            assert(decoded_ids(entries@)[i as int] == key@);
            return true;
        }
        i = i + 1;
    }
    false
}

/// Whether a key is in a list of keys.
fn has_key(keys: &Vec<TileKey>, key: &TileKey) -> (r: bool)
    ensures
        r == tile_ids(keys@).contains(key@),
{
    let mut i: usize = 0;
    while i < keys.len()
        invariant
            i <= keys@.len(),
            forall|k: int| 0 <= k < i ==> tile_ids(keys@)[k] != key@,
        decreases keys@.len() - i,
    {
        if keys[i].same(key) {
            assert(tile_ids(keys@)[i as int] == key@);
            return true;
        }
        i = i + 1;
    }
    false
}

/// Whether a key is named by a list of read requests.
fn requested(requests: &[(TileKey, FocusContourAsset)], key: &TileKey) -> (r: bool)
    ensures
        r == request_tiles(requests@).contains(key@),
{
    let mut i: usize = 0;
    while i < requests.len()
        invariant
            i <= requests@.len(),
            forall|k: int| 0 <= k < i ==> request_tiles(requests@)[k] != key@,
        decreases requests@.len() - i,
    {
        if requests[i].0.same(key) {
            assert(request_tiles(requests@)[i as int] == key@);
            return true;
        }
        i = i + 1;
    }
    false
}

/// Distance of an asset's tile from the centre, in buckets.
fn asset_bucket_distance(a: &FocusContourAsset, center_lat: i32, center_lon: i32) -> (r: i32)
    requires
        distance_defined(a.lat_bucket, a.lon_bucket, center_lat, center_lon),
    ensures
        r == asset_distance(a@, center_lat, center_lon),
{
    let dlat: i32 = a.lat_bucket - center_lat;
    let dlon: i32 = a.lon_bucket - center_lon;
    let alat: i32 = if dlat < 0 { -dlat } else { dlat };
    let alon: i32 = if dlon < 0 { -dlon } else { dlon };
    if alat >= alon { alat } else { alon }
}

/// The outcome of claiming a read batch of `assets` around the centre at
/// time `now`: `before` and `after` are the cache around the claim.
pub open spec fn read_outcome<P>(
    before: LocalRegionCache<P>,
    after: LocalRegionCache<P>,
    r: Option<(u64, Vec<(TileKey, FocusContourAsset)>)>,
    assets: Seq<FocusContourAsset>,
    center_lat_bucket: i32,
    center_lon_bucket: i32,
    now: u64,
) -> bool {
    let batch = read_batch(
        asset_ids(assets),
        decoded_ids(before.entries@),
        tile_ids(before.in_flight@),
        center_lat_bucket,
        center_lon_bucket,
    );
    if before.load_in_flight is Some || (before.read_retry_at matches Some(t) && t
        > now) {
        r is None && after == before
    } else if batch.len() == 0 {
        r is None && after == (LocalRegionCache {
            read_retry_at: None,
            ..before
        })
    } else {
        r matches Some((epoch, requests)) && epoch == before.load_epoch
            && request_ids(requests@) == batch && requests_keyed(requests@)
            && tile_ids(after.in_flight@) == tile_ids(before.in_flight@)
            + asset_tiles(batch) && after == (LocalRegionCache {
            in_flight: after.in_flight,
            load_in_flight: Some(before.load_epoch),
            read_retry_at: None,
            ..before
        })
    }
}

/// The outcome of completing the read of `epoch` with `loaded` (`None` for
/// a failed read) at time `now`: `before` and `after` are the cache around it.
pub open spec fn finish_read_outcome<P>(
    before: LocalRegionCache<P>,
    after: LocalRegionCache<P>,
    epoch: u64,
    requests: Seq<(TileKey, FocusContourAsset)>,
    loaded: Option<Vec<(TileKey, Vec<P>)>>,
    now: u64,
) -> bool {
    if before.load_in_flight != Some(epoch) {
        after == before
    } else if before.load_epoch != epoch {
        after == (LocalRegionCache { load_in_flight: None, ..before })
    } else {
        let added = match loaded {
            Some(l) => loaded_ids(l@),
            None => Seq::empty(),
        };
        let inserted = insert_absent(entry_ids(before.entries@), added);
        let changed = inserted.len() != before.entries@.len();
        &&& entry_ids(after.entries@) == inserted
        &&& tile_ids(after.in_flight@) == without_tiles(
            tile_ids(before.in_flight@),
            request_tiles(requests),
        )
        &&& after == (LocalRegionCache {
            entries: after.entries,
            in_flight: after.in_flight,
            entries_revision: if changed {
                next_rev(before.entries_revision)
            } else {
                before.entries_revision
            },
            merged_key: if changed {
                None
            } else {
                before.merged_key
            },
            read_retry_at: if loaded is None {
                Some((now + CONTOUR_READ_RETRY_DELAY_MS) as u64)
            } else {
                None
            },
            load_in_flight: None,
            ..before
        })
    }
}

/// The outcome of publishing the selection of window `key` (`None` for a
/// failed selection) stamped with `manifest_revision` at time `now`:
/// `before` and `after` are the cache around it.
pub open spec fn finish_manifest_outcome<P>(
    before: LocalRegionCache<P>,
    after: LocalRegionCache<P>,
    key: LocalManifestKey,
    assets: Option<Vec<FocusContourAsset>>,
    manifest_revision: u64,
    now: u64,
) -> bool {
    let released = if before.manifest_in_flight matches Some(k) && k@ == key@ {
        None
    } else {
        before.manifest_in_flight
    };
    if !(before.manifest_requested_key matches Some(k) && k@ == key@) || assets is None {
        after == (LocalRegionCache { manifest_in_flight: released, ..before })
    } else {
        &&& after.manifest_snapshot matches Some(s) && s.key@ == key@ && s.assets
            == assets.unwrap() && s.manifest_revision == manifest_revision
            && s.refreshed_at == now
        &&& after == (LocalRegionCache {
            manifest_in_flight: released,
            manifest_snapshot: after.manifest_snapshot,
            ..before
        })
    }
}

impl<P> LocalRegionCache<P> {
    /// Claim one coalesced read: nothing while a reader runs or before the
    /// retry time; otherwise the tiles of `assets` that are neither decoded
    /// nor claimed, nearest the centre first, at most eight. Their keys join
    /// the claimed set and the reader is marked with the current epoch. An
    /// empty batch claims nothing.
    pub fn begin_local_read(
        &mut self,
        assets: &[FocusContourAsset],
        center_lat_bucket: i32,
        center_lon_bucket: i32,
        now: u64,
    ) -> (r: Option<(u64, Vec<(TileKey, FocusContourAsset)>)>)
        requires
            old(self).read_distances_defined(assets@, center_lat_bucket, center_lon_bucket, now),
        ensures
            old(self).well_keyed() ==> final(self).well_keyed(),
            read_outcome(*old(self), *final(self), r, assets@, center_lat_bucket, center_lon_bucket, now),
    {
        if self.load_in_flight.is_some() {
            return None;
        }
        match self.read_retry_at {
            Some(t) => {
                if t > now {
                    return None;
                }
            },
            None => {},
        }
        self.read_retry_at = None;
        let ghost ids = asset_ids(assets@);
        let ghost decoded = decoded_ids(self.entries@);
        let ghost claimed = tile_ids(self.in_flight@);
        let mut sorted: Vec<(TileKey, FocusContourAsset)> = Vec::new();
        let mut i: usize = 0;
        while i < assets.len()
            invariant
                ids == asset_ids(assets@),
                decoded == decoded_ids(self.entries@),
                claimed == tile_ids(self.in_flight@),
                i <= assets@.len(),
                unclaimed_distance_defined(assets@, decoded, claimed, center_lat_bucket, center_lon_bucket),
                request_ids(sorted@) == nearest_first(
                    unclaimed(ids.take(i as int), decoded, claimed),
                    center_lat_bucket,
                    center_lon_bucket,
                ),
                requests_keyed(sorted@),
                forall|k: int|
                    0 <= k < sorted@.len() ==> distance_defined(
                        #[trigger] sorted@[k].1.lat_bucket,
                        sorted@[k].1.lon_bucket,
                        center_lat_bucket,
                        center_lon_bucket,
                    ),
            decreases assets@.len() - i,
        {
            let asset = &assets[i];
            let key = asset.tile_key();
            proof {
                assert(ids.take(i + 1) =~= ids.take(i as int).push(ids[i as int]));
                lemma_unclaimed_push(ids.take(i as int), ids[i as int], decoded, claimed);
            }
            if !has_decoded(&self.entries, &key) && !has_key(&self.in_flight, &key) {
                assert(key@ == asset_tile(assets@[i as int]@));
                let d: i32 = asset_bucket_distance(asset, center_lat_bucket, center_lon_bucket);
                let mut j: usize = sorted.len();
                while j > 0 && asset_bucket_distance(&sorted[j - 1].1, center_lat_bucket, center_lon_bucket) > d
                    invariant
                        j <= sorted@.len(),
                        d == asset_distance(ids[i as int], center_lat_bucket, center_lon_bucket),
                        forall|k: int|
                            0 <= k < sorted@.len() ==> distance_defined(
                                #[trigger] sorted@[k].1.lat_bucket,
                                sorted@[k].1.lon_bucket,
                                center_lat_bucket,
                                center_lon_bucket,
                            ),
                        forall|k: int|
                            j <= k < sorted@.len() ==> asset_distance(
                                #[trigger] request_ids(sorted@)[k],
                                center_lat_bucket,
                                center_lon_bucket,
                            ) > d,
                    decreases j,
                {
                    j = j - 1;
                }
                let ghost before = sorted@;
                proof {
                    lemma_insert_by_distance_at(request_ids(before), ids[i as int], j as int, center_lat_bucket, center_lon_bucket);
                    lemma_nearest_first_push(
                        unclaimed(ids.take(i as int), decoded, claimed),
                        ids[i as int],
                        center_lat_bucket,
                        center_lon_bucket,
                    );
                }
                sorted.insert(j, (key, asset.clone()));
                assert(request_ids(sorted@) =~= request_ids(before).insert(j as int, ids[i as int]));
                assert(forall|k: int| 0 <= k < sorted@.len() ==> #[trigger] sorted@[k] == (if k < j {
                    before[k]
                } else if k == j {
                    sorted@[j as int]
                } else {
                    before[k - 1]
                }));
            }
            i = i + 1;
        }
        assert(ids.take(i as int) =~= ids);
        sorted.truncate(LOCAL_CONTOUR_READ_BATCH_SIZE);
        assert(request_ids(sorted@) =~= read_batch(ids, decoded, claimed, center_lat_bucket, center_lon_bucket));
        if sorted.len() == 0 {
            return None;
        }
        let mut k: usize = 0;
        let mut claimed_now: Vec<TileKey> = Vec::new();
        std::mem::swap(&mut self.in_flight, &mut claimed_now);
        let ghost start = tile_ids(claimed_now@);
        while k < sorted.len()
            invariant
                k <= sorted@.len(),
                requests_keyed(sorted@),
                tile_ids(claimed_now@) =~= start + asset_tiles(request_ids(sorted@)).take(k as int),
            decreases sorted@.len() - k,
        {
            let ghost before = tile_ids(claimed_now@);
            claimed_now.push(sorted[k].0.clone());
            assert(tile_ids(claimed_now@) =~= before.push(asset_tiles(request_ids(sorted@))[k as int]));
            k = k + 1;
        }
        assert(asset_tiles(request_ids(sorted@)).take(k as int) =~= asset_tiles(request_ids(sorted@)));
        self.in_flight = claimed_now;
        let epoch: u64 = self.load_epoch;
        self.load_in_flight = Some(epoch);
        Some((epoch, sorted))
    }

    /// Complete the running read. Nothing happens unless `epoch` is the
    /// running reader's. If the cache was reset since (another epoch), only
    /// the reader marker is released. Otherwise loaded tiles are added unless
    /// already decoded (a new revision if any was), the requested keys are no
    /// longer claimed, and a failed read (`None`) sets a retry time.
    pub fn finish_local_read(
        &mut self,
        epoch: u64,
        requests: &[(TileKey, FocusContourAsset)],
        loaded: Option<Vec<(TileKey, Vec<P>)>>,
        now: u64,
    )
        requires
            loaded is None ==> now <= u64::MAX - CONTOUR_READ_RETRY_DELAY_MS,
        ensures
            finish_read_outcome(*old(self), *final(self), epoch, requests@, loaded, now),
            old(self).well_keyed() ==> final(self).well_keyed(),
    {
        match self.load_in_flight {
            Some(e) => {
                if e != epoch {
                    return;
                }
            },
            None => {
                return;
            },
        }
        if self.load_epoch != epoch {
            self.load_in_flight = None;
            return;
        }
        let read_failed: bool = loaded.is_none();
        let ghost start = entry_ids(self.entries@);
        let ghost added = if loaded is Some {
            loaded_ids(loaded.unwrap()@)
        } else {
            Seq::empty()
        };
        let old_len: usize = self.entries.len();
        let mut entries: Vec<(TileKey, Arc<Vec<P>>)> = Vec::new();
        std::mem::swap(&mut self.entries, &mut entries);
        if let Some(mut batch) = loaded {
            let ghost all = loaded_ids(batch@);
            let batch_len: usize = batch.len();
            let mut taken: usize = 0;
            while batch.len() > 0
                invariant
                    all == added,
                    all.len() <= usize::MAX,
                    taken + batch@.len() == all.len(),
                    loaded_ids(batch@) == all.skip(taken as int),
                    entry_ids(entries@) == insert_absent(start, all.take(taken as int)),
                decreases batch@.len(),
            {
                let ghost rest = batch@;
                let item = batch.remove(0);
                proof {
                    assert(item == rest[0]);
                    assert(loaded_ids(rest)[0] == all.skip(taken as int)[0]);
                    assert(loaded_ids(batch@) =~= loaded_ids(rest).skip(1));
                    assert(all.take(taken + 1) =~= all.take(taken as int).push(all[taken as int]));
                    lemma_insert_absent_push(start, all.take(taken as int), all[taken as int]);
                }
                let (key, contours) = item;
                assert(all[taken as int] == (key@, contours@));
                proof {
                    let r = insert_absent(start, all.take(taken as int));
                    assert(forall|i: int| 0 <= i < r.len() ==> #[trigger] r[i].0 == decoded_ids(entries@)[i]);
                }
                if !has_decoded(&entries, &key) {
                    let ghost before = entry_ids(entries@);
                    entries.push((key, Arc::new(contours)));
                    assert(entry_ids(entries@) =~= before.push(all[taken as int]));
                } else {
                    proof {
                        let r = insert_absent(start, all.take(taken as int));
                        let i = choose|i: int| 0 <= i < decoded_ids(entries@).len() && decoded_ids(entries@)[i] == key@;
                        assert(r[i].0 == all[taken as int].0);
                    }
                }
                taken = taken + 1;
            }
            assert(all.take(taken as int) =~= all);
        } else {
            assert(start == insert_absent(start, added));
        }
        self.entries = entries;
        proof {
            lemma_insert_absent_grows(start, added);
            if keys_distinct(start) {
                lemma_insert_absent_distinct(start, added);
            }
        }
        let ghost claimed = tile_ids(self.in_flight@);
        let ghost removed = request_tiles(requests@);
        let mut remaining: Vec<TileKey> = Vec::new();
        let mut i: usize = 0;
        while i < self.in_flight.len()
            invariant
                claimed == tile_ids(self.in_flight@),
                removed == request_tiles(requests@),
                i <= self.in_flight@.len(),
                tile_ids(remaining@) == without_tiles(claimed.take(i as int), removed),
            decreases self.in_flight@.len() - i,
        {
            proof {
                assert(claimed.take(i + 1) =~= claimed.take(i as int).push(claimed[i as int]));
                lemma_without_tiles_push(claimed.take(i as int), claimed[i as int], removed);
            }
            if !requested(requests, &self.in_flight[i]) {
                let ghost before = tile_ids(remaining@);
                remaining.push(self.in_flight[i].clone());
                assert(tile_ids(remaining@) =~= before.push(claimed[i as int]));
            }
            i = i + 1;
        }
        assert(claimed.take(i as int) =~= claimed);
        self.in_flight = remaining;
        if self.entries.len() != old_len {
            self.mark_entries_changed();
        }
        self.read_retry_at = if read_failed {
            Some(now + CONTOUR_READ_RETRY_DELAY_MS)
        } else {
            None
        };
        self.load_in_flight = None;
    }

    /// Publish a finished manifest selection. The worker's in-flight marker is
    /// released; the assets replace the snapshot only when the selection is
    /// for the latest requested window, stamped with the manifest revision
    /// observed after selecting and the current time.
    pub fn finish_local_manifest(
        &mut self,
        key: &LocalManifestKey,
        assets: Option<Vec<FocusContourAsset>>,
        manifest_revision: u64,
        now: u64,
    )
        ensures
            old(self).well_keyed() ==> final(self).well_keyed(),
            finish_manifest_outcome(*old(self), *final(self), *key, assets, manifest_revision, now),
    {
        if opt_key_is(&self.manifest_in_flight, key) {
            self.manifest_in_flight = None;
        }
        if !opt_key_is(&self.manifest_requested_key, key) {
            return;
        }
        if let Some(assets) = assets {
            self.manifest_snapshot = Some(
                LocalManifestSnapshot {
                    key: key.clone(),
                    assets,
                    manifest_revision,
                    refreshed_at: now,
                },
            );
        }
    }

    /// The paint-thread half of a manifest lookup. It returns the asset views
    /// the current snapshot offers this window, and whether a selection
    /// worker must start. The window is always recorded as the latest request.
    /// A snapshot of exactly this window, at the current manifest revision and
    /// younger than the snapshot lifetime, needs no worker; otherwise a worker
    /// starts unless one is already running, and is marked as running.
    pub fn request_manifest(&mut self, key: LocalManifestKey, manifest_revision: u64, now: u64) -> (r: (
        LocalManifestAssetViews,
        bool,
    ))
        ensures
            old(self).well_keyed() ==> final(self).well_keyed(),
            (asset_ids(r.0.assets@), r.0.exact_for_reads) == manifest_views(
                held_snapshot_view(old(self).manifest_snapshot),
                key@,
            ),
            final(self).manifest_requested_key matches Some(k) && k@ == key@,
            ({
                let fresh = old(self).manifest_snapshot matches Some(s) && s.key@ == key@
                    && s.manifest_revision == manifest_revision && (if now >= s.refreshed_at {
                    now - s.refreshed_at
                } else {
                    0
                }) < LOCAL_MANIFEST_SNAPSHOT_TTL_MS;
                if fresh {
                    !r.1 && *final(self) == (LocalRegionCache {
                        manifest_requested_key: final(self).manifest_requested_key,
                        ..*old(self)
                    })
                } else {
                    &&& r.1 == (old(self).manifest_in_flight is None)
                    &&& (r.1 ==> (final(self).manifest_in_flight matches Some(k) && k@ == key@))
                    &&& (!r.1 ==> final(self).manifest_in_flight == old(self).manifest_in_flight)
                    &&& *final(self) == (LocalRegionCache {
                        manifest_requested_key: final(self).manifest_requested_key,
                        manifest_in_flight: final(self).manifest_in_flight,
                        ..*old(self)
                    })
                }
            }),
    {
        let views = match &self.manifest_snapshot {
            Some(s) => local_manifest_asset_views(Some(s), &key),
            None => local_manifest_asset_views(None, &key),
        };
        let fresh: bool = match &self.manifest_snapshot {
            Some(s) => s.key.same(&key) && s.manifest_revision == manifest_revision
                && now.saturating_sub(s.refreshed_at) < LOCAL_MANIFEST_SNAPSHOT_TTL_MS,
            None => false,
        };
        if fresh {
            self.manifest_requested_key = Some(key);
            return (views, false);
        }
        self.manifest_requested_key = Some(key.clone());
        let start_worker: bool = self.manifest_in_flight.is_none();
        if start_worker {
            self.manifest_in_flight = Some(key);
        }
        (views, start_worker)
    }
}

} // verus!

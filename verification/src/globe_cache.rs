//! The globe-view contour tile cache: tiles accumulate across orbit motion
//! and clear only when the zoom bucket or root changes.
use crate::local_cache::{keys_distinct, next_rev, request_ids, requests_keyed, CONTOUR_READ_RETRY_DELAY_MS};
use crate::shared::share;
use crate::tiles::{asset_ids, AssetId, FocusContourAsset, TileKey};
use std::sync::Arc;
use vstd::prelude::*;

verus! {

/// The globe contour cache of one body.
pub struct GlobeRegionCache<P> {
    pub zoom_bucket: i32,
    pub root: Option<Vec<u8>>,
    /// Decoded tiles by (latitude bucket, longitude bucket), each at most once
    /// (`well_keyed`, kept by every step).
    pub tiles: Vec<((i32, i32), Arc<Vec<P>>)>,
    /// Tiles claimed by the running reader.
    pub in_flight: Vec<(i32, i32)>,
    /// Insertion order of the decoded tiles, for eviction ties.
    pub order: Vec<(i32, i32)>,
    /// Geometry of the previous zoom, shown until new tiles arrive.
    pub zoom_fallback: Option<Arc<Vec<P>>>,
    /// Memoized flattened merge of the tiles.
    pub merged: Option<Arc<Vec<P>>>,
    pub tiles_revision: u64,
    /// The tile revision `merged` was built from.
    pub merged_revision: Option<u64>,
    pub load_epoch: u64,
    pub load_in_flight: Option<u64>,
    pub read_retry_at: Option<u64>,
}

/// The bucket pairs of the decoded tiles.
pub open spec fn globe_tile_ids<P>(s: Seq<((i32, i32), Arc<Vec<P>>)>) -> Seq<(i32, i32)> {
    Seq::new(s.len(), |i: int| s[i].0)
}

/// The value of the decoded tiles: bucket pair and contours.
pub open spec fn globe_entries<P>(s: Seq<((i32, i32), Arc<Vec<P>>)>) -> Seq<((i32, i32), Seq<P>)> {
    Seq::new(s.len(), |i: int| (s[i].0, s[i].1@))
}

/// The bucket pair of an asset.
pub open spec fn asset_cell(a: AssetId) -> (i32, i32) {
    (a.3, a.4)
}

/// Assets whose bucket pair is neither decoded nor claimed, in order.
pub open spec fn globe_unclaimed(assets: Seq<AssetId>, decoded: Seq<(i32, i32)>, claimed: Seq<(i32, i32)>) -> Seq<
    AssetId,
>
    decreases assets.len(),
{
    if assets.len() == 0 {
        Seq::empty()
    } else {
        let r = globe_unclaimed(assets.drop_last(), decoded, claimed);
        let c = asset_cell(assets.last());
        if !decoded.contains(c) && !claimed.contains(c) {
            r.push(assets.last())
        } else {
            r
        }
    }
}

/// The bucket pairs of a list of assets.
pub open spec fn asset_cells(s: Seq<AssetId>) -> Seq<(i32, i32)> {
    Seq::new(s.len(), |i: int| asset_cell(s[i]))
}

/// The decoded tiles after adding the loaded ones whose bucket pair is new,
/// and the bucket pairs that were added, in order.
pub open spec fn globe_insert_absent<P>(
    tiles: Seq<((i32, i32), Seq<P>)>,
    loaded: Seq<((i32, i32), Seq<P>)>,
) -> Seq<((i32, i32), Seq<P>)>
    decreases loaded.len(),
{
    if loaded.len() == 0 {
        tiles
    } else {
        let r = globe_insert_absent(tiles, loaded.drop_last());
        let e = loaded.last();
        if exists|i: int| 0 <= i < r.len() && (#[trigger] r[i]).0 == e.0 {
            r
        } else {
            r.push(e)
        }
    }
}

/// The value of loaded tiles, keyed by bucket pair.
pub open spec fn globe_loaded<P>(s: Seq<(TileKey, Vec<P>)>) -> Seq<((i32, i32), Seq<P>)> {
    Seq::new(s.len(), |i: int| ((s[i].0.lat_bucket, s[i].0.lon_bucket), s[i].1@))
}

/// `s` without any bucket pair of `removed`.
pub open spec fn without_cells(s: Seq<(i32, i32)>, removed: Seq<(i32, i32)>) -> Seq<(i32, i32)>
    decreases s.len(),
{
    if s.len() == 0 {
        Seq::empty()
    } else {
        let r = without_cells(s.drop_last(), removed);
        if removed.contains(s.last()) {
            r
        } else {
            r.push(s.last())
        }
    }
}

/// The bucket pairs a list of read requests names.
pub open spec fn request_cells(s: Seq<(TileKey, FocusContourAsset)>) -> Seq<(i32, i32)> {
    Seq::new(s.len(), |i: int| (s[i].0.lat_bucket, s[i].0.lon_bucket))
}

/// What the globe can show without a new merge.
pub enum GlobeRender<P> {
    /// Show this (possibly nothing).
    Show(Option<Arc<Vec<P>>>),
    /// The tile set changed since the memoized merge: flatten it anew and
    /// publish it with [`GlobeRegionCache::publish_globe_merge`].
    Rebuild,
}

proof fn lemma_globe_unclaimed_push(s: Seq<AssetId>, x: AssetId, decoded: Seq<(i32, i32)>, claimed: Seq<(i32, i32)>)
    ensures
        globe_unclaimed(s.push(x), decoded, claimed) == (if !decoded.contains(asset_cell(x))
            && !claimed.contains(asset_cell(x)) {
            globe_unclaimed(s, decoded, claimed).push(x)
        } else {
            globe_unclaimed(s, decoded, claimed)
        }),
{
    assert(s.push(x).drop_last() =~= s);
}

proof fn lemma_globe_insert_absent_push<P>(
    tiles: Seq<((i32, i32), Seq<P>)>,
    loaded: Seq<((i32, i32), Seq<P>)>,
    e: ((i32, i32), Seq<P>),
)
    ensures
        globe_insert_absent(tiles, loaded.push(e)) == ({
            let r = globe_insert_absent(tiles, loaded);
            if exists|i: int| 0 <= i < r.len() && (#[trigger] r[i]).0 == e.0 {
                r
            } else {
                r.push(e)
            }
        }),
{
    assert(loaded.push(e).drop_last() =~= loaded);
}

proof fn lemma_globe_insert_absent_distinct<P>(tiles: Seq<((i32, i32), Seq<P>)>, loaded: Seq<((i32, i32), Seq<P>)>)
    requires
        keys_distinct(tiles),
    ensures
        keys_distinct(globe_insert_absent(tiles, loaded)),
    decreases loaded.len(),
{
    if loaded.len() > 0 {
        lemma_globe_insert_absent_distinct(tiles, loaded.drop_last());
        let r = globe_insert_absent(tiles, loaded.drop_last());
        let e = loaded.last();
        if !(exists|i: int| 0 <= i < r.len() && (#[trigger] r[i]).0 == e.0) {
            let t = r.push(e);
            assert forall|i: int, j: int| 0 <= i < j < t.len() implies (#[trigger] t[i]).0 != (#[trigger] t[j]).0 by {
                if j == r.len() {
                    assert(t[i] == r[i]);
                } else {
                    assert(t[i] == r[i] && t[j] == r[j]);
                }
            }
        }
    }
}

proof fn lemma_globe_insert_absent_grows<P>(tiles: Seq<((i32, i32), Seq<P>)>, loaded: Seq<((i32, i32), Seq<P>)>)
    ensures
        globe_insert_absent(tiles, loaded).len() >= tiles.len(),
        globe_insert_absent(tiles, loaded).take(tiles.len() as int) == tiles,
    decreases loaded.len(),
{
    if loaded.len() > 0 {
        lemma_globe_insert_absent_grows(tiles, loaded.drop_last());
        let r = globe_insert_absent(tiles, loaded.drop_last());
        assert(r.push(loaded.last()).take(tiles.len() as int) =~= r.take(tiles.len() as int));
    }
}

proof fn lemma_without_cells_push(s: Seq<(i32, i32)>, x: (i32, i32), removed: Seq<(i32, i32)>)
    ensures
        without_cells(s.push(x), removed) == (if removed.contains(x) {
            without_cells(s, removed)
        } else {
            without_cells(s, removed).push(x)
        }),
{
    assert(s.push(x).drop_last() =~= s);
}

/// Whether a bucket pair occurs in a list.
pub fn has_cell(cells: &Vec<(i32, i32)>, cell: (i32, i32)) -> (r: bool)
    ensures
        r == cells@.contains(cell),
{
    let mut i: usize = 0;
    while i < cells.len()
        invariant
            i <= cells@.len(),
            forall|k: int| 0 <= k < i ==> cells@[k] != cell,
        decreases cells@.len() - i,
    {
        if cells[i].0 == cell.0 && cells[i].1 == cell.1 {
            return true;
        }
        i = i + 1;
    }
    false
}

/// Whether a decoded tile with this bucket pair is present.
fn has_globe_tile<P>(tiles: &Vec<((i32, i32), Arc<Vec<P>>)>, cell: (i32, i32)) -> (r: bool)
    ensures
        r == globe_tile_ids(tiles@).contains(cell),
{
    let mut i: usize = 0;
    while i < tiles.len()
        invariant
            i <= tiles@.len(),
            forall|k: int| 0 <= k < i ==> globe_tile_ids(tiles@)[k] != cell,
        decreases tiles@.len() - i,
    {
        if tiles[i].0.0 == cell.0 && tiles[i].0.1 == cell.1 {
            assert(globe_tile_ids(tiles@)[i as int] == cell);
            return true;
        }
        i = i + 1;
    }
    false
}

/// Whether a bucket pair is named by a list of read requests.
fn requested_cell(requests: &[(TileKey, FocusContourAsset)], cell: (i32, i32)) -> (r: bool)
    ensures
        r == request_cells(requests@).contains(cell),
{
    let mut i: usize = 0;
    while i < requests.len()
        invariant
            i <= requests@.len(),
            forall|k: int| 0 <= k < i ==> request_cells(requests@)[k] != cell,
        decreases requests@.len() - i,
    {
        if requests[i].0.lat_bucket == cell.0 && requests[i].0.lon_bucket == cell.1 {
            assert(request_cells(requests@)[i as int] == cell);
            return true;
        }
        i = i + 1;
    }
    false
}

/// The outcome of claiming a globe read of `assets` at time `now`: `before`
/// and `after` are the cache around the claim.
pub open spec fn globe_read_outcome<P>(
    before: GlobeRegionCache<P>,
    after: GlobeRegionCache<P>,
    r: Option<(u64, Vec<(TileKey, FocusContourAsset)>)>,
    assets: Seq<FocusContourAsset>,
    now: u64,
) -> bool {
    let batch = globe_unclaimed(
        asset_ids(assets),
        globe_tile_ids(before.tiles@),
        before.in_flight@,
    );
    if before.load_in_flight is Some || (before.read_retry_at matches Some(t) && t
        > now) {
        r is None && after == before
    } else if batch.len() == 0 {
        r is None && after == (GlobeRegionCache {
            read_retry_at: None,
            ..before
        })
    } else {
        r matches Some((epoch, requests)) && epoch == before.load_epoch
            && request_ids(requests@) == batch && requests_keyed(requests@)
            && after.in_flight@ == before.in_flight@ + asset_cells(batch)
            && after == (GlobeRegionCache {
            in_flight: after.in_flight,
            load_in_flight: Some(before.load_epoch),
            read_retry_at: None,
            ..before
        })
    }
}

/// The outcome of completing the globe read of `epoch` with `loaded`
/// (`None` for a failed read) at time `now`: `before` and `after` are the
/// cache around it.
pub open spec fn globe_finish_outcome<P>(
    before: GlobeRegionCache<P>,
    after: GlobeRegionCache<P>,
    epoch: u64,
    requests: Seq<(TileKey, FocusContourAsset)>,
    loaded: Option<Vec<(TileKey, Vec<P>)>>,
    now: u64,
) -> bool {
    if before.load_in_flight != Some(epoch) {
        after == before
    } else if before.load_epoch != epoch {
        after == (GlobeRegionCache { load_in_flight: None, ..before })
    } else {
        let added = if loaded is Some {
            globe_loaded(loaded.unwrap()@)
        } else {
            Seq::empty()
        };
        let inserted = globe_insert_absent(globe_entries(before.tiles@), added);
        let n_old = before.tiles@.len();
        let changed = inserted.len() != n_old;
        let new_cells = Seq::new(
            (inserted.len() - n_old) as nat,
            |i: int| inserted[n_old + i].0,
        );
        &&& globe_entries(after.tiles@) == inserted
        &&& after.order@ == before.order@ + new_cells
        &&& after.in_flight@ == without_cells(
            before.in_flight@,
            request_cells(requests),
        )
        &&& after == (GlobeRegionCache {
            tiles: after.tiles,
            order: after.order,
            in_flight: after.in_flight,
            tiles_revision: if changed {
                next_rev(before.tiles_revision)
            } else {
                before.tiles_revision
            },
            merged: if changed {
                None
            } else {
                before.merged
            },
            merged_revision: if changed {
                None
            } else {
                before.merged_revision
            },
            read_retry_at: if loaded is None {
                Some((now + CONTOUR_READ_RETRY_DELAY_MS) as u64)
            } else {
                None
            },
            load_in_flight: None,
            ..before
        })
    }
}

/// What the globe shows without a new merge: the fallback while there are
/// no tiles; the memoized merge of the current tile revision (the fallback
/// when that merge is empty); otherwise a rebuild is needed.
pub open spec fn globe_render_of<P>(c: GlobeRegionCache<P>) -> GlobeRender<P> {
    if c.tiles@.len() == 0 {
        GlobeRender::Show(c.zoom_fallback)
    } else if c.merged_revision == Some(c.tiles_revision) && c.merged is Some {
        if c.merged.unwrap()@.len() == 0 {
            GlobeRender::Show(c.zoom_fallback)
        } else {
            GlobeRender::Show(c.merged)
        }
    } else {
        GlobeRender::Rebuild
    }
}

/// The outcome of publishing the merge `merged` (returning `r`): it is
/// memoized for the current tile revision; an empty merge shows the
/// fallback, a non-empty one is shown and retires the fallback.
pub open spec fn publish_outcome<P>(
    before: GlobeRegionCache<P>,
    after: GlobeRegionCache<P>,
    merged: Seq<P>,
    r: Option<Arc<Vec<P>>>,
) -> bool {
    &&& after.merged matches Some(m) && m@ == merged
    &&& after.merged_revision == Some(before.tiles_revision)
    &&& merged.len() == 0 ==> r == before.zoom_fallback && after == (GlobeRegionCache {
        merged: after.merged,
        merged_revision: Some(before.tiles_revision),
        ..before
    })
    &&& merged.len() > 0 ==> r == after.merged && after == (GlobeRegionCache {
        merged: after.merged,
        merged_revision: Some(before.tiles_revision),
        zoom_fallback: None,
        ..before
    })
}

/// Some entry of `s` has the bucket pair `c`.
pub open spec fn cell_listed<X>(s: Seq<((i32, i32), X)>, c: (i32, i32)) -> bool {
    exists|i: int| 0 <= i < s.len() && (#[trigger] s[i]).0 == c
}

impl<P> GlobeRegionCache<P> {
    /// Each bucket pair is decoded once.
    pub open spec fn well_keyed(self) -> bool {
        keys_distinct(globe_entries(self.tiles@))
    }

    /// The insertion order lists the bucket pair of each decoded tile, once.
    pub open spec fn order_lists_tiles(self) -> bool {
        &&& self.order@.no_duplicates()
        &&& forall|c: (i32, i32)|
            #![trigger self.order@.contains(c)]
            #![trigger cell_listed(globe_entries(self.tiles@), c)]
            self.order@.contains(c) <==> cell_listed(globe_entries(self.tiles@), c)
    }
}

/// Appending the bucket pairs of the newly inserted tiles to an order that
/// lists the old tiles once each gives an order that lists the new tiles once
/// each.
proof fn lemma_order_after_insert<P>(
    start: Seq<((i32, i32), Seq<P>)>,
    added: Seq<((i32, i32), Seq<P>)>,
    order: Seq<(i32, i32)>,
)
    requires
        keys_distinct(start),
        order.no_duplicates(),
        forall|c: (i32, i32)| #![trigger order.contains(c)] order.contains(c) <==> cell_listed(start, c),
    ensures
        ({
            let ins = globe_insert_absent(start, added);
            let n = start.len();
            let grown = order + Seq::new((ins.len() - n) as nat, |i: int| ins[n + i].0);
            &&& grown.no_duplicates()
            &&& forall|c: (i32, i32)|
                #![trigger grown.contains(c)]
                #![trigger cell_listed(ins, c)]
                grown.contains(c) <==> cell_listed(ins, c)
        }),
{
    let ins = globe_insert_absent(start, added);
    let n = start.len() as int;
    lemma_globe_insert_absent_grows(start, added);
    lemma_globe_insert_absent_distinct(start, added);
    let new_cells = Seq::new((ins.len() - n) as nat, |i: int| ins[n + i].0);
    let grown = order + new_cells;
    assert forall|i: int| 0 <= i < n implies #[trigger] ins[i] == start[i] by {
        assert(ins.take(n)[i] == ins[i]);
    }
    assert forall|i: int, j: int| 0 <= i < grown.len() && 0 <= j < grown.len() && i != j implies grown[i]
        != grown[j] by {
        if i < order.len() && j < order.len() {
        } else if i >= order.len() && j >= order.len() {
            assert(grown[i] == ins[n + i - order.len()].0);
            assert(grown[j] == ins[n + j - order.len()].0);
        } else {
            let (a, b) = if i < order.len() { (i, j) } else { (j, i) };
            assert(order.contains(grown[a]));
            let w = choose|w: int| 0 <= w < start.len() && (#[trigger] start[w]).0 == grown[a];
            assert(ins[w] == start[w]);
            assert(grown[b] == ins[n + b - order.len()].0);
        }
    }
    assert forall|c: (i32, i32)| #![trigger grown.contains(c)] #![trigger cell_listed(ins, c)] grown.contains(
        c,
    ) <==> cell_listed(ins, c) by {
        if grown.contains(c) {
            let k = choose|k: int| 0 <= k < grown.len() && grown[k] == c;
            if k < order.len() {
                assert(order.contains(c));
                let w = choose|w: int| 0 <= w < start.len() && (#[trigger] start[w]).0 == c;
                assert(ins[w] == start[w]);
            } else {
                assert(ins[n + k - order.len()].0 == c);
            }
        }
        if cell_listed(ins, c) {
            let w = choose|w: int| 0 <= w < ins.len() && (#[trigger] ins[w]).0 == c;
            if w < n {
                assert(ins[w] == start[w]);
                assert(cell_listed(start, c));
                assert(order.contains(c));
                let k = choose|k: int| 0 <= k < order.len() && order[k] == c;
                assert(grown[k] == c);
            } else {
                assert(grown[order.len() + (w - n)] == c);
            }
        }
    }
}

impl<P> GlobeRegionCache<P> {
    /// `self` is `before` with zoom bucket, root, fallback and tiles forgotten
    /// and both counters advanced; a running reader's marker remains.
    pub open spec fn is_reset_of(self, before: GlobeRegionCache<P>) -> bool {
        &&& self.tiles@.len() == 0
        &&& self.in_flight@.len() == 0
        &&& self.order@.len() == 0
        &&& self == (GlobeRegionCache {
            zoom_bucket: -1i32,
            root: None,
            zoom_fallback: None,
            tiles: self.tiles,
            in_flight: self.in_flight,
            order: self.order,
            tiles_revision: next_rev(before.tiles_revision),
            merged: None,
            merged_revision: None,
            load_epoch: next_rev(before.load_epoch),
            read_retry_at: None,
            ..before
        })
    }
}

impl<P> GlobeRegionCache<P> {
    /// An empty cache at no zoom bucket (-1) and no root.
    pub fn new() -> (r: GlobeRegionCache<P>)
        ensures
            r.order_lists_tiles(),
            r.well_keyed(),
            r.zoom_bucket == -1,
            r.root is None,
            r.tiles@.len() == 0,
            r.in_flight@.len() == 0,
            r.order@.len() == 0,
            r.zoom_fallback is None,
            r.merged is None,
            r.tiles_revision == 0,
            r.merged_revision is None,
            r.load_epoch == 0,
            r.load_in_flight is None,
            r.read_retry_at is None,
    {
        GlobeRegionCache {
            zoom_bucket: -1,
            root: None,
            tiles: Vec::new(),
            in_flight: Vec::new(),
            order: Vec::new(),
            zoom_fallback: None,
            merged: None,
            tiles_revision: 0,
            merged_revision: None,
            load_epoch: 0,
            load_in_flight: None,
            read_retry_at: None,
        }
    }

    /// Record that the tile set changed: a new revision and no memoized merge.
    pub fn mark_tiles_changed(&mut self)
        ensures
            old(self).order_lists_tiles() ==> final(self).order_lists_tiles(),
            old(self).well_keyed() ==> final(self).well_keyed(),
            *final(self) == (GlobeRegionCache {
                tiles_revision: next_rev(old(self).tiles_revision),
                merged: None,
                merged_revision: None,
                ..*old(self)
            }),
    {
        self.tiles_revision = self.tiles_revision.wrapping_add(1);
        self.merged = None;
        self.merged_revision = None;
    }

    /// Drop the tiles for a new scene and advance the load epoch, keeping any
    /// running reader's marker so its late result is discarded.
    pub fn clear_tiles_for_new_scene(&mut self)
        ensures
            final(self).order_lists_tiles(),
            final(self).well_keyed(),
            final(self).tiles@.len() == 0,
            final(self).in_flight@.len() == 0,
            final(self).order@.len() == 0,
            *final(self) == (GlobeRegionCache {
                tiles: final(self).tiles,
                in_flight: final(self).in_flight,
                order: final(self).order,
                tiles_revision: next_rev(old(self).tiles_revision),
                merged: None,
                merged_revision: None,
                load_epoch: next_rev(old(self).load_epoch),
                read_retry_at: None,
                ..*old(self)
            }),
    {
        self.tiles = Vec::new();
        self.in_flight = Vec::new();
        self.order = Vec::new();
        self.mark_tiles_changed();
        self.load_epoch = self.load_epoch.wrapping_add(1);
        self.read_retry_at = None;
    }

    /// Forget zoom bucket, root, fallback and tiles.
    pub fn reset_all(&mut self)
        ensures
            final(self).order_lists_tiles(),
            final(self).well_keyed(),
            final(self).is_reset_of(*old(self)),
    {
        self.zoom_bucket = -1;
        self.root = None;
        self.zoom_fallback = None;
        self.clear_tiles_for_new_scene();
    }

    /// Claim one coalesced read of every asset whose bucket pair is neither
    /// decoded nor claimed: nothing while a reader runs or before the retry
    /// time, and nothing when no asset is missing.
    pub fn begin_globe_read(&mut self, assets: &[FocusContourAsset], now: u64) -> (r: Option<
        (u64, Vec<(TileKey, FocusContourAsset)>),
    >)
        ensures
            old(self).order_lists_tiles() ==> final(self).order_lists_tiles(),
            old(self).well_keyed() ==> final(self).well_keyed(),
            globe_read_outcome(*old(self), *final(self), r, assets@, now),
    {
        if self.load_in_flight.is_some() {
            return None;
        }
        match self.read_retry_at {
            Some(t) => {
                if t > now {
                    return None;
                }
            },
            None => {},
        }
        self.read_retry_at = None;
        let ghost ids = asset_ids(assets@);
        let ghost decoded = globe_tile_ids(self.tiles@);
        let ghost claimed = self.in_flight@;
        let mut requests: Vec<(TileKey, FocusContourAsset)> = Vec::new();
        let mut i: usize = 0;
        while i < assets.len()
            invariant
                ids == asset_ids(assets@),
                decoded == globe_tile_ids(self.tiles@),
                claimed == self.in_flight@,
                i <= assets@.len(),
                request_ids(requests@) == globe_unclaimed(ids.take(i as int), decoded, claimed),
                requests_keyed(requests@),
            decreases assets@.len() - i,
        {
            let asset = &assets[i];
            let cell: (i32, i32) = (asset.lat_bucket, asset.lon_bucket);
            proof {
                assert(ids.take(i + 1) =~= ids.take(i as int).push(ids[i as int]));
                lemma_globe_unclaimed_push(ids.take(i as int), ids[i as int], decoded, claimed);
            }
            if !has_globe_tile(&self.tiles, cell) && !has_cell(&self.in_flight, cell) {
                let ghost before = requests@;
                requests.push((asset.tile_key(), asset.clone()));
                assert(request_ids(requests@) =~= request_ids(before).push(ids[i as int]));
            }
            i = i + 1;
        }
        assert(ids.take(i as int) =~= ids);
        if requests.len() == 0 {
            return None;
        }
        let mut claimed_now: Vec<(i32, i32)> = Vec::new();
        std::mem::swap(&mut self.in_flight, &mut claimed_now);
        let ghost start = claimed_now@;
        let mut k: usize = 0;
        while k < requests.len()
            invariant
                k <= requests@.len(),
                requests_keyed(requests@),
                claimed_now@ =~= start + asset_cells(request_ids(requests@)).take(k as int),
            decreases requests@.len() - k,
        {
            let ghost before = claimed_now@;
            claimed_now.push((requests[k].0.lat_bucket, requests[k].0.lon_bucket));
            assert(claimed_now@ =~= before.push(asset_cells(request_ids(requests@))[k as int]));
            k = k + 1;
        }
        assert(asset_cells(request_ids(requests@)).take(k as int) =~= asset_cells(request_ids(requests@)));
        self.in_flight = claimed_now;
        let epoch: u64 = self.load_epoch;
        self.load_in_flight = Some(epoch);
        Some((epoch, requests))
    }

    /// Complete the running read: ignored unless `epoch` is the running
    /// reader's; after a reset only the marker is released. Otherwise loaded
    /// tiles with a new bucket pair are added (and appended to the eviction
    /// order), the requested pairs are released, a change of the tile set is a
    /// new revision, and a failed read sets a retry time.
    pub fn finish_globe_read(
        &mut self,
        epoch: u64,
        requests: &[(TileKey, FocusContourAsset)],
        loaded: Option<Vec<(TileKey, Vec<P>)>>,
        now: u64,
    )
        requires
            loaded is None ==> now <= u64::MAX - CONTOUR_READ_RETRY_DELAY_MS,
        ensures
            old(self).well_keyed() && old(self).order_lists_tiles() ==> final(self).order_lists_tiles(),
            old(self).well_keyed() ==> final(self).well_keyed(),
            globe_finish_outcome(*old(self), *final(self), epoch, requests@, loaded, now),
    {
        match self.load_in_flight {
            Some(e) => {
                if e != epoch {
                    return;
                }
            },
            None => {
                return;
            },
        }
        if self.load_epoch != epoch {
            self.load_in_flight = None;
            return;
        }
        let read_failed: bool = loaded.is_none();
        let ghost start = globe_entries(self.tiles@);
        let ghost start_order = self.order@;
        let ghost n_old = self.tiles@.len();
        let ghost added = if loaded is Some {
            globe_loaded(loaded.unwrap()@)
        } else {
            Seq::empty()
        };
        let old_len: usize = self.tiles.len();
        let mut tiles: Vec<((i32, i32), Arc<Vec<P>>)> = Vec::new();
        std::mem::swap(&mut self.tiles, &mut tiles);
        let mut order: Vec<(i32, i32)> = Vec::new();
        std::mem::swap(&mut self.order, &mut order);
        if let Some(mut batch) = loaded {
            let ghost all = globe_loaded(batch@);
            let batch_len: usize = batch.len();
            let mut taken: usize = 0;
            while batch.len() > 0
                invariant
                    all == added,
                    all.len() <= usize::MAX,
                    taken + batch@.len() == all.len(),
                    globe_loaded(batch@) == all.skip(taken as int),
                    globe_entries(tiles@) == globe_insert_absent(start, all.take(taken as int)),
                    globe_entries(tiles@).len() >= n_old,
                    globe_entries(tiles@).take(n_old as int) == start,
                    order@ == start_order + Seq::new(
                        (tiles@.len() - n_old) as nat,
                        |i: int| tiles@[n_old + i].0,
                    ),
                decreases batch@.len(),
            {
                let ghost rest = batch@;
                let ghost before_order = order@;
                let item = batch.remove(0);
                proof {
                    assert(item == rest[0]);
                    assert(globe_loaded(rest)[0] == all.skip(taken as int)[0]);
                    assert(globe_loaded(batch@) =~= globe_loaded(rest).skip(1));
                    assert(all.take(taken + 1) =~= all.take(taken as int).push(all[taken as int]));
                    lemma_globe_insert_absent_push(start, all.take(taken as int), all[taken as int]);
                    let r = globe_insert_absent(start, all.take(taken as int));
                    assert(forall|i: int| 0 <= i < r.len() ==> #[trigger] r[i].0 == globe_tile_ids(tiles@)[i]);
                }
                let (key, contours) = item;
                let cell: (i32, i32) = (key.lat_bucket, key.lon_bucket);
                assert(all[taken as int] == (cell, contours@));
                if !has_globe_tile(&tiles, cell) {
                    let ghost before = globe_entries(tiles@);
                    tiles.push((cell, Arc::new(contours)));
                    order.push(cell);
                    assert(globe_entries(tiles@) =~= before.push(all[taken as int]));
                    assert(globe_entries(tiles@).take(n_old as int) =~= before.take(n_old as int));
                    assert(order@ =~= start_order + Seq::new(
                        (tiles@.len() - n_old) as nat,
                        |i: int| tiles@[n_old + i].0,
                    ));
                } else {
                    proof {
                        let r = globe_insert_absent(start, all.take(taken as int));
                        let i = choose|i: int| 0 <= i < globe_tile_ids(tiles@).len() && globe_tile_ids(tiles@)[i] == cell;
                        assert(r[i].0 == all[taken as int].0);
                    }
                }
                taken = taken + 1;
            }
            assert(all.take(taken as int) =~= all);
        } else {
            assert(start == globe_insert_absent(start, added));
            assert(order@ =~= start_order + Seq::new(
                (tiles@.len() - n_old) as nat,
                |i: int| tiles@[n_old + i].0,
            ));
        }
        proof {
            let ins = globe_insert_absent(start, added);
            assert(Seq::new((tiles@.len() - n_old) as nat, |i: int| tiles@[n_old + i].0) =~= Seq::new(
                (ins.len() - n_old) as nat,
                |i: int| ins[n_old + i].0,
            ));
        }
        proof {
            if keys_distinct(start) {
                lemma_globe_insert_absent_distinct(start, added);
                if start_order.no_duplicates() && (forall|c: (i32, i32)|
                    #![trigger start_order.contains(c)]
                    start_order.contains(c) <==> cell_listed(start, c)) {
                    lemma_order_after_insert(start, added, start_order);
                }
            }
        }
        self.tiles = tiles;
        self.order = order;
        let ghost claimed = self.in_flight@;
        let ghost removed = request_cells(requests@);
        let mut remaining: Vec<(i32, i32)> = Vec::new();
        let mut i: usize = 0;
        while i < self.in_flight.len()
            invariant
                claimed == self.in_flight@,
                removed == request_cells(requests@),
                i <= self.in_flight@.len(),
                remaining@ == without_cells(claimed.take(i as int), removed),
            decreases self.in_flight@.len() - i,
        {
            proof {
                assert(claimed.take(i + 1) =~= claimed.take(i as int).push(claimed[i as int]));
                lemma_without_cells_push(claimed.take(i as int), claimed[i as int], removed);
            }
            let cell: (i32, i32) = self.in_flight[i];
            if !requested_cell(requests, cell) {
                remaining.push(cell);
            }
            i = i + 1;
        }
        assert(claimed.take(i as int) =~= claimed);
        self.in_flight = remaining;
        if self.tiles.len() != old_len {
            self.mark_tiles_changed();
        }
        self.read_retry_at = if read_failed {
            Some(now + CONTOUR_READ_RETRY_DELAY_MS)
        } else {
            None
        };
        self.load_in_flight = None;
    }

    /// What the globe can show without a new merge: the zoom fallback while
    /// no tile is decoded; the memoized merge while the tile set is unchanged
    /// (or the fallback when that merge is empty); otherwise a rebuild.
    pub fn render_globe_tiles(&self) -> (r: GlobeRender<P>)
        ensures
            r == globe_render_of(*self),
    {
        if self.tiles.len() == 0 {
            return GlobeRender::Show(
                match &self.zoom_fallback {
                    Some(f) => Some(share(f)),
                    None => None,
                },
            );
        }
        let memo_current: bool = match self.merged_revision {
            Some(rev) => rev == self.tiles_revision,
            None => false,
        };
        if memo_current {
            if let Some(m) = &self.merged {
                if m.len() == 0 {
                    return GlobeRender::Show(
                        match &self.zoom_fallback {
                            Some(f) => Some(share(f)),
                            None => None,
                        },
                    );
                } else {
                    return GlobeRender::Show(Some(share(m)));
                }
            }
        }
        GlobeRender::Rebuild
    }

    /// Memoize a freshly built merge for the current tile revision and return
    /// what to show: the fallback when the merge is empty; otherwise the merge,
    /// whose arrival retires the fallback.
    pub fn publish_globe_merge(&mut self, merged: Vec<P>) -> (r: Option<Arc<Vec<P>>>)
        ensures
            old(self).order_lists_tiles() ==> final(self).order_lists_tiles(),
            old(self).well_keyed() ==> final(self).well_keyed(),
            publish_outcome(*old(self), *final(self), merged@, r),
    {
        let empty: bool = merged.len() == 0;
        let shared_merge = Arc::new(merged);
        self.merged = Some(share(&shared_merge));
        self.merged_revision = Some(self.tiles_revision);
        if empty {
            return match &self.zoom_fallback {
                Some(f) => Some(share(f)),
                None => None,
            };
        }
        self.zoom_fallback = None;
        Some(shared_merge)
    }
}

} // verus!

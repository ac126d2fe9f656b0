//! Bookkeeping of the GPU contour passes: single-flight instance builds per
//! layer and per tile, vertex-buffer splitting, uniform slots and palette keys.
use crate::shared::share;
use std::sync::Arc;
use vstd::prelude::*;

verus! {

/// Identifies a globe contour layer; each owns one uniform slot.
#[derive(Clone, Copy, PartialEq, Eq, Debug)]
pub enum ContourLayer {
    GlobalTopo,
    SrtmGlobe,
    Coastlines,
    Bathymetry,
    LunarTopo,
    MarsTopo,
}

impl ContourLayer {
    /// The layer's uniform-buffer slot, 0 to 5 in declaration order.
    pub fn slot(self) -> (r: u32)
        ensures
            r == match self {
                ContourLayer::GlobalTopo => 0u32,
                ContourLayer::SrtmGlobe => 1u32,
                ContourLayer::Coastlines => 2u32,
                ContourLayer::Bathymetry => 3u32,
                ContourLayer::LunarTopo => 4u32,
                ContourLayer::MarsTopo => 5u32,
            },
    {
        match self {
            ContourLayer::GlobalTopo => 0,
            ContourLayer::SrtmGlobe => 1,
            ContourLayer::Coastlines => 2,
            ContourLayer::Bathymetry => 3,
            ContourLayer::LunarTopo => 4,
            ContourLayer::MarsTopo => 5,
        }
    }
}

/// The two passes of the local contour renderer; each owns one uniform slot.
#[derive(Clone, Copy, PartialEq, Eq, Debug)]
pub enum LocalContourPass {
    /// Drawn before the elevation fill.
    Background,
    /// Drawn after the fill.
    Surface,
}

impl LocalContourPass {
    /// The pass's uniform-buffer slot.
    pub fn slot(self) -> (r: u32)
        ensures
            r == match self {
                LocalContourPass::Background => 0u32,
                LocalContourPass::Surface => 1u32,
            },
    {
        match self {
            LocalContourPass::Background => 0,
            LocalContourPass::Surface => 1,
        }
    }
}

/// The little-endian value of four bytes.
pub open spec fn le_u32(b: [u8; 4]) -> int {
    b[0] + b[1] * 0x100 + b[2] * 0x1_0000 + b[3] * 0x100_0000
}

/// Pack two RGBA colours into one palette key: the major colour's
/// little-endian word in the high half, the minor colour's in the low half.
pub fn palette_key(major: [u8; 4], minor: [u8; 4]) -> (r: u64)
    ensures
        r == le_u32(major) * 0x1_0000_0000 + le_u32(minor),
{
    let hi: u64 = major[0] as u64 + major[1] as u64 * 0x100 + major[2] as u64 * 0x1_0000
        + major[3] as u64 * 0x100_0000;
    let lo: u64 = minor[0] as u64 + minor[1] as u64 * 0x100 + minor[2] as u64 * 0x1_0000
        + minor[3] as u64 * 0x100_0000;
    hi * 0x1_0000_0000 + lo
}

/// Headroom kept below a device's buffer limit, in bytes.
pub const BUFFER_HEADROOM: usize = 0x10_0000;

/// How many instances of `stride` bytes fit in one vertex buffer: the limit
/// (cast to `usize`) less one megabyte of headroom, divided by the stride
/// (taken as at least one), and never fewer than one.
pub open spec fn per_buffer(max_buffer_size: u64, stride: usize) -> int {
    let stride = if stride == 0 { 1 } else { stride as int };
    let limit = max_buffer_size as usize as int;
    let budget = if limit > BUFFER_HEADROOM { limit - BUFFER_HEADROOM } else { 0 };
    let n = budget / stride;
    if n == 0 { 1 } else { n }
}

/// How many instances of `stride` bytes fit in one vertex buffer.
pub fn instances_per_buffer(max_buffer_size: u64, stride: usize) -> (r: usize)
    ensures
        r == per_buffer(max_buffer_size, stride),
        r >= 1,
{
    let stride: usize = if stride == 0 { 1 } else { stride };
    let limit: usize = #[verifier::truncate] (max_buffer_size as usize);
    let budget: usize = limit.saturating_sub(BUFFER_HEADROOM);
    let n: usize = budget / stride;
    if n == 0 { 1 } else { n }
}

/// The sizes of the consecutive chunks that `count` instances split into,
/// `per` at most in each (`per` at least one).
pub open spec fn chunk_sizes(count: nat, per: nat) -> Seq<nat>
    decreases count,
{
    if count == 0 || per == 0 {
        Seq::empty()
    } else if count <= per {
        seq![count]
    } else {
        seq![per] + chunk_sizes((count - per) as nat, per)
    }
}

/// Split `count` instances into vertex-buffer chunks of at most `per_buffer`
/// instances each, in order: every chunk but the last is full.
pub fn split_counts(count: usize, per_buffer: usize) -> (r: Vec<usize>)
    requires
        per_buffer >= 1,
    ensures
        r@.map_values(|c: usize| c as nat) == chunk_sizes(count as nat, per_buffer as nat),
{
    let mut out: Vec<usize> = Vec::new();
    let mut left: usize = count;
    while left > 0
        invariant
            per_buffer >= 1,
            left <= count,
            out@.map_values(|c: usize| c as nat) + chunk_sizes(left as nat, per_buffer as nat)
                == chunk_sizes(count as nat, per_buffer as nat),
        decreases left,
    {
        let ghost before = out@;
        let take: usize = if left < per_buffer { left } else { per_buffer };
        out.push(take);
        proof {
            let rest = chunk_sizes((left - take) as nat, per_buffer as nat);
            if left <= per_buffer {
                assert(chunk_sizes(0, per_buffer as nat) =~= Seq::<nat>::empty());
            }
            assert(chunk_sizes(left as nat, per_buffer as nat) =~= seq![take as nat] + rest);
            assert(out@.map_values(|c: usize| c as nat) =~= before.map_values(|c: usize| c as nat).push(take as nat));
            assert(out@.map_values(|c: usize| c as nat) + rest =~= before.map_values(|c: usize| c as nat) + (seq![take as nat] + rest));
        }
        left = left - take;
    }
    assert(chunk_sizes(0, per_buffer as nat) =~= Seq::<nat>::empty());
    assert(out@.map_values(|c: usize| c as nat) + Seq::<nat>::empty() =~= out@.map_values(|c: usize| c as nat));
    out
}

/// The built instance set of one globe layer and the version being built.
pub struct LayerInstances<I> {
    /// Last fully built set, served even while stale.
    pub current: Option<(u64, Arc<Vec<I>>)>,
    /// Version a background build is producing, at most one.
    pub building: Option<u64>,
}

impl<I> LayerInstances<I> {
    /// Nothing built, nothing building.
    pub fn new() -> (r: LayerInstances<I>)
        ensures
            r.current is None,
            r.building is None,
    {
        LayerInstances { current: None, building: None }
    }
}

/// End the running instance build of `version`. When another version (or
/// none) is running, the entry is left as it is and the answer is `false`.
/// Otherwise the answer is `true`: the build flag clears, and the instances, if the
/// build produced any, are installed for `version`; without them the
/// previous instances stay.
pub fn complete_instance_build<I>(entry: &mut LayerInstances<I>, version: u64, built: Option<Vec<I>>) -> (r: bool)
    ensures
        r == (old(entry).building == Some(version)),
        !r ==> *final(entry) == *old(entry),
        r ==> final(entry).building is None,
        r ==> match built {
            Some(b) => final(entry).current matches Some((v, built_set)) && v == version && built_set@ == b@,
            None => final(entry).current == old(entry).current,
        },
{
    match entry.building {
        Some(b) => {
            if b != version {
                return false;
            }
        },
        None => {
            return false;
        },
    }
    entry.building = None;
    if let Some(built) = built {
        entry.current = Some((version, Arc::new(built)));
    }
    true
}

/// What a paint frame gets for a layer, and whether it must start a build.
pub struct InstanceLookup<I> {
    pub instances: Option<(u64, Arc<Vec<I>>)>,
    pub start_build: bool,
}

/// Look up a layer's instances for `version`: the current set when it is
/// that version; otherwise the stale current set, and, unless a build is
/// already in flight, a new build of `version` is marked and must start.
pub fn request_instances<I>(entry: &mut LayerInstances<I>, version: u64) -> (r: InstanceLookup<I>)
    ensures
        r.instances == old(entry).current,
        (old(entry).current matches Some((v, _)) && v == version) ==> !r.start_build && *final(entry) == *old(entry),
        !(old(entry).current matches Some((v, _)) && v == version) ==> {
            &&& r.start_build == (old(entry).building is None)
            &&& final(entry).current == old(entry).current
            &&& final(entry).building == (if r.start_build {
                Some(version)
            } else {
                old(entry).building
            })
        },
{
    let current = match &entry.current {
        Some((v, built_set)) => Some((*v, share(built_set))),
        None => None,
    };
    let up_to_date: bool = match &entry.current {
        Some((v, _)) => *v == version,
        None => false,
    };
    if up_to_date {
        return InstanceLookup { instances: current, start_build: false };
    }
    let start_build: bool = entry.building.is_none();
    if start_build {
        entry.building = Some(version);
    }
    InstanceLookup { instances: current, start_build }
}

/// Release the build gate when a build could not be started.
pub fn abandon_instance_build<I>(entry: &mut LayerInstances<I>)
    ensures
        final(entry).building is None,
        final(entry).current == old(entry).current,
{
    entry.building = None;
}

/// Identity of one local contour tile.
#[derive(Clone, Copy, PartialEq, Eq, Structural, Debug)]
pub struct LocalTileId {
    pub zoom_bucket: i32,
    pub lat_bucket: i32,
    pub lon_bucket: i32,
}

/// What a paint frame gets for one local tile.
pub enum TileInstanceLookup<I> {
    /// The tile's instances for the requested version.
    Ready(u64, Arc<Vec<I>>),
    /// The requested version is already being built.
    Pending,
    /// A build of the requested version was just claimed and must start.
    StartBuild,
}

/// Look up one local tile's instances for `version`: ready when the current
/// set is that version; pending when that version is already building;
/// otherwise that version's build is claimed (replacing any other version's
/// claim).
pub fn request_tile_instances<I>(entry: &mut LayerInstances<I>, version: u64) -> (r: TileInstanceLookup<I>)
    ensures
        old(entry).current matches Some((v, built_set)) ==> (v == version ==> (r matches TileInstanceLookup::Ready(
            rv,
            rset,
        ) && rv == version && rset == built_set && *final(entry) == *old(entry))),
        !(old(entry).current matches Some((v, _)) && v == version) && old(entry).building == Some(
            version,
        ) ==> (r is Pending && *final(entry) == *old(entry)),
        !(old(entry).current matches Some((v, _)) && v == version) && old(entry).building != Some(
            version,
        ) ==> (r is StartBuild && final(entry).building == Some(version) && final(entry).current
            == old(entry).current),
{
    match &entry.current {
        Some((v, built_set)) => {
            if *v == version {
                return TileInstanceLookup::Ready(version, share(built_set));
            }
        },
        None => {},
    }
    match entry.building {
        Some(b) => {
            if b == version {
                return TileInstanceLookup::Pending;
            }
        },
        None => {},
    }
    entry.building = Some(version);
    TileInstanceLookup::StartBuild
}

/// End a local tile's instance build: the build flag always clears; the instances,
/// if the build produced any, are installed for `version`; without them the
/// previous instances stay.
pub fn complete_tile_build<I>(entry: &mut LayerInstances<I>, version: u64, built: Option<Vec<I>>)
    ensures
        final(entry).building is None,
        match built {
            Some(b) => final(entry).current matches Some((v, built_set)) && v == version && built_set@ == b@,
            None => final(entry).current == old(entry).current,
        },
{
    entry.building = None;
    if let Some(built) = built {
        entry.current = Some((version, Arc::new(built)));
    }
}

} // verus!

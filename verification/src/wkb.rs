//! GeoPackage geometry blobs and the subset of Well-Known Binary that the
//! contour caches store: `LineString` and `MultiLineString` of XY points.
use vstd::prelude::*;

verus! {

/// One WKB point exactly as stored: the IEEE-754 binary64 bit patterns of its
/// x ordinate (longitude) and y ordinate (latitude).
#[derive(Clone, Copy, PartialEq, Eq, Debug)]
pub struct RawPoint {
    pub lon_bits: u64,
    pub lat_bits: u64,
}

/// The unsigned 32-bit integer stored in `s[p..p + 4]`, in the given byte order.
pub open spec fn u32_value(s: Seq<u8>, p: int, little: bool) -> int {
    if little {
        s[p] + s[p + 1] * 0x100 + s[p + 2] * 0x1_0000 + s[p + 3] * 0x100_0000
    } else {
        s[p + 3] + s[p + 2] * 0x100 + s[p + 1] * 0x1_0000 + s[p] * 0x100_0000
    }
}

/// The unsigned 64-bit integer stored in `s[p..p + 8]`, in the given byte order.
pub open spec fn u64_value(s: Seq<u8>, p: int, little: bool) -> int {
    if little {
        s[p] + s[p + 1] * 0x100 + s[p + 2] * 0x1_0000 + s[p + 3] * 0x100_0000 + s[p + 4]
            * 0x1_0000_0000 + s[p + 5] * 0x100_0000_0000 + s[p + 6] * 0x1_0000_0000_0000 + s[p
            + 7] * 0x100_0000_0000_0000
    } else {
        s[p + 7] + s[p + 6] * 0x100 + s[p + 5] * 0x1_0000 + s[p + 4] * 0x100_0000 + s[p + 3]
            * 0x1_0000_0000 + s[p + 2] * 0x100_0000_0000 + s[p + 1] * 0x1_0000_0000_0000 + s[p]
            * 0x100_0000_0000_0000
    }
}

/// Reading four bytes at `p`: the value, or nothing when they run past the end.
pub open spec fn read_u32_at(s: Seq<u8>, p: int, little: bool) -> Option<u32> {
    if 0 <= p && p + 4 <= s.len() {
        Some(u32_value(s, p, little) as u32)
    } else {
        None
    }
}

/// The point whose two ordinates start at byte `q`.
pub open spec fn point_at(s: Seq<u8>, q: int, little: bool) -> RawPoint {
    RawPoint {
        lon_bits: u64_value(s, q, little) as u64,
        lat_bits: u64_value(s, q + 8, little) as u64,
    }
}

/// The body of a `LineString` at `p` (point count, then the points): the points
/// and the offset just past them, or nothing when the stated count cannot fit
/// in the bytes that follow.
pub open spec fn linestring_at(s: Seq<u8>, p: int, little: bool) -> Option<(Seq<RawPoint>, int)> {
    match read_u32_at(s, p, little) {
        None => None,
        Some(count) => {
            let q = p + 4;
            if count * 16 > s.len() - q {
                None
            } else {
                Some((Seq::new(count as nat, |i: int| point_at(s, q + 16 * i, little)), q + 16 * count))
            }
        },
    }
}

/// A complete WKB `LineString` at `p` (byte-order marker, type, body). Any type
/// other than a `LineString` (modulo the Z/M/ZM type offsets) is refused.
pub open spec fn wkb_linestring_at(s: Seq<u8>, p: int) -> Option<(Seq<RawPoint>, int)> {
    if p < 0 || p >= s.len() {
        None
    } else {
        let little = s[p] == 1;
        match read_u32_at(s, p + 1, little) {
            None => None,
            Some(geom_type) => if geom_type % 1000 != 2 {
                None
            } else {
                linestring_at(s, p + 5, little)
            },
        }
    }
}

/// `n` consecutive WKB `LineString`s starting at `p`.
pub open spec fn linestrings_at(s: Seq<u8>, p: int, n: nat) -> Option<(Seq<Seq<RawPoint>>, int)>
    decreases n,
{
    if n == 0 {
        Some((Seq::empty(), p))
    } else {
        match linestrings_at(s, p, (n - 1) as nat) {
            None => None,
            Some((lines, q)) => match wkb_linestring_at(s, q) {
                None => None,
                Some((points, r)) => Some((lines.push(points), r)),
            },
        }
    }
}

/// The lines of the WKB geometry at `p`: one line for a `LineString`, each
/// direct child for a `MultiLineString`, nothing for anything else or for
/// truncated input. A `MultiLineString` whose child count cannot fit in the
/// remaining bytes (each child needs at least nine) is refused outright.
pub open spec fn geometry_at(s: Seq<u8>, p: int) -> Option<Seq<Seq<RawPoint>>> {
    if p < 0 || p >= s.len() {
        None
    } else {
        let little = s[p] == 1;
        match read_u32_at(s, p + 1, little) {
            None => None,
            Some(geom_type) => {
                let base = geom_type % 1000;
                if base == 2 {
                    match linestring_at(s, p + 5, little) {
                        None => None,
                        Some((points, _)) => Some(seq![points]),
                    }
                } else if base == 5 {
                    match read_u32_at(s, p + 5, little) {
                        None => None,
                        Some(count) => {
                            let q = p + 9;
                            if count * 9 > s.len() - q {
                                None
                            } else {
                                match linestrings_at(s, q, count as nat) {
                                    None => None,
                                    Some((lines, _)) => Some(lines),
                                }
                            }
                        },
                    }
                } else {
                    None
                }
            },
        }
    }
}

/// The lines of a whole WKB buffer.
pub open spec fn wkb_geometry(s: Seq<u8>) -> Option<Seq<Seq<RawPoint>>> {
    geometry_at(s, 0)
}

/// Length of the GeoPackage envelope selected by the indicator in bits 1..3 of
/// the header flags byte.
pub open spec fn envelope_len(flags: u8) -> int {
    let indicator = (flags / 2) % 8;
    if indicator == 1 {
        32
    } else if indicator == 2 || indicator == 3 {
        48
    } else if indicator == 4 {
        64
    } else {
        0
    }
}

/// Total GeoPackage header length: eight fixed bytes plus the envelope.
pub open spec fn gpkg_header_len(blob: Seq<u8>) -> int {
    8 + envelope_len(blob[3])
}

/// A blob starts with the GeoPackage magic `GP` and holds the full fixed header.
pub open spec fn is_gpkg_blob(blob: Seq<u8>) -> bool {
    blob.len() >= 8 && blob[0] == 0x47 && blob[1] == 0x50
}

/// The lines of a GeoPackage geometry blob: those of the WKB geometry after its
/// header, and none for a blob without the magic, one that ends inside its
/// header, or one whose WKB cannot be decoded.
pub open spec fn gpkg_lines(blob: Seq<u8>) -> Seq<Seq<RawPoint>> {
    if !is_gpkg_blob(blob) || blob.len() <= gpkg_header_len(blob) {
        Seq::empty()
    } else {
        match geometry_at(blob, gpkg_header_len(blob)) {
            Some(lines) => lines,
            None => Seq::empty(),
        }
    }
}

/// The views of a vector of decoded lines.
pub open spec fn lines_view(v: Seq<Vec<RawPoint>>) -> Seq<Seq<RawPoint>> {
    Seq::new(v.len(), |i: int| v[i]@)
}

proof fn lemma_u32_value_bounds(s: Seq<u8>, p: int, little: bool)
    requires
        0 <= p,
        p + 4 <= s.len(),
    ensures
        0 <= u32_value(s, p, little) <= u32::MAX,
{
}

proof fn lemma_u64_value_bounds(s: Seq<u8>, p: int, little: bool)
    requires
        0 <= p,
        p + 8 <= s.len(),
    ensures
        0 <= u64_value(s, p, little) <= u64::MAX,
{
}

/// Read a 32-bit unsigned integer at `*cursor` and advance past it.
pub fn read_u32(bytes: &[u8], cursor: &mut usize, little: bool) -> (res: Option<u32>)
    ensures
        res == read_u32_at(bytes@, *old(cursor) as int, little),
        res is Some ==> *final(cursor) == *old(cursor) + 4,
        res is None ==> *final(cursor) == *old(cursor),
{
    let start: usize = *cursor;
    if start > bytes.len() || bytes.len() - start < 4 {
        return None;
    }
    proof {
        lemma_u32_value_bounds(bytes@, start as int, little);
    }
    let b0: u32 = bytes[start] as u32;
    let b1: u32 = bytes[start + 1] as u32;
    let b2: u32 = bytes[start + 2] as u32;
    let b3: u32 = bytes[start + 3] as u32;
    let value: u32 = if little {
        b0 + b1 * 0x100 + b2 * 0x1_0000 + b3 * 0x100_0000
    } else {
        b3 + b2 * 0x100 + b1 * 0x1_0000 + b0 * 0x100_0000
    };
    *cursor = start + 4;
    Some(value)
}

/// Read a 64-bit unsigned integer at `*cursor` and advance past it. The WKB
/// ordinates are binary64 values; this yields their bit patterns.
fn read_u64(bytes: &[u8], cursor: &mut usize, little: bool) -> (res: Option<u64>)
    ensures
        *old(cursor) + 8 <= bytes@.len() ==> res == Some(u64_value(bytes@, *old(cursor) as int, little) as u64)
            && *final(cursor) == *old(cursor) + 8,
        *old(cursor) + 8 > bytes@.len() ==> res is None && *final(cursor) == *old(cursor),
{
    let start: usize = *cursor;
    if start > bytes.len() || bytes.len() - start < 8 {
        return None;
    }
    proof {
        lemma_u64_value_bounds(bytes@, start as int, little);
    }
    let b0: u64 = bytes[start] as u64;
    let b1: u64 = bytes[start + 1] as u64;
    let b2: u64 = bytes[start + 2] as u64;
    let b3: u64 = bytes[start + 3] as u64;
    let b4: u64 = bytes[start + 4] as u64;
    let b5: u64 = bytes[start + 5] as u64;
    let b6: u64 = bytes[start + 6] as u64;
    let b7: u64 = bytes[start + 7] as u64;
    let value: u64 = if little {
        b0 + b1 * 0x100 + b2 * 0x1_0000 + b3 * 0x100_0000 + b4 * 0x1_0000_0000 + b5
            * 0x100_0000_0000 + b6 * 0x1_0000_0000_0000 + b7 * 0x100_0000_0000_0000
    } else {
        b7 + b6 * 0x100 + b5 * 0x1_0000 + b4 * 0x100_0000 + b3 * 0x1_0000_0000 + b2
            * 0x100_0000_0000 + b1 * 0x1_0000_0000_0000 + b0 * 0x100_0000_0000_0000
    };
    *cursor = start + 8;
    Some(value)
}

/// Parse a `LineString` body (count and points) at `*cursor`. A count that
/// cannot fit in the remaining bytes is refused before any allocation.
pub fn parse_linestring(wkb: &[u8], cursor: &mut usize, little: bool) -> (res: Option<Vec<RawPoint>>)
    ensures
        match linestring_at(wkb@, *old(cursor) as int, little) {
            None => res is None,
            Some((points, end)) => res matches Some(v) && v@ == points && *final(cursor) == end,
        },
{
    let ghost s = wkb@;
    let ghost p = *old(cursor) as int;
    let count: u32 = match read_u32(wkb, cursor, little) {
        Some(c) => c,
        None => return None,
    };
    let q: usize = *cursor;
    if count as usize > (wkb.len() - q) / 16 {
        return None;
    }
    let n: usize = count as usize;
    assert(n * 16 <= wkb.len() - q);
    let mut points: Vec<RawPoint> = Vec::with_capacity(n);
    let mut i: usize = 0;
    while i < n
        invariant
            s == wkb@,
            q == p + 4,
            n == count,
            n * 16 <= s.len() - q,
            i <= n,
            *cursor == q + 16 * i,
            points@ =~= Seq::new(i as nat, |j: int| point_at(s, q + 16 * j, little)),
        decreases n - i,
    {
        let lon: u64 = match read_u64(wkb, cursor, little) {
            Some(v) => v,
            None => return None,
        };
        let lat: u64 = match read_u64(wkb, cursor, little) {
            Some(v) => v,
            None => return None,
        };
        points.push(RawPoint { lon_bits: lon, lat_bits: lat });
        i = i + 1;
    }
    Some(points)
}

/// Parse one direct child of a `MultiLineString`. Only a `LineString` is
/// accepted, so nested collections are refused without recursing.
pub fn parse_wkb_linestring(wkb: &[u8], cursor: &mut usize) -> (res: Option<Vec<RawPoint>>)
    ensures
        match wkb_linestring_at(wkb@, *old(cursor) as int) {
            None => res is None,
            Some((points, end)) => res matches Some(v) && v@ == points && *final(cursor) == end,
        },
{
    let start: usize = *cursor;
    if start >= wkb.len() {
        return None;
    }
    let endian: u8 = wkb[start];
    *cursor = start + 1;
    let little: bool = endian == 1;
    let geom_type: u32 = match read_u32(wkb, cursor, little) {
        Some(t) => t,
        None => return None,
    };
    if geom_type % 1000 != 2 {
        return None;
    }
    parse_linestring(wkb, cursor, little)
}

/// Parse the WKB geometry that starts at byte `start`.
fn parse_wkb_geometry_from(wkb: &[u8], start: usize) -> (res: Option<Vec<Vec<RawPoint>>>)
    ensures
        match geometry_at(wkb@, start as int) {
            None => res is None,
            Some(lines) => res matches Some(v) && lines_view(v@) == lines,
        },
{
    let ghost s = wkb@;
    if start >= wkb.len() {
        return None;
    }
    let endian: u8 = wkb[start];
    let mut cursor: usize = start + 1;
    let little: bool = endian == 1;
    let geom_type: u32 = match read_u32(wkb, &mut cursor, little) {
        Some(t) => t,
        None => return None,
    };
    let base_type: u32 = geom_type % 1000;
    if base_type == 2 {
        match parse_linestring(wkb, &mut cursor, little) {
            Some(points) => {
                let mut lines: Vec<Vec<RawPoint>> = Vec::new();
                lines.push(points);
                assert(lines_view(lines@) =~= seq![lines@[0]@]);
                Some(lines)
            },
            None => None,
        }
    } else if base_type == 5 {
        let count: u32 = match read_u32(wkb, &mut cursor, little) {
            Some(c) => c,
            None => return None,
        };
        let q: usize = cursor;
        if count as usize > (wkb.len() - q) / 9 {
            return None;
        }
        let n: usize = count as usize;
        let mut lines: Vec<Vec<RawPoint>> = Vec::with_capacity(n);
        let mut i: usize = 0;
        while i < n
            invariant
                s == wkb@,
                n == count,
                q == start + 9,
                i <= n,
                lines@.len() == i,
                geometry_at(s, start as int) == match linestrings_at(s, q as int, n as nat) {
                    None => None,
                    Some((all, _)) => Some(all),
                },
                linestrings_at(s, q as int, i as nat) == Some((lines_view(lines@), cursor as int)),
            decreases n - i,
        {
            let ghost before = lines@;
            let ghost at = cursor as int;
            match parse_wkb_linestring(wkb, &mut cursor) {
                Some(points) => {
                    lines.push(points);
                    proof {
                        assert(lines_view(lines@) =~= lines_view(before).push(lines@[i as int]@));
                        lemma_linestrings_step(s, q as int, i as nat, lines_view(before), at);
                    }
                },
                None => {
                    proof {
                        lemma_linestrings_step(s, q as int, i as nat, lines_view(before), at);
                        lemma_linestrings_fail_persists(s, q as int, (i + 1) as nat, n as nat);
                    }
                    return None;
                },
            }
            i = i + 1;
        }
        Some(lines)
    } else {
        None
    }
}

proof fn lemma_linestrings_step(s: Seq<u8>, p: int, k: nat, lines: Seq<Seq<RawPoint>>, at: int)
    requires
        linestrings_at(s, p, k) == Some((lines, at)),
    ensures
        linestrings_at(s, p, k + 1) == match wkb_linestring_at(s, at) {
            None => None,
            Some((points, r)) => Some((lines.push(points), r)),
        },
{
}

/// Once a child fails, every longer run of children fails too.
proof fn lemma_linestrings_fail_persists(s: Seq<u8>, p: int, k: nat, n: nat)
    requires
        k <= n,
        linestrings_at(s, p, k) is None,
    ensures
        linestrings_at(s, p, n) is None,
    decreases n - k,
{
    if k < n {
        lemma_linestrings_fail_persists(s, p, k + 1, n);
    }
}

/// Decode a WKB `LineString` or `MultiLineString` into its lines of points.
pub fn parse_wkb_geometry(wkb: &[u8]) -> (res: Option<Vec<Vec<RawPoint>>>)
    ensures
        match wkb_geometry(wkb@) {
            None => res is None,
            Some(lines) => res matches Some(v) && lines_view(v@) == lines,
        },
{
    parse_wkb_geometry_from(wkb, 0)
}

/// Decode the lines of a GeoPackage geometry blob; anything undecodable yields
/// no lines.
pub fn parse_gpkg_lines(blob: &[u8]) -> (res: Vec<Vec<RawPoint>>)
    ensures
        lines_view(res@) == gpkg_lines(blob@),
{
    if blob.len() < 8 || blob[0] != 0x47 || blob[1] != 0x50 {
        let empty: Vec<Vec<RawPoint>> = Vec::new();
        assert(lines_view(empty@) =~= Seq::<Seq<RawPoint>>::empty());
        return empty;
    }
    let flags: u8 = blob[3];
    let indicator: u8 = (flags / 2) % 8;
    let envelope: usize = if indicator == 1 {
        32
    } else if indicator == 2 || indicator == 3 {
        48
    } else if indicator == 4 {
        64
    } else {
        0
    };
    let header_len: usize = 8 + envelope;
    if blob.len() <= header_len {
        let empty: Vec<Vec<RawPoint>> = Vec::new();
        assert(lines_view(empty@) =~= Seq::<Seq<RawPoint>>::empty());
        return empty;
    }
    match parse_wkb_geometry_from(blob, header_len) {
        Some(lines) => lines,
        None => {
            let empty: Vec<Vec<RawPoint>> = Vec::new();
            assert(lines_view(empty@) =~= Seq::<Seq<RawPoint>>::empty());
            empty
        },
    }
}

} // verus!

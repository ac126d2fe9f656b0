//! Geographic points carried as IEEE-754 binary32 bit patterns, their
//! floating-point equality, and the contour polyline thinning.
use vstd::prelude::*;

verus! {

/// A latitude/longitude pair, each held as the bit pattern of an `f32`.
#[derive(Clone, Copy, PartialEq, Eq, Debug)]
pub struct PointBits {
    pub lat_bits: u32,
    pub lon_bits: u32,
}

/// The pattern encodes a NaN: all exponent bits set and a non-zero fraction.
pub open spec fn f32_is_nan(b: u32) -> bool {
    (b / 0x80_0000) % 0x100 == 0xff && b % 0x80_0000 != 0
}

/// The pattern encodes +0.0 or -0.0.
pub open spec fn f32_is_zero(b: u32) -> bool {
    b % 0x8000_0000 == 0
}

/// IEEE-754 equality of two binary32 values given by their patterns: never
/// true of a NaN, true of the two zeros, otherwise equality of patterns.
pub open spec fn f32_eq(a: u32, b: u32) -> bool {
    !f32_is_nan(a) && !f32_is_nan(b) && (a == b || (f32_is_zero(a) && f32_is_zero(b)))
}

/// Two points compare equal ordinate by ordinate, as `f32` values.
pub open spec fn same_point(a: PointBits, b: PointBits) -> bool {
    f32_eq(a.lat_bits, b.lat_bits) && f32_eq(a.lon_bits, b.lon_bits)
}

/// Compare two binary32 values, given by their bit patterns, as `==` on `f32` does.
pub fn f32_bits_eq(a: u32, b: u32) -> (r: bool)
    ensures
        r == f32_eq(a, b),
{
    let a_nan: bool = (a / 0x80_0000) % 0x100 == 0xff && a % 0x80_0000 != 0;
    let b_nan: bool = (b / 0x80_0000) % 0x100 == 0xff && b % 0x80_0000 != 0;
    !a_nan && !b_nan && (a == b || (a % 0x8000_0000 == 0 && b % 0x8000_0000 == 0))
}

/// Whether the point at index `i` of an `n`-point line survives thinning by `step`.
pub open spec fn keeps_index(i: int, n: int, step: int) -> bool {
    i == 0 || i + 1 == n || i % step == 0
}

/// The points of `s[..k]` that survive thinning, in order.
pub open spec fn thinned_prefix(s: Seq<PointBits>, step: int, k: int) -> Seq<PointBits>
    decreases k,
{
    if k <= 0 {
        Seq::empty()
    } else {
        let t = thinned_prefix(s, step, k - 1);
        if keeps_index(k - 1, s.len() as int, step) {
            t.push(s[k - 1])
        } else {
            t
        }
    }
}

/// Drop every point that equals the last point kept before it.
pub open spec fn dedup_points(t: Seq<PointBits>) -> Seq<PointBits>
    decreases t.len(),
{
    if t.len() == 0 {
        Seq::empty()
    } else {
        let d = dedup_points(t.drop_last());
        if d.len() > 0 && same_point(d.last(), t.last()) {
            d
        } else {
            d.push(t.last())
        }
    }
}

/// The thinned polyline: unchanged when it has at most two points or the step
/// is at most one; otherwise the first point, the last point and every
/// `step`-th point, with consecutive duplicates removed.
pub open spec fn simplified(s: Seq<PointBits>, step: int) -> Seq<PointBits> {
    if s.len() <= 2 || step <= 1 {
        s
    } else {
        dedup_points(thinned_prefix(s, step, s.len() as int))
    }
}

proof fn lemma_dedup_push(t: Seq<PointBits>, x: PointBits)
    ensures
        dedup_points(t.push(x)) == {
            let d = dedup_points(t);
            if d.len() > 0 && same_point(d.last(), x) {
                d
            } else {
                d.push(x)
            }
        },
{
    assert(t.push(x).drop_last() =~= t);
}

/// Thin a contour polyline by `step` (see [`simplified`]).
pub fn simplify_line(points: Vec<PointBits>, step: usize) -> (res: Vec<PointBits>)
    ensures
        res@ == simplified(points@, step as int),
{
    let n: usize = points.len();
    if n <= 2 || step <= 1 {
        return points;
    }
    let ghost s = points@;
    let mut out: Vec<PointBits> = Vec::new();
    let mut i: usize = 0;
    while i < n
        invariant
            s == points@,
            n == s.len(),
            step > 1,
            i <= n,
            out@ == dedup_points(thinned_prefix(s, step as int, i as int)),
        decreases n - i,
    {
        if i == 0 || i + 1 == n || i % step == 0 {
            let p: PointBits = points[i];
            proof {
                lemma_dedup_push(thinned_prefix(s, step as int, i as int), p);
            }
            let len: usize = out.len();
            let duplicate: bool = len > 0 && f32_bits_eq(out[len - 1].lat_bits, p.lat_bits)
                && f32_bits_eq(out[len - 1].lon_bits, p.lon_bits);
            if !duplicate {
                out.push(p);
            }
        }
        i = i + 1;
    }
    out
}

} // verus!

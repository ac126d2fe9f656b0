//! GEBCO depth rasters: decoding raw Int16 samples, the 1440x720 depth grid
//! and its ocean cells, and the 180x90 depth-fill grid with its lookup cache.
use crate::shared::share;
use std::sync::Arc;
use vstd::prelude::*;
use vstd::string::StringSliceAdditionalSpecFns;

verus! {

/// Width of the downsampled depth grid, in samples.
pub const GRID_W: usize = 1440;
/// Height of the downsampled depth grid, in samples.
pub const GRID_H: usize = 720;
/// Width of the depth-fill grid (2 degrees per cell).
pub const FILL_W: usize = 180;
/// Height of the depth-fill grid.
pub const FILL_H: usize = 90;
/// GEBCO's nodata sentinel.
pub const NODATA: i16 = -32767;

/// The signed 16-bit value of a low and a high byte (two's complement).
pub open spec fn i16_of(lo: u8, hi: u8) -> int {
    let u = lo + hi * 0x100;
    if u >= 0x8000 { u - 0x1_0000 } else { u }
}

/// The samples of a raw Int16 buffer in the given byte order.
pub open spec fn samples(bytes: Seq<u8>, big_endian: bool) -> Seq<i16> {
    Seq::new(
        bytes.len() / 2,
        |i: int|
            (if big_endian {
                i16_of(bytes[2 * i + 1], bytes[2 * i])
            } else {
                i16_of(bytes[2 * i], bytes[2 * i + 1])
            }) as i16,
    )
}

/// Decode a raw Int16 buffer of exactly `expected_samples` samples; any
/// other length is refused.
pub fn decode_i16_samples(bytes: &[u8], big_endian: bool, expected_samples: usize) -> (r: Option<Vec<i16>>)
    ensures
        r is Some <==> bytes@.len() == 2 * expected_samples,
        r matches Some(v) ==> v@ == samples(bytes@, big_endian),
{
    if bytes.len() / 2 != expected_samples || bytes.len() % 2 != 0 {
        return None;
    }
    let n_bytes: usize = bytes.len();
    let mut out: Vec<i16> = Vec::with_capacity(expected_samples);
    let mut i: usize = 0;
    while i < expected_samples
        invariant
            bytes@.len() == 2 * expected_samples,
            n_bytes == bytes@.len(),
            i <= expected_samples,
            out@ =~= samples(bytes@, big_endian).take(i as int),
        decreases expected_samples - i,
    {
        let (lo, hi): (u8, u8) = if big_endian {
            (bytes[2 * i + 1], bytes[2 * i])
        } else {
            (bytes[2 * i], bytes[2 * i + 1])
        };
        let u: i32 = lo as i32 + hi as i32 * 0x100;
        let v: i16 = if u >= 0x8000 { (u - 0x1_0000) as i16 } else { u as i16 };
        out.push(v);
        i = i + 1;
    }
    assert(samples(bytes@, big_endian).take(i as int) =~= samples(bytes@, big_endian));
    Some(out)
}

/// A sample is ocean: below sea level and not nodata.
pub open spec fn is_ocean(v: i16) -> bool {
    v < 0 && v != NODATA
}

/// The ocean cells `(row, col, depth)` of row `row` among its first `c`
/// columns that are multiples of `step`.
pub open spec fn row_ocean_cells(pixels: Seq<i16>, step: int, row: int, c: int) -> Seq<(u32, u32, i16)>
    decreases c,
{
    if c <= 0 {
        Seq::empty()
    } else {
        let prev = row_ocean_cells(pixels, step, row, c - 1);
        let v = pixels[row * GRID_W + (c - 1)];
        if (c - 1) % step == 0 && is_ocean(v) {
            prev.push((row as u32, (c - 1) as u32, v))
        } else {
            prev
        }
    }
}

/// The ocean cells of the first `r` rows, sampling rows and columns that are
/// multiples of `step`, in row-major order.
pub open spec fn ocean_cells_upto(pixels: Seq<i16>, step: int, r: int) -> Seq<(u32, u32, i16)>
    decreases r,
{
    if r <= 0 {
        Seq::empty()
    } else {
        let prev = ocean_cells_upto(pixels, step, r - 1);
        if (r - 1) % step == 0 {
            prev + row_ocean_cells(pixels, step, r - 1, GRID_W as int)
        } else {
            prev
        }
    }
}

/// The samples of a 16-bit luminance image read back as the Int16 values
/// whose bits they hold.
pub open spec fn luma_as_i16(raw: Seq<u16>) -> Seq<i16> {
    Seq::new(raw.len(), |i: int| (if raw[i] >= 0x8000 { raw[i] - 0x1_0000 } else { raw[i] as int }) as i16)
}

/// Some sample holds a negative Int16 value.
pub open spec fn has_negative_sample(raw: Seq<u16>) -> bool {
    exists|i: int| 0 <= i < raw.len() && raw[i] >= 0x8000
}

/// The 16-bit luminance image (width, height, row-major samples) that a
/// TIFF file decodes to, or nothing when it does not decode.
pub uninterp spec fn tiff_luma16(bytes: Seq<u8>) -> Option<(u32, u32, Seq<u16>)>;

/// Decodes `bytes` as a TIFF with the `image` crate
/// (`load_from_memory_with_format` with `ImageFormat::Tiff`, then
/// `to_luma16`) and returns the width, height and raw samples. The contract
/// only names the result: a decode error gives `None`, a decoded image its
/// dimensions and samples as [`tiff_luma16`] of the same bytes.
#[verifier::external_body]
fn decode_tiff_luma16(bytes: &[u8]) -> (r: Option<(u32, u32, Vec<u16>)>)
    ensures
        match r {
            None => tiff_luma16(bytes@) is None,
            Some((w, h, px)) => tiff_luma16(bytes@) == Some((w, h, px@)),
        },
{
    let image = image::load_from_memory_with_format(bytes, image::ImageFormat::Tiff).ok()?.to_luma16();
    let (width, height) = image.dimensions();
    Some((width, height, image.into_raw()))
}

/// The 1440x720 Int16 depth grid, row-major from +90 degrees latitude and
/// -180 degrees longitude.
pub struct GebcoDepthGrid {
    pixels: Vec<i16>,
}

impl GebcoDepthGrid {
    /// A grid always holds exactly 1440x720 samples.
    #[verifier::type_invariant]
    spec fn full(self) -> bool {
        self.pixels@.len() == GRID_W * GRID_H
    }

    /// The samples, row-major.
    pub closed spec fn pixels(self) -> Seq<i16> {
        self.pixels@
    }

    /// Decode a headerless little-endian Int16 file of exactly 1440x720
    /// samples; any other length is refused.
    pub fn from_raw_int16_le(bytes: &[u8]) -> (r: Option<GebcoDepthGrid>)
        ensures
            r is Some <==> bytes@.len() == 2 * GRID_W * GRID_H,
            r matches Some(g) ==> g.pixels() == samples(bytes@, false),
    {
        match decode_i16_samples(bytes, false, GRID_W * GRID_H) {
            Some(pixels) => Some(GebcoDepthGrid { pixels }),
            None => None,
        }
    }

    /// Build the grid from a decoded 16-bit luminance image whose samples are
    /// the raw Int16 bits. Refused when the image is not 1440x720, and when no
    /// sample is negative (the sign was lost in decoding).
    pub fn from_luma16(width: u32, height: u32, raw: &[u16]) -> (r: Option<GebcoDepthGrid>)
        requires
            raw@.len() == width as int * height as int,
        ensures
            r is Some <==> (width == GRID_W && height == GRID_H && has_negative_sample(raw@)),
            r matches Some(g) ==> g.pixels() == luma_as_i16(raw@),
    {
        if width != GRID_W as u32 || height != GRID_H as u32 {
            return None;
        }
        let mut pixels: Vec<i16> = Vec::with_capacity(raw.len());
        let mut any_negative: bool = false;
        let mut i: usize = 0;
        while i < raw.len()
            invariant
                i <= raw@.len(),
                pixels@ =~= luma_as_i16(raw@).take(i as int),
                any_negative == exists|k: int| 0 <= k < i && raw@[k] >= 0x8000,
            decreases raw@.len() - i,
        {
            let u: u16 = raw[i];
            let v: i16 = if u >= 0x8000 { (u as i32 - 0x1_0000) as i16 } else { u as i16 };
            if u >= 0x8000 {
                any_negative = true;
            }
            pixels.push(v);
            i = i + 1;
        }
        assert(luma_as_i16(raw@).take(raw@.len() as int) =~= luma_as_i16(raw@));
        if !any_negative {
            return None;
        }
        Some(GebcoDepthGrid { pixels })
    }

    /// Decode the depth grid from the bytes of its GeoTIFF: the TIFF is
    /// decoded to 16-bit luminance and then taken as [`Self::from_luma16`]
    /// does; a file that does not decode is refused.
    pub fn from_tiff_bytes(bytes: &[u8]) -> (r: Option<GebcoDepthGrid>)
        ensures
            r is Some <==> (tiff_luma16(bytes@) matches Some((w, h, px)) && w == GRID_W && h == GRID_H
                && px.len() == GRID_W * GRID_H && has_negative_sample(px)),
            r matches Some(g) ==> (tiff_luma16(bytes@) matches Some((w, h, px)) && g.pixels()
                == luma_as_i16(px)),
    {
        let (width, height, raw) = match decode_tiff_luma16(bytes) {
            Some(image) => image,
            None => return None,
        };
        if width != GRID_W as u32 || height != GRID_H as u32 || raw.len() != GRID_W * GRID_H {
            return None;
        }
        GebcoDepthGrid::from_luma16(width, height, raw.as_slice())
    }

    /// The ocean cells `(row, col, depth)` sampled at every `step`-th row and
    /// column (a step of zero counts as one), in row-major order.
    pub fn ocean_cells(&self, step: u32) -> (r: Vec<(u32, u32, i16)>)
        ensures
            r@ == ocean_cells_upto(self.pixels(), if step == 0 { 1 } else { step as int }, GRID_H as int),
    {
        proof {
            use_type_invariant(self);
        }
        let s: usize = if step == 0 { 1 } else { step as usize };
        let ghost px = self.pixels@;
        let mut out: Vec<(u32, u32, i16)> = Vec::new();
        let mut row: usize = 0;
        while row < GRID_H
            invariant
                px == self.pixels@,
                px.len() == GRID_W * GRID_H,
                s >= 1,
                s == (if step == 0 { 1 } else { step as int }),
                row <= GRID_H,
                out@ == ocean_cells_upto(px, s as int, row as int),
            decreases GRID_H - row,
        {
            if row % s == 0 {
                let ghost base = out@;
                let mut col: usize = 0;
                while col < GRID_W
                    invariant
                        px == self.pixels@,
                        px.len() == GRID_W * GRID_H,
                        s >= 1,
                        row < GRID_H,
                        col <= GRID_W,
                        out@ == base + row_ocean_cells(px, s as int, row as int, col as int),
                    decreases GRID_W - col,
                {
                    if col % s == 0 {
                        assert(row * GRID_W + col < GRID_W * GRID_H) by (nonlinear_arith)
                            requires
                                row < GRID_H,
                                col < GRID_W,
                        ;
                        let v: i16 = self.pixels[row * GRID_W + col];
                        if v < 0 && v != NODATA {
                            out.push((row as u32, col as u32, v));
                            assert(out@ =~= base + row_ocean_cells(px, s as int, row as int, col + 1));
                        }
                    }
                    col = col + 1;
                }
            }
            row = row + 1;
        }
        out
    }
}

/// The depth-fill lookup: the cell's depth when it is ocean, otherwise
/// nothing. Indices beyond the grid are clamped to its last row or column.
pub open spec fn fill_depth(pixels: Seq<i16>, row: int, col: int) -> Option<i16> {
    let r = if row > FILL_H - 1 { FILL_H - 1 } else { row };
    let c = if col > FILL_W - 1 { FILL_W - 1 } else { col };
    let v = pixels[r * FILL_W + c];
    if v == NODATA || v >= 0 { None } else { Some(v) }
}

/// The 180x90 depth-fill grid, row-major from +90 degrees and -180 degrees.
pub struct DepthFillGrid {
    pixels: Vec<i16>,
}

impl DepthFillGrid {
    /// A fill grid always holds exactly 180x90 samples.
    #[verifier::type_invariant]
    spec fn full(self) -> bool {
        self.pixels@.len() == FILL_W * FILL_H
    }

    /// The samples, row-major.
    pub closed spec fn pixels(self) -> Seq<i16> {
        self.pixels@
    }

    /// Decode the fill grid's raw Int16 file in the byte order its header
    /// names; any length other than 180x90 samples is refused.
    pub fn decode(bytes: &[u8], big_endian: bool) -> (r: Option<DepthFillGrid>)
        ensures
            r is Some <==> bytes@.len() == 2 * FILL_W * FILL_H,
            r matches Some(g) ==> g.pixels() == samples(bytes@, big_endian),
    {
        match decode_i16_samples(bytes, big_endian, FILL_W * FILL_H) {
            Some(pixels) => Some(DepthFillGrid { pixels }),
            None => None,
        }
    }

    /// The depth at grid cell (`row`, `col`), clamped into the grid.
    pub fn depth_at_cell(&self, row: usize, col: usize) -> (r: Option<i16>)
        ensures
            r == fill_depth(self.pixels(), row as int, col as int),
    {
        proof {
            use_type_invariant(self);
        }
        let c: usize = if col > FILL_W - 1 { FILL_W - 1 } else { col };
        let r: usize = if row > FILL_H - 1 { FILL_H - 1 } else { row };
        assert(r * FILL_W + c < FILL_W * FILL_H) by (nonlinear_arith)
            requires
                r < FILL_H,
                c < FILL_W,
        ;
        let v: i16 = self.pixels[r * FILL_W + c];
        if v == NODATA || v >= 0 {
            None
        } else {
            Some(v)
        }
    }
}

/// The session cache of the depth-fill grid.
pub struct DepthFillCache {
    pub grid: Option<DepthFillGrid>,
}

impl DepthFillCache {
    /// Nothing loaded.
    pub fn new() -> (r: DepthFillCache)
        ensures
            r.grid is None,
    {
        DepthFillCache { grid: None }
    }

    /// Whether the grid is loaded.
    pub fn is_loaded(&self) -> (r: bool)
        ensures
            r == self.grid is Some,
    {
        self.grid.is_some()
    }

    /// Keep the loaded grid, or adopt `loaded` when none is held yet; true
    /// once a grid is held.
    pub fn ensure_loaded(&mut self, loaded: Option<DepthFillGrid>) -> (r: bool)
        ensures
            old(self).grid is Some ==> r && final(self).grid == old(self).grid,
            old(self).grid is None ==> final(self).grid == loaded && r == loaded is Some,
    {
        if self.grid.is_some() {
            return true;
        }
        let ok: bool = loaded.is_some();
        self.grid = loaded;
        ok
    }

    /// Drop the cached grid.
    pub fn clear(&mut self)
        ensures
            final(self).grid is None,
    {
        self.grid = None;
    }

    /// The depth at a grid cell, or nothing while no grid is loaded.
    pub fn depth_at_cell(&self, row: usize, col: usize) -> (r: Option<i16>)
        ensures
            match self.grid {
                None => r is None,
                Some(g) => r == fill_depth(g.pixels(), row as int, col as int),
            },
    {
        match &self.grid {
            Some(g) => g.depth_at_cell(row, col),
            None => None,
        }
    }
}

/// The session cache of the ocean samples at the coarse and fine strides.
pub struct DepthRasterCache<T> {
    pub points: Option<(Arc<Vec<T>>, Arc<Vec<T>>)>,
}

impl<T> DepthRasterCache<T> {
    /// Nothing cached.
    pub fn new() -> (r: DepthRasterCache<T>)
        ensures
            r.points is None,
    {
        DepthRasterCache { points: None }
    }

    /// The cached coarse and fine samples, shared.
    pub fn cached(&self) -> (r: Option<(Arc<Vec<T>>, Arc<Vec<T>>)>)
        ensures
            r == self.points,
    {
        match &self.points {
            Some((coarse, fine)) => Some((share(coarse), share(fine))),
            None => None,
        }
    }

    /// Cache freshly computed samples.
    pub fn store(&mut self, coarse: Arc<Vec<T>>, fine: Arc<Vec<T>>)
        ensures
            final(self).points == Some((coarse, fine)),
    {
        self.points = Some((coarse, fine));
    }

    /// Drop the cached samples.
    pub fn blast_cache(&mut self)
        ensures
            final(self).points is None,
    {
        self.points = None;
    }
}

/// `s` begins with `prefix`.
pub open spec fn starts_with(s: Seq<u8>, prefix: Seq<u8>) -> bool {
    prefix.len() <= s.len() && s.take(prefix.len() as int) == prefix
}

/// `part` occurs in `s` as a contiguous run.
pub open spec fn contains_run(s: Seq<u8>, part: Seq<u8>) -> bool {
    exists|i: int| 0 <= i && i + part.len() <= s.len() && #[trigger] s.subrange(i, i + part.len()) == part
}

/// Whether `s` begins with `prefix`, byte for byte.
pub fn bytes_start_with(s: &[u8], prefix: &[u8]) -> (r: bool)
    ensures
        r == starts_with(s@, prefix@),
{
    if prefix.len() > s.len() {
        return false;
    }
    let mut i: usize = 0;
    while i < prefix.len()
        invariant
            prefix@.len() <= s@.len(),
            i <= prefix@.len(),
            forall|k: int| 0 <= k < i ==> s@[k] == prefix@[k],
        decreases prefix@.len() - i,
    {
        if s[i] != prefix[i] {
            assert(s@.take(prefix@.len() as int)[i as int] != prefix@[i as int]);
            return false;
        }
        i = i + 1;
    }
    assert(s@.take(prefix@.len() as int) =~= prefix@);
    true
}

/// Whether `part` occurs in `s` as a contiguous run.
pub fn bytes_contain(s: &[u8], part: &[u8]) -> (r: bool)
    ensures
        r == contains_run(s@, part@),
{
    if part.len() > s.len() {
        return false;
    }
    if part.len() == 0 {
        assert(s@.subrange(0, 0 + part@.len() as int) =~= part@);
        return true;
    }
    let last: usize = s.len() - part.len();
    let mut i: usize = 0;
    while i <= last
        invariant
            s@.len() <= usize::MAX,
            part@.len() >= 1,
            last == s@.len() - part@.len(),
            i <= last + 1,
            forall|k: int| 0 <= k < i ==> #[trigger] s@.subrange(k, k + part@.len()) != part@,
        decreases last + 1 - i,
    {
        let mut j: usize = 0;
        let mut same: bool = true;
        while j < part.len()
            invariant
                s@.len() <= usize::MAX,
                i <= last,
                last == s@.len() - part@.len(),
                j <= part@.len(),
                same == forall|k: int| 0 <= k < j ==> s@[i + k] == part@[k],
            decreases part@.len() - j,
        {
            if s[i + j] != part[j] {
                same = false;
            }
            j = j + 1;
        }
        if same {
            assert(s@.subrange(i as int, i + part@.len()) =~= part@);
            return true;
        }
        assert(s@.subrange(i as int, i + part@.len()) != part@) by {
            let k = choose|k: int| 0 <= k < part@.len() && s@[i + k] != part@[k];
            assert(s@.subrange(i as int, i + part@.len())[k] == s@[i + k]);
        }
        i = i + 1;
    }
    proof {
        if contains_run(s@, part@) {
            let k = choose|k: int| 0 <= k && k + part@.len() <= s@.len() && #[trigger] s@.subrange(k, k + part@.len()) == part@;
            assert(s@.subrange(k, k + part@.len()) != part@);
        }
    }
    false
}

/// A raw GEBCO 2025 elevation tile: a `tif` file named `gebco_2025_...`
/// that is neither a sub-ice nor a type-identifier (`_tid_`) variant.
pub open spec fn is_gebco_tile(name: Seq<u8>, extension: Seq<u8>) -> bool {
    &&& extension == "tif".spec_bytes()
    &&& starts_with(name, "gebco_2025_".spec_bytes())
    &&& !contains_run(name, "sub_ice".spec_bytes())
    &&& !contains_run(name, "_tid_".spec_bytes())
}

/// Whether a file, by its name and extension, is one of the raw GEBCO 2025
/// elevation tiles mosaicked into the depth grid.
pub fn is_gebco_tile_name(name: &str, extension: &str) -> (r: bool)
    ensures
        r == is_gebco_tile(name.spec_bytes(), extension.spec_bytes()),
{
    let ext: &[u8] = extension.as_bytes();
    let tif: &[u8] = "tif".as_bytes();
    let is_tif: bool = ext.len() == tif.len() && bytes_start_with(ext, tif);
    assert(is_tif == (ext@ == tif@)) by {
        if ext@.len() == tif@.len() && starts_with(ext@, tif@) {
            assert(ext@ =~= ext@.take(tif@.len() as int));
        }
        if ext@ == tif@ {
            assert(ext@.take(tif@.len() as int) =~= tif@);
        }
    }
    if !is_tif {
        return false;
    }
    let n: &[u8] = name.as_bytes();
    bytes_start_with(n, "gebco_2025_".as_bytes()) && !bytes_contain(n, "sub_ice".as_bytes())
        && !bytes_contain(n, "_tid_".as_bytes())
}

/// A directory that may hold the raw GEBCO tiles: its name begins `GEBCO`.
pub fn is_gebco_dir_name(name: &str) -> (r: bool)
    ensures
        r == starts_with(name.spec_bytes(), "GEBCO".spec_bytes()),
{
    bytes_start_with(name.as_bytes(), "GEBCO".as_bytes())
}


/// ASCII whitespace as a header line's leading padding.
pub open spec fn is_blank(b: u8) -> bool {
    b == 32 || b == 9 || b == 10 || b == 11 || b == 12 || b == 13
}

/// A byte read case-insensitively: ASCII lower-case letters as upper case.
pub open spec fn upper(b: u8) -> u8 {
    if 97 <= b <= 122 {
        (b - 32) as u8
    } else {
        b
    }
}

/// The header key that names the sample byte order.
pub open spec fn byteorder_key() -> Seq<u8> {
    seq![66u8, 89u8, 84u8, 69u8, 79u8, 82u8, 68u8, 69u8, 82u8]
}

/// The end of the line that starts at `i`: the first newline at or after
/// `i`, or the end of the text.
pub open spec fn line_end(s: Seq<u8>, i: int) -> int
    decreases s.len() - i,
{
    if i >= s.len() || s[i] == 10 {
        i
    } else {
        line_end(s, i + 1)
    }
}

/// The first byte of `s[i..e]` past its leading blanks.
pub open spec fn text_start(s: Seq<u8>, i: int, e: int) -> int
    decreases e - i,
{
    if i < e && is_blank(s[i]) {
        text_start(s, i + 1, e)
    } else {
        i
    }
}

/// The line `s[i..e]`, trimmed, begins with the byte-order key in any case.
pub open spec fn is_byteorder_line(s: Seq<u8>, i: int, e: int) -> bool {
    let k = text_start(s, i, e);
    &&& k + 9 <= e
    &&& forall|j: int| 0 <= j < 9 ==> #[trigger] upper(s[k + j]) == byteorder_key()[j]
}

/// The line `s[i..e]` holds an `I` (Intel order) in any case.
pub open spec fn names_intel(s: Seq<u8>, i: int, e: int) -> bool {
    exists|j: int| i <= j < e && #[trigger] upper(s[j]) == 73
}

/// What the header from line `i` on says: the first byte-order line decides
/// (big-endian unless it names Intel order); with none, big-endian.
pub open spec fn header_big_endian_from(s: Seq<u8>, i: int) -> bool
    decreases s.len() - i,
{
    if i < 0 || i >= s.len() {
        true
    } else {
        let e = line_end(s, i);
        if e < i {
            true
        } else if is_byteorder_line(s, i, e) {
            !names_intel(s, i, e)
        } else if e >= s.len() {
            true
        } else {
            header_big_endian_from(s, e + 1)
        }
    }
}

proof fn lemma_line_end_bounds(s: Seq<u8>, i: int)
    requires
        0 <= i <= s.len(),
    ensures
        i <= line_end(s, i) <= s.len(),
        line_end(s, i) < s.len() ==> s[line_end(s, i)] == 10,
        forall|j: int| i <= j < line_end(s, i) ==> s[j] != 10,
    decreases s.len() - i,
{
    if i < s.len() && s[i] != 10 {
        lemma_line_end_bounds(s, i + 1);
    }
}

proof fn lemma_text_start_bounds(s: Seq<u8>, i: int, e: int)
    requires
        i <= e,
    ensures
        i <= text_start(s, i, e) <= e,
    decreases e - i,
{
    if i < e && is_blank(s[i]) {
        lemma_text_start_bounds(s, i + 1, e);
    }
}

/// Whether an ENVI/EHdr header (the text of a `.hdr` file) gives big-endian
/// samples: the first line whose trimmed text starts with `BYTEORDER` (in
/// any case) decides, big-endian unless that line holds an `I`; a header
/// without such a line means big-endian, the format's default.
pub fn header_says_big_endian(text: &[u8]) -> (r: bool)
    ensures
        r == header_big_endian_from(text@, 0),
{
    let n: usize = text.len();
    let mut i: usize = 0;
    while i < n
        invariant
            n == text@.len(),
            i <= n,
            header_big_endian_from(text@, 0) == header_big_endian_from(text@, i as int),
        decreases n - i,
    {
        let mut e: usize = i;
        while e < n && text[e] != 10
            invariant
                n == text@.len(),
                i <= e <= n,
                line_end(text@, i as int) == line_end(text@, e as int),
            decreases n - e,
        {
            e = e + 1;
        }
        proof {
            lemma_line_end_bounds(text@, i as int);
        }
        let mut k: usize = i;
        while k < e && (text[k] == 32 || text[k] == 9 || text[k] == 10 || text[k] == 11
            || text[k] == 12 || text[k] == 13)
            invariant
                n == text@.len(),
                i <= k <= e <= n,
                text_start(text@, i as int, e as int) == text_start(text@, k as int, e as int),
            decreases e - k,
        {
            k = k + 1;
        }
        let mut is_key: bool = e - k >= 9;
        if is_key {
            let key: [u8; 9] = [66, 89, 84, 69, 79, 82, 68, 69, 82];
            let mut j: usize = 0;
            while j < 9
                invariant
                    n == text@.len(),
                    k + 9 <= e <= n,
                    j <= 9,
                    key@ == byteorder_key(),
                    is_key == forall|q: int| 0 <= q < j ==> #[trigger] upper(text@[k + q]) == byteorder_key()[q],
                decreases 9 - j,
            {
                let b: u8 = text[k + j];
                let u: u8 = if 97 <= b && b <= 122 { b - 32 } else { b };
                if u != key[j] {
                    is_key = false;
                }
                proof {
                    assert(u == upper(text@[k + j]));
                    if !(forall|q: int| 0 <= q < j ==> #[trigger] upper(text@[k + q]) == byteorder_key()[q]) {
                        let q = choose|q: int| 0 <= q < j && upper(text@[k + q]) != byteorder_key()[q];
                        assert(0 <= q < j + 1 && upper(text@[k + q]) != byteorder_key()[q]);
                    }
                }
                j = j + 1;
            }
        }
        assert(is_key == is_byteorder_line(text@, i as int, e as int));
        if is_key {
            let mut intel: bool = false;
            let mut q: usize = i;
            while q < e
                invariant
                    n == text@.len(),
                    i <= q <= e <= n,
                    intel == exists|j: int| i <= j < q && #[trigger] upper(text@[j]) == 73,
                decreases e - q,
            {
                let b: u8 = text[q];
                if b == 73 || b == 105 {
                    intel = true;
                    assert(upper(text@[q as int]) == 73);
                }
                proof {
                    if exists|j: int| i <= j < q + 1 && #[trigger] upper(text@[j]) == 73 {
                        let j = choose|j: int| i <= j < q + 1 && #[trigger] upper(text@[j]) == 73;
                        if j < q {
                            assert(i <= j < q && upper(text@[j]) == 73);
                        } else {
                            assert(b == 73 || b == 105);
                        }
                    }
                }
                q = q + 1;
            }
            return !intel;
        }
        if e == n {
            return true;
        }
        i = e + 1;
    }
    true
}

} // verus!

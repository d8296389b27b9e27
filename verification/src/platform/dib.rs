//! Device-independent bitmap (the clipboard's `CF_DIB` / `CF_DIBV5` payload:
//! a BITMAPINFOHEADER and everything after it, with no file header) to an
//! RGBA raster, and from there to PNG bytes.

use vstd::prelude::*;
use vstd::arithmetic::power2::{pow2, lemma2_to64, lemma_pow2_pos, lemma_pow2_unfold};
use vstd::bits::{lemma_u32_shr_is_div, lemma_u64_shl_is_mul};
use vstd::std_specs::bits::{u32_trailing_zeros, axiom_u32_trailing_zeros};

verus! {

pub const BI_RGB: u32 = 0;
pub const BI_BITFIELDS: u32 = 3;

/// A clipboard bitmap can be any size another app decided to publish; this
/// is the point where a hostile or buggy one stops being our problem.
pub const MAX_EDGE: i32 = 16384;
pub const MAX_PIXELS: i64 = 64000000;

// ---- little-endian fields ----

/// The little-endian `u16` at `at`.
pub open spec fn le_u16(b: Seq<u8>, at: int) -> int {
    b[at] + b[at + 1] * 256
}

/// The little-endian `u32` at `at`.
pub open spec fn le_u32(b: Seq<u8>, at: int) -> int {
    b[at] + b[at + 1] * 256 + b[at + 2] * 65536 + b[at + 3] * 16777216
}

/// The little-endian two's-complement `i32` at `at`.
pub open spec fn le_i32(b: Seq<u8>, at: int) -> int {
    let u = le_u32(b, at);
    if u >= 0x8000_0000 { u - 0x1_0000_0000 } else { u }
}

fn u32_at(b: &[u8], at: usize) -> (r: Option<u32>)
    ensures
        r == (if at + 4 <= b@.len() { Some(le_u32(b@, at as int) as u32) } else { None::<u32> }),
        r matches Some(v) ==> v as int == le_u32(b@, at as int),
{
    if at <= b.len() && b.len() - at >= 4 {
        let v: u32 = b[at] as u32 + (b[at + 1] as u32) * 256 + (b[at + 2] as u32) * 65536 + (
        b[at + 3] as u32) * 16777216;
        Some(v)
    } else {
        None
    }
}

fn i32_at(b: &[u8], at: usize) -> (r: Option<i32>)
    ensures
        r == (if at + 4 <= b@.len() { Some(le_i32(b@, at as int) as i32) } else { None::<i32> }),
        r matches Some(v) ==> v as int == le_i32(b@, at as int),
{
    match u32_at(b, at) {
        Some(u) => {
            let v: i64 = if u >= 0x8000_0000 { u as i64 - 0x1_0000_0000 } else { u as i64 };
            Some(v as i32)
        },
        None => None,
    }
}

fn u16_at(b: &[u8], at: usize) -> (r: Option<u16>)
    ensures
        r == (if at + 2 <= b@.len() { Some(le_u16(b@, at as int) as u16) } else { None::<u16> }),
        r matches Some(v) ==> v as int == le_u16(b@, at as int),
{
    if at <= b.len() && b.len() - at >= 2 {
        let v: u16 = b[at] as u16 + (b[at + 1] as u16) * 256;
        Some(v)
    } else {
        None
    }
}

// ---- one channel of a packed pixel ----

/// The number of set bits.
pub open spec fn popcount(m: u32) -> nat
    decreases m,
{
    if m == 0 {
        0
    } else {
        popcount(m / 2) + (m % 2) as nat
    }
}

/// One channel of a packed pixel: the bits under `mask`, shifted down to the
/// mask's lowest bit, and scaled from the mask's width up to 8 bits (a 5-bit
/// green is not 5 bits of nothing). An empty mask is a zero channel.
pub open spec fn spec_channel(v: u32, mask: u32) -> u8 {
    if mask == 0 {
        0
    } else {
        let raw = (v & mask) as nat / pow2(u32_trailing_zeros(mask) as nat);
        ((raw * 255) / ((pow2(popcount(mask)) - 1) as nat)) as u8
    }
}

proof fn lemma_popcount_bound(m: u32, k: nat)
    requires
        m < pow2(k),
    ensures
        popcount(m) <= k,
    decreases k,
{
    if m != 0 {
        if k == 0 {
            lemma2_to64();
        } else {
            lemma_pow2_unfold(k);
            assert(pow2(k) == 2 * pow2((k - 1) as nat));
            lemma_popcount_bound(m / 2, (k - 1) as nat);
        }
    }
}

proof fn lemma_popcount_pos(m: u32)
    requires
        m != 0,
    ensures
        popcount(m) >= 1,
    decreases m,
{
    if m % 2 == 0 {
        lemma_popcount_pos(m / 2);
    }
}

fn count_ones(m: u32) -> (r: u32)
    ensures
        r == popcount(m),
        r <= 32,
{
    proof {
        lemma2_to64();
        lemma_popcount_bound(m, 32);
    }
    let mut x = m;
    let mut c: u32 = 0;
    while x != 0
        invariant
            c + popcount(x) == popcount(m),
            popcount(m) <= 32,
        decreases x,
    {
        c = c + x % 2;
        x = x / 2;
    }
    c
}

fn channel(v: u32, mask: u32) -> (r: u8)
    ensures
        r == spec_channel(v, mask),
{
    if mask == 0 {
        return 0;
    }
    let shift = mask.trailing_zeros();
    proof {
        axiom_u32_trailing_zeros(mask);
    }
    let bits = count_ones(mask);
    proof {
        lemma_popcount_pos(mask);
    }
    let masked = v & mask;
    let raw = masked >> shift;
    proof {
        lemma_u32_shr_is_div(masked, shift);
    }
    let b64 = bits as u64;
    proof {
        lemma2_to64();
        lemma_pow2_pos(b64 as nat);
        assert(pow2(b64 as nat) <= 0x1_0000_0000) by {
            if b64 < 32 {
                vstd::arithmetic::power2::lemma_pow2_strictly_increases(b64 as nat, 32);
            }
        }
        lemma_u64_shl_is_mul(1, b64);
        assert(pow2(b64 as nat) >= 2) by {
            vstd::arithmetic::power2::lemma_pow2_strictly_increases(0, b64 as nat);
        }
    }
    let denom: u64 = (1u64 << b64) - 1;
    let scaled: u64 = raw as u64 * 255;
    (scaled / denom) as u8
}


// ---- the header ----

/// The masks a bitmap without BI_BITFIELDS has: 5-5-5 for 16 bits, 8-8-8 for
/// 24 and 32 (the top byte of a 32-bit pixel is alpha), none for a palette.
pub open spec fn spec_default_masks(bpp: int) -> (u32, u32, u32, u32) {
    if bpp == 16 {
        (0x7C00u32, 0x03E0u32, 0x001Fu32, 0u32)
    } else if bpp == 24 {
        (0x00FF_0000u32, 0x0000_FF00u32, 0x0000_00FFu32, 0u32)
    } else if bpp == 32 {
        (0x00FF_0000u32, 0x0000_FF00u32, 0x0000_00FFu32, 0xFF00_0000u32)
    } else {
        (0u32, 0u32, 0u32, 0u32)
    }
}

fn default_masks(bpp: u16) -> (r: (u32, u32, u32, u32))
    ensures
        r == spec_default_masks(bpp as int),
{
    match bpp {
        16 => (0x7C00, 0x03E0, 0x001F, 0),
        24 => (0x00FF_0000, 0x0000_FF00, 0x0000_00FF, 0),
        32 => (0x00FF_0000, 0x0000_FF00, 0x0000_00FF, 0xFF00_0000),
        _ => (0, 0, 0, 0),
    }
}

/// 40 = BITMAPINFOHEADER, 56 = V3, 108 = V4, 124 = V5.
pub open spec fn header_size_known(h: int) -> bool {
    h == 40 || h == 56 || h == 108 || h == 124
}

pub open spec fn bpp_known(bpp: int) -> bool {
    bpp == 1 || bpp == 4 || bpp == 8 || bpp == 16 || bpp == 24 || bpp == 32
}

/// How many palette entries follow the header: biClrUsed (offset 32) when it
/// is a count below the full palette, otherwise the full `2^bpp`.
pub open spec fn palette_count(b: Seq<u8>, bpp: int) -> int {
    let used = if b.len() >= 36 { le_u32(b, 32) } else { 0 };
    let full = if bpp == 1 { 2int } else if bpp == 4 { 16int } else { 256int };
    if used > 0 && used < full { used } else { full }
}

/// Bytes per pixel row: `bpp * width` bits, padded to a multiple of 4 bytes.
pub open spec fn row_stride(bpp: int, width: int) -> int {
    ((bpp * width + 31) / 32) * 4
}

/// What the decoder reads out of a bitmap's header.
pub struct DibSpec {
    pub width: int,
    pub height: int,
    /// A negative biHeight: the pixel array starts at the picture's top row.
    pub top_down: bool,
    pub bpp: int,
    /// Red, green, blue and alpha masks.
    pub masks: (u32, u32, u32, u32),
    /// Palette colours as (red, green, blue).
    pub palette: Seq<(u8, u8, u8)>,
    /// Where the pixel array starts.
    pub pixels_at: int,
    pub stride: int,
}

/// The one header the decoder cannot take: a valid-looking header whose
/// height is `i32::MIN`, which has no absolute value.
pub open spec fn height_unrepresentable(b: Seq<u8>) -> bool {
    &&& b.len() >= 20
    &&& header_size_known(le_u32(b, 0))
    &&& le_i32(b, 4) > 0
    &&& le_i32(b, 8) == -0x8000_0000
}

/// The header of a DIB, read field by field. Anything the decoder does not
/// handle is `None`: an unknown header size, a non-positive width or a zero
/// height, an edge over [`MAX_EDGE`] or an area over [`MAX_PIXELS`], a
/// compressed (RLE, JPEG, PNG) payload, an unknown bit depth, and any field,
/// palette or pixel row that the bytes do not reach.
pub open spec fn spec_parse(b: Seq<u8>) -> Option<DibSpec> {
    if b.len() < 20 {
        None
    } else {
        let header = le_u32(b, 0);
        let width = le_i32(b, 4);
        let raw_height = le_i32(b, 8);
        let bpp = le_u16(b, 14);
        let compression = le_u32(b, 16);
        let height = if raw_height < 0 { -raw_height } else { raw_height };
        let bitfields = compression == 3;
        let v4 = header >= 108;
        if !header_size_known(header) {
            None
        } else if width <= 0 || raw_height == 0 {
            None
        } else if width > 16384 || height > 16384 || width * height > 64000000 {
            None
        } else if !(compression == 0 || compression == 3) {
            None
        } else if !bpp_known(bpp) {
            None
        } else if bitfields && v4 && b.len() < 68 {
            None
        } else if bitfields && !v4 && b.len() < header + 12 {
            None
        } else {
            let masks = if bitfields {
                if v4 {
                    (
                        le_u32(b, 52) as u32,
                        le_u32(b, 56) as u32,
                        le_u32(b, 60) as u32,
                        le_u32(b, 64) as u32,
                    )
                } else {
                    (
                        le_u32(b, header) as u32,
                        le_u32(b, header + 4) as u32,
                        le_u32(b, header + 8) as u32,
                        if bpp == 32 { 0xFF00_0000u32 } else { 0u32 },
                    )
                }
            } else {
                spec_default_masks(bpp)
            };
            let after0 = if bitfields && !v4 { header + 12 } else { header };
            let count = if bpp <= 8 { palette_count(b, bpp) } else { 0 };
            let after = after0 + count * 4;
            let stride = row_stride(bpp, width);
            if bpp <= 8 && b.len() < after {
                None
            } else if b.len() < after + stride * height {
                None
            } else {
                Some(DibSpec {
                    width,
                    height,
                    top_down: raw_height < 0,
                    bpp,
                    masks,
                    palette: Seq::new(
                        count as nat,
                        |i: int| (b[after0 + 4 * i + 2], b[after0 + 4 * i + 1], b[after0 + 4 * i]),
                    ),
                    pixels_at: after,
                    stride,
                })
            }
        }
    }
}

struct Dib {
    width: i32,
    height: i32,
    top_down: bool,
    bpp: u16,
    masks: (u32, u32, u32, u32),
    palette: Vec<(u8, u8, u8)>,
    pixels_at: usize,
    stride: usize,
}

impl Dib {
    spec fn spec(&self) -> DibSpec {
        DibSpec {
            width: self.width as int,
            height: self.height as int,
            top_down: self.top_down,
            bpp: self.bpp as int,
            masks: self.masks,
            palette: self.palette@,
            pixels_at: self.pixels_at as int,
            stride: self.stride as int,
        }
    }
}

/// Whether `b` is a header that [`dib_to_png`] refuses to read because its
/// height is `i32::MIN`.
pub fn height_is_unrepresentable(b: &[u8]) -> (r: bool)
    ensures
        r == height_unrepresentable(b@),
{
    match (u32_at(b, 0), i32_at(b, 4), i32_at(b, 8), u32_at(b, 16)) {
        (Some(header), Some(width), Some(raw_height), Some(_)) => {
            (header == 40 || header == 56 || header == 108 || header == 124) && width > 0
                && raw_height == i32::MIN
        },
        _ => false,
    }
}

fn parse(b: &[u8]) -> (r: Option<Dib>)
    requires
        !height_unrepresentable(b@),
    ensures
        match r {
            None => spec_parse(b@) is None,
            Some(d) => spec_parse(b@) == Some(d.spec()),
        },
{
    let header = match u32_at(b, 0) {
        Some(v) => v,
        None => return None,
    };
    let width = match i32_at(b, 4) {
        Some(v) => v,
        None => return None,
    };
    let raw_height = match i32_at(b, 8) {
        Some(v) => v,
        None => return None,
    };
    let bpp = match u16_at(b, 14) {
        Some(v) => v,
        None => return None,
    };
    let compression = match u32_at(b, 16) {
        Some(v) => v,
        None => return None,
    };
    if !(header == 40 || header == 56 || header == 108 || header == 124) {
        return None;
    }
    if width <= 0 || raw_height == 0 {
        return None;
    }
    let height = if raw_height < 0 { -raw_height } else { raw_height };
    if width > MAX_EDGE || height > MAX_EDGE {
        return None;
    }
    proof {
        assert((width as i64) * (height as i64) <= 16384 * 16384) by (nonlinear_arith)
            requires
                0 < width <= 16384,
                0 < height <= 16384,
        ;
    }
    if (width as i64) * (height as i64) > MAX_PIXELS {
        return None;
    }
    if !(compression == BI_RGB || compression == BI_BITFIELDS) {
        return None;  // RLE4/RLE8/JPEG/PNG payloads are not a pixel array

    }
    if !(bpp == 1 || bpp == 4 || bpp == 8 || bpp == 16 || bpp == 24 || bpp == 32) {
        return None;
    }
    let mut after: usize = header as usize;
    let mut masks = default_masks(bpp);
    if compression == BI_BITFIELDS {
        // V4 and V5 carry their masks inside the header; a plain
        // BITMAPINFOHEADER carries them right after it.
        let (r, g, bl, a) = if header >= 108 {
            match (u32_at(b, 52), u32_at(b, 56), u32_at(b, 60), u32_at(b, 64)) {
                (Some(r), Some(g), Some(bl), Some(a)) => (r, g, bl, a),
                _ => return None,
            }
        } else {
            after = after + 12;
            match (
                u32_at(b, header as usize),
                u32_at(b, header as usize + 4),
                u32_at(b, header as usize + 8),
            ) {
                (Some(r), Some(g), Some(bl)) => (r, g, bl, if bpp == 32 { 0xFF00_0000 } else { 0 }),
                _ => return None,
            }
        };
        masks = (r, g, bl, a);
    }
    let ghost after0 = after as int;
    let mut palette: Vec<(u8, u8, u8)> = Vec::new();
    if bpp <= 8 {
        // biClrUsed (offset 32) is either the entry count or 0 for "all of
        // them". Entries are BGRA; the fourth byte is reserved and always 0,
        // so a palette colour is opaque by definition.
        let used: usize = match u32_at(b, 32) {
            Some(v) => v as usize,
            None => 0,
        };
        let full: usize = if bpp == 1 { 2 } else if bpp == 4 { 16 } else { 256 };
        let count = if used > 0 && used < full { used } else { full };
        if b.len() < after || b.len() - after < count * 4 {
            return None;
        }
        let mut i: usize = 0;
        while i < count
            invariant
                i <= count,
                count <= 256,
                after as int == after0,
                after + count * 4 <= b.len(),
                palette@ =~= Seq::new(
                    i as nat,
                    |j: int| (b@[after0 + 4 * j + 2], b@[after0 + 4 * j + 1], b@[after0 + 4 * j]),
                ),
            decreases count - i,
        {
            assert(after + 4 * i + 3 < b@.len());
            let at = after + 4 * i;
            palette.push((b[at + 2], b[at + 1], b[at]));
            i = i + 1;
        }
    }
    after = after + palette.len() * 4;
    proof {
        assert(bpp as int * width as int <= 32 * 16384) by (nonlinear_arith)
            requires
                bpp <= 32,
                0 < width <= 16384,
        ;
    }
    let bpp_w: usize = bpp as usize * width as usize;
    let stride: usize = ((bpp_w + 31) / 32) * 4;
    proof {
        assert(stride * height as int <= 65536 * 16384) by (nonlinear_arith)
            requires
                stride <= 65536,
                0 < height <= 16384,
        ;
    }
    let need: usize = after + stride * height as usize;
    if b.len() < need {
        return None;
    }
    let d = Dib {
        width,
        height,
        top_down: raw_height < 0,
        bpp,
        masks,
        palette,
        pixels_at: after,
        stride,
    };
    proof {
        let s = spec_parse(b@).unwrap();
        assert(s.width == width);
        assert(s.height == height);
        assert(s.masks == masks);
        assert(s.pixels_at == after);
        assert(s.stride == stride);
        assert(s.palette =~= palette@);
    }
    Some(d)
}


// ---- pixels ----

/// The colour, as (red, green, blue, alpha), of pixel `x` of the pixel-array
/// row `row`. Packed pixels go through the masks; palette pixels look their
/// index up, and an index past the palette is black. Only 32-bit pixels
/// carry alpha.
pub open spec fn spec_color(d: DibSpec, b: Seq<u8>, row: int, x: int) -> (u8, u8, u8, u8) {
    let base = d.pixels_at + row * d.stride;
    let (rm, gm, bm, am) = d.masks;
    if d.bpp == 32 {
        let v = le_u32(b, base + 4 * x) as u32;
        (spec_channel(v, rm), spec_channel(v, gm), spec_channel(v, bm), spec_channel(v, am))
    } else if d.bpp == 24 {
        let i = base + 3 * x;
        let v = (b[i] + b[i + 1] * 256 + b[i + 2] * 65536) as u32;
        (spec_channel(v, rm), spec_channel(v, gm), spec_channel(v, bm), 255u8)
    } else if d.bpp == 16 {
        let v = le_u16(b, base + 2 * x) as u32;
        (spec_channel(v, rm), spec_channel(v, gm), spec_channel(v, bm), 255u8)
    } else {
        let index: int = if d.bpp == 8 {
            b[base + x] as int
        } else if d.bpp == 4 {
            let byte = b[base + x / 2];
            if x % 2 == 0 {
                (byte >> 4u8) as int
            } else {
                (byte & 0x0Fu8) as int
            }
        } else {
            let byte = b[base + x / 8];
            ((byte >> ((7 - x % 8) as u8)) & 1u8) as int
        };
        if index < d.palette.len() {
            let p = d.palette[index];
            (p.0, p.1, p.2, 255u8)
        } else {
            (0u8, 0u8, 0u8, 255u8)
        }
    }
}

/// Pixel `p` of the picture in reading order (row `p / width`, column
/// `p % width`, top row first). A positive biHeight stores the bottom row
/// first.
pub open spec fn spec_pixel(d: DibSpec, b: Seq<u8>, p: int) -> (u8, u8, u8, u8) {
    let x = p % d.width;
    let y = p / d.width;
    let row = if d.top_down { y } else { d.height - 1 - y };
    spec_color(d, b, row, x)
}

/// Screenshots carry a garbage alpha byte, usually all zero; a 32-bit
/// picture with an alpha mask whose every pixel is transparent is read as
/// opaque.
pub open spec fn alpha_forced(d: DibSpec, b: Seq<u8>) -> bool {
    &&& d.bpp == 32
    &&& d.masks.3 != 0
    &&& forall|p: int| 0 <= p < d.width * d.height ==> (#[trigger] spec_pixel(d, b, p)).3 == 0
}

/// Byte `i` of the decoded RGBA raster.
pub open spec fn spec_raster_byte(d: DibSpec, b: Seq<u8>, i: int) -> u8 {
    let c = spec_pixel(d, b, i / 4);
    let k = i % 4;
    if k == 0 {
        c.0
    } else if k == 1 {
        c.1
    } else if k == 2 {
        c.2
    } else if alpha_forced(d, b) {
        255u8
    } else {
        c.3
    }
}

/// An RGBA picture, four bytes per pixel, rows top to bottom.
pub struct RasterSpec {
    pub width: int,
    pub height: int,
    pub pixels: Seq<u8>,
}

/// The picture a DIB holds, or `None` where [`spec_parse`] is.
pub open spec fn spec_decode(b: Seq<u8>) -> Option<RasterSpec> {
    match spec_parse(b) {
        None => None,
        Some(d) => Some(
            RasterSpec {
                width: d.width,
                height: d.height,
                pixels: Seq::new(
                    (d.width * d.height * 4) as nat,
                    |i: int| spec_raster_byte(d, b, i),
                ),
            },
        ),
    }
}

/// A decoded picture: `pixels` is RGBA, row by row from the top.
pub struct Raster {
    pub width: u32,
    pub height: u32,
    pub pixels: Vec<u8>,
}

impl Raster {
    pub open spec fn spec(&self) -> RasterSpec {
        RasterSpec {
            width: self.width as int,
            height: self.height as int,
            pixels: self.pixels@,
        }
    }
}

proof fn lemma_stride_covers(bpp: int, width: int)
    requires
        bpp >= 0,
        width >= 0,
    ensures
        row_stride(bpp, width) * 8 >= bpp * width,
{
    let n = bpp * width;
    assert(n >= 0) by (nonlinear_arith)
        requires
            bpp >= 0,
            width >= 0,
            n == bpp * width,
    ;
    vstd::arithmetic::div_mod::lemma_fundamental_div_mod(n + 31, 32);
}

/// Well-formed parse output, as `color` needs it.
spec fn dib_wf(d: DibSpec) -> bool {
    &&& bpp_known(d.bpp)
    &&& d.width > 0
    &&& d.stride == row_stride(d.bpp, d.width)
    &&& d.palette.len() <= 256
}

fn color(dib: &Dib, b: &[u8], base: usize, x: usize) -> (r: (u8, u8, u8, u8))
    requires
        dib_wf(dib.spec()),
        x < dib.width,
        base + dib.stride <= b.len(),
        (base - dib.pixels_at) % (dib.stride as int) == 0,
    ensures
        r == spec_color(dib.spec(), b@, (base - dib.pixels_at) / (dib.stride as int), x as int),
{
    proof {
        lemma_stride_covers(dib.bpp as int, dib.width as int);
        assert(dib.bpp * x + dib.bpp <= dib.bpp * dib.width) by (nonlinear_arith)
            requires
                x < dib.width,
                dib.bpp >= 0,
        ;
        let row = (base - dib.pixels_at) / (dib.stride as int);
        vstd::arithmetic::div_mod::lemma_fundamental_div_mod(
            base - dib.pixels_at,
            dib.stride as int,
        );
        assert(dib.pixels_at + row * dib.stride == base);
        if dib.bpp == 32 {
            assert(32 * x + 32 <= 8 * dib.stride);
        } else if dib.bpp == 24 {
            assert(24 * x + 24 <= 8 * dib.stride);
        } else if dib.bpp == 16 {
            assert(16 * x + 16 <= 8 * dib.stride);
        } else if dib.bpp == 8 {
            assert(8 * x + 8 <= 8 * dib.stride);
        } else if dib.bpp == 4 {
            assert(4 * x + 4 <= 8 * dib.stride);
        } else {
            assert(x + 1 <= 8 * dib.stride);
        }
    }
    let (rm, gm, bm, am) = dib.masks;
    if dib.bpp == 32 {
        let v = match u32_at(b, base + x * 4) {
            Some(v) => v,
            None => 0,
        };
        (channel(v, rm), channel(v, gm), channel(v, bm), channel(v, am))
    } else if dib.bpp == 24 {
        let i = base + x * 3;
        let v: u32 = b[i] as u32 + (b[i + 1] as u32) * 256 + (b[i + 2] as u32) * 65536;
        (channel(v, rm), channel(v, gm), channel(v, bm), 255)
    } else if dib.bpp == 16 {
        let v: u32 = match u16_at(b, base + x * 2) {
            Some(v) => v as u32,
            None => 0,
        };
        (channel(v, rm), channel(v, gm), channel(v, bm), 255)
    } else {
        let index: usize = if dib.bpp == 8 {
            b[base + x] as usize
        } else if dib.bpp == 4 {
            let byte = b[base + x / 2];
            if x % 2 == 0 {
                (byte >> 4u8) as usize
            } else {
                (byte & 0x0Fu8) as usize
            }
        } else {
            let byte = b[base + x / 8];
            let s: u8 = (7 - x % 8) as u8;
            ((byte >> s) & 1u8) as usize
        };
        if index < dib.palette.len() {
            let p = dib.palette[index];
            (p.0, p.1, p.2, 255)
        } else {
            (0, 0, 0, 255)
        }
    }
}


spec fn alpha_byte(s: Seq<u8>, k: int) -> u8 {
    s[4 * k + 3]
}

/// Pixel `p` sits at bytes `4p..4p + 4` of `s`, with its alpha replaced by
/// 255 when `opaque`.
spec fn stored(s: Seq<u8>, d: DibSpec, b: Seq<u8>, p: int, opaque: bool) -> bool {
    let c = spec_pixel(d, b, p);
    &&& s[4 * p] == c.0
    &&& s[4 * p + 1] == c.1
    &&& s[4 * p + 2] == c.2
    &&& s[4 * p + 3] == (if opaque { 255u8 } else { c.3 })
}

proof fn lemma_parse_wf(b: Seq<u8>)
    requires
        spec_parse(b) is Some,
    ensures
        dib_wf(spec_parse(b).unwrap()),
        spec_parse(b).unwrap().height > 0,
        spec_parse(b).unwrap().width <= 16384,
        spec_parse(b).unwrap().height <= 16384,
        spec_parse(b).unwrap().width * spec_parse(b).unwrap().height <= 64000000,
        spec_parse(b).unwrap().pixels_at + spec_parse(b).unwrap().stride * spec_parse(
            b,
        ).unwrap().height <= b.len(),
{
}

/// Decode a DIB into an RGBA raster, top row first.
pub fn decode(b: &[u8]) -> (r: Option<Raster>)
    requires
        !height_unrepresentable(b@),
    ensures
        match r {
            None => spec_decode(b@) is None,
            Some(img) => spec_decode(b@) == Some(img.spec()),
        },
{
    let dib = match parse(b) {
        Some(d) => d,
        None => return None,
    };
    let ghost d = dib.spec();
    proof {
        lemma_parse_wf(b@);
    }
    let w: usize = dib.width as usize;
    let h: usize = dib.height as usize;
    proof {
        assert(w * h <= 64000000) by (nonlinear_arith)
            requires
                w * h == dib.width * dib.height,
                dib.width * dib.height <= 64000000,
        ;
    }
    let n: usize = w * h;
    let mut buf: Vec<u8> = Vec::new();
    let mut p: usize = 0;
    while p < n
        invariant
            d == dib.spec(),
            spec_parse(b@) == Some(d),
            dib_wf(d),
            w == dib.width,
            h == dib.height,
            0 < h <= 16384,
            n == w * h,
            n <= 64000000,
            d.pixels_at + d.stride * d.height <= b.len(),
            p <= n,
            buf@.len() == 4 * p,
            forall|q: int| 0 <= q < p ==> #[trigger] stored(buf@, d, b@, q, false),
        decreases n - p,
    {
        let x = p % w;
        let y = p / w;
        proof {
            vstd::arithmetic::div_mod::lemma_fundamental_div_mod(p as int, w as int);
            if y >= h {
                assert(w * y >= w * h) by (nonlinear_arith)
                    requires
                        y >= h,
                        w > 0,
                ;
            }
        }
        let row = if dib.top_down { y } else { h - 1 - y };
        proof {
            lemma_stride_covers(dib.bpp as int, dib.width as int);
            assert(dib.bpp * dib.width >= 1) by (nonlinear_arith)
                requires
                    dib.bpp >= 1,
                    dib.width >= 1,
            ;
            assert(dib.stride > 0);
            assert(row * dib.stride + dib.stride <= dib.stride * dib.height) by (nonlinear_arith)
                requires
                    row < dib.height,
            ;
            vstd::arithmetic::div_mod::lemma_div_by_multiple(row as int, dib.stride as int);
            vstd::arithmetic::div_mod::lemma_mod_multiples_basic(row as int, dib.stride as int);
            assert(dib.stride > 0);
        }
        let base = dib.pixels_at + row * dib.stride;
        let c = color(&dib, b, base, x);
        assert(base - dib.pixels_at == row * dib.stride);
        assert(c == spec_pixel(d, b@, p as int));
        let ghost prev = buf@;
        buf.push(c.0);
        buf.push(c.1);
        buf.push(c.2);
        buf.push(c.3);
        proof {
            assert(stored(buf@, d, b@, p as int, false));
            assert forall|q: int| 0 <= q < p + 1 implies #[trigger] stored(buf@, d, b@, q, false) by {
                if q < p {
                    assert(stored(prev, d, b@, q, false));
                }
            }
        }
        p = p + 1;
    }
    // Screenshots carry a garbage alpha byte, usually all zero. Left alone it
    // pastes an invisible picture, which reads as a failed paste.
    let mut forced = false;
    if dib.bpp == 32 && dib.masks.3 != 0 {
        let mut all_zero = true;
        let mut q: usize = 0;
        while q < n
            invariant
                n == w * h,
                n <= 64000000,
                buf@.len() == 4 * n,
                q <= n,
                all_zero <==> forall|k: int| 0 <= k < q ==> #[trigger] alpha_byte(buf@, k) == 0,
            decreases n - q,
        {
            assert(alpha_byte(buf@, q as int) == buf@[4 * q + 3]);
            if buf[4 * q + 3] != 0 {
                all_zero = false;
            }
            q = q + 1;
        }
        proof {
            if all_zero {
                assert forall|k: int| 0 <= k < d.width * d.height implies (#[trigger] spec_pixel(
                    d,
                    b@,
                    k,
                )).3 == 0 by {
                    assert(stored(buf@, d, b@, k, false));
                    assert(alpha_byte(buf@, k) == 0);
                }
            } else {
                let k = choose|k: int| 0 <= k < q && #[trigger] alpha_byte(buf@, k) != 0;
                assert(stored(buf@, d, b@, k, false));
                assert(spec_pixel(d, b@, k).3 != 0);
            }
        }
        forced = all_zero;
    }
    assert(forced == alpha_forced(d, b@));
    if forced {
        let mut q: usize = 0;
        while q < n
            invariant
                d == dib.spec(),
                n == w * h,
                n <= 64000000,
                buf@.len() == 4 * n,
                q <= n,
                forall|k: int| 0 <= k < q ==> #[trigger] stored(buf@, d, b@, k, true),
                forall|k: int| q <= k < n ==> #[trigger] stored(buf@, d, b@, k, false),
            decreases n - q,
        {
            let ghost prev = buf@;
            buf.set(4 * q + 3, 255);
            proof {
                assert(stored(prev, d, b@, q as int, false));
                assert forall|k: int| 0 <= k < q + 1 implies #[trigger] stored(buf@, d, b@, k, true) by {
                    if k < q {
                        assert(stored(prev, d, b@, k, true));
                    }
                }
                assert forall|k: int| q + 1 <= k < n implies #[trigger] stored(buf@, d, b@, k, false) by {
                    assert(stored(prev, d, b@, k, false));
                }
            }
            q = q + 1;
        }
    }
    let img = Raster { width: dib.width as u32, height: dib.height as u32, pixels: buf };
    proof {
        let want = spec_decode(b@).unwrap();
        assert forall|i: int| 0 <= i < 4 * n implies img.pixels@[i] == want.pixels[i] by {
            let p = i / 4;
            assert(stored(img.pixels@, d, b@, p, forced));
            assert(i == 4 * p + i % 4);
        }
        assert(img.pixels@ =~= want.pixels);
    }
    Some(img)
}


// ---- PNG ----

/// The PNG file that the `image` crate writes for an RGBA raster of
/// `width` x `height` pixels, or `None` where it writes none.
pub uninterp spec fn png_encoding(width: u32, height: u32, rgba: Seq<u8>) -> Option<Seq<u8>>;

/// Calls `image::RgbaImage::from_raw` and `image::DynamicImage::write_to`
/// with `ImageFormat::Png` into an in-memory buffer. The buffer must hold
/// exactly four bytes per pixel: a longer one passes `from_raw` and then
/// trips the PNG encoder's length assertion. Claimed: the bytes (or the
/// failure) are [`png_encoding`] of the arguments; nothing is claimed of
/// what those bytes are.
#[verifier::external_body]
fn encode_png(width: u32, height: u32, rgba: Vec<u8>) -> (r: Option<Vec<u8>>)
    requires
        rgba@.len() == 4 * (width as int) * (height as int),
    ensures
        match r {
            Some(v) => png_encoding(width, height, rgba@) == Some(v@),
            None => png_encoding(width, height, rgba@) is None,
        },
{
    let image = image::RgbaImage::from_raw(width, height, rgba)?;
    let mut png = std::io::Cursor::new(Vec::new());
    image::DynamicImage::ImageRgba8(image).write_to(&mut png, image::ImageFormat::Png).ok()?;
    Some(png.into_inner())
}

/// The PNG a DIB becomes: its decoded raster, encoded.
pub open spec fn spec_dib_to_png(b: Seq<u8>) -> Option<Seq<u8>> {
    match spec_decode(b) {
        None => None,
        Some(img) => png_encoding(img.width as u32, img.height as u32, img.pixels),
    }
}

/// Decode a DIB (the CF_DIB / CF_DIBV5 payload: a BITMAPINFOHEADER and
/// everything after it, with no BITMAPFILEHEADER) into PNG bytes.
pub fn dib_to_png(bytes: &[u8]) -> (r: Option<Vec<u8>>)
    requires
        !height_unrepresentable(bytes@),
    ensures
        match r {
            Some(v) => spec_dib_to_png(bytes@) == Some(v@),
            None => spec_dib_to_png(bytes@) is None,
        },
{
    match decode(bytes) {
        Some(image) => {
            let ghost w = image.width as int;
            let ghost h = image.height as int;
            proof {
                assert(w * h * 4 >= 0 && w * h * 4 == 4 * w * h) by (nonlinear_arith)
                    requires
                        w >= 0,
                        h >= 0,
                ;
                assert(image.pixels@.len() == 4 * w * h);
            }
            encode_png(image.width, image.height, image.pixels)
        },
        None => None,
    }
}

} // verus!

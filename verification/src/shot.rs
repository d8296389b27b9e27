//! The headless screenshot tool: its options, and the 24-bit BMP file it
//! writes a rendered frame into.

use vstd::prelude::*;
use crate::launch::{arg_texts, clone_str, opt_view};
use crate::text::{equals, parse_u32, parse_unsigned};
use crate::platform::dib::{
    height_unrepresentable, le_i32, le_u16, le_u32, popcount, row_stride, spec_channel, spec_decode,
    spec_parse, RasterSpec,
};
use vstd::arithmetic::power2::{pow2, lemma2_to64};
use vstd::std_specs::bits::{u32_trailing_zeros, axiom_u32_trailing_zeros};

verus! {

/// The first position holding `key`.
pub open spec fn first_position(args: Seq<Seq<char>>, key: Seq<char>, from: int) -> Option<int>
    decreases args.len() - from,
{
    if from < 0 || from >= args.len() {
        None
    } else if args[from] == key {
        Some(from)
    } else {
        first_position(args, key, from + 1)
    }
}

/// The argument after the first `key`, if there is one.
pub open spec fn spec_arg_value(args: Seq<Seq<char>>, key: Seq<char>) -> Option<Seq<char>> {
    match first_position(args, key, 0) {
        Some(i) => if i + 1 < args.len() { Some(args[i + 1]) } else { None },
        None => None,
    }
}

/// The argument after the first `key` in `args`.
pub fn parse(args: &[String], key: &str) -> (r: Option<String>)
    ensures
        opt_view(r) == spec_arg_value(arg_texts(args@), key@),
{
    let ghost texts = arg_texts(args@);
    let mut i: usize = 0;
    while i < args.len()
        invariant
            texts == arg_texts(args@),
            i <= args@.len(),
            first_position(texts, key@, 0) == first_position(texts, key@, i as int),
        decreases args@.len() - i,
    {
        proof {
            assert(texts[i as int] == args@[i as int]@);
        }
        if equals(args[i].as_str(), key) {
            if i + 1 < args.len() {
                proof {
                    assert(texts[i + 1] == args@[i + 1]@);
                }
                return Some(clone_str(&args[i + 1]));
            }
            return None;
        }
        i = i + 1;
    }
    None
}

/// What the screenshot tool renders, and where it writes it.
pub struct ShotArgs {
    pub out: String,
    pub scene: Option<String>,
    pub width: u32,
    pub height: u32,
}

/// A size as the screenshot tool reads one: the number after `key`, or
/// `default` when it is missing or not a `u32`.
pub open spec fn size_or(args: Seq<Seq<char>>, key: Seq<char>, default: u32) -> int {
    match spec_arg_value(args, key) {
        Some(v) => match parse_unsigned(v, u32::MAX as int) {
            Some(n) => n as int,
            None => default as int,
        },
        None => default as int,
    }
}

/// The screenshot tool's options: `--out` (default `quire-shot.bmp`),
/// `--scene`, and the size `--w` by `--h` (default 1280 by 800).
pub fn shot_args(argv: &[String]) -> (r: ShotArgs)
    ensures
        r.out@ == (match spec_arg_value(arg_texts(argv@), "--out"@) {
            Some(v) => v,
            None => "quire-shot.bmp"@,
        }),
        opt_view(r.scene) == spec_arg_value(arg_texts(argv@), "--scene"@),
        r.width == size_or(arg_texts(argv@), "--w"@, 1280),
        r.height == size_or(arg_texts(argv@), "--h"@, 800),
{
    let out = match parse(argv, "--out") {
        Some(o) => o,
        None => String::from_str("quire-shot.bmp"),
    };
    let scene = parse(argv, "--scene");
    let width = match parse(argv, "--w") {
        Some(v) => match parse_u32(v.as_str()) {
            Some(n) => n,
            None => 1280,
        },
        None => 1280,
    };
    let height = match parse(argv, "--h") {
        Some(v) => match parse_u32(v.as_str()) {
            Some(n) => n,
            None => 800,
        },
        None => 800,
    };
    ShotArgs { out, scene, width, height }
}

// ---- the BMP file ----

/// Bytes per BMP pixel row: three per pixel, padded to a multiple of four.
pub open spec fn bmp_stride(width: int) -> int {
    ((width * 3 + 3) / 4) * 4
}

/// `v` as four little-endian bytes.
pub open spec fn le32(v: u32) -> Seq<u8> {
    seq![(v % 256) as u8, (v / 256 % 256) as u8, (v / 65536 % 256) as u8, (v / 16777216) as u8]
}

/// `v` as two little-endian bytes.
pub open spec fn le16(v: u16) -> Seq<u8> {
    seq![(v % 256) as u8, (v / 256) as u8]
}

/// The 14-byte file header and the 40-byte BITMAPINFOHEADER of a 24-bit,
/// bottom-up, uncompressed picture at 72 dpi.
pub open spec fn bmp_header(width: u32, height: u32) -> Seq<u8> {
    let image = bmp_stride(width as int) * height;
    file_header((image + 54) as u32) + info_header(width, height, image as u32)
}

/// "BM", the file's size, two reserved words, and where the pixels start.
pub open spec fn file_header(size: u32) -> Seq<u8> {
    seq![66u8, 77u8] + le32(size) + seq![0u8, 0u8, 0u8, 0u8] + le32(54)
}

/// A BITMAPINFOHEADER: its size, the width and height, one plane, 24 bits
/// per pixel, no compression, the pixel bytes' size, 72 dpi both ways, and
/// no palette.
pub open spec fn info_header(width: u32, height: u32, image: u32) -> Seq<u8> {
    le32(40) + le32(width) + le32(height) + le16(1) + le16(24) + le32(0) + le32(image) + le32(2835)
        + le32(2835) + seq![0u8, 0u8, 0u8, 0u8, 0u8, 0u8, 0u8, 0u8]
}

/// Picture row `y` (from the top) as a BMP row: each pixel as blue, green,
/// red, then zeros up to the stride.
pub open spec fn bmp_row(width: int, rgb: Seq<u8>, y: int) -> Seq<u8> {
    Seq::new(
        bmp_stride(width) as nat,
        |k: int|
            if k < 3 * width {
                rgb[(y * width + k / 3) * 3 + 2 - k % 3]
            } else {
                0u8
            },
    )
}

/// The first `n` BMP rows of a picture `height` rows tall: the bottom row
/// first.
pub open spec fn bmp_rows(width: int, height: int, rgb: Seq<u8>, n: int) -> Seq<u8>
    decreases n,
{
    if n <= 0 {
        Seq::empty()
    } else {
        bmp_rows(width, height, rgb, n - 1) + bmp_row(width, rgb, height - n)
    }
}

/// The BMP file of a `width` x `height` picture whose pixels `rgb` are
/// red, green, blue, row by row from the top.
pub open spec fn spec_bmp(width: u32, height: u32, rgb: Seq<u8>) -> Seq<u8> {
    bmp_header(width, height) + bmp_rows(width as int, height as int, rgb, height as int)
}

fn push_le32(out: &mut Vec<u8>, v: u32)
    ensures
        final(out)@ == old(out)@ + le32(v),
{
    out.push((v % 256) as u8);
    out.push((v / 256 % 256) as u8);
    out.push((v / 65536 % 256) as u8);
    out.push((v / 16777216) as u8);
    assert(out@ =~= old(out)@ + le32(v));
}

fn push_le16(out: &mut Vec<u8>, v: u16)
    ensures
        final(out)@ == old(out)@ + le16(v),
{
    out.push((v % 256) as u8);
    out.push((v / 256) as u8);
    assert(out@ =~= old(out)@ + le16(v));
}

fn push_file_header(out: &mut Vec<u8>, size: u32)
    ensures
        final(out)@ == old(out)@ + file_header(size),
{
    let ghost start = out@;
    out.push(66u8);
    out.push(77u8);
    push_le32(out, size);
    out.push(0u8);
    out.push(0u8);
    out.push(0u8);
    out.push(0u8);
    push_le32(out, 54);
    assert(out@ =~= start + file_header(size));
}

fn push_info_header(out: &mut Vec<u8>, width: u32, height: u32, image: u32)
    ensures
        final(out)@ == old(out)@ + info_header(width, height, image),
{
    let ghost start = out@;
    push_le32(out, 40);
    // the width and height are the header's signed fields; a u32 size has
    // the same bits
    push_le32(out, width);
    push_le32(out, height);
    push_le16(out, 1);
    push_le16(out, 24);
    push_le32(out, 0);
    push_le32(out, image);
    push_le32(out, 2835);
    push_le32(out, 2835);
    let ghost mid = out@;
    let mut z: usize = 0;
    while z < 8
        invariant
            z <= 8,
            out@.len() == mid.len() + z,
            forall|q: int| 0 <= q < mid.len() ==> out@[q] == mid[q],
            forall|q: int| mid.len() <= q < mid.len() + z ==> out@[q] == 0,
        decreases 8 - z,
    {
        out.push(0u8);
        z = z + 1;
    }
    assert(mid =~= start + le32(40) + le32(width) + le32(height) + le16(1) + le16(24) + le32(0)
        + le32(image) + le32(2835) + le32(2835));
    assert(out@ =~= mid + seq![0u8, 0u8, 0u8, 0u8, 0u8, 0u8, 0u8, 0u8]);
}

/// Push picture row `y` as a BMP row.
fn push_bmp_row(out: &mut Vec<u8>, rgb: &[u8], w: usize, h: usize, y: usize, stride: usize)
    requires
        y < h,
        rgb@.len() == w * h * 3,
        stride == bmp_stride(w as int),
    ensures
        final(out)@ == old(out)@ + bmp_row(w as int, rgb@, y as int),
{
    let ghost before = out@;
    proof {
        assert(bmp_stride(w as int) >= 3 * w);
    }
    let n_rgb = rgb.len();
    let mut x: usize = 0;
    while x < w
        invariant
            n_rgb == rgb@.len(),
            x <= w,
            y < h,
            stride as int == bmp_stride(w as int),
            stride >= 3 * w,
            rgb@.len() == w * h * 3,
            out@.len() == before.len() + 3 * x,
            forall|q: int| 0 <= q < before.len() ==> out@[q] == before[q],
            forall|k: int|
                0 <= k < 3 * x ==> out@[before.len() + k] == bmp_row(w as int, rgb@, y as int)[k],
        decreases w - x,
    {
        proof {
            assert(y * w + x < w * h) by (nonlinear_arith)
                requires
                    y < h,
                    x < w,
            ;
            assert((y * w + x) * 3 + 2 < rgb@.len()) by (nonlinear_arith)
                requires
                    y * w + x < w * h,
                    rgb@.len() == w * h * 3,
            ;
        }
        let at = (y * w + x) * 3;
        out.push(rgb[at + 2]);
        out.push(rgb[at + 1]);
        out.push(rgb[at]);
        proof {
            let row = bmp_row(w as int, rgb@, y as int);
            assert((3 * x) / 3 == x && (3 * x) % 3 == 0);
            assert((3 * x + 1) / 3 == x && (3 * x + 1) % 3 == 1);
            assert((3 * x + 2) / 3 == x && (3 * x + 2) % 3 == 2);
            assert(row[3 * x] == rgb@[at + 2]);
            assert(row[3 * x + 1] == rgb@[at + 1]);
            assert(row[3 * x + 2] == rgb@[at as int]);
        }
        x = x + 1;
    }
    let mut k: usize = 3 * w;
    while k < stride
        invariant
            3 * w <= k <= stride,
            stride as int == bmp_stride(w as int),
            out@.len() == before.len() + k,
            forall|q: int| 0 <= q < before.len() ==> out@[q] == before[q],
            forall|j: int|
                0 <= j < k ==> out@[before.len() + j] == bmp_row(w as int, rgb@, y as int)[j],
        decreases stride - k,
    {
        out.push(0u8);
        k = k + 1;
    }
    assert(out@ =~= before + bmp_row(w as int, rgb@, y as int));
}

/// A minimal 24-bit BMP file (bottom-up rows, 4-byte padding) of a
/// `width` x `height` picture whose pixels `rgb` are red, green, blue, row
/// by row from the top.
pub fn bmp_bytes(width: u32, height: u32, rgb: &[u8]) -> (out: Vec<u8>)
    requires
        rgb@.len() == width * height * 3,
        width * 3 + 3 <= usize::MAX,
        bmp_stride(width as int) * height + 54 <= usize::MAX,
    ensures
        out@ == spec_bmp(width, height, rgb@),
{
    let w = width as usize;
    let h = height as usize;
    let x3: usize = w * 3 + 3;
    let stride: usize = x3 & !3usize;
    assert(x3 & !3usize == (x3 / 4) * 4) by (bit_vector);
    let image: usize = stride * h;
    let mut out: Vec<u8> = Vec::new();
    push_file_header(&mut out, (image + 54) as u32);
    push_info_header(&mut out, width, height, image as u32);
    assert(out@ =~= bmp_header(width, height));
    let ghost header = out@;
    let mut n: usize = 0;
    while n < h
        invariant
            n <= h,
            h == height,
            w == width,
            stride as int == bmp_stride(w as int),
            rgb@.len() == w * h * 3,
            header == bmp_header(width, height),
            out@ == header + bmp_rows(w as int, h as int, rgb@, n as int),
        decreases h - n,
    {
        let y = h - 1 - n;
        push_bmp_row(&mut out, rgb, w, h, y, stride);
        proof {
            assert(h - (n + 1) == y);
            assert(out@ =~= header + bmp_rows(w as int, h as int, rgb@, n + 1));
        }
        n = n + 1;
    }
    out
}

// ---- the file reads back ----

/// The RGBA raster of `rgb`: each pixel opaque.
pub open spec fn opaque_rgba(rgb: Seq<u8>, pixels: int) -> Seq<u8> {
    Seq::new((pixels * 4) as nat, |i: int| if i % 4 == 3 { 255u8 } else { rgb[(i / 4) * 3 + i % 4] })
}

proof fn lemma_le32(s: Seq<u8>, at: int, v: u32)
    requires
        0 <= at,
        at + 4 <= s.len(),
        s.subrange(at, at + 4) == le32(v),
    ensures
        le_u32(s, at) == v,
{
    assert(s[at] == le32(v)[0] && s[at + 1] == le32(v)[1] && s[at + 2] == le32(v)[2] && s[at + 3]
        == le32(v)[3]);
    assert((v % 256) + (v / 256 % 256) * 256 + (v / 65536 % 256) * 65536 + (v / 16777216) * 16777216
        == v) by (bit_vector);
}

proof fn lemma_le16(s: Seq<u8>, at: int, v: u16)
    requires
        0 <= at,
        at + 2 <= s.len(),
        s.subrange(at, at + 2) == le16(v),
    ensures
        le_u16(s, at) == v,
{
    assert(s[at] == le16(v)[0] && s[at + 1] == le16(v)[1]);
    assert((v % 256) + (v / 256) * 256 == v) by (bit_vector);
}

/// The BMP stride is the DIB row stride of a 24-bit picture.
proof fn lemma_strides_agree(w: int)
    requires
        0 <= w,
    ensures
        bmp_stride(w) == row_stride(24, w),
{
    let q = w / 4;
    let r = w % 4;
    assert(w == 4 * q + r && 0 <= r < 4) by {
        vstd::arithmetic::div_mod::lemma_fundamental_div_mod(w, 4);
    }
    assert((w * 3 + 3) / 4 == 3 * q + r) by {
        assert(w * 3 + 3 == 4 * (3 * q) + (3 * r + 3));
        vstd::arithmetic::div_mod::lemma_fundamental_div_mod_converse(w * 3 + 3, 4, 3 * q + r, (3 * r
            + 3) - 4 * r);
    }
    assert((24 * w + 31) / 32 == 3 * q + r) by {
        assert(24 * w + 31 == 32 * (3 * q + r) + (31 - 8 * r));
        vstd::arithmetic::div_mod::lemma_fundamental_div_mod_converse(24 * w + 31, 32, 3 * q + r, 31
            - 8 * r);
    }
}

proof fn lemma_rows_index(w: int, h: int, rgb: Seq<u8>, n: int, r: int, k: int)
    requires
        0 <= r < n,
        0 <= k < bmp_stride(w),
        0 <= w,
    ensures
        bmp_rows(w, h, rgb, n)[r * bmp_stride(w) + k] == bmp_row(w, rgb, h - 1 - r)[k],
    decreases n,
{
    let st = bmp_stride(w);
    lemma_stride_nonneg(w);
    lemma_rows_len(w, h, rgb, n - 1);
    let prev = bmp_rows(w, h, rgb, n - 1);
    let last = bmp_row(w, rgb, h - n);
    assert(last.len() == st);
    assert(bmp_rows(w, h, rgb, n) == prev + last);
    if r < n - 1 {
        lemma_rows_index(w, h, rgb, n - 1, r, k);
        assert(r * st + k < (n - 1) * st) by (nonlinear_arith)
            requires
                r < n - 1,
                k < st,
                0 <= k,
        ;
        assert(prev.len() == (n - 1) * st);
    } else {
        assert(r * st == (n - 1) * st);
        if n - 1 > 0 {
            assert(prev.len() == (n - 1) * st);
        } else {
            assert(n == 1);
            assert(prev.len() == 0);
            assert((n - 1) * st == 0) by (nonlinear_arith)
                requires
                    n == 1,
            ;
        }
        assert((prev + last)[r * st + k] == last[k]);
    }
}

proof fn lemma_stride_nonneg(w: int)
    requires
        0 <= w,
    ensures
        bmp_stride(w) >= 3 * w,
        bmp_stride(w) >= 0,
{
    let q = (w * 3 + 3) / 4;
    vstd::arithmetic::div_mod::lemma_fundamental_div_mod(w * 3 + 3, 4);
}

proof fn lemma_rows_len(w: int, h: int, rgb: Seq<u8>, n: int)
    requires
        0 <= w,
    ensures
        bmp_rows(w, h, rgb, n).len() == if n <= 0 { 0 } else { n * bmp_stride(w) },
    decreases n,
{
    lemma_stride_nonneg(w);
    let st = bmp_stride(w);
    if n > 0 {
        lemma_rows_len(w, h, rgb, n - 1);
        assert(bmp_row(w, rgb, h - n).len() == st);
        if n == 1 {
            assert(n * st == st) by (nonlinear_arith)
                requires
                    n == 1,
            ;
        } else {
            assert(n * st == (n - 1) * st + st) by (nonlinear_arith);
        }
    }
}

/// The shifts and widths of the 8-8-8 masks.
proof fn lemma_mask_facts()
    ensures
        u32_trailing_zeros(0x00FF_0000u32) == 16,
        u32_trailing_zeros(0x0000_FF00u32) == 8,
        u32_trailing_zeros(0x0000_00FFu32) == 0,
        popcount(0x00FF_0000u32) == 8,
        popcount(0x0000_FF00u32) == 8,
        popcount(0x0000_00FFu32) == 8,
        pow2(16) == 65536,
        pow2(8) == 256,
        pow2(0) == 1,
{
    lemma2_to64();
    axiom_u32_trailing_zeros(0x00FF_0000u32);
    axiom_u32_trailing_zeros(0x0000_FF00u32);
    axiom_u32_trailing_zeros(0x0000_00FFu32);
    assert((0x00FF_0000u32 >> 16u32) & 1u32 == 1u32) by (bit_vector);
    assert(forall|t: u32| t < 16 ==> #[trigger] (0x00FF_0000u32 >> t) & 1u32 == 0u32) by (bit_vector);
    assert((0x0000_FF00u32 >> 8u32) & 1u32 == 1u32) by (bit_vector);
    assert(forall|t: u32| t < 8 ==> #[trigger] (0x0000_FF00u32 >> t) & 1u32 == 0u32) by (bit_vector);
    assert((0x0000_00FFu32 >> 0u32) & 1u32 == 1u32) by (bit_vector);
    assert(u32_trailing_zeros(0x00FF_0000u32) == 16) by {
        let t = u32_trailing_zeros(0x00FF_0000u32);
        if t < 16 {
            assert((0x00FF_0000u32 >> t) & 1u32 == 0u32);
        } else if t > 16 {
            assert((0x00FF_0000u32 >> 16u32) & 1u32 == 0u32);
        }
    }
    assert(u32_trailing_zeros(0x0000_FF00u32) == 8) by {
        let t = u32_trailing_zeros(0x0000_FF00u32);
        if t < 8 {
            assert((0x0000_FF00u32 >> t) & 1u32 == 0u32);
        } else if t > 8 {
            assert((0x0000_FF00u32 >> 8u32) & 1u32 == 0u32);
        }
    }
    assert(u32_trailing_zeros(0x0000_00FFu32) == 0) by {
        let t = u32_trailing_zeros(0x0000_00FFu32);
        if t > 0 {
            assert((0x0000_00FFu32 >> 0u32) & 1u32 == 0u32);
        }
    }
    assert(popcount(0x00FF_0000u32) == 8) by {
        reveal_with_fuel(popcount, 26);
    }
    assert(popcount(0x0000_FF00u32) == 8) by {
        reveal_with_fuel(popcount, 18);
    }
    assert(popcount(0x0000_00FFu32) == 8) by {
        reveal_with_fuel(popcount, 10);
    }
}

/// The channels of a 24-bit pixel whose bytes are blue, green, red.
proof fn lemma_byte_channels(b0: u8, b1: u8, b2: u8)
    ensures
        ({
            let v = (b0 + b1 * 256 + b2 * 65536) as u32;
            &&& spec_channel(v, 0x00FF_0000u32) == b2
            &&& spec_channel(v, 0x0000_FF00u32) == b1
            &&& spec_channel(v, 0x0000_00FFu32) == b0
        }),
{
    let v = (b0 + b1 * 256 + b2 * 65536) as u32;
    lemma_mask_facts();
    assert(v == (b0 as u32) | ((b1 as u32) << 8u32) | ((b2 as u32) << 16u32)) by (bit_vector)
        requires
            v == (b0 + b1 * 256 + b2 * 65536) as u32,
    ;
    assert((v & 0x00FF_0000u32) / 65536 == b2 && (v & 0x0000_FF00u32) / 256 == b1 && (v
        & 0x0000_00FFu32) == b0) by (bit_vector)
        requires
            v == (b0 as u32) | ((b1 as u32) << 8u32) | ((b2 as u32) << 16u32),
    ;
    vstd::arithmetic::div_mod::lemma_div_multiples_vanish(b0 as int, 255);
    vstd::arithmetic::div_mod::lemma_div_multiples_vanish(b1 as int, 255);
    vstd::arithmetic::div_mod::lemma_div_multiples_vanish(b2 as int, 255);
}

proof fn lemma_bmp_parses(b: Seq<u8>, w: int, h: int, st: int)
    requires
        b.len() == 40 + st * h,
        le_u32(b, 0) == 40,
        le_i32(b, 4) == w,
        le_i32(b, 8) == h,
        le_u16(b, 14) == 24,
        le_u32(b, 16) == 0,
        0 < w <= 16384,
        0 < h <= 16384,
        w * h <= 64000000,
        st == row_stride(24, w),
    ensures
        spec_parse(b) is Some,
        spec_parse(b).unwrap().width == w,
        spec_parse(b).unwrap().height == h,
        !spec_parse(b).unwrap().top_down,
        spec_parse(b).unwrap().bpp == 24,
        spec_parse(b).unwrap().pixels_at == 40,
        spec_parse(b).unwrap().stride == st,
        spec_parse(b).unwrap().masks == (0x00FF_0000u32, 0x0000_FF00u32, 0x0000_00FFu32, 0u32),
{
}

proof fn lemma_pixel_reads_back(width: u32, height: u32, rgb: Seq<u8>, b: Seq<u8>, i: int)
    requires
        rgb.len() == width * height * 3,
        0 < width <= 16384,
        0 < height <= 16384,
        width * height <= 64000000,
        b.len() == 40 + bmp_stride(width as int) * height,
        forall|k: int|
            0 <= k < bmp_stride(width as int) * height ==> b[40 + k] == #[trigger] bmp_rows(
                width as int,
                height as int,
                rgb,
                height as int,
            )[k],
        spec_parse(b) is Some,
        spec_parse(b).unwrap().width == width,
        spec_parse(b).unwrap().height == height,
        !spec_parse(b).unwrap().top_down,
        spec_parse(b).unwrap().bpp == 24,
        spec_parse(b).unwrap().pixels_at == 40,
        spec_parse(b).unwrap().stride == bmp_stride(width as int),
        spec_parse(b).unwrap().masks == (0x00FF_0000u32, 0x0000_FF00u32, 0x0000_00FFu32, 0u32),
        0 <= i < width * height * 4,
    ensures
        spec_decode(b).unwrap().pixels[i] == opaque_rgba(rgb, width * height)[i],
{
    let w = width as int;
    let h = height as int;
    let st = bmp_stride(w);
    lemma_stride_nonneg(w);
    let rows = bmp_rows(w, h, rgb, h);
    let d = spec_parse(b).unwrap();
    assert(w * h * 4 == (w * h) * 4);
    let p = i / 4;
    let c = i % 4;
    assert(0 <= p < w * h && i == 4 * p + c && 0 <= c < 4) by {
        vstd::arithmetic::div_mod::lemma_fundamental_div_mod(i, 4);
    }
    let x = p % w;
    let y = p / w;
    assert(p == w * y + x && 0 <= x < w) by {
        vstd::arithmetic::div_mod::lemma_fundamental_div_mod(p, w);
    }
    assert(0 <= y < h) by {
        if y >= h {
            assert(w * y >= w * h) by (nonlinear_arith)
                requires
                    y >= h,
                    w > 0,
            ;
        }
        if y < 0 {
            assert(w * y < 0) by (nonlinear_arith)
                requires
                    y < 0,
                    w > 0,
            ;
        }
    }
    let row = h - 1 - y;
    let base = 40 + row * st;
    assert(3 * x + 2 < st);
    lemma_rows_index(w, h, rgb, h, row, 3 * x);
    lemma_rows_index(w, h, rgb, h, row, 3 * x + 1);
    lemma_rows_index(w, h, rgb, h, row, 3 * x + 2);
    assert(0 <= row * st && row * st + st <= st * h) by (nonlinear_arith)
        requires
            0 <= row < h,
            0 <= st,
    ;
    assert(b[base + 3 * x] == rows[row * st + 3 * x]);
    assert(b[base + 3 * x + 1] == rows[row * st + 3 * x + 1]);
    assert(b[base + 3 * x + 2] == rows[row * st + 3 * x + 2]);
    assert((3 * x) / 3 == x && (3 * x) % 3 == 0);
    assert((3 * x + 1) / 3 == x && (3 * x + 1) % 3 == 1);
    assert((3 * x + 2) / 3 == x && (3 * x + 2) % 3 == 2);
    assert(h - 1 - row == y);
    assert(y * w + x == p) by (nonlinear_arith)
        requires
            p == w * y + x,
    ;
    assert(b[base + 3 * x] == rgb[p * 3 + 2]);
    assert(b[base + 3 * x + 1] == rgb[p * 3 + 1]);
    assert(b[base + 3 * x + 2] == rgb[p * 3]);
    lemma_byte_channels(b[base + 3 * x], b[base + 3 * x + 1], b[base + 3 * x + 2]);
    assert(i / 4 == p && i % 4 == c);
}

/// The bitmap inside the BMP file: its info header's fields, and the rows
/// after them.
proof fn lemma_bmp_fields(width: u32, height: u32, rgb: Seq<u8>)
    requires
        0 < width <= 16384,
        0 < height <= 16384,
    ensures
        ({
            let b = spec_bmp(width, height, rgb).skip(14);
            let st = bmp_stride(width as int);
            &&& b.len() == 40 + st * height
            &&& le_u32(b, 0) == 40
            &&& le_i32(b, 4) == width
            &&& le_i32(b, 8) == height
            &&& le_u16(b, 14) == 24
            &&& le_u32(b, 16) == 0
            &&& forall|k: int|
                0 <= k < st * height ==> b[40 + k] == #[trigger] bmp_rows(
                    width as int,
                    height as int,
                    rgb,
                    height as int,
                )[k]
        }),
{
    let w = width as int;
    let h = height as int;
    let st = bmp_stride(w);
    let image = st * h;
    lemma_rows_len(w, h, rgb, h);
    lemma_stride_nonneg(w);
    assert(st <= 4 * 16384) by {
        assert(w * 3 + 3 <= 16384 * 3 + 3);
    }
    assert(0 < image <= 65536 * 16384) by (nonlinear_arith)
        requires
            3 <= st <= 65536,
            0 < h <= 16384,
            image == st * h,
    ;
    assert(h * st == st * h) by (nonlinear_arith);
    let info = info_header(width, height, image as u32);
    let rows = bmp_rows(w, h, rgb, h);
    let b = spec_bmp(width, height, rgb).skip(14);
    assert(file_header((image + 54) as u32).len() == 14);
    assert(info.len() == 40);
    assert(b =~= info + rows);
    assert(b.subrange(0, 4) =~= le32(40));
    assert(b.subrange(4, 8) =~= le32(width));
    assert(b.subrange(8, 12) =~= le32(height));
    assert(b.subrange(14, 16) =~= le16(24));
    assert(b.subrange(16, 20) =~= le32(0));
    lemma_le32(b, 0, 40);
    lemma_le32(b, 4, width);
    lemma_le32(b, 8, height);
    lemma_le16(b, 14, 24);
    lemma_le32(b, 16, 0);
    assert forall|k: int| 0 <= k < st * h implies b[40 + k] == #[trigger] rows[k] by {
        assert(b[40 + k] == (info + rows)[40 + k]);
    }
}

/// The picture the screenshot tool writes reads back: the BMP file's
/// bitmap (everything after its 14-byte file header) is what the clipboard
/// decoder takes, and it decodes to the same pixels, opaque, for every
/// size the decoder accepts.
pub proof fn lemma_bmp_decodes_back(width: u32, height: u32, rgb: Seq<u8>)
    requires
        rgb.len() == width * height * 3,
        0 < width <= 16384,
        0 < height <= 16384,
        width * height <= 64000000,
    ensures
        !height_unrepresentable(spec_bmp(width, height, rgb).skip(14)),
        spec_decode(spec_bmp(width, height, rgb).skip(14)) == Some(
            RasterSpec {
                width: width as int,
                height: height as int,
                pixels: opaque_rgba(rgb, width * height),
            },
        ),
{
    let w = width as int;
    let h = height as int;
    let st = bmp_stride(w);
    lemma_strides_agree(w);
    lemma_bmp_fields(width, height, rgb);
    let b = spec_bmp(width, height, rgb).skip(14);
    assert(!height_unrepresentable(b));
    lemma_bmp_parses(b, w, h, st);
    let want = opaque_rgba(rgb, w * h);
    let got = spec_decode(b).unwrap();
    assert(got.pixels.len() == want.len());
    assert forall|i: int| 0 <= i < want.len() implies got.pixels[i] == want[i] by {
        lemma_pixel_reads_back(width, height, rgb, b, i);
    }
    assert(got.pixels =~= want);
}

} // verus!

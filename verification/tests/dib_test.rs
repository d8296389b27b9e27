use quire::platform::dib::{decode, dib_to_png, height_is_unrepresentable, BI_BITFIELDS, BI_RGB};

/// A BITMAPINFOHEADER: 40 bytes, in field order.
fn header(bpp: u16, w: i32, h: i32, compression: u32) -> Vec<u8> {
    let mut v = Vec::new();
    v.extend_from_slice(&40u32.to_le_bytes()); // biSize
    v.extend_from_slice(&w.to_le_bytes()); // biWidth
    v.extend_from_slice(&h.to_le_bytes()); // biHeight
    v.extend_from_slice(&1u16.to_le_bytes()); // biPlanes
    v.extend_from_slice(&bpp.to_le_bytes()); // biBitCount
    v.extend_from_slice(&compression.to_le_bytes()); // biCompression
    v.extend_from_slice(&0u32.to_le_bytes()); // biSizeImage
    v.extend_from_slice(&0i32.to_le_bytes()); // biXPelsPerMeter
    v.extend_from_slice(&0i32.to_le_bytes()); // biYPelsPerMeter
    v.extend_from_slice(&0u32.to_le_bytes()); // biClrUsed
    v.extend_from_slice(&0u32.to_le_bytes()); // biClrImportant
    assert_eq!(v.len(), 40);
    v
}

fn decode_png(png: &[u8]) -> image::RgbaImage {
    image::load_from_memory(png).unwrap().to_rgba8()
}

#[test]
fn a_bottom_up_dib_is_flipped_and_a_top_down_one_is_left_alone() {
    // DIB bytes are B,G,R(,A). Bottom-up: the array's first row is the
    // picture's *second* row.
    let mut b = header(24, 1, 2, BI_RGB);
    b.extend_from_slice(&[255, 0, 0, 0]); // array row 0 = bottom, blue
    b.extend_from_slice(&[0, 0, 255, 0]); // array row 1 = top, red
    let img = decode_png(&dib_to_png(&b).unwrap());
    assert_eq!(img.get_pixel(0, 0).0, [255, 0, 0, 255], "top is red");
    assert_eq!(img.get_pixel(0, 1).0, [0, 0, 255, 255], "bottom is blue");

    let mut t = header(24, 1, -2, BI_RGB);
    t.extend_from_slice(&[0, 0, 255, 0]); // negative height: array row 0 *is* the top
    t.extend_from_slice(&[255, 0, 0, 0]);
    let img = decode_png(&dib_to_png(&t).unwrap());
    assert_eq!(img.get_pixel(0, 0).0, [255, 0, 0, 255]);
    assert_eq!(img.get_pixel(0, 1).0, [0, 0, 255, 255]);
}

#[test]
fn rows_are_padded_to_four_bytes() {
    // three 24-bit pixels = 9 bytes, padded to 12
    let mut b = header(24, 3, 1, BI_RGB);
    // BGR rows: blue, green, black, then the pad byte
    b.extend_from_slice(&[255, 0, 0, 0, 255, 0, 0, 0, 0, 0, 0, 0]);
    let img = decode_png(&dib_to_png(&b).unwrap());
    assert_eq!(img.get_pixel(0, 0).0, [0, 0, 255, 255]);
    assert_eq!(img.get_pixel(1, 0).0, [0, 255, 0, 255]);
    assert_eq!(img.get_pixel(2, 0).0, [0, 0, 0, 255]);
}

#[test]
fn a_zeroed_alpha_byte_becomes_opaque_because_screenshots_have_no_alpha() {
    let mut b = header(32, 2, 1, BI_RGB);
    b.extend_from_slice(&[10, 20, 30, 0]);
    b.extend_from_slice(&[40, 50, 60, 0]);
    let img = decode_png(&dib_to_png(&b).unwrap());
    assert_eq!(img.get_pixel(0, 0).0, [30, 20, 10, 255]);
    assert_eq!(img.get_pixel(1, 0).0, [60, 50, 40, 255]);
}

#[test]
fn a_real_alpha_channel_survives() {
    let mut b = header(32, 1, 1, BI_RGB);
    b.extend_from_slice(&[10, 20, 30, 128]);
    let img = decode_png(&dib_to_png(&b).unwrap());
    assert_eq!(img.get_pixel(0, 0).0, [30, 20, 10, 128]);
}

#[test]
fn bitfields_masks_are_read_rather_than_assumed() {
    // 5-6-5 is the common 16-bit layout and is not the BI_RGB 5-5-5
    // default: pure green is 0x07E0 here and 0x03E0 there.
    let mut b = header(16, 1, 1, BI_BITFIELDS);
    b.extend_from_slice(&[0x00, 0xF8, 0x00, 0x00]); // red mask
    b.extend_from_slice(&[0xE0, 0x07, 0x00, 0x00]); // green mask
    b.extend_from_slice(&[0x1F, 0x00, 0x00, 0x00]); // blue mask
    b.extend_from_slice(&[0xE0, 0x07, 0x00, 0x00]); // 0x07E0, padded to 4
    let img = decode_png(&dib_to_png(&b).unwrap());
    assert_eq!(img.get_pixel(0, 0).0, [0, 255, 0, 255], "6-bit green scales to 255");

    // the same pixel read as 5-5-5 is not green at all
    let mut five = header(16, 1, 1, BI_RGB);
    five.extend_from_slice(&[0xE0, 0x07, 0x00, 0x00]);
    let img = decode_png(&dib_to_png(&five).unwrap());
    assert_ne!(img.get_pixel(0, 0).0, [0, 255, 0, 255]);
}

#[test]
fn a_palette_index_finds_its_colour_whether_the_header_lists_two_or_256() {
    let mut b = header(8, 2, 1, BI_RGB);
    b.extend_from_slice(&[0, 0, 200, 0]); // index 0: BGRA -> red
    b.extend_from_slice(&[0, 100, 0, 0]); // index 1: green
    for _ in 2..256 {
        b.extend_from_slice(&[0, 0, 0, 0]);
    }
    b.extend_from_slice(&[1, 0, 0, 0]); // index 1, index 0
    let img = decode_png(&dib_to_png(&b).unwrap());
    assert_eq!(img.get_pixel(0, 0).0, [0, 100, 0, 255]);
    assert_eq!(img.get_pixel(1, 0).0, [200, 0, 0, 255]);

    // biClrUsed = 2: the palette really is two entries, and the pixel
    // array starts right after them
    let mut two = header(8, 2, 1, BI_RGB);
    two[32..36].copy_from_slice(&2u32.to_le_bytes());
    two.extend_from_slice(&[0, 0, 200, 0]);
    two.extend_from_slice(&[0, 100, 0, 0]);
    two.extend_from_slice(&[1, 0, 0, 0]);
    let img = decode_png(&dib_to_png(&two).unwrap());
    assert_eq!(img.get_pixel(0, 0).0, [0, 100, 0, 255]);
    assert_eq!(img.get_pixel(1, 0).0, [200, 0, 0, 255]);
}

#[test]
fn one_bit_pixels_unpack_msb_first() {
    let mut b = header(1, 3, 1, BI_RGB);
    b.extend_from_slice(&[0, 0, 0, 0]);
    b.extend_from_slice(&[255, 255, 255, 255]);
    b.extend_from_slice(&[0b1010_0000, 0, 0, 0]);
    let img = decode_png(&dib_to_png(&b).unwrap());
    assert_eq!(img.get_pixel(0, 0).0, [255, 255, 255, 255]);
    assert_eq!(img.get_pixel(1, 0).0, [0, 0, 0, 255]);
    assert_eq!(img.get_pixel(2, 0).0, [255, 255, 255, 255]);
}

#[test]
fn a_truncated_or_rle_payload_is_not_a_picture() {
    assert!(dib_to_png(&[]).is_none());
    assert!(dib_to_png(&[40, 0, 0]).is_none());
    // a full header that promises 8 pixels and delivers none
    assert!(dib_to_png(&header(24, 4, 2, BI_RGB)).is_none());
    // BI_RLE8 = 1
    assert!(dib_to_png(&header(8, 1, 1, 1)).is_none());
    // a header size that is not one of the four we know
    let mut odd = header(24, 1, 1, BI_RGB);
    odd[0] = 124;
    assert!(dib_to_png(&odd).is_none(), "a 124-byte header with 1 byte of data");
}

// ---- more shapes of header and pixel ----

#[test]
fn decode_gives_rgba_rows_top_first() {
    let mut b = header(24, 2, 2, BI_RGB);
    // bottom row (array row 0): blue, green; then top row: red, white
    b.extend_from_slice(&[255, 0, 0, 0, 255, 0, 0, 0]);
    b.extend_from_slice(&[0, 0, 255, 255, 255, 255, 0, 0]);
    let img = decode(&b).unwrap();
    assert_eq!((img.width, img.height), (2, 2));
    assert_eq!(
        img.pixels,
        vec![255, 0, 0, 255, 255, 255, 255, 255, 0, 0, 255, 255, 0, 255, 0, 255]
    );
}

#[test]
fn a_four_bit_palette_reads_high_nibble_first_and_an_unlisted_index_is_black() {
    let mut b = header(4, 3, 1, BI_RGB);
    b[32..36].copy_from_slice(&2u32.to_le_bytes()); // two entries only
    b.extend_from_slice(&[0, 0, 200, 0]); // 0: red
    b.extend_from_slice(&[0, 100, 0, 0]); // 1: green
    b.extend_from_slice(&[0x10, 0x70, 0, 0]); // pixels 1, 0, 7
    let img = decode(&b).unwrap();
    assert_eq!(img.pixels, vec![0, 100, 0, 255, 200, 0, 0, 255, 0, 0, 0, 255]);
}

#[test]
fn a_v5_header_carries_its_masks_inside() {
    // a 124-byte header, BI_BITFIELDS, 32 bits, masks at 52..68
    let mut b = vec![0u8; 124];
    b[0..4].copy_from_slice(&124u32.to_le_bytes());
    b[4..8].copy_from_slice(&1i32.to_le_bytes());
    b[8..12].copy_from_slice(&1i32.to_le_bytes());
    b[14..16].copy_from_slice(&32u16.to_le_bytes());
    b[16..20].copy_from_slice(&BI_BITFIELDS.to_le_bytes());
    b[52..56].copy_from_slice(&0x0000_00FFu32.to_le_bytes()); // red is the low byte
    b[56..60].copy_from_slice(&0x0000_FF00u32.to_le_bytes());
    b[60..64].copy_from_slice(&0x00FF_0000u32.to_le_bytes());
    b[64..68].copy_from_slice(&0xFF00_0000u32.to_le_bytes());
    b.extend_from_slice(&[1, 2, 3, 4]);
    let img = decode(&b).unwrap();
    assert_eq!(img.pixels, vec![1, 2, 3, 4]);
}

#[test]
fn oversized_and_degenerate_headers_are_refused() {
    assert!(decode(&header(24, 0, 1, BI_RGB)).is_none(), "zero width");
    assert!(decode(&header(24, 1, 0, BI_RGB)).is_none(), "zero height");
    assert!(decode(&header(24, 16_385, 1, BI_RGB)).is_none(), "edge over the limit");
    assert!(decode(&header(24, 10_000, 10_000, BI_RGB)).is_none(), "area over the limit");
    assert!(decode(&header(12, 1, 1, BI_RGB)).is_none(), "no such bit depth");
}

#[test]
fn the_one_header_with_no_absolute_height_is_recognised() {
    let b = header(24, 1, i32::MIN, BI_RGB);
    assert!(height_is_unrepresentable(&b));
    assert!(!height_is_unrepresentable(&header(24, 1, -1, BI_RGB)));
    assert!(!height_is_unrepresentable(&[40, 0]));
}

#[test]
fn png_bytes_are_a_png_and_not_the_raster() {
    let mut b = header(24, 1, 1, BI_RGB);
    b.extend_from_slice(&[0, 0, 255, 0]);
    let png = dib_to_png(&b).unwrap();
    assert_eq!(&png[..8], &[0x89, b'P', b'N', b'G', 0x0D, 0x0A, 0x1A, 0x0A]);
    assert_ne!(png, decode(&b).unwrap().pixels);
}

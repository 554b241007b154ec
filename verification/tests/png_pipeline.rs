use trmrs_core::dimensions::Dimensions;
use trmrs_core::png::{centering_offset, decode_and_center_png, pack_image_rows, PngError};
use trmrs_core::scene::{render_scene, RenderOutcome, Scene, SceneAssets};

fn crc32(data: &[u8]) -> u32 {
    let mut crc: u32 = 0xFFFF_FFFF;
    for &b in data {
        crc ^= b as u32;
        for _ in 0..8 {
            if crc & 1 != 0 {
                crc = (crc >> 1) ^ 0xEDB8_8320;
            } else {
                crc >>= 1;
            }
        }
    }
    !crc
}

fn adler32(data: &[u8]) -> u32 {
    let mut a: u32 = 1;
    let mut b: u32 = 0;
    for &x in data {
        a = (a + x as u32) % 65521;
        b = (b + a) % 65521;
    }
    (b << 16) | a
}

fn chunk(kind: &[u8; 4], data: &[u8]) -> Vec<u8> {
    let mut out = Vec::new();
    out.extend_from_slice(&(data.len() as u32).to_be_bytes());
    out.extend_from_slice(kind);
    out.extend_from_slice(data);
    let mut crc_input = Vec::new();
    crc_input.extend_from_slice(kind);
    crc_input.extend_from_slice(data);
    out.extend_from_slice(&crc32(&crc_input).to_be_bytes());
    out
}

fn zlib_stored(raw: &[u8]) -> Vec<u8> {
    let mut out = vec![0x78, 0x01];
    let parts: Vec<&[u8]> = if raw.is_empty() {
        vec![&[][..]]
    } else {
        raw.chunks(65535).collect()
    };
    let n = parts.len();
    for (i, part) in parts.iter().enumerate() {
        out.push(if i + 1 == n { 1 } else { 0 });
        let len = part.len() as u16;
        out.extend_from_slice(&len.to_le_bytes());
        out.extend_from_slice(&(!len).to_le_bytes());
        out.extend_from_slice(part);
    }
    out.extend_from_slice(&adler32(raw).to_be_bytes());
    out
}

/// A grayscale, non-interlaced PNG; `rows` holds the packed pixel bytes of
/// each row, without filter bytes.
fn gray_png(width: u32, height: u32, bit_depth: u8, rows: &[Vec<u8>]) -> Vec<u8> {
    let mut png = vec![137, 80, 78, 71, 13, 10, 26, 10];
    let mut ihdr = Vec::new();
    ihdr.extend_from_slice(&width.to_be_bytes());
    ihdr.extend_from_slice(&height.to_be_bytes());
    ihdr.push(bit_depth);
    ihdr.push(0); // grayscale
    ihdr.push(0); // deflate
    ihdr.push(0); // default filtering
    ihdr.push(0); // no interlace
    png.extend_from_slice(&chunk(b"IHDR", &ihdr));
    let mut raw = Vec::new();
    for row in rows {
        raw.push(0); // per-row filter: none
        raw.extend_from_slice(row);
    }
    png.extend_from_slice(&chunk(b"IDAT", &zlib_stored(&raw)));
    png.extend_from_slice(&chunk(b"IEND", &[]));
    png
}

/// A 1-bit grayscale PNG in which every pixel is black (sample value 0).
fn all_black_gray1(width: u32, height: u32) -> Vec<u8> {
    let bpr = ((width + 7) / 8) as usize;
    let rows: Vec<Vec<u8>> = (0..height).map(|_| vec![0u8; bpr]).collect();
    gray_png(width, height, 1, &rows)
}

const SMALL_SCREEN: Dimensions = Dimensions {
    width: 32,
    height: 16,
};

#[test]
fn test_centering_offsets_even() {
    let screen = Dimensions {
        width: 800,
        height: 480,
    };
    let image = Dimensions {
        width: 100,
        height: 100,
    };
    assert_eq!(centering_offset(screen, image), (350, 190));
}

#[test]
fn test_decode_all_black_small() {
    // 8x2 all-black image on a 32x16 screen: x_offset 12 (byte column 1),
    // y_offset 7, row width 4 bytes.
    let png = all_black_gray1(8, 2);
    let mut buffer = vec![0xAAu8; 64];
    let r = decode_and_center_png(&mut buffer, &png, SMALL_SCREEN);
    assert!(r.is_ok());
    for i in 0..64 {
        let expected = if i == 7 * 4 + 1 || i == 8 * 4 + 1 { 0xFF } else { 0x00 };
        assert_eq!(buffer[i], expected, "byte {i}");
    }
}

#[test]
fn test_decode_not_identity() {
    // An 8x1 image with source byte 0xA5 must come out inverted, not copied.
    let png = gray_png(8, 1, 1, &[vec![0xA5]]);
    let mut buffer = vec![0u8; 64];
    let r = decode_and_center_png(&mut buffer, &png, SMALL_SCREEN);
    assert!(r.is_ok());
    assert_eq!(buffer[7 * 4 + 1], 0x5A);
}

#[test]
fn test_decode_edge_masking_width_ten() {
    // 10 pixels per row take two bytes; the low 6 bits of the second byte
    // are padding and must come out white even for an all-black image.
    let png = all_black_gray1(10, 3);
    let mut buffer = vec![0u8; 64];
    let r = decode_and_center_png(&mut buffer, &png, SMALL_SCREEN);
    assert!(r.is_ok());
    // x_offset 11 (byte column 1), y_offset 6.
    for row in 6..9 {
        assert_eq!(buffer[row * 4 + 1], 0xFF, "row {row} first byte");
        assert_eq!(buffer[row * 4 + 2], 0xC0, "row {row} edge byte");
        assert_eq!(buffer[row * 4 + 2] & 0x3F, 0, "row {row} padding bits");
    }
}

#[test]
fn test_decode_oversize_width() {
    let png = all_black_gray1(40, 2);
    let mut buffer = vec![0xAAu8; 64];
    let r = decode_and_center_png(&mut buffer, &png, SMALL_SCREEN);
    assert_eq!(r, Err(PngError::Dimension));
    assert!(buffer.iter().all(|&b| b == 0));
}

#[test]
fn test_decode_oversize_height() {
    let png = all_black_gray1(8, 20);
    let mut buffer = vec![0xAAu8; 64];
    let r = decode_and_center_png(&mut buffer, &png, SMALL_SCREEN);
    assert_eq!(r, Err(PngError::Dimension));
    assert!(buffer.iter().all(|&b| b == 0));
}

#[test]
fn test_decode_oversize_any_format() {
    // Dimensions are judged before the pixel format: an oversized 8-bit
    // image still reports the dimension error.
    let rows: Vec<Vec<u8>> = (0..2).map(|_| vec![0u8; 40]).collect();
    let png = gray_png(40, 2, 8, &rows);
    let mut buffer = vec![0xAAu8; 64];
    let r = decode_and_center_png(&mut buffer, &png, SMALL_SCREEN);
    assert_eq!(r, Err(PngError::Dimension));
    assert!(buffer.iter().all(|&b| b == 0));
}

#[test]
fn test_decode_animated_partial_frame() {
    // An animated stream whose first frame control declares 8x8 while the
    // header says 16x16: the decoded frame does not cover the image, so the
    // render attempt is abandoned and the buffer stays cleared.
    let mut png = vec![137, 80, 78, 71, 13, 10, 26, 10];
    let mut ihdr = Vec::new();
    ihdr.extend_from_slice(&16u32.to_be_bytes());
    ihdr.extend_from_slice(&16u32.to_be_bytes());
    ihdr.extend_from_slice(&[1, 0, 0, 0, 0]);
    png.extend_from_slice(&chunk(b"IHDR", &ihdr));
    let mut actl = Vec::new();
    actl.extend_from_slice(&1u32.to_be_bytes()); // frames
    actl.extend_from_slice(&0u32.to_be_bytes()); // plays
    png.extend_from_slice(&chunk(b"acTL", &actl));
    let mut fctl = Vec::new();
    fctl.extend_from_slice(&0u32.to_be_bytes()); // sequence number
    fctl.extend_from_slice(&8u32.to_be_bytes()); // frame width
    fctl.extend_from_slice(&8u32.to_be_bytes()); // frame height
    fctl.extend_from_slice(&0u32.to_be_bytes()); // x offset
    fctl.extend_from_slice(&0u32.to_be_bytes()); // y offset
    fctl.extend_from_slice(&0u16.to_be_bytes()); // delay numerator
    fctl.extend_from_slice(&100u16.to_be_bytes()); // delay denominator
    fctl.push(0); // dispose
    fctl.push(0); // blend
    png.extend_from_slice(&chunk(b"fcTL", &fctl));
    let mut raw = Vec::new();
    for _ in 0..8 {
        raw.push(0); // filter: none
        raw.push(0); // one all-black 8-pixel row
    }
    png.extend_from_slice(&chunk(b"IDAT", &zlib_stored(&raw)));
    png.extend_from_slice(&chunk(b"IEND", &[]));
    let mut buffer = vec![0xAAu8; 64];
    let r = decode_and_center_png(&mut buffer, &png, SMALL_SCREEN);
    assert_eq!(r, Err(PngError::HeaderDecode));
    assert!(buffer.iter().all(|&b| b == 0));
}

#[test]
fn test_decode_malformed_stream() {
    let mut buffer = vec![0xAAu8; 64];
    let r = decode_and_center_png(&mut buffer, b"not a png at all", SMALL_SCREEN);
    assert_eq!(r, Err(PngError::HeaderDecode));
    assert!(buffer.iter().all(|&b| b == 0));
}

#[test]
fn test_decode_unsupported_depth() {
    // 8-bit grayscale decodes fine as a PNG but is not a format this
    // pipeline packs.
    let png = gray_png(4, 2, 8, &[vec![0, 1, 2, 3], vec![4, 5, 6, 7]]);
    let mut buffer = vec![0xAAu8; 64];
    let r = decode_and_center_png(&mut buffer, &png, SMALL_SCREEN);
    assert_eq!(r, Err(PngError::UnsupportedFormat));
    assert!(buffer.iter().all(|&b| b == 0));
}

#[test]
fn test_decode_truncated_data() {
    // A valid header with the image data missing: accepted by the header
    // pass, rejected by the full decode.
    let mut png = vec![137, 80, 78, 71, 13, 10, 26, 10];
    let mut ihdr = Vec::new();
    ihdr.extend_from_slice(&8u32.to_be_bytes());
    ihdr.extend_from_slice(&1u32.to_be_bytes());
    ihdr.extend_from_slice(&[1, 0, 0, 0, 0]);
    png.extend_from_slice(&chunk(b"IHDR", &ihdr));
    png.extend_from_slice(&chunk(b"IEND", &[]));
    let mut buffer = vec![0xAAu8; 64];
    let r = decode_and_center_png(&mut buffer, &png, SMALL_SCREEN);
    assert_eq!(r, Err(PngError::HeaderDecode));
    assert!(buffer.iter().all(|&b| b == 0));
}

#[test]
fn test_decode_100x100_on_800x480() {
    let png = all_black_gray1(100, 100);
    let screen = Dimensions {
        width: 800,
        height: 480,
    };
    let mut buffer = vec![0xAAu8; 48000];
    let r = decode_and_center_png(&mut buffer, &png, screen);
    assert!(r.is_ok());
    // x_offset 350 (byte column 43), y_offset 190, 13 source bytes per row,
    // last byte keeps its 4 leading bits.
    assert_eq!(buffer[190 * 100 + 43], 0xFF);
    assert_eq!(buffer[190 * 100 + 55], 0xF0);
    assert_eq!(buffer[289 * 100 + 43], 0xFF);
    assert_eq!(buffer[289 * 100 + 55], 0xF0);
    assert_eq!(buffer[190 * 100 + 42], 0x00);
    assert_eq!(buffer[190 * 100 + 56], 0x00);
    assert_eq!(buffer[189 * 100 + 43], 0x00);
    assert_eq!(buffer[290 * 100 + 43], 0x00);
    assert_eq!(buffer[0], 0x00);
    assert_eq!(buffer[47999], 0x00);
}

#[test]
fn test_pack_rows_direct() {
    // Packing three 10-pixel rows: every byte inverted, the edge byte masked
    // whatever its content.
    let pixels = vec![0x00, 0xFF, 0x12, 0x34, 0xAB, 0xCD];
    let image = Dimensions {
        width: 10,
        height: 3,
    };
    let mut buffer = vec![0u8; 64];
    pack_image_rows(&mut buffer, &pixels, image, SMALL_SCREEN);
    let expected = [(0xFF, 0x00), (0xED, 0xC0), (0x54, 0x00)];
    for (r, (first, edge)) in expected.iter().enumerate() {
        let row = 6 + r;
        assert_eq!(buffer[row * 4 + 1], *first, "row {row} first byte");
        assert_eq!(buffer[row * 4 + 2], *edge, "row {row} edge byte");
        assert_eq!(buffer[row * 4 + 2] & 0x3F, 0, "row {row} padding bits");
    }
}

#[test]
fn test_pack_rows_incomplete_row_skipped() {
    // Only one of two rows has complete pixel bytes; the second is skipped.
    let pixels = vec![0x00, 0x00, 0x00];
    let image = Dimensions {
        width: 10,
        height: 2,
    };
    let mut buffer = vec![0u8; 64];
    pack_image_rows(&mut buffer, &pixels, image, SMALL_SCREEN);
    // y_offset (16-2)/2 = 7: row 7 packed, row 8 untouched.
    assert_eq!(buffer[7 * 4 + 1], 0xFF);
    assert_eq!(buffer[7 * 4 + 2], 0xC0);
    assert_eq!(buffer[8 * 4 + 1], 0x00);
    assert_eq!(buffer[8 * 4 + 2], 0x00);
}

#[test]
fn test_render_scene_image() {
    let assets = SceneAssets {
        ferris: all_black_gray1(8, 2),
        hexagons: Vec::new(),
        speckle: Vec::new(),
    };
    let mut buffer = vec![0xAAu8; 64];
    let r = render_scene(&Scene::Ferris, &mut buffer, SMALL_SCREEN, &assets);
    assert_eq!(r, Ok(RenderOutcome::Drawn));
    assert_eq!(buffer[7 * 4 + 1], 0xFF);
    assert_eq!(buffer[0], 0x00);
}

#[test]
fn test_render_scene_image_failure() {
    let assets = SceneAssets {
        ferris: Vec::new(),
        hexagons: Vec::new(),
        speckle: vec![1, 2, 3],
    };
    let mut buffer = vec![0xAAu8; 64];
    let r = render_scene(&Scene::SpecklePng, &mut buffer, SMALL_SCREEN, &assets);
    assert_eq!(r, Err(PngError::HeaderDecode));
    assert!(buffer.iter().all(|&b| b == 0));
}

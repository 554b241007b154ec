//! Decoding a 1-bit grayscale PNG and packing it, centered, into the
//! framebuffer.
//!
//! The stream's header is read by the `minipng` crate (a cheap pass that
//! never touches compressed data) and its pixel data is decoded by the `png`
//! crate; everything the decoders hand back is then packed by verified code:
//! every source byte is inverted (the image format counts `0` as black, the
//! framebuffer counts `1` as black), padding bits at the right edge of a row
//! are forced to white, and the image is placed at a byte-granular centered
//! offset.

use vstd::arithmetic::div_mod::{
    lemma_div_is_ordered, lemma_div_multiples_vanish, lemma_div_pos_is_pos,
    lemma_fundamental_div_mod, lemma_fundamental_div_mod_converse,
};
use vstd::arithmetic::mul::lemma_mul_inequality;
use vstd::prelude::*;

use crate::dimensions::Dimensions;
use crate::framebuffer::{clear_buffer, pixel_bit};

verus! {

/// Why a render attempt from a PNG stream was abandoned.
#[derive(Clone, Copy, Debug, PartialEq, Eq, Structural)]
pub enum PngError {
    /// The stream is not a well-formed PNG.
    HeaderDecode,
    /// The stream is a PNG, but not 1-bit grayscale.
    UnsupportedFormat,
    /// The image is wider or taller than the screen.
    Dimension,
}

/// Whether `minipng::decode_png_header` accepts the stream.
pub uninterp spec fn png_header_ok(data: Seq<u8>) -> bool;

/// The image width that `minipng` reads from the stream's header.
pub uninterp spec fn png_width(data: Seq<u8>) -> u32;

/// The image height that `minipng` reads from the stream's header.
pub uninterp spec fn png_height(data: Seq<u8>) -> u32;

/// The bit depth (bits per sample) that `minipng` reads from the stream's header.
pub uninterp spec fn png_bit_depth(data: Seq<u8>) -> u8;

/// Whether the color type that `minipng` reads from the stream's header is grayscale.
pub uninterp spec fn png_gray(data: Seq<u8>) -> bool;

/// Whether the `png` crate decodes the whole stream, given an output buffer
/// of the size its header asks for.
pub uninterp spec fn png_data_ok(data: Seq<u8>) -> bool;

/// The pixel bytes that the `png` crate decodes out of the stream.
pub uninterp spec fn png_pixels(data: Seq<u8>) -> Seq<u8>;

/// The only pixel format this library packs: grayscale, one bit per pixel.
pub open spec fn png_gray_one_bit(data: Seq<u8>) -> bool {
    png_bit_depth(data) == 1 && png_gray(data)
}

/// The width and height the stream's header declares.
pub open spec fn png_dims(data: Seq<u8>) -> Dimensions {
    Dimensions { width: png_width(data), height: png_height(data) }
}

/// The big-endian 32-bit word at byte offset `i` of `data`.
pub open spec fn be_u32_at(data: Seq<u8>, i: int) -> u32 {
    (data[i] * 0x100_0000 + data[i + 1] * 0x1_0000 + data[i + 2] * 0x100 + data[i + 3]) as u32
}

/// Header fields of a PNG stream, as plain values.
struct PngHeader {
    width: u32,
    height: u32,
    bit_depth: u8,
    gray: bool,
}

/// Relies on `minipng::decode_png_header`: the fields of an accepted header
/// are a function of the input bytes alone — width and height are the
/// big-endian words at byte offsets 16 and 20 (after the 8-byte signature and
/// the IHDR chunk's length and type), each between 1 and 0x7FFF_FFFF.
#[verifier::external_body]
fn read_png_header(data: &[u8]) -> (r: Option<PngHeader>)
    ensures
        r.is_some() == png_header_ok(data@),
        r matches Some(h) ==> {
            &&& h.width == png_width(data@)
            &&& h.height == png_height(data@)
            &&& h.bit_depth == png_bit_depth(data@)
            &&& h.gray == png_gray(data@)
            &&& data@.len() >= 33
            &&& h.width == be_u32_at(data@, 16)
            &&& h.height == be_u32_at(data@, 20)
            &&& 1 <= h.width <= 0x7FFF_FFFF
            &&& 1 <= h.height <= 0x7FFF_FFFF
        },
{
    match minipng::decode_png_header(data) {
        Ok(h) => Some(PngHeader {
            width: h.width(),
            height: h.height(),
            bit_depth: h.bit_depth() as u8,
            gray: matches!(h.color_type(), minipng::ColorType::Gray),
        }),
        Err(_) => None,
    }
}

/// Relies on `png::Decoder::read_info` and `png::Reader::next_frame` (with
/// the identity transformation): for a 1-bit grayscale, non-interlaced image
/// the output buffer must hold `output_buffer_size()`, which is
/// `ceil(width/8) * height` of the header's dimensions; with a buffer of
/// exactly that size, decoding succeeds exactly on well-formed streams, and
/// the first `buffer_size()` output bytes are the decoded frame, a function
/// of the input bytes alone. Nothing is claimed about the frame's size: an
/// animated stream's first frame may be smaller than the header's image, so
/// the caller must judge the returned length itself.
#[verifier::external_body]
fn read_png_pixels(data: &[u8], buf_size: usize) -> (r: Option<Vec<u8>>)
    ensures
        (png_header_ok(data@) && png_gray_one_bit(data@) && buf_size == ((png_width(data@)
            + 7) as int / 8) * png_height(data@)) ==> r.is_some() == png_data_ok(data@),
        r matches Some(p) ==> p@ == png_pixels(data@),
{
    let mut buf = vec![0u8; buf_size];
    let mut reader = match png::Decoder::new(std::io::Cursor::new(data)).read_info() {
        Ok(r) => r,
        Err(_) => return None,
    };
    match reader.next_frame(&mut buf) {
        Ok(info) => Some(buf[..info.buffer_size()].to_vec()),
        Err(_) => None,
    }
}

/// Bytes per source row of a 1-bit image `w` pixels wide.
pub open spec fn row_bytes_of(w: int) -> int {
    (w + 7) / 8
}

/// Pixel columns to the left of a centered image `w` pixels wide.
pub open spec fn x_offset_of(screen_w: int, w: int) -> int {
    (screen_w - w) / 2
}

/// Pixel rows above a centered image `h` pixels tall.
pub open spec fn y_offset_of(screen_h: int, h: int) -> int {
    (screen_h - h) / 2
}

/// The mask that keeps only the `w % 8` leading image bits of a row's last
/// byte. Meaningful when `w % 8 != 0`.
pub open spec fn edge_mask_of(w: u32) -> u8 {
    0xFFu8 << ((8 - (w % 8)) as u8)
}

/// What one source byte becomes in the framebuffer: all bits inverted, and in
/// the last byte of a row whose width is not a multiple of 8, the padding bits
/// forced to 0 (white).
pub open spec fn packed_byte_of(src: u8, is_edge: bool, w: u32) -> u8 {
    if is_edge && w % 8 != 0 {
        !src & edge_mask_of(w)
    } else {
        !src
    }
}

/// How many source rows the packer consumes: every row of the image for which
/// the pixel bytes are complete.
pub open spec fn rows_present_of(pixels_len: int, w: int, h: int) -> int {
    let avail = pixels_len / row_bytes_of(w);
    if avail < h {
        avail
    } else {
        h
    }
}

/// The framebuffer byte at index `i` after `rows` complete source rows and the
/// first `cols` bytes of row `rows` have been packed over `prev`. Meaningful
/// when `screen.width % 8 == 0` and the image fits the screen.
pub open spec fn packed_region_byte(
    prev: Seq<u8>,
    pixels: Seq<u8>,
    image: Dimensions,
    screen: Dimensions,
    rows: int,
    cols: int,
    i: int,
) -> u8 {
    let rw = screen.width as int / 8;
    let rb = row_bytes_of(image.width as int);
    let x0 = x_offset_of(screen.width as int, image.width as int) / 8;
    let y0 = y_offset_of(screen.height as int, image.height as int);
    if rw <= 0 {
        prev[i]
    } else {
        let row = i / rw;
        let col = i % rw;
        if y0 <= row < y0 + rows && x0 <= col < x0 + rb {
            packed_byte_of(pixels[(row - y0) * rb + (col - x0)], col - x0 == rb - 1, image.width)
        } else if row == y0 + rows && x0 <= col < x0 + cols {
            packed_byte_of(pixels[rows * rb + (col - x0)], col - x0 == rb - 1, image.width)
        } else {
            prev[i]
        }
    }
}

/// The framebuffer byte at index `i` after `rows` complete source rows have
/// been packed over `prev`.
pub open spec fn packed_frame_byte(
    prev: Seq<u8>,
    pixels: Seq<u8>,
    image: Dimensions,
    screen: Dimensions,
    rows: int,
    i: int,
) -> u8 {
    packed_region_byte(prev, pixels, image, screen, rows, 0, i)
}

/// Rounding up to whole bytes: `(w + 7) / 8` is `w / 8`, plus one when the
/// division has a remainder.
proof fn lemma_ceil8(w: int)
    requires
        w >= 0,
    ensures
        (w + 7) / 8 == w / 8 + if w % 8 != 0 {
            1int
        } else {
            0int
        },
{
    lemma_fundamental_div_mod(w, 8);
    if w % 8 == 0 {
        lemma_fundamental_div_mod_converse(w + 7, 8, w / 8, 7);
    } else {
        lemma_fundamental_div_mod_converse(w + 7, 8, w / 8 + 1, w % 8 - 1);
    }
}

/// A sum of two floors is at most the floor of the sum.
proof fn lemma_floor_add_le(a: int, b: int, d: int)
    requires
        a >= 0,
        b >= 0,
        d >= 1,
    ensures
        a / d + b / d <= (a + b) / d,
{
    lemma_fundamental_div_mod(a, d);
    lemma_fundamental_div_mod(b, d);
    assert(d * (a / d) + d * (b / d) <= a + b);
    assert(d * (a / d + b / d) <= a + b) by (nonlinear_arith)
        requires
            d * (a / d) + d * (b / d) <= a + b,
    ;
    lemma_div_multiples_vanish(a / d + b / d, d);
    lemma_div_is_ordered(d * (a / d + b / d), a + b, d);
}

/// Geometry of a centered image on a byte-aligned screen: the destination
/// bytes of every row lie inside one framebuffer row, and every framebuffer
/// row lies inside the buffer the caller must supply.
proof fn lemma_byte_layout(screen: Dimensions, image: Dimensions)
    requires
        screen.width % 8 == 0,
        1 <= image.width <= screen.width,
        image.height <= screen.height,
    ensures
        ({
            let rw = screen.width as int / 8;
            let rb = row_bytes_of(image.width as int);
            let x0 = x_offset_of(screen.width as int, image.width as int) / 8;
            let y0 = y_offset_of(screen.height as int, image.height as int);
            &&& 1 <= rw
            &&& 1 <= rb
            &&& 0 <= x0
            &&& x0 + rb <= rw
            &&& 0 <= y0
            &&& y0 + image.height <= screen.height
            &&& screen.height as int * rw <= (screen.width as int * screen.height as int + 7) / 8
        }),
{
    let sw = screen.width as int;
    let sh = screen.height as int;
    let w = image.width as int;
    let h = image.height as int;
    let rw = sw / 8;
    let rb = row_bytes_of(w);
    let xo = x_offset_of(sw, w);
    let x0 = xo / 8;
    let y0 = y_offset_of(sh, h);

    lemma_fundamental_div_mod(sw, 8);
    assert(sw == 8 * rw);
    assert(1 <= rw);
    lemma_div_is_ordered(8, w + 7, 8);
    assert(1 <= rb);

    // x0 + rb <= rw
    lemma_fundamental_div_mod(sw - w, 2);
    lemma_div_pos_is_pos(sw - w, 2);
    assert(0 <= xo <= sw - w);
    lemma_div_pos_is_pos(xo, 8);
    lemma_div_is_ordered(xo, sw - w, 8);
    lemma_floor_add_le(sw - w, w + 7, 8);
    assert((sw - w) + (w + 7) == sw + 7);
    lemma_fundamental_div_mod_converse(8 * rw + 7, 8, rw, 7);
    assert((sw + 7) / 8 == rw);
    assert(x0 + rb <= rw);

    // y0 + h <= sh
    lemma_fundamental_div_mod(sh - h, 2);
    lemma_div_pos_is_pos(sh - h, 2);
    assert(0 <= y0 <= sh - h);

    // sh * rw <= (sw * sh + 7) / 8
    assert(sw * sh == 8 * (rw * sh)) by (nonlinear_arith)
        requires
            sw == 8 * rw,
    ;
    lemma_fundamental_div_mod_converse(8 * (rw * sh) + 7, 8, rw * sh, 7);
    assert((sw * sh + 7) / 8 == rw * sh);
    assert(sh * rw == rw * sh) by (nonlinear_arith);
}

/// After one byte is written at its destination index, the packed region has
/// grown by exactly that byte.
proof fn lemma_pack_write(
    prev: Seq<u8>,
    cur: Seq<u8>,
    pixels: Seq<u8>,
    image: Dimensions,
    screen: Dimensions,
    y: int,
    bx: int,
    dest: int,
    val: u8,
)
    requires
        screen.width % 8 == 0,
        1 <= image.width <= screen.width,
        image.height <= screen.height,
        prev.len() == cur.len(),
        cur.len() >= (screen.width as int * screen.height as int + 7) / 8,
        0 <= y < image.height,
        0 <= bx < row_bytes_of(image.width as int),
        (y + 1) * row_bytes_of(image.width as int) <= pixels.len(),
        dest == (y_offset_of(screen.height as int, image.height as int) + y) * (screen.width as int
            / 8) + x_offset_of(screen.width as int, image.width as int) / 8 + bx,
        val == packed_byte_of(
            pixels[y * row_bytes_of(image.width as int) + bx],
            bx == row_bytes_of(image.width as int) - 1,
            image.width,
        ),
        forall|i: int|
            0 <= i < cur.len() ==> cur[i] == packed_region_byte(
                prev,
                pixels,
                image,
                screen,
                y,
                bx,
                i,
            ),
    ensures
        0 <= dest < cur.len(),
        forall|i: int|
            0 <= i < cur.len() ==> cur.update(dest, val)[i] == packed_region_byte(
                prev,
                pixels,
                image,
                screen,
                y,
                bx + 1,
                i,
            ),
{
    let sw = screen.width as int;
    let sh = screen.height as int;
    let h = image.height as int;
    let rw = sw / 8;
    let rb = row_bytes_of(image.width as int);
    let x0 = x_offset_of(sw, image.width as int) / 8;
    let y0 = y_offset_of(sh, h);

    lemma_byte_layout(screen, image);

    // source index is inside the pixel bytes
    assert(y * rb + bx < (y + 1) * rb) by (nonlinear_arith)
        requires
            bx < rb,
    ;
    assert(y * rb >= 0) by (nonlinear_arith)
        requires
            y >= 0,
            rb >= 0,
    ;

    // destination index is inside the buffer
    assert((y0 + y) * rw + rw <= sh * rw) by (nonlinear_arith)
        requires
            y0 + y + 1 <= sh,
            rw >= 1,
    ;
    assert(0 <= (y0 + y) * rw) by (nonlinear_arith)
        requires
            y0 + y >= 0,
            rw >= 0,
    ;
    assert(dest < cur.len());

    // the written index decomposes as row `y0 + y`, column `x0 + bx`
    lemma_fundamental_div_mod_converse(dest, rw, y0 + y, x0 + bx);
    assert(dest / rw == y0 + y);
    assert(dest % rw == x0 + bx);

    assert forall|i: int| 0 <= i < cur.len() implies cur.update(dest, val)[i]
        == packed_region_byte(prev, pixels, image, screen, y, bx + 1, i) by {
        lemma_fundamental_div_mod(i, rw);
        if i == dest {
            assert(cur.update(dest, val)[i] == val);
        } else {
            let row = i / rw;
            let col = i % rw;
            if row == y0 + y && col == x0 + bx {
                assert(i == rw * row + col);
                assert(rw * (y0 + y) == (y0 + y) * rw) by (nonlinear_arith);
                assert(i == dest);
                assert(false);
            }
        }
    }
}

/// Packing the last byte of a row is the same as starting the next row with
/// nothing packed yet.
proof fn lemma_row_step(
    prev: Seq<u8>,
    pixels: Seq<u8>,
    image: Dimensions,
    screen: Dimensions,
    y: int,
)
    requires
        0 <= y,
    ensures
        forall|i: int|
            packed_region_byte(
                prev,
                pixels,
                image,
                screen,
                y,
                row_bytes_of(image.width as int),
                i,
            ) == packed_region_byte(prev, pixels, image, screen, y + 1, 0, i),
{
    let rb = row_bytes_of(image.width as int);
    assert forall|i: int|
        packed_region_byte(prev, pixels, image, screen, y, rb, i) == packed_region_byte(
            prev,
            pixels,
            image,
            screen,
            y + 1,
            0,
            i,
        ) by {
        let rw = screen.width as int / 8;
        if rw > 0 {
            let row = i / rw;
            let y0 = y_offset_of(screen.height as int, image.height as int);
            if row == y0 + y {
                assert((row - y0) * rb == y * rb);
            }
        }
    }
}

/// Packs the pixel bytes of a decoded 1-bit image into the framebuffer:
/// each byte is inverted, the last byte of each row is masked, and the image
/// lands centered at a byte-granular column offset. Rows whose pixel bytes
/// are incomplete are skipped, as are destination indexes past the end of the
/// buffer.
#[verifier::loop_isolation(false)]
pub fn pack_image_rows(buffer: &mut Vec<u8>, pixels: &Vec<u8>, image: Dimensions, screen: Dimensions)
    requires
        screen.width % 8 == 0,
        1 <= image.width,
        image.width <= screen.width,
        image.height <= screen.height,
        old(buffer).len() >= (screen.width as int * screen.height as int + 7) / 8,
    ensures
        final(buffer).len() == old(buffer).len(),
        forall|i: int|
            0 <= i < final(buffer).len() ==> final(buffer)@[i] == packed_frame_byte(
                old(buffer)@,
                pixels@,
                image,
                screen,
                rows_present_of(pixels@.len() as int, image.width as int, image.height as int),
                i,
            ),
{
    let w = image.width;
    let h = image.height;
    let bytes_per_row: u32 = w / 8 + if w % 8 != 0 { 1 } else { 0 };
    proof {
        lemma_fundamental_div_mod(w as int, 8);
        lemma_div_is_ordered(w as int, 0xFFFF_FFFF, 8);
        lemma_div_is_ordered(screen.width as int, 0xFFFF_FFFF, 8);
        if w % 8 == 0 {
            lemma_fundamental_div_mod_converse(w as int + 7, 8, w as int / 8, 7);
        } else {
            lemma_fundamental_div_mod_converse(w as int + 7, 8, w as int / 8 + 1, w as int % 8 - 1);
        }
        assert(bytes_per_row == row_bytes_of(w as int));
        assert(bytes_per_row <= 0x2000_0000);
    }
    let row_width: u32 = screen.width / 8;
    proof {
        assert(row_width <= 0x2000_0000);
    }
    let x_offset: u32 = (screen.width - w) / 2;
    let y_offset: u32 = (screen.height - h) / 2;
    let x0: u32 = x_offset / 8;
    let mut y: u32 = 0;
    while y < h
        invariant
            buffer.len() == old(buffer).len(),
            y <= h,
            y as int * bytes_per_row as int <= pixels.len(),
            forall|i: int|
                0 <= i < buffer.len() ==> buffer@[i] == packed_frame_byte(
                    old(buffer)@,
                    pixels@,
                    image,
                    screen,
                    y as int,
                    i,
                ),
        decreases h - y,
    {
        proof {
            assert(y as int * bytes_per_row as int + bytes_per_row as int == (y as int + 1)
                * bytes_per_row as int) by (nonlinear_arith);
            assert((y as int + 1) * bytes_per_row as int <= 0x1_0000_0000 * 0x2000_0000)
                by (nonlinear_arith)
                requires
                    y as int + 1 <= 0x1_0000_0000,
                    0 <= bytes_per_row as int <= 0x2000_0000,
            ;
        }
        let row_start: u64 = y as u64 * bytes_per_row as u64;
        let row_end: u64 = row_start + bytes_per_row as u64;
        if row_end > pixels.len() as u64 {
            proof {
                lemma_fundamental_div_mod_converse(
                    pixels@.len() as int,
                    bytes_per_row as int,
                    y as int,
                    pixels@.len() - y as int * bytes_per_row as int,
                );
                assert(rows_present_of(pixels@.len() as int, w as int, h as int) == y as int);
            }
            return ;
        }
        let mut bx: u32 = 0;
        while bx < bytes_per_row
            invariant
                buffer.len() == old(buffer).len(),
                bx <= bytes_per_row,
                y < h,
                row_start == y as int * bytes_per_row as int,
                row_end == row_start + bytes_per_row,
                row_end <= pixels.len(),
                forall|i: int|
                    0 <= i < buffer.len() ==> buffer@[i] == packed_region_byte(
                        old(buffer)@,
                        pixels@,
                        image,
                        screen,
                        y as int,
                        bx as int,
                        i,
                    ),
            decreases bytes_per_row - bx,
        {
            let src = pixels[(row_start + bx as u64) as usize];
            let mut display_byte: u8 = !src;
            if bx == bytes_per_row - 1 && w % 8 != 0 {
                let mask: u8 = 0xFFu8 << ((8 - w % 8) as u8);
                display_byte = display_byte & mask;
            }
            let ghost rb_g = row_bytes_of(w as int);
            let ghost rw_g = screen.width as int / 8;
            let ghost x0_g = x_offset_of(screen.width as int, w as int) / 8;
            let ghost y0_g = y_offset_of(screen.height as int, h as int);
            proof {
                assert(display_byte == packed_byte_of(
                    pixels@[y as int * rb_g + bx as int],
                    bx as int == rb_g - 1,
                    w,
                ));
            }
            let dest_y: u64 = y_offset as u64 + y as u64;
            let dest_x: u64 = x0 as u64 + bx as u64;
            proof {
                assert(dest_y as int * row_width as int <= 0x2_0000_0000 * 0x2000_0000)
                    by (nonlinear_arith)
                    requires
                        0 <= dest_y as int <= 0x2_0000_0000,
                        0 <= row_width as int <= 0x2000_0000,
                ;
            }
            let dest_idx: u64 = dest_y * row_width as u64 + dest_x;
            proof {
                assert(dest_idx as int == (y0_g + y as int) * rw_g + x0_g + bx as int);
            }
            if dest_idx < buffer.len() as u64 {
                proof {
                    lemma_pack_write(
                        old(buffer)@,
                        buffer@,
                        pixels@,
                        image,
                        screen,
                        y as int,
                        bx as int,
                        dest_idx as int,
                        display_byte,
                    );
                }
                let ghost prev_buf = buffer@;
                buffer[dest_idx as usize] = display_byte;
                proof {
                    assert forall|i: int| 0 <= i < buffer.len() implies buffer@[i]
                        == packed_region_byte(
                        old(buffer)@,
                        pixels@,
                        image,
                        screen,
                        y as int,
                        bx as int + 1,
                        i,
                    ) by {
                        assert(buffer@[i] == prev_buf.update(dest_idx as int, display_byte)[i]);
                    }
                }
            } else {
                proof {
                    lemma_pack_write(
                        old(buffer)@,
                        buffer@,
                        pixels@,
                        image,
                        screen,
                        y as int,
                        bx as int,
                        dest_idx as int,
                        display_byte,
                    );
                    assert(false);
                }
            }
            bx = bx + 1;
        }
        proof {
            lemma_row_step(old(buffer)@, pixels@, image, screen, y as int);
        }
        y = y + 1;
    }
    proof {
        lemma_div_is_ordered(
            h as int * bytes_per_row as int,
            pixels@.len() as int,
            bytes_per_row as int,
        );
        vstd::arithmetic::div_mod::lemma_div_by_multiple(h as int, bytes_per_row as int);
        assert(rows_present_of(pixels@.len() as int, w as int, h as int) == h as int);
    }
}

/// Whether pixel `(x, y)` lies inside the centered placement of `image` on
/// `screen`.
pub open spec fn in_centered_rect(screen: Dimensions, image: Dimensions, x: int, y: int) -> bool {
    let xo = x_offset_of(screen.width as int, image.width as int);
    let yo = y_offset_of(screen.height as int, image.height as int);
    &&& xo <= x < xo + image.width
    &&& yo <= y < yo + image.height
}

/// Locating a pixel's byte on a byte-aligned screen: pixel `(x, y)` lives in
/// byte `y * (width / 8) + x / 8`, which decomposes back into that row and
/// column and lies inside the framebuffer.
proof fn lemma_pixel_byte_index(screen: Dimensions, x: int, y: int)
    requires
        screen.width % 8 == 0,
        1 <= screen.width,
        0 <= x < screen.width,
        0 <= y < screen.height,
    ensures
        ({
            let rw = screen.width as int / 8;
            let i = y * rw + x / 8;
            &&& 0 <= x / 8 < rw
            &&& 0 <= x % 8 < 8
            &&& 8 * (x / 8) <= x
            &&& i / rw == y
            &&& i % rw == x / 8
            &&& 0 <= i < (screen.width as int * screen.height as int + 7) / 8
        }),
{
    let sw = screen.width as int;
    let sh = screen.height as int;
    let rw = sw / 8;
    lemma_fundamental_div_mod(sw, 8);
    assert(sw == 8 * rw);
    assert(1 <= rw);
    lemma_fundamental_div_mod(x, 8);
    lemma_div_pos_is_pos(x, 8);
    lemma_div_is_ordered(x, 8 * rw - 1, 8);
    lemma_fundamental_div_mod_converse(8 * rw - 1, 8, rw - 1, 7);
    assert(x / 8 < rw);
    let i = y * rw + x / 8;
    lemma_fundamental_div_mod_converse(i, rw, y, x / 8);
    assert((y + 1) * rw <= sh * rw) by (nonlinear_arith)
        requires
            y + 1 <= sh,
            rw >= 0,
    ;
    assert(y * rw + rw == (y + 1) * rw) by (nonlinear_arith);
    assert(0 <= y * rw) by (nonlinear_arith)
        requires
            y >= 0,
            rw >= 0,
    ;
    assert(sw * sh == 8 * (rw * sh)) by (nonlinear_arith)
        requires
            sw == 8 * rw,
    ;
    lemma_fundamental_div_mod_converse(8 * (rw * sh) + 7, 8, rw * sh, 7);
    assert(sh * rw == rw * sh) by (nonlinear_arith);
    assert(i < (sw * sh + 7) / 8);
}

/// Every destination pixel outside the centered image rectangle is white.
///
/// `buf` holds a fully decoded image exactly as `decode_and_center_png`
/// leaves it. Both the screen row width and the centering column offset must
/// be whole bytes: with a sub-byte column offset the placement is only
/// byte-granular, and pixels just outside the rectangle can show image
/// content.
pub proof fn lemma_background_stays_white(
    buf: Seq<u8>,
    pixels: Seq<u8>,
    image: Dimensions,
    screen: Dimensions,
    x: int,
    y: int,
)
    requires
        screen.width % 8 == 0,
        x_offset_of(screen.width as int, image.width as int) % 8 == 0,
        1 <= image.width <= screen.width,
        image.height <= screen.height,
        buf.len() >= (screen.width as int * screen.height as int + 7) / 8,
        forall|i: int|
            0 <= i < buf.len() ==> buf[i] == packed_frame_byte(
                Seq::new(buf.len(), |j: int| 0u8),
                pixels,
                image,
                screen,
                image.height as int,
                i,
            ),
        0 <= x < screen.width,
        0 <= y < screen.height,
        !in_centered_rect(screen, image, x, y),
    ensures
        pixel_bit(buf, screen.width, x, y) == 0,
{
    let sw = screen.width as int;
    let w = image.width as int;
    let h = image.height as int;
    let rw = sw / 8;
    let rb = row_bytes_of(w);
    let xo = x_offset_of(sw, w);
    let x0 = xo / 8;
    let y0 = y_offset_of(screen.height as int, h);
    lemma_byte_layout(screen, image);
    lemma_pixel_byte_index(screen, x, y);
    let i = y * rw + x / 8;
    assert(buf[i] == packed_frame_byte(
        Seq::new(buf.len(), |j: int| 0u8),
        pixels,
        image,
        screen,
        h,
        i,
    ));
    lemma_fundamental_div_mod(xo, 8);
    assert(xo == 8 * x0);
    lemma_fundamental_div_mod(x, 8);
    lemma_fundamental_div_mod(w, 8);
    lemma_ceil8(w);
    if y0 <= y < y0 + h && x0 <= x / 8 < x0 + rb {
        // Inside the byte region but outside the rectangle: only padding
        // columns of the row's last byte remain, and the mask keeps them
        // white.
        assert(x >= 8 * x0);
        assert(x >= xo + w);
        if w % 8 == 0 {
            assert(x < 8 * (x0 + rb)) by (nonlinear_arith)
                requires
                    x == 8 * (x / 8) + x % 8,
                    x % 8 < 8,
                    x / 8 < x0 + rb,
            ;
            assert(false);
        } else {
            lemma_fundamental_div_mod_converse(8 * x0 + w, 8, x0 + w / 8, w % 8);
            lemma_div_is_ordered(xo + w, x, 8);
            assert(x / 8 == x0 + rb - 1);
            let s = pixels[(y - y0) * rb + (x / 8 - x0)];
            assert(buf[i] == !s & edge_mask_of(image.width));
            let m: u8 = (w % 8) as u8;
            let b: u8 = (x % 8) as u8;
            assert(x % 8 >= w % 8);
            assert(((!s & (0xFFu8 << ((8 - m) as u8))) >> ((7 - b) as u8)) & 1u8 == 0u8)
                by (bit_vector)
                requires
                    1 <= m <= 7,
                    m <= b <= 7,
            ;
            assert((8 - (image.width % 8)) as u8 == (8 - m) as u8);
            assert(pixel_bit(buf, screen.width, x, y) == 0);
        }
    } else {
        assert(buf[i] == 0u8);
        let b: u8 = (x % 8) as u8;
        assert((0u8 >> ((7 - b) as u8)) & 1u8 == 0u8) by (bit_vector);
    }
}

/// Bit inversion is total: an all-black source image (every pixel byte 0,
/// since the format counts 0 as black) packs to an all-ones region. Together
/// with `lemma_background_stays_white`, which covers the masked padding
/// columns and the rest of the screen, this pins every bit of the frame.
pub proof fn lemma_all_black_packs_solid(
    buf: Seq<u8>,
    pixels: Seq<u8>,
    image: Dimensions,
    screen: Dimensions,
    x: int,
    y: int,
)
    requires
        screen.width % 8 == 0,
        x_offset_of(screen.width as int, image.width as int) % 8 == 0,
        1 <= image.width <= screen.width,
        image.height <= screen.height,
        buf.len() >= (screen.width as int * screen.height as int + 7) / 8,
        pixels.len() >= row_bytes_of(image.width as int) * image.height as int,
        forall|k: int| 0 <= k < pixels.len() ==> pixels[k] == 0u8,
        forall|i: int|
            0 <= i < buf.len() ==> buf[i] == packed_frame_byte(
                Seq::new(buf.len(), |j: int| 0u8),
                pixels,
                image,
                screen,
                image.height as int,
                i,
            ),
        in_centered_rect(screen, image, x, y),
    ensures
        pixel_bit(buf, screen.width, x, y) == 1,
{
    let sw = screen.width as int;
    let w = image.width as int;
    let h = image.height as int;
    let rw = sw / 8;
    let rb = row_bytes_of(w);
    let xo = x_offset_of(sw, w);
    let x0 = xo / 8;
    let y0 = y_offset_of(screen.height as int, h);
    lemma_byte_layout(screen, image);
    lemma_pixel_byte_index(screen, x, y);
    let i = y * rw + x / 8;
    lemma_fundamental_div_mod(xo, 8);
    assert(xo == 8 * x0);
    lemma_fundamental_div_mod(x, 8);
    lemma_fundamental_div_mod(w, 8);
    lemma_ceil8(w);
    // the pixel's byte column lies inside the image's byte region
    lemma_div_is_ordered(xo, x, 8);
    assert(x0 <= x / 8);
    assert(x < xo + w);
    assert(8 * rb >= w);
    assert(x < 8 * (x0 + rb));
    assert(x / 8 < x0 + rb) by (nonlinear_arith)
        requires
            x == 8 * (x / 8) + x % 8,
            0 <= x % 8,
            x < 8 * (x0 + rb),
    ;
    assert(buf[i] == packed_frame_byte(
        Seq::new(buf.len(), |j: int| 0u8),
        pixels,
        image,
        screen,
        h,
        i,
    ));
    let src_idx = (y - y0) * rb + (x / 8 - x0);
    assert(0 <= (y - y0) * rb + (x / 8 - x0) < h * rb) by (nonlinear_arith)
        requires
            0 <= y - y0 < h,
            0 <= x / 8 - x0 < rb,
            1 <= rb,
    ;
    assert(0 <= src_idx < h * rb);
    assert(h * rb == rb * h) by (nonlinear_arith);
    assert(pixels[src_idx] == 0u8);
    assert(buf[i] == packed_byte_of(0u8, x / 8 - x0 == rb - 1, image.width));
    let b: u8 = (x % 8) as u8;
    if x / 8 - x0 == rb - 1 && w % 8 != 0 {
        // the edge byte keeps its `w % 8` leading bits, and the pixel is one
        // of them
        lemma_fundamental_div_mod_converse(8 * x0 + w, 8, x0 + w / 8, w % 8);
        assert(x % 8 < w % 8) by {
            assert(x / 8 == x0 + w / 8);
            assert(x == 8 * (x0 + w / 8) + x % 8);
            assert(x < 8 * x0 + w);
        }
        let m: u8 = (w % 8) as u8;
        assert(((!0u8 & (0xFFu8 << ((8 - m) as u8))) >> ((7 - b) as u8)) & 1u8 == 1u8)
            by (bit_vector)
            requires
                1 <= m <= 7,
                b < m,
        ;
        assert((8 - (image.width % 8)) as u8 == (8 - m) as u8);
    } else {
        assert(buf[i] == !0u8);
        assert(((!0u8) >> ((7 - b) as u8)) & 1u8 == 1u8) by (bit_vector)
            requires
                b <= 7,
        ;
    }
}

/// Edge masking is unconditional: in the last byte of a row whose width is
/// not a multiple of eight, the low `8 - width % 8` padding bits come out 0
/// whatever the decoded byte held.
pub proof fn lemma_edge_mask_clears_padding(src: u8, w: u32)
    requires
        w % 8 != 0,
    ensures
        packed_byte_of(src, true, w) & (0xFFu8 >> ((w % 8) as u8)) == 0,
{
    let m: u8 = (w % 8) as u8;
    assert((!src & (0xFFu8 << ((8 - m) as u8))) & (0xFFu8 >> m) == 0) by (bit_vector)
        requires
            1 <= m <= 7,
    ;
    assert((8 - (w % 8)) as u8 == (8 - m) as u8);
}

/// A row ten pixels wide spans two source bytes; the second byte keeps only
/// its two leading bits, its low six padding bits are forced white.
pub proof fn lemma_edge_mask_width_ten(src: u8)
    ensures
        packed_byte_of(src, true, 10) & 0x3F == 0,
{
    lemma_edge_mask_clears_padding(src, 10);
    assert(0xFFu8 >> ((10u32 % 8) as u8) == 0x3Fu8) by (bit_vector);
}

/// Whether a PNG stream can be rendered on the given screen: a well-formed
/// 1-bit grayscale image no larger than the screen in either dimension, whose
/// decoded frame covers the whole image (an animated stream whose first frame
/// is smaller than the header's image does not render).
pub open spec fn png_renders(data: Seq<u8>, screen: Dimensions) -> bool {
    &&& png_header_ok(data)
    &&& png_gray_one_bit(data)
    &&& png_width(data) <= screen.width
    &&& png_height(data) <= screen.height
    &&& png_data_ok(data)
    &&& png_pixels(data).len() == row_bytes_of(png_width(data) as int) * png_height(data)
}

/// The error a failing render attempt reports: a malformed header, then an
/// oversized image, then an unsupported pixel format, and, for a stream whose
/// header passes but whose data does not decode to a full frame, again a
/// decode error.
pub open spec fn png_error_of(data: Seq<u8>, screen: Dimensions) -> PngError {
    if !png_header_ok(data) {
        PngError::HeaderDecode
    } else if !(png_width(data) <= screen.width && png_height(data) <= screen.height) {
        PngError::Dimension
    } else if !png_gray_one_bit(data) {
        PngError::UnsupportedFormat
    } else {
        PngError::HeaderDecode
    }
}

/// The centered placement of `image` on `screen`: pixel columns to the left
/// of and pixel rows above the image.
pub fn centering_offset(screen: Dimensions, image: Dimensions) -> (r: (u32, u32))
    requires
        image.width <= screen.width,
        image.height <= screen.height,
    ensures
        r.0 == x_offset_of(screen.width as int, image.width as int),
        r.1 == y_offset_of(screen.height as int, image.height as int),
{
    ((screen.width - image.width) / 2, (screen.height - image.height) / 2)
}

/// Decodes a 1-bit grayscale PNG and centers it on the display buffer.
///
/// The buffer is first cleared to all-white. If the stream is malformed,
/// larger than the screen, not 1-bit grayscale, or decodes to a frame smaller
/// than the header's image (an animated stream's first frame may), the render
/// attempt is abandoned and the buffer stays cleared. Otherwise every decoded
/// row is packed into the buffer: bits inverted, row padding masked to white,
/// the whole image centered at a byte-granular column offset.
pub fn decode_and_center_png(buffer: &mut Vec<u8>, png_data: &[u8], screen_size: Dimensions) -> (r:
    Result<(), PngError>)
    requires
        screen_size.width % 8 == 0,
        old(buffer).len() >= (screen_size.width as int * screen_size.height as int + 7) / 8,
        ((screen_size.width as int + 7) / 8 + 1) * screen_size.height as int <= usize::MAX,
    ensures
        final(buffer).len() == old(buffer).len(),
        r.is_ok() == png_renders(png_data@, screen_size),
        r.is_ok() ==> 1 <= png_width(png_data@) && 1 <= png_height(png_data@),
        r.is_ok() ==> png_pixels(png_data@).len() == row_bytes_of(png_width(png_data@) as int)
            * png_height(png_data@),
        r matches Err(e) ==> e == png_error_of(png_data@, screen_size),
        r.is_err() ==> forall|i: int|
            0 <= i < final(buffer).len() ==> final(buffer)@[i] == 0u8,
        r.is_ok() ==> forall|i: int|
            0 <= i < final(buffer).len() ==> final(buffer)@[i] == packed_frame_byte(
                Seq::new(old(buffer).len() as nat, |j: int| 0u8),
                png_pixels(png_data@),
                png_dims(png_data@),
                screen_size,
                png_height(png_data@) as int,
                i,
            ),
{
    clear_buffer(buffer);
    let header = match read_png_header(png_data) {
        Some(h) => h,
        None => {
            return Err(PngError::HeaderDecode);
        },
    };
    let image = Dimensions { width: header.width, height: header.height };
    if !image.fits_in(&screen_size) {
        return Err(PngError::Dimension);
    }
    if !(header.bit_depth == 1 && header.gray) {
        return Err(PngError::UnsupportedFormat);
    }
    let per_row: u64 = (image.width / 8 + if image.width % 8 != 0 {
        1
    } else {
        0
    }) as u64;
    proof {
        lemma_ceil8(image.width as int);
        lemma_ceil8(screen_size.width as int);
        assert(per_row == (image.width as int + 7) / 8);
        lemma_div_is_ordered(image.width as int + 7, screen_size.width as int + 7, 8);
        lemma_mul_inequality(
            image.height as int,
            screen_size.height as int,
            (screen_size.width as int + 7) / 8 + 1,
        );
        assert(per_row as int * image.height as int <= ((screen_size.width as int + 7) / 8 + 1)
            * screen_size.height as int) by (nonlinear_arith)
            requires
                0 <= per_row as int <= (screen_size.width as int + 7) / 8 + 1,
                0 <= image.height as int <= screen_size.height as int,
        ;
    }
    let needed: u64 = per_row * image.height as u64;
    let pixels = match read_png_pixels(png_data, needed as usize) {
        Some(p) => p,
        None => {
            return Err(PngError::HeaderDecode);
        },
    };
    // An animated stream's first frame can be smaller than the header's
    // image; only a frame that covers the whole image is rendered.
    if pixels.len() as u64 != needed {
        return Err(PngError::HeaderDecode);
    }
    proof {
        let d = png_data@;
        let rbi = (png_width(d) + 7) as int / 8;
        assert(pixels@.len() == rbi * png_height(d));
        vstd::arithmetic::div_mod::lemma_div_by_multiple(png_height(d) as int, rbi);
        assert(png_height(d) as int * rbi == rbi * png_height(d) as int) by (nonlinear_arith);
        assert(pixels@.len() as int / rbi == png_height(d));
    }
    let ghost cleared = buffer@;
    pack_image_rows(buffer, &pixels, image, screen_size);
    proof {
        assert(cleared =~= Seq::new(old(buffer).len() as nat, |j: int| 0u8));
        assert(rows_present_of(
            pixels@.len() as int,
            image.width as int,
            image.height as int,
        ) == png_height(png_data@) as int);
    }
    Ok(())
}

} // verus!

//! Byte-packed 1-bit framebuffer primitives.
//!
//! One bit is one pixel, row-major, most significant bit first. Bit value `1`
//! renders black, `0` renders white.

use vstd::prelude::*;

verus! {

/// The bit that pixel column `x` occupies inside its byte: `1` shifted to the
/// MSB-first position `7 - (x % 8)`.
pub open spec fn column_mask(x: int) -> u8 {
    1u8 << ((7 - (x % 8)) as u8)
}

/// The value (0 or 1) of the pixel at `(x, y)` in a buffer whose rows are
/// `screen_w / 8` bytes wide.
pub open spec fn pixel_bit(buf: Seq<u8>, screen_w: u32, x: int, y: int) -> u8 {
    (buf[y * (screen_w as int / 8) + x / 8] >> ((7 - (x % 8)) as u8)) & 1u8
}

/// Resets every byte of the framebuffer to `0x00` (all white).
pub fn clear_buffer(buffer: &mut Vec<u8>)
    ensures
        final(buffer).len() == old(buffer).len(),
        forall|i: int| 0 <= i < final(buffer).len() ==> final(buffer)@[i] == 0u8,
{
    let n = buffer.len();
    let mut i: usize = 0;
    while i < n
        invariant
            n == buffer.len(),
            i <= n,
            forall|j: int| 0 <= j < i ==> buffer@[j] == 0u8,
        decreases n - i,
    {
        buffer[i] = 0u8;
        i = i + 1;
    }
}

/// Writes one pixel into a buffer packed `width` pixels per row, addressing
/// byte `(y * width + x) / 8` and bit `7 - (x % 8)`. Out-of-range coordinates
/// and byte indexes past the end of the buffer are ignored. `color_on` clears
/// the bit (white); `!color_on` sets it (black).
pub fn write_pixel(buffer: &mut Vec<u8>, x: i32, y: i32, width: u32, height: u32, color_on: bool)
    ensures
        final(buffer).len() == old(buffer).len(),
        ({
            let bi = (y * width + x) / 8;
            if 0 <= x < width && 0 <= y < height && bi < old(buffer).len() {
                final(buffer)@ == old(buffer)@.update(
                    bi,
                    if color_on {
                        old(buffer)@[bi] & !column_mask(x as int)
                    } else {
                        old(buffer)@[bi] | column_mask(x as int)
                    },
                )
            } else {
                final(buffer)@ == old(buffer)@
            }
        }),
{
    if x >= 0 && y >= 0 && (x as i64) < width as i64 && (y as i64) < height as i64 {
        let xu = x as u32;
        let yu = y as u32;
        proof {
            assert(yu as int * width as int + xu as int <= u64::MAX) by (nonlinear_arith)
                requires
                    yu < height,
                    xu < width,
                    width <= u32::MAX,
                    height <= u32::MAX,
            ;
        }
        let byte_index_wide: u64 = (yu as u64 * width as u64 + xu as u64) / 8;
        if byte_index_wide < buffer.len() as u64 {
            let byte_index = byte_index_wide as usize;
            let bit_index = (xu % 8) as u8;
            if color_on {
                let b = buffer[byte_index];
                buffer[byte_index] = b & !(1u8 << (7 - bit_index));
            } else {
                let b = buffer[byte_index];
                buffer[byte_index] = b | (1u8 << (7 - bit_index));
            }
        }
    }
}

} // verus!

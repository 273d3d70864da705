//! Decoding an uncompressed 24-bit bitmap file into a texture.
//!
//! Only the classic 40-byte info header, 24 bits per pixel and no
//! compression are supported. Rows are stored bottom-up and padded to
//! four bytes; the decoded texture is row-major with row 0 on top,
//! each texel packed as opaque `0xFFRRGGBB`.

use vstd::prelude::*;
use crate::texture::Texture;

verus! {

/// Why a byte array is not a decodable bitmap.
#[derive(Clone, Copy, PartialEq, Eq, Structural, Debug)]
pub enum BitmapError {
    /// The file does not start with the bitmap signature.
    Signature,
    /// The info header is not the supported 40-byte form.
    HeaderSize,
    /// The pixel format is not 24 bits per pixel.
    BitsPerPixel,
    /// The pixel data is compressed.
    Compression,
    /// The file ends before the data it announces.
    Truncated,
}

/// A little-endian 32-bit value read at byte offset `o`.
pub open spec fn le_u32(d: Seq<u8>, o: int) -> int {
    d[o] + 256 * (d[o + 1] + 256 * (d[o + 2] + 256 * d[o + 3]))
}

/// A little-endian 16-bit value read at byte offset `o`.
pub open spec fn le_u16(d: Seq<u8>, o: int) -> int {
    d[o] + 256 * d[o + 1]
}

/// The stored size of one pixel row: three bytes per pixel, padded to
/// a multiple of four.
pub open spec fn bmp_row_size(w: int) -> int {
    3 * w + (4 - (3 * w) % 4) % 4
}

/// The packed color of the texel `(x, y)` (row 0 on top): opaque, with
/// the blue-green-red file bytes rearranged to `0xFFRRGGBB`.
pub open spec fn bmp_pixel(d: Seq<u8>, off: int, w: int, h: int, x: int, y: int) -> u32 {
    let base = off + (h - 1 - y) * bmp_row_size(w) + 3 * x;
    (0xFF00_0000 + d[base + 2] * 0x1_0000 + d[base + 1] * 0x100 + d[base]) as u32
}

/// The structural checks of the decoder, in the order they are made.
pub open spec fn bmp_decision(d: Seq<u8>) -> Result<(), BitmapError> {
    if d.len() < 14 {
        Result::Err(BitmapError::Truncated)
    } else if !(d[0] == 66 && d[1] == 77) {
        Result::Err(BitmapError::Signature)
    } else if d.len() < 54 {
        Result::Err(BitmapError::Truncated)
    } else if le_u32(d, 14) != 40 {
        Result::Err(BitmapError::HeaderSize)
    } else if le_u16(d, 28) != 24 {
        Result::Err(BitmapError::BitsPerPixel)
    } else if le_u32(d, 30) != 0 {
        Result::Err(BitmapError::Compression)
    } else if le_u32(d, 10) + le_u32(d, 22) * bmp_row_size(le_u32(d, 18)) > d.len() {
        Result::Err(BitmapError::Truncated)
    } else {
        Result::Ok(())
    }
}

fn read_le_u32(data: &Vec<u8>, o: usize) -> (r: u32)
    requires
        o + 4 <= data.len(),
    ensures
        r == le_u32(data@, o as int),
{
    (data[o] as u32) + 256 * ((data[o + 1] as u32) + 256 * ((data[o + 2] as u32) + 256 * (data[o
        + 3] as u32)))
}

fn read_le_u16(data: &Vec<u8>, o: usize) -> (r: u32)
    requires
        o + 2 <= data.len(),
    ensures
        r == le_u16(data@, o as int),
{
    (data[o] as u32) + 256 * (data[o + 1] as u32)
}

/// Decodes a whole bitmap file into a texture, or says what makes it
/// undecodable. On success the texture has the file's dimensions and
/// every texel is the file's pixel with row order flipped and the
/// color channels repacked.
pub fn decode_bitmap(data: &Vec<u8>) -> (r: Result<Texture, BitmapError>)
    ensures
        r is Err ==> bmp_decision(data@) == Result::<(), BitmapError>::Err(r.unwrap_err()),
        r is Ok ==> bmp_decision(data@) == Result::<(), BitmapError>::Ok(()),
        r is Ok ==> ({
            let t = r.unwrap();
            let w = le_u32(data@, 18);
            let h = le_u32(data@, 22);
            let off = le_u32(data@, 10);
            &&& t.width == w
            &&& t.height == h
            &&& t.data.len() == w * h
            &&& forall|x: int, y: int|
                0 <= x < w && 0 <= y < h ==> t.data@[y * w + x] == bmp_pixel(
                    data@,
                    off,
                    w,
                    h,
                    x,
                    y,
                )
        }),
{
    if data.len() < 14 {
        return Result::Err(BitmapError::Truncated);
    }
    if !(data[0] == 66 && data[1] == 77) {
        return Result::Err(BitmapError::Signature);
    }
    if data.len() < 54 {
        return Result::Err(BitmapError::Truncated);
    }
    let pixel_data_offset: u32 = read_le_u32(data, 10);
    let dib_header_size: u32 = read_le_u32(data, 14);
    if dib_header_size != 40 {
        return Result::Err(BitmapError::HeaderSize);
    }
    let width: u32 = read_le_u32(data, 18);
    let height: u32 = read_le_u32(data, 22);
    let bits_per_pixel: u32 = read_le_u16(data, 28);
    let compression: u32 = read_le_u32(data, 30);
    if bits_per_pixel != 24 {
        return Result::Err(BitmapError::BitsPerPixel);
    }
    if compression != 0 {
        return Result::Err(BitmapError::Compression);
    }
    let row_size: u64 = 3 * (width as u64) + (4 - (3 * (width as u64)) % 4) % 4;
    proof {
        assert(row_size == bmp_row_size(width as int));
    }
    proof {
        crate::fx::lemma_mul_bound2(height as int, row_size as int, 0x1_0000_0000, 0x4_0000_0000);
    }
    let needed: u128 = (pixel_data_offset as u128) + (height as u128) * (row_size as u128);
    if needed > data.len() as u128 {
        return Result::Err(BitmapError::Truncated);
    }
    let w: usize = width as usize;
    let h: usize = height as usize;
    proof {
        assert(3 * (width as int) <= bmp_row_size(width as int)) by (nonlinear_arith)
            requires
                width >= 0,
        ;
        crate::fx::lemma_mul_bound2(height as int, width as int, 0x1_0000_0000, 0x1_0000_0000);
        assert((height as int) * (3 * (width as int)) <= (height as int) * bmp_row_size(
            width as int,
        )) by (nonlinear_arith)
            requires
                3 * (width as int) <= bmp_row_size(width as int),
                height >= 0,
        ;
        assert((height as int) * (3 * (width as int)) == 3 * ((height as int) * (width as int)))
            by (nonlinear_arith);
    }
    let mut texels: Vec<u32> = Vec::new();
    let mut y: usize = 0;
    while y < h
        invariant
            w == width as int,
            h == height as int,
            data.len() >= 54,
            pixel_data_offset as int + (height as int) * bmp_row_size(width as int) <= data.len(),
            row_size == bmp_row_size(width as int),
            3 * (width as int) <= row_size,
            0 <= y <= h,
            texels.len() == y * w,
            (height as int) * (width as int) < 0x1_0000_0000_0000_0000,
            forall|px: int, py: int|
                0 <= px < w && 0 <= py < y ==> #[trigger] texels@[py * w + px] == bmp_pixel(
                    data@,
                    pixel_data_offset as int,
                    width as int,
                    height as int,
                    px,
                    py,
                ),
        decreases h - y,
    {
        proof {
            assert((height as int - 1 - y) * row_size + row_size == (height as int - y) * (
            row_size as int)) by (nonlinear_arith);
            assert((height as int - y) * (row_size as int) <= (height as int) * (row_size as int))
                by (nonlinear_arith)
                requires
                    y >= 0,
                    row_size >= 0,
            ;
            assert((height as int - 1 - y) * row_size >= 0) by (nonlinear_arith)
                requires
                    y < height as int,
                    row_size >= 0,
            ;
        }
        let row_base: usize = (pixel_data_offset as u64 + ((h - 1 - y) as u64) * row_size) as usize;
        let mut x: usize = 0;
        while x < w
            invariant
                w == width as int,
                h == height as int,
                data.len() >= 54,
                pixel_data_offset as int + (height as int) * bmp_row_size(width as int)
                    <= data.len(),
                row_size == bmp_row_size(width as int),
                3 * (width as int) <= row_size,
                0 <= y < h,
                0 <= x <= w,
                row_base == pixel_data_offset as int + (height as int - 1 - y) * bmp_row_size(
                    width as int,
                ),
                row_base + row_size <= data.len(),
                texels.len() == y * w + x,
                (height as int) * (width as int) < 0x1_0000_0000_0000_0000,
                forall|px: int, py: int|
                    0 <= px < w && 0 <= py < y ==> #[trigger] texels@[py * w + px] == bmp_pixel(
                        data@,
                        pixel_data_offset as int,
                        width as int,
                        height as int,
                        px,
                        py,
                    ),
                forall|px: int|
                    0 <= px < x ==> #[trigger] texels@[y * w + px] == bmp_pixel(
                        data@,
                        pixel_data_offset as int,
                        width as int,
                        height as int,
                        px,
                        y as int,
                    ),
            decreases w - x,
        {
            proof {
                assert(3 * (x as int) + 3 <= 3 * (width as int)) by (nonlinear_arith)
                    requires
                        x < width as int,
                ;
            }
            let base: usize = row_base + 3 * x;
            let b: u32 = data[base] as u32;
            let g: u32 = data[base + 1] as u32;
            let rr: u32 = data[base + 2] as u32;
            let color: u32 = 0xFF00_0000u32 + rr * 0x1_0000 + g * 0x100 + b;
            texels.push(color);
            proof {
                assert forall|px: int, py: int|
                    0 <= px < w && 0 <= py < y implies #[trigger] texels@[py * w + px] == bmp_pixel(
                    data@,
                    pixel_data_offset as int,
                    width as int,
                    height as int,
                    px,
                    py,
                ) by {
                    assert(0 <= py * w + px && py * w + px < y * w) by (nonlinear_arith)
                        requires
                            0 <= px < w,
                            0 <= py < y,
                    ;
                }
            }
            x = x + 1;
        }
        proof {
            assert((y + 1) * w == y * w + w) by (nonlinear_arith);
        }
        y = y + 1;
    }
    proof {
        assert(texels.len() == (height as int) * (width as int)) by (nonlinear_arith)
            requires
                texels.len() == (height as int) * (width as int),
        ;
        assert((height as int) * (width as int) == (width as int) * (height as int))
            by (nonlinear_arith);
    }
    Result::Ok(Texture { data: texels, width, height })
}

} // verus!

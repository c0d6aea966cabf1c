//! Image pyramid: tile counts per level, 2x2 composition of child tiles,
//! 2:1 downscaling by pixel averaging, and raw-RGB / QOI tile encodings.

use vstd::prelude::*;
use crate::bit_renderer::{Pixel, PixelBuffer, pixel_index, lemma_index_in_bounds, white};
use crate::error::{Error, error_text};
use crate::types::{FileMetadata, PyramidLevel, Priority, TileCoord};
use crate::text::{chars_of, string_from_chars, dec_digits, push_decimal, push_str};
use crate::tile_codec::{starts_with_qoi_magic, qoi_image, qoi_decode_error_prefix, qoi_encoding, rgba_bytes,
    empty_tile_rgba};
use vstd::arithmetic::power2::{pow2, lemma_pow2_pos};
use vstd::bits::lemma_u64_shr_is_div;

verus! {

/// Tile dimensions in pixels (consistent across all levels)
pub const TILE_WIDTH: u32 = 512;
pub const TILE_HEIGHT: u32 = 512;

/// Tiles per direction at `level`: level 0 needs one tile per 512 pixels of
/// the dump's `size * 8` bits (kept in 32 bits); each further level halves the
/// previous count, rounding up.
pub open spec fn spec_tiles(level: nat, size: u64) -> int
    decreases level,
{
    if level == 0 {
        (((size as int * 8 + 511) / 512) as u32) as int
    } else {
        (spec_tiles((level - 1) as nat, size) + 1) / 2
    }
}

/// The pyramid level record of `level`.
pub open spec fn spec_pyramid_level(level: u32, size: u64) -> PyramidLevel {
    PyramidLevel {
        level,
        tile_width: TILE_WIDTH,
        tile_height: TILE_HEIGHT,
        tiles_wide: spec_tiles(level as nat, size) as u32,
        tiles_tall: spec_tiles(level as nat, size) as u32,
    }
}

/// The level-0 pixel count fits in 64 bits and, for levels above 0, halving
/// never starts from the largest 32-bit count.
pub open spec fn pyramid_level_ok(level: nat, size: u64) -> bool {
    &&& size as int * 8 + 512 <= u64::MAX
    &&& (level > 0 ==> spec_tiles(0, size) < u32::MAX)
}

/// Halving keeps the count positive and below the level-0 count.
pub proof fn lemma_spec_tiles_bounds(level: nat, size: u64)
    ensures
        0 <= spec_tiles(level, size) <= u32::MAX,
        level > 0 ==> spec_tiles(level, size) <= (spec_tiles(0, size) + 1) / 2,
        spec_tiles(0, size) >= 1 ==> spec_tiles(level, size) >= 1,
    decreases level,
{
    if level > 0 {
        lemma_spec_tiles_bounds((level - 1) as nat, size);
    }
}

/// The first level at or above `from` (up to 32) whose pyramid is a single tile.
pub open spec fn first_single_tile_level(from: nat, size: u64) -> Option<nat>
    decreases 33 - from,
{
    if from > 32 {
        None
    } else if spec_tiles(from, size) == 1 {
        Some(from)
    } else {
        first_single_tile_level(from + 1, size)
    }
}

/// The error of a dump that needs more than 32 pyramid levels.
pub open spec fn max_level_message() -> Seq<char> {
    "Pyramid level exceeded maximum (32)"@
}

/// A decoded tile image: dimensions and row-major pixels.
pub struct TileImage {
    pub width: int,
    pub height: int,
    pub pixels: Seq<Pixel>,
}

impl PixelBuffer {
    /// The buffer as an image value.
    pub open spec fn image(&self) -> TileImage {
        TileImage { width: self.spec_width() as int, height: self.spec_height() as int, pixels: self.pixels() }
    }
}

/// Channel-wise average of four pixels, rounded down.
pub open spec fn average4(a: Pixel, b: Pixel, c: Pixel, d: Pixel) -> Pixel {
    Pixel {
        r: ((a.r + b.r + c.r + d.r) / 4) as u8,
        g: ((a.g + b.g + c.g + d.g) / 4) as u8,
        b: ((a.b + b.b + c.b + d.b) / 4) as u8,
    }
}

/// Half-resolution image: pixel `(x, y)` averages the 2x2 block at `(2x, 2y)`.
pub open spec fn spec_downscale(img: TileImage) -> TileImage {
    let w = img.width / 2;
    let h = img.height / 2;
    TileImage {
        width: w,
        height: h,
        pixels: Seq::new((w * h) as nat, |i: int| {
            let x = i % w;
            let y = i / w;
            average4(
                img.pixels[pixel_index(2 * x, 2 * y, img.width)],
                img.pixels[pixel_index(2 * x + 1, 2 * y, img.width)],
                img.pixels[pixel_index(2 * x, 2 * y + 1, img.width)],
                img.pixels[pixel_index(2 * x + 1, 2 * y + 1, img.width)],
            )
        }),
    }
}

/// Raw RGB bytes of a pixel sequence: three bytes per pixel.
pub open spec fn rgb_bytes(pixels: Seq<Pixel>) -> Seq<u8> {
    Seq::new((3 * pixels.len()) as nat, |i: int| {
        let p = pixels[i / 3];
        if i % 3 == 0 { p.r } else if i % 3 == 1 { p.g } else { p.b }
    })
}

/// Pixels decoded from raw RGB bytes into a `width x height` white image:
/// pixel `i` comes from bytes `3i..3i+3` when they are all present.
pub open spec fn rgb_pixels(data: Seq<u8>, n: int) -> Seq<Pixel> {
    Seq::new(n as nat, |i: int|
        if 3 * i + 3 <= data.len() {
            Pixel { r: data[3 * i], g: data[3 * i + 1], b: data[3 * i + 2] }
        } else {
            white()
        })
}

/// Row-by-row copy of `src` into `dst` with its top-left corner at `(ox, oy)`:
/// rows `0..rows` of the source have been written, later rows over earlier ones.
pub open spec fn copy_rows(dst: Seq<Pixel>, src: Seq<Pixel>, sw: int, dw: int, ox: int, oy: int, rows: int) -> Seq<Pixel>
    decreases rows,
{
    if rows <= 0 {
        dst
    } else {
        let prev = copy_rows(dst, src, sw, dw, ox, oy, rows - 1);
        let y = rows - 1;
        Seq::new(prev.len(), |i: int|
            if (oy + y) * dw + ox <= i < (oy + y) * dw + ox + sw {
                src[y * sw + (i - ((oy + y) * dw + ox))]
            } else {
                prev[i]
            })
    }
}

/// Copying rows into a buffer changes exactly the destination pixels of the
/// copied rows: pixel `(px, py)` of the destination then holds the source pixel
/// `(px - ox, py - oy)` when that lies in the copied rows and columns.
pub proof fn lemma_copy_rows_at(
    dst: Seq<Pixel>,
    src: Seq<Pixel>,
    sw: int,
    dw: int,
    ox: int,
    oy: int,
    rows: int,
    px: int,
    py: int,
)
    requires
        0 <= rows,
        0 <= sw,
        0 <= ox,
        0 <= oy,
        ox + sw <= dw,
        0 <= px < dw,
        0 <= py,
    ensures
        copy_rows(dst, src, sw, dw, ox, oy, rows).len() == dst.len(),
        py * dw + px < dst.len() ==> copy_rows(dst, src, sw, dw, ox, oy, rows)[py * dw + px] == if oy <= py < oy
            + rows && ox <= px < ox + sw {
            src[(py - oy) * sw + (px - ox)]
        } else {
            dst[py * dw + px]
        },
    decreases rows,
{
    if rows > 0 {
        lemma_copy_rows_at(dst, src, sw, dw, ox, oy, rows - 1, px, py);
        let y = rows - 1;
        let i = py * dw + px;
        let start = (oy + y) * dw + ox;
        if py == oy + y {
            assert(i - start == px - ox) by (nonlinear_arith)
                requires
                    i == py * dw + px,
                    start == (oy + y) * dw + ox,
                    py == oy + y,
            ;
            assert(y * sw == (py - oy) * sw);
        } else if py < oy + y {
            assert((py + 1) * dw <= (oy + y) * dw) by (nonlinear_arith)
                requires
                    py + 1 <= oy + y,
                    dw >= 0,
            ;
            assert((py + 1) * dw == py * dw + dw) by (nonlinear_arith);
        } else {
            assert((oy + y + 1) * dw <= py * dw) by (nonlinear_arith)
                requires
                    oy + y + 1 <= py,
                    dw >= 0,
            ;
            assert((oy + y + 1) * dw == (oy + y) * dw + dw) by (nonlinear_arith);
        }
    }
}

/// Side of a raw RGB child tile in pixels.
pub const RAW_TILE_SIZE: u32 = 256;

/// Byte length of a raw RGB child tile: 256 x 256 pixels of three bytes.
pub const RAW_TILE_BYTES: usize = 196608;

/// The image a child tile decodes to, or the message of its failure: a tile
/// that starts with the QOI magic is decoded as QOI (and must hold at least a
/// 14-byte header), any other tile must be a 256x256 raw RGB tile.
pub open spec fn child_tile_image(data: Seq<u8>, i: int) -> Result<TileImage, Seq<char>> {
    if starts_with_qoi_magic(data) {
        if data.len() < 14 {
            Err("Invalid QOI tile "@ + dec_digits(i as nat) + ": file too small ("@ + dec_digits(data.len())
                + " bytes)"@)
        } else {
            match qoi_image(data) {
                Ok(img) => Ok(img),
                Err(e) => Err("Failed to decode QOI tile "@ + dec_digits(i as nat) + ": "@ + "Image error: "@
                    + qoi_decode_error_prefix() + e + " (size: "@ + dec_digits(data.len()) + " bytes)"@),
            }
        }
    } else if data.len() != RAW_TILE_BYTES {
        Err("Invalid raw RGB tile size: "@ + dec_digits(data.len()) + " bytes (expected 196608)"@)
    } else {
        Ok(TileImage { width: 256, height: 256, pixels: rgb_pixels(data, 65536) })
    }
}

/// The message of a child tile whose size differs from the first one's.
pub open spec fn mismatch_message(i: int, w: int, h: int, w0: int, h0: int) -> Seq<char> {
    "Tile "@ + dec_digits(i as nat) + " has mismatched dimensions: "@ + dec_digits(w as nat) + "x"@
        + dec_digits(h as nat) + " vs "@ + dec_digits(w0 as nat) + "x"@ + dec_digits(h0 as nat)
}

/// Four equally sized images laid out in a 2x2 grid: `a` top left, `b` top
/// right, `c` bottom left, `d` bottom right.
pub open spec fn composite_image(a: TileImage, b: TileImage, c: TileImage, d: TileImage) -> TileImage {
    let w = a.width;
    let h = a.height;
    TileImage {
        width: 2 * w,
        height: 2 * h,
        pixels: Seq::new((2 * w * (2 * h)) as nat, |i: int| {
            let x = i % (2 * w);
            let y = i / (2 * w);
            let t = if y < h {
                if x < w { a } else { b }
            } else {
                if x < w { c } else { d }
            };
            let tx = if x < w { x } else { x - w };
            let ty = if y < h { y } else { y - h };
            t.pixels[ty * w + tx]
        }),
    }
}

/// The composite of four child tiles, or the message of the first failure:
/// the first tile (in order) that does not decode, then the first whose
/// dimensions differ from those of tile 0.
pub open spec fn tile_composite(t0: Seq<u8>, t1: Seq<u8>, t2: Seq<u8>, t3: Seq<u8>) -> Result<TileImage, Seq<char>> {
    match (child_tile_image(t0, 0), child_tile_image(t1, 1), child_tile_image(t2, 2), child_tile_image(t3, 3)) {
        (Err(m), _, _, _) => Err(m),
        (Ok(_), Err(m), _, _) => Err(m),
        (Ok(_), Ok(_), Err(m), _) => Err(m),
        (Ok(_), Ok(_), Ok(_), Err(m)) => Err(m),
        (Ok(a), Ok(b), Ok(c), Ok(d)) => {
            if b.width != a.width || b.height != a.height {
                Err(mismatch_message(1, b.width, b.height, a.width, a.height))
            } else if c.width != a.width || c.height != a.height {
                Err(mismatch_message(2, c.width, c.height, a.width, a.height))
            } else if d.width != a.width || d.height != a.height {
                Err(mismatch_message(3, d.width, d.height, a.width, a.height))
            } else {
                Ok(composite_image(a, b, c, d))
            }
        },
    }
}

/// PyramidTileGenerator handles composition of lower-level tiles into higher-level tiles
pub struct PyramidTileGenerator;

impl PyramidTileGenerator {
    /// Tile layout of `level`: level 0 covers the dump's bits with 512-pixel
    /// tiles, each level above halves the tile counts (rounding up).
    pub fn calculate_pyramid_level(level: u32, metadata: &FileMetadata) -> (res: Result<PyramidLevel, Error>)
        requires
            pyramid_level_ok(level as nat, metadata.size),
        ensures
            res matches Ok(p) && p == spec_pyramid_level(level, metadata.size),
        decreases level,
    {
        if level == 0 {
            let total_bits = metadata.size * 8;
            let total_pixels = total_bits;
            let tiles_wide = #[verifier::truncate] (((total_pixels + (TILE_WIDTH as u64) - 1) / (TILE_WIDTH as u64)) as u32);
            let tiles_tall = #[verifier::truncate] (((total_pixels + (TILE_HEIGHT as u64) - 1) / (TILE_HEIGHT as u64)) as u32);
            return Ok(PyramidLevel::new(0, TILE_WIDTH, TILE_HEIGHT, tiles_wide, tiles_tall));
        }
        let prev_level = match Self::calculate_pyramid_level(level - 1, metadata) {
            Ok(p) => p,
            Err(e) => return Err(e),
        };
        proof {
            lemma_spec_tiles_bounds((level - 1) as nat, metadata.size);
        }
        let tiles_wide = (prev_level.tiles_wide + 1) / 2;
        let tiles_tall = (prev_level.tiles_tall + 1) / 2;
        if tiles_wide == 1 && tiles_tall == 1 {
            return Ok(PyramidLevel::new(level, TILE_WIDTH, TILE_HEIGHT, 1, 1));
        }
        Ok(PyramidLevel::new(level, TILE_WIDTH, TILE_HEIGHT, tiles_wide, tiles_tall))
    }

    /// The lowest level (at most 32) at which the whole dump fits in one tile.
    pub fn find_max_level(metadata: &FileMetadata) -> (res: Result<u32, Error>)
        requires
            pyramid_level_ok(1, metadata.size),
        ensures
            match first_single_tile_level(0, metadata.size) {
                Some(l) => res == Ok::<u32, Error>(l as u32),
                None => res matches Err(Error::InvalidCoordinates(msg)) && msg@ == max_level_message(),
            },
    {
        let mut level: u32 = 0;
        loop
            invariant
                level <= 32,
                pyramid_level_ok(1, metadata.size),
                first_single_tile_level(0, metadata.size) == first_single_tile_level(level as nat, metadata.size),
            decreases 33 - level,
        {
            let pyr_level = match Self::calculate_pyramid_level(level, metadata) {
                Ok(p) => p,
                Err(e) => return Err(e),
            };
            proof { lemma_spec_tiles_bounds(level as nat, metadata.size); }
            if pyr_level.tiles_wide == 1 && pyr_level.tiles_tall == 1 {
                return Ok(level);
            }
            level = level + 1;
            if level > 32 {
                return Err(Error::InvalidCoordinates(string_from_chars(
                    chars_of("Pyramid level exceeded maximum (32)").as_slice())));
            }
        }
    }

    /// Copies `src` into `dst` row by row with its top-left corner at
    /// `(offset_x, offset_y)`.
    pub fn copy_buffer_region(src: &PixelBuffer, dst: &mut PixelBuffer, offset_x: u32, offset_y: u32)
        -> (res: Result<(), Error>)
        requires
            src.wf(),
            old(dst).wf(),
            src.spec_height() > 0 ==> (offset_y + src.spec_height() - 1) * old(dst).spec_width()
                + offset_x + src.spec_width() <= old(dst).pixels().len(),
            offset_y as int + src.spec_height() <= usize::MAX,
        ensures
            res is Ok,
            final(dst).wf(),
            final(dst).spec_width() == old(dst).spec_width(),
            final(dst).spec_height() == old(dst).spec_height(),
            final(dst).pixels() == copy_rows(old(dst).pixels(), src.pixels(), src.spec_width() as int,
                old(dst).spec_width() as int, offset_x as int, offset_y as int, src.spec_height() as int),
    {
        let src_width = src.width() as usize;
        let src_height = src.height() as usize;
        let dst_width = dst.width() as usize;
        let offset_x = offset_x as usize;
        let offset_y = offset_y as usize;
        let src_data = src.data();
        let ghost dw = dst_width as int;
        let ghost sw = src_width as int;
        let n = src_data.len();
        let dn = dst.data().len();

        let mut y: usize = 0;
        while y < src_height
            invariant
                y <= src_height,
                src_height == src.spec_height(),
                src_width == src.spec_width(),
                src_data@ == src.pixels(),
                src.wf(),
                n == src.pixels().len(),
                dst.wf(),
                dst_width == dst.spec_width(),
                dst.spec_width() == old(dst).spec_width(),
                dst.spec_height() == old(dst).spec_height(),
                dn == dst.pixels().len(),
                src_height > 0 ==> (offset_y + src_height - 1) * dst_width + offset_x + src_width <= dn,
                offset_y + src_height <= usize::MAX,
                sw == src_width,
                dw == dst_width,
                dst.pixels() == copy_rows(old(dst).pixels(), src.pixels(), sw, dw, offset_x as int,
                    offset_y as int, y as int),
            decreases src_height - y,
        {
            proof {
                lemma_index_in_bounds(0, y as int, src_width as int + 1, src_height as int);
                assert(y * src_width + src_width <= src_height * src_width) by (nonlinear_arith)
                    requires
                        y < src_height,
                ;
                assert((offset_y + y) * dst_width + offset_x + src_width
                    <= (offset_y + src_height - 1) * dst_width + offset_x + src_width) by (nonlinear_arith)
                    requires
                        y <= src_height - 1,
                ;
                assert((offset_y + y) * dst_width >= 0) by (nonlinear_arith)
                    requires
                        offset_y >= 0,
                        y >= 0,
                        dst_width >= 0,
                ;
            }
            let src_row_start = y * src_width;
            let dst_row_start = (offset_y + y) * dst_width + offset_x;
            let ghost before = dst.pixels();
            let mut x: usize = 0;
            while x < src_width
                invariant
                    x <= src_width,
                    src_row_start + src_width <= n,
                    dst_row_start + src_width <= dn,
                    n == src.pixels().len(),
                    src_data@ == src.pixels(),
                    dn == dst.pixels().len(),
                    dst.wf(),
                    dst.spec_width() == old(dst).spec_width(),
                    dst.spec_height() == old(dst).spec_height(),
                    dst.pixels().len() == before.len(),
                    forall|i: int| 0 <= i < before.len() ==> #[trigger] dst.pixels()[i] ==
                        if dst_row_start <= i < dst_row_start + x {
                            src.pixels()[src_row_start + (i - dst_row_start)]
                        } else {
                            before[i]
                        },
                decreases src_width - x,
            {
                dst.set_index(dst_row_start + x, src_data[src_row_start + x]);
                x = x + 1;
            }
            proof {
                let next = copy_rows(old(dst).pixels(), src.pixels(), sw, dw, offset_x as int, offset_y as int,
                    y + 1);
                assert(src_row_start == y * sw);
                assert(dst_row_start == (offset_y + y) * dw + offset_x);
                assert(dst.pixels() =~= next);
            }
            y = y + 1;
        }
        Ok(())
    }

    /// Downscales to half width and height: each destination pixel is the
    /// channel-wise average (rounded down) of its 2x2 source block.
    pub fn downscale(tile: &PixelBuffer) -> (res: Result<PixelBuffer, Error>)
        requires
            tile.wf(),
        ensures
            res matches Ok(b) && b.wf() && b.image() == spec_downscale(tile.image()),
    {
        let src_width = tile.width() as usize;
        let src_height = tile.height() as usize;
        let dst_width = (src_width / 2) as u32;
        let dst_height = (src_height / 2) as u32;
        let n = tile.data().len();
        proof {
            assert(dst_width as int * dst_height as int <= src_width * src_height) by (nonlinear_arith)
                requires
                    dst_width == src_width / 2,
                    dst_height == src_height / 2,
            ;
        }
        let mut result = PixelBuffer::new(dst_width, dst_height);
        let rn = result.data().len();
        let src_data = tile.data();
        let ghost target = spec_downscale(tile.image());
        let ghost dw = dst_width as int;

        let mut y: usize = 0;
        while y < dst_height as usize
            invariant
                y <= dst_height,
                src_width == tile.spec_width(),
                src_height == tile.spec_height(),
                dst_width == src_width / 2,
                dst_height == src_height / 2,
                dw == dst_width,
                n == tile.pixels().len(),
                tile.wf(),
                src_data@ == tile.pixels(),
                result.wf(),
                result.spec_width() == dst_width,
                result.spec_height() == dst_height,
                rn == result.pixels().len(),
                target == spec_downscale(tile.image()),
                forall|i: int| 0 <= i < y * dw ==> #[trigger] result.pixels()[i] == target.pixels[i],
            decreases dst_height - y,
        {
            let mut x: usize = 0;
            while x < dst_width as usize
                invariant
                    x <= dst_width,
                    y < dst_height,
                    src_width == tile.spec_width(),
                    src_height == tile.spec_height(),
                    dst_width == src_width / 2,
                    dst_height == src_height / 2,
                    dw == dst_width,
                    n == tile.pixels().len(),
                    tile.wf(),
                    src_data@ == tile.pixels(),
                    result.wf(),
                    result.spec_width() == dst_width,
                    result.spec_height() == dst_height,
                    rn == result.pixels().len(),
                    target == spec_downscale(tile.image()),
                    forall|i: int| 0 <= i < y * dw + x ==> #[trigger] result.pixels()[i] == target.pixels[i],
                decreases dst_width - x,
            {
                let src_x = x * 2;
                let src_y = y * 2;
                proof {
                    lemma_index_in_bounds((src_x + 1) as int, (src_y + 1) as int, src_width as int, src_height as int);
                    lemma_index_in_bounds(x as int, y as int, dw, dst_height as int);
                    assert(src_y * src_width >= 0) by (nonlinear_arith);
                    assert((src_y + 1) * src_width == src_y * src_width + src_width) by (nonlinear_arith);
                }
                let idx00 = src_y * src_width + src_x;
                let idx10 = src_y * src_width + src_x + 1;
                let idx01 = (src_y + 1) * src_width + src_x;
                let idx11 = (src_y + 1) * src_width + src_x + 1;
                let p00 = src_data[idx00];
                let p10 = src_data[idx10];
                let p01 = src_data[idx01];
                let p11 = src_data[idx11];
                let avg_r = ((p00.r as u32 + p10.r as u32 + p01.r as u32 + p11.r as u32) >> 2) as u8;
                let avg_g = ((p00.g as u32 + p10.g as u32 + p01.g as u32 + p11.g as u32) >> 2) as u8;
                let avg_b = ((p00.b as u32 + p10.b as u32 + p01.b as u32 + p11.b as u32) >> 2) as u8;
                proof {
                    let sr = (p00.r as u32 + p10.r as u32 + p01.r as u32 + p11.r as u32) as u32;
                    let sg = (p00.g as u32 + p10.g as u32 + p01.g as u32 + p11.g as u32) as u32;
                    let sb = (p00.b as u32 + p10.b as u32 + p01.b as u32 + p11.b as u32) as u32;
                    assert(sr >> 2 == sr / 4) by (bit_vector);
                    assert(sg >> 2 == sg / 4) by (bit_vector);
                    assert(sb >> 2 == sb / 4) by (bit_vector);
                }
                let avg_pixel = Pixel::new(avg_r, avg_g, avg_b);
                let dst_idx = y * dst_width as usize + x;
                proof {
                    let i = dst_idx as int;
                    assert(i % dw == x as int && i / dw == y as int) by (nonlinear_arith)
                        requires
                            i == y * dw + x,
                            0 <= x < dw,
                            y >= 0,
                    ;
                    assert(target.pixels[i] == avg_pixel);
                }
                result.set_index(dst_idx, avg_pixel);
                x = x + 1;
            }
            proof {
                assert((y + 1) * dw == y * dw + dw) by (nonlinear_arith);
            }
            y = y + 1;
        }
        proof {
            assert(dst_height * dw == dw * dst_height) by (nonlinear_arith);
            assert(result.pixels() =~= target.pixels);
        }
        Ok(result)
    }

    /// Raw RGB encoding: three bytes (r, g, b) per pixel, row by row.
    pub fn encode_raw_rgb(buffer: &PixelBuffer) -> (out: Vec<u8>)
        requires
            buffer.spec_width() as int * buffer.spec_height() as int * 3 <= u32::MAX,
        ensures
            out@ == rgb_bytes(buffer.pixels()),
    {
        assert(buffer.spec_width() * buffer.spec_height() <= buffer.spec_width() * buffer.spec_height() * 3)
            by (nonlinear_arith);
        let mut rgb_data: Vec<u8> = Vec::with_capacity((buffer.width() * buffer.height() * 3) as usize);
        let data = buffer.data();
        let mut i: usize = 0;
        while i < data.len()
            invariant
                i <= data@.len(),
                data@ == buffer.pixels(),
                rgb_data@ =~= rgb_bytes(data@.subrange(0, i as int)),
            decreases data@.len() - i,
        {
            let p = data[i];
            rgb_data.push(p.r);
            rgb_data.push(p.g);
            rgb_data.push(p.b);
            i = i + 1;
            proof {
                let sub = data@.subrange(0, i as int);
                assert forall|k: int| 0 <= k < rgb_data@.len() implies rgb_data@[k] == rgb_bytes(sub)[k] by {
                    if k < 3 * (i - 1) {
                        assert(sub[k / 3] == data@.subrange(0, i - 1)[k / 3]);
                    }
                }
            }
        }
        assert(data@.subrange(0, data@.len() as int) =~= data@);
        rgb_data
    }

    /// Raw RGB decoding into a `width x height` buffer: pixel `i` takes bytes
    /// `3i..3i+3` when present, the rest stays white.
    pub fn decode_raw_rgb(rgb_data: &[u8], width: u32, height: u32) -> (res: Result<PixelBuffer, Error>)
        requires
            width as int * height as int <= usize::MAX,
        ensures
            res matches Ok(b) && b.wf() && b.spec_width() == width && b.spec_height() == height
                && b.pixels() == rgb_pixels(rgb_data@, width as int * height as int),
    {
        let mut buffer = PixelBuffer::new(width, height);
        let total = buffer.data().len();
        let mut pixel_idx: usize = 0;
        let len: usize = rgb_data.len();
        let n_full = len / 3;
        while pixel_idx < total && pixel_idx < n_full
            invariant
                len == rgb_data@.len(),
                pixel_idx <= total,
                total == buffer.pixels().len(),
                total == width as int * height as int,
                buffer.wf(),
                buffer.spec_width() == width,
                buffer.spec_height() == height,
                n_full == rgb_data@.len() / 3,
                pixel_idx <= n_full,
                forall|i: int| 0 <= i < total ==> #[trigger] buffer.pixels()[i] ==
                    if i < pixel_idx { rgb_pixels(rgb_data@, total as int)[i] } else { white() },
            decreases total - pixel_idx,
        {
            assert(3 * pixel_idx + 3 <= len) by (nonlinear_arith)
                requires
                    pixel_idx < n_full,
                    n_full == len / 3,
            ;
            let base: usize = 3 * pixel_idx;
            let p = Pixel::new(rgb_data[base], rgb_data[base + 1], rgb_data[base + 2]);
            buffer.set_index(pixel_idx, p);
            pixel_idx = pixel_idx + 1;
        }
        proof {
            assert forall|i: int| 0 <= i < total implies #[trigger] buffer.pixels()[i]
                == rgb_pixels(rgb_data@, total as int)[i] by {
                if i >= pixel_idx && 3 * i + 3 <= rgb_data@.len() {
                    assert(i < n_full) by (nonlinear_arith)
                        requires
                            3 * i + 3 <= rgb_data@.len(),
                            n_full == rgb_data@.len() / 3,
                    ;
                }
            }
            assert(buffer.pixels() =~= rgb_pixels(rgb_data@, total as int));
        }
        Ok(buffer)
    }
}

/// Round trip of the raw RGB tile encoding: decoding the encoding of a buffer
/// at its own dimensions gives back its pixels.
pub proof fn lemma_raw_rgb_round_trip(pixels: Seq<Pixel>, width: int, height: int)
    requires
        pixels.len() == width * height,
    ensures
        rgb_pixels(rgb_bytes(pixels), width * height) == pixels,
{
    let bytes = rgb_bytes(pixels);
    assert forall|i: int| 0 <= i < width * height implies #[trigger] rgb_pixels(bytes, width * height)[i] == pixels[i] by {
        assert((3 * i) / 3 == i && (3 * i + 1) / 3 == i && (3 * i + 2) / 3 == i);
        assert((3 * i) % 3 == 0 && (3 * i + 1) % 3 == 1 && (3 * i + 2) % 3 == 2);
    }
    assert(rgb_pixels(bytes, width * height) =~= pixels);
}


fn tile_failure(msg: Vec<char>) -> (e: Error)
    ensures
        e matches Error::TileGenerationFailed(m) && m@ == msg@,
{
    Error::TileGenerationFailed(string_from_chars(msg.as_slice()))
}

impl PyramidTileGenerator {
    /// Decodes child tile `i`: QOI when it starts with the QOI magic, else a
    /// 256x256 raw RGB tile.
    pub fn decode_child_tile(tile_data: &Vec<u8>, i: usize) -> (res: Result<PixelBuffer, Error>)
        requires
            i < 4,
        ensures
            match child_tile_image(tile_data@, i as int) {
                Ok(img) => res matches Ok(b) && b.wf() && b.image() == img,
                Err(m) => res matches Err(Error::TileGenerationFailed(msg)) && msg@ == m,
            },
            res matches Ok(b) ==> 1 <= b.spec_width() as int * b.spec_height() as int <= 400_000_000,
    {
        let len = tile_data.len();
        if len >= 4 && tile_data[0] == 0x71u8 && tile_data[1] == 0x6fu8 && tile_data[2] == 0x69u8
            && tile_data[3] == 0x66u8 {
            if len < 14 {
                let mut m = chars_of("Invalid QOI tile ");
                push_decimal(&mut m, i as u64);
                push_str(&mut m, ": file too small (");
                push_decimal(&mut m, len as u64);
                push_str(&mut m, " bytes)");
                return Err(tile_failure(m));
            }
            match Self::decode_qoi(tile_data.as_slice()) {
                Ok(b) => Ok(b),
                Err(e) => {
                    let mut m = chars_of("Failed to decode QOI tile ");
                    push_decimal(&mut m, i as u64);
                    push_str(&mut m, ": ");
                    let text = e.to_string();
                    push_str(&mut m, text.as_str());
                    push_str(&mut m, " (size: ");
                    push_decimal(&mut m, len as u64);
                    push_str(&mut m, " bytes)");
                    proof {
                        assert(m@ =~= "Failed to decode QOI tile "@ + dec_digits(i as nat) + ": "@ + error_text(e)
                            + " (size: "@ + dec_digits(len as nat) + " bytes)"@);
                    }
                    Err(tile_failure(m))
                },
            }
        } else {
            if len != RAW_TILE_BYTES {
                let mut m = chars_of("Invalid raw RGB tile size: ");
                push_decimal(&mut m, len as u64);
                push_str(&mut m, " bytes (expected 196608)");
                return Err(tile_failure(m));
            }
            Self::decode_raw_rgb(tile_data.as_slice(), RAW_TILE_SIZE, RAW_TILE_SIZE)
        }
    }

    /// Composites four child tiles into a 2x2 grid (tile 0 top left, 1 top
    /// right, 2 bottom left, 3 bottom right).
    pub fn composite_tiles(tiles: [Vec<u8>; 4]) -> (res: Result<PixelBuffer, Error>)
        ensures
            match tile_composite(tiles@[0]@, tiles@[1]@, tiles@[2]@, tiles@[3]@) {
                Ok(img) => res matches Ok(b) && b.wf() && b.image() == img,
                Err(m) => res matches Err(Error::TileGenerationFailed(msg)) && msg@ == m,
            },
            res matches Ok(b) ==> b.spec_width() as int == 2 * (b.spec_width() as int / 2)
                && b.spec_height() as int == 2 * (b.spec_height() as int / 2)
                && 1 <= (b.spec_width() as int / 2) * (b.spec_height() as int / 2) <= 400_000_000,
    {
        let b0 = match Self::decode_child_tile(&tiles[0], 0) {
            Ok(b) => b,
            Err(e) => return Err(e),
        };
        let b1 = match Self::decode_child_tile(&tiles[1], 1) {
            Ok(b) => b,
            Err(e) => return Err(e),
        };
        let b2 = match Self::decode_child_tile(&tiles[2], 2) {
            Ok(b) => b,
            Err(e) => return Err(e),
        };
        let b3 = match Self::decode_child_tile(&tiles[3], 3) {
            Ok(b) => b,
            Err(e) => return Err(e),
        };
        let width = b0.width();
        let height = b0.height();
        if b1.width() != width || b1.height() != height {
            return Err(Self::mismatch_error(1, &b1, width, height));
        }
        if b2.width() != width || b2.height() != height {
            return Err(Self::mismatch_error(2, &b2, width, height));
        }
        if b3.width() != width || b3.height() != height {
            return Err(Self::mismatch_error(3, &b3, width, height));
        }
        let ghost w = width as int;
        let ghost h = height as int;
        assert(2 * w * (2 * h) == 4 * (w * h)) by (nonlinear_arith);
        assert(1 <= w <= 400_000_000 && 1 <= h <= 400_000_000) by (nonlinear_arith)
            requires
                1 <= w * h <= 400_000_000,
                w >= 0,
                h >= 0,
        ;
        let mut composite = PixelBuffer::new(width * 2, height * 2);
        let ghost white_px = composite.pixels();
        assert((2 * h - 1) * (2 * w) + w + w == 2 * w * (2 * h)) by (nonlinear_arith);
        assert((h - 1) * (2 * w) + w + w <= 2 * w * (2 * h)) by (nonlinear_arith)
            requires
                w >= 0,
                h >= 1,
        ;
        let _ = Self::copy_buffer_region(&b0, &mut composite, 0, 0);
        let ghost c1 = composite.pixels();
        let _ = Self::copy_buffer_region(&b1, &mut composite, width, 0);
        let ghost c2 = composite.pixels();
        let _ = Self::copy_buffer_region(&b2, &mut composite, 0, height);
        let ghost c3 = composite.pixels();
        let _ = Self::copy_buffer_region(&b3, &mut composite, width, height);
        proof {
            let target = composite_image(b0.image(), b1.image(), b2.image(), b3.image());
            let dw = 2 * w;
            assert forall|i: int| 0 <= i < target.pixels.len() implies #[trigger] composite.pixels()[i]
                == target.pixels[i] by {
                let px = i % dw;
                let py = i / dw;
                assert(i == py * dw + px && 0 <= px < dw && 0 <= py < 2 * h) by (nonlinear_arith)
                    requires
                        0 <= i < dw * (2 * h),
                        dw > 0,
                        px == i % dw,
                        py == i / dw,
                ;
                lemma_copy_rows_at(white_px, b0.pixels(), w, dw, 0, 0, h, px, py);
                lemma_copy_rows_at(c1, b1.pixels(), w, dw, w, 0, h, px, py);
                lemma_copy_rows_at(c2, b2.pixels(), w, dw, 0, h, h, px, py);
                lemma_copy_rows_at(c3, b3.pixels(), w, dw, w, h, h, px, py);
            }
            assert(composite.pixels() =~= target.pixels);
        }
        Ok(composite)
    }

    fn mismatch_error(i: u64, buf: &PixelBuffer, width: u32, height: u32) -> (e: Error)
        ensures
            e matches Error::TileGenerationFailed(m) && m@ == mismatch_message(i as int, buf.spec_width() as int,
                buf.spec_height() as int, width as int, height as int),
    {
        let mut m = chars_of("Tile ");
        push_decimal(&mut m, i);
        push_str(&mut m, " has mismatched dimensions: ");
        push_decimal(&mut m, buf.width() as u64);
        push_str(&mut m, "x");
        push_decimal(&mut m, buf.height() as u64);
        push_str(&mut m, " vs ");
        push_decimal(&mut m, width as u64);
        push_str(&mut m, "x");
        push_decimal(&mut m, height as u64);
        tile_failure(m)
    }
}

/// Child `k` (0..4) of a pyramid tile: the 2x2 block at twice its column
/// and row, one level down, in the order top left, top right, bottom left,
/// bottom right.
pub open spec fn child_coord(coord: TileCoord, k: int) -> TileCoord {
    TileCoord { level: (coord.level - 1) as u32, x: (2 * coord.x + k % 2) as u32, y: (2 * coord.y + k / 2) as u32 }
}

/// The children of tile `(x, y)` at level `L` are, in order, `(L-1, 2x, 2y)`,
/// `(L-1, 2x+1, 2y)`, `(L-1, 2x, 2y+1)` and `(L-1, 2x+1, 2y+1)`: the second
/// lies one column right of the first, the third one row below it, and the
/// fourth diagonally below right. So the four children exactly cover the
/// 2x2 block of tiles under their parent, each once.
pub proof fn lemma_children_in_reading_order(coord: TileCoord)
    requires
        coord.level > 0,
        2 * coord.x + 1 <= u32::MAX,
        2 * coord.y + 1 <= u32::MAX,
    ensures
        child_coord(coord, 0) == (TileCoord { level: (coord.level - 1) as u32, x: (2 * coord.x) as u32, y: (2 * coord.y) as u32 }),
        child_coord(coord, 1) == (TileCoord {
            level: (coord.level - 1) as u32,
            x: (2 * coord.x + 1) as u32,
            y: (2 * coord.y) as u32,
        }),
        child_coord(coord, 2) == (TileCoord {
            level: (coord.level - 1) as u32,
            x: (2 * coord.x) as u32,
            y: (2 * coord.y + 1) as u32,
        }),
        child_coord(coord, 3) == (TileCoord {
            level: (coord.level - 1) as u32,
            x: (2 * coord.x + 1) as u32,
            y: (2 * coord.y + 1) as u32,
        }),
        forall|c: TileCoord|
            c.level == coord.level - 1 && c.x / 2 == coord.x && c.y / 2 == coord.y ==> exists|k: int|
                0 <= k < 4 && #[trigger] child_coord(coord, k) == c,
        forall|k: int, j: int|
            0 <= k < 4 && 0 <= j < 4 && k != j ==> #[trigger] child_coord(coord, k) != #[trigger] child_coord(coord, j),
{
    assert forall|c: TileCoord|
        c.level == coord.level - 1 && c.x / 2 == coord.x && c.y / 2 == coord.y implies exists|k: int|
            0 <= k < 4 && #[trigger] child_coord(coord, k) == c by {
        let k: int = (c.x - 2 * coord.x) + 2 * (c.y - 2 * coord.y);
        assert(child_coord(coord, k) == c);
    }
}

/// Tile columns at `level` (256-pixel tiles over the level-0 width divided by
/// `2^level`, kept in 32 bits).
pub open spec fn level_tiles_x(m: FileMetadata, level: nat) -> int {
    (((m.page_length as int * 8 * m.grid_width as int) / (pow2(level) as int) + 255) / 256) as u32 as int
}

/// Tile rows at `level` (256-pixel tiles over the level-0 height divided by
/// `2^level`, kept in 32 bits).
pub open spec fn level_tiles_y(m: FileMetadata, level: nat) -> int {
    (((m.block_size as int * m.grid_height as int) / (pow2(level) as int) + 255) / 256) as u32 as int
}

/// Whether a tile lies inside the dump's grid at its level.
pub open spec fn tile_in_bounds(m: FileMetadata, c: TileCoord) -> bool {
    c.x < level_tiles_x(m, c.level as nat) && c.y < level_tiles_y(m, c.level as nat)
}

/// The arithmetic of a pyramid tile stays in range: its level is below 65,
/// the children's columns and rows fit in 32 bits and the level-0 pixel
/// extents, rounded up to whole tiles, fit in 64 bits.
pub open spec fn pyramid_tile_ok(coord: TileCoord, m: FileMetadata) -> bool {
    &&& coord.level <= 64
    &&& 2 * coord.x + 1 <= u32::MAX
    &&& 2 * coord.y + 1 <= u32::MAX
    &&& m.page_length as int * 8 * m.grid_width as int + 255 <= u64::MAX
    &&& m.block_size as int * m.grid_height as int + 255 <= u64::MAX
}

/// Low-priority children are requested only while the queue holds fewer than
/// 200 tasks; other priorities always request them.
pub open spec fn spec_should_enqueue(priority: Priority, queue_size: int) -> bool {
    match priority {
        Priority::Low => queue_size < 200,
        _ => true,
    }
}

/// The QOI bytes of an empty child tile.
pub open spec fn empty_child_tile() -> Seq<u8> {
    qoi_encoding(empty_tile_rgba(), 256, 256)
}

/// The child `k` in the dump whose cached tile was not supplied, if any.
pub open spec fn missing_child(coord: TileCoord, m: FileMetadata, children: Seq<Option<Vec<u8>>>, k: int) -> Seq<
    TileCoord,
> {
    if tile_in_bounds(m, child_coord(coord, k)) && children[k] is None {
        seq![child_coord(coord, k)]
    } else {
        seq![]
    }
}

/// The children in the dump whose cached tiles were not supplied, in order.
pub open spec fn missing_children(coord: TileCoord, m: FileMetadata, children: Seq<Option<Vec<u8>>>) -> Seq<
    TileCoord,
> {
    missing_child(coord, m, children, 0) + missing_child(coord, m, children, 1) + missing_child(
        coord,
        m,
        children,
        2,
    ) + missing_child(coord, m, children, 3)
}

/// The bytes used for child `k`: its cached tile, or the empty tile when it
/// lies outside the dump.
pub open spec fn child_data(coord: TileCoord, m: FileMetadata, children: Seq<Option<Vec<u8>>>, k: int) -> Seq<u8> {
    if tile_in_bounds(m, child_coord(coord, k)) {
        children[k]->Some_0@
    } else {
        empty_child_tile()
    }
}

/// The stored form of a pyramid tile made from a composite image: its
/// half-resolution image as QOI up to level 3, as raw RGB above.
pub open spec fn pyramid_tile_bytes(level: u32, img: TileImage) -> Seq<u8> {
    let d = spec_downscale(img);
    if level <= 3 {
        qoi_encoding(rgba_bytes(d.pixels), d.width as u32, d.height as u32)
    } else {
        rgb_bytes(d.pixels)
    }
}

/// The message for a pyramid request at level 0.
pub open spec fn level0_pyramid_message() -> Seq<char> {
    "generatePyramidTile only supports level > 0 tiles"@
}


/// Debug rendering of a tile coordinate.
pub open spec fn coord_debug(c: TileCoord) -> Seq<char> {
    "TileCoord { level: "@ + dec_digits(c.level as nat) + ", x: "@ + dec_digits(c.x as nat) + ", y: "@ + dec_digits(
        c.y as nat,
    ) + " }"@
}

/// Debug rendering of the coordinates of a list, comma-separated.
pub open spec fn coords_debug(cs: Seq<TileCoord>) -> Seq<char>
    decreases cs.len(),
{
    if cs.len() == 0 {
        seq![]
    } else if cs.len() == 1 {
        coord_debug(cs[0])
    } else {
        coords_debug(cs.drop_last()) + ", "@ + coord_debug(cs.last())
    }
}

/// The message of a pyramid tile waiting for children.
pub open spec fn waiting_message(missing: Seq<TileCoord>) -> Seq<char> {
    "Child tiles ["@ + coords_debug(missing) + "] not available, registered dependency"@
}

/// Outcome of one pyramid-tile attempt.
pub enum PyramidStep {
    /// The tile's stored bytes, to be cached and returned.
    Ready(Vec<u8>),
    /// Children in the dump that are not cached yet: the parent waits for
    /// them, and they are to be requested when `enqueue` holds.
    Waiting { missing: Vec<TileCoord>, enqueue: bool },
}

fn copy_bytes(v: &Vec<u8>) -> (r: Vec<u8>)
    ensures
        r@ == v@,
{
    let r = v.clone();
    assert(r@ =~= v@);
    r
}

impl PyramidTileGenerator {
    /// The error a pyramid tile gives while children are missing (after its
    /// dependency on them is registered): `Child tiles [..] not available,
    /// registered dependency`, the children in their debug form.
    pub fn missing_children_error(missing: &[TileCoord]) -> (e: Error)
        ensures
            e matches Error::TileGenerationFailed(m) && m@ == waiting_message(missing@),
    {
        let mut out: Vec<char> = chars_of("Child tiles [");
        let mut i: usize = 0;
        while i < missing.len()
            invariant
                i <= missing@.len(),
                out@ == "Child tiles ["@ + coords_debug(missing@.subrange(0, i as int)),
            decreases missing@.len() - i,
        {
            let ghost before = out@;
            let c = missing[i];
            if i > 0 {
                push_str(&mut out, ", ");
            }
            push_str(&mut out, "TileCoord { level: ");
            push_decimal(&mut out, c.level as u64);
            push_str(&mut out, ", x: ");
            push_decimal(&mut out, c.x as u64);
            push_str(&mut out, ", y: ");
            push_decimal(&mut out, c.y as u64);
            push_str(&mut out, " }");
            proof {
                let sub = missing@.subrange(0, i + 1);
                assert(sub.drop_last() =~= missing@.subrange(0, i as int));
                assert(sub.last() == c);
                if i == 0 {
                    assert(coords_debug(missing@.subrange(0, 0)) =~= Seq::<char>::empty());
                    assert(out@ =~= "Child tiles ["@ + coords_debug(sub));
                } else {
                    assert(out@ =~= "Child tiles ["@ + coords_debug(sub));
                }
            }
            i = i + 1;
        }
        assert(missing@.subrange(0, i as int) =~= missing@);
        push_str(&mut out, "] not available, registered dependency");
        Error::TileGenerationFailed(string_from_chars(out.as_slice()))
    }

    /// The four children of a tile, one level down (requires a tile above
    /// level 0 whose children's columns and rows fit in 32 bits).
    pub fn pyramid_children(coord: TileCoord) -> (v: Vec<TileCoord>)
        requires
            coord.level > 0,
            2 * coord.x + 1 <= u32::MAX,
            2 * coord.y + 1 <= u32::MAX,
        ensures
            v@.len() == 4,
            forall|k: int| 0 <= k < 4 ==> #[trigger] v@[k] == child_coord(coord, k),
    {
        let l = coord.level - 1;
        let v = vec![
            TileCoord::new(l, coord.x * 2, coord.y * 2),
            TileCoord::new(l, coord.x * 2 + 1, coord.y * 2),
            TileCoord::new(l, coord.x * 2, coord.y * 2 + 1),
            TileCoord::new(l, coord.x * 2 + 1, coord.y * 2 + 1),
        ];
        v
    }

    /// Whether a tile lies inside the dump's grid at its level.
    pub fn tile_in_bounds(metadata: &FileMetadata, c: TileCoord) -> (b: bool)
        requires
            c.level < 64,
            metadata.page_length as int * 8 * metadata.grid_width as int + 255 <= u64::MAX,
            metadata.block_size as int * metadata.grid_height as int + 255 <= u64::MAX,
        ensures
            b == tile_in_bounds(*metadata, c),
    {
        let pw: u64 = (metadata.page_length as u64 * 8) * metadata.grid_width as u64;
        let pt: u64 = metadata.block_size as u64 * metadata.grid_height as u64;
        let shift = c.level as u64;
        let w = pw >> shift;
        let t = pt >> shift;
        proof {
            lemma_u64_shr_is_div(pw, shift);
            lemma_u64_shr_is_div(pt, shift);
            lemma_pow2_pos(c.level as nat);
            let p = pow2(c.level as nat) as int;
            assert(pw as int / p <= pw && pt as int / p <= pt) by (nonlinear_arith)
                requires
                    p >= 1,
                    pw >= 0,
                    pt >= 0,
            ;
        }
        let max_x = #[verifier::truncate] (((w + 255) / 256) as u32);
        let max_y = #[verifier::truncate] (((t + 255) / 256) as u32);
        c.x < max_x && c.y < max_y
    }

    /// Low-priority children are requested only while the queue is small.
    pub fn should_enqueue_children(priority: Priority, queue_size: usize) -> (b: bool)
        ensures
            b == spec_should_enqueue(priority, queue_size as int),
    {
        match priority {
            Priority::High | Priority::Normal => true,
            Priority::Low => queue_size < 200,
        }
    }

    /// One attempt at a pyramid tile above level 0, given the cached bytes of
    /// its children (`None` where a child is not cached; ignored for children
    /// outside the dump, which use the empty tile). When a child in the dump is
    /// missing the tile waits for it; otherwise the four children are
    /// composited, downscaled and encoded (QOI up to level 3, raw RGB above).
    pub fn generate_pyramid_tile(
        coord: TileCoord,
        metadata: &FileMetadata,
        children: [Option<Vec<u8>>; 4],
        priority: Priority,
        queue_size: usize,
    ) -> (res: Result<PyramidStep, Error>)
        requires
            pyramid_tile_ok(coord, *metadata),
        ensures
            coord.level == 0 ==> (res matches Err(Error::InvalidCoordinates(m)) && m@ == level0_pyramid_message()),
            coord.level > 0 && missing_children(coord, *metadata, children@).len() > 0 ==> (res matches Ok(
                PyramidStep::Waiting { missing, enqueue },
            ) && missing@ == missing_children(coord, *metadata, children@) && enqueue == spec_should_enqueue(
                priority,
                queue_size as int,
            )),
            coord.level > 0 && missing_children(coord, *metadata, children@).len() == 0 ==> match tile_composite(
                child_data(coord, *metadata, children@, 0),
                child_data(coord, *metadata, children@, 1),
                child_data(coord, *metadata, children@, 2),
                child_data(coord, *metadata, children@, 3),
            ) {
                Ok(img) => res matches Ok(PyramidStep::Ready(v)) && v@ == pyramid_tile_bytes(coord.level, img),
                Err(m) => res matches Err(Error::TileGenerationFailed(msg)) && msg@ == m,
            },
    {
        if coord.level == 0 {
            return Err(Error::InvalidCoordinates(string_from_chars(
                chars_of("generatePyramidTile only supports level > 0 tiles").as_slice(),
            )));
        }
        let child_coords = Self::pyramid_children(coord);
        let ghost cs = children@;
        let mut tiles: Vec<Vec<u8>> = Vec::new();
        let mut missing: Vec<TileCoord> = Vec::new();
        let mut k: usize = 0;
        while k < 4
            invariant
                k <= 4,
                pyramid_tile_ok(coord, *metadata),
                coord.level > 0,
                cs == children@,
                child_coords@.len() == 4,
                forall|j: int| 0 <= j < 4 ==> #[trigger] child_coords@[j] == child_coord(coord, j),
                tiles@.len() == k,
                forall|j: int| 0 <= j < k ==> !tile_in_bounds(*metadata, child_coord(coord, j)) ==> (
                #[trigger] tiles@[j])@ == empty_child_tile(),
                forall|j: int| 0 <= j < k ==> tile_in_bounds(*metadata, child_coord(coord, j)) && cs[j] is Some
                    ==> (#[trigger] tiles@[j])@ == cs[j]->Some_0@,
                missing@ == (if k == 0 {
                    seq![]
                } else if k == 1 {
                    missing_child(coord, *metadata, cs, 0)
                } else if k == 2 {
                    missing_child(coord, *metadata, cs, 0) + missing_child(coord, *metadata, cs, 1)
                } else if k == 3 {
                    missing_child(coord, *metadata, cs, 0) + missing_child(coord, *metadata, cs, 1) + missing_child(
                        coord,
                        *metadata,
                        cs,
                        2,
                    )
                } else {
                    missing_children(coord, *metadata, cs)
                }),
            decreases 4 - k,
        {
            let c = child_coords[k];
            if !Self::tile_in_bounds(metadata, c) {
                let empty = match Self::generate_empty_child_tile() {
                    Ok(t) => t,
                    Err(e) => return Err(e),
                };
                tiles.push(empty);
            } else {
                match &children[k] {
                    Some(t) => tiles.push(copy_bytes(t)),
                    None => {
                        missing.push(c);
                        tiles.push(Vec::new());
                    },
                }
            }
            proof {
                assert(missing@ =~= (if k + 1 == 1 {
                    missing_child(coord, *metadata, cs, 0)
                } else if k + 1 == 2 {
                    missing_child(coord, *metadata, cs, 0) + missing_child(coord, *metadata, cs, 1)
                } else if k + 1 == 3 {
                    missing_child(coord, *metadata, cs, 0) + missing_child(coord, *metadata, cs, 1) + missing_child(
                        coord,
                        *metadata,
                        cs,
                        2,
                    )
                } else {
                    missing_children(coord, *metadata, cs)
                }));
            }
            k = k + 1;
        }
        if missing.len() > 0 {
            let enqueue = Self::should_enqueue_children(priority, queue_size);
            return Ok(PyramidStep::Waiting { missing, enqueue });
        }
        proof {
            assert forall|j: int| 0 <= j < 4 implies (#[trigger] tiles@[j])@ == child_data(coord, *metadata, cs, j) by {
                if tile_in_bounds(*metadata, child_coord(coord, j)) {
                    assert(missing_child(coord, *metadata, cs, j).len() == 0);
                }
            }
        }
        let composite = match Self::composite_tiles(
            [copy_bytes(&tiles[0]), copy_bytes(&tiles[1]), copy_bytes(&tiles[2]), copy_bytes(&tiles[3])],
        ) {
            Ok(b) => b,
            Err(e) => return Err(e),
        };
        let downscaled = match Self::downscale(&composite) {
            Ok(b) => b,
            Err(e) => return Err(e),
        };
        proof {
            let w = composite.spec_width() as int / 2;
            let h = composite.spec_height() as int / 2;
            assert(w * h * 4 <= u32::MAX);
        }
        let bytes = if coord.level <= 3 {
            match Self::encode_qoi(&downscaled) {
                Ok(v) => v,
                Err(e) => return Err(e),
            }
        } else {
            Self::encode_raw_rgb(&downscaled)
        };
        Ok(PyramidStep::Ready(bytes))
    }
}

} // verus!

//! Bidirectional conversion between tile coordinates and byte offsets.
//!
//! A tile at `(x, y)` of level `L` covers `256 * 2^L` level-0 pixels in each
//! direction; one pixel is one bit horizontally and one byte vertically. The
//! dump is a grid of blocks (`grid_width` blocks per row), each block holding
//! `block_size` pages of `page_length` bytes.

use vstd::prelude::*;
use vstd::arithmetic::power2::{pow2, lemma_pow2_pos, lemma2_to64, lemma2_to64_rest, lemma_pow2_strictly_increases,
    lemma_pow2_unfold};
use vstd::arithmetic::div_mod::{lemma_fundamental_div_mod, lemma_div_pos_is_pos, lemma_mod_bound, lemma_mod_mod,
    lemma_fundamental_div_mod_converse_div, lemma_fundamental_div_mod_converse_mod, lemma_div_is_ordered};
use vstd::bits::{lemma_u32_shl_is_mul, lemma_u64_shl_is_mul};
use crate::types::{FileMetadata, TileCoord};
use crate::text::{dec_digits, push_decimal, string_from_chars};

verus! {

/// Tile edge in level-0 pixels at level 0.
pub const TILE_WIDTH: u32 = 256;
pub const TILE_HEIGHT: u32 = 256;

/// Level-0 pixels covered by one tile edge at `level`.
pub open spec fn tile_span(level: nat) -> int {
    256 * (pow2(level) as int)
}

/// Byte offset of the first byte covered by tile `(x, y)` at `level`:
/// the block column comes from the horizontal bit position, the block row and
/// the position inside the block from the vertical byte position.
pub open spec fn spec_tile_to_byte_offset(level: nat, x: int, y: int, pl: int, bs: int, gw: int) -> int {
    let byte_x = (x * tile_span(level)) / 8;
    let byte_y = y * tile_span(level);
    let block_h = pl * bs;
    let block_x = byte_x / (pl * 8);
    let block_y = byte_y / block_h;
    let in_block = byte_y % block_h;
    (block_y * gw + block_x) * bs * pl + (in_block / pl) * pl + in_block % pl
}

/// Column of the block holding `offset` within its block row.
pub open spec fn spec_block_column(offset: int, pl: int, bs: int, gw: int) -> int {
    (offset % (bs * pl * gw)) / (bs * pl)
}

/// Level-0 row (in bytes) of `offset`: block row height plus position in block.
pub open spec fn spec_byte_row(offset: int, pl: int, bs: int, gw: int) -> int {
    let block_y = offset / (bs * pl * gw);
    let in_block = offset % (bs * pl);
    block_y * (pl * bs) + (in_block / pl) * pl + in_block % pl
}

/// The tile of `level` that holds `offset`, columns and rows truncated to 32 bits.
pub open spec fn spec_byte_offset_to_tile(offset: int, level: nat, pl: int, bs: int, gw: int) -> TileCoord {
    TileCoord {
        level: level as u32,
        x: ((spec_block_column(offset, pl, bs, gw) * (pl * 8) * 8) / tile_span(level)) as u32,
        y: (spec_byte_row(offset, pl, bs, gw) / tile_span(level)) as u32,
    }
}

/// Inputs for which `tile_to_byte_offset` computes without overflow or division by zero.
pub open spec fn tile_to_offset_ok(coord: TileCoord, meta: FileMetadata) -> bool {
    &&& coord.level <= 23
    &&& meta.page_length > 0
    &&& meta.block_size > 0
    &&& spec_tile_to_byte_offset(coord.level as nat, coord.x as int, coord.y as int,
            meta.page_length as int, meta.block_size as int, meta.grid_width as int) <= u64::MAX
}

/// Inputs for which `byte_offset_to_tile` computes without overflow or division by zero.
pub open spec fn offset_to_tile_ok(offset: u64, level: u32, meta: FileMetadata) -> bool {
    let pl = meta.page_length as int;
    let bs = meta.block_size as int;
    let gw = meta.grid_width as int;
    &&& level <= 55
    &&& pl > 0
    &&& bs > 0
    &&& gw > 0
    &&& bs * pl * gw <= u64::MAX
    &&& spec_block_column(offset as int, pl, bs, gw) * (pl * 8) * 8 <= u64::MAX
}

/// The `L{level}:({x},{y})` rendering of a tile coordinate.
pub open spec fn spec_pretty(coord: TileCoord) -> Seq<char> {
    seq!['L'] + dec_digits(coord.level as nat) + seq![':', '('] + dec_digits(coord.x as nat)
        + seq![','] + dec_digits(coord.y as nat) + seq![')']
}

/// Bidirectional coordinate conversion between tiles and byte offsets
pub struct CoordinateParser;

proof fn lemma_div_mod_parts(n: int, d: int)
    requires
        n >= 0,
        d > 0,
    ensures
        (n / d) * d + n % d == n,
        0 <= n % d < d,
        n / d >= 0,
{
    lemma_fundamental_div_mod(n, d);
    lemma_div_pos_is_pos(n, d);
    lemma_mod_bound(n, d);
    assert((n / d) * d == d * (n / d)) by (nonlinear_arith);
}

proof fn lemma_mul_nonneg3(a: int, b: int, c: int)
    requires
        a >= 0,
        b >= 0,
        c >= 0,
    ensures
        a * b >= 0,
        a * b * c >= 0,
        a * b <= a * b * c || c == 0,
{
    assert(a * b >= 0) by (nonlinear_arith)
        requires
            a >= 0,
            b >= 0,
    ;
    assert(a * b * c >= 0) by (nonlinear_arith)
        requires
            a * b >= 0,
            c >= 0,
    ;
    assert(a * b <= a * b * c || c == 0) by (nonlinear_arith)
        requires
            a * b >= 0,
            c >= 0,
    ;
}

impl CoordinateParser {
    /// Converts tile coordinates to the byte offset in the dump file at which
    /// the tile's top row starts.
    pub fn tile_to_byte_offset(coord: TileCoord, metadata: &FileMetadata) -> (offset: u64)
        requires
            tile_to_offset_ok(coord, *metadata),
        ensures
            offset == spec_tile_to_byte_offset(coord.level as nat, coord.x as int, coord.y as int,
                metadata.page_length as int, metadata.block_size as int, metadata.grid_width as int),
    {
        proof {
            lemma_pow2_pos(coord.level as nat);
            lemma2_to64();
            lemma_pow2_strictly_increases(coord.level as nat, 24);
            assert(1 * pow2(coord.level as nat) <= u32::MAX);
            lemma_u32_shl_is_mul(1, coord.level);
        }
        let level_scale = 1u32 << coord.level;
        assert(level_scale == pow2(coord.level as nat));
        let tile_w0 = TILE_WIDTH * level_scale;
        let tile_h0 = TILE_HEIGHT * level_scale;

        assert((coord.x as u64) * (tile_w0 as u64) <= u64::MAX) by (nonlinear_arith)
            requires
                coord.x <= u32::MAX,
                tile_w0 <= u32::MAX,
        ;
        assert((coord.y as u64) * (tile_h0 as u64) <= u64::MAX) by (nonlinear_arith)
            requires
                coord.y <= u32::MAX,
                tile_h0 <= u32::MAX,
        ;
        let pixel_x = (coord.x as u64) * (tile_w0 as u64);
        let pixel_y = (coord.y as u64) * (tile_h0 as u64);
        let byte_x = pixel_x / 8;
        let byte_y = pixel_y;

        let page_length = metadata.page_length as u64;
        let grid_width = metadata.grid_width as u64;
        let block_size = metadata.block_size as u64;

        let bytes_per_block_width = page_length * 8;
        assert(page_length * block_size <= u64::MAX && page_length * block_size >= 1) by (nonlinear_arith)
            requires
                1 <= page_length <= u32::MAX,
                1 <= block_size <= u32::MAX,
        ;
        let bytes_per_block_height = page_length * block_size;
        let block_x = byte_x / bytes_per_block_width;
        let block_y = byte_y / bytes_per_block_height;

        let byte_y_in_block = byte_y % bytes_per_block_height;
        let page_in_block = byte_y_in_block / page_length;
        let byte_in_page = byte_y_in_block % page_length;

        let ghost total = spec_tile_to_byte_offset(coord.level as nat, coord.x as int, coord.y as int,
            metadata.page_length as int, metadata.block_size as int, metadata.grid_width as int);
        proof {
            let bh = bytes_per_block_height as int;
            lemma_div_mod_parts(byte_y as int, bh);
            lemma_div_mod_parts(byte_y_in_block as int, page_length as int);
            lemma_div_mod_parts(byte_x as int, bytes_per_block_width as int);
            lemma_mul_nonneg3(block_y as int, grid_width as int, 1);
            let row = block_y * grid_width + block_x;
            lemma_mul_nonneg3(row as int, block_size as int, page_length as int);
            lemma_mul_nonneg3(page_in_block as int, page_length as int, 1);
            assert(block_y * grid_width <= row);
            assert(total == row * block_size * page_length + page_in_block * page_length + byte_in_page);
            assert(row * block_size <= row * block_size * page_length) by (nonlinear_arith)
                requires
                    row * block_size >= 0,
                    page_length >= 1,
            ;
            assert(row <= row * block_size) by (nonlinear_arith)
                requires
                    row >= 0,
                    block_size >= 1,
            ;
        }
        let offset = ((block_y * grid_width + block_x) * block_size * page_length)
            + (page_in_block * page_length) + byte_in_page;
        offset
    }

    /// Converts a byte offset to the tile of `level` whose area holds it.
    pub fn byte_offset_to_tile(offset: u64, level: u32, metadata: &FileMetadata) -> (coord: TileCoord)
        requires
            offset_to_tile_ok(offset, level, *metadata),
        ensures
            coord == spec_byte_offset_to_tile(offset as int, level as nat,
                metadata.page_length as int, metadata.block_size as int, metadata.grid_width as int),
    {
        let page_length = metadata.page_length as u64;
        let grid_width = metadata.grid_width as u64;
        let block_size = metadata.block_size as u64;
        proof {
            lemma_mul_nonneg3(block_size as int, page_length as int, grid_width as int);
            assert(block_size * page_length >= 1) by (nonlinear_arith)
                requires
                    block_size >= 1,
                    page_length >= 1,
            ;
        }
        let block_stride = block_size * page_length * grid_width;
        proof {
            assert(block_stride >= 1) by (nonlinear_arith)
                requires
                    block_stride == block_size * page_length * grid_width,
                    block_size * page_length >= 1,
                    grid_width >= 1,
            ;
        }
        let block_y = offset / block_stride;
        let block_x = (offset % block_stride) / (block_size * page_length);

        let offset_in_block = offset % (block_size * page_length);
        let page_in_block = offset_in_block / page_length;
        let byte_in_page = offset_in_block % page_length;

        let bytes_per_block_width = page_length * 8;
        let bytes_per_block_height = page_length * block_size;
        proof {
            let h = (block_size * page_length) as int;
            let s = block_stride as int;
            lemma_div_mod_parts(offset as int, s);
            lemma_div_mod_parts((offset % block_stride) as int, h);
            lemma_div_mod_parts(offset as int, h);
            lemma_div_mod_parts(offset_in_block as int, page_length as int);
            assert(bytes_per_block_height == h) by (nonlinear_arith)
                requires
                    bytes_per_block_height == page_length * block_size,
                    h == block_size * page_length,
            ;
            // the row never exceeds the offset itself
            assert(block_y * h <= block_y * s) by (nonlinear_arith)
                requires
                    block_y >= 0,
                    s == h * grid_width,
                    h >= 0,
                    grid_width >= 1,
            ;
            lemma_mul_nonneg3(block_x as int, h, 1);
            lemma_mod_mod(offset as int, h, grid_width as int);
            assert(block_stride == h * grid_width) by (nonlinear_arith)
                requires
                    block_stride == block_size * page_length * grid_width,
                    h == block_size * page_length,
            ;
            assert(((offset % block_stride) as int) % h == offset_in_block as int);
            assert(block_y * h + offset_in_block <= offset);
            assert(block_x * (page_length * 8) * 8 <= u64::MAX);
            assert(block_x * (page_length * 8) >= 0) by (nonlinear_arith)
                requires
                    block_x >= 0,
                    page_length >= 0,
            ;
        }
        let byte_y = block_y * bytes_per_block_height + page_in_block * page_length + byte_in_page;
        let byte_x = block_x * bytes_per_block_width;

        let pixel_x = byte_x * 8;
        let pixel_y = byte_y;

        proof {
            lemma_pow2_pos(level as nat);
            lemma2_to64();
            lemma2_to64_rest();
            lemma_pow2_strictly_increases(level as nat, 56);
            assert(pow2(level as nat) < 0x100000000000000);
            assert(1 * pow2(level as nat) <= u64::MAX);
            lemma_u64_shl_is_mul(1, level as u64);
        }
        let level_scale = 1u64 << (level as u64);
        assert(level_scale == pow2(level as nat));
        assert(level_scale < 0x100000000000000 && level_scale >= 1);
        assert((TILE_WIDTH as u64) * level_scale <= u64::MAX && (TILE_WIDTH as u64) * level_scale >= 1) by (nonlinear_arith)
            requires
                level_scale < 0x100000000000000,
                level_scale >= 1,
                TILE_WIDTH == 256,
        ;
        let tile_w0 = (TILE_WIDTH as u64) * level_scale;
        let tile_h0 = (TILE_HEIGHT as u64) * level_scale;

        let x = #[verifier::truncate] ((pixel_x / tile_w0) as u32);
        let y = #[verifier::truncate] ((pixel_y / tile_h0) as u32);

        TileCoord::new(level, x, y)
    }

    /// Pretty-prints tile coordinates in "L{level}:({x},{y})" format
    pub fn pretty_print(coord: TileCoord) -> (s: String)
        ensures
            s@ == spec_pretty(coord),
    {
        let mut out: Vec<char> = Vec::new();
        out.push('L');
        push_decimal(&mut out, coord.level as u64);
        out.push(':');
        out.push('(');
        push_decimal(&mut out, coord.x as u64);
        out.push(',');
        push_decimal(&mut out, coord.y as u64);
        out.push(')');
        assert(out@ =~= spec_pretty(coord));
        string_from_chars(&out)
    }
}

/// Round trip of the coordinate conversion: a tile of the leftmost block
/// column (`x == 0`) converted to its byte offset and back, at the same level,
/// is the same tile. (Only the vertical position survives in the offset, so
/// the law is stated for `x == 0`.)
pub proof fn lemma_tile_offset_round_trip(coord: TileCoord, metadata: FileMetadata)
    requires
        coord.x == 0,
        metadata.page_length > 0,
        metadata.block_size > 0,
        metadata.grid_width > 0,
    ensures
        spec_byte_offset_to_tile(
            spec_tile_to_byte_offset(coord.level as nat, 0, coord.y as int,
                metadata.page_length as int, metadata.block_size as int, metadata.grid_width as int),
            coord.level as nat,
            metadata.page_length as int, metadata.block_size as int, metadata.grid_width as int) == coord,
{
    let level = coord.level as nat;
    let pl = metadata.page_length as int;
    let bs = metadata.block_size as int;
    let gw = metadata.grid_width as int;
    let t = tile_span(level);
    lemma_pow2_pos(level);
    let yy = coord.y as int * t;
    let h = pl * bs;
    assert(h >= 1) by (nonlinear_arith)
        requires
            pl >= 1,
            bs >= 1,
            h == pl * bs,
    ;
    assert(yy >= 0) by (nonlinear_arith)
        requires
            coord.y >= 0,
            t >= 256,
            yy == coord.y as int * t,
    ;
    lemma_div_mod_parts(yy, h);
    let by = yy / h;
    let r = yy % h;
    lemma_div_mod_parts(r, pl);
    assert((0 * t) / 8 == 0);
    assert(0int / (pl * 8) == 0);
    let offset = spec_tile_to_byte_offset(level, 0, coord.y as int, pl, bs, gw);
    assert(offset == (by * gw + 0) * bs * pl + (r / pl) * pl + r % pl);
    let hs = bs * pl;
    let s = bs * pl * gw;
    assert(hs == h) by (nonlinear_arith)
        requires
            hs == bs * pl,
            h == pl * bs,
    ;
    assert((by * gw + 0) * bs * pl == by * s && by * s == (by * gw) * hs) by (nonlinear_arith)
        requires
            s == bs * pl * gw,
            hs == bs * pl,
    ;
    assert(offset == by * s + r);
    assert(s >= h) by (nonlinear_arith)
        requires
            s == bs * pl * gw,
            h == pl * bs,
            h >= 1,
            gw >= 1,
    ;
    lemma_fundamental_div_mod_converse_div(offset, s, by, r);
    lemma_fundamental_div_mod_converse_mod(offset, s, by, r);
    assert(offset / s == by);
    assert(offset % s == r);
    lemma_fundamental_div_mod_converse_div(r, hs, 0, r);
    assert(spec_block_column(offset, pl, bs, gw) == 0);
    lemma_fundamental_div_mod_converse_mod(offset, hs, by * gw, r);
    assert(offset % hs == r);
    assert(spec_byte_row(offset, pl, bs, gw) == by * (pl * bs) + (r / pl) * pl + r % pl);
    assert(spec_byte_row(offset, pl, bs, gw) == yy);
    assert(yy == t * coord.y as int) by (nonlinear_arith)
        requires
            yy == coord.y as int * t,
    ;
    lemma_fundamental_div_mod_converse_div(yy, t, coord.y as int, 0);
    assert(yy / t == coord.y as int);
    assert(0int * (pl * 8) * 8 == 0);
    assert(0int / t == 0);
}

/// Byte offset of the leftmost tile whose top row is level-0 row `yy`: the
/// block row's start plus the position inside the block.
pub open spec fn column0_offset(yy: int, pl: int, bs: int, gw: int) -> int {
    let h = pl * bs;
    (yy / h) * gw * h + yy % h
}

proof fn lemma_column0_offset(level: nat, y: int, pl: int, bs: int, gw: int)
    requires
        pl >= 1,
        bs >= 1,
        gw >= 1,
        y >= 0,
    ensures
        spec_tile_to_byte_offset(level, 0, y, pl, bs, gw) == column0_offset(y * tile_span(level), pl, bs, gw),
        y * tile_span(level) >= 0,
{
    let t = tile_span(level);
    lemma_pow2_pos(level);
    let yy = y * t;
    let h = pl * bs;
    assert(h >= 1) by (nonlinear_arith)
        requires
            pl >= 1,
            bs >= 1,
            h == pl * bs,
    ;
    assert(yy >= 0) by (nonlinear_arith)
        requires
            y >= 0,
            t >= 256,
            yy == y * t,
    ;
    lemma_div_mod_parts(yy, h);
    let r = yy % h;
    lemma_div_mod_parts(r, pl);
    assert((0 * t) / 8 == 0);
    assert(0int / (pl * 8) == 0);
    let by = yy / h;
    assert((by * gw + 0) * bs * pl == by * gw * h) by (nonlinear_arith)
        requires
            h == pl * bs,
    ;
}

proof fn lemma_column0_offset_increases(y1: int, y2: int, pl: int, bs: int, gw: int)
    requires
        pl >= 1,
        bs >= 1,
        gw >= 1,
        0 <= y1 < y2,
    ensures
        column0_offset(y1, pl, bs, gw) < column0_offset(y2, pl, bs, gw),
{
    let h = pl * bs;
    assert(h >= 1) by (nonlinear_arith)
        requires
            pl >= 1,
            bs >= 1,
            h == pl * bs,
    ;
    lemma_div_mod_parts(y1, h);
    lemma_div_mod_parts(y2, h);
    lemma_div_is_ordered(y1, y2, h);
    let b1 = y1 / h;
    let b2 = y2 / h;
    let r1 = y1 % h;
    let r2 = y2 % h;
    if b1 == b2 {
        assert(r1 < r2);
    } else {
        assert(b1 * gw * h + h <= b2 * gw * h) by (nonlinear_arith)
            requires
                b1 + 1 <= b2,
                b1 >= 0,
                gw >= 1,
                h >= 1,
        ;
        assert(b2 * gw * h >= 0) by (nonlinear_arith)
            requires
                b2 >= 0,
                gw >= 1,
                h >= 1,
        ;
    }
}

/// Byte offsets grow down the dump: of two tiles of the leftmost column (at
/// any levels), the one whose top row lies lower in level-0 pixels starts at
/// a larger byte offset.
pub proof fn lemma_tile_offset_increases(l1: nat, y1: int, l2: nat, y2: int, metadata: FileMetadata)
    requires
        metadata.page_length > 0,
        metadata.block_size > 0,
        metadata.grid_width > 0,
        y1 >= 0,
        y2 >= 0,
        y1 * tile_span(l1) < y2 * tile_span(l2),
    ensures
        spec_tile_to_byte_offset(l1, 0, y1, metadata.page_length as int, metadata.block_size as int,
            metadata.grid_width as int) < spec_tile_to_byte_offset(l2, 0, y2, metadata.page_length as int,
            metadata.block_size as int, metadata.grid_width as int),
{
    let pl = metadata.page_length as int;
    let bs = metadata.block_size as int;
    let gw = metadata.grid_width as int;
    lemma_column0_offset(l1, y1, pl, bs, gw);
    lemma_column0_offset(l2, y2, pl, bs, gw);
    lemma_column0_offset_increases(y1 * tile_span(l1), y2 * tile_span(l2), pl, bs, gw);
}

/// Within a level, a lower tile of the leftmost column starts at a larger
/// byte offset.
pub proof fn lemma_tile_offset_increases_with_y(level: nat, y1: int, y2: int, metadata: FileMetadata)
    requires
        metadata.page_length > 0,
        metadata.block_size > 0,
        metadata.grid_width > 0,
        0 <= y1 < y2,
    ensures
        spec_tile_to_byte_offset(level, 0, y1, metadata.page_length as int, metadata.block_size as int,
            metadata.grid_width as int) < spec_tile_to_byte_offset(level, 0, y2, metadata.page_length as int,
            metadata.block_size as int, metadata.grid_width as int),
{
    lemma_pow2_pos(level);
    let t = tile_span(level);
    assert(y1 * t < y2 * t) by (nonlinear_arith)
        requires
            y1 < y2,
            t >= 256,
    ;
    lemma_tile_offset_increases(level, y1, level, y2, metadata);
}

/// At the next level up, the same tile row of the leftmost column starts at a
/// larger byte offset (the tile covers twice the rows).
pub proof fn lemma_tile_offset_increases_with_level(level: nat, y: int, metadata: FileMetadata)
    requires
        metadata.page_length > 0,
        metadata.block_size > 0,
        metadata.grid_width > 0,
        y >= 1,
    ensures
        spec_tile_to_byte_offset(level, 0, y, metadata.page_length as int, metadata.block_size as int,
            metadata.grid_width as int) < spec_tile_to_byte_offset(level + 1, 0, y, metadata.page_length as int,
            metadata.block_size as int, metadata.grid_width as int),
{
    lemma_pow2_pos(level);
    lemma_pow2_unfold(level + 1);
    assert(((level + 1) - 1) as nat == level);
    let t = tile_span(level);
    let t2 = tile_span(level + 1);
    assert(t2 == 2 * t);
    assert(y * t < y * t2) by (nonlinear_arith)
        requires
            y >= 1,
            t >= 256,
            t2 == 2 * t,
    ;
    lemma_tile_offset_increases(level, y, level + 1, y, metadata);
}

} // verus!

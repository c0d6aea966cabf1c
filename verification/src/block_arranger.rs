//! Vertical page/block layout: the pages of a block stacked top to bottom
//! with a page spacing, blocks placed on a grid whose rows are separated by a
//! block spacing.
//!
//! The 4:3 grid sizing (`calculate_grid_dimensions`) is computed in floating
//! point and lives with the application.

use vstd::prelude::*;
use crate::bit_renderer::{PixelBuffer, Pixel, out_of_bounds_message};
use crate::byte_arranger::{ByteArranger, render_bytes};
use crate::text::{dec_digits, push_decimal, chars_of, push_chars, string_from_chars};

verus! {

/// Spacing between consecutive pages (in pixels)
pub const PAGE_SPACING: u32 = 2;

/// Spacing between consecutive blocks (in pixels)
pub const BLOCK_SPACING: u32 = 8;

/// Height of a block in pixels: `block_size * page_length * 8 + (block_size - 1) * PAGE_SPACING`
/// (no spacing term for an empty block).
pub open spec fn spec_block_height(block_size: int, page_length: int) -> int {
    block_size * page_length * 8 + (if block_size >= 1 { block_size - 1 } else { 0 }) * 2
}

/// Why rendering a block stopped.
pub enum BlockStop {
    /// All pages rendered
    Done,
    /// The block data ends before page data `[.., needed)`
    TooSmall { needed: int, len: int },
    /// A page pixel fell outside the canvas at `(x, y)`
    OutOfBounds { x: int, y: int },
}

pub struct BlockRender {
    pub pixels: Seq<Pixel>,
    pub stop: BlockStop,
}

/// Renders pages `i..block_size` of a block whose top-left corner is `(start_x, start_y)`:
/// page `i` is the data range `[i * pl, (i + 1) * pl)` drawn at row `start_y + 10 * i`.
pub open spec fn render_pages(pixels: Seq<Pixel>, w: int, h: int, data: Seq<u8>, i: int, bs: int, pl: int,
    start_x: int, start_y: int) -> BlockRender
    decreases bs - i,
{
    if i >= bs {
        BlockRender { pixels, stop: BlockStop::Done }
    } else if (i + 1) * pl > data.len() {
        BlockRender { pixels, stop: BlockStop::TooSmall { needed: (i + 1) * pl, len: data.len() as int } }
    } else {
        let page_y = start_y + i * 10;
        let r = render_bytes(pixels, w, h, start_x, page_y, data.subrange(i * pl, (i + 1) * pl));
        if !r.ok {
            BlockRender { pixels: r.pixels, stop: BlockStop::OutOfBounds { x: r.err_x, y: page_y } }
        } else {
            render_pages(r.pixels, w, h, data, i + 1, bs, pl, start_x, start_y)
        }
    }
}

/// Every page that rendering reaches has its data range and row computable
/// without overflow.
pub open spec fn pages_compute(pixels: Seq<Pixel>, w: int, h: int, data: Seq<u8>, i: int, bs: int, pl: int,
    start_x: int, start_y: int) -> bool
    decreases bs - i,
{
    if i >= bs {
        true
    } else {
        &&& (i + 1) * pl <= usize::MAX
        &&& ((i + 1) * pl <= data.len() ==> {
            let page_y = start_y + i * 10;
            &&& page_y <= u32::MAX
            &&& ({
                let r = render_bytes(pixels, w, h, start_x, page_y, data.subrange(i * pl, (i + 1) * pl));
                r.ok ==> pages_compute(r.pixels, w, h, data, i + 1, bs, pl, start_x, start_y)
            })
        })
    }
}

/// The message of a block whose data is shorter than its pages.
pub open spec fn too_small_message(needed: int, len: int) -> Seq<char> {
    "Block data too small: expected at least "@ + dec_digits(needed as nat) + " bytes, got "@
        + dec_digits(len as nat)
}

/// BlockArranger arranges pages vertically and blocks in grid layout
pub struct BlockArranger;

impl BlockArranger {
    /// Height of a block in pixels.
    pub fn calculate_block_height(block_size: u32, page_length: u32) -> (h: u32)
        requires
            spec_block_height(block_size as int, page_length as int) <= u32::MAX,
        ensures
            h == spec_block_height(block_size as int, page_length as int),
    {
        proof {
            assert(block_size * page_length * 8 <= spec_block_height(block_size as int, page_length as int))
                by (nonlinear_arith)
                requires
                    block_size >= 0,
                    page_length >= 0,
            ;
            assert(block_size * page_length <= block_size * page_length * 8) by (nonlinear_arith)
                requires
                    block_size >= 0,
                    page_length >= 0,
            ;
        }
        block_size * page_length * 8 + (block_size.saturating_sub(1)) * PAGE_SPACING
    }

    /// Renders block `(block_x, block_y)` of the grid: its top-left corner is at
    /// `(block_x * page_width, block_y * (block_height + BLOCK_SPACING))` (block
    /// columns sit side by side, block rows are separated by the block spacing)
    /// and page `i` is drawn `10 * i` rows below it. Stops at the first page
    /// whose data is missing or whose pixels leave the canvas.
    pub fn render_block(
        block_data: &[u8],
        block_x: u32,
        block_y: u32,
        block_size: u32,
        page_length: u32,
        _grid_width: u32,
        canvas: &mut PixelBuffer,
    ) -> (res: Result<(), String>)
        requires
            old(canvas).wf(),
            page_length as int * 8 <= u32::MAX,
            spec_block_height(block_size as int, page_length as int) + 8 <= u32::MAX,
            block_x as int * (page_length * 8) <= u32::MAX,
            block_y as int * (spec_block_height(block_size as int, page_length as int) + 8) <= u32::MAX,
            pages_compute(old(canvas).pixels(), old(canvas).spec_width() as int,
                old(canvas).spec_height() as int, block_data@, 0, block_size as int, page_length as int,
                block_x as int * (page_length * 8),
                block_y as int * (spec_block_height(block_size as int, page_length as int) + 8)),
        ensures
            final(canvas).wf(),
            final(canvas).spec_width() == old(canvas).spec_width(),
            final(canvas).spec_height() == old(canvas).spec_height(),
            ({
                let r = render_pages(old(canvas).pixels(), old(canvas).spec_width() as int,
                    old(canvas).spec_height() as int, block_data@, 0, block_size as int, page_length as int,
                    block_x as int * (page_length * 8),
                    block_y as int * (spec_block_height(block_size as int, page_length as int) + 8));
                &&& final(canvas).pixels() == r.pixels
                &&& (res is Ok <==> r.stop is Done)
                &&& (r.stop matches BlockStop::TooSmall { needed, len } ==>
                        res matches Err(msg) && msg@ == too_small_message(needed, len))
                &&& (r.stop matches BlockStop::OutOfBounds { x, y } ==>
                        res matches Err(msg) && msg@ == out_of_bounds_message(x as u32, y as u32,
                            old(canvas).spec_width(), old(canvas).spec_height()))
            }),
    {
        let page_width = ByteArranger::calculate_page_width(page_length);
        let block_height = Self::calculate_block_height(block_size, page_length);
        let start_x = block_x * page_width;
        let start_y = block_y * (block_height + BLOCK_SPACING);
        let ghost w = canvas.spec_width() as int;
        let ghost h = canvas.spec_height() as int;
        let ghost target = render_pages(old(canvas).pixels(), w, h, block_data@, 0, block_size as int,
            page_length as int, start_x as int, start_y as int);
        assert(start_x as int == block_x as int * (page_length * 8));
        assert(start_y as int == block_y as int * (spec_block_height(block_size as int, page_length as int) + 8));

        let mut page_index: u32 = 0;
        while page_index < block_size
            invariant
                page_index <= block_size,
                w == old(canvas).spec_width(),
                h == old(canvas).spec_height(),
                canvas.wf(),
                canvas.spec_width() == w,
                canvas.spec_height() == h,
                target == render_pages(old(canvas).pixels(), w, h, block_data@, 0, block_size as int,
                    page_length as int, start_x as int, start_y as int),
                target == render_pages(canvas.pixels(), w, h, block_data@, page_index as int,
                    block_size as int, page_length as int, start_x as int, start_y as int),
                pages_compute(canvas.pixels(), w, h, block_data@, page_index as int, block_size as int,
                    page_length as int, start_x as int, start_y as int),
                start_x as int == block_x as int * (page_length * 8),
                start_y as int == block_y as int * (spec_block_height(block_size as int, page_length as int) + 8),
            decreases block_size - page_index,
        {
            assert(page_index as int * page_length <= (page_index as int + 1) * page_length) by (nonlinear_arith)
                requires
                    page_length >= 0,
                    page_index >= 0,
            ;
            assert((page_index as int + 1) * page_length == page_index as int * page_length + page_length)
                by (nonlinear_arith);
            let page_start = (page_index as usize) * (page_length as usize);
            let page_end = page_start + (page_length as usize);

            if page_end > block_data.len() {
                assert(target.stop == (BlockStop::TooSmall { needed: page_end as int, len: block_data@.len() as int }));
                assert(target.pixels == canvas.pixels());
                return Err(too_small(page_end, block_data.len()));
            }

            let page_data = &block_data[page_start..page_end];
            let page_y = start_y + page_index * (8 + PAGE_SPACING);
            let ghost before = canvas.pixels();
            assert(page_data@ == block_data@.subrange(page_index as int * page_length, (page_index as int + 1) * page_length));
            let ghost rr = render_bytes(before, w, h, start_x as int, page_y as int, page_data@);
            let r = ByteArranger::render_page_at(page_data, start_x, page_y, canvas);
            match r {
                Ok(()) => {},
                Err(msg) => {
                    assert(!rr.ok);
                    assert(target.stop == (BlockStop::OutOfBounds { x: rr.err_x, y: page_y as int }));
                    return Err(msg);
                },
            }
            page_index = page_index + 1;
        }
        Ok(())
    }

    /// Get the spacing between consecutive pages
    pub fn get_page_spacing() -> (s: u32)
        ensures
            s == PAGE_SPACING,
    {
        PAGE_SPACING
    }

    /// Get the spacing between consecutive blocks
    pub fn get_block_spacing() -> (s: u32)
        ensures
            s == BLOCK_SPACING,
    {
        BLOCK_SPACING
    }
}

fn too_small(needed: usize, len: usize) -> (msg: String)
    ensures
        msg@ == too_small_message(needed as int, len as int),
{
    let mut out = chars_of("Block data too small: expected at least ");
    push_decimal(&mut out, needed as u64);
    push_chars(&mut out, chars_of(" bytes, got ").as_slice());
    push_decimal(&mut out, len as u64);
    string_from_chars(&out)
}

} // verus!

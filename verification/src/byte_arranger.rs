//! Horizontal byte layout: the bytes of a page side by side, 8 pixels each,
//! with no spacing between bytes.

use vstd::prelude::*;
use crate::bit_renderer::{BitRenderer, PixelBuffer, Pixel, with_byte_prefix, pixels_in_row,
    out_of_bounds_message};

verus! {

/// Outcome of rendering a row of bytes: the pixels afterwards, and either
/// success or the column of the first pixel that fell outside the buffer.
pub struct RowRender {
    pub pixels: Seq<Pixel>,
    pub ok: bool,
    pub err_x: int,
}

/// Renders `data` left to right from `(start_x, y)`, stopping at the first
/// pixel outside the buffer.
pub open spec fn render_bytes(pixels: Seq<Pixel>, w: int, h: int, start_x: int, y: int, data: Seq<u8>) -> RowRender
    decreases data.len(),
{
    if data.len() == 0 {
        RowRender { pixels, ok: true, err_x: 0 }
    } else {
        let k = pixels_in_row(start_x, y, w, h);
        let p1 = with_byte_prefix(pixels, w, start_x, y, data[0], k);
        if k < 8 {
            RowRender { pixels: p1, ok: false, err_x: start_x + k }
        } else {
            render_bytes(p1, w, h, start_x + 8, y, data.drop_first())
        }
    }
}

/// ByteArranger arranges bytes horizontally within a page with no spacing
pub struct ByteArranger;

impl ByteArranger {
    /// Width of a page in pixels: `page_length * 8`.
    pub fn calculate_page_width(page_length: u32) -> (w: u32)
        requires
            page_length as int * 8 <= u32::MAX,
        ensures
            w == page_length * 8,
    {
        page_length * 8
    }

    /// Renders a page at the left edge (`x == 0`) of row `y`.
    pub fn render_page(page_data: &[u8], y: u32, canvas: &mut PixelBuffer) -> (res: Result<(), String>)
        requires
            old(canvas).wf(),
        ensures
            final(canvas).wf(),
            final(canvas).spec_width() == old(canvas).spec_width(),
            final(canvas).spec_height() == old(canvas).spec_height(),
            ({
                let r = render_bytes(old(canvas).pixels(), old(canvas).spec_width() as int,
                    old(canvas).spec_height() as int, 0, y as int, page_data@);
                &&& final(canvas).pixels() == r.pixels
                &&& (res is Ok <==> r.ok)
                &&& (res matches Err(msg) ==> msg@ == out_of_bounds_message(r.err_x as u32, y,
                        old(canvas).spec_width(), old(canvas).spec_height()))
            }),
    {
        Self::render_page_at(page_data, 0, y, canvas)
    }

    /// Renders a page's bytes left to right from `(start_x, y)`, byte `i` at
    /// `start_x + 8 * i`; the first pixel outside the canvas stops it with an error.
    pub fn render_page_at(page_data: &[u8], start_x: u32, y: u32, canvas: &mut PixelBuffer) -> (res: Result<(), String>)
        requires
            old(canvas).wf(),
        ensures
            final(canvas).wf(),
            final(canvas).spec_width() == old(canvas).spec_width(),
            final(canvas).spec_height() == old(canvas).spec_height(),
            ({
                let r = render_bytes(old(canvas).pixels(), old(canvas).spec_width() as int,
                    old(canvas).spec_height() as int, start_x as int, y as int, page_data@);
                &&& final(canvas).pixels() == r.pixels
                &&& (res is Ok <==> r.ok)
                &&& (res matches Err(msg) ==> msg@ == out_of_bounds_message(r.err_x as u32, y,
                        old(canvas).spec_width(), old(canvas).spec_height()))
            }),
    {
        let ghost w = canvas.spec_width() as int;
        let ghost h = canvas.spec_height() as int;
        let ghost target = render_bytes(old(canvas).pixels(), w, h, start_x as int, y as int, page_data@);
        let mut byte_index: usize = 0;
        assert(page_data@.skip(0) =~= page_data@);
        while byte_index < page_data.len()
            invariant
                byte_index <= page_data@.len(),
                w == old(canvas).spec_width(),
                h == old(canvas).spec_height(),
                canvas.wf(),
                canvas.spec_width() == w,
                canvas.spec_height() == h,
                target == render_bytes(old(canvas).pixels(), w, h, start_x as int, y as int, page_data@),
                target == render_bytes(canvas.pixels(), w, h, start_x + 8 * byte_index, y as int,
                    page_data@.skip(byte_index as int)),
                byte_index > 0 ==> start_x + 8 * byte_index <= w,
                w <= u32::MAX,
            decreases page_data@.len() - byte_index,
        {
            let ghost rest = page_data@.skip(byte_index as int);
            assert(rest.drop_first() =~= page_data@.skip(byte_index + 1));
            assert(rest[0] == page_data@[byte_index as int]);
            let x = start_x + (byte_index as u32) * 8;
            let r = BitRenderer::render_byte(page_data[byte_index], x, y, canvas);
            match r {
                Ok(()) => {},
                Err(msg) => {
                    return Err(msg);
                },
            }
            byte_index = byte_index + 1;
        }
        assert(page_data@.skip(byte_index as int).len() == 0);
        Ok(())
    }
}

} // verus!

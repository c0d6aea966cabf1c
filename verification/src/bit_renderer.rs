//! Bit-to-pixel rendering.
//!
//! A bit 1 becomes a black pixel, a bit 0 a white one; a byte becomes eight
//! pixels left to right from its most significant bit to its least.

use vstd::prelude::*;
use crate::text::{dec_digits, push_decimal, push_chars, chars_of, string_from_chars};

verus! {

/// A single pixel represented as RGB values
#[derive(Debug, Clone, Copy, PartialEq, Eq, Structural)]
pub struct Pixel {
    /// Red component (0-255)
    pub r: u8,
    /// Green component (0-255)
    pub g: u8,
    /// Blue component (0-255)
    pub b: u8,
}

pub open spec fn black() -> Pixel {
    Pixel { r: 0, g: 0, b: 0 }
}

pub open spec fn white() -> Pixel {
    Pixel { r: 255, g: 255, b: 255 }
}

impl Pixel {
    /// Create a new pixel with RGB values
    pub fn new(r: u8, g: u8, b: u8) -> (p: Pixel)
        ensures
            p == (Pixel { r, g, b }),
    {
        Pixel { r, g, b }
    }

    /// Create a black pixel (0x000000)
    pub fn black() -> (p: Pixel)
        ensures
            p == black(),
    {
        Pixel { r: 0, g: 0, b: 0 }
    }

    /// Create a white pixel (0xFFFFFF)
    pub fn white() -> (p: Pixel)
        ensures
            p == white(),
    {
        Pixel { r: 255, g: 255, b: 255 }
    }
}

/// A 2D buffer of pixels stored row by row (`y * width + x`).
#[derive(Debug, Clone)]
pub struct PixelBuffer {
    data: Vec<Pixel>,
    width: u32,
    height: u32,
}

/// The message of a write outside the buffer.
pub open spec fn out_of_bounds_message(x: u32, y: u32, width: u32, height: u32) -> Seq<char> {
    "Pixel coordinates ("@ + dec_digits(x as nat) + ", "@ + dec_digits(y as nat)
        + ") out of bounds for buffer "@ + dec_digits(width as nat) + "x"@ + dec_digits(height as nat)
}

/// Index of pixel `(x, y)` in a row-major buffer of the given width.
pub open spec fn pixel_index(x: int, y: int, width: int) -> int {
    y * width + x
}

impl PixelBuffer {
    /// The pixels, row by row.
    pub closed spec fn pixels(&self) -> Seq<Pixel> {
        self.data@
    }

    pub closed spec fn spec_width(&self) -> u32 {
        self.width
    }

    pub closed spec fn spec_height(&self) -> u32 {
        self.height
    }

    /// The buffer holds exactly `width * height` pixels.
    pub open spec fn wf(&self) -> bool {
        self.pixels().len() == self.spec_width() as int * self.spec_height() as int
    }

    /// The pixel at `(x, y)`.
    pub open spec fn pixel_at(&self, x: int, y: int) -> Pixel {
        self.pixels()[pixel_index(x, y, self.spec_width() as int)]
    }

    /// Create a new white pixel buffer with the given dimensions
    pub fn new(width: u32, height: u32) -> (buf: PixelBuffer)
        requires
            width as int * height as int <= usize::MAX,
        ensures
            buf.wf(),
            buf.spec_width() == width,
            buf.spec_height() == height,
            forall|i: int| 0 <= i < buf.pixels().len() ==> buf.pixels()[i] == white(),
    {
        Self::with_fill(width, height, Pixel::white())
    }

    /// Create a new pixel buffer filled with a specific pixel
    pub fn with_fill(width: u32, height: u32, fill: Pixel) -> (buf: PixelBuffer)
        requires
            width as int * height as int <= usize::MAX,
        ensures
            buf.wf(),
            buf.spec_width() == width,
            buf.spec_height() == height,
            forall|i: int| 0 <= i < buf.pixels().len() ==> buf.pixels()[i] == fill,
    {
        let size = (width as usize) * (height as usize);
        let mut data: Vec<Pixel> = Vec::with_capacity(size);
        let mut i: usize = 0;
        while i < size
            invariant
                i <= size,
                data@.len() == i,
                forall|j: int| 0 <= j < i ==> data@[j] == fill,
            decreases size - i,
        {
            data.push(fill);
            i = i + 1;
        }
        PixelBuffer { data, width, height }
    }

    /// Get the width of the buffer
    pub fn width(&self) -> (w: u32)
        ensures
            w == self.spec_width(),
    {
        self.width
    }

    /// Get the height of the buffer
    pub fn height(&self) -> (h: u32)
        ensures
            h == self.spec_height(),
    {
        self.height
    }

    /// Get a pixel at the given coordinates
    pub fn get(&self, x: u32, y: u32) -> (p: Option<Pixel>)
        requires
            self.wf(),
        ensures
            p == (if x < self.spec_width() && y < self.spec_height() {
                Some(self.pixel_at(x as int, y as int))
            } else {
                None
            }),
    {
        if x >= self.width || y >= self.height {
            return None;
        }
        let n = self.data.len();
        proof { lemma_index_in_bounds(x as int, y as int, self.width as int, self.height as int); }
        let index = (y as usize) * (self.width as usize) + (x as usize);
        Some(self.data[index])
    }

    /// Set a pixel at the given coordinates
    pub fn set(&mut self, x: u32, y: u32, pixel: Pixel) -> (res: Result<(), String>)
        requires
            old(self).wf(),
        ensures
            final(self).wf(),
            final(self).spec_width() == old(self).spec_width(),
            final(self).spec_height() == old(self).spec_height(),
            x < old(self).spec_width() && y < old(self).spec_height() ==> {
                &&& res is Ok
                &&& final(self).pixels() == old(self).pixels().update(
                        pixel_index(x as int, y as int, old(self).spec_width() as int), pixel)
            },
            !(x < old(self).spec_width() && y < old(self).spec_height()) ==> {
                &&& res matches Err(msg) && msg@ == out_of_bounds_message(x, y,
                        old(self).spec_width(), old(self).spec_height())
                &&& final(self).pixels() == old(self).pixels()
            },
    {
        if x >= self.width || y >= self.height {
            return Err(out_of_bounds(x, y, self.width, self.height));
        }
        let n = self.data.len();
        proof { lemma_index_in_bounds(x as int, y as int, self.width as int, self.height as int); }
        let index = (y as usize) * (self.width as usize) + (x as usize);
        self.data.set(index, pixel);
        Ok(())
    }

    /// Get mutable access to the underlying pixel data
    pub fn data_mut(&mut self) -> (d: &mut [Pixel])
        ensures
            d@ == old(self).pixels(),
            final(d)@ == final(self).pixels(),
            final(self).spec_width() == old(self).spec_width(),
            final(self).spec_height() == old(self).spec_height(),
    {
        self.data.as_mut_slice()
    }

    /// Get immutable access to the underlying pixel data
    pub fn data(&self) -> (d: &[Pixel])
        ensures
            d@ == self.pixels(),
    {
        self.data.as_slice()
    }

    /// Overwrites the pixel at row-major index `index`.
    pub fn set_index(&mut self, index: usize, pixel: Pixel)
        requires
            index < old(self).pixels().len(),
        ensures
            final(self).pixels() == old(self).pixels().update(index as int, pixel),
            final(self).spec_width() == old(self).spec_width(),
            final(self).spec_height() == old(self).spec_height(),
    {
        self.data.set(index, pixel);
    }
}

pub proof fn lemma_index_in_bounds(x: int, y: int, width: int, height: int)
    requires
        0 <= x < width,
        0 <= y < height,
    ensures
        0 <= pixel_index(x, y, width) < width * height,
        y * width <= pixel_index(x, y, width),
{
    assert(y * width + x < width * height) by (nonlinear_arith)
        requires
            0 <= x < width,
            0 <= y < height,
    ;
    assert(y * width >= 0) by (nonlinear_arith)
        requires
            0 <= y,
            0 <= width,
    ;
}

fn out_of_bounds(x: u32, y: u32, width: u32, height: u32) -> (msg: String)
    ensures
        msg@ == out_of_bounds_message(x, y, width, height),
{
    let mut out = chars_of("Pixel coordinates (");
    push_decimal(&mut out, x as u64);
    push_chars(&mut out, chars_of(", ").as_slice());
    push_decimal(&mut out, y as u64);
    push_chars(&mut out, chars_of(") out of bounds for buffer ").as_slice());
    push_decimal(&mut out, width as u64);
    push_chars(&mut out, chars_of("x").as_slice());
    push_decimal(&mut out, height as u64);
    string_from_chars(&out)
}

/// The pixel of a bit: black for 1 (any non-zero value), white for 0.
pub open spec fn spec_render_bit(bit: u8) -> Pixel {
    if bit == 0 { white() } else { black() }
}

/// Bit `i` of `byte` counted from the most significant bit (`i == 0`).
pub open spec fn msb_bit(byte: u8, i: int) -> u8 {
    ((byte as int / pow2_int(7 - i)) % 2) as u8
}

pub open spec fn pow2_int(e: int) -> int
    decreases e,
{
    if e <= 0 { 1 } else { 2 * pow2_int(e - 1) }
}

/// Buffer contents after the first `k` pixels of `byte` were written at row `y` from column `start_x`.
pub open spec fn with_byte_prefix(pixels: Seq<Pixel>, width: int, start_x: int, y: int, byte: u8, k: int) -> Seq<Pixel>
    decreases k,
{
    if k <= 0 {
        pixels
    } else {
        with_byte_prefix(pixels, width, start_x, y, byte, k - 1).update(
            pixel_index(start_x + k - 1, y, width), spec_render_bit(msb_bit(byte, k - 1)))
    }
}

/// How many of the 8 pixels of a byte at `(start_x, y)` lie inside the buffer
/// before the first one that does not.
pub open spec fn pixels_in_row(start_x: int, y: int, width: int, height: int) -> int {
    if y >= height || start_x >= width { 0 } else if width - start_x >= 8 { 8 } else { width - start_x }
}

/// BitRenderer converts bits to pixels
pub struct BitRenderer;

impl BitRenderer {
    /// Render a single bit as a pixel: 1 (or any non-zero) → black, 0 → white.
    pub fn render_bit(bit: u8) -> (p: Pixel)
        ensures
            p == spec_render_bit(bit),
    {
        match bit {
            0 => Pixel::white(),
            _ => Pixel::black(),
        }
    }

    /// Render a byte as 8 pixels horizontally, MSB on the left at `start_x`.
    /// Pixels are written left to right; the first one outside the buffer
    /// stops the rendering with the buffer's out-of-bounds error.
    pub fn render_byte(byte: u8, start_x: u32, y: u32, buffer: &mut PixelBuffer) -> (res: Result<(), String>)
        requires
            old(buffer).wf(),
        ensures
            final(buffer).wf(),
            final(buffer).spec_width() == old(buffer).spec_width(),
            final(buffer).spec_height() == old(buffer).spec_height(),
            ({
                let k = pixels_in_row(start_x as int, y as int, old(buffer).spec_width() as int,
                    old(buffer).spec_height() as int);
                &&& final(buffer).pixels() == with_byte_prefix(old(buffer).pixels(),
                        old(buffer).spec_width() as int, start_x as int, y as int, byte, k)
                &&& (res is Ok <==> k == 8)
                &&& (res matches Err(msg) ==> msg@ == out_of_bounds_message((start_x + k) as u32, y,
                        old(buffer).spec_width(), old(buffer).spec_height()))
            }),
    {
        let ghost w = buffer.spec_width() as int;
        let ghost h = buffer.spec_height() as int;
        let ghost k = pixels_in_row(start_x as int, y as int, w, h);
        let mut bit_index: u32 = 0;
        while bit_index < 8
            invariant
                bit_index <= 8,
                bit_index <= k,
                k == pixels_in_row(start_x as int, y as int, w, h),
                w == old(buffer).spec_width(),
                h == old(buffer).spec_height(),
                buffer.wf(),
                buffer.spec_width() == w,
                buffer.spec_height() == h,
                buffer.pixels() == with_byte_prefix(old(buffer).pixels(), w, start_x as int, y as int,
                    byte, bit_index as int),
            decreases 8 - bit_index,
        {
            assert(start_x as int + bit_index as int <= u32::MAX) by {
                if bit_index > 0 {
                    assert(start_x + bit_index - 1 < w);
                }
            }
            assert((byte >> (7 - bit_index) as u8) & 1 == msb_bit(byte, bit_index as int)) by {
                lemma_msb_bit(byte, bit_index as int);
            }
            let bit = (byte >> (7 - bit_index) as u8) & 1;
            let pixel = Self::render_bit(bit);
            let x = start_x + bit_index;
            let r = buffer.set(x, y, pixel);
            match r {
                Ok(()) => {},
                Err(msg) => {
                    assert(k == bit_index);
                    return Err(msg);
                },
            }
            bit_index = bit_index + 1;
        }
        Ok(())
    }
}

proof fn lemma_msb_bit(byte: u8, i: int)
    requires
        0 <= i < 8,
    ensures
        (byte >> (7 - i) as u8) & 1 == msb_bit(byte, i),
{
    reveal_with_fuel(pow2_int, 8);
    let s = (7 - i) as u8;
    if s == 0 { assert((byte >> 0u8) & 1 == byte % 2) by (bit_vector); }
    else if s == 1 { assert((byte >> 1u8) & 1 == (byte / 2) % 2) by (bit_vector); }
    else if s == 2 { assert((byte >> 2u8) & 1 == (byte / 4) % 2) by (bit_vector); }
    else if s == 3 { assert((byte >> 3u8) & 1 == (byte / 8) % 2) by (bit_vector); }
    else if s == 4 { assert((byte >> 4u8) & 1 == (byte / 16) % 2) by (bit_vector); }
    else if s == 5 { assert((byte >> 5u8) & 1 == (byte / 32) % 2) by (bit_vector); }
    else if s == 6 { assert((byte >> 6u8) & 1 == (byte / 64) % 2) by (bit_vector); }
    else { assert((byte >> 7u8) & 1 == (byte / 128) % 2) by (bit_vector); }
}

} // verus!

//! The dump address under the mouse pointer.
//!
//! The block grid is drawn at level 0 with one pixel per bit and one pixel row
//! per page: a block is `page_length * 8` pixels wide and `block_size` pixels
//! tall, and blocks are laid out row by row, `grid_width` to a row. The
//! caller turns the pointer's screen position into a level-0 pixel (that step
//! depends on the floating-point viewport); this module finds the block,
//! page, byte and bit at that pixel, and the byte offset they denote.

use vstd::prelude::*;
use crate::text::{chars_of, push_decimal, push_str, string_from_chars, dec_digits, padded_hex, push_padded_hex};
use crate::types::FileMetadata;

verus! {

/// Address components in the dump file, with the byte offset they denote.
#[derive(Debug, Clone, Copy, PartialEq, Eq)]
pub struct Address {
    pub block: u64,
    pub page: u64,
    pub byte: u64,
    pub bit: u8,
    /// Byte offset in the dump file of the address
    pub offset: u64,
}

/// Byte offset in the dump of block `block`, page `page`, byte `byte`.
pub open spec fn component_offset(block: int, page: int, byte: int, m: FileMetadata) -> int {
    block * m.block_size * m.page_length + page * m.page_length + byte
}

/// The address drawn at level-0 pixel (`px`, `py`), if that pixel belongs to
/// a block of the dump: a block column within the grid's width and a block
/// index below the block count.
pub open spec fn spec_locate(px: u64, py: u64, m: FileMetadata) -> Option<Address> {
    let bw = m.page_length as int * 8;
    let bh = m.block_size as int;
    let block_x = px as int / bw;
    let block_index = (py as int / bh) * m.grid_width as int + block_x;
    let page = py as int % bh;
    let byte = (px as int % bw) / 8;
    let bit = (px as int % bw) % 8;
    if block_x >= m.grid_width || block_index >= m.total_blocks || page >= bh || byte >= m.page_length {
        None
    } else {
        Some(
            Address {
                block: block_index as u64,
                page: page as u64,
                byte: byte as u64,
                bit: bit as u8,
                offset: component_offset(block_index, page, byte, m) as u64,
            },
        )
    }
}

/// Whether locating level-0 pixel (`px`, `py`) stays within 64-bit arithmetic.
pub open spec fn locate_fits(px: u64, py: u64, m: FileMetadata) -> bool {
    (py as int / m.block_size as int) * m.grid_width as int + px as int / (m.page_length as int * 8) <= u64::MAX
}

/// The text shown for an address, or `N/A` without one: the components,
/// then the file offset in upper-case hexadecimal (at least eight digits).
pub open spec fn address_text(a: Option<Address>) -> Seq<char> {
    match a {
        Some(a) => "Block: "@ + dec_digits(a.block as nat) + ", Page: "@ + dec_digits(a.page as nat) + ", Byte: "@
            + dec_digits(a.byte as nat) + ", Bit: "@ + dec_digits(a.bit as nat) + " | Offset: 0x"@ + padded_hex(
            a.offset as nat,
            8,
        ),
        None => "N/A"@,
    }
}

/// Byte offset in the dump of an address.
pub open spec fn address_offset(a: Address, m: FileMetadata) -> int {
    a.block * m.block_size * m.page_length + a.page * m.page_length + a.byte
}

/// Tracks the mouse position and the dump address under it.
pub struct AddressDisplay {
    /// Last screen position of the mouse (None before the first update)
    pub mouse_screen_x: Option<u32>,
    pub mouse_screen_y: Option<u32>,
    /// Address under the mouse (None when the mouse is outside the dump)
    pub address: Option<Address>,
}

impl AddressDisplay {
    /// A display with no mouse position and no address.
    pub fn new() -> (d: AddressDisplay)
        ensures
            d.mouse_screen_x is None,
            d.mouse_screen_y is None,
            d.address is None,
    {
        AddressDisplay { mouse_screen_x: None, mouse_screen_y: None, address: None }
    }

    /// Records the mouse at (`screen_x`, `screen_y`) and the address under it.
    /// `level0_pixel` is the level-0 pixel under the mouse, or None when the
    /// mouse lies left of or above the drawing.
    pub fn update_mouse_position(
        &mut self,
        screen_x: u32,
        screen_y: u32,
        level0_pixel: Option<(u64, u64)>,
        metadata: &FileMetadata,
    )
        requires
            level0_pixel is Some ==> metadata.page_length > 0 && metadata.block_size > 0,
            level0_pixel is Some ==> metadata.total_blocks * metadata.block_size * metadata.page_length <= u64::MAX,
            level0_pixel matches Some((px, py)) ==> locate_fits(px, py, *metadata),
        ensures
            final(self).mouse_screen_x == Some(screen_x),
            final(self).mouse_screen_y == Some(screen_y),
            final(self).address == match level0_pixel {
                Some((px, py)) => spec_locate(px, py, *metadata),
                None => None,
            },
    {
        self.mouse_screen_x = Some(screen_x);
        self.mouse_screen_y = Some(screen_y);
        let (px, py) = match level0_pixel {
            Some(p) => p,
            None => {
                self.address = None;
                return;
            },
        };
        let page_length = metadata.page_length as u64;
        let block_size = metadata.block_size as u64;
        let grid_width = metadata.grid_width as u64;
        let block_width_pixels = page_length * 8;
        let block_height_pixels = block_size;
        let block_x = px / block_width_pixels;
        let block_y = py / block_height_pixels;
        proof {
            assert(block_y * grid_width + block_x <= u64::MAX);
            assert(block_y * grid_width <= u64::MAX);
        }
        let block_index = block_y * grid_width + block_x;
        if block_x >= grid_width || block_index >= metadata.total_blocks {
            self.address = None;
            return;
        }
        let pixel_x_in_block = px % block_width_pixels;
        let pixel_y_in_block = py % block_height_pixels;
        let page_in_block = pixel_y_in_block;
        let byte_in_page = pixel_x_in_block / 8;
        let bit_in_byte = (pixel_x_in_block % 8) as u8;
        if page_in_block >= block_size || byte_in_page >= page_length {
            self.address = None;
            return;
        }
        proof {
            let tb = metadata.total_blocks as int;
            assert(block_index * block_size * page_length + page_in_block * page_length + byte_in_page
                < tb * block_size * page_length) by (nonlinear_arith)
                requires
                    block_index + 1 <= tb,
                    page_in_block + 1 <= block_size,
                    byte_in_page + 1 <= page_length,
                    block_index >= 0,
                    page_in_block >= 0,
                    byte_in_page >= 0,
                    page_length >= 1,
            ;
            assert(block_index * block_size <= block_index * block_size * page_length
                && block_index * block_size * page_length >= 0
                && page_in_block * page_length >= 0) by (nonlinear_arith)
                requires
                    block_index >= 0,
                    page_in_block >= 0,
                    block_size >= 1,
                    page_length >= 1,
            ;
        }
        let offset = block_index * block_size * page_length + page_in_block * page_length + byte_in_page;
        self.address = Some(
            Address { block: block_index, page: page_in_block, byte: byte_in_page, bit: bit_in_byte, offset },
        );
    }

    /// "Block: X, Page: Y, Byte: Z, Bit: W | Offset: 0xHEXADECIMAL" for the
    /// address under the mouse, or "N/A" when the mouse is outside the dump.
    pub fn get_address(&self) -> (s: String)
        ensures
            s@ == address_text(self.address),
    {
        match self.address {
            Some(addr) => {
                let mut out = chars_of("Block: ");
                push_decimal(&mut out, addr.block);
                push_str(&mut out, ", Page: ");
                push_decimal(&mut out, addr.page);
                push_str(&mut out, ", Byte: ");
                push_decimal(&mut out, addr.byte);
                push_str(&mut out, ", Bit: ");
                push_decimal(&mut out, addr.bit as u64);
                push_str(&mut out, " | Offset: 0x");
                push_padded_hex(&mut out, addr.offset, 8);
                string_from_chars(out.as_slice())
            },
            None => string_from_chars(chars_of("N/A").as_slice()),
        }
    }

    /// Byte offset in the dump of the address under the mouse.
    pub fn get_file_offset(&self, metadata: &FileMetadata) -> (r: Option<u64>)
        requires
            self.address matches Some(a) ==> address_offset(a, *metadata) <= u64::MAX,
        ensures
            r == match self.address {
                Some(a) => Some(address_offset(a, *metadata) as u64),
                None => None,
            },
    {
        match self.address {
            Some(addr) => {
                let page_length = metadata.page_length as u64;
                let block_size = metadata.block_size as u64;
                let ghost off = address_offset(addr, *metadata);
                if page_length == 0 {
                    assert(off == addr.byte) by (nonlinear_arith)
                        requires
                            off == addr.block * block_size * page_length + addr.page * page_length + addr.byte,
                            page_length == 0,
                    ;
                    return Some(addr.byte);
                }
                assert(addr.block * block_size <= addr.block * block_size * page_length
                    && addr.block * block_size * page_length <= off
                    && addr.page * page_length <= off) by (nonlinear_arith)
                    requires
                        off == addr.block * block_size * page_length + addr.page * page_length + addr.byte,
                        page_length >= 1,
                ;
                let block_offset = addr.block * block_size * page_length;
                let page_offset = addr.page * page_length;
                Some(block_offset + page_offset + addr.byte)
            },
            None => None,
        }
    }

    /// Whether the last update found an address under the mouse.
    pub fn is_mouse_in_bounds(&self) -> (b: bool)
        ensures
            b == self.address is Some,
    {
        self.address.is_some()
    }

    /// The components (block, page, byte, bit) of the address under the mouse.
    pub fn get_address_components(&self) -> (r: Option<(u64, u64, u64, u8)>)
        ensures
            r == match self.address {
                Some(a) => Some((a.block, a.page, a.byte, a.bit)),
                None => None,
            },
    {
        match self.address {
            Some(a) => Some((a.block, a.page, a.byte, a.bit)),
            None => None,
        }
    }
}

impl Default for AddressDisplay {
    fn default() -> (d: AddressDisplay)
        ensures
            d.mouse_screen_x is None,
            d.mouse_screen_y is None,
            d.address is None,
    {
        AddressDisplay::new()
    }
}

} // verus!

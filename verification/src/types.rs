//! Core value types shared by the viewer modules.

use vstd::prelude::*;

verus! {

/// Position of a tile in the image pyramid: resolution level and column/row.
#[derive(Debug, Clone, Copy, PartialEq, Eq, Hash)]
pub struct TileCoord {
    pub level: u32,
    pub x: u32,
    pub y: u32,
}

impl TileCoord {
    pub fn new(level: u32, x: u32, y: u32) -> (c: TileCoord)
        ensures
            c.level == level,
            c.x == x,
            c.y == y,
    {
        TileCoord { level, x, y }
    }
}

/// Number of units needed to hold `n` items in groups of `d` (ceiling division).
pub open spec fn ceil_div(n: int, d: int) -> int {
    if n % d == 0 { n / d } else { n / d + 1 }
}

/// Geometry of an opened NAND dump.
#[derive(Debug)]
pub struct FileMetadata {
    /// Path of the dump (or a virtual identity for derived streams)
    pub path: String,
    /// Size in bytes
    pub size: u64,
    /// Bytes per page
    pub page_length: u32,
    /// Pages per block
    pub block_size: u32,
    /// Number of (possibly partial) pages in the dump
    pub total_pages: u64,
    /// Number of (possibly partial) blocks in the dump
    pub total_blocks: u64,
    /// Blocks per row of the block grid
    pub grid_width: u32,
    /// Rows of the block grid
    pub grid_height: u32,
}

impl FileMetadata {
    /// Builds the metadata of a dump whose block grid has already been laid out.
    /// Page and block counts are rounded up so that a trailing partial page or
    /// block still counts.
    pub fn with_grid(
        path: String,
        size: u64,
        page_length: u32,
        block_size: u32,
        grid_width: u32,
        grid_height: u32,
    ) -> (m: FileMetadata)
        requires
            page_length > 0,
            block_size > 0,
        ensures
            m.path@ == path@,
            m.size == size,
            m.page_length == page_length,
            m.block_size == block_size,
            m.total_pages == ceil_div(size as int, page_length as int),
            m.total_blocks == ceil_div(m.total_pages as int, block_size as int),
            m.grid_width == grid_width,
            m.grid_height == grid_height,
    {
        let pl = page_length as u64;
        proof {
            assert(size / pl * pl + size % pl == size && (size % pl != 0 ==> size / pl < size)) by (nonlinear_arith)
                requires
                    pl >= 1,
            ;
        }
        let total_pages = size / pl + if size % pl != 0 { 1u64 } else { 0u64 };
        let bs = block_size as u64;
        proof {
            assert(total_pages / bs * bs + total_pages % bs == total_pages
                && (total_pages % bs != 0 ==> total_pages / bs < total_pages)) by (nonlinear_arith)
                requires
                    bs >= 1,
            ;
        }
        let total_blocks = total_pages / bs + if total_pages % bs != 0 { 1u64 } else { 0u64 };
        FileMetadata {
            path,
            size,
            page_length,
            block_size,
            total_pages,
            total_blocks,
            grid_width,
            grid_height,
        }
    }

    /// A field-by-field copy.
    pub fn duplicate(&self) -> (m: FileMetadata)
        ensures
            m.path@ == self.path@,
            m.size == self.size,
            m.page_length == self.page_length,
            m.block_size == self.block_size,
            m.total_pages == self.total_pages,
            m.total_blocks == self.total_blocks,
            m.grid_width == self.grid_width,
            m.grid_height == self.grid_height,
    {
        FileMetadata {
            path: self.path.clone(),
            size: self.size,
            page_length: self.page_length,
            block_size: self.block_size,
            total_pages: self.total_pages,
            total_blocks: self.total_blocks,
            grid_width: self.grid_width,
            grid_height: self.grid_height,
        }
    }
}

impl Default for FileMetadata {
    /// Metadata of no dump: an empty path and every count zero.
    fn default() -> (m: FileMetadata)
        ensures
            m.path@ == Seq::<char>::empty(),
            m.size == 0,
            m.page_length == 0,
            m.block_size == 0,
            m.total_pages == 0,
            m.total_blocks == 0,
            m.grid_width == 0,
            m.grid_height == 0,
    {
        FileMetadata {
            path: String::new(),
            size: 0,
            page_length: 0,
            block_size: 0,
            total_pages: 0,
            total_blocks: 0,
            grid_width: 0,
            grid_height: 0,
        }
    }
}

/// A byte range `[start_byte, end_byte)` of the dump.
#[derive(Debug, Clone, Copy, PartialEq, Eq)]
pub struct Fragment {
    pub start_byte: u64,
    pub end_byte: u64,
}

impl Fragment {
    pub fn new(start_byte: u64, end_byte: u64) -> (f: Fragment)
        ensures
            f.start_byte == start_byte,
            f.end_byte == end_byte,
    {
        Fragment { start_byte, end_byte }
    }

    /// Number of bytes covered (0 for an inverted range).
    pub fn length(&self) -> (n: u64)
        ensures
            n == (if self.start_byte <= self.end_byte { self.end_byte - self.start_byte } else { 0 }),
    {
        if self.start_byte <= self.end_byte {
            self.end_byte - self.start_byte
        } else {
            0
        }
    }
}

/// Tile layout of one level of the image pyramid.
#[derive(Debug, Clone, Copy, PartialEq, Eq)]
pub struct PyramidLevel {
    pub level: u32,
    pub tile_width: u32,
    pub tile_height: u32,
    pub tiles_wide: u32,
    pub tiles_tall: u32,
}

impl PyramidLevel {
    pub fn new(level: u32, tile_width: u32, tile_height: u32, tiles_wide: u32, tiles_tall: u32) -> (p: PyramidLevel)
        ensures
            p.level == level,
            p.tile_width == tile_width,
            p.tile_height == tile_height,
            p.tiles_wide == tiles_wide,
            p.tiles_tall == tiles_tall,
    {
        PyramidLevel { level, tile_width, tile_height, tiles_wide, tiles_tall }
    }
}

/// Scheduling priority of a tile request.
#[derive(Debug, Clone, Copy, PartialEq, Eq, Hash)]
pub enum Priority {
    High,
    Normal,
    Low,
}

} // verus!

//! Layout of the tile cache, `{cache_dir}/{dump_filename}/{level}/{y}/{x}.qoi`,
//! and the integrity check applied to a tile read back from it.
//!
//! The file operations themselves (create, read, write, rename, remove) are
//! done by the caller on the paths this module gives.

use vstd::prelude::*;
use crate::error::Error;
use crate::text::{chars_of, push_decimal, string_from_chars, dec_digits};
use crate::types::TileCoord;

verus! {

/// Where a dump's tiles are cached: the cache directory and the dump's file
/// name, under which the levels live.
#[derive(Debug, Clone)]
pub struct CacheManager {
    /// Base cache directory path
    pub cache_dir: String,
    /// Dump filename (used in cache path)
    pub dump_filename: String,
}

/// Smallest size of a cached tile: a QOI header is 14 bytes.
pub const QOI_HEADER_LEN: usize = 14;

/// Whether `data` starts with the QOI magic `qoif`.
pub open spec fn has_qoi_signature(data: Seq<u8>) -> bool {
    data.len() >= 4 && data[0] == 0x71u8 && data[1] == 0x6fu8 && data[2] == 0x69u8 && data[3] == 0x66u8
}

impl CacheManager {
    /// A cache for the tiles of `dump_filename` under `cache_dir`. The caller
    /// creates the cache directory.
    pub fn new(cache_dir: String, dump_filename: String) -> (m: CacheManager)
        ensures
            m.cache_dir@ == cache_dir@,
            m.dump_filename@ == dump_filename@,
    {
        CacheManager { cache_dir, dump_filename }
    }

    /// Path components of a tile's file, to be joined in order: the cache
    /// directory, the dump's file name, the level, the row and `{x}.qoi`.
    pub fn get_tile_path(&self, coord: &TileCoord) -> (p: Vec<String>)
        ensures
            p@.len() == 5,
            p@[0]@ == self.cache_dir@,
            p@[1]@ == self.dump_filename@,
            p@[2]@ == dec_digits(coord.level as nat),
            p@[3]@ == dec_digits(coord.y as nat),
            p@[4]@ == dec_digits(coord.x as nat) + ".qoi"@,
    {
        let mut p: Vec<String> = Vec::new();
        p.push(self.cache_dir.clone());
        p.push(self.dump_filename.clone());
        let mut level: Vec<char> = Vec::new();
        push_decimal(&mut level, coord.level as u64);
        p.push(string_from_chars(level.as_slice()));
        let mut row: Vec<char> = Vec::new();
        push_decimal(&mut row, coord.y as u64);
        p.push(string_from_chars(row.as_slice()));
        let mut name: Vec<char> = Vec::new();
        push_decimal(&mut name, coord.x as u64);
        let ext = chars_of(".qoi");
        let mut i: usize = 0;
        let ghost digits = name@;
        while i < ext.len()
            invariant
                i <= ext@.len(),
                ext@ == ".qoi"@,
                name@ == digits + ext@.subrange(0, i as int),
            decreases ext@.len() - i,
        {
            name.push(ext[i]);
            i = i + 1;
            assert(name@ =~= digits + ext@.subrange(0, i as int));
        }
        assert(ext@.subrange(0, i as int) =~= ext@);
        p.push(string_from_chars(name.as_slice()));
        p
    }

    /// Path components of the directory holding all of this dump's tiles
    /// (the one removed to invalidate the cache).
    pub fn dump_cache_dir(&self) -> (p: Vec<String>)
        ensures
            p@.len() == 2,
            p@[0]@ == self.cache_dir@,
            p@[1]@ == self.dump_filename@,
    {
        let mut p: Vec<String> = Vec::new();
        p.push(self.cache_dir.clone());
        p.push(self.dump_filename.clone());
        p
    }
}

/// Checks a tile read back from the cache: at least a QOI header long, and
/// starting with the QOI signature. The bytes are handed back unchanged.
pub fn validate_cached_tile(data: Vec<u8>) -> (r: Result<Vec<u8>, Error>)
    ensures
        data@.len() < 14 ==> (r matches Err(Error::CacheError(m)) && m@ == "Invalid QOI: file too small"@),
        data@.len() >= 14 && !has_qoi_signature(data@) ==> (r matches Err(Error::CacheError(m)) && m@
            == "Invalid QOI: incorrect signature"@),
        data@.len() >= 14 && has_qoi_signature(data@) ==> (r matches Ok(v) && v@ == data@),
{
    if data.len() < QOI_HEADER_LEN {
        return Err(Error::CacheError(string_from_chars(chars_of("Invalid QOI: file too small").as_slice())));
    }
    if !(data[0] == 0x71u8 && data[1] == 0x6fu8 && data[2] == 0x69u8 && data[3] == 0x66u8) {
        return Err(Error::CacheError(string_from_chars(chars_of("Invalid QOI: incorrect signature").as_slice())));
    }
    Ok(data)
}

} // verus!

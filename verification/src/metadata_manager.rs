//! Metadata remembered for a dump between sessions: what is stored in
//! `{cache_dir}/{dump_filename}/metadata.json`, and the checks that decide
//! whether stored metadata still describes the dump on disk.
//!
//! Reading and writing the JSON file is done by the caller; this module holds
//! the values and the decisions.

use vstd::prelude::*;
use crate::error::Error;
use crate::text::{chars_of, push_decimal, push_str, string_from_chars, dec_digits};
use crate::types::{FileMetadata, ceil_div};

verus! {

/// Metadata stored for a dump.
#[derive(Debug, Clone)]
pub struct Metadata {
    /// Path to the dump file
    pub path: String,
    /// Total file size in bytes
    pub size: u64,
    /// Bytes per page
    pub page_length: u32,
    /// Pages per block
    pub block_size: u32,
    /// Time the metadata was saved (seconds since the Unix epoch)
    pub timestamp: u64,
}

/// Seconds since the Unix epoch by the system clock (`SystemTime::now`
/// measured from `UNIX_EPOCH`), or 0 when the clock reads before the epoch.
/// Nothing is claimed of the value: it is the machine's clock.
#[verifier::external_body]
fn unix_time_now() -> u64 {
    std::time::SystemTime::now().duration_since(std::time::UNIX_EPOCH).map(|d| d.as_secs()).unwrap_or(0)
}

impl Metadata {
    /// Metadata for `file_metadata` stamped with the current time.
    pub fn from_file_metadata(file_metadata: &FileMetadata) -> (m: Metadata)
        ensures
            m.path@ == file_metadata.path@,
            m.size == file_metadata.size,
            m.page_length == file_metadata.page_length,
            m.block_size == file_metadata.block_size,
    {
        let now = unix_time_now();
        Self::from_file_metadata_at(file_metadata, now)
    }

    /// Metadata for `file_metadata` stamped with `timestamp`.
    pub fn from_file_metadata_at(file_metadata: &FileMetadata, timestamp: u64) -> (m: Metadata)
        ensures
            m.path@ == file_metadata.path@,
            m.size == file_metadata.size,
            m.page_length == file_metadata.page_length,
            m.block_size == file_metadata.block_size,
            m.timestamp == timestamp,
    {
        Metadata {
            path: file_metadata.path.clone(),
            size: file_metadata.size,
            page_length: file_metadata.page_length,
            block_size: file_metadata.block_size,
            timestamp,
        }
    }

    /// The dump geometry described by this metadata, laid out on a block grid
    /// of `grid_width` by `grid_height` blocks.
    pub fn to_file_metadata(&self, grid_width: u32, grid_height: u32) -> (m: FileMetadata)
        requires
            self.page_length > 0,
            self.block_size > 0,
        ensures
            m.path@ == self.path@,
            m.size == self.size,
            m.page_length == self.page_length,
            m.block_size == self.block_size,
            m.total_pages == ceil_div(self.size as int, self.page_length as int),
            m.total_blocks == ceil_div(m.total_pages as int, self.block_size as int),
            m.grid_width == grid_width,
            m.grid_height == grid_height,
    {
        FileMetadata::with_grid(self.path.clone(), self.size, self.page_length, self.block_size, grid_width, grid_height)
    }
}

/// Accepts stored metadata only while it still describes the dump: the file
/// must exist at the stored path and still have the stored size.
pub fn check_loaded_metadata(metadata: Metadata, dump_exists: bool, current_size: u64) -> (r: Result<
    Metadata,
    Error,
>)
    ensures
        !dump_exists ==> (r matches Err(Error::CacheError(msg)) && msg@
            == "Dump file no longer exists at stored path"@),
        dump_exists && current_size != metadata.size ==> (r matches Err(Error::CacheError(msg)) && msg@
            == "File size mismatch: stored="@ + dec_digits(metadata.size as nat) + ", current="@
            + dec_digits(current_size as nat)),
        dump_exists && current_size == metadata.size ==> (r matches Ok(m) && m.path@ == metadata.path@ && m.size
            == metadata.size && m.page_length == metadata.page_length && m.block_size == metadata.block_size
            && m.timestamp == metadata.timestamp),
{
    if !dump_exists {
        return Err(Error::CacheError(string_from_chars(chars_of("Dump file no longer exists at stored path").as_slice())));
    }
    if current_size != metadata.size {
        let mut msg = chars_of("File size mismatch: stored=");
        push_decimal(&mut msg, metadata.size);
        push_str(&mut msg, ", current=");
        push_decimal(&mut msg, current_size);
        return Err(Error::CacheError(string_from_chars(msg.as_slice())));
    }
    Ok(metadata)
}

/// Where a dump's metadata is kept: the cache directory and the dump's
/// file name, under which the metadata file lives.
#[derive(Debug, Clone)]
pub struct MetadataManager {
    /// Base cache directory path
    pub cache_dir: String,
    /// Dump filename (used in cache path)
    pub dump_filename: String,
}

impl MetadataManager {
    /// A manager for the metadata of `dump_filename` under `cache_dir`. The
    /// caller creates the cache directory.
    pub fn new(cache_dir: String, dump_filename: String) -> (m: MetadataManager)
        ensures
            m.cache_dir@ == cache_dir@,
            m.dump_filename@ == dump_filename@,
    {
        MetadataManager { cache_dir, dump_filename }
    }

    /// Path components of the metadata file, to be joined in order:
    /// the cache directory, the dump's file name and `metadata.json`.
    pub fn get_metadata_path(&self) -> (p: Vec<String>)
        ensures
            p@.len() == 3,
            p@[0]@ == self.cache_dir@,
            p@[1]@ == self.dump_filename@,
            p@[2]@ == "metadata.json"@,
    {
        let mut p: Vec<String> = Vec::new();
        p.push(self.cache_dir.clone());
        p.push(self.dump_filename.clone());
        p.push(string_from_chars(chars_of("metadata.json").as_slice()));
        p
    }
}

} // verus!

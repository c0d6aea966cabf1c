//! Error type of the viewer library.

use vstd::prelude::*;
use crate::text::{chars_of, push_str, string_from_chars};

verus! {

/// Errors reported by viewer operations.
#[derive(Debug)]
pub enum Error {
    /// I/O error when reading a dump file (its message)
    IoError(String),
    /// Invalid file metadata (page length, block size)
    InvalidMetadata(String),
    /// Tile generation failed
    TileGenerationFailed(String),
    /// Cache operation failed
    CacheError(String),
    /// PNG encoding/decoding error
    PngError(String),
    /// Image encoding/decoding error (QOI, raw RGB)
    ImageError(String),
    /// Invalid tile coordinates
    InvalidCoordinates(String),
    /// Worker thread error
    WorkerError(String),
    /// Resource not found
    NotFound(String),
    /// Generic error with message
    Other(String),
}

/// The display text of an error: a prefix naming its kind, then its message.
pub open spec fn error_text(e: Error) -> Seq<char> {
    match e {
        Error::IoError(m) => "I/O error: "@ + m@,
        Error::InvalidMetadata(m) => "Invalid metadata: "@ + m@,
        Error::TileGenerationFailed(m) => "Tile generation failed: "@ + m@,
        Error::CacheError(m) => "Cache error: "@ + m@,
        Error::PngError(m) => "PNG error: "@ + m@,
        Error::ImageError(m) => "Image error: "@ + m@,
        Error::InvalidCoordinates(m) => "Invalid coordinates: "@ + m@,
        Error::WorkerError(m) => "Worker error: "@ + m@,
        Error::NotFound(m) => "Not found: "@ + m@,
        Error::Other(m) => m@,
    }
}

impl Error {
    /// The display text of the error.
    pub fn to_string(&self) -> (s: String)
        ensures
            s@ == error_text(*self),
    {
        let (prefix, m) = match self {
            Error::IoError(m) => ("I/O error: ", m),
            Error::InvalidMetadata(m) => ("Invalid metadata: ", m),
            Error::TileGenerationFailed(m) => ("Tile generation failed: ", m),
            Error::CacheError(m) => ("Cache error: ", m),
            Error::PngError(m) => ("PNG error: ", m),
            Error::ImageError(m) => ("Image error: ", m),
            Error::InvalidCoordinates(m) => ("Invalid coordinates: ", m),
            Error::WorkerError(m) => ("Worker error: ", m),
            Error::NotFound(m) => ("Not found: ", m),
            Error::Other(m) => ("", m),
        };
        let mut out = chars_of(prefix);
        push_str(&mut out, m.as_str());
        proof {
            reveal_strlit("");
        }
        string_from_chars(out.as_slice())
    }
}

/// Result type of viewer operations.
pub type Result<T> = core::result::Result<T, Error>;

} // verus!

//! NAND Flash Viewer library: the verified core of a viewer for large NAND
//! flash dump files (coordinate arithmetic, bit rendering, tile pyramids,
//! page-structure parsing and editing, the page-by-page hex view, pattern
//! search, data providers and the registry of open dumps).

pub mod types;
pub mod error;
pub mod text;
pub mod coordinate_parser;
pub mod fuse_node;
pub mod bit_renderer;
pub mod byte_arranger;
pub mod block_arranger;
pub mod pyramid_tile_generator;
pub mod tile_codec;
pub mod fuse_fs;
pub mod search;
pub mod hex_tab;
pub mod hex_rows;
pub mod page_structure_tab;
pub mod page_structure_editor;
pub mod data_provider;
pub mod file_loader;
pub mod metadata_manager;
pub mod cache_manager;
pub mod file_dialog;
pub mod address_display;
pub mod multi_file_manager;
pub mod case_round_trip;
pub mod search_export;
pub mod xorviewer;

pub use error::{Error, Result};
pub use types::{FileMetadata, TileCoord, Fragment, PyramidLevel, Priority};
pub use coordinate_parser::CoordinateParser;

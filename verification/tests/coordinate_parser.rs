use nand_flash_viewer::coordinate_parser::CoordinateParser;
use nand_flash_viewer::{FileMetadata, TileCoord};

/// Metadata of a dump of `size` bytes laid out one block per grid row.
fn file_metadata_new(path: String, size: u64, page_length: u32, block_size: u32) -> FileMetadata {
    let pl = page_length as u64;
    let total_pages = size / pl + if size % pl != 0 { 1 } else { 0 };
    let bs = block_size as u64;
    let total_blocks = total_pages / bs + if total_pages % bs != 0 { 1 } else { 0 };
    let rows = if total_blocks == 0 { 1 } else { total_blocks as u32 };
    FileMetadata::with_grid(path, size, page_length, block_size, 1, rows)
}


#[test]
fn test_tile_to_byte_offset_level_0() {
    let metadata = file_metadata_new(
        "test.bin".to_string(),
        1_000_000,
        512,
        64,
    );
    
    let coord = TileCoord::new(0, 0, 0);
    let offset = CoordinateParser::tile_to_byte_offset(coord, &metadata);
    
    // At level 0, tile (0,0) should start at byte 0
    assert_eq!(offset, 0);
}

#[test]
fn test_tile_to_byte_offset_with_level() {
    let metadata = file_metadata_new(
        "test.bin".to_string(),
        1_000_000,
        512,
        64,
    );
    
    // At level 1, tiles are 2x larger (512x512 pixels)
    let coord = TileCoord::new(1, 0, 0);
    let offset = CoordinateParser::tile_to_byte_offset(coord, &metadata);
    
    // Should be 0 since it's still the first tile
    assert_eq!(offset, 0);
}

#[test]
fn test_byte_offset_to_tile_level_0() {
    let metadata = file_metadata_new(
        "test.bin".to_string(),
        1_000_000,
        512,
        64,
    );
    
    let coord = CoordinateParser::byte_offset_to_tile(0, 0, &metadata);
    
    // Byte offset 0 should map to tile (0, 0) at level 0
    assert_eq!(coord.level, 0);
    assert_eq!(coord.x, 0);
    assert_eq!(coord.y, 0);
}

#[test]
fn test_round_trip_conversion() {
    let metadata = file_metadata_new(
        "test.bin".to_string(),
        10_000_000,
        512,
        64,
    );
    
    let original = TileCoord::new(0, 0, 10);
    let offset = CoordinateParser::tile_to_byte_offset(original, &metadata);
    let recovered = CoordinateParser::byte_offset_to_tile(offset, 0, &metadata);
    
    // Round-trip should produce equivalent coordinates
    assert_eq!(original.level, recovered.level);
    assert_eq!(original.x, recovered.x);
    assert_eq!(original.y, recovered.y);
}

#[test]
fn test_round_trip_conversion_with_level() {
    let metadata = file_metadata_new(
        "test.bin".to_string(),
        10_000_000,
        512,
        64,
    );
    
    let original = TileCoord::new(2, 0, 7);
    let offset = CoordinateParser::tile_to_byte_offset(original, &metadata);
    let recovered = CoordinateParser::byte_offset_to_tile(offset, 2, &metadata);
    
    // Round-trip should produce equivalent coordinates
    assert_eq!(original.level, recovered.level);
    assert_eq!(original.x, recovered.x);
    assert_eq!(original.y, recovered.y);
}

#[test]
fn test_pretty_print() {
    let coord = TileCoord::new(0, 5, 10);
    let formatted = CoordinateParser::pretty_print(coord);
    
    assert_eq!(formatted, "L0:(5,10)");
}

#[test]
fn test_pretty_print_with_level() {
    let coord = TileCoord::new(3, 12, 45);
    let formatted = CoordinateParser::pretty_print(coord);
    
    assert_eq!(formatted, "L3:(12,45)");
}

#[test]
fn test_multiple_tiles_different_offsets() {
    let metadata = file_metadata_new(
        "test.bin".to_string(),
        10_000_000,
        512,
        64,
    );
    
    let tile1 = TileCoord::new(0, 0, 0);
    let tile2 = TileCoord::new(0, 0, 1);
    let tile3 = TileCoord::new(0, 0, 2);
    
    let offset1 = CoordinateParser::tile_to_byte_offset(tile1, &metadata);
    let offset2 = CoordinateParser::tile_to_byte_offset(tile2, &metadata);
    let offset3 = CoordinateParser::tile_to_byte_offset(tile3, &metadata);
    
    // Different tiles should have different offsets
    assert!(offset1 < offset2);
    assert!(offset2 < offset3);
}

#[test]
fn test_first_tile_at_level_0() {
    // Test the very first tile (0, 0) at level 0
    let metadata = file_metadata_new(
        "test.bin".to_string(),
        100_000_000,
        512,
        64,
    );
    
    let coord = TileCoord::new(0, 0, 0);
    let offset = CoordinateParser::tile_to_byte_offset(coord, &metadata);
    
    // First tile should start at byte 0
    assert_eq!(offset, 0);
    
    // Round-trip should work
    let recovered = CoordinateParser::byte_offset_to_tile(offset, 0, &metadata);
    assert_eq!(coord, recovered);
}

#[test]
fn test_boundary_minimum_page_length() {
    // Test with minimum page length (500 bytes)
    let metadata = file_metadata_new(
        "test.bin".to_string(),
        50_000_000_000, // 50 GB
        500,
        64,
    );
    
    let coord = TileCoord::new(0, 0, 10);
    let offset = CoordinateParser::tile_to_byte_offset(coord, &metadata);
    let recovered = CoordinateParser::byte_offset_to_tile(offset, 0, &metadata);
    
    assert_eq!(coord, recovered);
}

#[test]
fn test_boundary_maximum_page_length() {
    // Test with maximum page length (20000 bytes)
    let metadata = file_metadata_new(
        "test.bin".to_string(),
        100_000_000_000, // 100 GB
        20000,
        128,
    );
    
    let coord = TileCoord::new(0, 0, 5);
    let offset = CoordinateParser::tile_to_byte_offset(coord, &metadata);
    let recovered = CoordinateParser::byte_offset_to_tile(offset, 0, &metadata);
    
    assert_eq!(coord, recovered);
}

#[test]
fn test_boundary_minimum_block_size() {
    // Test with minimum block size (64 pages per block)
    let metadata = file_metadata_new(
        "test.bin".to_string(),
        10_000_000,
        1024,
        64,
    );
    
    let coord = TileCoord::new(0, 0, 3);
    let offset = CoordinateParser::tile_to_byte_offset(coord, &metadata);
    let recovered = CoordinateParser::byte_offset_to_tile(offset, 0, &metadata);
    
    assert_eq!(coord, recovered);
}

#[test]
fn test_boundary_maximum_block_size() {
    // Test with maximum block size (1024 pages per block)
    let metadata = file_metadata_new(
        "test.bin".to_string(),
        50_000_000,
        2048,
        1024,
    );
    
    let coord = TileCoord::new(0, 0, 2);
    let offset = CoordinateParser::tile_to_byte_offset(coord, &metadata);
    let recovered = CoordinateParser::byte_offset_to_tile(offset, 0, &metadata);
    
    assert_eq!(coord, recovered);
}

#[test]
fn test_boundary_all_valid_block_sizes() {
    // Test all valid block sizes: 64, 128, 256, 512, 1024
    let block_sizes = vec![64, 128, 256, 512, 1024];
    
    for block_size in block_sizes {
        let metadata = file_metadata_new(
            "test.bin".to_string(),
            20_000_000,
            1024,
            block_size,
        );
        
        let coord = TileCoord::new(0, 0, 5);
        let offset = CoordinateParser::tile_to_byte_offset(coord, &metadata);
        let recovered = CoordinateParser::byte_offset_to_tile(offset, 0, &metadata);
        
        assert_eq!(coord, recovered, "Failed for block_size={}", block_size);
    }
}

#[test]
fn test_boundary_various_levels() {
    // Test coordinate conversion at different pyramid levels
    let metadata = file_metadata_new(
        "test.bin".to_string(),
        100_000_000,
        2048,
        128,
    );
    
    for level in 0..5 {
        let coord = TileCoord::new(level, 0, 3);
        let offset = CoordinateParser::tile_to_byte_offset(coord, &metadata);
        let recovered = CoordinateParser::byte_offset_to_tile(offset, level, &metadata);
        
        assert_eq!(coord, recovered, "Failed for level={}", level);
    }
}

#[test]
fn test_boundary_last_tile_in_first_block() {
    // Test the last tile within the first block
    let metadata = file_metadata_new(
        "test.bin".to_string(),
        10_000_000,
        512,
        64,
    );
    
    // Calculate the last tile y coordinate in the first block
    // Each tile is 256 pixels tall, each page is 512 bytes tall
    // Block has 64 pages = 64 * 512 = 32768 bytes tall
    // Last tile y in first block: (32768 - 1) / 256 = 127
    let coord = TileCoord::new(0, 0, 127);
    let offset = CoordinateParser::tile_to_byte_offset(coord, &metadata);
    let recovered = CoordinateParser::byte_offset_to_tile(offset, 0, &metadata);
    
    assert_eq!(coord, recovered);
}

#[test]
fn test_boundary_first_tile_in_second_block() {
    // Test the first tile in the second block (vertically)
    let metadata = file_metadata_new(
        "test.bin".to_string(),
        50_000_000,
        512,
        64,
    );
    
    // First tile in second block: y = 64 * 512 / 256 = 128
    let coord = TileCoord::new(0, 0, 128);
    let offset = CoordinateParser::tile_to_byte_offset(coord, &metadata);
    let recovered = CoordinateParser::byte_offset_to_tile(offset, 0, &metadata);
    
    assert_eq!(coord, recovered);
}

#[test]
fn test_round_trip_with_various_page_sizes() {
    // Test round-trip conversion with different page sizes
    let page_sizes = vec![500, 1024, 2048, 4096, 8192, 20000];
    
    for page_length in page_sizes {
        let metadata = file_metadata_new(
            "test.bin".to_string(),
            100_000_000,
            page_length,
            128,
        );
        
        let coords = vec![
            TileCoord::new(0, 0, 0),
            TileCoord::new(0, 0, 10),
            TileCoord::new(1, 0, 5),
            TileCoord::new(2, 0, 2),
        ];
        
        for coord in coords {
            let offset = CoordinateParser::tile_to_byte_offset(coord, &metadata);
            let recovered = CoordinateParser::byte_offset_to_tile(offset, coord.level, &metadata);
            
            assert_eq!(coord, recovered, "Failed for page_length={}, coord={:?}", page_length, coord);
        }
    }
}

#[test]
fn test_round_trip_with_various_block_sizes() {
    // Test round-trip conversion with different block sizes
    let block_sizes = vec![64, 128, 256, 512, 1024];
    
    for block_size in block_sizes {
        let metadata = file_metadata_new(
            "test.bin".to_string(),
            100_000_000,
            2048,
            block_size,
        );
        
        let coords = vec![
            TileCoord::new(0, 0, 0),
            TileCoord::new(0, 0, 15),
            TileCoord::new(1, 0, 7),
            TileCoord::new(2, 0, 3),
        ];
        
        for coord in coords {
            let offset = CoordinateParser::tile_to_byte_offset(coord, &metadata);
            let recovered = CoordinateParser::byte_offset_to_tile(offset, coord.level, &metadata);
            
            assert_eq!(coord, recovered, "Failed for block_size={}, coord={:?}", block_size, coord);
        }
    }
}

#[test]
fn test_round_trip_extreme_configurations() {
    // Test with extreme but valid configurations
    let configs = vec![
        (500, 64),      // Minimum page, minimum block
        (20000, 1024),  // Maximum page, maximum block
        (500, 1024),    // Minimum page, maximum block
        (20000, 64),    // Maximum page, minimum block
    ];
    
    for (page_length, block_size) in configs {
        let metadata = file_metadata_new(
            "test.bin".to_string(),
            100_000_000,
            page_length,
            block_size,
        );
        
        let coord = TileCoord::new(0, 0, 5);
        let offset = CoordinateParser::tile_to_byte_offset(coord, &metadata);
        let recovered = CoordinateParser::byte_offset_to_tile(offset, 0, &metadata);
        
        assert_eq!(coord, recovered, "Failed for page_length={}, block_size={}", page_length, block_size);
    }
}

#[test]
fn test_offset_increases_with_y_coordinate() {
    // Verify that byte offset increases as y coordinate increases
    let metadata = file_metadata_new(
        "test.bin".to_string(),
        50_000_000,
        1024,
        128,
    );
    
    let mut prev_offset = 0;
    for y in 0..20 {
        let coord = TileCoord::new(0, 0, y);
        let offset = CoordinateParser::tile_to_byte_offset(coord, &metadata);
        
        if y > 0 {
            assert!(offset > prev_offset, "Offset should increase with y coordinate");
        }
        prev_offset = offset;
    }
}

#[test]
fn test_level_scaling_affects_offset() {
    // Verify that higher levels (lower resolution) affect offset calculation
    let metadata = file_metadata_new(
        "test.bin".to_string(),
        100_000_000,
        2048,
        256,
    );
    
    // Same tile coordinates at different levels should map to different offsets
    let coord_l0 = TileCoord::new(0, 0, 1);
    let coord_l1 = TileCoord::new(1, 0, 1);
    let coord_l2 = TileCoord::new(2, 0, 1);
    
    let offset_l0 = CoordinateParser::tile_to_byte_offset(coord_l0, &metadata);
    let offset_l1 = CoordinateParser::tile_to_byte_offset(coord_l1, &metadata);
    let offset_l2 = CoordinateParser::tile_to_byte_offset(coord_l2, &metadata);
    
    // Higher levels should have larger offsets for same (x, y)
    assert!(offset_l1 > offset_l0);
    assert!(offset_l2 > offset_l1);
}

use nand_flash_viewer::bit_renderer::{Pixel, PixelBuffer};
use nand_flash_viewer::pyramid_tile_generator::{PyramidStep, PyramidTileGenerator, TILE_HEIGHT, TILE_WIDTH};
use nand_flash_viewer::{Error, FileMetadata, Priority, TileCoord};

/// Metadata of a dump of `size` bytes laid out one block per grid row.
fn file_metadata_new(path: String, size: u64, page_length: u32, block_size: u32) -> FileMetadata {
    let pl = page_length as u64;
    let total_pages = size / pl + if size % pl != 0 { 1 } else { 0 };
    let bs = block_size as u64;
    let total_blocks = total_pages / bs + if total_pages % bs != 0 { 1 } else { 0 };
    let rows = if total_blocks == 0 { 1 } else { total_blocks as u32 };
    FileMetadata::with_grid(path, size, page_length, block_size, 1, rows)
}


#[test]
fn test_calculate_pyramid_level_0() {
    let metadata = file_metadata_new(
        "test.bin".to_string(),
        1_000_000,
        512,
        64,
    );
    
    let level = PyramidTileGenerator::calculate_pyramid_level(0, &metadata).unwrap();
    assert_eq!(level.level, 0);
    assert_eq!(level.tile_width, TILE_WIDTH);
    assert_eq!(level.tile_height, TILE_HEIGHT);
    assert!(level.tiles_wide > 0);
    assert!(level.tiles_tall > 0);
}

#[test]
fn test_calculate_pyramid_level_1() {
    let metadata = file_metadata_new(
        "test.bin".to_string(),
        1_000_000,
        512,
        64,
    );
    
    let level0 = PyramidTileGenerator::calculate_pyramid_level(0, &metadata).unwrap();
    let level1 = PyramidTileGenerator::calculate_pyramid_level(1, &metadata).unwrap();
    
    assert_eq!(level1.level, 1);
    // Level 1 should have roughly half the tiles (rounded up)
    assert!(level1.tiles_wide <= (level0.tiles_wide + 1) / 2 + 1);
    assert!(level1.tiles_tall <= (level0.tiles_tall + 1) / 2 + 1);
}

#[test]
fn test_find_max_level() {
    let metadata = file_metadata_new(
        "test.bin".to_string(),
        1_000_000,
        512,
        64,
    );
    
    let max_level = PyramidTileGenerator::find_max_level(&metadata).unwrap();
    assert!(max_level > 0);
    
    // Verify that max level has single tile
    let max_pyr = PyramidTileGenerator::calculate_pyramid_level(max_level, &metadata).unwrap();
    assert_eq!(max_pyr.tiles_wide, 1);
    assert_eq!(max_pyr.tiles_tall, 1);
}

#[test]
fn test_downscale_basic() {
    // Create a simple 4x4 buffer with alternating colors
    let mut buffer = PixelBuffer::new(4, 4);
    let black = Pixel::black();
    let white = Pixel::white();
    
    // Fill with pattern
    for y in 0..4 {
        for x in 0..4 {
            let pixel = if (x + y) % 2 == 0 { black } else { white };
            buffer.set(x, y, pixel).unwrap();
        }
    }
    
    let downscaled = PyramidTileGenerator::downscale(&buffer).unwrap();
    assert_eq!(downscaled.width(), 2);
    assert_eq!(downscaled.height(), 2);
}

#[test]
fn test_downscale_uniform_color() {
    // Create a buffer filled with one color
    let buffer = PixelBuffer::with_fill(4, 4, Pixel::black());
    
    let downscaled = PyramidTileGenerator::downscale(&buffer).unwrap();
    assert_eq!(downscaled.width(), 2);
    assert_eq!(downscaled.height(), 2);
    
    // All pixels should still be black (or very close)
    for y in 0..2 {
        for x in 0..2 {
            let pixel = downscaled.get(x, y).unwrap();
            assert_eq!(pixel.r, 0);
            assert_eq!(pixel.g, 0);
            assert_eq!(pixel.b, 0);
        }
    }
}

#[test]
fn test_composite_tiles_basic() {
    // Create 4 simple tiles with different colors
    let tile_size = 4;
    
    // Top-left: all black
    let buffer_tl = PixelBuffer::with_fill(tile_size, tile_size, Pixel::black());
    let qoi_tl = PyramidTileGenerator::encode_qoi(&buffer_tl).unwrap();
    
    // Top-right: all white
    let buffer_tr = PixelBuffer::with_fill(tile_size, tile_size, Pixel::white());
    let qoi_tr = PyramidTileGenerator::encode_qoi(&buffer_tr).unwrap();
    
    // Bottom-left: red
    let buffer_bl = PixelBuffer::with_fill(tile_size, tile_size, Pixel::new(255, 0, 0));
    let qoi_bl = PyramidTileGenerator::encode_qoi(&buffer_bl).unwrap();
    
    // Bottom-right: green
    let buffer_br = PixelBuffer::with_fill(tile_size, tile_size, Pixel::new(0, 255, 0));
    let qoi_br = PyramidTileGenerator::encode_qoi(&buffer_br).unwrap();
    
    // Composite the tiles
    let composite = PyramidTileGenerator::composite_tiles([qoi_tl, qoi_tr, qoi_bl, qoi_br]).unwrap();
    
    // Verify dimensions
    assert_eq!(composite.width(), tile_size * 2);
    assert_eq!(composite.height(), tile_size * 2);
    
    // Verify top-left quadrant is black
    let pixel_tl = composite.get(0, 0).unwrap();
    assert_eq!(pixel_tl.r, 0);
    assert_eq!(pixel_tl.g, 0);
    assert_eq!(pixel_tl.b, 0);
    
    // Verify top-right quadrant is white
    let pixel_tr = composite.get(tile_size, 0).unwrap();
    assert_eq!(pixel_tr.r, 255);
    assert_eq!(pixel_tr.g, 255);
    assert_eq!(pixel_tr.b, 255);
    
    // Verify bottom-left quadrant is red
    let pixel_bl = composite.get(0, tile_size).unwrap();
    assert_eq!(pixel_bl.r, 255);
    assert_eq!(pixel_bl.g, 0);
    assert_eq!(pixel_bl.b, 0);
    
    // Verify bottom-right quadrant is green
    let pixel_br = composite.get(tile_size, tile_size).unwrap();
    assert_eq!(pixel_br.r, 0);
    assert_eq!(pixel_br.g, 255);
    assert_eq!(pixel_br.b, 0);
}

#[test]
fn test_composite_tiles_mismatched_dimensions() {
    // Create tiles with different sizes
    let buffer1 = PixelBuffer::new(4, 4);
    let png1 = PyramidTileGenerator::encode_qoi(&buffer1).unwrap();
    
    let buffer2 = PixelBuffer::new(8, 8);
    let png2 = PyramidTileGenerator::encode_qoi(&buffer2).unwrap();
    
    let buffer3 = PixelBuffer::new(4, 4);
    let png3 = PyramidTileGenerator::encode_qoi(&buffer3).unwrap();
    
    let buffer4 = PixelBuffer::new(4, 4);
    let png4 = PyramidTileGenerator::encode_qoi(&buffer4).unwrap();
    
    // Composite should fail due to mismatched dimensions
    let result = PyramidTileGenerator::composite_tiles([png1, png2, png3, png4]);
    assert!(result.is_err());
}

#[test]
fn test_downscale_pixel_averaging() {
    // Create a 4x4 buffer with specific colors for averaging test
    let mut buffer = PixelBuffer::new(4, 4);
    
    // Top-left 2x2 block: all black (0, 0, 0)
    for y in 0..2 {
        for x in 0..2 {
            buffer.set(x, y, Pixel::black()).unwrap();
        }
    }
    
    // Top-right 2x2 block: all white (255, 255, 255)
    for y in 0..2 {
        for x in 2..4 {
            buffer.set(x, y, Pixel::white()).unwrap();
        }
    }
    
    // Bottom-left 2x2 block: red (255, 0, 0)
    for y in 2..4 {
        for x in 0..2 {
            buffer.set(x, y, Pixel::new(255, 0, 0)).unwrap();
        }
    }
    
    // Bottom-right 2x2 block: green (0, 255, 0)
    for y in 2..4 {
        for x in 2..4 {
            buffer.set(x, y, Pixel::new(0, 255, 0)).unwrap();
        }
    }
    
    let downscaled = PyramidTileGenerator::downscale(&buffer).unwrap();
    
    // Verify dimensions
    assert_eq!(downscaled.width(), 2);
    assert_eq!(downscaled.height(), 2);
    
    // Verify averaged colors
    // Top-left: average of 4 black pixels = black
    let pixel_tl = downscaled.get(0, 0).unwrap();
    assert_eq!(pixel_tl.r, 0);
    assert_eq!(pixel_tl.g, 0);
    assert_eq!(pixel_tl.b, 0);
    
    // Top-right: average of 4 white pixels = white
    let pixel_tr = downscaled.get(1, 0).unwrap();
    assert_eq!(pixel_tr.r, 255);
    assert_eq!(pixel_tr.g, 255);
    assert_eq!(pixel_tr.b, 255);
    
    // Bottom-left: average of 4 red pixels = red
    let pixel_bl = downscaled.get(0, 1).unwrap();
    assert_eq!(pixel_bl.r, 255);
    assert_eq!(pixel_bl.g, 0);
    assert_eq!(pixel_bl.b, 0);
    
    // Bottom-right: average of 4 green pixels = green
    let pixel_br = downscaled.get(1, 1).unwrap();
    assert_eq!(pixel_br.r, 0);
    assert_eq!(pixel_br.g, 255);
    assert_eq!(pixel_br.b, 0);
}

#[test]
fn test_downscale_mixed_colors() {
    // Create a 2x2 buffer with different colors in each pixel
    let mut buffer = PixelBuffer::new(2, 2);
    buffer.set(0, 0, Pixel::new(0, 0, 0)).unwrap();     // Black
    buffer.set(1, 0, Pixel::new(255, 255, 255)).unwrap(); // White
    buffer.set(0, 1, Pixel::new(255, 0, 0)).unwrap();   // Red
    buffer.set(1, 1, Pixel::new(0, 255, 0)).unwrap();   // Green
    
    let downscaled = PyramidTileGenerator::downscale(&buffer).unwrap();
    
    // Result should be 1x1 with averaged color
    assert_eq!(downscaled.width(), 1);
    assert_eq!(downscaled.height(), 1);
    
    let pixel = downscaled.get(0, 0).unwrap();
    // Average: (0+255+255+0)/4 = 127.5 ≈ 127 for R
    // Average: (0+255+0+255)/4 = 127.5 ≈ 127 for G
    // Average: (0+255+0+0)/4 = 63.75 ≈ 63 for B
    assert_eq!(pixel.r, 127);
    assert_eq!(pixel.g, 127);
    assert_eq!(pixel.b, 63);
}

#[test]
fn test_png_encode_decode_roundtrip() {
    // Create a buffer with specific pattern
    let mut buffer = PixelBuffer::new(8, 8);
    for y in 0..8 {
        for x in 0..8 {
            let color = if (x + y) % 2 == 0 { 0 } else { 255 };
            buffer.set(x, y, Pixel::new(color, color, color)).unwrap();
        }
    }
    
    // Encode to QOI
    let qoi_data = PyramidTileGenerator::encode_qoi(&buffer).unwrap();
    
    // Decode back
    let decoded = PyramidTileGenerator::decode_qoi(&qoi_data).unwrap();
    
    // Verify dimensions match
    assert_eq!(decoded.width(), buffer.width());
    assert_eq!(decoded.height(), buffer.height());
    
    // Verify pixels match
    for y in 0..8 {
        for x in 0..8 {
            let original = buffer.get(x, y).unwrap();
            let decoded_pixel = decoded.get(x, y).unwrap();
            assert_eq!(original.r, decoded_pixel.r);
            assert_eq!(original.g, decoded_pixel.g);
            assert_eq!(original.b, decoded_pixel.b);
        }
    }
}

#[test]
fn test_composite_and_downscale() {
    let tile_size = 8;
    
    // Create 4 tiles with distinct colors
    let colors = [
        Pixel::new(255, 0, 0),   // Red
        Pixel::new(0, 255, 0),   // Green
        Pixel::new(0, 0, 255),   // Blue
        Pixel::new(255, 255, 0), // Yellow
    ];
    
    let mut pngs = Vec::new();
    for color in &colors {
        let buffer = PixelBuffer::with_fill(tile_size, tile_size, *color);
        let qoi = PyramidTileGenerator::encode_qoi(&buffer).unwrap();
        pngs.push(qoi);
    }
    
    // Composite
    let composite = PyramidTileGenerator::composite_tiles([
        pngs[0].clone(),
        pngs[1].clone(),
        pngs[2].clone(),
        pngs[3].clone(),
    ]).unwrap();
    
    assert_eq!(composite.width(), tile_size * 2);
    assert_eq!(composite.height(), tile_size * 2);
    
    // Downscale
    let downscaled = PyramidTileGenerator::downscale(&composite).unwrap();
    
    assert_eq!(downscaled.width(), tile_size);
    assert_eq!(downscaled.height(), tile_size);
    
    // Verify the downscaled result has averaged colors in each quadrant
    // Top-left should be red
    let pixel_tl = downscaled.get(tile_size / 4, tile_size / 4).unwrap();
    assert!(pixel_tl.r > 200); // Should be mostly red
    
    // Top-right should be green
    let pixel_tr = downscaled.get(tile_size * 3 / 4, tile_size / 4).unwrap();
    assert!(pixel_tr.g > 200); // Should be mostly green
    
    // Bottom-left should be blue
    let pixel_bl = downscaled.get(tile_size / 4, tile_size * 3 / 4).unwrap();
    assert!(pixel_bl.b > 200); // Should be mostly blue
    
    // Bottom-right should be yellow
    let pixel_br = downscaled.get(tile_size * 3 / 4, tile_size * 3 / 4).unwrap();
    assert!(pixel_br.r > 200); // Should have red
    assert!(pixel_br.g > 200); // Should have green
}

fn test_metadata() -> FileMetadata {
    file_metadata_new("test.bin".to_string(), 1_000_000, 512, 64)
}

fn black_tile() -> Vec<u8> {
    let buffer = PixelBuffer::with_fill(TILE_WIDTH, TILE_HEIGHT, Pixel::black());
    PyramidTileGenerator::encode_qoi(&buffer).unwrap()
}

#[test]
fn test_pyramid_tile_caching() {
    let metadata = test_metadata();
    let children = [Some(black_tile()), Some(black_tile()), Some(black_tile()), Some(black_tile())];
    let pyramid_coord = TileCoord::new(1, 0, 0);
    let result = PyramidTileGenerator::generate_pyramid_tile(pyramid_coord, &metadata, children, Priority::Normal, 0);
    match result {
        Ok(PyramidStep::Ready(bytes)) => assert!(!bytes.is_empty()),
        _ => panic!("all children are cached, so the tile is built"),
    }
}

#[test]
fn test_pyramid_tile_requests_missing_children() {
    let metadata = test_metadata();
    let pyramid_coord = TileCoord::new(1, 0, 0);
    let result =
        PyramidTileGenerator::generate_pyramid_tile(pyramid_coord, &metadata, [None, None, None, None], Priority::Normal, 0);
    match result {
        Ok(PyramidStep::Waiting { missing, enqueue }) => {
            assert!(!missing.is_empty());
            assert!(enqueue);
            assert_eq!(missing[0].level, 0);
        }
        _ => panic!("children are missing, so the tile waits"),
    }
}

#[test]
fn test_pyramid_tile_partial_children() {
    let metadata = test_metadata();
    let pyramid_coord = TileCoord::new(1, 0, 0);
    let children = [Some(black_tile()), Some(black_tile()), None, None];
    let result = PyramidTileGenerator::generate_pyramid_tile(pyramid_coord, &metadata, children, Priority::Normal, 0);
    match result {
        Ok(PyramidStep::Waiting { missing, enqueue }) => {
            assert!(!missing.is_empty());
            assert!(enqueue);
        }
        _ => panic!("two children are missing, so the tile waits"),
    }
}

#[test]
fn test_pyramid_tile_level_0_fails() {
    let metadata = test_metadata();
    let coord = TileCoord::new(0, 0, 0);
    let result = PyramidTileGenerator::generate_pyramid_tile(coord, &metadata, [None, None, None, None], Priority::Normal, 0);
    assert!(result.is_err());
    match result {
        Err(e) => assert!(e.to_string().contains("level > 0")),
        Ok(_) => panic!("level 0 is refused"),
    }
}

#[test]
fn test_missing_children_error_message() {
    let missing = vec![TileCoord::new(0, 2, 4), TileCoord::new(0, 3, 5)];
    match PyramidTileGenerator::missing_children_error(&missing) {
        Error::TileGenerationFailed(m) => assert_eq!(
            m,
            "Child tiles [TileCoord { level: 0, x: 2, y: 4 }, TileCoord { level: 0, x: 3, y: 5 }] not available, registered dependency"
        ),
        _ => panic!("expected a tile generation error"),
    }
    assert_eq!(format!("{:?}", missing), "[TileCoord { level: 0, x: 2, y: 4 }, TileCoord { level: 0, x: 3, y: 5 }]");
}

use nand_flash_viewer::address_display::AddressDisplay;
use nand_flash_viewer::FileMetadata;

/// Metadata of a dump of `size` bytes laid out one block per grid row.
fn file_metadata_new(path: String, size: u64, page_length: u32, block_size: u32) -> FileMetadata {
    let pl = page_length as u64;
    let total_pages = size / pl + if size % pl != 0 { 1 } else { 0 };
    let bs = block_size as u64;
    let total_blocks = total_pages / bs + if total_pages % bs != 0 { 1 } else { 0 };
    let rows = if total_blocks == 0 { 1 } else { total_blocks as u32 };
    FileMetadata::with_grid(path, size, page_length, block_size, 1, rows)
}

/// The view onto the level-0 drawing: zoom level, centre and size in pixels.
struct Viewport {
    level: u32,
    center_x: f64,
    center_y: f64,
    width_pixels: u32,
    height_pixels: u32,
}

impl Viewport {
    fn new(level: u32, center_x: f64, center_y: f64, width_pixels: u32, height_pixels: u32) -> Viewport {
        Viewport { level, center_x, center_y, width_pixels, height_pixels }
    }
}

/// Moves the mouse to a screen position: the viewer turns it into the
/// level-0 pixel under it (none left of or above the drawing).
fn update_mouse(display: &mut AddressDisplay, screen_x: u32, screen_y: u32, viewport: &Viewport, metadata: &FileMetadata) {
    let half_width = (viewport.width_pixels as f64) / 2.0;
    let half_height = (viewport.height_pixels as f64) / 2.0;
    let vx = viewport.center_x - half_width + (screen_x as f64);
    let vy = viewport.center_y - half_height + (screen_y as f64);
    let pixel = if vx < 0.0 || vy < 0.0 {
        None
    } else {
        let scale = 1u64 << viewport.level;
        Some(((vx * (scale as f64)) as u64, (vy * (scale as f64)) as u64))
    };
    display.update_mouse_position(screen_x, screen_y, pixel, metadata);
}


fn create_test_metadata() -> FileMetadata {
    file_metadata_new(
        "test.bin".to_string(),
        10_000_000, // 10 MB
        512,        // 512 bytes per page
        64,         // 64 pages per block
    )
}

fn create_test_viewport() -> Viewport {
    // Viewport at origin, level 0, 1024x768 screen
    Viewport::new(0, 512.0, 384.0, 1024, 768)
}

#[test]
fn test_address_display_creation() {
    let display = AddressDisplay::new();
    assert!(!display.is_mouse_in_bounds());
    assert_eq!(display.get_address(), "N/A");
}

#[test]
fn test_update_mouse_position_at_origin() {
    let mut display = AddressDisplay::new();
    let metadata = create_test_metadata();
    let viewport = create_test_viewport();
    
    // Mouse at screen center should map to viewport center
    update_mouse(&mut display, 512, 384, &viewport, &metadata);
    
    assert!(display.is_mouse_in_bounds());
    let address = display.get_address();
    assert!(address.starts_with("Block:"));
    assert!(address.contains("Page:"));
    assert!(address.contains("Byte:"));
    assert!(address.contains("Bit:"));
}

#[test]
fn test_address_format() {
    let mut display = AddressDisplay::new();
    let metadata = create_test_metadata();
    let viewport = create_test_viewport();
    
    update_mouse(&mut display, 512, 384, &viewport, &metadata);
    
    let address = display.get_address();
    // Should match format "Block: X, Page: Y, Byte: Z, Bit: W"
    assert!(address.contains("Block: "));
    assert!(address.contains(", Page: "));
    assert!(address.contains(", Byte: "));
    assert!(address.contains(", Bit: "));
}

#[test]
fn test_mouse_out_of_bounds_negative() {
    let mut display = AddressDisplay::new();
    let metadata = create_test_metadata();
    let viewport = Viewport::new(0, 100.0, 100.0, 1024, 768);
    
    // Mouse at (0, 0) with viewport center at (100, 100) would result in negative coordinates
    update_mouse(&mut display, 0, 0, &viewport, &metadata);
    
    assert!(!display.is_mouse_in_bounds());
    assert_eq!(display.get_address(), "N/A");
}

#[test]
fn test_mouse_out_of_bounds_beyond_dump() {
    let mut display = AddressDisplay::new();
    let metadata = create_test_metadata();
    
    // Create viewport far beyond the dump size
    let viewport = Viewport::new(0, 1_000_000.0, 1_000_000.0, 1024, 768);
    
    update_mouse(&mut display, 512, 384, &viewport, &metadata);
    
    // Should be out of bounds since we're beyond the dump
    assert!(!display.is_mouse_in_bounds());
    assert_eq!(display.get_address(), "N/A");
}

#[test]
fn test_address_at_different_zoom_levels() {
    let mut display = AddressDisplay::new();
    let metadata = create_test_metadata();
    
    // Test at level 0 (1:1 zoom)
    let viewport_l0 = Viewport::new(0, 512.0, 384.0, 1024, 768);
    update_mouse(&mut display, 512, 384, &viewport_l0, &metadata);
    let address_l0 = display.get_address();
    
    // Test at level 1 (2x zoom out)
    let viewport_l1 = Viewport::new(1, 512.0, 384.0, 1024, 768);
    update_mouse(&mut display, 512, 384, &viewport_l1, &metadata);
    let address_l1 = display.get_address();
    
    // Addresses should be different due to zoom level
    // (same screen position maps to different dump positions)
    assert_ne!(address_l0, address_l1);
}

#[test]
fn test_address_at_different_screen_positions() {
    let mut display = AddressDisplay::new();
    let metadata = create_test_metadata();
    let viewport = create_test_viewport();
    
    // Test at different screen positions
    update_mouse(&mut display, 100, 100, &viewport, &metadata);
    let address1 = display.get_address();
    
    update_mouse(&mut display, 500, 500, &viewport, &metadata);
    let address2 = display.get_address();
    
    // Different screen positions should give different addresses
    assert_ne!(address1, address2);
}

#[test]
fn test_bit_position_calculation() {
    let mut display = AddressDisplay::new();
    let metadata = create_test_metadata();
    
    // Position viewport at origin
    let viewport = Viewport::new(0, 4.0, 4.0, 8, 8);
    
    // Test different horizontal positions to verify bit calculation
    for x in 0..8 {
        update_mouse(&mut display, x, 4, &viewport, &metadata);
        if display.is_mouse_in_bounds() {
            let address = display.get_address();
            // Bit should be in range 0-7
            assert!(address.contains("Bit: "));
        }
    }
}

#[test]
fn test_block_boundary() {
    let mut display = AddressDisplay::new();
    let metadata = create_test_metadata();
    
    // Calculate position at block boundary
    // Block height = page_length * block_size = 512 * 64 = 32768 bytes
    let block_height_pixels = 512 * 64;
    
    let viewport = Viewport::new(
        0,
        256.0,
        (block_height_pixels / 2) as f64,
        512,
        512,
    );
    
    // Position at first block
    update_mouse(&mut display, 256, 0, &viewport, &metadata);
    let address1 = display.get_address();
    
    // Position at second block (should have different block number)
    update_mouse(&mut display, 256, 511, &viewport, &metadata);
    let address2 = display.get_address();
    
    // Both should be valid
    assert!(display.is_mouse_in_bounds());
    assert_ne!(address1, address2);
}

#[test]
fn test_page_boundary() {
    let mut display = AddressDisplay::new();
    let metadata = create_test_metadata();
    
    // Page height = page_length = 512 bytes
    let page_height = 512;
    
    let viewport = Viewport::new(
        0,
        256.0,
        (page_height / 2) as f64,
        512,
        512,
    );
    
    // Position at first page
    update_mouse(&mut display, 256, 0, &viewport, &metadata);
    assert!(display.is_mouse_in_bounds());
    let address1 = display.get_address();
    
    // Position at next page
    update_mouse(&mut display, 256, 511, &viewport, &metadata);
    assert!(display.is_mouse_in_bounds());
    let address2 = display.get_address();
    
    // Addresses should differ in page number
    assert_ne!(address1, address2);
}

#[test]
fn test_default_implementation() {
    let display = AddressDisplay::default();
    assert!(!display.is_mouse_in_bounds());
    assert_eq!(display.get_address(), "N/A");
}

#[test]
fn test_address_text_has_file_offset() {
    let metadata = create_test_metadata();
    let mut display = AddressDisplay::new();
    update_mouse(&mut display, 3, 4, &Viewport::new(0, 4.0, 4.0, 8, 8), &metadata);
    assert_eq!(display.get_address_components(), Some((0, 4, 0, 3)));
    assert_eq!(display.get_address(), "Block: 0, Page: 4, Byte: 0, Bit: 3 | Offset: 0x00000800");
    assert_eq!(display.get_file_offset(&metadata), Some(0x800));
}

#[test]
fn test_pixel_right_of_grid_is_out_of_bounds() {
    let metadata = FileMetadata::with_grid("t".to_string(), 65536, 512, 64, 1, 2);
    let mut display = AddressDisplay::new();
    update_mouse(&mut display, 0, 4, &Viewport::new(0, 4100.0, 4.0, 8, 8), &metadata);
    assert!(!display.is_mouse_in_bounds());
    assert_eq!(display.get_address(), "N/A");
}

#[test]
fn test_off_view_clears_address_without_geometry() {
    let metadata = create_test_metadata();
    let mut display = AddressDisplay::new();
    update_mouse(&mut display, 3, 4, &Viewport::new(0, 4.0, 4.0, 8, 8), &metadata);
    assert!(display.is_mouse_in_bounds());
    let empty = FileMetadata::with_grid("t".to_string(), 0, 512, 64, 1, 1);
    display.update_mouse_position(0, 0, None, &FileMetadata { page_length: 0, block_size: 0, ..empty });
    assert!(!display.is_mouse_in_bounds());
    assert_eq!(display.get_address(), "N/A");
}

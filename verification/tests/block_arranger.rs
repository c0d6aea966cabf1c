use nand_flash_viewer::bit_renderer::PixelBuffer;
use nand_flash_viewer::block_arranger::{BlockArranger, BLOCK_SPACING, PAGE_SPACING};
use nand_flash_viewer::byte_arranger::ByteArranger;

#[test]
fn test_calculate_block_height_single_page() {
    // 1 page * 512 bytes * 8 bits + 0 spacing = 4096 pixels
    let height = BlockArranger::calculate_block_height(1, 512);
    assert_eq!(height, 512 * 8);
}

#[test]
fn test_calculate_block_height_multiple_pages() {
    // 64 pages * 512 bytes * 8 bits + 63 * 2 spacing
    let height = BlockArranger::calculate_block_height(64, 512);
    assert_eq!(height, 64 * 512 * 8 + 63 * PAGE_SPACING);
}

#[test]
fn test_calculate_block_height_with_spacing() {
    // 4 pages * 256 bytes * 8 bits + 3 * 2 spacing
    let height = BlockArranger::calculate_block_height(4, 256);
    assert_eq!(height, 4 * 256 * 8 + 3 * PAGE_SPACING);
}

#[test]
fn test_get_page_spacing() {
    assert_eq!(BlockArranger::get_page_spacing(), PAGE_SPACING);
}

#[test]
fn test_get_block_spacing() {
    assert_eq!(BlockArranger::get_block_spacing(), BLOCK_SPACING);
}

#[test]
fn test_block_spacing_hierarchy() {
    let page_spacing = BlockArranger::get_page_spacing();
    let block_spacing = BlockArranger::get_block_spacing();
    assert!(block_spacing > page_spacing, "Block spacing should be larger than page spacing");
}

#[test]
fn test_render_block_single_page() {
    // Create a buffer large enough for one page
    let page_width = ByteArranger::calculate_page_width(8);
    let mut buffer = PixelBuffer::new(page_width, 8);

    // Create block data (1 page of 8 bytes)
    let block_data = vec![0xFF; 8];

    let result = BlockArranger::render_block(&block_data, 0, 0, 1, 8, 1, &mut buffer);
    assert!(result.is_ok());
}

#[test]
fn test_render_block_multiple_pages() {
    // Create a buffer large enough for 4 pages with spacing
    let page_width = ByteArranger::calculate_page_width(8);
    let block_height = BlockArranger::calculate_block_height(4, 8);
    let mut buffer = PixelBuffer::new(page_width, block_height);

    // Create block data (4 pages of 8 bytes each)
    let block_data = vec![0xFF; 32];

    let result = BlockArranger::render_block(&block_data, 0, 0, 4, 8, 1, &mut buffer);
    assert!(result.is_ok());
}

#[test]
fn test_render_block_insufficient_data() {
    let page_width = ByteArranger::calculate_page_width(8);
    let block_height = BlockArranger::calculate_block_height(4, 8);
    let mut buffer = PixelBuffer::new(page_width, block_height);

    // Create block data that's too small (only 2 pages instead of 4)
    let block_data = vec![0xFF; 16];

    let result = BlockArranger::render_block(&block_data, 0, 0, 4, 8, 1, &mut buffer);
    assert!(result.is_err());
}

#[test]
fn test_render_block_grid_positioning() {
    // Test that blocks are positioned correctly in grid
    let page_width = ByteArranger::calculate_page_width(8);
    let block_height = BlockArranger::calculate_block_height(2, 8);
    let total_height = block_height * 2 + BLOCK_SPACING;
    let total_width = page_width * 2;

    let mut buffer = PixelBuffer::new(total_width, total_height);

    // Create block data
    let block_data = vec![0xFF; 16];

    // Render blocks at different grid positions
    let result1 = BlockArranger::render_block(&block_data, 0, 0, 2, 8, 2, &mut buffer);
    let result2 = BlockArranger::render_block(&block_data, 1, 0, 2, 8, 2, &mut buffer);
    let result3 = BlockArranger::render_block(&block_data, 0, 1, 2, 8, 2, &mut buffer);

    assert!(result1.is_ok());
    assert!(result2.is_ok());
    assert!(result3.is_ok());
}

#[test]
fn test_single_block_edge_case() {
    // Test rendering a single block with minimal configuration
    // Requirements: 4.1, 4.5, 4.6
    let page_length = 8;
    let block_size = 1;
    let page_width = ByteArranger::calculate_page_width(page_length);
    let block_height = BlockArranger::calculate_block_height(block_size, page_length);
    
    let mut buffer = PixelBuffer::new(page_width, block_height);
    let block_data = vec![0xAA; page_length as usize];
    
    let result = BlockArranger::render_block(&block_data, 0, 0, block_size, page_length, 1, &mut buffer);
    assert!(result.is_ok(), "Single block should render successfully");
    
    // Verify block height calculation for single page (no spacing)
    assert_eq!(block_height, page_length * 8, "Single page block should have no page spacing");
}

#[test]
fn test_single_block_large_page() {
    // Test single block with large page size (typical NAND configuration)
    // Requirements: 4.1, 4.5
    let page_length = 2048; // Common NAND page size
    let block_size = 1;
    let page_width = ByteArranger::calculate_page_width(page_length);
    let block_height = BlockArranger::calculate_block_height(block_size, page_length);
    
    let mut buffer = PixelBuffer::new(page_width, block_height);
    let block_data = vec![0x55; page_length as usize];
    
    let result = BlockArranger::render_block(&block_data, 0, 0, block_size, page_length, 1, &mut buffer);
    assert!(result.is_ok(), "Single block with large page should render successfully");
}

#[test]
fn test_multiple_blocks_vertical_spacing() {
    // Test that multiple blocks maintain correct vertical spacing
    // Requirements: 4.1, 4.5, 4.6
    let page_length = 16;
    let block_size = 2;
    let page_width = ByteArranger::calculate_page_width(page_length);
    let block_height = BlockArranger::calculate_block_height(block_size, page_length);
    
    // Create buffer for 3 blocks vertically
    let total_height = block_height * 3 + BLOCK_SPACING * 2;
    let mut buffer = PixelBuffer::new(page_width, total_height);
    
    let block_data = vec![0xFF; (block_size * page_length) as usize];
    
    // Render 3 blocks vertically
    let result1 = BlockArranger::render_block(&block_data, 0, 0, block_size, page_length, 1, &mut buffer);
    let result2 = BlockArranger::render_block(&block_data, 0, 1, block_size, page_length, 1, &mut buffer);
    let result3 = BlockArranger::render_block(&block_data, 0, 2, block_size, page_length, 1, &mut buffer);
    
    assert!(result1.is_ok(), "First block should render");
    assert!(result2.is_ok(), "Second block should render");
    assert!(result3.is_ok(), "Third block should render");
    
    // Verify spacing between blocks
    let expected_block1_start = 0;
    let expected_block2_start = block_height + BLOCK_SPACING;
    let expected_block3_start = (block_height + BLOCK_SPACING) * 2;
    
    assert_eq!(expected_block1_start, 0);
    assert_eq!(expected_block2_start, block_height + BLOCK_SPACING);
    assert_eq!(expected_block3_start, (block_height + BLOCK_SPACING) * 2);
}

#[test]
fn test_spacing_calculation_no_pages() {
    // Edge case: block with 0 pages (should handle gracefully)
    // Requirements: 4.5
    let height = BlockArranger::calculate_block_height(0, 512);
    assert_eq!(height, 0, "Block with 0 pages should have 0 height");
}

#[test]
fn test_spacing_calculation_many_pages() {
    // Test spacing calculation with many pages per block
    // Requirements: 4.4, 4.5
    let block_size = 256; // Large block
    let page_length = 512;
    let height = BlockArranger::calculate_block_height(block_size, page_length);
    
    // Expected: 256 * 512 * 8 + 255 * PAGE_SPACING
    let expected = block_size * page_length * 8 + (block_size - 1) * PAGE_SPACING;
    assert_eq!(height, expected, "Height calculation should include all page spacing");
    
    // Verify spacing is significant portion
    let spacing_total = (block_size - 1) * PAGE_SPACING;
    assert!(spacing_total > 0, "Should have spacing between pages");
}

#[test]
fn test_spacing_hierarchy_verification() {
    // Verify that block spacing is consistently larger than page spacing
    // Requirements: 4.5
    let page_spacing = BlockArranger::get_page_spacing();
    let block_spacing = BlockArranger::get_block_spacing();
    
    assert!(block_spacing > page_spacing, 
        "Block spacing ({}) must be larger than page spacing ({})", 
        block_spacing, page_spacing);
    
    // Verify the difference is meaningful (at least 2x)
    assert!(block_spacing >= page_spacing * 2, 
        "Block spacing should be at least 2x page spacing for visual distinction");
}

#[test]
fn test_render_block_with_different_patterns() {
    // Test rendering blocks with different data patterns
    // Requirements: 4.1, 4.2, 4.3
    let page_length = 8;
    let block_size = 3;
    let page_width = ByteArranger::calculate_page_width(page_length);
    let block_height = BlockArranger::calculate_block_height(block_size, page_length);
    
    let mut buffer = PixelBuffer::new(page_width, block_height);
    
    // Test with alternating pattern
    let mut block_data = Vec::new();
    for i in 0..block_size {
        for _ in 0..page_length {
            block_data.push(if i % 2 == 0 { 0xFF } else { 0x00 });
        }
    }
    
    let result = BlockArranger::render_block(&block_data, 0, 0, block_size, page_length, 1, &mut buffer);
    assert!(result.is_ok(), "Block with alternating pattern should render successfully");
}

#[test]
fn test_spacing_calculation_boundary_values() {
    // Test spacing calculations with boundary values
    // Requirements: 4.4, 4.5
    
    // Minimum page length
    let height_min = BlockArranger::calculate_block_height(64, 500);
    assert!(height_min > 0, "Should handle minimum page length");
    
    // Maximum page length
    let height_max = BlockArranger::calculate_block_height(64, 20000);
    assert!(height_max > 0, "Should handle maximum page length");
    
    // Verify spacing is included correctly
    let expected_min = 64 * 500 * 8 + 63 * PAGE_SPACING;
    let expected_max = 64 * 20000 * 8 + 63 * PAGE_SPACING;
    
    assert_eq!(height_min, expected_min, "Minimum page length calculation should be correct");
    assert_eq!(height_max, expected_max, "Maximum page length calculation should be correct");
}

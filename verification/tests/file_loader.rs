use nand_flash_viewer::data_provider::MemoryDataProvider;
use nand_flash_viewer::file_loader::{merge_contiguous_fragments, read_fragments, validate_loader_params};
use nand_flash_viewer::{FileMetadata, Fragment};

/// Metadata of a dump of `size` bytes laid out one block per grid row.
fn file_metadata_new(path: String, size: u64, page_length: u32, block_size: u32) -> FileMetadata {
    let pl = page_length as u64;
    let total_pages = size / pl + if size % pl != 0 { 1 } else { 0 };
    let bs = block_size as u64;
    let total_blocks = total_pages / bs + if total_pages % bs != 0 { 1 } else { 0 };
    let rows = if total_blocks == 0 { 1 } else { total_blocks as u32 };
    FileMetadata::with_grid(path, size, page_length, block_size, 1, rows)
}

/// A dump of `size` bytes of 0xAB held in memory.
fn memory_dump(size: u64, page_length: u32, block_size: u32) -> MemoryDataProvider {
    MemoryDataProvider::new(
        vec![0xABu8; size as usize],
        file_metadata_new("dump.bin".to_string(), size, page_length, block_size),
        "dump".to_string(),
    )
}


#[test]
fn test_file_loader_new_valid() {
    // Test with a small file (1 MB)
    let loader = validate_loader_params(512, 64);
    assert!(loader.is_ok());
}

#[test]
fn test_file_loader_new_small_file() {
    // Test with a very small file (10 KB)
    let loader = validate_loader_params(512, 64);
    assert!(loader.is_ok());
}

#[test]
fn test_file_loader_new_invalid_page_length() {
    let loader = validate_loader_params(100, 64); // Too small
    assert!(loader.is_err());
}

#[test]
fn test_file_loader_new_invalid_block_size() {
    let loader = validate_loader_params(512, 100); // Invalid
    assert!(loader.is_err());
}

#[test]
fn test_read_fragments_single() {
    let mut loader = memory_dump(1024 * 1024, 512, 64);
    
    let fragments = vec![Fragment::new(0, 10)];
    let bytes = read_fragments(&mut loader, fragments).unwrap();
    assert_eq!(bytes.len(), 10);
}

#[test]
fn test_read_fragments_multiple_contiguous() {
    let mut loader = memory_dump(1024 * 1024, 512, 64);
    
    let fragments = vec![
        Fragment::new(0, 10),
        Fragment::new(10, 20),
        Fragment::new(20, 30),
    ];
    let bytes = read_fragments(&mut loader, fragments).unwrap();
    assert_eq!(bytes.len(), 30);
}

#[test]
fn test_read_fragments_multiple_with_gaps() {
    let mut loader = memory_dump(1024 * 1024, 512, 64);
    
    let fragments = vec![
        Fragment::new(0, 10),
        Fragment::new(100, 110),
        Fragment::new(200, 210),
    ];
    let bytes = read_fragments(&mut loader, fragments).unwrap();
    assert_eq!(bytes.len(), 30);
}

#[test]
fn test_read_fragments_unordered() {
    let mut loader = memory_dump(1024 * 1024, 512, 64);
    
    // Fragments provided out of order
    let fragments = vec![
        Fragment::new(20, 30),
        Fragment::new(0, 10),
        Fragment::new(10, 20),
    ];
    let bytes = read_fragments(&mut loader, fragments).unwrap();
    assert_eq!(bytes.len(), 30);
}

#[test]
fn test_merge_contiguous_fragments() {
    let fragments = vec![
        Fragment::new(0, 10),
        Fragment::new(10, 20),
        Fragment::new(20, 30),
    ];
    let merged = merge_contiguous_fragments(&fragments);
    assert_eq!(merged.len(), 1);
    assert_eq!(merged[0].start_byte, 0);
    assert_eq!(merged[0].end_byte, 30);
}

#[test]
fn test_merge_fragments_with_gaps() {
    let fragments = vec![
        Fragment::new(0, 10),
        Fragment::new(100, 110),
        Fragment::new(200, 210),
    ];
    let merged = merge_contiguous_fragments(&fragments);
    assert_eq!(merged.len(), 3);
}

#[test]
fn test_merge_overlapping_fragments() {
    let fragments = vec![
        Fragment::new(0, 15),
        Fragment::new(10, 20),
    ];
    let merged = merge_contiguous_fragments(&fragments);
    assert_eq!(merged.len(), 1);
    assert_eq!(merged[0].start_byte, 0);
    assert_eq!(merged[0].end_byte, 20);
}

#[test]
fn test_read_fragments_pattern_1() {
    let mut loader = memory_dump(1024 * 1024, 512, 64);
    
    // Pattern: small fragments spread across file
    let fragments = vec![
        Fragment::new(0, 10),
        Fragment::new(1000, 1010),
        Fragment::new(2000, 2010),
        Fragment::new(3000, 3010),
    ];
    let bytes = read_fragments(&mut loader, fragments).unwrap();
    assert_eq!(bytes.len(), 40);
}

#[test]
fn test_read_fragments_become_contiguous() {
    let mut loader = memory_dump(1024 * 1024, 512, 64);
    
    // Fragments provided out of order but contiguous
    let fragments = vec![
        Fragment::new(30, 40),
        Fragment::new(10, 20),
        Fragment::new(20, 30),
        Fragment::new(0, 10),
    ];
    let bytes = read_fragments(&mut loader, fragments).unwrap();
    assert_eq!(bytes.len(), 40);
}

#[test]
fn test_read_empty_fragments() {
    let mut loader = memory_dump(1024 * 1024, 512, 64);
    
    let fragments = vec![];
    let bytes = read_fragments(&mut loader, fragments).unwrap();
    assert_eq!(bytes.len(), 0);
}

#[test]
fn test_read_fragments_with_overlaps() {
    let mut loader = memory_dump(1024 * 1024, 512, 64);
    
    // Overlapping fragments should be merged
    let fragments = vec![
        Fragment::new(0, 20),
        Fragment::new(10, 30),
        Fragment::new(25, 40),
    ];
    let bytes = read_fragments(&mut loader, fragments).unwrap();
    // After merging: [0, 40] = 40 bytes
    assert_eq!(bytes.len(), 40);
}

#[test]
fn test_read_fragments_various_offsets() {
    let mut loader = memory_dump(2 * 1024 * 1024, 512, 64);
    
    let fragments = vec![
        Fragment::new(100, 200),
        Fragment::new(5000, 5100),
        Fragment::new(1024 * 1024, 1024 * 1024 + 100),
    ];
    let bytes = read_fragments(&mut loader, fragments).unwrap();
    assert_eq!(bytes.len(), 300);
}

#[test]
fn test_read_fragments_multiple_pages() {
    let mut loader = memory_dump(1024 * 1024, 512, 64);
    
    // Each fragment spans multiple pages
    let page_size = 512;
    let fragments = vec![
        Fragment::new(0, page_size * 2),
        Fragment::new(page_size * 5, page_size * 7),
        Fragment::new(page_size * 10, page_size * 12),
    ];
    let bytes = read_fragments(&mut loader, fragments).unwrap();
    assert_eq!(bytes.len(), (page_size * 6) as usize);
}

#[test]
fn test_read_fragments_multiple_blocks() {
    let mut loader = memory_dump(1024 * 1024, 512, 64);
    
    // Each fragment spans multiple blocks
    let block_size = 512 * 64;
    let fragments = vec![
        Fragment::new(0, block_size as u64),
        Fragment::new(block_size as u64 * 2, block_size as u64 * 3),
        Fragment::new(block_size as u64 * 5, block_size as u64 * 6),
    ];
    let bytes = read_fragments(&mut loader, fragments).unwrap();
    assert_eq!(bytes.len(), (block_size * 3) as usize);
}

#[test]
fn test_read_fragments_preserves_order() {
    let mut loader = memory_dump(1024 * 1024, 512, 64);
    
    // Create test file with distinct patterns at different offsets
    // For this test, we just verify the fragments are read in the correct order
    let fragments = vec![
        Fragment::new(0, 10),
        Fragment::new(100, 110),
        Fragment::new(200, 210),
    ];
    let bytes = read_fragments(&mut loader, fragments).unwrap();
    
    // Should have 30 bytes total (10 + 10 + 10)
    assert_eq!(bytes.len(), 30);
}

#[test]
fn test_read_fragments_single_byte_gaps() {
    let mut loader = memory_dump(1024 * 1024, 512, 64);
    
    let fragments = vec![
        Fragment::new(0, 10),
        Fragment::new(11, 20),
        Fragment::new(21, 30),
    ];
    let bytes = read_fragments(&mut loader, fragments).unwrap();
    // Single-byte gaps are NOT merged, so we get 3 separate reads
    // [0,10] = 10 bytes, [11,20] = 9 bytes, [21,30] = 9 bytes = 28 total
    assert_eq!(bytes.len(), 28);
}

#[test]
fn test_read_fragments_large_gaps() {
    let mut loader = memory_dump(20 * 1024 * 1024, 512, 64);
    
    let fragments = vec![
        Fragment::new(0, 100),
        Fragment::new(1024 * 1024, 1024 * 1024 + 100),
        Fragment::new(10 * 1024 * 1024, 10 * 1024 * 1024 + 100),
    ];
    let bytes = read_fragments(&mut loader, fragments).unwrap();
    assert_eq!(bytes.len(), 300);
}

#[test]
fn test_read_many_small_fragments() {
    let mut loader = memory_dump(1024 * 1024, 512, 64);
    
    let mut fragments = Vec::new();
    for i in 0..100 {
        let offset = (i * 100) as u64;
        fragments.push(Fragment::new(offset, offset + 10));
    }
    
    let bytes = read_fragments(&mut loader, fragments).unwrap();
    assert_eq!(bytes.len(), 1000); // 100 fragments * 10 bytes each
}

#[test]
fn test_read_fragments_already_sorted() {
    let mut loader = memory_dump(1024 * 1024, 512, 64);
    
    let fragments = vec![
        Fragment::new(0, 100),
        Fragment::new(100, 200),
        Fragment::new(200, 300),
        Fragment::new(300, 400),
    ];
    let bytes = read_fragments(&mut loader, fragments).unwrap();
    assert_eq!(bytes.len(), 400);
}

#[test]
fn test_read_fragments_reverse_order() {
    let mut loader = memory_dump(1024 * 1024, 512, 64);
    
    let fragments = vec![
        Fragment::new(300, 400),
        Fragment::new(200, 300),
        Fragment::new(100, 200),
        Fragment::new(0, 100),
    ];
    let bytes = read_fragments(&mut loader, fragments).unwrap();
    assert_eq!(bytes.len(), 400);
}

#[test]
fn test_read_fragments_random_order() {
    let mut loader = memory_dump(1024 * 1024, 512, 64);
    
    let fragments = vec![
        Fragment::new(200, 300),
        Fragment::new(0, 100),
        Fragment::new(300, 400),
        Fragment::new(100, 200),
    ];
    let bytes = read_fragments(&mut loader, fragments).unwrap();
    assert_eq!(bytes.len(), 400);
}

#[test]
fn test_read_fragments_fails_past_end() {
    let mut loader = memory_dump(100, 512, 64);
    let fragments = vec![Fragment::new(0, 10), Fragment::new(90, 120)];
    assert!(read_fragments(&mut loader, fragments).is_err());
    let fragments = vec![Fragment::new(0, 10), Fragment::new(90, 100)];
    assert_eq!(read_fragments(&mut loader, fragments).unwrap().len(), 20);
}

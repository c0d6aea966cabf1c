use nand_flash_viewer::hex_tab::{HexTabState, PageSegmentKind, PageStructureRecord};
use nand_flash_viewer::FileMetadata;

/// Metadata of a dump of `size` bytes laid out one block per grid row.
fn file_metadata_new(path: String, size: u64, page_length: u32, block_size: u32) -> FileMetadata {
    let pl = page_length as u64;
    let total_pages = size / pl + if size % pl != 0 { 1 } else { 0 };
    let bs = block_size as u64;
    let total_blocks = total_pages / bs + if total_pages % bs != 0 { 1 } else { 0 };
    let rows = if total_blocks == 0 { 1 } else { total_blocks as u32 };
    FileMetadata::with_grid(path, size, page_length, block_size, 1, rows)
}


fn test_meta() -> FileMetadata {
    file_metadata_new("test.dump".to_string(), 1024 * 1024 * 64, 4096, 64)
}

#[test]
fn test_page_and_col_coords_conversion() {
    let meta = test_meta();
    let mut state = HexTabState::new();

    // Jump to byte at page 5, col 128
    let target_offset = 5 * 4096 + 128;
    state.jump_to_linear_offset(target_offset, &meta);

    assert_eq!(state.current_page, 5);
    assert_eq!(state.col_offset_in_page, 128);
    assert_eq!(state.current_linear_offset(&meta), target_offset);
}

#[test]
fn test_find_segment_at_column() {
    let records = vec![
        PageStructureRecord {
            name: "SA".to_string(),
            start: 0,
            stop: 7,
            kind: PageSegmentKind::SpareArea,
        },
        PageStructureRecord {
            name: "Data area".to_string(),
            start: 8,
            stop: 519,
            kind: PageSegmentKind::Data,
        },
        PageStructureRecord {
            name: "ECC".to_string(),
            start: 520,
            stop: 619,
            kind: PageSegmentKind::Ecc,
        },
    ];

    let seg_sa = HexTabState::find_segment_at_column(4, &records);
    assert!(seg_sa.is_some());
    assert_eq!(seg_sa.unwrap().kind, PageSegmentKind::SpareArea);

    let seg_data = HexTabState::find_segment_at_column(100, &records);
    assert!(seg_data.is_some());
    assert_eq!(seg_data.unwrap().kind, PageSegmentKind::Data);

    let seg_ecc = HexTabState::find_segment_at_column(550, &records);
    assert!(seg_ecc.is_some());
    assert_eq!(seg_ecc.unwrap().kind, PageSegmentKind::Ecc);

    let seg_none = HexTabState::find_segment_at_column(900, &records);
    assert!(seg_none.is_none());
}

#[test]
fn test_goto_page_and_hex() {
    let meta = test_meta();
    let mut state = HexTabState::new();

    state.goto_address_input = "p42".to_string();
    state.handle_goto(&meta);
    assert_eq!(state.current_page, 42);
    assert!(state.goto_error.is_none());

    state.goto_address_input = "0x2000".to_string(); // 2 * 4096 = Page 2, col 0
    state.handle_goto(&meta);
    assert_eq!(state.current_page, 2);
    assert_eq!(state.col_offset_in_page, 0);
    assert!(state.goto_error.is_none());
}

#[test]
fn test_horizontal_scrollbar_clamping() {
    let meta = test_meta(); // page_length = 4096
    let mut state = HexTabState::new();

    // Visible bytes = 32, page_length = 4096 => max_col = 4064
    let bytes_per_row = 32usize;
    let page_len = meta.page_length as u64;
    let max_col = page_len.saturating_sub(bytes_per_row as u64);
    assert_eq!(max_col, 4064);

    // Clamping col_offset_in_page
    state.col_offset_in_page = 5000;
    state.col_offset_in_page = state.col_offset_in_page.min(max_col);
    assert_eq!(state.col_offset_in_page, 4064);

    // When bytes_per_row >= page_length, max_col is 0
    let small_page_len = 16u64;
    let max_col_small = small_page_len.saturating_sub(bytes_per_row as u64);
    assert_eq!(max_col_small, 0);
}

#[test]
fn test_horizontal_scrollbar_defaults() {
    let state = HexTabState::new();
    assert!(!state.is_dragging_h_scrollbar);
    assert_eq!(state.col_offset_in_page, 0);
}

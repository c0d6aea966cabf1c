use nand_flash_viewer::hex_rows::{
    byte_details, column_header, column_scroll_tooltip, hex_cell, hex_row, matches_label, mini_nand_pixels,
    mini_viewer_tooltip, page_col_label, page_scroll_tooltip, read_row_data, row_location, row_prefix, status_bar_texts,
    structure_entry_label, structure_selected_text, visible_rows, BitColor, ByteClass, HeaderCell, SegmentShade,
};
use nand_flash_viewer::data_provider::MemoryDataProvider;
use nand_flash_viewer::FileMetadata;
use nand_flash_viewer::hex_tab::{HexDiffMode, HexDisplayMode, HexTabState, PageSegmentKind, PageStructureRecord};
use nand_flash_viewer::search::SearchResult;

fn record(name: &str, start: u64, stop: u64, kind: PageSegmentKind) -> PageStructureRecord {
    PageStructureRecord { name: name.to_string(), start, stop, kind }
}

fn result_at(byte_offset: u64) -> SearchResult {
    SearchResult {
        index: 1,
        byte_offset,
        block: 0,
        page: 0,
        offset_in_page: 0,
        preview_hex: String::new(),
        preview_ascii: String::new(),
    }
}

#[test]
fn test_row_prefix_padding() {
    assert_eq!(row_prefix(3, 7, 0x1a), "B:0003 P:007 +001A | ");
    assert_eq!(row_prefix(12345, 1000, 0x12345), "B:12345 P:1000 +12345 | ");
}

#[test]
fn test_row_location() {
    assert_eq!(row_location(130, 64), (2, 2));
    assert_eq!(row_location(5, 0), (0, 0));
}

#[test]
fn test_visible_rows_stop_at_last_page() {
    assert_eq!(visible_rows(8, 5, 10), vec![8, 9]);
    assert_eq!(visible_rows(2, 3, 10), vec![2, 3, 4]);
    assert!(visible_rows(10, 3, 10).is_empty());
}

#[test]
fn test_hex_cell_classes() {
    let none: Vec<SearchResult> = Vec::new();
    let records: Vec<PageStructureRecord> = Vec::new();
    let c = hex_cell(HexDiffMode::ColorDiff, Some(0x12), Some(0x34), true, 0, &none, 0, 0, &records);
    assert_eq!(c.value, 0x12);
    assert!(c.changed);
    assert_eq!(c.class, ByteClass::XorChanged);
    let c = hex_cell(HexDiffMode::XorOnly, Some(0x12), Some(0x34), true, 0, &none, 0, 0, &records);
    assert_eq!(c.class, ByteClass::Normal);
    let c = hex_cell(HexDiffMode::RawOnly, Some(0x12), Some(0xff), false, 0, &none, 0, 0, &records);
    assert_eq!(c.value, 0xff);
    assert!(!c.changed);
    assert_eq!(c.class, ByteClass::AllOnes);
    let c = hex_cell(HexDiffMode::ColorDiff, None, Some(7), true, 0, &none, 0, 0, &records);
    assert_eq!(c.value, 0);
    assert!(!c.changed);
    assert_eq!(c.class, ByteClass::Zero);
}

#[test]
fn test_hex_cell_search_and_shade() {
    let results = vec![result_at(100)];
    let records = vec![record("SA", 0, 7, PageSegmentKind::SpareArea), record("ECC", 8, 15, PageSegmentKind::Ecc)];
    let inside = hex_cell(HexDiffMode::XorOnly, Some(1), None, false, 103, &results, 4, 3, &records);
    assert!(inside.in_search);
    assert_eq!(inside.shade, SegmentShade::Spare);
    let after = hex_cell(HexDiffMode::XorOnly, Some(1), None, false, 104, &results, 4, 9, &records);
    assert!(!after.in_search);
    assert_eq!(after.shade, SegmentShade::Ecc);
    let no_len = hex_cell(HexDiffMode::XorOnly, Some(1), None, false, 100, &results, 0, 20, &records);
    assert!(!no_len.in_search);
    assert_eq!(no_len.shade, SegmentShade::Plain);
}

#[test]
fn test_hex_row_hex_and_ascii() {
    let mut state = HexTabState::new();
    state.col_offset_in_page = 2;
    let active = vec![0x41, 0x00, 0xff];
    let raw = vec![0x41, 0x01];
    let none: Vec<SearchResult> = Vec::new();
    let records: Vec<PageStructureRecord> = Vec::new();
    let row = hex_row(&state, 65, 64, 16, &active, &raw, 4, true, &none, 0, &records);
    assert_eq!(row.prefix, "B:0001 P:001 +0002 | ");
    assert_eq!(row.cells.len(), 4);
    assert_eq!(row.cells[0].class, ByteClass::Normal);
    assert_eq!(row.cells[1].class, ByteClass::XorChanged);
    assert_eq!(row.cells[2].class, ByteClass::AllOnes);
    assert_eq!(row.cells[3].value, 0);
    assert_eq!(row.ascii, Some("A...".to_string()));
}

#[test]
fn test_hex_row_modes() {
    let mut state = HexTabState::new();
    let active = vec![0x61, 0x62];
    let raw = vec![0x63, 0x64];
    let none: Vec<SearchResult> = Vec::new();
    let records: Vec<PageStructureRecord> = Vec::new();
    state.display_mode = HexDisplayMode::HexOnly;
    let row = hex_row(&state, 0, 64, 16, &active, &raw, 2, true, &none, 0, &records);
    assert_eq!(row.cells.len(), 2);
    assert_eq!(row.ascii, None);
    state.display_mode = HexDisplayMode::AsciiOnly;
    state.diff_mode = HexDiffMode::RawOnly;
    let row = hex_row(&state, 0, 64, 16, &active, &raw, 3, true, &none, 0, &records);
    assert!(row.cells.is_empty());
    assert_eq!(row.ascii, Some("ab.".to_string()));
    state.display_mode = HexDisplayMode::HexAndAscii;
    let row = hex_row(&state, 0, 64, 16, &active, &raw, 2, true, &none, 0, &records);
    assert_eq!(row.ascii, Some("cd".to_string()));
}

#[test]
fn test_column_header() {
    let mut state = HexTabState::new();
    state.col_offset_in_page = 254;
    let records = vec![record("Data", 0, 255, PageSegmentKind::Data)];
    let header = column_header(&state, 3, &records);
    assert_eq!(
        header,
        vec![
            HeaderCell { label: 254, kind: Some(PageSegmentKind::Data) },
            HeaderCell { label: 255, kind: Some(PageSegmentKind::Data) },
            HeaderCell { label: 0, kind: None },
        ]
    );
    state.display_mode = HexDisplayMode::AsciiOnly;
    assert!(column_header(&state, 3, &records).is_empty());
}

#[test]
fn test_byte_details() {
    let records = vec![record("ECC", 512, 527, PageSegmentKind::Ecc)];
    let lines = byte_details(3, 0x200, 0x1a00, 0x5a, 0xa5, &records);
    assert_eq!(
        lines,
        vec![
            "Page: 3, Col: 0x0200 (512)".to_string(),
            "Linear: 0x00001A00".to_string(),
            "Raw:    0x5A (90)".to_string(),
            "Output: 0xA5 (165)".to_string(),
            "XOR:    0xFF".to_string(),
            "Segment: ECC (Ecc)".to_string(),
        ]
    );
    let plain = byte_details(0, 1, 1, 0, 0, &records);
    assert_eq!(plain.len(), 5);
}

#[test]
fn test_page_scroll_tooltip() {
    let mut state = HexTabState::new();
    state.current_page = 130;
    assert_eq!(
        page_scroll_tooltip(&state, 1000, 64),
        "Page 130 / 1000 (Block 2, Page 2)\nClick or drag to scrub across dump\nHold Shift for Fine Mode (1 Page/px), Ctrl for Block Mode"
    );
    state.scroll_velocity_mode = "Fine Mode (Shift: 1 Page/px)".to_string();
    assert_eq!(
        page_scroll_tooltip(&state, 1000, 0),
        "Page 130 / 1000 (Block 0, Page 0)\nClick or drag to scrub across dump\nActive: Fine Mode (Shift: 1 Page/px)"
    );
}

#[test]
fn test_column_scroll_tooltip() {
    let mut state = HexTabState::new();
    state.col_offset_in_page = 0x200;
    let records = vec![record("ECC", 512, 527, PageSegmentKind::Ecc)];
    assert_eq!(
        column_scroll_tooltip(&state, 528, 32, 520, &records),
        "Page Col: 0x0200 (512) / PageLen: 528 (showing 512..528) | Segment: ECC (Ecc)\nClick or drag to scrub across the page horizontally"
    );
    state.col_offset_in_page = 16;
    assert_eq!(
        column_scroll_tooltip(&state, 528, 32, 600, &records),
        "Page Col: 0x0010 (16) / PageLen: 528 (showing 16..48)\nClick or drag to scrub across the page horizontally"
    );
}

#[test]
fn test_step_column_buttons() {
    let mut state = HexTabState::new();
    state.col_offset_in_page = 10;
    state.step_column(false, 528, 32);
    assert_eq!(state.col_offset_in_page, 0);
    state.col_offset_in_page = 490;
    state.step_column(true, 528, 32);
    assert_eq!(state.col_offset_in_page, 496);
    state.step_column(true, 528, 32);
    assert_eq!(state.col_offset_in_page, 496);
    state.step_column(true, 16, 32);
    assert_eq!(state.col_offset_in_page, 0);
}

fn meta(size: u64, page_length: u32, block_size: u32) -> FileMetadata {
    let total_pages = (size + page_length as u64 - 1) / page_length as u64;
    let total_blocks = (total_pages + block_size as u64 - 1) / block_size as u64;
    FileMetadata {
        path: "dump.bin".to_string(),
        size,
        page_length,
        block_size,
        total_pages,
        total_blocks,
        grid_width: 1,
        grid_height: total_blocks as u32,
    }
}

#[test]
fn test_toolbar_labels() {
    assert_eq!(page_col_label(0x210), "Page Col: 0x0210 (528)");
    assert_eq!(matches_label(12), "Matches: 12");
    let r = record("Spare", 0x200, 0x20f, PageSegmentKind::SpareArea);
    assert_eq!(structure_entry_label(&r), "Spare (0x200..0x20F, 16 B)");
    let records = vec![r];
    assert_eq!(structure_selected_text(0x205, &records), "Spare");
    assert_eq!(structure_selected_text(0x10, &records), "Segments...");
}

#[test]
fn test_select_segment_and_nand_jump() {
    let mut state = HexTabState::new();
    state.select_segment(&record("Spare", 0x200, 0x20f, PageSegmentKind::SpareArea), 528, 32);
    assert_eq!(state.col_offset_in_page, 496);
    state.select_segment(&record("Data", 8, 100, PageSegmentKind::Data), 528, 32);
    assert_eq!(state.col_offset_in_page, 8);
    let m = meta(2048 * 64 * 4, 2048, 64);
    state.current_page = 130;
    state.col_offset_in_page = 5;
    state.show_in_nand_viewer(&m);
    assert_eq!(state.jump_to_nand, Some((2, 2, 5)));
}

#[test]
fn test_status_bar_texts() {
    let mut state = HexTabState::new();
    let m = meta(2048 * 64 * 4, 2048, 64);
    state.current_page = 130;
    state.col_offset_in_page = 0x7f0;
    let records = vec![record("ECC", 0x7e0, 0x7ff, PageSegmentKind::Ecc)];
    let lines = status_bar_texts(&state, &m, 32, true, &records);
    assert_eq!(
        lines,
        vec![
            "Page: 130 / 256 | Block: 2 / 4 | In-Block Page: 2 / 64".to_string(),
            "Col: 0x07F0..0x0800 (32 B visible) / PageLen: 2048".to_string(),
            "Linear: 0x000417F0 / 0x00080000".to_string(),
            "Region: ECC (0x7E0..0x7FF)".to_string(),
            "Diff Mode (Green: Changed, Gray: Same)".to_string(),
        ]
    );
    state.scroll_velocity_mode = "Fine Mode (Shift: 1 Page/px)".to_string();
    state.col_offset_in_page = 0;
    let lines = status_bar_texts(&state, &m, 32, false, &records);
    assert_eq!(lines.len(), 4);
    assert_eq!(lines[3], "Fine Mode (Shift: 1 Page/px)");
}

#[test]
fn test_mini_nand_pixels() {
    let rows = vec![(vec![0b1010_0000u8], vec![0b1100_0000u8]), (vec![0x80u8], Vec::new())];
    let pixels = mini_nand_pixels(&rows, 1);
    assert_eq!(pixels.len(), 16);
    assert_eq!(&pixels[0..4], &[BitColor::White, BitColor::Red, BitColor::Green, BitColor::Black]);
    assert_eq!(pixels[8], BitColor::White);
    assert_eq!(pixels[9], BitColor::Black);
    let wide = mini_nand_pixels(&rows, 2);
    assert_eq!(wide.len(), 32);
    assert_eq!(wide[8], BitColor::Black);
}

#[test]
fn test_mini_viewer_click_and_tooltip() {
    let mut state = HexTabState::new();
    state.current_page = 98;
    state.col_offset_in_page = 490;
    state.mini_viewer_click(5, 3, 100, 528, 32);
    assert_eq!(state.current_page, 99);
    assert_eq!(state.col_offset_in_page, 493);
    assert_eq!(mini_viewer_tooltip(7, 0x1f), "Page: 7, Col: 0x001F (31) \u{2014} Click to jump");
}

fn mem(data: Vec<u8>, page_length: u32, block_size: u32) -> MemoryDataProvider {
    let m = meta(data.len() as u64, page_length, block_size);
    MemoryDataProvider::new(data, m, "mem".to_string())
}

#[test]
fn test_read_row_data() {
    let data: Vec<u8> = (0..40u8).collect();
    let mut main = mem(data.clone(), 16, 2);
    let mut raw = Some(mem(data.iter().map(|b| b ^ 0xff).collect(), 16, 2));
    let mut state = HexTabState::new();
    state.current_page = 1;
    state.col_offset_in_page = 4;
    let rows = read_row_data(&state, &mut main, &mut raw, 4, 8, 16, 3, 40);
    assert_eq!(rows.len(), 4);
    assert_eq!(rows[0].0, (20..28u8).collect::<Vec<u8>>());
    assert_eq!(rows[0].1, (20..28u8).map(|b| b ^ 0xff).collect::<Vec<u8>>());
    assert_eq!(rows[1].0, (36..40u8).collect::<Vec<u8>>());
    assert!(rows[2].0.is_empty() && rows[2].1.is_empty());
    assert!(rows[3].0.is_empty());
    let mut none: Option<MemoryDataProvider> = None;
    let rows = read_row_data(&state, &mut main, &mut none, 1, 8, 16, 3, 40);
    assert_eq!(rows[0].0.len(), 8);
    assert!(rows[0].1.is_empty());
}

#[test]
fn test_prepare_frame() {
    let m = meta(2048 * 10, 2048, 4);
    let mut state = HexTabState::new();
    state.pending_jump_offset = Some(2048 * 3 + 100);
    state.diff_mode = HexDiffMode::RawOnly;
    state.prepare_frame(&m, false, 32);
    assert_eq!(state.pending_jump_offset, None);
    assert_eq!((state.current_page, state.col_offset_in_page), (3, 100));
    assert_eq!(state.goto_address_input, "0x00001864");
    assert_eq!(state.diff_mode, HexDiffMode::XorOnly);
    state.current_page = 50;
    state.col_offset_in_page = 2040;
    state.diff_mode = HexDiffMode::RawOnly;
    state.prepare_frame(&m, true, 32);
    assert_eq!((state.current_page, state.col_offset_in_page), (9, 2016));
    assert_eq!(state.diff_mode, HexDiffMode::RawOnly);
}

use nand_flash_viewer::search::{search_bytes, SearchEngine, SearchMode, SearchOptions, SearchResult};
use nand_flash_viewer::search_export::export_results_text;

/// Runs the windowed scan over `data` the way the viewer drives it; a
/// cancelled search reads nothing.
fn run_search(data: &[u8], options: &SearchOptions, cancelled: bool, streamed: &mut Vec<SearchResult>) -> Vec<SearchResult> {
    let mut engine = SearchEngine::new(options, data.len() as u64, 512, 64).unwrap();
    while let Some((offset, len)) = engine.next_read() {
        if cancelled {
            break;
        }
        let before = engine.results().len();
        let start = offset as usize;
        engine.feed(&data[start..start + len as usize]);
        for r in &engine.results()[before..] {
            streamed.push(r.clone());
        }
    }
    engine.into_results()
}

#[test]
fn test_ascii_search() {
    let mut data = vec![0u8; 1024];
    data[100..104].copy_from_slice(b"KIR0");

    let options = SearchOptions {
        pattern: "KIR0".to_string(),
        mode: SearchMode::Ascii,
        case_sensitive: true,
        max_matches: 10,
    };

    let mut streamed = Vec::new();
    let res = run_search(&data, &options, false, &mut streamed);
    assert_eq!(res.len(), 1);
    assert_eq!(res[0].byte_offset, 100);
    assert_eq!(res[0].block, 0);
    assert_eq!(res[0].page, 0);
    assert_eq!(res[0].offset_in_page, 100);

    let res = search_bytes(&data, &options, 512, 64).unwrap();
    assert_eq!(res.len(), 1);
    assert_eq!(res[0].byte_offset, 100);
}

#[test]
fn test_hex_search() {
    let mut data = vec![0u8; 1024];
    data[600..604].copy_from_slice(&[0xDE, 0xAD, 0xBE, 0xEF]);

    let options = SearchOptions {
        pattern: "DEADBEEF".to_string(),
        mode: SearchMode::Hex,
        case_sensitive: false,
        max_matches: 10,
    };

    let mut streamed = Vec::new();
    let res = run_search(&data, &options, false, &mut streamed);
    assert_eq!(res.len(), 1);
    assert_eq!(res[0].byte_offset, 600);
    assert_eq!(res[0].page, 1);
    assert_eq!(res[0].offset_in_page, 88);
}

#[test]
fn test_search_cancellation() {
    let data = vec![0u8; 1024];

    let options = SearchOptions {
        pattern: "ABCD".to_string(),
        mode: SearchMode::Ascii,
        case_sensitive: true,
        max_matches: 10,
    };

    let mut streamed = Vec::new();
    let res = run_search(&data, &options, true, &mut streamed);
    assert_eq!(res.len(), 0);
}

#[test]
fn test_export_results() {
    let page_length = 56122;
    let block_size = 384;
    let results = vec![SearchResult {
        index: 1,
        byte_offset: 512,
        block: 0,
        page: 1,
        offset_in_page: 0,
        preview_hex: "55 AA".to_string(),
        preview_ascii: "U.".to_string(),
    }];

    let csv = export_results_text(&results, true, page_length, block_size);
    assert_eq!(
        csv,
        "Index,ByteOffset,Block,Page,OffsetInPage,HexPreview,AsciiPreview\n1,512,0,1,0,\"55 AA\",\"U.\"\n"
    );

    let txt = export_results_text(&results, false, page_length, block_size);
    let mut expected = String::new();
    expected.push_str("--- Search Results (1) --- Pagesize 56122 --- Blocksize 384 ---\n");
    expected.push_str(&format!(
        "{:<6} | {:<12} | {:<8} | {:<8} | {:<11} | {:<47} | Preview\n",
        "Index", "Byte Offset", "Block #", "Page #", "Page Offset", "Hex Preview"
    ));
    expected.push_str(&format!("{:-<100}\n", ""));
    expected.push_str(&format!(
        "{:<6} | {:<12} | {:<8} | {:<8} | {:<11} | {:<47} | {}\n",
        1, 512, 0, 1, 0, "55 AA", "U."
    ));
    assert_eq!(txt, expected);
}

#[test]
fn test_search_provider_with_sender_streaming() {
    let mut data = vec![0u8; 2048];
    data[100..104].copy_from_slice(b"FIND");
    data[500..504].copy_from_slice(b"FIND");
    data[1500..1504].copy_from_slice(b"FIND");

    let options = SearchOptions {
        pattern: "FIND".to_string(),
        mode: SearchMode::Ascii,
        case_sensitive: true,
        max_matches: 10,
    };

    let mut streamed = Vec::new();
    let res = run_search(&data, &options, false, &mut streamed);
    assert_eq!(res.len(), 3);

    assert_eq!(streamed.len(), 3);
    assert_eq!(streamed[0].byte_offset, 100);
    assert_eq!(streamed[1].byte_offset, 500);
    assert_eq!(streamed[2].byte_offset, 1500);
}

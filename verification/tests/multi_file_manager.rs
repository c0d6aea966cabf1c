use nand_flash_viewer::multi_file_manager::{DumpId, MultiFileManager};
use nand_flash_viewer::{Error, FileMetadata};

fn file_metadata_new(path: String, size: u64, page_length: u32, block_size: u32) -> FileMetadata {
    let pl = page_length as u64;
    let total_pages = size / pl + if size % pl != 0 { 1 } else { 0 };
    let bs = block_size as u64;
    let total_blocks = total_pages / bs + if total_pages % bs != 0 { 1 } else { 0 };
    let rows = if total_blocks == 0 { 1 } else { total_blocks as u32 };
    FileMetadata::with_grid(path, size, page_length, block_size, 1, rows)
}

/// The view of a dump: zoom level, centre and size in pixels.
#[derive(Debug, Clone, PartialEq)]
struct Viewport {
    level: u32,
    center_x: f64,
    center_y: f64,
    width_pixels: u32,
    height_pixels: u32,
}

impl Viewport {
    fn new(level: u32, center_x: f64, center_y: f64, width_pixels: u32, height_pixels: u32) -> Viewport {
        Viewport { level, center_x, center_y, width_pixels, height_pixels }
    }
}

fn open(manager: &mut MultiFileManager<(), Viewport>, path: &str, size: u64, pl: u32, bs: u32) -> DumpId {
    manager.open_dump(file_metadata_new(path.to_string(), size, pl, bs), (), Viewport::new(0, 0.0, 0.0, 1024, 768))
}

#[test]
fn test_multi_file_manager_creation() {
    let manager: MultiFileManager<(), Viewport> = MultiFileManager::new(".cache".to_string());
    assert_eq!(manager.list_open_dumps().len(), 0);
}

#[test]
fn test_open_dump() {
    let mut manager = MultiFileManager::new(".cache".to_string());
    let _id = open(&mut manager, "/tmp/dump.bin", 51 * 1024 * 1024 * 1024, 512, 64);
    assert_eq!(manager.list_open_dumps().len(), 1);
}

#[test]
fn test_close_dump() {
    let mut manager = MultiFileManager::new(".cache".to_string());
    let id = open(&mut manager, "/tmp/dump.bin", 51 * 1024 * 1024 * 1024, 512, 64);
    assert_eq!(manager.list_open_dumps().len(), 1);
    let result = manager.close_dump(id);
    assert!(result.is_ok());
    assert_eq!(manager.list_open_dumps().len(), 0);
}

#[test]
fn test_multiple_dumps() {
    let mut manager = MultiFileManager::new(".cache".to_string());
    let id1 = open(&mut manager, "/tmp/one.bin", 51 * 1024 * 1024 * 1024, 512, 64);
    let id2 = open(&mut manager, "/tmp/two.bin", 100 * 1024 * 1024 * 1024, 1024, 128);
    assert_eq!(manager.list_open_dumps().len(), 2);
    assert_ne!(id1, id2);
}

#[test]
fn test_viewport_preservation() {
    let mut manager = MultiFileManager::new(".cache".to_string());
    let id = open(&mut manager, "/tmp/dump.bin", 51 * 1024 * 1024 * 1024, 512, 64);
    let new_viewport = Viewport::new(2, 512.0, 512.0, 1024, 768);
    manager.update_viewport(id, new_viewport.clone()).unwrap();
    let retrieved = manager.get_viewport(id).unwrap();
    assert_eq!(retrieved.level, 2);
    assert_eq!(retrieved.center_x, 512.0);
    assert_eq!(retrieved.center_y, 512.0);
}

#[test]
fn test_dump_state_and_cache_name() {
    let mut manager = MultiFileManager::new(".cache".to_string());
    let id = open(&mut manager, "/data/dumps/chip.bin", 4096, 512, 4);
    assert_eq!(id, DumpId::new(1));
    let state = manager.get_dump(id).unwrap();
    assert_eq!(state.id, id);
    assert_eq!(state.metadata.page_length, 512);
    assert_eq!(state.cache.cache_dir, ".cache");
    assert_eq!(state.cache.dump_filename, "chip.bin");
    let id2 = open(&mut manager, "/", 4096, 512, 4);
    assert_eq!(id2, DumpId::new(2));
    assert_eq!(manager.get_dump(id2).unwrap().cache.dump_filename, "dump");
}

#[test]
fn test_unknown_dump_not_found() {
    let mut manager = MultiFileManager::new(".cache".to_string());
    let id = open(&mut manager, "/tmp/dump.bin", 4096, 512, 4);
    manager.close_dump(id).unwrap();
    match manager.close_dump(id) {
        Err(Error::NotFound(m)) => assert_eq!(m, "Dump DumpId(1) not found"),
        _ => panic!("closing twice should fail"),
    }
    assert!(matches!(manager.get_dump(DumpId::new(7)), Err(Error::NotFound(_))));
    assert!(matches!(manager.get_viewport(DumpId::new(7)), Err(Error::NotFound(_))));
    assert!(matches!(
        manager.update_viewport(DumpId::new(7), Viewport::new(1, 0.0, 0.0, 1, 1)),
        Err(Error::NotFound(_))
    ));
    let again = open(&mut manager, "/tmp/dump.bin", 4096, 512, 4);
    assert_eq!(again, DumpId::new(2));
    let mut ids = manager.list_open_dumps();
    ids.sort_by_key(|d| d.0);
    assert_eq!(ids, vec![DumpId::new(2)]);
}

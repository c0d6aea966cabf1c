use nand_flash_viewer::metadata_manager::MetadataManager;
use nand_flash_viewer::metadata_manager::check_loaded_metadata;
use nand_flash_viewer::metadata_manager::Metadata;
use nand_flash_viewer::FileMetadata;

#[test]
fn test_metadata_creation() {
    let file_metadata = FileMetadata::with_grid("/path/to/dump.bin".to_string(), 1_000_000, 512, 64, 1, 1);

    let metadata = Metadata::from_file_metadata(&file_metadata);

    assert_eq!(metadata.path, "/path/to/dump.bin");
    assert_eq!(metadata.size, 1_000_000);
    assert_eq!(metadata.page_length, 512);
    assert_eq!(metadata.block_size, 64);
    assert!(metadata.timestamp > 0);
}

#[test]
fn test_metadata_to_file_metadata() {
    let metadata = Metadata {
        path: "/path/to/dump.bin".to_string(),
        size: 1_000_000,
        page_length: 512,
        block_size: 64,
        timestamp: 1234567890,
    };

    let file_metadata = metadata.to_file_metadata(1, 1);

    assert_eq!(file_metadata.path, "/path/to/dump.bin");
    assert_eq!(file_metadata.size, 1_000_000);
    assert_eq!(file_metadata.page_length, 512);
    assert_eq!(file_metadata.block_size, 64);
}

#[test]
fn test_metadata_path_generation() {
    let manager = MetadataManager::new("/tmp/cache".to_string(), "test_dump.bin".to_string());
    let metadata_path = manager.get_metadata_path();
    assert_eq!(metadata_path, vec!["/tmp/cache", "test_dump.bin", "metadata.json"]);
}

#[test]
fn test_stored_metadata_checks() {
    let stored = Metadata {
        path: "/dumps/a.bin".to_string(),
        size: 1_000_000,
        page_length: 512,
        block_size: 64,
        timestamp: 7,
    };
    let ok = check_loaded_metadata(stored.clone(), true, 1_000_000).unwrap();
    assert_eq!(ok.path, "/dumps/a.bin");
    assert_eq!(ok.timestamp, 7);

    let gone = check_loaded_metadata(stored.clone(), false, 1_000_000).unwrap_err();
    assert_eq!(gone.to_string(), "Cache error: Dump file no longer exists at stored path");

    let stale = check_loaded_metadata(stored, true, 2_000_000).unwrap_err();
    assert_eq!(stale.to_string(), "Cache error: File size mismatch: stored=1000000, current=2000000");
}

#[test]
fn test_metadata_timestamp_given() {
    let file_metadata = FileMetadata::with_grid("/d.bin".to_string(), 4096, 512, 64, 1, 1);
    let m = Metadata::from_file_metadata_at(&file_metadata, 1234567890);
    assert_eq!(m.timestamp, 1234567890);
    assert_eq!(m.size, 4096);
}

use nand_flash_viewer::cache_manager::{validate_cached_tile, CacheManager};
use nand_flash_viewer::TileCoord;

fn create_test_qoi_data() -> Vec<u8> {
    let mut qoi_data = b"qoif".to_vec();
    qoi_data.extend_from_slice(&[0x00, 0x00, 0x00, 0x10]);
    qoi_data.extend_from_slice(&[0x00, 0x00, 0x00, 0x10]);
    qoi_data.push(4);
    qoi_data.push(1);
    qoi_data
}

#[test]
fn test_cache_manager_creation() {
    let manager = CacheManager::new(".cache".to_string(), "test.bin".to_string());
    assert_eq!(manager.dump_filename, "test.bin");
    assert_eq!(manager.cache_dir, ".cache");
}

#[test]
fn test_get_tile_path() {
    let manager = CacheManager::new("/tmp/viewer/.cache".to_string(), "test.bin".to_string());
    let coord = TileCoord::new(0, 5, 10);

    let path = manager.get_tile_path(&coord);

    // .cache/test.bin/0/10/5.qoi
    assert_eq!(path, vec!["/tmp/viewer/.cache", "test.bin", "0", "10", "5.qoi"]);
    let joined = path.join("/");
    assert!(joined.contains("test.bin"));
    assert!(joined.contains("0"));
    assert!(joined.contains("10"));
    assert!(joined.contains("5.qoi"));
}

#[test]
fn test_load_invalid_qoi() {
    let invalid_data = vec![0xFF, 0xFF, 0xFF];
    let result = validate_cached_tile(invalid_data);
    assert!(result.is_err());
}

#[test]
fn test_load_corrupted_qoi_too_small() {
    let invalid_data = vec![0x89, 0x50, 0x4E];
    let result = validate_cached_tile(invalid_data);
    assert!(result.is_err());
    assert!(result.unwrap_err().to_string().contains("too small"));
}

#[test]
fn test_cached_tile_signature_checked() {
    let good = create_test_qoi_data();
    assert_eq!(good.len(), 14);
    assert_eq!(validate_cached_tile(good.clone()).unwrap(), good);

    let mut bad = create_test_qoi_data();
    bad[0] = b'x';
    let err = validate_cached_tile(bad).unwrap_err();
    assert_eq!(err.to_string(), "Cache error: Invalid QOI: incorrect signature");
}

#[test]
fn test_dump_cache_dir_components() {
    let manager = CacheManager::new(".cache".to_string(), "dump.bin".to_string());
    assert_eq!(manager.dump_cache_dir(), vec![".cache", "dump.bin"]);
}

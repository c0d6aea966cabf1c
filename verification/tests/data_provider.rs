use nand_flash_viewer::data_provider::{
    check_read_length, ByteSource, ConcatenateDataProvider, DumpDataProvider, FileDataProvider, MemoryDataProvider,
    SearchFilteredDataProvider, XorDataProvider,
};
use nand_flash_viewer::{Error, FileMetadata};

/// Metadata of a dump of `size` bytes laid out one block per grid row.
fn file_metadata_new(path: String, size: u64, page_length: u32, block_size: u32) -> FileMetadata {
    let pl = page_length as u64;
    let total_pages = size / pl + if size % pl != 0 { 1 } else { 0 };
    let bs = block_size as u64;
    let total_blocks = total_pages / bs + if total_pages % bs != 0 { 1 } else { 0 };
    let rows = if total_blocks == 0 { 1 } else { total_blocks as u32 };
    FileMetadata::with_grid(path, size, page_length, block_size, 1, rows)
}

/// A dump held in memory.
fn mem(data: &[u8]) -> MemoryDataProvider {
    MemoryDataProvider::new(data.to_vec(), file_metadata_new("mem.bin".to_string(), data.len() as u64, 512, 64), "mem".to_string())
}

/// A byte source that reads like a file held in memory.
struct VecSource {
    data: Vec<u8>,
}

impl ByteSource for VecSource {
    fn read_at(&mut self, offset: u64, length: u32) -> Result<Vec<u8>, Error> {
        let end = offset + length as u64;
        if end > self.data.len() as u64 {
            return Err(Error::IoError("failed to fill whole buffer".to_string()));
        }
        Ok(self.data[offset as usize..end as usize].to_vec())
    }
}

#[test]
fn test_file_data_provider() {
    let test_data = vec![1, 2, 3, 4, 5];
    let meta = file_metadata_new("dump.bin".to_string(), 5, 512, 64);
    let mut provider = FileDataProvider::new(VecSource { data: test_data.clone() }, meta, "0123456789abcdef".to_string());
    let read = provider.read_bytes(0, 5).unwrap();
    assert_eq!(read, test_data);
    assert!(!provider.cache_identity().is_empty());
}

#[test]
fn test_xor_rule1_page_pattern() {
    let primary = mem(&vec![0x00u8; 1024]);
    let sec = mem(&[0xAA, 0xBB, 0xCC, 0xDD]);

    let mut xor_provider = XorDataProvider::new(primary, vec![sec], Vec::new(), "xor".to_string(), 1, 1);

    let page1 = xor_provider.read_bytes(0, 8).unwrap();
    assert_eq!(page1, vec![0xAA, 0xBB, 0xCC, 0xDD, 0x00, 0x00, 0x00, 0x00]);

    let page2 = xor_provider.read_bytes(512, 8).unwrap();
    assert_eq!(page2, vec![0xAA, 0xBB, 0xCC, 0xDD, 0x00, 0x00, 0x00, 0x00]);
}

#[test]
fn test_xor_rule2_block_pattern() {
    let primary = mem(&vec![0x00u8; 2048]);
    let mut sec_data = vec![0x55u8; 600];
    sec_data[0] = 0x99;
    let sec = mem(&sec_data);

    let mut xor_provider = XorDataProvider::new(primary, vec![sec], Vec::new(), "xor".to_string(), 1, 1);

    let read0 = xor_provider.read_bytes(0, 2).unwrap();
    assert_eq!(read0, vec![0x99, 0x55]);

    let read600 = xor_provider.read_bytes(599, 2).unwrap();
    assert_eq!(read600, vec![0x55, 0x00]);
}

#[test]
fn test_xor_with_static_pattern() {
    let primary = mem(&vec![0x00; 16]);
    let mut xor_provider = XorDataProvider::new(primary, vec![], vec![0xFF, 0x77], "xor".to_string(), 1, 1);
    let read = xor_provider.read_bytes(0, 4).unwrap();
    assert_eq!(read, vec![0xFF, 0x77, 0xFF, 0x77]);
}

#[test]
fn test_search_filtered_data_provider() {
    let mut data = vec![0u8; 2048];
    data[512..1024].fill(0x11);
    data[1024..1536].fill(0x22);
    data[1536..2048].fill(0x33);
    let primary = mem(&data);

    let matching_pages = vec![1, 3];
    let mut filtered =
        SearchFilteredDataProvider::new(primary, matching_pages, "|Block".to_string(), "filtered".to_string(), 1, 1);

    let meta = filtered.get_metadata();
    assert_eq!(meta.size, 1024);
    assert_eq!(meta.page_length, 512);
    assert_eq!(meta.total_pages, 2);

    assert_eq!(filtered.original_page(0), Some(1));
    assert_eq!(filtered.original_page(1), Some(3));
    assert_eq!(filtered.original_page(2), None);

    let read_p0 = filtered.read_bytes(0, 512).unwrap();
    assert_eq!(read_p0.len(), 512);
    assert!(read_p0.iter().all(|&b| b == 0x11));

    let read_p1 = filtered.read_bytes(512, 512).unwrap();
    assert_eq!(read_p1.len(), 512);
    assert!(read_p1.iter().all(|&b| b == 0x33));

    let read_straddle = filtered.read_bytes(508, 8).unwrap();
    assert_eq!(read_straddle, vec![0x11, 0x11, 0x11, 0x11, 0x33, 0x33, 0x33, 0x33]);

    let read_past = filtered.read_bytes(1020, 10).unwrap();
    assert_eq!(&read_past[..4], &[0x33, 0x33, 0x33, 0x33]);
    assert_eq!(&read_past[4..], &[0x00, 0x00, 0x00, 0x00, 0x00, 0x00]);
}

#[test]
fn test_search_filtered_data_provider_empty() {
    let primary = mem(&vec![0xAAu8; 1024]);
    let mut filtered =
        SearchFilteredDataProvider::new(primary, vec![], "|Block".to_string(), "filtered".to_string(), 1, 1);
    let meta = filtered.get_metadata();
    assert_eq!(meta.size, 0);
    assert_eq!(meta.total_pages, 0);

    let read = filtered.read_bytes(0, 100).unwrap();
    assert_eq!(read, vec![0u8; 100]);
}

/// A dump whose metadata claims `size` bytes but holds only `data`.
fn short_mem(data: &[u8], size: u64) -> MemoryDataProvider {
    MemoryDataProvider::new(data.to_vec(), file_metadata_new("short.bin".to_string(), size, 512, 64), "short".to_string())
}

#[test]
fn test_memory_read_past_end_fails() {
    let mut p = mem(&[1, 2, 3, 4]);
    assert_eq!(p.read_bytes(1, 3).unwrap(), vec![2, 3, 4]);
    match p.read_bytes(2, 3) {
        Err(Error::IoError(m)) => assert_eq!(m, "failed to fill whole buffer"),
        _ => panic!("a read past the end should fail"),
    }
    assert_eq!(p.cache_identity(), "mem");
}

#[test]
fn test_check_read_length() {
    assert_eq!(check_read_length(Ok(vec![1, 2]), 2).unwrap(), vec![1, 2]);
    match check_read_length(Ok(vec![1]), 2) {
        Err(Error::IoError(m)) => assert_eq!(m, "failed to fill whole buffer"),
        _ => panic!("a short read should fail"),
    }
    assert!(matches!(check_read_length(Err(Error::NotFound("x".to_string())), 2), Err(Error::NotFound(_))));
}

#[test]
fn test_file_provider_identity_and_short_read() {
    let meta = file_metadata_new("dump.bin".to_string(), 5, 512, 64);
    let mut provider = FileDataProvider::new(VecSource { data: vec![1, 2, 3] }, meta, "abc".to_string());
    assert_eq!(provider.cache_identity(), "abc");
    assert!(provider.read_bytes(0, 5).is_err());
}

#[test]
fn test_composites_fail_when_an_input_fails() {
    let mut concat = ConcatenateDataProvider::new(vec![mem(&[1, 2, 3, 4]), short_mem(&[5, 6], 4)], "c".to_string(), 1, 1);
    assert_eq!(concat.cache_identity(), "c");
    assert_eq!(concat.read_bytes(0, 4).unwrap(), vec![1, 2, 3, 4]);
    assert!(concat.read_bytes(512, 4).is_err());
    assert_eq!(concat.read_bytes(512, 2).unwrap(), vec![5, 6]);

    let mut xor = XorDataProvider::new(short_mem(&[1, 2], 4), vec![], Vec::new(), "x".to_string(), 1, 1);
    assert_eq!(xor.cache_identity(), "x");
    assert!(xor.read_bytes(0, 4).is_err());
    assert_eq!(xor.read_bytes(0, 2).unwrap(), vec![1, 2]);
    let mut xor2 = XorDataProvider::new(mem(&[0u8; 8]), vec![short_mem(&[0xFF], 2)], Vec::new(), "y".to_string(), 1, 1);
    assert!(xor2.read_bytes(0, 4).is_err());

    let mut filtered = SearchFilteredDataProvider::new(short_mem(&[7u8; 600], 1024), vec![1], "p".to_string(), "f".to_string(), 1, 1);
    assert_eq!(filtered.cache_identity(), "f");
    assert_eq!(filtered.search_pattern(), "p");
    assert!(filtered.read_bytes(0, 100).is_err());
    assert_eq!(filtered.read_bytes(0, 88).unwrap(), vec![7u8; 88]);
}

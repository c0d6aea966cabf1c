use nand_flash_viewer::fuse_fs::{file_attr_for_kind, read, ReadReply};
use nand_flash_viewer::fuse_node::INODE_FLAT_PAGE_BASE;
use nand_flash_viewer::FileMetadata;
use nand_flash_viewer::fuse_node::{
    default_mount_dir_for_node, inode_for_block_dir, inode_for_block_page, inode_for_flat_page, parse_inode,
    InodeKind, INODE_BLOCKS_DIR, INODE_DUMP_BIN, INODE_META_JSON, INODE_PAGES_DIR, INODE_ROOT,
};

#[test]
fn test_mathematical_inode_allocation() {
    let total_pages = 262_144;
    let total_blocks = 4096;
    let block_size = 64;

    assert_eq!(parse_inode(INODE_ROOT, block_size, total_pages, total_blocks), InodeKind::Root);
    assert_eq!(parse_inode(INODE_DUMP_BIN, block_size, total_pages, total_blocks), InodeKind::DumpBin);
    assert_eq!(parse_inode(INODE_META_JSON, block_size, total_pages, total_blocks), InodeKind::MetaJson);
    assert_eq!(parse_inode(INODE_BLOCKS_DIR, block_size, total_pages, total_blocks), InodeKind::BlocksDir);
    assert_eq!(parse_inode(INODE_PAGES_DIR, block_size, total_pages, total_blocks), InodeKind::PagesDir);

    let b0_ino = inode_for_block_dir(0);
    let b42_ino = inode_for_block_dir(42);
    assert_eq!(parse_inode(b0_ino, block_size, total_pages, total_blocks), InodeKind::BlockDir(0));
    assert_eq!(parse_inode(b42_ino, block_size, total_pages, total_blocks), InodeKind::BlockDir(42));

    let p_ino = inode_for_block_page(10, 5);
    assert_eq!(
        parse_inode(p_ino, block_size, total_pages, total_blocks),
        InodeKind::BlockPage { block_idx: 10, page_in_block: 5, page_idx: 10 * 64 + 5 }
    );

    let flat_ino = inode_for_flat_page(12345);
    assert_eq!(parse_inode(flat_ino, block_size, total_pages, total_blocks), InodeKind::FlatPage(12345));

    let invalid_block = inode_for_block_dir(999_999);
    assert_eq!(parse_inode(invalid_block, block_size, total_pages, total_blocks), InodeKind::Unknown);

    let invalid_page = inode_for_flat_page(999_999_999);
    assert_eq!(parse_inode(invalid_page, block_size, total_pages, total_blocks), InodeKind::Unknown);
}

#[test]
fn test_default_mount_path_format() {
    let s = default_mount_dir_for_node(7, Some("/home/viewer".to_string()));
    assert!(s.contains("zoomviewer") && s.contains("node_7"));
    let s = default_mount_dir_for_node(7, None);
    assert!(s.contains("zoomviewer") && s.contains("node_7"));
}

#[test]
fn test_mock_provider_virtual_reads() {

    let page_length = 64;
    let block_size = 4;
    let total_pages = 16u64;
    let total_size = total_pages * (page_length as u64);

    let meta = FileMetadata {
        path: "mock.bin".to_string(),
        size: total_size,
        page_length,
        block_size,
        total_pages,
        total_blocks: total_pages / (block_size as u64),
        grid_width: 2,
        grid_height: 2,
    };
    let meta_json = format!(
        "{{\"path\":\"mock.bin\",\"size\":{},\"page_length\":{},\"block_size\":{}}}",
        total_size, page_length, block_size
    );
    let meta_json_len = meta_json.len() as u64;

    let dump_attr = file_attr_for_kind(&meta, meta_json_len, InodeKind::DumpBin, INODE_DUMP_BIN).unwrap();
    assert_eq!(dump_attr.size, total_size);

    let page_attr = file_attr_for_kind(&meta, meta_json_len, InodeKind::FlatPage(0), INODE_FLAT_PAGE_BASE).unwrap();
    assert_eq!(page_attr.size, page_length as u64);

    let meta_attr = file_attr_for_kind(&meta, meta_json_len, InodeKind::MetaJson, INODE_META_JSON).unwrap();
    assert!(meta_attr.size > 0);

    // A read of the second flat page asks for exactly that page's bytes.
    match read(&meta, meta_json_len, INODE_FLAT_PAGE_BASE + 1, 0, 4096) {
        ReadReply::Provider { offset, len } => {
            assert_eq!(offset, page_length as u64);
            assert_eq!(len, page_length);
        }
        _ => panic!("a page read is served from the dump"),
    }
}

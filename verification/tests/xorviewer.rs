use nand_flash_viewer::xorviewer::build_xorviewer_url;
use nand_flash_viewer::FileMetadata;

#[test]
fn test_build_xorviewer_url() {
    let meta = FileMetadata::with_grid("dump.bin".to_string(), 100_000, 512, 64, 1, 4);
    let url = build_xorviewer_url(&meta, 2, 5, 128, "/home/analyst");
    assert!(url.is_some());
    let u = url.unwrap();
    assert!(u.contains("http://localhost/cgi-bin/drresearch/xorviewer.pl"));
    assert!(u.contains("pagesize=512"));
    assert!(u.contains("pagesperblock=64"));
    assert!(u.contains("pagestart=133"));
    assert!(u.contains("start=128"));
    assert_eq!(
        u,
        "http://localhost/cgi-bin/drresearch/xorviewer.pl?dump=/home/analyst/dump.bin&pagesize=512&pagesperblock=64&pagestart=133&start=128"
    );
}

#[test]
fn test_build_xorviewer_url_empty_path() {
    let meta = FileMetadata::default();
    assert_eq!(build_xorviewer_url(&meta, 0, 0, 0, "/"), None);
}

#[test]
fn test_build_xorviewer_url_absolute_path_kept() {
    let meta = FileMetadata::with_grid("/data/d.bin".to_string(), 4096, 512, 4, 1, 2);
    let u = build_xorviewer_url(&meta, 1, 1, 0, "/elsewhere/").unwrap();
    assert!(u.contains("dump=/data/d.bin&"));
    assert!(u.contains("pagestart=5&"));
}

use nand_flash_viewer::page_structure_editor::{hex_label, segment_bar_label, size_status, SizeStatus};
use nand_flash_viewer::page_structure_tab::{PageSegment, PageStructureTabState, SegmentKind};

fn editor_state() -> PageStructureTabState {
    let mut s = PageStructureTabState::new();
    s.segments = vec![
        PageSegment::new(SegmentKind::Data, 512),
        PageSegment::new(SegmentKind::Ecc, 0),
        PageSegment::new(SegmentKind::Sa, 16),
    ];
    s
}

#[test]
fn test_size_status_texts() {
    assert_eq!(size_status(2112, 2112), (SizeStatus::Matches, "\u{2714}  Total 2112 B = page size 2112 B".to_string()));
    assert_eq!(
        size_status(2200, 2112),
        (SizeStatus::Over, "\u{26a0}  Total 2200 B > page size 2112 B  (+88)".to_string())
    );
    assert_eq!(
        size_status(2048, 2112),
        (SizeStatus::Under, "\u{26a0}  Total 2048 B < page size 2112 B  (64 missing)".to_string())
    );
    assert_eq!(size_status(528, 0), (SizeStatus::NoTarget, "Total: 528 B  (no workflow active)".to_string()));
}

#[test]
fn test_segment_bounds_and_labels() {
    let s = editor_state();
    assert_eq!(s.segment_bounds(), vec![(0, 511), (512, 512), (512, 527)]);
    assert_eq!(hex_label(527), "0x20F");
    assert_eq!(hex_label(0), "0x0");
    assert_eq!(segment_bar_label(SegmentKind::Sa, 16), "SA\n16 B");
}

#[test]
fn test_target_page_size_edits() {
    let mut s = editor_state();
    s.sync_target_page_size(Some(2112));
    assert_eq!(s.target_page_size, 2112);
    s.sync_target_page_size(Some(0));
    assert_eq!(s.target_page_size, 2112);
    s.sync_target_page_size(None);
    assert_eq!(s.target_page_size, 2112);
    s.apply_target_size_text("4224");
    assert_eq!(s.target_page_size, 4224);
    s.apply_target_size_text("+528");
    assert_eq!(s.target_page_size, 528);
    s.apply_target_size_text("abc");
    assert_eq!(s.target_page_size, 528);
    s.apply_target_size_text("4294967296");
    assert_eq!(s.target_page_size, 528);
}

#[test]
fn test_set_segment_kind_marks_dirty() {
    let mut s = editor_state();
    let _ = s.generate_case_xml();
    assert!(!s.xml_dirty);
    s.set_segment_kind(1, SegmentKind::SaEcc);
    assert_eq!(s.segments[1].kind, SegmentKind::SaEcc);
    assert_eq!(s.segments[1].size, 0);
    assert!(s.xml_dirty);
}

#[test]
fn test_resize_boundary_keeps_one_byte_each() {
    let mut s = editor_state();
    s.segments[1] = PageSegment::new(SegmentKind::Ecc, 100);
    let total = s.total_size();
    s.resize_boundary(0, 10);
    assert_eq!((s.segments[0].size, s.segments[1].size), (522, 90));
    assert_eq!(s.segments[0].size_edit, "522");
    assert_eq!(s.segments[1].size_edit, "90");
    s.resize_boundary(0, 1000);
    assert_eq!((s.segments[0].size, s.segments[1].size), (611, 1));
    s.resize_boundary(0, -5000);
    assert_eq!((s.segments[0].size, s.segments[1].size), (1, 611));
    assert_eq!(s.segments[2].size, 16);
    assert_eq!(s.total_size(), total);
    assert!(s.xml_dirty);
}

#[test]
fn test_layout_bar_tooltips() {
    let s = editor_state();
    assert_eq!(
        s.boundary_tooltip(0),
        ("Drag to resize  \u{2190}  DATA | ECC \u{2192}".to_string(), "512 B  |  0 B".to_string())
    );
    assert_eq!(s.segment_tooltip_at(0), Some("DATA: 0x0..0x1FF  (512 B)".to_string()));
    assert_eq!(s.segment_tooltip_at(512), Some("SA: 0x200..0x20F  (16 B)".to_string()));
    assert_eq!(s.segment_tooltip_at(528), None);
}

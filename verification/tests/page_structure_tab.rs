use nand_flash_viewer::page_structure_tab::{PageSegment, PageStructureTabState, SegmentKind};

fn sample_state() -> PageStructureTabState {
    let mut s = PageStructureTabState::new();
    s.segments = vec![
        PageSegment::new(SegmentKind::Data, 512),
        PageSegment::new(SegmentKind::Ecc, 400),
        PageSegment::new(SegmentKind::Sa, 8),
        PageSegment::new(SegmentKind::SaEcc, 8),
    ];
    s
}

#[test]
fn test_total_size() {
    let s = sample_state();
    assert_eq!(s.total_size(), 512 + 400 + 8 + 8);
}

#[test]
fn test_segment_start() {
    let s = sample_state();
    assert_eq!(s.segment_start(0), 0);
    assert_eq!(s.segment_start(1), 512);
    assert_eq!(s.segment_start(2), 912);
    assert_eq!(s.segment_start(3), 920);
}

#[test]
fn test_to_page_records() {
    let s = sample_state();
    let recs = s.to_page_records();
    assert_eq!(recs.len(), 4);
    assert_eq!(recs[0].name, "DATA");
    assert_eq!(recs[0].start, 0);
    assert_eq!(recs[0].stop, 511);
    assert_eq!(recs[1].name, "ECC");
    assert_eq!(recs[1].start, 512);
    assert_eq!(recs[1].stop, 911);
    assert_eq!(recs[2].name, "SA");
    assert_eq!(recs[2].start, 912);
    assert_eq!(recs[2].stop, 919);
    assert_eq!(recs[3].name, "SA-ECC");
    assert_eq!(recs[3].start, 920);
    assert_eq!(recs[3].stop, 927);
}

#[test]
fn test_generate_case_xml() {
    let mut s = sample_state();
    let xml = s.generate_case_xml().to_string();
    assert!(xml.contains("StructureDefinitionName=\"DATA\""));
    assert!(xml.contains("StartAddress=\"0\""));
    assert!(xml.contains("StopAddress=\"511\""));
    assert!(xml.contains("StructureDefinitionName=\"ECC\""));
    assert!(xml.contains("StartAddress=\"512\""));
    assert!(xml.contains("<Page_size>928</Page_size>"));
}

#[test]
fn test_import_from_case_xml() {
    let xml = r#"<?xml version="1.0"?>
<Project>
  <Records>
    <Record StructureDefinitionName="DATA" StartAddress="0" StopAddress="511" />
    <Record StructureDefinitionName="ECC" StartAddress="512" StopAddress="911" />
    <Record StructureDefinitionName="SA" StartAddress="912" StopAddress="919" />
  </Records>
</Project>"#;
    let mut s = PageStructureTabState::new();
    s.import_from_case_xml(xml);
    assert_eq!(s.segments.len(), 3);
    assert_eq!(s.segments[0].kind, SegmentKind::Data);
    assert_eq!(s.segments[0].size, 512);
    assert_eq!(s.segments[1].kind, SegmentKind::Ecc);
    assert_eq!(s.segments[1].size, 400);
    assert_eq!(s.segments[2].kind, SegmentKind::Sa);
    assert_eq!(s.segments[2].size, 8);
    for seg in &s.segments {
        assert_eq!(seg.size_edit, seg.size.to_string());
    }
    assert_eq!(s.status_msg, "Imported 3 segments.");
    assert!(!s.status_is_error);
}

#[test]
fn test_import_without_records_keeps_segments() {
    let mut s = sample_state();
    s.segments[0].size_edit = "51".to_string();
    s.import_from_case_xml("<Project></Project>");
    assert_eq!(s.segments.len(), 4);
    assert_eq!(s.segments[0].size, 512);
    assert_eq!(s.segments[0].size_edit, "51");
    assert_eq!(s.status_msg, "No valid <Record> entries found in XML.");
    assert!(s.status_is_error);
}

#[test]
fn test_generate_case_xml_follows_direct_edits() {
    let mut s = PageStructureTabState::new();
    s.segments = vec![PageSegment::new(SegmentKind::Data, 512)];
    let _ = s.generate_case_xml();
    s.segments.push(PageSegment::new(SegmentKind::Ecc, 16));
    let xml = s.generate_case_xml().to_string();
    assert!(xml.contains("StructureDefinitionName=\"ECC\" StartAddress=\"512\" StopAddress=\"527\""));
    assert!(xml.contains("<Page_size>528</Page_size>"));
}

#[test]
fn test_xml_roundtrip() {
    let mut s = sample_state();
    let xml = s.generate_case_xml().to_string();
    let mut s2 = PageStructureTabState::new();
    s2.import_from_case_xml(&xml);
    assert_eq!(s2.total_size(), s.total_size());
    assert_eq!(s2.segments.len(), s.segments.len());
    for (a, b) in s.segments.iter().zip(s2.segments.iter()) {
        assert_eq!(a.kind, b.kind);
        assert_eq!(a.size, b.size);
    }
}

use nand_flash_viewer::hex_tab::{parse_case_file, PageSegmentKind};

#[test]
fn test_parse_case_file_records() {
    let xml = r#"<?xml version="1.0"?>
<Project>
  <Records>
    <Record StructureDefinitionName="SA" StartAddress="0" StopAddress="7" />
    <Record StructureDefinitionName="Data area" StartAddress="8" StopAddress="519" />
    <Record StructureDefinitionName="ECC" StartAddress="520" StopAddress="619" />
    <Record StructureDefinitionName="Page" StartAddress="0" StopAddress="1239" />
  </Records>
</Project>
"#;
    let records = parse_case_file(xml);
    assert_eq!(records.len(), 3);

    assert_eq!(records[0].name, "SA");
    assert_eq!(records[0].start, 0);
    assert_eq!(records[0].stop, 7);
    assert_eq!(records[0].kind, PageSegmentKind::SpareArea);

    assert_eq!(records[1].name, "Data area");
    assert_eq!(records[1].start, 8);
    assert_eq!(records[1].stop, 519);
    assert_eq!(records[1].kind, PageSegmentKind::Data);

    assert_eq!(records[2].name, "ECC");
    assert_eq!(records[2].start, 520);
    assert_eq!(records[2].stop, 619);
    assert_eq!(records[2].kind, PageSegmentKind::Ecc);
}

#[test]
fn test_visible_pages_exact_fit_no_overflow() {
    let font_size = 12.0f32;
    let row_h = font_size * 1.3 + 1.5;
    let available_height = 400.0f32;

    let visible_pages = (available_height / row_h).floor() as usize;
    let total_rows_h = (visible_pages as f32) * row_h;

    assert!(total_rows_h <= available_height);
    assert!(visible_pages >= 2);
}

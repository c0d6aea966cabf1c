use nand_flash_viewer::file_dialog::{valid_block_sizes, FileDialog, PromptReply, MAX_PAGE_LENGTH, MIN_PAGE_LENGTH};

#[test]
fn test_valid_block_sizes_constant() {
    assert_eq!(valid_block_sizes(), vec![64, 128, 256, 512, 768, 1024]);
}

#[test]
fn test_page_length_bounds() {
    assert_eq!(MIN_PAGE_LENGTH, 500);
    assert_eq!(MAX_PAGE_LENGTH, 20000);
}

#[test]
fn test_file_dialog_creation() {
    let temp_dir = "/tmp/viewer-cache".to_string();
    let dialog = FileDialog::new(temp_dir.clone());
    assert_eq!(dialog.cache_dir, temp_dir);
}

#[test]
fn test_validate_page_length_valid() {
    let temp_dir = "/tmp/viewer-cache".to_string();
    let dialog = FileDialog::new(temp_dir.clone());

    assert!(dialog.validate_page_length(500));
    assert!(dialog.validate_page_length(2048));
    assert!(dialog.validate_page_length(20000));
}

#[test]
fn test_validate_page_length_invalid() {
    let temp_dir = "/tmp/viewer-cache".to_string();
    let dialog = FileDialog::new(temp_dir.clone());

    assert!(!dialog.validate_page_length(499));
    assert!(!dialog.validate_page_length(20001));
    assert!(!dialog.validate_page_length(0));
}

#[test]
fn test_validate_block_size_valid() {
    let temp_dir = "/tmp/viewer-cache".to_string();
    let dialog = FileDialog::new(temp_dir.clone());

    assert!(dialog.validate_block_size(64));
    assert!(dialog.validate_block_size(128));
    assert!(dialog.validate_block_size(256));
    assert!(dialog.validate_block_size(512));
    assert!(dialog.validate_block_size(1024));
}

#[test]
fn test_validate_block_size_invalid() {
    let temp_dir = "/tmp/viewer-cache".to_string();
    let dialog = FileDialog::new(temp_dir.clone());

    assert!(!dialog.validate_block_size(63));
    assert!(!dialog.validate_block_size(65));
    assert!(!dialog.validate_block_size(100));
    assert!(!dialog.validate_block_size(2048));
}

#[test]
fn test_parameter_input_page_length_validation() {
    let temp_dir = "/tmp/viewer-cache".to_string();
    let dialog = FileDialog::new(temp_dir.clone());

    // Test valid page lengths
    assert!(dialog.validate_page_length(500));
    assert!(dialog.validate_page_length(2048));
    assert!(dialog.validate_page_length(20000));

    // Test invalid page lengths
    assert!(!dialog.validate_page_length(499));
    assert!(!dialog.validate_page_length(20001));
    assert!(!dialog.validate_page_length(0));
}

#[test]
fn test_parameter_input_block_size_validation() {
    let temp_dir = "/tmp/viewer-cache".to_string();
    let dialog = FileDialog::new(temp_dir.clone());

    // Test valid block sizes
    assert!(dialog.validate_block_size(64));
    assert!(dialog.validate_block_size(128));
    assert!(dialog.validate_block_size(256));
    assert!(dialog.validate_block_size(512));
    assert!(dialog.validate_block_size(1024));

    // Test invalid block sizes
    assert!(!dialog.validate_block_size(63));
    assert!(!dialog.validate_block_size(65));
    assert!(!dialog.validate_block_size(100));
    assert!(!dialog.validate_block_size(2048));
}

#[test]
fn test_parameter_validation_page_length_range() {
    let temp_dir = "/tmp/viewer-cache".to_string();
    let dialog = FileDialog::new(temp_dir.clone());

    // Boundary tests
    assert!(dialog.validate_page_length(MIN_PAGE_LENGTH));
    assert!(dialog.validate_page_length(MAX_PAGE_LENGTH));
    assert!(!dialog.validate_page_length(MIN_PAGE_LENGTH - 1));
    assert!(!dialog.validate_page_length(MAX_PAGE_LENGTH + 1));
}

#[test]
fn test_parameter_validation_block_size_values() {
    let temp_dir = "/tmp/viewer-cache".to_string();
    let dialog = FileDialog::new(temp_dir.clone());

    // All valid block sizes
    for &size in valid_block_sizes().iter() {
        assert!(dialog.validate_block_size(size));
    }

    // Invalid block sizes
    let invalid_sizes = [1, 32, 63, 65, 100, 127, 129, 255, 257, 511, 513, 1023, 1025, 2048];
    for &size in &invalid_sizes {
        assert!(!dialog.validate_block_size(size));
    }
}

#[test]
fn test_page_length_prompt_replies() {
    let dialog = FileDialog::new(".cache".to_string());
    assert_eq!(dialog.page_length_reply("  \n"), PromptReply::Accepted(2048));
    assert_eq!(dialog.page_length_reply(" 4096\n"), PromptReply::Accepted(4096));
    assert_eq!(
        dialog.page_length_reply("100"),
        PromptReply::Rejected("Error: Page length must be between 500 and 20000 bytes".to_string())
    );
    assert_eq!(
        dialog.page_length_reply("abc"),
        PromptReply::Rejected("Error: Invalid input. Please enter a number.".to_string())
    );
    assert_eq!(
        dialog.page_length_reply("99999999999"),
        PromptReply::Rejected("Error: Invalid input. Please enter a number.".to_string())
    );
}

#[test]
fn test_block_size_prompt_replies() {
    let dialog = FileDialog::new(".cache".to_string());
    assert_eq!(dialog.block_size_reply(""), PromptReply::Accepted(64));
    assert_eq!(dialog.block_size_reply("768\n"), PromptReply::Accepted(768));
    assert_eq!(
        dialog.block_size_reply("384"),
        PromptReply::Rejected("Error: Block size must be one of: 64, 128, 256, 512, 768, 1024 pages".to_string())
    );
    assert_eq!(
        dialog.block_size_reply("-1"),
        PromptReply::Rejected("Error: Invalid input. Please enter a number.".to_string())
    );
}

use deduplicator::engine::{entry_eligible, WalkedEntry};
use deduplicator::file_filter::{FileFilter, FilterError};

#[test]
fn test_load() {
    let gitignore = vec![
        "desktop.ini".to_string(),
        "Thumbs.db".to_string(),
        ".DS_Store".to_string(),
    ];
    let dut = FileFilter::from_gitignore(&gitignore);
    assert!(dut.is_ok());
    let dut = dut.unwrap();
    assert!(dut.matches(&"desktop.ini".to_string()));
    assert!(dut.matches(&"Thumbs.db".to_string()));
    assert!(dut.matches(&".DS_Store".to_string()));
}

#[test]
fn filter_matches_literal_name_only() {
    let lines = vec!["Thumbs\\.db".to_string()];
    let filter = FileFilter::from_gitignore(&lines).unwrap();
    assert!(filter.matches(&"Thumbs.db".to_string()));
    assert!(!filter.matches(&"thumbsdb.txt".to_string()));
    assert!(!filter.matches(&"ThumbsXdb".to_string()));
}

#[test]
fn filter_skips_comments_and_blank_lines() {
    let lines = vec![
        "# ignore list".to_string(),
        "".to_string(),
        "Thumbs\\.db".to_string(),
        "".to_string(),
    ];
    let filter = FileFilter::from_gitignore(&lines).unwrap();
    assert!(filter.matches(&"Thumbs.db".to_string()));
    // The comment line was skipped, so nothing matches its text.
    assert!(!filter.matches(&"# ignore list".to_string()));
    assert!(!filter.matches(&"notes.txt".to_string()));
}

#[test]
fn filter_rejects_invalid_pattern() {
    let lines = vec!["[".to_string()];
    let r = FileFilter::from_gitignore(&lines);
    match r {
        Err(e) => assert_eq!(e, FilterError::InvalidPattern),
        Ok(_) => panic!("an invalid pattern must be rejected"),
    }
}

#[test]
fn eligibility_excludes_ignored_dirs_and_errors() {
    let lines = vec!["Thumbs\\.db".to_string()];
    let filter = FileFilter::from_gitignore(&lines).unwrap();
    let plain = Some(WalkedEntry {
        file_name: Some("report.txt".to_string()),
        is_dir: false,
    });
    assert!(entry_eligible(&plain, &filter));
    let ignored = Some(WalkedEntry {
        file_name: Some("Thumbs.db".to_string()),
        is_dir: false,
    });
    assert!(!entry_eligible(&ignored, &filter));
    let dir = Some(WalkedEntry {
        file_name: Some("photos".to_string()),
        is_dir: true,
    });
    assert!(!entry_eligible(&dir, &filter));
    let unnamed = Some(WalkedEntry {
        file_name: None,
        is_dir: false,
    });
    assert!(!entry_eligible(&unnamed, &filter));
    assert!(!entry_eligible(&None, &filter));
}

use deduplicator::index::DataSignature;
use deduplicator::report::{decimal_string, render_deletion_line, render_group};

#[test]
fn decimal_renders_exactly() {
    assert_eq!(decimal_string(0), "0");
    assert_eq!(decimal_string(7), "7");
    assert_eq!(decimal_string(10), "10");
    assert_eq!(decimal_string(204), "204");
    assert_eq!(decimal_string(1000000), "1000000");
}

#[test]
fn group_block_has_header_and_member_lines() {
    let rec = DataSignature {
        hash: "ABCD".to_string(),
        files: vec!["/x/1.txt".to_string(), "/y/1.txt".to_string()],
    };
    let lines = render_group(&rec);
    assert_eq!(lines.len(), 3);
    assert_eq!(lines[0], "File signature ABCD discovered 2 times:");
    assert_eq!(lines[1], "\t/x/1.txt");
    assert_eq!(lines[2], "\t/y/1.txt");
}

#[test]
fn deletion_line_is_exact() {
    let line = render_deletion_line(&"ABCD".to_string(), &"/x/1.txt".to_string());
    assert_eq!(line, "Deleted hash ABCD at /x/1.txt");
}

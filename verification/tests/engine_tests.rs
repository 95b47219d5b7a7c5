use deduplicator::engine::{
    decide_delete, merge_pairs, run_delete, DeleteDecision, FileDigest,
};
use deduplicator::hash::md5_digest;
use deduplicator::index::DuplicateIndex;

#[test]
fn duplicate_detection_scenario() {
    // Two files with identical content "hello" and one with "world": exactly
    // one duplicate group must be reported, and "world" is no duplicate.
    let hello = md5_digest(b"hello");
    let world = md5_digest(b"world");
    let pairs = vec![
        FileDigest { path: "/root/a/1.txt".to_string(), digest: hello.clone() },
        FileDigest { path: "/root/b/1.txt".to_string(), digest: hello.clone() },
        FileDigest { path: "/root/c/2.txt".to_string(), digest: world.clone() },
    ];
    let mut idx = DuplicateIndex::new();
    merge_pairs(&mut idx, &pairs);
    let groups = idx.duplicate_groups();
    assert_eq!(groups.len(), 1);
    assert_eq!(groups[0].hash, hello);
    assert_eq!(groups[0].files.len(), 2);
    assert!(groups[0].files.contains(&"/root/a/1.txt".to_string()));
    assert!(groups[0].files.contains(&"/root/b/1.txt".to_string()));
}

#[test]
fn safe_delete_scenario() {
    // Same tree: a full delete run must leave exactly one of the two
    // "hello" copies and must never touch the sole "world" copy.
    let hello = md5_digest(b"hello");
    let world = md5_digest(b"world");
    let pairs = vec![
        FileDigest { path: "/root/a/1.txt".to_string(), digest: hello.clone() },
        FileDigest { path: "/root/b/1.txt".to_string(), digest: hello.clone() },
        FileDigest { path: "/root/c/2.txt".to_string(), digest: world.clone() },
    ];
    let mut idx = DuplicateIndex::new();
    merge_pairs(&mut idx, &pairs);
    let decisions = run_delete(&mut idx, &pairs);
    assert_eq!(decisions.len(), 3);
    let hello_deletions = decisions[0..2]
        .iter()
        .filter(|d| **d == DeleteDecision::Delete)
        .count();
    assert_eq!(hello_deletions, 1);
    assert_eq!(decisions[2], DeleteDecision::Keep);
    assert_eq!(idx.group_len(&hello), 1);
    let a_left = idx.group_contains(&hello, &"/root/a/1.txt".to_string());
    let b_left = idx.group_contains(&hello, &"/root/b/1.txt".to_string());
    assert!(a_left != b_left);
    assert_eq!(idx.group_len(&world), 1);
    assert!(idx.group_contains(&world, &"/root/c/2.txt".to_string()));
}

#[test]
fn incremental_run_scenario() {
    // First run sees two "hello" copies and persists its index; a third
    // copy appears; the second run, loading the persisted records, must
    // report the "hello" group with three members.
    let hello = md5_digest(b"hello");
    let world = md5_digest(b"world");
    let first_scan = vec![
        FileDigest { path: "/root/a/1.txt".to_string(), digest: hello.clone() },
        FileDigest { path: "/root/b/1.txt".to_string(), digest: hello.clone() },
        FileDigest { path: "/root/c/2.txt".to_string(), digest: world.clone() },
    ];
    let mut first = DuplicateIndex::new();
    merge_pairs(&mut first, &first_scan);
    let persisted = first.snapshot();

    let second_scan = vec![
        FileDigest { path: "/root/a/1.txt".to_string(), digest: hello.clone() },
        FileDigest { path: "/root/b/1.txt".to_string(), digest: hello.clone() },
        FileDigest { path: "/root/c/2.txt".to_string(), digest: world.clone() },
        FileDigest { path: "/root/d/1.txt".to_string(), digest: hello.clone() },
    ];
    let mut second = DuplicateIndex::new();
    second.merge_records(&persisted);
    merge_pairs(&mut second, &second_scan);
    let groups = second.duplicate_groups();
    assert_eq!(groups.len(), 1);
    assert_eq!(groups[0].hash, hello);
    assert_eq!(groups[0].files.len(), 3);
    assert!(groups[0].files.contains(&"/root/d/1.txt".to_string()));
}

#[test]
fn merging_a_scan_twice_changes_nothing() {
    let hello = md5_digest(b"hello");
    let world = md5_digest(b"world");
    let pairs = vec![
        FileDigest { path: "/root/a/1.txt".to_string(), digest: hello.clone() },
        FileDigest { path: "/root/b/1.txt".to_string(), digest: hello.clone() },
        FileDigest { path: "/root/c/2.txt".to_string(), digest: world.clone() },
    ];
    let mut once = DuplicateIndex::new();
    merge_pairs(&mut once, &pairs);
    let mut twice = DuplicateIndex::new();
    merge_pairs(&mut twice, &pairs);
    merge_pairs(&mut twice, &pairs);
    assert_eq!(twice.group_len(&hello), once.group_len(&hello));
    assert_eq!(twice.group_len(&world), once.group_len(&world));
    assert_eq!(twice.duplicate_groups().len(), once.duplicate_groups().len());
    assert_eq!(twice.group_len(&hello), 2);
}

#[test]
fn delete_skips_unknown_digest_and_lone_copy() {
    let mut idx = DuplicateIndex::new();
    idx.insert("h1".to_string(), "only".to_string());
    // No group for this digest: nothing to delete against.
    let d = decide_delete(&mut idx, &"h9".to_string(), &"x".to_string());
    assert_eq!(d, DeleteDecision::Keep);
    // The sole member of its group is never removed.
    let d = decide_delete(&mut idx, &"h1".to_string(), &"only".to_string());
    assert_eq!(d, DeleteDecision::Keep);
    assert_eq!(idx.group_len(&"h1".to_string()), 1);
}

#[test]
fn delete_decisions_match_dry_run() {
    // A dry run computes the same decisions as a real run; only the
    // filesystem side effect differs, which the engine never performs.
    let hello = md5_digest(b"hello");
    let pairs = vec![
        FileDigest { path: "/root/a/1.txt".to_string(), digest: hello.clone() },
        FileDigest { path: "/root/b/1.txt".to_string(), digest: hello.clone() },
    ];
    let mut real = DuplicateIndex::new();
    merge_pairs(&mut real, &pairs);
    let real_decisions = run_delete(&mut real, &pairs);
    let mut dry = DuplicateIndex::new();
    merge_pairs(&mut dry, &pairs);
    let dry_decisions = run_delete(&mut dry, &pairs);
    assert_eq!(real_decisions, dry_decisions);
}

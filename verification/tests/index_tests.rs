use deduplicator::index::{DataSignature, DuplicateIndex};

#[test]
fn insert_groups_by_digest() {
    let mut idx = DuplicateIndex::new();
    idx.insert("h1".to_string(), "a".to_string());
    idx.insert("h1".to_string(), "b".to_string());
    idx.insert("h2".to_string(), "c".to_string());
    assert!(idx.contains_digest(&"h1".to_string()));
    assert!(idx.contains_digest(&"h2".to_string()));
    assert!(!idx.contains_digest(&"h3".to_string()));
    assert_eq!(idx.group_len(&"h1".to_string()), 2);
    assert_eq!(idx.group_len(&"h2".to_string()), 1);
    assert_eq!(idx.group_len(&"h3".to_string()), 0);
    assert!(idx.group_contains(&"h1".to_string(), &"a".to_string()));
    assert!(idx.group_contains(&"h1".to_string(), &"b".to_string()));
    assert!(!idx.group_contains(&"h1".to_string(), &"c".to_string()));
}

#[test]
fn insert_is_idempotent() {
    let mut idx = DuplicateIndex::new();
    idx.insert("h1".to_string(), "a".to_string());
    idx.insert("h1".to_string(), "a".to_string());
    idx.insert("h1".to_string(), "a".to_string());
    assert_eq!(idx.group_len(&"h1".to_string()), 1);
}

#[test]
fn remove_path_shrinks_group() {
    let mut idx = DuplicateIndex::new();
    idx.insert("h1".to_string(), "a".to_string());
    idx.insert("h1".to_string(), "b".to_string());
    idx.remove_path(&"h1".to_string(), &"a".to_string());
    assert_eq!(idx.group_len(&"h1".to_string()), 1);
    assert!(!idx.group_contains(&"h1".to_string(), &"a".to_string()));
    assert!(idx.group_contains(&"h1".to_string(), &"b".to_string()));
    // Removing a path the group does not hold changes nothing.
    idx.remove_path(&"h1".to_string(), &"zzz".to_string());
    assert_eq!(idx.group_len(&"h1".to_string()), 1);
}

#[test]
fn merge_records_deduplicates_paths() {
    let mut idx = DuplicateIndex::new();
    let records = vec![DataSignature {
        hash: "h1".to_string(),
        files: vec!["x".to_string(), "x".to_string(), "y".to_string()],
    }];
    idx.merge_records(&records);
    assert_eq!(idx.group_len(&"h1".to_string()), 2);
    assert!(idx.group_contains(&"h1".to_string(), &"x".to_string()));
    assert!(idx.group_contains(&"h1".to_string(), &"y".to_string()));
}

#[test]
fn merge_records_replaces_groups_wholesale() {
    let mut idx = DuplicateIndex::new();
    idx.insert("h1".to_string(), "old".to_string());
    let records = vec![DataSignature {
        hash: "h1".to_string(),
        files: vec!["new".to_string()],
    }];
    idx.merge_records(&records);
    assert_eq!(idx.group_len(&"h1".to_string()), 1);
    assert!(idx.group_contains(&"h1".to_string(), &"new".to_string()));
    assert!(!idx.group_contains(&"h1".to_string(), &"old".to_string()));
}

#[test]
fn snapshot_round_trips_through_records() {
    let mut idx = DuplicateIndex::new();
    idx.insert("h1".to_string(), "a".to_string());
    idx.insert("h1".to_string(), "b".to_string());
    idx.insert("h2".to_string(), "c".to_string());
    let records = idx.snapshot();
    let mut reloaded = DuplicateIndex::new();
    reloaded.merge_records(&records);
    for digest in ["h1", "h2"] {
        assert_eq!(
            reloaded.group_len(&digest.to_string()),
            idx.group_len(&digest.to_string())
        );
    }
    for path in ["a", "b"] {
        assert!(reloaded.group_contains(&"h1".to_string(), &path.to_string()));
    }
    assert!(reloaded.group_contains(&"h2".to_string(), &"c".to_string()));
    assert!(!reloaded.contains_digest(&"h3".to_string()));
}

#[test]
fn duplicate_groups_reports_only_groups_over_one() {
    let mut idx = DuplicateIndex::new();
    idx.insert("h1".to_string(), "a".to_string());
    idx.insert("h1".to_string(), "b".to_string());
    idx.insert("h2".to_string(), "c".to_string());
    let groups = idx.duplicate_groups();
    assert_eq!(groups.len(), 1);
    assert_eq!(groups[0].hash, "h1");
    assert_eq!(groups[0].files.len(), 2);
    assert!(groups[0].files.contains(&"a".to_string()));
    assert!(groups[0].files.contains(&"b".to_string()));
}

use integrity_check::{
    check_files, compare_hash, digest_bytes, init_store, target_files, to_lower_hex, update_hash,
    update_store, DigestEngine, DigestStore, FileRecord, FileStatus, IntegrityError, TargetKind,
};

fn record(path: &str, content: &[u8]) -> FileRecord {
    FileRecord { path: path.to_string(), digest: digest_bytes(content) }
}

#[test]
fn test_file_integrity_check() {
    let file_path = "dir/test.txt".to_string();

    let mut hashes = DigestStore::new();
    let hash = digest_bytes(b"Hello, world!\n");
    hashes.insert(file_path.clone(), hash);
    let current = digest_bytes(b"Hello, world!\n");
    assert!(compare_hash(&file_path, &current, &hashes).unwrap());

    let current = digest_bytes(b"Goodbye, world!\n");
    assert!(!compare_hash(&file_path, &current, &hashes).unwrap());
}

#[test]
fn test_update_hash() {
    let file_path = "dir/test_update.txt".to_string();

    let mut hashes = DigestStore::new();
    let initial_hash = digest_bytes(b"Initial content\n");
    hashes.insert(file_path.clone(), initial_hash);

    let current = digest_bytes(b"Updated content\n");
    assert!(!compare_hash(&file_path, &current, &hashes).unwrap());

    update_hash(&file_path, current.clone(), &mut hashes);
    assert!(compare_hash(&file_path, &current, &hashes).unwrap());
}

#[test]
fn test_store_and_load_hashes() {
    let file_path = "dir/test_store_load.txt".to_string();

    let hash = digest_bytes(b"Some content\n");
    let mut hashes = DigestStore::new();
    hashes.insert(file_path.clone(), hash.clone());
    let saved = hashes.rows();
    assert_eq!(saved.len(), 1);

    let loaded = DigestStore::from_rows(&saved);
    assert_eq!(loaded.get(&file_path).unwrap(), &hash);
}

#[test]
fn test_load_empty_database() {
    let hashes = DigestStore::from_rows(&Vec::new());
    assert!(hashes.is_empty());
}

#[test]
fn test_store_multiple_hashes_and_load() {
    let file_a = "dir/a.txt".to_string();
    let file_b = "dir/b.txt".to_string();

    let mut hashes = DigestStore::new();
    hashes.insert(file_a.clone(), digest_bytes(b"file a"));
    hashes.insert(file_b.clone(), digest_bytes(b"file b"));
    let saved = hashes.rows();

    let loaded = DigestStore::from_rows(&saved);
    assert_eq!(loaded.len(), 2);
    assert_eq!(loaded.get(&file_a), hashes.get(&file_a));
    assert_eq!(loaded.get(&file_b), hashes.get(&file_b));
}

#[test]
fn digest_of_empty_content() {
    assert_eq!(
        digest_bytes(b""),
        "e3b0c44298fc1c149afbf4c8996fb92427ae41e4649b934ca495991b7852b855"
    );
}

#[test]
fn digest_of_abc() {
    assert_eq!(
        digest_bytes(b"abc"),
        "ba7816bf8f01cfea414140de5dae2223b00361a396177a9cb410ff61f20015ad"
    );
}

#[test]
fn digest_is_64_lowercase_hex_digits() {
    let d = digest_bytes(b"Hello, world!\n");
    assert_eq!(d.len(), 64);
    assert!(d.chars().all(|c| c.is_ascii_digit() || ('a'..='f').contains(&c)));
}

#[test]
fn streamed_digest_equals_whole_digest() {
    let content = b"one chunk, then another, then a last one".to_vec();
    let mut engine = DigestEngine::new();
    engine.absorb(&content[..3]);
    engine.absorb(&content[3..20]);
    engine.absorb(&[]);
    engine.absorb(&content[20..]);
    assert_eq!(engine.finish(), digest_bytes(&content));
}

#[test]
fn identical_content_under_other_names_has_same_digest() {
    let a = record("x/first.log", b"same bytes");
    let b = record("y/z/second.log", b"same bytes");
    assert_eq!(a.digest, b.digest);
}

#[test]
fn changing_one_byte_changes_digest() {
    let original = b"file a".to_vec();
    for i in 0..original.len() {
        let mut changed = original.clone();
        changed[i] ^= 1;
        assert_ne!(digest_bytes(&changed), digest_bytes(&original));
    }
}

#[test]
fn lower_hex_rendering() {
    assert_eq!(to_lower_hex(&[10, 20, 30]), "0a141e");
    assert_eq!(to_lower_hex(&[255, 0, 171]), "ff00ab");
    assert_eq!(to_lower_hex(&[]), "");
}

#[test]
fn compare_without_stored_digest_is_missing() {
    let hashes = DigestStore::new();
    let path = "dir/unknown.txt".to_string();
    let current = digest_bytes(b"x");
    assert_eq!(compare_hash(&path, &current, &hashes), Err(IntegrityError::MissingDigest));
}

#[test]
fn insert_replaces_rather_than_duplicates() {
    let path = "dir/a.txt".to_string();
    let mut hashes = DigestStore::new();
    hashes.insert(path.clone(), digest_bytes(b"v1"));
    hashes.insert(path.clone(), digest_bytes(b"v2"));
    assert_eq!(hashes.len(), 1);
    assert_eq!(hashes.get(&path).unwrap(), &digest_bytes(b"v2"));
    assert_eq!(hashes.rows().len(), 1);
}

#[test]
fn later_rows_shadow_earlier_on_load() {
    let rows = vec![record("a.txt", b"old"), record("b.txt", b"b"), record("a.txt", b"new")];
    let loaded = DigestStore::from_rows(&rows);
    assert_eq!(loaded.len(), 2);
    assert_eq!(loaded.get(&"a.txt".to_string()).unwrap(), &digest_bytes(b"new"));
}

#[test]
fn round_trip_keeps_every_entry() {
    let mut hashes = DigestStore::new();
    for (i, name) in ["a", "b", "c", "d"].iter().enumerate() {
        hashes.insert(name.to_string(), digest_bytes(&[i as u8]));
    }
    let loaded = DigestStore::from_rows(&hashes.rows());
    assert_eq!(loaded.len(), 4);
    for name in ["a", "b", "c", "d"] {
        let key = name.to_string();
        assert_eq!(loaded.get(&key), hashes.get(&key));
    }
}

#[test]
fn init_replaces_previous_state() {
    let store = init_store(&vec![record("d/a.txt", b"a"), record("d/b.txt", b"b")]);
    assert_eq!(store.len(), 2);
    let store = init_store(&vec![record("d/c.txt", b"c")]);
    assert_eq!(store.len(), 1);
    assert!(store.get(&"d/a.txt".to_string()).is_none());
}

#[test]
fn update_twice_with_same_content_is_idempotent() {
    let mut store = init_store(&vec![record("d/a.txt", b"a")]);
    let observed = vec![record("d/a.txt", b"a2"), record("d/b.txt", b"b")];
    update_store(&mut store, &observed);
    let first = store.rows();
    update_store(&mut store, &observed);
    assert_eq!(store.len(), 2);
    for r in first.iter() {
        assert_eq!(store.get(&r.path).unwrap(), &r.digest);
    }
}

#[test]
fn check_after_init_reports_unchanged() {
    let observed = vec![record("d/a.txt", b"a"), record("d/b.txt", b"b"), record("d/c.txt", b"c")];
    let store = init_store(&observed);
    let report = check_files(&store, &observed);
    assert_eq!(report, vec![FileStatus::Unchanged; 3]);
}

#[test]
fn check_after_modifying_one_file() {
    let observed = vec![record("d/a.txt", b"a"), record("d/b.txt", b"b"), record("d/c.txt", b"c")];
    let store = init_store(&observed);
    let now = vec![record("d/a.txt", b"a"), record("d/b.txt", b"b changed"), record("d/c.txt", b"c")];
    let report = check_files(&store, &now);
    assert_eq!(
        report,
        vec![FileStatus::Unchanged, FileStatus::Modified, FileStatus::Unchanged]
    );
}

#[test]
fn check_reports_untracked_without_stopping() {
    let store = init_store(&vec![record("d/a.txt", b"a"), record("d/c.txt", b"c")]);
    let now = vec![record("d/a.txt", b"a"), record("d/new.txt", b"n"), record("d/c.txt", b"c2")];
    let report = check_files(&store, &now);
    assert_eq!(
        report,
        vec![FileStatus::Unchanged, FileStatus::Untracked, FileStatus::Modified]
    );
}

#[test]
fn check_against_empty_store_is_all_untracked() {
    let store = DigestStore::from_rows(&Vec::new());
    let report = check_files(&store, &vec![record("a", b"a"), record("b", b"b")]);
    assert_eq!(report, vec![FileStatus::Untracked; 2]);
}

#[test]
fn update_after_rewrite_then_check() {
    let mut store = DigestStore::new();
    update_store(&mut store, &vec![record("a.txt", b"file a")]);
    let rewritten = vec![record("a.txt", b"file a changed")];
    assert_eq!(check_files(&store, &rewritten), vec![FileStatus::Modified]);
    update_store(&mut store, &rewritten);
    assert_eq!(check_files(&store, &rewritten), vec![FileStatus::Unchanged]);
}

#[test]
fn update_keeps_unrelated_paths() {
    let mut store = init_store(&vec![record("x.txt", b"x")]);
    update_store(&mut store, &vec![record("y.txt", b"y")]);
    assert_eq!(store.len(), 2);
    assert_eq!(store.get(&"x.txt".to_string()).unwrap(), &digest_bytes(b"x"));
}

#[test]
fn targets_of_file_directory_and_other() {
    let entries = vec!["d/a".to_string(), "d/b".to_string()];
    assert_eq!(
        target_files(TargetKind::File, "f.txt".to_string(), Vec::new()),
        Ok(vec!["f.txt".to_string()])
    );
    assert_eq!(
        target_files(TargetKind::Directory, "d".to_string(), entries.clone()),
        Ok(entries)
    );
    assert_eq!(
        target_files(TargetKind::Other, "p".to_string(), Vec::new()),
        Err(IntegrityError::InvalidTarget)
    );
}

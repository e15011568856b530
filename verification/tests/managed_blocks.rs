use shellcomp::managed_block::{migrate_blocks, remove, remove_all, upsert, ManagedBlock};
use shellcomp::{Content, Disk, Error, FileChange, FilePath, Node, Platform};

fn p(text: &str) -> FilePath {
    FilePath::from_text(text)
}

fn make_dir(disk: &mut Disk, path: &FilePath) {
    let mut dir = Some(path.clone());
    while let Some(path) = dir {
        if !disk.is_there(&path) {
            disk.record(&path, Some(Node { link: None, readonly: false, mode: None, content: Content::Directory }));
        }
        dir = path.parent();
    }
}

fn temp_dir(disk: &mut Disk, label: &str) -> FilePath {
    let root = p("/temp").join(label);
    make_dir(disk, &root);
    root
}

fn write(disk: &mut Disk, path: &FilePath, contents: impl AsRef<[u8]>) {
    if let Some(parent) = path.parent() {
        make_dir(disk, &parent);
    }
    let content = Content::File(contents.as_ref().to_vec());
    disk.record(path, Some(Node { link: None, readonly: false, mode: None, content }));
}

fn read(disk: &Disk, path: &FilePath) -> String {
    String::from_utf8(disk.read(path).expect("file should be readable")).expect("text")
}

fn link(disk: &mut Disk, target: &FilePath, path: &FilePath) {
    let content = match disk.node(target) {
        Some(node) => node.content.clone(),
        None => Content::Dangling,
    };
    disk.record(path, Some(Node { link: Some(target.clone()), readonly: false, mode: None, content }));
}

fn block(name: &str) -> ManagedBlock {
    ManagedBlock {
        start_marker: format!("# start {name}"),
        end_marker: format!("# end {name}"),
        body: format!("echo {name}"),
    }
}

#[test]
fn upsert_is_idempotent() {
    let mut disk = Disk::new();
    let temp_root = temp_dir(&mut disk, "managed-block-upsert");
    let profile = temp_root.join(".shellrc");
    let block = ManagedBlock {
        start_marker: "# >>> shellcomp bash tool >>>".to_owned(),
        end_marker: "# <<< shellcomp bash tool <<<".to_owned(),
        body: "source '/tmp/tool'".to_owned(),
    };
    let first = upsert(Platform::Unix, &mut disk, &profile, &block).expect("first upsert should succeed");
    let second = upsert(Platform::Unix, &mut disk, &profile, &block).expect("second upsert should succeed");
    assert_eq!(first, FileChange::Created);
    assert_eq!(second, FileChange::Unchanged);
}

#[test]
fn remove_deletes_all_duplicate_blocks() {
    let mut disk = Disk::new();
    let temp_root = temp_dir(&mut disk, "managed-block-remove");
    let profile = temp_root.join(".shellrc");
    let block = ManagedBlock {
        start_marker: "# >>> shellcomp bash tool >>>".to_owned(),
        end_marker: "# <<< shellcomp bash tool <<<".to_owned(),
        body: "source '/tmp/tool'".to_owned(),
    };
    let duplicate = format!(
        "{}{}\n{}\n{}\n{}\n",
        block.render(),
        "echo keep",
        block.start_marker,
        block.body,
        block.end_marker
    );
    write(&mut disk, &profile, duplicate);
    let change = remove(Platform::Unix, &mut disk, &profile, &block).expect("remove should succeed");
    assert_eq!(change, FileChange::Removed);
    let remaining = read(&disk, &profile);
    assert!(!remaining.contains(&block.start_marker));
    assert!(!remaining.contains(&block.end_marker));
    assert!(remaining.contains("echo keep"));
}

#[test]
fn upsert_replaces_stale_managed_block_body() {
    let mut disk = Disk::new();
    let temp_root = temp_dir(&mut disk, "managed-block-update");
    let profile = temp_root.join(".shellrc");
    let stale = ManagedBlock {
        start_marker: "# >>> shellcomp bash tool >>>".to_owned(),
        end_marker: "# <<< shellcomp bash tool <<<".to_owned(),
        body: "source '/tmp/old-tool'".to_owned(),
    };
    let fresh = ManagedBlock {
        start_marker: stale.start_marker.clone(),
        end_marker: stale.end_marker.clone(),
        body: "source '/tmp/new-tool'".to_owned(),
    };
    upsert(Platform::Unix, &mut disk, &profile, &stale).expect("stale block should be written");
    let change = upsert(Platform::Unix, &mut disk, &profile, &fresh).expect("fresh block should be written");
    assert_eq!(change, FileChange::Updated);
    let rendered = read(&disk, &profile);
    assert!(rendered.contains("/tmp/new-tool"));
    assert!(!rendered.contains("/tmp/old-tool"));
}

#[test]
fn upsert_preserves_existing_block_position() {
    let mut disk = Disk::new();
    let temp_root = temp_dir(&mut disk, "managed-block-position");
    let profile = temp_root.join(".shellrc");
    let stale = ManagedBlock {
        start_marker: "# >>> shellcomp bash tool >>>".to_owned(),
        end_marker: "# <<< shellcomp bash tool <<<".to_owned(),
        body: "source '/tmp/old-tool'".to_owned(),
    };
    let fresh = ManagedBlock {
        start_marker: stale.start_marker.clone(),
        end_marker: stale.end_marker.clone(),
        body: "source '/tmp/new-tool'".to_owned(),
    };
    let contents = format!("export A=1\n{}\necho tail\n", stale.render());
    write(&mut disk, &profile, contents);
    upsert(Platform::Unix, &mut disk, &profile, &fresh).expect("upsert should succeed");
    let rendered = read(&disk, &profile);
    assert!(rendered.starts_with("export A=1\n# >>> shellcomp bash tool >>>"));
    assert!(rendered.contains("echo tail"));
}

#[test]
fn matches_rejects_stale_block_body() {
    let mut disk = Disk::new();
    let temp_root = temp_dir(&mut disk, "managed-block-matches");
    let profile = temp_root.join(".shellrc");
    let stale = ManagedBlock {
        start_marker: "# >>> shellcomp bash tool >>>".to_owned(),
        end_marker: "# <<< shellcomp bash tool <<<".to_owned(),
        body: "source '/tmp/old-tool'".to_owned(),
    };
    let fresh = ManagedBlock {
        start_marker: stale.start_marker.clone(),
        end_marker: stale.end_marker.clone(),
        body: "source '/tmp/new-tool'".to_owned(),
    };
    upsert(Platform::Unix, &mut disk, &profile, &stale).expect("stale block should be written");
    assert!(!shellcomp::managed_block::matches(Platform::Unix, &disk, &profile, &fresh).expect("match check should succeed"));
    assert!(shellcomp::managed_block::matches(Platform::Unix, &disk, &profile, &stale).expect("match check should succeed"));
}

#[test]
fn matches_reports_missing_end_marker() {
    let mut disk = Disk::new();
    let temp_root = temp_dir(&mut disk, "managed-block-matches-corrupt");
    let profile = temp_root.join(".shellrc");
    let block = ManagedBlock {
        start_marker: "# >>> shellcomp bash tool >>>".to_owned(),
        end_marker: "# <<< shellcomp bash tool <<<".to_owned(),
        body: "source '/tmp/tool'".to_owned(),
    };
    write(&mut disk, &profile, "# >>> shellcomp bash tool >>>\nsource '/tmp/tool'\n");
    let error = shellcomp::managed_block::matches(Platform::Unix, &disk, &profile, &block).expect_err("matches should fail");
    assert!(matches!(error, Error::ManagedBlockMissingEnd { .. }));
}

#[test]
fn matches_reports_missing_end_marker_even_when_a_valid_duplicate_exists() {
    let mut disk = Disk::new();
    let temp_root = temp_dir(&mut disk, "managed-block-matches-corrupt-duplicate");
    let profile = temp_root.join(".shellrc");
    let block = ManagedBlock {
        start_marker: "# >>> shellcomp bash tool >>>".to_owned(),
        end_marker: "# <<< shellcomp bash tool <<<".to_owned(),
        body: "source '/tmp/tool'".to_owned(),
    };
    write(
        &mut disk,
        &profile,
        format!(
            "{}# >>> shellcomp bash tool >>>\nsource '/tmp/other'\n",
            block.render()
        ),
    );
    let error = shellcomp::managed_block::matches(Platform::Unix, &disk, &profile, &block).expect_err("matches should fail");
    assert!(matches!(error, Error::ManagedBlockMissingEnd { .. }));
}

#[test]
fn matches_rejects_stale_duplicate_even_when_a_valid_block_exists() {
    let mut disk = Disk::new();
    let temp_root = temp_dir(&mut disk, "managed-block-matches-stale-duplicate");
    let profile = temp_root.join(".shellrc");
    let expected = ManagedBlock {
        start_marker: "# >>> shellcomp bash tool >>>".to_owned(),
        end_marker: "# <<< shellcomp bash tool <<<".to_owned(),
        body: "source '/tmp/tool'".to_owned(),
    };
    let stale = ManagedBlock {
        start_marker: expected.start_marker.clone(),
        end_marker: expected.end_marker.clone(),
        body: "source '/tmp/old-tool'".to_owned(),
    };
    write(&mut disk, &profile, format!("{}{}", expected.render(), stale.render()));
    assert!(!shellcomp::managed_block::matches(Platform::Unix, &disk, &profile, &expected).expect("match check should succeed"));
}

#[test]
fn matches_rejects_duplicate_matching_blocks() {
    let mut disk = Disk::new();
    let temp_root = temp_dir(&mut disk, "managed-block-matches-duplicate");
    let profile = temp_root.join(".shellrc");
    let block = ManagedBlock {
        start_marker: "# >>> shellcomp bash tool >>>".to_owned(),
        end_marker: "# <<< shellcomp bash tool <<<".to_owned(),
        body: "source '/tmp/tool'".to_owned(),
    };
    write(&mut disk, &profile, format!("{}{}", block.render(), block.render()));
    assert!(!shellcomp::managed_block::matches(Platform::Unix, &disk, &profile, &block).expect("match check should succeed"));
}

#[test]
fn remove_all_is_atomic_when_later_block_is_malformed() {
    let mut disk = Disk::new();
    let temp_root = temp_dir(&mut disk, "managed-block-remove-all-atomic");
    let profile = temp_root.join(".shellrc");
    let first = ManagedBlock {
        start_marker: "# >>> legacy one >>>".to_owned(),
        end_marker: "# <<< legacy one <<<".to_owned(),
        body: "source '/tmp/one'".to_owned(),
    };
    let second = ManagedBlock {
        start_marker: "# >>> legacy two >>>".to_owned(),
        end_marker: "# <<< legacy two <<<".to_owned(),
        body: "source '/tmp/two'".to_owned(),
    };
    write(
        &mut disk,
        &profile,
        format!(
            "{}{}{}\n{}\n",
            first.render(),
            second.start_marker,
            "\nsource '/tmp/two'\n",
            "echo keep"
        ),
    );
    let error = remove_all(Platform::Unix, &mut disk, &profile, &[first.clone(), second.clone()])
        .expect_err("remove_all should fail");
    assert!(matches!(error, Error::ManagedBlockMissingEnd { .. }));
    let rendered = read(&disk, &profile);
    assert!(rendered.contains(&first.start_marker));
    assert!(rendered.contains(&second.start_marker));
    assert!(rendered.contains("echo keep"));
}

#[test]
fn migrate_blocks_is_atomic_when_managed_block_is_malformed() {
    let mut disk = Disk::new();
    let temp_root = temp_dir(&mut disk, "managed-block-migrate-atomic");
    let profile = temp_root.join(".shellrc");
    let legacy = ManagedBlock {
        start_marker: "# >>> legacy >>>".to_owned(),
        end_marker: "# <<< legacy <<<".to_owned(),
        body: "source '/tmp/legacy'".to_owned(),
    };
    let managed = ManagedBlock {
        start_marker: "# >>> shellcomp bash tool >>>".to_owned(),
        end_marker: "# <<< shellcomp bash tool <<<".to_owned(),
        body: "source '/tmp/tool'".to_owned(),
    };
    write(
        &mut disk,
        &profile,
        format!(
            "{}# >>> shellcomp bash tool >>>\nsource '/tmp/bad'\n",
            legacy.render()
        ),
    );
    let error = migrate_blocks(
        Platform::Unix,
        &mut disk,
        &profile,
        std::slice::from_ref(&legacy),
        &managed,
    )
        .expect_err("migration should fail");
    assert!(matches!(error, Error::ManagedBlockMissingEnd { .. }));
    let rendered = read(&disk, &profile);
    assert!(rendered.contains(&legacy.start_marker));
    assert!(rendered.contains("source '/tmp/bad'"));
    assert!(!rendered.contains("source '/tmp/tool'"));
}

#[test]
fn migrate_blocks_reports_created_when_shellcomp_block_is_added_to_existing_profile() {
    let mut disk = Disk::new();
    let temp_root = temp_dir(&mut disk, "managed-block-migrate-created");
    let profile = temp_root.join(".shellrc");
    let legacy = ManagedBlock {
        start_marker: "# >>> legacy >>>".to_owned(),
        end_marker: "# <<< legacy <<<".to_owned(),
        body: "source '/tmp/legacy'".to_owned(),
    };
    let managed = ManagedBlock {
        start_marker: "# >>> shellcomp bash tool >>>".to_owned(),
        end_marker: "# <<< shellcomp bash tool <<<".to_owned(),
        body: "source '/tmp/tool'".to_owned(),
    };
    write(&mut disk, &profile, legacy.render());
    let (legacy_change, managed_change) =
        migrate_blocks(Platform::Unix, &mut disk, &profile, std::slice::from_ref(&legacy), &managed)
            .expect("migration should succeed");
    assert_eq!(legacy_change, FileChange::Removed);
    assert_eq!(managed_change, FileChange::Created);
}

#[test]
fn preserves_marker_substrings_and_all_unmanaged_bytes() {
    let mut disk = Disk::new();
    let root = temp_dir(&mut disk, "marker-substrings");
    let path = root.join("rc");
    let block = block("tool");
    let before = "echo '# start tool'\necho '# end tool'\n\n";
    let after = "\n\necho keep  \r\n\r\n";
    write(&mut disk, &path, format!("{before}{}{after}", block.render()));
    assert!(shellcomp::managed_block::matches(Platform::Unix, &disk, &path, &block).unwrap());
    assert_eq!(remove(Platform::Unix, &mut disk, &path, &block).unwrap(), FileChange::Removed);
    assert_eq!(
        read(&disk, &path),
        format!("{before}{after}")
    );
    assert_eq!(remove(Platform::Unix, &mut disk, &path, &block).unwrap(), FileChange::Absent);
}

#[test]
fn crlf_profiles_match_and_remain_idempotent() {
    let mut disk = Disk::new();
    let root = temp_dir(&mut disk, "marker-crlf");
    let path = root.join("rc");
    let block = block("tool");
    let original = format!(
        "echo before\r\n{}\r\necho after\r\n",
        block.render().replace('\n', "\r\n")
    );
    write(&mut disk, &path, &original);
    assert!(shellcomp::managed_block::matches(Platform::Unix, &disk, &path, &block).unwrap());
    assert_eq!(upsert(Platform::Unix, &mut disk, &path, &block).unwrap(), FileChange::Unchanged);
    assert_eq!(read(&disk, &path), original);
}

#[test]
fn malformed_markers_fail_without_changing_the_profile() {
    let mut disk = Disk::new();
    let root = temp_dir(&mut disk, "marker-invalid");
    let path = root.join("rc");
    for (start, end) in [
        ("", ""),
        (" ", "end"),
        ("start\nnext", "end"),
        ("same", "same"),
    ] {
        write(&mut disk, &path, "echo keep\n");
        let legacy = ManagedBlock {
            start_marker: start.into(),
            end_marker: end.into(),
            body: String::new(),
        };
        assert!(migrate_blocks(Platform::Unix, &mut disk, &path, &[legacy], &block("tool")).is_err());
        assert_eq!(read(&disk, &path), "echo keep\n");
    }
}

#[test]
fn nested_overlapping_and_orphan_markers_fail_without_writing() {
    let mut disk = Disk::new();
    let root = temp_dir(&mut disk, "marker-overlap");
    let path = root.join("rc");
    let blocks = [block("one"), block("two")];
    for contents in [
        "# start one\n# start one\n# end one\n# end one\n",
        "# start one\n# start two\n# end one\n# end two\n",
        "# start one\n# start two\n# end two\n# end one\n",
        "# end one\n",
    ] {
        write(&mut disk, &path, contents);
        assert!(remove_all(Platform::Unix, &mut disk, &path, &blocks).is_err());
        assert_eq!(read(&disk, &path), contents);
    }
}

#[test]
fn concurrent_programs_keep_every_profile_block() {
    let mut disk = Disk::new();
    let root = temp_dir(&mut disk, "marker-concurrency");
    let path = root.join("rc");
    write(&mut disk, &path, "echo keep\n");
    for index in 0..24 {
        upsert(Platform::Unix, &mut disk, &path, &block(&format!("tool{index}"))).unwrap();
    }
    for index in 0..24 {
        assert!(shellcomp::managed_block::matches(Platform::Unix, &disk, &path, &block(&format!("tool{index}"))).unwrap());
    }
}

#[test]
fn refuses_symlink_profiles_without_modifying_their_destination() {
    let mut disk = Disk::new();
    let root = temp_dir(&mut disk, "marker-symlink");
    let target = root.join("target");
    let profile = root.join("rc");
    write(&mut disk, &target, "echo keep\n");
    link(&mut disk, &target, &profile);
    assert!(upsert(Platform::Unix, &mut disk, &profile, &block("tool")).is_err());
    assert_eq!(read(&disk, &target), "echo keep\n");
    assert!(disk.node(&profile).unwrap().link.is_some());
}

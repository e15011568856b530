use shellcomp::service::migrate::execute;
use shellcomp::{
    Content, Disk, Environment, Error, FailureKind, FailureReport, FileChange, FilePath,
    LegacyManagedBlock, MigrateManagedBlocksRequest, Node, Operation, Platform, Shell,
};

fn p(text: &str) -> FilePath {
    FilePath::from_text(text)
}

fn make_dir(disk: &mut Disk, path: &FilePath) {
    let mut dir = Some(path.clone());
    while let Some(path) = dir {
        if !disk.is_there(&path) {
            disk.record(&path, Some(Node { link: None, readonly: false, mode: None, content: Content::Directory }));
        }
        dir = path.parent();
    }
}

fn temp_dir(disk: &mut Disk, label: &str) -> FilePath {
    let root = p("/temp").join(label);
    make_dir(disk, &root);
    root
}

fn write(disk: &mut Disk, path: &FilePath, contents: impl AsRef<[u8]>) {
    if let Some(parent) = path.parent() {
        make_dir(disk, &parent);
    }
    let content = Content::File(contents.as_ref().to_vec());
    disk.record(path, Some(Node { link: None, readonly: false, mode: None, content }));
}

fn read(disk: &Disk, path: &FilePath) -> String {
    String::from_utf8(disk.read(path).expect("file should be readable")).expect("text")
}

fn link(disk: &mut Disk, target: &FilePath, path: &FilePath) {
    let content = match disk.node(target) {
        Some(node) => node.content.clone(),
        None => Content::Dangling,
    };
    disk.record(path, Some(Node { link: Some(target.clone()), readonly: false, mode: None, content }));
}

fn has_name(path: &FilePath, name: &str) -> bool {
    path.file_name() == Some(name.as_bytes().to_vec())
}

fn raw(bytes: &[u8]) -> FilePath {
    FilePath { bytes: bytes.to_vec() }
}

fn assert_structural_failure(error: Error, operation: &str) -> FailureReport {
    match error {
        Error::Failure { report, .. } => *report,
        other => panic!("{operation}: expected a structured failure, got {other:?}"),
    }
}

#[test]
fn migrate_rewrites_legacy_bash_block() {
    let mut disk = Disk::new();
    let temp_root = temp_dir(&mut disk, "migrate-bash-legacy");
    let home = temp_root.join("home");
    let env = Environment::new(Platform::Unix)
        .with_var("HOME", &home)
        .without_var("XDG_DATA_HOME");
    make_dir(&mut disk, &home);
    write(
        &mut disk,
        &home.join(".bashrc"),
        "# >>> legacy bash >>>\n. '/tmp/tool'\n# <<< legacy bash <<<\n",
    );
    let report = execute(
        &env,
        &mut disk,
        MigrateManagedBlocksRequest {
            shell: Shell::Bash,
            program_name: "tool",
            path_override: None,
            legacy_blocks: vec![LegacyManagedBlock {
                start_marker: "# >>> legacy bash >>>".to_owned(),
                end_marker: "# <<< legacy bash <<<".to_owned(),
            }],
        },
        7,
    ).unwrap();
    assert_eq!(report.legacy_change, FileChange::Removed);
    assert_eq!(report.managed_change, FileChange::Created);
    assert!(matches!(
        &report.location,
        Some(path) if has_name(path, ".bashrc")
    ));
    let bashrc =
        read(&disk, &home.join(".bashrc"));
    assert!(bashrc.contains("shellcomp bash tool"));
    assert!(!bashrc.contains("legacy bash"));
}

#[test]
fn migrate_returns_noop_for_fish() {
    let mut disk = Disk::new();
    let temp_root = temp_dir(&mut disk, "migrate-fish-noop");
    let home = temp_root.join("home");
    let env = Environment::new(Platform::Unix)
        .with_var("HOME", &home)
        .without_var("XDG_CONFIG_HOME");
    let report = execute(
        &env,
        &mut disk,
        MigrateManagedBlocksRequest {
            shell: Shell::Fish,
            program_name: "tool",
            path_override: None,
            legacy_blocks: vec![LegacyManagedBlock {
                start_marker: "# >>> legacy fish >>>".to_owned(),
                end_marker: "# <<< legacy fish <<<".to_owned(),
            }],
        },
        7,
    ).unwrap();
    assert_eq!(report.legacy_change, FileChange::Absent);
    assert_eq!(report.managed_change, FileChange::Absent);
    assert!(report.location.is_none());
}

#[test]
fn migrate_returns_structured_failure_for_invalid_path() {
    let mut disk = Disk::new();
    let error = execute(
        &Environment::new(Platform::Unix),
        &mut disk,
        MigrateManagedBlocksRequest {
            shell: Shell::Bash,
            program_name: "tool",
            path_override: Some(p("/")),
            legacy_blocks: Vec::new(),
        },
        7,
    )
    .expect_err("migration should fail");
    let report = assert_structural_failure(error, "migrate");
    assert_eq!(report.operation, Operation::MigrateManagedBlocks);
    assert_eq!(report.kind, FailureKind::InvalidTargetPath);
}

#[test]
fn migrate_rejects_relative_target_path_override() {
    let mut disk = Disk::new();
    let target = p("custom.tool");
    let error = execute(
        &Environment::new(Platform::Unix),
        &mut disk,
        MigrateManagedBlocksRequest {
            shell: Shell::Bash,
            program_name: "tool",
            path_override: Some(target.clone()),
            legacy_blocks: Vec::new(),
        },
        7,
    )
    .expect_err("migrate should reject relative target");
    let report = assert_structural_failure(error, "migrate");
    assert_eq!(report.operation, Operation::MigrateManagedBlocks);
    assert_eq!(report.kind, FailureKind::InvalidTargetPath);
    assert_eq!(report.target_path, Some(target));
}

#[test]
fn migrate_rejects_relative_default_target_path_from_environment() {
    let mut disk = Disk::new();
    let env = Environment::new(Platform::Unix)
        .with_var("HOME", &p("relative-home"))
        .with_var("XDG_DATA_HOME", &p("relative-cache"));
    let error = execute(
        &env,
        &mut disk,
        MigrateManagedBlocksRequest {
            shell: Shell::Bash,
            program_name: "tool",
            path_override: None,
            legacy_blocks: Vec::new(),
        },
        7,
    )
    .expect_err("migrate should fail with invalid default path");
    let report = assert_structural_failure(error, "migrate");
    assert_eq!(report.kind, FailureKind::DefaultPathUnavailable);
    assert!(report.reason.contains("managed default completion path"));
}

#[test]
fn migrate_rejects_symlink_path_segments_in_target_override() {
    let mut disk = Disk::new();
    let temp_root = temp_dir(&mut disk, "migrate-symlink-path");
    let real_dir = temp_root.join("real");
    let link_dir = temp_root.join("link");
    let target = link_dir.join("tool.bash");
    make_dir(&mut disk, &real_dir);
    link(&mut disk, &real_dir, &link_dir);
    let error = execute(
        &Environment::new(Platform::Unix),
        &mut disk,
        MigrateManagedBlocksRequest {
            shell: Shell::Bash,
            program_name: "tool",
            path_override: Some(target.clone()),
            legacy_blocks: Vec::new(),
        },
        7,
    )
    .expect_err("migrate should reject symlink path");
    let report = assert_structural_failure(error, "migrate");
    assert_eq!(report.operation, Operation::MigrateManagedBlocks);
    assert_eq!(report.kind, FailureKind::InvalidTargetPath);
    assert_eq!(report.target_path, Some(target));
}

#[test]
fn migrate_rejects_non_autoloadable_zsh_target_without_rewriting_legacy_block() {
    let mut disk = Disk::new();
    let temp_root = temp_dir(&mut disk, "migrate-zsh-non-autoloadable");
    let home = temp_root.join("home");
    let zshrc = home.join(".zshrc");
    make_dir(&mut disk, &home);
    write(
        &mut disk,
        &zshrc,
        "# >>> legacy zsh >>>\nfpath=(/tmp/tool $fpath)\n# <<< legacy zsh <<<\n",
    );
    let env = Environment::new(Platform::Unix)
        .with_var("HOME", &home)
        .without_var("ZDOTDIR");
    let target = temp_root.join("custom").join("tool.zsh");
    let error = execute(
        &env,
        &mut disk,
        MigrateManagedBlocksRequest {
            shell: Shell::Zsh,
            program_name: "tool",
            path_override: Some(target.clone()),
            legacy_blocks: vec![LegacyManagedBlock {
                start_marker: "# >>> legacy zsh >>>".to_owned(),
                end_marker: "# <<< legacy zsh <<<".to_owned(),
            }],
        },
        7,
    )
    .expect_err("migration should fail");
    let report = assert_structural_failure(error, "migrate");
    assert_eq!(report.operation, Operation::MigrateManagedBlocks);
    assert_eq!(report.kind, FailureKind::InvalidTargetPath);
    assert_eq!(report.target_path, Some(target));
    let rendered = read(&disk, &zshrc);
    assert!(rendered.contains("legacy zsh"));
    assert!(!rendered.contains("shellcomp zsh tool"));
}

#[test]
fn migrate_keeps_legacy_bash_block_when_target_path_is_non_utf8() {
    let mut disk = Disk::new();
    let temp_root = temp_dir(&mut disk, "migrate-bash-non-utf8-target");
    let home = temp_root.join("home");
    let bashrc = home.join(".bashrc");
    make_dir(&mut disk, &home);
    write(&mut disk, &bashrc, "# >>> legacy bash >>>\n. '/tmp/tool'\n# <<< legacy bash <<<\n");
    let env = Environment::new(Platform::Unix)
        .with_var("HOME", &home)
        .without_var("XDG_DATA_HOME");
    let target = temp_root.join_path(&raw(b"tool-\xff"));
    let error = execute(
        &env,
        &mut disk,
        MigrateManagedBlocksRequest {
            shell: Shell::Bash,
            program_name: "tool",
            path_override: Some(target.clone()),
            legacy_blocks: vec![LegacyManagedBlock {
                start_marker: "# >>> legacy bash >>>".to_owned(),
                end_marker: "# <<< legacy bash <<<".to_owned(),
            }],
        },
        7,
    )
    .expect_err("migration should fail");
    let report = assert_structural_failure(error, "migrate");
    assert_eq!(report.operation, Operation::MigrateManagedBlocks);
    assert_eq!(report.kind, FailureKind::InvalidTargetPath);
    assert_eq!(report.target_path, Some(target));
    let rendered = read(&disk, &bashrc);
    assert!(rendered.contains("legacy bash"));
    assert!(!rendered.contains("shellcomp bash tool"));
}

#[test]
fn migrate_keeps_legacy_zsh_block_when_parent_directory_is_non_utf8() {
    let mut disk = Disk::new();
    let temp_root = temp_dir(&mut disk, "migrate-zsh-non-utf8-parent");
    let home = temp_root.join("home");
    let zshrc = home.join(".zshrc");
    make_dir(&mut disk, &home);
    write(
        &mut disk,
        &zshrc,
        "# >>> legacy zsh >>>\nfpath=(/tmp/tool $fpath)\n# <<< legacy zsh <<<\n",
    );
    let env = Environment::new(Platform::Unix)
        .with_var("HOME", &home)
        .without_var("ZDOTDIR");
    let target = temp_root.join_path(&raw(b"zfunc-\xff"))
        .join("_tool");
    let error = execute(
        &env,
        &mut disk,
        MigrateManagedBlocksRequest {
            shell: Shell::Zsh,
            program_name: "tool",
            path_override: Some(target.clone()),
            legacy_blocks: vec![LegacyManagedBlock {
                start_marker: "# >>> legacy zsh >>>".to_owned(),
                end_marker: "# <<< legacy zsh <<<".to_owned(),
            }],
        },
        7,
    )
    .expect_err("migration should fail");
    let report = assert_structural_failure(error, "migrate");
    assert_eq!(report.operation, Operation::MigrateManagedBlocks);
    assert_eq!(report.kind, FailureKind::InvalidTargetPath);
    assert_eq!(report.target_path, Some(target));
    let rendered = read(&disk, &zshrc);
    assert!(rendered.contains("legacy zsh"));
    assert!(!rendered.contains("shellcomp zsh tool"));
}

#[test]
fn migrate_does_not_partially_remove_legacy_blocks_when_a_later_one_is_malformed() {
    let mut disk = Disk::new();
    let temp_root = temp_dir(&mut disk, "migrate-bash-legacy-atomic");
    let home = temp_root.join("home");
    let bashrc = home.join(".bashrc");
    make_dir(&mut disk, &home);
    write(
        &mut disk,
        &bashrc,
        "# >>> legacy one >>>\n. '/tmp/one'\n# <<< legacy one <<<\n# >>> legacy two >>>\n. '/tmp/two'\n",
    );
    let env = Environment::new(Platform::Unix)
        .with_var("HOME", &home)
        .without_var("XDG_DATA_HOME");
    let error = execute(
        &env,
        &mut disk,
        MigrateManagedBlocksRequest {
            shell: Shell::Bash,
            program_name: "tool",
            path_override: None,
            legacy_blocks: vec![
                LegacyManagedBlock {
                    start_marker: "# >>> legacy one >>>".to_owned(),
                    end_marker: "# <<< legacy one <<<".to_owned(),
                },
                LegacyManagedBlock {
                    start_marker: "# >>> legacy two >>>".to_owned(),
                    end_marker: "# <<< legacy two <<<".to_owned(),
                },
            ],
        },
        7,
    )
    .expect_err("migration should fail");
    let report = assert_structural_failure(error, "migrate");
    assert_eq!(report.operation, Operation::MigrateManagedBlocks);
    assert_eq!(report.kind, FailureKind::ProfileCorrupted);
    let rendered = read(&disk, &bashrc);
    assert!(rendered.contains("legacy one"));
    assert!(rendered.contains("legacy two"));
    assert!(!rendered.contains("shellcomp bash tool"));
}

#[test]
fn migrate_does_not_remove_legacy_block_when_existing_shellcomp_block_is_malformed() {
    let mut disk = Disk::new();
    let temp_root = temp_dir(&mut disk, "migrate-bash-existing-shellcomp-corrupt");
    let home = temp_root.join("home");
    let bashrc = home.join(".bashrc");
    make_dir(&mut disk, &home);
    write(
        &mut disk,
        &bashrc,
        "# >>> legacy bash >>>\n. '/tmp/tool'\n# <<< legacy bash <<<\n# >>> shellcomp bash tool >>>\nif [ -f '/tmp/bad' ]; then\n  . '/tmp/bad'\nfi\n",
    );
    let env = Environment::new(Platform::Unix)
        .with_var("HOME", &home)
        .without_var("XDG_DATA_HOME");
    let error = execute(
        &env,
        &mut disk,
        MigrateManagedBlocksRequest {
            shell: Shell::Bash,
            program_name: "tool",
            path_override: None,
            legacy_blocks: vec![LegacyManagedBlock {
                start_marker: "# >>> legacy bash >>>".to_owned(),
                end_marker: "# <<< legacy bash <<<".to_owned(),
            }],
        },
        7,
    )
    .expect_err("migration should fail");
    let report = assert_structural_failure(error, "migrate");
    assert_eq!(report.operation, Operation::MigrateManagedBlocks);
    assert_eq!(report.kind, FailureKind::ProfileCorrupted);
    assert!(
        report
            .next_step
            .as_deref()
            .is_some_and(|text| text.contains(".bashrc"))
    );
    let rendered = read(&disk, &bashrc);
    assert!(rendered.contains("legacy bash"));
    assert!(rendered.contains("shellcomp bash tool"));
    assert!(!rendered.contains(".local/share/bash-completion/completions/tool"));
}

use shellcomp::managed_block::{
    migrate_blocks, remove, remove_all, rewrite_upsert, upsert, ManagedBlock,
};
use shellcomp::service::events::{failed_event, finished_event, started_event, succeeded_event};
use shellcomp::shell::bash::bash_managed_block;
use shellcomp::{
    detect_activation, install, install_with_policy, migrate_managed_blocks, uninstall,
    ActivationMode, ActivationPolicy, Availability, Content, Disk, Environment, Error, FailureKind,
    FileChange, FilePath, InstallRequest, IoError, IoErrorKind, LegacyManagedBlock,
    MigrateManagedBlocksRequest, Node, Operation, OperationEventPhase, Platform, Shell, Step,
    UninstallRequest,
};

const SHELLS: [Shell; 5] =
    [Shell::Bash, Shell::Zsh, Shell::Fish, Shell::Powershell, Shell::Elvish];

fn p(text: &str) -> FilePath {
    FilePath::from_text(text)
}

fn environment() -> Environment {
    Environment::new(Platform::Unix).with_var("HOME", &p("/home/demo"))
}

fn write(disk: &mut Disk, path: &FilePath, contents: &str) {
    let mut dir = path.parent();
    while let Some(above) = dir {
        disk.record(
            &above,
            Some(Node { link: None, readonly: false, mode: None, content: Content::Directory }),
        );
        dir = above.parent();
    }
    let content = Content::File(contents.as_bytes().to_vec());
    disk.record(path, Some(Node { link: None, readonly: false, mode: None, content }));
}

fn read(disk: &Disk, path: &FilePath) -> String {
    String::from_utf8(disk.read(path).expect("file should be readable")).expect("text")
}

fn request(shell: &Shell) -> InstallRequest<'static> {
    InstallRequest {
        shell: shell.clone(),
        program_name: "tool",
        script: b"# script\n",
        path_override: None,
    }
}

fn removal(shell: &Shell) -> UninstallRequest<'static> {
    UninstallRequest { shell: shell.clone(), program_name: "tool", path_override: None }
}

fn block(name: &str, body: &str) -> ManagedBlock {
    ManagedBlock {
        start_marker: format!("# >>> {name} >>>"),
        end_marker: format!("# <<< {name} <<<"),
        body: body.to_string(),
    }
}

fn refusal(kind: IoErrorKind, message: &str) -> IoError {
    IoError { kind, os_code: None, message: message.to_string() }
}

#[test]
fn installing_again_changes_nothing() {
    for shell in &SHELLS {
        let env = environment();
        let mut disk = Disk::new();
        let first = install(&env, &mut disk, request(shell), 1).unwrap();
        assert_eq!(first.file_change, FileChange::Created);
        let after_first = disk.records.len();
        let second = install(&env, &mut disk, request(shell), 2).unwrap();
        assert_eq!(second.file_change, FileChange::Unchanged);
        assert_eq!(second.target_path, first.target_path);
        assert_eq!(second.activation.mode, first.activation.mode);
        assert_eq!(disk.records.len(), after_first);
    }
}

#[test]
fn detection_agrees_with_a_fresh_install() {
    for shell in &SHELLS {
        let env = environment();
        let mut disk = Disk::new();
        let installed = install(&env, &mut disk, request(shell), 1).unwrap();
        let detected = detect_activation(&env, &disk, shell.clone(), "tool", 2).unwrap();
        assert_eq!(detected.mode, installed.activation.mode);
        assert_eq!(detected.location, installed.activation.location);
        assert_ne!(detected.availability, Availability::ManualActionRequired);
    }
}

#[test]
fn uninstalling_takes_an_install_back() {
    for shell in &SHELLS {
        let env = environment();
        let mut disk = Disk::new();
        for profile in [
            "/home/demo/.bashrc",
            "/home/demo/.zshrc",
            "/home/demo/.config/powershell/profile.ps1",
            "/home/demo/.config/elvish/rc.elv",
        ] {
            write(&mut disk, &p(profile), "# mine\n");
        }
        let installed = install(&env, &mut disk, request(shell), 1).unwrap();
        let removed = uninstall(&env, &mut disk, removal(shell), 2).unwrap();
        assert_eq!(removed.file_change, FileChange::Removed);
        assert!(disk.node(&installed.target_path).is_none());
        if let Some(profile) = &installed.activation.location {
            if installed.activation.mode == ActivationMode::ManagedRcBlock {
                // The line that set the block apart stays.
                assert_eq!(read(&disk, profile), "# mine\n\n");
            }
        }
        let again = uninstall(&env, &mut disk, removal(shell), 3).unwrap();
        assert_eq!(again.file_change, FileChange::Absent);
        assert_eq!(again.cleanup.change, FileChange::Absent);
    }
}

#[test]
fn migrating_again_changes_nothing() {
    let env = environment();
    let mut disk = Disk::new();
    let bashrc = p("/home/demo/.bashrc");
    write(&mut disk, &bashrc, "a\n# old begin\nx\n# old end\nb\n");
    let migration = || MigrateManagedBlocksRequest {
        shell: Shell::Bash,
        program_name: "tool",
        path_override: None,
        legacy_blocks: vec![LegacyManagedBlock {
            start_marker: "# old begin".to_string(),
            end_marker: "# old end".to_string(),
        }],
    };
    let first = migrate_managed_blocks(&env, &mut disk, migration(), 1).unwrap();
    assert_eq!(first.legacy_change, FileChange::Removed);
    let text = read(&disk, &bashrc);
    assert!(text.starts_with("a\nb\n"));
    assert!(!text.contains("# old"));
    let second = migrate_managed_blocks(&env, &mut disk, migration(), 2).unwrap();
    assert_eq!(second.legacy_change, FileChange::Absent);
    assert_eq!(second.managed_change, FileChange::Unchanged);
    assert_eq!(read(&disk, &bashrc), text);
}

#[test]
fn blocks_of_other_programs_and_other_lines_stay() {
    let mut disk = Disk::new();
    let profile = p("/home/demo/profile");
    write(&mut disk, &profile, "first\n# >>> other >>>\nbody\n# <<< other <<<\nlast\n");
    let before = read(&disk, &profile);
    let mine = block("mine", "one");
    assert_eq!(upsert(Platform::Unix, &mut disk, &profile, &mine).unwrap(), FileChange::Updated);
    let with_block = read(&disk, &profile);
    assert!(with_block.contains("# >>> other >>>\nbody\n# <<< other <<<\n"));
    assert_eq!(upsert(Platform::Unix, &mut disk, &profile, &mine).unwrap(), FileChange::Unchanged);
    assert_eq!(read(&disk, &profile), with_block);
    assert!(shellcomp::managed_block::matches(Platform::Unix, &disk, &profile, &mine).unwrap());
    assert_eq!(remove(Platform::Unix, &mut disk, &profile, &mine).unwrap(), FileChange::Removed);
    let without_block = format!("{before}\n");
    assert_eq!(read(&disk, &profile), without_block);
    assert_eq!(remove(Platform::Unix, &mut disk, &profile, &mine).unwrap(), FileChange::Absent);
    assert_eq!(read(&disk, &profile), without_block);
}

#[test]
fn a_carriage_return_at_the_end_does_not_break_wiring() {
    let block =
        ManagedBlock { start_marker: "# s".into(), end_marker: "# e".into(), body: "x".into() };
    for (text, expected) in [
        ("a\r", "a\r\n\r\n# s\r\nx\r\n# e\r\n"),
        ("a\r\nb\r", "a\r\nb\r\n\r\n# s\r\nx\r\n# e\r\n"),
        ("# s\ny\n# e\na\r", "# s\nx\n# e\na\r"),
    ] {
        let mut disk = Disk::new();
        let profile = p("/home/demo/profile");
        write(&mut disk, &profile, text);
        let first = upsert(Platform::Unix, &mut disk, &profile, &block).unwrap();
        assert_eq!(first, FileChange::Updated);
        assert_eq!(read(&disk, &profile), expected);
        let before = disk.clone();
        let second = upsert(Platform::Unix, &mut disk, &profile, &block).unwrap();
        assert_eq!(second, FileChange::Unchanged);
        assert_eq!(disk, before);
    }
}

#[test]
fn marker_pairs_may_repeat_and_stand_in_any_order() {
    let mut disk = Disk::new();
    let profile = p("/home/demo/profile");
    let text = "a\n# >>> one >>>\n1\n# <<< one <<<\nb\n# >>> two >>>\n2\n# <<< two <<<\nc\n";
    write(&mut disk, &profile, text);
    let blocks = [block("two", ""), block("one", ""), block("two", "")];
    let change = remove_all(Platform::Unix, &mut disk, &profile, &blocks).unwrap();
    assert_eq!(change, FileChange::Removed);
    assert_eq!(read(&disk, &profile), "a\nb\nc\n");
}

#[test]
fn a_replaced_file_is_never_gone_and_comes_behind_the_script() {
    let env = environment();
    let mut disk = Disk::new();
    let bashrc = p("/home/demo/.bashrc");
    write(&mut disk, &bashrc, "a\n");
    let known = disk.records.len();
    let report = install(&env, &mut disk, request(&Shell::Bash), 1).unwrap();
    let files: Vec<_> = disk.records[known..]
        .iter()
        .filter(|r| !matches!(&r.node, Some(Node { content: Content::Directory, .. })))
        .collect();
    assert_eq!(files.len(), 2);
    assert_eq!(files[0].key, report.target_path.components());
    assert_eq!(files[1].key, bashrc.components());
    assert!(files.iter().all(|r| r.node.is_some()));
}

#[test]
fn a_target_with_a_line_feed_is_installed_once() {
    let env = environment();
    let mut disk = Disk::new();
    let odd = InstallRequest {
        path_override: Some(p("/opt/odd\nname/tool")),
        ..request(&Shell::Bash)
    };
    let policy = ActivationPolicy::AutoManaged;
    install_with_policy(&env, &mut disk, odd.clone(), policy, 1).unwrap();
    let before = disk.clone();
    let again = install_with_policy(&env, &mut disk, odd, policy, 2).unwrap();
    assert_eq!(again.file_change, FileChange::Unchanged);
    assert_eq!(disk, before);
}

#[test]
fn a_legacy_block_is_replaced_once() {
    let mut disk = Disk::new();
    let profile = p("/home/demo/profile");
    write(&mut disk, &profile, "# >>> old >>>\nx\n# <<< old <<<\nkeep\n");
    let old = [block("old", "")];
    let new = block("new", "y");
    let changes = migrate_blocks(Platform::Unix, &mut disk, &profile, &old, &new).unwrap();
    assert_eq!(changes.0, FileChange::Removed);
    let text = read(&disk, &profile);
    assert!(text.starts_with("keep\n"));
    assert!(text.ends_with("# >>> new >>>\ny\n# <<< new <<<\n"));
    let changes = migrate_blocks(Platform::Unix, &mut disk, &profile, &old, &new).unwrap();
    assert_eq!(changes, (FileChange::Absent, FileChange::Unchanged));
}

#[test]
fn a_malformed_block_is_left_alone() {
    let mut disk = Disk::new();
    let profile = p("/home/demo/profile");
    write(&mut disk, &profile, "# >>> mine >>>\nx\n");
    let before = disk.clone();
    let mine = block("mine", "one");
    assert!(matches!(
        upsert(Platform::Unix, &mut disk, &profile, &mine),
        Err(Error::ManagedBlockMissingEnd { .. })
    ));
    assert!(remove(Platform::Unix, &mut disk, &profile, &mine).is_err());
    assert_eq!(disk, before);
}

#[test]
fn an_invalid_marker_is_rejected() {
    let mut disk = Disk::new();
    let profile = p("/home/demo/profile");
    write(&mut disk, &profile, "x\n");
    let bad = ManagedBlock {
        start_marker: "# same".to_string(),
        end_marker: "# same".to_string(),
        body: String::new(),
    };
    assert!(matches!(
        upsert(Platform::Unix, &mut disk, &profile, &bad),
        Err(Error::InvalidManagedBlock { .. })
    ));
}

#[test]
fn two_programs_share_a_startup_file() {
    let env = environment();
    let mut disk = Disk::new();
    install(&env, &mut disk, request(&Shell::Bash), 1).unwrap();
    let other = InstallRequest { program_name: "other", ..request(&Shell::Bash) };
    install(&env, &mut disk, other, 2).unwrap();
    uninstall(&env, &mut disk, removal(&Shell::Bash), 3).unwrap();
    let text = read(&disk, &p("/home/demo/.bashrc"));
    assert!(text.contains("shellcomp bash other"));
    assert!(!text.contains("shellcomp bash tool"));
}

#[test]
fn blocks_of_different_targets_differ() {
    let one = bash_managed_block("tool", &p("/a/tool")).unwrap();
    let two = bash_managed_block("tool", &p("/b/tool")).unwrap();
    assert_eq!(one.start_marker, two.start_marker);
    assert_ne!(one.body, two.body);
    assert!(one.body.contains("'/a/tool'"));
}

#[test]
fn a_custom_path_is_left_to_the_user() {
    for shell in &SHELLS {
        let env = environment();
        let mut disk = Disk::new();
        let custom =
            InstallRequest { path_override: Some(p("/opt/demo/_tool")), ..request(shell) };
        let report = install(&env, &mut disk, custom.clone(), 1).unwrap();
        assert_eq!(report.activation.mode, ActivationMode::Manual);
        assert_eq!(report.activation.availability, Availability::ManualActionRequired);
        assert!(disk.node(&p("/home/demo/.bashrc")).is_none());
        let manual =
            install_with_policy(&env, &mut disk, custom, ActivationPolicy::Manual, 2).unwrap();
        assert_eq!(manual.activation, report.activation);
    }
}

#[test]
fn the_default_location_is_managed_however_it_is_named() {
    let env = environment();
    let mut disk = Disk::new();
    let default = shellcomp::default_install_path(&env, Shell::Zsh, "tool").unwrap();
    let named = InstallRequest { path_override: Some(default), ..request(&Shell::Zsh) };
    let report = install(&env, &mut disk, named, 1).unwrap();
    assert_eq!(report.activation.mode, ActivationMode::ManagedRcBlock);
    assert_eq!(report.activation.location, Some(p("/home/demo/.zshrc")));
}

#[test]
fn locations_are_listed_once_and_nothing_else_changes() {
    for shell in &SHELLS {
        let env = environment();
        let mut disk = Disk::new();
        let witness = p("/home/demo/notes");
        write(&mut disk, &witness, "mine\n");
        let known = disk.records.len();
        let report = install(&env, &mut disk, request(shell), 1).unwrap();
        for (i, one) in report.affected_locations.iter().enumerate() {
            assert!(!report.affected_locations[..i].contains(one));
        }
        assert_eq!(report.affected_locations[0], report.target_path);
        for record in &disk.records[known..] {
            let node = record.node.as_ref().expect("an install removes nothing");
            if matches!(node.content, Content::File(_)) {
                assert!(report.affected_locations.iter().any(|one| one.components() == record.key));
            }
        }
        assert_eq!(read(&disk, &witness), "mine\n");
    }
}

#[test]
fn bad_names_are_answered_directly() {
    let env = environment();
    let mut disk = Disk::new();
    let empty = InstallRequest { program_name: "", ..request(&Shell::Bash) };
    assert!(matches!(install(&env, &mut disk, empty, 1), Err(Error::EmptyProgramName)));
    for name in ["a/b", "..", ".", "a b"] {
        let bad = InstallRequest { program_name: name, ..request(&Shell::Bash) };
        assert!(matches!(
            install(&env, &mut disk, bad, 1),
            Err(Error::InvalidProgramName { program_name }) if program_name == name
        ));
    }
    assert_eq!(disk, Disk::new());
}

#[test]
fn a_failure_behind_the_write_reports_the_write() {
    let env = environment();
    let mut disk = Disk::new();
    let zshrc = p("/home/demo/.zshrc");
    disk.refuse(Step::Sync, &zshrc, refusal(IoErrorKind::Other, "no space"));
    let error = install(&env, &mut disk, request(&Shell::Zsh), 9).unwrap_err();
    let report = error.as_failure().expect("a report");
    assert_eq!(report.operation, Operation::Install);
    assert_eq!(report.shell, Shell::Zsh);
    assert_eq!(report.trace_id, 9);
    assert_eq!(report.kind, FailureKind::ProfileUnavailable);
    assert_eq!(report.file_change, Some(FileChange::Created));
    assert_eq!(report.target_path, Some(p("/home/demo/.zfunc/_tool")));
    assert_eq!(read(&disk, &p("/home/demo/.zfunc/_tool")), "# script\n");
    assert!(error.is_retryable());
    assert_eq!(error.error_code(), "shellcomp.profile_unavailable");
    let Error::Failure { source: Some(source), .. } = error else {
        panic!("the refusal should stand behind the failure");
    };
    assert!(matches!(*source, Error::Io { action: "sync file", .. }));
}

#[test]
fn each_refused_step_names_what_it_was() {
    for (step, action) in [
        (Step::CreateTemporary, "create temporary file for"),
        (Step::Write, "write file"),
        (Step::Sync, "sync file"),
        (Step::Replace, "replace file"),
    ] {
        let mut disk = Disk::new();
        let target = p("/home/demo/file");
        disk.refuse(step, &target, refusal(IoErrorKind::Other, "refused"));
        let error = shellcomp::fs::write_if_changed(Platform::Unix, &mut disk, &target, b"x")
            .unwrap_err();
        assert_eq!(error.message(), format!("failed to {action} `/home/demo/file`: refused"));
        assert_eq!(error.error_code(), "shellcomp.io_error");
        assert!(disk.node(&target).is_none());
    }
}

#[test]
fn events_of_a_call_belong_together() {
    let start = started_event(Operation::Install, &Shell::Fish, "tool", 5, None);
    assert_eq!(start.phase, OperationEventPhase::Started);
    assert_eq!(start.duration_ms, None);
    let end = succeeded_event(&start, Some(&p("/x")), 3);
    assert_eq!(end.phase, OperationEventPhase::Succeeded);
    assert_eq!((end.operation, end.trace_id), (start.operation, 5));
    assert_eq!(end.target_path, Some(p("/x")));
    assert_eq!(end.duration_ms, Some(3));
    let failed = failed_event(&start, &Error::MissingHome, 4);
    assert_eq!(failed.phase, OperationEventPhase::Failed);
    assert_eq!(failed.error_code, Some("shellcomp.missing_home"));
    assert_eq!((failed.retryable, failed.target_path), (false, None));
}

#[test]
fn failures_of_every_operation_name_their_call() {
    let env = Environment::new(Platform::Unix);
    let mut disk = Disk::new();
    let legacy_blocks = Vec::new();
    let migration = MigrateManagedBlocksRequest {
        shell: Shell::Bash,
        program_name: "tool",
        path_override: None,
        legacy_blocks,
    };
    for (operation, error) in [
        (Operation::Install, install(&env, &mut disk, request(&Shell::Bash), 4).unwrap_err()),
        (Operation::Uninstall, uninstall(&env, &mut disk, removal(&Shell::Bash), 4).unwrap_err()),
        (
            Operation::DetectActivation,
            detect_activation(&env, &disk, Shell::Bash, "tool", 4).unwrap_err(),
        ),
        (
            Operation::MigrateManagedBlocks,
            migrate_managed_blocks(&env, &mut disk, migration, 4).unwrap_err(),
        ),
    ] {
        let report = error.into_failure().expect("a report");
        assert_eq!(report.operation, operation);
        assert_eq!(report.trace_id, 4);
        assert_eq!(report.kind, FailureKind::MissingHome);
    }
}

#[test]
fn codes_of_kinds_are_distinct() {
    let kinds = [
        FailureKind::MissingHome,
        FailureKind::UnsupportedShell,
        FailureKind::InvalidTargetPath,
        FailureKind::DefaultPathUnavailable,
        FailureKind::CompletionTargetUnavailable,
        FailureKind::CompletionFileUnreadable,
        FailureKind::ProfileUnavailable,
        FailureKind::ProfileCorrupted,
    ];
    for (i, one) in kinds.iter().enumerate() {
        for other in &kinds[..i] {
            assert_ne!(one.code(), other.code());
        }
    }
}

#[test]
fn a_custom_file_can_be_put_and_taken_away() {
    let env = environment();
    let mut disk = Disk::new();
    let path = p("/tmp/demo-roundtrip-1.fish");
    let put = InstallRequest {
        shell: Shell::Fish,
        program_name: "demo",
        script: b"complete -c demo -f\n",
        path_override: Some(path.clone()),
    };
    let report = install(&env, &mut disk, put, 1).unwrap();
    assert_eq!(report.file_change, FileChange::Created);
    let take = UninstallRequest {
        shell: Shell::Fish,
        program_name: "demo",
        path_override: Some(path.clone()),
    };
    let report = uninstall(&env, &mut disk, take, 2).unwrap();
    assert_eq!(report.file_change, FileChange::Removed);
    assert!(disk.node(&path).is_none());
}

#[test]
fn a_block_is_put_into_a_text_once() {
    let own = block("tool", "load tool");
    let path = p("/home/demo/.bashrc");
    let once = rewrite_upsert(&path, "export A=1\n", &own).unwrap();
    assert_eq!(once, "export A=1\n\n# >>> tool >>>\nload tool\n# <<< tool <<<\n");
    assert_eq!(rewrite_upsert(&path, &once, &own).unwrap(), once);
    assert!(rewrite_upsert(&path, "# >>> tool >>>\n", &own).is_err());
}

#[test]
fn an_operation_ends_with_one_event() {
    let start = started_event(Operation::Install, &Shell::Zsh, "tool", 7, None);
    let target = p("/home/demo/.zfunc/_tool");
    assert_eq!(
        finished_event(&start, Ok(Some(&target)), 3),
        succeeded_event(&start, Some(&target), 3)
    );
    let error = Error::MissingHome;
    assert_eq!(finished_event(&start, Err(&error), 3), failed_event(&start, &error, 3));
    assert_eq!(finished_event(&start, Err(&error), 3).phase, OperationEventPhase::Failed);
}

#[test]
fn a_loader_makes_the_startup_file_irrelevant_to_installing_again() {
    let env = environment();
    let mut disk = Disk::new();
    let loader = p("/usr/share/bash-completion/bash_completion");
    write(&mut disk, &loader, "# loader\n");
    write(&mut disk, &p("/etc/profile"), "source /usr/share/bash-completion/bash_completion\n");
    let startup = "# >>> shellcomp bash tool >>>\n";
    write(&mut disk, &p("/home/demo/.bashrc"), startup);
    let first = install(&env, &mut disk, request(&Shell::Bash), 1).unwrap();
    assert_eq!(first.activation.mode, ActivationMode::SystemLoader);
    let known = disk.records.len();
    let second = install(&env, &mut disk, request(&Shell::Bash), 2).unwrap();
    assert_eq!(second.file_change, FileChange::Unchanged);
    assert_eq!(second.activation, first.activation);
    assert_eq!(disk.records.len(), known);
    assert_eq!(read(&disk, &p("/home/demo/.bashrc")), startup);
}

#[test]
fn uninstalling_again_without_a_block_changes_nothing() {
    for shell in &SHELLS {
        let env = environment();
        let mut disk = Disk::new();
        let manual = ActivationPolicy::Manual;
        install_with_policy(&env, &mut disk, request(shell), manual, 1).unwrap();
        let first = uninstall(&env, &mut disk, removal(shell), 2).unwrap();
        assert_eq!(first.file_change, FileChange::Removed);
        assert_eq!(first.cleanup.change, FileChange::Absent);
        let known = disk.records.len();
        let second = uninstall(&env, &mut disk, removal(shell), 3).unwrap();
        assert_eq!(second.file_change, FileChange::Absent);
        assert_eq!(second.cleanup.change, FileChange::Absent);
        assert_eq!(disk.records.len(), known);
    }
}

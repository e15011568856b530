use shellcomp::service::install;
use shellcomp::service::uninstall::{execute, execute_with_policy};
use shellcomp::{
    ActivationMode, ActivationPolicy, Content, Disk, Environment, Error, FailureKind, FailureReport,
    FileChange, FilePath, InstallRequest, Node, Operation, Platform, Shell, UninstallRequest,
};

fn p(text: &str) -> FilePath {
    FilePath::from_text(text)
}

fn make_dir(disk: &mut Disk, path: &FilePath) {
    let mut dir = Some(path.clone());
    while let Some(path) = dir {
        if !disk.is_there(&path) {
            disk.record(&path, Some(Node { link: None, readonly: false, mode: None, content: Content::Directory }));
        }
        dir = path.parent();
    }
}

fn temp_dir(disk: &mut Disk, label: &str) -> FilePath {
    let root = p("/temp").join(label);
    make_dir(disk, &root);
    root
}

fn write(disk: &mut Disk, path: &FilePath, contents: impl AsRef<[u8]>) {
    if let Some(parent) = path.parent() {
        make_dir(disk, &parent);
    }
    let content = Content::File(contents.as_ref().to_vec());
    disk.record(path, Some(Node { link: None, readonly: false, mode: None, content }));
}

fn read(disk: &Disk, path: &FilePath) -> String {
    String::from_utf8(disk.read(path).expect("file should be readable")).expect("text")
}

fn link(disk: &mut Disk, target: &FilePath, path: &FilePath) {
    let content = match disk.node(target) {
        Some(node) => node.content.clone(),
        None => Content::Dangling,
    };
    disk.record(path, Some(Node { link: Some(target.clone()), readonly: false, mode: None, content }));
}

fn has_name(path: &FilePath, name: &str) -> bool {
    path.file_name() == Some(name.as_bytes().to_vec())
}

fn assert_structural_failure(error: Error, operation: &str) -> FailureReport {
    match error {
        Error::Failure { report, .. } => *report,
        other => panic!("{operation}: expected a structured failure, got {other:?}"),
    }
}

#[test]
fn uninstall_removes_managed_bash_block() {
    let mut disk = Disk::new();
    let temp_root = temp_dir(&mut disk, "uninstall-bash-managed");
    let home = temp_root.join("home");
    let env = Environment::new(Platform::Unix)
        .with_var("HOME", &home)
        .without_var("XDG_DATA_HOME");
    install::execute(
        &env,
        &mut disk,
        InstallRequest {
            shell: Shell::Bash,
            program_name: "tool",
            script: b"complete -F _tool tool\n",
            path_override: None,
        },
        7,
    ).unwrap();
    let report = execute(
        &env,
        &mut disk,
        UninstallRequest {
            shell: Shell::Bash,
            program_name: "tool",
            path_override: None,
        },
        7,
    ).unwrap();
    assert_eq!(report.file_change, FileChange::Removed);
    assert_eq!(report.cleanup.change, FileChange::Removed);
    let bashrc = read(&disk, &home.join(".bashrc"));
    assert!(!bashrc.contains("shellcomp bash tool"));
}

#[test]
fn uninstall_reports_system_loader_cleanup_for_loader_wired_bash() {
    let mut disk = Disk::new();
    let temp_root = temp_dir(&mut disk, "uninstall-bash-system-loader");
    let home = temp_root.join("home");
    let completion_dir = home.join(".local/share/bash-completion/completions");
    let completion_path = completion_dir.join("tool");
    make_dir(&mut disk, &completion_dir);
    write(&mut disk, &completion_path, "complete -F _tool tool\n");
    write(&mut disk, &home.join(".bashrc"), "source /usr/share/bash-completion/bash_completion\n");
    write(&mut disk, &p("/usr/share/bash-completion/bash_completion"), "");
    let env = Environment::new(Platform::Unix)
        .with_var("HOME", &home)
        .without_var("BASH_COMPLETION_VERSINFO")
        .without_var("XDG_DATA_HOME");
    let report = execute(
        &env,
        &mut disk,
        UninstallRequest {
            shell: Shell::Bash,
            program_name: "tool",
            path_override: None,
        },
        7,
    ).unwrap();
    assert_eq!(report.file_change, FileChange::Removed);
    assert_eq!(report.cleanup.mode, ActivationMode::SystemLoader);
    assert_eq!(report.cleanup.change, FileChange::Absent);
    assert_eq!(report.cleanup.location, Some(home.join(".bashrc")));
}

#[test]
fn uninstall_is_idempotent() {
    let mut disk = Disk::new();
    let temp_root = temp_dir(&mut disk, "uninstall-idempotent");
    let home = temp_root.join("home");
    let env = Environment::new(Platform::Unix)
        .with_var("HOME", &home)
        .without_var("XDG_DATA_HOME");
    let report = execute(
        &env,
        &mut disk,
        UninstallRequest {
            shell: Shell::Fish,
            program_name: "tool",
            path_override: None,
        },
        7,
    ).unwrap();
    assert_eq!(report.file_change, FileChange::Absent);
    assert_eq!(report.cleanup.mode, ActivationMode::NativeDirectory);
    assert_eq!(report.cleanup.change, FileChange::Absent);
}

#[test]
fn uninstall_with_path_override_does_not_touch_rc_files() {
    let mut disk = Disk::new();
    let temp_root = temp_dir(&mut disk, "uninstall-custom-path");
    let target = temp_root.join("custom").join("tool.bash");
    make_dir(&mut disk, &target.parent().expect("custom path should have parent"));
    write(&mut disk, &target, "complete -F _tool tool\n");
    let report = execute(
        &Environment::new(Platform::Unix),
        &mut disk,
        UninstallRequest {
            shell: Shell::Bash,
            program_name: "tool",
            path_override: Some(target.clone()),
        },
        7,
    ).unwrap();
    assert_eq!(report.file_change, FileChange::Removed);
    assert_eq!(report.cleanup.mode, ActivationMode::Manual);
    assert_eq!(report.cleanup.change, FileChange::Absent);
    assert!(!disk.is_there(&target));
}

#[test]
fn uninstall_returns_profile_corrupted_for_malformed_bash_block() {
    let mut disk = Disk::new();
    let temp_root = temp_dir(&mut disk, "uninstall-bash-corrupted");
    let home = temp_root.join("home");
    let completion_dir = home.join(".local/share/bash-completion/completions");
    make_dir(&mut disk, &completion_dir);
    write(&mut disk, &home.join(".bashrc"), "# >>> shellcomp bash tool >>>\n. '/tmp/tool'\n");
    let env = Environment::new(Platform::Unix)
        .with_var("HOME", &home)
        .without_var("XDG_DATA_HOME");
    let error = execute(
        &env,
        &mut disk,
        UninstallRequest {
            shell: Shell::Bash,
            program_name: "tool",
            path_override: None,
        },
        7,
    )
    .expect_err("uninstall should fail");
    let report = assert_structural_failure(error, "uninstall");
    assert_eq!(report.operation, Operation::Uninstall);
    assert_eq!(report.kind, FailureKind::ProfileCorrupted);
    assert_eq!(report.target_path, Some(completion_dir.join("tool")));
    assert!(report.cleanup.is_none());
    assert!(
        report
            .affected_locations
            .iter()
            .any(|path| has_name(path, ".bashrc"))
    );
    assert!(report.next_step.is_some());
    assert!(
        report
            .next_step
            .as_deref()
            .is_some_and(|text| text.contains(".bashrc"))
    );
}

#[test]
fn uninstall_preserves_file_change_when_cleanup_fails() {
    let mut disk = Disk::new();
    let temp_root = temp_dir(&mut disk, "uninstall-bash-partial-failure");
    let home = temp_root.join("home");
    let completion_dir = home.join(".local/share/bash-completion/completions");
    let completion_path = completion_dir.join("tool");
    make_dir(&mut disk, &completion_dir);
    write(&mut disk, &completion_path, "complete -F _tool tool\n");
    write(&mut disk, &home.join(".bashrc"), "# >>> shellcomp bash tool >>>\n. '/tmp/tool'\n");
    let env = Environment::new(Platform::Unix)
        .with_var("HOME", &home)
        .without_var("XDG_DATA_HOME");
    let error = execute(
        &env,
        &mut disk,
        UninstallRequest {
            shell: Shell::Bash,
            program_name: "tool",
            path_override: None,
        },
        7,
    )
    .expect_err("uninstall should fail");
    let report = assert_structural_failure(error, "uninstall");
    assert_eq!(report.operation, Operation::Uninstall);
    assert_eq!(report.kind, FailureKind::ProfileCorrupted);
    assert_eq!(report.target_path, Some(completion_path.clone()));
    assert_eq!(report.file_change, Some(FileChange::Removed));
    assert!(!disk.is_there(&completion_path));
}

#[test]
fn uninstall_with_custom_path_can_clean_managed_bash_activation() {
    let mut disk = Disk::new();
    let temp_root = temp_dir(&mut disk, "uninstall-custom-bash-managed");
    let home = temp_root.join("home");
    let target = temp_root.join("custom").join("tool.bash");
    let env = Environment::new(Platform::Unix)
        .with_var("HOME", &home)
        .without_var("XDG_DATA_HOME");
    install::execute_with_policy(
        &env,
        &mut disk,
        InstallRequest {
            shell: Shell::Bash,
            program_name: "tool",
            script: b"complete -F _tool tool\n",
            path_override: Some(target.clone()),
        },
        ActivationPolicy::AutoManaged,
        7,
    ).unwrap();
    let report = execute_with_policy(
        &env,
        &mut disk,
        UninstallRequest {
            shell: Shell::Bash,
            program_name: "tool",
            path_override: Some(target),
        },
        ActivationPolicy::AutoManaged,
        7,
    ).unwrap();
    assert_eq!(report.cleanup.mode, ActivationMode::ManagedRcBlock);
    assert_eq!(report.cleanup.change, FileChange::Removed);
    let bashrc = read(&disk, &home.join(".bashrc"));
    assert!(!bashrc.contains("shellcomp bash tool"));
}

#[test]
fn uninstall_with_manual_policy_keeps_default_fish_cleanup_native() {
    let mut disk = Disk::new();
    let temp_root = temp_dir(&mut disk, "uninstall-default-fish-manual-policy");
    let home = temp_root.join("home");
    let env = Environment::new(Platform::Unix)
        .with_var("HOME", &home)
        .without_var("XDG_CONFIG_HOME");
    let report = execute_with_policy(
        &env,
        &mut disk,
        UninstallRequest {
            shell: Shell::Fish,
            program_name: "tool",
            path_override: None,
        },
        ActivationPolicy::Manual,
        7,
    ).unwrap();
    assert_eq!(report.cleanup.mode, ActivationMode::NativeDirectory);
    assert_eq!(report.cleanup.change, FileChange::Absent);
}

#[test]
fn uninstall_with_explicit_default_fish_path_keeps_native_cleanup_mode() {
    let mut disk = Disk::new();
    let temp_root = temp_dir(&mut disk, "uninstall-explicit-default-fish-path");
    let home = temp_root.join("home");
    let env = Environment::new(Platform::Unix)
        .with_var("HOME", &home)
        .without_var("XDG_CONFIG_HOME");
    let target = home.join(".config/fish/completions/tool.fish");
    make_dir(&mut disk, &target.parent().expect("default path should have a parent"));
    write(&mut disk, &target, "complete -c tool -f\n");
    let report = execute_with_policy(
        &env,
        &mut disk,
        UninstallRequest {
            shell: Shell::Fish,
            program_name: "tool",
            path_override: Some(target.clone()),
        },
        ActivationPolicy::AutoManaged,
        7,
    ).unwrap();
    assert_eq!(report.file_change, FileChange::Removed);
    assert_eq!(report.cleanup.mode, ActivationMode::NativeDirectory);
    assert_eq!(report.cleanup.change, FileChange::Absent);
    assert!(!disk.is_there(&target));
}

#[test]
fn uninstall_with_manual_policy_and_explicit_default_fish_path_keeps_native_cleanup_mode() {
    let mut disk = Disk::new();
    let temp_root = temp_dir(&mut disk, "uninstall-manual-explicit-default-fish-path");
    let home = temp_root.join("home");
    let env = Environment::new(Platform::Unix)
        .with_var("HOME", &home)
        .without_var("XDG_CONFIG_HOME");
    let target = home.join(".config/fish/completions/tool.fish");
    make_dir(&mut disk, &target.parent().expect("default path should have a parent"));
    write(&mut disk, &target, "complete -c tool -f\n");
    let report = execute_with_policy(
        &env,
        &mut disk,
        UninstallRequest {
            shell: Shell::Fish,
            program_name: "tool",
            path_override: Some(target.clone()),
        },
        ActivationPolicy::Manual,
        7,
    ).unwrap();
    assert_eq!(report.file_change, FileChange::Removed);
    assert_eq!(report.cleanup.mode, ActivationMode::NativeDirectory);
    assert_eq!(report.cleanup.change, FileChange::Absent);
    assert!(!disk.is_there(&target));
}

#[test]
fn uninstall_rejects_relative_target_path_override() {
    let mut disk = Disk::new();
    let target = p("tool.bash");
    let error = execute(
        &Environment::new(Platform::Unix),
        &mut disk,
        UninstallRequest {
            shell: Shell::Bash,
            program_name: "tool",
            path_override: Some(target.clone()),
        },
        7,
    )
    .expect_err("uninstall should fail");
    let report = assert_structural_failure(error, "uninstall");
    assert_eq!(report.kind, FailureKind::InvalidTargetPath);
    assert_eq!(report.target_path, Some(target));
}

#[test]
fn uninstall_rejects_relative_default_target_path_from_environment() {
    let mut disk = Disk::new();
    let env = Environment::new(Platform::Unix)
        .with_var("HOME", &p("relative-home"))
        .with_var("XDG_DATA_HOME", &p("relative-cache"));
    let error = execute(
        &env,
        &mut disk,
        UninstallRequest {
            shell: Shell::Bash,
            program_name: "tool",
            path_override: None,
        },
        7,
    )
    .expect_err("uninstall should fail with invalid default path");
    let report = assert_structural_failure(error, "uninstall");
    assert_eq!(report.kind, FailureKind::DefaultPathUnavailable);
    assert!(report.reason.contains("managed default completion path"));
}

#[test]
fn uninstall_rejects_symlink_path_segments_in_target_override() {
    let mut disk = Disk::new();
    let temp_root = temp_dir(&mut disk, "uninstall-symlink-path");
    let real_dir = temp_root.join("real");
    let link_dir = temp_root.join("link");
    let target = link_dir.join("tool.bash");
    make_dir(&mut disk, &real_dir);
    link(&mut disk, &real_dir, &link_dir);
    let error = execute(
        &Environment::new(Platform::Unix),
        &mut disk,
        UninstallRequest {
            shell: Shell::Bash,
            program_name: "tool",
            path_override: Some(target.clone()),
        },
        7,
    )
    .expect_err("uninstall should reject symlink path");
    let report = assert_structural_failure(error, "uninstall");
    assert_eq!(report.kind, FailureKind::InvalidTargetPath);
    assert_eq!(report.target_path, Some(target));
}

#[test]
fn legacy_uninstall_with_explicit_default_fish_path_keeps_native_cleanup_mode() {
    let mut disk = Disk::new();
    let temp_root = temp_dir(&mut disk, "uninstall-legacy-explicit-default-fish-path");
    let home = temp_root.join("home");
    let env = Environment::new(Platform::Unix)
        .with_var("HOME", &home)
        .without_var("XDG_CONFIG_HOME");
    let target = home.join(".config/fish/completions/tool.fish");
    make_dir(&mut disk, &target.parent().expect("default path should have a parent"));
    write(&mut disk, &target, "complete -c tool -f\n");
    let report = execute(
        &env,
        &mut disk,
        UninstallRequest {
            shell: Shell::Fish,
            program_name: "tool",
            path_override: Some(target.clone()),
        },
        7,
    ).unwrap();
    assert_eq!(report.file_change, FileChange::Removed);
    assert_eq!(report.cleanup.mode, ActivationMode::NativeDirectory);
    assert_eq!(report.cleanup.change, FileChange::Absent);
    assert!(!disk.is_there(&target));
}

#[test]
fn uninstall_with_non_autoloadable_zsh_target_stays_manual() {
    let mut disk = Disk::new();
    let temp_root = temp_dir(&mut disk, "uninstall-custom-zsh-manual");
    let target = temp_root.join("custom").join("tool.zsh");
    make_dir(&mut disk, &target.parent().expect("custom path should have parent"));
    write(&mut disk, &target, "#compdef tool\n");
    let report = execute_with_policy(
        &Environment::new(Platform::Unix),
        &mut disk,
        UninstallRequest {
            shell: Shell::Zsh,
            program_name: "tool",
            path_override: Some(target.clone()),
        },
        ActivationPolicy::AutoManaged,
        7,
    ).unwrap();
    assert_eq!(report.file_change, FileChange::Removed);
    assert_eq!(report.cleanup.mode, ActivationMode::Manual);
    assert_eq!(report.cleanup.change, FileChange::Absent);
    assert!(!disk.is_there(&target));
}

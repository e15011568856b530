use shellcomp::fs;
use shellcomp::paths;
use shellcomp::service::detect::{execute, execute_at_path};
use shellcomp::service::events::{started_event, succeeded_event};
use shellcomp::service::install;
use shellcomp::{
    ActivationMode, Availability, Content, Disk, Environment, Error, FailureKind, FailureReport,
    FilePath, InstallRequest, Node, Operation, OperationEventPhase, Platform, Shell,
};

fn p(text: &str) -> FilePath {
    FilePath::from_text(text)
}

fn make_dir(disk: &mut Disk, path: &FilePath) {
    let mut dir = Some(path.clone());
    while let Some(path) = dir {
        if !disk.is_there(&path) {
            disk.record(&path, Some(Node { link: None, readonly: false, mode: None, content: Content::Directory }));
        }
        dir = path.parent();
    }
}

fn temp_dir(disk: &mut Disk, label: &str) -> FilePath {
    let root = p("/temp").join(label);
    make_dir(disk, &root);
    root
}

fn write(disk: &mut Disk, path: &FilePath, contents: impl AsRef<[u8]>) {
    if let Some(parent) = path.parent() {
        make_dir(disk, &parent);
    }
    let content = Content::File(contents.as_ref().to_vec());
    disk.record(path, Some(Node { link: None, readonly: false, mode: None, content }));
}

fn read(disk: &Disk, path: &FilePath) -> String {
    String::from_utf8(disk.read(path).expect("file should be readable")).expect("text")
}

fn link(disk: &mut Disk, target: &FilePath, path: &FilePath) {
    let content = match disk.node(target) {
        Some(node) => node.content.clone(),
        None => Content::Dangling,
    };
    disk.record(path, Some(Node { link: Some(target.clone()), readonly: false, mode: None, content }));
}

fn has_name(path: &FilePath, name: &str) -> bool {
    path.file_name() == Some(name.as_bytes().to_vec())
}

fn raw(bytes: &[u8]) -> FilePath {
    FilePath { bytes: bytes.to_vec() }
}

fn assert_structural_failure(error: Error, operation: &str) -> FailureReport {
    match error {
        Error::Failure { report, .. } => *report,
        other => panic!("{operation}: expected a structured failure, got {other:?}"),
    }
}

#[test]
fn detect_reports_missing_completion() {
    let mut disk = Disk::new();
    let temp_root = temp_dir(&mut disk, "detect-missing");
    let home = temp_root.join("home");
    let env = Environment::new(Platform::Unix)
        .with_var("HOME", &home)
        .without_var("XDG_CONFIG_HOME");
    let report = execute(&env, &disk, &Shell::Fish, "tool", 7).unwrap();
    assert_eq!(report.mode, ActivationMode::NativeDirectory);
    assert_eq!(report.availability, Availability::ManualActionRequired);
}

#[test]
fn detect_reports_installed_zsh_completion() {
    let mut disk = Disk::new();
    let temp_root = temp_dir(&mut disk, "detect-zsh");
    let home = temp_root.join("home");
    let env = Environment::new(Platform::Unix)
        .with_var("HOME", &home)
        .without_var("ZDOTDIR");
    install::execute(
        &env,
        &mut disk,
        InstallRequest {
            shell: Shell::Zsh,
            program_name: "tool",
            script: b"#compdef tool\n",
            path_override: None,
        },
        7,
    ).unwrap();
    let report = execute(&env, &disk, &Shell::Zsh, "tool", 7).unwrap();
    assert_eq!(report.mode, ActivationMode::ManagedRcBlock);
    assert_eq!(report.availability, Availability::AvailableAfterSource);
}

#[test]
fn detect_fails_without_home_for_default_paths() {
    let disk = Disk::new();
    let env = Environment::new(Platform::Unix).without_var("HOME").without_var("ZDOTDIR");
    let error = execute(&env, &disk, &Shell::Zsh, "tool", 7).expect_err("detect should fail");
    let report = assert_structural_failure(error, "detect");
    assert_eq!(report.kind, FailureKind::MissingHome);
}

#[test]
fn detect_rejects_relative_default_target_path_from_environment() {
    let disk = Disk::new();
    let env = Environment::new(Platform::Unix)
        .with_var("HOME", &p("relative-home"))
        .with_var("XDG_DATA_HOME", &p("relative-cache"));
    let error = execute(&env, &disk, &Shell::Bash, "tool", 7).expect_err("detect should fail");
    let report = assert_structural_failure(error, "detect");
    assert_eq!(report.kind, FailureKind::DefaultPathUnavailable);
    assert!(report.reason.contains("managed default completion path"));
}

#[test]
fn detect_reports_userprofile_hint_for_windows_powershell_default_path_resolution() {
    let disk = Disk::new();
    let env = Environment::new(Platform::Windows)
        .without_var("HOME")
        .without_var("USERPROFILE");
    let error = execute(&env, &disk, &Shell::Powershell, "tool", 7).expect_err("detect should fail");
    let report = assert_structural_failure(error, "detect");
    assert_eq!(report.kind, FailureKind::MissingHome);
    assert!(report.reason.contains("HOME or USERPROFILE is not set"));
    assert!(
        report
            .next_step
            .as_deref()
            .is_some_and(|text| text.contains("HOME or USERPROFILE"))
    );
}

#[test]
fn detect_returns_profile_corrupted_for_malformed_zsh_block() {
    let mut disk = Disk::new();
    let temp_root = temp_dir(&mut disk, "detect-zsh-corrupted");
    let home = temp_root.join("home");
    let completion_dir = home.join(".zfunc");
    let zshrc = home.join(".zshrc");
    make_dir(&mut disk, &completion_dir);
    write(&mut disk, &completion_dir.join("_tool"), b"#compdef tool\n");
    write(&mut disk, &zshrc, "# >>> shellcomp zsh tool >>>\nfpath=(~/.zfunc $fpath)\n");
    let env = Environment::new(Platform::Unix)
        .with_var("HOME", &home)
        .without_var("ZDOTDIR");
    let error = execute(&env, &disk, &Shell::Zsh, "tool", 7).expect_err("detect should fail");
    let report = assert_structural_failure(error, "detect");
    assert_eq!(report.operation, Operation::DetectActivation);
    assert_eq!(report.kind, FailureKind::ProfileCorrupted);
    assert_eq!(report.target_path, Some(completion_dir.join("_tool")));
    assert!(
        report
            .affected_locations
            .iter()
            .any(|path| has_name(path, ".zshrc"))
    );
    assert!(
        report
            .next_step
            .as_deref()
            .is_some_and(|text| text.contains(&zshrc.display().to_string()))
    );
}

#[test]
fn detect_reports_actual_profile_path_when_startup_file_is_unreadable() {
    let mut disk = Disk::new();
    let temp_root = temp_dir(&mut disk, "detect-zsh-unreadable-profile");
    let home = temp_root.join("home");
    let zshrc = home.join(".zshrc");
    let completion_dir = home.join(".zfunc");
    make_dir(&mut disk, &completion_dir);
    write(&mut disk, &completion_dir.join("_tool"), b"#compdef tool\n");
    make_dir(&mut disk, &zshrc);
    let env = Environment::new(Platform::Unix)
        .with_var("HOME", &home)
        .without_var("ZDOTDIR");
    let error = execute(&env, &disk, &Shell::Zsh, "tool", 7).expect_err("detect should fail");
    let report = assert_structural_failure(error, "detect");
    assert_eq!(report.operation, Operation::DetectActivation);
    assert_eq!(report.kind, FailureKind::ProfileUnavailable);
    assert!(
        report
            .next_step
            .as_deref()
            .is_some_and(|text| text.contains(&zshrc.display().to_string()))
    );
}

#[test]
fn detect_at_path_reports_unknown_for_custom_bash_path_without_managed_wiring() {
    let mut disk = Disk::new();
    let temp_root = temp_dir(&mut disk, "detect-custom-bash-manual");
    let home = temp_root.join("home");
    let target = temp_root.join("custom").join("tool.bash");
    make_dir(&mut disk, &target.parent().expect("target should have a parent"));
    write(&mut disk, &target, "complete -F _tool tool\n");
    let env = Environment::new(Platform::Unix)
        .with_var("HOME", &home)
        .without_var("XDG_DATA_HOME");
    let report =
        execute_at_path(&env, &disk, &Shell::Bash, "tool", &target, 7).unwrap();
    assert_eq!(report.mode, ActivationMode::Manual);
    assert_eq!(report.availability, Availability::Unknown);
}

#[test]
fn detect_at_path_keeps_reinstall_guidance_for_missing_custom_managed_bash_script() {
    let mut disk = Disk::new();
    let temp_root = temp_dir(&mut disk, "detect-custom-bash-missing-script");
    let home = temp_root.join("home");
    let target = temp_root.join("custom").join("tool.bash");
    make_dir(&mut disk, &home);
    write(
        &mut disk,
        &home.join(".bashrc"),
        format!(
            "# >>> shellcomp bash tool >>>\nif [ -f '{}' ]; then\n  . '{}'\nfi\n# <<< shellcomp bash tool <<<\n",
            target.display(),
            target.display()
        ),
    );
    let env = Environment::new(Platform::Unix)
        .with_var("HOME", &home)
        .without_var("XDG_DATA_HOME");
    let report =
        execute_at_path(&env, &disk, &Shell::Bash, "tool", &target, 7).unwrap();
    assert_eq!(report.mode, ActivationMode::ManagedRcBlock);
    assert_eq!(report.availability, Availability::ManualActionRequired);
    assert!(
        report
            .next_step
            .as_deref()
            .is_some_and(|text| text.contains("install command") || text.contains("install"))
    );
}

#[test]
fn detect_at_path_reports_manual_for_missing_custom_bash_script_without_managed_wiring() {
    let mut disk = Disk::new();
    let temp_root = temp_dir(&mut disk, "detect-custom-bash-missing-manual");
    let home = temp_root.join("home");
    let target = temp_root.join("custom").join("tool.bash");
    make_dir(&mut disk, &home);
    let env = Environment::new(Platform::Unix)
        .with_var("HOME", &home)
        .without_var("XDG_DATA_HOME");
    let report =
        execute_at_path(&env, &disk, &Shell::Bash, "tool", &target, 7).unwrap();
    assert_eq!(report.mode, ActivationMode::Manual);
    assert_eq!(report.availability, Availability::ManualActionRequired);
}

#[test]
fn detect_at_path_reports_profile_corruption_for_custom_bash_path() {
    let mut disk = Disk::new();
    let temp_root = temp_dir(&mut disk, "detect-custom-bash-corrupted-profile");
    let home = temp_root.join("home");
    let target = temp_root.join("custom").join("tool.bash");
    make_dir(&mut disk, &home);
    make_dir(&mut disk, &target.parent().expect("target should have a parent"));
    write(&mut disk, &target, "complete -F _tool tool\n");
    write(&mut disk, &home.join(".bashrc"), "# >>> shellcomp bash tool >>>\n. '/tmp/tool'\n");
    let env = Environment::new(Platform::Unix)
        .with_var("HOME", &home)
        .without_var("XDG_DATA_HOME");
    let error =
        execute_at_path(&env, &disk, &Shell::Bash, "tool", &target, 7).expect_err("detect should fail");
    let report = assert_structural_failure(error, "detect");
    assert_eq!(report.operation, Operation::DetectActivation);
    assert_eq!(report.kind, FailureKind::ProfileCorrupted);
    assert_eq!(report.target_path, Some(target));
}

#[test]
fn detect_at_path_reports_manual_for_non_autoloadable_zsh_target() {
    let mut disk = Disk::new();
    let temp_root = temp_dir(&mut disk, "detect-custom-zsh-manual");
    let home = temp_root.join("home");
    let target = temp_root.join("custom").join("tool.zsh");
    make_dir(&mut disk, &target.parent().expect("target should have a parent"));
    write(&mut disk, &target, "#compdef tool\n");
    let env = Environment::new(Platform::Unix)
        .with_var("HOME", &home)
        .without_var("ZDOTDIR");
    let report =
        execute_at_path(&env, &disk, &Shell::Zsh, "tool", &target, 7).unwrap();
    assert_eq!(report.mode, ActivationMode::Manual);
    assert_eq!(report.availability, Availability::Unknown);
}

#[test]
fn detect_at_path_reports_reinstall_guidance_for_missing_custom_fish_script() {
    let mut disk = Disk::new();
    let temp_root = temp_dir(&mut disk, "detect-custom-fish-missing");
    let target = temp_root.join("custom").join("tool.fish");
    let env = Environment::new(Platform::Unix);
    let report =
        execute_at_path(&env, &disk, &Shell::Fish, "tool", &target, 7).unwrap();
    assert_eq!(report.mode, ActivationMode::Manual);
    assert_eq!(report.availability, Availability::ManualActionRequired);
    assert!(
        report
            .next_step
            .as_deref()
            .is_some_and(|text| text.contains("install command") && text.contains("tool.fish"))
    );
}

#[test]
fn detect_at_path_reports_reinstall_guidance_for_missing_custom_non_autoloadable_zsh_script() {
    let mut disk = Disk::new();
    let temp_root = temp_dir(&mut disk, "detect-custom-zsh-missing-manual");
    let home = temp_root.join("home");
    let target = temp_root.join("custom").join("tool.zsh");
    let env = Environment::new(Platform::Unix)
        .with_var("HOME", &home)
        .without_var("ZDOTDIR");
    let report =
        execute_at_path(&env, &disk, &Shell::Zsh, "tool", &target, 7).unwrap();
    assert_eq!(report.mode, ActivationMode::Manual);
    assert_eq!(report.availability, Availability::ManualActionRequired);
    assert!(report.next_step.as_deref().is_some_and(|text| {
        text.contains("install command") && text.contains("tool.zsh") && text.contains("_tool")
    }));
}

#[test]
fn detect_at_path_reports_manual_for_missing_custom_autoloadable_zsh_script_without_wiring() {
    let mut disk = Disk::new();
    let temp_root = temp_dir(&mut disk, "detect-custom-zsh-missing-autoloadable");
    let home = temp_root.join("home");
    let target = temp_root.join("custom").join("_tool");
    let env = Environment::new(Platform::Unix)
        .with_var("HOME", &home)
        .without_var("ZDOTDIR");
    let report =
        execute_at_path(&env, &disk, &Shell::Zsh, "tool", &target, 7).unwrap();
    assert_eq!(report.mode, ActivationMode::Manual);
    assert_eq!(report.availability, Availability::ManualActionRequired);
}

#[test]
fn detect_at_path_returns_structured_failure_for_non_utf8_path() {
    let mut disk = Disk::new();
    let temp_root = temp_dir(&mut disk, "detect-non-utf8-path");
    let target = temp_root.join_path(&raw(b"tool-\xff.fish"));
    write(&mut disk, &target, "complete -c tool -f\n");
    let env = Environment::new(Platform::Unix);
    let error = execute_at_path(&env, &disk, &Shell::Fish, "tool", &target, 7)
        .expect_err("detect should fail structurally");
    let report = assert_structural_failure(error, "detect");
    assert_eq!(report.operation, Operation::DetectActivation);
    assert_eq!(report.kind, FailureKind::InvalidTargetPath);
    assert_eq!(report.target_path, Some(target));
    assert!(report.next_step.is_some());
}

#[test]
fn detect_at_path_rejects_relative_target_path() {
    let mut disk = Disk::new();
    let temp_root = temp_dir(&mut disk, "detect-relative-target");
    let env = Environment::new(Platform::Unix).with_var("HOME", &temp_root.join("home"));
    let error = execute_at_path(&env, &disk, &Shell::Bash, "tool", &p("custom/tool.bash"), 7)
    .expect_err("detect_at_path should reject relative path");
    let report = assert_structural_failure(error, "detect");
    assert_eq!(report.operation, Operation::DetectActivation);
    assert_eq!(report.kind, FailureKind::InvalidTargetPath);
}

#[test]
fn detect_at_path_rejects_symlink_path_segments() {
    let mut disk = Disk::new();
    let temp_root = temp_dir(&mut disk, "detect-symlink-target");
    let real_dir = temp_root.join("real");
    let link_dir = temp_root.join("link");
    let target = link_dir.join("tool.bash");
    make_dir(&mut disk, &real_dir);
    link(&mut disk, &real_dir, &link_dir);
    let error = execute_at_path(
        &Environment::new(Platform::Unix),
        &disk,
        &Shell::Bash,
        "tool",
        &target,
        7,
    )
        .expect_err("detect_at_path should reject symlink path");
    let report = assert_structural_failure(error, "detect");
    assert_eq!(report.operation, Operation::DetectActivation);
    assert_eq!(report.kind, FailureKind::InvalidTargetPath);
    assert_eq!(report.target_path, Some(target));
}

#[test]
fn detect_at_path_does_not_require_home_for_custom_powershell_path() {
    let mut disk = Disk::new();
    let temp_root = temp_dir(&mut disk, "detect-custom-powershell-no-home");
    let target = temp_root.join("custom").join("tool.ps1");
    make_dir(&mut disk, &target.parent().expect("target should have a parent"));
    write(&mut disk, &target, "# powershell completion\n");
    let env = Environment::new(Platform::Unix)
        .without_var("HOME")
        .without_var("XDG_DATA_HOME");
    let report = execute_at_path(&env, &disk, &Shell::Powershell, "tool", &target, 7).unwrap();
    assert_eq!(report.mode, ActivationMode::Manual);
    assert_eq!(report.availability, Availability::Unknown);
}

#[test]
fn detect_at_path_reports_reinstall_guidance_for_missing_custom_powershell_script_without_home() {
    let mut disk = Disk::new();
    let temp_root = temp_dir(&mut disk, "detect-custom-powershell-missing-no-home");
    let target = temp_root.join("custom").join("tool.ps1");
    let env = Environment::new(Platform::Unix)
        .without_var("HOME")
        .without_var("USERPROFILE")
        .without_var("XDG_DATA_HOME");
    let report = execute_at_path(&env, &disk, &Shell::Powershell, "tool", &target, 7).unwrap();
    assert_eq!(report.mode, ActivationMode::Manual);
    assert_eq!(report.availability, Availability::ManualActionRequired);
    assert!(report.next_step.as_deref().is_some_and(|text| {
        text.contains("install command") && text.contains("tool.ps1") && text.contains(". '")
    }));
}

#[test]
fn detect_at_path_reports_manual_for_missing_custom_powershell_script_without_managed_wiring() {
    let mut disk = Disk::new();
    let temp_root = temp_dir(&mut disk, "detect-custom-powershell-missing-manual");
    let home = temp_root.join("home");
    let target = temp_root.join("custom").join("tool.ps1");
    let env = Environment::new(Platform::Unix)
        .with_var("HOME", &home)
        .without_var("XDG_DATA_HOME");
    let report = execute_at_path(&env, &disk, &Shell::Powershell, "tool", &target, 7).unwrap();
    assert_eq!(report.mode, ActivationMode::Manual);
    assert_eq!(report.availability, Availability::ManualActionRequired);
}

#[test]
fn detect_at_path_reports_manual_for_missing_custom_elvish_script_without_managed_wiring() {
    let mut disk = Disk::new();
    let temp_root = temp_dir(&mut disk, "detect-custom-elvish-missing-manual");
    let home = temp_root.join("home");
    let target = temp_root.join("custom").join("tool.elv");
    let env = Environment::new(Platform::Unix)
        .with_var("HOME", &home)
        .without_var("XDG_CONFIG_HOME");
    let report =
        execute_at_path(&env, &disk, &Shell::Elvish, "tool", &target, 7).unwrap();
    assert_eq!(report.mode, ActivationMode::Manual);
    assert_eq!(report.availability, Availability::ManualActionRequired);
}

#[test]
fn detection_events_identify_the_completion_target_not_the_profile() {
    let mut disk = Disk::new();
    let root = temp_dir(&mut disk, "root");
    let env = Environment::new(Platform::Unix).with_var("HOME", &root);
    let installed = install::execute(
        &env,
        &mut disk,
        InstallRequest {
            shell: Shell::Zsh,
            program_name: "tool",
            script: b"completion",
            path_override: None,
        },
        7,
    ).unwrap();
    let mut events = Vec::new();
    for report in [
        execute(&env, &disk, &Shell::Zsh, "tool", 7).unwrap(),
        execute_at_path(&env, &disk, &Shell::Zsh, "tool", &installed.target_path, 7).unwrap(),
    ] {
        assert_eq!(report.location, Some(root.join(".zshrc")));
        let target = Some(&installed.target_path);
        let start = started_event(Operation::DetectActivation, &Shell::Zsh, "tool", 7, target);
        let end = succeeded_event(&start, target, 0);
        events.push(start);
        events.push(end);
    }
    assert_eq!(events.len(), 4);
    for event in events
        .iter()
        .filter(|event| event.phase == OperationEventPhase::Succeeded)
    {
        assert_eq!(event.target_path.as_ref(), Some(&installed.target_path));
    }
}

#[test]
fn invalid_profile_is_reported_without_relabeling_the_completion_target() {
    let mut disk = Disk::new();
    let root = temp_dir(&mut disk, "root");
    let env = Environment::new(Platform::Unix).with_var("HOME", &root);
    let target = paths::default_install_path(&env, &Shell::Zsh, "tool").unwrap();
    fs::write_if_changed(Platform::Unix, &mut disk, &target, b"completion").unwrap();
    let actual = root.join("actual-rc");
    let profile = root.join(".zshrc");
    write(&mut disk, &actual, "echo keep\n");
    link(&mut disk, &actual, &profile);
    let error = execute(&env, &disk, &Shell::Zsh, "tool", 7).unwrap_err();
    let report = error.as_failure().unwrap();
    assert_eq!(report.kind, FailureKind::ProfileUnavailable);
    assert_eq!(report.target_path.as_ref(), Some(&target));
    assert!(report.affected_locations.contains(&profile));
    assert_eq!(read(&disk, &actual), "echo keep\n");
}

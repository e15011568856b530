use shellcomp::shell::powershell::{detect, install, migrate, uninstall};
use shellcomp::{
    ActivationMode, Availability, Content, Disk, Environment, FileChange, FilePath,
    LegacyManagedBlock, Node, Platform,
};

fn p(text: &str) -> FilePath {
    FilePath::from_text(text)
}

fn make_dir(disk: &mut Disk, path: &FilePath) {
    let mut dir = Some(path.clone());
    while let Some(path) = dir {
        if !disk.is_there(&path) {
            disk.record(&path, Some(Node { link: None, readonly: false, mode: None, content: Content::Directory }));
        }
        dir = path.parent();
    }
}

fn temp_dir(disk: &mut Disk, label: &str) -> FilePath {
    let root = p("/temp").join(label);
    make_dir(disk, &root);
    root
}

fn write(disk: &mut Disk, path: &FilePath, contents: impl AsRef<[u8]>) {
    if let Some(parent) = path.parent() {
        make_dir(disk, &parent);
    }
    let content = Content::File(contents.as_ref().to_vec());
    disk.record(path, Some(Node { link: None, readonly: false, mode: None, content }));
}

fn read(disk: &Disk, path: &FilePath) -> String {
    String::from_utf8(disk.read(path).expect("file should be readable")).expect("text")
}

#[test]
fn install_reports_managed_profile_activation() {
    let mut disk = Disk::new();
    let temp_root = temp_dir(&mut disk, "powershell-install");
    let home = temp_root.join("home");
    let env = Environment::new(Platform::Unix)
        .with_var("HOME", &home)
        .without_var("XDG_CONFIG_HOME");
    let target = home.join(".local/share/powershell/completions/tool.ps1");
    let report = install(&env, &mut disk, "tool", &target).expect("install should work");
    assert_eq!(report.report.mode, ActivationMode::ManagedRcBlock);
    assert_eq!(
        report.report.availability,
        Availability::AvailableAfterNewShell
    );
    assert!(
        report
            .report
            .next_step
            .as_deref()
            .is_some_and(|text| text.contains("profile.ps1"))
    );
}

#[test]
fn install_next_step_uses_executable_dot_source_command() {
    let mut disk = Disk::new();
    let temp_root = temp_dir(&mut disk, "powershell-install-next-step");
    let home = temp_root.join("home with space");
    let env = Environment::new(Platform::Unix)
        .with_var("HOME", &home)
        .without_var("XDG_CONFIG_HOME");
    let target = home.join(".local/share/powershell/completions/tool.ps1");
    let report = install(&env, &mut disk, "tool", &target).expect("install should work");
    let next_step = report.report.next_step.expect("next_step should exist");
    assert!(next_step.contains("run `. '"));
    assert!(next_step.contains("home with space/.config/powershell/profile.ps1"));
}

#[test]
fn detect_reports_managed_profile_when_script_exists() {
    let mut disk = Disk::new();
    let temp_root = temp_dir(&mut disk, "powershell-detect");
    let home = temp_root.join("home");
    let env = Environment::new(Platform::Unix)
        .with_var("HOME", &home)
        .without_var("XDG_CONFIG_HOME");
    let target = home.join(".local/share/powershell/completions/tool.ps1");
    make_dir(&mut disk, &target.parent().expect("target should have parent"));
    write(&mut disk, &target, "# powershell completion");
    install(&env, &mut disk, "tool", &target).expect("install should work");
    let report = detect(&env, &disk, "tool", &target).expect("detect should work");
    assert_eq!(report.mode, ActivationMode::ManagedRcBlock);
    assert_eq!(report.availability, Availability::AvailableAfterNewShell);
    assert_eq!(
        report.location,
        Some(env.powershell_profile_path().expect("profile path should resolve"))
    );
}

#[test]
fn detect_requires_reinstall_when_profile_block_exists_but_script_is_missing() {
    let mut disk = Disk::new();
    let temp_root = temp_dir(&mut disk, "powershell-detect-missing-script");
    let home = temp_root.join("home");
    let env = Environment::new(Platform::Unix)
        .with_var("HOME", &home)
        .without_var("XDG_CONFIG_HOME")
        .without_var("XDG_DATA_HOME");
    let target = home.join(".local/share/powershell/completions/tool.ps1");
    let profile = env.powershell_profile_path().expect("profile path should resolve");
    make_dir(&mut disk, &profile.parent().expect("profile should have parent"));
    write(
        &mut disk,
        &profile,
        "# >>> shellcomp powershell tool >>>\n$shellcompCompletion = '/tmp/tool.ps1'\nif (Test-Path -LiteralPath $shellcompCompletion -PathType Leaf) {\n  . $shellcompCompletion\n}\nRemove-Variable shellcompCompletion -ErrorAction SilentlyContinue\n# <<< shellcomp powershell tool <<<\n",
    );
    let report = detect(&env, &disk, "tool", &target).expect("detect should work");
    assert_eq!(report.availability, Availability::ManualActionRequired);
    assert_eq!(report.location, Some(target));
    assert!(
        report
            .next_step
            .as_deref()
            .is_some_and(|text| text.contains("install command") || text.contains("reinstall"))
    );
}

#[test]
fn detect_reports_actionable_guidance_when_profile_block_is_missing() {
    let mut disk = Disk::new();
    let temp_root = temp_dir(&mut disk, "powershell-detect-unwired");
    let home = temp_root.join("home");
    let env = Environment::new(Platform::Unix)
        .with_var("HOME", &home)
        .without_var("XDG_CONFIG_HOME");
    let target = home.join(".local/share/powershell/completions/tool.ps1");
    make_dir(&mut disk, &target.parent().expect("target should have parent"));
    write(&mut disk, &target, "# powershell completion");
    let report = detect(&env, &disk, "tool", &target).expect("detect should work");
    assert_eq!(report.mode, ActivationMode::ManagedRcBlock);
    assert_eq!(report.availability, Availability::ManualActionRequired);
    assert_eq!(
        report.location,
        Some(env.powershell_profile_path().expect("profile path should resolve"))
    );
    assert!(report.next_step.as_deref().is_some_and(|text| {
        text.contains("$PROFILE.CurrentUserAllHosts") && text.contains("tool.ps1")
    }));
}

#[test]
fn profile_path_ignores_xdg_config_home_override() {
    let env = Environment::new(Platform::Unix)
        .with_var("HOME", &p("/tmp/home"))
        .with_var("XDG_CONFIG_HOME", &p("/tmp/xdg-config"));
    assert_eq!(
        env.powershell_profile_path().expect("profile path should resolve"),
        p("/tmp/home/.config/powershell/profile.ps1")
    );
}

#[test]
fn profile_path_uses_windows_documents_directory() {
    let env = Environment::new(Platform::Windows)
        .with_var("USERPROFILE", &p(r"C:\Users\demo"))
        .without_var("HOME")
        .without_var("XDG_CONFIG_HOME");
    assert_eq!(
        env.powershell_profile_path().expect("profile path should resolve"),
        p(r"C:\Users\demo")
            .on(Platform::Windows)
            .join("Documents")
            .join("PowerShell")
            .join("profile.ps1")
    );
}

#[test]
fn uninstall_reports_profile_cleanup() {
    let mut disk = Disk::new();
    let temp_root = temp_dir(&mut disk, "powershell-uninstall");
    let home = temp_root.join("home");
    let env = Environment::new(Platform::Unix)
        .with_var("HOME", &home)
        .without_var("XDG_CONFIG_HOME");
    let target = home.join(".local/share/powershell/completions/tool.ps1");
    install(&env, &mut disk, "tool", &target).expect("install should work");
    let report = uninstall(&env, &mut disk, "tool", &target).expect("uninstall should work");
    assert_eq!(report.cleanup.mode, ActivationMode::ManagedRcBlock);
    assert_eq!(report.cleanup.change, FileChange::Removed);
}

#[test]
fn migrate_rewrites_legacy_profile_blocks() {
    let mut disk = Disk::new();
    let temp_root = temp_dir(&mut disk, "powershell-migrate");
    let home = temp_root.join("home");
    let env = Environment::new(Platform::Unix)
        .with_var("HOME", &home)
        .without_var("XDG_CONFIG_HOME");
    let profile = env.powershell_profile_path().expect("profile path should resolve");
    let target = home.join(".local/share/powershell/completions/tool.ps1");
    make_dir(&mut disk, &profile.parent().expect("profile should have parent"));
    write(&mut disk, &profile, "# >>> legacy tool >>>\n. '/tmp/tool.ps1'\n# <<< legacy tool <<<\n");
    let report = migrate(
        &env,
        &mut disk,
        "tool",
        &target,
        &vec![LegacyManagedBlock {
            start_marker: "# >>> legacy tool >>>".to_owned(),
            end_marker: "# <<< legacy tool <<<".to_owned(),
        }],
    )
    .expect("migration should work");
    assert_eq!(report.legacy_change, FileChange::Removed);
    assert_eq!(report.managed_change, FileChange::Created);
    let rendered = read(&disk, &profile);
    assert!(rendered.contains("shellcomp powershell tool"));
    assert!(!rendered.contains("legacy tool"));
}

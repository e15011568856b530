use shellcomp::paths::rc_elv_path;
use shellcomp::shell::elvish::{detect, elvish_managed_block, install, migrate, uninstall};
use shellcomp::{
    ActivationMode, Availability, Content, Disk, Environment, FileChange, FilePath,
    LegacyManagedBlock, Node, Platform,
};

fn p(text: &str) -> FilePath {
    FilePath::from_text(text)
}

fn make_dir(disk: &mut Disk, path: &FilePath) {
    let mut dir = Some(path.clone());
    while let Some(path) = dir {
        if !disk.is_there(&path) {
            disk.record(&path, Some(Node { link: None, readonly: false, mode: None, content: Content::Directory }));
        }
        dir = path.parent();
    }
}

fn temp_dir(disk: &mut Disk, label: &str) -> FilePath {
    let root = p("/temp").join(label);
    make_dir(disk, &root);
    root
}

fn write(disk: &mut Disk, path: &FilePath, contents: impl AsRef<[u8]>) {
    if let Some(parent) = path.parent() {
        make_dir(disk, &parent);
    }
    let content = Content::File(contents.as_ref().to_vec());
    disk.record(path, Some(Node { link: None, readonly: false, mode: None, content }));
}

fn read(disk: &Disk, path: &FilePath) -> String {
    String::from_utf8(disk.read(path).expect("file should be readable")).expect("text")
}

#[test]
fn install_reports_managed_rc_guidance() {
    let mut disk = Disk::new();
    let temp_root = temp_dir(&mut disk, "elvish-install");
    let home = temp_root.join("home");
    let env = Environment::new(Platform::Unix)
        .with_var("HOME", &home)
        .without_var("XDG_CONFIG_HOME");
    let report = install(
        &env,
        &mut disk,
        "tool",
        &home.join(".config/elvish/lib/shellcomp/tool.elv"),
    )
    .expect("install should work");
    assert_eq!(report.report.mode, ActivationMode::ManagedRcBlock);
    assert_eq!(
        report.report.availability,
        Availability::AvailableAfterNewShell
    );
    assert!(
        report
            .report
            .next_step
            .as_deref()
            .is_some_and(|text| text.contains("rc.elv"))
    );
}

#[test]
fn install_next_step_uses_executable_eval_command_for_rc_path() {
    let mut disk = Disk::new();
    let temp_root = temp_dir(&mut disk, "elvish-install-next-step");
    let home = temp_root.join("home with space");
    let env = Environment::new(Platform::Unix)
        .with_var("HOME", &home)
        .without_var("XDG_CONFIG_HOME");
    let target = home.join(".config/elvish/lib/shellcomp/tool.elv");
    let report = install(&env, &mut disk, "tool", &target).expect("install should work");
    let next_step = report.report.next_step.expect("next_step should exist");
    assert!(next_step.contains("eval (slurp < '"));
    assert!(next_step.contains("home with space/.config/elvish/rc.elv"));
}

#[test]
fn managed_block_imports_os_module_before_using_os_exists() {
    let block = elvish_managed_block(
        "tool",
        &p("/tmp/home/.config/elvish/lib/shellcomp/tool.elv"),
    )
    .expect("block should be valid");
    assert!(block.body.starts_with("use os\n"));
    assert!(block.body.contains("if (os:exists"));
}

#[test]
fn detect_reports_managed_when_script_exists() {
    let mut disk = Disk::new();
    let temp_root = temp_dir(&mut disk, "elvish-detect");
    let home = temp_root.join("home");
    let env = Environment::new(Platform::Unix)
        .with_var("HOME", &home)
        .without_var("XDG_CONFIG_HOME");
    let target = home.join(".config/elvish/lib/shellcomp/tool.elv");
    make_dir(&mut disk, &target.parent().expect("target should have a parent"));
    write(&mut disk, &target, "# elvish completion");
    install(&env, &mut disk, "tool", &target).expect("install should work");
    let report = detect(&env, &disk, "tool", &target).expect("detect should work");
    assert_eq!(report.mode, ActivationMode::ManagedRcBlock);
    assert_eq!(report.availability, Availability::AvailableAfterNewShell);
    assert_eq!(
        report.location,
        Some(rc_elv_path(&env).expect("rc path should resolve"))
    );
}

#[test]
fn detect_reports_actionable_guidance_when_rc_block_is_missing() {
    let mut disk = Disk::new();
    let temp_root = temp_dir(&mut disk, "elvish-detect-unwired");
    let home = temp_root.join("home with space");
    let env = Environment::new(Platform::Unix)
        .with_var("HOME", &home)
        .without_var("XDG_CONFIG_HOME");
    let target = home.join(".config/elvish/lib/shellcomp/tool.elv");
    make_dir(&mut disk, &target.parent().expect("target should have a parent"));
    write(&mut disk, &target, "# elvish completion");
    let report = detect(&env, &disk, "tool", &target).expect("detect should work");
    assert_eq!(report.mode, ActivationMode::ManagedRcBlock);
    assert_eq!(report.availability, Availability::ManualActionRequired);
    assert_eq!(
        report.location,
        Some(rc_elv_path(&env).expect("rc path should resolve"))
    );
    assert!(report.next_step.as_deref().is_some_and(|text| {
        text.contains("eval (slurp < '") && text.contains("tool.elv") && text.contains("rc.elv")
    }));
}

#[test]
fn detect_requires_reinstall_when_rc_block_exists_but_script_is_missing() {
    let mut disk = Disk::new();
    let temp_root = temp_dir(&mut disk, "elvish-detect-missing-script");
    let home = temp_root.join("home");
    let env = Environment::new(Platform::Unix)
        .with_var("HOME", &home)
        .without_var("XDG_CONFIG_HOME");
    let target = home.join(".config/elvish/lib/shellcomp/tool.elv");
    let rc = rc_elv_path(&env).expect("rc path should resolve");
    make_dir(&mut disk, &rc.parent().expect("rc should have parent"));
    write(
        &mut disk,
        &rc,
        "# >>> shellcomp elvish tool >>>\nif (os:exists '/tmp/tool.elv') {\n  eval (slurp < '/tmp/tool.elv')\n}\n# <<< shellcomp elvish tool <<<\n",
    );
    let report = detect(&env, &disk, "tool", &target).expect("detect should work");
    assert_eq!(report.availability, Availability::ManualActionRequired);
    assert_eq!(report.location, Some(target));
    assert!(
        report
            .next_step
            .as_deref()
            .is_some_and(|text| text.contains("install command") || text.contains("reinstall"))
    );
}

#[test]
fn uninstall_reports_rc_cleanup() {
    let mut disk = Disk::new();
    let temp_root = temp_dir(&mut disk, "elvish-uninstall");
    let home = temp_root.join("home");
    let env = Environment::new(Platform::Unix)
        .with_var("HOME", &home)
        .without_var("XDG_CONFIG_HOME");
    let target = home.join(".config/elvish/lib/shellcomp/tool.elv");
    install(&env, &mut disk, "tool", &target).expect("install should work");
    let report = uninstall(&env, &mut disk, "tool", &target).expect("uninstall should work");
    assert_eq!(report.cleanup.mode, ActivationMode::ManagedRcBlock);
    assert_eq!(report.cleanup.change, FileChange::Removed);
}

#[test]
fn migrate_rewrites_legacy_rc_blocks() {
    let mut disk = Disk::new();
    let temp_root = temp_dir(&mut disk, "elvish-migrate");
    let home = temp_root.join("home");
    let env = Environment::new(Platform::Unix)
        .with_var("HOME", &home)
        .without_var("XDG_CONFIG_HOME");
    let rc = rc_elv_path(&env).expect("rc path should resolve");
    let target = home.join(".config/elvish/lib/shellcomp/tool.elv");
    make_dir(&mut disk, &rc.parent().expect("rc should have parent"));
    write(
        &mut disk,
        &rc,
        "# >>> legacy tool >>>\neval (slurp < '/tmp/tool.elv')\n# <<< legacy tool <<<\n",
    );
    let report = migrate(
        &env,
        &mut disk,
        "tool",
        &target,
        &vec![LegacyManagedBlock {
            start_marker: "# >>> legacy tool >>>".to_owned(),
            end_marker: "# <<< legacy tool <<<".to_owned(),
        }],
    )
    .expect("migration should work");
    assert_eq!(report.legacy_change, FileChange::Removed);
    assert_eq!(report.managed_change, FileChange::Created);
    let rendered = read(&disk, &rc);
    assert!(rendered.contains("shellcomp elvish tool"));
    assert!(!rendered.contains("legacy tool"));
}

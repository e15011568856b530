use shellcomp::shell::zsh::{detect, install, zsh_managed_block};
use shellcomp::{
    ActivationMode, Availability, Content, Disk, Environment, Error, FilePath, Node, Platform,
};

fn p(text: &str) -> FilePath {
    FilePath::from_text(text)
}

fn make_dir(disk: &mut Disk, path: &FilePath) {
    let mut dir = Some(path.clone());
    while let Some(path) = dir {
        if !disk.is_there(&path) {
            disk.record(&path, Some(Node { link: None, readonly: false, mode: None, content: Content::Directory }));
        }
        dir = path.parent();
    }
}

fn temp_dir(disk: &mut Disk, label: &str) -> FilePath {
    let root = p("/temp").join(label);
    make_dir(disk, &root);
    root
}

fn write(disk: &mut Disk, path: &FilePath, contents: impl AsRef<[u8]>) {
    if let Some(parent) = path.parent() {
        make_dir(disk, &parent);
    }
    let content = Content::File(contents.as_ref().to_vec());
    disk.record(path, Some(Node { link: None, readonly: false, mode: None, content }));
}

#[test]
fn managed_block_uses_stable_zfunc_variable() {
    let block = zsh_managed_block("tool", &p("/tmp/home/.zfunc/_tool")).expect("block is valid");
    assert!(block.body.contains("shellcomp_zfunc_dir="));
    assert!(block.body.contains("shellcomp_zfunc_changed=0"));
    assert!(block.body.contains("type compdef"));
    assert!(block.body.contains("compinit -i"));
    assert!(block.body.contains("shellcomp_zfunc_changed == 1"));
    assert!(block.body.contains("unset shellcomp_zfunc_changed"));
    assert!(block.body.contains("unset shellcomp_zfunc_dir"));
}

#[test]
fn install_errors_when_zshrc_is_not_writable() {
    let mut disk = Disk::new();
    let temp_root = temp_dir(&mut disk, "install-zsh-manual-fallback");
    let home = temp_root.join("home");
    make_dir(&mut disk, &home.join(".zshrc"));
    let env = Environment::new(Platform::Unix)
        .with_var("HOME", &home)
        .without_var("ZDOTDIR");
    let error =
        install(&env, &mut disk, "tool", &home.join(".zfunc/_tool")).expect_err("install should fail");
    assert!(matches!(error, Error::Io { .. }));
}

#[test]
fn install_quotes_zshrc_path_in_next_step_when_zdotdir_has_spaces() {
    let mut disk = Disk::new();
    let temp_root = temp_dir(&mut disk, "install-zsh-next-step");
    let home = temp_root.join("home");
    let zdotdir = temp_root.join("zdot dir");
    let env = Environment::new(Platform::Unix)
        .with_var("HOME", &home)
        .with_var("ZDOTDIR", &zdotdir);
    let report =
        install(&env, &mut disk, "tool", &zdotdir.join(".zfunc/_tool")).expect("install should work");
    let next_step = report.report.next_step.expect("next_step should exist");
    assert!(next_step.contains("source '"));
    assert!(next_step.contains("zdot dir/.zshrc"));
}

#[test]
fn detect_uses_actual_zdotdir_path_in_next_step() {
    let mut disk = Disk::new();
    let temp_root = temp_dir(&mut disk, "detect-zsh-zdotdir-next-step");
    let home = temp_root.join("home");
    let zdotdir = temp_root.join("zdot dir");
    let target = zdotdir.join(".zfunc/_tool");
    make_dir(&mut disk, &target.parent().expect("target should have a parent"));
    write(&mut disk, &target, "#compdef tool\n");
    let env = Environment::new(Platform::Unix)
        .with_var("HOME", &home)
        .with_var("ZDOTDIR", &zdotdir);
    install(&env, &mut disk, "tool", &target).expect("install should work");
    let report = detect(&env, &disk, "tool", &target).expect("detect should work");
    assert_eq!(report.mode, ActivationMode::ManagedRcBlock);
    assert_eq!(report.availability, Availability::AvailableAfterSource);
    let next_step = report.next_step.expect("next_step should exist");
    assert!(next_step.contains("source '"));
    assert!(next_step.contains("zdot dir/.zshrc"));
    assert!(!next_step.contains("~/.zshrc"));
}

#[test]
fn detect_unwired_guidance_uses_actual_zfunc_directory() {
    let mut disk = Disk::new();
    let temp_root = temp_dir(&mut disk, "detect-zsh-unwired-guidance");
    let home = temp_root.join("home");
    let zdotdir = temp_root.join("zdot dir");
    let target = zdotdir.join(".zfunc/_tool");
    make_dir(&mut disk, &target.parent().expect("target should have a parent"));
    write(&mut disk, &target, "#compdef tool\n");
    let env = Environment::new(Platform::Unix)
        .with_var("HOME", &home)
        .with_var("ZDOTDIR", &zdotdir);
    let report = detect(&env, &disk, "tool", &target).expect("detect should work");
    assert_eq!(report.mode, ActivationMode::ManagedRcBlock);
    assert_eq!(report.availability, Availability::ManualActionRequired);
    let next_step = report.next_step.expect("next_step should exist");
    assert!(next_step.contains("fpath"));
    assert!(next_step.contains("zdot dir/.zfunc"));
    assert!(!next_step.contains("~/.zshrc"));
}

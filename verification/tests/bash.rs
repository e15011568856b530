use shellcomp::paths;
use shellcomp::shell::bash::{detect, install};
use shellcomp::shell::discovery::{
    file_reaches_loader, line_sources_loader, loader_active_now, loader_status, resolve_sourced_path,
    sources_profile_directory, LoaderStatus,
};
use shellcomp::shell::syntax::{command_lines, line_source_targets, unquote_shell_token};
use shellcomp::{
    ActivationMode, Availability, Content, Disk, Environment, Error, FilePath, Node, Platform, Shell,
};

const LOADER: &str = "/usr/share/bash-completion/bash_completion";

fn p(text: &str) -> FilePath {
    FilePath::from_text(text)
}

fn make_dir(disk: &mut Disk, path: &FilePath) {
    let mut dir = Some(path.clone());
    while let Some(path) = dir {
        if !disk.is_there(&path) {
            disk.record(&path, Some(Node { link: None, readonly: false, mode: None, content: Content::Directory }));
        }
        dir = path.parent();
    }
}

fn temp_dir(disk: &mut Disk, label: &str) -> FilePath {
    let root = p("/temp").join(label);
    make_dir(disk, &root);
    root
}

fn write(disk: &mut Disk, path: &FilePath, contents: impl AsRef<[u8]>) {
    if let Some(parent) = path.parent() {
        make_dir(disk, &parent);
    }
    let content = Content::File(contents.as_ref().to_vec());
    disk.record(path, Some(Node { link: None, readonly: false, mode: None, content }));
}

fn read(disk: &Disk, path: &FilePath) -> String {
    String::from_utf8(disk.read(path).expect("file should be readable")).expect("text")
}

fn lines(contents: &str) -> Vec<String> {
    contents.lines().map(|line| line.to_string()).collect()
}

#[test]
fn loader_status_is_active_when_env_hint_is_present() {
    let disk = Disk::new();
    let env = Environment::new(Platform::Unix).with_var("BASH_COMPLETION_VERSINFO", &p("2"));
    let status = loader_status(&env, &disk).expect("status should resolve");
    assert_eq!(status, LoaderStatus::ActiveNow);
    assert!(loader_active_now(&env));
}

#[test]
fn loader_status_is_present_but_unwired_when_only_loader_file_exists() {
    let mut disk = Disk::new();
    let temp_root = temp_dir(&mut disk, "bash-loader-present-but-unwired");
    let home = temp_root.join("home");
    make_dir(&mut disk, &home);
    write(&mut disk, &p("/usr/share/bash-completion/bash_completion"), "");
    let env = Environment::new(Platform::Unix)
        .with_var("HOME", &home)
        .without_var("BASH_COMPLETION_VERSINFO");
    let status = loader_status(&env, &disk).expect("status should resolve");
    assert_eq!(status, LoaderStatus::PresentButUnwired);
}

#[test]
fn loader_status_is_wired_when_bash_profile_sources_known_loader() {
    let mut disk = Disk::new();
    let temp_root = temp_dir(&mut disk, "bash-loader-bash-profile");
    let home = temp_root.join("home");
    make_dir(&mut disk, &home);
    write(
        &mut disk,
        &home.join(".bash_profile"),
        "source /usr/share/bash-completion/bash_completion\n",
    );
    write(&mut disk, &p("/usr/share/bash-completion/bash_completion"), "");
    let env = Environment::new(Platform::Unix)
        .with_var("HOME", &home)
        .without_var("BASH_COMPLETION_VERSINFO");
    let status = loader_status(&env, &disk).expect("status should resolve");
    assert_eq!(
        status,
        LoaderStatus::WiredInStartup(home.join(".bash_profile"))
    );
}

#[test]
fn loader_status_accepts_tab_after_source_keyword() {
    let mut disk = Disk::new();
    let temp_root = temp_dir(&mut disk, "bash-loader-source-tab");
    let home = temp_root.join("home");
    make_dir(&mut disk, &home);
    write(
        &mut disk,
        &home.join(".bash_profile"),
        "source\t/usr/share/bash-completion/bash_completion\n",
    );
    write(&mut disk, &p("/usr/share/bash-completion/bash_completion"), "");
    let env = Environment::new(Platform::Unix)
        .with_var("HOME", &home)
        .without_var("BASH_COMPLETION_VERSINFO");
    let status = loader_status(&env, &disk).expect("status should resolve");
    assert_eq!(
        status,
        LoaderStatus::WiredInStartup(home.join(".bash_profile"))
    );
}

#[test]
fn loader_status_accepts_tab_separated_then_dot_bashrc_chain() {
    let mut disk = Disk::new();
    let temp_root = temp_dir(&mut disk, "bash-loader-then-dot-tab-chain");
    let home = temp_root.join("home");
    make_dir(&mut disk, &home);
    write(
        &mut disk,
        &home.join(".bash_profile"),
        "if [ -f \"$HOME/.bashrc\" ]; then\t.\t\"$HOME/.bashrc\"; fi\n",
    );
    write(&mut disk, &home.join(".bashrc"), "source /usr/share/bash-completion/bash_completion\n");
    write(&mut disk, &p("/usr/share/bash-completion/bash_completion"), "");
    let env = Environment::new(Platform::Unix)
        .with_var("HOME", &home)
        .without_var("BASH_COMPLETION_VERSINFO");
    let status = loader_status(&env, &disk).expect("status should resolve");
    assert_eq!(status, LoaderStatus::WiredInStartup(home.join(".bashrc")));
}

#[test]
fn loader_status_follows_tilde_sourced_bashrc_chain() {
    let mut disk = Disk::new();
    let temp_root = temp_dir(&mut disk, "bash-loader-tilde-chain");
    let home = temp_root.join("home");
    make_dir(&mut disk, &home);
    write(&mut disk, &home.join(".bash_profile"), "if [ -f ~/.bashrc ]; then\n  . ~/.bashrc\nfi\n");
    write(&mut disk, &home.join(".bashrc"), "source /usr/share/bash-completion/bash_completion\n");
    write(&mut disk, &p("/usr/share/bash-completion/bash_completion"), "");
    let env = Environment::new(Platform::Unix)
        .with_var("HOME", &home)
        .without_var("BASH_COMPLETION_VERSINFO");
    let status = loader_status(&env, &disk).expect("status should resolve");
    assert_eq!(status, LoaderStatus::WiredInStartup(home.join(".bashrc")));
}

#[test]
fn loader_status_follows_home_expanded_bashrc_chain() {
    let mut disk = Disk::new();
    let temp_root = temp_dir(&mut disk, "bash-loader-home-chain");
    let home = temp_root.join("home");
    make_dir(&mut disk, &home);
    write(
        &mut disk,
        &home.join(".bash_profile"),
        "if [ -f \"$HOME/.bashrc\" ]; then\n  source \"$HOME/.bashrc\"\nfi\n",
    );
    write(&mut disk, &home.join(".bashrc"), "source /usr/share/bash-completion/bash_completion\n");
    write(&mut disk, &p("/usr/share/bash-completion/bash_completion"), "");
    let env = Environment::new(Platform::Unix)
        .with_var("HOME", &home)
        .without_var("BASH_COMPLETION_VERSINFO");
    let status = loader_status(&env, &disk).expect("status should resolve");
    assert_eq!(status, LoaderStatus::WiredInStartup(home.join(".bashrc")));
}

#[test]
fn loader_status_is_wired_when_bashrc_sources_etc_bashrc_that_sources_loader() {
    let mut disk = Disk::new();
    let temp_root = temp_dir(&mut disk, "bash-loader-via-etc-bashrc");
    let home = temp_root.join("home");
    make_dir(&mut disk, &home);
    write(&mut disk, &home.join(".bashrc"), "source /etc/bashrc\n");
    write(&mut disk, &p("/usr/share/bash-completion/bash_completion"), "");
    write(&mut disk, &p("/etc/bashrc"), "source /usr/share/bash-completion/bash_completion\n");
    let env = Environment::new(Platform::Unix)
        .with_var("HOME", &home)
        .without_var("BASH_COMPLETION_VERSINFO");
    let status = loader_status(&env, &disk).expect("status should resolve");
    assert_eq!(
        status,
        LoaderStatus::WiredInStartup(p("/etc/bashrc"))
    );
}

#[test]
fn loader_status_does_not_assume_etc_bashrc_is_reachable_without_startup_wiring() {
    let mut disk = Disk::new();
    write(&mut disk, &p("/usr/share/bash-completion/bash_completion"), "");
    write(&mut disk, &p("/etc/bashrc"), "source /usr/share/bash-completion/bash_completion\n");
    let env = Environment::new(Platform::Unix)
        .with_var("HOME", &p("/tmp/test-home"))
        .without_var("BASH_COMPLETION_VERSINFO");
    let status = loader_status(&env, &disk).expect("status should resolve");
    assert_eq!(status, LoaderStatus::PresentButUnwired);
}

#[test]
fn loader_status_is_wired_when_profile_d_script_sources_known_loader() {
    let mut disk = Disk::new();
    write(&mut disk, &p("/usr/share/bash-completion/bash_completion"), "");
    write(
        &mut disk,
        &p("/etc/profile"),
        "for i in /etc/profile.d/*.sh; do\n  [ -r \"$i\" ] && . \"$i\"\ndone\n",
    );
    write(
        &mut disk,
        &p("/etc/profile.d/bash-completion.sh"),
        "source /usr/share/bash-completion/bash_completion\n",
    );
    let env = Environment::new(Platform::Unix)
        .with_var("HOME", &p("/tmp/test-home"))
        .without_var("BASH_COMPLETION_VERSINFO");
    let status = loader_status(&env, &disk).expect("status should resolve");
    assert_eq!(
        status,
        LoaderStatus::WiredInStartup(p("/etc/profile.d/bash-completion.sh"))
    );
}

#[test]
fn loader_status_does_not_assume_profile_d_is_reachable_without_startup_wiring() {
    let mut disk = Disk::new();
    write(&mut disk, &p("/usr/share/bash-completion/bash_completion"), "");
    write(
        &mut disk,
        &p("/etc/profile.d/bash-completion.sh"),
        "source /usr/share/bash-completion/bash_completion\n",
    );
    let env = Environment::new(Platform::Unix)
        .with_var("HOME", &p("/tmp/test-home"))
        .without_var("BASH_COMPLETION_VERSINFO");
    let status = loader_status(&env, &disk).expect("status should resolve");
    assert_eq!(status, LoaderStatus::PresentButUnwired);
}

#[test]
fn loader_status_does_not_treat_unrelated_profile_d_source_as_loader_wiring() {
    let mut disk = Disk::new();
    write(&mut disk, &p("/usr/share/bash-completion/bash_completion"), "");
    write(&mut disk, &p("/etc/profile"), "source /etc/profile.d/other.sh\n");
    write(
        &mut disk,
        &p("/etc/profile.d/bash-completion.sh"),
        "source /usr/share/bash-completion/bash_completion\n",
    );
    write(&mut disk, &p("/etc/profile.d/other.sh"), "echo unrelated\n");
    let env = Environment::new(Platform::Unix)
        .with_var("HOME", &p("/tmp/test-home"))
        .without_var("BASH_COMPLETION_VERSINFO");
    let status = loader_status(&env, &disk).expect("status should resolve");
    assert_eq!(status, LoaderStatus::PresentButUnwired);
}

#[test]
fn loader_status_is_wired_when_profile_directly_sources_non_sh_profile_d_script() {
    let mut disk = Disk::new();
    write(&mut disk, &p("/usr/share/bash-completion/bash_completion"), "");
    write(&mut disk, &p("/etc/profile"), "source /etc/profile.d/bash_completion\n");
    write(
        &mut disk,
        &p("/etc/profile.d/bash_completion"),
        "source /usr/share/bash-completion/bash_completion\n",
    );
    let env = Environment::new(Platform::Unix)
        .with_var("HOME", &p("/tmp/test-home"))
        .without_var("BASH_COMPLETION_VERSINFO");
    let status = loader_status(&env, &disk).expect("status should resolve");
    assert_eq!(
        status,
        LoaderStatus::WiredInStartup(p("/etc/profile.d/bash_completion"))
    );
}

#[test]
fn loader_status_does_not_treat_run_parts_child_processes_as_wiring() {
    let mut disk = Disk::new();
    write(&mut disk, &p("/usr/share/bash-completion/bash_completion"), "");
    write(&mut disk, &p("/etc/profile"), "run-parts /etc/profile.d\n");
    write(
        &mut disk,
        &p("/etc/profile.d/bash_completion"),
        "source /usr/share/bash-completion/bash_completion\n",
    );
    let env = Environment::new(Platform::Unix)
        .with_var("HOME", &p("/tmp/test-home"))
        .without_var("BASH_COMPLETION_VERSINFO");
    let status = loader_status(&env, &disk).expect("status should resolve");
    assert_eq!(status, LoaderStatus::PresentButUnwired);
}

#[test]
fn loader_status_does_not_treat_different_profile_d_prefix_as_reachable() {
    let mut disk = Disk::new();
    write(&mut disk, &p("/usr/share/bash-completion/bash_completion"), "");
    write(
        &mut disk,
        &p("/etc/profile"),
        "for i in /etc/profile.d-custom/*.sh; do . \"$i\"; done\nrun-parts /etc/profile.d-custom\n",
    );
    write(
        &mut disk,
        &p("/etc/profile.d/bash-completion.sh"),
        "source /usr/share/bash-completion/bash_completion\n",
    );
    let env = Environment::new(Platform::Unix)
        .with_var("HOME", &p("/tmp/test-home"))
        .without_var("BASH_COMPLETION_VERSINFO");
    let status = loader_status(&env, &disk).expect("status should resolve");
    assert_eq!(status, LoaderStatus::PresentButUnwired);
}

#[test]
fn loader_status_does_not_treat_echoed_profile_d_glob_as_wiring() {
    let mut disk = Disk::new();
    write(&mut disk, &p("/usr/share/bash-completion/bash_completion"), "");
    write(&mut disk, &p("/etc/profile"), "echo /etc/profile.d/*.sh >/dev/null\n");
    write(
        &mut disk,
        &p("/etc/profile.d/bash-completion.sh"),
        "source /usr/share/bash-completion/bash_completion\n",
    );
    let env = Environment::new(Platform::Unix)
        .with_var("HOME", &p("/tmp/test-home"))
        .without_var("BASH_COMPLETION_VERSINFO");
    let status = loader_status(&env, &disk).expect("status should resolve");
    assert_eq!(status, LoaderStatus::PresentButUnwired);
}

#[test]
fn loader_status_respects_login_file_precedence() {
    let mut disk = Disk::new();
    let temp_root = temp_dir(&mut disk, "bash-loader-login-precedence");
    let home = temp_root.join("home");
    make_dir(&mut disk, &home);
    write(&mut disk, &home.join(".bash_profile"), "export PATH=\"$HOME/bin:$PATH\"\n");
    write(
        &mut disk,
        &home.join(".bash_login"),
        "source /usr/share/bash-completion/bash_completion\n",
    );
    write(&mut disk, &home.join(".profile"), "source /usr/share/bash-completion/bash_completion\n");
    write(&mut disk, &p("/usr/share/bash-completion/bash_completion"), "");
    let env = Environment::new(Platform::Unix)
        .with_var("HOME", &home)
        .without_var("BASH_COMPLETION_VERSINFO");
    let status = loader_status(&env, &disk).expect("status should resolve");
    assert_eq!(status, LoaderStatus::PresentButUnwired);
}

#[test]
fn loader_status_ignores_comments_and_plain_strings() {
    let mut disk = Disk::new();
    let temp_root = temp_dir(&mut disk, "bash-loader-ignore-comments");
    let home = temp_root.join("home");
    make_dir(&mut disk, &home);
    write(
        &mut disk,
        &home.join(".profile"),
        "# source /usr/share/bash-completion/bash_completion\nBASH_LOADER=/usr/share/bash-completion/bash_completion\necho \"source /usr/share/bash-completion/bash_completion\"\n",
    );
    write(&mut disk, &p("/usr/share/bash-completion/bash_completion"), "");
    let env = Environment::new(Platform::Unix)
        .with_var("HOME", &home)
        .without_var("BASH_COMPLETION_VERSINFO");
    let status = loader_status(&env, &disk).expect("status should resolve");
    assert_eq!(status, LoaderStatus::PresentButUnwired);
}

#[test]
fn install_uses_system_loader_only_when_bashrc_wiring_is_detected() {
    let mut disk = Disk::new();
    let temp_root = temp_dir(&mut disk, "bash-loader-install-wired");
    let home = temp_root.join("home");
    let target = home.join(".local/share/bash-completion/completions/tool");
    make_dir(&mut disk, &home);
    write(&mut disk, &home.join(".bashrc"), "source /usr/share/bash-completion/bash_completion\n");
    write(&mut disk, &p("/usr/share/bash-completion/bash_completion"), "");
    let env = Environment::new(Platform::Unix)
        .with_var("HOME", &home)
        .without_var("BASH_COMPLETION_VERSINFO");
    let report = install(&env, &mut disk, "tool", &target).expect("install should succeed");
    assert_eq!(report.report.mode, ActivationMode::SystemLoader);
    assert_eq!(
        report.report.availability,
        Availability::AvailableAfterNewShell
    );
    assert_eq!(report.affected_locations, vec![home.join(".bashrc")]);
}

#[test]
fn install_falls_back_to_managed_block_when_loader_file_is_not_wired() {
    let mut disk = Disk::new();
    let temp_root = temp_dir(&mut disk, "bash-loader-install-fallback");
    let home = temp_root.join("home");
    let target = home.join(".local/share/bash-completion/completions/tool");
    write(&mut disk, &p("/usr/share/bash-completion/bash_completion"), "");
    let env = Environment::new(Platform::Unix)
        .with_var("HOME", &home)
        .without_var("BASH_COMPLETION_VERSINFO");
    let report = install(&env, &mut disk, "tool", &target).expect("install should succeed");
    assert_eq!(report.report.mode, ActivationMode::ManagedRcBlock);
    assert_eq!(
        report.report.availability,
        Availability::AvailableAfterSource
    );
    let bashrc = read(&disk, &home.join(".bashrc"));
    assert!(bashrc.contains("shellcomp bash tool"));
}

#[test]
fn install_quotes_bashrc_path_in_next_step_when_home_has_spaces() {
    let mut disk = Disk::new();
    let temp_root = temp_dir(&mut disk, "bash-loader-install-next-step");
    let home = temp_root.join("home with space");
    let target = home.join(".local/share/bash-completion/completions/tool");
    let env = Environment::new(Platform::Unix)
        .with_var("HOME", &home)
        .without_var("XDG_DATA_HOME");
    let report = install(&env, &mut disk, "tool", &target).expect("install should succeed");
    let next_step = report.report.next_step.expect("next_step should exist");
    assert!(next_step.contains("source '"));
    assert!(next_step.contains("home with space/.bashrc"));
}

#[test]
fn detect_requires_manual_action_when_file_missing() {
    let disk = Disk::new();
    let env = Environment::new(Platform::Unix)
        .without_var("BASH_COMPLETION_VERSINFO")
        .with_var("HOME", &p("/tmp/test-home"));
    let report =
        detect(&env, &disk, "tool", &p("/tmp/missing")).expect("detect should succeed");
    assert_eq!(report.mode, ActivationMode::ManagedRcBlock);
    assert_eq!(report.availability, Availability::ManualActionRequired);
}

#[test]
fn detect_does_not_assume_system_loader_from_loader_file_alone() {
    let mut disk = Disk::new();
    let temp_root = temp_dir(&mut disk, "bash-loader-detect-fallback");
    let home = temp_root.join("home");
    make_dir(&mut disk, &home);
    write(&mut disk, &p("/usr/share/bash-completion/bash_completion"), "");
    let env = Environment::new(Platform::Unix)
        .with_var("HOME", &home)
        .without_var("BASH_COMPLETION_VERSINFO");
    let report = detect(
        &env,
        &disk,
        "tool",
        &home.join(".local/share/bash-completion/completions/tool"),
    )
    .expect("detect should succeed");
    assert_eq!(report.mode, ActivationMode::ManagedRcBlock);
    assert_eq!(report.availability, Availability::ManualActionRequired);
}

#[test]
fn detect_existing_completion_does_not_assume_system_loader_from_loader_file_alone() {
    let mut disk = Disk::new();
    let temp_root = temp_dir(&mut disk, "bash-loader-detect-existing-fallback");
    let home = temp_root.join("home");
    let completion_path = home.join(".local/share/bash-completion/completions/tool");
    make_dir(&mut disk, &completion_path.parent().expect("completion path should have a parent"));
    write(&mut disk, &completion_path, "complete -F _tool tool\n");
    write(&mut disk, &p("/usr/share/bash-completion/bash_completion"), "");
    let env = Environment::new(Platform::Unix)
        .with_var("HOME", &home)
        .without_var("BASH_COMPLETION_VERSINFO");
    let report = detect(&env, &disk, "tool", &completion_path).expect("detect should succeed");
    assert_eq!(report.mode, ActivationMode::ManagedRcBlock);
    assert_eq!(report.availability, Availability::ManualActionRequired);
}

#[test]
fn detect_reports_system_loader_when_bashrc_wires_loader_for_new_shells() {
    let mut disk = Disk::new();
    let temp_root = temp_dir(&mut disk, "bash-loader-detect-wired");
    let home = temp_root.join("home");
    let completion_path = home.join(".local/share/bash-completion/completions/tool");
    make_dir(&mut disk, &completion_path.parent().expect("completion path should have a parent"));
    write(&mut disk, &completion_path, "complete -F _tool tool\n");
    write(&mut disk, &home.join(".profile"), "source /usr/share/bash-completion/bash_completion\n");
    write(&mut disk, &p("/usr/share/bash-completion/bash_completion"), "");
    let env = Environment::new(Platform::Unix)
        .with_var("HOME", &home)
        .without_var("BASH_COMPLETION_VERSINFO");
    let report = detect(&env, &disk, "tool", &completion_path).expect("detect should succeed");
    assert_eq!(report.mode, ActivationMode::SystemLoader);
    assert_eq!(report.availability, Availability::AvailableAfterNewShell);
    assert_eq!(report.location, Some(home.join(".profile")));
}

#[test]
fn detect_unwired_guidance_uses_actual_bashrc_and_completion_paths() {
    let mut disk = Disk::new();
    let temp_root = temp_dir(&mut disk, "bash-detect-unwired-guidance");
    let home = temp_root.join("home with space");
    let completion_path = home.join(".local/share/bash-completion/completions/tool");
    make_dir(&mut disk, &completion_path.parent().expect("completion path should have a parent"));
    write(&mut disk, &completion_path, "complete -F _tool tool\n");
    let env = Environment::new(Platform::Unix)
        .with_var("HOME", &home)
        .without_var("XDG_DATA_HOME");
    let report = detect(&env, &disk, "tool", &completion_path).expect("detect should succeed");
    assert_eq!(report.mode, ActivationMode::ManagedRcBlock);
    assert_eq!(report.availability, Availability::ManualActionRequired);
    let next_step = report.next_step.expect("next_step should exist");
    assert!(next_step.contains("source '"));
    assert!(next_step.contains("home with space/.bashrc"));
    assert!(
        next_step.contains("home with space/.local/share/bash-completion/completions/tool")
    );
}

#[test]
fn detect_reports_corruption_when_duplicate_managed_block_is_malformed() {
    let mut disk = Disk::new();
    let temp_root = temp_dir(&mut disk, "bash-detect-corrupt-duplicate");
    let home = temp_root.join("home");
    let completion_path = home.join(".local/share/bash-completion/completions/tool");
    make_dir(&mut disk, &completion_path.parent().expect("completion path should have a parent"));
    write(&mut disk, &completion_path, "complete -F _tool tool\n");
    write(
        &mut disk,
        &home.join(".bashrc"),
        "# >>> shellcomp bash tool >>>\nif [ -f '/tmp/tool' ]; then\n  . '/tmp/tool'\nfi\n# <<< shellcomp bash tool <<<\n# >>> shellcomp bash tool >>>\n. '/tmp/other'\n",
    );
    let env = Environment::new(Platform::Unix)
        .with_var("HOME", &home)
        .without_var("BASH_COMPLETION_VERSINFO");
    let error = detect(&env, &disk, "tool", &completion_path).expect_err("detect should fail");
    assert!(matches!(error, Error::ManagedBlockMissingEnd { .. }));
}

#[test]
fn detect_reports_manual_action_when_duplicate_managed_blocks_exist() {
    let mut disk = Disk::new();
    let temp_root = temp_dir(&mut disk, "bash-detect-duplicate-managed");
    let home = temp_root.join("home");
    let completion_path = home.join(".local/share/bash-completion/completions/tool");
    make_dir(&mut disk, &completion_path.parent().expect("completion path should have a parent"));
    write(&mut disk, &completion_path, "complete -F _tool tool\n");
    write(
        &mut disk,
        &home.join(".bashrc"),
        "# >>> shellcomp bash tool >>>\nif [ -f '/tmp/tool' ]; then\n  . '/tmp/tool'\nfi\n# <<< shellcomp bash tool <<<\n# >>> shellcomp bash tool >>>\nif [ -f '/tmp/tool' ]; then\n  . '/tmp/tool'\nfi\n# <<< shellcomp bash tool <<<\n",
    );
    let env = Environment::new(Platform::Unix)
        .with_var("HOME", &home)
        .without_var("BASH_COMPLETION_VERSINFO");
    let report = detect(&env, &disk, "tool", &completion_path).expect("detect should succeed");
    assert_eq!(report.mode, ActivationMode::ManagedRcBlock);
    assert_eq!(report.availability, Availability::ManualActionRequired);
}

#[test]
fn install_reports_active_now_when_loader_is_active() {
    let mut disk = Disk::new();
    let temp_root = temp_dir(&mut disk, "bash-loader-install-active");
    let home = temp_root.join("home");
    let target = home.join(".local/share/bash-completion/completions/tool");
    let env = Environment::new(Platform::Unix)
        .with_var("HOME", &home)
        .with_var("BASH_COMPLETION_VERSINFO", &p("2"))
        .without_var("XDG_DATA_HOME");
    let report = install(&env, &mut disk, "tool", &target).expect("install should succeed");
    assert_eq!(report.report.mode, ActivationMode::SystemLoader);
    assert_eq!(report.report.availability, Availability::ActiveNow);
    assert!(report.report.next_step.is_none());
}

#[test]
fn custom_bash_path_uses_managed_block_even_when_loader_is_active() {
    let mut disk = Disk::new();
    let temp_root = temp_dir(&mut disk, "bash-custom-path-managed");
    let home = temp_root.join("home");
    let target = temp_root.join("custom").join("tool.bash");
    let env = Environment::new(Platform::Unix)
        .with_var("HOME", &home)
        .with_var("BASH_COMPLETION_VERSINFO", &p("2"))
        .without_var("XDG_DATA_HOME");
    let report = install(&env, &mut disk, "tool", &target).expect("install should succeed");
    assert_eq!(report.report.mode, ActivationMode::ManagedRcBlock);
    assert_eq!(
        report.report.availability,
        Availability::AvailableAfterSource
    );
}

#[test]
fn install_errors_when_bashrc_is_not_writable() {
    let mut disk = Disk::new();
    let temp_root = temp_dir(&mut disk, "install-bash-manual-fallback");
    let home = temp_root.join("home");
    make_dir(&mut disk, &home.join(".bashrc"));
    let env = Environment::new(Platform::Unix)
        .with_var("HOME", &home)
        .without_var("XDG_DATA_HOME");
    let error = install(
        &env,
        &mut disk,
        "tool",
        &home.join(".local/share/bash-completion/completions/tool"),
    )
    .expect_err("install should return an error");
    assert!(matches!(error, Error::Io { .. }));
}

#[test]
fn source_detection_respects_quotes_comments_and_execution_contexts() {
    let loader = "/usr/share/bash-completion/bash_completion";
    for line in [
        format!("echo ignored # ; source {loader}"),
        format!("echo 'ignored ; source {loader} ; ignored'"),
        format!("echo \"ignored && source {loader} ; ignored\""),
        format!("echo ignored \\; source {loader}"),
        format!("(source {loader})"),
        format!("source {loader} &"),
        format!("source {loader} | cat"),
        format!("echo $(source {loader})"),
    ] {
        assert!(!line_sources_loader(&line, loader), "misclassified: {line}");
    }
    for line in [
        format!("source '{loader}' # comment"),
        format!("[ -f '{loader}' ] && . \"{loader}\""),
        format!("echo ready; source {loader}"),
    ] {
        assert!(line_sources_loader(&line, loader), "missed: {line}");
    }
}

#[test]
fn quoted_paths_keep_spaces_and_literal_home_variables() {
    let env = Environment::new(Platform::Unix).with_var("HOME", &p("/tmp/home with space"));
    for target in ["\"$HOME/rc\"", "\"${HOME}/rc\"", "~/rc"] {
        assert_eq!(
            resolve_sourced_path(&env, target),
            Some(p("/tmp/home with space/rc"))
        );
    }
    assert_eq!(
        line_source_targets("source '/tmp/home with space/rc'"),
        vec!["'/tmp/home with space/rc'"]
    );
    for target in ["'$HOME/rc'", "'~/rc'", "\"~/rc\""] {
        assert_eq!(resolve_sourced_path(&env, target), None);
    }
}

#[test]
fn dynamic_source_paths_do_not_count_as_literal_loader_chains() {
    for target in [
        "/etc/profile.d/$name.sh",
        "\"/etc/profile.d/$name.sh\"",
        "/etc/profile.d/[ab].sh",
        "/etc/profile.d/{a,b}.sh",
        "$HOME/$name.sh",
    ] {
        let literal_path = target.trim_matches('"').replace("$HOME", "/tmp/home");
        let mut disk = Disk::new();
        write(&mut disk, &p("/etc/profile"), format!("source {target}\n"));
        write(&mut disk, &p(&literal_path), "source /usr/share/bash-completion/bash_completion\n");
        write(&mut disk, &p("/usr/share/bash-completion/bash_completion"), "");
        let env = Environment::new(Platform::Unix).with_var("HOME", &p("/tmp/home"));
        assert_eq!(
            file_reaches_loader(&env, &disk, &p("/etc/profile"), &mut Vec::new()).unwrap(),
            None,
            "misclassified {target}"
        );
    }
    let env = Environment::new(Platform::Unix).with_var("HOME", &p("/tmp/home with spaces"));
    assert_eq!(resolve_sourced_path(&env, "$HOME/rc"), None);
    assert_eq!(resolve_sourced_path(&env, "${HOME}/rc"), None);
    for target in ["'/etc/profile.d/$name.sh'", "\"/etc/profile.d/[ab].sh\""] {
        assert_eq!(
            resolve_sourced_path(&env, target),
            Some(p(&unquote_shell_token(target)))
        );
    }
}

#[test]
fn directory_enumeration_requires_sourcing_the_loop_variable() {
    let directory = "/etc/profile.d";
    for contents in [
        "for i in /etc/profile.d/*.sh; do echo $i; done",
        "for i in /etc/profile.d/*.sh; do . '$i'; done",
        "run-parts /etc/profile.d",
        "for i in '/etc/profile.d/*.sh'; do . $i; done",
    ] {
        assert!(
            !sources_profile_directory(&lines(contents), directory),
            "misclassified: {contents}"
        );
    }
    assert!(sources_profile_directory(
        &lines("for i in /etc/profile.d/*.sh; do\n . \"${i}\"\ndone"),
        directory
    ));
}

#[test]
fn install_falls_back_to_managed_wiring_when_source_only_appears_in_a_comment() {
    let mut disk = Disk::new();
    let home = temp_dir(&mut disk, "bash-comment-fallback");
    let original = "echo keep # ; source /usr/share/bash-completion/bash_completion\n";
    write(&mut disk, &home.join(".bashrc"), original);
    write(&mut disk, &p("/usr/share/bash-completion/bash_completion"), "");
    let env = Environment::new(Platform::Unix).with_var("HOME", &home);
    let target = paths::default_install_path(&env, &Shell::Bash, "tool").unwrap();
    let result = install(&env, &mut disk, "tool", &target).unwrap();
    assert_eq!(result.report.mode, ActivationMode::ManagedRcBlock);
    let profile = read(&disk, &home.join(".bashrc"));
    assert!(profile.starts_with(original));
    assert!(profile.contains("# >>> shellcomp bash tool >>>"));
}

#[test]
fn cyclic_source_graphs_terminate() {
    let mut disk = Disk::new();
    write(&mut disk, &p("/shellcomp-test/one"), "source /shellcomp-test/two");
    write(&mut disk, &p("/shellcomp-test/two"), "source /shellcomp-test/one");
    let env = Environment::new(Platform::Unix);
    let mut visited = Vec::new();
    assert_eq!(
        file_reaches_loader(&env, &disk, &p("/shellcomp-test/one"), &mut visited).unwrap(),
        None
    );
    assert_eq!(visited.len(), 2);
}

#[test]
fn startup_discovery_ignores_multiline_data_and_keeps_later_commands() {
    let mut disk = Disk::new();
    let loader = LOADER;
    for script in [
        format!("echo 'a multiline string\nsource {loader}\n'\n"),
        format!("cat <<'EOF'\nsource {loader}\nEOF\n"),
        format!("cat <<-EOF\n\tsource {loader}\n\tEOF\n"),
        format!("cat <<ONE <<\"TWO\"\nsource {loader}\nONE\nsource {loader}\nTWO\n"),
        format!("echo \\\nsource {loader}\n"),
    ] {
        write(&mut disk, &p(loader), "");
        write(&mut disk, &p("/shellcomp-test/startup"), &script);
        let env = Environment::new(Platform::Unix);
        assert_eq!(
            file_reaches_loader(&env, &disk, &p("/shellcomp-test/startup"), &mut Vec::new())
                .unwrap(),
            None,
            "{script}"
        );
        write(
            &mut disk,
            &p("/shellcomp-test/startup"),
            format!("{script}\nsource {loader}\n"),
        );
        assert_eq!(
            file_reaches_loader(&env, &disk, &p("/shellcomp-test/startup"), &mut Vec::new())
                .unwrap(),
            Some(p("/shellcomp-test/startup"))
        );
    }
}

/// Whether bash runs the loader was observed once for each of these commands.
#[test]
fn source_classification_agrees_with_bash_for_literal_commands() {
    let loader = "/temp/bash-source-comparison/loader";
    for (line, loads) in [
        (format!("source '{loader}'"), true),
        (format!("echo keep # ; source {loader}"), false),
        (format!("echo 'keep ; source {loader} ; keep'"), false),
        (format!("echo \"keep && source {loader} ; keep\""), false),
        (format!("(source '{loader}')"), false),
        (format!("source '{loader}' | cat"), false),
    ] {
        assert_eq!(line_sources_loader(&line, loader), loads, "{line}");
    }
}

#[test]
fn multiline_classification_agrees_with_bash_execution() {
    let loader = "/temp/root/loader";
    for (contents, loads) in [
        (format!("echo 'literal\nsource {loader}\n'\n"), false),
        (format!("cat <<'EOF'\nsource {loader}\nEOF\n"), false),
        (format!("cat <<-EOF\n\tsource {loader}\n\tEOF\nsource {loader}\n"), true),
        (format!("echo \\\nsource {loader}\n"), false),
    ] {
        let detected = command_lines(&contents)
            .iter()
            .any(|line| line_sources_loader(line, loader));
        assert_eq!(detected, loads, "{contents}");
    }
}

#[test]
fn long_source_chains_do_not_consume_the_call_stack() {
    let mut disk = Disk::new();
    write(&mut disk, &p(LOADER), "");
    let env = Environment::new(Platform::Unix);
    for index in 0..2048 {
        write(
            &mut disk,
            &p(&format!("/shellcomp-test/{index}")),
            format!("source /shellcomp-test/{}\n", index + 1),
        );
    }
    write(&mut disk, &p("/shellcomp-test/2048"), format!("source {LOADER}\n"));
    let found =
        file_reaches_loader(&env, &disk, &p("/shellcomp-test/0"), &mut Vec::new()).unwrap();
    assert_eq!(found, Some(p("/shellcomp-test/2048")));
}

#[test]
fn a_search_without_a_loader_has_visited_what_startup_leads_to() {
    let env = Environment::new(Platform::Unix).with_var("HOME", &p("/home/demo"));
    let mut disk = Disk::new();
    write(&mut disk, &p("/home/demo/.bashrc"), "source /etc/one\nsource /etc/missing\n");
    write(&mut disk, &p("/etc/one"), "source ~/.bashrc\n");
    write(&mut disk, &p("/etc/two"), "echo two\n");
    let mut visited = Vec::new();
    let found =
        file_reaches_loader(&env, &disk, &p("/home/demo/.bashrc"), &mut visited).unwrap();
    assert_eq!(found, None);
    let reached = ["/home/demo/.bashrc", "/etc/one", "/etc/missing"];
    assert_eq!(visited.len(), reached.len());
    for path in reached {
        assert!(visited.contains(&p(path).components()));
    }
}

#[test]
fn a_script_may_be_named_like_a_drive() {
    let env = Environment::new(Platform::Unix).with_var("HOME", &p("/home/demo"));
    let mut disk = Disk::new();
    let script = p("/etc/profile.d").join(r"C:\x.sh");
    write(
        &mut disk,
        &p("/home/demo/.bashrc"),
        "for i in /etc/profile.d/*.sh; do\n  [ -r \"$i\" ] && . \"$i\"\ndone\n",
    );
    write(&mut disk, &script, "source /usr/share/bash-completion/bash_completion\n");
    write(&mut disk, &p("/usr/share/bash-completion/bash_completion"), "# loader\n");
    let mut visited = Vec::new();
    let found =
        file_reaches_loader(&env, &disk, &p("/home/demo/.bashrc"), &mut visited).unwrap();
    assert_eq!(found, Some(script));
}

#[test]
fn a_sourced_file_cannot_be_read_as_a_directory() {
    let env = Environment::new(Platform::Unix).with_var("HOME", &p("/home/demo"));
    let mut disk = Disk::new();
    write(&mut disk, &p("/home/demo/.bashrc"), "source /etc/one/\n");
    write(&mut disk, &p("/etc/one"), "echo one\n");
    let mut visited = Vec::new();
    let found = file_reaches_loader(&env, &disk, &p("/home/demo/.bashrc"), &mut visited);
    assert!(matches!(found, Err(Error::Io { .. })));
}

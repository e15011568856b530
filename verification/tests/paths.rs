use shellcomp::paths::{default_install_path, macos_path_identity, validate_program_name};
use shellcomp::{Environment, FilePath, Platform, Shell};

fn p(text: &str) -> FilePath {
    FilePath::from_text(text)
}

#[test]
fn resolves_default_paths() {
    let env = Environment::new(Platform::Unix)
        .with_var("HOME", &p("/tmp/home"))
        .without_var("XDG_DATA_HOME")
        .without_var("XDG_CONFIG_HOME")
        .without_var("ZDOTDIR");
    assert_eq!(
        default_install_path(&env, &Shell::Bash, "tool").expect("bash path should resolve"),
        p("/tmp/home/.local/share/bash-completion/completions/tool")
    );
    assert_eq!(
        default_install_path(&env, &Shell::Zsh, "tool").expect("zsh path should resolve"),
        p("/tmp/home/.zfunc/_tool")
    );
    assert_eq!(
        default_install_path(&env, &Shell::Fish, "tool").expect("fish path should resolve"),
        p("/tmp/home/.config/fish/completions/tool.fish")
    );
    assert_eq!(
        default_install_path(&env, &Shell::Powershell, "tool")
            .expect("powershell path should resolve"),
        p("/tmp/home/.local/share/powershell/completions/tool.ps1")
    );
    assert_eq!(
        default_install_path(&env, &Shell::Elvish, "tool").expect("elvish path should resolve"),
        p("/tmp/home/.config/elvish/lib/shellcomp/tool.elv")
    );
}

#[test]
fn honors_xdg_and_zdotdir_overrides() {
    let env = Environment::new(Platform::Unix)
        .with_var("HOME", &p("/tmp/home"))
        .with_var("XDG_DATA_HOME", &p("/tmp/data"))
        .with_var("XDG_CONFIG_HOME", &p("/tmp/config"))
        .with_var("ZDOTDIR", &p("/tmp/zdotdir"));
    assert_eq!(
        default_install_path(&env, &Shell::Bash, "tool").expect("bash path should resolve"),
        p("/tmp/data/bash-completion/completions/tool")
    );
    assert_eq!(
        default_install_path(&env, &Shell::Zsh, "tool").expect("zsh path should resolve"),
        p("/tmp/zdotdir/.zfunc/_tool")
    );
    assert_eq!(
        default_install_path(&env, &Shell::Fish, "tool").expect("fish path should resolve"),
        p("/tmp/config/fish/completions/tool.fish")
    );
    assert_eq!(
        default_install_path(&env, &Shell::Powershell, "tool")
            .expect("powershell path should resolve"),
        p("/tmp/data/powershell/completions/tool.ps1")
    );
    assert_eq!(
        default_install_path(&env, &Shell::Elvish, "tool").expect("elvish path should resolve"),
        p("/tmp/config/elvish/lib/shellcomp/tool.elv")
    );
}

#[test]
fn resolves_windows_style_powershell_path() {
    let env = Environment::new(Platform::Windows)
        .with_var("USERPROFILE", &p(r"C:\Users\demo"))
        .without_var("HOME")
        .without_var("XDG_DATA_HOME");
    assert_eq!(
        default_install_path(&env, &Shell::Powershell, "tool")
            .expect("powershell path should resolve"),
        p(r"C:\Users\demo")
            .on(Platform::Windows)
            .join("Documents")
            .join("PowerShell")
            .join("Completions")
            .join("tool.ps1")
    );
}

#[test]
fn rejects_invalid_program_names() {
    for invalid in [
        "",
        ".",
        "..",
        "dir/tool",
        "dir\\tool",
        "two words",
        "bad\nname",
    ] {
        assert!(validate_program_name(invalid).is_err());
    }
}

#[test]
fn macos_system_aliases_have_a_single_component_aware_identity() {
    for (alias, destination) in
        [("/var", "/private/var"), ("/tmp", "/private/tmp"), ("/etc", "/private/etc")]
    {
        let original = p(alias).join("nested/missing/file");
        let physical = p(destination).join("nested/missing/file");
        assert_eq!(macos_path_identity(&original), physical);
        assert_eq!(macos_path_identity(&physical), physical);
    }
    for path in [
        "/variable/file",
        "/tmp-other/file",
        "/etcetera/file",
        "/home/user/link/file",
    ] {
        assert_eq!(macos_path_identity(&p(path)), p(path));
    }
}

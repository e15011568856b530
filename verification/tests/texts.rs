use shellcomp::fs::{
    file_exists, read_file_if_exists, remove_file_if_exists, write_atomic, write_if_changed,
};
use shellcomp::paths::{macos_path_identity, path_identity, startup_path, validate_target_path};
use shellcomp::shell::discovery::{
    file_reaches_loader, loader_list, loader_status, profile_directory_list,
    resolve_sourced_path, startup_candidates, LoaderStatus,
};
use shellcomp::shell::quoting::{elvish_quote, powershell_quote, shell_quote};
use shellcomp::shell::syntax::{command_lines, line_source_targets, simple_commands, unquote_shell_token};
use shellcomp::{
    Content, Disk, Environment, Error, FileChange, FilePath, IoErrorKind, Node, Platform, Shell,
};

fn p(text: &str) -> FilePath {
    FilePath::from_text(text)
}

fn w(text: &str) -> FilePath {
    p(text).on(Platform::Windows)
}

fn put(disk: &mut Disk, path: &str, content: Content) {
    disk.record(&p(path), Some(Node { link: None, readonly: false, mode: None, content }));
}

#[test]
fn parents_and_names_of_paths() {
    assert_eq!(p("/a/b").parent(), Some(p("/a")));
    assert_eq!(p("/a").parent(), Some(p("/")));
    assert_eq!(p("/").parent(), None);
    assert_eq!(p("/a/b").file_name(), Some(b"b".to_vec()));
    assert_eq!(p("/a/..").file_name(), None);
    assert_eq!(p("/a").join("b").components(), p("/a//b/").components());
    assert_eq!(p("/a").join("/b"), p("/b"));
}

#[test]
fn drives_and_shares_are_roots() {
    let home = w(r"C:\Users\demo");
    assert!(home.is_absolute(Platform::Windows));
    assert!(!home.is_absolute(Platform::Unix));
    assert!(!w("/Users").is_absolute(Platform::Windows));
    assert!(!w("C:demo").is_absolute(Platform::Windows));
    assert_eq!(home.parent(), Some(w(r"C:\Users")));
    assert_eq!(w(r"C:\Users").parent(), Some(w(r"C:\")));
    assert_eq!(w(r"C:\").parent(), None);
    assert_eq!(home.file_name(), Some(b"demo".to_vec()));
    assert_eq!(home, w("c:/Users//demo/"));
    assert_ne!(home, w(r"D:\Users\demo"));
    assert_eq!(home.join("x").display(), r"C:\Users\demo\x");
    assert_eq!(home.join("/x").display(), "C:/x");
    assert_eq!(home.join(r"D:\x"), w(r"D:\x"));
    assert_eq!(home.to_text(), Some(r"C:\Users\demo".to_string()));
    assert_eq!(home.spelling(), br"C:\Users\demo".to_vec());
    assert_eq!(powershell_quote(&home).unwrap(), r"'C:\Users\demo'");
    let share = w(r"\\server\share\dir");
    assert!(share.is_absolute(Platform::Windows));
    assert_eq!(share.parent(), Some(w(r"\\server\share\")));
    assert_eq!(share.components().len(), 2);
}

#[test]
fn a_share_is_a_root_without_a_separator_behind_it() {
    for spelling in [r"\\server\share", "//server/share"] {
        let share = w(spelling);
        assert!(share.is_absolute(Platform::Windows));
        assert_eq!(share.parent(), None);
        assert_eq!(share.file_name(), None);
        assert_eq!(share, w(r"\\server\share\"));
        assert_eq!(share.join("x"), w(r"\\server\share\x"));
    }
    assert!(!w(r"\\server").is_absolute(Platform::Windows));
    assert!(!w(r"\\server\").is_absolute(Platform::Windows));
    assert!(!p(r"\\server\share").is_absolute(Platform::Unix));
    let env = Environment::new(Platform::Windows).with_var("USERPROFILE", &p(r"\\server\home"));
    let target = shellcomp::default_install_path(&env, Shell::Powershell, "tool").unwrap();
    assert_eq!(
        target.display(),
        r"\\server\home\Documents\PowerShell\Completions\tool.ps1"
    );
}

#[test]
fn drives_are_names_elsewhere() {
    assert_eq!(p("/h").join("C:/x"), p("/h/C:/x"));
    assert_eq!(p("/h").join(r"C:\x").file_name(), Some(br"C:\x".to_vec()));
    assert_eq!(p("C:/home").join("/x"), p("/x"));
    assert_eq!(p("C:/home").join("x").display(), "C:/home/x");
    assert_eq!(p("C:/home").parent(), Some(p("C:")));
    assert_eq!(p(r"/a\b").components().len(), 2);
    assert_eq!(p(r"\\server\share\x").components().len(), 1);
    assert_eq!(p("//server/share/x").parent(), Some(p("/server/share")));
    assert!(!p("C:/home").is_absolute(Platform::Unix));
    let env = Environment::new(Platform::Unix).with_var("HOME", &p("/h"));
    assert_eq!(resolve_sourced_path(&env, "~/C:/x"), Some(p("/h/C:/x")));
    assert_eq!(resolve_sourced_path(&env, "C:/x"), None);
    let env = Environment::new(Platform::Windows).with_var("HOME", &p(r"C:\h"));
    assert_eq!(resolve_sourced_path(&env, "C:/x"), Some(w("C:/x")));
}

#[test]
fn a_separator_at_the_end_asks_for_a_directory() {
    let mut disk = Disk::new();
    put(&mut disk, "/tmp", Content::Directory);
    put(&mut disk, "/tmp/dir", Content::Directory);
    put(&mut disk, "/tmp/x", Content::File(b"x".to_vec()));
    let kind = |error: Error| match error {
        Error::Io { source, .. } => source.kind,
        other => panic!("unexpected {other:?}"),
    };
    for path in ["/tmp/x/", "/tmp/x//", "/tmp/x/."] {
        let known = disk.records.len();
        assert!(p(path).asks_directory());
        assert_eq!(kind(file_exists(&disk, &p(path)).unwrap_err()), IoErrorKind::NotADirectory);
        assert!(read_file_if_exists(&disk, &p(path)).is_err());
        assert!(matches!(
            validate_target_path(Platform::Unix, &disk, &p(path)),
            Err(Error::InvalidTargetPath { .. })
        ));
        assert!(matches!(
            write_if_changed(Platform::Unix, &mut disk, &p(path), b"y"),
            Err(Error::InvalidTargetPath { .. })
        ));
        assert!(matches!(
            remove_file_if_exists(Platform::Unix, &mut disk, &p(path)),
            Err(Error::InvalidTargetPath { .. })
        ));
        assert_eq!(disk.records.len(), known);
    }
    assert!(!p("/tmp/x").asks_directory());
    assert!(!p("/").asks_directory());
    assert_eq!(file_exists(&disk, &p("/tmp/dir/")).unwrap(), false);
    assert_eq!(file_exists(&disk, &p("/tmp/y/")).unwrap(), false);
    let refused =
        |disk: &mut Disk, path: &str| kind(write_atomic(Platform::Unix, disk, &p(path), b"y").unwrap_err());
    assert_eq!(refused(&mut disk, "/tmp/y/"), IoErrorKind::NotADirectory);
    assert_eq!(refused(&mut disk, "/tmp/y/."), IoErrorKind::NotFound);
    assert_eq!(refused(&mut disk, "/tmp/dir"), IoErrorKind::IsADirectory);
    assert_eq!(refused(&mut disk, "/tmp/dir/"), IoErrorKind::NotADirectory);
    assert_eq!(refused(&mut disk, "/tmp/dir/."), IoErrorKind::Other);
    assert!(disk.node(&p("/tmp/y")).is_none());
    let kept = remove_file_if_exists(Platform::Unix, &mut disk, &p("/tmp/dir/")).unwrap_err();
    assert_eq!(kind(kept), IoErrorKind::IsADirectory);
    let absent = remove_file_if_exists(Platform::Unix, &mut disk, &p("/tmp/y/")).unwrap();
    assert_eq!(absent, FileChange::Absent);
}

#[test]
fn a_link_is_followed_where_a_path_asks_for_a_directory() {
    let mut disk = Disk::new();
    put(&mut disk, "/tmp", Content::Directory);
    let link = Some(p("/srv"));
    disk.record(
        &p("/tmp/link"),
        Some(Node { link, readonly: false, mode: None, content: Content::Directory }),
    );
    assert!(disk.inspect_link(&p("/tmp/link")).unwrap().link.is_some());
    assert!(disk.inspect_link(&p("/tmp/link/")).unwrap().link.is_none());
    let code = |error: Error| match error {
        Error::Io { source, .. } => source.os_code,
        other => panic!("unexpected {other:?}"),
    };
    let refused = |disk: &mut Disk, path: &str| {
        code(remove_file_if_exists(Platform::Unix, disk, &p(path)).unwrap_err())
    };
    assert_eq!(refused(&mut disk, "/tmp/link/"), Some(20));
    assert_eq!(refused(&mut disk, "/tmp/link/."), Some(21));
}

#[test]
fn a_completion_is_installed_below_a_drive() {
    let env =
        Environment::new(Platform::Windows).with_var("USERPROFILE", &p(r"C:\Users\demo"));
    let target = shellcomp::default_install_path(&env, Shell::Powershell, "tool").unwrap();
    assert_eq!(
        target.display(),
        r"C:\Users\demo\Documents\PowerShell\Completions\tool.ps1"
    );
    let mut disk = Disk::new();
    let request = shellcomp::InstallRequest {
        shell: Shell::Powershell,
        program_name: "tool",
        script: b"# script\n",
        path_override: None,
    };
    let report = shellcomp::install(&env, &mut disk, request, 1).unwrap();
    assert_eq!(report.file_change, FileChange::Created);
    assert_eq!(report.target_path, target);
    assert_eq!(disk.read(&target).unwrap(), b"# script\n");
    assert!(disk.node(&w(r"C:\Users")).is_some());
    let error =
        shellcomp::default_install_path(&env.with_var("USERPROFILE", &p("demo")), Shell::Powershell, "tool");
    assert!(matches!(error, Err(Error::InvalidTargetPath { .. })));
}

#[test]
fn lines_with_commands() {
    assert_eq!(command_lines("a\nb # c\n"), vec!["a".to_string(), "b # c".to_string()]);
    assert_eq!(command_lines("a\n'b\nc'\nd\n"), vec!["a".to_string(), "d".to_string()]);
    assert_eq!(command_lines("a\ncat <<E'O'F\nb\n"), Vec::<String>::new());
}

#[test]
fn bytes_that_are_no_text_are_shown_replaced() {
    let path = FilePath { bytes: b"/a/\xff".to_vec() };
    assert_eq!(path.display(), "/a/\u{fffd}");
    assert_eq!(path.to_text(), None);
    assert_eq!(p("/a/\u{e9}").to_text(), Some("/a/\u{e9}".to_string()));
    assert!(matches!(shell_quote(&path), Err(Error::NonUtf8Path { path: found }) if found == path));
}

#[test]
fn quotes_keep_paths_whole() {
    let path = p("/it's here");
    assert_eq!(shell_quote(&path).unwrap(), "'/it'\"'\"'s here'");
    assert_eq!(powershell_quote(&path).unwrap(), "'/it''s here'");
    assert_eq!(elvish_quote(&path).unwrap(), "'/it''s here'");
}

#[test]
fn literals_are_one_word() {
    assert_eq!(line_source_targets("  source '/a b; # c'"), vec!["'/a b; # c'".to_string()]);
    assert_eq!(unquote_shell_token("'/a b; # c'"), "/a b; # c");
    assert_eq!(line_source_targets("echo '/a'"), Vec::<String>::new());
    assert_eq!(
        simple_commands(". '/a'"),
        vec![vec![".".to_string(), "'/a'".to_string()]]
    );
}

#[test]
fn comments_and_child_processes_do_not_count() {
    assert_eq!(line_source_targets("true # source /a"), Vec::<String>::new());
    assert_eq!(line_source_targets("# source /a"), Vec::<String>::new());
    assert_eq!(line_source_targets("(source /a)"), Vec::<String>::new());
    assert_eq!(line_source_targets("source /a | cat"), Vec::<String>::new());
    assert_eq!(line_source_targets("source /a &"), Vec::<String>::new());
    assert_eq!(line_source_targets("true && source /a"), vec!["/a".to_string()]);
}

#[test]
fn places_of_aliases_on_macos() {
    assert_eq!(macos_path_identity(&p("/var/folders/x")), p("/private/var/folders/x"));
    assert_eq!(macos_path_identity(&p("/tmp/x")), p("/private/tmp/x"));
    assert_eq!(macos_path_identity(&p("/etc/x")), p("/private/etc/x"));
    assert_eq!(macos_path_identity(&p("/variable/x")), p("/variable/x"));
    assert_eq!(macos_path_identity(&p("/private/var/x")), p("/private/var/x"));
    assert_eq!(path_identity(Platform::Unix, &p("/var/x")), p("/var/x"));
}

#[test]
fn system_aliases_are_allowed_on_macos_and_links_of_users_are_not() {
    let mut disk = Disk::new();
    put(&mut disk, "/", Content::Directory);
    put(&mut disk, "/private", Content::Directory);
    put(&mut disk, "/private/tmp", Content::Directory);
    let alias =
        Node { link: Some(p("private/tmp")), readonly: false, mode: None, content: Content::Directory };
    disk.record(&p("/tmp"), Some(alias));
    let target = p("/tmp/tool");
    assert!(validate_target_path(Platform::MacOs, &disk, &target).is_ok());
    assert!(matches!(
        validate_target_path(Platform::Unix, &disk, &target),
        Err(Error::InvalidTargetPath { .. })
    ));
    let user = Node { link: Some(p("/private")), readonly: false, mode: None, content: Content::Directory };
    disk.record(&p("/private/tmp/link"), Some(user));
    assert!(matches!(
        validate_target_path(Platform::MacOs, &disk, &p("/tmp/link/tool")),
        Err(Error::InvalidTargetPath { .. })
    ));
}

#[test]
fn a_written_file_reads_back_and_is_removed_once() {
    let mut disk = Disk::new();
    let path = p("/a/b/file");
    assert!(!file_exists(&disk, &path).unwrap());
    assert_eq!(
        write_if_changed(Platform::Unix, &mut disk, &path, b"one").unwrap(),
        FileChange::Created
    );
    assert_eq!(read_file_if_exists(&disk, &path).unwrap(), Some(b"one".to_vec()));
    assert!(file_exists(&disk, &path).unwrap());
    let before = disk.clone();
    assert_eq!(
        write_if_changed(Platform::Unix, &mut disk, &path, b"one").unwrap(),
        FileChange::Unchanged
    );
    assert_eq!(disk, before);
    assert_eq!(
        remove_file_if_exists(Platform::Unix, &mut disk, &path).unwrap(),
        FileChange::Removed
    );
    assert_eq!(read_file_if_exists(&disk, &path).unwrap(), None);
    assert_eq!(
        remove_file_if_exists(Platform::Unix, &mut disk, &path).unwrap(),
        FileChange::Absent
    );
}

#[test]
fn devices_are_not_read() {
    let mut disk = Disk::new();
    put(&mut disk, "/", Content::Directory);
    put(&mut disk, "/pipe", Content::Special);
    let error = read_file_if_exists(&disk, &p("/pipe")).unwrap_err();
    assert!(matches!(
        error,
        Error::Io { action: "read file", source, .. }
            if source.kind == IoErrorKind::InvalidInput && source.message == "expected a regular file"
    ));
}

#[test]
fn home_and_data_directories() {
    let env = Environment::new(Platform::Unix)
        .with_var("HOME", &p("/h"))
        .with_var("XDG_DATA_HOME", &p("relative"));
    assert_eq!(env.xdg_data_home().unwrap(), p("/h/.local/share"));
    assert_eq!(env.zdotdir().unwrap(), p("/h"));
    assert!(matches!(
        Environment::new(Platform::Unix).home_dir(),
        Err(Error::MissingHome)
    ));
    assert_eq!(startup_path(&env, &Shell::Bash).unwrap(), Some(p("/h/.bashrc")));
    assert_eq!(startup_path(&env, &Shell::Fish).unwrap(), None);
}

#[test]
fn where_the_search_for_loaders_begins() {
    let env = Environment::new(Platform::Unix).with_var("HOME", &p("/h"));
    assert_eq!(
        startup_candidates(&env),
        vec![
            p("/etc/bash.bashrc"),
            p("/etc/profile"),
            p("/h/.bashrc"),
            p("/h/.bash_profile"),
            p("/h/.bash_login"),
            p("/h/.profile"),
        ]
    );
    assert_eq!(startup_candidates(&Environment::new(Platform::Unix)).len(), 2);
    assert_eq!(loader_list()[0], "/usr/share/bash-completion/bash_completion");
    assert_eq!(profile_directory_list()[0], "/etc/profile.d");
    assert_eq!(resolve_sourced_path(&env, "~/x"), Some(p("/h/x")));
    assert_eq!(resolve_sourced_path(&env, "\"$HOME/x\""), Some(p("/h/x")));
}

#[test]
fn a_chain_to_a_loader_is_found_and_its_files_are_marked() {
    let env = Environment::new(Platform::Unix).with_var("HOME", &p("/h"));
    let mut disk = Disk::new();
    for dir in ["/", "/h", "/etc"] {
        put(&mut disk, dir, Content::Directory);
    }
    put(&mut disk, "/etc/bash_completion", Content::File(Vec::new()));
    put(&mut disk, "/h/.bashrc", Content::File(b"source ~/next\n".to_vec()));
    put(&mut disk, "/h/next", Content::File(b". /etc/bash_completion\n".to_vec()));
    let mut visited = Vec::new();
    let found = file_reaches_loader(&env, &disk, &p("/h/.bashrc"), &mut visited).unwrap();
    assert_eq!(found, Some(p("/h/next")));
    assert!(visited.contains(&p("/h/next").components()));
    assert_eq!(loader_status(&env, &disk).unwrap(), LoaderStatus::WiredInStartup(p("/h/next")));
}

#[test]
fn a_startup_file_that_is_no_text_is_an_error() {
    let env = Environment::new(Platform::Unix).with_var("HOME", &p("/h"));
    let mut disk = Disk::new();
    for dir in ["/", "/h", "/etc"] {
        put(&mut disk, dir, Content::Directory);
    }
    put(&mut disk, "/etc/bash_completion", Content::File(Vec::new()));
    put(&mut disk, "/h/.bashrc", Content::File(vec![0xff]));
    assert!(matches!(
        loader_status(&env, &disk),
        Err(Error::InvalidUtf8File { path }) if path == p("/h/.bashrc")
    ));
}

#[test]
fn targets_without_a_parent_or_a_plain_spelling_are_rejected() {
    let disk = Disk::new();
    assert!(validate_target_path(Platform::Unix, &disk, &p("relative/x")).is_err());
    assert!(validate_target_path(Platform::Unix, &disk, &p("/a/../x")).is_err());
    let error = shellcomp::fs::write_if_changed(Platform::Unix, &mut Disk::new(), &p("/"), b"x")
        .unwrap_err();
    assert_eq!(error.error_code(), "shellcomp.invalid_target_path");
}

#[test]
fn messages_of_errors() {
    for (error, message) in [
        (Error::EmptyProgramName, "program name must not be empty"),
        (
            Error::InvalidProgramName { program_name: "a/b".to_string() },
            "program name `a/b` contains unsupported characters",
        ),
        (
            Error::UnsupportedShell(Shell::Other("nu".to_string())),
            "shell `nu` is not supported yet",
        ),
        (Error::PathHasNoParent { path: p("/") }, "path `/` does not have a parent directory"),
        (
            Error::InvalidTargetPath { path: p("x"), reason: "bad" },
            "target path `x` is invalid: bad",
        ),
        (Error::NonUtf8Path { path: p("x") }, "path `x` cannot be represented as UTF-8"),
        (Error::InvalidUtf8File { path: p("x") }, "file `x` is not valid UTF-8"),
        (
            Error::ManagedBlockMissingEnd {
                path: p("x"),
                start_marker: "s".to_string(),
                end_marker: "e".to_string(),
            },
            "managed block `s` in `x` is missing closing marker `e`",
        ),
        (
            Error::InvalidManagedBlock { path: p("x"), reason: "bad" },
            "invalid managed block in `x`: bad",
        ),
    ] {
        assert_eq!(error.message(), message);
    }
}

use shellcomp::shell::fish::{detect, install, uninstall};
use shellcomp::{ActivationMode, Availability, Content, Disk, FileChange, FilePath, Node};

fn p(text: &str) -> FilePath {
    FilePath::from_text(text)
}

fn make_dir(disk: &mut Disk, path: &FilePath) {
    let mut dir = Some(path.clone());
    while let Some(path) = dir {
        if !disk.is_there(&path) {
            disk.record(&path, Some(Node { link: None, readonly: false, mode: None, content: Content::Directory }));
        }
        dir = path.parent();
    }
}

fn temp_dir(disk: &mut Disk, label: &str) -> FilePath {
    let root = p("/temp").join(label);
    make_dir(disk, &root);
    root
}

fn write(disk: &mut Disk, path: &FilePath, contents: impl AsRef<[u8]>) {
    if let Some(parent) = path.parent() {
        make_dir(disk, &parent);
    }
    let content = Content::File(contents.as_ref().to_vec());
    disk.record(path, Some(Node { link: None, readonly: false, mode: None, content }));
}

#[test]
fn install_reports_native_directory_activation() {
    let report = install(&p("/tmp/fish/completions/tool.fish"));
    assert_eq!(report.report.mode, ActivationMode::NativeDirectory);
    assert_eq!(report.report.availability, Availability::ActiveNow);
    assert!(report.report.next_step.is_none());
}

#[test]
fn detect_reports_active_now_when_completion_exists() {
    let mut disk = Disk::new();
    let temp_root = temp_dir(&mut disk, "fish-detect-installed");
    let target = temp_root.join("tool.fish");
    write(&mut disk, &target, "complete -c tool\n");
    let report = detect(&disk, &target).expect("detect should succeed");
    assert_eq!(report.mode, ActivationMode::NativeDirectory);
    assert_eq!(report.availability, Availability::ActiveNow);
    assert_eq!(report.location, Some(target));
    assert!(report.next_step.is_none());
}

#[test]
fn uninstall_reports_no_profile_cleanup() {
    let report = uninstall();
    assert_eq!(report.cleanup.mode, ActivationMode::NativeDirectory);
    assert_eq!(report.cleanup.change, FileChange::Absent);
    assert!(report.cleanup.location.is_none());
}

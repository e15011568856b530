use shellcomp::fs::{file_exists, read_file_if_exists, write_atomic, write_if_changed};
use shellcomp::{
    Content, Disk, Error, FileChange, FilePath, IoErrorKind, Node, Platform,
};

fn p(text: &str) -> FilePath {
    FilePath::from_text(text)
}

fn make_dir(disk: &mut Disk, path: &FilePath) {
    let mut dir = Some(path.clone());
    while let Some(path) = dir {
        if !disk.is_there(&path) {
            disk.record(&path, Some(Node { link: None, readonly: false, mode: None, content: Content::Directory }));
        }
        dir = path.parent();
    }
}

fn temp_dir(disk: &mut Disk, label: &str) -> FilePath {
    let root = p("/temp").join(label);
    make_dir(disk, &root);
    root
}

fn write(disk: &mut Disk, path: &FilePath, contents: impl AsRef<[u8]>) {
    if let Some(parent) = path.parent() {
        make_dir(disk, &parent);
    }
    let content = Content::File(contents.as_ref().to_vec());
    disk.record(path, Some(Node { link: None, readonly: false, mode: None, content }));
}

fn read_bytes(disk: &Disk, path: &FilePath) -> Vec<u8> {
    disk.read(path).expect("file should be readable")
}

fn special(disk: &mut Disk, path: &FilePath) {
    make_dir(disk, &path.parent().unwrap());
    disk.record(path, Some(Node { link: None, readonly: false, mode: None, content: Content::Special }));
}

#[test]
fn write_if_changed_distinguishes_created_updated_and_unchanged() {
    let mut disk = Disk::new();
    let temp_root = temp_dir(&mut disk, "write-if-changed");
    let target = temp_root.join("file.txt");
    let created = write_if_changed(Platform::Unix, &mut disk, &target, b"one").expect("create should succeed");
    let unchanged = write_if_changed(Platform::Unix, &mut disk, &target, b"one").expect("unchanged write should succeed");
    let updated = write_if_changed(Platform::Unix, &mut disk, &target, b"two").expect("update should succeed");
    assert_eq!(created, FileChange::Created);
    assert_eq!(unchanged, FileChange::Unchanged);
    assert_eq!(updated, FileChange::Updated);
    assert_eq!(read_bytes(&disk, &target), b"two");
}

#[test]
fn replacing_a_file_preserves_permissions_and_does_not_truncate_other_links() {
    let mut disk = Disk::new();
    let root = temp_dir(&mut disk, "atomic-write");
    let path = root.join("rc");
    let old_link = root.join("old");
    let content = Content::File(b"old contents".to_vec());
    let file = Node { link: None, readonly: false, mode: Some(0o640), content };
    disk.record(&path, Some(file.clone()));
    disk.record(&old_link, Some(file.clone()));
    assert_eq!(
        write_if_changed(Platform::Unix, &mut disk, &path, b"new contents").unwrap(),
        FileChange::Updated
    );
    assert_eq!(read_bytes(&disk, &old_link), b"old contents");
    assert_eq!(read_bytes(&disk, &path), b"new contents");
    assert_eq!(disk.node(&path).unwrap().mode, Some(0o640));
    assert_eq!(disk.node(&old_link), Some(&file));
    assert_eq!(disk.read_dir_entries(&root).unwrap().len(), 2);
}

#[test]
fn failed_replacement_keeps_the_target_and_removes_the_temporary_file() {
    let mut disk = Disk::new();
    let root = temp_dir(&mut disk, "atomic-write-failure");
    let path = root.join("directory");
    make_dir(&mut disk, &path);
    write(&mut disk, &path.join("keep"), b"keep");
    assert!(write_atomic(Platform::Unix, &mut disk, &path, b"replacement").is_err());
    assert_eq!(read_bytes(&disk, &path.join("keep")), b"keep");
    assert_eq!(disk.read_dir_entries(&root).unwrap().len(), 1);
}

#[test]
fn special_files_are_rejected_before_io() {
    let mut disk = Disk::new();
    special(&mut disk, &p("/dev/null"));
    assert!(matches!(
        write_if_changed(Platform::Unix, &mut disk, &p("/dev/null"), b"data"),
        Err(Error::InvalidTargetPath { .. })
    ));
}

#[test]
fn discovery_distinguishes_absent_files_from_invalid_ancestors() {
    let mut disk = Disk::new();
    let root = temp_dir(&mut disk, "file-discovery");
    let file = root.join("file");
    assert!(!file_exists(&disk, &file).unwrap());
    assert_eq!(read_file_if_exists(&disk, &file).unwrap(), None);
    write(&mut disk, &file, b"contents");
    assert!(file_exists(&disk, &file).unwrap());
    assert!(file_exists(&disk, &file.join("child")).is_err());
    assert!(read_file_if_exists(&disk, &file.join("child")).is_err());
    assert!(read_file_if_exists(&disk, &root).is_err());
}

#[test]
fn startup_discovery_rejects_a_fifo_before_reading_it() {
    let mut disk = Disk::new();
    let root = temp_dir(&mut disk, "startup-fifo");
    let fifo = root.join(".bashrc");
    special(&mut disk, &fifo);
    let error = read_file_if_exists(&disk, &fifo).unwrap_err();
    assert!(matches!(error, Error::Io { source, .. } if source.kind == IoErrorKind::InvalidInput));
}

#[test]
fn atomic_replacement_respects_readonly_files() {
    let mut disk = Disk::new();
    let root = temp_dir(&mut disk, "root");
    let target = root.join("profile");
    write(&mut disk, &target, b"keep");
    let content = Content::File(b"keep".to_vec());
    disk.record(&target, Some(Node { link: None, readonly: true, mode: None, content }));
    let same = write_if_changed(Platform::Unix, &mut disk, &target, b"keep");
    let changed = write_if_changed(Platform::Unix, &mut disk, &target, b"replace");
    assert_eq!(same.unwrap(), FileChange::Unchanged);
    assert!(
        matches!(changed, Err(Error::Io { source, .. }) if source.kind == IoErrorKind::PermissionDenied)
    );
    assert_eq!(read_bytes(&disk, &target), b"keep");
    assert_eq!(disk.read_dir_entries(&root).unwrap().len(), 1);
}

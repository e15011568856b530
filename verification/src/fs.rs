//! Reading, writing and removing files.
use vstd::prelude::*;

use crate::disk::{
    fault_at, inspect, is_a_directory, is_a_directory_error, is_busy, is_busy_error, node_at,
    not_a_directory, not_a_directory_error, not_a_regular_file, not_found, not_found_error,
    not_a_regular_file_error, read_bytes, recorded, Change, Content, ContentView, Disk, DiskView,
    Node, NodeView, Step,
};
use crate::environment::Platform;
use crate::error::{Error, ErrorView, IoError, IoErrorKind, IoView};
use crate::model::FileChange;
use crate::path::{asks_directory, byte_views, components, ends_in_separator, parent, FilePath};
use crate::paths::{target_error, validate_target_path};
use crate::text;

verus! {

pub open spec fn io_error(action: Seq<char>, path: Seq<u8>, source: IoView) -> ErrorView {
    ErrorView::Io { action, path, source }
}

/// Whether a regular file stands at a path.
pub open spec fn file_exists_view(d: DiskView, path: Seq<u8>) -> Result<bool, ErrorView> {
    match inspect(d, path) {
        Ok(node) => Ok(node.content is File),
        Err(error) => if error.kind == IoErrorKind::NotFound {
            Ok(false)
        } else {
            Err(io_error("inspect file"@, path, error))
        },
    }
}

/// The bytes of a regular file, or that there is no file. Links are followed; devices, sockets
/// and pipes are not read.
pub open spec fn file_view(d: DiskView, path: Seq<u8>) -> Result<Option<Seq<u8>>, ErrorView> {
    match inspect(d, path) {
        Ok(node) => if node.content is File {
            match read_bytes(d, path) {
                Ok(bytes) => Ok(Some(bytes)),
                Err(error) => if error.kind == IoErrorKind::NotFound {
                    Ok(None)
                } else {
                    Err(io_error("read file"@, path, error))
                },
            }
        } else {
            Err(io_error("read file"@, path, not_a_regular_file()))
        },
        Err(error) => if error.kind == IoErrorKind::NotFound {
            Ok(None)
        } else {
            Err(io_error("inspect file"@, path, error))
        },
    }
}

pub open spec fn bool_result(r: Result<bool, Error>) -> Result<bool, ErrorView> {
    match r {
        Ok(b) => Ok(b),
        Err(error) => Err(error@),
    }
}

pub open spec fn bytes_result(r: Result<Option<Vec<u8>>, Error>) -> Result<
    Option<Seq<u8>>,
    ErrorView,
> {
    match r {
        Ok(Some(bytes)) => Ok(Some(bytes@)),
        Ok(None) => Ok(None),
        Err(error) => Err(error@),
    }
}

pub open spec fn change_result(r: Result<FileChange, Error>) -> Result<FileChange, ErrorView> {
    match r {
        Ok(change) => Ok(change),
        Err(error) => Err(error@),
    }
}

/// Whether a regular file stands at a path.
pub fn file_exists(disk: &Disk, path: &FilePath) -> (r: Result<bool, Error>)
    ensures
        bool_result(r) == file_exists_view(disk@, path@),
{
    match disk.inspect(path) {
        Ok(node) => match node.content {
            Content::File(_) => Ok(true),
            _ => Ok(false),
        },
        Err(error) => match error.kind {
            IoErrorKind::NotFound => Ok(false),
            _ => Err(Error::io("inspect file", path, error)),
        },
    }
}

/// Reads a regular file, if there is one.
pub fn read_file_if_exists(disk: &Disk, path: &FilePath) -> (r: Result<Option<Vec<u8>>, Error>)
    ensures
        bytes_result(r) == file_view(disk@, path@),
{
    match disk.inspect(path) {
        Ok(node) => match node.content {
            Content::File(_) => {},
            _ => {
                return Err(Error::io("read file", path, not_a_regular_file_error()));
            },
        },
        Err(error) => match error.kind {
            IoErrorKind::NotFound => {
                return Ok(None);
            },
            _ => {
                return Err(Error::io("inspect file", path, error));
            },
        },
    }
    match disk.read(path) {
        Ok(bytes) => Ok(Some(bytes)),
        Err(error) => match error.kind {
            IoErrorKind::NotFound => Ok(None),
            _ => Err(Error::io("read file", path, error)),
        },
    }
}

/// A new directory.
pub open spec fn directory_node() -> NodeView {
    NodeView { link: None, readonly: false, mode: None, content: ContentView::Directory }
}

/// A regular file that can be written, with its bytes and permission bits.
pub open spec fn file_node(bytes: Seq<u8>, mode: Option<u32>) -> NodeView {
    NodeView { link: None, readonly: false, mode, content: ContentView::File(bytes) }
}

/// The permission bits that a replaced file leaves to its successor.
pub open spec fn kept_mode(existing: Option<NodeView>) -> Option<u32> {
    match existing {
        Some(node) => node.mode,
        None => None,
    }
}

/// Whether an entry is one of the first `count` directories on the way to `key`.
pub open spec fn on_the_way(k: Seq<Seq<u8>>, key: Seq<Seq<u8>>, count: int) -> bool {
    1 <= k.len() <= count && k.len() <= key.len() && k == key.take(k.len() as int)
}

/// The changes that make the first `count` directories on the way to `key`, from the top down.
/// Nothing is done to what is there.
pub open spec fn directory_changes(d: DiskView, key: Seq<Seq<u8>>, count: int) -> Seq<Change>
    decreases count,
{
    if count <= 0 {
        Seq::empty()
    } else if d.nodes.dom().contains(key.take(count)) {
        directory_changes(d, key, count - 1)
    } else {
        directory_changes(d, key, count - 1).push(
            Change { key: key.take(count), node: Some(directory_node()) },
        )
    }
}

/// A file system on which the first `count` directories on the way to `key` are there.
pub open spec fn with_directories(d: DiskView, key: Seq<Seq<u8>>, count: int) -> DiskView {
    DiskView {
        nodes: Map::new(
            |k: Seq<Seq<u8>>| d.nodes.dom().contains(k) || on_the_way(k, key, count),
            |k: Seq<Seq<u8>>|
                if d.nodes.dom().contains(k) {
                    d.nodes[k]
                } else {
                    directory_node()
                },
        ),
        changes: d.changes + directory_changes(d, key, count),
        ..d
    }
}

/// A file system on which every directory on the way to a path is there.
pub open spec fn with_parents(d: DiskView, dir: Seq<u8>) -> DiskView {
    with_directories(d, components(dir), components(dir).len() as int)
}

/// The refusal to write over a file that its permissions protect.
pub open spec fn readonly_refusal() -> IoView {
    IoView {
        kind: IoErrorKind::PermissionDenied,
        os_code: None,
        message: "refusing to replace a read-only file"@,
    }
}

/// How the operating system refuses to put a temporary file in the place of an entry.
pub open spec fn replace_refusal(path: Seq<u8>, existing: Option<NodeView>) -> Option<IoView> {
    if ends_in_separator(path) {
        Some(not_a_directory())
    } else if asks_directory(path) {
        Some(
            if existing is Some {
                is_busy()
            } else {
                not_found()
            },
        )
    } else {
        match existing {
            Some(node) => if node.content is Directory {
                Some(is_a_directory())
            } else {
                None
            },
            None => None,
        }
    }
}

/// The first of the steps that put a temporary file in the place of a file to be refused. The
/// permissions are set only where there is a file to take them from.
pub open spec fn staging_error(d: DiskView, path: Seq<u8>, existing: Option<NodeView>) -> Option<
    ErrorView,
> {
    match fault_at(d, Step::CreateTemporary, path) {
        Some(error) => Some(io_error("create temporary file for"@, path, error)),
        None => match fault_at(d, Step::Write, path) {
            Some(error) => Some(io_error("write file"@, path, error)),
            None => match (existing, fault_at(d, Step::SetPermissions, path)) {
                (Some(_), Some(error)) => Some(io_error("set file permissions"@, path, error)),
                _ => match fault_at(d, Step::Sync, path) {
                    Some(error) => Some(io_error("sync file"@, path, error)),
                    None => match fault_at(d, Step::Replace, path) {
                        Some(error) => Some(io_error("replace file"@, path, error)),
                        None => match replace_refusal(path, existing) {
                            Some(error) => Some(io_error("replace file"@, path, error)),
                            None => None,
                        },
                    },
                },
            },
        },
    }
}

/// What writing a file leaves, and the error that it ends in. The file is replaced as a whole,
/// in one change that keeps its permissions, or not at all; the directories above it may have
/// been made even so.
pub open spec fn written(platform: Platform, d: DiskView, path: Seq<u8>, bytes: Seq<u8>) -> (
    DiskView,
    Option<ErrorView>,
) {
    match target_error(platform, d, path) {
        Some(error) => (d, Some(error)),
        None => match parent(path) {
            None => (d, Some(ErrorView::PathHasNoParent { path })),
            Some(dir) => match fault_at(d, Step::CreateParent, path) {
                Some(error) => (d, Some(io_error("create parent directory for"@, dir, error))),
                None => {
                    let ready = with_parents(d, dir);
                    match inspect(ready, path) {
                        Err(error) => if error.kind != IoErrorKind::NotFound {
                            (ready, Some(io_error("inspect file"@, path, error)))
                        } else {
                            replaced(ready, path, None, bytes)
                        },
                        Ok(node) => if node.readonly {
                            (ready, Some(io_error("replace file"@, path, readonly_refusal())))
                        } else {
                            replaced(ready, path, Some(node), bytes)
                        },
                    }
                },
            },
        },
    }
}

pub open spec fn replaced(
    d: DiskView,
    path: Seq<u8>,
    existing: Option<NodeView>,
    bytes: Seq<u8>,
) -> (DiskView, Option<ErrorView>) {
    match staging_error(d, path, existing) {
        Some(error) => (d, Some(error)),
        None => (
            recorded(d, components(path), Some(file_node(bytes, kept_mode(existing)))),
            None,
        ),
    }
}

fn make_directories(disk: &mut Disk, dir: &FilePath)
    ensures
        final(disk)@ == with_parents(old(disk)@, dir@),
{
    let key = dir.components();
    let ghost k = components(dir@);
    let ghost d0 = disk@;
    let mut n: usize = 0;
    assert(d0.changes + directory_changes(d0, k, 0) =~= d0.changes);
    assert(disk@ =~= with_directories(d0, k, 0));
    while n < key.len()
        invariant
            n <= key@.len(),
            byte_views(key@) == k,
            k.len() == key@.len(),
            disk@ == with_directories(d0, k, n as int),
        decreases key.len() - n,
    {
        let prefix = crate::disk::copy_names(&key, n + 1);
        let ghost before = disk@;
        if disk.entry(&prefix).is_none() {
            let ghost p = k.take(n + 1);
            disk.record_entry(
                prefix,
                Some(
                    Node { link: None, readonly: false, mode: None, content: Content::Directory },
                ),
            );
            assert(disk@ == recorded(before, p, Some(directory_node())));
        }
        proof {
            let after = with_directories(d0, k, n + 1);
            assert forall|x: Seq<Seq<u8>>|
                on_the_way(x, k, n + 1) == (on_the_way(x, k, n as int) || x == k.take(
                    n + 1,
                )) by {
                assert(k.take(n + 1).len() == n + 1);
            }
            assert(disk@.nodes.dom() =~= after.nodes.dom());
            assert(disk@.nodes =~= after.nodes);
            assert(!on_the_way(k.take(n + 1), k, n as int));
            assert(disk@.changes =~= after.changes);
        }
        n += 1;
    }
}

/// Puts a temporary file with the given bytes in the place of a file, so that no one sees a
/// file that is written in part.
pub fn write_atomic(platform: Platform, disk: &mut Disk, path: &FilePath, contents: &[u8]) -> (r:
    Result<(), Error>)
    ensures
        (final(disk)@, crate::paths::unit_error(r)) == written(
            platform,
            old(disk)@,
            path@,
            contents@,
        ),
{
    validate_target_path(platform, disk, path)?;
    let dir = match path.parent() {
        Some(dir) => dir,
        None => {
            return Err(Error::PathHasNoParent { path: path.copy() });
        },
    };
    match disk.fault(Step::CreateParent, path) {
        Some(error) => {
            return Err(Error::io("create parent directory for", &dir, error.copy()));
        },
        None => {},
    }
    make_directories(disk, &dir);
    let ghost mut found: Option<NodeView> = None;
    let mut existing = false;
    let mut is_directory = false;
    let mut mode: Option<u32> = None;
    match disk.inspect(path) {
        Ok(node) => {
            if node.readonly {
                return Err(
                    Error::io(
                        "replace file",
                        path,
                        IoError {
                            kind: IoErrorKind::PermissionDenied,
                            os_code: None,
                            message: text::copy("refusing to replace a read-only file"),
                        },
                    ),
                );
            }
            existing = true;
            mode = node.mode;
            is_directory = match node.content {
                Content::Directory => true,
                _ => false,
            };
            proof {
                found = Some(node@);
            }
        },
        Err(error) => match error.kind {
            IoErrorKind::NotFound => {},
            _ => {
                return Err(Error::io("inspect file", path, error));
            },
        },
    }
    match disk.fault(Step::CreateTemporary, path) {
        Some(error) => {
            return Err(Error::io("create temporary file for", path, error.copy()));
        },
        None => {},
    }
    match disk.fault(Step::Write, path) {
        Some(error) => {
            return Err(Error::io("write file", path, error.copy()));
        },
        None => {},
    }
    if existing {
        match disk.fault(Step::SetPermissions, path) {
            Some(error) => {
                return Err(Error::io("set file permissions", path, error.copy()));
            },
            None => {},
        }
    }
    match disk.fault(Step::Sync, path) {
        Some(error) => {
            return Err(Error::io("sync file", path, error.copy()));
        },
        None => {},
    }
    match disk.fault(Step::Replace, path) {
        Some(error) => {
            return Err(Error::io("replace file", path, error.copy()));
        },
        None => {},
    }
    if path.ends_in_separator() {
        return Err(Error::io("replace file", path, not_a_directory_error()));
    }
    if path.asks_directory() {
        let error = if existing {
            is_busy_error()
        } else {
            not_found_error()
        };
        return Err(Error::io("replace file", path, error));
    }
    if is_directory {
        return Err(Error::io("replace file", path, is_a_directory_error()));
    }
    disk.record(
        path,
        Some(
            Node {
                link: None,
                readonly: false,
                mode,
                content: Content::File(text::copy_bytes(contents)),
            },
        ),
    );
    Ok(())
}

/// What writing a file only where its bytes differ leaves and returns.
pub open spec fn written_if_changed(
    platform: Platform,
    d: DiskView,
    path: Seq<u8>,
    bytes: Seq<u8>,
) -> (DiskView, Result<FileChange, ErrorView>) {
    match target_error(platform, d, path) {
        Some(error) => (d, Err(error)),
        None => match read_bytes(d, path) {
            Ok(existing) => if existing == bytes {
                (d, Ok(FileChange::Unchanged))
            } else {
                changed(written(platform, d, path, bytes), FileChange::Updated)
            },
            Err(error) => if error.kind == IoErrorKind::NotFound {
                changed(written(platform, d, path, bytes), FileChange::Created)
            } else {
                (d, Err(io_error("read file"@, path, error)))
            },
        },
    }
}

/// The outcome of a write that reports the given change when it succeeds.
pub open spec fn changed(outcome: (DiskView, Option<ErrorView>), change: FileChange) -> (
    DiskView,
    Result<FileChange, ErrorView>,
) {
    match outcome.1 {
        Some(error) => (outcome.0, Err(error)),
        None => (outcome.0, Ok(change)),
    }
}

/// Writes a file unless it already has the given bytes.
pub fn write_if_changed(
    platform: Platform,
    disk: &mut Disk,
    path: &FilePath,
    contents: &[u8],
) -> (r: Result<FileChange, Error>)
    ensures
        (final(disk)@, change_result(r)) == written_if_changed(
            platform,
            old(disk)@,
            path@,
            contents@,
        ),
{
    validate_target_path(platform, disk, path)?;
    match disk.read(path) {
        Ok(existing) => {
            if text::same_bytes(&existing, contents) {
                return Ok(FileChange::Unchanged);
            }
            write_atomic(platform, disk, path, contents)?;
            Ok(FileChange::Updated)
        },
        Err(error) => match error.kind {
            IoErrorKind::NotFound => {
                write_atomic(platform, disk, path, contents)?;
                Ok(FileChange::Created)
            },
            _ => Err(Error::io("read file", path, error)),
        },
    }
}

/// What removing a file leaves and returns.
pub open spec fn removed(platform: Platform, d: DiskView, path: Seq<u8>) -> (
    DiskView,
    Result<FileChange, ErrorView>,
) {
    match target_error(platform, d, path) {
        Some(error) => (d, Err(error)),
        None => match removal_error(d, path) {
            Some(error) => if error.kind == IoErrorKind::NotFound {
                (d, Ok(FileChange::Absent))
            } else {
                (d, Err(io_error("remove file"@, path, error)))
            },
            None => (recorded(d, components(path), None), Ok(FileChange::Removed)),
        },
    }
}

/// How the operating system refuses to remove an entry under a path that asks for a directory. A
/// link is followed where the path ends in a `.`, and not where it ends in a separator.
pub open spec fn slash_refusal(path: Seq<u8>, node: NodeView) -> IoView {
    if node.link is Some && ends_in_separator(path) {
        not_a_directory()
    } else {
        match node.content {
            ContentView::Directory => is_a_directory(),
            ContentView::Dangling => not_found(),
            _ => not_a_directory(),
        }
    }
}

/// How the operating system refuses to remove an entry.
pub open spec fn removal_error(d: DiskView, path: Seq<u8>) -> Option<IoView> {
    match fault_at(d, Step::Remove, path) {
        Some(error) => Some(error),
        None => match node_at(d, path) {
            Some(node) => if asks_directory(path) {
                Some(slash_refusal(path, node))
            } else if node.content is Directory && node.link is None {
                Some(is_a_directory())
            } else {
                None
            },
            None => Some(crate::disk::missing(d, path)),
        },
    }
}

/// Removes a file, if there is one.
pub fn remove_file_if_exists(platform: Platform, disk: &mut Disk, path: &FilePath) -> (r: Result<
    FileChange,
    Error,
>)
    ensures
        (final(disk)@, change_result(r)) == removed(platform, old(disk)@, path@),
{
    validate_target_path(platform, disk, path)?;
    match disk.removal_error(path) {
        Some(error) => match error.kind {
            IoErrorKind::NotFound => Ok(FileChange::Absent),
            _ => Err(Error::io("remove file", path, error)),
        },
        None => {
            disk.record(path, None);
            Ok(FileChange::Removed)
        },
    }
}

impl Disk {
    fn removal_error(&self, path: &FilePath) -> (r: Option<IoError>)
        ensures
            (match r {
                Some(error) => Some(error@),
                None => None,
            }) == removal_error(self@, path@),
    {
        match self.fault(Step::Remove, path) {
            Some(error) => {
                return Some(error.copy());
            },
            None => {},
        }
        match self.node(path) {
            Some(node) => if path.asks_directory() {
                if node.link.is_some() && path.ends_in_separator() {
                    return Some(not_a_directory_error());
                }
                match node.content {
                    Content::Directory => Some(is_a_directory_error()),
                    Content::Dangling => Some(not_found_error()),
                    _ => Some(not_a_directory_error()),
                }
            } else {
                match (&node.content, &node.link) {
                    (Content::Directory, None) => Some(is_a_directory_error()),
                    _ => None,
                }
            },
            None => Some(self.missing_error(path)),
        }
    }
}

} // verus!

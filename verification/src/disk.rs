//! A file system as a value: what is known to stand at each path, and which steps the
//! operating system refuses.
use vstd::prelude::*;

use crate::error::{IoError, IoErrorKind, IoView};
use crate::path::{asks_directory, byte_views, components, same_names, FilePath};
use crate::text;

verus! {

/// What stands at a path when links are followed.
#[derive(Debug, Clone, PartialEq, Eq)]
pub enum Content {
    /// A regular file with its bytes.
    File(Vec<u8>),
    Directory,
    /// A device, a socket or a pipe.
    Special,
    /// A symbolic link that leads nowhere.
    Dangling,
}

#[verifier::ext_equal]
pub enum ContentView {
    File(Seq<u8>),
    Directory,
    Special,
    Dangling,
}

impl View for Content {
    type V = ContentView;

    open spec fn view(&self) -> ContentView {
        match self {
            Content::File(bytes) => ContentView::File(bytes@),
            Content::Directory => ContentView::Directory,
            Content::Special => ContentView::Special,
            Content::Dangling => ContentView::Dangling,
        }
    }
}

/// An entry of the file system.
#[derive(Debug, Clone, PartialEq, Eq)]
pub struct Node {
    /// Where the entry leads, if it is a symbolic link.
    pub link: Option<FilePath>,
    /// Whether its permissions forbid writing.
    pub readonly: bool,
    /// Its permission bits, where they are known. What the system gives a new entry is not.
    pub mode: Option<u32>,
    pub content: Content,
}

#[verifier::ext_equal]
pub struct NodeView {
    pub link: Option<Seq<u8>>,
    pub readonly: bool,
    pub mode: Option<u32>,
    pub content: ContentView,
}

impl View for Node {
    type V = NodeView;

    open spec fn view(&self) -> NodeView {
        NodeView {
            link: match self.link {
                Some(p) => Some(p@),
                None => None,
            },
            readonly: self.readonly,
            mode: self.mode,
            content: self.content@,
        }
    }
}

impl Node {
    fn copy(&self) -> (r: Node)
        ensures
            r@ == self@,
    {
        Node {
            link: match &self.link {
                Some(link) => Some(link.copy()),
                None => None,
            },
            readonly: self.readonly,
            mode: self.mode,
            content: match &self.content {
                Content::File(bytes) => Content::File(text::copy_bytes(bytes)),
                Content::Directory => Content::Directory,
                Content::Special => Content::Special,
                Content::Dangling => Content::Dangling,
            },
        }
    }

    fn seen_directory(&self) -> (r: Result<Node, IoError>)
        ensures
            node_result(r) == seen_directory(self@),
    {
        match self.content {
            Content::Directory => Ok(
                Node {
                    link: None,
                    readonly: self.readonly,
                    mode: self.mode,
                    content: Content::Directory,
                },
            ),
            Content::Dangling => Err(not_found_error()),
            _ => Err(not_a_directory_error()),
        }
    }
}

/// The steps at which the operating system can refuse to go on.
#[derive(Debug, Clone, Copy, PartialEq, Eq, Structural)]
pub enum Step {
    /// Looking at an entry without following it.
    InspectLink,
    /// Looking at what an entry leads to.
    Inspect,
    /// Reading a file.
    Read,
    /// Listing a directory.
    List,
    /// Creating the directories above a file.
    CreateParent,
    /// Creating the temporary file beside a file.
    CreateTemporary,
    /// Writing the temporary file.
    Write,
    /// Giving the temporary file the permissions of the file.
    SetPermissions,
    /// Flushing the temporary file.
    Sync,
    /// Putting the temporary file in the place of the file.
    Replace,
    /// Removing a file.
    Remove,
}

/// What is on record for the entry with the given components: a node, or that there is none.
#[derive(Debug, Clone, PartialEq, Eq)]
pub struct Record {
    pub key: Vec<Vec<u8>>,
    pub node: Option<Node>,
}

/// A refusal of the operating system.
#[derive(Debug, Clone, PartialEq, Eq)]
pub struct Fault {
    pub step: Step,
    pub key: Vec<Vec<u8>>,
    pub error: IoError,
}

/// A file system. Later records override earlier ones, so what an operation changed is what it
/// put behind the records that were there before.
#[derive(Debug, Clone, PartialEq, Eq)]
pub struct Disk {
    pub records: Vec<Record>,
    pub faults: Vec<Fault>,
}

/// A change of one entry: the node that it got, or that it is gone.
#[verifier::ext_equal]
pub struct Change {
    pub key: Seq<Seq<u8>>,
    pub node: Option<NodeView>,
}

/// A refusal of one step at one entry.
#[verifier::ext_equal]
pub struct Refusal {
    pub step: Step,
    pub key: Seq<Seq<u8>>,
    pub error: IoView,
}

/// The entries by their components, the refusals by step and components, and both as they came
/// to be on record, one after the other.
#[verifier::ext_equal]
pub struct DiskView {
    pub nodes: Map<Seq<Seq<u8>>, NodeView>,
    pub faults: Map<(Step, Seq<Seq<u8>>), IoView>,
    pub changes: Seq<Change>,
    pub refusals: Seq<Refusal>,
}

/// The changes that a list of records holds.
pub open spec fn changes_of(records: Seq<Record>) -> Seq<Change> {
    records.map_values(|r: Record| change_of(r))
}

pub open spec fn change_of(record: Record) -> Change {
    Change {
        key: byte_views(record.key@),
        node: match record.node {
            Some(n) => Some(n@),
            None => None,
        },
    }
}

/// The refusals that a list of faults holds, one after the other.
pub open spec fn refusals_of(faults: Seq<Fault>) -> Seq<Refusal> {
    faults.map_values(
        |f: Fault| Refusal { step: f.step, key: byte_views(f.key@), error: f.error@ },
    )
}

/// The entries that a list of records leaves.
pub open spec fn nodes_of(records: Seq<Record>) -> Map<Seq<Seq<u8>>, NodeView>
    decreases records.len(),
{
    if records.len() == 0 {
        Map::empty()
    } else {
        let before = nodes_of(records.drop_last());
        let key = byte_views(records.last().key@);
        match records.last().node {
            Some(node) => before.insert(key, node@),
            None => before.remove(key),
        }
    }
}

/// The refusals that a list of faults holds; the last one for a step and a path counts.
pub open spec fn faults_of(faults: Seq<Fault>) -> Map<(Step, Seq<Seq<u8>>), IoView>
    decreases faults.len(),
{
    if faults.len() == 0 {
        Map::empty()
    } else {
        faults_of(faults.drop_last()).insert(
            (faults.last().step, byte_views(faults.last().key@)),
            faults.last().error@,
        )
    }
}

impl View for Disk {
    type V = DiskView;

    open spec fn view(&self) -> DiskView {
        DiskView {
            nodes: nodes_of(self.records@),
            faults: faults_of(self.faults@),
            changes: changes_of(self.records@),
            refusals: refusals_of(self.faults@),
        }
    }
}

/// The entry at a path.
pub open spec fn node_at(d: DiskView, path: Seq<u8>) -> Option<NodeView> {
    node_with(d, components(path))
}

pub open spec fn node_with(d: DiskView, key: Seq<Seq<u8>>) -> Option<NodeView> {
    if d.nodes.dom().contains(key) {
        Some(d.nodes[key])
    } else {
        None
    }
}

/// The refusal of a step at a path.
pub open spec fn fault_at(d: DiskView, step: Step, path: Seq<u8>) -> Option<IoView> {
    if d.faults.dom().contains((step, components(path))) {
        Some(d.faults[(step, components(path))])
    } else {
        None
    }
}

pub open spec fn not_found() -> IoView {
    IoView {
        kind: IoErrorKind::NotFound,
        os_code: Some(2),
        message: "No such file or directory (os error 2)"@,
    }
}

pub open spec fn not_a_directory() -> IoView {
    IoView {
        kind: IoErrorKind::NotADirectory,
        os_code: Some(20),
        message: "Not a directory (os error 20)"@,
    }
}

pub open spec fn is_a_directory() -> IoView {
    IoView {
        kind: IoErrorKind::IsADirectory,
        os_code: Some(21),
        message: "Is a directory (os error 21)"@,
    }
}

pub open spec fn is_busy() -> IoView {
    IoView {
        kind: IoErrorKind::Other,
        os_code: Some(16),
        message: "Device or resource busy (os error 16)"@,
    }
}

pub open spec fn not_a_regular_file() -> IoView {
    IoView {
        kind: IoErrorKind::InvalidInput,
        os_code: None,
        message: "expected a regular file"@,
    }
}

/// Whether something that is no directory stands above an entry.
pub open spec fn is_blocked(d: DiskView, key: Seq<Seq<u8>>) -> bool {
    exists|n: int| 1 <= n < key.len() && blocks(node_with(d, #[trigger] key.take(n)))
}

pub open spec fn blocks(node: Option<NodeView>) -> bool {
    match node {
        Some(n) => n.content is File || n.content is Special,
        None => false,
    }
}

/// How the operating system answers a question about an entry that is not there.
pub open spec fn missing(d: DiskView, path: Seq<u8>) -> IoView {
    if is_blocked(d, components(path)) {
        not_a_directory()
    } else {
        not_found()
    }
}

/// What is seen of an entry under a path that asks for a directory. A link is followed then.
pub open spec fn seen_directory(node: NodeView) -> Result<NodeView, IoView> {
    match node.content {
        ContentView::Directory => Ok(NodeView { link: None, ..node }),
        ContentView::Dangling => Err(not_found()),
        _ => Err(not_a_directory()),
    }
}

/// What is seen of an entry when links are not followed.
pub open spec fn inspect_link(d: DiskView, path: Seq<u8>) -> Result<NodeView, IoView> {
    match fault_at(d, Step::InspectLink, path) {
        Some(error) => Err(error),
        None => match node_at(d, path) {
            Some(node) => if asks_directory(path) {
                seen_directory(node)
            } else {
                Ok(node)
            },
            None => Err(missing(d, path)),
        },
    }
}

/// What is seen of an entry when links are followed.
pub open spec fn inspect(d: DiskView, path: Seq<u8>) -> Result<NodeView, IoView> {
    match fault_at(d, Step::Inspect, path) {
        Some(error) => Err(error),
        None => match node_at(d, path) {
            Some(node) => if asks_directory(path) {
                seen_directory(node)
            } else if node.content is Dangling {
                Err(not_found())
            } else {
                Ok(node)
            },
            None => Err(missing(d, path)),
        },
    }
}

/// The bytes that reading a file gives.
pub open spec fn read_bytes(d: DiskView, path: Seq<u8>) -> Result<Seq<u8>, IoView> {
    match fault_at(d, Step::Read, path) {
        Some(error) => Err(error),
        None => match node_at(d, path) {
            Some(node) => match node.content {
                ContentView::Directory => Err(is_a_directory()),
                ContentView::File(bytes) => if asks_directory(path) {
                    Err(not_a_directory())
                } else {
                    Ok(bytes)
                },
                ContentView::Special => if asks_directory(path) {
                    Err(not_a_directory())
                } else {
                    Err(not_a_regular_file())
                },
                ContentView::Dangling => Err(not_found()),
            },
            None => Err(missing(d, path)),
        },
    }
}

pub open spec fn opt_node(node: Option<&Node>) -> Option<NodeView> {
    match node {
        Some(n) => Some(n@),
        None => None,
    }
}

pub open spec fn opt_io(error: Option<&IoError>) -> Option<IoView> {
    match error {
        Some(e) => Some(e@),
        None => None,
    }
}

/// The view of an answer of the file system.
pub open spec fn node_result(r: Result<Node, IoError>) -> Result<NodeView, IoView> {
    match r {
        Ok(node) => Ok(node@),
        Err(error) => Err(error@),
    }
}

/// The error for an entry that is not there.
pub fn not_found_error() -> (r: IoError)
    ensures
        r@ == not_found(),
{
    IoError {
        kind: IoErrorKind::NotFound,
        os_code: Some(2),
        message: text::copy("No such file or directory (os error 2)"),
    }
}

/// The error for a path that leads through something other than a directory.
pub fn not_a_directory_error() -> (r: IoError)
    ensures
        r@ == not_a_directory(),
{
    IoError {
        kind: IoErrorKind::NotADirectory,
        os_code: Some(20),
        message: text::copy("Not a directory (os error 20)"),
    }
}

/// The error for a directory in the place of a file.
pub fn is_a_directory_error() -> (r: IoError)
    ensures
        r@ == is_a_directory(),
{
    IoError {
        kind: IoErrorKind::IsADirectory,
        os_code: Some(21),
        message: text::copy("Is a directory (os error 21)"),
    }
}

/// The error for a place that the system itself holds.
pub fn is_busy_error() -> (r: IoError)
    ensures
        r@ == is_busy(),
{
    IoError {
        kind: IoErrorKind::Other,
        os_code: Some(16),
        message: text::copy("Device or resource busy (os error 16)"),
    }
}

/// The error for something that is not a regular file.
pub fn not_a_regular_file_error() -> (r: IoError)
    ensures
        r@ == not_a_regular_file(),
{
    IoError {
        kind: IoErrorKind::InvalidInput,
        os_code: None,
        message: text::copy("expected a regular file"),
    }
}

/// A copy of the first `count` names.
pub fn copy_names(names: &Vec<Vec<u8>>, count: usize) -> (r: Vec<Vec<u8>>)
    requires
        count <= names@.len(),
    ensures
        byte_views(r@) == byte_views(names@).take(count as int),
{
    let mut out: Vec<Vec<u8>> = Vec::new();
    let mut i: usize = 0;
    while i < count
        invariant
            i <= count <= names@.len(),
            out@.len() == i,
            forall|k: int| 0 <= k < i ==> (#[trigger] out@[k])@ == names@[k]@,
        decreases count - i,
    {
        out.push(text::copy_bytes(&names[i]));
        i += 1;
    }
    assert(byte_views(out@) =~= byte_views(names@).take(count as int));
    out
}

impl Disk {
    /// A file system with nothing on it.
    pub fn new() -> (r: Disk)
        ensures
            r@ == (DiskView {
                nodes: Map::empty(),
                faults: Map::empty(),
                changes: Seq::empty(),
                refusals: Seq::empty(),
            }),
    {
        Disk { records: Vec::new(), faults: Vec::new() }
    }

    /// The entry with the given components.
    pub fn entry(&self, key: &Vec<Vec<u8>>) -> (r: Option<&Node>)
        ensures
            opt_node(r) == node_with(self@, byte_views(key@)),
    {
        let mut i: usize = self.records.len();
        assert(self.records@.take(i as int) =~= self.records@);
        while i > 0
            invariant
                i <= self.records@.len(),
                node_with(self@, byte_views(key@)) == node_with(
                    (DiskView {
                        nodes: nodes_of(self.records@.take(i as int)),
                        ..self@
                    }),
                    byte_views(key@),
                ),
            decreases i,
        {
            i -= 1;
            assert(self.records@.take(i + 1).drop_last() =~= self.records@.take(i as int));
            assert(self.records@.take(i + 1).last() == self.records@[i as int]);
            if same_names(&self.records[i].key, key) {
                return self.records[i].node.as_ref();
            }
        }
        None
    }

    /// The entry at a path.
    pub fn node(&self, path: &FilePath) -> (r: Option<&Node>)
        ensures
            opt_node(r) == node_at(self@, path@),
    {
        self.entry(&path.components())
    }

    /// Puts an entry, or that there is none, on record.
    pub fn record(&mut self, path: &FilePath, node: Option<Node>)
        ensures
            final(self)@ == recorded(old(self)@, components(path@), (match node {
                Some(n) => Some(n@),
                None => None,
            })),
    {
        self.record_entry(path.components(), node);
    }

    /// Puts an entry, or that there is none, on record by its components.
    pub fn record_entry(&mut self, key: Vec<Vec<u8>>, node: Option<Node>)
        ensures
            final(self)@ == recorded(old(self)@, byte_views(key@), (match node {
                Some(n) => Some(n@),
                None => None,
            })),
    {
        let ghost before = self.records@;
        self.records.push(Record { key, node });
        assert(self.records@.drop_last() =~= before);
        assert(self@.changes =~= changes_of(before).push(change_of(self.records@.last())));
    }

    /// Puts a refusal on record.
    pub fn refuse(&mut self, step: Step, path: &FilePath, error: IoError)
        ensures
            final(self)@ == (DiskView {
                nodes: old(self)@.nodes,
                faults: old(self)@.faults.insert((step, components(path@)), error@),
                changes: old(self)@.changes,
                refusals: old(self)@.refusals.push(
                    (Refusal { step, key: components(path@), error: error@ }),
                ),
            }),
    {
        let ghost before = self.faults@;
        self.faults.push(Fault { step, key: path.components(), error });
        assert(self.faults@.drop_last() =~= before);
        assert(self@.refusals =~= refusals_of(before).push(
            (Refusal { step, key: components(path@), error: error@ }),
        ));
    }

    /// The refusal of a step at a path.
    pub fn fault(&self, step: Step, path: &FilePath) -> (r: Option<&IoError>)
        ensures
            opt_io(r) == fault_at(self@, step, path@),
    {
        let key = path.components();
        let mut i: usize = self.faults.len();
        assert(self.faults@.take(i as int) =~= self.faults@);
        while i > 0
            invariant
                i <= self.faults@.len(),
                byte_views(key@) == components(path@),
                fault_at(self@, step, path@) == fault_at(
                    (DiskView {
                        faults: faults_of(self.faults@.take(i as int)),
                        ..self@
                    }),
                    step,
                    path@,
                ),
            decreases i,
        {
            i -= 1;
            assert(self.faults@.take(i + 1).drop_last() =~= self.faults@.take(i as int));
            assert(self.faults@.take(i + 1).last() == self.faults@[i as int]);
            if self.faults[i].step == step && same_names(&self.faults[i].key, &key) {
                return Some(&self.faults[i].error);
            }
        }
        None
    }

    /// The error for a path at which nothing stands.
    pub fn missing_error(&self, path: &FilePath) -> (r: IoError)
        ensures
            r@ == missing(self@, path@),
    {
        let key = path.components();
        let mut n: usize = 1;
        while n < key.len()
            invariant
                1 <= n,
                byte_views(key@) == components(path@),
                forall|m: int|
                    1 <= m < n && m < key@.len() ==> !blocks(
                        node_with(self@, #[trigger] components(path@).take(m)),
                    ),
            decreases key.len() - n,
        {
            let prefix = copy_names(&key, n);
            match self.entry(&prefix) {
                Some(node) => match node.content {
                    Content::File(_) | Content::Special => {
                        assert(blocks(node_with(self@, components(path@).take(n as int))));
                        return not_a_directory_error();
                    },
                    _ => {},
                },
                None => {},
            }
            n += 1;
        }
        assert(components(path@).len() == key@.len());
        not_found_error()
    }

    /// Looks at an entry without following it.
    pub fn inspect_link(&self, path: &FilePath) -> (r: Result<Node, IoError>)
        ensures
            node_result(r) == inspect_link(self@, path@),
    {
        match self.fault(Step::InspectLink, path) {
            Some(error) => {
                return Err(error.copy());
            },
            None => {},
        }
        match self.node(path) {
            Some(node) => if path.asks_directory() {
                node.seen_directory()
            } else {
                Ok(node.copy())
            },
            None => Err(self.missing_error(path)),
        }
    }

    /// Looks at what an entry leads to.
    pub fn inspect(&self, path: &FilePath) -> (r: Result<Node, IoError>)
        ensures
            node_result(r) == inspect(self@, path@),
    {
        match self.fault(Step::Inspect, path) {
            Some(error) => {
                return Err(error.copy());
            },
            None => {},
        }
        match self.node(path) {
            Some(node) => if path.asks_directory() {
                node.seen_directory()
            } else {
                match node.content {
                    Content::Dangling => Err(not_found_error()),
                    _ => Ok(node.copy()),
                }
            },
            None => Err(self.missing_error(path)),
        }
    }

    /// Reads a file.
    pub fn read(&self, path: &FilePath) -> (r: Result<Vec<u8>, IoError>)
        ensures
            (match r {
                Ok(bytes) => Ok::<Seq<u8>, IoView>(bytes@),
                Err(error) => Err::<Seq<u8>, IoView>(error@),
            }) == read_bytes(self@, path@),
    {
        match self.fault(Step::Read, path) {
            Some(error) => {
                return Err(error.copy());
            },
            None => {},
        }
        match self.node(path) {
            Some(node) => match &node.content {
                Content::Directory => Err(is_a_directory_error()),
                Content::File(bytes) => if path.asks_directory() {
                    Err(not_a_directory_error())
                } else {
                    Ok(text::copy_bytes(bytes))
                },
                Content::Special => if path.asks_directory() {
                    Err(not_a_directory_error())
                } else {
                    Err(not_a_regular_file_error())
                },
                Content::Dangling => Err(not_found_error()),
            },
            None => Err(self.missing_error(path)),
        }
    }

    /// Whether something stands at a path when links are followed.
    pub fn is_there(&self, path: &FilePath) -> (r: bool)
        ensures
            r == (inspect(self@, path@) is Ok),
    {
        match self.inspect(path) {
            Ok(_) => true,
            Err(_) => false,
        }
    }
}

/// A file system on which an entry, or that there is none, was put on record.
pub open spec fn recorded(d: DiskView, key: Seq<Seq<u8>>, node: Option<NodeView>) -> DiskView {
    DiskView {
        nodes: match node {
            Some(n) => d.nodes.insert(key, n),
            None => d.nodes.remove(key),
        },
        changes: d.changes.push(Change { key, node }),
        ..d
    }
}

} // verus!

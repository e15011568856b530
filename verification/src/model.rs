//! Requests, reports and the vocabulary that they use, with the mathematical view of each.
use vstd::prelude::*;

use crate::path::{path_views, FilePath};
use crate::text;

verus! {

/// A shell that completions can be deployed for.
#[derive(Debug, Clone, PartialEq, Eq, Hash)]
pub enum Shell {
    Bash,
    Zsh,
    Fish,
    Elvish,
    Powershell,
    /// A shell that the library does not support, by its name.
    Other(String),
}

/// The view of a shell.
#[verifier::ext_equal]
pub enum ShellView {
    Bash,
    Zsh,
    Fish,
    Elvish,
    Powershell,
    Other(Seq<char>),
}

impl View for Shell {
    type V = ShellView;

    open spec fn view(&self) -> ShellView {
        match self {
            Shell::Bash => ShellView::Bash,
            Shell::Zsh => ShellView::Zsh,
            Shell::Fish => ShellView::Fish,
            Shell::Elvish => ShellView::Elvish,
            Shell::Powershell => ShellView::Powershell,
            Shell::Other(name) => ShellView::Other(name@),
        }
    }
}

/// The name of a shell as messages show it.
pub open spec fn shell_name(shell: ShellView) -> Seq<char> {
    match shell {
        ShellView::Bash => "bash"@,
        ShellView::Zsh => "zsh"@,
        ShellView::Fish => "fish"@,
        ShellView::Elvish => "elvish"@,
        ShellView::Powershell => "powershell"@,
        ShellView::Other(name) => name,
    }
}

impl Shell {
    /// A copy of the shell.
    pub fn copy(&self) -> (r: Shell)
        ensures
            r@ == self@,
    {
        match self {
            Shell::Bash => Shell::Bash,
            Shell::Zsh => Shell::Zsh,
            Shell::Fish => Shell::Fish,
            Shell::Elvish => Shell::Elvish,
            Shell::Powershell => Shell::Powershell,
            Shell::Other(name) => Shell::Other(text::copy(name)),
        }
    }

    /// The name of the shell as messages show it.
    pub fn name(&self) -> (r: String)
        ensures
            r@ == shell_name(self@),
    {
        match self {
            Shell::Bash => text::copy("bash"),
            Shell::Zsh => text::copy("zsh"),
            Shell::Fish => text::copy("fish"),
            Shell::Elvish => text::copy("elvish"),
            Shell::Powershell => text::copy("powershell"),
            Shell::Other(name) => text::copy(name),
        }
    }
}

/// What happened to a file.
#[derive(Debug, Clone, Copy, PartialEq, Eq, Structural)]
pub enum FileChange {
    /// It was not there and was made.
    Created,
    /// It was there and its content changed.
    Updated,
    /// It already had the requested content.
    Unchanged,
    /// It was there and was removed.
    Removed,
    /// It was not there, and nothing was done.
    Absent,
}

/// How a shell comes to load a completion.
#[derive(Debug, Clone, Copy, PartialEq, Eq, Structural)]
pub enum ActivationMode {
    /// A completion loader of the system picks it up.
    SystemLoader,
    /// A marked block in a startup file loads it.
    ManagedRcBlock,
    /// The shell looks into the directory by itself.
    NativeDirectory,
    /// The user or the caller has to arrange it.
    Manual,
}

/// Whether the library is to arrange activation by itself.
///
/// Custom paths default to `Manual`, the managed default locations to `AutoManaged`.
#[derive(Debug, Clone, Copy, PartialEq, Eq, Structural)]
pub enum ActivationPolicy {
    /// Do what the shell's managed activation asks for, where it is supported.
    AutoManaged,
    /// Write or remove the completion file alone.
    Manual,
}

/// Whether an installed completion can be used.
#[derive(Debug, Clone, Copy, PartialEq, Eq, Structural)]
pub enum Availability {
    ActiveNow,
    AvailableAfterNewShell,
    AvailableAfterSource,
    ManualActionRequired,
    Unknown,
}

/// The operations of the library.
#[derive(Debug, Clone, Copy, PartialEq, Eq, Structural)]
pub enum Operation {
    Install,
    DetectActivation,
    MigrateManagedBlocks,
    Uninstall,
}

/// The phases that an operation goes through.
#[derive(Debug, Clone, Copy, PartialEq, Eq, Structural)]
pub enum OperationEventPhase {
    Started,
    Succeeded,
    Failed,
}

/// What an observer of an operation is told.
#[derive(Debug, Clone, PartialEq, Eq)]
pub struct OperationEvent {
    pub operation: Operation,
    pub phase: OperationEventPhase,
    pub shell: Shell,
    pub program_name: String,
    /// The number that ties the event to the failure reports of the same call.
    pub trace_id: u64,
    /// The completion path that the operation is about, where it is known.
    pub target_path: Option<FilePath>,
    /// The code of the error, where the operation failed.
    pub error_code: Option<&'static str>,
    /// Whether trying again may help.
    pub retryable: bool,
    /// How long the operation took; a start event has none.
    pub duration_ms: Option<u128>,
}

/// The kinds of failure that a caller can tell apart.
#[derive(Debug, Clone, Copy, PartialEq, Eq, Structural)]
pub enum FailureKind {
    MissingHome,
    UnsupportedShell,
    InvalidTargetPath,
    DefaultPathUnavailable,
    CompletionTargetUnavailable,
    CompletionFileUnreadable,
    ProfileUnavailable,
    ProfileCorrupted,
}

/// The stable code of each kind.
pub open spec fn kind_code(kind: FailureKind) -> Seq<char> {
    match kind {
        FailureKind::MissingHome => "shellcomp.missing_home"@,
        FailureKind::UnsupportedShell => "shellcomp.unsupported_shell"@,
        FailureKind::InvalidTargetPath => "shellcomp.invalid_target_path"@,
        FailureKind::DefaultPathUnavailable => "shellcomp.default_path_unavailable"@,
        FailureKind::CompletionTargetUnavailable => "shellcomp.completion_target_unavailable"@,
        FailureKind::CompletionFileUnreadable => "shellcomp.completion_file_unreadable"@,
        FailureKind::ProfileUnavailable => "shellcomp.profile_unavailable"@,
        FailureKind::ProfileCorrupted => "shellcomp.profile_corrupted"@,
    }
}

/// The kinds for which trying again may help.
pub open spec fn kind_is_retryable(kind: FailureKind) -> bool {
    kind == FailureKind::CompletionTargetUnavailable || kind
        == FailureKind::CompletionFileUnreadable || kind == FailureKind::ProfileUnavailable
}

impl FailureKind {
    /// The stable code of the kind.
    pub fn code(self) -> (r: &'static str)
        ensures
            r@ == kind_code(self),
    {
        match self {
            FailureKind::MissingHome => "shellcomp.missing_home",
            FailureKind::UnsupportedShell => "shellcomp.unsupported_shell",
            FailureKind::InvalidTargetPath => "shellcomp.invalid_target_path",
            FailureKind::DefaultPathUnavailable => "shellcomp.default_path_unavailable",
            FailureKind::CompletionTargetUnavailable => "shellcomp.completion_target_unavailable",
            FailureKind::CompletionFileUnreadable => "shellcomp.completion_file_unreadable",
            FailureKind::ProfileUnavailable => "shellcomp.profile_unavailable",
            FailureKind::ProfileCorrupted => "shellcomp.profile_corrupted",
        }
    }

    /// Whether trying again may help.
    pub fn is_retryable(self) -> (r: bool)
        ensures
            r == kind_is_retryable(self),
    {
        match self {
            FailureKind::CompletionTargetUnavailable
            | FailureKind::CompletionFileUnreadable
            | FailureKind::ProfileUnavailable => true,
            _ => false,
        }
    }
}

/// A request to install a completion script.
#[derive(Debug, Clone, PartialEq, Eq)]
pub struct InstallRequest<'a> {
    pub shell: Shell,
    /// The name of the program: ASCII letters, digits, `.`, `_` and `-`.
    pub program_name: &'a str,
    /// The bytes of the script.
    pub script: &'a [u8],
    /// Where to put the script instead of the managed default location.
    pub path_override: Option<FilePath>,
}

/// A request to remove a completion script.
#[derive(Debug, Clone, PartialEq, Eq)]
pub struct UninstallRequest<'a> {
    pub shell: Shell,
    /// The name of the program, under the same rules as for an install.
    pub program_name: &'a str,
    /// The file to remove instead of the one at the managed default location.
    pub path_override: Option<FilePath>,
}

/// The markers of a block that another tool put into a startup file.
///
/// Markers are distinct nonempty single lines, and they match whole lines of the file.
#[derive(Debug, Clone, PartialEq, Eq)]
pub struct LegacyManagedBlock {
    pub start_marker: String,
    pub end_marker: String,
}

/// A request to replace legacy blocks by the library's own block.
#[derive(Debug, Clone, PartialEq, Eq)]
pub struct MigrateManagedBlocksRequest<'a> {
    pub shell: Shell,
    pub program_name: &'a str,
    /// The completion file that the block is to load instead of the default one.
    pub path_override: Option<FilePath>,
    /// The blocks to take out.
    pub legacy_blocks: Vec<LegacyManagedBlock>,
}

pub open spec fn opt_path(path: Option<FilePath>) -> Option<Seq<u8>> {
    match path {
        Some(p) => Some(p@),
        None => None,
    }
}

pub open spec fn opt_path_ref(path: Option<&FilePath>) -> Option<Seq<u8>> {
    match path {
        Some(p) => Some(p@),
        None => None,
    }
}

pub open spec fn opt_text(text: Option<String>) -> Option<Seq<char>> {
    match text {
        Some(t) => Some(t@),
        None => None,
    }
}

pub open spec fn opt_str(text: Option<&str>) -> Option<Seq<char>> {
    match text {
        Some(t) => Some(t@),
        None => None,
    }
}

/// The state of the activation of a completion.
#[derive(Debug, Clone, PartialEq, Eq)]
pub struct ActivationReport {
    pub mode: ActivationMode,
    pub availability: Availability,
    /// The file that activation hangs on: the completion file or a startup file.
    pub location: Option<FilePath>,
    /// An explanation for people.
    pub reason: Option<String>,
    /// What to do next.
    pub next_step: Option<String>,
}

#[verifier::ext_equal]
pub struct ActivationView {
    pub mode: ActivationMode,
    pub availability: Availability,
    pub location: Option<Seq<u8>>,
    pub reason: Option<Seq<char>>,
    pub next_step: Option<Seq<char>>,
}

impl View for ActivationReport {
    type V = ActivationView;

    open spec fn view(&self) -> ActivationView {
        ActivationView {
            mode: self.mode,
            availability: self.availability,
            location: opt_path(self.location),
            reason: opt_text(self.reason),
            next_step: opt_text(self.next_step),
        }
    }
}

/// The outcome of taking activation wiring back.
#[derive(Debug, Clone, PartialEq, Eq)]
pub struct CleanupReport {
    pub mode: ActivationMode,
    pub change: FileChange,
    /// The file that was cleaned up, where there is one.
    pub location: Option<FilePath>,
    pub reason: Option<String>,
    pub next_step: Option<String>,
}

#[verifier::ext_equal]
pub struct CleanupView {
    pub mode: ActivationMode,
    pub change: FileChange,
    pub location: Option<Seq<u8>>,
    pub reason: Option<Seq<char>>,
    pub next_step: Option<Seq<char>>,
}

impl View for CleanupReport {
    type V = CleanupView;

    open spec fn view(&self) -> CleanupView {
        CleanupView {
            mode: self.mode,
            change: self.change,
            location: opt_path(self.location),
            reason: opt_text(self.reason),
            next_step: opt_text(self.next_step),
        }
    }
}

/// The outcome of an install.
#[derive(Debug, Clone, PartialEq, Eq)]
pub struct InstallReport {
    pub shell: Shell,
    /// The path of the script.
    pub target_path: FilePath,
    /// What happened to the script file.
    pub file_change: FileChange,
    pub activation: ActivationReport,
    /// The files touched or referred to, the script first.
    pub affected_locations: Vec<FilePath>,
}

#[verifier::ext_equal]
pub struct InstallView {
    pub shell: ShellView,
    pub target_path: Seq<u8>,
    pub file_change: FileChange,
    pub activation: ActivationView,
    pub affected_locations: Seq<Seq<u8>>,
}

impl View for InstallReport {
    type V = InstallView;

    open spec fn view(&self) -> InstallView {
        InstallView {
            shell: self.shell@,
            target_path: self.target_path@,
            file_change: self.file_change,
            activation: self.activation@,
            affected_locations: path_views(self.affected_locations@),
        }
    }
}

/// The outcome of an uninstall.
#[derive(Debug, Clone, PartialEq, Eq)]
pub struct RemoveReport {
    pub shell: Shell,
    /// The path of the script.
    pub target_path: FilePath,
    /// What happened to the script file.
    pub file_change: FileChange,
    pub cleanup: CleanupReport,
    /// The files touched or referred to, the script first.
    pub affected_locations: Vec<FilePath>,
}

#[verifier::ext_equal]
pub struct RemoveView {
    pub shell: ShellView,
    pub target_path: Seq<u8>,
    pub file_change: FileChange,
    pub cleanup: CleanupView,
    pub affected_locations: Seq<Seq<u8>>,
}

impl View for RemoveReport {
    type V = RemoveView;

    open spec fn view(&self) -> RemoveView {
        RemoveView {
            shell: self.shell@,
            target_path: self.target_path@,
            file_change: self.file_change,
            cleanup: self.cleanup@,
            affected_locations: path_views(self.affected_locations@),
        }
    }
}

/// The outcome of a migration.
#[derive(Debug, Clone, PartialEq, Eq)]
pub struct MigrateManagedBlocksReport {
    pub shell: Shell,
    /// The completion file that the block loads.
    pub target_path: FilePath,
    /// The startup file, where the shell has one.
    pub location: Option<FilePath>,
    /// What happened to the legacy blocks.
    pub legacy_change: FileChange,
    /// What happened to the library's own block.
    pub managed_change: FileChange,
    /// The files touched or inspected, the completion file first.
    pub affected_locations: Vec<FilePath>,
}

#[verifier::ext_equal]
pub struct MigrateView {
    pub shell: ShellView,
    pub target_path: Seq<u8>,
    pub location: Option<Seq<u8>>,
    pub legacy_change: FileChange,
    pub managed_change: FileChange,
    pub affected_locations: Seq<Seq<u8>>,
}

impl View for MigrateManagedBlocksReport {
    type V = MigrateView;

    open spec fn view(&self) -> MigrateView {
        MigrateView {
            shell: self.shell@,
            target_path: self.target_path@,
            location: opt_path(self.location),
            legacy_change: self.legacy_change,
            managed_change: self.managed_change,
            affected_locations: path_views(self.affected_locations@),
        }
    }
}

/// What is known of an operation that failed.
#[derive(Debug, Clone, PartialEq, Eq)]
pub struct FailureReport {
    pub operation: Operation,
    pub shell: Shell,
    /// The completion path of the operation, where it is known.
    pub target_path: Option<FilePath>,
    /// The files inspected or changed before the failure.
    pub affected_locations: Vec<FilePath>,
    pub kind: FailureKind,
    /// What had happened to the completion file before the failure.
    pub file_change: Option<FileChange>,
    /// The activation that is left to the user.
    pub activation: Option<ActivationReport>,
    pub cleanup: Option<CleanupReport>,
    pub reason: String,
    pub next_step: Option<String>,
    /// The number that ties the report to the events of the same call.
    pub trace_id: u64,
}

#[verifier::ext_equal]
pub struct FailureView {
    pub operation: Operation,
    pub shell: ShellView,
    pub target_path: Option<Seq<u8>>,
    pub affected_locations: Seq<Seq<u8>>,
    pub kind: FailureKind,
    pub file_change: Option<FileChange>,
    pub activation: Option<ActivationView>,
    pub cleanup: Option<CleanupView>,
    pub reason: Seq<char>,
    pub next_step: Option<Seq<char>>,
    pub trace_id: u64,
}

impl View for FailureReport {
    type V = FailureView;

    open spec fn view(&self) -> FailureView {
        FailureView {
            operation: self.operation,
            shell: self.shell@,
            target_path: opt_path(self.target_path),
            affected_locations: path_views(self.affected_locations@),
            kind: self.kind,
            file_change: self.file_change,
            activation: match self.activation {
                Some(a) => Some(a@),
                None => None,
            },
            cleanup: match self.cleanup {
                Some(c) => Some(c@),
                None => None,
            },
            reason: self.reason@,
            next_step: opt_text(self.next_step),
            trace_id: self.trace_id,
        }
    }
}

impl FailureReport {
    /// The stable code of the failure's kind.
    pub fn error_code(&self) -> (r: &'static str)
        ensures
            r@ == kind_code(self@.kind),
    {
        self.kind.code()
    }

    /// Whether trying again may help.
    pub fn is_retryable(&self) -> (r: bool)
        ensures
            r == kind_is_retryable(self@.kind),
    {
        self.kind.is_retryable()
    }
}

} // verus!

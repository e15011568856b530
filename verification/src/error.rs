//! The errors of the library.
use vstd::prelude::*;

use crate::model::{
    kind_code, kind_is_retryable, opt_path_ref, opt_str, shell_name, FailureReport, FailureView,
    Shell, ShellView,
};
use crate::path::{shown, FilePath};
use crate::text;

verus! {

/// The kinds of file system error that the library tells apart.
#[derive(Debug, Clone, Copy, PartialEq, Eq, Structural)]
pub enum IoErrorKind {
    NotFound,
    PermissionDenied,
    NotADirectory,
    IsADirectory,
    InvalidInput,
    Other,
}

/// An error of the file system: its kind, the number that the operating system gave it, and
/// its message.
#[derive(Debug, Clone, PartialEq, Eq)]
pub struct IoError {
    pub kind: IoErrorKind,
    pub os_code: Option<i32>,
    pub message: String,
}

#[verifier::ext_equal]
pub struct IoView {
    pub kind: IoErrorKind,
    pub os_code: Option<i32>,
    pub message: Seq<char>,
}

impl View for IoError {
    type V = IoView;

    open spec fn view(&self) -> IoView {
        IoView { kind: self.kind, os_code: self.os_code, message: self.message@ }
    }
}

impl IoError {
    /// A copy of the error.
    pub fn copy(&self) -> (r: IoError)
        ensures
            r@ == self@,
    {
        IoError { kind: self.kind, os_code: self.os_code, message: text::copy(&self.message) }
    }
}

/// The errors of the library. Failures that a caller is expected to show carry a report;
/// the other variants are immediate rejections and low-level problems.
#[allow(inconsistent_fields)]
#[derive(Debug)]
pub enum Error {
    /// The program name is empty.
    EmptyProgramName,
    /// The program name holds a character that is not allowed, or is `.` or `..`.
    InvalidProgramName { program_name: String },
    /// No home directory is known.
    MissingHome,
    /// The shell is not supported.
    UnsupportedShell(Shell),
    /// A path has no parent directory.
    PathHasNoParent { path: FilePath },
    /// A target path was rejected.
    InvalidTargetPath { path: FilePath, reason: &'static str },
    /// A path that shell code has to name is not valid UTF-8.
    NonUtf8Path { path: FilePath },
    /// A text file is not valid UTF-8.
    InvalidUtf8File { path: FilePath },
    /// A start marker has no end marker behind it.
    ManagedBlockMissingEnd { path: FilePath, start_marker: String, end_marker: String },
    /// Markers, or the order in which they stand, are invalid.
    InvalidManagedBlock { path: FilePath, reason: &'static str },
    /// An operation failed; the report says how, the source why.
    Failure { report: Box<FailureReport>, source: Option<Box<Error>> },
    /// The file system refused something.
    Io { action: &'static str, path: FilePath, source: IoError },
}

/// The view of an error.
#[allow(inconsistent_fields)]
#[verifier::ext_equal]
pub enum ErrorView {
    EmptyProgramName,
    InvalidProgramName { program_name: Seq<char> },
    MissingHome,
    UnsupportedShell { shell: ShellView },
    PathHasNoParent { path: Seq<u8> },
    InvalidTargetPath { path: Seq<u8>, reason: Seq<char> },
    NonUtf8Path { path: Seq<u8> },
    InvalidUtf8File { path: Seq<u8> },
    ManagedBlockMissingEnd { path: Seq<u8>, start_marker: Seq<char>, end_marker: Seq<char> },
    InvalidManagedBlock { path: Seq<u8>, reason: Seq<char> },
    Failure { report: FailureView, source: Option<Box<ErrorView>> },
    Io { action: Seq<char>, path: Seq<u8>, source: IoView },
}

/// The view of an error, with the views of the errors behind it.
pub open spec fn error_view(error: Error) -> ErrorView
    decreases error,
{
    match error {
        Error::EmptyProgramName => ErrorView::EmptyProgramName,
        Error::InvalidProgramName { program_name } => ErrorView::InvalidProgramName {
            program_name: program_name@,
        },
        Error::MissingHome => ErrorView::MissingHome,
        Error::UnsupportedShell(shell) => ErrorView::UnsupportedShell { shell: shell@ },
        Error::PathHasNoParent { path } => ErrorView::PathHasNoParent { path: path@ },
        Error::InvalidTargetPath { path, reason } => ErrorView::InvalidTargetPath {
            path: path@,
            reason: reason@,
        },
        Error::NonUtf8Path { path } => ErrorView::NonUtf8Path { path: path@ },
        Error::InvalidUtf8File { path } => ErrorView::InvalidUtf8File { path: path@ },
        Error::ManagedBlockMissingEnd { path, start_marker, end_marker } => {
            ErrorView::ManagedBlockMissingEnd {
                path: path@,
                start_marker: start_marker@,
                end_marker: end_marker@,
            }
        },
        Error::InvalidManagedBlock { path, reason } => ErrorView::InvalidManagedBlock {
            path: path@,
            reason: reason@,
        },
        Error::Failure { report, source } => ErrorView::Failure {
            report: report@,
            source: match source {
                Some(inner) => Some(Box::new(error_view(*inner))),
                None => None,
            },
        },
        Error::Io { action, path, source } => ErrorView::Io {
            action: action@,
            path: path@,
            source: source@,
        },
    }
}

impl View for Error {
    type V = ErrorView;

    open spec fn view(&self) -> ErrorView {
        error_view(*self)
    }
}

/// The stable code of an error.
pub open spec fn error_code(error: ErrorView) -> Seq<char> {
    match error {
        ErrorView::EmptyProgramName => "shellcomp.empty_program_name"@,
        ErrorView::InvalidProgramName { .. } => "shellcomp.invalid_program_name"@,
        ErrorView::MissingHome => "shellcomp.missing_home"@,
        ErrorView::UnsupportedShell { .. } => "shellcomp.unsupported_shell"@,
        ErrorView::PathHasNoParent { .. } => "shellcomp.invalid_target_path"@,
        ErrorView::InvalidTargetPath { .. } => "shellcomp.invalid_target_path"@,
        ErrorView::NonUtf8Path { .. } => "shellcomp.invalid_target_path"@,
        ErrorView::InvalidUtf8File { .. } => "shellcomp.invalid_target_file"@,
        ErrorView::ManagedBlockMissingEnd { .. } => "shellcomp.profile_corrupted"@,
        ErrorView::InvalidManagedBlock { .. } => "shellcomp.profile_corrupted"@,
        ErrorView::Failure { report, .. } => kind_code(report.kind),
        ErrorView::Io { .. } => "shellcomp.io_error"@,
    }
}

/// Whether trying again may help.
pub open spec fn error_is_retryable(error: ErrorView) -> bool {
    match error {
        ErrorView::Failure { report, .. } => kind_is_retryable(report.kind),
        ErrorView::Io { .. } => true,
        _ => false,
    }
}

/// The file that an error is about, where there is one.
pub open spec fn error_location(error: ErrorView) -> Option<Seq<u8>> {
    match error {
        ErrorView::PathHasNoParent { path } => Some(path),
        ErrorView::InvalidTargetPath { path, .. } => Some(path),
        ErrorView::NonUtf8Path { path } => Some(path),
        ErrorView::InvalidUtf8File { path } => Some(path),
        ErrorView::Io { path, .. } => Some(path),
        ErrorView::ManagedBlockMissingEnd { path, .. } => Some(path),
        ErrorView::InvalidManagedBlock { path, .. } => Some(path),
        ErrorView::Failure { report, .. } => report.target_path,
        _ => None,
    }
}

/// Why the error came about, in words for people.
pub open spec fn error_reason(error: ErrorView) -> Option<Seq<char>> {
    match error {
        ErrorView::Failure { report, .. } => Some(report.reason),
        ErrorView::EmptyProgramName => Some("Program name must not be empty."@),
        ErrorView::InvalidProgramName { .. } => Some(
            "Program names must use a safe portable character set: ASCII letters, digits, `.`, `_`, and `-`."@,
        ),
        ErrorView::MissingHome => Some(
            "The operation requires a user home directory because the default shell-managed path could not be resolved."@,
        ),
        ErrorView::UnsupportedShell { .. } => Some(
            "This shell is modelled in the API but not implemented in the production support set yet."@,
        ),
        ErrorView::PathHasNoParent { .. } => Some(
            "The provided path does not have a parent directory."@,
        ),
        ErrorView::InvalidTargetPath { reason, .. } => Some(reason),
        ErrorView::InvalidManagedBlock { reason, .. } => Some(reason),
        ErrorView::NonUtf8Path { .. } => Some(
            "The path cannot be represented safely in shell startup wiring because it is not valid UTF-8."@,
        ),
        ErrorView::InvalidUtf8File { .. } => Some(
            "The managed file could not be parsed as UTF-8, so shellcomp cannot safely update it."@,
        ),
        ErrorView::ManagedBlockMissingEnd { .. } => Some(
            "A managed shell block is malformed because its closing marker is missing."@,
        ),
        ErrorView::Io { .. } => None,
    }
}

/// The advice that goes with each reason for which a target path is rejected.
pub open spec fn invalid_target_advice(reason: Seq<char>) -> Seq<char> {
    if reason == "target path must be absolute"@ {
        "Pass an absolute path so shellcomp can apply safe path validation reliably."@
    } else if reason == "target path must not be a symbolic link"@ {
        "Choose a path in a non-symlink directory and avoid symlink completion targets."@
    } else if reason == "target path must be normalized"@ {
        "Pass a normalized absolute path without `.` or `..` segments."@
    } else if reason == "target path parent must be an existing directory"@ {
        "Create the parent directory before calling shellcomp."@
    } else {
        "Use an explicit non-relative, non-symlink target path."@
    }
}

/// What to do about the error, where there is something to say.
pub open spec fn error_next_step(error: ErrorView) -> Option<Seq<char>> {
    match error {
        ErrorView::Failure { report, .. } => report.next_step,
        ErrorView::MissingHome => Some(
            "Set HOME or the relevant shell-specific home variable for the current process, or pass `path_override` so the library does not need a default managed path."@,
        ),
        ErrorView::PathHasNoParent { .. } => Some(
            "Pass a file path with a real parent directory, or create the parent directory before calling shellcomp."@,
        ),
        ErrorView::InvalidTargetPath { reason, .. } => Some(invalid_target_advice(reason)),
        ErrorView::InvalidProgramName { .. } => Some(
            "Rename the binary or pass a sanitized program name that only uses ASCII letters, digits, `.`, `_`, and `-`."@,
        ),
        _ => None,
    }
}

/// The message of an error.
pub open spec fn error_message(error: ErrorView) -> Seq<char> {
    match error {
        ErrorView::EmptyProgramName => "program name must not be empty"@,
        ErrorView::InvalidProgramName { program_name } => "program name `"@ + program_name
            + "` contains unsupported characters"@,
        ErrorView::MissingHome => "no supported home-directory environment variable is set and no fallback path can be resolved"@,
        ErrorView::UnsupportedShell { shell } => "shell `"@ + shell_name(shell)
            + "` is not supported yet"@,
        ErrorView::PathHasNoParent { path } => "path `"@ + shown(path)
            + "` does not have a parent directory"@,
        ErrorView::InvalidTargetPath { path, reason } => "target path `"@ + shown(path)
            + "` is invalid: "@ + reason,
        ErrorView::NonUtf8Path { path } => "path `"@ + shown(path)
            + "` cannot be represented as UTF-8"@,
        ErrorView::InvalidUtf8File { path } => "file `"@ + shown(path)
            + "` is not valid UTF-8"@,
        ErrorView::ManagedBlockMissingEnd { path, start_marker, end_marker } => "managed block `"@
            + start_marker + "` in `"@ + shown(path) + "` is missing closing marker `"@
            + end_marker + "`"@,
        ErrorView::InvalidManagedBlock { path, reason } => "invalid managed block in `"@
            + shown(path) + "`: "@ + reason,
        ErrorView::Failure { report, .. } => report.reason,
        ErrorView::Io { action, path, source } => "failed to "@ + action + " `"@
            + shown(path) + "`: "@ + source.message,
    }
}

/// An error as an operation reports it: a description, where there is one, takes the error's
/// place, and where the description is a failure report the error stays as its source.
pub open spec fn contextual(error: ErrorView, description: Option<ErrorView>) -> ErrorView {
    match description {
        Some(ErrorView::Failure { report, .. }) => ErrorView::Failure {
            report,
            source: Some(Box::new(error)),
        },
        Some(other) => other,
        None => error,
    }
}

pub open spec fn opt_error(error: Option<Error>) -> Option<ErrorView> {
    match error {
        Some(e) => Some(e@),
        None => None,
    }
}

impl Error {
    /// The stable code of the error.
    pub fn error_code(&self) -> (r: &'static str)
        ensures
            r@ == error_code(self@),
    {
        match self {
            Error::EmptyProgramName => "shellcomp.empty_program_name",
            Error::InvalidProgramName { .. } => "shellcomp.invalid_program_name",
            Error::MissingHome => "shellcomp.missing_home",
            Error::UnsupportedShell(_) => "shellcomp.unsupported_shell",
            Error::PathHasNoParent { .. } => "shellcomp.invalid_target_path",
            Error::InvalidTargetPath { .. } => "shellcomp.invalid_target_path",
            Error::NonUtf8Path { .. } => "shellcomp.invalid_target_path",
            Error::InvalidUtf8File { .. } => "shellcomp.invalid_target_file",
            Error::ManagedBlockMissingEnd { .. } => "shellcomp.profile_corrupted",
            Error::InvalidManagedBlock { .. } => "shellcomp.profile_corrupted",
            Error::Failure { report, .. } => report.error_code(),
            Error::Io { .. } => "shellcomp.io_error",
        }
    }

    /// Whether trying again may help.
    pub fn is_retryable(&self) -> (r: bool)
        ensures
            r == error_is_retryable(self@),
    {
        match self {
            Error::Failure { report, .. } => report.is_retryable(),
            Error::Io { .. } => true,
            _ => false,
        }
    }

    /// The trace number, where the error carries a report.
    pub fn trace_id(&self) -> (r: Option<u64>)
        ensures
            r == (match self@ {
                ErrorView::Failure { report, .. } => Some(report.trace_id),
                _ => None::<u64>,
            }),
    {
        match self {
            Error::Failure { report, .. } => Some(report.trace_id),
            _ => None,
        }
    }

    /// An error of the file system.
    pub fn io(action: &'static str, path: &FilePath, source: IoError) -> (r: Error)
        ensures
            r@ == (ErrorView::Io { action: action@, path: path@, source: source@ }),
    {
        Error::Io { action, path: path.copy(), source }
    }

    /// An error that carries a report, with nothing behind it.
    pub fn failure(report: FailureReport) -> (r: Error)
        ensures
            r@ == (ErrorView::Failure { report: report@, source: None }),
    {
        Error::Failure { report: Box::new(report), source: None }
    }

    /// Puts a description in the place of the error, which stays as the source of a report.
    pub fn with_context(self, description: Option<Error>) -> (r: Error)
        ensures
            r@ == contextual(self@, opt_error(description)),
    {
        match description {
            Some(Error::Failure { report, .. }) => Error::Failure {
                report,
                source: Some(Box::new(self)),
            },
            Some(error) => error,
            None => self,
        }
    }

    /// The report, where the error carries one.
    pub fn as_failure(&self) -> (r: Option<&FailureReport>)
        ensures
            r is Some <==> self@ is Failure,
            r matches Some(report) ==> self@->Failure_report == report@,
    {
        match self {
            Error::Failure { report, .. } => Some(&**report),
            _ => None,
        }
    }

    /// The report itself, where the error carries one; what lies behind it is dropped.
    pub fn into_failure(self) -> (r: Option<FailureReport>)
        ensures
            r is Some <==> self@ is Failure,
            r matches Some(report) ==> self@->Failure_report == report@,
    {
        match self {
            Error::Failure { report, .. } => Some(*report),
            _ => None,
        }
    }

    /// The file that the error is about, where there is one.
    pub fn location(&self) -> (r: Option<&FilePath>)
        ensures
            opt_path_ref(r) == error_location(self@),
    {
        match self {
            Error::PathHasNoParent { path } => Some(path),
            Error::InvalidTargetPath { path, .. } => Some(path),
            Error::NonUtf8Path { path } => Some(path),
            Error::InvalidUtf8File { path } => Some(path),
            Error::Io { path, .. } => Some(path),
            Error::ManagedBlockMissingEnd { path, .. } => Some(path),
            Error::InvalidManagedBlock { path, .. } => Some(path),
            Error::Failure { report, .. } => report.target_path.as_ref(),
            _ => None,
        }
    }

    /// Why the error came about, in words for people.
    pub fn reason(&self) -> (r: Option<&str>)
        ensures
            opt_str(r) == error_reason(self@),
    {
        match self {
            Error::Failure { report, .. } => Some(report.reason.as_str()),
            Error::EmptyProgramName => Some("Program name must not be empty."),
            Error::InvalidProgramName { .. } => Some(
                "Program names must use a safe portable character set: ASCII letters, digits, `.`, `_`, and `-`.",
            ),
            Error::MissingHome => Some(
                "The operation requires a user home directory because the default shell-managed path could not be resolved.",
            ),
            Error::UnsupportedShell(_) => Some(
                "This shell is modelled in the API but not implemented in the production support set yet.",
            ),
            Error::PathHasNoParent { .. } => Some(
                "The provided path does not have a parent directory.",
            ),
            Error::InvalidTargetPath { reason, .. } => Some(reason),
            Error::InvalidManagedBlock { reason, .. } => Some(reason),
            Error::NonUtf8Path { .. } => Some(
                "The path cannot be represented safely in shell startup wiring because it is not valid UTF-8.",
            ),
            Error::InvalidUtf8File { .. } => Some(
                "The managed file could not be parsed as UTF-8, so shellcomp cannot safely update it.",
            ),
            Error::ManagedBlockMissingEnd { .. } => Some(
                "A managed shell block is malformed because its closing marker is missing.",
            ),
            Error::Io { .. } => None,
        }
    }

    /// What to do about the error, where there is something to say.
    pub fn next_step(&self) -> (r: Option<&str>)
        ensures
            opt_str(r) == error_next_step(self@),
    {
        match self {
            Error::Failure { report, .. } => match &report.next_step {
                Some(step) => Some(step.as_str()),
                None => None,
            },
            Error::MissingHome => Some(
                "Set HOME or the relevant shell-specific home variable for the current process, or pass `path_override` so the library does not need a default managed path.",
            ),
            Error::PathHasNoParent { .. } => Some(
                "Pass a file path with a real parent directory, or create the parent directory before calling shellcomp.",
            ),
            Error::InvalidTargetPath { reason, .. } => {
                if text::same(reason, "target path must be absolute") {
                    Some(
                        "Pass an absolute path so shellcomp can apply safe path validation reliably.",
                    )
                } else if text::same(reason, "target path must not be a symbolic link") {
                    Some(
                        "Choose a path in a non-symlink directory and avoid symlink completion targets.",
                    )
                } else if text::same(reason, "target path must be normalized") {
                    Some("Pass a normalized absolute path without `.` or `..` segments.")
                } else if text::same(reason, "target path parent must be an existing directory") {
                    Some("Create the parent directory before calling shellcomp.")
                } else {
                    Some("Use an explicit non-relative, non-symlink target path.")
                }
            },
            Error::InvalidProgramName { .. } => Some(
                "Rename the binary or pass a sanitized program name that only uses ASCII letters, digits, `.`, `_`, and `-`.",
            ),
            _ => None,
        }
    }

    /// The message of the error.
    pub fn message(&self) -> (r: String)
        ensures
            r@ == error_message(self@),
    {
        match self {
            Error::EmptyProgramName => text::copy("program name must not be empty"),
            Error::InvalidProgramName { program_name } => text::concat3(
                "program name `",
                program_name,
                "` contains unsupported characters",
            ),
            Error::MissingHome => text::copy(
                "no supported home-directory environment variable is set and no fallback path can be resolved",
            ),
            Error::UnsupportedShell(shell) => text::concat3(
                "shell `",
                &shell.name(),
                "` is not supported yet",
            ),
            Error::PathHasNoParent { path } => text::concat3(
                "path `",
                &path.display(),
                "` does not have a parent directory",
            ),
            Error::InvalidTargetPath { path, reason } => text::concat2(
                &text::concat3("target path `", &path.display(), "` is invalid: "),
                reason,
            ),
            Error::NonUtf8Path { path } => text::concat3(
                "path `",
                &path.display(),
                "` cannot be represented as UTF-8",
            ),
            Error::InvalidUtf8File { path } => text::concat3(
                "file `",
                &path.display(),
                "` is not valid UTF-8",
            ),
            Error::ManagedBlockMissingEnd { path, start_marker, end_marker } => text::concat3(
                &text::concat5(
                    "managed block `",
                    start_marker,
                    "` in `",
                    &path.display(),
                    "` is missing closing marker `",
                ),
                end_marker,
                "`",
            ),
            Error::InvalidManagedBlock { path, reason } => text::concat2(
                &text::concat3("invalid managed block in `", &path.display(), "`: "),
                reason,
            ),
            Error::Failure { report, .. } => text::copy(&report.reason),
            Error::Io { action, path, source } => text::concat2(
                &text::concat5("failed to ", action, " `", &path.display(), "`: "),
                &source.message,
            ),
        }
    }
}

} // verus!

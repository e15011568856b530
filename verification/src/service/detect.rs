//! Finding out how a completion comes to be loaded.
use vstd::prelude::*;

use crate::disk::{Disk, DiskView};
use crate::environment::{Environment, EnvironmentView, Platform};
use crate::error::{contextual, Error, ErrorView};
use crate::fs::{file_exists, file_exists_view};
use crate::model::{
    shell_name, ActivationPolicy, ActivationReport, ActivationView, Availability, FailureKind,
    Operation, Shell, ShellView,
};
use crate::path::{on, parent, same_path, shown, FilePath};
use crate::paths;
use crate::paths::{program_name_error, target_error, unit_error, validate_program_name};
use crate::service::common::{
    context, default_target, default_target_path_matches, failed, failure, home_env_hint, home_hint,
    is_autoloadable, is_default_target, manual_activation_report, manual_report,
    missing_completion_next_step, missing_step, resolve_default_target_path,
    zsh_target_is_autoloadable, ContextView,
};
use crate::shell::backend::{detect_default, detected};
use crate::shell::bash::{not_installed, not_installed_text};
use crate::shell::wiring::{none, one, report_result, two};
use crate::text;

verus! {

pub open spec fn detect_context(
    trace_id: u64,
    shell: ShellView,
    target_path: Option<Seq<u8>>,
    affected_locations: Seq<Seq<u8>>,
    kind: FailureKind,
) -> ContextView {
    ContextView {
        operation: Operation::DetectActivation,
        shell,
        target_path,
        affected_locations,
        kind,
        trace_id,
    }
}

/// Why a file cannot be inspected as a completion file.
pub open spec fn inspection_error(platform: Platform, d: DiskView, path: Seq<u8>) -> Option<
    ErrorView,
> {
    if parent(path) is None {
        Some(ErrorView::PathHasNoParent { path })
    } else {
        target_error(platform, d, path)
    }
}

fn validate_target_path(platform: Platform, disk: &Disk, path: &FilePath) -> (r: Result<(), Error>)
    ensures
        unit_error(r) == inspection_error(platform, disk@, path@),
{
    if path.parent().is_none() {
        return Err(Error::PathHasNoParent { path: path.copy() });
    }
    paths::validate_target_path(platform, disk, path)
}

/// How an error of the resolution of the default location is described.
pub open spec fn describe_resolve(
    platform: Platform,
    trace_id: u64,
    shell: ShellView,
    error: ErrorView,
) -> Option<ErrorView> {
    let hint = home_hint(platform, shell);
    match error {
        ErrorView::MissingHome => Some(
            failed(
                detect_context(trace_id, shell, None, Seq::empty(), FailureKind::MissingHome),
                "Could not resolve the managed completion path because "@ + hint + " is not set."@,
                Some(
                    "Set "@ + hint
                        + " for the current process so shellcomp can resolve the default managed path."@,
                ),
            ),
        ),
        ErrorView::InvalidTargetPath { path, reason } => Some(
            failed(
                detect_context(
                    trace_id,
                    shell,
                    Some(path),
                    seq![path],
                    FailureKind::DefaultPathUnavailable,
                ),
                "The managed default completion path `"@ + shown(path)
                    + "` is invalid: "@ + reason + "."@,
                Some(
                    "Set HOME, XDG_DATA_HOME, XDG_CONFIG_HOME, or ZDOTDIR to an absolute, normalized path."@,
                ),
            ),
        ),
        ErrorView::UnsupportedShell { shell: unsupported } => Some(
            failed(
                detect_context(
                    trace_id,
                    unsupported,
                    None,
                    Seq::empty(),
                    FailureKind::UnsupportedShell,
                ),
                "Shell `"@ + shell_name(unsupported)
                    + "` is not implemented in the current production support set."@,
                None,
            ),
        ),
        _ => None,
    }
}

fn map_resolve_error(env: &Environment, shell: &Shell, trace_id: u64, error: Error) -> (r: Error)
    ensures
        r@ == contextual(
            error@,
            describe_resolve(env@.platform, trace_id, shell@, error@),
        ),
{
    let description = match &error {
        Error::MissingHome => {
            let hint = home_env_hint(env, shell);
            Some(
                failure(
                    context(
                        Operation::DetectActivation,
                        trace_id,
                        shell,
                        None,
                        none(),
                        FailureKind::MissingHome,
                    ),
                    text::concat3(
                        "Could not resolve the managed completion path because ",
                        hint,
                        " is not set.",
                    ),
                    Some(
                        text::concat3(
                            "Set ",
                            hint,
                            " for the current process so shellcomp can resolve the default managed path.",
                        ),
                    ),
                ),
            )
        },
        Error::InvalidTargetPath { path, reason } => Some(
            failure(
                context(
                    Operation::DetectActivation,
                    trace_id,
                    shell,
                    Some(path.copy()),
                    one(path.copy()),
                    FailureKind::DefaultPathUnavailable,
                ),
                text::concat5(
                    "The managed default completion path `",
                    &path.display(),
                    "` is invalid: ",
                    reason,
                    ".",
                ),
                Some(
                    text::copy(
                        "Set HOME, XDG_DATA_HOME, XDG_CONFIG_HOME, or ZDOTDIR to an absolute, normalized path.",
                    ),
                ),
            ),
        ),
        Error::UnsupportedShell(unsupported) => Some(
            failure(
                context(
                    Operation::DetectActivation,
                    trace_id,
                    unsupported,
                    None,
                    none(),
                    FailureKind::UnsupportedShell,
                ),
                text::concat3(
                    "Shell `",
                    &unsupported.name(),
                    "` is not implemented in the current production support set.",
                ),
                None,
            ),
        ),
        _ => None,
    };
    error.with_context(description)
}

/// The failure to inspect a file.
pub open spec fn unreadable_failure(
    trace_id: u64,
    shell: ShellView,
    target: Seq<u8>,
    path: Seq<u8>,
) -> ErrorView {
    failed(
        detect_context(
            trace_id,
            shell,
            Some(target),
            seq![target, path],
            if same_path(path, target) {
                FailureKind::CompletionFileUnreadable
            } else {
                FailureKind::ProfileUnavailable
            },
        ),
        "Could not inspect the managed "@ + shell_name(shell) + " activation state."@,
        Some(
            "Review "@ + shown(path)
                + " manually, or re-run install to restore managed wiring."@,
        ),
    )
}

/// The failure to make sense of the blocks of a startup file.
pub open spec fn corrupted_failure(
    trace_id: u64,
    shell: ShellView,
    target: Seq<u8>,
    path: Seq<u8>,
) -> ErrorView {
    failed(
        detect_context(
            trace_id,
            shell,
            Some(target),
            seq![target, path],
            FailureKind::ProfileCorrupted,
        ),
        "The managed "@ + shell_name(shell)
            + " activation block is malformed and could not be inspected safely."@,
        Some(
            "Repair or remove the malformed managed block in "@ + shown(path)
                + " manually, then re-run install."@,
        ),
    )
}

/// How an error of the detection itself is described.
pub open spec fn describe_detect(
    platform: Platform,
    trace_id: u64,
    shell: ShellView,
    target: Seq<u8>,
    error: ErrorView,
) -> Option<ErrorView> {
    let hint = home_hint(platform, shell);
    match error {
        ErrorView::MissingHome => Some(
            failed(
                detect_context(
                    trace_id,
                    shell,
                    Some(target),
                    seq![target],
                    FailureKind::MissingHome,
                ),
                "Could not resolve the managed "@ + shell_name(shell) + " startup file because "@
                    + hint + " is not set."@,
                Some(
                    "Set "@ + hint
                        + " for the current process or inspect activation manually for the target completion file."@,
                ),
            ),
        ),
        ErrorView::Io { path, .. } => Some(unreadable_failure(trace_id, shell, target, path)),
        ErrorView::InvalidUtf8File { path } => Some(
            unreadable_failure(trace_id, shell, target, path),
        ),
        ErrorView::NonUtf8Path { path } => Some(
            failed(
                detect_context(
                    trace_id,
                    shell,
                    Some(target),
                    seq![target, path],
                    FailureKind::InvalidTargetPath,
                ),
                "The requested completion path could not be represented safely as UTF-8 for activation detection."@,
                Some(
                    "Move the completion file to a UTF-8 path or choose a UTF-8 path before asking shellcomp to inspect activation."@,
                ),
            ),
        ),
        ErrorView::InvalidTargetPath { path, reason } => Some(
            failed(
                detect_context(
                    trace_id,
                    shell,
                    Some(target),
                    seq![target, path],
                    if same_path(path, target) {
                        FailureKind::InvalidTargetPath
                    } else {
                        FailureKind::ProfileUnavailable
                    },
                ),
                "The path `"@ + shown(path) + "` cannot be inspected safely: "@ + reason
                    + "."@,
                Some(
                    "Use absolute, non-symlink, normalized paths for the completion target and shell startup file."@,
                ),
            ),
        ),
        ErrorView::ManagedBlockMissingEnd { path, .. } => Some(
            corrupted_failure(trace_id, shell, target, path),
        ),
        ErrorView::InvalidManagedBlock { path, .. } => Some(
            corrupted_failure(trace_id, shell, target, path),
        ),
        _ => None,
    }
}

fn unreadable(shell: &Shell, trace_id: u64, target_path: &FilePath, path: &FilePath) -> (r: Error)
    ensures
        r@ == unreadable_failure(trace_id, shell@, target_path@, path@),
{
    failure(
        context(
            Operation::DetectActivation,
            trace_id,
            shell,
            Some(target_path.copy()),
            two(target_path.copy(), path.copy()),
            if path.same(target_path) {
                FailureKind::CompletionFileUnreadable
            } else {
                FailureKind::ProfileUnavailable
            },
        ),
        text::concat3("Could not inspect the managed ", &shell.name(), " activation state."),
        Some(
            text::concat3(
                "Review ",
                &path.display(),
                " manually, or re-run install to restore managed wiring.",
            ),
        ),
    )
}

fn corrupted(shell: &Shell, trace_id: u64, target_path: &FilePath, path: &FilePath) -> (r: Error)
    ensures
        r@ == corrupted_failure(trace_id, shell@, target_path@, path@),
{
    failure(
        context(
            Operation::DetectActivation,
            trace_id,
            shell,
            Some(target_path.copy()),
            two(target_path.copy(), path.copy()),
            FailureKind::ProfileCorrupted,
        ),
        text::concat3(
            "The managed ",
            &shell.name(),
            " activation block is malformed and could not be inspected safely.",
        ),
        Some(
            text::concat3(
                "Repair or remove the malformed managed block in ",
                &path.display(),
                " manually, then re-run install.",
            ),
        ),
    )
}

fn map_detect_error(
    env: &Environment,
    shell: &Shell,
    trace_id: u64,
    target_path: &FilePath,
    error: Error,
) -> (r: Error)
    ensures
        r@ == contextual(
            error@,
            describe_detect(env@.platform, trace_id, shell@, target_path@, error@),
        ),
{
    let description = match &error {
        Error::MissingHome => {
            let hint = home_env_hint(env, shell);
            Some(
                failure(
                    context(
                        Operation::DetectActivation,
                        trace_id,
                        shell,
                        Some(target_path.copy()),
                        one(target_path.copy()),
                        FailureKind::MissingHome,
                    ),
                    text::concat5(
                        "Could not resolve the managed ",
                        &shell.name(),
                        " startup file because ",
                        hint,
                        " is not set.",
                    ),
                    Some(
                        text::concat3(
                            "Set ",
                            hint,
                            " for the current process or inspect activation manually for the target completion file.",
                        ),
                    ),
                ),
            )
        },
        Error::Io { path, .. } => Some(unreadable(shell, trace_id, target_path, path)),
        Error::InvalidUtf8File { path } => Some(unreadable(shell, trace_id, target_path, path)),
        Error::NonUtf8Path { path } => Some(
            failure(
                context(
                    Operation::DetectActivation,
                    trace_id,
                    shell,
                    Some(target_path.copy()),
                    two(target_path.copy(), path.copy()),
                    FailureKind::InvalidTargetPath,
                ),
                text::copy(
                    "The requested completion path could not be represented safely as UTF-8 for activation detection.",
                ),
                Some(
                    text::copy(
                        "Move the completion file to a UTF-8 path or choose a UTF-8 path before asking shellcomp to inspect activation.",
                    ),
                ),
            ),
        ),
        Error::InvalidTargetPath { path, reason } => Some(
            failure(
                context(
                    Operation::DetectActivation,
                    trace_id,
                    shell,
                    Some(target_path.copy()),
                    two(target_path.copy(), path.copy()),
                    if path.same(target_path) {
                        FailureKind::InvalidTargetPath
                    } else {
                        FailureKind::ProfileUnavailable
                    },
                ),
                text::concat5(
                    "The path `",
                    &path.display(),
                    "` cannot be inspected safely: ",
                    reason,
                    ".",
                ),
                Some(
                    text::copy(
                        "Use absolute, non-symlink, normalized paths for the completion target and shell startup file.",
                    ),
                ),
            ),
        ),
        Error::ManagedBlockMissingEnd { path, .. } => Some(
            corrupted(shell, trace_id, target_path, path),
        ),
        Error::InvalidManagedBlock { path, .. } => Some(
            corrupted(shell, trace_id, target_path, path),
        ),
        _ => None,
    };
    error.with_context(description)
}

/// An answer of the detection as it is reported.
pub open spec fn reported(
    platform: Platform,
    trace_id: u64,
    shell: ShellView,
    target: Seq<u8>,
    answer: Result<ActivationView, ErrorView>,
) -> Result<ActivationView, ErrorView> {
    match answer {
        Ok(report) => Ok(report),
        Err(error) => Err(
            contextual(error, describe_detect(platform, trace_id, shell, target, error)),
        ),
    }
}

fn report(
    env: &Environment,
    shell: &Shell,
    trace_id: u64,
    target_path: &FilePath,
    answer: Result<ActivationReport, Error>,
) -> (r: Result<ActivationReport, Error>)
    ensures
        report_result(r) == reported(
            env@.platform,
            trace_id,
            shell@,
            target_path@,
            report_result(answer),
        ),
{
    match answer {
        Ok(report) => Ok(report),
        Err(error) => Err(map_detect_error(env, shell, trace_id, target_path, error)),
    }
}

/// The activation of the completion at the default location.
pub open spec fn detection(
    e: EnvironmentView,
    d: DiskView,
    shell: ShellView,
    name: Seq<char>,
    trace_id: u64,
) -> Result<ActivationView, ErrorView> {
    match program_name_error(name) {
        Some(error) => Err(error),
        None => match default_target(e, shell, name) {
            Err(error) => Err(
                contextual(error, describe_resolve(e.platform, trace_id, shell, error)),
            ),
            Ok(target) => reported(
                e.platform,
                trace_id,
                shell,
                target,
                match inspection_error(e.platform, d, target) {
                    Some(error) => Err(error),
                    None => detected(e, d, shell, name, target),
                },
            ),
        },
    }
}

/// Finds out how the completion at the default location comes to be loaded.
pub fn execute(env: &Environment, disk: &Disk, shell: &Shell, program_name: &str, trace_id: u64) -> (r:
    Result<ActivationReport, Error>)
    ensures
        report_result(r) == detection(env@, disk@, shell@, program_name@, trace_id),
{
    validate_program_name(program_name)?;
    let target_path = match resolve_default_target_path(env, shell, program_name) {
        Ok(path) => path,
        Err(error) => {
            return Err(map_resolve_error(env, shell, trace_id, error));
        },
    };
    let answer = match validate_target_path(env.platform, disk, &target_path) {
        Ok(_) => detect_default(env, disk, shell, program_name, &target_path),
        Err(error) => Err(error),
    };
    report(env, shell, trace_id, &target_path, answer)
}

/// The report on a completion file at a custom path whose activation is not the library's.
pub open spec fn custom_report(d: DiskView, shell: ShellView, name: Seq<char>, target: Seq<u8>) -> Result<
    ActivationView,
    ErrorView,
> {
    match (
        file_exists_view(d, target),
        manual_report(shell, name, target, ActivationPolicy::Manual),
        missing_step(shell, name, target),
    ) {
        (Err(error), _, _) => Err(error),
        (Ok(_), Err(error), _) => Err(error),
        (Ok(true), Ok(manual), _) => Ok(
            ActivationView {
                availability: Availability::Unknown,
                reason: Some(
                    "Completion file `"@ + shown(target)
                        + "` is installed at a custom path, but shellcomp could not confirm managed activation for it."@,
                ),
                ..manual
            },
        ),
        (Ok(false), Ok(_), Err(error)) => Err(error),
        (Ok(false), Ok(manual), Ok(step)) => Ok(
            ActivationView {
                availability: Availability::ManualActionRequired,
                reason: Some(not_installed(target)),
                next_step: Some(step),
                ..manual
            },
        ),
    }
}

fn manual_custom_detection_report(
    disk: &Disk,
    shell: &Shell,
    program_name: &str,
    target_path: &FilePath,
) -> (r: Result<ActivationReport, Error>)
    ensures
        report_result(r) == custom_report(disk@, shell@, program_name@, target_path@),
{
    let installed = file_exists(disk, target_path)?;
    let manual = manual_activation_report(
        shell,
        program_name,
        target_path,
        ActivationPolicy::Manual,
    )?;
    if installed {
        Ok(
            ActivationReport {
                mode: manual.mode,
                availability: Availability::Unknown,
                location: manual.location,
                reason: Some(
                    text::concat3(
                        "Completion file `",
                        &target_path.display(),
                        "` is installed at a custom path, but shellcomp could not confirm managed activation for it.",
                    ),
                ),
                next_step: manual.next_step,
            },
        )
    } else {
        let step = missing_completion_next_step(shell, program_name, target_path)?;
        Ok(
            ActivationReport {
                mode: manual.mode,
                availability: Availability::ManualActionRequired,
                location: manual.location,
                reason: Some(not_installed_text(target_path)),
                next_step: Some(step),
            },
        )
    }
}

/// The errors in spite of which a custom path can still be reported on.
pub open spec fn allows_fallback(error: ErrorView) -> bool {
    error is MissingHome || error is Io || error is InvalidUtf8File
}

fn can_fallback_to_manual_custom_detect(error: &Error) -> (r: bool)
    ensures
        r == allows_fallback(error@),
{
    match error {
        Error::MissingHome => true,
        Error::Io { .. } => true,
        Error::InvalidUtf8File { .. } => true,
        _ => false,
    }
}

/// Whether a report of the shell's own way of activation stands for a file at a custom path: it
/// tells of activation, or of a block that waits for a file that is not there.
pub open spec fn report_stands(report: ActivationView, installed: bool, target: Seq<u8>) -> bool {
    report.availability != Availability::ManualActionRequired || (!installed && !(
    report.location matches Some(location) && same_path(location, target)))
}

/// The activation of a completion that the shell's own way of activation may or may not know.
pub open spec fn custom_detection(
    e: EnvironmentView,
    d: DiskView,
    shell: ShellView,
    name: Seq<char>,
    target: Seq<u8>,
) -> Result<ActivationView, ErrorView> {
    let is_default = is_default_target(e, shell, name, target);
    match (file_exists_view(d, target), detected(e, d, shell, name, target)) {
        (Err(error), _) => Err(error),
        (Ok(installed), Ok(report)) => if is_default || report_stands(report, installed, target) {
            Ok(report)
        } else {
            custom_report(d, shell, name, target)
        },
        (Ok(_), Err(error)) => if !is_default && allows_fallback(error) {
            custom_report(d, shell, name, target)
        } else {
            Err(error)
        },
    }
}

fn detect_custom_path_with_managed_fallback(
    env: &Environment,
    disk: &Disk,
    shell: &Shell,
    program_name: &str,
    target_path: &FilePath,
) -> (r: Result<ActivationReport, Error>)
    ensures
        report_result(r) == custom_detection(env@, disk@, shell@, program_name@, target_path@),
{
    let treat_as_default = default_target_path_matches(env, shell, program_name, target_path);
    let installed = file_exists(disk, target_path)?;
    match detect_default(env, disk, shell, program_name, target_path) {
        Ok(report) => {
            let manual = match report.availability {
                Availability::ManualActionRequired => true,
                _ => false,
            };
            let at_target = match &report.location {
                Some(location) => location.same(target_path),
                None => false,
            };
            if treat_as_default || !manual || (!installed && !at_target) {
                Ok(report)
            } else {
                manual_custom_detection_report(disk, shell, program_name, target_path)
            }
        },
        Err(error) => if !treat_as_default && can_fallback_to_manual_custom_detect(&error) {
            manual_custom_detection_report(disk, shell, program_name, target_path)
        } else {
            Err(error)
        },
    }
}

/// The activation of the completion at a given path.
pub open spec fn detection_at(
    e: EnvironmentView,
    d: DiskView,
    shell: ShellView,
    name: Seq<char>,
    target: Seq<u8>,
    trace_id: u64,
) -> Result<ActivationView, ErrorView> {
    match program_name_error(name) {
        Some(error) => Err(error),
        None => reported(
            e.platform,
            trace_id,
            shell,
            target,
            match inspection_error(e.platform, d, target) {
                Some(error) => Err(error),
                None => match shell {
                    ShellView::Fish => if is_default_target(e, shell, name, target) {
                        detected(e, d, shell, name, target)
                    } else {
                        custom_report(d, shell, name, target)
                    },
                    ShellView::Zsh => if !is_autoloadable(name, target) {
                        custom_report(d, shell, name, target)
                    } else {
                        custom_detection(e, d, shell, name, target)
                    },
                    ShellView::Other(_) => detected(e, d, shell, name, target),
                    _ => custom_detection(e, d, shell, name, target),
                },
            },
        ),
    }
}

/// Finds out how the completion at a given path comes to be loaded.
pub fn execute_at_path(
    env: &Environment,
    disk: &Disk,
    shell: &Shell,
    program_name: &str,
    target_path: &FilePath,
    trace_id: u64,
) -> (r: Result<ActivationReport, Error>)
    ensures
        report_result(r) == detection_at(
            env@,
            disk@,
            shell@,
            program_name@,
            on(env@.platform, target_path@),
            trace_id,
        ),
{
    validate_program_name(program_name)?;
    let styled = target_path.on(env.platform);
    let target_path = &styled;
    let answer = match validate_target_path(env.platform, disk, target_path) {
        Err(error) => Err(error),
        Ok(_) => match shell {
            Shell::Fish => if default_target_path_matches(
                env,
                shell,
                program_name,
                target_path,
            ) {
                detect_default(env, disk, shell, program_name, target_path)
            } else {
                manual_custom_detection_report(disk, shell, program_name, target_path)
            },
            Shell::Zsh => if !zsh_target_is_autoloadable(program_name, target_path) {
                manual_custom_detection_report(disk, shell, program_name, target_path)
            } else {
                detect_custom_path_with_managed_fallback(
                    env,
                    disk,
                    shell,
                    program_name,
                    target_path,
                )
            },
            Shell::Other(_) => detect_default(env, disk, shell, program_name, target_path),
            _ => detect_custom_path_with_managed_fallback(
                env,
                disk,
                shell,
                program_name,
                target_path,
            ),
        },
    };
    report(env, shell, trace_id, target_path, answer)
}

} // verus!

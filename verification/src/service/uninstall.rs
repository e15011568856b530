//! Removing a completion script and its activation.
use vstd::prelude::*;

use crate::disk::{Disk, DiskView};
use crate::environment::{Environment, EnvironmentView, Platform};
use crate::error::{contextual, Error, ErrorView};
use crate::fs::{remove_file_if_exists, removed};
use crate::model::{
    opt_path, shell_name, ActivationMode, ActivationPolicy, CleanupReport, CleanupView, FailureKind,
    FileChange, Operation, RemoveReport, RemoveView, Shell, ShellView, UninstallRequest,
};
use crate::path::{opt_on, path_on, shown, FilePath};
use crate::paths::{program_name_error, validate_program_name};
use crate::service::common::{
    all_locations, context, copy_path, failed, failed_at, failure, failure_with_status,
    home_env_hint, home_hint, implied_policy, legacy_activation_policy, locations,
    resolve_target_path, should_use_shell_backend, target_of, uses_backend, ContextView,
    FailureStatus,
};
use crate::shell::backend::{deactivated, uninstall_default};
use crate::shell::wiring::{none, one, two};
use crate::text;

verus! {

/// What an uninstall was asked for, and by which call.
#[verifier::ext_equal]
pub struct UninstallView {
    pub shell: ShellView,
    pub program_name: Seq<char>,
    pub path_override: Option<Seq<u8>>,
    pub trace_id: u64,
}

pub open spec fn uninstall_view(request: UninstallRequest<'_>, trace_id: u64) -> UninstallView {
    UninstallView {
        shell: request.shell@,
        program_name: request.program_name@,
        path_override: opt_path(request.path_override),
        trace_id,
    }
}

/// The same request, with a path of the given platform.
pub open spec fn on_platform(platform: Platform, q: UninstallView) -> UninstallView {
    UninstallView { path_override: opt_on(platform, q.path_override), ..q }
}

pub open spec fn uninstall_context(
    q: UninstallView,
    shell: ShellView,
    target_path: Option<Seq<u8>>,
    affected_locations: Seq<Seq<u8>>,
    kind: FailureKind,
) -> ContextView {
    ContextView {
        operation: Operation::Uninstall,
        shell,
        target_path,
        affected_locations,
        kind,
        trace_id: q.trace_id,
    }
}

/// How an error of target resolution is described.
pub open spec fn describe_resolve(platform: Platform, q: UninstallView, error: ErrorView) -> Option<
    ErrorView,
> {
    let hint = home_hint(platform, q.shell);
    match error {
        ErrorView::MissingHome => Some(
            failed(
                uninstall_context(
                    q,
                    q.shell,
                    q.path_override,
                    Seq::empty(),
                    FailureKind::MissingHome,
                ),
                "Could not resolve the managed completion path because "@ + hint + " is not set."@,
                Some(
                    "Set "@ + hint
                        + " for the current process or pass the exact `path_override` that should be removed."@,
                ),
            ),
        ),
        ErrorView::PathHasNoParent { path } => Some(
            failed(
                uninstall_context(
                    q,
                    q.shell,
                    Some(path),
                    seq![path],
                    FailureKind::InvalidTargetPath,
                ),
                "The requested uninstall path `"@ + shown(path)
                    + "` does not have a parent directory."@,
                Some(
                    "Pass the exact file path that should be removed, including a real parent directory."@,
                ),
            ),
        ),
        ErrorView::InvalidTargetPath { path, reason } => Some(
            failed(
                uninstall_context(
                    q,
                    q.shell,
                    Some(path),
                    seq![path],
                    if q.path_override is None {
                        FailureKind::DefaultPathUnavailable
                    } else {
                        FailureKind::InvalidTargetPath
                    },
                ),
                (if q.path_override is None {
                    "The managed default completion path `"@
                } else {
                    "The requested uninstall path `"@
                }) + shown(path) + "` is invalid: "@ + reason + "."@,
                Some(
                    "Choose an absolute, non-symlink, normalized custom target path with an existing parent directory."@,
                ),
            ),
        ),
        ErrorView::UnsupportedShell { shell } => Some(
            failed(
                uninstall_context(
                    q,
                    shell,
                    q.path_override,
                    Seq::empty(),
                    FailureKind::UnsupportedShell,
                ),
                "Shell `"@ + shell_name(shell)
                    + "` is not implemented in the current production support set."@,
                None,
            ),
        ),
        _ => None,
    }
}

fn map_resolve_error(
    env: &Environment,
    request: &UninstallRequest<'_>,
    trace_id: u64,
    error: Error,
) -> (r: Error)
    ensures
        r@ == contextual(
            error@,
            describe_resolve(env@.platform, uninstall_view(*request, trace_id), error@),
        ),
{
    let description = match &error {
        Error::MissingHome => {
            let hint = home_env_hint(env, &request.shell);
            Some(
                failure(
                    context(
                        Operation::Uninstall,
                        trace_id,
                        &request.shell,
                        copy_path(&request.path_override),
                        none(),
                        FailureKind::MissingHome,
                    ),
                    text::concat3(
                        "Could not resolve the managed completion path because ",
                        hint,
                        " is not set.",
                    ),
                    Some(
                        text::concat3(
                            "Set ",
                            hint,
                            " for the current process or pass the exact `path_override` that should be removed.",
                        ),
                    ),
                ),
            )
        },
        Error::PathHasNoParent { path } => Some(
            failure(
                context(
                    Operation::Uninstall,
                    trace_id,
                    &request.shell,
                    Some(path.copy()),
                    one(path.copy()),
                    FailureKind::InvalidTargetPath,
                ),
                text::concat3(
                    "The requested uninstall path `",
                    &path.display(),
                    "` does not have a parent directory.",
                ),
                Some(
                    text::copy(
                        "Pass the exact file path that should be removed, including a real parent directory.",
                    ),
                ),
            ),
        ),
        Error::InvalidTargetPath { path, reason } => {
            let uses_default_target = request.path_override.is_none();
            Some(
                failure(
                    context(
                        Operation::Uninstall,
                        trace_id,
                        &request.shell,
                        Some(path.copy()),
                        one(path.copy()),
                        if uses_default_target {
                            FailureKind::DefaultPathUnavailable
                        } else {
                            FailureKind::InvalidTargetPath
                        },
                    ),
                    text::concat5(
                        if uses_default_target {
                            "The managed default completion path `"
                        } else {
                            "The requested uninstall path `"
                        },
                        &path.display(),
                        "` is invalid: ",
                        reason,
                        ".",
                    ),
                    Some(
                        text::copy(
                            "Choose an absolute, non-symlink, normalized custom target path with an existing parent directory.",
                        ),
                    ),
                ),
            )
        },
        Error::UnsupportedShell(shell) => Some(
            failure(
                context(
                    Operation::Uninstall,
                    trace_id,
                    shell,
                    copy_path(&request.path_override),
                    none(),
                    FailureKind::UnsupportedShell,
                ),
                text::concat3(
                    "Shell `",
                    &shell.name(),
                    "` is not implemented in the current production support set.",
                ),
                None,
            ),
        ),
        _ => None,
    };
    error.with_context(description)
}

/// How an error of the removal of the file is described.
pub open spec fn describe_file(q: UninstallView, target: Seq<u8>, error: ErrorView) -> Option<
    ErrorView,
> {
    match error {
        ErrorView::Io { action, .. } => Some(
            failed(
                uninstall_context(
                    q,
                    q.shell,
                    Some(target),
                    seq![target],
                    if action == "remove file"@ {
                        FailureKind::CompletionTargetUnavailable
                    } else {
                        FailureKind::CompletionFileUnreadable
                    },
                ),
                "Could not remove the "@ + shell_name(q.shell) + " completion file at `"@
                    + shown(target) + "`."@,
                Some(
                    "Remove the file manually or fix the file permissions, then run uninstall again."@,
                ),
            ),
        ),
        _ => None,
    }
}

fn map_file_error(
    request: &UninstallRequest<'_>,
    trace_id: u64,
    target_path: &FilePath,
    error: Error,
) -> (r: Error)
    ensures
        r@ == contextual(
            error@,
            describe_file(uninstall_view(*request, trace_id), target_path@, error@),
        ),
{
    let description = match &error {
        Error::Io { action, .. } => Some(
            failure(
                context(
                    Operation::Uninstall,
                    trace_id,
                    &request.shell,
                    Some(target_path.copy()),
                    one(target_path.copy()),
                    if text::same(action, "remove file") {
                        FailureKind::CompletionTargetUnavailable
                    } else {
                        FailureKind::CompletionFileUnreadable
                    },
                ),
                text::concat5(
                    "Could not remove the ",
                    &request.shell.name(),
                    " completion file at `",
                    &target_path.display(),
                    "`.",
                ),
                Some(
                    text::copy(
                        "Remove the file manually or fix the file permissions, then run uninstall again.",
                    ),
                ),
            ),
        ),
        _ => None,
    };
    error.with_context(description)
}

/// How an error of the cleanup is described. The file had been removed by then.
pub open spec fn describe_cleanup(
    platform: Platform,
    q: UninstallView,
    target: Seq<u8>,
    file_change: FileChange,
    error: ErrorView,
) -> Option<ErrorView> {
    let hint = home_hint(platform, q.shell);
    match error {
        ErrorView::MissingHome => Some(
            failed_at(
                uninstall_context(
                    q,
                    q.shell,
                    Some(target),
                    seq![target],
                    FailureKind::MissingHome,
                ),
                Some(file_change),
                None,
                None,
                "Could not resolve the managed "@ + shell_name(q.shell) + " startup file because "@
                    + hint + " is not set."@,
                Some(
                    "Set "@ + hint
                        + " for the current process or remove the managed shell block manually."@,
                ),
            ),
        ),
        ErrorView::Io { path, .. } => Some(
            cleanup_failure(q, target, file_change, path, FailureKind::ProfileUnavailable),
        ),
        ErrorView::InvalidUtf8File { path } => Some(
            cleanup_failure(q, target, file_change, path, FailureKind::ProfileUnavailable),
        ),
        ErrorView::InvalidTargetPath { path, .. } => Some(
            cleanup_failure(q, target, file_change, path, FailureKind::ProfileUnavailable),
        ),
        ErrorView::ManagedBlockMissingEnd { path, .. } => Some(
            cleanup_failure(q, target, file_change, path, FailureKind::ProfileCorrupted),
        ),
        ErrorView::InvalidManagedBlock { path, .. } => Some(
            cleanup_failure(q, target, file_change, path, FailureKind::ProfileCorrupted),
        ),
        _ => None,
    }
}

/// The failure to clean up a startup file.
pub open spec fn cleanup_failure(
    q: UninstallView,
    target: Seq<u8>,
    file_change: FileChange,
    path: Seq<u8>,
    kind: FailureKind,
) -> ErrorView {
    failed_at(
        uninstall_context(q, q.shell, Some(target), seq![target, path], kind),
        Some(file_change),
        None,
        None,
        "Could not clean up the managed "@ + shell_name(q.shell) + " activation block."@,
        Some(
            "Review "@ + shown(path)
                + " manually and remove the shellcomp-managed block yourself."@,
        ),
    )
}

fn profile_failure(
    request: &UninstallRequest<'_>,
    trace_id: u64,
    target_path: &FilePath,
    file_change: FileChange,
    path: &FilePath,
    kind: FailureKind,
) -> (r: Error)
    ensures
        r@ == cleanup_failure(
            uninstall_view(*request, trace_id),
            target_path@,
            file_change,
            path@,
            kind,
        ),
{
    failure_with_status(
        context(
            Operation::Uninstall,
            trace_id,
            &request.shell,
            Some(target_path.copy()),
            two(target_path.copy(), path.copy()),
            kind,
        ),
        FailureStatus { file_change: Some(file_change), activation: None, cleanup: None },
        text::concat3(
            "Could not clean up the managed ",
            &request.shell.name(),
            " activation block.",
        ),
        Some(
            text::concat3(
                "Review ",
                &path.display(),
                " manually and remove the shellcomp-managed block yourself.",
            ),
        ),
    )
}

fn map_cleanup_error(
    env: &Environment,
    request: &UninstallRequest<'_>,
    trace_id: u64,
    target_path: &FilePath,
    file_change: FileChange,
    error: Error,
) -> (r: Error)
    ensures
        r@ == contextual(
            error@,
            describe_cleanup(
                env@.platform,
                uninstall_view(*request, trace_id),
                target_path@,
                file_change,
                error@,
            ),
        ),
{
    let description = match &error {
        Error::MissingHome => {
            let hint = home_env_hint(env, &request.shell);
            Some(
                failure_with_status(
                    context(
                        Operation::Uninstall,
                        trace_id,
                        &request.shell,
                        Some(target_path.copy()),
                        one(target_path.copy()),
                        FailureKind::MissingHome,
                    ),
                    FailureStatus {
                        file_change: Some(file_change),
                        activation: None,
                        cleanup: None,
                    },
                    text::concat5(
                        "Could not resolve the managed ",
                        &request.shell.name(),
                        " startup file because ",
                        hint,
                        " is not set.",
                    ),
                    Some(
                        text::concat3(
                            "Set ",
                            hint,
                            " for the current process or remove the managed shell block manually.",
                        ),
                    ),
                ),
            )
        },
        Error::Io { path, .. } => Some(
            profile_failure(
                request,
                trace_id,
                target_path,
                file_change,
                path,
                FailureKind::ProfileUnavailable,
            ),
        ),
        Error::InvalidUtf8File { path } => Some(
            profile_failure(
                request,
                trace_id,
                target_path,
                file_change,
                path,
                FailureKind::ProfileUnavailable,
            ),
        ),
        Error::InvalidTargetPath { path, .. } => Some(
            profile_failure(
                request,
                trace_id,
                target_path,
                file_change,
                path,
                FailureKind::ProfileUnavailable,
            ),
        ),
        Error::ManagedBlockMissingEnd { path, .. } => Some(
            profile_failure(
                request,
                trace_id,
                target_path,
                file_change,
                path,
                FailureKind::ProfileCorrupted,
            ),
        ),
        Error::InvalidManagedBlock { path, .. } => Some(
            profile_failure(
                request,
                trace_id,
                target_path,
                file_change,
                path,
                FailureKind::ProfileCorrupted,
            ),
        ),
        _ => None,
    };
    error.with_context(description)
}

pub open spec fn skipped_cleanup() -> CleanupView {
    CleanupView {
        mode: ActivationMode::Manual,
        change: FileChange::Absent,
        location: None,
        reason: Some(
            "Managed activation cleanup was skipped because the activation policy is manual."@,
        ),
        next_step: None,
    }
}

/// What an uninstall at a target leaves and returns.
pub open spec fn uninstalled_at(
    e: EnvironmentView,
    d: DiskView,
    q: UninstallView,
    policy: ActivationPolicy,
    target: Seq<u8>,
) -> (DiskView, Result<RemoveView, ErrorView>) {
    let (after, change) = removed(e.platform, d, target);
    match change {
        Err(error) => (after, Err(contextual(error, describe_file(q, target, error)))),
        Ok(file_change) => if uses_backend(e, q.shell, q.program_name, policy, target) {
            let (end, outcome) = deactivated(e, after, q.shell, q.program_name, target);
            match outcome {
                Err(error) => (
                    end,
                    Err(
                        contextual(
                            error,
                            describe_cleanup(e.platform, q, target, file_change, error),
                        ),
                    ),
                ),
                Ok(o) => (
                    end,
                    Ok(
                        RemoveView {
                            shell: q.shell,
                            target_path: target,
                            file_change,
                            cleanup: o.cleanup,
                            affected_locations: all_locations(
                                target,
                                o.affected_locations,
                                o.affected_locations.len() as int,
                            ),
                        },
                    ),
                ),
            }
        } else {
            (
                after,
                Ok(
                    RemoveView {
                        shell: q.shell,
                        target_path: target,
                        file_change,
                        cleanup: skipped_cleanup(),
                        affected_locations: seq![target],
                    },
                ),
            )
        },
    }
}

/// What an uninstall with the given policy leaves and returns.
pub open spec fn uninstalled(
    e: EnvironmentView,
    d: DiskView,
    q: UninstallView,
    policy: ActivationPolicy,
) -> (DiskView, Result<RemoveView, ErrorView>) {
    match program_name_error(q.program_name) {
        Some(error) => (d, Err(error)),
        None => match target_of(e, d, q.shell, q.program_name, q.path_override) {
            Err(error) => (d, Err(contextual(error, describe_resolve(e.platform, q, error)))),
            Ok(target) => uninstalled_at(e, d, q, policy, target),
        },
    }
}

/// What an uninstall that names no policy leaves and returns.
pub open spec fn uninstalled_by_default(e: EnvironmentView, d: DiskView, q: UninstallView) -> (
    DiskView,
    Result<RemoveView, ErrorView>,
) {
    uninstalled(e, d, q, implied_policy(e, q.shell, q.program_name, q.path_override))
}

pub open spec fn remove_result(r: Result<RemoveReport, Error>) -> Result<RemoveView, ErrorView> {
    match r {
        Ok(report) => Ok(report@),
        Err(error) => Err(error@),
    }
}

fn with_platform(platform: Platform, request: UninstallRequest<'_>) -> (r: UninstallRequest<'_>)
    ensures
        forall|trace_id: u64|
            #[trigger] uninstall_view(r, trace_id) == on_platform(
                platform,
                uninstall_view(request, trace_id),
            ),
{
    UninstallRequest {
        shell: request.shell,
        program_name: request.program_name,
        path_override: path_on(platform, request.path_override),
    }
}

/// Removes a completion script, with the policy that its location implies.
pub fn execute(env: &Environment, disk: &mut Disk, request: UninstallRequest<'_>, trace_id: u64) -> (r:
    Result<RemoveReport, Error>)
    ensures
        (final(disk)@, remove_result(r)) == uninstalled_by_default(
            env@,
            old(disk)@,
            on_platform(env@.platform, uninstall_view(request, trace_id)),
        ),
{
    let request = with_platform(env.platform, request);
    let policy = legacy_activation_policy(
        env,
        &request.shell,
        request.program_name,
        &request.path_override,
    );
    carry_out(env, disk, request, policy, trace_id)
}

/// Removes a completion script, with the given policy.
pub fn execute_with_policy(
    env: &Environment,
    disk: &mut Disk,
    request: UninstallRequest<'_>,
    activation_policy: ActivationPolicy,
    trace_id: u64,
) -> (r: Result<RemoveReport, Error>)
    ensures
        (final(disk)@, remove_result(r)) == uninstalled(
            env@,
            old(disk)@,
            on_platform(env@.platform, uninstall_view(request, trace_id)),
            activation_policy,
        ),
{
    carry_out(env, disk, with_platform(env.platform, request), activation_policy, trace_id)
}

fn carry_out(
    env: &Environment,
    disk: &mut Disk,
    request: UninstallRequest<'_>,
    activation_policy: ActivationPolicy,
    trace_id: u64,
) -> (r: Result<RemoveReport, Error>)
    ensures
        (final(disk)@, remove_result(r)) == uninstalled(
            env@,
            old(disk)@,
            uninstall_view(request, trace_id),
            activation_policy,
        ),
{
    validate_program_name(request.program_name)?;
    let target_path = match resolve_target_path(
        env,
        disk,
        &request.shell,
        request.program_name,
        &request.path_override,
    ) {
        Ok(path) => path,
        Err(error) => {
            return Err(map_resolve_error(env, &request, trace_id, error));
        },
    };
    let file_change = match remove_file_if_exists(env.platform, disk, &target_path) {
        Ok(change) => change,
        Err(error) => {
            return Err(map_file_error(&request, trace_id, &target_path, error));
        },
    };
    if should_use_shell_backend(
        env,
        &request.shell,
        request.program_name,
        activation_policy,
        &target_path,
    ) {
        let outcome = match uninstall_default(
            env,
            disk,
            &request.shell,
            request.program_name,
            &target_path,
        ) {
            Ok(outcome) => outcome,
            Err(error) => {
                return Err(
                    map_cleanup_error(
                        env,
                        &request,
                        trace_id,
                        &target_path,
                        file_change,
                        error,
                    ),
                );
            },
        };
        let affected_locations = locations(&target_path, outcome.affected_locations);
        Ok(
            RemoveReport {
                shell: request.shell,
                target_path,
                file_change,
                cleanup: outcome.cleanup,
                affected_locations,
            },
        )
    } else {
        let affected_locations = one(target_path.copy());
        Ok(
            RemoveReport {
                shell: request.shell,
                target_path,
                file_change,
                cleanup: CleanupReport {
                    mode: ActivationMode::Manual,
                    change: FileChange::Absent,
                    location: None,
                    reason: Some(
                        text::copy(
                            "Managed activation cleanup was skipped because the activation policy is manual.",
                        ),
                    ),
                    next_step: None,
                },
                affected_locations,
            },
        )
    }
}

} // verus!

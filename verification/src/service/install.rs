//! Writing a completion script and arranging its activation.
use vstd::prelude::*;

use crate::disk::{Disk, DiskView};
use crate::environment::{Environment, EnvironmentView, Platform};
use crate::error::{contextual, Error, ErrorView};
use crate::fs::{write_if_changed, written_if_changed};
use crate::model::{
    opt_path, shell_name, ActivationPolicy, ActivationReport, ActivationView, FailureKind,
    FileChange, InstallReport, InstallRequest, InstallView, Operation, Shell, ShellView,
};
use crate::path::{opt_on, path_on, path_views, shown, FilePath};
use crate::paths::{program_name_error, validate_program_name};
use crate::service::common::{
    all_locations, context, copy_path, failed, failed_at, failure, failure_with_status,
    home_env_hint, home_hint, implied_policy, legacy_activation_policy, locations,
    manual_activation_report, manual_report, resolve_target_path, should_use_shell_backend,
    target_of, uses_backend, ContextView, FailureStatus,
};
use crate::shell::backend::{activated, install_default};
use crate::shell::wiring::{none, one, two};
use crate::text;

verus! {

/// What an install was asked for, and by which call.
#[verifier::ext_equal]
pub struct InstallQuery {
    pub shell: ShellView,
    pub program_name: Seq<char>,
    pub script: Seq<u8>,
    pub path_override: Option<Seq<u8>>,
    pub trace_id: u64,
}

pub open spec fn install_query(request: InstallRequest<'_>, trace_id: u64) -> InstallQuery {
    InstallQuery {
        shell: request.shell@,
        program_name: request.program_name@,
        script: request.script@,
        path_override: opt_path(request.path_override),
        trace_id,
    }
}

/// The same request, with a path of the given platform.
pub open spec fn on_platform(platform: Platform, q: InstallQuery) -> InstallQuery {
    InstallQuery { path_override: opt_on(platform, q.path_override), ..q }
}

pub open spec fn install_context(
    q: InstallQuery,
    shell: ShellView,
    target_path: Option<Seq<u8>>,
    affected_locations: Seq<Seq<u8>>,
    kind: FailureKind,
) -> ContextView {
    ContextView {
        operation: Operation::Install,
        shell,
        target_path,
        affected_locations,
        kind,
        trace_id: q.trace_id,
    }
}

/// How an error of target resolution is described.
pub open spec fn describe_resolve(platform: Platform, q: InstallQuery, error: ErrorView) -> Option<
    ErrorView,
> {
    let hint = home_hint(platform, q.shell);
    match error {
        ErrorView::MissingHome => Some(
            failed(
                install_context(
                    q,
                    q.shell,
                    q.path_override,
                    Seq::empty(),
                    FailureKind::MissingHome,
                ),
                "Could not resolve the managed completion path because "@ + hint + " is not set."@,
                Some(
                    "Set "@ + hint
                        + " for the current process or pass `path_override` with the path to install to."@,
                ),
            ),
        ),
        ErrorView::PathHasNoParent { path } => Some(
            failed(
                install_context(
                    q,
                    q.shell,
                    Some(path),
                    seq![path],
                    FailureKind::InvalidTargetPath,
                ),
                "The requested install path `"@ + shown(path)
                    + "` does not have a parent directory."@,
                Some(
                    "Pass a file path with a real parent directory so shellcomp can write the completion script."@,
                ),
            ),
        ),
        ErrorView::InvalidTargetPath { path, reason } => Some(
            failed(
                install_context(
                    q,
                    q.shell,
                    Some(path),
                    seq![path],
                    if q.path_override is None {
                        FailureKind::DefaultPathUnavailable
                    } else {
                        FailureKind::InvalidTargetPath
                    },
                ),
                (if q.path_override is None {
                    "The managed default completion path `"@
                } else {
                    "The requested install path `"@
                }) + shown(path) + "` is invalid: "@ + reason + "."@,
                Some(
                    "Choose an absolute, non-symlink, normalized custom target path with an existing parent directory."@,
                ),
            ),
        ),
        ErrorView::UnsupportedShell { shell } => Some(
            failed(
                install_context(
                    q,
                    shell,
                    q.path_override,
                    Seq::empty(),
                    FailureKind::UnsupportedShell,
                ),
                "Shell `"@ + shell_name(shell)
                    + "` is not implemented in the current production support set."@,
                None,
            ),
        ),
        _ => None,
    }
}

fn map_resolve_error(
    env: &Environment,
    request: &InstallRequest<'_>,
    trace_id: u64,
    error: Error,
) -> (r: Error)
    ensures
        r@ == contextual(
            error@,
            describe_resolve(env@.platform, install_query(*request, trace_id), error@),
        ),
{
    let description = match &error {
        Error::MissingHome => {
            let hint = home_env_hint(env, &request.shell);
            Some(
                failure(
                    context(
                        Operation::Install,
                        trace_id,
                        &request.shell,
                        copy_path(&request.path_override),
                        none(),
                        FailureKind::MissingHome,
                    ),
                    text::concat3(
                        "Could not resolve the managed completion path because ",
                        hint,
                        " is not set.",
                    ),
                    Some(
                        text::concat3(
                            "Set ",
                            hint,
                            " for the current process or pass `path_override` with the path to install to.",
                        ),
                    ),
                ),
            )
        },
        Error::PathHasNoParent { path } => Some(
            failure(
                context(
                    Operation::Install,
                    trace_id,
                    &request.shell,
                    Some(path.copy()),
                    one(path.copy()),
                    FailureKind::InvalidTargetPath,
                ),
                text::concat3(
                    "The requested install path `",
                    &path.display(),
                    "` does not have a parent directory.",
                ),
                Some(
                    text::copy(
                        "Pass a file path with a real parent directory so shellcomp can write the completion script.",
                    ),
                ),
            ),
        ),
        Error::InvalidTargetPath { path, reason } => {
            let uses_default_target = request.path_override.is_none();
            Some(
                failure(
                    context(
                        Operation::Install,
                        trace_id,
                        &request.shell,
                        Some(path.copy()),
                        one(path.copy()),
                        if uses_default_target {
                            FailureKind::DefaultPathUnavailable
                        } else {
                            FailureKind::InvalidTargetPath
                        },
                    ),
                    text::concat5(
                        if uses_default_target {
                            "The managed default completion path `"
                        } else {
                            "The requested install path `"
                        },
                        &path.display(),
                        "` is invalid: ",
                        reason,
                        ".",
                    ),
                    Some(
                        text::copy(
                            "Choose an absolute, non-symlink, normalized custom target path with an existing parent directory.",
                        ),
                    ),
                ),
            )
        },
        Error::UnsupportedShell(shell) => Some(
            failure(
                context(
                    Operation::Install,
                    trace_id,
                    shell,
                    copy_path(&request.path_override),
                    none(),
                    FailureKind::UnsupportedShell,
                ),
                text::concat3(
                    "Shell `",
                    &shell.name(),
                    "` is not implemented in the current production support set.",
                ),
                None,
            ),
        ),
        _ => None,
    };
    error.with_context(description)
}

/// How an error of writing the file is described.
pub open spec fn describe_file(q: InstallQuery, target: Seq<u8>, error: ErrorView) -> Option<
    ErrorView,
> {
    match error {
        ErrorView::Io { action, .. } => Some(
            failed(
                install_context(
                    q,
                    q.shell,
                    Some(target),
                    seq![target],
                    if action == "read file"@ {
                        FailureKind::CompletionFileUnreadable
                    } else {
                        FailureKind::CompletionTargetUnavailable
                    },
                ),
                "Could not write the "@ + shell_name(q.shell) + " completion file at `"@
                    + shown(target) + "`."@,
                Some("Fix the file and directory permissions, then run install again."@),
            ),
        ),
        _ => None,
    }
}

fn map_file_error(
    request: &InstallRequest<'_>,
    trace_id: u64,
    target_path: &FilePath,
    error: Error,
) -> (r: Error)
    ensures
        r@ == contextual(
            error@,
            describe_file(install_query(*request, trace_id), target_path@, error@),
        ),
{
    let description = match &error {
        Error::Io { action, .. } => Some(
            failure(
                context(
                    Operation::Install,
                    trace_id,
                    &request.shell,
                    Some(target_path.copy()),
                    one(target_path.copy()),
                    if text::same(action, "read file") {
                        FailureKind::CompletionFileUnreadable
                    } else {
                        FailureKind::CompletionTargetUnavailable
                    },
                ),
                text::concat5(
                    "Could not write the ",
                    &request.shell.name(),
                    " completion file at `",
                    &target_path.display(),
                    "`.",
                ),
                Some(
                    text::copy("Fix the file and directory permissions, then run install again."),
                ),
            ),
        ),
        _ => None,
    };
    error.with_context(description)
}

/// The activation that is left to the user where the library could not arrange it.
pub open spec fn fallback_activation(
    shell: ShellView,
    name: Seq<char>,
    target: Seq<u8>,
    policy: ActivationPolicy,
) -> Option<ActivationView> {
    match manual_report(shell, name, target, policy) {
        Ok(report) => Some(report),
        Err(_) => None,
    }
}

pub open spec fn activation_failure(
    q: InstallQuery,
    policy: ActivationPolicy,
    target: Seq<u8>,
    file_change: FileChange,
    affected_locations: Seq<Seq<u8>>,
    kind: FailureKind,
    reason: Seq<char>,
    next_step: Seq<char>,
) -> ErrorView {
    failed_at(
        install_context(q, q.shell, Some(target), affected_locations, kind),
        Some(file_change),
        fallback_activation(q.shell, q.program_name, target, policy),
        None,
        reason,
        Some(next_step),
    )
}

/// The failure to update a startup file.
pub open spec fn profile_failure(
    q: InstallQuery,
    policy: ActivationPolicy,
    target: Seq<u8>,
    file_change: FileChange,
    path: Seq<u8>,
    kind: FailureKind,
) -> ErrorView {
    activation_failure(
        q,
        policy,
        target,
        file_change,
        seq![target, path],
        kind,
        "Could not update the managed "@ + shell_name(q.shell) + " activation block."@,
        if kind == FailureKind::ProfileCorrupted {
            "Repair or remove the malformed managed block in "@ + shown(path)
                + " manually, then run install again."@
        } else {
            "Review "@ + shown(path)
                + " manually and load the completion file from your startup file yourself."@
        },
    )
}

/// How an error of activation is described. The file had been written by then.
pub open spec fn describe_activation(
    platform: Platform,
    q: InstallQuery,
    policy: ActivationPolicy,
    target: Seq<u8>,
    file_change: FileChange,
    error: ErrorView,
) -> Option<ErrorView> {
    let hint = home_hint(platform, q.shell);
    match error {
        ErrorView::MissingHome => Some(
            activation_failure(
                q,
                policy,
                target,
                file_change,
                seq![target],
                FailureKind::MissingHome,
                "Could not resolve the managed "@ + shell_name(q.shell) + " startup file because "@
                    + hint + " is not set."@,
                "Set "@ + hint
                    + " for the current process or activate the completion file manually."@,
            ),
        ),
        ErrorView::Io { path, .. } => Some(
            profile_failure(
                q,
                policy,
                target,
                file_change,
                path,
                FailureKind::ProfileUnavailable,
            ),
        ),
        ErrorView::InvalidUtf8File { path } => Some(
            profile_failure(
                q,
                policy,
                target,
                file_change,
                path,
                FailureKind::ProfileUnavailable,
            ),
        ),
        ErrorView::InvalidTargetPath { path, .. } => Some(
            profile_failure(
                q,
                policy,
                target,
                file_change,
                path,
                FailureKind::ProfileUnavailable,
            ),
        ),
        ErrorView::ManagedBlockMissingEnd { path, .. } => Some(
            profile_failure(q, policy, target, file_change, path, FailureKind::ProfileCorrupted),
        ),
        ErrorView::InvalidManagedBlock { path, .. } => Some(
            profile_failure(q, policy, target, file_change, path, FailureKind::ProfileCorrupted),
        ),
        ErrorView::NonUtf8Path { path } => Some(
            activation_failure(
                q,
                policy,
                target,
                file_change,
                seq![target, path],
                FailureKind::InvalidTargetPath,
                "The completion path could not be represented safely as UTF-8 for activation."@,
                "Install to a UTF-8 path so that the shell can be told to load the completion file."@,
            ),
        ),
        _ => None,
    }
}

fn fallback(
    request: &InstallRequest<'_>,
    policy: ActivationPolicy,
    target_path: &FilePath,
) -> (r: Option<ActivationReport>)
    ensures
        crate::service::common::opt_activation(r) == fallback_activation(
            request.shell@,
            request.program_name@,
            target_path@,
            policy,
        ),
{
    match manual_activation_report(&request.shell, request.program_name, target_path, policy) {
        Ok(report) => Some(report),
        Err(_) => None,
    }
}

fn activation_error(
    request: &InstallRequest<'_>,
    trace_id: u64,
    policy: ActivationPolicy,
    target_path: &FilePath,
    file_change: FileChange,
    affected_locations: Vec<FilePath>,
    kind: FailureKind,
    reason: String,
    next_step: String,
) -> (r: Error)
    ensures
        r@ == activation_failure(
            install_query(*request, trace_id),
            policy,
            target_path@,
            file_change,
            path_views(affected_locations@),
            kind,
            reason@,
            next_step@,
        ),
{
    failure_with_status(
        context(
            Operation::Install,
            trace_id,
            &request.shell,
            Some(target_path.copy()),
            affected_locations,
            kind,
        ),
        FailureStatus {
            file_change: Some(file_change),
            activation: fallback(request, policy, target_path),
            cleanup: None,
        },
        reason,
        Some(next_step),
    )
}

fn profile_error(
    request: &InstallRequest<'_>,
    trace_id: u64,
    policy: ActivationPolicy,
    target_path: &FilePath,
    file_change: FileChange,
    path: &FilePath,
    kind: FailureKind,
) -> (r: Error)
    ensures
        r@ == profile_failure(
            install_query(*request, trace_id),
            policy,
            target_path@,
            file_change,
            path@,
            kind,
        ),
{
    let next_step = match kind {
        FailureKind::ProfileCorrupted => text::concat3(
            "Repair or remove the malformed managed block in ",
            &path.display(),
            " manually, then run install again.",
        ),
        _ => text::concat3(
            "Review ",
            &path.display(),
            " manually and load the completion file from your startup file yourself.",
        ),
    };
    activation_error(
        request,
        trace_id,
        policy,
        target_path,
        file_change,
        two(target_path.copy(), path.copy()),
        kind,
        text::concat3(
            "Could not update the managed ",
            &request.shell.name(),
            " activation block.",
        ),
        next_step,
    )
}

fn map_activation_error(
    env: &Environment,
    request: &InstallRequest<'_>,
    trace_id: u64,
    policy: ActivationPolicy,
    target_path: &FilePath,
    file_change: FileChange,
    error: Error,
) -> (r: Error)
    ensures
        r@ == contextual(
            error@,
            describe_activation(
                env@.platform,
                install_query(*request, trace_id),
                policy,
                target_path@,
                file_change,
                error@,
            ),
        ),
{
    let description = match &error {
        Error::MissingHome => {
            let hint = home_env_hint(env, &request.shell);
            Some(
                activation_error(
                    request,
                    trace_id,
                    policy,
                    target_path,
                    file_change,
                    one(target_path.copy()),
                    FailureKind::MissingHome,
                    text::concat5(
                        "Could not resolve the managed ",
                        &request.shell.name(),
                        " startup file because ",
                        hint,
                        " is not set.",
                    ),
                    text::concat3(
                        "Set ",
                        hint,
                        " for the current process or activate the completion file manually.",
                    ),
                ),
            )
        },
        Error::Io { path, .. } => Some(
            profile_error(
                request,
                trace_id,
                policy,
                target_path,
                file_change,
                path,
                FailureKind::ProfileUnavailable,
            ),
        ),
        Error::InvalidUtf8File { path } => Some(
            profile_error(
                request,
                trace_id,
                policy,
                target_path,
                file_change,
                path,
                FailureKind::ProfileUnavailable,
            ),
        ),
        Error::InvalidTargetPath { path, .. } => Some(
            profile_error(
                request,
                trace_id,
                policy,
                target_path,
                file_change,
                path,
                FailureKind::ProfileUnavailable,
            ),
        ),
        Error::ManagedBlockMissingEnd { path, .. } => Some(
            profile_error(
                request,
                trace_id,
                policy,
                target_path,
                file_change,
                path,
                FailureKind::ProfileCorrupted,
            ),
        ),
        Error::InvalidManagedBlock { path, .. } => Some(
            profile_error(
                request,
                trace_id,
                policy,
                target_path,
                file_change,
                path,
                FailureKind::ProfileCorrupted,
            ),
        ),
        Error::NonUtf8Path { path } => Some(
            activation_error(
                request,
                trace_id,
                policy,
                target_path,
                file_change,
                two(target_path.copy(), path.copy()),
                FailureKind::InvalidTargetPath,
                text::copy(
                    "The completion path could not be represented safely as UTF-8 for activation.",
                ),
                text::copy(
                    "Install to a UTF-8 path so that the shell can be told to load the completion file.",
                ),
            ),
        ),
        _ => None,
    };
    error.with_context(description)
}

/// What activation leaves and returns, whether by the shell's own way or by the user.
pub open spec fn activation_at(
    e: EnvironmentView,
    d: DiskView,
    q: InstallQuery,
    policy: ActivationPolicy,
    target: Seq<u8>,
) -> (DiskView, Result<(ActivationView, Seq<Seq<u8>>), ErrorView>) {
    if uses_backend(e, q.shell, q.program_name, policy, target) {
        let (after, outcome) = activated(e, d, q.shell, q.program_name, target);
        match outcome {
            Err(error) => (after, Err(error)),
            Ok(o) => (after, Ok((o.report, o.affected_locations))),
        }
    } else {
        match manual_report(q.shell, q.program_name, target, policy) {
            Err(error) => (d, Err(error)),
            Ok(report) => (d, Ok((report, Seq::empty()))),
        }
    }
}

/// What an install at a target leaves and returns.
pub open spec fn installed_at(
    e: EnvironmentView,
    d: DiskView,
    q: InstallQuery,
    policy: ActivationPolicy,
    target: Seq<u8>,
) -> (DiskView, Result<InstallView, ErrorView>) {
    let (after, change) = written_if_changed(e.platform, d, target, q.script);
    match change {
        Err(error) => (after, Err(contextual(error, describe_file(q, target, error)))),
        Ok(file_change) => {
            let (end, outcome) = activation_at(e, after, q, policy, target);
            match outcome {
                Err(error) => (
                    end,
                    Err(
                        contextual(
                            error,
                            describe_activation(
                                e.platform,
                                q,
                                policy,
                                target,
                                file_change,
                                error,
                            ),
                        ),
                    ),
                ),
                Ok((activation, touched)) => (
                    end,
                    Ok(
                        InstallView {
                            shell: q.shell,
                            target_path: target,
                            file_change,
                            activation,
                            affected_locations: all_locations(
                                target,
                                touched,
                                touched.len() as int,
                            ),
                        },
                    ),
                ),
            }
        },
    }
}

/// What an install with the given policy leaves and returns.
pub open spec fn installed(
    e: EnvironmentView,
    d: DiskView,
    q: InstallQuery,
    policy: ActivationPolicy,
) -> (DiskView, Result<InstallView, ErrorView>) {
    match program_name_error(q.program_name) {
        Some(error) => (d, Err(error)),
        None => match target_of(e, d, q.shell, q.program_name, q.path_override) {
            Err(error) => (d, Err(contextual(error, describe_resolve(e.platform, q, error)))),
            Ok(target) => installed_at(e, d, q, policy, target),
        },
    }
}

/// What an install that names no policy leaves and returns.
pub open spec fn installed_by_default(e: EnvironmentView, d: DiskView, q: InstallQuery) -> (
    DiskView,
    Result<InstallView, ErrorView>,
) {
    installed(e, d, q, implied_policy(e, q.shell, q.program_name, q.path_override))
}

pub open spec fn install_result(r: Result<InstallReport, Error>) -> Result<
    InstallView,
    ErrorView,
> {
    match r {
        Ok(report) => Ok(report@),
        Err(error) => Err(error@),
    }
}

fn with_platform(platform: Platform, request: InstallRequest<'_>) -> (r: InstallRequest<'_>)
    ensures
        forall|trace_id: u64|
            #[trigger] install_query(r, trace_id) == on_platform(
                platform,
                install_query(request, trace_id),
            ),
{
    InstallRequest {
        shell: request.shell,
        program_name: request.program_name,
        script: request.script,
        path_override: path_on(platform, request.path_override),
    }
}

/// Installs a completion script, with the policy that its location implies.
pub fn execute(env: &Environment, disk: &mut Disk, request: InstallRequest<'_>, trace_id: u64) -> (r:
    Result<InstallReport, Error>)
    ensures
        (final(disk)@, install_result(r)) == installed_by_default(
            env@,
            old(disk)@,
            on_platform(env@.platform, install_query(request, trace_id)),
        ),
{
    let request = with_platform(env.platform, request);
    let policy = legacy_activation_policy(
        env,
        &request.shell,
        request.program_name,
        &request.path_override,
    );
    carry_out(env, disk, request, policy, trace_id)
}

/// Arranges activation, or tells the user how to.
fn activate(
    env: &Environment,
    disk: &mut Disk,
    request: &InstallRequest<'_>,
    policy: ActivationPolicy,
    target_path: &FilePath,
) -> (r: Result<(ActivationReport, Vec<FilePath>), Error>)
    ensures
        (final(disk)@, (match r {
            Ok((report, touched)) => Ok::<(ActivationView, Seq<Seq<u8>>), ErrorView>(
                (report@, path_views(touched@)),
            ),
            Err(error) => Err::<(ActivationView, Seq<Seq<u8>>), ErrorView>(error@),
        })) == activation_at(
            env@,
            old(disk)@,
            install_query(*request, 0),
            policy,
            target_path@,
        ),
{
    if should_use_shell_backend(env, &request.shell, request.program_name, policy, target_path) {
        let outcome = install_default(
            env,
            disk,
            &request.shell,
            request.program_name,
            target_path,
        )?;
        Ok((outcome.report, outcome.affected_locations))
    } else {
        let report = manual_activation_report(
            &request.shell,
            request.program_name,
            target_path,
            policy,
        )?;
        Ok((report, none()))
    }
}

/// Installs a completion script, with the given policy.
pub fn execute_with_policy(
    env: &Environment,
    disk: &mut Disk,
    request: InstallRequest<'_>,
    activation_policy: ActivationPolicy,
    trace_id: u64,
) -> (r: Result<InstallReport, Error>)
    ensures
        (final(disk)@, install_result(r)) == installed(
            env@,
            old(disk)@,
            on_platform(env@.platform, install_query(request, trace_id)),
            activation_policy,
        ),
{
    carry_out(env, disk, with_platform(env.platform, request), activation_policy, trace_id)
}

fn carry_out(
    env: &Environment,
    disk: &mut Disk,
    request: InstallRequest<'_>,
    activation_policy: ActivationPolicy,
    trace_id: u64,
) -> (r: Result<InstallReport, Error>)
    ensures
        (final(disk)@, install_result(r)) == installed(
            env@,
            old(disk)@,
            install_query(request, trace_id),
            activation_policy,
        ),
{
    validate_program_name(request.program_name)?;
    let target_path = match resolve_target_path(
        env,
        disk,
        &request.shell,
        request.program_name,
        &request.path_override,
    ) {
        Ok(path) => path,
        Err(error) => {
            return Err(map_resolve_error(env, &request, trace_id, error));
        },
    };
    let file_change = match write_if_changed(env.platform, disk, &target_path, request.script) {
        Ok(change) => change,
        Err(error) => {
            return Err(map_file_error(&request, trace_id, &target_path, error));
        },
    };
    match activate(env, disk, &request, activation_policy, &target_path) {
        Ok((activation, touched)) => {
            let affected_locations = locations(&target_path, touched);
            Ok(
                InstallReport {
                    shell: request.shell,
                    target_path,
                    file_change,
                    activation,
                    affected_locations,
                },
            )
        },
        Err(error) => Err(
            map_activation_error(
                env,
                &request,
                trace_id,
                activation_policy,
                &target_path,
                file_change,
                error,
            ),
        ),
    }
}

} // verus!

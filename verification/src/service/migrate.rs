//! Replacing legacy blocks of a startup file by the library's own.
use vstd::prelude::*;

use crate::disk::{Disk, DiskView};
use crate::environment::{Environment, EnvironmentView, Platform};
use crate::error::{contextual, Error, ErrorView};
use crate::managed_block::BlockView;
use crate::model::{
    opt_path, shell_name, FailureKind, MigrateManagedBlocksReport, MigrateManagedBlocksRequest,
    MigrateView, Operation, Shell, ShellView,
};
use crate::path::{opt_on, path_on, shown, FilePath};
use crate::paths::{program_name_error, unit_error, validate_program_name};
use crate::service::common::{
    all_locations, context, copy_path, failed, failure, home_env_hint, home_hint, is_autoloadable,
    locations, resolve_target_path, target_of, zsh_target_is_autoloadable, ContextView,
};
use crate::shell::backend;
use crate::shell::backend::migrated;
use crate::shell::wiring::{legacy_views, none, one, two};
use crate::text;

verus! {

/// What a migration was asked for, and by which call.
#[verifier::ext_equal]
pub struct MigrateQuery {
    pub shell: ShellView,
    pub program_name: Seq<char>,
    pub path_override: Option<Seq<u8>>,
    pub legacy_blocks: Seq<BlockView>,
    pub trace_id: u64,
}

pub open spec fn migrate_query(request: MigrateManagedBlocksRequest<'_>, trace_id: u64) -> MigrateQuery {
    MigrateQuery {
        shell: request.shell@,
        program_name: request.program_name@,
        path_override: opt_path(request.path_override),
        legacy_blocks: legacy_views(request.legacy_blocks@),
        trace_id,
    }
}

/// The same request, with a path of the given platform.
pub open spec fn on_platform(platform: Platform, q: MigrateQuery) -> MigrateQuery {
    MigrateQuery { path_override: opt_on(platform, q.path_override), ..q }
}

pub open spec fn migrate_context(
    q: MigrateQuery,
    shell: ShellView,
    target_path: Option<Seq<u8>>,
    affected_locations: Seq<Seq<u8>>,
    kind: FailureKind,
) -> ContextView {
    ContextView {
        operation: Operation::MigrateManagedBlocks,
        shell,
        target_path,
        affected_locations,
        kind,
        trace_id: q.trace_id,
    }
}

/// How an error of target resolution is described.
pub open spec fn describe_resolve(platform: Platform, q: MigrateQuery, error: ErrorView) -> Option<
    ErrorView,
> {
    let hint = home_hint(platform, q.shell);
    match error {
        ErrorView::MissingHome => Some(
            failed(
                migrate_context(
                    q,
                    q.shell,
                    q.path_override,
                    Seq::empty(),
                    FailureKind::MissingHome,
                ),
                "Could not resolve the managed completion path for block migration because "@ + hint
                    + " is not set."@,
                Some(
                    "Set "@ + hint
                        + " for the current process or pass `path_override` so shellcomp can resolve the target completion path."@,
                ),
            ),
        ),
        ErrorView::PathHasNoParent { path } => Some(
            failed(
                migrate_context(
                    q,
                    q.shell,
                    Some(path),
                    seq![path],
                    FailureKind::InvalidTargetPath,
                ),
                "The requested migration path `"@ + shown(path)
                    + "` does not have a parent directory."@,
                Some(
                    "Pass a file path with a real parent directory so shellcomp can build the replacement managed block."@,
                ),
            ),
        ),
        ErrorView::InvalidTargetPath { path, reason } => Some(
            failed(
                migrate_context(
                    q,
                    q.shell,
                    Some(path),
                    seq![path],
                    if q.path_override is None {
                        FailureKind::DefaultPathUnavailable
                    } else {
                        FailureKind::InvalidTargetPath
                    },
                ),
                (if q.path_override is None {
                    "The managed default completion path `"@
                } else {
                    "The requested migration path `"@
                }) + shown(path) + "` is invalid: "@ + reason + "."@,
                Some(
                    "Choose an absolute, non-symlink, normalized migration target path with an existing parent directory."@,
                ),
            ),
        ),
        ErrorView::UnsupportedShell { shell } => Some(
            failed(
                migrate_context(
                    q,
                    shell,
                    q.path_override,
                    Seq::empty(),
                    FailureKind::UnsupportedShell,
                ),
                "Shell `"@ + shell_name(shell)
                    + "` is not implemented in the current production support set."@,
                None,
            ),
        ),
        _ => None,
    }
}

fn map_resolve_error(
    env: &Environment,
    request: &MigrateManagedBlocksRequest<'_>,
    trace_id: u64,
    error: Error,
) -> (r: Error)
    ensures
        r@ == contextual(
            error@,
            describe_resolve(env@.platform, migrate_query(*request, trace_id), error@),
        ),
{
    let description = match &error {
        Error::MissingHome => {
            let hint = home_env_hint(env, &request.shell);
            Some(
                failure(
                    context(
                        Operation::MigrateManagedBlocks,
                        trace_id,
                        &request.shell,
                        copy_path(&request.path_override),
                        none(),
                        FailureKind::MissingHome,
                    ),
                    text::concat3(
                        "Could not resolve the managed completion path for block migration because ",
                        hint,
                        " is not set.",
                    ),
                    Some(
                        text::concat3(
                            "Set ",
                            hint,
                            " for the current process or pass `path_override` so shellcomp can resolve the target completion path.",
                        ),
                    ),
                ),
            )
        },
        Error::PathHasNoParent { path } => Some(
            failure(
                context(
                    Operation::MigrateManagedBlocks,
                    trace_id,
                    &request.shell,
                    Some(path.copy()),
                    one(path.copy()),
                    FailureKind::InvalidTargetPath,
                ),
                text::concat3(
                    "The requested migration path `",
                    &path.display(),
                    "` does not have a parent directory.",
                ),
                Some(
                    text::copy(
                        "Pass a file path with a real parent directory so shellcomp can build the replacement managed block.",
                    ),
                ),
            ),
        ),
        Error::InvalidTargetPath { path, reason } => {
            let uses_default_target = request.path_override.is_none();
            Some(
                failure(
                    context(
                        Operation::MigrateManagedBlocks,
                        trace_id,
                        &request.shell,
                        Some(path.copy()),
                        one(path.copy()),
                        if uses_default_target {
                            FailureKind::DefaultPathUnavailable
                        } else {
                            FailureKind::InvalidTargetPath
                        },
                    ),
                    text::concat5(
                        if uses_default_target {
                            "The managed default completion path `"
                        } else {
                            "The requested migration path `"
                        },
                        &path.display(),
                        "` is invalid: ",
                        reason,
                        ".",
                    ),
                    Some(
                        text::copy(
                            "Choose an absolute, non-symlink, normalized migration target path with an existing parent directory.",
                        ),
                    ),
                ),
            )
        },
        Error::UnsupportedShell(shell) => Some(
            failure(
                context(
                    Operation::MigrateManagedBlocks,
                    trace_id,
                    shell,
                    copy_path(&request.path_override),
                    none(),
                    FailureKind::UnsupportedShell,
                ),
                text::concat3(
                    "Shell `",
                    &shell.name(),
                    "` is not implemented in the current production support set.",
                ),
                None,
            ),
        ),
        _ => None,
    };
    error.with_context(description)
}

/// The failure to rewrite a startup file.
pub open spec fn rewrite_failure(
    q: MigrateQuery,
    target: Seq<u8>,
    path: Seq<u8>,
    kind: FailureKind,
) -> ErrorView {
    failed(
        migrate_context(q, q.shell, Some(target), seq![target, path], kind),
        if kind == FailureKind::ProfileCorrupted {
            "Could not rewrite the managed "@ + shell_name(q.shell)
                + " startup file because a managed block is malformed."@
        } else {
            "Could not rewrite the managed "@ + shell_name(q.shell)
                + " startup file during block migration."@
        },
        Some(
            if kind == FailureKind::ProfileCorrupted {
                "Repair or remove the malformed block in "@ + shown(path)
                    + " manually, then re-run migration."@
            } else {
                "Review "@ + shown(path)
                    + " manually and remove or replace the legacy block yourself."@
            },
        ),
    )
}

/// How an error of the migration itself is described.
pub open spec fn describe_migration(
    platform: Platform,
    q: MigrateQuery,
    target: Seq<u8>,
    error: ErrorView,
) -> Option<ErrorView> {
    let hint = home_hint(platform, q.shell);
    match error {
        ErrorView::MissingHome => Some(
            failed(
                migrate_context(
                    q,
                    q.shell,
                    Some(target),
                    seq![target],
                    FailureKind::MissingHome,
                ),
                "Could not resolve the managed "@ + shell_name(q.shell)
                    + " startup file during block migration because "@ + hint + " is not set."@,
                Some(
                    "Set "@ + hint
                        + " for the current process or rewrite the startup block manually."@,
                ),
            ),
        ),
        ErrorView::Io { path, .. } => Some(
            rewrite_failure(q, target, path, FailureKind::ProfileUnavailable),
        ),
        ErrorView::InvalidUtf8File { path } => Some(
            rewrite_failure(q, target, path, FailureKind::ProfileUnavailable),
        ),
        ErrorView::InvalidTargetPath { path, .. } => Some(
            rewrite_failure(q, target, path, FailureKind::ProfileUnavailable),
        ),
        ErrorView::ManagedBlockMissingEnd { path, .. } => Some(
            rewrite_failure(q, target, path, FailureKind::ProfileCorrupted),
        ),
        ErrorView::InvalidManagedBlock { path, .. } => Some(
            rewrite_failure(q, target, path, FailureKind::ProfileCorrupted),
        ),
        ErrorView::NonUtf8Path { path } => Some(
            failed(
                migrate_context(
                    q,
                    q.shell,
                    Some(target),
                    seq![target, path],
                    FailureKind::InvalidTargetPath,
                ),
                "The target completion path could not be represented safely for managed block migration."@,
                Some(
                    "Move the completion file to a UTF-8 path before migrating managed shell blocks."@,
                ),
            ),
        ),
        _ => None,
    }
}

fn rewrite_error(
    request: &MigrateManagedBlocksRequest<'_>,
    trace_id: u64,
    target_path: &FilePath,
    path: &FilePath,
    kind: FailureKind,
) -> (r: Error)
    ensures
        r@ == rewrite_failure(
            migrate_query(*request, trace_id),
            target_path@,
            path@,
            kind,
        ),
{
    let (reason, next_step) = match kind {
        FailureKind::ProfileCorrupted => (
            text::concat3(
                "Could not rewrite the managed ",
                &request.shell.name(),
                " startup file because a managed block is malformed.",
            ),
            text::concat3(
                "Repair or remove the malformed block in ",
                &path.display(),
                " manually, then re-run migration.",
            ),
        ),
        _ => (
            text::concat3(
                "Could not rewrite the managed ",
                &request.shell.name(),
                " startup file during block migration.",
            ),
            text::concat3(
                "Review ",
                &path.display(),
                " manually and remove or replace the legacy block yourself.",
            ),
        ),
    };
    failure(
        context(
            Operation::MigrateManagedBlocks,
            trace_id,
            &request.shell,
            Some(target_path.copy()),
            two(target_path.copy(), path.copy()),
            kind,
        ),
        reason,
        Some(next_step),
    )
}

fn map_migration_error(
    env: &Environment,
    request: &MigrateManagedBlocksRequest<'_>,
    trace_id: u64,
    target_path: &FilePath,
    error: Error,
) -> (r: Error)
    ensures
        r@ == contextual(
            error@,
            describe_migration(
                env@.platform,
                migrate_query(*request, trace_id),
                target_path@,
                error@,
            ),
        ),
{
    let description = match &error {
        Error::MissingHome => {
            let hint = home_env_hint(env, &request.shell);
            Some(
                failure(
                    context(
                        Operation::MigrateManagedBlocks,
                        trace_id,
                        &request.shell,
                        Some(target_path.copy()),
                        one(target_path.copy()),
                        FailureKind::MissingHome,
                    ),
                    text::concat5(
                        "Could not resolve the managed ",
                        &request.shell.name(),
                        " startup file during block migration because ",
                        hint,
                        " is not set.",
                    ),
                    Some(
                        text::concat3(
                            "Set ",
                            hint,
                            " for the current process or rewrite the startup block manually.",
                        ),
                    ),
                ),
            )
        },
        Error::Io { path, .. } => Some(
            rewrite_error(request, trace_id, target_path, path, FailureKind::ProfileUnavailable),
        ),
        Error::InvalidUtf8File { path } => Some(
            rewrite_error(request, trace_id, target_path, path, FailureKind::ProfileUnavailable),
        ),
        Error::InvalidTargetPath { path, .. } => Some(
            rewrite_error(request, trace_id, target_path, path, FailureKind::ProfileUnavailable),
        ),
        Error::ManagedBlockMissingEnd { path, .. } => Some(
            rewrite_error(request, trace_id, target_path, path, FailureKind::ProfileCorrupted),
        ),
        Error::InvalidManagedBlock { path, .. } => Some(
            rewrite_error(request, trace_id, target_path, path, FailureKind::ProfileCorrupted),
        ),
        Error::NonUtf8Path { path } => Some(
            failure(
                context(
                    Operation::MigrateManagedBlocks,
                    trace_id,
                    &request.shell,
                    Some(target_path.copy()),
                    two(target_path.copy(), path.copy()),
                    FailureKind::InvalidTargetPath,
                ),
                text::copy(
                    "The target completion path could not be represented safely for managed block migration.",
                ),
                Some(
                    text::copy(
                        "Move the completion file to a UTF-8 path before migrating managed shell blocks.",
                    ),
                ),
            ),
        ),
        _ => None,
    };
    error.with_context(description)
}

/// Why a block for the target cannot work: Zsh would not find the file.
pub open spec fn migration_target_error(q: MigrateQuery, target: Seq<u8>) -> Option<ErrorView> {
    if q.shell is Zsh && !is_autoloadable(q.program_name, target) {
        let expected = "_"@ + q.program_name;
        Some(
            failed(
                migrate_context(
                    q,
                    q.shell,
                    Some(target),
                    seq![target],
                    FailureKind::InvalidTargetPath,
                ),
                "The requested zsh migration target `"@ + shown(target)
                    + "` is not autoloadable because its file name is not `"@ + expected + "`."@,
                Some(
                    "Rename the completion file to `"@ + expected
                        + "` or choose an autoloadable target path before migrating managed zsh blocks."@,
                ),
            ),
        )
    } else {
        None
    }
}

fn validate_migration_target(
    request: &MigrateManagedBlocksRequest<'_>,
    trace_id: u64,
    target_path: &FilePath,
) -> (r: Result<(), Error>)
    ensures
        unit_error(r) == migration_target_error(
            migrate_query(*request, trace_id),
            target_path@,
        ),
{
    let is_zsh = match request.shell {
        Shell::Zsh => true,
        _ => false,
    };
    if is_zsh && !zsh_target_is_autoloadable(request.program_name, target_path) {
        let expected = text::concat2("_", request.program_name);
        return Err(
            failure(
                context(
                    Operation::MigrateManagedBlocks,
                    trace_id,
                    &request.shell,
                    Some(target_path.copy()),
                    one(target_path.copy()),
                    FailureKind::InvalidTargetPath,
                ),
                text::concat5(
                    "The requested zsh migration target `",
                    &target_path.display(),
                    "` is not autoloadable because its file name is not `",
                    &expected,
                    "`.",
                ),
                Some(
                    text::concat3(
                        "Rename the completion file to `",
                        &expected,
                        "` or choose an autoloadable target path before migrating managed zsh blocks.",
                    ),
                ),
            ),
        );
    }
    Ok(())
}

/// What a migration leaves and returns.
pub open spec fn migration(e: EnvironmentView, d: DiskView, q: MigrateQuery) -> (
    DiskView,
    Result<MigrateView, ErrorView>,
) {
    match program_name_error(q.program_name) {
        Some(error) => (d, Err(error)),
        None => match target_of(e, d, q.shell, q.program_name, q.path_override) {
            Err(error) => (d, Err(contextual(error, describe_resolve(e.platform, q, error)))),
            Ok(target) => match migration_target_error(q, target) {
                Some(error) => (d, Err(error)),
                None => {
                    let (after, outcome) = migrated(
                        e,
                        d,
                        q.shell,
                        q.program_name,
                        target,
                        q.legacy_blocks,
                    );
                    match outcome {
                        Err(error) => (
                            after,
                            Err(
                                contextual(
                                    error,
                                    describe_migration(e.platform, q, target, error),
                                ),
                            ),
                        ),
                        Ok(o) => (
                            after,
                            Ok(
                                MigrateView {
                                    shell: q.shell,
                                    target_path: target,
                                    location: o.location,
                                    legacy_change: o.legacy_change,
                                    managed_change: o.managed_change,
                                    affected_locations: all_locations(
                                        target,
                                        o.affected_locations,
                                        o.affected_locations.len() as int,
                                    ),
                                },
                            ),
                        ),
                    }
                },
            },
        },
    }
}

pub open spec fn migrate_result(r: Result<MigrateManagedBlocksReport, Error>) -> Result<
    MigrateView,
    ErrorView,
> {
    match r {
        Ok(report) => Ok(report@),
        Err(error) => Err(error@),
    }
}

/// Replaces legacy blocks of a startup file by the library's own.
pub fn execute(
    env: &Environment,
    disk: &mut Disk,
    request: MigrateManagedBlocksRequest<'_>,
    trace_id: u64,
) -> (r: Result<MigrateManagedBlocksReport, Error>)
    ensures
        (final(disk)@, migrate_result(r)) == migration(
            env@,
            old(disk)@,
            on_platform(env@.platform, migrate_query(request, trace_id)),
        ),
{
    let request = MigrateManagedBlocksRequest {
        shell: request.shell,
        program_name: request.program_name,
        path_override: path_on(env.platform, request.path_override),
        legacy_blocks: request.legacy_blocks,
    };
    validate_program_name(request.program_name)?;
    let target_path = match resolve_target_path(
        env,
        disk,
        &request.shell,
        request.program_name,
        &request.path_override,
    ) {
        Ok(path) => path,
        Err(error) => {
            return Err(map_resolve_error(env, &request, trace_id, error));
        },
    };
    validate_migration_target(&request, trace_id, &target_path)?;
    let outcome = match backend::migrate_managed_blocks(
        env,
        disk,
        &request.shell,
        request.program_name,
        &target_path,
        &request.legacy_blocks,
    ) {
        Ok(outcome) => outcome,
        Err(error) => {
            return Err(map_migration_error(env, &request, trace_id, &target_path, error));
        },
    };
    let affected_locations = locations(&target_path, outcome.affected_locations);
    Ok(
        MigrateManagedBlocksReport {
            shell: request.shell,
            target_path,
            location: outcome.location,
            legacy_change: outcome.legacy_change,
            managed_change: outcome.managed_change,
            affected_locations,
        },
    )
}

} // verus!

//! Bash: a completion loader of the system where there is one, else a block in `~/.bashrc`.
use vstd::prelude::*;

use crate::disk::{Disk, DiskView};
use crate::environment::{Environment, EnvironmentView};
use crate::error::{Error, ErrorView};
use crate::fs::{file_exists, file_exists_view};
use crate::managed_block;
use crate::managed_block::{block_matches, BlockView, ManagedBlock};
use crate::model::{
    ActivationMode, ActivationReport, ActivationView, Availability, CleanupReport, CleanupView,
    FileChange, LegacyManagedBlock, Shell, ShellView,
};
use crate::path::{same_path, shown, FilePath};
use crate::paths::{bashrc, bashrc_path, default_install_path, default_path};
use crate::shell::discovery::{loader_of, loader_status, LoaderStatus, LoaderView};
use crate::shell::quoting::{shell_quote, shell_quoted};
use crate::shell::wiring::{
    activation_result, block_cleanup, block_install, block_migration, block_result, cleanup_result,
    end_marker, end_marker_of, legacy_views, migrate_profile_blocks, migration_result, none, one,
    report_result, start_marker, start_marker_of, two, ActivationOutcome, ActivationOutcomeView,
    CleanupOutcome, CleanupOutcomeView, MigrationOutcome,
};
use crate::text;

verus! {

/// The block that sources a completion file.
pub open spec fn bash_block(name: Seq<char>, target: Seq<u8>) -> Result<BlockView, ErrorView> {
    match shell_quoted(target) {
        Err(error) => Err(error),
        Ok(quoted) => Ok(
            BlockView {
                start_marker: start_marker("bash"@, name),
                end_marker: end_marker("bash"@, name),
                body: "if [ -f "@ + quoted + " ]; then\n  . "@ + quoted + "\nfi"@,
            },
        ),
    }
}

/// The block that loads a completion in Bash.
pub fn bash_managed_block(program_name: &str, target_path: &FilePath) -> (r: Result<
    ManagedBlock,
    Error,
>)
    ensures
        block_result(r) == bash_block(program_name@, target_path@),
{
    let quoted = shell_quote(target_path)?;
    Ok(
        ManagedBlock {
            start_marker: start_marker_of("bash", program_name),
            end_marker: end_marker_of("bash", program_name),
            body: text::concat5("if [ -f ", &quoted, " ]; then\n  . ", &quoted, "\nfi"),
        },
    )
}

/// Whether a loader of the system picks up a completion file: it does at the default location
/// alone.
pub open spec fn loader_serves(e: EnvironmentView, name: Seq<char>, target: Seq<u8>) -> bool {
    match default_path(e, ShellView::Bash, name) {
        Ok(path) => same_path(path, target),
        Err(_) => false,
    }
}

fn target_uses_system_loader_path(
    env: &Environment,
    program_name: &str,
    target_path: &FilePath,
) -> (r: bool)
    ensures
        r == loader_serves(env@, program_name@, target_path@),
{
    match default_install_path(env, &Shell::Bash, program_name) {
        Ok(path) => path.same(target_path),
        Err(_) => false,
    }
}

/// The loader that picks up a completion file, where the location is one that a loader serves.
pub open spec fn serving_loader(
    e: EnvironmentView,
    d: DiskView,
    name: Seq<char>,
    target: Seq<u8>,
) -> Result<Option<LoaderView>, ErrorView> {
    if loader_serves(e, name, target) {
        match loader_of(e, d) {
            Ok(status) => Ok(Some(status)),
            Err(error) => Err(error),
        }
    } else {
        Ok(None)
    }
}

fn serving_loader_status(
    env: &Environment,
    disk: &Disk,
    program_name: &str,
    target_path: &FilePath,
) -> (r: Result<Option<LoaderStatus>, Error>)
    ensures
        (match r {
            Ok(Some(status)) => Ok::<Option<LoaderView>, ErrorView>(Some(status@)),
            Ok(None) => Ok::<Option<LoaderView>, ErrorView>(None),
            Err(error) => Err::<Option<LoaderView>, ErrorView>(error@),
        }) == serving_loader(env@, disk@, program_name@, target_path@),
{
    if target_uses_system_loader_path(env, program_name, target_path) {
        let status = loader_status(env, disk)?;
        Ok(Some(status))
    } else {
        Ok(None)
    }
}

pub open spec fn active_loader_report(target: Seq<u8>) -> ActivationView {
    ActivationView {
        mode: ActivationMode::SystemLoader,
        availability: Availability::ActiveNow,
        location: Some(target),
        reason: Some("Detected an active bash-completion loader in the current shell."@),
        next_step: None,
    }
}

pub open spec fn wired_loader_report(startup: Seq<u8>, next_step: Seq<char>) -> ActivationView {
    ActivationView {
        mode: ActivationMode::SystemLoader,
        availability: Availability::AvailableAfterNewShell,
        location: Some(startup),
        reason: Some(
            "Detected startup-file wiring for a system bash-completion loader in `"@
                + shown(startup) + "`."@,
        ),
        next_step: Some(next_step),
    }
}

fn active_loader(target_path: &FilePath) -> (r: ActivationReport)
    ensures
        r@ == active_loader_report(target_path@),
{
    ActivationReport {
        mode: ActivationMode::SystemLoader,
        availability: Availability::ActiveNow,
        location: Some(target_path.copy()),
        reason: Some(
            text::copy("Detected an active bash-completion loader in the current shell."),
        ),
        next_step: None,
    }
}

fn wired_loader(startup_path: &FilePath, next_step: &str) -> (r: ActivationReport)
    ensures
        r@ == wired_loader_report(startup_path@, next_step@),
{
    ActivationReport {
        mode: ActivationMode::SystemLoader,
        availability: Availability::AvailableAfterNewShell,
        location: Some(startup_path.copy()),
        reason: Some(
            text::concat3(
                "Detected startup-file wiring for a system bash-completion loader in `",
                &startup_path.display(),
                "`.",
            ),
        ),
        next_step: Some(text::copy(next_step)),
    }
}

/// Why a block was put into `~/.bashrc`.
pub open spec fn block_reason(loader: Option<LoaderView>) -> Seq<char> {
    match loader {
        None => "Installed to a custom Bash completion path, so shellcomp added a managed block to ~/.bashrc to source it directly."@,
        Some(status) => if status is PresentButUnwired {
            "A known bash-completion loader file exists on disk, but ~/.bashrc does not appear to source it, so shellcomp added a managed block to ~/.bashrc."@
        } else {
            "No system bash-completion loader was detected, so shellcomp added a managed block to ~/.bashrc."@
        },
    }
}

pub open spec fn bash_source_step(quoted: Seq<char>) -> Seq<char> {
    "Run `source "@ + quoted + "` or start a new Bash session."@
}

/// The report on a block that was put into `~/.bashrc`.
pub open spec fn bash_block_report(rc: Seq<u8>, loader: Option<LoaderView>) -> Result<
    ActivationView,
    ErrorView,
> {
    match shell_quoted(rc) {
        Err(error) => Err(error),
        Ok(quoted) => Ok(
            ActivationView {
                mode: ActivationMode::ManagedRcBlock,
                availability: Availability::AvailableAfterSource,
                location: Some(rc),
                reason: Some(block_reason(loader)),
                next_step: Some(bash_source_step(quoted)),
            },
        ),
    }
}

/// What arranging the activation of a Bash completion leaves and returns.
pub open spec fn bash_installed(
    e: EnvironmentView,
    d: DiskView,
    name: Seq<char>,
    target: Seq<u8>,
) -> (DiskView, Result<ActivationOutcomeView, ErrorView>) {
    match (bashrc(e), serving_loader(e, d, name, target)) {
        (Err(error), _) => (d, Err(error)),
        (Ok(_), Err(error)) => (d, Err(error)),
        (Ok(_), Ok(Some(LoaderView::ActiveNow))) => (
            d,
            Ok(
                ActivationOutcomeView {
                    report: active_loader_report(target),
                    affected_locations: Seq::empty(),
                },
            ),
        ),
        (Ok(_), Ok(Some(LoaderView::WiredInStartup(startup)))) => (
            d,
            Ok(
                ActivationOutcomeView {
                    report: wired_loader_report(
                        startup,
                        "Start a new Bash session to ensure the completion script is loaded."@,
                    ),
                    affected_locations: seq![startup],
                },
            ),
        ),
        (Ok(rc), Ok(loader)) => block_install(
            e.platform,
            d,
            Ok(rc),
            bash_block(name, target),
            |path: Seq<u8>| bash_block_report(path, loader),
        ),
    }
}

/// Arranges the activation of a completion that was installed.
pub fn install(env: &Environment, disk: &mut Disk, program_name: &str, target_path: &FilePath) -> (r:
    Result<ActivationOutcome, Error>)
    ensures
        (final(disk)@, activation_result(r)) == bash_installed(
            env@,
            old(disk)@,
            program_name@,
            target_path@,
        ),
{
    let rc_path = bashrc_path(env)?;
    let loader = serving_loader_status(env, disk, program_name, target_path)?;
    let reason = match &loader {
        Some(LoaderStatus::ActiveNow) => {
            return Ok(
                ActivationOutcome {
                    report: active_loader(target_path),
                    affected_locations: none(),
                },
            );
        },
        Some(LoaderStatus::WiredInStartup(startup_path)) => {
            return Ok(
                ActivationOutcome {
                    report: wired_loader(
                        startup_path,
                        "Start a new Bash session to ensure the completion script is loaded.",
                    ),
                    affected_locations: one(startup_path.copy()),
                },
            );
        },
        Some(LoaderStatus::PresentButUnwired) => text::copy(
            "A known bash-completion loader file exists on disk, but ~/.bashrc does not appear to source it, so shellcomp added a managed block to ~/.bashrc.",
        ),
        Some(LoaderStatus::Absent) => text::copy(
            "No system bash-completion loader was detected, so shellcomp added a managed block to ~/.bashrc.",
        ),
        None => text::copy(
            "Installed to a custom Bash completion path, so shellcomp added a managed block to ~/.bashrc to source it directly.",
        ),
    };
    let block = bash_managed_block(program_name, target_path)?;
    managed_block::upsert(env.platform, disk, &rc_path, &block)?;
    let quoted = shell_quote(&rc_path)?;
    Ok(
        ActivationOutcome {
            report: ActivationReport {
                mode: ActivationMode::ManagedRcBlock,
                availability: Availability::AvailableAfterSource,
                location: Some(rc_path.copy()),
                reason: Some(reason),
                next_step: Some(
                    text::concat3("Run `source ", &quoted, "` or start a new Bash session."),
                ),
            },
            affected_locations: one(rc_path),
        },
    )
}

pub open spec fn bash_cleanup_reason(change: FileChange) -> Seq<char> {
    match change {
        FileChange::Removed => "Removed the managed Bash activation block from ~/.bashrc."@,
        FileChange::Absent => "No managed Bash activation block was present in ~/.bashrc."@,
        _ => "Bash activation cleanup completed."@,
    }
}

/// The report on a cleanup, given what happened to the block in `~/.bashrc`.
pub open spec fn bash_cleanup_outcome(
    rc: Seq<u8>,
    change: FileChange,
    loader: Option<LoaderView>,
) -> CleanupOutcomeView {
    match (change, loader) {
        (FileChange::Absent, Some(LoaderView::ActiveNow)) => CleanupOutcomeView {
            cleanup: CleanupView {
                mode: ActivationMode::SystemLoader,
                change,
                location: None,
                reason: Some(
                    "No shellcomp-managed Bash activation block was present; Bash completion relied on an active system loader."@,
                ),
                next_step: None,
            },
            affected_locations: seq![rc],
        },
        (FileChange::Absent, Some(LoaderView::WiredInStartup(startup))) => CleanupOutcomeView {
            cleanup: CleanupView {
                mode: ActivationMode::SystemLoader,
                change,
                location: Some(startup),
                reason: Some(
                    "No shellcomp-managed Bash activation block was present; Bash completion was wired through the system loader in `"@
                        + shown(startup) + "`."@,
                ),
                next_step: None,
            },
            affected_locations: seq![rc, startup],
        },
        _ => CleanupOutcomeView {
            cleanup: CleanupView {
                mode: ActivationMode::ManagedRcBlock,
                change,
                location: Some(rc),
                reason: Some(bash_cleanup_reason(change)),
                next_step: None,
            },
            affected_locations: seq![rc],
        },
    }
}

/// What taking the activation of a Bash completion back leaves and returns.
pub open spec fn bash_uninstalled(
    e: EnvironmentView,
    d: DiskView,
    name: Seq<char>,
    target: Seq<u8>,
) -> (DiskView, Result<CleanupOutcomeView, ErrorView>) {
    match (bashrc(e), bash_block(name, target), serving_loader(e, d, name, target)) {
        (Err(error), _, _) => (d, Err(error)),
        (Ok(_), Err(error), _) => (d, Err(error)),
        (Ok(_), Ok(_), Err(error)) => (d, Err(error)),
        (Ok(rc), Ok(block), Ok(loader)) => block_cleanup(
            e.platform,
            d,
            Ok(rc),
            Ok(block),
            |path: Seq<u8>, change: FileChange| bash_cleanup_outcome(path, change, loader),
        ),
    }
}

/// Takes the activation of a completion back.
pub fn uninstall(env: &Environment, disk: &mut Disk, program_name: &str, target_path: &FilePath) -> (r:
    Result<CleanupOutcome, Error>)
    ensures
        (final(disk)@, cleanup_result(r)) == bash_uninstalled(
            env@,
            old(disk)@,
            program_name@,
            target_path@,
        ),
{
    let rc_path = bashrc_path(env)?;
    let block = bash_managed_block(program_name, target_path)?;
    let loader = serving_loader_status(env, disk, program_name, target_path)?;
    let change = managed_block::remove(env.platform, disk, &rc_path, &block)?;
    match (change, loader) {
        (FileChange::Absent, Some(LoaderStatus::ActiveNow)) => Ok(
            CleanupOutcome {
                cleanup: CleanupReport {
                    mode: ActivationMode::SystemLoader,
                    change,
                    location: None,
                    reason: Some(
                        text::copy(
                            "No shellcomp-managed Bash activation block was present; Bash completion relied on an active system loader.",
                        ),
                    ),
                    next_step: None,
                },
                affected_locations: one(rc_path),
            },
        ),
        (FileChange::Absent, Some(LoaderStatus::WiredInStartup(startup_path))) => Ok(
            CleanupOutcome {
                cleanup: CleanupReport {
                    mode: ActivationMode::SystemLoader,
                    change,
                    location: Some(startup_path.copy()),
                    reason: Some(
                        text::concat3(
                            "No shellcomp-managed Bash activation block was present; Bash completion was wired through the system loader in `",
                            &startup_path.display(),
                            "`.",
                        ),
                    ),
                    next_step: None,
                },
                affected_locations: two(rc_path, startup_path),
            },
        ),
        _ => Ok(
            CleanupOutcome {
                cleanup: CleanupReport {
                    mode: ActivationMode::ManagedRcBlock,
                    change,
                    location: Some(rc_path.copy()),
                    reason: Some(
                        match change {
                            FileChange::Removed => text::copy(
                                "Removed the managed Bash activation block from ~/.bashrc.",
                            ),
                            FileChange::Absent => text::copy(
                                "No managed Bash activation block was present in ~/.bashrc.",
                            ),
                            _ => text::copy("Bash activation cleanup completed."),
                        },
                    ),
                    next_step: None,
                },
                affected_locations: one(rc_path),
            },
        ),
    }
}

pub open spec fn not_installed(target: Seq<u8>) -> Seq<char> {
    "Completion file `"@ + shown(target) + "` is not installed."@
}

/// That no completion stands at a path.
pub fn not_installed_text(target_path: &FilePath) -> (r: String)
    ensures
        r@ == not_installed(target_path@),
{
    text::concat3("Completion file `", &target_path.display(), "` is not installed.")
}

/// Whether a loader is at work.
pub open spec fn loader_works(loader: Option<LoaderView>) -> bool {
    match loader {
        Some(status) => status is ActiveNow || status is WiredInStartup,
        None => false,
    }
}

/// The report on a completion whose file is not there.
pub open spec fn bash_missing_report(
    rc: Seq<u8>,
    target: Seq<u8>,
    loader: Option<LoaderView>,
    wired: bool,
) -> ActivationView {
    let through_block = !loader_works(loader) && wired;
    ActivationView {
        mode: if loader_works(loader) {
            ActivationMode::SystemLoader
        } else {
            ActivationMode::ManagedRcBlock
        },
        availability: Availability::ManualActionRequired,
        location: Some(
            if through_block {
                rc
            } else {
                target
            },
        ),
        reason: Some(
            if through_block {
                "Managed Bash activation block is present in ~/.bashrc, but completion file `"@
                    + shown(target) + "` is not installed."@
            } else {
                not_installed(target)
            },
        ),
        next_step: Some(
            "Run your CLI's completion install command or install the script manually."@,
        ),
    }
}

/// The report on a completion whose file is there and that no loader picks up.
pub open spec fn bash_present_report(rc: Seq<u8>, target: Seq<u8>, wired: bool) -> Result<
    ActivationView,
    ErrorView,
> {
    match (shell_quoted(rc), shell_quoted(target)) {
        (Err(error), _) => Err(error),
        (Ok(_), Err(error)) => Err(error),
        (Ok(quoted_rc), Ok(quoted_target)) => Ok(
            ActivationView {
                mode: ActivationMode::ManagedRcBlock,
                availability: if wired {
                    Availability::AvailableAfterSource
                } else {
                    Availability::ManualActionRequired
                },
                location: Some(rc),
                reason: Some(
                    if wired {
                        "Managed Bash activation block is present in ~/.bashrc."@
                    } else {
                        "Completion file exists, but the managed Bash activation block was not found."@
                    },
                ),
                next_step: Some(
                    if wired {
                        bash_source_step(quoted_rc)
                    } else {
                        "Re-run installation or source "@ + quoted_target + " from "@ + quoted_rc
                            + " manually."@
                    },
                ),
            },
        ),
    }
}

/// The report on a completion, given what was found out about it.
pub open spec fn bash_state(
    rc: Seq<u8>,
    target: Seq<u8>,
    loader: Option<LoaderView>,
    wired: bool,
    installed: bool,
) -> Result<ActivationView, ErrorView> {
    if !installed {
        Ok(bash_missing_report(rc, target, loader, wired))
    } else {
        match loader {
            Some(LoaderView::ActiveNow) => Ok(active_loader_report(target)),
            Some(LoaderView::WiredInStartup(startup)) => Ok(
                wired_loader_report(
                    startup,
                    "Start a new Bash session if completions are not available yet."@,
                ),
            ),
            _ => bash_present_report(rc, target, wired),
        }
    }
}

/// How a Bash completion comes to be loaded.
pub open spec fn bash_detected(
    e: EnvironmentView,
    d: DiskView,
    name: Seq<char>,
    target: Seq<u8>,
) -> Result<ActivationView, ErrorView> {
    match (bashrc(e), serving_loader(e, d, name, target), bash_block(name, target)) {
        (Err(error), _, _) => Err(error),
        (Ok(_), Err(error), _) => Err(error),
        (Ok(_), Ok(_), Err(error)) => Err(error),
        (Ok(rc), Ok(loader), Ok(block)) => match (
            block_matches(e.platform, d, rc, block),
            file_exists_view(d, target),
        ) {
            (Err(error), _) => Err(error),
            (Ok(_), Err(error)) => Err(error),
            (Ok(wired), Ok(installed)) => bash_state(rc, target, loader, wired, installed),
        },
    }
}

/// Finds out how a completion comes to be loaded.
pub fn detect(env: &Environment, disk: &Disk, program_name: &str, target_path: &FilePath) -> (r:
    Result<ActivationReport, Error>)
    ensures
        report_result(r) == bash_detected(env@, disk@, program_name@, target_path@),
{
    let rc_path = bashrc_path(env)?;
    let loader = serving_loader_status(env, disk, program_name, target_path)?;
    let block = bash_managed_block(program_name, target_path)?;
    let wired = managed_block::matches(env.platform, disk, &rc_path, &block)?;
    if !file_exists(disk, target_path)? {
        let loader_mode = match loader {
            Some(LoaderStatus::ActiveNow) | Some(LoaderStatus::WiredInStartup(_)) => true,
            _ => false,
        };
        let through_block = !loader_mode && wired;
        return Ok(
            ActivationReport {
                mode: if loader_mode {
                    ActivationMode::SystemLoader
                } else {
                    ActivationMode::ManagedRcBlock
                },
                availability: Availability::ManualActionRequired,
                location: Some(
                    if through_block {
                        rc_path
                    } else {
                        target_path.copy()
                    },
                ),
                reason: Some(
                    if through_block {
                        text::concat3(
                            "Managed Bash activation block is present in ~/.bashrc, but completion file `",
                            &target_path.display(),
                            "` is not installed.",
                        )
                    } else {
                        not_installed_text(target_path)
                    },
                ),
                next_step: Some(
                    text::copy(
                        "Run your CLI's completion install command or install the script manually.",
                    ),
                ),
            },
        );
    }
    match loader {
        Some(LoaderStatus::ActiveNow) => {
            return Ok(active_loader(target_path));
        },
        Some(LoaderStatus::WiredInStartup(startup_path)) => {
            return Ok(
                wired_loader(
                    &startup_path,
                    "Start a new Bash session if completions are not available yet.",
                ),
            );
        },
        _ => {},
    }
    let quoted_rc_path = shell_quote(&rc_path)?;
    let quoted_target_path = shell_quote(target_path)?;
    Ok(
        ActivationReport {
            mode: ActivationMode::ManagedRcBlock,
            availability: if wired {
                Availability::AvailableAfterSource
            } else {
                Availability::ManualActionRequired
            },
            location: Some(rc_path),
            reason: Some(
                if wired {
                    text::copy("Managed Bash activation block is present in ~/.bashrc.")
                } else {
                    text::copy(
                        "Completion file exists, but the managed Bash activation block was not found.",
                    )
                },
            ),
            next_step: Some(
                if wired {
                    text::concat3(
                        "Run `source ",
                        &quoted_rc_path,
                        "` or start a new Bash session.",
                    )
                } else {
                    text::concat5(
                        "Re-run installation or source ",
                        &quoted_target_path,
                        " from ",
                        &quoted_rc_path,
                        " manually.",
                    )
                },
            ),
        },
    )
}

/// Replaces legacy blocks in `~/.bashrc` by the library's block.
pub fn migrate(
    env: &Environment,
    disk: &mut Disk,
    program_name: &str,
    target_path: &FilePath,
    legacy_blocks: &Vec<LegacyManagedBlock>,
) -> (r: Result<MigrationOutcome, Error>)
    ensures
        (final(disk)@, migration_result(r)) == block_migration(
            env@.platform,
            old(disk)@,
            bashrc(env@),
            bash_block(program_name@, target_path@),
            legacy_views(legacy_blocks@),
        ),
{
    let rc_path = bashrc_path(env)?;
    let block = bash_managed_block(program_name, target_path)?;
    migrate_profile_blocks(env.platform, disk, rc_path, legacy_blocks, &block)
}

} // verus!

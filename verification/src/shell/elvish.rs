//! Elvish: a block in `rc.elv`.
use vstd::prelude::*;

use crate::disk::{Disk, DiskView};
use crate::environment::{Environment, EnvironmentView};
use crate::error::{Error, ErrorView};
use crate::fs::{file_exists, file_exists_view};
use crate::managed_block;
use crate::managed_block::{block_matches, BlockView, ManagedBlock};
use crate::model::{
    ActivationMode, ActivationReport, ActivationView, Availability, CleanupReport, CleanupView,
    FileChange, LegacyManagedBlock,
};
use crate::path::{shown, FilePath};
use crate::paths::{rc_elv, rc_elv_path};
use crate::shell::bash::{not_installed, not_installed_text};
use crate::shell::quoting::{doubly_quoted, elvish_quote};
use crate::shell::wiring::{
    activation_result, block_cleanup, block_install, block_migration, block_result, cleanup_result,
    end_marker, end_marker_of, legacy_views, migrate_profile_blocks, migration_result, one,
    report_result, start_marker, start_marker_of, ActivationOutcome, ActivationOutcomeView,
    CleanupOutcome, CleanupOutcomeView, MigrationOutcome,
};
use crate::text;

verus! {

/// The block that loads a completion file.
pub open spec fn elvish_block(name: Seq<char>, target: Seq<u8>) -> Result<BlockView, ErrorView> {
    match doubly_quoted(target) {
        Err(error) => Err(error),
        Ok(quoted) => Ok(
            BlockView {
                start_marker: start_marker("elvish"@, name),
                end_marker: end_marker("elvish"@, name),
                body: "use os\nif (os:exists "@ + quoted + ") {\n  eval (slurp < "@ + quoted + ")\n}"@,
            },
        ),
    }
}

/// The block that loads a completion in Elvish.
pub fn elvish_managed_block(program_name: &str, target_path: &FilePath) -> (r: Result<
    ManagedBlock,
    Error,
>)
    ensures
        block_result(r) == elvish_block(program_name@, target_path@),
{
    let quoted = elvish_quote(target_path)?;
    Ok(
        ManagedBlock {
            start_marker: start_marker_of("elvish", program_name),
            end_marker: end_marker_of("elvish", program_name),
            body: text::concat5(
                "use os\nif (os:exists ",
                &quoted,
                ") {\n  eval (slurp < ",
                &quoted,
                ")\n}",
            ),
        },
    )
}

pub open spec fn elvish_load_step(quoted: Seq<char>) -> Seq<char> {
    "Start a new Elvish session or run `eval (slurp < "@ + quoted + ")`."@
}

pub open spec fn elvish_block_report(profile: Seq<u8>) -> Result<ActivationView, ErrorView> {
    match doubly_quoted(profile) {
        Err(error) => Err(error),
        Ok(quoted) => Ok(
            ActivationView {
                mode: ActivationMode::ManagedRcBlock,
                availability: Availability::AvailableAfterNewShell,
                location: Some(profile),
                reason: Some(
                    "shellcomp added a managed block to rc.elv."@,
                ),
                next_step: Some(elvish_load_step(quoted)),
            },
        ),
    }
}

/// What arranging the activation of a completion leaves and returns.
pub open spec fn elvish_installed(
    e: EnvironmentView,
    d: DiskView,
    name: Seq<char>,
    target: Seq<u8>,
) -> (DiskView, Result<ActivationOutcomeView, ErrorView>) {
    block_install(
        e.platform,
        d,
        rc_elv(e),
        elvish_block(name, target),
        |path: Seq<u8>| elvish_block_report(path),
    )
}

/// Arranges the activation of a completion that was installed.
pub fn install(env: &Environment, disk: &mut Disk, program_name: &str, target_path: &FilePath) -> (r:
    Result<ActivationOutcome, Error>)
    ensures
        (final(disk)@, activation_result(r)) == elvish_installed(
            env@,
            old(disk)@,
            program_name@,
            target_path@,
        ),
{
    let profile_path = rc_elv_path(env)?;
    let block = elvish_managed_block(program_name, target_path)?;
    managed_block::upsert(env.platform, disk, &profile_path, &block)?;
    let quoted = elvish_quote(&profile_path)?;
    Ok(
        ActivationOutcome {
            report: ActivationReport {
                mode: ActivationMode::ManagedRcBlock,
                availability: Availability::AvailableAfterNewShell,
                location: Some(profile_path.copy()),
                reason: Some(
                    text::copy(
                        "shellcomp added a managed block to rc.elv.",
                    ),
                ),
                next_step: Some(
                    text::concat3(
                        "Start a new Elvish session or run `eval (slurp < ",
                        &quoted,
                        ")`.",
                    ),
                ),
            },
            affected_locations: one(profile_path),
        },
    )
}

pub open spec fn elvish_cleanup_outcome(profile: Seq<u8>, change: FileChange) -> CleanupOutcomeView {
    CleanupOutcomeView {
        cleanup: CleanupView {
            mode: ActivationMode::ManagedRcBlock,
            change,
            location: Some(profile),
            reason: Some(
                match change {
                    FileChange::Removed => "Removed the managed Elvish activation block from rc.elv."@,
                    FileChange::Absent => "No managed Elvish activation block was present in rc.elv."@,
                    _ => "Elvish activation cleanup completed."@,
                },
            ),
            next_step: None,
        },
        affected_locations: seq![profile],
    }
}

/// What taking the activation of a completion back leaves and returns.
pub open spec fn elvish_uninstalled(
    e: EnvironmentView,
    d: DiskView,
    name: Seq<char>,
    target: Seq<u8>,
) -> (DiskView, Result<CleanupOutcomeView, ErrorView>) {
    block_cleanup(
        e.platform,
        d,
        rc_elv(e),
        elvish_block(name, target),
        |path: Seq<u8>, change: FileChange| elvish_cleanup_outcome(path, change),
    )
}

/// Takes the activation of a completion back.
pub fn uninstall(env: &Environment, disk: &mut Disk, program_name: &str, target_path: &FilePath) -> (r:
    Result<CleanupOutcome, Error>)
    ensures
        (final(disk)@, cleanup_result(r)) == elvish_uninstalled(
            env@,
            old(disk)@,
            program_name@,
            target_path@,
        ),
{
    let profile_path = rc_elv_path(env)?;
    let block = elvish_managed_block(program_name, target_path)?;
    let change = managed_block::remove(env.platform, disk, &profile_path, &block)?;
    Ok(
        CleanupOutcome {
            cleanup: CleanupReport {
                mode: ActivationMode::ManagedRcBlock,
                change,
                location: Some(profile_path.copy()),
                reason: Some(
                    match change {
                        FileChange::Removed => text::copy(
                            "Removed the managed Elvish activation block from rc.elv.",
                        ),
                        FileChange::Absent => text::copy(
                            "No managed Elvish activation block was present in rc.elv.",
                        ),
                        _ => text::copy("Elvish activation cleanup completed."),
                    },
                ),
                next_step: None,
            },
            affected_locations: one(profile_path),
        },
    )
}

/// What to do about a completion, given what was found out about it.
pub open spec fn elvish_next_step(
    profile: Seq<u8>,
    target: Seq<u8>,
    wired: bool,
    installed: bool,
) -> Result<Seq<char>, ErrorView> {
    if !installed {
        Ok(
            "Run your CLI's completion install command or reinstall the Elvish completion script."@,
        )
    } else if wired {
        match doubly_quoted(profile) {
            Ok(quoted) => Ok(elvish_load_step(quoted)),
            Err(error) => Err(error),
        }
    } else {
        match doubly_quoted(target) {
            Ok(quoted) => Ok(
                "Re-run installation, or add `eval (slurp < "@ + quoted
                    + ")` to your Elvish rc.elv manually."@,
            ),
            Err(error) => Err(error),
        }
    }
}

/// The report on a completion, given what was found out about it.
pub open spec fn elvish_state(
    profile: Seq<u8>,
    target: Seq<u8>,
    wired: bool,
    installed: bool,
    next_step: Seq<char>,
) -> ActivationView {
    ActivationView {
        mode: ActivationMode::ManagedRcBlock,
        availability: if installed && wired {
            Availability::AvailableAfterNewShell
        } else {
            Availability::ManualActionRequired
        },
        location: Some(
            if installed || wired {
                profile
            } else {
                target
            },
        ),
        reason: Some(
            match (installed, wired) {
                (false, true) => "Managed Elvish activation block is present in rc.elv, but completion file `"@
                    + shown(target) + "` is not installed."@,
                (false, false) => not_installed(target),
                (true, true) => "Managed Elvish activation block is present in rc.elv."@,
                (true, false) => "Completion file exists, but the managed Elvish activation block was not found."@,
            },
        ),
        next_step: Some(next_step),
    }
}

/// How a completion comes to be loaded.
pub open spec fn elvish_detected(
    e: EnvironmentView,
    d: DiskView,
    name: Seq<char>,
    target: Seq<u8>,
) -> Result<ActivationView, ErrorView> {
    match (file_exists_view(d, target), rc_elv(e), elvish_block(name, target)) {
        (Err(error), _, _) => Err(error),
        (Ok(_), Err(error), _) => Err(error),
        (Ok(_), Ok(_), Err(error)) => Err(error),
        (Ok(installed), Ok(profile), Ok(block)) => match block_matches(
            e.platform,
            d,
            profile,
            block,
        ) {
            Err(error) => Err(error),
            Ok(wired) => match elvish_next_step(profile, target, wired, installed) {
                Err(error) => Err(error),
                Ok(next_step) => Ok(elvish_state(profile, target, wired, installed, next_step)),
            },
        },
    }
}

/// Finds out how a completion comes to be loaded.
pub fn detect(env: &Environment, disk: &Disk, program_name: &str, target_path: &FilePath) -> (r:
    Result<ActivationReport, Error>)
    ensures
        report_result(r) == elvish_detected(env@, disk@, program_name@, target_path@),
{
    let installed = file_exists(disk, target_path)?;
    let profile_path = rc_elv_path(env)?;
    let block = elvish_managed_block(program_name, target_path)?;
    let wired = managed_block::matches(env.platform, disk, &profile_path, &block)?;
    let next_step = if !installed {
        text::copy(
            "Run your CLI's completion install command or reinstall the Elvish completion script.",
        )
    } else if wired {
        let quoted = elvish_quote(&profile_path)?;
        text::concat3(
            "Start a new Elvish session or run `eval (slurp < ",
            &quoted,
            ")`.",
        )
    } else {
        let quoted = elvish_quote(target_path)?;
        text::concat3(
            "Re-run installation, or add `eval (slurp < ",
            &quoted,
            ")` to your Elvish rc.elv manually.",
        )
    };
    Ok(
        ActivationReport {
            mode: ActivationMode::ManagedRcBlock,
            availability: if installed && wired {
                Availability::AvailableAfterNewShell
            } else {
                Availability::ManualActionRequired
            },
            location: Some(
                if installed || wired {
                    profile_path
                } else {
                    target_path.copy()
                },
            ),
            reason: Some(
                if !installed && wired {
                    text::concat3(
                        "Managed Elvish activation block is present in rc.elv, but completion file `",
                        &target_path.display(),
                        "` is not installed.",
                    )
                } else if !installed {
                    not_installed_text(target_path)
                } else if wired {
                    text::copy(
                        "Managed Elvish activation block is present in rc.elv.",
                    )
                } else {
                    text::copy(
                        "Completion file exists, but the managed Elvish activation block was not found.",
                    )
                },
            ),
            next_step: Some(next_step),
        },
    )
}

/// Replaces legacy blocks in `rc.elv` by the library's block.
pub fn migrate(
    env: &Environment,
    disk: &mut Disk,
    program_name: &str,
    target_path: &FilePath,
    legacy_blocks: &Vec<LegacyManagedBlock>,
) -> (r: Result<MigrationOutcome, Error>)
    ensures
        (final(disk)@, migration_result(r)) == block_migration(
            env@.platform,
            old(disk)@,
            rc_elv(env@),
            elvish_block(program_name@, target_path@),
            legacy_views(legacy_blocks@),
        ),
{
    let profile_path = rc_elv_path(env)?;
    let block = elvish_managed_block(program_name, target_path)?;
    migrate_profile_blocks(env.platform, disk, profile_path, legacy_blocks, &block)
}

} // verus!

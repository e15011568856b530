//! PowerShell: a block in the profile of the current user for all hosts.
use vstd::prelude::*;

use crate::disk::{Disk, DiskView};
use crate::environment::{powershell_profile, Environment, EnvironmentView};
use crate::error::{Error, ErrorView};
use crate::fs::{file_exists, file_exists_view};
use crate::managed_block;
use crate::managed_block::{block_matches, BlockView, ManagedBlock};
use crate::model::{
    ActivationMode, ActivationReport, ActivationView, Availability, CleanupReport, CleanupView,
    FileChange, LegacyManagedBlock,
};
use crate::path::{shown, FilePath};
use crate::shell::bash::{not_installed, not_installed_text};
use crate::shell::quoting::{doubly_quoted, powershell_quote};
use crate::shell::wiring::{
    activation_result, block_cleanup, block_install, block_migration, block_result, cleanup_result,
    end_marker, end_marker_of, legacy_views, migrate_profile_blocks, migration_result, one,
    report_result, start_marker, start_marker_of, ActivationOutcome, ActivationOutcomeView,
    CleanupOutcome, CleanupOutcomeView, MigrationOutcome,
};
use crate::text;

verus! {

/// The block that loads a completion file.
pub open spec fn powershell_block(name: Seq<char>, target: Seq<u8>) -> Result<BlockView, ErrorView> {
    match doubly_quoted(target) {
        Err(error) => Err(error),
        Ok(quoted) => Ok(
            BlockView {
                start_marker: start_marker("powershell"@, name),
                end_marker: end_marker("powershell"@, name),
                body: "if (Test-Path -LiteralPath "@ + quoted + " -PathType Leaf) {\n  . "@ + quoted + "\n}"@,
            },
        ),
    }
}

/// The block that loads a completion in PowerShell.
pub fn powershell_managed_block(program_name: &str, target_path: &FilePath) -> (r: Result<
    ManagedBlock,
    Error,
>)
    ensures
        block_result(r) == powershell_block(program_name@, target_path@),
{
    let quoted = powershell_quote(target_path)?;
    Ok(
        ManagedBlock {
            start_marker: start_marker_of("powershell", program_name),
            end_marker: end_marker_of("powershell", program_name),
            body: text::concat5(
                "if (Test-Path -LiteralPath ",
                &quoted,
                " -PathType Leaf) {\n  . ",
                &quoted,
                "\n}",
            ),
        },
    )
}

pub open spec fn powershell_load_step(quoted: Seq<char>) -> Seq<char> {
    "Start a new PowerShell session or run `. "@ + quoted + "`."@
}

pub open spec fn powershell_block_report(profile: Seq<u8>) -> Result<ActivationView, ErrorView> {
    match doubly_quoted(profile) {
        Err(error) => Err(error),
        Ok(quoted) => Ok(
            ActivationView {
                mode: ActivationMode::ManagedRcBlock,
                availability: Availability::AvailableAfterNewShell,
                location: Some(profile),
                reason: Some(
                    "shellcomp added a managed block to the PowerShell CurrentUserAllHosts profile."@,
                ),
                next_step: Some(powershell_load_step(quoted)),
            },
        ),
    }
}

/// What arranging the activation of a completion leaves and returns.
pub open spec fn powershell_installed(
    e: EnvironmentView,
    d: DiskView,
    name: Seq<char>,
    target: Seq<u8>,
) -> (DiskView, Result<ActivationOutcomeView, ErrorView>) {
    block_install(
        e.platform,
        d,
        powershell_profile(e),
        powershell_block(name, target),
        |path: Seq<u8>| powershell_block_report(path),
    )
}

/// Arranges the activation of a completion that was installed.
pub fn install(env: &Environment, disk: &mut Disk, program_name: &str, target_path: &FilePath) -> (r:
    Result<ActivationOutcome, Error>)
    ensures
        (final(disk)@, activation_result(r)) == powershell_installed(
            env@,
            old(disk)@,
            program_name@,
            target_path@,
        ),
{
    let profile_path = env.powershell_profile_path()?;
    let block = powershell_managed_block(program_name, target_path)?;
    managed_block::upsert(env.platform, disk, &profile_path, &block)?;
    let quoted = powershell_quote(&profile_path)?;
    Ok(
        ActivationOutcome {
            report: ActivationReport {
                mode: ActivationMode::ManagedRcBlock,
                availability: Availability::AvailableAfterNewShell,
                location: Some(profile_path.copy()),
                reason: Some(
                    text::copy(
                        "shellcomp added a managed block to the PowerShell CurrentUserAllHosts profile.",
                    ),
                ),
                next_step: Some(
                    text::concat3(
                        "Start a new PowerShell session or run `. ",
                        &quoted,
                        "`.",
                    ),
                ),
            },
            affected_locations: one(profile_path),
        },
    )
}

pub open spec fn powershell_cleanup_outcome(profile: Seq<u8>, change: FileChange) -> CleanupOutcomeView {
    CleanupOutcomeView {
        cleanup: CleanupView {
            mode: ActivationMode::ManagedRcBlock,
            change,
            location: Some(profile),
            reason: Some(
                match change {
                    FileChange::Removed => "Removed the managed PowerShell activation block from the CurrentUserAllHosts profile."@,
                    FileChange::Absent => "No managed PowerShell activation block was present in the CurrentUserAllHosts profile."@,
                    _ => "PowerShell activation cleanup completed."@,
                },
            ),
            next_step: None,
        },
        affected_locations: seq![profile],
    }
}

/// What taking the activation of a completion back leaves and returns.
pub open spec fn powershell_uninstalled(
    e: EnvironmentView,
    d: DiskView,
    name: Seq<char>,
    target: Seq<u8>,
) -> (DiskView, Result<CleanupOutcomeView, ErrorView>) {
    block_cleanup(
        e.platform,
        d,
        powershell_profile(e),
        powershell_block(name, target),
        |path: Seq<u8>, change: FileChange| powershell_cleanup_outcome(path, change),
    )
}

/// Takes the activation of a completion back.
pub fn uninstall(env: &Environment, disk: &mut Disk, program_name: &str, target_path: &FilePath) -> (r:
    Result<CleanupOutcome, Error>)
    ensures
        (final(disk)@, cleanup_result(r)) == powershell_uninstalled(
            env@,
            old(disk)@,
            program_name@,
            target_path@,
        ),
{
    let profile_path = env.powershell_profile_path()?;
    let block = powershell_managed_block(program_name, target_path)?;
    let change = managed_block::remove(env.platform, disk, &profile_path, &block)?;
    Ok(
        CleanupOutcome {
            cleanup: CleanupReport {
                mode: ActivationMode::ManagedRcBlock,
                change,
                location: Some(profile_path.copy()),
                reason: Some(
                    match change {
                        FileChange::Removed => text::copy(
                            "Removed the managed PowerShell activation block from the CurrentUserAllHosts profile.",
                        ),
                        FileChange::Absent => text::copy(
                            "No managed PowerShell activation block was present in the CurrentUserAllHosts profile.",
                        ),
                        _ => text::copy("PowerShell activation cleanup completed."),
                    },
                ),
                next_step: None,
            },
            affected_locations: one(profile_path),
        },
    )
}

/// What to do about a completion, given what was found out about it.
pub open spec fn powershell_next_step(
    profile: Seq<u8>,
    target: Seq<u8>,
    wired: bool,
    installed: bool,
) -> Result<Seq<char>, ErrorView> {
    if !installed {
        Ok(
            "Run your CLI's completion install command or reinstall the PowerShell completion script."@,
        )
    } else if wired {
        match doubly_quoted(profile) {
            Ok(quoted) => Ok(powershell_load_step(quoted)),
            Err(error) => Err(error),
        }
    } else {
        match doubly_quoted(target) {
            Ok(quoted) => Ok(
                "Re-run installation, or add `. "@ + quoted
                    + "` to `$PROFILE.CurrentUserAllHosts` manually."@,
            ),
            Err(error) => Err(error),
        }
    }
}

/// The report on a completion, given what was found out about it.
pub open spec fn powershell_state(
    profile: Seq<u8>,
    target: Seq<u8>,
    wired: bool,
    installed: bool,
    next_step: Seq<char>,
) -> ActivationView {
    ActivationView {
        mode: ActivationMode::ManagedRcBlock,
        availability: if installed && wired {
            Availability::AvailableAfterNewShell
        } else {
            Availability::ManualActionRequired
        },
        location: Some(
            if installed || wired {
                profile
            } else {
                target
            },
        ),
        reason: Some(
            match (installed, wired) {
                (false, true) => "Managed PowerShell activation block is present in the CurrentUserAllHosts profile, but completion file `"@
                    + shown(target) + "` is not installed."@,
                (false, false) => not_installed(target),
                (true, true) => "Managed PowerShell activation block is present in the CurrentUserAllHosts profile."@,
                (true, false) => "Completion file exists, but the managed PowerShell activation block was not found."@,
            },
        ),
        next_step: Some(next_step),
    }
}

/// How a completion comes to be loaded.
pub open spec fn powershell_detected(
    e: EnvironmentView,
    d: DiskView,
    name: Seq<char>,
    target: Seq<u8>,
) -> Result<ActivationView, ErrorView> {
    match (file_exists_view(d, target), powershell_profile(e), powershell_block(name, target)) {
        (Err(error), _, _) => Err(error),
        (Ok(_), Err(error), _) => Err(error),
        (Ok(_), Ok(_), Err(error)) => Err(error),
        (Ok(installed), Ok(profile), Ok(block)) => match block_matches(
            e.platform,
            d,
            profile,
            block,
        ) {
            Err(error) => Err(error),
            Ok(wired) => match powershell_next_step(profile, target, wired, installed) {
                Err(error) => Err(error),
                Ok(next_step) => Ok(powershell_state(profile, target, wired, installed, next_step)),
            },
        },
    }
}

/// Finds out how a completion comes to be loaded.
pub fn detect(env: &Environment, disk: &Disk, program_name: &str, target_path: &FilePath) -> (r:
    Result<ActivationReport, Error>)
    ensures
        report_result(r) == powershell_detected(env@, disk@, program_name@, target_path@),
{
    let installed = file_exists(disk, target_path)?;
    let profile_path = env.powershell_profile_path()?;
    let block = powershell_managed_block(program_name, target_path)?;
    let wired = managed_block::matches(env.platform, disk, &profile_path, &block)?;
    let next_step = if !installed {
        text::copy(
            "Run your CLI's completion install command or reinstall the PowerShell completion script.",
        )
    } else if wired {
        let quoted = powershell_quote(&profile_path)?;
        text::concat3(
            "Start a new PowerShell session or run `. ",
            &quoted,
            "`.",
        )
    } else {
        let quoted = powershell_quote(target_path)?;
        text::concat3(
            "Re-run installation, or add `. ",
            &quoted,
            "` to `$PROFILE.CurrentUserAllHosts` manually.",
        )
    };
    Ok(
        ActivationReport {
            mode: ActivationMode::ManagedRcBlock,
            availability: if installed && wired {
                Availability::AvailableAfterNewShell
            } else {
                Availability::ManualActionRequired
            },
            location: Some(
                if installed || wired {
                    profile_path
                } else {
                    target_path.copy()
                },
            ),
            reason: Some(
                if !installed && wired {
                    text::concat3(
                        "Managed PowerShell activation block is present in the CurrentUserAllHosts profile, but completion file `",
                        &target_path.display(),
                        "` is not installed.",
                    )
                } else if !installed {
                    not_installed_text(target_path)
                } else if wired {
                    text::copy(
                        "Managed PowerShell activation block is present in the CurrentUserAllHosts profile.",
                    )
                } else {
                    text::copy(
                        "Completion file exists, but the managed PowerShell activation block was not found.",
                    )
                },
            ),
            next_step: Some(next_step),
        },
    )
}

/// Replaces legacy blocks in the profile by the library's block.
pub fn migrate(
    env: &Environment,
    disk: &mut Disk,
    program_name: &str,
    target_path: &FilePath,
    legacy_blocks: &Vec<LegacyManagedBlock>,
) -> (r: Result<MigrationOutcome, Error>)
    ensures
        (final(disk)@, migration_result(r)) == block_migration(
            env@.platform,
            old(disk)@,
            powershell_profile(env@),
            powershell_block(program_name@, target_path@),
            legacy_views(legacy_blocks@),
        ),
{
    let profile_path = env.powershell_profile_path()?;
    let block = powershell_managed_block(program_name, target_path)?;
    migrate_profile_blocks(env.platform, disk, profile_path, legacy_blocks, &block)
}

} // verus!

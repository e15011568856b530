//! One entry for what all shells offer.
use vstd::prelude::*;

use crate::disk::{Disk, DiskView};
use crate::environment::{powershell_profile, Environment, EnvironmentView};
use crate::error::{Error, ErrorView};
use crate::managed_block::BlockView;
use crate::model::{
    ActivationReport, ActivationView, FileChange, LegacyManagedBlock, Shell, ShellView,
};
use crate::path::FilePath;
use crate::paths::{bashrc, rc_elv, zshrc};
use crate::shell::bash;
use crate::shell::elvish;
use crate::shell::fish;
use crate::shell::powershell;
use crate::shell::wiring::{
    activation_result, block_migration, cleanup_result, legacy_views, migration_result, none,
    report_result, ActivationOutcome, ActivationOutcomeView, CleanupOutcome, CleanupOutcomeView,
    MigrationOutcome, MigrationOutcomeView,
};
use crate::shell::zsh;

verus! {

/// What arranging the activation of a completion leaves and returns.
pub open spec fn activated(
    e: EnvironmentView,
    d: DiskView,
    shell: ShellView,
    name: Seq<char>,
    target: Seq<u8>,
) -> (DiskView, Result<ActivationOutcomeView, ErrorView>) {
    match shell {
        ShellView::Bash => bash::bash_installed(e, d, name, target),
        ShellView::Zsh => zsh::zsh_installed(e, d, name, target),
        ShellView::Fish => (d, Ok(fish::fish_installed(target))),
        ShellView::Powershell => powershell::powershell_installed(e, d, name, target),
        ShellView::Elvish => elvish::elvish_installed(e, d, name, target),
        ShellView::Other(_) => (d, Err(ErrorView::UnsupportedShell { shell })),
    }
}

/// What taking the activation of a completion back leaves and returns.
pub open spec fn deactivated(
    e: EnvironmentView,
    d: DiskView,
    shell: ShellView,
    name: Seq<char>,
    target: Seq<u8>,
) -> (DiskView, Result<CleanupOutcomeView, ErrorView>) {
    match shell {
        ShellView::Bash => bash::bash_uninstalled(e, d, name, target),
        ShellView::Zsh => zsh::zsh_uninstalled(e, d, name, target),
        ShellView::Fish => (d, Ok(fish::fish_uninstalled())),
        ShellView::Powershell => powershell::powershell_uninstalled(e, d, name, target),
        ShellView::Elvish => elvish::elvish_uninstalled(e, d, name, target),
        ShellView::Other(_) => (d, Err(ErrorView::UnsupportedShell { shell })),
    }
}

/// How a completion comes to be loaded.
pub open spec fn detected(
    e: EnvironmentView,
    d: DiskView,
    shell: ShellView,
    name: Seq<char>,
    target: Seq<u8>,
) -> Result<ActivationView, ErrorView> {
    match shell {
        ShellView::Bash => bash::bash_detected(e, d, name, target),
        ShellView::Zsh => zsh::zsh_detected(e, d, name, target),
        ShellView::Fish => fish::fish_detected(d, target),
        ShellView::Powershell => powershell::powershell_detected(e, d, name, target),
        ShellView::Elvish => elvish::elvish_detected(e, d, name, target),
        ShellView::Other(_) => Err(ErrorView::UnsupportedShell { shell }),
    }
}

/// What replacing legacy blocks by the library's block leaves and returns. Fish has no startup
/// file to migrate.
pub open spec fn migrated(
    e: EnvironmentView,
    d: DiskView,
    shell: ShellView,
    name: Seq<char>,
    target: Seq<u8>,
    legacy: Seq<BlockView>,
) -> (DiskView, Result<MigrationOutcomeView, ErrorView>) {
    match shell {
        ShellView::Bash => block_migration(
            e.platform,
            d,
            bashrc(e),
            bash::bash_block(name, target),
            legacy,
        ),
        ShellView::Zsh => block_migration(
            e.platform,
            d,
            zshrc(e),
            zsh::zsh_block(name, target),
            legacy,
        ),
        ShellView::Fish => (
            d,
            Ok(
                MigrationOutcomeView {
                    location: None,
                    managed_change: FileChange::Absent,
                    legacy_change: FileChange::Absent,
                    affected_locations: Seq::empty(),
                },
            ),
        ),
        ShellView::Powershell => block_migration(
            e.platform,
            d,
            powershell_profile(e),
            powershell::powershell_block(name, target),
            legacy,
        ),
        ShellView::Elvish => block_migration(
            e.platform,
            d,
            rc_elv(e),
            elvish::elvish_block(name, target),
            legacy,
        ),
        ShellView::Other(_) => (d, Err(ErrorView::UnsupportedShell { shell })),
    }
}

/// Arranges the activation of a completion that was installed.
pub fn install_default(
    env: &Environment,
    disk: &mut Disk,
    shell: &Shell,
    program_name: &str,
    target_path: &FilePath,
) -> (r: Result<ActivationOutcome, Error>)
    ensures
        (final(disk)@, activation_result(r)) == activated(
            env@,
            old(disk)@,
            shell@,
            program_name@,
            target_path@,
        ),
{
    match shell {
        Shell::Bash => bash::install(env, disk, program_name, target_path),
        Shell::Zsh => zsh::install(env, disk, program_name, target_path),
        Shell::Fish => Ok(fish::install(target_path)),
        Shell::Powershell => powershell::install(env, disk, program_name, target_path),
        Shell::Elvish => elvish::install(env, disk, program_name, target_path),
        Shell::Other(_) => Err(Error::UnsupportedShell(shell.copy())),
    }
}

/// Takes the activation of a completion back.
pub fn uninstall_default(
    env: &Environment,
    disk: &mut Disk,
    shell: &Shell,
    program_name: &str,
    target_path: &FilePath,
) -> (r: Result<CleanupOutcome, Error>)
    ensures
        (final(disk)@, cleanup_result(r)) == deactivated(
            env@,
            old(disk)@,
            shell@,
            program_name@,
            target_path@,
        ),
{
    match shell {
        Shell::Bash => bash::uninstall(env, disk, program_name, target_path),
        Shell::Zsh => zsh::uninstall(env, disk, program_name, target_path),
        Shell::Fish => Ok(fish::uninstall()),
        Shell::Powershell => powershell::uninstall(env, disk, program_name, target_path),
        Shell::Elvish => elvish::uninstall(env, disk, program_name, target_path),
        Shell::Other(_) => Err(Error::UnsupportedShell(shell.copy())),
    }
}

/// Finds out how a completion comes to be loaded.
pub fn detect_default(
    env: &Environment,
    disk: &Disk,
    shell: &Shell,
    program_name: &str,
    target_path: &FilePath,
) -> (r: Result<ActivationReport, Error>)
    ensures
        report_result(r) == detected(env@, disk@, shell@, program_name@, target_path@),
{
    match shell {
        Shell::Bash => bash::detect(env, disk, program_name, target_path),
        Shell::Zsh => zsh::detect(env, disk, program_name, target_path),
        Shell::Fish => fish::detect(disk, target_path),
        Shell::Powershell => powershell::detect(env, disk, program_name, target_path),
        Shell::Elvish => elvish::detect(env, disk, program_name, target_path),
        Shell::Other(_) => Err(Error::UnsupportedShell(shell.copy())),
    }
}

/// Replaces legacy blocks of a startup file by the library's block.
pub fn migrate_managed_blocks(
    env: &Environment,
    disk: &mut Disk,
    shell: &Shell,
    program_name: &str,
    target_path: &FilePath,
    legacy_blocks: &Vec<LegacyManagedBlock>,
) -> (r: Result<MigrationOutcome, Error>)
    ensures
        (final(disk)@, migration_result(r)) == migrated(
            env@,
            old(disk)@,
            shell@,
            program_name@,
            target_path@,
            legacy_views(legacy_blocks@),
        ),
{
    match shell {
        Shell::Bash => bash::migrate(env, disk, program_name, target_path, legacy_blocks),
        Shell::Zsh => zsh::migrate(env, disk, program_name, target_path, legacy_blocks),
        Shell::Fish => Ok(
            MigrationOutcome {
                location: None,
                managed_change: FileChange::Absent,
                legacy_change: FileChange::Absent,
                affected_locations: none(),
            },
        ),
        Shell::Powershell => powershell::migrate(
            env,
            disk,
            program_name,
            target_path,
            legacy_blocks,
        ),
        Shell::Elvish => elvish::migrate(env, disk, program_name, target_path, legacy_blocks),
        Shell::Other(_) => Err(Error::UnsupportedShell(shell.copy())),
    }
}

} // verus!

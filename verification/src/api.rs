//! The operations as callers see them.
use vstd::prelude::*;

use crate::disk::Disk;
use crate::environment::{path_result, Environment};
use crate::error::Error;
use crate::model::{
    ActivationPolicy, ActivationReport, InstallReport, InstallRequest, MigrateManagedBlocksReport,
    MigrateManagedBlocksRequest, RemoveReport, Shell, UninstallRequest,
};
use crate::path::FilePath;
use crate::service::common::{default_target, resolve_default_target_path};
use crate::service::detect;
use crate::service::detect::{detection, detection_at};
use crate::service::install as installing;
use crate::service::install::{install_query, install_result, installed, installed_by_default};
use crate::service::migrate;
use crate::service::migrate::{migrate_query, migrate_result, migration};
use crate::service::uninstall as uninstalling;
use crate::service::uninstall::{remove_result, uninstall_view, uninstalled, uninstalled_by_default};
use crate::shell::wiring::report_result;

verus! {

/// The managed default location of the completion of a program:
///
/// - Bash: `$XDG_DATA_HOME/bash-completion/completions/<program>`
/// - Zsh: `$ZDOTDIR/.zfunc/_<program>`
/// - Fish: `$XDG_CONFIG_HOME/fish/completions/<program>.fish`
/// - PowerShell: `$XDG_DATA_HOME/powershell/completions/<program>.ps1`, on Windows
///   `%USERPROFILE%/Documents/PowerShell/Completions/<program>.ps1`
/// - Elvish: `$XDG_CONFIG_HOME/elvish/lib/shellcomp/<program>.elv`
///
/// `XDG_DATA_HOME` and `XDG_CONFIG_HOME` count only where they hold absolute paths.
pub fn default_install_path(env: &Environment, shell: Shell, program_name: &str) -> (r: Result<
    FilePath,
    Error,
>)
    ensures
        path_result(r) == default_target(env@, shell@, program_name@),
{
    resolve_default_target_path(env, &shell, program_name)
}

/// Installs a completion script.
///
/// Without `path_override` the script goes to the managed default location, and activation is
/// arranged. A custom path is left to the user to activate, unless it is the default location.
/// To install the same script again changes nothing.
pub fn install(env: &Environment, disk: &mut Disk, request: InstallRequest<'_>, trace_id: u64) -> (r:
    Result<InstallReport, Error>)
    ensures
        (final(disk)@, install_result(r)) == installed_by_default(
            env@,
            old(disk)@,
            installing::on_platform(env@.platform, install_query(request, trace_id)),
        ),
{
    installing::execute(env, disk, request, trace_id)
}

/// Installs a completion script and arranges activation as the policy says.
pub fn install_with_policy(
    env: &Environment,
    disk: &mut Disk,
    request: InstallRequest<'_>,
    activation_policy: ActivationPolicy,
    trace_id: u64,
) -> (r: Result<InstallReport, Error>)
    ensures
        (final(disk)@, install_result(r)) == installed(
            env@,
            old(disk)@,
            installing::on_platform(env@.platform, install_query(request, trace_id)),
            activation_policy,
        ),
{
    installing::execute_with_policy(env, disk, request, activation_policy, trace_id)
}

/// Removes a completion script and the activation that was arranged for it.
///
/// At a custom path only the file is removed, unless the path is the default location. To
/// remove a script that is not there is no error.
pub fn uninstall(env: &Environment, disk: &mut Disk, request: UninstallRequest<'_>, trace_id: u64) -> (r:
    Result<RemoveReport, Error>)
    ensures
        (final(disk)@, remove_result(r)) == uninstalled_by_default(
            env@,
            old(disk)@,
            uninstalling::on_platform(env@.platform, uninstall_view(request, trace_id)),
        ),
{
    uninstalling::execute(env, disk, request, trace_id)
}

/// Removes a completion script and takes activation back as the policy says.
pub fn uninstall_with_policy(
    env: &Environment,
    disk: &mut Disk,
    request: UninstallRequest<'_>,
    activation_policy: ActivationPolicy,
    trace_id: u64,
) -> (r: Result<RemoveReport, Error>)
    ensures
        (final(disk)@, remove_result(r)) == uninstalled(
            env@,
            old(disk)@,
            uninstalling::on_platform(env@.platform, uninstall_view(request, trace_id)),
            activation_policy,
        ),
{
    uninstalling::execute_with_policy(env, disk, request, activation_policy, trace_id)
}

/// Finds out how the completion at the managed default location comes to be loaded.
pub fn detect_activation(
    env: &Environment,
    disk: &Disk,
    shell: Shell,
    program_name: &str,
    trace_id: u64,
) -> (r: Result<ActivationReport, Error>)
    ensures
        report_result(r) == detection(env@, disk@, shell@, program_name@, trace_id),
{
    detect::execute(env, disk, &shell, program_name, trace_id)
}

/// Finds out how the completion at a given path comes to be loaded.
pub fn detect_activation_at_path(
    env: &Environment,
    disk: &Disk,
    shell: Shell,
    program_name: &str,
    target_path: &FilePath,
    trace_id: u64,
) -> (r: Result<ActivationReport, Error>)
    ensures
        report_result(r) == detection_at(
            env@,
            disk@,
            shell@,
            program_name@,
            crate::path::on(env@.platform, target_path@),
            trace_id,
        ),
{
    detect::execute_at_path(env, disk, &shell, program_name, target_path, trace_id)
}

/// Replaces the blocks of another tool in a startup file by the library's own. Fish has no
/// startup file that this could change.
pub fn migrate_managed_blocks(
    env: &Environment,
    disk: &mut Disk,
    request: MigrateManagedBlocksRequest<'_>,
    trace_id: u64,
) -> (r: Result<MigrateManagedBlocksReport, Error>)
    ensures
        (final(disk)@, migrate_result(r)) == migration(
            env@,
            old(disk)@,
            migrate::on_platform(env@.platform, migrate_query(request, trace_id)),
        ),
{
    migrate::execute(env, disk, request, trace_id)
}

} // verus!

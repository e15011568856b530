//! Zsh: a block in `.zshrc` that puts the completion's directory onto `fpath`.
use vstd::prelude::*;

use crate::disk::{Disk, DiskView};
use crate::environment::{Environment, EnvironmentView};
use crate::error::{Error, ErrorView};
use crate::fs::{file_exists, file_exists_view};
use crate::managed_block;
use crate::managed_block::{block_matches, BlockView, ManagedBlock};
use crate::model::{
    ActivationMode, ActivationReport, ActivationView, Availability, CleanupReport, CleanupView,
    FileChange, LegacyManagedBlock,
};
use crate::path::{parent, shown, FilePath};
use crate::paths::{zshrc, zshrc_path};
use crate::shell::bash::{not_installed, not_installed_text};
use crate::shell::quoting::{shell_quote, shell_quoted};
use crate::shell::wiring::{
    activation_result, block_cleanup, block_install, block_migration, block_result, cleanup_result,
    end_marker, end_marker_of, legacy_views, migrate_profile_blocks, migration_result, one,
    report_result, start_marker, start_marker_of, ActivationOutcome, ActivationOutcomeView,
    CleanupOutcome, CleanupOutcomeView, MigrationOutcome,
};
use crate::text;

verus! {

/// The commands that put the directory of a completion file onto `fpath`, once it has been given
/// a name.
pub open spec fn zsh_commands() -> Seq<char> {
    "\nshellcomp_zfunc_changed=0\nif (( ${fpath[(Ie)$shellcomp_zfunc_dir]} == 0 )); then\n  fpath=(\"$shellcomp_zfunc_dir\" $fpath)\n  shellcomp_zfunc_changed=1\nfi\nautoload -Uz compinit\nif ! type compdef >/dev/null 2>&1 || (( shellcomp_zfunc_changed == 1 )); then\n  compinit -i\nfi\nunset shellcomp_zfunc_changed\nunset shellcomp_zfunc_dir"@
}

/// The block that puts the directory of a completion file onto `fpath`.
pub open spec fn zsh_block(name: Seq<char>, target: Seq<u8>) -> Result<BlockView, ErrorView> {
    match parent(target) {
        None => Err(ErrorView::PathHasNoParent { path: target }),
        Some(dir) => match shell_quoted(dir) {
            Err(error) => Err(error),
            Ok(quoted) => Ok(
                BlockView {
                    start_marker: start_marker("zsh"@, name),
                    end_marker: end_marker("zsh"@, name),
                    body: "shellcomp_zfunc_dir="@ + quoted + zsh_commands(),
                },
            ),
        },
    }
}

/// The block that loads a completion in Zsh.
pub fn zsh_managed_block(program_name: &str, target_path: &FilePath) -> (r: Result<
    ManagedBlock,
    Error,
>)
    ensures
        block_result(r) == zsh_block(program_name@, target_path@),
{
    let completion_dir = match target_path.parent() {
        Some(dir) => dir,
        None => {
            return Err(Error::PathHasNoParent { path: target_path.copy() });
        },
    };
    let quoted = shell_quote(&completion_dir)?;
    Ok(
        ManagedBlock {
            start_marker: start_marker_of("zsh", program_name),
            end_marker: end_marker_of("zsh", program_name),
            body: text::concat3(
                "shellcomp_zfunc_dir=",
                &quoted,
                "\nshellcomp_zfunc_changed=0\nif (( ${fpath[(Ie)$shellcomp_zfunc_dir]} == 0 )); then\n  fpath=(\"$shellcomp_zfunc_dir\" $fpath)\n  shellcomp_zfunc_changed=1\nfi\nautoload -Uz compinit\nif ! type compdef >/dev/null 2>&1 || (( shellcomp_zfunc_changed == 1 )); then\n  compinit -i\nfi\nunset shellcomp_zfunc_changed\nunset shellcomp_zfunc_dir",
            ),
        },
    )
}

pub open spec fn zsh_source_step(quoted: Seq<char>) -> Seq<char> {
    "Run `source "@ + quoted + "` or start a new Zsh session."@
}

pub open spec fn zsh_block_report(rc: Seq<u8>) -> Result<ActivationView, ErrorView> {
    match shell_quoted(rc) {
        Err(error) => Err(error),
        Ok(quoted) => Ok(
            ActivationView {
                mode: ActivationMode::ManagedRcBlock,
                availability: Availability::AvailableAfterSource,
                location: Some(rc),
                reason: Some(
                    "shellcomp added a managed block to update `fpath` and run `compinit -i` when needed."@,
                ),
                next_step: Some(zsh_source_step(quoted)),
            },
        ),
    }
}

/// What arranging the activation of a Zsh completion leaves and returns.
pub open spec fn zsh_installed(
    e: EnvironmentView,
    d: DiskView,
    name: Seq<char>,
    target: Seq<u8>,
) -> (DiskView, Result<ActivationOutcomeView, ErrorView>) {
    block_install(
        e.platform,
        d,
        zshrc(e),
        zsh_block(name, target),
        |path: Seq<u8>| zsh_block_report(path),
    )
}

/// Arranges the activation of a completion that was installed.
pub fn install(env: &Environment, disk: &mut Disk, program_name: &str, target_path: &FilePath) -> (r:
    Result<ActivationOutcome, Error>)
    ensures
        (final(disk)@, activation_result(r)) == zsh_installed(
            env@,
            old(disk)@,
            program_name@,
            target_path@,
        ),
{
    let rc_path = zshrc_path(env)?;
    let block = zsh_managed_block(program_name, target_path)?;
    managed_block::upsert(env.platform, disk, &rc_path, &block)?;
    let quoted = shell_quote(&rc_path)?;
    Ok(
        ActivationOutcome {
            report: ActivationReport {
                mode: ActivationMode::ManagedRcBlock,
                availability: Availability::AvailableAfterSource,
                location: Some(rc_path.copy()),
                reason: Some(
                    text::copy(
                        "shellcomp added a managed block to update `fpath` and run `compinit -i` when needed.",
                    ),
                ),
                next_step: Some(
                    text::concat3("Run `source ", &quoted, "` or start a new Zsh session."),
                ),
            },
            affected_locations: one(rc_path),
        },
    )
}

pub open spec fn zsh_cleanup_outcome(rc: Seq<u8>, change: FileChange) -> CleanupOutcomeView {
    CleanupOutcomeView {
        cleanup: CleanupView {
            mode: ActivationMode::ManagedRcBlock,
            change,
            location: Some(rc),
            reason: Some(
                match change {
                    FileChange::Removed => "Removed the managed Zsh activation block from .zshrc."@,
                    FileChange::Absent => "No managed Zsh activation block was present in .zshrc."@,
                    _ => "Zsh activation cleanup completed."@,
                },
            ),
            next_step: None,
        },
        affected_locations: seq![rc],
    }
}

/// What taking the activation of a Zsh completion back leaves and returns.
pub open spec fn zsh_uninstalled(
    e: EnvironmentView,
    d: DiskView,
    name: Seq<char>,
    target: Seq<u8>,
) -> (DiskView, Result<CleanupOutcomeView, ErrorView>) {
    block_cleanup(
        e.platform,
        d,
        zshrc(e),
        zsh_block(name, target),
        |path: Seq<u8>, change: FileChange| zsh_cleanup_outcome(path, change),
    )
}

/// Takes the activation of a completion back.
pub fn uninstall(env: &Environment, disk: &mut Disk, program_name: &str, target_path: &FilePath) -> (r:
    Result<CleanupOutcome, Error>)
    ensures
        (final(disk)@, cleanup_result(r)) == zsh_uninstalled(
            env@,
            old(disk)@,
            program_name@,
            target_path@,
        ),
{
    let rc_path = zshrc_path(env)?;
    let block = zsh_managed_block(program_name, target_path)?;
    let change = managed_block::remove(env.platform, disk, &rc_path, &block)?;
    Ok(
        CleanupOutcome {
            cleanup: CleanupReport {
                mode: ActivationMode::ManagedRcBlock,
                change,
                location: Some(rc_path.copy()),
                reason: Some(
                    match change {
                        FileChange::Removed => text::copy(
                            "Removed the managed Zsh activation block from .zshrc.",
                        ),
                        FileChange::Absent => text::copy(
                            "No managed Zsh activation block was present in .zshrc.",
                        ),
                        _ => text::copy("Zsh activation cleanup completed."),
                    },
                ),
                next_step: None,
            },
            affected_locations: one(rc_path),
        },
    )
}

/// The directory that holds a completion file, or the path itself where there is none.
pub open spec fn completion_dir(target: Seq<u8>) -> Seq<u8> {
    match parent(target) {
        Some(dir) => dir,
        None => target,
    }
}

/// The report on a completion, given what was found out about it.
pub open spec fn zsh_state(
    rc: Seq<u8>,
    target: Seq<u8>,
    quoted_rc: Seq<char>,
    quoted_dir: Seq<char>,
    wired: bool,
    installed: bool,
) -> ActivationView {
    ActivationView {
        mode: ActivationMode::ManagedRcBlock,
        availability: if installed && wired {
            Availability::AvailableAfterSource
        } else {
            Availability::ManualActionRequired
        },
        location: Some(
            if installed || wired {
                rc
            } else {
                target
            },
        ),
        reason: Some(
            match (installed, wired) {
                (false, true) => "Managed zsh activation block is present, but completion file `"@
                    + shown(target) + "` is not installed."@,
                (false, false) => not_installed(target),
                (true, true) => "Managed zsh activation block is present."@,
                (true, false) => "Completion file exists, but shellcomp did not find the managed zsh activation block."@,
            },
        ),
        next_step: Some(
            match (installed, wired) {
                (false, _) => "Run your CLI's completion install command or place the file into "@
                    + quoted_dir + "."@,
                (true, true) => zsh_source_step(quoted_rc),
                (true, false) => "Re-run installation or add "@ + quoted_dir
                    + " to `fpath` and run `compinit -i`."@,
            },
        ),
    }
}

/// How a Zsh completion comes to be loaded.
pub open spec fn zsh_detected(
    e: EnvironmentView,
    d: DiskView,
    name: Seq<char>,
    target: Seq<u8>,
) -> Result<ActivationView, ErrorView> {
    match (zshrc(e), zsh_block(name, target)) {
        (Err(error), _) => Err(error),
        (Ok(_), Err(error)) => Err(error),
        (Ok(rc), Ok(block)) => match (
            block_matches(e.platform, d, rc, block),
            shell_quoted(rc),
            shell_quoted(completion_dir(target)),
            file_exists_view(d, target),
        ) {
            (Err(error), _, _, _) => Err(error),
            (Ok(_), Err(error), _, _) => Err(error),
            (Ok(_), Ok(_), Err(error), _) => Err(error),
            (Ok(_), Ok(_), Ok(_), Err(error)) => Err(error),
            (Ok(wired), Ok(quoted_rc), Ok(quoted_dir), Ok(installed)) => Ok(
                zsh_state(rc, target, quoted_rc, quoted_dir, wired, installed),
            ),
        },
    }
}

/// Finds out how a completion comes to be loaded.
pub fn detect(env: &Environment, disk: &Disk, program_name: &str, target_path: &FilePath) -> (r:
    Result<ActivationReport, Error>)
    ensures
        report_result(r) == zsh_detected(env@, disk@, program_name@, target_path@),
{
    let rc_path = zshrc_path(env)?;
    let block = zsh_managed_block(program_name, target_path)?;
    let wired = managed_block::matches(env.platform, disk, &rc_path, &block)?;
    let quoted_rc_path = shell_quote(&rc_path)?;
    let dir = match target_path.parent() {
        Some(dir) => dir,
        None => target_path.copy(),
    };
    let quoted_completion_dir = shell_quote(&dir)?;
    if !file_exists(disk, target_path)? {
        return Ok(
            ActivationReport {
                mode: ActivationMode::ManagedRcBlock,
                availability: Availability::ManualActionRequired,
                location: Some(
                    if wired {
                        rc_path
                    } else {
                        target_path.copy()
                    },
                ),
                reason: Some(
                    if wired {
                        text::concat3(
                            "Managed zsh activation block is present, but completion file `",
                            &target_path.display(),
                            "` is not installed.",
                        )
                    } else {
                        not_installed_text(target_path)
                    },
                ),
                next_step: Some(
                    text::concat3(
                        "Run your CLI's completion install command or place the file into ",
                        &quoted_completion_dir,
                        ".",
                    ),
                ),
            },
        );
    }
    Ok(
        ActivationReport {
            mode: ActivationMode::ManagedRcBlock,
            availability: if wired {
                Availability::AvailableAfterSource
            } else {
                Availability::ManualActionRequired
            },
            location: Some(rc_path),
            reason: Some(
                if wired {
                    text::copy("Managed zsh activation block is present.")
                } else {
                    text::copy(
                        "Completion file exists, but shellcomp did not find the managed zsh activation block.",
                    )
                },
            ),
            next_step: Some(
                if wired {
                    text::concat3(
                        "Run `source ",
                        &quoted_rc_path,
                        "` or start a new Zsh session.",
                    )
                } else {
                    text::concat3(
                        "Re-run installation or add ",
                        &quoted_completion_dir,
                        " to `fpath` and run `compinit -i`.",
                    )
                },
            ),
        },
    )
}

/// Replaces legacy blocks in `.zshrc` by the library's block.
pub fn migrate(
    env: &Environment,
    disk: &mut Disk,
    program_name: &str,
    target_path: &FilePath,
    legacy_blocks: &Vec<LegacyManagedBlock>,
) -> (r: Result<MigrationOutcome, Error>)
    ensures
        (final(disk)@, migration_result(r)) == block_migration(
            env@.platform,
            old(disk)@,
            zshrc(env@),
            zsh_block(program_name@, target_path@),
            legacy_views(legacy_blocks@),
        ),
{
    let rc_path = zshrc_path(env)?;
    let block = zsh_managed_block(program_name, target_path)?;
    migrate_profile_blocks(env.platform, disk, rc_path, legacy_blocks, &block)
}

} // verus!

//! Fish: it looks into its completions directory by itself.
use vstd::prelude::*;

use crate::disk::{Disk, DiskView};
use crate::error::{Error, ErrorView};
use crate::fs::{file_exists, file_exists_view};
use crate::model::{
    ActivationMode, ActivationReport, ActivationView, Availability, CleanupReport, CleanupView,
    FileChange,
};
use crate::path::FilePath;
use crate::shell::bash::{not_installed, not_installed_text};
use crate::shell::wiring::{
    none, report_result, ActivationOutcome, ActivationOutcomeView, CleanupOutcome,
    CleanupOutcomeView,
};
use crate::text;

verus! {

pub open spec fn fish_installed(target: Seq<u8>) -> ActivationOutcomeView {
    ActivationOutcomeView {
        report: ActivationView {
            mode: ActivationMode::NativeDirectory,
            availability: Availability::ActiveNow,
            location: Some(target),
            reason: Some("Installed into Fish's native completions directory."@),
            next_step: None,
        },
        affected_locations: Seq::empty(),
    }
}

/// The activation of a completion that was installed; there is nothing to arrange.
pub fn install(target_path: &FilePath) -> (r: ActivationOutcome)
    ensures
        r@ == fish_installed(target_path@),
{
    ActivationOutcome {
        report: ActivationReport {
            mode: ActivationMode::NativeDirectory,
            availability: Availability::ActiveNow,
            location: Some(target_path.copy()),
            reason: Some(text::copy("Installed into Fish's native completions directory.")),
            next_step: None,
        },
        affected_locations: none(),
    }
}

pub open spec fn fish_uninstalled() -> CleanupOutcomeView {
    CleanupOutcomeView {
        cleanup: CleanupView {
            mode: ActivationMode::NativeDirectory,
            change: FileChange::Absent,
            location: None,
            reason: Some(
                "Fish does not use a managed shell profile block for completion activation."@,
            ),
            next_step: None,
        },
        affected_locations: Seq::empty(),
    }
}

/// The cleanup of a completion that was removed; there is nothing to take back.
pub fn uninstall() -> (r: CleanupOutcome)
    ensures
        r@ == fish_uninstalled(),
{
    CleanupOutcome {
        cleanup: CleanupReport {
            mode: ActivationMode::NativeDirectory,
            change: FileChange::Absent,
            location: None,
            reason: Some(
                text::copy(
                    "Fish does not use a managed shell profile block for completion activation.",
                ),
            ),
            next_step: None,
        },
        affected_locations: none(),
    }
}

/// How a Fish completion comes to be loaded.
pub open spec fn fish_detected(d: DiskView, target: Seq<u8>) -> Result<ActivationView, ErrorView> {
    match file_exists_view(d, target) {
        Err(error) => Err(error),
        Ok(installed) => Ok(
            ActivationView {
                mode: ActivationMode::NativeDirectory,
                availability: if installed {
                    Availability::ActiveNow
                } else {
                    Availability::ManualActionRequired
                },
                location: Some(target),
                reason: Some(
                    if installed {
                        "Completion file is installed in Fish's native completions directory."@
                    } else {
                        not_installed(target)
                    },
                ),
                next_step: if installed {
                    None
                } else {
                    Some(
                        "Run your CLI's completion install command or place the completion file into Fish's completions directory."@,
                    )
                },
            },
        ),
    }
}

/// Finds out how a completion comes to be loaded.
pub fn detect(disk: &Disk, target_path: &FilePath) -> (r: Result<ActivationReport, Error>)
    ensures
        report_result(r) == fish_detected(disk@, target_path@),
{
    let installed = file_exists(disk, target_path)?;
    Ok(
        ActivationReport {
            mode: ActivationMode::NativeDirectory,
            availability: if installed {
                Availability::ActiveNow
            } else {
                Availability::ManualActionRequired
            },
            location: Some(target_path.copy()),
            reason: Some(
                if installed {
                    text::copy(
                        "Completion file is installed in Fish's native completions directory.",
                    )
                } else {
                    not_installed_text(target_path)
                },
            ),
            next_step: if installed {
                None
            } else {
                Some(
                    text::copy(
                        "Run your CLI's completion install command or place the completion file into Fish's completions directory.",
                    ),
                )
            },
        },
    )
}

} // verus!

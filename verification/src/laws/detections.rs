//! What detection reports of a completion.
use vstd::prelude::*;

use crate::disk::{fault_at, node_at, DiskView, Step};
use crate::environment::EnvironmentView;
use crate::error::ErrorView;
use crate::fs::file_exists_view;
use crate::laws::outcomes::{has_blocks, is_at_default, reports, zsh_finds};
use crate::laws::profiles::text_at;
use crate::laws::shells::own_block;
use crate::managed_block::{block_matches, holds_block, profile_text, walk, Walk};
use crate::model::{ActivationMode, ActivationView, Availability, ShellView};
use crate::path::{asks_directory, components};
use crate::paths::{default_path, startup_file};
use crate::service::detect::{
    custom_detection, custom_report, detection, detection_at, report_stands,
};
use crate::shell::backend::detected;
use crate::shell::discovery::{loader_of, LoaderView};
use crate::text::lines_of;

verus! {

/// Whether a completion file is there: a regular file, reached through links or not.
pub open spec fn is_present(d: DiskView, target: Seq<u8>) -> bool {
    node_at(d, target) matches Some(node) && node.content is File && !asks_directory(target)
}

/// Whether the startup file of a shell holds the block of a program.
pub open spec fn is_wired(
    e: EnvironmentView,
    d: DiskView,
    shell: ShellView,
    name: Seq<char>,
    target: Seq<u8>,
) -> bool {
    startup_file(e, shell) matches Ok(Some(profile)) && own_block(shell, name, target) matches Ok(b)
        && block_matches(e.platform, d, profile, b) == Ok::<bool, ErrorView>(true)
}

/// A block that is found in a startup file is in its text.
pub proof fn law_wired_blocks_are_in_the_text(
    e: EnvironmentView,
    d: DiskView,
    shell: ShellView,
    name: Seq<char>,
    target: Seq<u8>,
)
    requires
        is_wired(e, d, shell, name, target),
    ensures
        ({
            let profile = startup_file(e, shell)->Ok_0->0;
            let b = own_block(shell, name, target)->Ok_0;
            &&& profile_text(d, profile) is Ok
            &&& holds_block(profile, text_at(d, profile), b) == Ok::<bool, ErrorView>(true)
        }),
{
}

/// Whether a loader of the system serves a completion: it serves those of Bash at the default
/// location.
pub open spec fn is_served(
    e: EnvironmentView,
    shell: ShellView,
    name: Seq<char>,
    target: Seq<u8>,
) -> bool {
    shell is Bash && (default_path(e, shell, name) matches Ok(place) && components(place)
        == components(target))
}

/// The loader of the system that serves a completion, if it is at work.
pub open spec fn working_loader(
    e: EnvironmentView,
    d: DiskView,
    shell: ShellView,
    name: Seq<char>,
    target: Seq<u8>,
) -> Option<LoaderView> {
    if is_served(e, shell, name, target) {
        match loader_of(e, d) {
            Ok(LoaderView::ActiveNow) => Some(LoaderView::ActiveNow),
            Ok(LoaderView::WiredInStartup(startup)) => Some(LoaderView::WiredInStartup(startup)),
            _ => None,
        }
    } else {
        None
    }
}

/// What is said of a completion that is loaded in the way of its shell. It is available where the
/// file is there and something loads it: a loader that is active or wired, the block in the startup
/// file, or the directory that Fish looks into. Otherwise the user has to act, and is pointed to
/// the startup file where one half of the two is there, and else to the completion file.
pub open spec fn is_own_state(
    e: EnvironmentView,
    d: DiskView,
    shell: ShellView,
    name: Seq<char>,
    target: Seq<u8>,
    report: ActivationView,
) -> bool {
    let present = is_present(d, target);
    let wired = is_wired(e, d, shell, name, target);
    if shell is Fish {
        reports(
            report,
            ActivationMode::NativeDirectory,
            if present {
                Availability::ActiveNow
            } else {
                Availability::ManualActionRequired
            },
            target,
        )
    } else if working_loader(e, d, shell, name, target) is Some {
        if !present {
            reports(
                report,
                ActivationMode::SystemLoader,
                Availability::ManualActionRequired,
                target,
            )
        } else {
            match working_loader(e, d, shell, name, target) {
                Some(LoaderView::WiredInStartup(startup)) => reports(
                    report,
                    ActivationMode::SystemLoader,
                    Availability::AvailableAfterNewShell,
                    startup,
                ),
                _ => reports(
                    report,
                    ActivationMode::SystemLoader,
                    Availability::ActiveNow,
                    target,
                ),
            }
        }
    } else {
        &&& has_blocks(shell)
        &&& startup_file(e, shell) matches Ok(Some(profile)) && reports(
            report,
            ActivationMode::ManagedRcBlock,
            if !present || !wired {
                Availability::ManualActionRequired
            } else if shell is Bash || shell is Zsh {
                Availability::AvailableAfterSource
            } else {
                Availability::AvailableAfterNewShell
            },
            if present || wired {
                profile
            } else {
                target
            },
        )
    }
}

#[verifier::spinoff_prover]
#[verifier::rlimit(40)]
proof fn lemma_own_state(
    e: EnvironmentView,
    d: DiskView,
    shell: ShellView,
    name: Seq<char>,
    target: Seq<u8>,
)
    requires
        fault_at(d, Step::Inspect, target) is None,
    ensures
        detected(e, d, shell, name, target) matches Ok(report) ==> is_own_state(
            e,
            d,
            shell,
            name,
            target,
            report,
        ),
{
}

/// What detection reports of the completion at the default location.
#[verifier::spinoff_prover]
#[verifier::rlimit(40)]
pub proof fn law_detection_reports_the_activation(
    e: EnvironmentView,
    d: DiskView,
    shell: ShellView,
    name: Seq<char>,
    trace_id: u64,
)
    requires
        detection(e, d, shell, name, trace_id) is Ok,
        default_path(e, shell, name) matches Ok(place) ==> fault_at(d, Step::Inspect, place) is None,
    ensures
        default_path(e, shell, name) is Ok,
        is_own_state(
            e,
            d,
            shell,
            name,
            default_path(e, shell, name)->Ok_0,
            detection(e, d, shell, name, trace_id)->Ok_0,
        ),
{
    lemma_own_state(e, d, shell, name, default_path(e, shell, name)->Ok_0);
}

/// What is said of a completion file whose activation is the user's.
pub open spec fn is_foreign_state(d: DiskView, target: Seq<u8>, report: ActivationView) -> bool {
    reports(
        report,
        ActivationMode::Manual,
        if is_present(d, target) {
            Availability::Unknown
        } else {
            Availability::ManualActionRequired
        },
        target,
    )
}

pub proof fn lemma_foreign_state(d: DiskView, shell: ShellView, name: Seq<char>, target: Seq<u8>)
    requires
        fault_at(d, Step::Inspect, target) is None,
    ensures
        custom_report(d, shell, name, target) matches Ok(report) ==> is_foreign_state(
            d,
            target,
            report,
        ),
{
}

/// A startup file that holds a block is a file that is there.
proof fn lemma_wired_file(
    e: EnvironmentView,
    d: DiskView,
    shell: ShellView,
    name: Seq<char>,
    target: Seq<u8>,
)
    requires
        is_wired(e, d, shell, name, target),
    ensures
        ({
            let profile = startup_file(e, shell)->Ok_0->0;
            node_at(d, profile) matches Some(node) && node.content is File
        }),
{
    let profile = startup_file(e, shell)->Ok_0->0;
    let b = own_block(shell, name, target)->Ok_0;
    if profile_text(d, profile) == Ok::<Option<Seq<char>>, ErrorView>(None) {
        let none = Seq::<char>::empty();
        let lines = lines_of(none);
        assert(lines.len() == 0);
        assert(walk(b, lines) == Ok::<Walk, Seq<char>>(
            (Walk { open: None, spans: Seq::empty() }),
        ));
    }
}

/// What is said of a completion at a path that need not be the default location.
#[verifier::spinoff_prover]
#[verifier::rlimit(60)]
proof fn lemma_custom_state(
    e: EnvironmentView,
    d: DiskView,
    shell: ShellView,
    name: Seq<char>,
    target: Seq<u8>,
)
    requires
        has_blocks(shell),
        fault_at(d, Step::Inspect, target) is None,
        custom_detection(e, d, shell, name, target) is Ok,
    ensures
        ({
            let report = custom_detection(e, d, shell, name, target)->Ok_0;
            let is_own = is_at_default(e, shell, name, target) || is_wired(
                e,
                d,
                shell,
                name,
                target,
            ) && !is_served(e, shell, name, target);
            &&& is_own && detected(e, d, shell, name, target) is Ok ==> is_own_state(
                e,
                d,
                shell,
                name,
                target,
                report,
            )
            &&& !is_own && !is_served(e, shell, name, target) ==> is_foreign_state(d, target, report)
        }),
{
    lemma_own_state(e, d, shell, name, target);
    lemma_foreign_state(d, shell, name, target);
    lemma_own_stands(e, d, shell, name, target);
}

/// A report on the shell's own way stands if and only if something loads the completion or a block
/// waits for it.
#[verifier::spinoff_prover]
#[verifier::rlimit(40)]
proof fn lemma_own_stands(
    e: EnvironmentView,
    d: DiskView,
    shell: ShellView,
    name: Seq<char>,
    target: Seq<u8>,
)
    requires
        fault_at(d, Step::Inspect, target) is None,
        file_exists_view(d, target) is Ok,
        has_blocks(shell),
    ensures
        detected(e, d, shell, name, target) matches Ok(report) ==> report_stands(
            report,
            is_present(d, target),
            target,
        ) == (working_loader(e, d, shell, name, target) is Some && is_present(d, target)
            || working_loader(e, d, shell, name, target) is None && is_wired(
            e,
            d,
            shell,
            name,
            target,
        )),
{
    lemma_own_state(e, d, shell, name, target);
    if is_wired(e, d, shell, name, target) {
        lemma_wired_file(e, d, shell, name, target);
    }
}

/// What detection reports of the completion at a path. At the default location it is what is
/// reported of it there. Elsewhere a block that is found is reported, whether or not it waits for
/// the file; with none, the file is the user's: how it comes to be loaded is unknown where it is
/// there, and left to the user where it is not.
#[verifier::spinoff_prover]
#[verifier::rlimit(40)]
pub proof fn law_detection_at_a_path_reports_the_activation(
    e: EnvironmentView,
    d: DiskView,
    shell: ShellView,
    name: Seq<char>,
    target: Seq<u8>,
    trace_id: u64,
)
    requires
        detection_at(e, d, shell, name, target, trace_id) is Ok,
        fault_at(d, Step::Inspect, target) is None,
    ensures
        ({
            let report = detection_at(e, d, shell, name, target, trace_id)->Ok_0;
            let is_own = is_at_default(e, shell, name, target) || is_wired(
                e,
                d,
                shell,
                name,
                target,
            ) && !is_served(e, shell, name, target);
            let is_findable = shell is Zsh ==> zsh_finds(name, target);
            &&& !(shell is Other)
            &&& is_own && is_findable && detected(e, d, shell, name, target) is Ok ==> is_own_state(
                e,
                d,
                shell,
                name,
                target,
                report,
            )
            &&& (!is_own && !is_served(e, shell, name, target)) || !is_findable
                ==> is_foreign_state(d, target, report)
        }),
{
    match shell {
        ShellView::Fish => {
            lemma_own_state(e, d, shell, name, target);
            lemma_foreign_state(d, shell, name, target);
        },
        ShellView::Other(_) => {},
        _ => {
            if shell is Zsh && !zsh_finds(name, target) {
                lemma_foreign_state(d, shell, name, target);
            } else {
                assert(custom_detection(e, d, shell, name, target) is Ok);
                lemma_custom_state(e, d, shell, name, target);
            }
        },
    }
}

} // verus!

//! Which failure comes of which cause.
use vstd::prelude::*;

use crate::disk::{fault_at, inspect_link, read_bytes, DiskView, Step};
use crate::environment::{EnvironmentView, Platform};
use crate::error::{
    error_code, error_is_retryable, error_location, error_message, error_next_step, error_reason,
    ErrorView, IoErrorKind,
};
use crate::fs::{file_exists_view, removed, written, written_if_changed};
use crate::laws::detections::{is_foreign_state, is_served, lemma_foreign_state};
use crate::laws::edits::lemma_refused;
use crate::laws::files::lemma_no_objection;
use crate::laws::operations::lemma_migrates;
use crate::laws::outcomes::{has_blocks, is_at_default, reports, zsh_finds};
use crate::laws::profiles::text_at;
use crate::laws::scripts::law_literals_are_read_back;
use crate::laws::shells::own_block;
use crate::managed_block::{
    block_matches, blocks_removed, collect_spans, profile_text, upserted, with_block, BlockView,
};
use crate::model::{
    kind_code, kind_is_retryable, shell_name, ActivationMode, ActivationPolicy, Availability,
    FailureKind, FileChange, Operation, ShellView,
};
use crate::path::{components, is_absolute, parent, shown, spelled, DOT};
use crate::paths::{
    ancestors, default_path, first_objection, identity, is_system_alias, macos_identity, objection,
    plain_target_error, program_name_error, startup_file, target_error,
};
use crate::service::common::target_of;
use crate::service::detect::{detection, detection_at};
use crate::service::install::{installed, InstallQuery};
use crate::service::migrate::{migration, MigrateQuery};
use crate::service::uninstall::{uninstalled, UninstallView};
use crate::shell::backend::{activated, deactivated, detected};
use crate::shell::quoting::shell_quoted;
use crate::text::{lines_of, utf8_text};

verus! {

/// The codes that callers can rely on, and the errors behind which trying again may help: those in
/// which the file system refused something.
pub proof fn law_codes_are_stable(kind: FailureKind, error: ErrorView)
    ensures
        kind_code(kind) == (match kind {
            FailureKind::MissingHome => "shellcomp.missing_home"@,
            FailureKind::UnsupportedShell => "shellcomp.unsupported_shell"@,
            FailureKind::InvalidTargetPath => "shellcomp.invalid_target_path"@,
            FailureKind::DefaultPathUnavailable => "shellcomp.default_path_unavailable"@,
            FailureKind::CompletionTargetUnavailable => "shellcomp.completion_target_unavailable"@,
            FailureKind::CompletionFileUnreadable => "shellcomp.completion_file_unreadable"@,
            FailureKind::ProfileUnavailable => "shellcomp.profile_unavailable"@,
            FailureKind::ProfileCorrupted => "shellcomp.profile_corrupted"@,
        }),
        kind_is_retryable(kind) <==> kind is CompletionTargetUnavailable
            || kind is CompletionFileUnreadable || kind is ProfileUnavailable,
        error is EmptyProgramName ==> error_code(error) == "shellcomp.empty_program_name"@,
        error is InvalidProgramName ==> error_code(error) == "shellcomp.invalid_program_name"@,
        error is MissingHome ==> error_code(error) == kind_code(FailureKind::MissingHome),
        error is UnsupportedShell ==> error_code(error) == kind_code(FailureKind::UnsupportedShell),
        error is PathHasNoParent || error is InvalidTargetPath || error is NonUtf8Path
            ==> error_code(error) == kind_code(FailureKind::InvalidTargetPath),
        error is InvalidUtf8File ==> error_code(error) == "shellcomp.invalid_target_file"@,
        error is ManagedBlockMissingEnd || error is InvalidManagedBlock ==> error_code(error)
            == kind_code(FailureKind::ProfileCorrupted),
        error is Io ==> error_code(error) == "shellcomp.io_error"@,
        error matches ErrorView::Failure { report, .. } ==> error_code(error) == kind_code(
            report.kind,
        ) && error_is_retryable(error) == kind_is_retryable(report.kind),
        !(error is Failure) ==> (error_is_retryable(error) <==> error is Io),
{
}

/// An error is about the file that it names, and its message names that file. A failure speaks for
/// itself.
pub proof fn law_errors_name_their_file(error: ErrorView)
    ensures
        error_location(error) == (match error {
            ErrorView::Failure { report, .. } => report.target_path,
            ErrorView::PathHasNoParent { path } => Some(path),
            ErrorView::InvalidTargetPath { path, .. } => Some(path),
            ErrorView::NonUtf8Path { path } => Some(path),
            ErrorView::InvalidUtf8File { path } => Some(path),
            ErrorView::ManagedBlockMissingEnd { path, .. } => Some(path),
            ErrorView::InvalidManagedBlock { path, .. } => Some(path),
            ErrorView::Io { path, .. } => Some(path),
            _ => None,
        }),
        !(error is Failure) ==> (error_location(error) matches Some(path) ==> has_within(
            error_message(error),
            shown(path),
        )),
        error matches ErrorView::Failure { report, .. } ==> error_message(error) == report.reason
            && error_reason(error) == Some(report.reason) && error_next_step(error)
            == report.next_step,
        error matches ErrorView::InvalidTargetPath { path, reason } ==> error_message(error)
            == "target path `"@ + shown(path) + "` is invalid: "@ + reason && error_reason(error)
            == Some(reason),
        error matches ErrorView::InvalidManagedBlock { path, reason } ==> error_message(error)
            == "invalid managed block in `"@ + shown(path) + "`: "@ + reason && error_reason(error)
            == Some(reason),
        error matches ErrorView::Io { action, path, source } ==> error_message(error)
            == "failed to "@ + action + " `"@ + shown(path) + "`: "@ + source.message
            && error_reason(error) is None,
        error matches ErrorView::InvalidProgramName { program_name } ==> error_message(error)
            == "program name `"@ + program_name + "` contains unsupported characters"@,
        error matches ErrorView::UnsupportedShell { shell } ==> error_message(error) == "shell `"@
            + shell_name(shell) + "` is not supported yet"@,
{
    match error {
        ErrorView::PathHasNoParent { path } => {
            lemma_within("path `"@, shown(path), "` does not have a parent directory"@);
        },
        ErrorView::InvalidTargetPath { path, reason } => {
            lemma_within("target path `"@, shown(path), "` is invalid: "@ + reason);
            assert(error_message(error) =~= "target path `"@ + shown(path) + ("` is invalid: "@
                + reason));
        },
        ErrorView::NonUtf8Path { path } => {
            lemma_within("path `"@, shown(path), "` cannot be represented as UTF-8"@);
        },
        ErrorView::InvalidUtf8File { path } => {
            lemma_within("file `"@, shown(path), "` is not valid UTF-8"@);
        },
        ErrorView::ManagedBlockMissingEnd { path, start_marker, end_marker } => {
            let before = "managed block `"@ + start_marker + "` in `"@;
            let after = "` is missing closing marker `"@ + end_marker + "`"@;
            lemma_within(before, shown(path), after);
            assert(error_message(error) =~= before + shown(path) + after);
        },
        ErrorView::InvalidManagedBlock { path, reason } => {
            lemma_within("invalid managed block in `"@, shown(path), "`: "@ + reason);
            assert(error_message(error) =~= "invalid managed block in `"@ + shown(path) + ("`: "@
                + reason));
        },
        ErrorView::Io { action, path, source } => {
            let before = "failed to "@ + action + " `"@;
            let after = "`: "@ + source.message;
            lemma_within(before, shown(path), after);
            assert(error_message(error) =~= before + shown(path) + after);
        },
        _ => {},
    }
}

/// Whether a text has another one within it.
pub open spec fn has_within(text: Seq<char>, part: Seq<char>) -> bool {
    exists|i: int| 0 <= i <= text.len() - part.len() && #[trigger] stands_from(text, i, part)
}

pub open spec fn stands_from(text: Seq<char>, i: int, part: Seq<char>) -> bool {
    text.subrange(i, i + part.len()) == part
}

proof fn lemma_within(before: Seq<char>, part: Seq<char>, after: Seq<char>)
    ensures
        has_within(before + part + after, part),
{
    let text = before + part + after;
    let i = before.len() as int;
    assert(text.subrange(i, i + part.len()) =~= part);
    assert(stands_from(text, i, part));
}

/// Whether an operation failed in the given way.
pub open spec fn fails_as<T>(
    outcome: Result<T, ErrorView>,
    operation: Operation,
    shell: ShellView,
    kind: FailureKind,
) -> bool {
    outcome matches Err(ErrorView::Failure { report, .. }) && report.operation == operation
        && report.shell == shell && report.kind == kind
}

/// Whether all operations fail in the given way.
pub open spec fn all_fail_as(
    e: EnvironmentView,
    d: DiskView,
    install: InstallQuery,
    uninstall: UninstallView,
    migrate: MigrateQuery,
    policy: ActivationPolicy,
    kind: FailureKind,
) -> bool {
    &&& fails_as(installed(e, d, install, policy).1, Operation::Install, install.shell, kind)
    &&& fails_as(
        uninstalled(e, d, uninstall, policy).1,
        Operation::Uninstall,
        uninstall.shell,
        kind,
    )
    &&& fails_as(
        migration(e, d, migrate).1,
        Operation::MigrateManagedBlocks,
        migrate.shell,
        kind,
    )
    &&& installed(e, d, install, policy).0 == d
    &&& uninstalled(e, d, uninstall, policy).0 == d
    &&& migration(e, d, migrate).0 == d
}

/// Whether the requests of three operations are about one completion.
pub open spec fn are_about(
    install: InstallQuery,
    uninstall: UninstallView,
    migrate: MigrateQuery,
    shell: ShellView,
    name: Seq<char>,
    path_override: Option<Seq<u8>>,
) -> bool {
    &&& install.shell == shell && uninstall.shell == shell && migrate.shell == shell
    &&& install.program_name == name && uninstall.program_name == name && migrate.program_name
        == name
    &&& install.path_override == path_override && uninstall.path_override == path_override
        && migrate.path_override == path_override
}

/// A shell that the library does not support is refused by every operation.
pub proof fn law_unsupported_shells_are_refused(
    e: EnvironmentView,
    d: DiskView,
    install: InstallQuery,
    uninstall: UninstallView,
    migrate: MigrateQuery,
    policy: ActivationPolicy,
    trace_id: u64,
)
    requires
        program_name_error(install.program_name) is None,
        are_about(
            install,
            uninstall,
            migrate,
            install.shell,
            install.program_name,
            install.path_override,
        ),
        install.shell is Other,
    ensures
        all_fail_as(
            e,
            d,
            install,
            uninstall,
            migrate,
            policy,
            FailureKind::UnsupportedShell,
        ),
        fails_as(
            detection(e, d, install.shell, install.program_name, trace_id),
            Operation::DetectActivation,
            install.shell,
            FailureKind::UnsupportedShell,
        ),
{
}

/// Without a home directory the default location is not known, and every operation on it says so.
pub proof fn law_a_missing_home_is_told(
    e: EnvironmentView,
    d: DiskView,
    install: InstallQuery,
    uninstall: UninstallView,
    migrate: MigrateQuery,
    policy: ActivationPolicy,
    trace_id: u64,
)
    requires
        program_name_error(install.program_name) is None,
        are_about(install, uninstall, migrate, install.shell, install.program_name, None),
        !(install.shell is Other),
        default_path(e, install.shell, install.program_name) == Err::<Seq<u8>, ErrorView>(
            ErrorView::MissingHome,
        ),
    ensures
        all_fail_as(e, d, install, uninstall, migrate, policy, FailureKind::MissingHome),
        fails_as(
            detection(e, d, install.shell, install.program_name, trace_id),
            Operation::DetectActivation,
            install.shell,
            FailureKind::MissingHome,
        ),
        installed(e, d, install, policy).1 matches Err(ErrorView::Failure { report, .. })
            && report.reason == "Could not resolve the managed completion path because "@ + (
        if e.platform == Platform::Windows && install.shell is Powershell {
            "HOME or USERPROFILE"@
        } else {
            "HOME"@
        }) + " is not set."@,
{
}

/// Whether a path can be the target of an operation: it is absolute and normalized, it has a
/// parent, it is not the startup file of the shell, what is there is a file or a directory, and all
/// that stands above it is directories, none of them reached through a link.
pub open spec fn is_sound_target(
    e: EnvironmentView,
    d: DiskView,
    shell: ShellView,
    path: Seq<u8>,
) -> bool {
    &&& is_absolute(e.platform, path)
    &&& forall|i: int|
        0 <= i < components(path).len() ==> (#[trigger] components(path)[i]) != seq![46u8]
            && components(path)[i] != seq![46u8, 46u8]
    &&& parent(path) is Some
    &&& forall|i: int| 0 <= i < ancestors(path).len() ==> #[trigger] is_plain_step(d, path, i)
    &&& startup_file(e, shell) matches Ok(Some(profile)) ==> components(
        identity(e.platform, profile),
    ) != components(identity(e.platform, path))
}

/// A path that a request names is accepted if and only if it can be a target. A path that cannot
/// be one is refused by every operation, and nothing is done. On macOS, where links of the system
/// are followed, and where the file system refuses to be looked at, other things count too.
#[verifier::spinoff_prover]
#[verifier::rlimit(40)]
pub proof fn law_targets_are_accepted_or_refused(
    e: EnvironmentView,
    d: DiskView,
    install: InstallQuery,
    uninstall: UninstallView,
    migrate: MigrateQuery,
    policy: ActivationPolicy,
    path: Seq<u8>,
)
    requires
        program_name_error(install.program_name) is None,
        are_about(install, uninstall, migrate, install.shell, install.program_name, Some(path)),
        !(install.shell is Other),
        e.platform != Platform::MacOs,
        forall|i: int|
            0 <= i < ancestors(path).len() ==> fault_at(
                d,
                Step::InspectLink,
                #[trigger] ancestors(path)[i],
            ) is None,
    ensures
        is_sound_target(e, d, install.shell, path) ==> target_of(
            e,
            d,
            install.shell,
            install.program_name,
            Some(path),
        ) == Ok::<Seq<u8>, ErrorView>(path),
        !is_sound_target(e, d, install.shell, path) ==> all_fail_as(
            e,
            d,
            install,
            uninstall,
            migrate,
            policy,
            FailureKind::InvalidTargetPath,
        ),
{
    let physical = plain_target_error(
        e.platform,
        d,
        macos_identity(path),
    );
    lemma_no_objection(d, path, 0, false, physical);
    assert(seq![46u8] =~= seq![DOT]);
    assert(seq![46u8, 46u8] =~= seq![DOT, DOT]);
    let names = components(path);
    if names.contains(seq![DOT]) {
        let i = choose|i: int| 0 <= i < names.len() && names[i] == seq![DOT];
        assert(names[i] == seq![46u8]);
    }
    if names.contains(seq![DOT, DOT]) {
        let i = choose|i: int| 0 <= i < names.len() && names[i] == seq![DOT, DOT];
        assert(names[i] == seq![46u8, 46u8]);
    }
    lemma_objections(e, d, path, 0);
    assert forall|i: int| 0 <= i < ancestors(path).len() implies (objection(
        d,
        path,
        #[trigger] ancestors(path)[i],
        i == 0,
        false,
        physical,
    ) is None <==> is_plain_step(d, path, i)) by {
        assert(fault_at(d, Step::InspectLink, ancestors(path)[i]) is None);
    }
    assert(target_error(e.platform, d, path) matches Some(error) ==> error is InvalidTargetPath);
}

/// Where the file system lets itself be looked at, a target is rejected for what it is.
proof fn lemma_objections(e: EnvironmentView, d: DiskView, path: Seq<u8>, from: int)
    requires
        0 <= from <= ancestors(path).len(),
        forall|i: int|
            0 <= i < ancestors(path).len() ==> fault_at(
                d,
                Step::InspectLink,
                #[trigger] ancestors(path)[i],
            ) is None,
    ensures
        first_objection(
            d,
            path,
            from,
            false,
            plain_target_error(e.platform, d, macos_identity(path)),
        ) matches Some(error) ==> error is InvalidTargetPath,
    decreases ancestors(path).len() - from,
{
    if from < ancestors(path).len() {
        lemma_objections(e, d, path, from + 1);
        assert(fault_at(d, Step::InspectLink, ancestors(path)[from]) is None);
    }
}

/// A default location that cannot be a target is told as such: it is the environment that names it,
/// and not the request.
pub proof fn law_unusable_default_locations_are_told(
    e: EnvironmentView,
    d: DiskView,
    install: InstallQuery,
    uninstall: UninstallView,
    migrate: MigrateQuery,
    policy: ActivationPolicy,
    path: Seq<u8>,
)
    requires
        program_name_error(install.program_name) is None,
        are_about(install, uninstall, migrate, install.shell, install.program_name, None),
        !(install.shell is Other),
        default_path(e, install.shell, install.program_name) == Ok::<Seq<u8>, ErrorView>(path),
        parent(path) is Some,
        !is_sound_target(e, d, install.shell, path),
        e.platform != Platform::MacOs,
        forall|i: int|
            0 <= i < ancestors(path).len() ==> fault_at(
                d,
                Step::InspectLink,
                #[trigger] ancestors(path)[i],
            ) is None,
    ensures
        all_fail_as(
            e,
            d,
            install,
            uninstall,
            migrate,
            policy,
            FailureKind::DefaultPathUnavailable,
        ),
{
    let physical = plain_target_error(e.platform, d, macos_identity(path));
    lemma_no_objection(d, path, 0, false, physical);
    lemma_objections(e, d, path, 0);
    lemma_no_dots(path);
    assert forall|i: int| 0 <= i < ancestors(path).len() implies (objection(
        d,
        path,
        #[trigger] ancestors(path)[i],
        i == 0,
        false,
        physical,
    ) is None <==> is_plain_step(d, path, i)) by {
        assert(fault_at(d, Step::InspectLink, ancestors(path)[i]) is None);
    }
    assert(target_error(e.platform, d, path) matches Some(error) ==> error is InvalidTargetPath);
    assert(target_of(e, d, install.shell, install.program_name, None) matches Err(error)
        && error is InvalidTargetPath);
}

/// On macOS a target can be reached through the links of the system, and through no other. A path
/// above which such a link stands is accepted if the place that the link leads to can be a target.
pub proof fn law_system_links_are_followed(
    e: EnvironmentView,
    d: DiskView,
    shell: ShellView,
    name: Seq<char>,
    path: Seq<u8>,
)
    requires
        e.platform == Platform::MacOs,
        !(shell is Other),
        is_absolute(e.platform, path),
        forall|i: int|
            0 <= i < components(path).len() ==> (#[trigger] components(path)[i]) != seq![46u8]
                && components(path)[i] != seq![46u8, 46u8],
        parent(path) is Some,
        startup_file(e, shell) matches Ok(Some(profile)) ==> components(
            identity(e.platform, profile),
        ) != components(identity(e.platform, path)),
        forall|i: int|
            0 <= i < ancestors(path).len() ==> fault_at(
                d,
                Step::InspectLink,
                #[trigger] ancestors(path)[i],
            ) is None,
    ensures
        ({
            let place = identity(e.platform, path);
            &&& (forall|i: int|
                0 <= i < ancestors(path).len() ==> #[trigger] is_plain_step(d, path, i)
                    || is_system_step(d, path, i)) && (forall|i: int|
                0 <= i < ancestors(place).len() ==> #[trigger] is_plain_step(d, place, i))
                && is_absolute(e.platform, place) && (forall|i: int|
                0 <= i < components(place).len() ==> (#[trigger] components(place)[i])
                    != seq![46u8] && components(place)[i] != seq![46u8, 46u8]) ==> target_of(
                e,
                d,
                shell,
                name,
                Some(path),
            ) == Ok::<Seq<u8>, ErrorView>(path)
            &&& (exists|i: int|
                0 <= i < ancestors(path).len() && !(#[trigger] is_plain_step(d, path, i))
                    && !is_system_step(d, path, i)) ==> target_of(
                e,
                d,
                shell,
                name,
                Some(path),
            ) is Err
        }),
{
    let place = identity(e.platform, path);
    let physical = plain_target_error(e.platform, d, macos_identity(path));
    lemma_no_objection(d, path, 0, true, physical);
    lemma_no_objection(d, place, 0, false, None);
    lemma_no_dots(path);
    lemma_no_dots(place);
    assert forall|i: int| 0 <= i < ancestors(path).len() implies (objection(
        d,
        path,
        #[trigger] ancestors(path)[i],
        i == 0,
        true,
        physical,
    ) is None <==> (is_plain_step(d, path, i) || is_system_step(d, path, i) && physical is None)) by {
        assert(fault_at(d, Step::InspectLink, ancestors(path)[i]) is None);
    }
    assert forall|i: int| 0 <= i < ancestors(place).len() && is_plain_step(d, place, i) implies (
    objection(d, place, #[trigger] ancestors(place)[i], i == 0, false, None) is None) by {}
}

/// Whether what stands at or above a path is what may stand there, and no link.
pub open spec fn is_plain_step(d: DiskView, path: Seq<u8>, i: int) -> bool {
    match inspect_link(d, ancestors(path)[i]) {
        Ok(node) => node.link is None && (node.content is Directory || i == 0
            && node.content is File),
        Err(error) => error.kind == IoErrorKind::NotFound,
    }
}

/// Whether what stands above a path is a link of the system.
pub open spec fn is_system_step(d: DiskView, path: Seq<u8>, i: int) -> bool {
    i > 0 && (inspect_link(d, ancestors(path)[i]) matches Ok(node) && (node.link matches Some(link)
        && is_system_alias(ancestors(path)[i], link)))
}

/// A path without dots among its components is normalized.
proof fn lemma_no_dots(path: Seq<u8>)
    ensures
        (forall|i: int|
            0 <= i < components(path).len() ==> (#[trigger] components(path)[i]) != seq![46u8]
                && components(path)[i] != seq![46u8, 46u8]) ==> !components(path).contains(
            seq![DOT],
        ) && !components(path).contains(seq![DOT, DOT]),
{
    assert(seq![46u8] =~= seq![DOT]);
    assert(seq![46u8, 46u8] =~= seq![DOT, DOT]);
}

/// A completion file that cannot be read, or that cannot be written or removed, is told apart.
#[verifier::spinoff_prover]
#[verifier::rlimit(40)]
pub proof fn law_refused_files_are_told(
    e: EnvironmentView,
    d: DiskView,
    install: InstallQuery,
    uninstall: UninstallView,
    policy: ActivationPolicy,
    target: Seq<u8>,
)
    requires
        program_name_error(install.program_name) is None,
        program_name_error(uninstall.program_name) is None,
        target_of(e, d, install.shell, install.program_name, install.path_override) == Ok::<
            Seq<u8>,
            ErrorView,
        >(target),
        target_of(e, d, uninstall.shell, uninstall.program_name, uninstall.path_override) == Ok::<
            Seq<u8>,
            ErrorView,
        >(target),
    ensures
        read_bytes(d, target) matches Err(error) ==> (error.kind != IoErrorKind::NotFound
            ==> fails_as(
            installed(e, d, install, policy).1,
            Operation::Install,
            install.shell,
            FailureKind::CompletionFileUnreadable,
        )),
        (read_bytes(d, target) matches Err(error) ==> error.kind == IoErrorKind::NotFound)
            && written_if_changed(e.platform, d, target, install.script).1 is Err ==> fails_as(
            installed(e, d, install, policy).1,
            Operation::Install,
            install.shell,
            FailureKind::CompletionTargetUnavailable,
        ),
        removed(e.platform, d, target).1 is Err ==> fails_as(
            uninstalled(e, d, uninstall, policy).1,
            Operation::Uninstall,
            uninstall.shell,
            FailureKind::CompletionTargetUnavailable,
        ),
{
    reveal_strlit("remove file");
    lemma_written_action(e.platform, d, target, install.script);
}

/// A refusal to write a file is not taken for one to read it.
#[verifier::spinoff_prover]
#[verifier::rlimit(40)]
proof fn lemma_written_action(platform: Platform, d: DiskView, path: Seq<u8>, bytes: Seq<u8>)
    requires
        target_error(platform, d, path) is None,
        parent(path) is Some,
    ensures
        written(platform, d, path, bytes).1 matches Some(error) ==> (error matches ErrorView::Io {
            action,
            ..
        } && action != "read file"@),
{
    reveal_strlit("read file");
    reveal_strlit("create parent directory for");
    reveal_strlit("inspect file");
    reveal_strlit("replace file");
    reveal_strlit("create temporary file for");
    reveal_strlit("write file");
    reveal_strlit("set file permissions");
    reveal_strlit("sync file");
    assert("sync file"@[0] != "read file"@[0]);
    assert("create parent directory for"@.len() != "read file"@.len());
    assert("inspect file"@.len() != "read file"@.len());
    assert("replace file"@.len() != "read file"@.len());
    assert("create temporary file for"@.len() != "read file"@.len());
    assert("write file"@.len() != "read file"@.len());
    assert("set file permissions"@.len() != "read file"@.len());
}

/// Whether an operation that manages activation gets as far as the startup file of a shell.
pub open spec fn reaches_startup_file(
    e: EnvironmentView,
    shell: ShellView,
    name: Seq<char>,
    target: Seq<u8>,
) -> bool {
    &&& has_blocks(shell)
    &&& !is_served(e, shell, name, target)
    &&& shell is Zsh ==> zsh_finds(name, target)
    &&& own_block(shell, name, target) is Ok
    &&& startup_file(e, shell) matches Ok(Some(_))
}

/// A startup file whose blocks cannot be told apart fails an install: the failure names it as
/// corrupted, and it stays as it was. One that cannot be read, that is no text or that is a link is
/// named as unavailable. The script is in place by then; the failure says so, and activation is
/// left to the user.
#[verifier::spinoff_prover]
#[verifier::rlimit(40)]
pub proof fn law_broken_startup_files_fail_the_install(
    e: EnvironmentView,
    d: DiskView,
    q: InstallQuery,
    target: Seq<u8>,
)
    requires
        program_name_error(q.program_name) is None,
        target_of(e, d, q.shell, q.program_name, q.path_override) == Ok::<Seq<u8>, ErrorView>(
            target,
        ),
        written_if_changed(e.platform, d, target, q.script).1 is Ok,
        reaches_startup_file(e, q.shell, q.program_name, target),
        startup_trouble(
            e,
            written_if_changed(e.platform, d, target, q.script).0,
            startup_file(e, q.shell)->Ok_0->0,
            own_block(q.shell, q.program_name, target)->Ok_0,
        ) is Some,
    ensures
        ({
            let profile = startup_file(e, q.shell)->Ok_0->0;
            let b = own_block(q.shell, q.program_name, target)->Ok_0;
            let (ready, change) = written_if_changed(e.platform, d, target, q.script);
            let (after, outcome) = installed(e, d, q, ActivationPolicy::AutoManaged);
            &&& fails_as(
                outcome,
                Operation::Install,
                q.shell,
                startup_trouble(e, ready, profile, b)->0,
            )
            &&& after == ready
            &&& outcome->Err_0->report.file_change == Some(change->Ok_0)
            &&& outcome->Err_0->report.activation matches Some(a) ==> reports(
                a,
                ActivationMode::Manual,
                Availability::ManualActionRequired,
                target,
            )
            &&& outcome->Err_0->report.affected_locations == seq![target, profile]
        }),
{
    let profile = startup_file(e, q.shell)->Ok_0->0;
    let b = own_block(q.shell, q.program_name, target)->Ok_0;
    let ready = written_if_changed(e.platform, d, target, q.script).0;
    lemma_install_trouble(e, ready, q.shell, q.program_name, target, profile, b);
}

/// The same of an uninstall, which has taken the completion file away by then.
#[verifier::spinoff_prover]
#[verifier::rlimit(40)]
pub proof fn law_broken_startup_files_fail_the_uninstall(
    e: EnvironmentView,
    d: DiskView,
    q: UninstallView,
    target: Seq<u8>,
)
    requires
        program_name_error(q.program_name) is None,
        target_of(e, d, q.shell, q.program_name, q.path_override) == Ok::<Seq<u8>, ErrorView>(
            target,
        ),
        removed(e.platform, d, target).1 is Ok,
        reaches_startup_file(e, q.shell, q.program_name, target),
        startup_trouble(
            e,
            removed(e.platform, d, target).0,
            startup_file(e, q.shell)->Ok_0->0,
            own_block(q.shell, q.program_name, target)->Ok_0,
        ) is Some,
    ensures
        ({
            let profile = startup_file(e, q.shell)->Ok_0->0;
            let b = own_block(q.shell, q.program_name, target)->Ok_0;
            let (gone, change) = removed(e.platform, d, target);
            let (after, outcome) = uninstalled(e, d, q, ActivationPolicy::AutoManaged);
            &&& fails_as(
                outcome,
                Operation::Uninstall,
                q.shell,
                startup_trouble(e, gone, profile, b)->0,
            )
            &&& after == gone
            &&& outcome->Err_0->report.file_change == Some(change->Ok_0)
            &&& outcome->Err_0->report.affected_locations == seq![target, profile]
        }),
{
    let profile = startup_file(e, q.shell)->Ok_0->0;
    let b = own_block(q.shell, q.program_name, target)->Ok_0;
    let gone = removed(e.platform, d, target).0;
    lemma_cleanup_trouble(e, gone, q.shell, q.program_name, target, profile, b);
}

/// A startup file that the file system refuses to write is named as unavailable.
pub proof fn law_refused_startup_files_are_told(
    e: EnvironmentView,
    d: DiskView,
    q: InstallQuery,
    uninstall: UninstallView,
    target: Seq<u8>,
)
    requires
        program_name_error(q.program_name) is None,
        uninstall.shell == q.shell && uninstall.program_name == q.program_name,
        target_of(e, d, q.shell, q.program_name, q.path_override) == Ok::<Seq<u8>, ErrorView>(
            target,
        ),
        target_of(e, d, q.shell, q.program_name, uninstall.path_override) == Ok::<
            Seq<u8>,
            ErrorView,
        >(target),
        reaches_startup_file(e, q.shell, q.program_name, target),
        parent(startup_file(e, q.shell)->Ok_0->0) is Some,
    ensures
        ({
            let policy = ActivationPolicy::AutoManaged;
            let profile = startup_file(e, q.shell)->Ok_0->0;
            let b = own_block(q.shell, q.program_name, target)->Ok_0;
            let (ready, change) = written_if_changed(e.platform, d, target, q.script);
            let (gone, removal) = removed(e.platform, d, target);
            &&& change is Ok && is_refused_write(upserted(e.platform, ready, profile, b).1)
                ==> fails_as(
                installed(e, d, q, policy).1,
                Operation::Install,
                q.shell,
                FailureKind::ProfileUnavailable,
            )
            &&& removal is Ok && is_refused_write(
                blocks_removed(e.platform, gone, profile, seq![b]).1,
            ) ==> fails_as(
                uninstalled(e, d, uninstall, policy).1,
                Operation::Uninstall,
                q.shell,
                FailureKind::ProfileUnavailable,
            )
        }),
{
    let profile = startup_file(e, q.shell)->Ok_0->0;
    let b = own_block(q.shell, q.program_name, target)->Ok_0;
    let ready = written_if_changed(e.platform, d, target, q.script).0;
    let gone = removed(e.platform, d, target).0;
    lemma_refused_edit(e, ready, q.shell, q.program_name, target, profile, b);
    lemma_refused_edit(e, gone, q.shell, q.program_name, target, profile, b);
}

/// Whether an edit failed because the file system refused something.
pub open spec fn is_refused_write(outcome: Result<FileChange, ErrorView>) -> bool {
    outcome matches Err(error) && error is Io
}

#[verifier::spinoff_prover]
#[verifier::rlimit(40)]
proof fn lemma_refused_edit(
    e: EnvironmentView,
    d: DiskView,
    shell: ShellView,
    name: Seq<char>,
    target: Seq<u8>,
    profile: Seq<u8>,
    b: BlockView,
)
    requires
        has_blocks(shell),
        !is_served(e, shell, name, target),
        startup_file(e, shell) == Ok::<Option<Seq<u8>>, ErrorView>(Some(profile)),
        own_block(shell, name, target) == Ok::<BlockView, ErrorView>(b),
    ensures
        is_refused_write(upserted(e.platform, d, profile, b).1) ==> (activated(
            e,
            d,
            shell,
            name,
            target,
        ).1 matches Err(error) && error is Io),
        is_refused_write(blocks_removed(e.platform, d, profile, seq![b]).1) ==> (deactivated(
            e,
            d,
            shell,
            name,
            target,
        ).1 matches Err(error) && error is Io),
{
}

/// What is wrong with a startup file for a block: it is one that must not be written, such as a
/// link, its blocks cannot be told apart, or it is no text.
pub open spec fn startup_trouble(
    e: EnvironmentView,
    d: DiskView,
    profile: Seq<u8>,
    b: BlockView,
) -> Option<FailureKind> {
    match target_error(e.platform, d, profile) {
        Some(ErrorView::InvalidTargetPath { path, .. }) => if path == profile {
            Some(FailureKind::ProfileUnavailable)
        } else {
            None
        },
        Some(_) => None,
        None => match profile_text(d, profile) {
            Err(_) => Some(FailureKind::ProfileUnavailable),
            Ok(_) => if with_block(profile, text_at(d, profile), b) is Err {
                Some(FailureKind::ProfileCorrupted)
            } else {
                None
            },
        },
    }
}

/// Whether an error tells of what is wrong with a startup file.
spec fn is_trouble(kind: FailureKind, profile: Seq<u8>, error: ErrorView) -> bool {
    match error {
        ErrorView::InvalidTargetPath { path, .. } => path == profile && kind
            == FailureKind::ProfileUnavailable,
        ErrorView::InvalidUtf8File { path } => path == profile && kind
            == FailureKind::ProfileUnavailable,
        ErrorView::Io { path, .. } => path == profile && kind == FailureKind::ProfileUnavailable,
        ErrorView::ManagedBlockMissingEnd { path, .. } => path == profile && kind
            == FailureKind::ProfileCorrupted,
        ErrorView::InvalidManagedBlock { path, .. } => path == profile && kind
            == FailureKind::ProfileCorrupted,
        _ => false,
    }
}

proof fn lemma_edit_trouble(e: EnvironmentView, d: DiskView, profile: Seq<u8>, b: BlockView)
    requires
        startup_trouble(e, d, profile, b) is Some,
    ensures
        ({
            let kind = startup_trouble(e, d, profile, b)->0;
            let put = upserted(e.platform, d, profile, b);
            let taken = blocks_removed(e.platform, d, profile, seq![b]);
            &&& put.0 == d && taken.0 == d
            &&& put.1 matches Err(error) && is_trouble(kind, profile, error)
            &&& taken.1 matches Err(error) && is_trouble(kind, profile, error)
        }),
{
    match with_block(profile, text_at(d, profile), b) {
        Err(error) => {
            lemma_refused(profile, text_at(d, profile), b, error);
        },
        Ok(_) => {},
    }
}

#[verifier::spinoff_prover]
#[verifier::rlimit(40)]
proof fn lemma_install_trouble(
    e: EnvironmentView,
    d: DiskView,
    shell: ShellView,
    name: Seq<char>,
    target: Seq<u8>,
    profile: Seq<u8>,
    b: BlockView,
)
    requires
        has_blocks(shell),
        !is_served(e, shell, name, target),
        startup_file(e, shell) == Ok::<Option<Seq<u8>>, ErrorView>(Some(profile)),
        own_block(shell, name, target) == Ok::<BlockView, ErrorView>(b),
        startup_trouble(e, d, profile, b) is Some,
    ensures
        activated(e, d, shell, name, target).0 == d,
        activated(e, d, shell, name, target).1 matches Err(error) && is_trouble(
            startup_trouble(e, d, profile, b)->0,
            profile,
            error,
        ),
{
    lemma_edit_trouble(e, d, profile, b);
}

#[verifier::spinoff_prover]
#[verifier::rlimit(40)]
proof fn lemma_cleanup_trouble(
    e: EnvironmentView,
    d: DiskView,
    shell: ShellView,
    name: Seq<char>,
    target: Seq<u8>,
    profile: Seq<u8>,
    b: BlockView,
)
    requires
        has_blocks(shell),
        startup_file(e, shell) == Ok::<Option<Seq<u8>>, ErrorView>(Some(profile)),
        own_block(shell, name, target) == Ok::<BlockView, ErrorView>(b),
        startup_trouble(e, d, profile, b) is Some,
        !is_served(e, shell, name, target),
    ensures
        deactivated(e, d, shell, name, target).0 == d,
        deactivated(e, d, shell, name, target).1 matches Err(error) && is_trouble(
            startup_trouble(e, d, profile, b)->0,
            profile,
            error,
        ),
{
    lemma_edit_trouble(e, d, profile, b);
}

/// A startup file whose blocks cannot be told apart, that is not readable text or that is a link
/// fails a migration, and nothing is done to it. It fails detection too, unless it is no text and
/// the path is not the default location: a file of the user's is reported then.
pub proof fn law_broken_startup_files_fail_the_rest(
    e: EnvironmentView,
    d: DiskView,
    q: MigrateQuery,
    target: Seq<u8>,
    trace_id: u64,
)
    requires
        program_name_error(q.program_name) is None,
        target_of(e, d, q.shell, q.program_name, q.path_override) == Ok::<Seq<u8>, ErrorView>(
            target,
        ),
        reaches_startup_file(e, q.shell, q.program_name, target),
        fault_at(d, Step::Inspect, target) is None,
        fault_at(d, Step::Read, target) is None,
        startup_trouble(
            e,
            d,
            startup_file(e, q.shell)->Ok_0->0,
            own_block(q.shell, q.program_name, target)->Ok_0,
        ) is Some,
    ensures
        ({
            let profile = startup_file(e, q.shell)->Ok_0->0;
            let b = own_block(q.shell, q.program_name, target)->Ok_0;
            let kind = startup_trouble(e, d, profile, b)->0;
            let is_own = is_at_default(e, q.shell, q.program_name, target);
            let (after, outcome) = migration(e, d, q);
            let detected = detection_at(e, d, q.shell, q.program_name, target, trace_id);
            &&& after == d
            &&& outcome is Err
            &&& kind == FailureKind::ProfileUnavailable ==> fails_as(
                outcome,
                Operation::MigrateManagedBlocks,
                q.shell,
                kind,
            )
            &&& kind == FailureKind::ProfileCorrupted && file_exists_view(d, target) is Ok
                && shell_quoted(profile) is Ok ==> fails_as(
                detected,
                Operation::DetectActivation,
                q.shell,
                kind,
            )
            &&& is_own || (target_error(e.platform, d, profile) is Some && shell_quoted(
                profile,
            ) is Ok) ==> detected is Err
            &&& kind == FailureKind::ProfileUnavailable && !is_own && detected is Ok
                ==> is_foreign_state(d, target, detected->Ok_0)
        }),
{
    let profile = startup_file(e, q.shell)->Ok_0->0;
    let b = own_block(q.shell, q.program_name, target)->Ok_0;
    lemma_migration_trouble(e, d, q, target, profile, b);
    lemma_detection_trouble(e, d, q.shell, q.program_name, target, profile, b);
    lemma_foreign_state(d, q.shell, q.program_name, target);
}

proof fn lemma_migration_trouble(
    e: EnvironmentView,
    d: DiskView,
    q: MigrateQuery,
    target: Seq<u8>,
    profile: Seq<u8>,
    b: BlockView,
)
    requires
        program_name_error(q.program_name) is None,
        target_of(e, d, q.shell, q.program_name, q.path_override) == Ok::<Seq<u8>, ErrorView>(
            target,
        ),
        reaches_startup_file(e, q.shell, q.program_name, target),
        startup_file(e, q.shell) == Ok::<Option<Seq<u8>>, ErrorView>(Some(profile)),
        own_block(q.shell, q.program_name, target) == Ok::<BlockView, ErrorView>(b),
        startup_trouble(e, d, profile, b) is Some,
    ensures
        ({
            let kind = startup_trouble(e, d, profile, b)->0;
            let (after, outcome) = migration(e, d, q);
            &&& after == d
            &&& outcome is Err
            &&& kind == FailureKind::ProfileUnavailable ==> fails_as(
                outcome,
                Operation::MigrateManagedBlocks,
                q.shell,
                kind,
            )
        }),
{
    lemma_migrates(e, d, q.shell, q.program_name, target, q.legacy_blocks);
    let all = q.legacy_blocks.push(b);
    let contents = text_at(d, profile);
    match with_block(profile, contents, b) {
        Err(error) => {
            let lines = lines_of(contents);
            assert(all[all.len() - 1] == b);
            assert(collect_spans(profile, lines, all, all.len() as int) is Err);
        },
        Ok(_) => {},
    }
}

proof fn lemma_detection_trouble(
    e: EnvironmentView,
    d: DiskView,
    shell: ShellView,
    name: Seq<char>,
    target: Seq<u8>,
    profile: Seq<u8>,
    b: BlockView,
)
    requires
        has_blocks(shell),
        !is_served(e, shell, name, target),
        startup_file(e, shell) == Ok::<Option<Seq<u8>>, ErrorView>(Some(profile)),
        own_block(shell, name, target) == Ok::<BlockView, ErrorView>(b),
        startup_trouble(e, d, profile, b) is Some,
    ensures
        detected(e, d, shell, name, target) is Err,
        file_exists_view(d, target) is Ok && shell_quoted(profile) is Ok ==> is_trouble(
            startup_trouble(e, d, profile, b)->0,
            profile,
            detected(e, d, shell, name, target)->Err_0,
        ),
{
    assert(block_matches(e.platform, d, profile, b) matches Err(error) && is_trouble(
        startup_trouble(e, d, profile, b)->0,
        profile,
        error,
    ));
}

/// Detection at a path that cannot be a target names the path as invalid, and one of a file that
/// cannot be looked at names the file as unreadable.
pub proof fn law_detection_tells_what_is_wrong_with_the_file(
    e: EnvironmentView,
    d: DiskView,
    shell: ShellView,
    name: Seq<char>,
    target: Seq<u8>,
    trace_id: u64,
)
    requires
        program_name_error(name) is None,
        !(shell is Other),
        parent(target) is Some,
    ensures
        ({
            let outcome = detection_at(e, d, shell, name, target, trace_id);
            &&& target_error(e.platform, d, target) matches Some(
                ErrorView::InvalidTargetPath { path, .. },
            ) ==> (path == target ==> fails_as(
                outcome,
                Operation::DetectActivation,
                shell,
                FailureKind::InvalidTargetPath,
            ))
            &&& target_error(e.platform, d, target) is None && file_exists_view(d, target) is Err
                ==> fails_as(
                outcome,
                Operation::DetectActivation,
                shell,
                FailureKind::CompletionFileUnreadable,
            )
        }),
{
}

/// A completion at a path that is not the default location is reported on even where the startup file
/// cannot be read, or is no text: it is a file of the user's then.
pub proof fn law_named_paths_need_no_startup_file(
    e: EnvironmentView,
    d: DiskView,
    shell: ShellView,
    name: Seq<char>,
    target: Seq<u8>,
    trace_id: u64,
)
    requires
        program_name_error(name) is None,
        reaches_startup_file(e, shell, name, target),
        !is_at_default(e, shell, name, target),
        target_error(e.platform, d, startup_file(e, shell)->Ok_0->0) is None,
        profile_text(d, startup_file(e, shell)->Ok_0->0) is Err,
        fault_at(d, Step::Inspect, target) is None,
        parent(target) is Some,
        target_error(e.platform, d, target) is None,
        file_exists_view(d, target) is Ok,
        utf8_text(spelled(target)) is Some,
        parent(target) matches Some(dir) ==> utf8_text(spelled(dir)) is Some,
    ensures
        detection_at(e, d, shell, name, target, trace_id) matches Ok(report) && is_foreign_state(
            d,
            target,
            report,
        ),
{
    let profile = startup_file(e, shell)->Ok_0->0;
    law_literals_are_read_back(target);
    law_literals_are_read_back(parent(target)->0);
    lemma_foreign_state(d, shell, name, target);
    let b = own_block(shell, name, target)->Ok_0;
    assert(block_matches(e.platform, d, profile, b) matches Err(error) && (error is Io
        || error is InvalidUtf8File));
    assert(detected(e, d, shell, name, target) matches Err(error) && (error is Io
        || error is InvalidUtf8File));
}

/// A completion at a path that a caller names is reported on even where no home directory is known:
/// it is a file of the user's then.
pub proof fn law_named_paths_need_no_home(
    e: EnvironmentView,
    d: DiskView,
    shell: ShellView,
    name: Seq<char>,
    target: Seq<u8>,
    trace_id: u64,
)
    requires
        program_name_error(name) is None,
        has_blocks(shell),
        startup_file(e, shell) == Err::<Option<Seq<u8>>, ErrorView>(ErrorView::MissingHome),
        !is_at_default(e, shell, name, target),
        fault_at(d, Step::Inspect, target) is None,
        parent(target) is Some,
        target_error(e.platform, d, target) is None,
        file_exists_view(d, target) is Ok,
        utf8_text(spelled(target)) is Some,
        parent(target) matches Some(dir) ==> utf8_text(spelled(dir)) is Some,
    ensures
        detection_at(e, d, shell, name, target, trace_id) matches Ok(report) && is_foreign_state(
            d,
            target,
            report,
        ),
{
    law_literals_are_read_back(target);
    law_literals_are_read_back(parent(target)->0);
    lemma_foreign_state(d, shell, name, target);
}

} // verus!

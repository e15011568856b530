//! What holds of the failures of operations.
use vstd::prelude::*;

use crate::disk::DiskView;
use crate::environment::{EnvironmentView, Platform};
use crate::error::{contextual, error_code, error_is_retryable, ErrorView};
use crate::fs::{removed, written, written_if_changed};
use crate::laws::discovery::law_wiring_is_found;
use crate::laws::profiles::text_at;
use crate::laws::shells::own_block;
use crate::managed_block::{
    block_matches, blocks_migrated, blocks_removed, collect_spans, migrated_text, upserted,
    with_block, without_blocks, BlockView,
};
use crate::model::{
    kind_code, kind_is_retryable, ActivationPolicy, FailureKind, FailureView, FileChange, Operation,
    OperationEventPhase, ShellView,
};
use crate::paths::{ancestors, first_objection, macos_identity, plain_target_error, target_error};
use crate::service::common::target_of;
use crate::service::detect::{detection, detection_at};
use crate::service::events::{failed_target, finished, started, EventView};
use crate::service::install::{activation_at, installed, InstallQuery};
use crate::service::migrate::{migration, MigrateQuery};
use crate::service::uninstall::{uninstalled, UninstallView};
use crate::shell::backend::{activated, deactivated, detected, migrated};
use crate::shell::discovery::{first_login_file, loader_of, login_files, startup_files_of};

verus! {

/// Whether an error, if there is one, is not a structured failure.
spec fn is_plain(error: Option<ErrorView>) -> bool {
    error matches Some(e) ==> !(e is Failure)
}

spec fn fails_plainly<T>(outcome: Result<T, ErrorView>) -> bool {
    outcome matches Err(e) ==> !(e is Failure)
}

proof fn lemma_objection(
    d: DiskView,
    path: Seq<u8>,
    from: int,
    aliases: bool,
    physical: Option<ErrorView>,
)
    requires
        is_plain(physical),
    ensures
        is_plain(first_objection(d, path, from, aliases, physical)),
    decreases ancestors(path).len() - from,
{
    if 0 <= from < ancestors(path).len() {
        lemma_objection(d, path, from + 1, aliases, physical);
    }
}

proof fn lemma_target(platform: Platform, d: DiskView, path: Seq<u8>)
    ensures
        is_plain(target_error(platform, d, path)),
{
    let place = macos_identity(path);
    lemma_objection(d, place, 0, false, None);
    lemma_objection(
        d,
        path,
        0,
        platform == Platform::MacOs,
        plain_target_error(platform, d, place),
    );
}

proof fn lemma_target_of(
    e: EnvironmentView,
    d: DiskView,
    shell: ShellView,
    name: Seq<char>,
    path_override: Option<Seq<u8>>,
)
    ensures
        fails_plainly(target_of(e, d, shell, name, path_override)),
{
    let path = match path_override {
        Some(path) => path,
        None => crate::service::common::default_target(e, shell, name)->Ok_0,
    };
    lemma_target(e.platform, d, path);
}

proof fn lemma_files(platform: Platform, d: DiskView, path: Seq<u8>, bytes: Seq<u8>)
    ensures
        is_plain(written(platform, d, path, bytes).1),
        fails_plainly(written_if_changed(platform, d, path, bytes).1),
        fails_plainly(removed(platform, d, path).1),
{
    lemma_target(platform, d, path);
}

proof fn lemma_collect(
    path: Seq<u8>,
    lines: Seq<Seq<char>>,
    blocks: Seq<BlockView>,
    count: int,
)
    ensures
        fails_plainly(collect_spans(path, lines, blocks, count)),
    decreases count,
{
    if count > 0 {
        lemma_collect(path, lines, blocks, count - 1);
    }
}

proof fn lemma_texts(path: Seq<u8>, contents: Seq<char>, blocks: Seq<BlockView>, b: BlockView)
    ensures
        fails_plainly(with_block(path, contents, b)),
        fails_plainly(without_blocks(path, contents, blocks)),
        fails_plainly(migrated_text(path, contents, blocks, b)),
{
    let lines = crate::text::lines_of(contents);
    let all = blocks.push(b);
    lemma_collect(path, lines, blocks, blocks.len() as int);
    lemma_collect(path, lines, all, all.len() as int);
}

proof fn lemma_edits(
    platform: Platform,
    d: DiskView,
    path: Seq<u8>,
    blocks: Seq<BlockView>,
    b: BlockView,
)
    ensures
        fails_plainly(upserted(platform, d, path, b).1),
        fails_plainly(blocks_removed(platform, d, path, blocks).1),
        fails_plainly(blocks_migrated(platform, d, path, blocks, b).1),
        fails_plainly(block_matches(platform, d, path, b)),
{
    let contents = text_at(d, path);
    lemma_target(platform, d, path);
    lemma_texts(path, contents, blocks, b);
    if with_block(path, contents, b) is Ok {
        lemma_files(
            platform,
            d,
            path,
            crate::text::text_bytes(with_block(path, contents, b)->Ok_0),
        );
    }
    if without_blocks(path, contents, blocks) is Ok {
        lemma_files(
            platform,
            d,
            path,
            crate::text::text_bytes(without_blocks(path, contents, blocks)->Ok_0.0),
        );
    }
    if migrated_text(path, contents, blocks, b) is Ok {
        lemma_files(
            platform,
            d,
            path,
            crate::text::text_bytes(migrated_text(path, contents, blocks, b)->Ok_0.0),
        );
    }
}

proof fn lemma_login(d: DiskView, files: Seq<Seq<u8>>, n: int)
    ensures
        fails_plainly(first_login_file(d, files, n)),
    decreases files.len() - n,
{
    if 0 <= n < files.len() {
        lemma_login(d, files, n + 1);
    }
}

proof fn lemma_loader(e: EnvironmentView, d: DiskView)
    requires
        d.nodes.dom().finite(),
    ensures
        fails_plainly(loader_of(e, d)),
{
    match crate::environment::home_dir(e) {
        Ok(home) => {
            lemma_login(d, login_files(home), 0);
        },
        Err(_) => {},
    }
    match startup_files_of(e, d) {
        Ok(files) => {
            law_wiring_is_found(e, d, files);
        },
        Err(_) => {},
    }
}

#[verifier::rlimit(40)]
proof fn lemma_activated(
    e: EnvironmentView,
    d: DiskView,
    shell: ShellView,
    name: Seq<char>,
    target: Seq<u8>,
)
    requires
        d.nodes.dom().finite(),
    ensures
        fails_plainly(activated(e, d, shell, name, target).1),
{
    lemma_loader(e, d);
    match (crate::paths::startup_file(e, shell), own_block(shell, name, target)) {
        (Ok(Some(profile)), Ok(b)) => {
            lemma_edits(e.platform, d, profile, seq![b], b);
        },
        _ => {},
    }
}

proof fn lemma_deactivated(
    e: EnvironmentView,
    d: DiskView,
    shell: ShellView,
    name: Seq<char>,
    target: Seq<u8>,
)
    requires
        d.nodes.dom().finite(),
    ensures
        fails_plainly(deactivated(e, d, shell, name, target).1),
{
    lemma_loader(e, d);
    match (crate::paths::startup_file(e, shell), own_block(shell, name, target)) {
        (Ok(Some(profile)), Ok(b)) => {
            lemma_edits(e.platform, d, profile, seq![b], b);
        },
        _ => {},
    }
}

proof fn lemma_migrated(
    e: EnvironmentView,
    d: DiskView,
    shell: ShellView,
    name: Seq<char>,
    target: Seq<u8>,
    legacy: Seq<BlockView>,
)
    requires
        d.nodes.dom().finite(),
    ensures
        fails_plainly(migrated(e, d, shell, name, target, legacy).1),
{
    lemma_loader(e, d);
    match (crate::paths::startup_file(e, shell), own_block(shell, name, target)) {
        (Ok(Some(profile)), Ok(b)) => {
            lemma_edits(e.platform, d, profile, legacy, b);
        },
        _ => {},
    }
}

proof fn lemma_detected(
    e: EnvironmentView,
    d: DiskView,
    shell: ShellView,
    name: Seq<char>,
    target: Seq<u8>,
)
    requires
        d.nodes.dom().finite(),
    ensures
        fails_plainly(detected(e, d, shell, name, target)),
{
    match (crate::paths::startup_file(e, shell), own_block(shell, name, target)) {
        (Ok(Some(profile)), Ok(b)) => {
            lemma_edits(e.platform, d, profile, seq![b], b);
        },
        _ => {},
    }
    match shell {
        ShellView::Bash => {
            lemma_loader(e, d);
            assert(fails_plainly(crate::shell::bash::bash_detected(e, d, name, target)));
        },
        ShellView::Zsh => {
            assert(fails_plainly(crate::shell::zsh::zsh_detected(e, d, name, target)));
        },
        ShellView::Powershell => {
            assert(fails_plainly(
                crate::shell::powershell::powershell_detected(e, d, name, target),
            ));
        },
        ShellView::Elvish => {
            assert(fails_plainly(crate::shell::elvish::elvish_detected(e, d, name, target)));
        },
        _ => {},
    }
}

/// Whether an outcome, where it is a structured failure, names the operation and the call.
pub open spec fn names_call<T>(
    outcome: Result<T, ErrorView>,
    operation: Operation,
    trace_id: u64,
) -> bool {
    outcome matches Err(ErrorView::Failure { report, .. }) ==> report.trace_id == trace_id
        && report.operation == operation
}

spec fn describes_call(
    description: Option<ErrorView>,
    operation: Operation,
    trace_id: u64,
) -> bool {
    description matches Some(error) ==> (error matches ErrorView::Failure { report, .. }
        && report.trace_id == trace_id && report.operation == operation)
}

proof fn lemma_install_descriptions(
    platform: Platform,
    q: InstallQuery,
    policy: ActivationPolicy,
    target: Seq<u8>,
    change: FileChange,
    error: ErrorView,
)
    ensures
        describes_call(
            crate::service::install::describe_resolve(platform, q, error),
            Operation::Install,
            q.trace_id,
        ),
        describes_call(
            crate::service::install::describe_file(q, target, error),
            Operation::Install,
            q.trace_id,
        ),
        describes_call(
            crate::service::install::describe_activation(
                platform,
                q,
                policy,
                target,
                change,
                error,
            ),
            Operation::Install,
            q.trace_id,
        ),
{
}

proof fn lemma_uninstall_descriptions(
    platform: Platform,
    q: UninstallView,
    target: Seq<u8>,
    change: FileChange,
    error: ErrorView,
)
    ensures
        describes_call(
            crate::service::uninstall::describe_resolve(platform, q, error),
            Operation::Uninstall,
            q.trace_id,
        ),
        describes_call(
            crate::service::uninstall::describe_file(q, target, error),
            Operation::Uninstall,
            q.trace_id,
        ),
        describes_call(
            crate::service::uninstall::describe_cleanup(platform, q, target, change, error),
            Operation::Uninstall,
            q.trace_id,
        ),
{
}

proof fn lemma_migrate_descriptions(
    platform: Platform,
    q: MigrateQuery,
    target: Seq<u8>,
    error: ErrorView,
)
    ensures
        describes_call(
            crate::service::migrate::describe_resolve(platform, q, error),
            Operation::MigrateManagedBlocks,
            q.trace_id,
        ),
        describes_call(
            crate::service::migrate::describe_migration(platform, q, target, error),
            Operation::MigrateManagedBlocks,
            q.trace_id,
        ),
{
}

proof fn lemma_detect_descriptions(
    platform: Platform,
    trace_id: u64,
    shell: ShellView,
    target: Seq<u8>,
    error: ErrorView,
)
    ensures
        describes_call(
            crate::service::detect::describe_resolve(platform, trace_id, shell, error),
            Operation::DetectActivation,
            trace_id,
        ),
        describes_call(
            crate::service::detect::describe_detect(platform, trace_id, shell, target, error),
            Operation::DetectActivation,
            trace_id,
        ),
{
}

/// A structured failure of an install says so and carries the identifier of the call.
pub proof fn law_install_failures_name_the_call(
    e: EnvironmentView,
    d: DiskView,
    q: InstallQuery,
    policy: ActivationPolicy,
)
    requires
        d.nodes.dom().finite(),
    ensures
        names_call(installed(e, d, q, policy).1, Operation::Install, q.trace_id),
{
    lemma_target_of(e, d, q.shell, q.program_name, q.path_override);
    match target_of(e, d, q.shell, q.program_name, q.path_override) {
        Err(error) => {
            lemma_install_descriptions(
                e.platform,
                q,
                policy,
                Seq::empty(),
                FileChange::Absent,
                error,
            );
        },
        Ok(target) => {
            lemma_files(e.platform, d, target, q.script);
            crate::laws::files::law_write_changes_one_file(e.platform, d, target, q.script);
            let (ready, change) = written_if_changed(e.platform, d, target, q.script);
            match change {
                Err(error) => {
                    lemma_install_descriptions(
                        e.platform,
                        q,
                        policy,
                        target,
                        FileChange::Absent,
                        error,
                    );
                },
                Ok(file_change) => {
                    lemma_finite(d, ready, crate::path::components(target));
                    lemma_activated(e, ready, q.shell, q.program_name, target);
                    match activation_at(e, ready, q, policy, target).1 {
                        Err(error) => {
                            lemma_install_descriptions(
                                e.platform,
                                q,
                                policy,
                                target,
                                file_change,
                                error,
                            );
                        },
                        Ok(_) => {},
                    }
                },
            }
        },
    }
}

/// A file system with finitely many entries has finitely many behind a write or a removal.
proof fn lemma_finite(d: DiskView, after: DiskView, key: Seq<Seq<u8>>)
    requires
        d.nodes.dom().finite(),
        crate::laws::files::differs_at(d, after, key),
    ensures
        after.nodes.dom().finite(),
{
    let above = Seq::new(key.len(), |n: int| key.take(n)).to_set();
    vstd::seq_lib::seq_to_set_is_finite(Seq::new(key.len(), |n: int| key.take(n)));
    let bound = d.nodes.dom().union(above).insert(key);
    assert(after.nodes.dom().subset_of(bound)) by {
        assert forall|k: Seq<Seq<u8>>| after.nodes.dom().contains(k) implies bound.contains(k) by {
            if k != key && !d.nodes.dom().contains(k) {
                let list = Seq::new(key.len(), |n: int| key.take(n));
                assert(list[k.len() as int] == k);
                assert(list.contains(k));
            }
        }
    }
    vstd::set_lib::lemma_set_subset_finite(bound, after.nodes.dom());
}

/// A structured failure of an uninstall says so and carries the identifier of the call.
pub proof fn law_uninstall_failures_name_the_call(
    e: EnvironmentView,
    d: DiskView,
    q: UninstallView,
    policy: ActivationPolicy,
)
    requires
        d.nodes.dom().finite(),
    ensures
        names_call(uninstalled(e, d, q, policy).1, Operation::Uninstall, q.trace_id),
{
    lemma_target_of(e, d, q.shell, q.program_name, q.path_override);
    match target_of(e, d, q.shell, q.program_name, q.path_override) {
        Err(error) => {
            lemma_uninstall_descriptions(
                e.platform,
                q,
                Seq::empty(),
                FileChange::Absent,
                error,
            );
        },
        Ok(target) => {
            lemma_files(e.platform, d, target, Seq::empty());
            crate::laws::files::law_removal_takes_one_file(e.platform, d, target);
            let (gone, change) = removed(e.platform, d, target);
            match change {
                Err(error) => {
                    lemma_uninstall_descriptions(e.platform, q, target, FileChange::Absent, error);
                },
                Ok(file_change) => {
                    lemma_finite(d, gone, crate::path::components(target));
                    lemma_deactivated(e, gone, q.shell, q.program_name, target);
                    match deactivated(e, gone, q.shell, q.program_name, target).1 {
                        Err(error) => {
                            lemma_uninstall_descriptions(
                                e.platform,
                                q,
                                target,
                                file_change,
                                error,
                            );
                        },
                        Ok(_) => {},
                    }
                },
            }
        },
    }
}

/// A structured failure of a migration says so and carries the identifier of the call.
pub proof fn law_migration_failures_name_the_call(
    e: EnvironmentView,
    d: DiskView,
    q: MigrateQuery,
)
    requires
        d.nodes.dom().finite(),
    ensures
        names_call(migration(e, d, q).1, Operation::MigrateManagedBlocks, q.trace_id),
{
    lemma_target_of(e, d, q.shell, q.program_name, q.path_override);
    match target_of(e, d, q.shell, q.program_name, q.path_override) {
        Err(error) => {
            lemma_migrate_descriptions(e.platform, q, Seq::empty(), error);
        },
        Ok(target) => {
            lemma_migrated(e, d, q.shell, q.program_name, target, q.legacy_blocks);
            match migrated(e, d, q.shell, q.program_name, target, q.legacy_blocks).1 {
                Err(error) => {
                    lemma_migrate_descriptions(e.platform, q, target, error);
                },
                Ok(_) => {},
            }
        },
    }
}

proof fn lemma_reports(
    e: EnvironmentView,
    d: DiskView,
    shell: ShellView,
    name: Seq<char>,
    target: Seq<u8>,
)
    requires
        d.nodes.dom().finite(),
    ensures
        fails_plainly(crate::service::detect::custom_report(d, shell, name, target)),
        fails_plainly(crate::service::detect::custom_detection(e, d, shell, name, target)),
        is_plain(crate::service::detect::inspection_error(e.platform, d, target)),
{
    lemma_detected(e, d, shell, name, target);
    lemma_target(e.platform, d, target);
}

/// A structured failure of a detection says so and carries the identifier of the call.
pub proof fn law_detection_failures_name_the_call(
    e: EnvironmentView,
    d: DiskView,
    shell: ShellView,
    name: Seq<char>,
    path: Seq<u8>,
    trace_id: u64,
)
    requires
        d.nodes.dom().finite(),
    ensures
        names_call(
            detection(e, d, shell, name, trace_id),
            Operation::DetectActivation,
            trace_id,
        ),
        names_call(
            detection_at(e, d, shell, name, path, trace_id),
            Operation::DetectActivation,
            trace_id,
        ),
{
    lemma_reports(e, d, shell, name, path);
    lemma_detected(e, d, shell, name, path);
    match detection_at(e, d, shell, name, path, trace_id) {
        Err(_) => {
            assert forall|error: ErrorView|
                describes_call(
                    #[trigger] crate::service::detect::describe_detect(
                        e.platform,
                        trace_id,
                        shell,
                        path,
                        error,
                    ),
                    Operation::DetectActivation,
                    trace_id,
                ) by {
                lemma_detect_descriptions(e.platform, trace_id, shell, path, error);
            }
        },
        Ok(_) => {},
    }
    match crate::service::common::default_target(e, shell, name) {
        Err(error) => {
            lemma_detect_descriptions(e.platform, trace_id, shell, Seq::empty(), error);
        },
        Ok(target) => {
            lemma_reports(e, d, shell, name, target);
            lemma_detected(e, d, shell, name, target);
            assert forall|error: ErrorView|
                describes_call(
                    #[trigger] crate::service::detect::describe_detect(
                        e.platform,
                        trace_id,
                        shell,
                        target,
                        error,
                    ),
                    Operation::DetectActivation,
                    trace_id,
                ) by {
                lemma_detect_descriptions(e.platform, trace_id, shell, target, error);
            }
        },
    }
}

/// Each kind of failure has a code of its own.
pub proof fn law_codes_are_distinct(a: FailureKind, b: FailureKind)
    ensures
        kind_code(a) == kind_code(b) <==> a == b,
{
    reveal_strlit("shellcomp.missing_home");
    reveal_strlit("shellcomp.unsupported_shell");
    reveal_strlit("shellcomp.invalid_target_path");
    reveal_strlit("shellcomp.default_path_unavailable");
    reveal_strlit("shellcomp.completion_target_unavailable");
    reveal_strlit("shellcomp.completion_file_unreadable");
    reveal_strlit("shellcomp.profile_unavailable");
    reveal_strlit("shellcomp.profile_corrupted");
    // The lengths tell all codes apart but two pairs, which differ behind the dot.
    assert(a == b || kind_code(a).len() != kind_code(b).len() || kind_code(a)[10] != kind_code(
        b,
    )[10]);
}

/// A described error is a failure that keeps its cause, its code and its promise of a retry are
/// those of the failure's kind, and an error that no one describes stays what it is.
pub proof fn law_descriptions_keep_the_cause(
    error: ErrorView,
    report: FailureView,
    source: Option<Box<ErrorView>>,
)
    ensures
        ({
            let described = contextual(error, Some(ErrorView::Failure { report, source }));
            &&& described == (ErrorView::Failure { report, source: Some(Box::new(error)) })
            &&& error_code(described) == kind_code(report.kind)
            &&& error_is_retryable(described) == kind_is_retryable(report.kind)
        }),
        contextual(error, None) == error,
{
}

/// The two events of one operation agree on the operation, the shell, the program and the
/// identifier of the call. The second says whether the operation succeeded, and tells of an error
/// only where it did not.
pub proof fn law_events_belong_together(
    start: EventView,
    outcome: Result<Option<Seq<u8>>, ErrorView>,
    duration_ms: u128,
)
    requires
        start == started(
            start.operation,
            start.shell,
            start.program_name,
            start.trace_id,
            start.target_path,
        ),
    ensures
        ({
            let end = finished(start, outcome, duration_ms);
            &&& end.operation == start.operation
            &&& end.shell == start.shell
            &&& end.program_name == start.program_name
            &&& end.trace_id == start.trace_id
            &&& end.duration_ms == Some(duration_ms)
            &&& start.phase == OperationEventPhase::Started
            &&& start.error_code is None && !start.retryable
            &&& match outcome {
                Ok(target) => {
                    &&& end.phase == OperationEventPhase::Succeeded
                    &&& end.target_path == target
                    &&& end.error_code is None && !end.retryable
                },
                Err(error) => {
                    &&& end.phase == OperationEventPhase::Failed
                    &&& end.target_path == failed_target(start, error)
                    &&& end.error_code == Some(error_code(error))
                    &&& end.retryable == error_is_retryable(error)
                },
            }
        }),
{
}

/// The event of a failed operation names the path that the operation was started with; where it was
/// started without one, the path that the failure tells of.
pub proof fn law_failed_events_name_the_path(
    start: EventView,
    error: ErrorView,
    duration_ms: u128,
)
    ensures
        ({
            let end = finished(start, Err(error), duration_ms);
            &&& start.target_path is Some ==> end.target_path == start.target_path
            &&& start.target_path is None ==> end.target_path == (if error is Failure {
                error->report.target_path
            } else {
                None
            })
        }),
{
}

/// A failure behind the step that wrote or removed the completion file tells what that step did.
pub proof fn law_failures_report_progress(
    e: EnvironmentView,
    d: DiskView,
    install: InstallQuery,
    uninstall: UninstallView,
    policy: ActivationPolicy,
    target: Seq<u8>,
    change: FileChange,
)
    requires
        d.nodes.dom().finite(),
    ensures
        target_of(e, d, install.shell, install.program_name, install.path_override) == Ok::<
            Seq<u8>,
            ErrorView,
        >(target) && written_if_changed(e.platform, d, target, install.script).1 == Ok::<
            FileChange,
            ErrorView,
        >(change) ==> (installed(e, d, install, policy).1 matches Err(
            ErrorView::Failure { report, .. },
        ) ==> report.file_change == Some(change)),
        target_of(e, d, uninstall.shell, uninstall.program_name, uninstall.path_override) == Ok::<
            Seq<u8>,
            ErrorView,
        >(target) && removed(e.platform, d, target).1 == Ok::<FileChange, ErrorView>(change) ==> (
        uninstalled(e, d, uninstall, policy).1 matches Err(ErrorView::Failure { report, .. })
            ==> report.file_change == Some(change)),
{
    let (ready, wrote) = written_if_changed(e.platform, d, target, install.script);
    crate::laws::files::law_write_changes_one_file(e.platform, d, target, install.script);
    if wrote == Ok::<FileChange, ErrorView>(change) {
        lemma_finite(d, ready, crate::path::components(target));
        lemma_activated(e, ready, install.shell, install.program_name, target);
        match activation_at(e, ready, install, policy, target).1 {
            Err(error) => {
                lemma_install_progress(e.platform, install, policy, target, change, error);
            },
            Ok(_) => {},
        }
    }
    let (gone, took) = removed(e.platform, d, target);
    crate::laws::files::law_removal_takes_one_file(e.platform, d, target);
    if took == Ok::<FileChange, ErrorView>(change) {
        lemma_finite(d, gone, crate::path::components(target));
        lemma_deactivated(e, gone, uninstall.shell, uninstall.program_name, target);
        match deactivated(e, gone, uninstall.shell, uninstall.program_name, target).1 {
            Err(error) => {
                lemma_uninstall_progress(e.platform, uninstall, target, change, error);
            },
            Ok(_) => {},
        }
    }
}

spec fn tells_change(description: Option<ErrorView>, change: FileChange) -> bool {
    description matches Some(error) ==> (error matches ErrorView::Failure { report, .. }
        && report.file_change == Some(change))
}

proof fn lemma_install_progress(
    platform: Platform,
    q: InstallQuery,
    policy: ActivationPolicy,
    target: Seq<u8>,
    change: FileChange,
    error: ErrorView,
)
    ensures
        tells_change(
            crate::service::install::describe_activation(
                platform,
                q,
                policy,
                target,
                change,
                error,
            ),
            change,
        ),
{
}

proof fn lemma_uninstall_progress(
    platform: Platform,
    q: UninstallView,
    target: Seq<u8>,
    change: FileChange,
    error: ErrorView,
)
    ensures
        tells_change(
            crate::service::uninstall::describe_cleanup(platform, q, target, change, error),
            change,
        ),
{
}

} // verus!

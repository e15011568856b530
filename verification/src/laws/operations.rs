//! What holds of the operations of the library, one after the other.
use vstd::prelude::*;

use crate::disk::{
    blocks, fault_at, inspect, inspect_link, is_blocked, node_at, node_with, read_bytes, DiskView,
    Step,
};
use crate::environment::{powershell_profile, EnvironmentView, Platform};
use crate::error::ErrorView;
use crate::fs::{
    file_exists_view, file_node, file_view, removed, with_parents, written, written_if_changed,
};
use crate::laws::blocks::{
    fits, free_of, inserted, is_one_block, keeps_style, law_removal_undoes_upsert,
    law_upsert_leaves_one_block, lemma_one_block_alone, newline_for,
};
use crate::laws::files::{
    differs_at, is_readable, law_removal_is_idempotent, law_removal_takes_one_file,
    law_removed_target_stays_acceptable, law_write_changes_one_file,
    law_write_if_changed_is_idempotent, lemma_blocked_alike, lemma_target_after,
    lemma_target_without,
};
use crate::laws::places::{law_macos_identity, law_parent_drops_the_last_component};
use crate::laws::profiles::{
    law_cleanup_is_idempotent, law_migration_is_lasting, law_wiring_is_idempotent,
    law_wiring_is_seen, lemma_text_written, text_at,
};
use crate::laws::shells::{is_single_line, law_own_blocks_stand_alone, own_block};
use crate::managed_block::{
    block_matches, block_spans, blocks_migrated, blocks_removed, gap, has_crlf, migrated_text,
    profile_text, rendered, upserted, with_block, without_blocks, BlockView,
};
use crate::model::{
    ActivationMode, ActivationPolicy, ActivationView, Availability, FileChange, InstallView,
    MigrateView, ShellView,
};
use crate::path::{components, parent};
use crate::paths::{
    bashrc, identity, lemma_physical_unused, macos_identity, plain_target_error, program_name_error,
    rc_elv, startup_file, target_error, zshrc,
};
use crate::service::common::{target_of, uses_backend};
use crate::service::detect::{detection, detection_at};
use crate::service::install::{activation_at, installed, InstallQuery};
use crate::service::migrate::{migration, MigrateQuery};
use crate::service::uninstall::{uninstalled, UninstallView};
use crate::shell::backend::{activated, deactivated, detected, migrated};
use crate::shell::bash::{loader_serves, serving_loader};
use crate::shell::discovery::{loader_of, LoaderView};
use crate::shell::wiring::{block_install, MigrationOutcomeView};
use crate::text::lines_of;

verus! {

/// Whether neither of two places is the other or stands above it.
pub open spec fn are_apart(a: Seq<u8>, b: Seq<u8>) -> bool {
    &&& forall|n: int|
        0 <= n <= components(a).len() ==> #[trigger] components(a).take(n) != components(b)
    &&& forall|n: int|
        0 <= n <= components(b).len() ==> #[trigger] components(b).take(n) != components(a)
}

/// What is needed of the startup file of a shell for its block to be wired for good: it stands
/// apart from the completion file, it can be read, and the block is one block in it and keeps to
/// its line ending.
pub open spec fn has_sound_profile(
    e: EnvironmentView,
    d: DiskView,
    shell: ShellView,
    name: Seq<char>,
    target: Seq<u8>,
) -> bool {
    startup_file(e, shell) matches Ok(Some(profile)) ==> {
        &&& are_apart(profile, target)
        &&& are_apart(profile, identity(e.platform, target))
        &&& is_readable(d, profile)
        &&& own_block(shell, name, target) matches Ok(b) ==> {
            &&& is_one_block(b, inserted(text_at(d, profile), b))
            &&& keeps_style(text_at(d, profile), b)
        }
    }
}

/// A completion file without a line ending in its name has a block that is one block in every
/// startup file and keeps to its line ending.
pub proof fn law_plain_targets_have_sound_blocks(
    shell: ShellView,
    name: Seq<char>,
    target: Seq<u8>,
    contents: Seq<char>,
)
    requires
        program_name_error(name) is None,
        is_single_line(target),
        own_block(shell, name, target) is Ok,
    ensures
        ({
            let b = own_block(shell, name, target)->Ok_0;
            &&& is_one_block(b, inserted(contents, b))
            &&& !has_crlf(rendered(b))
            &&& keeps_style(contents, b)
        }),
{
    let b = own_block(shell, name, target)->Ok_0;
    law_own_blocks_stand_alone(shell, name, target, contents);
    if has_crlf(rendered(b)) {
        let s = rendered(b);
        let k = choose|k: int|
            0 <= k < s.len() - 1 && #[trigger] s[k] == '\r' && s[k + 1] == '\n';
        assert(s.contains(s[k]));
    }
}

/// An entry apart from the changed one is as it was.
pub proof fn lemma_apart_entry(d: DiskView, after: DiskView, changed: Seq<u8>, other: Seq<u8>)
    requires
        differs_at(d, after, components(changed)),
        are_apart(changed, other),
    ensures
        node_at(after, other) == node_at(d, other),
        inspect(after, other) == inspect(d, other),
        inspect_link(after, other) == inspect_link(d, other),
        read_bytes(after, other) == read_bytes(d, other),
        file_view(after, other) == file_view(d, other),
        file_exists_view(after, other) == file_exists_view(d, other),
        profile_text(after, other) == profile_text(d, other),
        text_at(after, other) == text_at(d, other),
        is_readable(after, other) == is_readable(d, other),
        is_blocked(after, components(other)) == is_blocked(d, components(other)),
{
    let key = components(changed);
    let k = components(other);
    assert(k.take(k.len() as int) =~= k);
    assert(k != key);
    assert(node_with(after, k) == node_with(d, k)) by {
        if after.nodes.dom().contains(k) && !d.nodes.dom().contains(k) {
            assert(k == key.take(k.len() as int));
        }
    }
    lemma_blocked_alike(d, after, key, k);
}

/// Whether an edit of a file left the file system alone or put a regular file in its place.
pub open spec fn is_edit(before: DiskView, after: DiskView, path: Seq<u8>) -> bool {
    after == before || differs_at(before, after, components(path)) && exists|
        bytes: Seq<u8>,
        mode: Option<u32>,
    |
        node_at(after, path) == Some(#[trigger] file_node(bytes, mode))
}

proof fn lemma_upsert_edits(platform: Platform, d: DiskView, path: Seq<u8>, b: BlockView)
    requires
        upserted(platform, d, path, b).1 is Ok,
    ensures
        is_edit(d, upserted(platform, d, path, b).0, path),
{
    let text = with_block(path, text_at(d, path), b)->Ok_0;
    law_write_changes_one_file(platform, d, path, crate::text::text_bytes(text));
}

proof fn lemma_removal_edits(platform: Platform, d: DiskView, path: Seq<u8>, blocks: Seq<BlockView>)
    requires
        blocks_removed(platform, d, path, blocks).1 is Ok,
    ensures
        is_edit(d, blocks_removed(platform, d, path, blocks).0, path),
{
    let text = crate::managed_block::without_blocks(path, text_at(d, path), blocks)->Ok_0.0;
    law_write_changes_one_file(platform, d, path, crate::text::text_bytes(text));
}

/// A target that has nothing against it has nothing against it when the startup file was edited.
proof fn lemma_target_survives(
    platform: Platform,
    d: DiskView,
    after: DiskView,
    profile: Seq<u8>,
    target: Seq<u8>,
)
    requires
        is_edit(d, after, profile),
        are_apart(profile, target),
        are_apart(profile, identity(platform, target)),
        target_error(platform, d, target) is None,
    ensures
        target_error(platform, after, target) is None,
{
    if after != d {
        let (bytes, mode) = choose|bytes: Seq<u8>, mode: Option<u32>|
            node_at(after, profile) == Some(#[trigger] file_node(bytes, mode));
        let key = components(profile);
        let place = macos_identity(target);
        law_macos_identity(target);
        let aliases = platform == Platform::MacOs;
        assert(components(target).take(components(target).len() as int) =~= components(target));
        assert(components(place).take(components(place).len() as int) =~= components(place));
        if aliases {
            if plain_target_error(platform, d, place) is None {
                lemma_target_after(d, after, key, bytes, mode, place, false, None, None);
            }
            lemma_target_after(
                d,
                after,
                key,
                bytes,
                mode,
                target,
                aliases,
                plain_target_error(platform, d, place),
                plain_target_error(platform, after, place),
            );
        } else {
            lemma_physical_unused(d, target, 0, plain_target_error(platform, d, place), None);
            lemma_target_after(d, after, key, bytes, mode, target, aliases, None, None);
            lemma_physical_unused(
                after,
                target,
                0,
                None,
                plain_target_error(platform, after, place),
            );
        }
    }
}

/// An install that put a block into a startup file does nothing when it is done again, and the
/// block is seen.
proof fn lemma_block_install_again(
    platform: Platform,
    d: DiskView,
    profile: Seq<u8>,
    b: BlockView,
    report: spec_fn(Seq<u8>) -> Result<ActivationView, ErrorView>,
)
    requires
        block_install(platform, d, Ok(profile), Ok(b), report).1 is Ok,
        is_readable(d, profile),
        is_one_block(b, inserted(text_at(d, profile), b)),
        keeps_style(text_at(d, profile), b),
    ensures
        ({
            let (after, outcome) = block_install(platform, d, Ok(profile), Ok(b), report);
            &&& block_install(platform, after, Ok(profile), Ok(b), report) == (after, outcome)
            &&& !has_crlf(rendered(b)) ==> block_matches(platform, after, profile, b) == Ok::<
                bool,
                ErrorView,
            >(true)
            &&& is_edit(d, after, profile)
        }),
{
    let contents = text_at(d, profile);
    lemma_one_block_alone(b, inserted(contents, b));
    law_wiring_is_idempotent(platform, d, profile, b);
    if !has_crlf(rendered(b)) {
        law_wiring_is_seen(platform, d, profile, b);
    }
    lemma_upsert_edits(platform, d, profile, b);
}

/// Whether what is known of a loader bears on the activation of a completion.
pub open spec fn asks_loader(
    e: EnvironmentView,
    shell: ShellView,
    name: Seq<char>,
    target: Seq<u8>,
) -> bool {
    shell is Bash && loader_serves(e, name, target)
}

/// Arranging an activation a second time changes nothing.
proof fn lemma_activated_again(
    e: EnvironmentView,
    d: DiskView,
    shell: ShellView,
    name: Seq<char>,
    target: Seq<u8>,
)
    requires
        program_name_error(name) is None,
        activated(e, d, shell, name, target).1 is Ok,
        activated(e, d, shell, name, target).1->Ok_0.report.mode
            == ActivationMode::ManagedRcBlock ==> {
            &&& has_sound_profile(e, d, shell, name, target)
            &&& asks_loader(e, shell, name, target) ==> loader_of(
                e,
                activated(e, d, shell, name, target).0,
            ) is Ok
        },
    ensures
        ({
            let (after, outcome) = activated(e, d, shell, name, target);
            let again = activated(e, after, shell, name, target);
            &&& again.0 == after
            &&& again.1 is Ok
            &&& !asks_loader(e, shell, name, target) || loader_of(e, after) == loader_of(e, d)
                ==> again.1 == outcome
            &&& startup_file(e, shell) matches Ok(Some(profile)) ==> is_edit(d, after, profile)
            &&& outcome->Ok_0.report.mode != ActivationMode::ManagedRcBlock ==> after == d
        }),
{
    let (after, outcome) = activated(e, d, shell, name, target);
    match shell {
        ShellView::Bash => {
            let rc = bashrc(e)->Ok_0;
            let loader = serving_loader(e, d, name, target)->Ok_0;
            if loader != Some(LoaderView::ActiveNow) && !(loader matches Some(
                LoaderView::WiredInStartup(_),
            )) {
                let b = own_block(shell, name, target)->Ok_0;
                let report = |path: Seq<u8>| crate::shell::bash::bash_block_report(path, loader);
                lemma_block_install_again(e.platform, d, rc, b, report);
                if asks_loader(e, shell, name, target) {
                    let now = serving_loader(e, after, name, target)->Ok_0;
                    let report2 = |path: Seq<u8>| crate::shell::bash::bash_block_report(path, now);
                    assert(report2(rc) is Ok);
                }
            }
        },
        ShellView::Zsh => {
            let rc = zshrc(e)->Ok_0;
            let b = own_block(shell, name, target)->Ok_0;
            let report = |path: Seq<u8>| crate::shell::zsh::zsh_block_report(path);
            lemma_block_install_again(e.platform, d, rc, b, report);
        },
        ShellView::Powershell => {
            let rc = powershell_profile(e)->Ok_0;
            let b = own_block(shell, name, target)->Ok_0;
            let report = |path: Seq<u8>| crate::shell::powershell::powershell_block_report(path);
            lemma_block_install_again(e.platform, d, rc, b, report);
        },
        ShellView::Elvish => {
            let rc = rc_elv(e)->Ok_0;
            let b = own_block(shell, name, target)->Ok_0;
            let report = |path: Seq<u8>| crate::shell::elvish::elvish_block_report(path);
            lemma_block_install_again(e.platform, d, rc, b, report);
        },
        _ => {},
    }
}

/// What an install needs for it to be the last word: its target can be read, and where it wires
/// a block, the startup file is sound. Where a loader of the system may serve the completion then,
/// the search for one must not fail behind the install.
pub open spec fn can_be_installed(
    e: EnvironmentView,
    d: DiskView,
    q: InstallQuery,
    policy: ActivationPolicy,
) -> bool {
    target_of(e, d, q.shell, q.program_name, q.path_override) matches Ok(target) && {
        &&& is_readable(d, target)
        &&& wires_block(e, d, q, policy) ==> {
            &&& has_sound_profile(e, d, q.shell, q.program_name, target)
            &&& asks_loader(e, q.shell, q.program_name, target) ==> loader_of(
                e,
                installed(e, d, q, policy).0,
            ) is Ok
        }
    }
}

/// Whether an install succeeds and wires a block in the shell's startup file.
pub open spec fn wires_block(
    e: EnvironmentView,
    d: DiskView,
    q: InstallQuery,
    policy: ActivationPolicy,
) -> bool {
    installed(e, d, q, policy).1 matches Ok(report) && report.activation.mode
        == ActivationMode::ManagedRcBlock && uses_backend(
        e,
        q.shell,
        q.program_name,
        policy,
        report.target_path,
    )
}

/// The file system behind the first step of an install, in which the script was written.
pub open spec fn with_script(
    e: EnvironmentView,
    d: DiskView,
    q: InstallQuery,
    target: Seq<u8>,
) -> DiskView {
    written_if_changed(e.platform, d, target, q.script).0
}

/// Once the script was written it is there, its place is still an acceptable one, and a startup
/// file that was sound is so still.
pub proof fn lemma_script_stage(
    e: EnvironmentView,
    d: DiskView,
    q: InstallQuery,
    target: Seq<u8>,
)
    requires
        written_if_changed(e.platform, d, target, q.script).1 is Ok,
        is_readable(d, target),
    ensures
        ({
            let ready = with_script(e, d, q, target);
            &&& target_error(e.platform, ready, target) is None
            &&& read_bytes(ready, target) == Ok::<Seq<u8>, crate::error::IoView>(q.script)
            &&& has_sound_profile(e, d, q.shell, q.program_name, target) ==> has_sound_profile(
                e,
                ready,
                q.shell,
                q.program_name,
                target,
            )
            &&& is_readable(ready, target)
            &&& differs_at(d, ready, components(target))
        }),
{
    let ready = with_script(e, d, q, target);
    law_write_if_changed_is_idempotent(e.platform, d, target, q.script);
    law_write_changes_one_file(e.platform, d, target, q.script);
    match startup_file(e, q.shell) {
        Ok(Some(profile)) => {
            if has_sound_profile(e, d, q.shell, q.program_name, target) {
                lemma_apart_entry(d, ready, target, profile);
            }
        },
        _ => {},
    }
}

/// A script that is there stays there when the startup file is edited.
proof fn lemma_script_survives(
    e: EnvironmentView,
    d: DiskView,
    after: DiskView,
    shell: ShellView,
    name: Seq<char>,
    target: Seq<u8>,
)
    requires
        target_error(e.platform, d, target) is None,
        after != d ==> has_sound_profile(e, d, shell, name, target),
        startup_file(e, shell) matches Ok(Some(profile)) ==> is_edit(d, after, profile),
        !(startup_file(e, shell) matches Ok(Some(_))) ==> after == d,
    ensures
        target_error(e.platform, after, target) is None,
        read_bytes(after, target) == read_bytes(d, target),
        inspect(after, target) == inspect(d, target),
        is_readable(after, target) == is_readable(d, target),
        after.faults == d.faults,
{
    match startup_file(e, shell) {
        Ok(Some(profile)) => {
            if after != d {
                lemma_target_survives(e.platform, d, after, profile, target);
                lemma_apart_entry(d, after, profile, target);
            }
        },
        _ => {},
    }
}

/// The file system behind an install is that behind the activation.
pub proof fn lemma_installed_stages(
    e: EnvironmentView,
    d: DiskView,
    q: InstallQuery,
    policy: ActivationPolicy,
)
    requires
        installed(e, d, q, policy).1 is Ok,
    ensures
        ({
            let target = target_of(e, d, q.shell, q.program_name, q.path_override)->Ok_0;
            let ready = with_script(e, d, q, target);
            let stage = activation_at(e, ready, q, policy, target);
            &&& program_name_error(q.program_name) is None
            &&& target_of(e, d, q.shell, q.program_name, q.path_override) is Ok
            &&& written_if_changed(e.platform, d, target, q.script).1 is Ok
            &&& stage.1 is Ok
            &&& installed(e, d, q, policy).0 == stage.0
            &&& installed(e, d, q, policy).1->Ok_0.target_path == target
            &&& installed(e, d, q, policy).1->Ok_0.activation == stage.1->Ok_0.0
        }),
{
}

/// Installing the same script a second time changes nothing on the file system, reports the file
/// as unchanged, and, unless another loader is found now, reports the same activation. The script
/// is there, and where a block was wired, it is the only one with its markers.
pub proof fn law_install_is_idempotent(
    e: EnvironmentView,
    d: DiskView,
    q: InstallQuery,
    policy: ActivationPolicy,
)
    requires
        installed(e, d, q, policy).1 is Ok,
        can_be_installed(e, d, q, policy),
    ensures
        ({
            let (after, first) = installed(e, d, q, policy);
            let (end, second) = installed(e, after, q, policy);
            let target = first->Ok_0.target_path;
            &&& end == after
            &&& second is Ok
            &&& second->Ok_0.file_change == FileChange::Unchanged
            &&& second->Ok_0.target_path == target
            &&& read_bytes(end, target) == Ok::<Seq<u8>, crate::error::IoView>(q.script)
            &&& uses_backend(e, q.shell, q.program_name, policy, target)
                && first->Ok_0.activation.mode == ActivationMode::ManagedRcBlock ==> {
                let profile = startup_file(e, q.shell)->Ok_0->0;
                let b = own_block(q.shell, q.program_name, target)->Ok_0;
                block_spans(profile, lines_of(text_at(end, profile)), b) matches Ok(spans)
                    && spans.len() == 1
            }
            &&& !asks_loader(e, q.shell, q.program_name, target) || loader_of(e, after)
                == loader_of(e, with_script(e, d, q, target)) ==> second->Ok_0 == (InstallView {
                file_change: FileChange::Unchanged,
                ..first->Ok_0
            })
        }),
{
    lemma_installed_stages(e, d, q, policy);
    let target = target_of(e, d, q.shell, q.program_name, q.path_override)->Ok_0;
    let ready = with_script(e, d, q, target);
    let after = installed(e, d, q, policy).0;
    lemma_script_stage(e, d, q, target);
    lemma_activation_again(e, ready, q, policy, target);
    lemma_target_again(e, d, after, q, target);
    assert(written_if_changed(e.platform, after, target, q.script) == (
        after,
        Ok::<FileChange, ErrorView>(FileChange::Unchanged),
    ));
    if uses_backend(e, q.shell, q.program_name, policy, target) && installed(
        e,
        d,
        q,
        policy,
    ).1->Ok_0.activation.mode == ActivationMode::ManagedRcBlock {
        lemma_activated_seen(e, ready, q.shell, q.program_name, target);
        let profile = startup_file(e, q.shell)->Ok_0->0;
        let b = own_block(q.shell, q.program_name, target)->Ok_0;
        let updated = with_block(profile, text_at(ready, profile), b)->Ok_0;
        law_upsert_leaves_one_block(profile, text_at(ready, profile), b);
        if profile_text(ready, profile) != Ok::<Option<Seq<char>>, ErrorView>(Some(updated)) {
            lemma_text_written(e.platform, ready, profile, updated);
        }
    }
}

/// A target that was resolved is resolved again while nothing is against it.
pub proof fn lemma_target_again(
    e: EnvironmentView,
    d: DiskView,
    after: DiskView,
    q: InstallQuery,
    target: Seq<u8>,
)
    requires
        target_of(e, d, q.shell, q.program_name, q.path_override) == Ok::<Seq<u8>, ErrorView>(
            target,
        ),
        target_error(e.platform, after, target) is None,
    ensures
        target_of(e, after, q.shell, q.program_name, q.path_override) == Ok::<Seq<u8>, ErrorView>(
            target,
        ),
{
}

/// Behind the activation nothing has changed for the script, and a second activation changes
/// nothing.
pub proof fn lemma_activation_again(
    e: EnvironmentView,
    ready: DiskView,
    q: InstallQuery,
    policy: ActivationPolicy,
    target: Seq<u8>,
)
    requires
        program_name_error(q.program_name) is None,
        activation_at(e, ready, q, policy, target).1 is Ok,
        target_error(e.platform, ready, target) is None,
        uses_backend(e, q.shell, q.program_name, policy, target) && activation_at(
            e,
            ready,
            q,
            policy,
            target,
        ).1->Ok_0.0.mode == ActivationMode::ManagedRcBlock ==> {
            &&& has_sound_profile(e, ready, q.shell, q.program_name, target)
            &&& asks_loader(e, q.shell, q.program_name, target) ==> loader_of(
                e,
                activation_at(e, ready, q, policy, target).0,
            ) is Ok
        },
    ensures
        ({
            let (after, outcome) = activation_at(e, ready, q, policy, target);
            let again = activation_at(e, after, q, policy, target);
            &&& again.0 == after
            &&& again.1 is Ok
            &&& !asks_loader(e, q.shell, q.program_name, target) || loader_of(e, after)
                == loader_of(e, ready) ==> again.1 == outcome
            &&& target_error(e.platform, after, target) is None
            &&& read_bytes(after, target) == read_bytes(ready, target)
            &&& inspect(after, target) == inspect(ready, target)
            &&& is_readable(after, target) == is_readable(ready, target)
        }),
{
    let (after, outcome) = activation_at(e, ready, q, policy, target);
    if uses_backend(e, q.shell, q.program_name, policy, target) {
        lemma_activated_again(e, ready, q.shell, q.program_name, target);
        lemma_no_profile(e, ready, q.shell, q.program_name, target);
        lemma_script_survives(e, ready, after, q.shell, q.program_name, target);
    }
}

/// Where no startup file is known, no activation is arranged in one.
proof fn lemma_no_profile(
    e: EnvironmentView,
    d: DiskView,
    shell: ShellView,
    name: Seq<char>,
    target: Seq<u8>,
)
    requires
        activated(e, d, shell, name, target).1 is Ok,
    ensures
        startup_file(e, shell) is Ok,
{
}

/// The startup file of a shell with a managed one, and what has been wired there.
pub proof fn lemma_activated_seen(
    e: EnvironmentView,
    d: DiskView,
    shell: ShellView,
    name: Seq<char>,
    target: Seq<u8>,
)
    requires
        program_name_error(name) is None,
        activated(e, d, shell, name, target).1 is Ok,
        activated(e, d, shell, name, target).1->Ok_0.report.mode
            == ActivationMode::ManagedRcBlock,
        has_sound_profile(e, d, shell, name, target),
    ensures
        ({
            let profile = startup_file(e, shell)->Ok_0->0;
            let b = own_block(shell, name, target)->Ok_0;
            &&& startup_file(e, shell) matches Ok(Some(_))
            &&& own_block(shell, name, target) is Ok
            &&& upserted(e.platform, d, profile, b).1 is Ok
            &&& activated(e, d, shell, name, target).0 == upserted(e.platform, d, profile, b).0
            &&& !has_crlf(rendered(b)) ==> block_matches(
                e.platform,
                activated(e, d, shell, name, target).0,
                profile,
                b,
            ) == Ok::<bool, ErrorView>(true)
        }),
{
    match shell {
        ShellView::Bash => {
            let rc = bashrc(e)->Ok_0;
            let loader = serving_loader(e, d, name, target)->Ok_0;
            let b = own_block(shell, name, target)->Ok_0;
            let report = |path: Seq<u8>| crate::shell::bash::bash_block_report(path, loader);
            lemma_block_install_again(e.platform, d, rc, b, report);
        },
        ShellView::Zsh => {
            let rc = zshrc(e)->Ok_0;
            let b = own_block(shell, name, target)->Ok_0;
            let report = |path: Seq<u8>| crate::shell::zsh::zsh_block_report(path);
            lemma_block_install_again(e.platform, d, rc, b, report);
        },
        ShellView::Powershell => {
            let rc = powershell_profile(e)->Ok_0;
            let b = own_block(shell, name, target)->Ok_0;
            let report = |path: Seq<u8>| crate::shell::powershell::powershell_block_report(path);
            lemma_block_install_again(e.platform, d, rc, b, report);
        },
        ShellView::Elvish => {
            let rc = rc_elv(e)->Ok_0;
            let b = own_block(shell, name, target)->Ok_0;
            let report = |path: Seq<u8>| crate::shell::elvish::elvish_block_report(path);
            lemma_block_install_again(e.platform, d, rc, b, report);
        },
        _ => {},
    }
}

/// Behind an install that arranged activation, detection reports the activation in the same way:
/// the same mode and the same availability, and for a block the startup file. The block must have
/// no line ending of two characters in itself. Where a loader of the system may serve the
/// completion, it must be found as it was, and the startup file must not be malformed.
pub proof fn law_detection_agrees_with_install(
    e: EnvironmentView,
    d: DiskView,
    q: InstallQuery,
    policy: ActivationPolicy,
    trace_id: u64,
)
    requires
        installed(e, d, q, policy).1 is Ok,
        can_be_installed(e, d, q, policy),
        ({
            let target = installed(e, d, q, policy).1->Ok_0.target_path;
            &&& uses_backend(e, q.shell, q.program_name, policy, target)
            &&& own_block(q.shell, q.program_name, target) matches Ok(b) ==> !has_crlf(rendered(b))
            &&& asks_loader(e, q.shell, q.program_name, target) ==> {
                let after = installed(e, d, q, policy).0;
                &&& loader_of(e, after) == loader_of(e, with_script(e, d, q, target))
                &&& own_block(q.shell, q.program_name, target) matches Ok(b) && block_matches(
                    e.platform,
                    after,
                    bashrc(e)->Ok_0,
                    b,
                ) is Ok
            }
        }),
    ensures
        ({
            let (after, outcome) = installed(e, d, q, policy);
            let activation = outcome->Ok_0.activation;
            let target = outcome->Ok_0.target_path;
            &&& detection_at(e, after, q.shell, q.program_name, target, trace_id) matches Ok(
                report,
            ) && agrees(e, q.shell, report, activation)
            &&& q.path_override is None ==> (detection(
                e,
                after,
                q.shell,
                q.program_name,
                trace_id,
            ) matches Ok(report) && agrees(e, q.shell, report, activation))
        }),
{
    lemma_installed_stages(e, d, q, policy);
    let target = target_of(e, d, q.shell, q.program_name, q.path_override)->Ok_0;
    let ready = with_script(e, d, q, target);
    let after = installed(e, d, q, policy).0;
    let name = q.program_name;
    lemma_script_stage(e, d, q, target);
    lemma_activation_again(e, ready, q, policy, target);
    lemma_target_again(e, d, after, q, target);
    let stage = activated(e, ready, q.shell, name, target);
    assert(file_exists_view(after, target) == Ok::<bool, ErrorView>(true));
    if stage.1->Ok_0.report.mode == ActivationMode::ManagedRcBlock {
        lemma_activated_seen(e, ready, q.shell, name, target);
    }
    lemma_detected(e, ready, after, q.shell, name, target);
}

/// Whether two reports tell of the same activation. A block stands in the startup file.
pub open spec fn agrees(
    e: EnvironmentView,
    shell: ShellView,
    report: ActivationView,
    activation: ActivationView,
) -> bool {
    &&& report.mode == activation.mode
    &&& report.availability == activation.availability
    &&& activation.mode == ActivationMode::ManagedRcBlock ==> {
        &&& startup_file(e, shell) is Ok
        &&& report.location == startup_file(e, shell)->Ok_0
        &&& activation.location == startup_file(e, shell)->Ok_0
    }
}

/// How a completion that is there and whose block is seen is reported.
proof fn lemma_detected(
    e: EnvironmentView,
    ready: DiskView,
    after: DiskView,
    shell: ShellView,
    name: Seq<char>,
    target: Seq<u8>,
)
    requires
        activated(e, ready, shell, name, target).1 is Ok,
        after == activated(e, ready, shell, name, target).0,
        file_exists_view(after, target) == Ok::<bool, ErrorView>(true),
        asks_loader(e, shell, name, target) ==> loader_of(e, after) == loader_of(e, ready)
            && loader_of(e, ready) is Ok,
        shell is Bash ==> block_matches(
            e.platform,
            after,
            bashrc(e)->Ok_0,
            own_block(shell, name, target)->Ok_0,
        ) is Ok && own_block(shell, name, target) is Ok,
        activated(e, ready, shell, name, target).1->Ok_0.report.mode
            == ActivationMode::ManagedRcBlock ==> block_matches(
            e.platform,
            after,
            startup_file(e, shell)->Ok_0->0,
            own_block(shell, name, target)->Ok_0,
        ) == Ok::<bool, ErrorView>(true) && own_block(shell, name, target) is Ok,
    ensures
        detected(e, after, shell, name, target) matches Ok(report) && agrees(
            e,
            shell,
            report,
            activated(e, ready, shell, name, target).1->Ok_0.report,
        ),
        detected(e, after, shell, name, target)->Ok_0.availability
            != Availability::ManualActionRequired,
{
}

/// The part of an uninstall that concerns the startup file: it takes the library's block out.
pub proof fn lemma_deactivated(
    e: EnvironmentView,
    d: DiskView,
    shell: ShellView,
    name: Seq<char>,
    target: Seq<u8>,
)
    requires
        deactivated(e, d, shell, name, target).1 is Ok,
    ensures
        shell is Fish ==> deactivated(e, d, shell, name, target).0 == d
            && deactivated(e, d, shell, name, target).1->Ok_0.cleanup.change == FileChange::Absent,
        !(shell is Fish) ==> {
            let profile = startup_file(e, shell)->Ok_0->0;
            let b = own_block(shell, name, target)->Ok_0;
            let edit = blocks_removed(e.platform, d, profile, seq![b]);
            &&& startup_file(e, shell) matches Ok(Some(_))
            &&& own_block(shell, name, target) is Ok
            &&& edit.1 is Ok
            &&& deactivated(e, d, shell, name, target).0 == edit.0
            &&& deactivated(e, d, shell, name, target).1->Ok_0.cleanup.change == edit.1->Ok_0
        },
{
}

/// Where the activation of a completion can be taken back, it is when the block is found.
proof fn lemma_deactivates(
    e: EnvironmentView,
    d: DiskView,
    shell: ShellView,
    name: Seq<char>,
    target: Seq<u8>,
)
    requires
        !(shell is Fish),
        startup_file(e, shell) matches Ok(Some(_)),
        own_block(shell, name, target) is Ok,
        blocks_removed(
            e.platform,
            d,
            startup_file(e, shell)->Ok_0->0,
            seq![own_block(shell, name, target)->Ok_0],
        ).1 is Ok,
        asks_loader(e, shell, name, target) ==> loader_of(e, d) is Ok,
    ensures
        deactivated(e, d, shell, name, target).1 is Ok,
{
}

/// An uninstall that succeeds leaves no completion file and no block of the library's: a second
/// one finds neither, changes nothing and succeeds. What stands above a file that was removed has
/// to be made of directories. Where a block was taken out of the startup file, that file must stand
/// apart from the completion file, and where a loader of the system may serve the completion then,
/// the search for one must not fail behind the uninstall.
pub proof fn law_uninstall_is_idempotent(
    e: EnvironmentView,
    d: DiskView,
    q: UninstallView,
    policy: ActivationPolicy,
)
    requires
        uninstalled(e, d, q, policy).1 is Ok,
        ({
            let target = uninstalled(e, d, q, policy).1->Ok_0.target_path;
            &&& uninstalled(e, d, q, policy).1->Ok_0.file_change == FileChange::Removed
                ==> !is_blocked(d, components(target))
            &&& uninstalled(e, d, q, policy).1->Ok_0.cleanup.change == FileChange::Removed ==> {
                &&& startup_file(e, q.shell) matches Ok(Some(profile)) ==> are_apart(
                    profile,
                    target,
                ) && are_apart(profile, identity(e.platform, target))
                &&& asks_loader(e, q.shell, q.program_name, target) ==> loader_of(
                    e,
                    uninstalled(e, d, q, policy).0,
                ) is Ok
            }
        }),
    ensures
        ({
            let (after, first) = uninstalled(e, d, q, policy);
            let (end, second) = uninstalled(e, after, q, policy);
            &&& end == after
            &&& second is Ok
            &&& second->Ok_0.file_change == FileChange::Absent
            &&& second->Ok_0.cleanup.change == FileChange::Absent
            &&& second->Ok_0.target_path == first->Ok_0.target_path
        }),
{
    let target = target_of(e, d, q.shell, q.program_name, q.path_override)->Ok_0;
    let gone = removed(e.platform, d, target).0;
    let after = uninstalled(e, d, q, policy).0;
    law_removal_takes_one_file(e.platform, d, target);
    if removed(e.platform, d, target).1 == Ok::<FileChange, ErrorView>(FileChange::Removed) {
        law_removal_is_idempotent(e.platform, d, target);
        law_removed_target_stays_acceptable(e.platform, d, target);
    }
    if uses_backend(e, q.shell, q.program_name, policy, target) {
        lemma_deactivated(e, gone, q.shell, q.program_name, target);
        if !(q.shell is Fish) {
            let profile = startup_file(e, q.shell)->Ok_0->0;
            let b = own_block(q.shell, q.program_name, target)->Ok_0;
            if blocks_removed(e.platform, gone, profile, seq![b]).1->Ok_0 == FileChange::Removed {
                law_cleanup_is_idempotent(e.platform, gone, profile, seq![b]);
                lemma_removal_edits(e.platform, gone, profile, seq![b]);
                lemma_target_survives(e.platform, gone, after, profile, target);
                lemma_removed_survives(e.platform, gone, after, profile, target);
                lemma_deactivates(e, after, q.shell, q.program_name, target);
            } else {
                assert(after == gone);
            }
            lemma_deactivated(e, after, q.shell, q.program_name, target);
        }
    }
}

/// A completion file that is gone stays gone when the startup file is edited.
proof fn lemma_removed_survives(
    platform: Platform,
    d: DiskView,
    after: DiskView,
    profile: Seq<u8>,
    target: Seq<u8>,
)
    requires
        is_edit(d, after, profile),
        are_apart(profile, target),
        target_error(platform, after, target) is None,
        removed(platform, d, target) == (d, Ok::<FileChange, ErrorView>(FileChange::Absent)),
    ensures
        removed(platform, after, target) == (
            after,
            Ok::<FileChange, ErrorView>(FileChange::Absent),
        ),
{
    if after != d {
        lemma_apart_entry(d, after, profile, target);
    }
}

/// The request to take back what an install did.
pub open spec fn undoing(q: InstallQuery, trace_id: u64) -> UninstallView {
    UninstallView {
        shell: q.shell,
        program_name: q.program_name,
        path_override: q.path_override,
        trace_id,
    }
}

/// Whether the system refuses no step at a place.
pub open spec fn is_free(d: DiskView, path: Seq<u8>) -> bool {
    forall|step: Step| #[trigger] fault_at(d, step, path) is None
}

/// What is needed for a block to be taken out of the startup file again: the file stands in a
/// directory, no step there is refused, the file may be written to, and the place where it really
/// is stands apart from the completion file. Where a loader of the system may serve the
/// completion, the search for one must not fail once the completion file is gone.
pub open spec fn can_be_undone(
    e: EnvironmentView,
    d: DiskView,
    q: InstallQuery,
    policy: ActivationPolicy,
) -> bool {
    let target = installed(e, d, q, policy).1->Ok_0.target_path;
    let after = installed(e, d, q, policy).0;
    &&& startup_file(e, q.shell) matches Ok(Some(profile)) ==> {
        &&& parent(profile) is Some
        &&& is_free(d, profile)
        &&& node_at(d, profile) matches Some(node) ==> !node.readonly
        &&& are_apart(identity(e.platform, profile), target)
    }
    &&& asks_loader(e, q.shell, q.program_name, target) ==> loader_of(
        e,
        removed(e.platform, after, target).0,
    ) is Ok
}

/// An uninstall takes back what the install before it did: the completion file is gone, and where
/// the install wired a block, the block is gone and the startup file reads as it would without
/// it. It succeeds where the system refuses nothing; where a loader of the system served the
/// completion, the startup file, which the install did not open, must be in order and, if a block
/// is found there, stand apart from the completion file.
pub proof fn law_uninstall_undoes_install(
    e: EnvironmentView,
    d: DiskView,
    q: InstallQuery,
    policy: ActivationPolicy,
    trace_id: u64,
)
    requires
        installed(e, d, q, policy).1 is Ok,
        can_be_installed(e, d, q, policy),
        fault_at(d, Step::Remove, installed(e, d, q, policy).1->Ok_0.target_path) is None,
    ensures
        ({
            let (after, first) = installed(e, d, q, policy);
            let (end, second) = uninstalled(e, after, undoing(q, trace_id), policy);
            let target = first->Ok_0.target_path;
            let profile = startup_file(e, q.shell)->Ok_0->0;
            let b = own_block(q.shell, q.program_name, target)->Ok_0;
            let mode = first->Ok_0.activation.mode;
            &&& mode != ActivationMode::SystemLoader && (mode == ActivationMode::ManagedRcBlock
                ==> can_be_undone(e, d, q, policy)) ==> second is Ok
            &&& node_at(removed(e.platform, after, target).0, target) is None
            &&& second is Ok ==> {
                &&& second->Ok_0.target_path == target
                &&& second->Ok_0.file_change == FileChange::Removed
                &&& (mode == ActivationMode::SystemLoader && second->Ok_0.cleanup.change
                    == FileChange::Removed ==> are_apart(profile, target)) ==> node_at(end, target)
                    is None
                &&& mode == ActivationMode::ManagedRcBlock ==> {
                    let before = text_at(d, profile);
                    let spans = block_spans(profile, lines_of(before), b)->Ok_0;
                    &&& second->Ok_0.cleanup.change == FileChange::Removed
                    &&& text_at(end, profile) == (if spans.len() == 0 {
                        before + gap(before, newline_for(before, b))
                    } else {
                        without_blocks(profile, before, seq![b])->Ok_0.0
                    })
                }
            }
        }),
{
    lemma_installed_stages(e, d, q, policy);
    let target = target_of(e, d, q.shell, q.program_name, q.path_override)->Ok_0;
    let name = q.program_name;
    let ready = with_script(e, d, q, target);
    let after = installed(e, d, q, policy).0;
    lemma_script_stage(e, d, q, target);
    lemma_activation_again(e, ready, q, policy, target);
    lemma_target_again(e, d, after, q, target);
    let gone = removed(e.platform, after, target).0;
    let (end, second) = uninstalled(e, after, undoing(q, trace_id), policy);
    let mode = installed(e, d, q, policy).1->Ok_0.activation.mode;
    law_removal_takes_one_file(e.platform, after, target);
    lemma_there(e, d, q, policy);
    assert(removed(e.platform, after, target).1 == Ok::<FileChange, ErrorView>(
        FileChange::Removed,
    ));
    if uses_backend(e, q.shell, name, policy, target) {
        if mode == ActivationMode::ManagedRcBlock {
            lemma_activated_seen(e, ready, q.shell, name, target);
            if can_be_undone(e, d, q, policy) {
                lemma_cleans_up(e, d, q, policy, target, gone);
                lemma_deactivates(e, gone, q.shell, name, target);
            }
        } else if mode != ActivationMode::SystemLoader {
            lemma_no_block(e, ready, q.shell, name, target);
        }
        if second is Ok {
            lemma_deactivated(e, gone, q.shell, name, target);
            if !(q.shell is Fish) {
                let profile = startup_file(e, q.shell)->Ok_0->0;
                let b = own_block(q.shell, name, target)->Ok_0;
                lemma_removal_edits(e.platform, gone, profile, seq![b]);
                if end != gone && are_apart(profile, target) {
                    lemma_apart_entry(gone, end, profile, target);
                }
                if mode == ActivationMode::ManagedRcBlock {
                    lemma_wired_then_cleaned(e, d, q, policy, target, gone);
                }
            }
        }
    } else {
        assert(mode == ActivationMode::Manual || mode == ActivationMode::NativeDirectory);
    }
}

/// Where neither a block nor a loader serves a completion, the shell has no startup file.
proof fn lemma_no_block(
    e: EnvironmentView,
    d: DiskView,
    shell: ShellView,
    name: Seq<char>,
    target: Seq<u8>,
)
    requires
        activated(e, d, shell, name, target).1 is Ok,
        activated(e, d, shell, name, target).1->Ok_0.report.mode
            != ActivationMode::ManagedRcBlock,
        activated(e, d, shell, name, target).1->Ok_0.report.mode != ActivationMode::SystemLoader,
    ensures
        shell is Fish,
{
}

/// The block that an install wired can be taken out where the system refuses nothing.
proof fn lemma_cleans_up(
    e: EnvironmentView,
    d: DiskView,
    q: InstallQuery,
    policy: ActivationPolicy,
    target: Seq<u8>,
    gone: DiskView,
)
    requires
        installed(e, d, q, policy).1 is Ok,
        can_be_installed(e, d, q, policy),
        can_be_undone(e, d, q, policy),
        target_of(e, d, q.shell, q.program_name, q.path_override) == Ok::<Seq<u8>, ErrorView>(
            target,
        ),
        uses_backend(e, q.shell, q.program_name, policy, target),
        installed(e, d, q, policy).1->Ok_0.activation.mode == ActivationMode::ManagedRcBlock,
        gone == removed(e.platform, installed(e, d, q, policy).0, target).0,
        differs_at(installed(e, d, q, policy).0, gone, components(target)),
        node_at(gone, target) is None,
        target_error(e.platform, installed(e, d, q, policy).0, target) is None,
    ensures
        startup_file(e, q.shell) matches Ok(Some(_)),
        own_block(q.shell, q.program_name, target) is Ok,
        blocks_removed(
            e.platform,
            gone,
            startup_file(e, q.shell)->Ok_0->0,
            seq![own_block(q.shell, q.program_name, target)->Ok_0],
        ).1 is Ok,
{
    lemma_installed_stages(e, d, q, policy);
    let ready = with_script(e, d, q, target);
    let after = installed(e, d, q, policy).0;
    lemma_script_stage(e, d, q, target);
    lemma_activated_seen(e, ready, q.shell, q.program_name, target);
    let profile = startup_file(e, q.shell)->Ok_0->0;
    let b = own_block(q.shell, q.program_name, target)->Ok_0;
    let before = text_at(d, profile);
    lemma_apart_entry(d, ready, target, profile);
    let updated = with_block(profile, before, b)->Ok_0;
    if profile_text(ready, profile) != Ok::<Option<Seq<char>>, ErrorView>(Some(updated)) {
        lemma_text_written(e.platform, ready, profile, updated);
        law_write_changes_one_file(
            e.platform,
            ready,
            profile,
            crate::text::text_bytes(updated),
        );
    }
    lemma_one_block_alone(b, inserted(before, b));
    law_removal_undoes_upsert(profile, before, b);
    lemma_apart_entry(after, gone, target, profile);
    lemma_target_outlives(e.platform, after, gone, target, profile);
    let rest = without_blocks(profile, updated, seq![b])->Ok_0.0;
    assert(is_free(gone, profile)) by {
        assert forall|step: Step| #[trigger] fault_at(gone, step, profile) is None by {
            assert(fault_at(d, step, profile) is None);
        }
    }
    lemma_can_be_written(e.platform, gone, profile, crate::text::text_bytes(rest));
}

/// A startup file that has nothing against it has nothing against it when the completion file,
/// which stands apart from it, was removed.
proof fn lemma_target_outlives(
    platform: Platform,
    d: DiskView,
    after: DiskView,
    gone: Seq<u8>,
    path: Seq<u8>,
)
    requires
        differs_at(d, after, components(gone)),
        node_at(after, gone) is None,
        are_apart(path, gone),
        are_apart(identity(platform, path), gone),
        target_error(platform, d, path) is None,
    ensures
        target_error(platform, after, path) is None,
{
    let key = components(gone);
    let place = macos_identity(path);
    law_macos_identity(path);
    assert forall|n: int| 0 <= n <= components(path).len() implies #[trigger] components(
        path,
    ).take(n) != key by {}
    assert(components(path).take(components(path).len() as int) =~= components(path));
    if platform == Platform::MacOs {
        if plain_target_error(platform, d, place) is None {
            assert(components(place).take(components(place).len() as int) =~= components(place));
            lemma_target_without(d, after, key, place, false, None, None);
        }
        lemma_target_without(
            d,
            after,
            key,
            path,
            true,
            plain_target_error(platform, d, place),
            plain_target_error(platform, after, place),
        );
    } else {
        lemma_physical_unused(d, path, 0, plain_target_error(platform, d, place), None);
        lemma_target_without(d, after, key, path, false, None, None);
        lemma_physical_unused(after, path, 0, None, plain_target_error(platform, after, place));
    }
}

/// A regular file that may be written to can be replaced where the system refuses nothing.
proof fn lemma_can_be_written(
    platform: Platform,
    d: DiskView,
    path: Seq<u8>,
    bytes: Seq<u8>,
)
    requires
        target_error(platform, d, path) is None,
        parent(path) is Some,
        is_free(d, path),
        node_at(d, path) matches Some(node) && node.content is File && !node.readonly,
    ensures
        written(platform, d, path, bytes).1 is None,
{
    law_parent_drops_the_last_component(path);
    let dir = parent(path)->0;
    let ready = with_parents(d, dir);
    assert(fault_at(d, Step::CreateParent, path) is None);
    assert(fault_at(ready, Step::Inspect, path) is None) by {
        assert(fault_at(d, Step::Inspect, path) is None);
    }
    assert(fault_at(d, Step::CreateTemporary, path) is None);
    assert(fault_at(d, Step::Write, path) is None);
    assert(fault_at(d, Step::SetPermissions, path) is None);
    assert(fault_at(d, Step::Sync, path) is None);
    assert(fault_at(d, Step::Replace, path) is None);
}

/// Behind an install the completion file is a regular file.
proof fn lemma_there(e: EnvironmentView, d: DiskView, q: InstallQuery, policy: ActivationPolicy)
    requires
        installed(e, d, q, policy).1 is Ok,
        can_be_installed(e, d, q, policy),
    ensures
        ({
            let (after, outcome) = installed(e, d, q, policy);
            let target = outcome->Ok_0.target_path;
            &&& node_at(after, target) matches Some(node) && node.content
                == crate::disk::ContentView::File(q.script)
            &&& after.faults == d.faults
        }),
{
    lemma_installed_stages(e, d, q, policy);
    let target = target_of(e, d, q.shell, q.program_name, q.path_override)->Ok_0;
    let ready = with_script(e, d, q, target);
    let after = installed(e, d, q, policy).0;
    lemma_script_stage(e, d, q, target);
    lemma_activation_again(e, ready, q, policy, target);
    if uses_backend(e, q.shell, q.program_name, policy, target) {
        lemma_activated_again(e, ready, q.shell, q.program_name, target);
        lemma_no_profile(e, ready, q.shell, q.program_name, target);
        lemma_script_survives(e, ready, after, q.shell, q.program_name, target);
    }
}

/// The text of the startup file when the block was wired and taken out again.
proof fn lemma_wired_then_cleaned(
    e: EnvironmentView,
    d: DiskView,
    q: InstallQuery,
    policy: ActivationPolicy,
    target: Seq<u8>,
    gone: DiskView,
)
    requires
        installed(e, d, q, policy).1 is Ok,
        can_be_installed(e, d, q, policy),
        target_of(e, d, q.shell, q.program_name, q.path_override) == Ok::<Seq<u8>, ErrorView>(
            target,
        ),
        uses_backend(e, q.shell, q.program_name, policy, target),
        installed(e, d, q, policy).1->Ok_0.activation.mode == ActivationMode::ManagedRcBlock,
        differs_at(installed(e, d, q, policy).0, gone, components(target)),
        blocks_removed(
            e.platform,
            gone,
            startup_file(e, q.shell)->Ok_0->0,
            seq![own_block(q.shell, q.program_name, target)->Ok_0],
        ).1 is Ok,
    ensures
        ({
            let profile = startup_file(e, q.shell)->Ok_0->0;
            let b = own_block(q.shell, q.program_name, target)->Ok_0;
            let before = text_at(d, profile);
            let spans = block_spans(profile, lines_of(before), b)->Ok_0;
            let (end, change) = blocks_removed(e.platform, gone, profile, seq![b]);
            &&& change == Ok::<FileChange, ErrorView>(FileChange::Removed)
            &&& text_at(end, profile) == (if spans.len() == 0 {
                before + gap(before, newline_for(before, b))
            } else {
                without_blocks(profile, before, seq![b])->Ok_0.0
            })
        }),
{
    lemma_installed_stages(e, d, q, policy);
    let name = q.program_name;
    let ready = with_script(e, d, q, target);
    let after = installed(e, d, q, policy).0;
    lemma_script_stage(e, d, q, target);
    lemma_activated_seen(e, ready, q.shell, name, target);
    let profile = startup_file(e, q.shell)->Ok_0->0;
    let b = own_block(q.shell, name, target)->Ok_0;
    let before = text_at(d, profile);
    lemma_apart_entry(d, ready, target, profile);
    lemma_one_block_alone(b, inserted(before, b));
    law_removal_undoes_upsert(profile, before, b);
    let updated = with_block(profile, before, b)->Ok_0;
    if profile_text(ready, profile) != Ok::<Option<Seq<char>>, ErrorView>(Some(updated)) {
        lemma_text_written(e.platform, ready, profile, updated);
    }
    assert(profile_text(after, profile) == Ok::<Option<Seq<char>>, ErrorView>(Some(updated)));
    lemma_apart_entry(after, gone, target, profile);
    let rest = without_blocks(profile, updated, seq![b])->Ok_0.0;
    lemma_text_written(e.platform, gone, profile, rest);
}

/// The startup text of a migration without its legacy blocks.
pub open spec fn without_legacy(
    d: DiskView,
    profile: Seq<u8>,
    legacy: Seq<BlockView>,
) -> Seq<char> {
    without_blocks(profile, text_at(d, profile), legacy)->Ok_0.0
}

/// A migration that succeeded is not repeated: a second one finds no legacy block, leaves the
/// block of the library as it is and changes nothing. The block of the library must be one block,
/// without a line ending of two characters in itself, and must not hold markers of the legacy
/// blocks; the startup file must stand apart from the completion file.
pub proof fn law_migrating_is_idempotent(
    e: EnvironmentView,
    d: DiskView,
    q: MigrateQuery,
)
    requires
        migration(e, d, q).1 is Ok,
        !(q.shell is Fish),
        ({
            let target = migration(e, d, q).1->Ok_0.target_path;
            let profile = startup_file(e, q.shell)->Ok_0->0;
            let b = own_block(q.shell, q.program_name, target)->Ok_0;
            &&& are_apart(profile, target)
            &&& are_apart(profile, identity(e.platform, target))
            &&& is_readable(d, profile)
            &&& is_one_block(b, inserted(without_legacy(d, profile, q.legacy_blocks), b))
            &&& !has_crlf(rendered(b))
            &&& forall|n: int|
                0 <= n < q.legacy_blocks.len() ==> free_of(
                    #[trigger] q.legacy_blocks[n],
                    lines_of(inserted(without_legacy(d, profile, q.legacy_blocks), b)),
                )
        }),
    ensures
        ({
            let (after, first) = migration(e, d, q);
            let (end, second) = migration(e, after, q);
            &&& end == after
            &&& second == Ok::<MigrateView, ErrorView>(
                (MigrateView {
                    legacy_change: FileChange::Absent,
                    managed_change: FileChange::Unchanged,
                    ..first->Ok_0
                }),
            )
        }),
{
    let target = target_of(e, d, q.shell, q.program_name, q.path_override)->Ok_0;
    let profile = startup_file(e, q.shell)->Ok_0->0;
    let b = own_block(q.shell, q.program_name, target)->Ok_0;
    let legacy = q.legacy_blocks;
    let contents = text_at(d, profile);
    let after = migration(e, d, q).0;
    lemma_migrates(e, d, q.shell, q.program_name, target, legacy);
    let cleaned = without_legacy(d, profile, legacy);
    let updated = migrated_text(profile, contents, legacy, b)->Ok_0.0;
    assert(fits(profile, contents, legacy, b));
    law_migration_is_lasting(e.platform, d, profile, legacy, b);
    law_write_changes_one_file(e.platform, d, profile, crate::text::text_bytes(updated));
    assert(is_edit(d, after, profile));
    lemma_target_survives(e.platform, d, after, profile, target);
    lemma_migrates(e, after, q.shell, q.program_name, target, legacy);
}

/// The part of a migration that concerns the startup file.
pub proof fn lemma_migrates(
    e: EnvironmentView,
    d: DiskView,
    shell: ShellView,
    name: Seq<char>,
    target: Seq<u8>,
    legacy: Seq<BlockView>,
)
    requires
        !(shell is Fish),
        !(shell is Other),
    ensures
        ({
            let outcome = migrated(e, d, shell, name, target, legacy);
            let profile = startup_file(e, shell)->Ok_0->0;
            let b = own_block(shell, name, target)->Ok_0;
            let edit = blocks_migrated(e.platform, d, profile, legacy, b);
            &&& (startup_file(e, shell) matches Ok(Some(_)) && own_block(
                shell,
                name,
                target,
            ) is Ok) ==> {
                &&& outcome.0 == edit.0
                &&& outcome.1 is Ok <==> edit.1 is Ok
                &&& edit.1 matches Ok((legacy_change, managed_change)) ==> outcome.1->Ok_0 == (
                MigrationOutcomeView {
                    location: Some(profile),
                    managed_change,
                    legacy_change,
                    affected_locations: seq![profile],
                })
            }
            &&& outcome.1 is Ok ==> (startup_file(e, shell) matches Ok(Some(_)) && own_block(
                shell,
                name,
                target,
            ) is Ok)
        }),
{
}

} // verus!

//! What holds of the targets of operations, of their reports and of their failures.
use vstd::prelude::*;
use vstd::utf8::is_ascii_chars_encode_utf8;

use crate::disk::{inspect_link, DiskView};
use crate::environment::{join_all, EnvironmentView, Platform};
use crate::error::ErrorView;
use crate::fs::{directory_node, removed, written_if_changed};
use crate::laws::files::{
    changed_in_one_step, differs_at, law_removal_takes_one_file, law_write_changes_one_file,
    law_write_is_one_step, lemma_no_objection, lemma_nothing_changed,
};
use crate::laws::operations::with_script;
use crate::laws::places::{law_join_ends_with_the_name, law_parent_drops_the_last_component};
use crate::laws::profiles::law_edits_keep_the_rest;
use crate::laws::shells::own_block;
use crate::managed_block::BlockView;
use crate::model::{ActivationMode, ActivationPolicy, ShellView};
use crate::path::{
    components, has_drive, holds_path, is_absolute, join_text, parent, same_path, with_path,
    BACKSLASH, DOT, SLASH,
};
use crate::paths::{ancestors, default_path, is_name_char, program_name_error, startup_file};
use crate::service::common::{
    all_locations, implied_policy, is_default_target, is_startup_file, target_of, uses_backend,
};
use crate::service::detect::{detection, detection_at};
use crate::service::install::{installed, installed_by_default, InstallQuery};
use crate::service::migrate::{migration, MigrateQuery};
use crate::service::uninstall::{uninstalled, UninstallView};
use crate::shell::backend::{activated, deactivated, migrated};
use crate::text::text_bytes;

verus! {

/// The locations of a report begin with the first one, hold each of the others, and hold no
/// place twice.
pub proof fn law_locations_are_distinct(first: Seq<u8>, more: Seq<Seq<u8>>, count: int)
    requires
        0 <= count <= more.len(),
    ensures
        ({
            let all = all_locations(first, more, count);
            &&& all.len() > 0 && all[0] == first
            &&& forall|k: int| 0 <= k < count ==> holds_path(all, #[trigger] more[k])
            &&& forall|i: int, j: int|
                0 <= i < j < all.len() ==> !same_path(#[trigger] all[i], #[trigger] all[j])
        }),
    decreases count,
{
    if count > 0 {
        law_locations_are_distinct(first, more, count - 1);
        let before = all_locations(first, more, count - 1);
        let all = all_locations(first, more, count);
        let last = more[count - 1];
        assert(all == with_path(before, last));
        assert forall|k: int| 0 <= k < count implies holds_path(all, #[trigger] more[k]) by {
            if k < count - 1 {
                assert(holds_path(before, more[k]));
                let i = choose|i: int| 0 <= i < before.len() && same_path(
                    #[trigger] before[i],
                    more[k],
                );
                assert(all[i] == before[i]);
            } else if !holds_path(before, last) {
                assert(all[before.len() as int] == last);
            }
        }
        assert forall|i: int, j: int| 0 <= i < j < all.len() implies !same_path(
            #[trigger] all[i],
            #[trigger] all[j],
        ) by {
            if j == before.len() {
                assert(same_path(before[i], last) ==> holds_path(before, last));
            }
        }
    }
}

/// A target that an operation accepts is absolute, holds no `.` and no `..`, has a parent and is
/// not the startup file of the shell. Apart from the links of macOS's own, neither it nor
/// anything above it that is there is seen as a symbolic link, and what stands above it is a
/// directory.
pub proof fn law_targets_are_sound(
    e: EnvironmentView,
    d: DiskView,
    shell: ShellView,
    name: Seq<char>,
    path_override: Option<Seq<u8>>,
)
    requires
        target_of(e, d, shell, name, path_override) is Ok,
    ensures
        ({
            let target = target_of(e, d, shell, name, path_override)->Ok_0;
            &&& is_absolute(e.platform, target)
            &&& !components(target).contains(seq![DOT])
            &&& !components(target).contains(seq![DOT, DOT])
            &&& parent(target) is Some
            &&& !is_startup_file(e, shell, target)
            &&& path_override matches Some(path) ==> target == path
            &&& e.platform != Platform::MacOs ==> forall|i: int|
                0 <= i < ancestors(target).len() ==> (inspect_link(
                    d,
                    #[trigger] ancestors(target)[i],
                ) matches Ok(node) ==> node.link is None && (node.content is Directory || i == 0
                    && node.content is File))
        }),
{
    let target = target_of(e, d, shell, name, path_override)->Ok_0;
    let physical = crate::paths::plain_target_error(
        e.platform,
        d,
        crate::paths::macos_identity(target),
    );
    lemma_no_objection(d, target, 0, e.platform == Platform::MacOs, physical);
}

/// A completion that goes to another place than the shell's default location, by a request that
/// names no policy, is left to the user to activate.
pub proof fn law_custom_paths_are_manual(e: EnvironmentView, d: DiskView, q: InstallQuery)
    requires
        q.path_override matches Some(path) && !is_default_target(
            e,
            q.shell,
            q.program_name,
            path,
        ),
        installed_by_default(e, d, q).1 is Ok,
    ensures
        installed_by_default(e, d, q).1->Ok_0.activation.mode == ActivationMode::Manual,
        installed_by_default(e, d, q).1->Ok_0.affected_locations == seq![
            q.path_override->0,
        ],
        differs_at(d, installed_by_default(e, d, q).0, components(q.path_override->0)),
{
    let path = q.path_override->0;
    assert(implied_policy(e, q.shell, q.program_name, q.path_override)
        == ActivationPolicy::Manual);
    law_write_changes_one_file(e.platform, d, path, q.script);
}

/// At its default location a completion is activated in the shell's own way.
pub proof fn law_default_location_is_managed(
    e: EnvironmentView,
    d: DiskView,
    shell: ShellView,
    name: Seq<char>,
)
    requires
        target_of(e, d, shell, name, None) is Ok,
    ensures
        uses_backend(
            e,
            shell,
            name,
            implied_policy(e, shell, name, None),
            target_of(e, d, shell, name, None)->Ok_0,
        ),
{
    let target = target_of(e, d, shell, name, None)->Ok_0;
    assert(default_path(e, shell, name) == Ok::<Seq<u8>, ErrorView>(target));
    if shell is Zsh {
        let base = crate::environment::zdotdir(e)->Ok_0;
        reveal_strlit("_");
        let file = "_"@ + name;
        lemma_name_bytes(name);
        let dir = join_text(base, ".zfunc"@);
        let names = seq![".zfunc"@, file];
        assert(names.drop_last() =~= seq![".zfunc"@]);
        assert(names.drop_last().drop_last() =~= Seq::empty());
        reveal_with_fuel(join_all, 3);
        assert(target == join_text(dir, file));
        law_join_ends_with_the_name(dir, text_bytes(file));
    }
}

/// The bytes of a file name that is made of a valid program name.
proof fn lemma_name_bytes(name: Seq<char>)
    requires
        program_name_error(name) is None,
    ensures
        ({
            let bytes = text_bytes("_"@ + name);
            &&& bytes.len() > 0
            &&& !bytes.contains(SLASH)
            &&& !bytes.contains(BACKSLASH)
            &&& !has_drive(bytes)
            &&& !crate::path::is_marked(bytes)
            &&& bytes != seq![DOT]
            &&& bytes != seq![DOT, DOT]
        }),
{
    reveal_strlit("_");
    let file = "_"@ + name;
    assert forall|i: int| 0 <= i < file.len() implies '\0' <= #[trigger] file[i] <= '\u{7f}'
        && file[i] != '/' && file[i] != '\\' by {
        if i > 0 {
            assert(file[i] == name[i - 1]);
            assert(is_name_char(name[i - 1]));
        }
    }
    is_ascii_chars_encode_utf8(file);
    let bytes = text_bytes(file);
    assert(file[0] == '_');
    assert(bytes[0] == 95u8);
    assert forall|i: int| 0 <= i < bytes.len() implies bytes[i] != SLASH && bytes[i]
        != BACKSLASH by {
        assert(file[i] != '/' && file[i] != '\\');
        assert(bytes[i] == file[i] as u8);
    }
}

/// Whether a file system differs from another at most by the entries with two keys and by new
/// directories above them.
pub open spec fn differs_at_two(
    before: DiskView,
    after: DiskView,
    a: Seq<Seq<u8>>,
    b: Seq<Seq<u8>>,
) -> bool {
    &&& after.faults == before.faults
    &&& forall|k: Seq<Seq<u8>>|
        k != a && k != b && #[trigger] before.nodes.dom().contains(k)
            ==> after.nodes.dom().contains(k) && after.nodes[k] == before.nodes[k]
    &&& forall|k: Seq<Seq<u8>>|
        k != a && k != b && #[trigger] after.nodes.dom().contains(k)
            && !before.nodes.dom().contains(k) ==> after.nodes[k] == directory_node() && (k.len()
            < a.len() && k == a.take(k.len() as int) || k.len() < b.len() && k == b.take(
            k.len() as int,
        ))
}

/// The entry of the startup file of a shell; the entry of the completion where the shell has none.
pub open spec fn profile_key(e: EnvironmentView, shell: ShellView, target: Seq<u8>) -> Seq<
    Seq<u8>,
> {
    match startup_file(e, shell) {
        Ok(Some(profile)) => components(profile),
        _ => components(target),
    }
}

proof fn lemma_activated_scope(
    e: EnvironmentView,
    d: DiskView,
    shell: ShellView,
    name: Seq<char>,
    target: Seq<u8>,
    legacy: Seq<BlockView>,
)
    ensures
        differs_at(
            d,
            activated(e, d, shell, name, target).0,
            profile_key(e, shell, target),
        ),
        differs_at(
            d,
            deactivated(e, d, shell, name, target).0,
            profile_key(e, shell, target),
        ),
        differs_at(
            d,
            migrated(e, d, shell, name, target, legacy).0,
            profile_key(e, shell, target),
        ),
{
    match (startup_file(e, shell), own_block(shell, name, target)) {
        (Ok(Some(profile)), Ok(b)) => {
            law_edits_keep_the_rest(e.platform, d, profile, b, seq![b]);
            law_edits_keep_the_rest(e.platform, d, profile, b, legacy);
        },
        _ => {},
    }
}

/// Whatever comes of it, an operation touches no more than the completion file and the startup
/// file of the shell, and makes directories above those.
pub proof fn law_operations_touch_only_their_files(
    e: EnvironmentView,
    d: DiskView,
    install: InstallQuery,
    uninstall: UninstallView,
    migrate: MigrateQuery,
    policy: ActivationPolicy,
)
    ensures
        target_of(e, d, install.shell, install.program_name, install.path_override) matches Ok(
            target,
        ) ==> differs_at_two(
            d,
            installed(e, d, install, policy).0,
            components(target),
            profile_key(e, install.shell, target),
        ),
        target_of(e, d, install.shell, install.program_name, install.path_override) is Err
            ==> installed(e, d, install, policy).0 == d,
        target_of(e, d, uninstall.shell, uninstall.program_name, uninstall.path_override) matches
        Ok(target) ==> differs_at_two(
            d,
            uninstalled(e, d, uninstall, policy).0,
            components(target),
            profile_key(e, uninstall.shell, target),
        ),
        target_of(e, d, uninstall.shell, uninstall.program_name, uninstall.path_override) is Err
            ==> uninstalled(e, d, uninstall, policy).0 == d,
        target_of(e, d, migrate.shell, migrate.program_name, migrate.path_override) matches Ok(
            target,
        ) ==> differs_at(
            d,
            migration(e, d, migrate).0,
            profile_key(e, migrate.shell, target),
        ),
        target_of(e, d, migrate.shell, migrate.program_name, migrate.path_override) is Err
            ==> migration(e, d, migrate).0 == d,
{
    match target_of(e, d, install.shell, install.program_name, install.path_override) {
        Ok(target) => {
            let mid = written_if_changed(e.platform, d, target, install.script).0;
            law_write_changes_one_file(e.platform, d, target, install.script);
            lemma_activated_scope(
                e,
                mid,
                install.shell,
                install.program_name,
                target,
                Seq::empty(),
            );
        },
        Err(_) => {},
    }
    match target_of(e, d, uninstall.shell, uninstall.program_name, uninstall.path_override) {
        Ok(target) => {
            let mid = removed(e.platform, d, target).0;
            law_removal_takes_one_file(e.platform, d, target);
            lemma_activated_scope(
                e,
                mid,
                uninstall.shell,
                uninstall.program_name,
                target,
                Seq::empty(),
            );
        },
        Err(_) => {},
    }
    match target_of(e, d, migrate.shell, migrate.program_name, migrate.path_override) {
        Ok(target) => {
            lemma_activated_scope(
                e,
                d,
                migrate.shell,
                migrate.program_name,
                target,
                migrate.legacy_blocks,
            );
        },
        Err(_) => {},
    }
}

/// A program name that is rejected is answered with that error itself, and nothing is touched.
pub proof fn law_bad_names_are_answered_directly(
    e: EnvironmentView,
    d: DiskView,
    install: InstallQuery,
    uninstall: UninstallView,
    migrate: MigrateQuery,
    policy: ActivationPolicy,
    path: Seq<u8>,
    trace_id: u64,
)
    ensures
        program_name_error(install.program_name) matches Some(error) ==> installed(
            e,
            d,
            install,
            policy,
        ) == (d, Err::<crate::model::InstallView, ErrorView>(error)),
        program_name_error(uninstall.program_name) matches Some(error) ==> uninstalled(
            e,
            d,
            uninstall,
            policy,
        ) == (d, Err::<crate::model::RemoveView, ErrorView>(error)),
        program_name_error(migrate.program_name) matches Some(error) ==> migration(e, d, migrate)
            == (d, Err::<crate::model::MigrateView, ErrorView>(error)),
        program_name_error(install.program_name) matches Some(error) ==> detection(
            e,
            d,
            install.shell,
            install.program_name,
            trace_id,
        ) == Err::<crate::model::ActivationView, ErrorView>(error) && detection_at(
            e,
            d,
            install.shell,
            install.program_name,
            path,
            trace_id,
        ) == Err::<crate::model::ActivationView, ErrorView>(error),
{
}

proof fn lemma_activated_in_one_step(
    e: EnvironmentView,
    d: DiskView,
    shell: ShellView,
    name: Seq<char>,
    target: Seq<u8>,
    legacy: Seq<BlockView>,
)
    ensures
        edits_startup_file(e, d, activated(e, d, shell, name, target).0, shell),
        edits_startup_file(e, d, deactivated(e, d, shell, name, target).0, shell),
        edits_startup_file(e, d, migrated(e, d, shell, name, target, legacy).0, shell),
{
    match (startup_file(e, shell), own_block(shell, name, target)) {
        (Ok(Some(profile)), Ok(b)) => {
            law_edits_keep_the_rest(e.platform, d, profile, b, seq![b]);
            law_edits_keep_the_rest(e.platform, d, profile, b, legacy);
        },
        _ => {},
    }
}

/// Whether all that was done is to change the startup file of a shell in one step.
pub open spec fn edits_startup_file(
    e: EnvironmentView,
    before: DiskView,
    after: DiskView,
    shell: ShellView,
) -> bool {
    after == before || (startup_file(e, shell) matches Ok(Some(profile)) && changed_in_one_step(
        before,
        after,
        profile,
    ))
}

/// An operation changes the completion file first and the startup file behind it, each in one
/// step: a file that is replaced is never gone in between.
pub proof fn law_changes_come_in_order(
    e: EnvironmentView,
    d: DiskView,
    install: InstallQuery,
    uninstall: UninstallView,
    migrate: MigrateQuery,
    policy: ActivationPolicy,
)
    ensures
        ({
            let ready = with_script(
                e,
                d,
                install,
                target_of(e, d, install.shell, install.program_name, install.path_override)->Ok_0,
            );
            let after = installed(e, d, install, policy).0;
            after == d || {
                &&& target_of(
                    e,
                    d,
                    install.shell,
                    install.program_name,
                    install.path_override,
                ) matches Ok(target) && changed_in_one_step(d, ready, target)
                &&& edits_startup_file(e, ready, after, install.shell)
            }
        }),
        ({
            let after = uninstalled(e, d, uninstall, policy).0;
            after == d || (target_of(
                e,
                d,
                uninstall.shell,
                uninstall.program_name,
                uninstall.path_override,
            ) matches Ok(target) && {
                let gone = removed(e.platform, d, target).0;
                &&& changed_in_one_step(d, gone, target)
                &&& edits_startup_file(e, gone, after, uninstall.shell)
            })
        }),
        edits_startup_file(e, d, migration(e, d, migrate).0, migrate.shell),
{
    match target_of(e, d, install.shell, install.program_name, install.path_override) {
        Ok(target) => {
            let ready = with_script(e, d, install, target);
            law_write_is_one_step(e.platform, d, target, install.script);
            lemma_nothing_changed(d, target);
            lemma_activated_in_one_step(
                e,
                ready,
                install.shell,
                install.program_name,
                target,
                migrate.legacy_blocks,
            );
        },
        Err(_) => {},
    }
    match target_of(e, d, uninstall.shell, uninstall.program_name, uninstall.path_override) {
        Ok(target) => {
            let gone = removed(e.platform, d, target).0;
            law_parent_drops_the_last_component(target);
            law_removal_takes_one_file(e.platform, d, target);
            lemma_activated_in_one_step(
                e,
                gone,
                uninstall.shell,
                uninstall.program_name,
                target,
                migrate.legacy_blocks,
            );
        },
        Err(_) => {},
    }
    match target_of(e, d, migrate.shell, migrate.program_name, migrate.path_override) {
        Ok(target) => {
            lemma_activated_in_one_step(
                e,
                d,
                migrate.shell,
                migrate.program_name,
                target,
                migrate.legacy_blocks,
            );
        },
        Err(_) => {},
    }
}

} // verus!

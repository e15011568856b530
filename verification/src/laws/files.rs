//! What holds of writing and removing files.
use vstd::prelude::*;

use crate::disk::{
    blocks, fault_at, inspect, inspect_link, is_blocked, node_at, node_with, read_bytes, Change,
    ContentView, DiskView, NodeView, Step,
};
use crate::environment::Platform;
use crate::error::ErrorView;
use crate::fs::{
    directory_changes, directory_node, file_node, file_view, kept_mode, on_the_way, removed,
    with_parents, written, written_if_changed,
};
use crate::laws::places::{
    law_macos_identity, law_parent_drops_the_last_component, lemma_alias_names, lemma_ancestors,
};
use crate::model::FileChange;
use crate::path::{asks_directory, components, is_anchored, parent};
use crate::paths::{
    ancestors, first_objection, macos_identity, objection, plain_target_error, target_error,
};

verus! {

/// Whether a file system differs from another at most by the entry with the given key and by new
/// directories above that entry.
pub open spec fn differs_at(before: DiskView, after: DiskView, key: Seq<Seq<u8>>) -> bool {
    &&& after.faults == before.faults
    &&& forall|k: Seq<Seq<u8>>|
        k != key && #[trigger] before.nodes.dom().contains(k) ==> after.nodes.dom().contains(k)
            && after.nodes[k] == before.nodes[k]
    &&& forall|k: Seq<Seq<u8>>|
        k != key && #[trigger] after.nodes.dom().contains(k) && !before.nodes.dom().contains(k)
            ==> after.nodes[k] == directory_node() && k.len() < key.len() && k == key.take(
            k.len() as int,
        )
}

/// Whether the system lets a file be looked at and read.
pub open spec fn is_readable(d: DiskView, path: Seq<u8>) -> bool {
    fault_at(d, Step::Inspect, path) is None && fault_at(d, Step::Read, path) is None
}

/// What is seen at a path, where something is.
pub open spec fn inspected(d: DiskView, path: Seq<u8>) -> Option<NodeView> {
    match inspect(d, path) {
        Ok(node) => Some(node),
        Err(_) => None,
    }
}

/// Whether what was done to a file system behind its earlier changes is to make directories above
/// an entry and then, if at all, to change that entry in one step.
pub open spec fn changed_in_one_step(before: DiskView, after: DiskView, path: Seq<u8>) -> bool {
    let start = before.changes.len() as int;
    let made = after.changes.skip(start);
    &&& after.changes.len() >= start
    &&& after.changes.take(start) == before.changes
    &&& after.refusals == before.refusals
    &&& forall|i: int|
        0 <= i < made.len() ==> (#[trigger] made[i]).key.len() > 0 && (if made[i].key
            == components(path) {
            i == made.len() - 1
        } else {
            &&& made[i].node == Some(directory_node())
            &&& made[i].key.len() < components(path).len()
            &&& made[i].key == components(path).take(made[i].key.len() as int)
        })
}

/// Writing a file makes the directories above it and then puts the new file in its place in one
/// step: nothing is taken away first, and a write that fails does nothing to the file.
pub proof fn law_write_is_one_step(platform: Platform, d: DiskView, path: Seq<u8>, bytes: Seq<u8>)
    ensures
        ({
            let (after, error) = written(platform, d, path, bytes);
            let start = d.changes.len() as int;
            &&& changed_in_one_step(d, after, path)
            &&& error is None ==> after.changes.len() > start && after.changes.last() == (Change {
                key: components(path),
                node: Some(file_node(bytes, kept_mode(inspected(d, path)))),
            })
            &&& error is Some ==> forall|i: int|
                start <= i < after.changes.len() ==> (#[trigger] after.changes[i]).key
                    != components(path)
        }),
{
    let key = components(path);
    law_parent_drops_the_last_component(path);
    match parent(path) {
        Some(dir) => {
            let above = components(dir);
            lemma_directory_changes(d, above, above.len() as int);
            let made = directory_changes(d, above, above.len() as int);
            assert forall|i: int| 0 <= i < made.len() implies (#[trigger] made[i]).key.len()
                < key.len() && made[i].key == key.take(made[i].key.len() as int)
                && made[i].key.len() > 0 && made[i].node == Some(directory_node()) by {
                assert(above.take(made[i].key.len() as int) =~= key.take(
                    made[i].key.len() as int,
                ));
            }
            assert(key.len() > 0);
            let (after, error) = written(platform, d, path, bytes);
            let start = d.changes.len() as int;
            let ready = with_parents(d, dir);
            assert(node_with(ready, key) == node_with(d, key)) by {
                if on_the_way(key, above, above.len() as int) {
                    assert(above.take(key.len() as int).len() <= above.len());
                }
            }
            assert(after.changes.take(start) =~= d.changes);
            assert(after.changes == d.changes || after.changes == d.changes + made
                || error is None);
            assert forall|i: int| start <= i < start + made.len() implies (#[trigger] (d.changes
                + made)[i]) == made[i - start] by {}
            if error is None {
                assert(after.changes.skip(start) =~= made.push(after.changes.last()));
            } else if after.changes == d.changes + made {
                assert(after.changes.skip(start) =~= made);
            } else {
                assert(after.changes.skip(start) =~= Seq::empty());
            }
        },
        None => {
            let after = written(platform, d, path, bytes).0;
            assert(after.changes.take(d.changes.len() as int) =~= d.changes);
        },
    }
}

proof fn lemma_directory_changes(d: DiskView, key: Seq<Seq<u8>>, count: int)
    requires
        count <= key.len(),
    ensures
        forall|i: int|
            0 <= i < directory_changes(d, key, count).len() ==> {
                let change = #[trigger] directory_changes(d, key, count)[i];
                &&& 0 < change.key.len() <= count
                &&& change.key == key.take(change.key.len() as int)
                &&& change.node == Some(directory_node())
            },
    decreases count,
{
    if count > 0 {
        lemma_directory_changes(d, key, count - 1);
    }
}

/// Writing a file changes that file alone, apart from new directories above it, and keeps the
/// permissions of the file that was there. A write that fails leaves the file as it was.
pub proof fn law_write_changes_one_file(
    platform: Platform,
    d: DiskView,
    path: Seq<u8>,
    bytes: Seq<u8>,
)
    ensures
        differs_at(d, written(platform, d, path, bytes).0, components(path)),
        written(platform, d, path, bytes).1 is None ==> node_at(
            written(platform, d, path, bytes).0,
            path,
        ) == Some(file_node(bytes, kept_mode(inspected(d, path)))),
        written(platform, d, path, bytes).1 is Some ==> node_at(
            written(platform, d, path, bytes).0,
            path,
        ) == node_at(d, path),
{
    let key = components(path);
    law_parent_drops_the_last_component(path);
    match parent(path) {
        Some(dir) => {
            let ready = with_parents(d, dir);
            let above = components(dir);
            assert forall|k: Seq<Seq<u8>>| on_the_way(k, above, above.len() as int) implies k.len()
                < key.len() && k == #[trigger] key.take(k.len() as int) && k != key by {
                assert(above.take(k.len() as int) =~= key.take(k.len() as int));
            }
            assert(differs_at(d, ready, key));
            assert(node_with(ready, key) == node_with(d, key));
        },
        None => {},
    }
}

/// A file that takes the place of another has its permissions; a new one has those that the system
/// gives. A file that is protected against writing is not replaced.
#[verifier::spinoff_prover]
#[verifier::rlimit(40)]
pub proof fn law_permissions_are_respected(
    platform: Platform,
    d: DiskView,
    path: Seq<u8>,
    bytes: Seq<u8>,
)
    requires
        fault_at(d, Step::Inspect, path) is None,
    ensures
        ({
            let (after, error) = written(platform, d, path, bytes);
            &&& error is None ==> (node_at(after, path) matches Some(new) && {
                &&& new.content == ContentView::File(bytes)
                &&& new.link is None && !new.readonly
                &&& node_at(d, path) is None ==> new.mode is None
                &&& node_at(d, path) matches Some(old_node) ==> (old_node.content is File
                    && !asks_directory(path) ==> new.mode == old_node.mode)
            })
            &&& node_at(d, path) matches Some(old_node) ==> (old_node.readonly
                && old_node.content is File ==> error is Some && node_at(after, path) == Some(
                old_node,
            ))
        }),
{
    law_write_changes_one_file(platform, d, path, bytes);
    let key = components(path);
    law_parent_drops_the_last_component(path);
    match parent(path) {
        Some(dir) => {
            let ready = with_parents(d, dir);
            let above = components(dir);
            assert forall|k: Seq<Seq<u8>>| on_the_way(k, above, above.len() as int) implies k
                != key by {
                assert(k.len() < key.len());
            }
            assert(node_with(ready, key) == node_with(d, key));
        },
        None => {},
    }
}

/// Once a file was written, reading it gives the bytes that were written.
pub proof fn law_read_gives_what_was_written(
    platform: Platform,
    d: DiskView,
    path: Seq<u8>,
    bytes: Seq<u8>,
)
    requires
        written(platform, d, path, bytes).1 is None,
        is_readable(d, path),
    ensures
        file_view(written(platform, d, path, bytes).0, path) == Ok::<
            Option<Seq<u8>>,
            ErrorView,
        >(Some(bytes)),
        read_bytes(written(platform, d, path, bytes).0, path) == Ok::<
            Seq<u8>,
            crate::error::IoView,
        >(bytes),
{
    law_write_changes_one_file(platform, d, path, bytes);
}

/// A target has nothing against it when no entry on the way to it has.
pub proof fn lemma_no_objection(
    d: DiskView,
    path: Seq<u8>,
    from: int,
    aliases: bool,
    physical: Option<ErrorView>,
)
    requires
        0 <= from <= ancestors(path).len(),
    ensures
        first_objection(d, path, from, aliases, physical) is None <==> forall|i: int|
            from <= i < ancestors(path).len() ==> objection(
                d,
                path,
                #[trigger] ancestors(path)[i],
                i == 0,
                aliases,
                physical,
            ) is None,
    decreases ancestors(path).len() - from,
{
    if from < ancestors(path).len() {
        lemma_no_objection(d, path, from + 1, aliases, physical);
        let here = ancestors(path)[from];
        if objection(d, path, here, from == 0, aliases, physical) is None {
            assert forall|i: int| from <= i < ancestors(path).len() && (forall|j: int|
                from + 1 <= j < ancestors(path).len() ==> objection(
                    d,
                    path,
                    #[trigger] ancestors(path)[j],
                    j == 0,
                    aliases,
                    physical,
                ) is None) implies objection(
                d,
                path,
                #[trigger] ancestors(path)[i],
                i == 0,
                aliases,
                physical,
            ) is None by {
                if i != from {
                    assert(from + 1 <= i);
                }
            }
        }
    }
}

/// An entry that is not below the changed one is blocked if and only if it was.
pub proof fn lemma_blocked_alike(
    d: DiskView,
    after: DiskView,
    key: Seq<Seq<u8>>,
    k: Seq<Seq<u8>>,
)
    requires
        differs_at(d, after, key),
        forall|n: int| 1 <= n < k.len() ==> #[trigger] k.take(n) != key,
    ensures
        is_blocked(after, k) == is_blocked(d, k),
{
    assert forall|n: int| 1 <= n < k.len() implies blocks(node_with(after, #[trigger] k.take(n)))
        == blocks(node_with(d, k.take(n))) by {
        assert(k.take(n) != key);
        assert(after.nodes.dom().contains(k.take(n)) || !d.nodes.dom().contains(k.take(n)));
    }
    if is_blocked(after, k) {
        let n = choose|n: int| 1 <= n < k.len() && blocks(node_with(after, #[trigger] k.take(n)));
        assert(blocks(node_with(d, k.take(n))));
    }
    if is_blocked(d, k) {
        let n = choose|n: int| 1 <= n < k.len() && blocks(node_with(d, #[trigger] k.take(n)));
        assert(blocks(node_with(after, k.take(n))));
    }
}

/// An entry that is not the changed one and not below it is answered for as before, or it has
/// become a directory.
proof fn lemma_other_entry(d: DiskView, after: DiskView, key: Seq<Seq<u8>>, other: Seq<u8>)
    requires
        differs_at(d, after, key),
        forall|n: int| 0 <= n <= components(other).len() ==> #[trigger] components(other).take(n)
            != key,
    ensures
        inspect_link(after, other) == inspect_link(d, other) || (inspect_link(d, other) is Err
            && inspect_link(after, other) == Ok::<NodeView, crate::error::IoView>(
            directory_node(),
        )),
{
    let k = components(other);
    assert(k.take(k.len() as int) =~= k);
    assert(k != key);
    if fault_at(d, Step::InspectLink, other) is None {
        if node_with(d, k) is None && node_with(after, k) is None {
            lemma_blocked_alike(d, after, key, k);
        } else {
            assert(after.nodes.dom().contains(k));
        }
    }
}

/// An absolute path that has nothing against it still has nothing against it when a regular file
/// has been put at it, or at a place that is neither it nor above it.
pub proof fn lemma_target_after(
    d: DiskView,
    after: DiskView,
    key: Seq<Seq<u8>>,
    bytes: Seq<u8>,
    mode: Option<u32>,
    path: Seq<u8>,
    aliases: bool,
    before_physical: Option<ErrorView>,
    after_physical: Option<ErrorView>,
)
    requires
        is_anchored(path),
        differs_at(d, after, key),
        node_with(after, key) == Some(file_node(bytes, mode)),
        components(path) == key || forall|n: int|
            0 <= n <= components(path).len() ==> #[trigger] components(path).take(n) != key,
        components(path) == key ==> !asks_directory(path),
        first_objection(d, path, 0, aliases, before_physical) is None,
        before_physical is None ==> after_physical is None,
    ensures
        first_objection(after, path, 0, aliases, after_physical) is None,
{
    let all = components(path);
    lemma_no_objection(d, path, 0, aliases, before_physical);
    lemma_no_objection(after, path, 0, aliases, after_physical);
    assert forall|i: int| 0 <= i < ancestors(path).len() implies objection(
        after,
        path,
        #[trigger] ancestors(path)[i],
        i == 0,
        aliases,
        after_physical,
    ) is None by {
        let candidate = ancestors(path)[i];
        lemma_ancestors(path, i);
        assert(objection(d, path, candidate, i == 0, aliases, before_physical) is None);
        if i == 0 && all == key {
            assert(all.take(all.len() as int) =~= all);
        } else {
            assert forall|n: int| 0 <= n <= components(candidate).len() implies #[trigger]
                components(candidate).take(n) != key by {
                assert(components(candidate).take(n) =~= all.take(n));
                if all == key {
                    assert(all.take(n).len() < key.len());
                }
            }
            lemma_other_entry(d, after, key, candidate);
        }
    }
}

/// A target that was written to can be written to again.
pub proof fn law_written_target_stays_acceptable(
    platform: Platform,
    d: DiskView,
    path: Seq<u8>,
    bytes: Seq<u8>,
)
    requires
        written(platform, d, path, bytes).1 is None,
    ensures
        target_error(platform, written(platform, d, path, bytes).0, path) is None,
{
    let after = written(platform, d, path, bytes).0;
    let key = components(path);
    law_write_changes_one_file(platform, d, path, bytes);
    let mode = kept_mode(inspected(d, path));
    let place = macos_identity(path);
    law_macos_identity(path);
    lemma_alias_names();
    if plain_target_error(platform, d, place) is None {
        let there = components(place);
        assert(there == key || forall|n: int|
            0 <= n <= there.len() ==> #[trigger] there.take(n) != key) by {
            if there != key {
                assert forall|n: int| 0 <= n <= there.len() implies #[trigger] there.take(n)
                    != key by {
                    if there.take(n) == key {
                        assert(there.take(n)[1] == there[1]);
                    }
                }
            }
        }
        lemma_target_after(d, after, key, bytes, mode, place, false, None, None);
    }
    lemma_target_after(
        d,
        after,
        key,
        bytes,
        mode,
        path,
        platform == Platform::MacOs,
        plain_target_error(platform, d, place),
        plain_target_error(platform, after, place),
    );
}

/// Writing the same bytes a second time changes nothing and says so.
pub proof fn law_write_if_changed_is_idempotent(
    platform: Platform,
    d: DiskView,
    path: Seq<u8>,
    bytes: Seq<u8>,
)
    requires
        written_if_changed(platform, d, path, bytes).1 is Ok,
        fault_at(d, Step::Read, path) is None,
    ensures
        ({
            let after = written_if_changed(platform, d, path, bytes).0;
            written_if_changed(platform, after, path, bytes) == (
                after,
                Ok::<FileChange, ErrorView>(FileChange::Unchanged),
            )
        }),
{
    if written_if_changed(platform, d, path, bytes).1 != Ok::<FileChange, ErrorView>(
        FileChange::Unchanged,
    ) {
        law_write_changes_one_file(platform, d, path, bytes);
        law_written_target_stays_acceptable(platform, d, path, bytes);
    }
}

/// Where nothing was done, nothing was changed.
pub proof fn lemma_nothing_changed(d: DiskView, path: Seq<u8>)
    ensures
        changed_in_one_step(d, d, path),
{
    assert(d.changes.take(d.changes.len() as int) =~= d.changes);
}

/// Removing a file takes away that entry alone, in one step, and nothing if it does not succeed.
pub proof fn law_removal_takes_one_file(platform: Platform, d: DiskView, path: Seq<u8>)
    ensures
        components(path).len() > 0 ==> changed_in_one_step(d, removed(platform, d, path).0, path),
        differs_at(d, removed(platform, d, path).0, components(path)),
        removed(platform, d, path).1 == Ok::<FileChange, ErrorView>(FileChange::Removed)
            ==> node_at(removed(platform, d, path).0, path) is None,
        removed(platform, d, path).1 != Ok::<FileChange, ErrorView>(FileChange::Removed)
            ==> removed(platform, d, path).0 == d,
{
    let after = removed(platform, d, path).0;
    lemma_nothing_changed(d, path);
    assert(after.changes.take(d.changes.len() as int) =~= d.changes);
}

/// A target that was removed is still an acceptable target. What stands above it has to be
/// made of directories.
pub proof fn law_removed_target_stays_acceptable(platform: Platform, d: DiskView, path: Seq<u8>)
    requires
        removed(platform, d, path).1 is Ok,
        !is_blocked(d, components(path)),
    ensures
        target_error(platform, removed(platform, d, path).0, path) is None,
{
    if removed(platform, d, path).1 == Ok::<FileChange, ErrorView>(FileChange::Removed) {
        let after = removed(platform, d, path).0;
        let key = components(path);
        let place = macos_identity(path);
        law_macos_identity(path);
        lemma_alias_names();
        lemma_not_blocked(d, after, key);
        if plain_target_error(platform, d, place) is None {
            let there = components(place);
            assert(there == key || forall|n: int|
                0 <= n <= there.len() ==> #[trigger] there.take(n) != key) by {
                if there != key {
                    assert forall|n: int| 0 <= n <= there.len() implies #[trigger] there.take(n)
                        != key by {
                        if there.take(n) == key {
                            assert(there.take(n)[1] == there[1]);
                        }
                    }
                }
            }
            lemma_target_without(d, after, key, place, false, None, None);
        }
        lemma_target_without(
            d,
            after,
            key,
            path,
            platform == Platform::MacOs,
            plain_target_error(platform, d, place),
            plain_target_error(platform, after, place),
        );
    }
}

proof fn lemma_not_blocked(d: DiskView, after: DiskView, key: Seq<Seq<u8>>)
    requires
        differs_at(d, after, key),
        !is_blocked(d, key),
    ensures
        !is_blocked(after, key),
{
    if is_blocked(after, key) {
        let n = choose|n: int|
            1 <= n < key.len() && blocks(node_with(after, #[trigger] key.take(n)));
        let k = key.take(n);
        assert(k.len() != key.len());
        assert(after.nodes.dom().contains(k));
        assert(blocks(node_with(d, k)));
    }
}

/// The same as for a file that was put there, for one that was taken away.
pub proof fn lemma_target_without(
    d: DiskView,
    after: DiskView,
    key: Seq<Seq<u8>>,
    path: Seq<u8>,
    aliases: bool,
    before_physical: Option<ErrorView>,
    after_physical: Option<ErrorView>,
)
    requires
        is_anchored(path),
        differs_at(d, after, key),
        node_with(after, key) is None,
        components(path) == key ==> !is_blocked(after, key),
        components(path) == key || forall|n: int|
            0 <= n <= components(path).len() ==> #[trigger] components(path).take(n) != key,
        first_objection(d, path, 0, aliases, before_physical) is None,
        before_physical is None ==> after_physical is None,
    ensures
        first_objection(after, path, 0, aliases, after_physical) is None,
{
    let all = components(path);
    lemma_no_objection(d, path, 0, aliases, before_physical);
    lemma_no_objection(after, path, 0, aliases, after_physical);
    assert forall|i: int| 0 <= i < ancestors(path).len() implies objection(
        after,
        path,
        #[trigger] ancestors(path)[i],
        i == 0,
        aliases,
        after_physical,
    ) is None by {
        let candidate = ancestors(path)[i];
        lemma_ancestors(path, i);
        assert(objection(d, path, candidate, i == 0, aliases, before_physical) is None);
        if i == 0 && all == key {
            assert(all.take(all.len() as int) =~= all);
        } else {
            assert forall|n: int| 0 <= n <= components(candidate).len() implies #[trigger]
                components(candidate).take(n) != key by {
                assert(components(candidate).take(n) =~= all.take(n));
                if all == key {
                    assert(all.take(n).len() < key.len());
                }
            }
            lemma_other_entry(d, after, key, candidate);
        }
    }
}

/// Removing a file a second time finds none and changes nothing.
pub proof fn law_removal_is_idempotent(platform: Platform, d: DiskView, path: Seq<u8>)
    requires
        removed(platform, d, path).1 is Ok,
        !is_blocked(d, components(path)),
    ensures
        ({
            let after = removed(platform, d, path).0;
            removed(platform, after, path) == (
                after,
                Ok::<FileChange, ErrorView>(FileChange::Absent),
            )
        }),
{
    let after = removed(platform, d, path).0;
    law_removed_target_stays_acceptable(platform, d, path);
    if removed(platform, d, path).1 == Ok::<FileChange, ErrorView>(FileChange::Removed) {
        lemma_not_blocked(d, after, components(path));
    }
}

/// A file that was written can be removed, where the system lets it be removed, and is then gone.
pub proof fn law_removal_undoes_write(
    platform: Platform,
    d: DiskView,
    path: Seq<u8>,
    bytes: Seq<u8>,
)
    requires
        written(platform, d, path, bytes).1 is None,
        fault_at(d, Step::Remove, path) is None,
    ensures
        ({
            let after = written(platform, d, path, bytes).0;
            &&& removed(platform, after, path).1 == Ok::<FileChange, ErrorView>(
                FileChange::Removed,
            )
            &&& node_at(removed(platform, after, path).0, path) is None
            &&& differs_at(d, removed(platform, after, path).0, components(path))
        }),
{
    law_write_changes_one_file(platform, d, path, bytes);
    law_written_target_stays_acceptable(platform, d, path, bytes);
}

} // verus!

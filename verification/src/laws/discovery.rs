//! What holds of the search for a completion loader in the startup files of Bash.
use vstd::prelude::*;

use crate::disk::DiskView;
use crate::environment::EnvironmentView;
use crate::error::ErrorView;
use crate::listing::entries;
use crate::managed_block::profile_text;
use crate::path::components;
use crate::shell::discovery::{
    active_lines, children, directory_count, lemma_directory_count_add, lemma_fewer_left,
    lemma_script_probes, lemma_text_has_node, looked_at, script_probes, search, sources_a_loader,
    startup_files_of, startup_wiring, wiring_from, Probe, Search,
};

verus! {

/// What a file or a directory leads to directly: a file to what its commands run, a directory to
/// its scripts.
pub open spec fn next(e: EnvironmentView, d: DiskView, probe: Probe) -> Seq<Probe> {
    match probe {
        Probe::File(path) => match profile_text(d, path) {
            Ok(Some(contents)) => children(e, active_lines(contents)),
            _ => Seq::empty(),
        },
        Probe::Directory(dir) => match entries(d, dir) {
            Ok(names) => script_probes(dir, names, names.len() as int),
            Err(_) => Seq::empty(),
        },
    }
}

/// Whether a file or a directory leads to a file in the given number of steps.
pub open spec fn leads_in(
    e: EnvironmentView,
    d: DiskView,
    probe: Probe,
    path: Seq<u8>,
    steps: nat,
) -> bool
    decreases steps,
{
    if steps == 0 {
        probe == Probe::File(path)
    } else {
        exists|i: int|
            0 <= i < next(e, d, probe).len() && leads_in(
                e,
                d,
                #[trigger] next(e, d, probe)[i],
                path,
                (steps - 1) as nat,
            )
    }
}

/// Whether one of a list of files and directories leads to a file.
pub open spec fn leads_to(
    e: EnvironmentView,
    d: DiskView,
    pending: Seq<Probe>,
    path: Seq<u8>,
) -> bool {
    exists|i: int, steps: nat|
        0 <= i < pending.len() && #[trigger] leads_in(e, d, pending[i], path, steps)
}

/// Whether a file is there, can be read and sources a loader that is there.
pub open spec fn loads(d: DiskView, path: Seq<u8>) -> bool {
    profile_text(d, path) matches Ok(Some(contents)) && sources_a_loader(
        d,
        active_lines(contents),
    )
}

/// What is reached through the first thing that is pending, or through the rest, is reached.
proof fn lemma_leads_on(
    e: EnvironmentView,
    d: DiskView,
    pending: Seq<Probe>,
    path: Seq<u8>,
)
    requires
        pending.len() > 0,
        leads_to(e, d, next(e, d, pending[0]) + pending.skip(1), path) || leads_to(
            e,
            d,
            pending.skip(1),
            path,
        ),
    ensures
        leads_to(e, d, pending, path),
{
    let first = next(e, d, pending[0]);
    let rest = pending.skip(1);
    if leads_to(e, d, rest, path) {
        let (i, steps) = choose|i: int, steps: nat|
            0 <= i < rest.len() && #[trigger] leads_in(e, d, rest[i], path, steps);
        assert(leads_in(e, d, pending[i + 1], path, steps));
    } else {
        let all = first + rest;
        let (i, steps) = choose|i: int, steps: nat|
            0 <= i < all.len() && #[trigger] leads_in(e, d, all[i], path, steps);
        if i < first.len() {
            assert(all[i] == first[i]);
            assert(leads_in(e, d, next(e, d, pending[0])[i], path, steps));
            assert(leads_in(e, d, pending[0], path, (steps + 1) as nat));
        } else {
            assert(all[i] == rest[i - first.len()]);
            assert(leads_in(e, d, pending[i - first.len() + 1], path, steps));
        }
    }
}

/// A file that the search names sources a loader, and startup leads to it.
pub proof fn law_search_is_sound(
    e: EnvironmentView,
    d: DiskView,
    pending: Seq<Probe>,
    visited: Set<Seq<Seq<u8>>>,
)
    requires
        d.nodes.dom().finite(),
    ensures
        search(e, d, pending, visited) matches Ok(s) ==> (s.found matches Some(path) ==> loads(
            d,
            path,
        ) && leads_to(e, d, pending, path)),
        search(e, d, pending, visited) matches Err(error) ==> !(error is Failure),
    decreases
            d.nodes.dom().difference(visited).len(),
            directory_count(pending),
            pending.len(),
{
    if pending.len() > 0 {
        let rest = pending.skip(1);
        match pending[0] {
            Probe::Directory(dir) => match entries(d, dir) {
                Err(_) => {},
                Ok(names) => {
                    let scripts = script_probes(dir, names, names.len() as int);
                    lemma_script_probes(dir, names, names.len() as int);
                    lemma_directory_count_add(scripts, rest);
                    law_search_is_sound(e, d, scripts + rest, visited);
                    match search(e, d, pending, visited) {
                        Ok(Search { found: Some(path), .. }) => {
                            lemma_leads_on(e, d, pending, path);
                        },
                        _ => {},
                    }
                },
            },
            Probe::File(path) => {
                if visited.contains(components(path)) {
                    law_search_is_sound(e, d, rest, visited);
                    match search(e, d, pending, visited) {
                        Ok(Search { found: Some(found), .. }) => {
                            lemma_leads_on(e, d, pending, found);
                        },
                        _ => {},
                    }
                } else {
                    let seen = visited.insert(components(path));
                    lemma_fewer_left(d, visited, components(path));
                    lemma_text_has_node(d, path);
                    match profile_text(d, path) {
                        Err(_) => {},
                        Ok(None) => {
                            law_search_is_sound(e, d, rest, seen);
                        },
                        Ok(Some(contents)) => {
                            let lines = active_lines(contents);
                            if sources_a_loader(d, lines) {
                                assert(leads_in(e, d, pending[0], path, 0));
                            } else {
                                law_search_is_sound(e, d, children(e, lines) + rest, seen);
                            }
                        },
                    }
                    match search(e, d, pending, visited) {
                        Ok(Search { found: Some(found), .. }) => {
                            if !loads(d, path) {
                                lemma_leads_on(e, d, pending, found);
                            }
                        },
                        _ => {},
                    }
                }
            },
        }
    }
}

/// Whether something that a visited file leads to has been dealt with: it is pending, it is a
/// file that was visited, or it is a directory of whose scripts that holds.
spec fn is_handled(
    d: DiskView,
    visited: Set<Seq<Seq<u8>>>,
    pending: Seq<Probe>,
    probe: Probe,
) -> bool {
    ||| pending.contains(probe)
    ||| match probe {
        Probe::File(path) => visited.contains(components(path)),
        Probe::Directory(dir) => entries(d, dir) matches Ok(names) && forall|k: int|
            0 <= k < script_probes(dir, names, names.len() as int).len() ==> is_seen(
                visited,
                pending,
                #[trigger] script_probes(dir, names, names.len() as int)[k],
            ),
    }
}

spec fn is_seen(visited: Set<Seq<Seq<u8>>>, pending: Seq<Probe>, probe: Probe) -> bool {
    pending.contains(probe) || (probe matches Probe::File(path) && visited.contains(
        components(path),
    ))
}

/// Whether no visited file sources a loader and whatever the visited files lead to has been dealt
/// with.
spec fn is_settled(
    e: EnvironmentView,
    d: DiskView,
    visited: Set<Seq<Seq<u8>>>,
    pending: Seq<Probe>,
) -> bool {
    forall|path: Seq<u8>| #[trigger]
        visited.contains(components(path)) ==> {
            &&& !loads(d, path)
            &&& forall|i: int|
                0 <= i < next(e, d, Probe::File(path)).len() ==> is_handled(
                    d,
                    visited,
                    pending,
                    #[trigger] next(e, d, Probe::File(path))[i],
                )
        }
}

/// Where a file can be read, another path to the same place leads to the same files or to none: one
/// that ends in a separator cannot be read.
proof fn lemma_same_place(e: EnvironmentView, d: DiskView, a: Seq<u8>, b: Seq<u8>)
    requires
        components(a) == components(b),
        profile_text(d, b) is Ok,
    ensures
        loads(d, a) ==> loads(d, b),
        next(e, d, Probe::File(a)).len() == 0 || next(e, d, Probe::File(a)) == next(
            e,
            d,
            Probe::File(b),
        ),
{
    match profile_text(d, a) {
        Ok(Some(text)) => {
            assert(profile_text(d, b) == Ok::<Option<Seq<char>>, ErrorView>(Some(text)));
        },
        _ => {},
    }
}

/// What was dealt with stays so when the first thing that is pending is replaced by what it
/// leads to, or has been visited.
proof fn lemma_handled_on(
    d: DiskView,
    visited: Set<Seq<Seq<u8>>>,
    pending: Seq<Probe>,
    after: Set<Seq<Seq<u8>>>,
    later: Seq<Probe>,
    probe: Probe,
)
    requires
        pending.len() > 0,
        is_handled(d, visited, pending, probe),
        visited.subset_of(after),
        forall|i: int| 1 <= i < pending.len() ==> later.contains(#[trigger] pending[i]),
        is_handled(d, after, later, pending[0]),
        pending[0] is File ==> is_seen(after, later, pending[0]),
    ensures
        is_handled(d, after, later, probe),
{
    if pending.contains(probe) {
        let i = choose|i: int| 0 <= i < pending.len() && pending[i] == probe;
        if i > 0 {
            assert(later.contains(pending[i]));
        }
    } else {
        match probe {
            Probe::File(path) => {},
            Probe::Directory(dir) => {
                let names = entries(d, dir)->Ok_0;
                let scripts = script_probes(dir, names, names.len() as int);
                lemma_script_probes(dir, names, names.len() as int);
                assert forall|k: int| 0 <= k < scripts.len() implies is_seen(
                    after,
                    later,
                    #[trigger] scripts[k],
                ) by {
                    assert(is_seen(visited, pending, scripts[k]));
                    if pending.contains(scripts[k]) {
                        let i = choose|i: int| 0 <= i < pending.len() && pending[i] == scripts[k];
                        if i > 0 {
                            assert(later.contains(pending[i]));
                        }
                    }
                }
            },
        }
    }
}

/// A search that finds nothing leaves everything dealt with.
proof fn lemma_search_settles(
    e: EnvironmentView,
    d: DiskView,
    pending: Seq<Probe>,
    visited: Set<Seq<Seq<u8>>>,
)
    requires
        d.nodes.dom().finite(),
        is_settled(e, d, visited, pending),
        search(e, d, pending, visited) matches Ok(s) && s.found is None,
    ensures
        ({
            let end = search(e, d, pending, visited)->Ok_0.visited;
            &&& visited.subset_of(end)
            &&& is_settled(e, d, end, Seq::empty())
            &&& forall|i: int|
                0 <= i < pending.len() ==> is_handled(
                    d,
                    end,
                    Seq::empty(),
                    #[trigger] pending[i],
                )
        }),
    decreases
            d.nodes.dom().difference(visited).len(),
            directory_count(pending),
            pending.len(),
{
    let none = Seq::<Probe>::empty();
    let end = search(e, d, pending, visited)->Ok_0.visited;
    if pending.len() == 0 {
        assert(pending =~= none);
    } else {
        let rest = pending.skip(1);
        let (later, after) = match pending[0] {
            Probe::Directory(dir) => (next(e, d, pending[0]) + rest, visited),
            Probe::File(path) => if visited.contains(components(path)) {
                (rest, visited)
            } else {
                (next(e, d, pending[0]) + rest, visited.insert(components(path)))
            },
        };
        assert forall|i: int| 1 <= i < pending.len() implies later.contains(
            #[trigger] pending[i],
        ) by {
            assert(rest[i - 1] == pending[i]);
            let n = later.len() - rest.len();
            assert(later[n + i - 1] == pending[i]);
        }
        match pending[0] {
            Probe::Directory(dir) => {
                let names = entries(d, dir)->Ok_0;
                let scripts = script_probes(dir, names, names.len() as int);
                lemma_script_probes(dir, names, names.len() as int);
                lemma_directory_count_add(scripts, rest);
                assert forall|k: int| 0 <= k < scripts.len() implies is_seen(
                    after,
                    later,
                    #[trigger] scripts[k],
                ) by {
                    assert(later[k] == scripts[k]);
                }
            },
            Probe::File(path) => {
                if !visited.contains(components(path)) {
                    lemma_fewer_left(d, visited, components(path));
                    lemma_text_has_node(d, path);
                    if profile_text(d, path) == Ok::<Option<Seq<char>>, ErrorView>(None) {
                        assert(later =~= rest);
                    }
                }
            },
        }
        assert(is_handled(d, after, later, pending[0]));
        assert(is_settled(e, d, after, later)) by {
            assert forall|path: Seq<u8>| #[trigger] after.contains(components(path)) implies !loads(
                d,
                path,
            ) && forall|i: int|
                0 <= i < next(e, d, Probe::File(path)).len() ==> is_handled(
                    d,
                    after,
                    later,
                    #[trigger] next(e, d, Probe::File(path))[i],
                ) by {
                let onward = next(e, d, Probe::File(path));
                if visited.contains(components(path)) {
                    assert forall|i: int| 0 <= i < onward.len() implies is_handled(
                        d,
                        after,
                        later,
                        #[trigger] onward[i],
                    ) by {
                        lemma_handled_on(d, visited, pending, after, later, onward[i]);
                    }
                } else {
                    let own = pending[0]->File_0;
                    lemma_same_place(e, d, path, own);
                    assert forall|i: int| 0 <= i < onward.len() implies is_handled(
                        d,
                        after,
                        later,
                        #[trigger] onward[i],
                    ) by {
                        assert(later[i] == onward[i]);
                    }
                }
            }
        }
        lemma_search_settles(e, d, later, after);
        assert forall|i: int| 0 <= i < pending.len() implies is_handled(
            d,
            end,
            none,
            #[trigger] pending[i],
        ) by {
            if i > 0 {
                assert(later.contains(pending[i]));
                let j = choose|j: int| 0 <= j < later.len() && later[j] == pending[i];
                assert(is_handled(d, end, none, later[j]));
            } else {
                match pending[0] {
                    Probe::Directory(dir) => {
                        let names = entries(d, dir)->Ok_0;
                        let scripts = script_probes(dir, names, names.len() as int);
                        lemma_script_probes(dir, names, names.len() as int);
                        assert forall|k: int| 0 <= k < scripts.len() implies is_seen(
                            end,
                            none,
                            #[trigger] scripts[k],
                        ) by {
                            assert(later[k] == scripts[k]);
                            assert(is_handled(d, end, none, later[k]));
                        }
                    },
                    Probe::File(path) => {
                        assert(after.contains(components(path)));
                    },
                }
            }
        }
    }
}

/// Whatever something that was dealt with leads to was visited.
proof fn lemma_all_visited(
    e: EnvironmentView,
    d: DiskView,
    visited: Set<Seq<Seq<u8>>>,
    probe: Probe,
    path: Seq<u8>,
    steps: nat,
)
    requires
        is_settled(e, d, visited, Seq::empty()),
        is_handled(d, visited, Seq::empty(), probe),
        leads_in(e, d, probe, path, steps),
    ensures
        visited.contains(components(path)),
    decreases steps,
{
    if steps > 0 {
        let onward = next(e, d, probe);
        let i = choose|i: int|
            0 <= i < next(e, d, probe).len() && leads_in(
                e,
                d,
                #[trigger] next(e, d, probe)[i],
                path,
                (steps - 1) as nat,
            );
        match probe {
            Probe::File(own) => {
                assert(visited.contains(components(own)));
                assert(is_handled(d, visited, Seq::empty(), next(e, d, Probe::File(own))[i]));
            },
            Probe::Directory(dir) => {
                let names = entries(d, dir)->Ok_0;
                lemma_script_probes(dir, names, names.len() as int);
                assert(is_seen(
                    visited,
                    Seq::empty(),
                    script_probes(dir, names, names.len() as int)[i],
                ));
            },
        }
        lemma_all_visited(e, d, visited, onward[i], path, (steps - 1) as nat);
    }
}

/// The startup files, from number `n` on, with a search that knows what was visited before.
proof fn lemma_wiring(
    e: EnvironmentView,
    d: DiskView,
    files: Seq<Seq<u8>>,
    n: int,
    visited: Set<Seq<Seq<u8>>>,
)
    requires
        d.nodes.dom().finite(),
        0 <= n <= files.len(),
        is_settled(e, d, visited, Seq::empty()),
    ensures
        wiring_from(e, d, files, n, visited) matches Ok(None) ==> forall|k: int, path: Seq<u8>|
            n <= k < files.len() && #[trigger] leads_to(e, d, seq![Probe::File(files[k])], path)
                ==> !loads(d, path),
        wiring_from(e, d, files, n, visited) matches Ok(Some(path)) ==> loads(d, path) && exists|
            k: int,
        |
            n <= k < files.len() && #[trigger] leads_to(e, d, seq![Probe::File(files[k])], path),
        wiring_from(e, d, files, n, visited) matches Err(error) ==> !(error is Failure),
    decreases files.len() - n,
{
    if n < files.len() {
        let first = seq![Probe::File(files[n])];
        law_search_is_sound(e, d, first, visited);
        match search(e, d, first, visited) {
            Err(_) => {},
            Ok(s) => match s.found {
                Some(path) => {},
                None => {
                    assert(is_settled(e, d, visited, first)) by {
                        assert forall|path: Seq<u8>| #[trigger]
                            visited.contains(components(path)) implies !loads(d, path) && forall|
                            i: int,
                        |
                            0 <= i < next(e, d, Probe::File(path)).len() ==> is_handled(
                                d,
                                visited,
                                first,
                                #[trigger] next(e, d, Probe::File(path))[i],
                            ) by {
                            let onward = next(e, d, Probe::File(path));
                            assert forall|i: int| 0 <= i < onward.len() implies is_handled(
                                d,
                                visited,
                                first,
                                #[trigger] onward[i],
                            ) by {
                                lemma_handled_more(d, visited, first, onward[i]);
                            }
                        }
                    }
                    lemma_search_settles(e, d, first, visited);
                    lemma_wiring(e, d, files, n + 1, s.visited);
                    assert forall|k: int, path: Seq<u8>|
                        wiring_from(e, d, files, n, visited) matches Ok(None) && n <= k
                            < files.len() && #[trigger] leads_to(
                            e,
                            d,
                            seq![Probe::File(files[k])],
                            path,
                        ) implies !loads(d, path) by {
                        if k == n {
                            let (i, steps) = choose|i: int, steps: nat|
                                0 <= i < first.len() && #[trigger] leads_in(
                                    e,
                                    d,
                                    first[i],
                                    path,
                                    steps,
                                );
                            assert(is_handled(d, s.visited, Seq::empty(), first[0]));
                            lemma_all_visited(e, d, s.visited, first[0], path, steps);
                        }
                    }
                },
            },
        }
    }
}

/// What was dealt with is dealt with when more is pending.
proof fn lemma_handled_more(
    d: DiskView,
    visited: Set<Seq<Seq<u8>>>,
    more: Seq<Probe>,
    probe: Probe,
)
    requires
        is_handled(d, visited, Seq::empty(), probe),
    ensures
        is_handled(d, visited, more, probe),
{
    assert(!Seq::<Probe>::empty().contains(probe));
    match probe {
        Probe::File(_) => {},
        Probe::Directory(dir) => {
            let names = entries(d, dir)->Ok_0;
            let scripts = script_probes(dir, names, names.len() as int);
            assert forall|k: int| 0 <= k < scripts.len() implies is_seen(
                visited,
                more,
                #[trigger] scripts[k],
            ) by {
                assert(is_seen(visited, Seq::empty(), scripts[k]));
                assert(!Seq::<Probe>::empty().contains(scripts[k]));
            }
        },
    }
}

/// Whether one of a list of files and directories leads to a file with the given components.
pub open spec fn is_reached(
    e: EnvironmentView,
    d: DiskView,
    pending: Seq<Probe>,
    key: Seq<Seq<u8>>,
) -> bool {
    exists|path: Seq<u8>| #[trigger] leads_to(e, d, pending, path) && components(path) == key
}

/// A search looks at nothing but what it has visited before and what the pending files lead to.
pub proof fn law_search_looks_at_what_is_reached(
    e: EnvironmentView,
    d: DiskView,
    pending: Seq<Probe>,
    visited: Set<Seq<Seq<u8>>>,
    key: Seq<Seq<u8>>,
)
    requires
        d.nodes.dom().finite(),
    ensures
        visited.contains(key) ==> looked_at(e, d, pending, visited).contains(key),
        looked_at(e, d, pending, visited).contains(key) ==> visited.contains(key) || is_reached(
            e,
            d,
            pending,
            key,
        ),
    decreases
            d.nodes.dom().difference(visited).len(),
            directory_count(pending),
            pending.len(),
{
    if pending.len() > 0 {
        let rest = pending.skip(1);
        match pending[0] {
            Probe::Directory(dir) => match entries(d, dir) {
                Err(_) => {},
                Ok(names) => {
                    let scripts = script_probes(dir, names, names.len() as int);
                    lemma_script_probes(dir, names, names.len() as int);
                    lemma_directory_count_add(scripts, rest);
                    law_search_looks_at_what_is_reached(e, d, scripts + rest, visited, key);
                    lemma_reached_on(e, d, pending, scripts + rest, key);
                },
            },
            Probe::File(path) => {
                if visited.contains(components(path)) {
                    law_search_looks_at_what_is_reached(e, d, rest, visited, key);
                    lemma_reached_on(e, d, pending, rest, key);
                } else {
                    let seen = visited.insert(components(path));
                    lemma_fewer_left(d, visited, components(path));
                    lemma_text_has_node(d, path);
                    assert(leads_in(e, d, pending[0], path, 0));
                    assert(leads_to(e, d, pending, path));
                    match profile_text(d, path) {
                        Err(_) => {},
                        Ok(None) => {
                            law_search_looks_at_what_is_reached(e, d, rest, seen, key);
                            lemma_reached_on(e, d, pending, rest, key);
                        },
                        Ok(Some(contents)) => {
                            let lines = active_lines(contents);
                            if !sources_a_loader(d, lines) {
                                let later = children(e, lines) + rest;
                                law_search_looks_at_what_is_reached(e, d, later, seen, key);
                                lemma_reached_on(e, d, pending, later, key);
                            }
                        },
                    }
                }
            },
        }
    }
}

/// What is reached through what is pending later is reached.
proof fn lemma_reached_on(
    e: EnvironmentView,
    d: DiskView,
    pending: Seq<Probe>,
    later: Seq<Probe>,
    key: Seq<Seq<u8>>,
)
    requires
        pending.len() > 0,
        later == next(e, d, pending[0]) + pending.skip(1) || later == pending.skip(1),
    ensures
        is_reached(e, d, later, key) ==> is_reached(e, d, pending, key),
{
    if is_reached(e, d, later, key) {
        let path = choose|path: Seq<u8>| #[trigger]
            leads_to(e, d, later, path) && components(path) == key;
        lemma_leads_on(e, d, pending, path);
    }
}

/// The search from one startup file finds a loader if and only if the file leads to one. Where it
/// finds none it has looked at everything that the file leads to, and at nothing else.
pub proof fn law_search_of_a_file_is_complete(e: EnvironmentView, d: DiskView, startup: Seq<u8>)
    requires
        d.nodes.dom().finite(),
    ensures
        ({
            let pending = seq![Probe::File(startup)];
            search(e, d, pending, Set::empty()) matches Ok(s) ==> match s.found {
                Some(path) => loads(d, path) && leads_to(e, d, pending, path),
                None => {
                    &&& forall|path: Seq<u8>| #[trigger]
                        leads_to(e, d, pending, path) ==> !loads(d, path)
                    &&& forall|key: Seq<Seq<u8>>| #[trigger]
                        s.visited.contains(key) <==> is_reached(e, d, pending, key)
                },
            }
        }),
{
    let pending = seq![Probe::File(startup)];
    law_search_is_sound(e, d, pending, Set::empty());
    match search(e, d, pending, Set::empty()) {
        Ok(s) => {
            if s.found is None {
                lemma_search_settles(e, d, pending, Set::empty());
                assert(is_handled(d, s.visited, Seq::empty(), pending[0]));
                assert forall|path: Seq<u8>| #[trigger] leads_to(e, d, pending, path) implies !loads(
                    d,
                    path,
                ) && s.visited.contains(components(path)) by {
                    let (i, steps) = choose|i: int, steps: nat|
                        0 <= i < pending.len() && #[trigger] leads_in(e, d, pending[i], path, steps);
                    lemma_all_visited(e, d, s.visited, pending[0], path, steps);
                }
                assert forall|key: Seq<Seq<u8>>| #[trigger]
                    s.visited.contains(key) <==> is_reached(e, d, pending, key) by {
                    law_search_looks_at_what_is_reached(e, d, pending, Set::empty(), key);
                }
            }
        },
        Err(_) => {},
    }
}

/// Startup wiring is found if and only if it is there: a file that is named sources a loader and
/// startup leads to it, and where none is named startup leads to no file that sources one.
pub proof fn law_wiring_is_found(e: EnvironmentView, d: DiskView, files: Seq<Seq<u8>>)
    requires
        d.nodes.dom().finite(),
        startup_files_of(e, d) == Ok::<Seq<Seq<u8>>, ErrorView>(files),
    ensures
        startup_wiring(e, d) matches Ok(None) ==> forall|k: int, path: Seq<u8>|
            0 <= k < files.len() && #[trigger] leads_to(e, d, seq![Probe::File(files[k])], path)
                ==> !loads(d, path),
        startup_wiring(e, d) matches Ok(Some(path)) ==> loads(d, path) && exists|k: int|
            0 <= k < files.len() && #[trigger] leads_to(e, d, seq![Probe::File(files[k])], path),
        startup_wiring(e, d) matches Err(error) ==> !(error is Failure),
{
    lemma_wiring(e, d, files, 0, Set::empty());
}

} // verus!

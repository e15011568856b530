//! What the operations leave behind and what they report of it.
use vstd::prelude::*;

use crate::disk::{fault_at, node_at, read_bytes, DiskView, Step};
use crate::environment::{EnvironmentView, Platform};
use crate::error::{ErrorView, IoView};
use crate::fs::removed;
use crate::laws::blocks::{free_of, is_other_line, law_upsert_is_seen, lemma_walk_outside};
use crate::laws::files::{differs_at, is_readable, law_removal_takes_one_file};
use crate::laws::operations::{
    are_apart, law_plain_targets_have_sound_blocks, lemma_apart_entry, lemma_deactivated,
    lemma_installed_stages, lemma_migrates, lemma_script_stage, with_script,
};
use crate::laws::profiles::{
    law_cleanup_is_idempotent, law_edits_keep_the_rest, lemma_text_written, text_at,
};
use crate::laws::scripts::{bourne_value, law_literals_are_read_back};
use crate::laws::shells::{is_single_line, own_block};
use crate::managed_block::{
    block_spans, blocks_removed, collect_spans, covered, holds_block, in_order, migrated_text,
    profile_text, upserted, walk, with_block, with_span, without_blocks, BlockView,
};
use crate::model::{
    ActivationMode, ActivationPolicy, ActivationView, Availability, FailureKind, FileChange,
    Operation, ShellView,
};
use crate::path::{asks_directory, components, file_name, spelled};
use crate::paths::{default_path, program_name_error, identity, startup_file};
use crate::service::common::{all_locations, target_of, uses_backend};
use crate::service::install::{activation_at, installed, installed_by_default, InstallQuery};
use crate::service::migrate::{migration, MigrateQuery};
use crate::service::uninstall::{uninstalled, uninstalled_by_default, UninstallView};
use crate::shell::backend::{activated, deactivated, migrated};
use crate::shell::bash::bash_source_step;
use crate::shell::discovery::{loader_of, LoaderView};
use crate::shell::quoting::shell_quoted;
use crate::shell::zsh::zsh_source_step;
use crate::text::{lines_of, marker_text, text_bytes, utf8_text};

verus! {

/// The line at which the block of a program begins in the startup file of a shell.
pub open spec fn opening(shell: ShellView, name: Seq<char>) -> Seq<char> {
    match shell {
        ShellView::Bash => "# >>> shellcomp bash "@ + name + " >>>"@,
        ShellView::Zsh => "# >>> shellcomp zsh "@ + name + " >>>"@,
        ShellView::Powershell => "# >>> shellcomp powershell "@ + name + " >>>"@,
        ShellView::Elvish => "# >>> shellcomp elvish "@ + name + " >>>"@,
        _ => Seq::empty(),
    }
}

/// The line at which the block of a program ends in the startup file of a shell.
pub open spec fn closing(shell: ShellView, name: Seq<char>) -> Seq<char> {
    match shell {
        ShellView::Bash => "# <<< shellcomp bash "@ + name + " <<<"@,
        ShellView::Zsh => "# <<< shellcomp zsh "@ + name + " <<<"@,
        ShellView::Powershell => "# <<< shellcomp powershell "@ + name + " <<<"@,
        ShellView::Elvish => "# <<< shellcomp elvish "@ + name + " <<<"@,
        _ => Seq::empty(),
    }
}

/// Whether a shell has a startup file into which the library puts blocks.
pub open spec fn has_blocks(shell: ShellView) -> bool {
    shell is Bash || shell is Zsh || shell is Powershell || shell is Elvish
}

/// Whether a line with its line ending, of whatever kind, has the given content.
pub open spec fn is_line_with(line: Seq<char>, content: Seq<char>) -> bool {
    line == content || line == content + seq!['\n'] || line == content + seq!['\r'] || line
        == content + seq!['\r', '\n']
}

/// Whether a text has a line with the given content.
pub open spec fn shows_line(text: Seq<char>, content: Seq<char>) -> bool {
    exists|i: int| 0 <= i < lines_of(text).len() && is_line_with(#[trigger] lines_of(text)[i], content)
}

/// The markers of the blocks of a program are the lines that name the library, the shell and the
/// program.
pub proof fn law_markers_name_the_program(shell: ShellView, name: Seq<char>, target: Seq<u8>)
    ensures
        own_block(shell, name, target) matches Ok(b) ==> b.start_marker == opening(shell, name)
            && b.end_marker == closing(shell, name),
{
    reveal_strlit("# >>> shellcomp ");
    reveal_strlit("# <<< shellcomp ");
    reveal_strlit("bash");
    reveal_strlit("zsh");
    reveal_strlit("powershell");
    reveal_strlit("elvish");
    reveal_strlit(" ");
    reveal_strlit("# >>> shellcomp bash ");
    reveal_strlit("# <<< shellcomp bash ");
    reveal_strlit("# >>> shellcomp zsh ");
    reveal_strlit("# <<< shellcomp zsh ");
    reveal_strlit("# >>> shellcomp powershell ");
    reveal_strlit("# <<< shellcomp powershell ");
    reveal_strlit("# >>> shellcomp elvish ");
    reveal_strlit("# <<< shellcomp elvish ");
    assert("# >>> shellcomp "@ + "bash"@ + " "@ =~= "# >>> shellcomp bash "@);
    assert("# <<< shellcomp "@ + "bash"@ + " "@ =~= "# <<< shellcomp bash "@);
    assert("# >>> shellcomp "@ + "zsh"@ + " "@ =~= "# >>> shellcomp zsh "@);
    assert("# <<< shellcomp "@ + "zsh"@ + " "@ =~= "# <<< shellcomp zsh "@);
    assert("# >>> shellcomp "@ + "powershell"@ + " "@ =~= "# >>> shellcomp powershell "@);
    assert("# <<< shellcomp "@ + "powershell"@ + " "@ =~= "# <<< shellcomp powershell "@);
    assert("# >>> shellcomp "@ + "elvish"@ + " "@ =~= "# >>> shellcomp elvish "@);
    assert("# <<< shellcomp "@ + "elvish"@ + " "@ =~= "# <<< shellcomp elvish "@);
}

/// A line has the content of a marker if and only if the marker is seen in it.
pub proof fn lemma_line_with(line: Seq<char>, marker: Seq<char>)
    requires
        marker.len() > 0,
        marker.last() != '\n',
        marker.last() != '\r',
    ensures
        is_line_with(line, marker) <==> marker_text(line) == marker,
{
    assert((marker + seq!['\n']).drop_last() =~= marker);
    assert((marker + seq!['\r']).drop_last() =~= marker);
    assert((marker + seq!['\r', '\n']).drop_last() =~= marker + seq!['\r']);
    if marker_text(line) == marker {
        if line.len() > 0 && line.last() == '\n' {
            let body = line.drop_last();
            assert(line =~= body.push('\n'));
            if body.len() > 0 && body.last() == '\r' {
                assert(body =~= marker.push('\r'));
                assert(line =~= marker + seq!['\r', '\n']);
            } else {
                assert(line =~= marker + seq!['\n']);
            }
        } else if line.len() > 0 && line.last() == '\r' {
            assert(line =~= marker + seq!['\r']);
        }
    }
}

proof fn lemma_markers_end(shell: ShellView, name: Seq<char>)
    requires
        has_blocks(shell),
    ensures
        opening(shell, name).len() > 0,
        opening(shell, name).last() == '>',
        closing(shell, name).len() > 0,
        closing(shell, name).last() == '<',
{
    reveal_strlit(" >>>");
    reveal_strlit(" <<<");
}

/// A text shows a marker of a block if and only if it is not free of it, in a text in which the
/// blocks are in order.
proof fn lemma_shows(path: Seq<u8>, contents: Seq<char>, b: BlockView)
    requires
        block_spans(path, lines_of(contents), b) is Ok,
        b.start_marker.len() > 0,
        b.start_marker.last() == '>',
        b.end_marker.len() > 0,
        b.end_marker.last() == '<',
    ensures
        free_of(b, lines_of(contents)) <==> !shows_line(contents, b.start_marker) && !shows_line(
            contents,
            b.end_marker,
        ),
        block_spans(path, lines_of(contents), b)->Ok_0.len() == 0 ==> free_of(
            b,
            lines_of(contents),
        ),
        block_spans(path, lines_of(contents), b)->Ok_0.len() > 0 ==> shows_line(
            contents,
            b.start_marker,
        ),
{
    let lines = lines_of(contents);
    let spans = block_spans(path, lines, b)->Ok_0;
    assert forall|i: int| 0 <= i < lines.len() implies is_other_line(b, #[trigger] lines[i]) == (
    !is_line_with(lines[i], b.start_marker) && !is_line_with(lines[i], b.end_marker)) by {
        lemma_line_with(lines[i], b.start_marker);
        lemma_line_with(lines[i], b.end_marker);
    }
    if free_of(b, lines) {
        assert forall|i: int| 0 <= i < lines.len() implies !is_line_with(
            #[trigger] lines[i],
            b.start_marker,
        ) && !is_line_with(lines[i], b.end_marker) by {
            assert(is_other_line(b, lines[i]));
        }
    }
    if spans.len() == 0 {
        assert forall|i: int| 0 <= i < lines.len() implies is_other_line(b, #[trigger] lines[i]) by {
            assert(!covered(spans, i));
            lemma_walk_outside(b, lines, i);
        }
    } else {
        lemma_span_opens(b, lines, 0);
        let at = spans[0].0;
        lemma_line_with(lines[at], b.start_marker);
        assert(is_line_with(lines[at], b.start_marker));
    }
}

/// A block begins with its opening line.
pub proof fn lemma_span_opens(b: BlockView, lines: Seq<Seq<char>>, k: int)
    requires
        walk(b, lines) is Ok,
        0 <= k < walk(b, lines)->Ok_0.spans.len(),
    ensures
        0 <= walk(b, lines)->Ok_0.spans[k].0 < lines.len(),
        marker_text(lines[walk(b, lines)->Ok_0.spans[k].0]) == b.start_marker,
    decreases lines.len(),
{
    let front = lines.drop_last();
    let w = walk(b, lines)->Ok_0;
    let w0 = walk(b, front)->Ok_0;
    lemma_open_line(b, front);
    if k < w0.spans.len() {
        lemma_span_opens(b, front, k);
        assert(w.spans[k] == w0.spans[k]);
        assert(front[w0.spans[k].0] == lines[w0.spans[k].0]);
    } else {
        assert(front[w0.open->0] == lines[w0.open->0]);
    }
}

/// A block that is open began with its opening line.
proof fn lemma_open_line(b: BlockView, lines: Seq<Seq<char>>)
    ensures
        walk(b, lines) matches Ok(w) ==> (w.open matches Some(n) ==> 0 <= n < lines.len()
            && marker_text(lines[n]) == b.start_marker),
    decreases lines.len(),
{
    if lines.len() > 0 {
        let front = lines.drop_last();
        lemma_open_line(b, front);
        match walk(b, front) {
            Ok(w0) => {
                match w0.open {
                    Some(n) => {
                        assert(front[n] == lines[n]);
                    },
                    None => {},
                }
            },
            Err(_) => {},
        }
    }
}

/// Where blocks are looked for by one pair of markers, none is found if and only if there is none.
proof fn lemma_one_pair(path: Seq<u8>, contents: Seq<char>, b: BlockView)
    ensures
        without_blocks(path, contents, seq![b]) matches Ok((_, change)) ==> block_spans(
            path,
            lines_of(contents),
            b,
        ) matches Ok(spans) && (change == FileChange::Absent <==> spans.len() == 0) && (change
            == FileChange::Removed <==> spans.len() > 0),
{
    let lines = lines_of(contents);
    let one = seq![b];
    assert(collect_spans(path, lines, one, 0) == Ok::<Seq<(int, int)>, ErrorView>(Seq::empty()));
    match block_spans(path, lines, b) {
        Ok(spans) => {
            assert(Seq::<(int, int)>::empty() + spans =~= spans);
            assert(collect_spans(path, lines, one, 1) == Ok::<Seq<(int, int)>, ErrorView>(spans));
            if spans.len() > 0 {
                let before = in_order(spans.drop_last());
                assert(with_span(before, spans.last()).len() > 0);
            }
        },
        Err(error) => {
            assert(collect_spans(path, lines, one, 1) == Err::<Seq<(int, int)>, ErrorView>(error));
        },
    }
}

/// A startup file out of which the block of a program was taken shows no marker of it, and the
/// change tells whether it did before.
proof fn lemma_cleaned(
    e: EnvironmentView,
    d: DiskView,
    shell: ShellView,
    name: Seq<char>,
    profile: Seq<u8>,
    b: BlockView,
)
    requires
        has_blocks(shell),
        b.start_marker == opening(shell, name),
        b.end_marker == closing(shell, name),
        blocks_removed(e.platform, d, profile, seq![b]).1 is Ok,
    ensures
        ({
            let (after, change) = blocks_removed(e.platform, d, profile, seq![b]);
            &&& profile_text(after, profile) is Ok
            &&& !shows_line(text_at(after, profile), opening(shell, name))
            &&& !shows_line(text_at(after, profile), closing(shell, name))
            &&& change->Ok_0 == (if shows_line(text_at(d, profile), opening(shell, name)) {
                FileChange::Removed
            } else {
                FileChange::Absent
            })
        }),
{
    let after = blocks_removed(e.platform, d, profile, seq![b]).0;
    lemma_markers_end(shell, name);
    law_cleanup_is_idempotent(e.platform, d, profile, seq![b]);
    lemma_one_pair(profile, text_at(d, profile), b);
    lemma_one_pair(profile, text_at(after, profile), b);
    lemma_shows(profile, text_at(d, profile), b);
    lemma_shows(profile, text_at(after, profile), b);
}

/// Whether the completion of a program can be found by Zsh in a file: the file has the name of the
/// program behind an underscore.
pub open spec fn zsh_finds(name: Seq<char>, target: Seq<u8>) -> bool {
    file_name(target) == Some(text_bytes("_"@ + name))
}

/// Whenever an uninstall that manages activation succeeds, the startup file shows no marker of the
/// program's block, whether or not the completion file was there. The report names the startup file
/// and says whether there was a block.
#[verifier::spinoff_prover]
#[verifier::rlimit(40)]
pub proof fn law_uninstall_leaves_no_block(e: EnvironmentView, d: DiskView, q: UninstallView)
    requires
        has_blocks(q.shell),
        uninstalled(e, d, q, ActivationPolicy::AutoManaged).1 is Ok,
        q.shell is Zsh ==> zsh_finds(
            q.program_name,
            uninstalled(e, d, q, ActivationPolicy::AutoManaged).1->Ok_0.target_path,
        ),
    ensures
        ({
            let (after, outcome) = uninstalled(e, d, q, ActivationPolicy::AutoManaged);
            let report = outcome->Ok_0;
            let profile = startup_file(e, q.shell)->Ok_0->0;
            let opens = opening(q.shell, q.program_name);
            &&& startup_file(e, q.shell) matches Ok(Some(_))
            &&& profile_text(after, profile) is Ok
            &&& !shows_line(text_at(after, profile), opens)
            &&& !shows_line(text_at(after, profile), closing(q.shell, q.program_name))
            &&& are_apart(report.target_path, profile) ==> report.cleanup.change == (
            if shows_line(text_at(d, profile), opens) {
                FileChange::Removed
            } else {
                FileChange::Absent
            })
            &&& report.cleanup.change == FileChange::Removed || report.cleanup.change
                == FileChange::Absent
            &&& report.cleanup.change == FileChange::Removed || !(q.shell is Bash) ==> {
                &&& report.cleanup.mode == ActivationMode::ManagedRcBlock
                &&& report.cleanup.location == Some(profile)
            }
            &&& report.affected_locations.len() > 0
            &&& report.affected_locations[0] == report.target_path
            &&& crate::path::holds_path(report.affected_locations, profile)
        }),
{
    let target = target_of(e, d, q.shell, q.program_name, q.path_override)->Ok_0;
    let gone = removed(e.platform, d, target).0;
    let policy = ActivationPolicy::AutoManaged;
    assert(uses_backend(e, q.shell, q.program_name, policy, target));
    law_removal_takes_one_file(e.platform, d, target);
    lemma_deactivated(e, gone, q.shell, q.program_name, target);
    law_markers_name_the_program(q.shell, q.program_name, target);
    let profile = startup_file(e, q.shell)->Ok_0->0;
    let b = own_block(q.shell, q.program_name, target)->Ok_0;
    lemma_cleaned(e, gone, q.shell, q.program_name, profile, b);
    if are_apart(target, profile) {
        lemma_apart_entry(d, gone, target, profile);
    }
    lemma_cleanup_locations(e, gone, q.shell, q.program_name, target, profile);
}

/// The startup file is among the files that a cleanup names.
proof fn lemma_cleanup_locations(
    e: EnvironmentView,
    d: DiskView,
    shell: ShellView,
    name: Seq<char>,
    target: Seq<u8>,
    profile: Seq<u8>,
)
    requires
        has_blocks(shell),
        startup_file(e, shell) == Ok::<Option<Seq<u8>>, ErrorView>(Some(profile)),
        deactivated(e, d, shell, name, target).1 is Ok,
    ensures
        ({
            let touched = deactivated(e, d, shell, name, target).1->Ok_0.affected_locations;
            let all = all_locations(target, touched, touched.len() as int);
            &&& touched.len() > 0
            &&& touched[0] == profile
            &&& all.len() > 0
            &&& all[0] == target
            &&& crate::path::holds_path(all, profile)
        }),
{
    let touched = deactivated(e, d, shell, name, target).1->Ok_0.affected_locations;
    assert(touched.len() > 0 && touched[0] == profile);
    lemma_locations_hold(target, touched, touched.len() as int);
}

/// A list of locations begins with the first one and holds the others.
pub proof fn lemma_locations_hold(first: Seq<u8>, more: Seq<Seq<u8>>, count: int)
    requires
        0 <= count <= more.len(),
    ensures
        ({
            let all = all_locations(first, more, count);
            &&& all.len() > 0
            &&& all[0] == first
            &&& forall|k: int| 0 <= k < count ==> crate::path::holds_path(all, #[trigger] more[k])
        }),
    decreases count,
{
    if count > 0 {
        lemma_locations_hold(first, more, count - 1);
        let less = all_locations(first, more, count - 1);
        let all = all_locations(first, more, count);
        assert forall|k: int| 0 <= k < count implies crate::path::holds_path(
            all,
            #[trigger] more[k],
        ) by {
            if k < count - 1 {
                assert(crate::path::holds_path(less, more[k]));
                let i = choose|i: int|
                    0 <= i < less.len() && crate::path::same_path(#[trigger] less[i], more[k]);
                assert(all[i] == less[i]);
            } else if !crate::path::holds_path(less, more[k]) {
                assert(all[all.len() - 1] == more[k]);
            }
        }
    }
}

/// Whether a path is the default location of a completion. On macOS a place can be reached in two
/// ways.
pub open spec fn is_at_default(
    e: EnvironmentView,
    shell: ShellView,
    name: Seq<char>,
    path: Seq<u8>,
) -> bool {
    default_path(e, shell, name) matches Ok(place) && components(identity(e.platform, place))
        == components(identity(e.platform, path))
}

/// An operation that names no policy manages activation where it names no path, or the default
/// location as its path. At any other path it leaves activation to the user.
pub proof fn law_policy_follows_the_location(
    e: EnvironmentView,
    d: DiskView,
    install: InstallQuery,
    uninstall: UninstallView,
)
    ensures
        installed_by_default(e, d, install) == installed(
            e,
            d,
            install,
            if install.path_override matches Some(path) && !is_at_default(
                e,
                install.shell,
                install.program_name,
                path,
            ) {
                ActivationPolicy::Manual
            } else {
                ActivationPolicy::AutoManaged
            },
        ),
        uninstalled_by_default(e, d, uninstall) == uninstalled(
            e,
            d,
            uninstall,
            if uninstall.path_override matches Some(path) && !is_at_default(
                e,
                uninstall.shell,
                uninstall.program_name,
                path,
            ) {
                ActivationPolicy::Manual
            } else {
                ActivationPolicy::AutoManaged
            },
        ),
{
}

/// A report on an activation: how the completion comes to be loaded, when, and through which file.
pub open spec fn reports(
    a: ActivationView,
    mode: ActivationMode,
    availability: Availability,
    location: Seq<u8>,
) -> bool {
    a.mode == mode && a.availability == availability && a.location == Some(location)
}

/// Whether the user is told, in the words of a shell of the Bourne family, to source a file.
pub open spec fn advises_to_source(step: Option<Seq<char>>, file: Seq<u8>, session: Seq<char>) -> bool {
    exists|word: Seq<char>|
        #![trigger bourne_value(word)]
        bourne_value(word) == utf8_text(spelled(file)) && bourne_value(word) is Some && step == Some(
            "Run `source "@ + word + "` or start a new "@ + session + " session."@,
        )
}

/// An install reports what becomes of the completion. Where activation is managed, Zsh, PowerShell
/// and Elvish have a block in their startup file; Bash has one too, unless a loader of the system
/// serves the completion; and Fish needs none at its default location, whatever the policy. All
/// other completions are left to the user: those under a manual policy, those of Fish elsewhere,
/// and those that Zsh would not find by their file name.
#[verifier::spinoff_prover]
#[verifier::rlimit(40)]
pub proof fn law_install_reports_the_activation(
    e: EnvironmentView,
    d: DiskView,
    q: InstallQuery,
    policy: ActivationPolicy,
)
    requires
        installed(e, d, q, policy).1 is Ok,
    ensures
        ({
            let (after, outcome) = installed(e, d, q, policy);
            let report = outcome->Ok_0;
            let a = report.activation;
            let target = report.target_path;
            let profile = startup_file(e, q.shell)->Ok_0->0;
            let ready = with_script(e, d, q, target);
            let managed = policy == ActivationPolicy::AutoManaged;
            let is_manual = reports(
                a,
                ActivationMode::Manual,
                Availability::ManualActionRequired,
                target,
            ) && after == ready && report.affected_locations == seq![target];
            let has_block = |availability: Availability|
                {
                    &&& startup_file(e, q.shell) matches Ok(Some(_))
                    &&& reports(a, ActivationMode::ManagedRcBlock, availability, profile)
                    &&& crate::path::holds_path(report.affected_locations, profile)
                };
            &&& report.shell == q.shell
            &&& report.affected_locations.len() > 0 && report.affected_locations[0] == target
            &&& match q.path_override {
                Some(path) => target == path,
                None => default_path(e, q.shell, q.program_name) == Ok::<Seq<u8>, ErrorView>(target),
            }
            &&& match q.shell {
                ShellView::Bash => if !managed {
                    is_manual
                } else if default_path(e, q.shell, q.program_name) matches Ok(place)
                    && components(place) == components(target) {
                    match loader_of(e, ready) {
                        Ok(LoaderView::ActiveNow) => reports(
                            a,
                            ActivationMode::SystemLoader,
                            Availability::ActiveNow,
                            target,
                        ) && after == ready && a.next_step is None,
                        Ok(LoaderView::WiredInStartup(startup)) => reports(
                            a,
                            ActivationMode::SystemLoader,
                            Availability::AvailableAfterNewShell,
                            startup,
                        ) && after == ready,
                        Ok(_) => has_block(Availability::AvailableAfterSource),
                        Err(_) => false,
                    }
                } else {
                    has_block(Availability::AvailableAfterSource)
                },
                ShellView::Zsh => if managed && zsh_finds(q.program_name, target) {
                    has_block(Availability::AvailableAfterSource)
                } else {
                    is_manual
                },
                ShellView::Fish => if is_at_default(e, q.shell, q.program_name, target) {
                    reports(
                        a,
                        ActivationMode::NativeDirectory,
                        Availability::ActiveNow,
                        target,
                    ) && after == ready && a.next_step is None
                } else {
                    is_manual
                },
                ShellView::Powershell | ShellView::Elvish => if managed {
                    has_block(Availability::AvailableAfterNewShell)
                } else {
                    is_manual
                },
                ShellView::Other(_) => false,
            }
            &&& a.mode == ActivationMode::ManagedRcBlock && q.shell is Bash ==> advises_to_source(
                a.next_step,
                profile,
                "Bash"@,
            )
            &&& a.mode == ActivationMode::ManagedRcBlock && q.shell is Zsh ==> advises_to_source(
                a.next_step,
                profile,
                "Zsh"@,
            )
        }),
{
    lemma_installed_stages(e, d, q, policy);
    let target = target_of(e, d, q.shell, q.program_name, q.path_override)->Ok_0;
    let ready = with_script(e, d, q, target);
    let report = installed(e, d, q, policy).1->Ok_0;
    let stage = activation_at(e, ready, q, policy, target);
    let touched = stage.1->Ok_0.1;
    lemma_locations_hold(target, touched, touched.len() as int);
    if uses_backend(e, q.shell, q.program_name, policy, target) {
        lemma_activated_report(e, ready, q.shell, q.program_name, target);
    } else {
        assert(touched.len() == 0);
        assert(report.affected_locations == seq![target]);
    }
}

/// The report on an activation that was arranged in the shell's own way.
#[verifier::spinoff_prover]
#[verifier::rlimit(40)]
proof fn lemma_activated_report(
    e: EnvironmentView,
    d: DiskView,
    shell: ShellView,
    name: Seq<char>,
    target: Seq<u8>,
)
    requires
        activated(e, d, shell, name, target).1 is Ok,
    ensures
        ({
            let (after, outcome) = activated(e, d, shell, name, target);
            let a = outcome->Ok_0.report;
            let profile = startup_file(e, shell)->Ok_0->0;
            let touched = outcome->Ok_0.affected_locations;
            let has_block = |availability: Availability|
                {
                    &&& startup_file(e, shell) matches Ok(Some(_))
                    &&& reports(a, ActivationMode::ManagedRcBlock, availability, profile)
                    &&& touched == seq![profile]
                };
            &&& match shell {
                ShellView::Bash => if default_path(e, shell, name) matches Ok(place) && components(
                    place,
                ) == components(target) {
                    match loader_of(e, d) {
                        Ok(LoaderView::ActiveNow) => reports(
                            a,
                            ActivationMode::SystemLoader,
                            Availability::ActiveNow,
                            target,
                        ) && after == d && a.next_step is None,
                        Ok(LoaderView::WiredInStartup(startup)) => reports(
                            a,
                            ActivationMode::SystemLoader,
                            Availability::AvailableAfterNewShell,
                            startup,
                        ) && after == d,
                        Ok(_) => has_block(Availability::AvailableAfterSource),
                        Err(_) => false,
                    }
                } else {
                    has_block(Availability::AvailableAfterSource)
                },
                ShellView::Zsh => has_block(Availability::AvailableAfterSource),
                ShellView::Fish => reports(
                    a,
                    ActivationMode::NativeDirectory,
                    Availability::ActiveNow,
                    target,
                ) && after == d && a.next_step is None,
                ShellView::Powershell | ShellView::Elvish => has_block(
                    Availability::AvailableAfterNewShell,
                ),
                ShellView::Other(_) => false,
            }
            &&& a.mode == ActivationMode::ManagedRcBlock && shell is Bash ==> advises_to_source(
                a.next_step,
                profile,
                "Bash"@,
            )
            &&& a.mode == ActivationMode::ManagedRcBlock && shell is Zsh ==> advises_to_source(
                a.next_step,
                profile,
                "Zsh"@,
            )
        }),
{
    match shell {
        ShellView::Bash => {
            lemma_bash_report(e, d, name, target);
        },
        ShellView::Zsh => {
            let rc = startup_file(e, shell)->Ok_0->0;
            lemma_source_advice(rc);
        },
        _ => {},
    }
}

/// What the user of Bash or Zsh is told to do, with the file's path as a literal.
proof fn lemma_source_advice(file: Seq<u8>)
    ensures
        shell_quoted(file) matches Ok(word) ==> advises_to_source(
            Some(bash_source_step(word)),
            file,
            "Bash"@,
        ) && advises_to_source(Some(zsh_source_step(word)), file, "Zsh"@),
{
    law_literals_are_read_back(file);
    reveal_strlit("` or start a new Bash session.");
    reveal_strlit("` or start a new Zsh session.");
    reveal_strlit("` or start a new ");
    reveal_strlit(" session.");
    reveal_strlit("Bash");
    reveal_strlit("Zsh");
    match shell_quoted(file) {
        Ok(word) => {
            assert(bash_source_step(word) =~= "Run `source "@ + word + "` or start a new "@
                + "Bash"@ + " session."@);
            assert(zsh_source_step(word) =~= "Run `source "@ + word + "` or start a new "@ + "Zsh"@
                + " session."@);
            assert(bourne_value(word) == utf8_text(spelled(file)));
        },
        Err(_) => {},
    }
}

/// The report on an activation for Bash.
#[verifier::spinoff_prover]
#[verifier::rlimit(40)]
proof fn lemma_bash_report(e: EnvironmentView, d: DiskView, name: Seq<char>, target: Seq<u8>)
    requires
        activated(e, d, ShellView::Bash, name, target).1 is Ok,
    ensures
        ({
            let (after, outcome) = activated(e, d, ShellView::Bash, name, target);
            let a = outcome->Ok_0.report;
            let profile = startup_file(e, ShellView::Bash)->Ok_0->0;
            let touched = outcome->Ok_0.affected_locations;
            let has_block = {
                &&& startup_file(e, ShellView::Bash) matches Ok(Some(_))
                &&& reports(
                    a,
                    ActivationMode::ManagedRcBlock,
                    Availability::AvailableAfterSource,
                    profile,
                )
                &&& touched == seq![profile]
            };
            &&& if default_path(e, ShellView::Bash, name) matches Ok(place) && components(place)
                == components(target) {
                match loader_of(e, d) {
                    Ok(LoaderView::ActiveNow) => reports(
                        a,
                        ActivationMode::SystemLoader,
                        Availability::ActiveNow,
                        target,
                    ) && after == d && a.next_step is None,
                    Ok(LoaderView::WiredInStartup(startup)) => reports(
                        a,
                        ActivationMode::SystemLoader,
                        Availability::AvailableAfterNewShell,
                        startup,
                    ) && after == d,
                    Ok(_) => has_block,
                    Err(_) => false,
                }
            } else {
                has_block
            }
            &&& a.mode == ActivationMode::ManagedRcBlock ==> advises_to_source(
                a.next_step,
                profile,
                "Bash"@,
            )
        }),
{
    lemma_source_advice(startup_file(e, ShellView::Bash)->Ok_0->0);
}

/// An install puts the script at its target. What it says of the file is what became of it: it was
/// created where nothing was there, it is unchanged where it held the script, and else it was
/// updated.
#[verifier::spinoff_prover]
#[verifier::rlimit(40)]
pub proof fn law_install_puts_the_script(
    e: EnvironmentView,
    d: DiskView,
    q: InstallQuery,
    policy: ActivationPolicy,
)
    requires
        installed(e, d, q, policy).1 is Ok,
        is_readable(d, installed(e, d, q, policy).1->Ok_0.target_path),
    ensures
        ({
            let (after, outcome) = installed(e, d, q, policy);
            let report = outcome->Ok_0;
            let target = report.target_path;
            let ready = with_script(e, d, q, target);
            &&& read_bytes(ready, target) == Ok::<Seq<u8>, IoView>(q.script)
            &&& node_at(d, target) is None ==> report.file_change == FileChange::Created
            &&& read_bytes(d, target) matches Ok(bytes) ==> report.file_change == (if bytes
                == q.script {
                FileChange::Unchanged
            } else {
                FileChange::Updated
            })
            &&& report.file_change == FileChange::Unchanged ==> ready == d
            &&& after == ready || (startup_file(e, q.shell) matches Ok(Some(profile)) && are_apart(
                profile,
                target,
            )) ==> read_bytes(after, target) == Ok::<Seq<u8>, IoView>(q.script)
        }),
{
    lemma_installed_stages(e, d, q, policy);
    let target = target_of(e, d, q.shell, q.program_name, q.path_override)->Ok_0;
    let ready = with_script(e, d, q, target);
    let after = installed(e, d, q, policy).0;
    lemma_script_stage(e, d, q, target);
    lemma_activation_keeps(e, ready, q, policy, target);
}

/// Activation keeps a file that is apart from the startup file.
#[verifier::spinoff_prover]
#[verifier::rlimit(40)]
proof fn lemma_activation_keeps(
    e: EnvironmentView,
    d: DiskView,
    q: InstallQuery,
    policy: ActivationPolicy,
    target: Seq<u8>,
)
    ensures
        startup_file(e, q.shell) matches Ok(Some(profile)) ==> are_apart(profile, target)
            ==> read_bytes(activation_at(e, d, q, policy, target).0, target) == read_bytes(
            d,
            target,
        ),
{
    let after = activation_at(e, d, q, policy, target).0;
    lemma_activation_edits(e, d, q, policy, target);
    match startup_file(e, q.shell) {
        Ok(Some(profile)) => {
            if are_apart(profile, target) {
                lemma_apart_entry(d, after, profile, target);
            }
        },
        _ => {},
    }
}

/// Activation changes nothing but the startup file.
#[verifier::spinoff_prover]
#[verifier::rlimit(40)]
proof fn lemma_activation_edits(
    e: EnvironmentView,
    d: DiskView,
    q: InstallQuery,
    policy: ActivationPolicy,
    target: Seq<u8>,
)
    ensures
        startup_file(e, q.shell) matches Ok(Some(profile)) ==> differs_at(
            d,
            activation_at(e, d, q, policy, target).0,
            components(profile),
        ),
{
    match (startup_file(e, q.shell), own_block(q.shell, q.program_name, target)) {
        (Ok(Some(profile)), Ok(b)) => {
            law_edits_keep_the_rest(e.platform, d, profile, b, Seq::empty());
        },
        _ => {},
    }
}

/// An install that reports a block put it into the startup file: the file then shows the markers of
/// the program, holds the block line for line, and is otherwise the text that it was.
#[verifier::spinoff_prover]
#[verifier::rlimit(40)]
pub proof fn law_install_wires_the_block(
    e: EnvironmentView,
    d: DiskView,
    q: InstallQuery,
    policy: ActivationPolicy,
)
    requires
        installed(e, d, q, policy).1 is Ok,
        installed(e, d, q, policy).1->Ok_0.activation.mode == ActivationMode::ManagedRcBlock,
        is_readable(d, installed(e, d, q, policy).1->Ok_0.target_path),
        is_single_line(installed(e, d, q, policy).1->Ok_0.target_path),
        startup_file(e, q.shell) matches Ok(Some(profile)) ==> is_readable(d, profile)
            && are_apart(profile, installed(e, d, q, policy).1->Ok_0.target_path),
    ensures
        ({
            let (after, outcome) = installed(e, d, q, policy);
            let profile = startup_file(e, q.shell)->Ok_0->0;
            let text = text_at(after, profile);
            &&& has_blocks(q.shell) && policy == ActivationPolicy::AutoManaged
            &&& startup_file(e, q.shell) matches Ok(Some(_))
            &&& own_block(q.shell, q.program_name, outcome->Ok_0.target_path) matches Ok(b) && {
                &&& holds_block(profile, text, b) == Ok::<bool, ErrorView>(true)
                &&& with_block(profile, text_at(d, profile), b) == Ok::<Seq<char>, ErrorView>(text)
            }
            &&& shows_line(text, opening(q.shell, q.program_name))
            &&& shows_line(text, closing(q.shell, q.program_name))
        }),
{
    lemma_installed_stages(e, d, q, policy);
    law_install_reports_the_activation(e, d, q, policy);
    let name = q.program_name;
    let target = target_of(e, d, q.shell, name, q.path_override)->Ok_0;
    let ready = with_script(e, d, q, target);
    let profile = startup_file(e, q.shell)->Ok_0->0;
    lemma_script_stage(e, d, q, target);
    lemma_apart_entry(d, ready, target, profile);
    assert(uses_backend(e, q.shell, name, policy, target));
    lemma_wired(e, ready, q.shell, name, target);
}

/// A block that was put into the startup file stands there.
#[verifier::spinoff_prover]
#[verifier::rlimit(40)]
proof fn lemma_wired(
    e: EnvironmentView,
    d: DiskView,
    shell: ShellView,
    name: Seq<char>,
    target: Seq<u8>,
)
    requires
        program_name_error(name) is None,
        activated(e, d, shell, name, target).1 is Ok,
        activated(e, d, shell, name, target).1->Ok_0.report.mode == ActivationMode::ManagedRcBlock,
        has_blocks(shell),
        is_single_line(target),
        startup_file(e, shell) matches Ok(Some(profile)) ==> is_readable(d, profile),
    ensures
        ({
            let after = activated(e, d, shell, name, target).0;
            let profile = startup_file(e, shell)->Ok_0->0;
            let text = text_at(after, profile);
            &&& startup_file(e, shell) matches Ok(Some(_))
            &&& own_block(shell, name, target) matches Ok(b) && {
                &&& holds_block(profile, text, b) == Ok::<bool, ErrorView>(true)
                &&& with_block(profile, text_at(d, profile), b) == Ok::<Seq<char>, ErrorView>(text)
            }
            &&& shows_line(text, opening(shell, name))
            &&& shows_line(text, closing(shell, name))
        }),
{
    let after = activated(e, d, shell, name, target).0;
    let profile = startup_file(e, shell)->Ok_0->0;
    let b = own_block(shell, name, target)->Ok_0;
    assert(startup_file(e, shell) matches Ok(Some(_)));
    assert(own_block(shell, name, target) is Ok);
    assert(upserted(e.platform, d, profile, b).1 is Ok);
    assert(after == upserted(e.platform, d, profile, b).0);
    let contents = text_at(d, profile);
    law_plain_targets_have_sound_blocks(shell, name, target, contents);
    law_upsert_is_seen(profile, contents, b);
    let updated = with_block(profile, contents, b)->Ok_0;
    if profile_text(d, profile) != Ok::<Option<Seq<char>>, ErrorView>(Some(updated)) {
        lemma_text_written(e.platform, d, profile, updated);
    }
    lemma_shown(shell, name, target, profile, updated);
}

/// A block ends with its closing line.
proof fn lemma_span_closes(b: BlockView, lines: Seq<Seq<char>>, k: int)
    requires
        walk(b, lines) is Ok,
        0 <= k < walk(b, lines)->Ok_0.spans.len(),
    ensures
        0 < walk(b, lines)->Ok_0.spans[k].1 <= lines.len(),
        marker_text(lines[walk(b, lines)->Ok_0.spans[k].1 - 1]) == b.end_marker,
    decreases lines.len(),
{
    let front = lines.drop_last();
    let w = walk(b, lines)->Ok_0;
    let w0 = walk(b, front)->Ok_0;
    if k < w0.spans.len() {
        lemma_span_closes(b, front, k);
        assert(w.spans[k] == w0.spans[k]);
        assert(front[w0.spans[k].1 - 1] == lines[w0.spans[k].1 - 1]);
    }
}

/// What is said of a file that was to be removed.
proof fn lemma_removal_told(platform: Platform, d: DiskView, target: Seq<u8>)
    requires
        removed(platform, d, target).1 is Ok,
    ensures
        ({
            let (gone, outcome) = removed(platform, d, target);
            let is_plain = fault_at(d, Step::Remove, target) is None && !asks_directory(target);
            &&& outcome->Ok_0 == FileChange::Removed || outcome->Ok_0 == FileChange::Absent
            &&& outcome->Ok_0 == FileChange::Absent ==> gone == d
            &&& outcome->Ok_0 == FileChange::Removed ==> node_at(gone, target) is None
            &&& node_at(d, target) is None ==> outcome->Ok_0 == FileChange::Absent
            &&& is_plain && node_at(d, target) is Some ==> outcome->Ok_0 == FileChange::Removed
        }),
{
}

/// An uninstall takes the completion file away and says whether there was one.
#[verifier::spinoff_prover]
#[verifier::rlimit(40)]
pub proof fn law_uninstall_takes_the_script(
    e: EnvironmentView,
    d: DiskView,
    q: UninstallView,
    policy: ActivationPolicy,
)
    requires
        uninstalled(e, d, q, policy).1 is Ok,
    ensures
        ({
            let report = uninstalled(e, d, q, policy).1->Ok_0;
            let target = report.target_path;
            let gone = removed(e.platform, d, target).0;
            let is_plain = fault_at(d, Step::Remove, target) is None && !asks_directory(target);
            &&& report.shell == q.shell
            &&& match q.path_override {
                Some(path) => target == path,
                None => default_path(e, q.shell, q.program_name) == Ok::<Seq<u8>, ErrorView>(target),
            }
            &&& report.file_change == FileChange::Removed || report.file_change
                == FileChange::Absent
            &&& report.file_change == FileChange::Absent ==> gone == d
            &&& report.file_change == FileChange::Removed ==> node_at(gone, target) is None
            &&& node_at(d, target) is None ==> report.file_change == FileChange::Absent
            &&& is_plain && node_at(d, target) is Some ==> report.file_change
                == FileChange::Removed
        }),
{
    let target = target_of(e, d, q.shell, q.program_name, q.path_override)->Ok_0;
    assert(removed(e.platform, d, target).1 is Ok);
    lemma_removal_told(e.platform, d, target);
    assert(uninstalled(e, d, q, policy).1->Ok_0.file_change == removed(
        e.platform,
        d,
        target,
    ).1->Ok_0);
}

/// What an uninstall leaves to the user it does not touch: under a manual policy, at a location of
/// the user's for Fish, and in a file that Zsh does not find by its name, it takes away the
/// completion file alone. For Fish there is nothing else to take away.
#[verifier::spinoff_prover]
#[verifier::rlimit(40)]
pub proof fn law_uninstall_leaves_the_rest_to_the_user(
    e: EnvironmentView,
    d: DiskView,
    q: UninstallView,
    policy: ActivationPolicy,
)
    requires
        uninstalled(e, d, q, policy).1 is Ok,
    ensures
        ({
            let (after, outcome) = uninstalled(e, d, q, policy);
            let report = outcome->Ok_0;
            let target = report.target_path;
            let left_to_user = if q.shell is Fish {
                !is_at_default(e, q.shell, q.program_name, target)
            } else {
                policy == ActivationPolicy::Manual || q.shell is Zsh && !zsh_finds(
                    q.program_name,
                    target,
                )
            };
            q.shell is Fish || left_to_user ==> {
                &&& after == removed(e.platform, d, target).0
                &&& report.cleanup.change == FileChange::Absent
                &&& report.affected_locations == seq![target]
                &&& report.cleanup.mode == (if left_to_user {
                    ActivationMode::Manual
                } else {
                    ActivationMode::NativeDirectory
                })
            }
        }),
{
    let target = target_of(e, d, q.shell, q.program_name, q.path_override)->Ok_0;
    let gone = removed(e.platform, d, target).0;
    let touched = deactivated(e, gone, q.shell, q.program_name, target).1->Ok_0.affected_locations;
    if q.shell is Fish {
        assert(all_locations(target, Seq::empty(), 0) =~= seq![target]);
    }
}

/// Where a loader of the system serves a completion of Bash and there was no block, an uninstall
/// that manages activation names the loader, and where it is wired, the startup file that wires it.
pub proof fn law_uninstall_names_the_loader(e: EnvironmentView, d: DiskView, q: UninstallView)
    requires
        q.shell is Bash,
        uninstalled(e, d, q, ActivationPolicy::AutoManaged).1 is Ok,
        uninstalled(e, d, q, ActivationPolicy::AutoManaged).1->Ok_0.cleanup.change
            == FileChange::Absent,
    ensures
        ({
            let report = uninstalled(e, d, q, ActivationPolicy::AutoManaged).1->Ok_0;
            let target = report.target_path;
            let gone = removed(e.platform, d, target).0;
            let is_served = default_path(e, q.shell, q.program_name) matches Ok(place)
                && components(place) == components(target);
            match loader_of(e, gone) {
                Ok(LoaderView::ActiveNow) if is_served => report.cleanup.mode
                    == ActivationMode::SystemLoader && report.cleanup.location is None,
                Ok(LoaderView::WiredInStartup(startup)) if is_served => report.cleanup.mode
                    == ActivationMode::SystemLoader && report.cleanup.location == Some(startup)
                    && crate::path::holds_path(report.affected_locations, startup),
                _ => report.cleanup.mode == ActivationMode::ManagedRcBlock
                    && report.cleanup.location == Some(startup_file(e, q.shell)->Ok_0->0),
            }
        }),
{
    let target = target_of(e, d, q.shell, q.program_name, q.path_override)->Ok_0;
    let gone = removed(e.platform, d, target).0;
    assert(uses_backend(e, q.shell, q.program_name, ActivationPolicy::AutoManaged, target));
    let touched = deactivated(e, gone, q.shell, q.program_name, target).1->Ok_0.affected_locations;
    lemma_locations_hold(target, touched, touched.len() as int);
    match loader_of(e, gone) {
        Ok(LoaderView::WiredInStartup(startup)) => {
            if touched.len() > 1 {
                assert(crate::path::holds_path(
                    all_locations(target, touched, touched.len() as int),
                    touched[1],
                ));
            }
        },
        _ => {},
    }
}

/// A migration puts the block of the library into the startup file: the file then holds it line for
/// line and shows the markers of the program. The report names the startup file. For Fish, which
/// needs no block, it does nothing.
#[verifier::spinoff_prover]
#[verifier::rlimit(40)]
pub proof fn law_migration_brings_the_block(e: EnvironmentView, d: DiskView, q: MigrateQuery)
    requires
        migration(e, d, q).1 is Ok,
        is_single_line(migration(e, d, q).1->Ok_0.target_path),
        startup_file(e, q.shell) matches Ok(Some(profile)) ==> is_readable(d, profile),
    ensures
        ({
            let (after, outcome) = migration(e, d, q);
            let report = outcome->Ok_0;
            let target = report.target_path;
            let profile = startup_file(e, q.shell)->Ok_0->0;
            let text = text_at(after, profile);
            &&& report.shell == q.shell
            &&& match q.path_override {
                Some(path) => target == path,
                None => default_path(e, q.shell, q.program_name) == Ok::<Seq<u8>, ErrorView>(target),
            }
            &&& q.shell is Fish ==> after == d && report.location is None && report.legacy_change
                == FileChange::Absent && report.managed_change == FileChange::Absent
            &&& !(q.shell is Fish) ==> {
                &&& startup_file(e, q.shell) matches Ok(Some(_))
                &&& report.location == Some(profile)
                &&& crate::path::holds_path(report.affected_locations, profile)
                &&& own_block(q.shell, q.program_name, target) matches Ok(b) && holds_block(
                    profile,
                    text,
                    b,
                ) == Ok::<bool, ErrorView>(true)
                &&& shows_line(text, opening(q.shell, q.program_name))
                &&& shows_line(text, closing(q.shell, q.program_name))
                &&& q.shell is Zsh ==> zsh_finds(q.program_name, target)
            }
        }),
{
    let name = q.program_name;
    let target = target_of(e, d, q.shell, name, q.path_override)->Ok_0;
    if !(q.shell is Fish) {
        lemma_migrated(e, d, q.shell, name, target, q.legacy_blocks);
        let touched = migrated(
            e,
            d,
            q.shell,
            name,
            target,
            q.legacy_blocks,
        ).1->Ok_0.affected_locations;
        lemma_locations_hold(target, touched, touched.len() as int);
        assert(touched[0] == startup_file(e, q.shell)->Ok_0->0);
    }
}

#[verifier::spinoff_prover]
#[verifier::rlimit(40)]
proof fn lemma_migrated(
    e: EnvironmentView,
    d: DiskView,
    shell: ShellView,
    name: Seq<char>,
    target: Seq<u8>,
    legacy: Seq<BlockView>,
)
    requires
        program_name_error(name) is None,
        !(shell is Fish),
        migrated(e, d, shell, name, target, legacy).1 is Ok,
        is_single_line(target),
        startup_file(e, shell) matches Ok(Some(profile)) ==> is_readable(d, profile),
    ensures
        ({
            let (after, outcome) = migrated(e, d, shell, name, target, legacy);
            let profile = startup_file(e, shell)->Ok_0->0;
            let text = text_at(after, profile);
            &&& has_blocks(shell)
            &&& startup_file(e, shell) matches Ok(Some(_))
            &&& outcome->Ok_0.location == Some(profile)
            &&& outcome->Ok_0.affected_locations == seq![profile]
            &&& own_block(shell, name, target) matches Ok(b) && holds_block(profile, text, b)
                == Ok::<bool, ErrorView>(true)
            &&& shows_line(text, opening(shell, name))
            &&& shows_line(text, closing(shell, name))
        }),
{
    let after = migrated(e, d, shell, name, target, legacy).0;
    lemma_migrates(e, d, shell, name, target, legacy);
    let profile = startup_file(e, shell)->Ok_0->0;
    let b = own_block(shell, name, target)->Ok_0;
    let contents = text_at(d, profile);
    let cleaned = without_blocks(profile, contents, legacy)->Ok_0.0;
    let updated = migrated_text(profile, contents, legacy, b)->Ok_0.0;
    law_plain_targets_have_sound_blocks(shell, name, target, cleaned);
    law_upsert_is_seen(profile, cleaned, b);
    if profile_text(d, profile) != Ok::<Option<Seq<char>>, ErrorView>(Some(updated)) {
        lemma_text_written(e.platform, d, profile, updated);
    }
    lemma_shown(shell, name, target, profile, updated);
}

/// A text that holds the block of a program shows its markers.
proof fn lemma_shown(
    shell: ShellView,
    name: Seq<char>,
    target: Seq<u8>,
    profile: Seq<u8>,
    text: Seq<char>,
)
    requires
        has_blocks(shell),
        own_block(shell, name, target) is Ok,
        holds_block(profile, text, own_block(shell, name, target)->Ok_0) == Ok::<bool, ErrorView>(
            true,
        ),
    ensures
        shows_line(text, opening(shell, name)),
        shows_line(text, closing(shell, name)),
{
    let b = own_block(shell, name, target)->Ok_0;
    law_markers_name_the_program(shell, name, target);
    lemma_markers_end(shell, name);
    lemma_shows(profile, text, b);
    let lines = lines_of(text);
    let span = block_spans(profile, lines, b)->Ok_0[0];
    lemma_span_closes(b, lines, 0);
    lemma_line_with(lines[span.1 - 1], b.end_marker);
    assert(is_line_with(lines[span.1 - 1], b.end_marker));
}

/// A migration for Zsh needs a file that Zsh finds by its name, and is refused for any other.
pub proof fn law_migration_needs_a_file_that_zsh_finds(
    e: EnvironmentView,
    d: DiskView,
    q: MigrateQuery,
)
    requires
        program_name_error(q.program_name) is None,
        q.shell is Zsh,
        target_of(e, d, q.shell, q.program_name, q.path_override) matches Ok(target) && !zsh_finds(
            q.program_name,
            target,
        ),
    ensures
        migration(e, d, q).0 == d,
        migration(e, d, q).1 matches Err(ErrorView::Failure { report, .. }) && report.kind
            == FailureKind::InvalidTargetPath && report.operation
            == Operation::MigrateManagedBlocks,
{
}

} // verus!

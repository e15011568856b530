//! What users are told to do.
use vstd::prelude::*;

use crate::disk::DiskView;
use crate::environment::EnvironmentView;
use crate::laws::operations::{lemma_installed_stages, with_script};
use crate::laws::outcomes::{law_install_reports_the_activation, zsh_finds};
use crate::laws::scripts::{bourne_value, doubled_value, law_literals_are_read_back};
use crate::model::{ActivationMode, ActivationPolicy, ShellView};
use crate::path::{parent, spelled};
use crate::paths::startup_file;
use crate::service::common::{manual_step, target_of, uses_backend};
use crate::service::install::{installed, InstallQuery};
use crate::shell::backend::activated;
use crate::shell::quoting::{doubly_quoted, shell_quoted};
use crate::text::utf8_text;

verus! {

/// Whether a sentence has a path between two texts, as a literal of the shell.
pub open spec fn has_path_between(
    sentence: Option<Seq<char>>,
    is_bourne: bool,
    before: Seq<char>,
    path: Seq<u8>,
    after: Seq<char>,
) -> bool {
    exists|word: Seq<char>|
        #![trigger before + word]
        sentence == Some(before + word + after) && utf8_text(spelled(path)) is Some && utf8_text(
            spelled(path),
        ) == (if is_bourne {
            bourne_value(word)
        } else {
            doubled_value(word)
        })
}

proof fn lemma_path_between(before: Seq<char>, path: Seq<u8>, after: Seq<char>)
    ensures
        shell_quoted(path) matches Ok(word) ==> has_path_between(
            Some(before + word + after),
            true,
            before,
            path,
            after,
        ),
        doubly_quoted(path) matches Ok(word) ==> has_path_between(
            Some(before + word + after),
            false,
            before,
            path,
            after,
        ),
{
    law_literals_are_read_back(path);
    match shell_quoted(path) {
        Ok(word) => {
            let whole = before + word;
            assert(whole + after == before + word + after);
        },
        Err(_) => {},
    }
    match doubly_quoted(path) {
        Ok(word) => {
            let whole = before + word;
            assert(whole + after == before + word + after);
        },
        Err(_) => {},
    }
}

/// An install that leaves activation to the user tells what to do, with the path of the completion
/// file as a literal that their shell reads as that path. For Zsh it is the directory of the file
/// that has to be known, once the file has a name by which it is found.
pub proof fn law_manual_installs_tell_what_to_do(
    e: EnvironmentView,
    d: DiskView,
    q: InstallQuery,
    policy: ActivationPolicy,
)
    requires
        installed(e, d, q, policy).1 is Ok,
        installed(e, d, q, policy).1->Ok_0.activation.mode == ActivationMode::Manual,
    ensures
        ({
            let report = installed(e, d, q, policy).1->Ok_0;
            let target = report.target_path;
            let step = report.activation.next_step;
            match q.shell {
                ShellView::Bash => has_path_between(
                    step,
                    true,
                    "Source "@,
                    target,
                    " from your ~/.bashrc."@,
                ),
                ShellView::Zsh => if zsh_finds(q.program_name, target) {
                    has_path_between(
                        step,
                        true,
                        "Add "@,
                        match parent(target) {
                            Some(dir) => dir,
                            None => target,
                        },
                        " to `fpath` and run `compinit -i` from your .zshrc."@,
                    )
                } else {
                    has_path_between(
                        step,
                        true,
                        "Rename "@,
                        target,
                        " to `_"@ + q.program_name
                            + "` so that Zsh can autoload it, then add its directory to `fpath` and run `compinit -i`."@,
                    )
                },
                ShellView::Fish => has_path_between(
                    step,
                    true,
                    "Source "@,
                    target,
                    " from your Fish configuration, or move it into Fish's completions directory."@,
                ),
                ShellView::Powershell => has_path_between(
                    step,
                    false,
                    "Add `. "@,
                    target,
                    "` to `$PROFILE.CurrentUserAllHosts`."@,
                ),
                ShellView::Elvish => has_path_between(
                    step,
                    false,
                    "Add `eval (slurp < "@,
                    target,
                    ")` to your Elvish rc.elv."@,
                ),
                ShellView::Other(_) => false,
            }
        }),
{
    lemma_installed_stages(e, d, q, policy);
    law_install_reports_the_activation(e, d, q, policy);
    let name = q.program_name;
    let target = target_of(e, d, q.shell, name, q.path_override)->Ok_0;
    let dir = match parent(target) {
        Some(dir) => dir,
        None => target,
    };
    assert(!uses_backend(e, q.shell, name, policy, target));
    assert(installed(e, d, q, policy).1->Ok_0.activation.next_step == Some(
        manual_step(q.shell, name, target)->Ok_0,
    ));
    lemma_path_between("Source "@, target, " from your ~/.bashrc."@);
    lemma_path_between(
        "Add "@,
        dir,
        " to `fpath` and run `compinit -i` from your .zshrc."@,
    );
    lemma_path_between(
        "Rename "@,
        target,
        " to `_"@ + name
            + "` so that Zsh can autoload it, then add its directory to `fpath` and run `compinit -i`."@,
    );
    lemma_path_between(
        "Source "@,
        target,
        " from your Fish configuration, or move it into Fish's completions directory."@,
    );
    lemma_path_between("Add `. "@, target, "` to `$PROFILE.CurrentUserAllHosts`."@);
    lemma_path_between("Add `eval (slurp < "@, target, ")` to your Elvish rc.elv."@);
}

/// An install that put a block into a startup file tells how to load that file at once.
pub proof fn law_managed_installs_tell_how_to_load(
    e: EnvironmentView,
    d: DiskView,
    q: InstallQuery,
    policy: ActivationPolicy,
)
    requires
        installed(e, d, q, policy).1 is Ok,
        installed(e, d, q, policy).1->Ok_0.activation.mode == ActivationMode::ManagedRcBlock,
    ensures
        ({
            let step = installed(e, d, q, policy).1->Ok_0.activation.next_step;
            let profile = startup_file(e, q.shell)->Ok_0->0;
            &&& q.shell is Powershell ==> has_path_between(
                step,
                false,
                "Start a new PowerShell session or run `. "@,
                profile,
                "`."@,
            )
            &&& q.shell is Elvish ==> has_path_between(
                step,
                false,
                "Start a new Elvish session or run `eval (slurp < "@,
                profile,
                ")`."@,
            )
        }),
{
    lemma_installed_stages(e, d, q, policy);
    law_install_reports_the_activation(e, d, q, policy);
    let target = target_of(e, d, q.shell, q.program_name, q.path_override)->Ok_0;
    let ready = with_script(e, d, q, target);
    let profile = startup_file(e, q.shell)->Ok_0->0;
    assert(uses_backend(e, q.shell, q.program_name, policy, target));
    lemma_path_between("Start a new PowerShell session or run `. "@, profile, "`."@);
    lemma_path_between("Start a new Elvish session or run `eval (slurp < "@, profile, ")`."@);
    if q.shell is Powershell || q.shell is Elvish {
        lemma_load_step(e, ready, q.shell, q.program_name, target);
    }
}

proof fn lemma_load_step(
    e: EnvironmentView,
    d: DiskView,
    shell: ShellView,
    name: Seq<char>,
    target: Seq<u8>,
)
    requires
        activated(e, d, shell, name, target).1 is Ok,
        shell is Powershell || shell is Elvish,
    ensures
        ({
            let step = activated(e, d, shell, name, target).1->Ok_0.report.next_step;
            let profile = startup_file(e, shell)->Ok_0->0;
            doubly_quoted(profile) matches Ok(word) && step == Some(
                if shell is Powershell {
                    "Start a new PowerShell session or run `. "@ + word + "`."@
                } else {
                    "Start a new Elvish session or run `eval (slurp < "@ + word + ")`."@
                },
            )
        }),
{
}

} // verus!

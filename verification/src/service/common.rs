//! What the operations share: failure reports, target resolution and manual instructions.
use vstd::prelude::*;

use crate::disk::{Disk, DiskView};
use crate::environment::{path_result, Environment, EnvironmentView, Platform};
use crate::error::{Error, ErrorView};
use crate::managed_block::text_result;
use crate::model::{
    opt_path, opt_text, ActivationMode, ActivationPolicy, ActivationReport, ActivationView,
    Availability, CleanupReport, CleanupView, FailureKind, FailureReport, FailureView, FileChange,
    Operation, Shell, ShellView,
};
use crate::path::{file_name, parent, path_views, same_path, shown, FilePath};
use crate::paths::{
    default_install_path, default_path, identity, path_identity, spelling_error, startup_file,
    startup_path, target_error, validate_spelling, validate_target_path,
};
use crate::shell::quoting::{
    doubly_quoted, elvish_quote, powershell_quote, shell_quote, shell_quoted,
};
use crate::shell::wiring::report_result;
use crate::shell::zsh::completion_dir;
use crate::text;

verus! {

/// What an operation knows of itself when it fails.
pub struct FailureContext {
    pub operation: Operation,
    pub shell: Shell,
    pub target_path: Option<FilePath>,
    pub affected_locations: Vec<FilePath>,
    pub kind: FailureKind,
    pub trace_id: u64,
}

#[verifier::ext_equal]
pub struct ContextView {
    pub operation: Operation,
    pub shell: ShellView,
    pub target_path: Option<Seq<u8>>,
    pub affected_locations: Seq<Seq<u8>>,
    pub kind: FailureKind,
    pub trace_id: u64,
}

impl View for FailureContext {
    type V = ContextView;

    open spec fn view(&self) -> ContextView {
        ContextView {
            operation: self.operation,
            shell: self.shell@,
            target_path: opt_path(self.target_path),
            affected_locations: path_views(self.affected_locations@),
            kind: self.kind,
            trace_id: self.trace_id,
        }
    }
}

/// The context of a failure.
pub fn context(
    operation: Operation,
    trace_id: u64,
    shell: &Shell,
    target_path: Option<FilePath>,
    affected_locations: Vec<FilePath>,
    kind: FailureKind,
) -> (r: FailureContext)
    ensures
        r@ == (ContextView {
            operation,
            shell: shell@,
            target_path: opt_path(target_path),
            affected_locations: path_views(affected_locations@),
            kind,
            trace_id,
        }),
{
    FailureContext {
        operation,
        shell: shell.copy(),
        target_path,
        affected_locations,
        kind,
        trace_id,
    }
}

/// A copy of a path, where there is one.
pub fn copy_path(path: &Option<FilePath>) -> (r: Option<FilePath>)
    ensures
        opt_path(r) == opt_path(*path),
{
    match path {
        Some(p) => Some(p.copy()),
        None => None,
    }
}

/// How far an operation had come when it failed.
pub struct FailureStatus {
    pub file_change: Option<FileChange>,
    pub activation: Option<ActivationReport>,
    pub cleanup: Option<CleanupReport>,
}

/// The failure with the given context, progress and words.
pub open spec fn failed_at(
    context: ContextView,
    file_change: Option<FileChange>,
    activation: Option<ActivationView>,
    cleanup: Option<CleanupView>,
    reason: Seq<char>,
    next_step: Option<Seq<char>>,
) -> ErrorView {
    ErrorView::Failure {
        report: FailureView {
            operation: context.operation,
            shell: context.shell,
            target_path: context.target_path,
            affected_locations: context.affected_locations,
            kind: context.kind,
            file_change,
            activation,
            cleanup,
            reason,
            next_step,
            trace_id: context.trace_id,
        },
        source: None,
    }
}

/// The failure with the given context and words, before anything was done.
pub open spec fn failed(
    context: ContextView,
    reason: Seq<char>,
    next_step: Option<Seq<char>>,
) -> ErrorView {
    failed_at(context, None, None, None, reason, next_step)
}

pub open spec fn opt_activation(activation: Option<ActivationReport>) -> Option<ActivationView> {
    match activation {
        Some(a) => Some(a@),
        None => None,
    }
}

pub open spec fn opt_cleanup(cleanup: Option<CleanupReport>) -> Option<CleanupView> {
    match cleanup {
        Some(c) => Some(c@),
        None => None,
    }
}

/// Makes the failure with the given context, progress and words.
pub fn failure_with_status(
    context: FailureContext,
    status: FailureStatus,
    reason: String,
    next_step: Option<String>,
) -> (r: Error)
    ensures
        r@ == failed_at(
            context@,
            status.file_change,
            opt_activation(status.activation),
            opt_cleanup(status.cleanup),
            reason@,
            opt_text(next_step),
        ),
{
    Error::failure(
        FailureReport {
            operation: context.operation,
            shell: context.shell,
            target_path: context.target_path,
            affected_locations: context.affected_locations,
            kind: context.kind,
            file_change: status.file_change,
            activation: status.activation,
            cleanup: status.cleanup,
            reason,
            next_step,
            trace_id: context.trace_id,
        },
    )
}

/// Makes the failure with the given context and words.
pub fn failure(context: FailureContext, reason: String, next_step: Option<String>) -> (r: Error)
    ensures
        r@ == failed(context@, reason@, opt_text(next_step)),
{
    failure_with_status(
        context,
        FailureStatus { file_change: None, activation: None, cleanup: None },
        reason,
        next_step,
    )
}

/// The variables that would tell the home directory.
pub open spec fn home_hint(platform: Platform, shell: ShellView) -> Seq<char> {
    if platform == Platform::Windows && shell is Powershell {
        "HOME or USERPROFILE"@
    } else {
        "HOME"@
    }
}

/// The variable that tells where the home directory is.
pub fn home_env_hint(env: &Environment, shell: &Shell) -> (r: &'static str)
    ensures
        r@ == home_hint(env@.platform, shell@),
{
    match (env.platform, shell) {
        (Platform::Windows, Shell::Powershell) => "HOME or USERPROFILE",
        _ => "HOME",
    }
}

/// The managed default location, where it is an acceptable path.
pub open spec fn default_target(e: EnvironmentView, shell: ShellView, name: Seq<char>) -> Result<
    Seq<u8>,
    ErrorView,
> {
    match default_path(e, shell, name) {
        Err(error) => Err(error),
        Ok(path) => match spelling_error(e.platform, path) {
            Some(error) => Err(error),
            None => Ok(path),
        },
    }
}

/// The managed default location, where it is an acceptable path.
pub fn resolve_default_target_path(env: &Environment, shell: &Shell, program_name: &str) -> (r:
    Result<FilePath, Error>)
    ensures
        path_result(r) == default_target(env@, shell@, program_name@),
{
    let path = default_install_path(env, shell, program_name)?;
    validate_spelling(env.platform, &path)?;
    Ok(path)
}

/// Why a file cannot be the target of an operation: it has no parent, it is rejected as a
/// target, or it is the startup file of the shell.
pub open spec fn resolution_error(
    e: EnvironmentView,
    d: DiskView,
    shell: ShellView,
    path: Seq<u8>,
) -> Option<ErrorView> {
    if parent(path) is None {
        Some(ErrorView::PathHasNoParent { path })
    } else {
        match target_error(e.platform, d, path) {
            Some(error) => Some(error),
            None => if is_startup_file(e, shell, path) {
                Some(
                    ErrorView::InvalidTargetPath {
                        path,
                        reason: "target path must not be the shell startup file"@,
                    },
                )
            } else {
                None
            },
        }
    }
}

/// Whether a path is the startup file of a shell, under whatever spelling.
pub open spec fn is_startup_file(e: EnvironmentView, shell: ShellView, path: Seq<u8>) -> bool {
    match startup_file(e, shell) {
        Ok(Some(file)) => same_path(identity(e.platform, file), identity(e.platform, path)),
        _ => false,
    }
}

/// The completion file that an operation is about.
pub open spec fn target_of(
    e: EnvironmentView,
    d: DiskView,
    shell: ShellView,
    name: Seq<char>,
    path_override: Option<Seq<u8>>,
) -> Result<Seq<u8>, ErrorView> {
    if shell is Other {
        Err(ErrorView::UnsupportedShell { shell })
    } else {
        let path = match path_override {
            Some(path) => Ok(path),
            None => default_target(e, shell, name),
        };
        match path {
            Err(error) => Err(error),
            Ok(p) => match resolution_error(e, d, shell, p) {
                Some(error) => Err(error),
                None => Ok(p),
            },
        }
    }
}

/// Resolves and checks the completion file that an operation is about.
pub fn resolve_target_path(
    env: &Environment,
    disk: &Disk,
    shell: &Shell,
    program_name: &str,
    path_override: &Option<FilePath>,
) -> (r: Result<FilePath, Error>)
    ensures
        path_result(r) == target_of(
            env@,
            disk@,
            shell@,
            program_name@,
            opt_path(*path_override),
        ),
{
    match shell {
        Shell::Other(_) => {
            return Err(Error::UnsupportedShell(shell.copy()));
        },
        _ => {},
    }
    let path = match path_override {
        Some(path) => path.copy(),
        None => resolve_default_target_path(env, shell, program_name)?,
    };
    if path.parent().is_none() {
        return Err(Error::PathHasNoParent { path });
    }
    validate_target_path(env.platform, disk, &path)?;
    match startup_path(env, shell) {
        Ok(Some(file)) => if path_identity(env.platform, &file).same(
            &path_identity(env.platform, &path),
        ) {
            return Err(
                Error::InvalidTargetPath {
                    path,
                    reason: "target path must not be the shell startup file",
                },
            );
        },
        _ => {},
    }
    Ok(path)
}

/// Whether a path is the managed default location, under whatever spelling.
pub open spec fn is_default_target(
    e: EnvironmentView,
    shell: ShellView,
    name: Seq<char>,
    path: Seq<u8>,
) -> bool {
    match default_path(e, shell, name) {
        Ok(default) => same_path(identity(e.platform, default), identity(e.platform, path)),
        Err(_) => false,
    }
}

/// Whether a path is the managed default location.
pub fn default_target_path_matches(
    env: &Environment,
    shell: &Shell,
    program_name: &str,
    path: &FilePath,
) -> (r: bool)
    ensures
        r == is_default_target(env@, shell@, program_name@, path@),
{
    match default_install_path(env, shell, program_name) {
        Ok(default) => path_identity(env.platform, &default).same(
            &path_identity(env.platform, path),
        ),
        Err(_) => false,
    }
}

/// The policy of a request that names none: managed at the default location, manual elsewhere.
pub open spec fn implied_policy(
    e: EnvironmentView,
    shell: ShellView,
    name: Seq<char>,
    path_override: Option<Seq<u8>>,
) -> ActivationPolicy {
    match path_override {
        None => ActivationPolicy::AutoManaged,
        Some(path) => if is_default_target(e, shell, name, path) {
            ActivationPolicy::AutoManaged
        } else {
            ActivationPolicy::Manual
        },
    }
}

/// The policy of a request that names none.
pub fn legacy_activation_policy(
    env: &Environment,
    shell: &Shell,
    program_name: &str,
    path_override: &Option<FilePath>,
) -> (r: ActivationPolicy)
    ensures
        r == implied_policy(env@, shell@, program_name@, opt_path(*path_override)),
{
    match path_override {
        None => ActivationPolicy::AutoManaged,
        Some(path) => if default_target_path_matches(env, shell, program_name, path) {
            ActivationPolicy::AutoManaged
        } else {
            ActivationPolicy::Manual
        },
    }
}

/// Whether Zsh finds a completion file by its name: it must be `_` and the program's name.
pub open spec fn is_autoloadable(name: Seq<char>, target: Seq<u8>) -> bool {
    file_name(target) == Some(text::text_bytes("_"@ + name))
}

/// Whether Zsh finds the completion of a program in a file of that name.
pub fn zsh_target_is_autoloadable(program_name: &str, target_path: &FilePath) -> (r: bool)
    ensures
        r == is_autoloadable(program_name@, target_path@),
{
    match target_path.file_name() {
        Some(name) => text::same_bytes(
            &name,
            &text::bytes_of(&text::concat2("_", program_name)),
        ),
        None => false,
    }
}

/// Whether the shell's own way of activation applies. Fish has one at its default location
/// whatever the policy, and Zsh needs a file that it can find.
pub open spec fn uses_backend(
    e: EnvironmentView,
    shell: ShellView,
    name: Seq<char>,
    policy: ActivationPolicy,
    target: Seq<u8>,
) -> bool {
    match shell {
        ShellView::Fish => is_default_target(e, shell, name, target),
        ShellView::Zsh => policy == ActivationPolicy::AutoManaged && is_autoloadable(name, target),
        _ => policy == ActivationPolicy::AutoManaged,
    }
}

/// Whether the shell's own way of activation applies.
pub fn should_use_shell_backend(
    env: &Environment,
    shell: &Shell,
    program_name: &str,
    policy: ActivationPolicy,
    target_path: &FilePath,
) -> (r: bool)
    ensures
        r == uses_backend(env@, shell@, program_name@, policy, target_path@),
{
    let managed = match policy {
        ActivationPolicy::AutoManaged => true,
        ActivationPolicy::Manual => false,
    };
    match shell {
        Shell::Fish => default_target_path_matches(env, shell, program_name, target_path),
        Shell::Zsh => managed && zsh_target_is_autoloadable(program_name, target_path),
        _ => managed,
    }
}

/// What a user has to do to load a completion file.
pub open spec fn manual_step(shell: ShellView, name: Seq<char>, target: Seq<u8>) -> Result<
    Seq<char>,
    ErrorView,
> {
    match shell {
        ShellView::Zsh => if is_autoloadable(name, target) {
            phrase(
                "Add "@,
                shell_quoted(completion_dir(target)),
                " to `fpath` and run `compinit -i` from your .zshrc."@,
            )
        } else {
            phrase(
                "Rename "@,
                shell_quoted(target),
                " to `_"@ + name
                    + "` so that Zsh can autoload it, then add its directory to `fpath` and run `compinit -i`."@,
            )
        },
        ShellView::Powershell => phrase(
            "Add `. "@,
            doubly_quoted(target),
            "` to `$PROFILE.CurrentUserAllHosts`."@,
        ),
        ShellView::Elvish => phrase(
            "Add `eval (slurp < "@,
            doubly_quoted(target),
            ")` to your Elvish rc.elv."@,
        ),
        ShellView::Bash => phrase("Source "@, shell_quoted(target), " from your ~/.bashrc."@),
        ShellView::Fish => phrase(
            "Source "@,
            shell_quoted(target),
            " from your Fish configuration, or move it into Fish's completions directory."@,
        ),
        ShellView::Other(_) => phrase(
            "Source "@,
            shell_quoted(target),
            " from the startup file of your shell."@,
        ),
    }
}

/// A quoted path between words.
pub open spec fn phrase(
    before: Seq<char>,
    quoted: Result<Seq<char>, ErrorView>,
    after: Seq<char>,
) -> Result<Seq<char>, ErrorView> {
    match quoted {
        Ok(path) => Ok(before + path + after),
        Err(error) => Err(error),
    }
}

/// What is left to the user where nothing is arranged.
pub fn manual_next_step(shell: &Shell, program_name: &str, target_path: &FilePath) -> (r: Result<
    String,
    Error,
>)
    ensures
        text_result(r) == manual_step(shell@, program_name@, target_path@),
{
    match shell {
        Shell::Zsh => {
            if zsh_target_is_autoloadable(program_name, target_path) {
                let dir = match target_path.parent() {
                    Some(dir) => dir,
                    None => target_path.copy(),
                };
                let quoted = shell_quote(&dir)?;
                Ok(
                    text::concat3(
                        "Add ",
                        &quoted,
                        " to `fpath` and run `compinit -i` from your .zshrc.",
                    ),
                )
            } else {
                let quoted = shell_quote(target_path)?;
                let rest = text::concat3(
                    " to `_",
                    program_name,
                    "` so that Zsh can autoload it, then add its directory to `fpath` and run `compinit -i`.",
                );
                Ok(text::concat3("Rename ", &quoted, &rest))
            }
        },
        Shell::Powershell => {
            let quoted = powershell_quote(target_path)?;
            Ok(text::concat3("Add `. ", &quoted, "` to `$PROFILE.CurrentUserAllHosts`."))
        },
        Shell::Elvish => {
            let quoted = elvish_quote(target_path)?;
            Ok(text::concat3("Add `eval (slurp < ", &quoted, ")` to your Elvish rc.elv."))
        },
        Shell::Bash => {
            let quoted = shell_quote(target_path)?;
            Ok(text::concat3("Source ", &quoted, " from your ~/.bashrc."))
        },
        Shell::Fish => {
            let quoted = shell_quote(target_path)?;
            Ok(
                text::concat3(
                    "Source ",
                    &quoted,
                    " from your Fish configuration, or move it into Fish's completions directory.",
                ),
            )
        },
        Shell::Other(_) => {
            let quoted = shell_quote(target_path)?;
            Ok(text::concat3("Source ", &quoted, " from the startup file of your shell."))
        },
    }
}

/// What a user has to do about a completion file that is not there.
pub open spec fn missing_step(shell: ShellView, name: Seq<char>, target: Seq<u8>) -> Result<
    Seq<char>,
    ErrorView,
> {
    match manual_step(shell, name, target) {
        Ok(step) => Ok(
            "Run your CLI's completion install command to write `"@ + shown(target)
                + "` again. "@ + step,
        ),
        Err(error) => Err(error),
    }
}

/// What is left to the user where the script is not there.
pub fn missing_completion_next_step(
    shell: &Shell,
    program_name: &str,
    target_path: &FilePath,
) -> (r: Result<String, Error>)
    ensures
        text_result(r) == missing_step(shell@, program_name@, target_path@),
{
    let step = manual_next_step(shell, program_name, target_path)?;
    let head = text::concat3(
        "Run your CLI's completion install command to write `",
        &target_path.display(),
        "` again. ",
    );
    Ok(text::concat2(&head, &step))
}

/// The report on a completion that the user has to activate.
pub open spec fn manual_report(
    shell: ShellView,
    name: Seq<char>,
    target: Seq<u8>,
    policy: ActivationPolicy,
) -> Result<ActivationView, ErrorView> {
    match manual_step(shell, name, target) {
        Err(error) => Err(error),
        Ok(step) => Ok(
            ActivationView {
                mode: ActivationMode::Manual,
                availability: Availability::ManualActionRequired,
                location: Some(target),
                reason: Some(
                    if policy == ActivationPolicy::Manual {
                        "Managed activation was skipped because the activation policy is manual."@
                    } else {
                        "Managed activation is not available for this completion path."@
                    },
                ),
                next_step: Some(step),
            },
        ),
    }
}

/// The report on a completion that the user has to activate.
pub fn manual_activation_report(
    shell: &Shell,
    program_name: &str,
    target_path: &FilePath,
    policy: ActivationPolicy,
) -> (r: Result<ActivationReport, Error>)
    ensures
        report_result(r) == manual_report(shell@, program_name@, target_path@, policy),
{
    let step = manual_next_step(shell, program_name, target_path)?;
    Ok(
        ActivationReport {
            mode: ActivationMode::Manual,
            availability: Availability::ManualActionRequired,
            location: Some(target_path.copy()),
            reason: Some(
                match policy {
                    ActivationPolicy::Manual => text::copy(
                        "Managed activation was skipped because the activation policy is manual.",
                    ),
                    ActivationPolicy::AutoManaged => text::copy(
                        "Managed activation is not available for this completion path.",
                    ),
                },
            ),
            next_step: Some(step),
        },
    )
}

/// A list that starts with a path and goes on with those of another list that it does not hold.
pub open spec fn all_locations(first: Seq<u8>, more: Seq<Seq<u8>>, count: int) -> Seq<Seq<u8>>
    decreases count,
{
    if count <= 0 {
        seq![first]
    } else {
        crate::path::with_path(all_locations(first, more, count - 1), more[count - 1])
    }
}

/// A list that starts with a path and goes on with those of another list that it does not hold.
pub fn locations(first: &FilePath, more: Vec<FilePath>) -> (r: Vec<FilePath>)
    ensures
        path_views(r@) == all_locations(first@, path_views(more@), more@.len() as int),
{
    let mut out = crate::shell::wiring::one(first.copy());
    let ghost views = path_views(more@);
    let mut i: usize = 0;
    while i < more.len()
        invariant
            i <= more@.len(),
            views == path_views(more@),
            path_views(out@) == all_locations(first@, views, i as int),
        decreases more.len() - i,
    {
        assert(views[i as int] == more@[i as int]@);
        crate::path::push_unique(&mut out, more[i].copy());
        i += 1;
    }
    out
}

} // verus!

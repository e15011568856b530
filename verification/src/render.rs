//! Completion scripts made by `clap_complete`.
use vstd::prelude::*;
use vstd::std_specs::convert::FromSpecImpl;

use clap_complete::Shell as ClapShell;

use crate::error::{Error, ErrorView};
use crate::model::{Shell, ShellView};

verus! {

/// A command of `clap`. The library carries it to the generator and looks at nothing in it.
#[verifier::external_type_specification]
#[verifier::external_body]
pub struct ExCommand(clap::Command);

/// A shell that `clap_complete` has a generator for.
#[verifier::external_type_specification]
pub struct ExClapShell(ClapShell);

/// The script that `clap_complete::generate` writes for a command under the given name, where the
/// call returns and writes the same each time.
pub uninterp spec fn generated_script(
    generator: ClapShell,
    command: clap::Command,
    bin_name: Seq<char>,
) -> Seq<u8>;

/// Whether `clap_complete::generate` returns for a command under the given name, and writes the
/// same each time.
///
/// It panics where `clap` finds, with debug assertions, a definition that contradicts itself, such
/// as two arguments with one short flag. It also panics where a generator does not find a
/// subcommand by its names: for Bash where the name holds a blank and there are subcommands, or
/// where a subcommand has a binary name of its own or was added to a command that had been built.
/// What it writes can differ from call to call where the command holds code of the caller, such as
/// a value parser whose possible values are read from a file or a deferred definition.
pub uninterp spec fn generates_alike(
    generator: ClapShell,
    command: clap::Command,
    bin_name: Seq<char>,
) -> bool;

/// `clap_complete::generate` sets the command's binary name, builds it and writes the script of the
/// generator into the buffer. Of the calls that return and write the same each time, the contract
/// claims that what is written depends on the generator, the command and the name alone. It does
/// not say which bytes these are, nor for which commands the call is such a one.
#[verifier::external_body]
fn generate_script(generator: ClapShell, command: clap::Command, bin_name: &str) -> (r:
    Vec<u8>)
    requires
        generates_alike(generator, command, bin_name@),
    ensures
        generates_alike(generator, command, bin_name@) ==> r@ == generated_script(
            generator,
            command,
            bin_name@,
        ),
{
    let mut command = command;
    let mut output = Vec::new();
    clap_complete::generate(generator, &mut command, bin_name, &mut output);
    output
}

/// The shell that a generator of `clap_complete` is for. There is one for each supported shell
/// and no other.
pub open spec fn shell_of(shell: ClapShell) -> Shell {
    match shell {
        ClapShell::Bash => Shell::Bash,
        ClapShell::Elvish => Shell::Elvish,
        ClapShell::Fish => Shell::Fish,
        ClapShell::PowerShell => Shell::Powershell,
        ClapShell::Zsh => Shell::Zsh,
        _ => arbitrary(),
    }
}

impl From<ClapShell> for Shell {
    fn from(shell: ClapShell) -> (r: Shell) {
        match shell {
            ClapShell::Bash => Shell::Bash,
            ClapShell::Elvish => Shell::Elvish,
            ClapShell::Fish => Shell::Fish,
            ClapShell::PowerShell => Shell::Powershell,
            ClapShell::Zsh => Shell::Zsh,
            other => Shell::Other(other.to_string()),
        }
    }
}

impl FromSpecImpl<ClapShell> for Shell {
    open spec fn obeys_from_spec() -> bool {
        true
    }

    open spec fn from_spec(shell: ClapShell) -> Shell {
        shell_of(shell)
    }
}

/// The generator for a shell; there is none for a shell that is not supported.
pub open spec fn generator_of(shell: ShellView) -> Option<ClapShell> {
    match shell {
        ShellView::Bash => Some(ClapShell::Bash),
        ShellView::Elvish => Some(ClapShell::Elvish),
        ShellView::Fish => Some(ClapShell::Fish),
        ShellView::Powershell => Some(ClapShell::PowerShell),
        ShellView::Zsh => Some(ClapShell::Zsh),
        ShellView::Other(_) => None,
    }
}

/// The generator for a shell.
pub fn generator_for(shell: Shell) -> (r: Result<ClapShell, Error>)
    ensures
        (match generator_of(shell@) {
            Some(generator) => r == Ok::<ClapShell, Error>(generator),
            None => r matches Err(error) && error@ == (ErrorView::UnsupportedShell {
                shell: shell@,
            }),
        }),
{
    match shell {
        Shell::Bash => Ok(ClapShell::Bash),
        Shell::Elvish => Ok(ClapShell::Elvish),
        Shell::Fish => Ok(ClapShell::Fish),
        Shell::Powershell => Ok(ClapShell::PowerShell),
        Shell::Zsh => Ok(ClapShell::Zsh),
        Shell::Other(name) => Err(Error::UnsupportedShell(Shell::Other(name))),
    }
}

/// Renders the completion script of a command. The script is not installed.
///
/// Where there is a generator for the shell, the command must be one that it returns for and writes
/// the same each time. A shell without a generator is an error whatever the command is.
pub fn render_clap_completion_from_command(
    shell: Shell,
    bin_name: &str,
    command: clap::Command,
) -> (r: Result<Vec<u8>, Error>)
    requires
        generator_of(shell@) matches Some(generator) ==> generates_alike(
            generator,
            command,
            bin_name@,
        ),
    ensures
        (match generator_of(shell@) {
            Some(generator) => r matches Ok(script) && script@ == generated_script(
                generator,
                command,
                bin_name@,
            ),
            None => r matches Err(error) && error@ == (ErrorView::UnsupportedShell {
                shell: shell@,
            }),
        }),
{
    let generator = generator_for(shell)?;
    Ok(generate_script(generator, command, bin_name))
}

} // verus!

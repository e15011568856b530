use clap::{Arg, ArgAction, Command};
use shellcomp::{render_clap_completion_from_command, Error, Shell};

fn test_cli() -> Command {
    Command::new("test-cli")
        .arg(Arg::new("verbose").long("verbose").action(ArgAction::SetTrue))
}

#[test]
fn renders_clap_completion() {
    let script = render_clap_completion_from_command(Shell::Bash, "test-cli", test_cli())
        .expect("bash completion should render");
    let rendered = String::from_utf8(script).expect("completion output should be utf-8");
    assert!(rendered.contains("test-cli"));
    assert!(rendered.contains("complete -F _test__cli "));
    assert!(rendered.contains("--verbose"));
}

#[test]
fn renders_clap_completion_from_clap_complete_shell() {
    let shell = Shell::from(clap_complete::Shell::Fish);
    let script = render_clap_completion_from_command(shell, "test-cli", test_cli())
        .expect("fish completion should render");
    let rendered = String::from_utf8(script).expect("completion output should be utf-8");
    assert!(rendered.contains("test-cli"));
}

#[test]
fn renders_clap_completion_from_adjusted_command() {
    let command = test_cli().arg(Arg::new("profile").long("profile"));
    let script = render_clap_completion_from_command(Shell::Bash, "test-cli", command)
        .expect("bash completion should render from an adjusted command");
    let rendered = String::from_utf8(script).expect("completion output should be utf-8");
    assert!(rendered.contains("test-cli"));
    assert!(rendered.contains("--profile"));
}

#[test]
fn rejects_other_shell_for_clap_generation() {
    let error =
        render_clap_completion_from_command(Shell::Other("xonsh".to_owned()), "test-cli", test_cli())
            .expect_err("unsupported shell should fail");
    assert!(matches!(
        error,
        Error::UnsupportedShell(Shell::Other(value)) if value == "xonsh"
    ));
}

#[test]
fn rejects_other_shell_for_prebuilt_clap_command() {
    let command = test_cli();
    let error =
        render_clap_completion_from_command(Shell::Other("xonsh".to_owned()), "test-cli", command)
            .expect_err("unsupported shell should fail");
    assert!(matches!(
        error,
        Error::UnsupportedShell(Shell::Other(value)) if value == "xonsh"
    ));
}

#[test]
fn every_known_generator_has_a_shell_of_its_own() {
    for (generator, shell, text) in [
        (clap_complete::Shell::Bash, Shell::Bash, "complete -F"),
        (clap_complete::Shell::Zsh, Shell::Zsh, "#compdef test-cli"),
        (clap_complete::Shell::Fish, Shell::Fish, "complete -c test-cli"),
        (clap_complete::Shell::PowerShell, Shell::Powershell, "Register-ArgumentCompleter"),
        (clap_complete::Shell::Elvish, Shell::Elvish, "edit:completion:arg-completer"),
    ] {
        assert_eq!(Shell::from(generator), shell);
        let script = render_clap_completion_from_command(shell, "test-cli", test_cli()).unwrap();
        assert!(String::from_utf8(script).unwrap().contains(text), "{text}");
    }
}

#[test]
fn an_unsupported_shell_is_answered_whatever_the_command_is() {
    let command = Command::new("demo")
        .arg(Arg::new("one").short('x'))
        .arg(Arg::new("two").short('x'))
        .subcommand(Command::new("sub").bin_name("else"));
    let error =
        render_clap_completion_from_command(Shell::Other("nu".to_owned()), "de mo", command)
            .expect_err("unsupported shell should fail");
    assert!(matches!(error, Error::UnsupportedShell(Shell::Other(value)) if value == "nu"));
}

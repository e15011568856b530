//! Which program names are accepted, and where completions and startup files are.
use vstd::prelude::*;
use vstd::utf8::{is_ascii_chars, is_ascii_chars_encode_utf8};

use crate::environment::{join_all, EnvironmentView, Platform};
use crate::error::ErrorView;
use crate::laws::places::{lemma_join_component, lemma_join_stays};
use crate::model::ShellView;
use crate::path::{
    components, has_drive, is_absolute, is_marked, is_separator, spelled, BACKSLASH, DOT, SLASH,
};
use crate::paths::{default_path, program_name_error, spelling_error, startup_file};
use crate::service::common::default_target;
use crate::text::text_bytes;

verus! {

/// Whether a text is made of ASCII letters, digits, `.`, `_` and `-`, is not empty, and is neither
/// `.` nor `..`.
pub open spec fn is_portable(name: Seq<char>) -> bool {
    &&& name.len() > 0
    &&& forall|k: int|
        0 <= k < name.len() ==> ('a' <= #[trigger] name[k] && name[k] <= 'z') || ('A' <= name[k]
            && name[k] <= 'Z') || ('0' <= name[k] && name[k] <= '9') || name[k] == '.' || name[k]
            == '_' || name[k] == '-'
    &&& name != seq!['.']
    &&& name != seq!['.', '.']
}

/// A program name is accepted if and only if it is made of ASCII letters, digits, `.`, `_` and `-`,
/// and is neither empty nor `.` nor `..`. An empty name has an error of its own, and the error for
/// others names them.
pub proof fn law_portable_names_are_accepted(name: Seq<char>)
    ensures
        program_name_error(name) is None <==> name.len() > 0 && (forall|k: int|
            0 <= k < name.len() ==> ('a' <= #[trigger] name[k] && name[k] <= 'z') || ('A'
                <= name[k] && name[k] <= 'Z') || ('0' <= name[k] && name[k] <= '9') || name[k]
                == '.' || name[k] == '_' || name[k] == '-') && name != seq!['.'] && name != seq![
            '.',
            '.',
        ],
        program_name_error(name) matches Some(error) ==> error == (if name.len() == 0 {
            ErrorView::EmptyProgramName
        } else {
            ErrorView::InvalidProgramName { program_name: name }
        }),
{
    reveal_strlit(".");
    reveal_strlit("..");
    assert("."@ =~= seq!['.']);
    assert(".."@ =~= seq!['.', '.']);
    if program_name_error(name) is None {
        assert forall|k: int| 0 <= k < name.len() implies ('a' <= #[trigger] name[k] && name[k]
            <= 'z') || ('A' <= name[k] && name[k] <= 'Z') || ('0' <= name[k] && name[k] <= '9')
            || name[k] == '.' || name[k] == '_' || name[k] == '-' by {
            assert(crate::paths::is_name_char(name[k]));
        }
    }
}

/// The value of a variable that is set to something.
pub open spec fn setting(e: EnvironmentView, variable: Seq<char>) -> Option<Seq<u8>> {
    if e.vars.dom().contains(variable) && spelled(e.vars[variable]).len() > 0 {
        Some(e.vars[variable])
    } else {
        None
    }
}

/// The value of a variable that is set to an absolute path.
pub open spec fn absolute_setting(e: EnvironmentView, variable: Seq<char>) -> Option<Seq<u8>> {
    if e.vars.dom().contains(variable) && is_absolute(e.platform, e.vars[variable]) {
        Some(e.vars[variable])
    } else {
        None
    }
}

/// A path below a directory, name by name.
pub open spec fn down(platform: Platform, base: Seq<u8>, names: Seq<Seq<char>>) -> Seq<u8>
    decreases names.len(),
{
    if names.len() == 0 {
        base
    } else {
        let front = down(platform, base, names.drop_last());
        let separator: u8 = if platform == Platform::Windows {
            92
        } else {
            47
        };
        if front.last() == 47 || platform == Platform::Windows && front.last() == 92 {
            front + text_bytes(names.last())
        } else {
            front + seq![separator] + text_bytes(names.last())
        }
    }
}

/// Whether a text can be a name in a path on any platform, and one that stands for itself.
pub open spec fn is_plain_name(name: Seq<char>) -> bool {
    &&& name.len() > 0
    &&& forall|k: int| 0 <= k < name.len() ==> '\0' < #[trigger] name[k] <= '\u{7f}' && name[k] != '/'
        && name[k] != '\\' && name[k] != ':'
    &&& name != seq!['.']
    &&& name != seq!['.', '.']
}

/// The bytes of a plain name.
proof fn lemma_plain_name(name: Seq<char>)
    requires
        is_plain_name(name),
    ensures
        ({
            let b = text_bytes(name);
            &&& b.len() == name.len()
            &&& b.len() > 0
            &&& !is_marked(b)
            &&& !b.contains(SLASH)
            &&& !b.contains(BACKSLASH)
            &&& !has_drive(b)
            &&& b != seq![DOT]
            &&& b != seq![DOT, DOT]
            &&& !is_separator(b[0])
            &&& !is_separator(b.last())
        }),
{
    assert(is_ascii_chars(name)) by {
        assert forall|i: int| 0 <= i < name.len() implies '\0' <= #[trigger] name[i] <= '\u{7f}' by {}
    }
    is_ascii_chars_encode_utf8(name);
    let b = text_bytes(name);
    assert forall|i: int| 0 <= i < b.len() implies b[i] != SLASH && b[i] != BACKSLASH && b[i] != 58
        && #[trigger] b[i] != 0 by {
        assert(b[i] == name[i] as u8);
        assert('\0' < name[i] <= '\u{7f}');
    }
    if b == seq![DOT] {
        assert(name =~= seq!['.']) by {
            assert(b[0] == name[0] as u8);
        }
    }
    if b == seq![DOT, DOT] {
        assert(name =~= seq!['.', '.']) by {
            assert(b[0] == name[0] as u8);
            assert(b[1] == name[1] as u8);
        }
    }
}

/// Names that are appended one after the other lead down from an absolute directory, and are the
/// last components of the path.
proof fn lemma_down(platform: Platform, base: Seq<u8>, names: Seq<Seq<char>>)
    requires
        is_absolute(platform, base),
        forall|k: int| 0 <= k < names.len() ==> is_plain_name(#[trigger] names[k]),
    ensures
        join_all(base, names) == down(platform, base, names),
        is_absolute(platform, join_all(base, names)),
        components(join_all(base, names)) == components(base) + names.map_values(
            |name: Seq<char>| text_bytes(name),
        ),
        names.len() > 0 ==> !is_separator(join_all(base, names).last()),
    decreases names.len(),
{
    let bytes = |name: Seq<char>| text_bytes(name);
    if names.len() == 0 {
        assert(components(base) + names.map_values(bytes) =~= components(base));
    } else {
        let less = names.drop_last();
        assert forall|k: int| 0 <= k < less.len() implies is_plain_name(#[trigger] less[k]) by {
            assert(less[k] == names[k]);
        }
        lemma_down(platform, base, less);
        let front = join_all(base, less);
        let name = names.last();
        assert(is_plain_name(names[names.len() - 1]));
        lemma_plain_name(name);
        lemma_join_component(front, text_bytes(name));
        lemma_join_stays(front, text_bytes(name));
        assert(components(join_all(base, names)) =~= components(base) + names.map_values(bytes));
    }
}

/// Whether an absolute directory holds no `.` and no `..` in its path.
pub open spec fn is_clean(platform: Platform, dir: Seq<u8>) -> bool {
    &&& is_absolute(platform, dir)
    &&& !components(dir).contains(seq![DOT])
    &&& !components(dir).contains(seq![DOT, DOT])
}

proof fn lemma_clean(platform: Platform, base: Seq<u8>, names: Seq<Seq<char>>)
    requires
        is_clean(platform, base),
        forall|k: int| 0 <= k < names.len() ==> is_plain_name(#[trigger] names[k]),
    ensures
        spelling_error(platform, join_all(base, names)) is None,
{
    lemma_down(platform, base, names);
    let bytes = |name: Seq<char>| text_bytes(name);
    let all = components(join_all(base, names));
    let n = components(base).len();
    assert forall|k: int| 0 <= k < all.len() implies #[trigger] all[k] != seq![DOT] && all[k]
        != seq![DOT, DOT] by {
        if k < n {
            assert(components(base).contains(all[k])) by {
                assert(components(base)[k] == all[k]);
            }
        } else {
            assert(is_plain_name(names[k - n]));
            lemma_plain_name(names[k - n]);
            assert(all[k] == text_bytes(names[k - n]));
        }
    }
}

proof fn lemma_file_names(name: Seq<char>)
    requires
        is_portable(name),
    ensures
        is_plain_name(name),
        is_plain_name("_"@ + name),
        is_plain_name(name + ".fish"@),
        is_plain_name(name + ".ps1"@),
        is_plain_name(name + ".elv"@),
{
    reveal_strlit("_");
    reveal_strlit(".fish");
    reveal_strlit(".ps1");
    reveal_strlit(".elv");
    let z = "_"@ + name;
    assert forall|k: int| 0 <= k < z.len() implies '\0' < #[trigger] z[k] <= '\u{7f}' && z[k] != '/'
        && z[k] != '\\' && z[k] != ':' by {
        if k > 0 {
            assert(z[k] == name[k - 1]);
        }
    }
    assert(z[0] == '_');
    let f = name + ".fish"@;
    assert forall|k: int| 0 <= k < f.len() implies '\0' < #[trigger] f[k] <= '\u{7f}' && f[k] != '/'
        && f[k] != '\\' && f[k] != ':' by {
        if k < name.len() {
            assert(f[k] == name[k]);
        } else {
            assert(f[k] == ".fish"@[k - name.len()]);
        }
    }
    let p = name + ".ps1"@;
    assert forall|k: int| 0 <= k < p.len() implies '\0' < #[trigger] p[k] <= '\u{7f}' && p[k] != '/'
        && p[k] != '\\' && p[k] != ':' by {
        if k < name.len() {
            assert(p[k] == name[k]);
        } else {
            assert(p[k] == ".ps1"@[k - name.len()]);
        }
    }
    let v = name + ".elv"@;
    assert forall|k: int| 0 <= k < v.len() implies '\0' < #[trigger] v[k] <= '\u{7f}' && v[k] != '/'
        && v[k] != '\\' && v[k] != ':' by {
        if k < name.len() {
            assert(v[k] == name[k]);
        } else {
            assert(v[k] == ".elv"@[k - name.len()]);
        }
    }
}

proof fn lemma_join_all(base: Seq<u8>, a: Seq<Seq<char>>, b: Seq<Seq<char>>)
    ensures
        join_all(join_all(base, a), b) == join_all(base, a + b),
    decreases b.len(),
{
    if b.len() == 0 {
        assert(a + b =~= a);
    } else {
        lemma_join_all(base, a, b.drop_last());
        assert((a + b).drop_last() =~= a + b.drop_last());
        assert((a + b).last() == b.last());
    }
}

/// The user's home directory: `HOME`, and on Windows `USERPROFILE` where `HOME` is not set.
pub open spec fn user_home(e: EnvironmentView) -> Option<Seq<u8>> {
    if setting(e, "HOME"@) is Some {
        setting(e, "HOME"@)
    } else if e.platform == Platform::Windows {
        setting(e, "USERPROFILE"@)
    } else {
        None
    }
}

/// The user directory of Windows: `USERPROFILE`, and `HOME` where that is not set.
pub open spec fn profile_home(e: EnvironmentView) -> Option<Seq<u8>> {
    if setting(e, "USERPROFILE"@) is Some {
        setting(e, "USERPROFILE"@)
    } else {
        setting(e, "HOME"@)
    }
}

/// Whether the default location of a completion is the one that the names lead to, down from an
/// absolute directory. Where no `.` and no `..` is on the way, it is accepted.
pub open spec fn goes_to(
    e: EnvironmentView,
    shell: ShellView,
    name: Seq<char>,
    base: Seq<u8>,
    names: Seq<Seq<char>>,
) -> bool {
    let place = down(e.platform, base, names);
    &&& is_absolute(e.platform, base) ==> default_path(e, shell, name) == Ok::<
        Seq<u8>,
        ErrorView,
    >(place)
    &&& is_clean(e.platform, base) ==> default_target(e, shell, name) == Ok::<Seq<u8>, ErrorView>(
        place,
    )
}

/// Whether there is no default location because no home directory is known.
pub open spec fn misses_home(e: EnvironmentView, shell: ShellView, name: Seq<char>) -> bool {
    &&& default_path(e, shell, name) == Err::<Seq<u8>, ErrorView>(ErrorView::MissingHome)
    &&& default_target(e, shell, name) == Err::<Seq<u8>, ErrorView>(ErrorView::MissingHome)
}

proof fn lemma_goes_to(
    e: EnvironmentView,
    shell: ShellView,
    name: Seq<char>,
    base: Seq<u8>,
    names: Seq<Seq<char>>,
)
    requires
        forall|k: int| 0 <= k < names.len() ==> is_plain_name(#[trigger] names[k]),
        default_path(e, shell, name) == Ok::<Seq<u8>, ErrorView>(join_all(base, names)),
    ensures
        goes_to(e, shell, name, base, names),
{
    if is_absolute(e.platform, base) {
        lemma_down(e.platform, base, names);
        if is_clean(e.platform, base) {
            lemma_clean(e.platform, base, names);
        }
    }
}

proof fn lemma_longer_name(name: Seq<char>)
    requires
        name.len() > 2,
        forall|k: int|
            0 <= k < name.len() ==> '\0' < #[trigger] name[k] <= '\u{7f}' && name[k] != '/'
                && name[k] != '\\' && name[k] != ':',
    ensures
        is_plain_name(name),
{
    assert(seq!['.'].len() == 1);
    assert(seq!['.', '.'].len() == 2);
}

proof fn lemma_directory_names()
    ensures
        is_plain_name(".local"@),
        is_plain_name("share"@),
        is_plain_name(".config"@),
        is_plain_name("bash-completion"@),
        is_plain_name("completions"@),
        is_plain_name(".zfunc"@),
        is_plain_name("fish"@),
        is_plain_name("powershell"@),
        is_plain_name("elvish"@),
        is_plain_name("lib"@),
        is_plain_name("shellcomp"@),
        is_plain_name("Documents"@),
        is_plain_name("PowerShell"@),
        is_plain_name("Completions"@),
        is_plain_name("profile.ps1"@),
        is_plain_name(".bashrc"@),
        is_plain_name(".zshrc"@),
        is_plain_name("rc.elv"@),
{
    reveal_strlit(".local");
    lemma_longer_name(".local"@);
    reveal_strlit("share");
    lemma_longer_name("share"@);
    reveal_strlit(".config");
    lemma_longer_name(".config"@);
    reveal_strlit("bash-completion");
    lemma_longer_name("bash-completion"@);
    reveal_strlit("completions");
    lemma_longer_name("completions"@);
    reveal_strlit(".zfunc");
    lemma_longer_name(".zfunc"@);
    reveal_strlit("fish");
    lemma_longer_name("fish"@);
    reveal_strlit("powershell");
    lemma_longer_name("powershell"@);
    reveal_strlit("elvish");
    lemma_longer_name("elvish"@);
    reveal_strlit("lib");
    lemma_longer_name("lib"@);
    reveal_strlit("shellcomp");
    lemma_longer_name("shellcomp"@);
    reveal_strlit("Documents");
    lemma_longer_name("Documents"@);
    reveal_strlit("PowerShell");
    lemma_longer_name("PowerShell"@);
    reveal_strlit("Completions");
    lemma_longer_name("Completions"@);
    reveal_strlit("profile.ps1");
    lemma_longer_name("profile.ps1"@);
    reveal_strlit(".bashrc");
    lemma_longer_name(".bashrc"@);
    reveal_strlit(".zshrc");
    lemma_longer_name(".zshrc"@);
    reveal_strlit("rc.elv");
    lemma_longer_name("rc.elv"@);
}

/// Completions go to the directories in which their shells look: below `XDG_DATA_HOME` for Bash and
/// PowerShell, below `XDG_CONFIG_HOME` for Fish and Elvish, and below `ZDOTDIR` for Zsh. A variable
/// for a base directory counts only where it holds an absolute path; without it the usual directory
/// below the home directory takes its place. On Windows PowerShell has a directory of its own below
/// the user's. Without a home directory to start from there is no default location, and for a shell
/// that is not supported there is never one.
#[verifier::spinoff_prover]
#[verifier::rlimit(40)]
pub proof fn law_completions_have_default_locations(
    e: EnvironmentView,
    name: Seq<char>,
    other: Seq<char>,
)
    requires
        is_portable(name),
    ensures
        match (absolute_setting(e, "XDG_DATA_HOME"@), user_home(e)) {
            (Some(data), _) => goes_to(
                e,
                ShellView::Bash,
                name,
                data,
                seq!["bash-completion"@, "completions"@, name],
            ),
            (None, Some(home)) => goes_to(
                e,
                ShellView::Bash,
                name,
                home,
                seq![".local"@, "share"@, "bash-completion"@, "completions"@, name],
            ),
            (None, None) => misses_home(e, ShellView::Bash, name),
        },
        match (setting(e, "ZDOTDIR"@), user_home(e)) {
            (Some(dir), _) => goes_to(e, ShellView::Zsh, name, dir, seq![".zfunc"@, "_"@ + name]),
            (None, Some(home)) => goes_to(
                e,
                ShellView::Zsh,
                name,
                home,
                seq![".zfunc"@, "_"@ + name],
            ),
            (None, None) => misses_home(e, ShellView::Zsh, name),
        },
        match (absolute_setting(e, "XDG_CONFIG_HOME"@), user_home(e)) {
            (Some(config), _) => {
                &&& goes_to(
                    e,
                    ShellView::Fish,
                    name,
                    config,
                    seq!["fish"@, "completions"@, name + ".fish"@],
                )
                &&& goes_to(
                    e,
                    ShellView::Elvish,
                    name,
                    config,
                    seq!["elvish"@, "lib"@, "shellcomp"@, name + ".elv"@],
                )
            },
            (None, Some(home)) => {
                &&& goes_to(
                    e,
                    ShellView::Fish,
                    name,
                    home,
                    seq![".config"@, "fish"@, "completions"@, name + ".fish"@],
                )
                &&& goes_to(
                    e,
                    ShellView::Elvish,
                    name,
                    home,
                    seq![".config"@, "elvish"@, "lib"@, "shellcomp"@, name + ".elv"@],
                )
            },
            (None, None) => misses_home(e, ShellView::Fish, name) && misses_home(
                e,
                ShellView::Elvish,
                name,
            ),
        },
        e.platform != Platform::Windows ==> match (
            absolute_setting(e, "XDG_DATA_HOME"@),
            user_home(e),
        ) {
            (Some(data), _) => goes_to(
                e,
                ShellView::Powershell,
                name,
                data,
                seq!["powershell"@, "completions"@, name + ".ps1"@],
            ),
            (None, Some(home)) => goes_to(
                e,
                ShellView::Powershell,
                name,
                home,
                seq![".local"@, "share"@, "powershell"@, "completions"@, name + ".ps1"@],
            ),
            (None, None) => misses_home(e, ShellView::Powershell, name),
        },
        e.platform == Platform::Windows ==> match profile_home(e) {
            Some(home) => goes_to(
                e,
                ShellView::Powershell,
                name,
                home,
                seq!["Documents"@, "PowerShell"@, "Completions"@, name + ".ps1"@],
            ),
            None => misses_home(e, ShellView::Powershell, name),
        },
        default_target(e, ShellView::Other(other), name) == Err::<Seq<u8>, ErrorView>(
            ErrorView::UnsupportedShell { shell: ShellView::Other(other) },
        ),
{
    law_portable_names_are_accepted(name);
    lemma_file_names(name);
    lemma_directory_names();
    lemma_bash_location(e, name);
    lemma_zsh_location(e, name);
    lemma_fish_location(e, name);
    lemma_elvish_location(e, name);
    lemma_powershell_location(e, name);
}

proof fn lemma_bash_location(e: EnvironmentView, name: Seq<char>)
    requires
        program_name_error(name) is None,
        is_portable(name),
    ensures
        match (absolute_setting(e, "XDG_DATA_HOME"@), user_home(e)) {
            (Some(data), _) => goes_to(
                e,
                ShellView::Bash,
                name,
                data,
                seq!["bash-completion"@, "completions"@, name],
            ),
            (None, Some(home)) => goes_to(
                e,
                ShellView::Bash,
                name,
                home,
                seq![".local"@, "share"@, "bash-completion"@, "completions"@, name],
            ),
            (None, None) => misses_home(e, ShellView::Bash, name),
        },
{
    lemma_file_names(name);
    lemma_directory_names();
    let last = seq!["bash-completion"@, "completions"@, name];
    match (absolute_setting(e, "XDG_DATA_HOME"@), user_home(e)) {
        (Some(data), _) => {
            lemma_goes_to(e, ShellView::Bash, name, data, last);
        },
        (None, Some(home)) => {
            let all = seq![".local"@, "share"@, "bash-completion"@, "completions"@, name];
            lemma_join_all(home, seq![".local"@, "share"@], last);
            assert(seq![".local"@, "share"@] + last =~= all);
            lemma_goes_to(e, ShellView::Bash, name, home, all);
        },
        _ => {},
    }
}

proof fn lemma_zsh_location(e: EnvironmentView, name: Seq<char>)
    requires
        program_name_error(name) is None,
        is_portable(name),
    ensures
        match (setting(e, "ZDOTDIR"@), user_home(e)) {
            (Some(dir), _) => goes_to(e, ShellView::Zsh, name, dir, seq![".zfunc"@, "_"@ + name]),
            (None, Some(home)) => goes_to(
                e,
                ShellView::Zsh,
                name,
                home,
                seq![".zfunc"@, "_"@ + name],
            ),
            (None, None) => misses_home(e, ShellView::Zsh, name),
        },
{
    lemma_file_names(name);
    lemma_directory_names();
    let last = seq![".zfunc"@, "_"@ + name];
    match (setting(e, "ZDOTDIR"@), user_home(e)) {
        (Some(dir), _) => {
            lemma_goes_to(e, ShellView::Zsh, name, dir, last);
        },
        (None, Some(home)) => {
            lemma_goes_to(e, ShellView::Zsh, name, home, last);
        },
        _ => {},
    }
}

proof fn lemma_fish_location(e: EnvironmentView, name: Seq<char>)
    requires
        program_name_error(name) is None,
        is_portable(name),
    ensures
        match (absolute_setting(e, "XDG_CONFIG_HOME"@), user_home(e)) {
            (Some(config), _) => goes_to(
                e,
                ShellView::Fish,
                name,
                config,
                seq!["fish"@, "completions"@, name + ".fish"@],
            ),
            (None, Some(home)) => goes_to(
                e,
                ShellView::Fish,
                name,
                home,
                seq![".config"@, "fish"@, "completions"@, name + ".fish"@],
            ),
            (None, None) => misses_home(e, ShellView::Fish, name),
        },
{
    lemma_file_names(name);
    lemma_directory_names();
    let last = seq!["fish"@, "completions"@, name + ".fish"@];
    match (absolute_setting(e, "XDG_CONFIG_HOME"@), user_home(e)) {
        (Some(config), _) => {
            lemma_goes_to(e, ShellView::Fish, name, config, last);
        },
        (None, Some(home)) => {
            let all = seq![".config"@, "fish"@, "completions"@, name + ".fish"@];
            lemma_join_all(home, seq![".config"@], last);
            assert(seq![".config"@] + last =~= all);
            lemma_goes_to(e, ShellView::Fish, name, home, all);
        },
        _ => {},
    }
}

proof fn lemma_elvish_location(e: EnvironmentView, name: Seq<char>)
    requires
        program_name_error(name) is None,
        is_portable(name),
    ensures
        match (absolute_setting(e, "XDG_CONFIG_HOME"@), user_home(e)) {
            (Some(config), _) => goes_to(
                e,
                ShellView::Elvish,
                name,
                config,
                seq!["elvish"@, "lib"@, "shellcomp"@, name + ".elv"@],
            ),
            (None, Some(home)) => goes_to(
                e,
                ShellView::Elvish,
                name,
                home,
                seq![".config"@, "elvish"@, "lib"@, "shellcomp"@, name + ".elv"@],
            ),
            (None, None) => misses_home(e, ShellView::Elvish, name),
        },
{
    lemma_file_names(name);
    lemma_directory_names();
    let last = seq!["elvish"@, "lib"@, "shellcomp"@, name + ".elv"@];
    match (absolute_setting(e, "XDG_CONFIG_HOME"@), user_home(e)) {
        (Some(config), _) => {
            lemma_goes_to(e, ShellView::Elvish, name, config, last);
        },
        (None, Some(home)) => {
            let all = seq![".config"@, "elvish"@, "lib"@, "shellcomp"@, name + ".elv"@];
            lemma_join_all(home, seq![".config"@], last);
            assert(seq![".config"@] + last =~= all);
            lemma_goes_to(e, ShellView::Elvish, name, home, all);
        },
        _ => {},
    }
}

proof fn lemma_powershell_location(e: EnvironmentView, name: Seq<char>)
    requires
        program_name_error(name) is None,
        is_portable(name),
    ensures
        e.platform != Platform::Windows ==> match (
            absolute_setting(e, "XDG_DATA_HOME"@),
            user_home(e),
        ) {
            (Some(data), _) => goes_to(
                e,
                ShellView::Powershell,
                name,
                data,
                seq!["powershell"@, "completions"@, name + ".ps1"@],
            ),
            (None, Some(home)) => goes_to(
                e,
                ShellView::Powershell,
                name,
                home,
                seq![".local"@, "share"@, "powershell"@, "completions"@, name + ".ps1"@],
            ),
            (None, None) => misses_home(e, ShellView::Powershell, name),
        },
        e.platform == Platform::Windows ==> match profile_home(e) {
            Some(home) => goes_to(
                e,
                ShellView::Powershell,
                name,
                home,
                seq!["Documents"@, "PowerShell"@, "Completions"@, name + ".ps1"@],
            ),
            None => misses_home(e, ShellView::Powershell, name),
        },
{
    lemma_file_names(name);
    lemma_directory_names();
    let file = seq![name + ".ps1"@];
    if e.platform == Platform::Windows {
        match profile_home(e) {
            Some(home) => {
                let dirs = seq!["Documents"@, "PowerShell"@, "Completions"@];
                let all = seq!["Documents"@, "PowerShell"@, "Completions"@, name + ".ps1"@];
                lemma_join_all(home, dirs, file);
                assert(dirs + file =~= all);
                lemma_goes_to(e, ShellView::Powershell, name, home, all);
            },
            None => {},
        }
    } else {
        let dirs = seq!["powershell"@, "completions"@];
        let last = seq!["powershell"@, "completions"@, name + ".ps1"@];
        assert(dirs + file =~= last);
        match (absolute_setting(e, "XDG_DATA_HOME"@), user_home(e)) {
            (Some(data), _) => {
                lemma_join_all(data, dirs, file);
                lemma_goes_to(e, ShellView::Powershell, name, data, last);
            },
            (None, Some(home)) => {
                let base = seq![".local"@, "share"@];
                let all = seq![".local"@, "share"@, "powershell"@, "completions"@, name + ".ps1"@];
                lemma_join_all(join_all(home, base), dirs, file);
                lemma_join_all(home, base, last);
                assert(base + last =~= all);
                lemma_goes_to(e, ShellView::Powershell, name, home, all);
            },
            _ => {},
        }
    }
}

/// Whether the startup file of a shell is the one that the names lead to, down from a directory;
/// without the directory none is known.
pub open spec fn starts_at(
    e: EnvironmentView,
    shell: ShellView,
    base: Option<Seq<u8>>,
    names: Seq<Seq<char>>,
) -> bool {
    match base {
        Some(dir) => is_absolute(e.platform, dir) ==> startup_file(e, shell) == Ok::<
            Option<Seq<u8>>,
            ErrorView,
        >(Some(down(e.platform, dir, names))),
        None => startup_file(e, shell) == Err::<Option<Seq<u8>>, ErrorView>(
            ErrorView::MissingHome,
        ),
    }
}

/// The startup files that the library manages are the ones that the shells read: `.bashrc` in the
/// home directory, `.zshrc` in `ZDOTDIR` or else there, `elvish/rc.elv` in the directory for
/// configuration files, and PowerShell's profile for all hosts, which on Windows is below the
/// user's documents and elsewhere below `.config` whatever `XDG_CONFIG_HOME` says. Fish has none.
#[verifier::spinoff_prover]
#[verifier::rlimit(40)]
pub proof fn law_startup_files_are_those_of_the_shells(e: EnvironmentView, other: Seq<char>)
    ensures
        starts_at(e, ShellView::Bash, user_home(e), seq![".bashrc"@]),
        starts_at(
            e,
            ShellView::Zsh,
            if setting(e, "ZDOTDIR"@) is Some {
                setting(e, "ZDOTDIR"@)
            } else {
                user_home(e)
            },
            seq![".zshrc"@],
        ),
        if absolute_setting(e, "XDG_CONFIG_HOME"@) is Some {
            starts_at(
                e,
                ShellView::Elvish,
                absolute_setting(e, "XDG_CONFIG_HOME"@),
                seq!["elvish"@, "rc.elv"@],
            )
        } else {
            starts_at(
                e,
                ShellView::Elvish,
                user_home(e),
                seq![".config"@, "elvish"@, "rc.elv"@],
            )
        },
        if e.platform == Platform::Windows {
            starts_at(
                e,
                ShellView::Powershell,
                profile_home(e),
                seq!["Documents"@, "PowerShell"@, "profile.ps1"@],
            )
        } else {
            starts_at(
                e,
                ShellView::Powershell,
                user_home(e),
                seq![".config"@, "powershell"@, "profile.ps1"@],
            )
        },
        startup_file(e, ShellView::Fish) == Ok::<Option<Seq<u8>>, ErrorView>(None),
        startup_file(e, ShellView::Other(other)) == Ok::<Option<Seq<u8>>, ErrorView>(None),
{
    lemma_directory_names();
    lemma_starts_at(e, user_home(e), seq![".bashrc"@]);
    let zsh = if setting(e, "ZDOTDIR"@) is Some {
        setting(e, "ZDOTDIR"@)
    } else {
        user_home(e)
    };
    lemma_starts_at(e, zsh, seq![".zshrc"@]);
    lemma_starts_at(e, absolute_setting(e, "XDG_CONFIG_HOME"@), seq!["elvish"@, "rc.elv"@]);
    lemma_starts_at(e, user_home(e), seq![".config"@, "elvish"@, "rc.elv"@]);
    match user_home(e) {
        Some(home) => {
            lemma_join_all(home, seq![".config"@], seq!["elvish"@, "rc.elv"@]);
            assert(seq![".config"@] + seq!["elvish"@, "rc.elv"@] =~= seq![
                ".config"@,
                "elvish"@,
                "rc.elv"@,
            ]);
        },
        None => {},
    }
    lemma_starts_at(e, profile_home(e), seq!["Documents"@, "PowerShell"@, "profile.ps1"@]);
    lemma_starts_at(e, user_home(e), seq![".config"@, "powershell"@, "profile.ps1"@]);
}

proof fn lemma_starts_at(e: EnvironmentView, base: Option<Seq<u8>>, names: Seq<Seq<char>>)
    requires
        forall|k: int| 0 <= k < names.len() ==> is_plain_name(#[trigger] names[k]),
    ensures
        base matches Some(dir) ==> is_absolute(e.platform, dir) ==> join_all(dir, names) == down(
            e.platform,
            dir,
            names,
        ),
{
    match base {
        Some(dir) => {
            if is_absolute(e.platform, dir) {
                lemma_down(e.platform, dir, names);
            }
        },
        None => {},
    }
}

/// What is accepted as a default location is absolute and holds neither `.` nor `..`, and is the
/// default location.
#[verifier::spinoff_prover]
#[verifier::rlimit(40)]
pub proof fn law_default_locations_are_clean(e: EnvironmentView, shell: ShellView, name: Seq<char>)
    ensures
        default_target(e, shell, name) matches Ok(path) ==> is_clean(e.platform, path)
            && default_path(e, shell, name) == Ok::<Seq<u8>, ErrorView>(path),
        default_path(e, shell, name) matches Ok(path) ==> if is_clean(e.platform, path) {
            default_target(e, shell, name) == Ok::<Seq<u8>, ErrorView>(path)
        } else {
            default_target(e, shell, name) matches Err(ErrorView::InvalidTargetPath { path: named, .. })
                && named == path
        },
{
}

} // verus!

//! Which names and paths the library accepts, and where completions and startup files go.
use vstd::prelude::*;

use crate::disk::{inspect_link, Content, Disk, DiskView};
use crate::environment::{
    below, home_dir, join1, join2, join3, join4, path_result, powershell_dir, powershell_profile,
    xdg_config_home, xdg_data_home, zdotdir, Environment, EnvironmentView, Platform,
};
use crate::error::{Error, ErrorView, IoErrorKind};
use crate::model::{opt_path, Shell, ShellView};
use crate::path::{
    below_root_name, components, is_absolute, parent, plain_join, same_path, FilePath, DOT,
};
use crate::text;

verus! {

/// The characters of a program name.
pub open spec fn is_name_char(c: char) -> bool {
    ||| 'a' <= c <= 'z'
    ||| 'A' <= c <= 'Z'
    ||| '0' <= c <= '9'
    ||| c == '.'
    ||| c == '_'
    ||| c == '-'
}

/// Why a program name is rejected.
pub open spec fn program_name_error(name: Seq<char>) -> Option<ErrorView> {
    if name.len() == 0 {
        Some(ErrorView::EmptyProgramName)
    } else if (exists|k: int| 0 <= k < name.len() && !is_name_char(#[trigger] name[k])) || name
        == "."@ || name == ".."@ {
        Some(ErrorView::InvalidProgramName { program_name: name })
    } else {
        None
    }
}

/// The view of an outcome without a value.
pub open spec fn unit_error(r: Result<(), Error>) -> Option<ErrorView> {
    match r {
        Ok(_) => None,
        Err(error) => Some(error@),
    }
}

/// Accepts a program name, or says why not.
pub fn validate_program_name(program_name: &str) -> (r: Result<(), Error>)
    ensures
        unit_error(r) == program_name_error(program_name@),
{
    let chars = text::to_chars(program_name);
    if chars.len() == 0 {
        return Err(Error::EmptyProgramName);
    }
    let mut i: usize = 0;
    while i < chars.len()
        invariant
            i <= chars@.len(),
            chars@ == program_name@,
            chars@.len() > 0,
            forall|k: int| 0 <= k < i ==> is_name_char(#[trigger] chars@[k]),
        decreases chars.len() - i,
    {
        let c = chars[i];
        let safe = ('a' <= c && c <= 'z') || ('A' <= c && c <= 'Z') || ('0' <= c && c <= '9') || c
            == '.' || c == '_' || c == '-';
        if !safe {
            assert(!is_name_char(program_name@[i as int]));
            return Err(Error::InvalidProgramName { program_name: text::copy(program_name) });
        }
        i += 1;
    }
    if text::same(program_name, ".") || text::same(program_name, "..") {
        return Err(Error::InvalidProgramName { program_name: text::copy(program_name) });
    }
    Ok(())
}

/// The file name of a completion script.
pub open spec fn completion_file_name(shell: ShellView, name: Seq<char>) -> Seq<char> {
    match shell {
        ShellView::Zsh => "_"@ + name,
        ShellView::Fish => name + ".fish"@,
        ShellView::Powershell => name + ".ps1"@,
        ShellView::Elvish => name + ".elv"@,
        _ => name,
    }
}

/// The managed default location of a completion script.
pub open spec fn default_path(e: EnvironmentView, shell: ShellView, name: Seq<char>) -> Result<
    Seq<u8>,
    ErrorView,
> {
    match program_name_error(name) {
        Some(error) => Err(error),
        None => {
            let file = completion_file_name(shell, name);
            match shell {
                ShellView::Bash => below(
                    xdg_data_home(e),
                    seq!["bash-completion"@, "completions"@, file],
                ),
                ShellView::Zsh => below(zdotdir(e), seq![".zfunc"@, file]),
                ShellView::Fish => below(xdg_config_home(e), seq!["fish"@, "completions"@, file]),
                ShellView::Powershell => below(powershell_dir(e), seq![file]),
                ShellView::Elvish => below(
                    xdg_config_home(e),
                    seq!["elvish"@, "lib"@, "shellcomp"@, file],
                ),
                ShellView::Other(_) => Err(ErrorView::UnsupportedShell { shell }),
            }
        },
    }
}

/// The managed default location of a completion script.
pub fn default_install_path(env: &Environment, shell: &Shell, program_name: &str) -> (r: Result<
    FilePath,
    Error,
>)
    ensures
        path_result(r) == default_path(env@, shell@, program_name@),
{
    validate_program_name(program_name)?;
    match shell {
        Shell::Bash => {
            let base = env.xdg_data_home()?;
            Ok(join3(&base, "bash-completion", "completions", program_name))
        },
        Shell::Zsh => {
            let base = env.zdotdir()?;
            Ok(join2(&base, ".zfunc", &text::concat2("_", program_name)))
        },
        Shell::Fish => {
            let base = env.xdg_config_home()?;
            Ok(join3(&base, "fish", "completions", &text::concat2(program_name, ".fish")))
        },
        Shell::Powershell => {
            let base = env.powershell_default_install_dir()?;
            Ok(join1(&base, &text::concat2(program_name, ".ps1")))
        },
        Shell::Elvish => {
            let base = env.xdg_config_home()?;
            Ok(join4(&base, "elvish", "lib", "shellcomp", &text::concat2(program_name, ".elv")))
        },
        Shell::Other(_) => Err(Error::UnsupportedShell(shell.copy())),
    }
}

pub open spec fn bashrc(e: EnvironmentView) -> Result<Seq<u8>, ErrorView> {
    below(home_dir(e), seq![".bashrc"@])
}

pub open spec fn zshrc(e: EnvironmentView) -> Result<Seq<u8>, ErrorView> {
    below(zdotdir(e), seq![".zshrc"@])
}

pub open spec fn rc_elv(e: EnvironmentView) -> Result<Seq<u8>, ErrorView> {
    below(xdg_config_home(e), seq!["elvish"@, "rc.elv"@])
}

/// The startup file of a shell, where it has one that the library manages.
pub open spec fn startup_file(e: EnvironmentView, shell: ShellView) -> Result<
    Option<Seq<u8>>,
    ErrorView,
> {
    match shell {
        ShellView::Bash => some_path(bashrc(e)),
        ShellView::Zsh => some_path(zshrc(e)),
        ShellView::Powershell => some_path(powershell_profile(e)),
        ShellView::Elvish => some_path(rc_elv(e)),
        _ => Ok(None),
    }
}

pub open spec fn some_path(path: Result<Seq<u8>, ErrorView>) -> Result<
    Option<Seq<u8>>,
    ErrorView,
> {
    match path {
        Ok(p) => Ok(Some(p)),
        Err(error) => Err(error),
    }
}

/// The startup file of a shell, where it has one that the library manages.
pub fn startup_path(env: &Environment, shell: &Shell) -> (r: Result<Option<FilePath>, Error>)
    ensures
        (match r {
            Ok(path) => Ok::<Option<Seq<u8>>, ErrorView>(opt_path(path)),
            Err(error) => Err::<Option<Seq<u8>>, ErrorView>(error@),
        }) == startup_file(env@, shell@),
{
    match shell {
        Shell::Bash => {
            let file = bashrc_path(env)?;
            Ok(Some(file))
        },
        Shell::Zsh => {
            let file = zshrc_path(env)?;
            Ok(Some(file))
        },
        Shell::Powershell => {
            let file = env.powershell_profile_path()?;
            Ok(Some(file))
        },
        Shell::Elvish => {
            let file = rc_elv_path(env)?;
            Ok(Some(file))
        },
        _ => Ok(None),
    }
}

/// The startup file of Bash.
pub fn bashrc_path(env: &Environment) -> (r: Result<FilePath, Error>)
    ensures
        path_result(r) == bashrc(env@),
{
    let home = env.home_dir()?;
    Ok(join1(&home, ".bashrc"))
}

/// The startup file of Zsh.
pub fn zshrc_path(env: &Environment) -> (r: Result<FilePath, Error>)
    ensures
        path_result(r) == zshrc(env@),
{
    let dir = env.zdotdir()?;
    Ok(join1(&dir, ".zshrc"))
}

/// The startup file of Elvish.
pub fn rc_elv_path(env: &Environment) -> (r: Result<FilePath, Error>)
    ensures
        path_result(r) == rc_elv(env@),
{
    let dir = env.xdg_config_home()?;
    Ok(join2(&dir, "elvish", "rc.elv"))
}

/// The directories that macOS reaches through links of its own, with the places they lead to.
pub open spec fn macos_aliases() -> Seq<(Seq<char>, Seq<char>)> {
    seq![("var"@, "/private/var"@), ("tmp"@, "/private/tmp"@), ("etc"@, "/private/etc"@)]
}

/// The place below `/private` that a path below one of the first `count` aliases names.
pub open spec fn physical_below(path: Seq<u8>, from: int) -> Seq<u8>
    decreases macos_aliases().len() - from,
{
    if from < 0 || from >= macos_aliases().len() {
        path
    } else {
        match below_root_name(path, text::text_bytes(macos_aliases()[from].0)) {
            Some(rest) => plain_join(text::text_bytes(macos_aliases()[from].1), rest),
            None => physical_below(path, from + 1),
        }
    }
}

/// The one path that stands for a place which macOS lets be reached in two ways.
pub open spec fn macos_identity(path: Seq<u8>) -> Seq<u8> {
    physical_below(path, 0)
}

pub open spec fn identity(platform: Platform, path: Seq<u8>) -> Seq<u8> {
    if platform == Platform::MacOs {
        macos_identity(path)
    } else {
        path
    }
}

/// The one path that stands for a place which macOS lets be reached in two ways.
pub fn macos_path_identity(path: &FilePath) -> (r: FilePath)
    ensures
        r@ == macos_identity(path@),
{
    proof {
        reveal_with_fuel(physical_below, 4);
    }
    match path.below_root_name("var") {
        Some(rest) => {
            return FilePath::from_text("/private/var").join_plain(&rest);
        },
        None => {},
    }
    match path.below_root_name("tmp") {
        Some(rest) => {
            return FilePath::from_text("/private/tmp").join_plain(&rest);
        },
        None => {},
    }
    match path.below_root_name("etc") {
        Some(rest) => {
            return FilePath::from_text("/private/etc").join_plain(&rest);
        },
        None => {},
    }
    path.copy()
}

/// The one path that stands for a place on the given platform.
pub fn path_identity(platform: Platform, path: &FilePath) -> (r: FilePath)
    ensures
        r@ == identity(platform, path@),
{
    match platform {
        Platform::MacOs => macos_path_identity(path),
        _ => path.copy(),
    }
}

/// Whether a link is one of the system's own and leads where the system lets it lead.
pub open spec fn alias_from(path: Seq<u8>, link: Seq<u8>, from: int) -> bool
    decreases macos_aliases().len() - from,
{
    if from < 0 || from >= macos_aliases().len() {
        false
    } else if same_path(path, text::text_bytes("/"@ + macos_aliases()[from].0)) {
        same_path(
            plain_join(text::text_bytes("/"@), link),
            text::text_bytes(macos_aliases()[from].1),
        )
    } else {
        alias_from(path, link, from + 1)
    }
}

pub open spec fn is_system_alias(path: Seq<u8>, link: Seq<u8>) -> bool {
    alias_from(path, link, 0)
}

fn is_system_directory_alias(path: &FilePath, link: &FilePath) -> (r: bool)
    ensures
        r == is_system_alias(path@, link@),
{
    proof {
        reveal_with_fuel(alias_from, 4);
    }
    let target = FilePath::from_text("/").join_plain(link);
    if path.same(&FilePath::from_text(&text::concat2("/", "var"))) {
        return target.same(&FilePath::from_text("/private/var"));
    }
    if path.same(&FilePath::from_text(&text::concat2("/", "tmp"))) {
        return target.same(&FilePath::from_text("/private/tmp"));
    }
    if path.same(&FilePath::from_text(&text::concat2("/", "etc"))) {
        return target.same(&FilePath::from_text("/private/etc"));
    }
    false
}

/// Why a path is rejected by its spelling alone.
pub open spec fn spelling_error(platform: Platform, path: Seq<u8>) -> Option<ErrorView> {
    if !is_absolute(platform, path) {
        Some(
            ErrorView::InvalidTargetPath { path, reason: "target path must be absolute"@ },
        )
    } else if components(path).contains(seq![DOT]) || components(path).contains(seq![DOT, DOT]) {
        Some(
            ErrorView::InvalidTargetPath { path, reason: "target path must be normalized"@ },
        )
    } else {
        None
    }
}

fn has_name(names: &Vec<Vec<u8>>, name: &Vec<u8>) -> (r: bool)
    ensures
        r == crate::path::byte_views(names@).contains(name@),
{
    let ghost views = crate::path::byte_views(names@);
    let mut i: usize = 0;
    while i < names.len()
        invariant
            i <= names@.len(),
            views == crate::path::byte_views(names@),
            forall|k: int| 0 <= k < i ==> #[trigger] views[k] != name@,
        decreases names.len() - i,
    {
        if text::same_bytes(&names[i], name) {
            assert(views[i as int] == name@);
            return true;
        }
        assert(views[i as int] == names@[i as int]@);
        i += 1;
    }
    assert(views.len() == names@.len());
    false
}

/// Whether a path is spelled as a target path must be.
pub fn validate_spelling(platform: Platform, path: &FilePath) -> (r: Result<(), Error>)
    ensures
        unit_error(r) == spelling_error(platform, path@),
{
    if !path.is_absolute(platform) {
        return Err(
            Error::InvalidTargetPath { path: path.copy(), reason: "target path must be absolute" },
        );
    }
    let names = path.components();
    let mut current: Vec<u8> = Vec::new();
    current.push(DOT);
    assert(current@ =~= seq![DOT]);
    let mut up: Vec<u8> = Vec::new();
    up.push(DOT);
    up.push(DOT);
    assert(up@ =~= seq![DOT, DOT]);
    if has_name(&names, &current) || has_name(&names, &up) {
        return Err(
            Error::InvalidTargetPath {
                path: path.copy(),
                reason: "target path must be normalized",
            },
        );
    }
    Ok(())
}

proof fn lemma_trim_tail_len(b: Seq<u8>)
    ensures
        crate::path::trim_tail(b).len() <= b.len(),
    decreases b.len(),
{
    if b.len() > crate::path::body_start(b) && crate::path::is_filler(crate::path::last_segment(b))
        && crate::path::before_last_segment(b).len() < b.len() {
        lemma_trim_tail_len(crate::path::before_last_segment(b));
    }
}

proof fn lemma_segment_start_range(b: Seq<u8>, from: int, to: int)
    requires
        0 <= from <= to <= b.len(),
    ensures
        from <= crate::path::segment_start(b, from, to) <= to,
    decreases to - from,
{
    if from < to && b[to - 1] != crate::path::SLASH {
        lemma_segment_start_range(b, from, to - 1);
    }
}

/// A parent is shorter than the path it belongs to.
pub proof fn lemma_parent_len(b: Seq<u8>)
    ensures
        parent(b) matches Some(p) ==> p.len() < b.len(),
{
    let s = crate::path::spelled(b);
    crate::path::lemma_prefix_len(s);
    lemma_plain_parent_len(b);
    lemma_plain_parent_len(crate::path::tail(s));
}

/// The same for a path without a drive.
pub proof fn lemma_plain_parent_len(b: Seq<u8>)
    ensures
        crate::path::plain_parent(b) matches Some(p) ==> p.len() < b.len(),
{
    let t = crate::path::trim_tail(b);
    lemma_trim_tail_len(b);
    if t.len() > crate::path::body_start(t) {
        lemma_segment_start_range(t, crate::path::body_start(t), t.len() as int);
        lemma_trim_tail_len(crate::path::before_last_segment(t));
    }
}

/// A path and the directories above it, one after the other.
pub open spec fn ancestors(path: Seq<u8>) -> Seq<Seq<u8>>
    decreases path.len(),
    via ancestors_shrink
{
    match parent(path) {
        Some(up) => seq![path] + ancestors(up),
        None => seq![path],
    }
}

#[via_fn]
proof fn ancestors_shrink(path: Seq<u8>) {
    lemma_parent_len(path);
}

pub open spec fn invalid_target(path: Seq<u8>, reason: Seq<char>) -> Option<ErrorView> {
    Some(ErrorView::InvalidTargetPath { path, reason })
}

/// What one entry on the way to a target has against it. `physical` is what the place that a
/// link of the system leads to has against it, where such links count.
pub open spec fn objection(
    d: DiskView,
    path: Seq<u8>,
    candidate: Seq<u8>,
    is_target: bool,
    aliases: bool,
    physical: Option<ErrorView>,
) -> Option<ErrorView> {
    match inspect_link(d, candidate) {
        Ok(node) => match node.link {
            Some(link) => if aliases && !is_target && is_system_alias(candidate, link) {
                physical
            } else {
                invalid_target(path, "target path must not be a symbolic link"@)
            },
            None => if is_target {
                if node.content is File || node.content is Directory {
                    None
                } else {
                    invalid_target(path, "target path must be a regular file"@)
                }
            } else if node.content is Directory {
                None
            } else {
                invalid_target(path, "target path parent is not a directory"@)
            },
        },
        Err(error) => if error.kind == IoErrorKind::NotADirectory {
            invalid_target(path, "target path parent is not a directory"@)
        } else if error.kind == IoErrorKind::NotFound {
            None
        } else {
            Some(ErrorView::Io { action: "inspect path"@, path: candidate, source: error })
        },
    }
}

/// The first objection on the way up, from the given ancestor on.
pub open spec fn first_objection(
    d: DiskView,
    path: Seq<u8>,
    from: int,
    aliases: bool,
    physical: Option<ErrorView>,
) -> Option<ErrorView>
    decreases ancestors(path).len() - from,
{
    if from < 0 || from >= ancestors(path).len() {
        None
    } else {
        match objection(d, path, ancestors(path)[from], from == 0, aliases, physical) {
            Some(error) => Some(error),
            None => first_objection(d, path, from + 1, aliases, physical),
        }
    }
}

/// Why a target is rejected on a system without links of its own.
pub open spec fn plain_target_error(platform: Platform, d: DiskView, path: Seq<u8>) -> Option<
    ErrorView,
> {
    match spelling_error(platform, path) {
        Some(error) => Some(error),
        None => first_objection(d, path, 0, false, None),
    }
}

/// Why a target is rejected: it is not absolute or not normalized, it or a directory above it
/// is a link, it is no regular file, or something above it is no directory.
pub open spec fn target_error(platform: Platform, d: DiskView, path: Seq<u8>) -> Option<
    ErrorView,
> {
    match spelling_error(platform, path) {
        Some(error) => Some(error),
        None => first_objection(
            d,
            path,
            0,
            platform == Platform::MacOs,
            plain_target_error(platform, d, macos_identity(path)),
        ),
    }
}

fn check_target(platform: Platform, disk: &Disk, path: &FilePath, aliases: bool) -> (r: Result<
    (),
    Error,
>)
    requires
        aliases ==> platform == Platform::MacOs,
    ensures
        aliases ==> unit_error(r) == target_error(platform, disk@, path@),
        !aliases ==> unit_error(r) == plain_target_error(platform, disk@, path@),
    decreases (if aliases {
        1int
    } else {
        0
    }),
{
    validate_spelling(platform, path)?;
    let ghost physical = if aliases {
        plain_target_error(platform, disk@, macos_identity(path@))
    } else {
        None
    };
    let mut candidate = path.copy();
    let mut is_target = true;
    let ghost mut n: int = 0;
    assert(ancestors(path@)[0] == path@);
    assert(ancestors(path@).skip(0) =~= ancestors(candidate@));
    loop
        invariant
            0 <= n < ancestors(path@).len(),
            is_target == (n == 0),
            ancestors(path@).skip(n) == ancestors(candidate@),
            aliases ==> platform == Platform::MacOs,
            spelling_error(platform, path@) is None,
            physical == (if aliases {
                plain_target_error(platform, disk@, macos_identity(path@))
            } else {
                None
            }),
            first_objection(disk@, path@, 0, aliases, physical) == first_objection(
                disk@,
                path@,
                n,
                aliases,
                physical,
            ),
        decreases candidate@.len(),
    {
        proof {
            assert(ancestors(candidate@)[0] == candidate@);
            assert(ancestors(path@)[n] == ancestors(path@).skip(n)[0]);
        }
        match disk.inspect_link(&candidate) {
            Ok(node) => match &node.link {
                Some(link) => if aliases && !is_target && is_system_directory_alias(
                    &candidate,
                    link,
                ) {
                    check_target(platform, disk, &macos_path_identity(path), false)?;
                } else {
                    return Err(
                        Error::InvalidTargetPath {
                            path: path.copy(),
                            reason: "target path must not be a symbolic link",
                        },
                    );
                },
                None => {
                    let good = match node.content {
                        Content::File(_) => is_target,
                        Content::Directory => true,
                        _ => false,
                    };
                    if !good {
                        return Err(
                            Error::InvalidTargetPath {
                                path: path.copy(),
                                reason: if is_target {
                                    "target path must be a regular file"
                                } else {
                                    "target path parent is not a directory"
                                },
                            },
                        );
                    }
                },
            },
            Err(error) => match error.kind {
                IoErrorKind::NotADirectory => {
                    return Err(
                        Error::InvalidTargetPath {
                            path: path.copy(),
                            reason: "target path parent is not a directory",
                        },
                    );
                },
                IoErrorKind::NotFound => {},
                _ => {
                    return Err(Error::io("inspect path", &candidate, error));
                },
            },
        }
        proof {
            lemma_parent_len(candidate@);
        }
        match candidate.parent() {
            Some(up) => {
                proof {
                    assert(ancestors(candidate@) == seq![candidate@] + ancestors(up@));
                    assert(ancestors(path@).skip(n + 1) =~= ancestors(path@).skip(n).skip(1));
                    assert((seq![candidate@] + ancestors(up@)).skip(1) =~= ancestors(up@));
                    assert(ancestors(up@).len() > 0);
                    n = n + 1;
                }
                candidate = up;
                is_target = false;
            },
            None => {
                proof {
                    assert(ancestors(candidate@).len() == 1);
                    assert(ancestors(path@).len() == n + 1);
                    assert(first_objection(disk@, path@, n + 1, aliases, physical) is None);
                }
                return Ok(());
            },
        }
    }
}

/// Accepts a target path, or says why not.
pub fn validate_target_path(platform: Platform, disk: &Disk, path: &FilePath) -> (r: Result<
    (),
    Error,
>)
    ensures
        unit_error(r) == target_error(platform, disk@, path@),
{
    match platform {
        Platform::MacOs => check_target(platform, disk, path, true),
        _ => {
            proof {
                lemma_physical_unused(
                    disk@,
                    path@,
                    0,
                    None,
                    plain_target_error(platform, disk@, macos_identity(path@)),
                );
            }
            check_target(platform, disk, path, false)
        },
    }
}

/// Without links of the system it does not matter where they would lead.
pub proof fn lemma_physical_unused(
    d: DiskView,
    path: Seq<u8>,
    from: int,
    a: Option<ErrorView>,
    b: Option<ErrorView>,
)
    requires
        0 <= from,
    ensures
        first_objection(d, path, from, false, a) == first_objection(d, path, from, false, b),
    decreases ancestors(path).len() - from,
{
    if from < ancestors(path).len() {
        lemma_physical_unused(d, path, from + 1, a, b);
    }
}

} // verus!

//! Whether Bash loads a completion loader of the system, found out by reading its startup
//! files without running them.
use vstd::prelude::*;

use crate::disk::{inspect, Disk, DiskView};
use crate::environment::{home_dir, var, Environment, EnvironmentView};
use crate::error::{Error, ErrorView};
use crate::fs::{file_view, read_file_if_exists};
use crate::listing::entries;
use crate::managed_block::profile_text;
use crate::path::{
    on, spelled, byte_views, components, has_sh_extension, is_absolute, join, join_text, path_views,
    FilePath, DOT,
};
use crate::shell::syntax::{
    command_lines, command_lines_of, commands_of, line_source_targets, simple_commands,
    source_targets, unquote_shell_token, unquoted,
};
use crate::text;
use crate::text::{is_space, plain_lines, string_views, text_bytes, utf8_text};

verus! {

/// Where bash-completion puts its loader.
pub open spec fn loader_paths() -> Seq<Seq<char>> {
    seq![
        "/usr/share/bash-completion/bash_completion"@,
        "/etc/bash_completion"@,
        "/usr/local/share/bash-completion/bash_completion"@,
        "/usr/local/etc/profile.d/bash_completion.sh"@,
        "/opt/homebrew/etc/profile.d/bash_completion.sh"@,
    ]
}

/// The directories whose scripts startup files run in a loop.
pub open spec fn profile_directories() -> Seq<Seq<char>> {
    seq![
        "/etc/profile.d"@,
        "/usr/local/etc/profile.d"@,
        "/opt/homebrew/etc/profile.d"@,
    ]
}

/// The files that load all completions of the system.
pub fn loader_list() -> (r: Vec<String>)
    ensures
        string_views(r@) == loader_paths(),
{
    let mut out: Vec<String> = Vec::new();
    out.push(text::copy("/usr/share/bash-completion/bash_completion"));
    out.push(text::copy("/etc/bash_completion"));
    out.push(text::copy("/usr/local/share/bash-completion/bash_completion"));
    out.push(text::copy("/usr/local/etc/profile.d/bash_completion.sh"));
    out.push(text::copy("/opt/homebrew/etc/profile.d/bash_completion.sh"));
    assert(string_views(out@) =~= loader_paths());
    out
}

/// The directories whose scripts startup files run in a loop.
pub fn profile_directory_list() -> (r: Vec<String>)
    ensures
        string_views(r@) == profile_directories(),
{
    let mut out: Vec<String> = Vec::new();
    out.push(text::copy("/etc/profile.d"));
    out.push(text::copy("/usr/local/etc/profile.d"));
    out.push(text::copy("/opt/homebrew/etc/profile.d"));
    assert(string_views(out@) =~= profile_directories());
    out
}

/// Whether something stands where a text points to.
pub open spec fn is_there(d: DiskView, path: Seq<char>) -> bool {
    inspect(d, text_bytes(path)) is Ok
}

/// Whether a line sources the given file.
pub open spec fn sources(line: Seq<char>, path: Seq<char>) -> bool {
    exists|k: int|
        0 <= k < source_targets(line).len() && unquoted(#[trigger] source_targets(line)[k]) == path
}

/// Whether a line sources the given file.
pub fn line_sources_loader(line: &str, loader_path: &str) -> (r: bool)
    ensures
        r == sources(line@, loader_path@),
{
    let targets = line_source_targets(line);
    let ghost views = string_views(targets@);
    let mut k: usize = 0;
    while k < targets.len()
        invariant
            k <= targets@.len(),
            views == string_views(targets@),
            views == source_targets(line@),
            forall|m: int| 0 <= m < k ==> unquoted(#[trigger] views[m]) != loader_path@,
        decreases targets.len() - k,
    {
        assert(views[k as int] == targets@[k as int]@);
        if text::same(&unquote_shell_token(&targets[k]), loader_path) {
            return true;
        }
        k += 1;
    }
    assert(views.len() == targets@.len());
    false
}

/// Whether any of the lines sources the given file.
pub open spec fn any_sources(lines: Seq<Seq<char>>, path: Seq<char>) -> bool {
    exists|i: int| 0 <= i < lines.len() && sources(#[trigger] lines[i], path)
}

fn any_line_sources(lines: &Vec<String>, path: &str) -> (r: bool)
    ensures
        r == any_sources(string_views(lines@), path@),
{
    let ghost views = string_views(lines@);
    let mut i: usize = 0;
    while i < lines.len()
        invariant
            i <= lines@.len(),
            views == string_views(lines@),
            forall|m: int| 0 <= m < i ==> !sources(#[trigger] views[m], path@),
        decreases lines.len() - i,
    {
        assert(views[i as int] == lines@[i as int]@);
        if line_sources_loader(&lines[i], path) {
            return true;
        }
        i += 1;
    }
    assert(views.len() == lines@.len());
    false
}

/// Whether the lines source a loader that is there.
pub open spec fn sources_a_loader(d: DiskView, lines: Seq<Seq<char>>) -> bool {
    exists|k: int|
        0 <= k < loader_paths().len() && is_there(d, #[trigger] loader_paths()[k]) && any_sources(
            lines,
            loader_paths()[k],
        )
}

fn lines_source_a_loader(disk: &Disk, lines: &Vec<String>) -> (r: bool)
    ensures
        r == sources_a_loader(disk@, string_views(lines@)),
{
    let loaders = loader_list();
    let ghost views = loader_paths();
    let mut k: usize = 0;
    while k < loaders.len()
        invariant
            k <= loaders@.len(),
            views == string_views(loaders@),
            views == loader_paths(),
            forall|m: int|
                0 <= m < k ==> !(is_there(disk@, #[trigger] views[m]) && any_sources(
                    string_views(lines@),
                    views[m],
                )),
        decreases loaders.len() - k,
    {
        assert(views[k as int] == loaders@[k as int]@);
        if disk.is_there(&FilePath::from_text(&loaders[k])) && any_line_sources(
            lines,
            &loaders[k],
        ) {
            return true;
        }
        k += 1;
    }
    assert(views.len() == loaders@.len());
    false
}

/// Whether a loader is there.
pub open spec fn loader_present(d: DiskView) -> bool {
    exists|k: int| 0 <= k < loader_paths().len() && is_there(d, #[trigger] loader_paths()[k])
}

fn loader_file_present(disk: &Disk) -> (r: bool)
    ensures
        r == loader_present(disk@),
{
    let loaders = loader_list();
    let ghost views = loader_paths();
    let mut k: usize = 0;
    while k < loaders.len()
        invariant
            k <= loaders@.len(),
            views == string_views(loaders@),
            views == loader_paths(),
            forall|m: int| 0 <= m < k ==> !is_there(disk@, #[trigger] views[m]),
        decreases loaders.len() - k,
    {
        assert(views[k as int] == loaders@[k as int]@);
        if disk.is_there(&FilePath::from_text(&loaders[k])) {
            return true;
        }
        k += 1;
    }
    assert(views.len() == loaders@.len());
    false
}

/// Whether a text holds one of the characters that the shell takes for a pattern.
pub open spec fn has_glob(s: Seq<char>) -> bool {
    s.contains('*') || s.contains('?') || s.contains('[') || s.contains(']')
}

/// Whether a text is the same after the shell has expanded it, given how it was quoted.
pub open spec fn is_literal(s: Seq<char>, single_quoted: bool, quoted: bool) -> bool {
    (single_quoted || !s.contains('$')) && (quoted || !(has_glob(s) || s.contains('{')
        || s.contains('}')))
}

/// Whether a text keeps its form when it is expanded without quotes.
pub open spec fn survives_expansion(home: Seq<u8>) -> bool {
    match utf8_text(spelled(home)) {
        None => false,
        Some(text) => !has_glob(text) && forall|k: int|
            0 <= k < text.len() ==> !is_space(#[trigger] text[k]),
    }
}

/// What follows a prefix.
pub open spec fn after_prefix(s: Seq<char>, prefix: Seq<char>) -> Option<Seq<char>> {
    if prefix.len() <= s.len() && s.take(prefix.len() as int) == prefix {
        Some(s.skip(prefix.len() as int))
    } else {
        None
    }
}

fn strip(s: &[char], prefix: &str) -> (r: Option<String>)
    ensures
        crate::model::opt_text(r) == after_prefix(s@, prefix@),
{
    let p = text::to_chars(prefix);
    if p.len() > s.len() {
        return None;
    }
    let head = text::sub_chars(s, 0, p.len());
    assert(head@ =~= s@.take(p@.len() as int));
    if !text::same_chars(&head, &p) {
        return None;
    }
    let rest = text::from_chars(s, p.len(), s.len());
    assert(rest@ =~= s@.skip(p@.len() as int));
    Some(rest)
}

/// The operand of `$HOME` or `${HOME}`.
pub open spec fn after_home(s: Seq<char>) -> Option<Seq<char>> {
    match after_prefix(s, "$HOME/"@) {
        Some(rest) => Some(rest),
        None => after_prefix(s, "${HOME}/"@),
    }
}

/// The file that a sourced operand names: an absolute path, or one below the home directory
/// written with `~`, `$HOME` or `${HOME}`. Whatever else the shell would have to evaluate names
/// none.
pub open spec fn sourced_path(e: EnvironmentView, target: Seq<char>) -> Option<Seq<u8>> {
    let single_quoted = target.len() > 0 && target[0] == '\'';
    let quoted = single_quoted || (target.len() > 0 && target[0] == '"');
    let plain = unquoted(target);
    let path = on(e.platform, text_bytes(plain));
    if plain.contains('\\') || plain.contains('\'') || plain.contains('"') || plain.contains('`') {
        None
    } else if is_absolute(e.platform, path) {
        if is_literal(plain, single_quoted, quoted) {
            Some(path)
        } else {
            None
        }
    } else if single_quoted {
        None
    } else {
        match home_dir(e) {
            Err(_) => None,
            Ok(home) => match (quoted, after_prefix(plain, "~/"@)) {
                (false, Some(rest)) => literal_below(home, rest, quoted),
                _ => match after_home(plain) {
                    Some(rest) => if !quoted && !survives_expansion(home) {
                        None
                    } else {
                        literal_below(home, rest, quoted)
                    },
                    None => None,
                },
            },
        }
    }
}

pub open spec fn literal_below(home: Seq<u8>, rest: Seq<char>, quoted: bool) -> Option<Seq<u8>> {
    if is_literal(rest, false, quoted) {
        Some(join_text(home, rest))
    } else {
        None
    }
}

fn glob_in(s: &[char]) -> (r: bool)
    ensures
        r == has_glob(s@),
{
    text::has_char(s, '*') || text::has_char(s, '?') || text::has_char(s, '[') || text::has_char(
        s,
        ']',
    )
}

fn literal(s: &str, single_quoted: bool, quoted: bool) -> (r: bool)
    ensures
        r == is_literal(s@, single_quoted, quoted),
{
    let chars = text::to_chars(s);
    (single_quoted || !text::has_char(&chars, '$')) && (quoted || !(glob_in(&chars)
        || text::has_char(&chars, '{') || text::has_char(&chars, '}')))
}

fn keeps_its_form(home: &FilePath) -> (r: bool)
    ensures
        r == survives_expansion(home@),
{
    match home.to_text() {
        None => false,
        Some(text) => {
            let chars = text::to_chars(&text);
            if glob_in(&chars) {
                return false;
            }
            let mut i: usize = 0;
            while i < chars.len()
                invariant
                    i <= chars@.len(),
                    utf8_text(spelled(home@)) == Some(chars@),
                    !has_glob(chars@),
                    forall|k: int| 0 <= k < i ==> !is_space(#[trigger] chars@[k]),
                decreases chars.len() - i,
            {
                if text::is_whitespace(chars[i]) {
                    return false;
                }
                i += 1;
            }
            true
        },
    }
}

/// The file that a sourced operand names.
pub fn resolve_sourced_path(env: &Environment, target: &str) -> (r: Option<FilePath>)
    ensures
        crate::model::opt_path(r) == sourced_path(env@, target@),
{
    let written = text::to_chars(target);
    let single_quoted = written.len() > 0 && written[0] == '\'';
    let quoted = single_quoted || (written.len() > 0 && written[0] == '"');
    let plain = unquote_shell_token(target);
    let chars = text::to_chars(&plain);
    if text::has_char(&chars, '\\') || text::has_char(&chars, '\'') || text::has_char(&chars, '"')
        || text::has_char(&chars, '`') {
        return None;
    }
    let path = FilePath::from_text(&plain).on(env.platform);
    if path.is_absolute(env.platform) {
        return if literal(&plain, single_quoted, quoted) {
            Some(path)
        } else {
            None
        };
    }
    if single_quoted {
        return None;
    }
    let home = match env.home_dir() {
        Ok(home) => home,
        Err(_) => {
            return None;
        },
    };
    if !quoted {
        match strip(&chars, "~/") {
            Some(rest) => {
                return if literal(&rest, false, quoted) {
                    Some(home.join(&rest))
                } else {
                    None
                };
            },
            None => {},
        }
    }
    let below = match strip(&chars, "$HOME/") {
        Some(rest) => Some(rest),
        None => strip(&chars, "${HOME}/"),
    };
    match below {
        Some(rest) => {
            if !quoted && !keeps_its_form(&home) {
                return None;
            }
            if literal(&rest, false, quoted) {
                Some(home.join(&rest))
            } else {
                None
            }
        },
        None => None,
    }
}

/// Whether a sourced operand is the given variable.
pub open spec fn is_variable(target: Seq<char>, variable: Seq<char>) -> bool {
    !(target.len() > 0 && target[0] == '\'') && (unquoted(target) == "$"@ + variable || unquoted(
        target,
    ) == "${"@ + variable + "}"@)
}

/// Whether any of the lines sources the given variable.
pub open spec fn any_sources_variable(lines: Seq<Seq<char>>, variable: Seq<char>) -> bool {
    exists|i: int, k: int|
        0 <= i < lines.len() && 0 <= k < source_targets(lines[i]).len() && is_variable(
            #[trigger] source_targets(lines[i])[k],
            variable,
        )
}

/// Whether a command starts a loop over the given pattern.
pub open spec fn loops_over(words: Seq<Seq<char>>, pattern: Seq<char>) -> bool {
    words.len() == 4 && words[0] == "for"@ && words[2] == "in"@ && words[3] == pattern
}

/// Whether the lines run the scripts of a directory: a loop goes over them, and its variable is
/// sourced.
pub open spec fn runs_directory(lines: Seq<Seq<char>>, dir: Seq<char>) -> bool {
    exists|i: int, j: int|
        0 <= i < lines.len() && 0 <= j < commands_of(lines[i]).len() && loops_over(
            #[trigger] commands_of(lines[i])[j],
            dir + "/*.sh"@,
        ) && any_sources_variable(lines, commands_of(lines[i])[j][1])
}

fn line_sources_variable(line: &str, variable: &str) -> (r: bool)
    ensures
        r == exists|k: int|
            0 <= k < source_targets(line@).len() && is_variable(
                #[trigger] source_targets(line@)[k],
                variable@,
            ),
{
    let targets = line_source_targets(line);
    let ghost views = string_views(targets@);
    let plain = text::concat2("$", variable);
    let braced = text::concat3("${", variable, "}");
    let mut k: usize = 0;
    while k < targets.len()
        invariant
            k <= targets@.len(),
            views == string_views(targets@),
            views == source_targets(line@),
            plain@ == "$"@ + variable@,
            braced@ == "${"@ + variable@ + "}"@,
            forall|m: int| 0 <= m < k ==> !is_variable(#[trigger] views[m], variable@),
        decreases targets.len() - k,
    {
        assert(views[k as int] == targets@[k as int]@);
        let chars = text::to_chars(&targets[k]);
        let single_quoted = chars.len() > 0 && chars[0] == '\'';
        let value = unquote_shell_token(&targets[k]);
        if !single_quoted && (text::same(&value, &plain) || text::same(&value, &braced)) {
            return true;
        }
        k += 1;
    }
    assert(views.len() == targets@.len());
    false
}

fn lines_source_variable(lines: &Vec<String>, variable: &str) -> (r: bool)
    ensures
        r == any_sources_variable(string_views(lines@), variable@),
{
    let ghost views = string_views(lines@);
    let mut i: usize = 0;
    while i < lines.len()
        invariant
            i <= lines@.len(),
            views == string_views(lines@),
            forall|m: int, k: int|
                0 <= m < i && 0 <= k < source_targets(views[m]).len() ==> !is_variable(
                    #[trigger] source_targets(views[m])[k],
                    variable@,
                ),
        decreases lines.len() - i,
    {
        assert(views[i as int] == lines@[i as int]@);
        if line_sources_variable(&lines[i], variable) {
            return true;
        }
        i += 1;
    }
    assert(views.len() == lines@.len());
    false
}

/// Whether the lines run the scripts of a directory.
pub fn sources_profile_directory(lines: &Vec<String>, profile_dir: &str) -> (r: bool)
    ensures
        r == runs_directory(string_views(lines@), profile_dir@),
{
    let pattern = text::concat2(profile_dir, "/*.sh");
    let ghost views = string_views(lines@);
    let mut i: usize = 0;
    while i < lines.len()
        invariant
            i <= lines@.len(),
            views == string_views(lines@),
            pattern@ == profile_dir@ + "/*.sh"@,
            forall|m: int, j: int|
                0 <= m < i && 0 <= j < commands_of(views[m]).len() ==> !(loops_over(
                    #[trigger] commands_of(views[m])[j],
                    pattern@,
                ) && any_sources_variable(views, commands_of(views[m])[j][1])),
        decreases lines.len() - i,
    {
        assert(views[i as int] == lines@[i as int]@);
        let commands = simple_commands(&lines[i]);
        let ghost found = commands_of(views[i as int]);
        let mut j: usize = 0;
        while j < commands.len()
            invariant
                i < lines@.len(),
                j <= commands@.len(),
                views == string_views(lines@),
                pattern@ == profile_dir@ + "/*.sh"@,
                found == commands_of(views[i as int]),
                found == crate::shell::syntax::command_views(commands@),
                forall|m: int|
                    0 <= m < j ==> !(loops_over(#[trigger] found[m], pattern@)
                        && any_sources_variable(views, found[m][1])),
            decreases commands.len() - j,
        {
            let words = &commands[j];
            proof {
                assert(found[j as int] == string_views(words@));
                assert(string_views(words@).len() == words@.len());
                assert(forall|k: int|
                    0 <= k < words@.len() ==> #[trigger] string_views(words@)[k] == words@[k]@);
            }
            if words.len() == 4 && text::same(&words[0], "for") && text::same(&words[2], "in")
                && text::same(&words[3], &pattern) && lines_source_variable(lines, &words[1]) {
                assert(loops_over(commands_of(views[i as int])[j as int], pattern@));
                return true;
            }
            j += 1;
        }
        assert(found.len() == commands@.len());
        i += 1;
    }
    assert(views.len() == lines@.len());
    false
}

/// Lines put together, with a line feed between any two.
pub open spec fn joined(lines: Seq<Seq<char>>) -> Seq<char>
    decreases lines.len(),
{
    if lines.len() == 0 {
        Seq::empty()
    } else if lines.len() == 1 {
        lines[0]
    } else {
        joined(lines.drop_last()) + "\n"@ + lines.last()
    }
}

/// The lines of a startup file that hold commands.
pub open spec fn active_lines(contents: Seq<char>) -> Seq<Seq<char>> {
    plain_lines(joined(command_lines_of(contents)))
}

fn join_lines(lines: &Vec<String>) -> (r: String)
    ensures
        r@ == joined(string_views(lines@)),
{
    let ghost views = string_views(lines@);
    let mut out = String::new();
    let mut i: usize = 0;
    assert(views.take(0) =~= Seq::empty());
    while i < lines.len()
        invariant
            i <= lines@.len(),
            views == string_views(lines@),
            out@ == joined(views.take(i as int)),
        decreases lines.len() - i,
    {
        proof {
            assert(views[i as int] == lines@[i as int]@);
            assert(views.take(i + 1).drop_last() =~= views.take(i as int));
            assert(views.take(i + 1).last() == views[i as int]);
            assert(Seq::<char>::empty() + views[i as int] =~= views[i as int]);
        }
        if i > 0 {
            out.append("\n");
        }
        out.append(&lines[i]);
        i += 1;
    }
    assert(views.take(i as int) =~= views);
    out
}

fn active_lines_of(contents: &str) -> (r: Vec<String>)
    ensures
        string_views(r@) == active_lines(contents@),
{
    let commands = command_lines(contents);
    let lines = text::plain_lines_of(&text::to_chars(&join_lines(&commands)));
    let mut out: Vec<String> = Vec::new();
    let mut i: usize = 0;
    while i < lines.len()
        invariant
            i <= lines@.len(),
            out@.len() == i,
            forall|k: int| 0 <= k < i ==> (#[trigger] out@[k])@ == lines@[k]@,
        decreases lines.len() - i,
    {
        out.push(text::whole(&lines[i]));
        i += 1;
    }
    assert(string_views(out@) =~= text::char_views(lines@));
    out
}

/// Something that startup leads to: a file, or a directory whose scripts are run.
#[verifier::ext_equal]
pub enum Probe {
    File(Seq<u8>),
    Directory(Seq<u8>),
}

/// The directories, from number `k` on, whose scripts the lines run.
pub open spec fn directory_probes(lines: Seq<Seq<char>>, k: int) -> Seq<Probe>
    decreases profile_directories().len() - k,
{
    if k < 0 || k >= profile_directories().len() {
        Seq::empty()
    } else {
        let rest = directory_probes(lines, k + 1);
        if runs_directory(lines, profile_directories()[k]) {
            seq![Probe::Directory(text_bytes(profile_directories()[k]))] + rest
        } else {
            rest
        }
    }
}

/// The files that the first `count` operands name.
pub open spec fn operand_probes(e: EnvironmentView, targets: Seq<Seq<char>>, count: int) -> Seq<Probe>
    decreases count,
{
    if count <= 0 {
        Seq::empty()
    } else {
        let before = operand_probes(e, targets, count - 1);
        match sourced_path(e, targets[count - 1]) {
            Some(path) => before.push(Probe::File(path)),
            None => before,
        }
    }
}

/// The files that the first `count` lines source.
pub open spec fn file_probes(e: EnvironmentView, lines: Seq<Seq<char>>, count: int) -> Seq<Probe>
    decreases count,
{
    if count <= 0 {
        Seq::empty()
    } else {
        file_probes(e, lines, count - 1) + operand_probes(
            e,
            source_targets(lines[count - 1]),
            source_targets(lines[count - 1]).len() as int,
        )
    }
}

/// What a startup file with the given lines leads to.
pub open spec fn children(e: EnvironmentView, lines: Seq<Seq<char>>) -> Seq<Probe> {
    directory_probes(lines, 0) + file_probes(e, lines, lines.len() as int)
}

/// The scripts among the first `count` entries of a directory.
pub open spec fn script_probes(dir: Seq<u8>, names: Seq<Seq<u8>>, count: int) -> Seq<Probe>
    decreases count,
{
    if count <= 0 {
        Seq::empty()
    } else {
        let before = script_probes(dir, names, count - 1);
        if has_sh_extension(names[count - 1]) {
            before.push(Probe::File(join(dir, names[count - 1])))
        } else {
            before
        }
    }
}

/// The file that sources a loader, if one was found, and the files that were looked at.
#[verifier::ext_equal]
pub struct Search {
    pub found: Option<Seq<u8>>,
    pub visited: Set<Seq<Seq<u8>>>,
}

pub open spec fn directory_count(pending: Seq<Probe>) -> nat
    decreases pending.len(),
{
    if pending.len() == 0 {
        0
    } else {
        (if pending[0] is Directory {
            1nat
        } else {
            0nat
        }) + directory_count(pending.skip(1))
    }
}

/// How a search ended, be it with an error, and the files that it looked at.
#[verifier::ext_equal]
pub struct Exploration {
    pub outcome: Result<Option<Seq<u8>>, ErrorView>,
    pub visited: Set<Seq<Seq<u8>>>,
}

/// Looks for a file that sources a loader: at what is pending in its order, and at what a file
/// leads to before what comes after the file. No file is looked at twice.
pub open spec fn explored(
    e: EnvironmentView,
    d: DiskView,
    pending: Seq<Probe>,
    visited: Set<Seq<Seq<u8>>>,
) -> Exploration
    decreases
            d.nodes.dom().difference(visited).len(),
            directory_count(pending),
            pending.len(),
    when d.nodes.dom().finite()
    via search_ends
{
    if pending.len() == 0 {
        Exploration { outcome: Ok(None), visited }
    } else {
        let rest = pending.skip(1);
        match pending[0] {
            Probe::Directory(dir) => match entries(d, dir) {
                Err(error) => Exploration { outcome: Err(error), visited },
                Ok(names) => explored(
                    e,
                    d,
                    script_probes(dir, names, names.len() as int) + rest,
                    visited,
                ),
            },
            Probe::File(path) => if visited.contains(components(path)) {
                explored(e, d, rest, visited)
            } else {
                let seen = visited.insert(components(path));
                match profile_text(d, path) {
                    Err(error) => Exploration { outcome: Err(error), visited: seen },
                    Ok(None) => explored(e, d, rest, seen),
                    Ok(Some(contents)) => {
                        let lines = active_lines(contents);
                        if sources_a_loader(d, lines) {
                            Exploration { outcome: Ok(Some(path)), visited: seen }
                        } else {
                            explored(e, d, children(e, lines) + rest, seen)
                        }
                    },
                }
            },
        }
    }
}

/// What a search finds.
pub open spec fn search(
    e: EnvironmentView,
    d: DiskView,
    pending: Seq<Probe>,
    visited: Set<Seq<Seq<u8>>>,
) -> Result<Search, ErrorView> {
    let end = explored(e, d, pending, visited);
    match end.outcome {
        Ok(found) => Ok(Search { found, visited: end.visited }),
        Err(error) => Err(error),
    }
}

/// The files that a search has looked at when it ends, be it with an error.
pub open spec fn looked_at(
    e: EnvironmentView,
    d: DiskView,
    pending: Seq<Probe>,
    visited: Set<Seq<Seq<u8>>>,
) -> Set<Seq<Seq<u8>>> {
    explored(e, d, pending, visited).visited
}

/// Directories of two lists of probes add up.
pub proof fn lemma_directory_count_add(a: Seq<Probe>, b: Seq<Probe>)
    ensures
        directory_count(a + b) == directory_count(a) + directory_count(b),
    decreases a.len(),
{
    if a.len() == 0 {
        assert(a + b =~= b);
    } else {
        assert((a + b).skip(1) =~= a.skip(1) + b);
        lemma_directory_count_add(a.skip(1), b);
    }
}

/// The scripts of a directory are no directories to look into.
pub proof fn lemma_script_probes(dir: Seq<u8>, names: Seq<Seq<u8>>, count: int)
    ensures
        directory_count(script_probes(dir, names, count)) == 0,
        forall|k: int|
            0 <= k < script_probes(dir, names, count).len() ==> (#[trigger] script_probes(
                dir,
                names,
                count,
            )[k]) is File,
    decreases count,
{
    if count > 0 {
        lemma_script_probes(dir, names, count - 1);
        let before = script_probes(dir, names, count - 1);
        let one = seq![Probe::File(join(dir, names[count - 1]))];
        lemma_directory_count_add(before, one);
        assert(before.push(Probe::File(join(dir, names[count - 1]))) =~= before + one);
        assert(one.skip(1) =~= Seq::<Probe>::empty());
        assert(directory_count(one.skip(1)) == 0);
        assert(directory_count(one) == 0);
    }
}

/// A visited file is one file less that is left.
pub proof fn lemma_fewer_left(d: DiskView, visited: Set<Seq<Seq<u8>>>, key: Seq<Seq<u8>>)
    requires
        d.nodes.dom().finite(),
        !visited.contains(key),
    ensures
        d.nodes.dom().difference(visited).finite(),
        d.nodes.dom().difference(visited.insert(key)).finite(),
        d.nodes.dom().contains(key) ==> d.nodes.dom().difference(visited.insert(key)).len()
            < d.nodes.dom().difference(visited).len(),
        !d.nodes.dom().contains(key) ==> d.nodes.dom().difference(visited.insert(key)).len()
            == d.nodes.dom().difference(visited).len(),
{
    let left = d.nodes.dom().difference(visited);
    let after = d.nodes.dom().difference(visited.insert(key));
    assert(after =~= left.remove(key));
}

/// A text that could be read belongs to an entry that is there.
pub proof fn lemma_text_has_node(d: DiskView, path: Seq<u8>)
    ensures
        profile_text(d, path) matches Ok(Some(_)) ==> d.nodes.dom().contains(components(path)),
{
}

#[via_fn]
proof fn search_ends(
    e: EnvironmentView,
    d: DiskView,
    pending: Seq<Probe>,
    visited: Set<Seq<Seq<u8>>>,
) {
    if pending.len() > 0 {
        let rest = pending.skip(1);
        match pending[0] {
            Probe::Directory(dir) => match entries(d, dir) {
                Err(_) => {},
                Ok(names) => {
                    lemma_script_probes(dir, names, names.len() as int);
                    lemma_directory_count_add(
                        script_probes(dir, names, names.len() as int),
                        rest,
                    );
                },
            },
            Probe::File(path) => {
                if !visited.contains(components(path)) {
                    lemma_fewer_left(d, visited, components(path));
                    lemma_text_has_node(d, path);
                }
            },
        }
    }
}

enum ProbeStep {
    File(FilePath),
    Directory(FilePath),
}

impl View for ProbeStep {
    type V = Probe;

    closed spec fn view(&self) -> Probe {
        match self {
            ProbeStep::File(path) => Probe::File(path@),
            ProbeStep::Directory(path) => Probe::Directory(path@),
        }
    }
}

/// What is on a list, in its order.
spec fn probe_views(list: Seq<ProbeStep>) -> Seq<Probe> {
    list.map_values(|p: ProbeStep| p@)
}

/// What is on a stack, the top first.
spec fn stack_view(stack: Seq<ProbeStep>) -> Seq<Probe> {
    probe_views(stack).reverse()
}

/// The files that a list of components names.
pub open spec fn key_set(keys: Seq<Vec<Vec<u8>>>) -> Set<Seq<Seq<u8>>> {
    Set::new(|k: Seq<Seq<u8>>| exists|i: int| 0 <= i < keys.len() && byte_views((#[trigger] keys[i])@) == k)
}

proof fn lemma_pop_stack(stack: Seq<ProbeStep>)
    requires
        stack.len() > 0,
    ensures
        stack_view(stack).len() == stack.len(),
        stack_view(stack)[0] == stack.last()@,
        stack_view(stack).skip(1) == stack_view(stack.drop_last()),
{
    assert(stack_view(stack).skip(1) =~= stack_view(stack.drop_last()));
}

/// Puts a list onto a stack so that its first item comes to be on top.
fn push_all(stack: &mut Vec<ProbeStep>, list: Vec<ProbeStep>)
    ensures
        stack_view(final(stack)@) == probe_views(list@) + stack_view(old(stack)@),
{
    let ghost total = probe_views(list@) + stack_view(stack@);
    let mut list = list;
    while list.len() > 0
        invariant
            probe_views(list@) + stack_view(stack@) == total,
        decreases list.len(),
    {
        let ghost list_before = list@;
        let ghost stack_before = stack@;
        match list.pop() {
            Some(last) => {
                stack.push(last);
                proof {
                    assert(list_before =~= list@.push(last));
                    assert(probe_views(list_before) =~= probe_views(list@).push(last@));
                    lemma_pop_stack(stack@);
                    assert(stack@.drop_last() =~= stack_before);
                    assert(stack_view(stack@) =~= seq![last@] + stack_view(stack_before));
                    assert(probe_views(list@) + stack_view(stack@) =~= probe_views(list_before)
                        + stack_view(stack_before));
                }
            },
            None => {},
        }
    }
    assert(probe_views(list@) =~= Seq::empty());
    assert(probe_views(list@) + stack_view(stack@) =~= stack_view(stack@));
}

fn sh_script(name: &[u8]) -> (r: bool)
    ensures
        r == has_sh_extension(name@),
{
    let n = name.len();
    if n > 3 && name[n - 3] == DOT && name[n - 2] == 115 && name[n - 1] == 104 {
        assert(name@.skip(n - 3) =~= seq![DOT, 115u8, 104u8]);
        true
    } else {
        proof {
            if n > 3 && name@.skip(n - 3) == seq![DOT, 115u8, 104u8] {
                assert(name@.skip(n - 3)[0] == name@[n - 3]);
                assert(name@.skip(n - 3)[1] == name@[n - 2]);
                assert(name@.skip(n - 3)[2] == name@[n - 1]);
            }
        }
        false
    }
}

fn scripts_in(dir: &FilePath, names: &Vec<Vec<u8>>) -> (r: Vec<ProbeStep>)
    ensures
        probe_views(r@) == script_probes(dir@, byte_views(names@), names@.len() as int),
{
    let ghost views = byte_views(names@);
    let mut out: Vec<ProbeStep> = Vec::new();
    let mut n: usize = 0;
    assert(probe_views(out@) =~= Seq::empty());
    while n < names.len()
        invariant
            n <= names@.len(),
            views == byte_views(names@),
            probe_views(out@) == script_probes(dir@, views, n as int),
        decreases names.len() - n,
    {
        assert(views[n as int] == names@[n as int]@);
        if sh_script(&names[n]) {
            let path = dir.join_path(&FilePath { bytes: text::copy_bytes(&names[n]) });
            let step = ProbeStep::File(path);
            assert(probe_views(out@.push(step)) =~= probe_views(out@).push(step@));
            out.push(step);
        }
        n += 1;
    }
    out
}

/// What a startup file with the given lines leads to.
fn leads_to(env: &Environment, lines: &Vec<String>) -> (r: Vec<ProbeStep>)
    ensures
        probe_views(r@) == children(env@, string_views(lines@)),
{
    let ghost views = string_views(lines@);
    let ghost e = env@;
    let directories = profile_directory_list();
    let ghost dirs = profile_directories();
    let mut out: Vec<ProbeStep> = Vec::new();
    let mut k: usize = 0;
    assert(probe_views(out@) + directory_probes(views, 0) =~= directory_probes(views, 0));
    while k < directories.len()
        invariant
            k <= directories@.len(),
            dirs == string_views(directories@),
            dirs == profile_directories(),
            views == string_views(lines@),
            probe_views(out@) + directory_probes(views, k as int) == directory_probes(views, 0),
        decreases directories.len() - k,
    {
        assert(dirs[k as int] == directories@[k as int]@);
        if sources_profile_directory(lines, &directories[k]) {
            let step = ProbeStep::Directory(FilePath::from_text(&directories[k]));
            proof {
                assert(probe_views(out@.push(step)) =~= probe_views(out@).push(step@));
                assert(probe_views(out@).push(step@) + directory_probes(views, k + 1)
                    =~= probe_views(out@) + (seq![step@] + directory_probes(views, k + 1)));
            }
            out.push(step);
        }
        k += 1;
    }
    assert(dirs.len() == directories@.len());
    assert(probe_views(out@) + Seq::<Probe>::empty() =~= probe_views(out@));
    let ghost head = directory_probes(views, 0);
    assert(probe_views(out@) =~= head + file_probes(e, views, 0));
    let mut i: usize = 0;
    while i < lines.len()
        invariant
            i <= lines@.len(),
            e == env@,
            views == string_views(lines@),
            probe_views(out@) == head + file_probes(e, views, i as int),
        decreases lines.len() - i,
    {
        assert(views[i as int] == lines@[i as int]@);
        let targets = line_source_targets(&lines[i]);
        let ghost found = source_targets(views[i as int]);
        let ghost before = head + file_probes(e, views, i as int);
        let mut m: usize = 0;
        assert(before + operand_probes(e, found, 0) =~= before);
        while m < targets.len()
            invariant
                m <= targets@.len(),
                e == env@,
                found == string_views(targets@),
                probe_views(out@) == before + operand_probes(e, found, m as int),
            decreases targets.len() - m,
        {
            assert(found[m as int] == targets@[m as int]@);
            match resolve_sourced_path(env, &targets[m]) {
                Some(path) => {
                    let step = ProbeStep::File(path);
                    proof {
                        assert(probe_views(out@.push(step)) =~= probe_views(out@).push(step@));
                        assert((before + operand_probes(e, found, m as int)).push(step@) =~= before
                            + operand_probes(e, found, m as int).push(step@));
                    }
                    out.push(step);
                },
                None => {},
            }
            m += 1;
        }
        proof {
            assert(found.len() == targets@.len());
            assert(before + operand_probes(e, found, found.len() as int) =~= head + file_probes(
                e,
                views,
                i + 1,
            ));
        }
        i += 1;
    }
    assert(views.len() == lines@.len());
    out
}

fn is_visited(visited: &Vec<Vec<Vec<u8>>>, key: &Vec<Vec<u8>>) -> (r: bool)
    ensures
        r == key_set(visited@).contains(byte_views(key@)),
{
    let mut i: usize = 0;
    while i < visited.len()
        invariant
            i <= visited@.len(),
            forall|k: int| 0 <= k < i ==> byte_views((#[trigger] visited@[k])@) != byte_views(key@),
        decreases visited.len() - i,
    {
        if crate::path::same_names(&visited[i], key) {
            return true;
        }
        i += 1;
    }
    false
}

/// Reads a startup file as text, if it is there.
fn read_utf8_file_if_exists(disk: &Disk, path: &FilePath) -> (r: Result<Option<String>, Error>)
    ensures
        (match r {
            Ok(text) => Ok::<Option<Seq<char>>, ErrorView>(crate::model::opt_text(text)),
            Err(error) => Err::<Option<Seq<char>>, ErrorView>(error@),
        }) == profile_text(disk@, path@),
{
    match read_file_if_exists(disk, path)? {
        Some(bytes) => match text::text_of(&bytes) {
            Some(text) => Ok(Some(text)),
            None => Err(Error::InvalidUtf8File { path: path.copy() }),
        },
        None => Ok(None),
    }
}

/// The file that sources a loader, if startup leads from the given file to one.
pub fn file_reaches_loader(
    env: &Environment,
    disk: &Disk,
    startup_path: &FilePath,
    visited: &mut Vec<Vec<Vec<u8>>>,
) -> (r: Result<Option<FilePath>, Error>)
    ensures
        (match search(env@, disk@, seq![Probe::File(startup_path@)], key_set(old(visited)@)) {
            Ok(s) => r matches Ok(found) && crate::model::opt_path(found) == s.found && key_set(
                final(visited)@,
            ) == s.visited,
            Err(error) => r matches Err(failed) && failed@ == error,
        }),
        key_set(final(visited)@) == looked_at(
            env@,
            disk@,
            seq![Probe::File(startup_path@)],
            key_set(old(visited)@),
        ),
{
    let ghost e = env@;
    let ghost d = disk@;
    let ghost goal = search(e, d, seq![Probe::File(startup_path@)], key_set(visited@));
    let ghost all = looked_at(e, d, seq![Probe::File(startup_path@)], key_set(visited@));
    proof {
        crate::listing::lemma_nodes_finite(disk.records@);
    }
    let mut stack: Vec<ProbeStep> = Vec::new();
    stack.push(ProbeStep::File(startup_path.copy()));
    assert(stack_view(stack@) =~= seq![Probe::File(startup_path@)]);
    while stack.len() > 0
        invariant
            e == env@,
            d == disk@,
            d.nodes.dom().finite(),
            goal == search(e, d, seq![Probe::File(startup_path@)], key_set(old(visited)@)),
            goal == search(e, d, stack_view(stack@), key_set(visited@)),
            all == looked_at(e, d, seq![Probe::File(startup_path@)], key_set(old(visited)@)),
            all == looked_at(e, d, stack_view(stack@), key_set(visited@)),
        decreases
                d.nodes.dom().difference(key_set(visited@)).len(),
                directory_count(stack_view(stack@)),
                stack.len(),
    {
        let ghost stack_before = stack@;
        let ghost pending = stack_view(stack@);
        let ghost seen_before = key_set(visited@);
        proof {
            lemma_pop_stack(stack@);
        }
        let probe = match stack.pop() {
            Some(probe) => probe,
            None => {
                return Ok(None);
            },
        };
        proof {
            assert(stack@ =~= stack_before.drop_last());
            assert(pending[0] == probe@);
            assert(pending.skip(1) == stack_view(stack@));
            assert(stack_view(stack@).len() == stack@.len());
        }
        match probe {
            ProbeStep::Directory(dir) => {
                let names = disk.read_dir_entries(&dir)?;
                let scripts = scripts_in(&dir, &names);
                let ghost rest = stack_view(stack@);
                let ghost more = probe_views(scripts@);
                assert(byte_views(names@).len() == names@.len());
                push_all(&mut stack, scripts);
                proof {
                    lemma_script_probes(dir@, byte_views(names@), names@.len() as int);
                    lemma_directory_count_add(more, rest);
                }
            },
            ProbeStep::File(path) => {
                let key = path.components();
                if is_visited(visited, &key) {
                    continue;
                }
                let ghost before = visited@;
                visited.push(key);
                proof {
                    assert(key_set(visited@) =~= key_set(before).insert(components(path@))) by {
                        assert forall|k: Seq<Seq<u8>>|
                            key_set(visited@).contains(k) == key_set(before).insert(
                                components(path@),
                            ).contains(k) by {
                            if key_set(before).contains(k) {
                                let i = choose|i: int|
                                    0 <= i < before.len() && byte_views((#[trigger] before[i])@)
                                        == k;
                                assert(visited@[i] == before[i]);
                            }
                            if k == components(path@) {
                                assert(byte_views(visited@[before.len() as int]@) == k);
                            }
                            if key_set(visited@).contains(k) {
                                let i = choose|i: int|
                                    0 <= i < visited@.len() && byte_views(
                                        (#[trigger] visited@[i])@,
                                    ) == k;
                                if i < before.len() {
                                    assert(visited@[i] == before[i]);
                                }
                            }
                        }
                    }
                    lemma_fewer_left(d, seen_before, components(path@));
                    lemma_text_has_node(d, path@);
                }
                let contents = match read_utf8_file_if_exists(disk, &path)? {
                    Some(contents) => contents,
                    None => {
                        continue;
                    },
                };
                let lines = active_lines_of(&contents);
                if lines_source_a_loader(disk, &lines) {
                    return Ok(Some(path));
                }
                let children = leads_to(env, &lines);
                push_all(&mut stack, children);
            },
        }
    }
    assert(stack_view(stack@) =~= Seq::empty());
    Ok(None)
}

/// Where a file search from one startup file after the other ends.
pub open spec fn wiring_from(
    e: EnvironmentView,
    d: DiskView,
    files: Seq<Seq<u8>>,
    n: int,
    visited: Set<Seq<Seq<u8>>>,
) -> Result<Option<Seq<u8>>, ErrorView>
    decreases files.len() - n,
{
    if n < 0 || n >= files.len() {
        Ok(None)
    } else {
        match search(e, d, seq![Probe::File(files[n])], visited) {
            Err(error) => Err(error),
            Ok(s) => match s.found {
                Some(path) => Ok(Some(path)),
                None => wiring_from(e, d, files, n + 1, s.visited),
            },
        }
    }
}

/// The files that Bash reads when a login shell starts, the first of which that is there
/// counts.
pub open spec fn login_files(home: Seq<u8>) -> Seq<Seq<u8>> {
    seq![
        join_text(home, ".bash_profile"@),
        join_text(home, ".bash_login"@),
        join_text(home, ".profile"@),
    ]
}

/// The first of the login files, from number `n` on, that is there.
pub open spec fn first_login_file(d: DiskView, files: Seq<Seq<u8>>, n: int) -> Result<
    Option<Seq<u8>>,
    ErrorView,
>
    decreases files.len() - n,
{
    if n < 0 || n >= files.len() {
        Ok(None)
    } else {
        match file_view(d, files[n]) {
            Err(error) => Err(error),
            Ok(Some(_)) => Ok(Some(files[n])),
            Ok(None) => first_login_file(d, files, n + 1),
        }
    }
}

/// The files at which the startup of Bash begins.
pub open spec fn startup_files_of(e: EnvironmentView, d: DiskView) -> Result<
    Seq<Seq<u8>>,
    ErrorView,
> {
    let system = seq![text_bytes("/etc/bash.bashrc"@)];
    match home_dir(e) {
        Err(_) => Ok(crate::path::with_path(system, text_bytes("/etc/profile"@))),
        Ok(home) => {
            let all = crate::path::with_path(
                crate::path::with_path(system, join_text(home, ".bashrc"@)),
                text_bytes("/etc/profile"@),
            );
            match first_login_file(d, login_files(home), 0) {
                Err(error) => Err(error),
                Ok(None) => Ok(all),
                Ok(Some(file)) => Ok(crate::path::with_path(all, file)),
            }
        },
    }
}

/// The startup file through which Bash loads a completion loader.
pub open spec fn startup_wiring(e: EnvironmentView, d: DiskView) -> Result<
    Option<Seq<u8>>,
    ErrorView,
> {
    match startup_files_of(e, d) {
        Err(error) => Err(error),
        Ok(files) => wiring_from(e, d, files, 0, Set::empty()),
    }
}

fn first_existing_login_startup_file(disk: &Disk, home: &FilePath) -> (r: Result<
    Option<FilePath>,
    Error,
>)
    ensures
        (match r {
            Ok(path) => Ok::<Option<Seq<u8>>, ErrorView>(crate::model::opt_path(path)),
            Err(error) => Err::<Option<Seq<u8>>, ErrorView>(error@),
        }) == first_login_file(disk@, login_files(home@), 0),
{
    let mut files: Vec<FilePath> = Vec::new();
    files.push(home.join(".bash_profile"));
    files.push(home.join(".bash_login"));
    files.push(home.join(".profile"));
    let ghost views = login_files(home@);
    assert(path_views(files@) =~= views);
    let mut n: usize = 0;
    while n < files.len()
        invariant
            n <= files@.len(),
            views == path_views(files@),
            views == login_files(home@),
            first_login_file(disk@, views, 0) == first_login_file(disk@, views, n as int),
        decreases files.len() - n,
    {
        assert(views[n as int] == files@[n as int]@);
        match read_file_if_exists(disk, &files[n])? {
            Some(_) => {
                return Ok(Some(files[n].copy()));
            },
            None => {},
        }
        n += 1;
    }
    assert(views.len() == files@.len());
    Ok(None)
}

/// Every file at which the startup of Bash may begin, whether or not it is there.
pub open spec fn candidates(e: EnvironmentView) -> Seq<Seq<u8>> {
    let system = seq![text_bytes("/etc/bash.bashrc"@), text_bytes("/etc/profile"@)];
    match home_dir(e) {
        Err(_) => system,
        Ok(home) => system.push(join_text(home, ".bashrc"@)) + login_files(home),
    }
}

/// Every file at which the startup of Bash may begin, whether or not it is there.
pub fn startup_candidates(env: &Environment) -> (r: Vec<FilePath>)
    ensures
        path_views(r@) == candidates(env@),
{
    let mut files: Vec<FilePath> = Vec::new();
    files.push(FilePath::from_text("/etc/bash.bashrc"));
    files.push(FilePath::from_text("/etc/profile"));
    match env.home_dir() {
        Ok(home) => {
            files.push(home.join(".bashrc"));
            files.push(home.join(".bash_profile"));
            files.push(home.join(".bash_login"));
            files.push(home.join(".profile"));
        },
        Err(_) => {},
    }
    assert(path_views(files@) =~= candidates(env@));
    files
}

fn startup_files(env: &Environment, disk: &Disk) -> (r: Result<Vec<FilePath>, Error>)
    ensures
        (match r {
            Ok(files) => Ok::<Seq<Seq<u8>>, ErrorView>(path_views(files@)),
            Err(error) => Err::<Seq<Seq<u8>>, ErrorView>(error@),
        }) == startup_files_of(env@, disk@),
{
    let mut files: Vec<FilePath> = Vec::new();
    files.push(FilePath::from_text("/etc/bash.bashrc"));
    assert(path_views(files@) =~= seq![text_bytes("/etc/bash.bashrc"@)]);
    match env.home_dir() {
        Ok(home) => {
            crate::path::push_unique(&mut files, home.join(".bashrc"));
            crate::path::push_unique(&mut files, FilePath::from_text("/etc/profile"));
            match first_existing_login_startup_file(disk, &home)? {
                Some(file) => {
                    crate::path::push_unique(&mut files, file);
                },
                None => {},
            }
        },
        Err(_) => {
            crate::path::push_unique(&mut files, FilePath::from_text("/etc/profile"));
        },
    }
    Ok(files)
}

/// The startup file through which Bash loads a completion loader.
fn startup_file_wiring(env: &Environment, disk: &Disk) -> (r: Result<Option<FilePath>, Error>)
    ensures
        (match r {
            Ok(path) => Ok::<Option<Seq<u8>>, ErrorView>(crate::model::opt_path(path)),
            Err(error) => Err::<Option<Seq<u8>>, ErrorView>(error@),
        }) == startup_wiring(env@, disk@),
{
    let files = startup_files(env, disk)?;
    let ghost views = path_views(files@);
    let mut visited: Vec<Vec<Vec<u8>>> = Vec::new();
    assert(key_set(visited@) =~= Set::empty());
    let mut n: usize = 0;
    while n < files.len()
        invariant
            n <= files@.len(),
            views == path_views(files@),
            startup_files_of(env@, disk@) == Ok::<Seq<Seq<u8>>, ErrorView>(views),
            startup_wiring(env@, disk@) == wiring_from(
                env@,
                disk@,
                views,
                n as int,
                key_set(visited@),
            ),
        decreases files.len() - n,
    {
        assert(views[n as int] == files@[n as int]@);
        match file_reaches_loader(env, disk, &files[n], &mut visited)? {
            Some(path) => {
                return Ok(Some(path));
            },
            None => {},
        }
        n += 1;
    }
    assert(views.len() == files@.len());
    Ok(None)
}

/// What is known of a completion loader of the system.
#[derive(Debug, Clone, PartialEq, Eq)]
pub enum LoaderStatus {
    /// The current shell has loaded it.
    ActiveNow,
    /// The given startup file sources it.
    WiredInStartup(FilePath),
    /// It is there, but no startup file sources it.
    PresentButUnwired,
    Absent,
}

#[verifier::ext_equal]
pub enum LoaderView {
    ActiveNow,
    WiredInStartup(Seq<u8>),
    PresentButUnwired,
    Absent,
}

impl View for LoaderStatus {
    type V = LoaderView;

    open spec fn view(&self) -> LoaderView {
        match self {
            LoaderStatus::ActiveNow => LoaderView::ActiveNow,
            LoaderStatus::WiredInStartup(path) => LoaderView::WiredInStartup(path@),
            LoaderStatus::PresentButUnwired => LoaderView::PresentButUnwired,
            LoaderStatus::Absent => LoaderView::Absent,
        }
    }
}

/// Whether the current shell has loaded the loader: it then exports its version.
pub open spec fn active_now(e: EnvironmentView) -> bool {
    var(e, "BASH_COMPLETION_VERSINFO"@) is Some
}

/// What is known of a completion loader of the system.
pub open spec fn loader_of(e: EnvironmentView, d: DiskView) -> Result<LoaderView, ErrorView> {
    if active_now(e) {
        Ok(LoaderView::ActiveNow)
    } else {
        match startup_wiring(e, d) {
            Err(error) => Err(error),
            Ok(Some(path)) => Ok(LoaderView::WiredInStartup(path)),
            Ok(None) => if loader_present(d) {
                Ok(LoaderView::PresentButUnwired)
            } else {
                Ok(LoaderView::Absent)
            },
        }
    }
}

/// Whether the current shell has loaded a completion loader.
pub fn loader_active_now(env: &Environment) -> (r: bool)
    ensures
        r == active_now(env@),
{
    env.var("BASH_COMPLETION_VERSINFO").is_some()
}

/// What is known of a completion loader of the system.
pub fn loader_status(env: &Environment, disk: &Disk) -> (r: Result<LoaderStatus, Error>)
    ensures
        (match r {
            Ok(status) => Ok::<LoaderView, ErrorView>(status@),
            Err(error) => Err::<LoaderView, ErrorView>(error@),
        }) == loader_of(env@, disk@),
{
    if loader_active_now(env) {
        return Ok(LoaderStatus::ActiveNow);
    }
    match startup_file_wiring(env, disk)? {
        Some(path) => {
            return Ok(LoaderStatus::WiredInStartup(path));
        },
        None => {},
    }
    if loader_file_present(disk) {
        return Ok(LoaderStatus::PresentButUnwired);
    }
    Ok(LoaderStatus::Absent)
}

} // verus!

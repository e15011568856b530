//! Where the lines of startup files lead.
use vstd::prelude::*;

use crate::disk::{fault_at, inspect, DiskView, Step};
use crate::environment::{home_dir, EnvironmentView};
use crate::error::ErrorView;
use crate::laws::discovery::next;
use crate::laws::loaders::{
    command_line, holds_sourcing_line, is_command, is_ordinary, is_word,
    law_plain_commands_are_read, law_plain_lines_are_looked_at, lemma_sourcing, spoken, Between,
};
use crate::laws::syntax::is_simple;
use crate::listing::{entries, is_listing, lemma_order_unique, listing, name_less};
use crate::managed_block::profile_text;
use crate::path::{components, is_absolute, join, join_text, on, spelled};
use crate::shell::discovery::{
    active_lines, after_home, after_prefix, any_sources_variable, children, directory_probes,
    file_probes, is_variable, loops_over, operand_probes, profile_directories, runs_directory,
    script_probes, sourced_path, Probe,
};
use crate::shell::syntax::{commands_of, source_targets, unquoted};
use crate::text::{is_space, lines_of, text_bytes, utf8_text};

verus! {

/// Whether a character means nothing to the shell within a word, quoted or not.
pub open spec fn is_literal_char(c: char) -> bool {
    c != '*' && c != '?' && c != '[' && c != ']' && c != '{' && c != '}' && c != '$' && c != '\''
        && c != '"' && c != '\\' && c != '`'
}

/// Whether a text means nothing but itself to the shell.
pub open spec fn is_literal_text(text: Seq<char>) -> bool {
    forall|k: int| 0 <= k < text.len() ==> is_literal_char(#[trigger] text[k])
}

/// Whether the home directory keeps its form when the shell expands it without quotes.
pub open spec fn is_literal_home(home: Seq<u8>) -> bool {
    utf8_text(spelled(home)) matches Some(text) && forall|k: int|
        0 <= k < text.len() ==> !is_space(#[trigger] text[k]) && text[k] != '*' && text[k] != '?'
            && text[k] != '[' && text[k] != ']'
}

/// A text in single or double quotes.
pub open spec fn quoted_in(quote: char, text: Seq<char>) -> Seq<char> {
    seq![quote] + text + seq![quote]
}

proof fn lemma_literal_text(text: Seq<char>)
    requires
        is_literal_text(text),
    ensures
        !text.contains('*') && !text.contains('?') && !text.contains('[') && !text.contains(']')
            && !text.contains('{') && !text.contains('}') && !text.contains('$') && !text.contains(
            '\'',
        ) && !text.contains('"') && !text.contains('\\') && !text.contains('`'),
{
}

proof fn lemma_behind(prefix: Seq<char>, rest: Seq<char>)
    ensures
        after_prefix(prefix + rest, prefix) == Some(rest),
{
    assert((prefix + rest).take(prefix.len() as int) =~= prefix);
    assert((prefix + rest).skip(prefix.len() as int) =~= rest);
}

proof fn lemma_no_quotes(prefix: Seq<char>, rest: Seq<char>)
    requires
        is_literal_text(rest),
        forall|k: int|
            0 <= k < prefix.len() ==> #[trigger] prefix[k] != '\'' && prefix[k] != '"' && prefix[k]
                != '\\' && prefix[k] != '`',
    ensures
        ({
            let text = prefix + rest;
            !text.contains('\\') && !text.contains('\'') && !text.contains('"') && !text.contains(
                '`',
            )
        }),
{
    let text = prefix + rest;
    assert forall|k: int| 0 <= k < text.len() implies #[trigger] text[k] != '\\' && text[k] != '\''
        && text[k] != '"' && text[k] != '`' by {
        if k >= prefix.len() {
            assert(text[k] == rest[k - prefix.len()]);
            assert(is_literal_char(rest[k - prefix.len()]));
        }
    }
}

proof fn lemma_unquoted(quote: char, text: Seq<char>)
    requires
        quote == '\'' || quote == '"',
    ensures
        unquoted(quoted_in(quote, text)) == text,
        quoted_in(quote, text)[0] == quote,
        quoted_in(quote, text).len() == text.len() + 2,
{
    assert(quoted_in(quote, text).subrange(1, (text.len() + 1) as int) =~= text);
}

/// The file that an operand of `source` names. An absolute path names itself, quoted or not. A path
/// below the home directory can be written with `~` outside of quotes, and with `$HOME` or
/// `${HOME}` outside of single quotes; outside of all quotes the home directory must keep its form.
pub proof fn law_operands_name_files(e: EnvironmentView, text: Seq<char>, home: Seq<u8>)
    requires
        is_literal_text(text),
        text.len() > 0,
    ensures
        is_absolute(e.platform, on(e.platform, text_bytes(text))) ==> {
            let file = Some(on(e.platform, text_bytes(text)));
            &&& sourced_path(e, text) == file
            &&& sourced_path(e, quoted_in('\'', text)) == file
            &&& sourced_path(e, quoted_in('"', text)) == file
        },
        !is_absolute(e.platform, on(e.platform, text_bytes("~/"@ + text))) && home_dir(e) == Ok::<
            Seq<u8>,
            ErrorView,
        >(home) ==> {
            &&& sourced_path(e, "~/"@ + text) == Some(join_text(home, text))
            &&& sourced_path(e, quoted_in('"', "~/"@ + text)) is None
            &&& sourced_path(e, quoted_in('\'', "~/"@ + text)) is None
        },
        !is_absolute(e.platform, on(e.platform, text_bytes("$HOME/"@ + text))) && home_dir(e)
            == Ok::<Seq<u8>, ErrorView>(home) ==> {
            &&& is_literal_home(home) ==> sourced_path(e, "$HOME/"@ + text) == Some(
                join_text(home, text),
            )
            &&& !is_literal_home(home) ==> sourced_path(e, "$HOME/"@ + text) is None
            &&& sourced_path(e, quoted_in('"', "$HOME/"@ + text)) == Some(join_text(home, text))
            &&& sourced_path(e, quoted_in('\'', "$HOME/"@ + text)) is None
        },
        !is_absolute(e.platform, on(e.platform, text_bytes("${HOME}/"@ + text))) && home_dir(e)
            == Ok::<Seq<u8>, ErrorView>(home) ==> {
            &&& is_literal_home(home) ==> sourced_path(e, "${HOME}/"@ + text) == Some(
                join_text(home, text),
            )
            &&& !is_literal_home(home) ==> sourced_path(e, "${HOME}/"@ + text) is None
            &&& sourced_path(e, quoted_in('"', "${HOME}/"@ + text)) == Some(join_text(home, text))
            &&& sourced_path(e, quoted_in('\'', "${HOME}/"@ + text)) is None
        },
{
    reveal_strlit("~/");
    reveal_strlit("$HOME/");
    reveal_strlit("${HOME}/");
    lemma_literal_text(text);
    lemma_unquoted('\'', text);
    lemma_unquoted('"', text);
    assert(is_literal_char(text[0]));
    assert(unquoted(text) == text);
    lemma_home(home);
    if !is_absolute(e.platform, on(e.platform, text_bytes("~/"@ + text))) && home_dir(e) == Ok::<
        Seq<u8>,
        ErrorView,
    >(home) {
        lemma_operand(e, "~/"@, text, home);
    }
    if !is_absolute(e.platform, on(e.platform, text_bytes("$HOME/"@ + text))) && home_dir(e) == Ok::<
        Seq<u8>,
        ErrorView,
    >(home) {
        lemma_operand(e, "$HOME/"@, text, home);
    }
    if !is_absolute(e.platform, on(e.platform, text_bytes("${HOME}/"@ + text))) && home_dir(e) == Ok::<
        Seq<u8>,
        ErrorView,
    >(home) {
        lemma_operand(e, "${HOME}/"@, text, home);
    }
}

proof fn lemma_home(home: Seq<u8>)
    ensures
        is_literal_home(home) <==> crate::shell::discovery::survives_expansion(home),
{
    match utf8_text(spelled(home)) {
        Some(text) => {
            if is_literal_home(home) {
                assert(!crate::shell::discovery::has_glob(text));
            }
            if crate::shell::discovery::survives_expansion(home) {
                assert forall|k: int| 0 <= k < text.len() implies !is_space(#[trigger] text[k])
                    && text[k] != '*' && text[k] != '?' && text[k] != '[' && text[k] != ']' by {
                    assert(text.contains(text[k]));
                }
            }
        },
        None => {},
    }
}

/// An operand below the home directory, quoted or not.
proof fn lemma_operand(e: EnvironmentView, prefix: Seq<char>, text: Seq<char>, home: Seq<u8>)
    requires
        is_literal_text(text),
        text.len() > 0,
        prefix == "~/"@ || prefix == "$HOME/"@ || prefix == "${HOME}/"@,
        !is_absolute(e.platform, on(e.platform, text_bytes(prefix + text))),
        home_dir(e) == Ok::<Seq<u8>, ErrorView>(home),
    ensures
        ({
            let file = Some(join_text(home, text));
            let is_tilde = prefix == "~/"@;
            &&& sourced_path(e, prefix + text) == (if is_tilde
                || crate::shell::discovery::survives_expansion(home) {
                file
            } else {
                None
            })
            &&& sourced_path(e, quoted_in('"', prefix + text)) == (if is_tilde {
                None
            } else {
                file
            })
            &&& sourced_path(e, quoted_in('\'', prefix + text)) is None
        }),
{
    reveal_strlit("~/");
    reveal_strlit("$HOME/");
    reveal_strlit("${HOME}/");
    let plain = prefix + text;
    lemma_literal_text(text);
    lemma_behind(prefix, text);
    lemma_no_quotes(prefix, text);
    lemma_unquoted('\'', plain);
    lemma_unquoted('"', plain);
    assert(plain[0] == prefix[0]);
    assert(unquoted(plain) == plain);
    assert("~/"@[0] == '~');
    assert("$HOME/"@[0] == '$' && "$HOME/"@[1] == 'H');
    assert("${HOME}/"@[0] == '$' && "${HOME}/"@[1] == '{');
    if prefix == "~/"@ {
        if plain.len() >= 6 && plain.take(6) == "$HOME/"@ {
            assert(plain.take(6)[0] == plain[0]);
        }
        if plain.len() >= 8 && plain.take(8) == "${HOME}/"@ {
            assert(plain.take(8)[0] == plain[0]);
        }
        assert(after_home(plain) is None);
    } else {
        if plain.take(2) == "~/"@ {
            assert(plain.take(2)[0] == plain[0]);
        }
        assert(after_prefix(plain, "~/"@) is None);
        if prefix == "${HOME}/"@ {
            if plain.take(6) == "$HOME/"@ {
                assert(plain.take(6)[1] == plain[1]);
            }
            assert(after_prefix(plain, "$HOME/"@) is None);
        }
        assert(after_home(plain) == Some(text));
    }
}

/// A file that the operand of one of some lines names is among those that they lead to.
proof fn lemma_led(e: EnvironmentView, lines: Seq<Seq<char>>, i: int, k: int)
    requires
        0 <= i < lines.len(),
        0 <= k < source_targets(lines[i]).len(),
        sourced_path(e, source_targets(lines[i])[k]) is Some,
    ensures
        children(e, lines).contains(
            Probe::File(sourced_path(e, source_targets(lines[i])[k])->0),
        ),
{
    let file = Probe::File(sourced_path(e, source_targets(lines[i])[k])->0);
    lemma_operands(e, source_targets(lines[i]), source_targets(lines[i]).len() as int, k);
    lemma_files(e, lines, lines.len() as int, i, file);
    let files = file_probes(e, lines, lines.len() as int);
    let n = choose|n: int| 0 <= n < files.len() && files[n] == file;
    let before = directory_probes(lines, 0);
    assert(children(e, lines)[before.len() + n] == file);
}

proof fn lemma_operands(e: EnvironmentView, targets: Seq<Seq<char>>, count: int, k: int)
    requires
        0 <= k < count <= targets.len(),
        sourced_path(e, targets[k]) is Some,
    ensures
        operand_probes(e, targets, count).contains(Probe::File(sourced_path(e, targets[k])->0)),
    decreases count,
{
    let file = Probe::File(sourced_path(e, targets[k])->0);
    let before = operand_probes(e, targets, count - 1);
    let all = operand_probes(e, targets, count);
    if k < count - 1 {
        lemma_operands(e, targets, count - 1, k);
        let n = choose|n: int| 0 <= n < before.len() && before[n] == file;
        assert(all[n] == file);
    } else {
        assert(all[all.len() - 1] == file);
    }
}

proof fn lemma_files(
    e: EnvironmentView,
    lines: Seq<Seq<char>>,
    count: int,
    i: int,
    file: Probe,
)
    requires
        0 <= i < count <= lines.len(),
        operand_probes(
            e,
            source_targets(lines[i]),
            source_targets(lines[i]).len() as int,
        ).contains(file),
    ensures
        file_probes(e, lines, count).contains(file),
    decreases count,
{
    let before = file_probes(e, lines, count - 1);
    let all = file_probes(e, lines, count);
    if i < count - 1 {
        lemma_files(e, lines, count - 1, i, file);
        let n = choose|n: int| 0 <= n < before.len() && before[n] == file;
        assert(all[n] == file);
    } else {
        let own = operand_probes(
            e,
            source_targets(lines[i]),
            source_targets(lines[i]).len() as int,
        );
        let n = choose|n: int| 0 <= n < own.len() && own[n] == file;
        assert(all[before.len() + n] == file);
    }
}

/// A startup file that sources another one leads to it, whether the line names it by its path or
/// below the home directory.
pub proof fn law_sourced_files_are_followed(
    e: EnvironmentView,
    d: DiskView,
    startup: Seq<u8>,
    contents: Seq<char>,
    operand: Seq<char>,
)
    requires
        profile_text(d, startup) == Ok::<Option<Seq<char>>, ErrorView>(Some(contents)),
        is_simple(contents),
        is_word(operand),
        holds_sourcing_line(contents, operand),
    ensures
        sourced_path(e, operand) matches Some(file) ==> next(e, d, Probe::File(startup)).contains(
            Probe::File(file),
        ),
{
    lemma_sourcing(contents, operand);
    let lines = active_lines(contents);
    let k = choose|k: int|
        0 <= k < lines.len() && source_targets(#[trigger] lines[k]) == seq![operand];
    assert(source_targets(lines[k])[0] == operand);
    if sourced_path(e, operand) is Some {
        lemma_led(e, lines, k, 0);
    }
}

/// The directories whose scripts distributions run at startup.
pub open spec fn is_script_directory(dir: Seq<char>) -> bool {
    ||| dir == "/etc/profile.d"@
    ||| dir == "/usr/local/etc/profile.d"@
    ||| dir == "/opt/homebrew/etc/profile.d"@
}

/// The line that begins a loop over the scripts of a directory.
pub open spec fn loop_line(variable: Seq<char>, dir: Seq<char>) -> Seq<char> {
    "for "@ + variable + " in "@ + dir + "/*.sh; do"@
}

/// Whether a text has a line, as it stands.
pub open spec fn has_line(contents: Seq<char>, line: Seq<char>) -> bool {
    exists|i: int|
        0 <= i < lines_of(contents).len() && (#[trigger] lines_of(contents)[i] == line || lines_of(
            contents,
        )[i] == line + seq!['\n'])
}

#[verifier::spinoff_prover]
proof fn lemma_directory_words(dir: Seq<char>)
    requires
        is_script_directory(dir),
    ensures
        is_word(dir + "/*.sh"@),
        is_word("for"@),
        is_word("in"@),
        is_word("do"@),
{
    reveal_strlit("/etc/profile.d");
    reveal_strlit("/usr/local/etc/profile.d");
    reveal_strlit("/opt/homebrew/etc/profile.d");
    reveal_strlit("/*.sh");
    reveal_strlit("for");
    reveal_strlit("in");
    reveal_strlit("do");
    let word = dir + "/*.sh"@;
    assert forall|k: int| 0 <= k < word.len() implies is_ordinary(#[trigger] word[k]) by {
        if k >= dir.len() {
            assert(word[k] == "/*.sh"@[k - dir.len()]);
        } else {
            assert(word[k] == dir[k]);
        }
    }
}

proof fn lemma_loop_line(variable: Seq<char>, dir: Seq<char>)
    requires
        is_script_directory(dir),
        is_word(variable),
    ensures
        commands_of(loop_line(variable, dir)) == seq![
            seq!["for"@, variable, "in"@, dir + "/*.sh"@],
            seq!["do"@],
        ],
        loop_line(variable, dir).len() > 0,
        loop_line(variable, dir).last() == 'o',
{
    lemma_directory_words(dir);
    let pattern = dir + "/*.sh"@;
    let head = seq!["for"@, variable, "in"@, pattern];
    let tail = seq!["do"@];
    let commands = seq![head, tail];
    let ops = seq![Between::Semicolon];
    reveal_strlit("for ");
    reveal_strlit(" in ");
    reveal_strlit("/*.sh; do");
    reveal_strlit("/*.sh");
    reveal_strlit("for");
    reveal_strlit("in");
    reveal_strlit("do");
    assert(head.skip(1) =~= seq![variable, "in"@, pattern]);
    assert(head.skip(1).skip(1) =~= seq!["in"@, pattern]);
    assert(head.skip(1).skip(1).skip(1) =~= seq![pattern]);
    assert(spoken(seq![pattern]) == pattern);
    assert(spoken(seq!["in"@, pattern]) == "in"@ + seq![' '] + spoken(
        seq!["in"@, pattern].skip(1),
    ));
    assert(seq!["in"@, pattern].skip(1) =~= seq![pattern]);
    let three = seq![variable, "in"@, pattern];
    assert(three.skip(1) =~= seq!["in"@, pattern]);
    assert(spoken(three) == variable + seq![' '] + spoken(three.skip(1)));
    assert(spoken(head) == "for"@ + seq![' '] + spoken(head.skip(1)));
    assert(spoken(tail) == "do"@);
    assert(commands.skip(1) =~= seq![tail]);
    assert(command_line(seq![tail], ops.skip(1)) == spoken(tail));
    assert(command_line(commands, ops) == spoken(head) + seq![';', ' '] + command_line(
        commands.skip(1),
        ops.skip(1),
    ));
    assert(command_line(commands, ops) =~= loop_line(variable, dir));
    assert forall|k: int| 0 <= k < commands.len() implies is_command(#[trigger] commands[k]) by {
        assert(commands[0] == head && commands[1] == tail);
        assert forall|j: int| 0 <= j < commands[k].len() implies is_word(
            #[trigger] commands[k][j],
        ) by {}
    }
    law_plain_commands_are_read(commands, ops);
}

/// A startup file with a loop over the scripts of one of the known directories, in which they are
/// sourced, leads to that directory.
pub proof fn law_script_directories_are_followed(
    e: EnvironmentView,
    d: DiskView,
    startup: Seq<u8>,
    contents: Seq<char>,
    variable: Seq<char>,
    dir: Seq<char>,
)
    requires
        is_script_directory(dir),
        is_word(variable),
        profile_text(d, startup) == Ok::<Option<Seq<char>>, ErrorView>(Some(contents)),
        is_simple(contents),
        has_line(contents, loop_line(variable, dir)),
        holds_sourcing_line(contents, "$"@ + variable) || holds_sourcing_line(
            contents,
            "${"@ + variable + "}"@,
        ),
    ensures
        next(e, d, Probe::File(startup)).contains(Probe::Directory(text_bytes(dir))),
{
    let lines = active_lines(contents);
    let line = loop_line(variable, dir);
    lemma_loop_line(variable, dir);
    law_plain_lines_are_looked_at(contents, line);
    let i = choose|i: int| 0 <= i < lines.len() && lines[i] == line;
    lemma_variable_words(variable);
    let operand = if holds_sourcing_line(contents, "$"@ + variable) {
        "$"@ + variable
    } else {
        "${"@ + variable + "}"@
    };
    lemma_sourcing(contents, operand);
    let k = choose|k: int|
        0 <= k < lines.len() && source_targets(#[trigger] lines[k]) == seq![operand];
    assert(source_targets(lines[k])[0] == operand);
    assert(is_variable(source_targets(lines[k])[0], variable));
    assert(any_sources_variable(lines, variable));
    assert(commands_of(lines[i])[0] == seq!["for"@, variable, "in"@, dir + "/*.sh"@]);
    assert(loops_over(commands_of(lines[i])[0], dir + "/*.sh"@));
    assert(runs_directory(lines, dir));
    lemma_directory_led(lines, dir);
    let before = directory_probes(lines, 0);
    let n = choose|n: int|
        0 <= n < before.len() && before[n] == Probe::Directory(text_bytes(dir));
    assert(children(e, lines)[n] == before[n]);
}

proof fn lemma_variable_words(variable: Seq<char>)
    requires
        is_word(variable),
    ensures
        is_word("$"@ + variable),
        is_word("${"@ + variable + "}"@),
        is_variable("$"@ + variable, variable),
        is_variable("${"@ + variable + "}"@, variable),
{
    reveal_strlit("$");
    reveal_strlit("${");
    reveal_strlit("}");
    let plain = "$"@ + variable;
    let braced = "${"@ + variable + "}"@;
    assert forall|k: int| 0 <= k < plain.len() implies is_ordinary(#[trigger] plain[k]) by {
        if k > 0 {
            assert(plain[k] == variable[k - 1]);
        }
    }
    assert forall|k: int| 0 <= k < braced.len() implies is_ordinary(#[trigger] braced[k]) by {
        if 2 <= k < braced.len() - 1 {
            assert(braced[k] == variable[k - 2]);
        }
    }
    assert(plain[0] == '$' && braced[0] == '$');
}

proof fn lemma_directory_led(lines: Seq<Seq<char>>, dir: Seq<char>)
    requires
        is_script_directory(dir),
        runs_directory(lines, dir),
    ensures
        directory_probes(lines, 0).contains(Probe::Directory(text_bytes(dir))),
{
    let there = Probe::Directory(text_bytes(dir));
    assert(profile_directories().len() == 3);
    assert(profile_directories()[0] == "/etc/profile.d"@);
    assert(profile_directories()[1] == "/usr/local/etc/profile.d"@);
    assert(profile_directories()[2] == "/opt/homebrew/etc/profile.d"@);
    let last = directory_probes(lines, 2);
    let middle = directory_probes(lines, 1);
    let all = directory_probes(lines, 0);
    assert(directory_probes(lines, 3) =~= Seq::empty());
    if dir == "/opt/homebrew/etc/profile.d"@ {
        assert(last[0] == there);
        assert(middle[middle.len() - last.len()] == there);
        assert(all[all.len() - last.len()] == there);
    } else if dir == "/usr/local/etc/profile.d"@ {
        assert(middle[0] == there);
        assert(all[all.len() - middle.len()] == there);
    } else {
        assert(all[0] == there);
    }
}

/// A directory of scripts leads to those of its entries whose names end in `.sh`, and to no other.
pub proof fn law_directories_lead_to_their_scripts(
    e: EnvironmentView,
    d: DiskView,
    dir: Seq<u8>,
    names: Seq<Seq<u8>>,
    file: Seq<u8>,
)
    requires
        entries(d, dir) == Ok::<Seq<Seq<u8>>, ErrorView>(names),
    ensures
        next(e, d, Probe::Directory(dir)).contains(Probe::File(file)) <==> exists|k: int|
            0 <= k < names.len() && file == join(dir, #[trigger] names[k]) && names[k].len() > 3
                && names[k][names[k].len() - 3] == '.' as u8 && names[k][names[k].len() - 2]
                == 's' as u8 && names[k][names[k].len() - 1] == 'h' as u8,
{
    lemma_scripts(dir, names, names.len() as int, file);
}

proof fn lemma_scripts(dir: Seq<u8>, names: Seq<Seq<u8>>, count: int, file: Seq<u8>)
    requires
        0 <= count <= names.len(),
    ensures
        script_probes(dir, names, count).contains(Probe::File(file)) <==> exists|k: int|
            0 <= k < count && file == join(dir, #[trigger] names[k]) && names[k].len() > 3
                && names[k][names[k].len() - 3] == '.' as u8 && names[k][names[k].len() - 2]
                == 's' as u8 && names[k][names[k].len() - 1] == 'h' as u8,
    decreases count,
{
    if count > 0 {
        lemma_scripts(dir, names, count - 1, file);
        let there = Probe::File(file);
        let before = script_probes(dir, names, count - 1);
        let all = script_probes(dir, names, count);
        let name = names[count - 1];
        assert(crate::path::has_sh_extension(name) <==> name.len() > 3 && name[name.len() - 3]
            == '.' as u8 && name[name.len() - 2] == 's' as u8 && name[name.len() - 1]
            == 'h' as u8) by {
            if name.len() > 3 {
                let end = name.skip(name.len() - 3);
                assert(end[0] == name[name.len() - 3]);
                assert(end[1] == name[name.len() - 2]);
                assert(end[2] == name[name.len() - 1]);
                if name[name.len() - 3] == '.' as u8 && name[name.len() - 2] == 's' as u8
                    && name[name.len() - 1] == 'h' as u8 {
                    assert(end =~= seq![46u8, 115u8, 104u8]);
                }
            }
        }
        if before.contains(there) {
            let n = choose|n: int| 0 <= n < before.len() && before[n] == there;
            assert(all[n] == there);
        }
        if all.contains(there) {
            let n = choose|n: int| 0 <= n < all.len() && all[n] == there;
            if n < before.len() {
                assert(before[n] == there);
            }
        }
        if crate::path::has_sh_extension(name) && file == join(dir, name) {
            assert(all[all.len() - 1] == there);
        }
    }
}

/// Operands that name no file without a shell: relative ones, and those in which the shell would
/// have to evaluate something. Patterns and braces count outside of quotes, a dollar sign outside
/// of single quotes, and quotes, backslashes and backquotes within the operand everywhere.
pub proof fn law_unclear_operands_name_no_file(e: EnvironmentView, text: Seq<char>, c: char)
    requires
        text.contains(c),
        text.len() > 0,
        text[0] != '\'' && text[0] != '"',
    ensures
        c == '\'' || c == '"' || c == '\\' || c == '`' ==> sourced_path(e, text) is None
            && sourced_path(e, quoted_in('\'', text)) is None && sourced_path(
            e,
            quoted_in('"', text),
        ) is None,
        (c == '*' || c == '?' || c == '[' || c == ']') && is_absolute(
            e.platform,
            on(e.platform, text_bytes(text)),
        ) ==> sourced_path(e, text) is None,
        (c == '{' || c == '}') && is_absolute(e.platform, on(e.platform, text_bytes(text)))
            ==> sourced_path(e, text) is None,
        c == '$' && is_absolute(e.platform, on(e.platform, text_bytes(text))) ==> sourced_path(
            e,
            text,
        ) is None && sourced_path(e, quoted_in('"', text)) is None,
        !is_absolute(e.platform, on(e.platform, text_bytes(text))) && text[0] != '~' && text[0]
            != '$' ==> sourced_path(e, text) is None && sourced_path(e, quoted_in('\'', text)) is None
            && sourced_path(e, quoted_in('"', text)) is None,
{
    reveal_strlit("~/");
    reveal_strlit("$HOME/");
    reveal_strlit("${HOME}/");
    lemma_unquoted('\'', text);
    lemma_unquoted('"', text);
    assert(unquoted(text) == text);
    if text[0] != '~' && text[0] != '$' {
        if text.len() >= 2 && text.take(2) == "~/"@ {
            assert(text.take(2)[0] == text[0]);
        }
        if text.len() >= 6 && text.take(6) == "$HOME/"@ {
            assert(text.take(6)[0] == text[0]);
        }
        if text.len() >= 8 && text.take(8) == "${HOME}/"@ {
            assert(text.take(8)[0] == text[0]);
        }
        assert(after_prefix(text, "~/"@) is None);
        assert(after_home(text) is None);
    }
}

/// Whether a name comes before another one in the order of bytes.
pub open spec fn comes_before(a: Seq<u8>, b: Seq<u8>) -> bool {
    exists|p: int|
        0 <= p <= a.len() && p < b.len() && #[trigger] a.take(p) == b.take(p) && (p == a.len()
            || a[p] < b[p])
}

proof fn lemma_comes_before(a: Seq<u8>, b: Seq<u8>)
    requires
        comes_before(a, b),
    ensures
        name_less(a, b),
    decreases b.len(),
{
    let p = choose|p: int|
        0 <= p <= a.len() && p < b.len() && #[trigger] a.take(p) == b.take(p) && (p == a.len()
            || a[p] < b[p]);
    if p > 0 {
        assert(a.take(p)[0] == a[0]);
        assert(b.take(p)[0] == b[0]);
        let x = a.skip(1);
        let y = b.skip(1);
        assert(x.take(p - 1) =~= a.take(p).skip(1));
        assert(y.take(p - 1) =~= b.take(p).skip(1));
        assert(x.take(p - 1) == y.take(p - 1));
        if p < a.len() {
            assert(x[p - 1] == a[p]);
            assert(y[p - 1] == b[p]);
        }
        assert(comes_before(x, y));
        lemma_comes_before(x, y);
    }
}

/// A directory lists the names of what is in it, each once and in the order of bytes.
pub proof fn law_directories_are_listed_in_order(d: DiskView, dir: Seq<u8>, names: Seq<Seq<u8>>)
    requires
        fault_at(d, Step::List, dir) is None,
        inspect(d, dir) matches Ok(node) && node.content is Directory,
        forall|i: int, j: int|
            0 <= i < j < names.len() ==> comes_before(#[trigger] names[i], #[trigger] names[j]),
        forall|n: Seq<u8>| #[trigger]
            names.contains(n) <==> d.nodes.dom().contains(components(dir).push(n)),
    ensures
        entries(d, dir) == Ok::<Seq<Seq<u8>>, ErrorView>(names),
{
    assert forall|i: int, j: int| 0 <= i < j < names.len() implies name_less(
        #[trigger] names[i],
        #[trigger] names[j],
    ) by {
        lemma_comes_before(names[i], names[j]);
    }
    assert(is_listing(d, components(dir), names));
    let found = listing(d, components(dir));
    assert(is_listing(d, components(dir), found));
    assert forall|n: Seq<u8>| #[trigger] found.contains(n) <==> names.contains(n) by {
        assert(found.contains(n) <==> d.nodes.dom().contains(components(dir).push(n)));
    }
    lemma_order_unique(found, names);
}

} // verus!

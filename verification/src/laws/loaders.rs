//! Which commands are read out of startup files, and which completion loaders are found by them.
use vstd::prelude::*;

use crate::disk::{inspect, DiskView};
use crate::environment::{home_dir, EnvironmentView};
use crate::error::ErrorView;
use crate::laws::discovery::{law_wiring_is_found, leads_in, leads_to, loads};
use crate::laws::lines::{
    is_ended, is_line, joined, lemma_joined_ended, lemma_lines_add, lemma_lines_of_joined,
    lemma_lines_whole, lemma_one_line,
};
use crate::laws::syntax::{bare_lines, is_simple, law_simple_lines_hold_commands};
use crate::managed_block::profile_text;
use crate::path::{components, holds_path, join_text, same_path, with_path};
use crate::shell::discovery;
use crate::shell::discovery::{
    active_lines, any_sources, explored, loader_of, loader_paths, search, sources, startup_files_of,
    startup_wiring, wiring_from, LoaderView, Probe,
};
use crate::shell::syntax::{
    commands_from, commands_of, finish, new_reader, read_char, source_target, source_targets,
    targets_of, unquoted, Reader, Reading,
};
use crate::text::{is_space, lines_of, plain_lines, text_bytes, without_last};

verus! {

/// Whether a character stands for itself in a word of the shell, wherever in the word it is.
pub open spec fn is_ordinary(c: char) -> bool {
    !is_space(c) && c != '\'' && c != '"' && c != '\\' && c != '`' && c != '#' && c != ';' && c
        != '&' && c != '|' && c != '(' && c != ')' && c != '<' && c != '>'
}

/// Whether a text is a word of the shell that neither quotes nor escapes anything.
pub open spec fn is_word(word: Seq<char>) -> bool {
    word.len() > 0 && forall|k: int| 0 <= k < word.len() ==> is_ordinary(#[trigger] word[k])
}

/// Words with a blank between any two.
pub open spec fn spoken(words: Seq<Seq<char>>) -> Seq<char>
    decreases words.len(),
{
    if words.len() == 0 {
        Seq::empty()
    } else if words.len() == 1 {
        words[0]
    } else {
        words[0] + seq![' '] + spoken(words.skip(1))
    }
}

/// Whether a list is one of words, and not empty.
pub open spec fn is_command(words: Seq<Seq<char>>) -> bool {
    words.len() > 0 && forall|k: int| 0 <= k < words.len() ==> is_word(#[trigger] words[k])
}

/// How two commands on one line can be told apart.
pub enum Between {
    Semicolon,
    And,
    Or,
}

pub open spec fn between_text(op: Between) -> Seq<char> {
    match op {
        Between::Semicolon => seq![';', ' '],
        Between::And => seq![' ', '&', '&', ' '],
        Between::Or => seq![' ', '|', '|', ' '],
    }
}

/// Commands on one line, with something between any two.
pub open spec fn command_line(commands: Seq<Seq<Seq<char>>>, ops: Seq<Between>) -> Seq<char>
    decreases commands.len(),
{
    if commands.len() == 0 {
        Seq::empty()
    } else if commands.len() == 1 {
        spoken(commands[0])
    } else {
        spoken(commands[0]) + between_text(ops[0]) + command_line(commands.skip(1), ops.skip(1))
    }
}

/// Whether a part of a text stands in it from a position on.
spec fn stands_at(line: Seq<char>, pos: int, part: Seq<char>) -> bool {
    0 <= pos && pos + part.len() <= line.len() && line.subrange(pos, pos + part.len()) == part
}

proof fn lemma_stands(line: Seq<char>, pos: int, a: Seq<char>, b: Seq<char>)
    requires
        stands_at(line, pos, a + b),
    ensures
        stands_at(line, pos, a),
        stands_at(line, pos + a.len(), b),
        forall|k: int| 0 <= k < a.len() ==> line[pos + k] == #[trigger] a[k],
        forall|k: int| 0 <= k < b.len() ==> line[pos + a.len() + k] == #[trigger] b[k],
{
    let whole = line.subrange(pos, pos + (a + b).len());
    assert(line.subrange(pos, pos + a.len()) =~= a) by {
        assert forall|k: int| 0 <= k < a.len() implies line[pos + k] == #[trigger] a[k] by {
            assert(whole[k] == (a + b)[k]);
        }
    }
    assert(line.subrange(pos + a.len(), pos + a.len() + b.len()) =~= b) by {
        assert forall|k: int| 0 <= k < b.len() implies line[pos + a.len() + k]
            == #[trigger] b[k] by {
            assert(whole[a.len() + k] == (a + b)[a.len() + k]);
        }
    }
    assert forall|k: int| 0 <= k < a.len() implies line[pos + k] == #[trigger] a[k] by {
        assert(line.subrange(pos, pos + a.len())[k] == a[k]);
    }
    assert forall|k: int| 0 <= k < b.len() implies line[pos + a.len() + k] == #[trigger] b[k] by {
        assert(line.subrange(pos + a.len(), pos + a.len() + b.len())[k] == b[k]);
    }
}

/// A reader that is outside of quotes and escapes.
pub open spec fn is_free(s: Reader) -> bool {
    s.quote is None && !s.escaped
}

pub proof fn lemma_read_word(line: Seq<char>, from: int, to: int, i: int, s: Reader)
    requires
        0 <= from <= i <= to <= line.len(),
        from < to,
        forall|k: int| from <= k < to ==> is_ordinary(#[trigger] line[k]),
        to < line.len() ==> line[to] != '(',
        is_free(s),
        s.start == (if i == from {
            None
        } else {
            Some(from)
        }),
    ensures
        commands_from(line, i, s) == commands_from(line, to, (Reader { start: Some(from), ..s })),
    decreases to - i,
{
    let inside = Reader { start: Some(from), ..s };
    if i < to {
        let c = line[i];
        assert(is_ordinary(line[i]));
        if i + 1 < to {
            assert(is_ordinary(line[i + 1]));
        }
        assert(read_char(line, i, s) == Reading::Next(inside, i + 1));
        lemma_read_word(line, from, to, i + 1, inside);
    } else {
        assert(s =~= inside);
    }
}

/// Words are read one after the other.
proof fn lemma_read_words(line: Seq<char>, pos: int, words: Seq<Seq<char>>, s: Reader)
    requires
        is_command(words),
        stands_at(line, pos, spoken(words)),
        is_free(s),
        s.start is None,
        pos + spoken(words).len() < line.len() ==> line[pos + spoken(words).len()] != '(',
    ensures
        ({
            let end = pos + spoken(words).len();
            let begin = end - words.last().len();
            &&& stands_at(line, begin, words.last())
            &&& commands_from(line, pos, s) == commands_from(
                line,
                end,
                (Reader { words: s.words + words.drop_last(), start: Some(begin), ..s }),
            )
        }),
    decreases words.len(),
{
    let first = words[0];
    assert(is_word(words[0]));
    let end = pos + spoken(words).len();
    if words.len() == 1 {
        assert forall|k: int| pos <= k < end implies is_ordinary(#[trigger] line[k]) by {
            assert(line.subrange(pos, end)[k - pos] == first[k - pos]);
            assert(is_ordinary(first[k - pos]));
        }
        lemma_read_word(line, pos, end, pos, s);
        assert(words.drop_last() =~= Seq::empty());
        assert(s.words + Seq::<Seq<char>>::empty() =~= s.words);
    } else {
        let rest = words.skip(1);
        let m = pos + first.len();
        assert(spoken(words) =~= first + (seq![' '] + spoken(rest)));
        lemma_stands(line, pos, first, seq![' '] + spoken(rest));
        lemma_stands(line, m, seq![' '], spoken(rest));
        assert(line[m] == seq![' '][0]);
        assert forall|k: int| pos <= k < m implies is_ordinary(#[trigger] line[k]) by {
            assert(line[pos + (k - pos)] == first[k - pos]);
            assert(is_ordinary(first[k - pos]));
        }
        lemma_read_word(line, pos, m, pos, s);
        let inside = Reader { start: Some(pos), ..s };
        let behind = Reader { words: s.words.push(first), start: None, ..s };
        assert(line.subrange(pos, m) == first);
        assert(read_char(line, m, inside) == Reading::Next(behind, m + 1));
        assert(commands_from(line, m, inside) == commands_from(line, m + 1, behind));
        assert forall|k: int| 0 <= k < rest.len() implies is_word(#[trigger] rest[k]) by {
            assert(rest[k] == words[k + 1]);
        }
        lemma_read_words(line, m + 1, rest, behind);
        assert(rest.last() == words.last());
        assert(behind.words + rest.drop_last() =~= s.words + words.drop_last());
    }
}

/// A command is read, and what follows is read on.
proof fn lemma_read_command(
    line: Seq<char>,
    pos: int,
    words: Seq<Seq<char>>,
    op: Between,
    s: Reader,
)
    requires
        is_command(words),
        stands_at(line, pos, spoken(words) + between_text(op)),
        is_free(s),
        s.start is None,
        s.words.len() == 0,
    ensures
        commands_from(line, pos, s) == commands_from(
            line,
            pos + spoken(words).len() + between_text(op).len(),
            (Reader { commands: s.commands.push(words), ..s }),
        ),
{
    let n = pos + spoken(words).len();
    lemma_stands(line, pos, spoken(words), between_text(op));
    assert(line[n] == between_text(op)[0]);
    lemma_read_words(line, pos, words, s);
    let begin = n - words.last().len();
    let inside = Reader { words: s.words + words.drop_last(), start: Some(begin), ..s };
    let all = inside.words.push(words.last());
    assert(all =~= words) by {
        assert(s.words =~= Seq::empty());
    }
    let done = Reader { commands: s.commands.push(words), ..s };
    assert(line.subrange(begin, n) == words.last());
    assert(s.words =~= Seq::empty());
    match op {
        Between::Semicolon => {
            assert(line[n + 1] == between_text(op)[1]);
            assert(read_char(line, n, inside) == Reading::Next(done, n + 1));
            assert(commands_from(line, n, inside) == commands_from(line, n + 1, done));
            assert(read_char(line, n + 1, done) == Reading::Next(done, n + 2));
            assert(commands_from(line, n + 1, done) == commands_from(line, n + 2, done));
        },
        _ => {
            let c = between_text(op)[1];
            assert(line[n + 1] == between_text(op)[1]);
            assert(line[n + 2] == between_text(op)[2]);
            assert(line[n + 3] == between_text(op)[3]);
            let apart = Reader { words: all, start: None, ..s };
            assert(read_char(line, n, inside) == Reading::Next(apart, n + 1));
            assert(commands_from(line, n, inside) == commands_from(line, n + 1, apart));
            assert(read_char(line, n + 1, apart) == Reading::Next(done, n + 3));
            assert(commands_from(line, n + 1, apart) == commands_from(line, n + 3, done));
            assert(read_char(line, n + 3, done) == Reading::Next(done, n + 4));
            assert(commands_from(line, n + 3, done) == commands_from(line, n + 4, done));
        },
    }
}

proof fn lemma_read_commands(
    line: Seq<char>,
    pos: int,
    commands: Seq<Seq<Seq<char>>>,
    ops: Seq<Between>,
    s: Reader,
)
    requires
        commands.len() > 0,
        ops.len() >= commands.len() - 1,
        forall|k: int| 0 <= k < commands.len() ==> is_command(#[trigger] commands[k]),
        stands_at(line, pos, command_line(commands, ops)),
        pos + command_line(commands, ops).len() == line.len(),
        is_free(s),
        s.start is None,
        s.words.len() == 0,
    ensures
        commands_from(line, pos, s) == s.commands + commands,
    decreases commands.len(),
{
    assert(is_command(commands[0]));
    let words = commands[0];
    if commands.len() == 1 {
        lemma_read_words(line, pos, words, s);
        let n = line.len() as int;
        let begin = n - words.last().len();
        let inside = Reader { words: s.words + words.drop_last(), start: Some(begin), ..s };
        assert(line.subrange(begin, n) == words.last());
        assert(inside.words.push(words.last()) =~= words) by {
            assert(s.words =~= Seq::empty());
        }
        assert(commands_from(line, n, inside) == finish(line, inside));
        assert(s.commands.push(words) =~= s.commands + commands);
    } else {
        let op = ops[0];
        let rest = commands.skip(1);
        let more = command_line(rest, ops.skip(1));
        assert(command_line(commands, ops) =~= (spoken(words) + between_text(op)) + more);
        lemma_stands(line, pos, spoken(words) + between_text(op), more);
        lemma_read_command(line, pos, words, op, s);
        let done = Reader { commands: s.commands.push(words), ..s };
        assert forall|k: int| 0 <= k < rest.len() implies is_command(#[trigger] rest[k]) by {
            assert(rest[k] == commands[k + 1]);
        }
        lemma_read_commands(
            line,
            pos + spoken(words).len() + between_text(op).len(),
            rest,
            ops.skip(1),
            done,
        );
        assert(done.commands + rest =~= s.commands + commands);
    }
}

/// Commands of plain words on one line, apart by semicolons or by `&&` and `||`, are read as they
/// are, word for word.
pub proof fn law_plain_commands_are_read(commands: Seq<Seq<Seq<char>>>, ops: Seq<Between>)
    requires
        commands.len() > 0,
        ops.len() >= commands.len() - 1,
        forall|k: int| 0 <= k < commands.len() ==> is_command(#[trigger] commands[k]),
    ensures
        commands_of(command_line(commands, ops)) == commands,
{
    let line = command_line(commands, ops);
    assert(line.subrange(0, line.len() as int) =~= line);
    lemma_read_commands(line, 0, commands, ops, new_reader());
    assert(Seq::<Seq<Seq<char>>>::empty() + commands =~= commands);
}

/// Whether a command sources a file: its words are `source` or `.` and the file, perhaps behind a
/// `then` or a `do`.
pub open spec fn sources_file(words: Seq<Seq<char>>, file: Seq<char>) -> bool {
    ||| words.len() >= 2 && (words[0] == "source"@ || words[0] == "."@) && words[1] == file
    ||| words.len() >= 3 && (words[0] == "then"@ || words[0] == "do"@) && (words[1] == "source"@
        || words[1] == "."@) && words[2] == file
}

/// A file is among those that a line of plain commands sources if and only if one of the commands
/// sources it.
pub proof fn law_sourced_files_are_found(
    commands: Seq<Seq<Seq<char>>>,
    ops: Seq<Between>,
    file: Seq<char>,
)
    requires
        commands.len() > 0,
        ops.len() >= commands.len() - 1,
        forall|k: int| 0 <= k < commands.len() ==> is_command(#[trigger] commands[k]),
    ensures
        source_targets(command_line(commands, ops)).contains(file) <==> exists|k: int|
            0 <= k < commands.len() && sources_file(#[trigger] commands[k], file),
{
    law_plain_commands_are_read(commands, ops);
    lemma_targets(commands, commands.len() as int, file);
}

pub proof fn lemma_source_target(words: Seq<Seq<char>>, file: Seq<char>)
    ensures
        source_target(words) == Some(file) <==> sources_file(words, file),
{
    reveal_strlit("then");
    reveal_strlit("do");
    reveal_strlit("source");
    reveal_strlit(".");
    assert("then"@.len() == 4 && "do"@.len() == 2 && "source"@.len() == 6 && "."@.len() == 1);
}

proof fn lemma_targets(commands: Seq<Seq<Seq<char>>>, count: int, file: Seq<char>)
    requires
        0 <= count <= commands.len(),
    ensures
        targets_of(commands, count).contains(file) <==> exists|k: int|
            0 <= k < count && sources_file(#[trigger] commands[k], file),
    decreases count,
{
    if count > 0 {
        lemma_targets(commands, count - 1, file);
        let before = targets_of(commands, count - 1);
        let all = targets_of(commands, count);
        lemma_source_target(commands[count - 1], file);
        if before.contains(file) {
            let i = choose|i: int| 0 <= i < before.len() && before[i] == file;
            assert(all[i] == file);
        }
        if all.contains(file) {
            let i = choose|i: int| 0 <= i < all.len() && all[i] == file;
            if i < before.len() {
                assert(before[i] == file);
            } else {
                assert(sources_file(commands[count - 1], file));
            }
        }
        if sources_file(commands[count - 1], file) {
            assert(all[all.len() - 1] == file);
        }
    }
}

/// Lines with a line feed behind each.
spec fn ended(lines: Seq<Seq<char>>) -> Seq<Seq<char>> {
    lines.map_values(|line: Seq<char>| line.push('\n'))
}

proof fn lemma_joined(lines: Seq<Seq<char>>)
    requires
        lines.len() > 0,
    ensures
        discovery::joined(lines) == joined(ended(lines.drop_last())) + lines.last(),
    decreases lines.len(),
{
    reveal_strlit("\n");
    if lines.len() == 1 {
        assert(lines.drop_last() =~= Seq::empty());
        assert(ended(lines.drop_last()) =~= Seq::empty());
        assert(joined(Seq::<Seq<char>>::empty()) + lines.last() =~= lines[0]);
    } else {
        let front = lines.drop_last();
        lemma_joined(front);
        assert(ended(front).drop_last() =~= ended(front.drop_last()));
        assert(ended(front).last() == front.last().push('\n'));
        assert(discovery::joined(lines) =~= joined(ended(front)) + lines.last());
    }
}

/// A command line that no carriage return ends is one of the lines that are looked at.
pub proof fn lemma_active(lines: Seq<Seq<char>>, k: int)
    requires
        forall|i: int| 0 <= i < lines.len() ==> !(#[trigger] lines[i]).contains('\n'),
        0 <= k < lines.len(),
        lines[k].len() > 0,
        lines[k].last() != '\r',
    ensures
        plain_lines(discovery::joined(lines)).contains(lines[k]),
{
    let front = lines.drop_last();
    let last = lines.last();
    lemma_joined(lines);
    assert forall|i: int| 0 <= i < ended(front).len() implies is_line(#[trigger] ended(front)[i])
        && is_ended(ended(front)[i]) by {
        assert(ended(front)[i] == lines[i].push('\n'));
        assert forall|j: int| 0 <= j < lines[i].len() implies #[trigger] lines[i][j] != '\n' by {
            assert(lines[i].contains(lines[i][j]));
        }
    }
    lemma_lines_of_joined(ended(front));
    lemma_joined_ended(ended(front));
    lemma_lines_add(joined(ended(front)), last);
    let all = discovery::joined(lines);
    assert(lines_of(all) == ended(front) + lines_of(last));
    let plain = plain_lines(all);
    if k < front.len() {
        assert(lines_of(all)[k] == lines[k].push('\n'));
        assert(lines[k].push('\n').drop_last() =~= lines[k]);
        assert(plain[k] == lines[k]);
    } else {
        assert(last == lines[k]);
        assert forall|j: int| 0 <= j < last.len() implies #[trigger] last[j] != '\n' by {
            assert(last.contains(last[j]));
        }
        lemma_one_line(last);
        let at = front.len() as int;
        assert(lines_of(all)[at] == last);
        assert(last[last.len() - 1] != '\n');
        assert(plain[at] == last);
    }
}

/// Every line of a text without quotes, backslashes and less-than signs is looked at for commands.
pub proof fn law_plain_lines_are_looked_at(contents: Seq<char>, line: Seq<char>)
    requires
        is_simple(contents),
        line.len() > 0,
        line.last() != '\r',
        line.last() != '\n',
        exists|i: int|
            0 <= i < lines_of(contents).len() && (#[trigger] lines_of(contents)[i] == line
                || lines_of(contents)[i] == line + seq!['\n']),
    ensures
        active_lines(contents).contains(line),
{
    law_simple_lines_hold_commands(contents);
    lemma_lines_whole(contents);
    let lines = lines_of(contents);
    let bare = bare_lines(lines);
    let i = choose|i: int|
        0 <= i < lines.len() && (#[trigger] lines[i] == line || lines[i] == line + seq!['\n']);
    assert((line + seq!['\n']).drop_last() =~= line);
    assert(bare[i] == line);
    assert forall|k: int| 0 <= k < bare.len() implies !(#[trigger] bare[k]).contains('\n') by {
        assert(is_line(lines[k]));
        assert(bare[k] == without_last(lines[k], '\n'));
        if bare[k].contains('\n') {
            let j = choose|j: int| 0 <= j < bare[k].len() && bare[k][j] == '\n';
            assert(lines[k][j] == '\n');
        }
    }
    lemma_active(bare, i);
}

/// The files in which bash-completion and its packages keep the loader.
pub open spec fn is_known_loader(path: Seq<char>) -> bool {
    ||| path == "/usr/share/bash-completion/bash_completion"@
    ||| path == "/etc/bash_completion"@
    ||| path == "/usr/local/share/bash-completion/bash_completion"@
    ||| path == "/usr/local/etc/profile.d/bash_completion.sh"@
    ||| path == "/opt/homebrew/etc/profile.d/bash_completion.sh"@
}

pub proof fn lemma_known_loader(path: Seq<char>)
    ensures
        is_known_loader(path) <==> exists|k: int|
            0 <= k < loader_paths().len() && #[trigger] loader_paths()[k] == path,
{
    assert(loader_paths().len() == 5);
    assert(loader_paths()[0] == "/usr/share/bash-completion/bash_completion"@);
    assert(loader_paths()[1] == "/etc/bash_completion"@);
    assert(loader_paths()[2] == "/usr/local/share/bash-completion/bash_completion"@);
    assert(loader_paths()[3] == "/usr/local/etc/profile.d/bash_completion.sh"@);
    assert(loader_paths()[4] == "/opt/homebrew/etc/profile.d/bash_completion.sh"@);
}

#[verifier::spinoff_prover]
pub proof fn lemma_loader_word(path: Seq<char>)
    requires
        is_known_loader(path),
    ensures
        is_word(path),
        path[0] == '/',
{
    reveal_strlit("/usr/share/bash-completion/bash_completion");
    reveal_strlit("/etc/bash_completion");
    reveal_strlit("/usr/local/share/bash-completion/bash_completion");
    reveal_strlit("/usr/local/etc/profile.d/bash_completion.sh");
    reveal_strlit("/opt/homebrew/etc/profile.d/bash_completion.sh");
}

pub proof fn lemma_source_words()
    ensures
        is_word("source"@),
        is_word("."@),
{
    reveal_strlit("source");
    reveal_strlit(".");
}

/// A line that sources a file by its plain name: `source` or `.`, and the file.
pub open spec fn sourcing_line(word: Seq<char>, file: Seq<char>) -> Seq<char> {
    word + seq![' '] + file
}

proof fn lemma_sourcing_line(word: Seq<char>, file: Seq<char>)
    requires
        word == "source"@ || word == "."@,
        is_word(file),
    ensures
        source_targets(sourcing_line(word, file)) == seq![file],
        sourcing_line(word, file).len() > 0,
        sourcing_line(word, file).last() == file.last(),
{
    lemma_source_words();
    let words = seq![word, file];
    let commands = seq![words];
    assert(words.skip(1) =~= seq![file]);
    assert(spoken(seq![file]) == file);
    assert(spoken(words) =~= sourcing_line(word, file));
    assert(command_line(commands, Seq::empty()) == spoken(words));
    law_plain_commands_are_read(commands, Seq::empty());
    lemma_source_target(words, file);
    assert(targets_of(commands, 0) =~= Seq::empty());
    assert(targets_of(commands, 1) =~= seq![file]);
}

/// Whether a startup file holds a line that sources a file by its plain name.
pub open spec fn holds_sourcing_line(contents: Seq<char>, file: Seq<char>) -> bool {
    exists|i: int, word: Seq<char>|
        0 <= i < lines_of(contents).len() && (word == "source"@ || word == "."@) && (
        #[trigger] lines_of(contents)[i] == #[trigger] sourcing_line(word, file) || lines_of(
            contents,
        )[i] == sourcing_line(word, file) + seq!['\n'])
}

/// Whether a text is looked at whole: it holds no quote, no backslash and no less-than sign.
pub proof fn lemma_sourcing(contents: Seq<char>, file: Seq<char>)
    requires
        is_simple(contents),
        is_word(file),
        holds_sourcing_line(contents, file),
    ensures
        exists|k: int|
            0 <= k < active_lines(contents).len() && source_targets(
                #[trigger] active_lines(contents)[k],
            ) == seq![file],
{
    let (i, word) = choose|i: int, word: Seq<char>|
        0 <= i < lines_of(contents).len() && (word == "source"@ || word == "."@) && (
        #[trigger] lines_of(contents)[i] == #[trigger] sourcing_line(word, file) || lines_of(
            contents,
        )[i] == sourcing_line(word, file) + seq!['\n']);
    let line = sourcing_line(word, file);
    lemma_sourcing_line(word, file);
    assert(is_ordinary(file[file.len() - 1]));
    law_plain_lines_are_looked_at(contents, line);
    let k = choose|k: int| 0 <= k < active_lines(contents).len() && active_lines(contents)[k]
        == line;
    assert(source_targets(active_lines(contents)[k]) == seq![file]);
}

/// A startup file that holds the line `source` and the path of one of the known loaders loads it,
/// if the loader is there.
pub proof fn law_known_loaders_are_loaded(
    d: DiskView,
    startup: Seq<u8>,
    contents: Seq<char>,
    loader: Seq<char>,
)
    requires
        is_known_loader(loader),
        inspect(d, text_bytes(loader)) is Ok,
        profile_text(d, startup) == Ok::<Option<Seq<char>>, ErrorView>(Some(contents)),
        is_simple(contents),
        holds_sourcing_line(contents, loader),
    ensures
        loads(d, startup),
{
    lemma_known_loader(loader);
    lemma_loader_word(loader);
    lemma_sourcing(contents, loader);
    let lines = active_lines(contents);
    let k = choose|k: int| 0 <= k < lines.len() && source_targets(#[trigger] lines[k]) == seq![
        loader,
    ];
    assert(unquoted(source_targets(lines[k])[0]) == loader);
    assert(sources(lines[k], loader));
    assert(any_sources(lines, loader));
    let n = choose|n: int| 0 <= n < loader_paths().len() && #[trigger] loader_paths()[n] == loader;
    assert(discovery::is_there(d, loader_paths()[n]));
}

/// Whether no file is at a path.
pub open spec fn is_absent(d: DiskView, path: Seq<u8>) -> bool {
    profile_text(d, path) == Ok::<Option<Seq<char>>, ErrorView>(None)
}

/// A place at which no file is has none under another path either.
proof fn lemma_absent_alike(d: DiskView, a: Seq<u8>, b: Seq<u8>)
    requires
        is_absent(d, a),
        profile_text(d, b) matches Ok(Some(_)),
    ensures
        components(a) != components(b),
{
}

proof fn lemma_search_absent(
    e: EnvironmentView,
    d: DiskView,
    path: Seq<u8>,
    visited: Set<Seq<Seq<u8>>>,
)
    requires
        d.nodes.dom().finite(),
        is_absent(d, path),
    ensures
        search(e, d, seq![Probe::File(path)], visited) matches Ok(s) && s.found is None
            && s.visited == (if visited.contains(components(path)) {
            visited
        } else {
            visited.insert(components(path))
        }),
{
    let pending = seq![Probe::File(path)];
    assert(pending.skip(1) =~= Seq::empty());
    let seen = visited.insert(components(path));
    assert(explored(e, d, Seq::empty(), visited).outcome == Ok::<Option<Seq<u8>>, ErrorView>(
        None,
    ));
    assert(explored(e, d, Seq::empty(), seen).outcome == Ok::<Option<Seq<u8>>, ErrorView>(None));
}

/// The search finds the first of the startup files that is there, if that one loads a loader.
proof fn lemma_wiring_reaches(
    e: EnvironmentView,
    d: DiskView,
    files: Seq<Seq<u8>>,
    n: int,
    k: int,
    visited: Set<Seq<Seq<u8>>>,
)
    requires
        d.nodes.dom().finite(),
        0 <= n <= k < files.len(),
        forall|j: int| n <= j < k ==> is_absent(d, #[trigger] files[j]),
        loads(d, files[k]),
        !visited.contains(components(files[k])),
    ensures
        wiring_from(e, d, files, n, visited) == Ok::<Option<Seq<u8>>, ErrorView>(Some(files[k])),
    decreases k - n,
{
    if n < k {
        assert(is_absent(d, files[n]));
        lemma_absent_alike(d, files[n], files[k]);
        lemma_search_absent(e, d, files[n], visited);
        let s = search(e, d, seq![Probe::File(files[n])], visited)->Ok_0;
        lemma_wiring_reaches(e, d, files, n + 1, k, s.visited);
    } else {
        let pending = seq![Probe::File(files[k])];
        assert(explored(e, d, pending, visited).outcome == Ok::<Option<Seq<u8>>, ErrorView>(
            Some(files[k]),
        ));
    }
}

/// A search over startup files none of which is there finds nothing.
proof fn lemma_wiring_nothing(
    e: EnvironmentView,
    d: DiskView,
    files: Seq<Seq<u8>>,
    n: int,
    visited: Set<Seq<Seq<u8>>>,
)
    requires
        d.nodes.dom().finite(),
        0 <= n <= files.len(),
        forall|j: int| n <= j < files.len() ==> is_absent(d, #[trigger] files[j]),
    ensures
        wiring_from(e, d, files, n, visited) == Ok::<Option<Seq<u8>>, ErrorView>(None),
    decreases files.len() - n,
{
    if n < files.len() {
        lemma_search_absent(e, d, files[n], visited);
        let s = search(e, d, seq![Probe::File(files[n])], visited)->Ok_0;
        lemma_wiring_nothing(e, d, files, n + 1, s.visited);
    }
}

/// Whether a startup file is the first that is there, in the order in which Bash reads them: the
/// system's, `.bashrc` of the user, the profile of the system, and the first that is there of the
/// user's `.bash_profile`, `.bash_login` and `.profile`.
pub open spec fn comes_first(
    e: EnvironmentView,
    d: DiskView,
    home: Seq<u8>,
    startup: Seq<u8>,
) -> bool {
    let system = text_bytes("/etc/bash.bashrc"@);
    let own = join_text(home, ".bashrc"@);
    let profile = text_bytes("/etc/profile"@);
    let login = seq![
        join_text(home, ".bash_profile"@),
        join_text(home, ".bash_login"@),
        join_text(home, ".profile"@),
    ];
    ||| startup == system
    ||| startup == own && is_absent(d, system)
    ||| startup == profile && is_absent(d, system) && is_absent(d, own)
    ||| {
        &&& is_absent(d, system) && is_absent(d, own) && is_absent(d, profile)
        &&& startup == login[0] || is_absent(d, login[0]) && (startup == login[1] || is_absent(
            d,
            login[1],
        ) && startup == login[2])
    }
}

/// Whether the files that a login shell may read can be looked at.
pub open spec fn login_files_are_readable(d: DiskView, home: Seq<u8>) -> bool {
    &&& crate::fs::file_view(d, join_text(home, ".bash_profile"@)) is Ok
    &&& crate::fs::file_view(d, join_text(home, ".bash_login"@)) is Ok
    &&& crate::fs::file_view(d, join_text(home, ".profile"@)) is Ok
}

proof fn lemma_first_login(d: DiskView, home: Seq<u8>)
    requires
        login_files_are_readable(d, home),
    ensures
        ({
            let a = join_text(home, ".bash_profile"@);
            let b = join_text(home, ".bash_login"@);
            let c = join_text(home, ".profile"@);
            discovery::first_login_file(d, discovery::login_files(home), 0) == Ok::<
                Option<Seq<u8>>,
                ErrorView,
            >(
                if crate::fs::file_view(d, a)->Ok_0 is Some {
                    Some(a)
                } else if crate::fs::file_view(d, b)->Ok_0 is Some {
                    Some(b)
                } else if crate::fs::file_view(d, c)->Ok_0 is Some {
                    Some(c)
                } else {
                    None
                },
            )
        }),
{
    reveal_with_fuel(discovery::first_login_file, 5);
    let files = discovery::login_files(home);
    assert(files.len() == 3);
    assert(files[0] == join_text(home, ".bash_profile"@));
    assert(files[1] == join_text(home, ".bash_login"@));
    assert(files[2] == join_text(home, ".profile"@));
}

/// Whether a file is in a list behind files that are not there.
spec fn is_found_first(d: DiskView, files: Seq<Seq<u8>>, startup: Seq<u8>) -> bool {
    exists|k: int|
        0 <= k < files.len() && #[trigger] files[k] == startup && forall|j: int|
            0 <= j < k ==> is_absent(d, #[trigger] files[j])
}

/// A file that is found first is so when more files come behind it.
proof fn lemma_found_before(d: DiskView, list: Seq<Seq<u8>>, path: Seq<u8>, startup: Seq<u8>)
    requires
        is_found_first(d, list, startup),
    ensures
        is_found_first(d, crate::path::with_path(list, path), startup),
{
    let k = choose|k: int|
        0 <= k < list.len() && #[trigger] list[k] == startup && forall|j: int|
            0 <= j < k ==> is_absent(d, #[trigger] list[j]);
    let more = crate::path::with_path(list, path);
    assert(more[k] == startup);
    assert forall|j: int| 0 <= j < k implies is_absent(d, #[trigger] more[j]) by {
        assert(is_absent(d, list[j]));
    }
}

/// A file that is there is found first behind files that are not.
proof fn lemma_found_behind(d: DiskView, list: Seq<Seq<u8>>, path: Seq<u8>)
    requires
        forall|k: int| 0 <= k < list.len() ==> is_absent(d, #[trigger] list[k]),
        profile_text(d, path) matches Ok(Some(_)),
    ensures
        is_found_first(d, crate::path::with_path(list, path), path),
{
    assert forall|k: int| 0 <= k < list.len() implies !same_path(#[trigger] list[k], path) by {
        lemma_absent_alike(d, list[k], path);
    }
    let more = crate::path::with_path(list, path);
    assert(more == list.push(path));
    let k = list.len() as int;
    assert(more[k] == path);
    assert forall|j: int| 0 <= j < k implies is_absent(d, #[trigger] more[j]) by {
        assert(is_absent(d, list[j]));
    }
}

/// Files that are not there, and one more.
proof fn lemma_all_absent(d: DiskView, list: Seq<Seq<u8>>, path: Seq<u8>)
    requires
        forall|k: int| 0 <= k < list.len() ==> is_absent(d, #[trigger] list[k]),
        is_absent(d, path),
    ensures
        forall|k: int|
            0 <= k < crate::path::with_path(list, path).len() ==> is_absent(
                d,
                #[trigger] crate::path::with_path(list, path)[k],
            ),
{
    let more = crate::path::with_path(list, path);
    assert forall|k: int| 0 <= k < more.len() implies is_absent(d, #[trigger] more[k]) by {
        if k < list.len() {
            assert(is_absent(d, list[k]));
        }
    }
}

/// Where the startup files of Bash are searched, the first that is there comes behind files that
/// are not.
#[verifier::spinoff_prover]
#[verifier::rlimit(40)]
proof fn lemma_startup_position(
    e: EnvironmentView,
    d: DiskView,
    home: Seq<u8>,
    startup: Seq<u8>,
)
    requires
        crate::environment::home_dir(e) == Ok::<Seq<u8>, ErrorView>(home),
        login_files_are_readable(d, home),
        comes_first(e, d, home, startup),
        profile_text(d, startup) matches Ok(Some(_)),
    ensures
        startup_files_of(e, d) matches Ok(files) && is_found_first(d, files, startup),
{
    let system = text_bytes("/etc/bash.bashrc"@);
    let own = join_text(home, ".bashrc"@);
    let profile = text_bytes("/etc/profile"@);
    lemma_first_login(d, home);
    let none = Seq::<Seq<u8>>::empty();
    let one = seq![system];
    let two = crate::path::with_path(one, own);
    let three = crate::path::with_path(two, profile);
    let login = discovery::first_login_file(d, discovery::login_files(home), 0)->Ok_0;
    assert(is_found_first(d, three, startup) || login == Some(startup) && is_found_first(
        d,
        crate::path::with_path(three, startup),
        startup,
    )) by {
        if startup == system {
            assert(one[0] == startup);
            assert(is_found_first(d, one, startup));
            lemma_found_before(d, one, own, startup);
            lemma_found_before(d, two, profile, startup);
        } else if startup == own && is_absent(d, system) {
            lemma_found_behind(d, one, own);
            lemma_found_before(d, two, profile, startup);
        } else if startup == profile && is_absent(d, system) && is_absent(d, own) {
            lemma_all_absent(d, one, own);
            lemma_found_behind(d, two, profile);
        } else {
            lemma_all_absent(d, one, own);
            lemma_all_absent(d, two, profile);
            lemma_found_behind(d, three, startup);
        }
    }
    match login {
        Some(file) => {
            if is_found_first(d, three, startup) {
                lemma_found_before(d, three, file, startup);
            }
        },
        None => {},
    }
}

/// Where the first startup file of Bash that is there holds the line `source` and the path of one
/// of the known loaders, and the loader is there, the loader is wired in that file. A shell that
/// has loaded one already says so by a variable.
#[verifier::spinoff_prover]
#[verifier::rlimit(40)]
pub proof fn law_known_loaders_are_found(
    e: EnvironmentView,
    d: DiskView,
    home: Seq<u8>,
    startup: Seq<u8>,
    contents: Seq<char>,
    loader: Seq<char>,
)
    requires
        d.nodes.dom().finite(),
        crate::laws::locations::user_home(e) == Some(home),
        login_files_are_readable(d, home),
        comes_first(e, d, home, startup),
        profile_text(d, startup) == Ok::<Option<Seq<char>>, ErrorView>(Some(contents)),
        is_simple(contents),
        is_known_loader(loader),
        inspect(d, text_bytes(loader)) is Ok,
        holds_sourcing_line(contents, loader),
    ensures
        loader_of(e, d) == Ok::<LoaderView, ErrorView>(
            if e.vars.dom().contains("BASH_COMPLETION_VERSINFO"@) {
                LoaderView::ActiveNow
            } else {
                LoaderView::WiredInStartup(startup)
            },
        ),
{
    law_known_loaders_are_loaded(d, startup, contents, loader);
    lemma_startup_position(e, d, home, startup);
    let files = startup_files_of(e, d)->Ok_0;
    assert(is_found_first(d, files, startup));
    let k = choose|k: int|
        0 <= k < files.len() && #[trigger] files[k] == startup && forall|j: int|
            0 <= j < k ==> is_absent(d, #[trigger] files[j]);
    lemma_wiring_reaches(e, d, files, 0, k, Set::empty());
}

/// Where no startup file of Bash is there, a loader that is there is not wired; it is found to be
/// there if and only if it is one of the known ones.
#[verifier::spinoff_prover]
#[verifier::rlimit(40)]
pub proof fn law_unwired_loaders_are_told_from_absent_ones(
    e: EnvironmentView,
    d: DiskView,
    home: Seq<u8>,
)
    requires
        d.nodes.dom().finite(),
        !e.vars.dom().contains("BASH_COMPLETION_VERSINFO"@),
        crate::laws::locations::user_home(e) == Some(home),
        is_absent(d, text_bytes("/etc/bash.bashrc"@)),
        is_absent(d, join_text(home, ".bashrc"@)),
        is_absent(d, text_bytes("/etc/profile"@)),
        is_absent(d, join_text(home, ".bash_profile"@)),
        is_absent(d, join_text(home, ".bash_login"@)),
        is_absent(d, join_text(home, ".profile"@)),
    ensures
        loader_of(e, d) == Ok::<LoaderView, ErrorView>(
            if inspect(d, text_bytes("/usr/share/bash-completion/bash_completion"@)) is Ok
                || inspect(d, text_bytes("/etc/bash_completion"@)) is Ok || inspect(
                d,
                text_bytes("/usr/local/share/bash-completion/bash_completion"@),
            ) is Ok || inspect(
                d,
                text_bytes("/usr/local/etc/profile.d/bash_completion.sh"@),
            ) is Ok || inspect(
                d,
                text_bytes("/opt/homebrew/etc/profile.d/bash_completion.sh"@),
            ) is Ok {
                LoaderView::PresentButUnwired
            } else {
                LoaderView::Absent
            },
        ),
{
    lemma_no_startup_file(e, d, home);
    let files = startup_files_of(e, d)->Ok_0;
    lemma_wiring_nothing(e, d, files, 0, Set::empty());
    lemma_present(d);
    assert(discovery::active_now(e) == false);
    assert(startup_wiring(e, d) == Ok::<Option<Seq<u8>>, ErrorView>(None));
}

/// Where no file at which the startup of Bash may begin is there, none of those that are searched
/// is.
#[verifier::spinoff_prover]
#[verifier::rlimit(40)]
proof fn lemma_no_startup_file(e: EnvironmentView, d: DiskView, home: Seq<u8>)
    requires
        crate::laws::locations::user_home(e) == Some(home),
        is_absent(d, text_bytes("/etc/bash.bashrc"@)),
        is_absent(d, join_text(home, ".bashrc"@)),
        is_absent(d, text_bytes("/etc/profile"@)),
        is_absent(d, join_text(home, ".bash_profile"@)),
        is_absent(d, join_text(home, ".bash_login"@)),
        is_absent(d, join_text(home, ".profile"@)),
    ensures
        startup_files_of(e, d) matches Ok(files) && forall|k: int|
            0 <= k < files.len() ==> is_absent(d, #[trigger] files[k]),
{
    let system = text_bytes("/etc/bash.bashrc"@);
    let own = join_text(home, ".bashrc"@);
    let profile = text_bytes("/etc/profile"@);
    lemma_first_login(d, home);
    let one = seq![system];
    let two = crate::path::with_path(one, own);
    lemma_all_absent(d, one, own);
    lemma_all_absent(d, two, profile);
}

proof fn lemma_present(d: DiskView)
    ensures
        discovery::loader_present(d) <==> inspect(
            d,
            text_bytes("/usr/share/bash-completion/bash_completion"@),
        ) is Ok || inspect(d, text_bytes("/etc/bash_completion"@)) is Ok || inspect(
            d,
            text_bytes("/usr/local/share/bash-completion/bash_completion"@),
        ) is Ok || inspect(
            d,
            text_bytes("/usr/local/etc/profile.d/bash_completion.sh"@),
        ) is Ok || inspect(
            d,
            text_bytes("/opt/homebrew/etc/profile.d/bash_completion.sh"@),
        ) is Ok,
{
    let paths = loader_paths();
    assert(paths.len() == 5);
    assert(discovery::is_there(d, paths[0]) == inspect(
        d,
        text_bytes("/usr/share/bash-completion/bash_completion"@),
    ) is Ok);
    assert(discovery::is_there(d, paths[1]) == inspect(
        d,
        text_bytes("/etc/bash_completion"@),
    ) is Ok);
    assert(discovery::is_there(d, paths[2]) == inspect(
        d,
        text_bytes("/usr/local/share/bash-completion/bash_completion"@),
    ) is Ok);
    assert(discovery::is_there(d, paths[3]) == inspect(
        d,
        text_bytes("/usr/local/etc/profile.d/bash_completion.sh"@),
    ) is Ok);
    assert(discovery::is_there(d, paths[4]) == inspect(
        d,
        text_bytes("/opt/homebrew/etc/profile.d/bash_completion.sh"@),
    ) is Ok);
}

/// Whether a file is one at which the startup of Bash begins: the startup file and the profile of the
/// system, the user's `.bashrc`, and the first that is there of the user's `.bash_profile`,
/// `.bash_login` and `.profile`.
pub open spec fn begins_startup(d: DiskView, home: Seq<u8>, file: Seq<u8>) -> bool {
    let is_here = |name: Seq<char>| crate::fs::file_view(d, join_text(home, name))->Ok_0 is Some;
    ||| file == text_bytes("/etc/bash.bashrc"@)
    ||| file == text_bytes("/etc/profile"@)
    ||| file == join_text(home, ".bashrc"@)
    ||| file == join_text(home, ".bash_profile"@) && is_here(".bash_profile"@)
    ||| file == join_text(home, ".bash_login"@) && is_here(".bash_login"@) && !is_here(
        ".bash_profile"@,
    )
    ||| file == join_text(home, ".profile"@) && is_here(".profile"@) && !is_here(".bash_login"@)
        && !is_here(".bash_profile"@)
}

proof fn lemma_with_path(list: Seq<Seq<u8>>, path: Seq<u8>, other: Seq<u8>)
    ensures
        holds_path(with_path(list, path), path),
        holds_path(list, other) ==> holds_path(with_path(list, path), other),
        forall|k: int|
            0 <= k < with_path(list, path).len() ==> (#[trigger] with_path(list, path)[k] == path
                || list.contains(with_path(list, path)[k])),
{
    let all = with_path(list, path);
    if holds_path(list, other) {
        let i = choose|i: int| 0 <= i < list.len() && same_path(#[trigger] list[i], other);
        assert(all[i] == list[i]);
    }
    if !holds_path(list, path) {
        assert(all[list.len() as int] == path);
    }
    assert forall|k: int| 0 <= k < all.len() implies (#[trigger] all[k] == path || list.contains(
        all[k],
    )) by {
        if k < list.len() {
            assert(all[k] == list[k]);
        }
    }
}

/// The search for a loader begins at the files at which the startup of Bash begins, and at no other.
pub proof fn law_startup_begins_at_the_files_of_bash(
    e: EnvironmentView,
    d: DiskView,
    home: Seq<u8>,
    file: Seq<u8>,
)
    requires
        home_dir(e) == Ok::<Seq<u8>, ErrorView>(home),
        login_files_are_readable(d, home),
    ensures
        startup_files_of(e, d) matches Ok(files) && {
            &&& begins_startup(d, home, file) ==> holds_path(files, file)
            &&& forall|k: int|
                0 <= k < files.len() ==> begins_startup(d, home, #[trigger] files[k])
        },
{
    lemma_first_login(d, home);
    let system = text_bytes("/etc/bash.bashrc"@);
    let profile = text_bytes("/etc/profile"@);
    let own = join_text(home, ".bashrc"@);
    let first = seq![system];
    let second = with_path(first, own);
    let third = with_path(second, profile);
    let login = discovery::first_login_file(d, discovery::login_files(home), 0)->Ok_0;
    assert(same_path(first[0], system));
    lemma_with_path(first, own, system);
    lemma_with_path(second, profile, own);
    lemma_with_path(second, profile, system);
    assert forall|k: int| 0 <= k < third.len() implies begins_startup(d, home, #[trigger] third[k]) by {
        if third[k] != profile {
            let j = choose|j: int| 0 <= j < second.len() && second[j] == third[k];
            if second[j] != own {
                assert(first.contains(second[j]));
            }
        }
    }
    match login {
        Some(there) => {
            let all = with_path(third, there);
            lemma_with_path(third, there, system);
            lemma_with_path(third, there, own);
            lemma_with_path(third, there, profile);
            assert forall|k: int| 0 <= k < all.len() implies begins_startup(
                d,
                home,
                #[trigger] all[k],
            ) by {
                if all[k] != there {
                    let j = choose|j: int| 0 <= j < third.len() && third[j] == all[k];
                    assert(begins_startup(d, home, third[j]));
                }
            }
        },
        None => {},
    }
}

/// A loader that any of the startup files of Bash loads is found, unless the search fails: it is not
/// taken for one that is not wired.
pub proof fn law_wired_loaders_are_not_overlooked(
    e: EnvironmentView,
    d: DiskView,
    home: Seq<u8>,
    file: Seq<u8>,
)
    requires
        home_dir(e) == Ok::<Seq<u8>, ErrorView>(home),
        login_files_are_readable(d, home),
        d.nodes.dom().finite(),
        begins_startup(d, home, file),
        forall|other: Seq<u8>|
            same_path(other, file) && begins_startup(d, home, other) ==> #[trigger] loads(d, other),
    ensures
        loader_of(e, d) matches Ok(status) ==> status is ActiveNow || (status matches
            LoaderView::WiredInStartup(path) && loads(d, path)),
{
    law_startup_begins_at_the_files_of_bash(e, d, home, file);
    let files = startup_files_of(e, d)->Ok_0;
    law_wiring_is_found(e, d, files);
    let k = choose|k: int| 0 <= k < files.len() && same_path(#[trigger] files[k], file);
    let start = seq![Probe::File(files[k])];
    assert(begins_startup(d, home, files[k]));
    assert(loads(d, files[k]));
    assert(leads_in(e, d, start[0], files[k], 0));
    assert(leads_to(e, d, start, files[k]));
}

} // verus!

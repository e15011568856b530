//! What holds of the reading of shell commands.
use vstd::prelude::*;

use crate::laws::blocks::lemma_char_of_line;
use crate::laws::lines::{joined, lemma_lines_whole};
use crate::shell::syntax::{
    announced, char_at, command_lines_from, command_lines_of, commands_from, commands_of,
    ends_document, finish, new_reader, new_scanner, read_char, scan_char, scan_line, source_target,
    source_targets, start_line, targets_of, unquoted, Reader, Reading, Scanner, Scanning,
};
use crate::text::{lines_of, without_last};

verus! {

/// Whether a text neither quotes nor escapes anything.
pub open spec fn is_bare(s: Seq<char>) -> bool {
    forall|k: int|
        0 <= k < s.len() ==> #[trigger] s[k] != '\'' && s[k] != '"' && s[k] != '\\'
}

/// Whether a reader is outside of quotes and escapes.
spec fn is_open(s: Reader) -> bool {
    s.quote is None && !s.escaped
}

/// Whether the current word of a reader began before a position.
spec fn begins_before(s: Reader, i: int) -> bool {
    s.start matches Some(begin) ==> 0 <= begin <= i
}

/// What is read of a line up to a blank is the same whatever comment follows.
proof fn lemma_comment(a: Seq<char>, rest: Seq<char>, i: int, s: Reader)
    requires
        is_bare(a),
        0 <= i <= a.len() + 1,
        is_open(s),
        begins_before(s, i),
        i == a.len() + 1 ==> s.start is None,
    ensures
        commands_from(a + seq![' ', '#'] + rest, i, s) == commands_from(a + seq![' '], i, s),
    decreases a.len() + 1 - i,
{
    let line = a + seq![' ', '#'] + rest;
    let short = a + seq![' '];
    let n = a.len() as int;
    if i == n + 1 {
        assert(line[i] == '#');
        assert(read_char(line, i, s) == Reading::Comment);
    } else {
        assert(line[i] == short[i]);
        assert(i < n ==> short[i] == a[i]);
        assert(i < n ==> char_at(line, i + 1) == char_at(short, i + 1));
        match s.start {
            Some(begin) => {
                assert(line.subrange(begin, i) =~= short.subrange(begin, i));
            },
            None => {},
        }
        assert(read_char(line, i, s) == read_char(short, i, s));
        match read_char(short, i, s) {
            Reading::Next(next, j) => {
                assert(j <= n + 1) by {
                    if j == i + 2 {
                        assert(short[i + 1] == short[i]);
                    }
                }
                lemma_comment(a, rest, j, next);
            },
            _ => {},
        }
    }
}

/// What follows a number sign behind a blank is not read.
pub proof fn law_comments_are_not_read(a: Seq<char>, rest: Seq<char>)
    requires
        is_bare(a),
    ensures
        commands_of(a + seq![' ', '#'] + rest) == commands_of(a + seq![' ']),
        source_targets(a + seq![' ', '#'] + rest) == source_targets(a + seq![' ']),
        source_targets(seq!['#'] + rest) == Seq::<Seq<char>>::empty(),
{
    lemma_comment(a, rest, 0, new_reader());
    let line = seq!['#'] + rest;
    assert(line[0] == '#');
    assert(read_char(line, 0, new_reader()) == Reading::Comment);
    assert(commands_of(line) == finish(line, new_reader()));
}

/// Whether a character, with what stands around it, makes a line one that needs more of a shell:
/// it opens or closes a subshell, redirects, substitutes, pipes or sends to the background.
pub open spec fn needs_a_shell(a: Seq<char>, c: char, rest: Seq<char>) -> bool {
    ||| c == '(' || c == ')' || c == '<' || c == '>' || c == '`'
    ||| c == '$' && rest.len() > 0 && rest[0] == '('
    ||| (c == '|' || c == '&') && !(a.len() > 0 && a.last() == c) && !(rest.len() > 0 && rest[0]
        == c)
}

proof fn lemma_unclear(a: Seq<char>, c: char, rest: Seq<char>, i: int, s: Reader)
    requires
        is_bare(a),
        !a.contains('#'),
        needs_a_shell(a, c, rest),
        0 <= i <= a.len(),
        is_open(s),
    ensures
        commands_from(a + seq![c] + rest, i, s) == Seq::<Seq<Seq<char>>>::empty(),
    decreases a.len() - i,
{
    let line = a + seq![c] + rest;
    let n = a.len() as int;
    assert(line[n] == c);
    assert(char_at(line, n + 1) == (if rest.len() > 0 {
        Some(rest[0])
    } else {
        None
    })) by {
        if rest.len() > 0 {
            assert(line[n + 1] == rest[0]);
        }
    }
    if i < n {
        assert(line[i] == a[i]);
        assert(a[i] != '#');
        match read_char(line, i, s) {
            Reading::Next(next, j) => {
                assert(j <= n) by {
                    if j == i + 2 && i + 1 == n {
                        assert(a.last() == a[i]);
                        assert(line[i + 1] == c);
                    }
                }
                lemma_unclear(a, c, rest, j, next);
            },
            _ => {},
        }
    }
}

/// A line with a subshell, a redirection, a substitution, a pipeline or a background job holds
/// no command that counts.
pub proof fn law_child_processes_do_not_count(a: Seq<char>, c: char, rest: Seq<char>)
    requires
        is_bare(a),
        !a.contains('#'),
        needs_a_shell(a, c, rest),
    ensures
        commands_of(a + seq![c] + rest) == Seq::<Seq<Seq<char>>>::empty(),
        source_targets(a + seq![c] + rest) == Seq::<Seq<char>>::empty(),
{
    lemma_unclear(a, c, rest, 0, new_reader());
}

/// Whether a text is one word that the shell takes as it is.
pub open spec fn is_plain_word(word: Seq<char>) -> bool {
    &&& word.len() > 0
    &&& forall|k: int|
        0 <= k < word.len() ==> 'a' <= #[trigger] word[k] <= 'z' || word[k] == '.'
}

/// A literal in single quotes.
pub open spec fn literal(text: Seq<char>) -> Seq<char> {
    seq!['\''] + text + seq!['\'']
}

/// A line of a word and a literal, behind some blanks.
pub open spec fn literal_command(indent: nat, word: Seq<char>, text: Seq<char>) -> Seq<char> {
    Seq::new(indent, |k: int| ' ') + word + seq![' '] + literal(text)
}

proof fn lemma_blanks(line: Seq<char>, indent: nat, i: int)
    requires
        0 <= i <= indent <= line.len(),
        forall|k: int| 0 <= k < indent ==> #[trigger] line[k] == ' ',
    ensures
        commands_from(line, i, new_reader()) == commands_from(line, indent as int, new_reader()),
    decreases indent - i,
{
    if i < indent {
        assert(line[i] == ' ');
        assert(read_char(line, i, new_reader()) == Reading::Next(new_reader(), i + 1));
        lemma_blanks(line, indent, i + 1);
    }
}

proof fn lemma_word(line: Seq<char>, from: int, to: int, i: int, s: Reader)
    requires
        0 <= from <= i <= to <= line.len(),
        from < to,
        forall|k: int|
            from <= k < to ==> 'a' <= #[trigger] line[k] <= 'z' || line[k] == '.',
        s == (Reader {
            start: if i == from {
                None
            } else {
                Some(from)
            },
            ..new_reader()
        }),
    ensures
        commands_from(line, i, s) == commands_from(
            line,
            to,
            (Reader { start: Some(from), ..new_reader() }),
        ),
    decreases to - i,
{
    if i < to {
        assert('a' <= line[i] <= 'z' || line[i] == '.');
        let next = Reader { start: Some(from), ..new_reader() };
        assert(read_char(line, i, s) == Reading::Next(next, i + 1));
        lemma_word(line, from, to, i + 1, next);
    }
}

proof fn lemma_literal(line: Seq<char>, to: int, i: int, s: Reader)
    requires
        0 <= i <= to < line.len(),
        s.quote == Some('\''),
        !s.escaped,
        forall|k: int| i <= k < to ==> #[trigger] line[k] != '\'',
        line[to] == '\'',
    ensures
        commands_from(line, i, s) == commands_from(line, to + 1, (Reader { quote: None, ..s })),
    decreases to - i,
{
    if i < to {
        assert(line[i] != '\'');
        assert(read_char(line, i, s) == Reading::Next(s, i + 1));
        lemma_literal(line, to, i + 1, s);
    } else {
        assert(read_char(line, i, s) == Reading::Next((Reader { quote: None, ..s }), i + 1));
    }
}

/// Text in single quotes is one word, whatever it holds: it neither ends the command nor begins
/// another. So it is the operand of a `source` command or of `.`, and of no other, and without
/// its quotes it is the text.
pub proof fn law_literals_are_one_word(indent: nat, word: Seq<char>, text: Seq<char>)
    requires
        is_plain_word(word),
        !text.contains('\''),
    ensures
        commands_of(literal_command(indent, word, text)) == seq![seq![word, literal(text)]],
        source_targets(literal_command(indent, word, text)) == (if word == "source"@ || word
            == "."@ {
            seq![literal(text)]
        } else {
            Seq::<Seq<char>>::empty()
        }),
        unquoted(literal(text)) == text,
{
    let line = literal_command(indent, word, text);
    let n = indent as int;
    let m = n + word.len();
    let end = m + 2 + text.len();
    assert forall|k: int| 0 <= k < n implies #[trigger] line[k] == ' ' by {}
    lemma_blanks(line, indent, 0);
    assert forall|k: int| n <= k < m implies 'a' <= #[trigger] line[k] <= 'z' || line[k]
        == '.' by {
        assert(line[k] == word[k - n]);
    }
    lemma_word(line, n, m, n, new_reader());
    let first = Reader { start: Some(n), ..new_reader() };
    assert(line[m] == ' ');
    assert(line.subrange(n, m) =~= word);
    let second = Reader { words: seq![word], ..new_reader() };
    assert(new_reader().words.push(word) =~= seq![word]);
    assert(read_char(line, m, first) == Reading::Next(second, m + 1));
    assert(commands_from(line, m, first) == commands_from(line, m + 1, second));
    assert(line[m + 1] == '\'');
    let third = Reader { quote: Some('\''), start: Some(m + 1), ..second };
    assert(read_char(line, m + 1, second) == Reading::Next(third, m + 2));
    assert(commands_from(line, m + 1, second) == commands_from(line, m + 2, third));
    assert forall|k: int| m + 2 <= k < end implies #[trigger] line[k] != '\'' by {
        assert(line[k] == text[k - m - 2]);
    }
    assert(line[end] == '\'');
    lemma_literal(line, end, m + 2, third);
    let fourth = Reader { quote: None, ..third };
    assert(line.len() == end + 1);
    assert(commands_from(line, end + 1, fourth) == finish(line, fourth));
    assert(line.subrange(m + 1, end + 1) =~= literal(text));
    assert(seq![word].push(literal(text)) =~= seq![word, literal(text)]);
    assert(finish(line, fourth) =~= seq![seq![word, literal(text)]]);
    assert(literal(text).subrange(1, literal(text).len() - 1) =~= text);
    let words = seq![word, literal(text)];
    let commands = seq![words];
    assert(commands_of(line) == commands);
    reveal_strlit("then");
    reveal_strlit("do");
    reveal_strlit("source");
    reveal_strlit(".");
    assert(targets_of(commands, 0) == Seq::<Seq<char>>::empty());
    assert(targets_of(commands, 1) == (match source_target(words) {
        Some(target) => Seq::<Seq<char>>::empty().push(target),
        None => Seq::<Seq<char>>::empty(),
    }));
    if word == "then"@ || word == "do"@ {
        assert(literal(text)[0] == '\'');
        assert(source_target(words) is None);
    }
    assert(Seq::<Seq<char>>::empty().push(literal(text)) =~= seq![literal(text)]);
}

/// Whether a list is what is left of another one when some of its items are left out.
pub open spec fn is_selection(part: Seq<Seq<char>>, all: Seq<Seq<char>>) -> bool
    decreases all.len(),
{
    part.len() == 0 || all.len() > 0 && (part[0] == all[0] && is_selection(
        part.skip(1),
        all.skip(1),
    ) || is_selection(part, all.skip(1)))
}

/// Lines without their line feeds.
pub open spec fn bare_lines(lines: Seq<Seq<char>>) -> Seq<Seq<char>> {
    lines.map_values(|line: Seq<char>| without_last(line, '\n'))
}

proof fn lemma_selected(lines: Seq<Seq<char>>, n: int, s: Scanner)
    requires
        0 <= n <= lines.len(),
    ensures
        command_lines_from(lines, n, s) matches Some(found) ==> is_selection(
            found,
            bare_lines(lines).skip(n),
        ),
    decreases lines.len() - n,
{
    let all = bare_lines(lines).skip(n);
    if n < lines.len() {
        assert(all.skip(1) =~= bare_lines(lines).skip(n + 1));
        assert(all[0] == without_last(lines[n], '\n'));
        if s.documents.len() > 0 {
            let rest = if ends_document(lines[n], s.documents[0]) {
                s.documents.skip(1)
            } else {
                s.documents
            };
            lemma_selected(lines, n + 1, Scanner { documents: rest, ..s });
        } else {
            match scan_line(lines[n], 0, start_line(s)) {
                Some(next) => {
                    lemma_selected(lines, n + 1, next);
                    match command_lines_from(lines, n + 1, next) {
                        Some(rest) => {
                            let found = seq![without_last(lines[n], '\n')] + rest;
                            assert(found.skip(1) =~= rest);
                        },
                        None => {},
                    }
                },
                None => {},
            }
        }
    }
}

/// The lines that hold commands are lines of the text, in their order and as they are.
pub proof fn law_command_lines_are_lines(contents: Seq<char>)
    ensures
        is_selection(command_lines_of(contents), bare_lines(lines_of(contents))),
{
    lemma_selected(lines_of(contents), 0, new_scanner());
    assert(bare_lines(lines_of(contents)).skip(0) =~= bare_lines(lines_of(contents)));
}

/// Whether a text holds no quote, no backslash and no less-than sign.
pub open spec fn is_simple(text: Seq<char>) -> bool {
    !text.contains('\'') && !text.contains('"') && !text.contains('\\') && !text.contains('<')
}

/// A scanner that nothing is left open in.
pub open spec fn is_at_rest(s: Scanner) -> bool {
    s.quote is None && s.documents.len() == 0 && !s.continued && !s.escaped
}

/// Up to a position before which a line is simple, nothing is left open.
pub proof fn lemma_simple_scan(line: Seq<char>, i: int, end: int, s: Scanner)
    requires
        0 <= i <= end <= line.len(),
        is_simple(line.take(end)),
        is_at_rest(s),
    ensures
        end == line.len() ==> (scan_line(line, i, s) matches Some(next) && is_at_rest(next)
            && next.eligible == s.eligible),
        !line.take(end).contains('#') ==> exists|t: Scanner|
            is_at_rest(t) && scan_line(line, i, s) == #[trigger] scan_line(line, end, t),
    decreases end - i,
{
    if i < end {
        let front = line.take(end);
        assert(front[i] == line[i]);
        match scan_char(line, i, s) {
            Scanning::Next(next, j) => {
                lemma_simple_scan(line, j, end, next);
            },
            _ => {
                assert(front.contains('#'));
            },
        }
    } else {
        assert(scan_line(line, i, s) == scan_line(line, end, s));
    }
}

pub proof fn lemma_simple_lines(lines: Seq<Seq<char>>, n: int, m: int, s: Scanner)
    requires
        0 <= n <= m <= lines.len(),
        forall|k: int| n <= k < m ==> is_simple(#[trigger] lines[k]),
        is_at_rest(s),
    ensures
        m == lines.len() ==> command_lines_from(lines, n, s) == Some(bare_lines(lines).skip(n)),
        exists|t: Scanner|
            is_at_rest(t) && (#[trigger] command_lines_from(lines, m, t) is None ==>
                command_lines_from(lines, n, s) is None),
    decreases m - n,
{
    if n < m {
        let line = lines[n];
        assert(is_simple(lines[n]));
        assert(line.take(line.len() as int) =~= line);
        lemma_simple_scan(line, 0, line.len() as int, start_line(s));
        let next = scan_line(line, 0, start_line(s))->0;
        lemma_simple_lines(lines, n + 1, m, next);
        let all = bare_lines(lines);
        assert(seq![without_last(line, '\n')] + all.skip(n + 1) =~= all.skip(n));
    } else {
        assert(bare_lines(lines).skip(n) =~= Seq::empty() || n < lines.len());
        assert(is_at_rest(s) && (command_lines_from(lines, m, s) is None
            ==> command_lines_from(lines, n, s) is None));
    }
}

/// Of a text without quotes, backslashes and less-than signs every line holds commands.
pub proof fn law_simple_lines_hold_commands(contents: Seq<char>)
    requires
        is_simple(contents),
    ensures
        command_lines_of(contents) == bare_lines(lines_of(contents)),
{
    let lines = lines_of(contents);
    lemma_lines_whole(contents);
    assert forall|k: int| 0 <= k < lines.len() implies is_simple(#[trigger] lines[k]) by {
        lemma_simple_line(lines, k);
    }
    lemma_simple_lines(lines, 0, lines.len() as int, new_scanner());
    assert(bare_lines(lines).skip(0) =~= bare_lines(lines));
}

proof fn lemma_simple_line(lines: Seq<Seq<char>>, k: int)
    requires
        0 <= k < lines.len(),
        is_simple(joined(lines)),
    ensures
        is_simple(lines[k]),
{
    let line = lines[k];
    assert forall|i: int| 0 <= i < line.len() implies joined(lines).contains(
        #[trigger] line[i],
    ) by {
        lemma_char_of_line(lines, k, i);
    }
}

/// Behind simple lines, a here-document with a delimiter that is not understood leaves no line
/// that holds commands.
pub proof fn law_unsupported_documents_hide_everything(contents: Seq<char>, n: int, i: int)
    requires
        ({
            let lines = lines_of(contents);
            &&& 0 <= n < lines.len()
            &&& forall|k: int| 0 <= k < n ==> is_simple(#[trigger] lines[k])
            &&& 0 <= i < lines[n].len()
            &&& is_simple(lines[n].take(i))
            &&& !lines[n].take(i).contains('#')
            &&& lines[n][i] == '<'
            &&& char_at(lines[n], i + 1) == Some('<')
            &&& char_at(lines[n], i + 2) != Some('<')
            &&& announced(lines[n], i + 2) is None
        }),
    ensures
        command_lines_of(contents) == Seq::<Seq<char>>::empty(),
{
    let lines = lines_of(contents);
    let line = lines[n];
    assert forall|t: Scanner| is_at_rest(t) implies #[trigger] command_lines_from(
        lines,
        n,
        t,
    ) is None by {
        lemma_simple_scan(line, 0, i, start_line(t));
        let u = choose|u: Scanner|
            is_at_rest(u) && scan_line(line, 0, start_line(t)) == #[trigger] scan_line(line, i, u);
        assert(scan_char(line, i, u) == Scanning::Unsupported);
        assert(scan_line(line, i, u) is None);
    }
    lemma_simple_lines(lines, 0, n, new_scanner());
}

} // verus!

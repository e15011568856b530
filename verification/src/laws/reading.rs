//! Which lines of a startup file count, and how quoted words are read.
use vstd::prelude::*;

use crate::disk::{inspect, DiskView};
use crate::error::ErrorView;
use crate::laws::discovery::loads;
use crate::laws::lines::{is_line, joined, lemma_lines_of_joined, lemma_lines_whole, whole_lines};
use crate::laws::loaders::{
    is_known_loader, is_ordinary, is_word, lemma_active, lemma_known_loader, lemma_loader_word,
    lemma_read_word, lemma_source_target,
};
use crate::laws::sourcing::quoted_in;
use crate::laws::syntax::{bare_lines, is_at_rest, is_simple};
use crate::managed_block::profile_text;
use crate::shell::discovery::{active_lines, any_sources, is_there, loader_paths, sources};
use crate::shell::syntax::{
    announced, command_lines_from, command_lines_of, commands_from, commands_of, delimiter_end,
    ends_document, ends_word, finish, holds_commands, new_reader, new_scanner, read_char, scan_char,
    scan_line, skip_blanks, source_targets, start_line, targets_of, unquoted, without_tabs,
    Document, Reader, Reading, Scanner, Scanning,
};
use crate::text::{is_space, lines_of, text_bytes, without_last};

verus! {

/// A part of a line: text that the shell takes as it is, or text in quotes.
pub enum Part {
    Plain(Seq<char>),
    Quoted(char, Seq<char>),
}

/// Whether a part leaves nothing open: plain text has no quotes, escapes, here-documents and
/// comments in it, and quoted text has neither the quote nor escapes in it.
pub open spec fn is_closed_part(part: Part) -> bool {
    match part {
        Part::Plain(text) => is_simple(text) && !text.contains('#'),
        Part::Quoted(quote, text) => (quote == '\'' || quote == '"') && !text.contains(quote)
            && !text.contains('\\'),
    }
}

pub open spec fn part_text(part: Part) -> Seq<char> {
    match part {
        Part::Plain(text) => text,
        Part::Quoted(quote, text) => quoted_in(quote, text),
    }
}

/// The line that some parts make up.
pub open spec fn line_of(parts: Seq<Part>) -> Seq<char>
    decreases parts.len(),
{
    if parts.len() == 0 {
        Seq::empty()
    } else {
        part_text(parts[0]) + line_of(parts.skip(1))
    }
}

/// Whether a line, with or without its line feed, is made of parts that leave nothing open.
pub open spec fn is_closed_line(line: Seq<char>) -> bool {
    exists|parts: Seq<Part>|
        (forall|k: int| 0 <= k < parts.len() ==> is_closed_part(#[trigger] parts[k])) && (line
            == #[trigger] line_of(parts) || line == line_of(parts) + seq!['\n'])
}

/// Quoted text is passed over up to the end of the quotes.
proof fn lemma_scan_quoted(line: Seq<char>, i: int, end: int, s: Scanner)
    requires
        0 <= i <= end < line.len(),
        s.quote == Some(line[end]),
        !s.escaped,
        forall|k: int| i <= k < end ==> #[trigger] line[k] != line[end] && line[k] != '\\',
        line[end] == '\'' || line[end] == '"',
    ensures
        scan_line(line, i, s) == scan_line(line, end + 1, (Scanner { quote: None, ..s })),
    decreases end - i,
{
    if i < end {
        assert(line[i] != line[end]);
        assert(scan_char(line, i, s) == Scanning::Next(s, i + 1));
        lemma_scan_quoted(line, i + 1, end, s);
    } else {
        assert(scan_char(line, i, s) == Scanning::Next((Scanner { quote: None, ..s }), i + 1));
    }
}

/// Plain text is passed over.
proof fn lemma_scan_plain(line: Seq<char>, i: int, end: int, s: Scanner)
    requires
        0 <= i <= end <= line.len(),
        s.quote is None,
        !s.escaped,
        forall|k: int|
            i <= k < end ==> #[trigger] line[k] != '\'' && line[k] != '"' && line[k] != '\\'
                && line[k] != '<' && line[k] != '#',
    ensures
        exists|t: bool| #[trigger]
            scan_line(line, end, (Scanner { boundary: t, ..s })) == scan_line(line, i, s),
    decreases end - i,
{
    if i < end {
        assert(line[i] != '\'');
        let next = Scanner { boundary: ends_word(line[i]), ..s };
        assert(scan_char(line, i, s) == Scanning::Next(next, i + 1));
        lemma_scan_plain(line, i + 1, end, next);
        let t = choose|t: bool| #[trigger]
            scan_line(line, end, (Scanner { boundary: t, ..next })) == scan_line(line, i + 1, next);
        assert(scan_line(line, end, (Scanner { boundary: t, ..s })) == scan_line(line, i, s));
    } else {
        assert(scan_line(line, end, (Scanner { boundary: s.boundary, ..s })) == scan_line(
            line,
            i,
            s,
        ));
    }
}

/// A line of closed parts leaves a scanner as it was.
proof fn lemma_scan_parts(line: Seq<char>, i: int, parts: Seq<Part>, s: Scanner)
    requires
        0 <= i <= line.len(),
        forall|k: int| 0 <= k < parts.len() ==> is_closed_part(#[trigger] parts[k]),
        line.skip(i) == line_of(parts) || line.skip(i) == line_of(parts) + seq!['\n'],
        is_at_rest(s),
    ensures
        scan_line(line, i, s) matches Some(next) && is_at_rest(next) && next.eligible == s.eligible,
    decreases parts.len(),
{
    if parts.len() == 0 {
        if i < line.len() {
            assert(line.skip(i) =~= seq!['\n']);
            assert(line[i] == line.skip(i)[0]);
            assert(line.len() == i + 1);
            let next = Scanner { boundary: true, ..s };
            assert(is_space('\n'));
            assert(scan_char(line, i, s) == Scanning::Next(next, i + 1));
            assert(scan_line(line, i + 1, next) == Some(next));
        }
    } else {
        let part = parts[0];
        let text = part_text(part);
        let rest = parts.skip(1);
        let end = i + text.len();
        assert forall|k: int| 0 <= k < rest.len() implies is_closed_part(#[trigger] rest[k]) by {
            assert(rest[k] == parts[k + 1]);
        }
        assert(line.skip(i).len() >= text.len());
        assert forall|k: int| 0 <= k < text.len() implies line[i + k] == #[trigger] text[k] by {
            assert(line.skip(i)[k] == line[i + k]);
        }
        assert(line.skip(end) =~= line.skip(i).skip(text.len() as int));
        if line.skip(i) == line_of(parts) {
            assert(line.skip(end) =~= line_of(rest));
        } else {
            assert(line.skip(end) =~= line_of(rest) + seq!['\n']);
        }
        assert(is_closed_part(parts[0]));
        match part {
            Part::Plain(t) => {
                assert forall|k: int| i <= k < end implies #[trigger] line[k] != '\'' && line[k]
                    != '"' && line[k] != '\\' && line[k] != '<' && line[k] != '#' by {
                    assert(line[k] == t[k - i]);
                    assert(t.contains(t[k - i]));
                }
                lemma_scan_plain(line, i, end, s);
                let b = choose|b: bool| #[trigger]
                    scan_line(line, end, (Scanner { boundary: b, ..s })) == scan_line(line, i, s);
                lemma_scan_parts(line, end, rest, Scanner { boundary: b, ..s });
            },
            Part::Quoted(quote, t) => {
                assert(line[i] == text[0]);
                assert(line[end - 1] == text[text.len() - 1]);
                let inside = Scanner { quote: Some(quote), boundary: false, ..s };
                assert(scan_char(line, i, s) == Scanning::Next(inside, i + 1));
                assert forall|k: int| i + 1 <= k < end - 1 implies #[trigger] line[k] != line[end
                    - 1] && line[k] != '\\' by {
                    assert(line[k] == text[k - i]);
                    assert(text[k - i] == t[k - i - 1]);
                    assert(t.contains(t[k - i - 1]));
                }
                lemma_scan_quoted(line, i + 1, end - 1, inside);
                lemma_scan_parts(line, end, rest, Scanner { quote: None, ..inside });
            },
        }
    }
}

/// Lines that leave nothing open count, and what comes behind them counts as it would without them.
proof fn lemma_closed_lines(lines: Seq<Seq<char>>, n: int, m: int, s: Scanner, found: Seq<Seq<char>>)
    requires
        0 <= n <= m <= lines.len(),
        forall|k: int| n <= k < m ==> is_closed_line(#[trigger] lines[k]),
        is_at_rest(s),
        forall|t: Scanner|
            is_at_rest(t) ==> #[trigger] command_lines_from(lines, m, t) == Some(found),
    ensures
        command_lines_from(lines, n, s) == Some(bare_lines(lines).subrange(n, m) + found),
    decreases m - n,
{
    if n < m {
        let line = lines[n];
        assert(is_closed_line(lines[n]));
        let parts = choose|parts: Seq<Part>|
            (forall|k: int| 0 <= k < parts.len() ==> is_closed_part(#[trigger] parts[k])) && (line
                == #[trigger] line_of(parts) || line == line_of(parts) + seq!['\n']);
        assert(line.skip(0) =~= line);
        lemma_scan_parts(line, 0, parts, start_line(s));
        let next = scan_line(line, 0, start_line(s))->0;
        lemma_closed_lines(lines, n + 1, m, next, found);
        let all = bare_lines(lines);
        assert(all[n] == without_last(line, '\n'));
        assert(seq![without_last(line, '\n')] + (all.subrange(n + 1, m) + found) =~= all.subrange(
            n,
            m,
        ) + found);
    } else {
        assert(bare_lines(lines).subrange(n, m) + found =~= found);
    }
}

/// Every line of a text whose lines leave nothing open counts: quotes that are closed on the line
/// hide nothing.
pub proof fn law_closed_lines_count(contents: Seq<char>)
    requires
        forall|k: int|
            0 <= k < lines_of(contents).len() ==> is_closed_line(#[trigger] lines_of(contents)[k]),
    ensures
        command_lines_of(contents) == bare_lines(lines_of(contents)),
{
    let lines = lines_of(contents);
    let none = Seq::<Seq<char>>::empty();
    assert forall|t: Scanner| is_at_rest(t) implies #[trigger] command_lines_from(
        lines,
        lines.len() as int,
        t,
    ) == Some(none) by {}
    lemma_closed_lines(lines, 0, lines.len() as int, new_scanner(), none);
    assert(bare_lines(lines).subrange(0, lines.len() as int) + none =~= bare_lines(lines));
}

/// The line that announces a here-document: plain text, the operator and the delimiter.
pub open spec fn announcing_line(stem: Seq<char>, strips: bool, delimiter: Seq<char>) -> Seq<char> {
    stem + seq!['<', '<'] + (if strips {
        seq!['-']
    } else {
        Seq::empty()
    }) + delimiter + seq!['\n']
}

/// Whether a line ends a here-document: it is the delimiter alone. Tabs may stand before it where
/// the operator says so.
pub open spec fn is_end_of_document(line: Seq<char>, strips: bool, delimiter: Seq<char>) -> bool {
    exists|tabs: nat|
        (tabs > 0 ==> strips) && (line == #[trigger] tabbed(tabs, delimiter) || line == tabbed(
            tabs,
            delimiter,
        ) + seq!['\n'])
}

/// A text behind some tabs.
pub open spec fn tabbed(tabs: nat, text: Seq<char>) -> Seq<char> {
    Seq::new(tabs, |k: int| '\t') + text
}

proof fn lemma_without_tabs(tabs: nat, text: Seq<char>)
    requires
        text.len() > 0,
        text[0] != '\t',
    ensures
        without_tabs(tabbed(tabs, text)) == text,
    decreases tabs,
{
    if tabs > 0 {
        lemma_without_tabs((tabs - 1) as nat, text);
        assert(tabbed(tabs, text)[0] == '\t');
        assert(tabbed(tabs, text).skip(1) =~= tabbed((tabs - 1) as nat, text));
    } else {
        assert(tabbed(tabs, text) =~= text);
    }
}

/// What is left of a text without its tabs is that text behind some tabs.
proof fn lemma_tabs_found(text: Seq<char>) -> (tabs: nat)
    ensures
        text == tabbed(tabs, without_tabs(text)),
    decreases text.len(),
{
    if text.len() > 0 && text[0] == '\t' {
        let fewer = lemma_tabs_found(text.skip(1));
        let tabs = (fewer + 1) as nat;
        assert(text =~= tabbed(tabs, without_tabs(text.skip(1)))) by {
            assert(text =~= seq!['\t'] + text.skip(1));
        }
        tabs
    } else {
        assert(text =~= tabbed(0, text));
        0
    }
}

proof fn lemma_document_end(line: Seq<char>, strips: bool, delimiter: Seq<char>)
    requires
        is_word(delimiter),
    ensures
        ends_document(line, Document { delimiter, strip_tabs: strips }) <==> is_end_of_document(
            line,
            strips,
            delimiter,
        ),
{
    assert(is_ordinary(delimiter[0]));
    assert(is_ordinary(delimiter[delimiter.len() - 1]));
    let body = without_last(line, '\n');
    assert forall|tabs: nat| true implies (without_last(
        #[trigger] tabbed(tabs, delimiter),
        '\n',
    ) == tabbed(tabs, delimiter) && without_last(tabbed(tabs, delimiter) + seq!['\n'], '\n')
        == tabbed(tabs, delimiter)) by {
        assert(tabbed(tabs, delimiter).last() == delimiter.last());
        assert((tabbed(tabs, delimiter) + seq!['\n']).drop_last() =~= tabbed(tabs, delimiter));
    }
    if ends_document(line, Document { delimiter, strip_tabs: strips }) {
        let tabs = if strips {
            lemma_tabs_found(body)
        } else {
            assert(body =~= tabbed(0, delimiter));
            0
        };
        assert(body == tabbed(tabs, delimiter));
        if line.len() > 0 && line.last() == '\n' {
            assert(line =~= tabbed(tabs, delimiter) + seq!['\n']);
        }
    }
    if is_end_of_document(line, strips, delimiter) {
        let tabs = choose|tabs: nat|
            (tabs > 0 ==> strips) && (line == #[trigger] tabbed(tabs, delimiter) || line == tabbed(
                tabs,
                delimiter,
            ) + seq!['\n']);
        lemma_without_tabs(tabs, delimiter);
        assert(tabbed(0, delimiter) =~= delimiter);
    }
}

/// The delimiter word ends where the line does.
proof fn lemma_delimiter_end(line: Seq<char>, from: int, to: int, i: int)
    requires
        0 <= from <= i <= to < line.len(),
        forall|k: int| from <= k < to ==> is_ordinary(#[trigger] line[k]),
        line[to] == '\n',
    ensures
        delimiter_end(line, i, None) == (to, None::<char>),
    decreases to - i,
{
    if i < to {
        assert(is_ordinary(line[i]));
        lemma_delimiter_end(line, from, to, i + 1);
    } else {
        assert(is_space('\n'));
    }
}

/// An announcing line waits for its here-document and holds no commands.
proof fn lemma_announcing(stem: Seq<char>, strips: bool, delimiter: Seq<char>, s: Scanner)
    requires
        is_simple(stem),
        !stem.contains('#'),
        is_word(delimiter),
        !strips ==> delimiter[0] != '-',
        is_at_rest(s),
    ensures
        scan_line(announcing_line(stem, strips, delimiter), 0, s) matches Some(next) && {
            &&& next.quote is None
            &&& !next.continued && !next.escaped
            &&& !next.eligible
            &&& next.documents == seq![Document { delimiter, strip_tabs: strips }]
        },
{
    let line = announcing_line(stem, strips, delimiter);
    let n = stem.len() as int;
    let from = if strips {
        n + 3
    } else {
        n + 2
    };
    let to = from + delimiter.len();
    assert(line.len() == to + 1);
    assert forall|k: int| from <= k < to implies is_ordinary(#[trigger] line[k]) by {
        assert(line[k] == delimiter[k - from]);
    }
    assert(line.subrange(from, to) =~= delimiter);
    assert(line[to] == '\n');
    assert(line[n] == '<' && line[n + 1] == '<');
    assert(is_ordinary(line[from]));
    assert(is_ordinary(delimiter[0]) && is_ordinary(delimiter[delimiter.len() - 1]));
    assert(skip_blanks(line, from) == from);
    lemma_delimiter_end(line, from, to, from);
    assert(unquoted(delimiter) == delimiter);
    assert(!delimiter.contains('\'') && !delimiter.contains('"') && !delimiter.contains('\\')) by {
        assert forall|k: int| 0 <= k < delimiter.len() implies #[trigger] delimiter[k] != '\''
            && delimiter[k] != '"' && delimiter[k] != '\\' by {
            assert(is_ordinary(delimiter[k]));
        }
    }
    let document = Document { delimiter, strip_tabs: strips };
    assert(announced(line, n + 2) == Some(document));
    assert forall|k: int| 0 <= k < n implies #[trigger] line[k] != '\'' && line[k] != '"' && line[k]
        != '\\' && line[k] != '<' && line[k] != '#' by {
        assert(line[k] == stem[k]);
        assert(stem.contains(stem[k]));
    }
    lemma_scan_plain(line, 0, n, s);
    let b = choose|b: bool| #[trigger]
        scan_line(line, n, (Scanner { boundary: b, ..s })) == scan_line(line, 0, s);
    let t = Scanner { boundary: b, ..s };
    let waiting = Scanner {
        eligible: false,
        documents: s.documents.push(document),
        boundary: true,
        ..t
    };
    assert(s.documents.push(document) =~= seq![document]);
    assert(scan_char(line, n, t) == Scanning::Next(waiting, n + 2));
    assert forall|k: int| n + 2 <= k < line.len() implies #[trigger] line[k] != '\'' && line[k]
        != '"' && line[k] != '\\' && line[k] != '<' && line[k] != '#' by {
        if from <= k < to {
            assert(is_ordinary(line[k]));
        }
    }
    lemma_scan_plain(line, n + 2, line.len() as int, waiting);
}

/// While a here-document is waited for, no line counts.
proof fn lemma_waiting(
    lines: Seq<Seq<char>>,
    n: int,
    m: int,
    strips: bool,
    delimiter: Seq<char>,
    s: Scanner,
)
    requires
        0 <= n <= m < lines.len(),
        is_word(delimiter),
        s.documents == seq![Document { delimiter, strip_tabs: strips }],
        forall|k: int|
            n <= k < m ==> !is_end_of_document(#[trigger] lines[k], strips, delimiter),
        is_end_of_document(lines[m], strips, delimiter),
    ensures
        command_lines_from(lines, n, s) == command_lines_from(
            lines,
            m + 1,
            (Scanner { documents: Seq::empty(), ..s }),
        ),
    decreases m - n,
{
    lemma_document_end(lines[n], strips, delimiter);
    if n < m {
        assert(!is_end_of_document(lines[n], strips, delimiter));
        lemma_waiting(lines, n + 1, m, strips, delimiter, s);
    } else {
        assert(s.documents.skip(1) =~= Seq::empty());
    }
}

/// The lines of a here-document do not count, nor does the line that announces it. Lines before and
/// behind it do.
pub proof fn law_documents_hide_their_lines(
    front: Seq<Seq<char>>,
    stem: Seq<char>,
    strips: bool,
    delimiter: Seq<char>,
    body: Seq<Seq<char>>,
    end: Seq<char>,
    back: Seq<Seq<char>>,
)
    requires
        is_simple(stem),
        !stem.contains('#'),
        is_word(delimiter),
        !strips ==> delimiter[0] != '-',
        whole_lines(
            front.push(announcing_line(stem, strips, delimiter)) + body.push(end) + back,
        ),
        forall|k: int| 0 <= k < front.len() ==> is_closed_line(#[trigger] front[k]),
        forall|k: int| 0 <= k < back.len() ==> is_closed_line(#[trigger] back[k]),
        forall|k: int|
            0 <= k < body.len() ==> !is_end_of_document(#[trigger] body[k], strips, delimiter),
        is_end_of_document(end, strips, delimiter),
    ensures
        command_lines_of(
            joined(front.push(announcing_line(stem, strips, delimiter)) + body.push(end) + back),
        ) == bare_lines(front) + bare_lines(back),
{
    let first = announcing_line(stem, strips, delimiter);
    let lines = front.push(first) + body.push(end) + back;
    let n = front.len() as int;
    let m = n + 1 + body.len();
    let len = lines.len() as int;
    lemma_lines_of_joined(lines);
    let none = Seq::<Seq<char>>::empty();
    let all = bare_lines(lines);
    assert(lines[n] == first && lines[m] == end);
    assert forall|t: Scanner| is_at_rest(t) implies #[trigger] command_lines_from(lines, len, t)
        == Some(none) by {}
    assert forall|k: int| m + 1 <= k < len implies is_closed_line(#[trigger] lines[k]) by {
        assert(lines[k] == back[k - m - 1]);
    }
    assert forall|k: int| n + 1 <= k < m implies !is_end_of_document(
        #[trigger] lines[k],
        strips,
        delimiter,
    ) by {
        assert(lines[k] == body[k - n - 1]);
    }
    assert forall|k: int| 0 <= k < n implies is_closed_line(#[trigger] lines[k]) by {
        assert(lines[k] == front[k]);
    }
    assert(all.subrange(m + 1, len) + none =~= bare_lines(back));
    assert forall|t: Scanner| is_at_rest(t) implies #[trigger] command_lines_from(lines, n, t)
        == Some(bare_lines(back)) by {
        lemma_announcing(stem, strips, delimiter, start_line(t));
        let next = scan_line(first, 0, start_line(t))->0;
        lemma_waiting(lines, n + 1, m, strips, delimiter, next);
        let behind = Scanner { documents: Seq::empty(), ..next };
        lemma_closed_lines(lines, m + 1, len, behind, none);
        assert(!holds_commands(next));
    }
    lemma_closed_lines(lines, 0, n, new_scanner(), bare_lines(back));
    assert(all.subrange(0, n) =~= bare_lines(front));
}

/// Quoted text is read up to the end of the quotes.
proof fn lemma_read_quoted(line: Seq<char>, i: int, end: int, s: Reader)
    requires
        0 <= i <= end < line.len(),
        line[end] == '\'' || line[end] == '"',
        s.quote == Some(line[end]),
        !s.escaped,
        forall|k: int|
            i <= k < end ==> #[trigger] line[k] != line[end] && line[k] != '\\' && line[k] != '`'
                && line[k] != '$',
    ensures
        commands_from(line, i, s) == commands_from(line, end + 1, (Reader { quote: None, ..s })),
    decreases end - i,
{
    if i < end {
        assert(line[i] != line[end]);
        assert(read_char(line, i, s) == Reading::Next(s, i + 1));
        lemma_read_quoted(line, i + 1, end, s);
    } else {
        assert(read_char(line, i, s) == Reading::Next((Reader { quote: None, ..s }), i + 1));
    }
}

/// A command that sources a file by its name in quotes, of either kind, has the name in its quotes
/// as its operand, whatever separates words and commands elsewhere.
pub proof fn law_quoted_operands_are_one_word(word: Seq<char>, quote: char, text: Seq<char>)
    requires
        word == "source"@ || word == "."@,
        quote == '\'' || quote == '"',
        forall|k: int|
            0 <= k < text.len() ==> #[trigger] text[k] != quote && text[k] != '\\' && text[k] != '`'
                && text[k] != '$',
    ensures
        source_targets(word + seq![' '] + quoted_in(quote, text)) == seq![quoted_in(quote, text)],
        unquoted(quoted_in(quote, text)) == text,
{
    reveal_strlit("source");
    reveal_strlit(".");
    let operand = quoted_in(quote, text);
    let line = word + seq![' '] + operand;
    let n = word.len() as int;
    let end = line.len() - 1;
    assert forall|k: int| 0 <= k < n implies is_ordinary(#[trigger] line[k]) by {
        assert(line[k] == word[k]);
    }
    assert(line[n] == ' ');
    lemma_read_word(line, 0, n, 0, new_reader());
    let first = Reader { start: Some(0), ..new_reader() };
    assert(line.subrange(0, n) =~= word);
    let second = Reader { words: seq![word], ..new_reader() };
    assert(new_reader().words.push(word) =~= seq![word]);
    assert(read_char(line, n, first) == Reading::Next(second, n + 1));
    assert(line[n + 1] == quote);
    let third = Reader { quote: Some(quote), start: Some(n + 1), ..second };
    assert(read_char(line, n + 1, second) == Reading::Next(third, n + 2));
    assert(line[end] == quote);
    assert forall|k: int| n + 2 <= k < end implies #[trigger] line[k] != line[end] && line[k]
        != '\\' && line[k] != '`' && line[k] != '$' by {
        assert(line[k] == text[k - n - 2]);
    }
    assert(commands_from(line, n, first) == commands_from(line, n + 1, second));
    assert(commands_from(line, n + 1, second) == commands_from(line, n + 2, third));
    lemma_read_quoted(line, n + 2, end, third);
    let fourth = Reader { quote: None, ..third };
    assert(commands_from(line, end + 1, fourth) == finish(line, fourth));
    assert(line.subrange(n + 1, end + 1) =~= operand);
    assert(seq![word].push(operand) =~= seq![word, operand]);
    let words = seq![word, operand];
    assert(finish(line, fourth) =~= seq![words]);
    assert(commands_of(line) == seq![words]);
    lemma_source_target(words, operand);
    assert(targets_of(seq![words], 0) =~= Seq::empty());
    assert(targets_of(seq![words], 1) =~= seq![operand]);
    assert(operand.subrange(1, operand.len() - 1) =~= text);
}

/// A line in an open quote leaves the quote open.
proof fn lemma_scan_open(line: Seq<char>, i: int, quote: char, s: Scanner)
    requires
        0 <= i <= line.len(),
        s.quote == Some(quote),
        !s.escaped,
        forall|k: int| i <= k < line.len() ==> #[trigger] line[k] != quote && line[k] != '\\',
    ensures
        scan_line(line, i, s) == Some(s),
    decreases line.len() - i,
{
    if i < line.len() {
        assert(line[i] != quote);
        assert(scan_char(line, i, s) == Scanning::Next(s, i + 1));
        lemma_scan_open(line, i + 1, quote, s);
    }
}

/// Whether a text has neither a quote nor an escape in it.
pub open spec fn is_within(quote: char, text: Seq<char>) -> bool {
    forall|k: int| 0 <= k < text.len() ==> #[trigger] text[k] != quote && text[k] != '\\'
}

/// The lines within an open quote do not count.
proof fn lemma_open(
    lines: Seq<Seq<char>>,
    n: int,
    m: int,
    quote: char,
    head: Seq<char>,
    tail: Seq<char>,
    s: Scanner,
)
    requires
        0 <= n <= m < lines.len(),
        quote == '\'' || quote == '"',
        s.quote == Some(quote),
        s.documents.len() == 0,
        !s.continued && !s.escaped,
        forall|k: int| n <= k < m ==> is_within(quote, #[trigger] lines[k]),
        is_within(quote, head),
        is_simple(tail),
        !tail.contains('#'),
        lines[m] == head + seq![quote] + tail,
    ensures
        exists|t: Scanner|
            is_at_rest(t) && command_lines_from(lines, n, s) == #[trigger] command_lines_from(
                lines,
                m + 1,
                t,
            ),
    decreases m - n,
{
    let line = lines[n];
    let begin = start_line(s);
    if n < m {
        assert(is_within(quote, lines[n]));
        lemma_scan_open(line, 0, quote, begin);
        match command_lines_from(lines, n + 1, begin) {
            Some(rest) => {},
            None => {},
        }
        lemma_open(lines, n + 1, m, quote, head, tail, begin);
        let t = choose|t: Scanner|
            is_at_rest(t) && command_lines_from(lines, n + 1, begin)
                == #[trigger] command_lines_from(lines, m + 1, t);
        assert(command_lines_from(lines, n, s) == command_lines_from(lines, m + 1, t));
    } else {
        let end = head.len() as int;
        assert(line[end] == quote);
        assert forall|k: int| 0 <= k < end implies #[trigger] line[k] != line[end] && line[k]
            != '\\' by {
            assert(line[k] == head[k]);
        }
        lemma_scan_quoted(line, 0, end, begin);
        let closed = Scanner { quote: None, ..begin };
        assert forall|k: int| end + 1 <= k < line.len() implies #[trigger] line[k] != '\'' && line[k]
            != '"' && line[k] != '\\' && line[k] != '<' && line[k] != '#' by {
            assert(line[k] == tail[k - end - 1]);
            assert(tail.contains(tail[k - end - 1]));
        }
        lemma_scan_plain(line, end + 1, line.len() as int, closed);
        let b = choose|b: bool| #[trigger]
            scan_line(line, line.len() as int, (Scanner { boundary: b, ..closed })) == scan_line(
                line,
                end + 1,
                closed,
            );
        let t = Scanner { boundary: b, ..closed };
        assert(scan_line(line, 0, begin) == Some(t));
        assert(!holds_commands(t));
        assert(is_at_rest(t));
        assert(command_lines_from(lines, n, s) == command_lines_from(lines, m + 1, t));
    }
}

/// Text in quotes that goes over several lines hides all of them: neither the line on which the
/// quote opens, nor those within it, nor the one on which it closes count. Lines before and behind
/// them do.
pub proof fn law_open_quotes_hide_lines(
    front: Seq<Seq<char>>,
    stem: Seq<char>,
    quote: char,
    text: Seq<char>,
    body: Seq<Seq<char>>,
    head: Seq<char>,
    tail: Seq<char>,
    back: Seq<Seq<char>>,
)
    requires
        quote == '\'' || quote == '"',
        is_simple(stem),
        !stem.contains('#'),
        is_within(quote, text),
        is_within(quote, head),
        is_simple(tail),
        !tail.contains('#'),
        whole_lines(
            front.push(stem + seq![quote] + text) + body.push(head + seq![quote] + tail) + back,
        ),
        forall|k: int| 0 <= k < front.len() ==> is_closed_line(#[trigger] front[k]),
        forall|k: int| 0 <= k < back.len() ==> is_closed_line(#[trigger] back[k]),
        forall|k: int| 0 <= k < body.len() ==> is_within(quote, #[trigger] body[k]),
    ensures
        command_lines_of(
            joined(
                front.push(stem + seq![quote] + text) + body.push(head + seq![quote] + tail) + back,
            ),
        ) == bare_lines(front) + bare_lines(back),
{
    let first = stem + seq![quote] + text;
    let last = head + seq![quote] + tail;
    let lines = front.push(first) + body.push(last) + back;
    let n = front.len() as int;
    let m = n + 1 + body.len();
    let len = lines.len() as int;
    lemma_lines_of_joined(lines);
    let none = Seq::<Seq<char>>::empty();
    let all = bare_lines(lines);
    assert(lines[n] == first && lines[m] == last);
    assert forall|t: Scanner| is_at_rest(t) implies #[trigger] command_lines_from(lines, len, t)
        == Some(none) by {}
    assert forall|k: int| m + 1 <= k < len implies is_closed_line(#[trigger] lines[k]) by {
        assert(lines[k] == back[k - m - 1]);
    }
    assert forall|k: int| n + 1 <= k < m implies is_within(quote, #[trigger] lines[k]) by {
        assert(lines[k] == body[k - n - 1]);
    }
    assert forall|k: int| 0 <= k < n implies is_closed_line(#[trigger] lines[k]) by {
        assert(lines[k] == front[k]);
    }
    assert(all.subrange(m + 1, len) + none =~= bare_lines(back));
    assert forall|t: Scanner| is_at_rest(t) implies #[trigger] command_lines_from(lines, n, t)
        == Some(bare_lines(back)) by {
        let begin = start_line(t);
        let at = stem.len() as int;
        assert forall|k: int| 0 <= k < at implies #[trigger] first[k] != '\'' && first[k] != '"'
            && first[k] != '\\' && first[k] != '<' && first[k] != '#' by {
            assert(first[k] == stem[k]);
            assert(stem.contains(stem[k]));
        }
        lemma_scan_plain(first, 0, at, begin);
        let b = choose|b: bool| #[trigger]
            scan_line(first, at, (Scanner { boundary: b, ..begin })) == scan_line(first, 0, begin);
        let here = Scanner { boundary: b, ..begin };
        let inside = Scanner { quote: Some(quote), boundary: false, ..here };
        assert(first[at] == quote);
        assert(scan_char(first, at, here) == Scanning::Next(inside, at + 1));
        assert forall|k: int| at + 1 <= k < first.len() implies #[trigger] first[k] != quote
            && first[k] != '\\' by {
            assert(first[k] == text[k - at - 1]);
        }
        lemma_scan_open(first, at + 1, quote, inside);
        assert(scan_line(first, 0, begin) == Some(inside));
        lemma_open(lines, n + 1, m, quote, head, tail, inside);
        let u = choose|u: Scanner|
            is_at_rest(u) && command_lines_from(lines, n + 1, inside)
                == #[trigger] command_lines_from(lines, m + 1, u);
        lemma_closed_lines(lines, m + 1, len, u, none);
    }
    lemma_closed_lines(lines, 0, n, new_scanner(), bare_lines(back));
    assert(all.subrange(0, n) =~= bare_lines(front));
}

/// A line that goes on in the next one by an escaped line feed does not count, and neither does the
/// next one.
pub proof fn law_continued_lines_do_not_count(
    front: Seq<Seq<char>>,
    stem: Seq<char>,
    next: Seq<char>,
    back: Seq<Seq<char>>,
)
    requires
        is_simple(stem),
        !stem.contains('#'),
        is_closed_line(next),
        whole_lines(front.push(stem + seq!['\\', '\n']).push(next) + back),
        forall|k: int| 0 <= k < front.len() ==> is_closed_line(#[trigger] front[k]),
        forall|k: int| 0 <= k < back.len() ==> is_closed_line(#[trigger] back[k]),
    ensures
        command_lines_of(joined(front.push(stem + seq!['\\', '\n']).push(next) + back))
            == bare_lines(front) + bare_lines(back),
{
    let first = stem + seq!['\\', '\n'];
    let lines = front.push(first).push(next) + back;
    let n = front.len() as int;
    let len = lines.len() as int;
    lemma_lines_of_joined(lines);
    let none = Seq::<Seq<char>>::empty();
    let all = bare_lines(lines);
    assert(lines[n] == first && lines[n + 1] == next);
    assert forall|t: Scanner| is_at_rest(t) implies #[trigger] command_lines_from(lines, len, t)
        == Some(none) by {}
    assert forall|k: int| n + 2 <= k < len implies is_closed_line(#[trigger] lines[k]) by {
        assert(lines[k] == back[k - n - 2]);
    }
    assert forall|k: int| 0 <= k < n implies is_closed_line(#[trigger] lines[k]) by {
        assert(lines[k] == front[k]);
    }
    assert(all.subrange(n + 2, len) + none =~= bare_lines(back));
    let parts = choose|parts: Seq<Part>|
        (forall|k: int| 0 <= k < parts.len() ==> is_closed_part(#[trigger] parts[k])) && (next
            == #[trigger] line_of(parts) || next == line_of(parts) + seq!['\n']);
    assert(next.skip(0) =~= next);
    assert forall|t: Scanner| is_at_rest(t) implies #[trigger] command_lines_from(lines, n, t)
        == Some(bare_lines(back)) by {
        let begin = start_line(t);
        let at = stem.len() as int;
        assert forall|k: int| 0 <= k < at implies #[trigger] first[k] != '\'' && first[k] != '"'
            && first[k] != '\\' && first[k] != '<' && first[k] != '#' by {
            assert(first[k] == stem[k]);
            assert(stem.contains(stem[k]));
        }
        lemma_scan_plain(first, 0, at, begin);
        let b = choose|b: bool| #[trigger]
            scan_line(first, at, (Scanner { boundary: b, ..begin })) == scan_line(first, 0, begin);
        let here = Scanner { boundary: b, ..begin };
        let escaped = Scanner { escaped: true, boundary: false, ..here };
        let ended = Scanner { escaped: false, continued: true, ..escaped };
        assert(first[at] == '\\' && first[at + 1] == '\n');
        assert(scan_char(first, at, here) == Scanning::Next(escaped, at + 1));
        assert(scan_char(first, at + 1, escaped) == Scanning::Next(ended, at + 2));
        assert(scan_line(first, at + 2, ended) == Some(ended));
        assert(scan_line(first, at + 1, escaped) == Some(ended));
        assert(scan_line(first, at, here) == Some(ended));
        assert(!holds_commands(ended));
        lemma_scan_parts(next, 0, parts, start_line(ended));
        let after = scan_line(next, 0, start_line(ended))->0;
        assert(!after.eligible);
        lemma_closed_lines(lines, n + 2, len, after, none);
        assert(command_lines_from(lines, n + 1, ended) == Some(bare_lines(back)));
    }
    lemma_closed_lines(lines, 0, n, new_scanner(), bare_lines(back));
    assert(all.subrange(0, n) =~= bare_lines(front));
}

/// A startup file that sources one of the known loaders by its name in quotes loads it, if the
/// loader is there and no line of the file leaves anything open.
pub proof fn law_quoted_loaders_are_loaded(
    d: DiskView,
    startup: Seq<u8>,
    contents: Seq<char>,
    word: Seq<char>,
    quote: char,
    loader: Seq<char>,
    i: int,
)
    requires
        is_known_loader(loader),
        inspect(d, text_bytes(loader)) is Ok,
        word == "source"@ || word == "."@,
        quote == '\'' || quote == '"',
        profile_text(d, startup) == Ok::<Option<Seq<char>>, ErrorView>(Some(contents)),
        forall|k: int|
            0 <= k < lines_of(contents).len() ==> is_closed_line(#[trigger] lines_of(contents)[k]),
        0 <= i < lines_of(contents).len(),
        ({
            let line = word + seq![' '] + quoted_in(quote, loader);
            lines_of(contents)[i] == line || lines_of(contents)[i] == line + seq!['\n']
        }),
    ensures
        loads(d, startup),
{
    let line = word + seq![' '] + quoted_in(quote, loader);
    let lines = lines_of(contents);
    let bare = bare_lines(lines);
    lemma_known_loader(loader);
    lemma_loader_word(loader);
    lemma_plain_loader(loader);
    law_quoted_operands_are_one_word(word, quote, loader);
    law_closed_lines_count(contents);
    lemma_lines_whole(contents);
    assert(line.last() == quote);
    assert((line + seq!['\n']).drop_last() =~= line);
    assert(bare[i] == line);
    assert forall|k: int| 0 <= k < bare.len() implies !(#[trigger] bare[k]).contains('\n') by {
        assert(is_line(lines[k]));
        assert(bare[k] == without_last(lines[k], '\n'));
        if bare[k].contains('\n') {
            let j = choose|j: int| 0 <= j < bare[k].len() && bare[k][j] == '\n';
            assert(lines[k][j] == '\n');
        }
    }
    lemma_active(bare, i);
    let active = active_lines(contents);
    let k = choose|k: int| 0 <= k < active.len() && active[k] == line;
    assert(unquoted(source_targets(active[k])[0]) == loader);
    assert(sources(active[k], loader));
    assert(any_sources(active, loader));
    let n = choose|n: int| 0 <= n < loader_paths().len() && #[trigger] loader_paths()[n] == loader;
    assert(is_there(d, loader_paths()[n]));
}

#[verifier::spinoff_prover]
proof fn lemma_plain_loader(loader: Seq<char>)
    requires
        is_known_loader(loader),
    ensures
        forall|k: int|
            0 <= k < loader.len() ==> #[trigger] loader[k] != '\'' && loader[k] != '"' && loader[k]
                != '\\' && loader[k] != '`' && loader[k] != '$',
{
    reveal_strlit("/usr/share/bash-completion/bash_completion");
    reveal_strlit("/etc/bash_completion");
    reveal_strlit("/usr/local/share/bash-completion/bash_completion");
    reveal_strlit("/usr/local/etc/profile.d/bash_completion.sh");
    reveal_strlit("/opt/homebrew/etc/profile.d/bash_completion.sh");
}

} // verus!

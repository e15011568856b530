//! Just enough of the shell language to tell which files a startup file sources.
use vstd::prelude::*;

use crate::text;
use crate::text::{is_space, lines_of, string_views, without_last};

verus! {

/// A token without the quotes around it, where one pair of quotes encloses the whole of it.
pub open spec fn unquoted(token: Seq<char>) -> Seq<char> {
    if token.len() >= 2 && token[0] == token.last() && (token[0] == '\'' || token[0] == '"') {
        token.subrange(1, token.len() - 1)
    } else {
        token
    }
}

/// A token without the quotes around it.
pub fn unquote_shell_token(token: &str) -> (r: String)
    ensures
        r@ == unquoted(token@),
{
    let chars = text::to_chars(token);
    let n = chars.len();
    if n >= 2 && chars[0] == chars[n - 1] && (chars[0] == '\'' || chars[0] == '"') {
        text::from_chars(&chars, 1, n - 1)
    } else {
        text::copy(token)
    }
}

/// How far a reader of one line has come: the commands and the words so far, where the current
/// word began, the quote that is open, and whether the next character is escaped.
#[verifier::ext_equal]
pub struct Reader {
    pub commands: Seq<Seq<Seq<char>>>,
    pub words: Seq<Seq<char>>,
    pub start: Option<int>,
    pub quote: Option<char>,
    pub escaped: bool,
}

/// What one character makes of a reader.
#[verifier::ext_equal]
pub enum Reading {
    /// Go on at the given position.
    Next(Reader, int),
    /// The rest of the line is a comment.
    Comment,
    /// The line needs more of a shell than this to be understood.
    Unclear,
}

pub open spec fn char_at(line: Seq<char>, i: int) -> Option<char> {
    if 0 <= i < line.len() {
        Some(line[i])
    } else {
        None
    }
}

/// A reader inside a word, which begins at `i` unless it has begun before.
pub open spec fn in_word(s: Reader, i: int) -> Reader {
    Reader {
        start: match s.start {
            Some(begin) => Some(begin),
            None => Some(i),
        },
        ..s
    }
}

/// A reader that ends its word, if it is in one, before `i`.
pub open spec fn end_word(line: Seq<char>, s: Reader, i: int) -> Reader {
    match s.start {
        Some(begin) => Reader { words: s.words.push(line.subrange(begin, i)), start: None, ..s },
        None => s,
    }
}

/// A reader that ends its command, if it has words, before `i`.
pub open spec fn end_command(line: Seq<char>, s: Reader, i: int) -> Reader {
    let done = end_word(line, s, i);
    if done.words.len() > 0 {
        Reader { commands: done.commands.push(done.words), words: Seq::empty(), ..done }
    } else {
        done
    }
}

/// What the character at `i` makes of a reader.
pub open spec fn read_char(line: Seq<char>, i: int, s: Reader) -> Reading {
    let c = line[i];
    let literal = s.quote == Some('\'');
    if s.escaped {
        Reading::Next(Reader { escaped: false, ..s }, i + 1)
    } else if !literal && c == '\\' {
        Reading::Next(Reader { escaped: true, ..in_word(s, i) }, i + 1)
    } else if !literal && (c == '`' || (c == '$' && char_at(line, i + 1) == Some('('))) {
        Reading::Unclear
    } else if s.quote is Some {
        if s.quote == Some(c) {
            Reading::Next(Reader { quote: None, ..s }, i + 1)
        } else {
            Reading::Next(s, i + 1)
        }
    } else if c == '\'' || c == '"' {
        Reading::Next(Reader { quote: Some(c), ..in_word(s, i) }, i + 1)
    } else if c == '#' && s.start is None {
        Reading::Comment
    } else if c == ';' {
        Reading::Next(end_command(line, s, i), i + 1)
    } else if c == '&' || c == '|' {
        if char_at(line, i + 1) == Some(c) {
            Reading::Next(end_command(line, s, i), i + 2)
        } else {
            Reading::Unclear
        }
    } else if c == '(' || c == ')' || c == '<' || c == '>' {
        Reading::Unclear
    } else if is_space(c) {
        Reading::Next(end_word(line, s, i), i + 1)
    } else {
        Reading::Next(in_word(s, i), i + 1)
    }
}

/// The commands at the end of a line; there are none where a quote or an escape is left open.
pub open spec fn finish(line: Seq<char>, s: Reader) -> Seq<Seq<Seq<char>>> {
    if s.quote is Some || s.escaped {
        Seq::empty()
    } else {
        end_command(line, s, line.len() as int).commands
    }
}

/// The commands that a reader finds from `i` on.
pub open spec fn commands_from(line: Seq<char>, i: int, s: Reader) -> Seq<Seq<Seq<char>>>
    decreases line.len() - i,
{
    if i < 0 || i >= line.len() {
        finish(line, s)
    } else {
        match read_char(line, i, s) {
            Reading::Next(next, j) => commands_from(line, j, next),
            Reading::Comment => finish(line, s),
            Reading::Unclear => Seq::empty(),
        }
    }
}

pub open spec fn new_reader() -> Reader {
    Reader {
        commands: Seq::empty(),
        words: Seq::empty(),
        start: None,
        quote: None,
        escaped: false,
    }
}

/// The simple commands of a line, each as its words. Quoted text stays within its word, and a
/// comment is no part of any. A line with a pipeline, a background job, a subshell, a
/// redirection or a substitution has none that count.
pub open spec fn commands_of(line: Seq<char>) -> Seq<Seq<Seq<char>>> {
    commands_from(line, 0, new_reader())
}

/// The views of a list of commands.
pub open spec fn command_views(commands: Seq<Vec<String>>) -> Seq<Seq<Seq<char>>> {
    commands.map_values(|words: Vec<String>| string_views(words@))
}

proof fn lemma_push_word(words: Seq<String>, word: String)
    ensures
        string_views(words.push(word)) == string_views(words).push(word@),
{
    assert(string_views(words.push(word)) =~= string_views(words).push(word@));
}

proof fn lemma_push_command(commands: Seq<Vec<String>>, words: Vec<String>)
    ensures
        command_views(commands.push(words)) == command_views(commands).push(string_views(words@)),
{
    assert(command_views(commands.push(words)) =~= command_views(commands).push(
        string_views(words@),
    ));
}

/// The simple commands of a line.
pub fn simple_commands(line: &str) -> (r: Vec<Vec<String>>)
    ensures
        command_views(r@) == commands_of(line@),
{
    let chars = text::to_chars(line);
    let n = chars.len();
    let mut commands: Vec<Vec<String>> = Vec::new();
    let mut words: Vec<String> = Vec::new();
    let mut start: Option<usize> = None;
    let mut quote: Option<char> = None;
    let mut escaped = false;
    let mut i: usize = 0;
    assert(command_views(commands@) =~= Seq::empty());
    assert(string_views(words@) =~= Seq::empty());
    while i < n
        invariant_except_break
            commands_of(line@) == commands_from(
                line@,
                i as int,
                (Reader {
                    commands: command_views(commands@),
                    words: string_views(words@),
                    start: match start {
                        Some(b) => Some(b as int),
                        None => None,
                    },
                    quote,
                    escaped,
                }),
            ),
        invariant
            chars@ == line@,
            n == chars@.len(),
            i <= n,
            start matches Some(b) ==> b < i,
        ensures
            commands_of(line@) == finish(
                line@,
                (Reader {
                    commands: command_views(commands@),
                    words: string_views(words@),
                    start: match start {
                        Some(b) => Some(b as int),
                        None => None,
                    },
                    quote,
                    escaped,
                }),
            ),
        decreases n - i,
    {
        let c = chars[i];
        let literal = match quote {
            Some(q) => q == '\'',
            None => false,
        };
        if escaped {
            escaped = false;
            i += 1;
            continue;
        }
        if !literal && c == '\\' {
            if start.is_none() {
                start = Some(i);
            }
            escaped = true;
            i += 1;
            continue;
        }
        if !literal && (c == '`' || (c == '$' && i + 1 < n && chars[i + 1] == '(')) {
            let none: Vec<Vec<String>> = Vec::new();
            assert(command_views(none@) =~= Seq::empty());
            return none;
        }
        match quote {
            Some(delimiter) => {
                if c == delimiter {
                    quote = None;
                }
                i += 1;
                continue;
            },
            None => {},
        }
        if c == '\'' || c == '"' {
            if start.is_none() {
                start = Some(i);
            }
            quote = Some(c);
            i += 1;
        } else if c == '#' && start.is_none() {
            break;
        } else if c == ';' || c == '&' || c == '|' {
            if c != ';' && !(i + 1 < n && chars[i + 1] == c) {
                let none: Vec<Vec<String>> = Vec::new();
                assert(command_views(none@) =~= Seq::empty());
                return none;
            }
            match start {
                Some(begin) => {
                    let word = text::from_chars(&chars, begin, i);
                    proof {
                        lemma_push_word(words@, word);
                    }
                    words.push(word);
                    start = None;
                },
                None => {},
            }
            if words.len() > 0 {
                proof {
                    lemma_push_command(commands@, words);
                }
                commands.push(words);
                words = Vec::new();
                assert(string_views(words@) =~= Seq::empty());
            }
            assert(string_views(words@).len() == words@.len());
            if c == ';' {
                i += 1;
            } else {
                i += 2;
            }
        } else if c == '(' || c == ')' || c == '<' || c == '>' {
            let none: Vec<Vec<String>> = Vec::new();
            assert(command_views(none@) =~= Seq::empty());
            return none;
        } else if text::is_whitespace(c) {
            match start {
                Some(begin) => {
                    let word = text::from_chars(&chars, begin, i);
                    proof {
                        lemma_push_word(words@, word);
                    }
                    words.push(word);
                    start = None;
                },
                None => {},
            }
            i += 1;
        } else {
            if start.is_none() {
                start = Some(i);
            }
            i += 1;
        }
    }
    if quote.is_some() || escaped {
        let none: Vec<Vec<String>> = Vec::new();
        assert(command_views(none@) =~= Seq::empty());
        return none;
    }
    match start {
        Some(begin) => {
            let word = text::from_chars(&chars, begin, n);
            proof {
                lemma_push_word(words@, word);
            }
            words.push(word);
        },
        None => {},
    }
    assert(string_views(words@).len() == words@.len());
    if words.len() > 0 {
        proof {
            lemma_push_command(commands@, words);
        }
        commands.push(words);
    }
    commands
}

/// The file that a command sources, if it is `source` or `.` with an operand. A leading `then`
/// or `do` is not part of the command.
pub open spec fn source_target(words: Seq<Seq<char>>) -> Option<Seq<char>> {
    let skip: int = if words.len() > 0 && (words[0] == "then"@ || words[0] == "do"@) {
        1
    } else {
        0
    };
    if words.len() >= skip + 2 && (words[skip] == "source"@ || words[skip] == "."@) {
        Some(words[skip + 1])
    } else {
        None
    }
}

/// The files that the first `count` commands source.
pub open spec fn targets_of(commands: Seq<Seq<Seq<char>>>, count: int) -> Seq<Seq<char>>
    decreases count,
{
    if count <= 0 {
        Seq::empty()
    } else {
        let before = targets_of(commands, count - 1);
        match source_target(commands[count - 1]) {
            Some(target) => before.push(target),
            None => before,
        }
    }
}

/// The files that the commands of a line source, as they are written.
pub open spec fn source_targets(line: Seq<char>) -> Seq<Seq<char>> {
    targets_of(commands_of(line), commands_of(line).len() as int)
}

/// The files that the commands of a line source, as they are written.
pub fn line_source_targets(line: &str) -> (r: Vec<String>)
    ensures
        string_views(r@) == source_targets(line@),
{
    let commands = simple_commands(line);
    let ghost views = command_views(commands@);
    let mut out: Vec<String> = Vec::new();
    let mut n: usize = 0;
    assert(string_views(out@) =~= Seq::empty());
    while n < commands.len()
        invariant
            n <= commands@.len(),
            views == command_views(commands@),
            string_views(out@) == targets_of(views, n as int),
        decreases commands.len() - n,
    {
        let words = &commands[n];
        proof {
            assert(views[n as int] == string_views(words@));
            assert(string_views(words@).len() == words@.len());
            assert(forall|k: int|
                0 <= k < words@.len() ==> #[trigger] string_views(words@)[k] == words@[k]@);
        }
        let skip: usize = if words.len() > 0 && (text::same(&words[0], "then") || text::same(
            &words[0],
            "do",
        )) {
            1
        } else {
            0
        };
        if words.len() >= skip + 2 && (text::same(&words[skip], "source") || text::same(
            &words[skip],
            ".",
        )) {
            let target = text::copy(&words[skip + 1]);
            proof {
                lemma_push_word(out@, target);
            }
            out.push(target);
        }
        n += 1;
    }
    assert(views.len() == commands@.len());
    out
}

/// The characters that end a word without being part of it.
pub open spec fn ends_word(c: char) -> bool {
    is_space(c) || c == ';' || c == '&' || c == '|' || c == '<' || c == '>'
}

fn word_ends_at(c: char) -> (r: bool)
    ensures
        r == ends_word(c),
{
    text::is_whitespace(c) || c == ';' || c == '&' || c == '|' || c == '<' || c == '>'
}

/// A here-document that is waited for: the line that ends it, and whether leading tabs are
/// dropped before a line is compared with it.
#[verifier::ext_equal]
pub struct Document {
    pub delimiter: Seq<char>,
    pub strip_tabs: bool,
}

/// How far a scanner has come: the quote that is open, the here-documents that are waited for,
/// and of the current line whether it can hold commands, whether it goes on in the next one,
/// whether the next character is escaped, and whether a word could begin here.
#[verifier::ext_equal]
pub struct Scanner {
    pub quote: Option<char>,
    pub documents: Seq<Document>,
    pub eligible: bool,
    pub continued: bool,
    pub escaped: bool,
    pub boundary: bool,
}

/// What one character makes of a scanner.
#[verifier::ext_equal]
pub enum Scanning {
    /// Go on at the given position.
    Next(Scanner, int),
    /// The rest of the line is a comment.
    Comment,
    /// A here-document with a delimiter that is not understood.
    Unsupported,
}

/// The end of the delimiter word that reaches up to `i` at least, and the quote that it leaves
/// open.
pub open spec fn delimiter_end(line: Seq<char>, i: int, quote: Option<char>) -> (
    int,
    Option<char>,
)
    decreases line.len() - i,
{
    if i < 0 || i >= line.len() {
        (i, quote)
    } else if quote is Some {
        delimiter_end(
            line,
            i + 1,
            if quote == Some(line[i]) {
                None
            } else {
                quote
            },
        )
    } else if line[i] == '\'' || line[i] == '"' {
        delimiter_end(line, i + 1, Some(line[i]))
    } else if ends_word(line[i]) {
        (i, quote)
    } else {
        delimiter_end(line, i + 1, quote)
    }
}

/// The first position at or after `i` that holds neither a space nor a tab.
pub open spec fn skip_blanks(line: Seq<char>, i: int) -> int
    decreases line.len() - i,
{
    if 0 <= i < line.len() && (line[i] == ' ' || line[i] == '\t') {
        skip_blanks(line, i + 1)
    } else {
        i
    }
}

/// The here-document that an operator announces whose operand starts at `i`. Delimiters with
/// mixed quoting or escapes are not understood.
pub open spec fn announced(line: Seq<char>, i: int) -> Option<Document> {
    let strip_tabs = char_at(line, i) == Some('-');
    let from = skip_blanks(
        line,
        if strip_tabs {
            i + 1
        } else {
            i
        },
    );
    let (end, open) = delimiter_end(line, from, None);
    let delimiter = unquoted(line.subrange(from, end));
    if delimiter.len() == 0 || open is Some || delimiter.contains('\'') || delimiter.contains('"')
        || delimiter.contains('\\') {
        None
    } else {
        Some(Document { delimiter, strip_tabs })
    }
}

/// What the character at `i` makes of a scanner.
pub open spec fn scan_char(line: Seq<char>, i: int, s: Scanner) -> Scanning {
    let c = line[i];
    if s.escaped {
        Scanning::Next(
            Scanner { escaped: false, continued: s.continued || c == '\n', ..s },
            i + 1,
        )
    } else if s.quote != Some('\'') && c == '\\' {
        Scanning::Next(Scanner { escaped: true, boundary: false, ..s }, i + 1)
    } else if s.quote is Some {
        if s.quote == Some(c) {
            Scanning::Next(Scanner { quote: None, ..s }, i + 1)
        } else {
            Scanning::Next(s, i + 1)
        }
    } else if c == '#' && s.boundary {
        Scanning::Comment
    } else if c == '\'' || c == '"' {
        Scanning::Next(Scanner { quote: Some(c), boundary: false, ..s }, i + 1)
    } else if c == '<' && char_at(line, i + 1) == Some('<') {
        if char_at(line, i + 2) == Some('<') {
            Scanning::Next(Scanner { eligible: false, ..s }, i + 3)
        } else {
            match announced(line, i + 2) {
                Some(document) => Scanning::Next(
                    Scanner {
                        eligible: false,
                        documents: s.documents.push(document),
                        boundary: true,
                        ..s
                    },
                    i + 2,
                ),
                None => Scanning::Unsupported,
            }
        }
    } else {
        Scanning::Next(Scanner { boundary: ends_word(c), ..s }, i + 1)
    }
}

/// What the rest of a line makes of a scanner; nothing where it is not understood.
pub open spec fn scan_line(line: Seq<char>, i: int, s: Scanner) -> Option<Scanner>
    decreases line.len() - i,
{
    if i < 0 || i >= line.len() {
        Some(s)
    } else {
        match scan_char(line, i, s) {
            Scanning::Next(next, j) => scan_line(line, j, next),
            Scanning::Comment => Some(s),
            Scanning::Unsupported => None,
        }
    }
}

/// A text without the tabs at its start.
pub open spec fn without_tabs(s: Seq<char>) -> Seq<char>
    decreases s.len(),
{
    if s.len() > 0 && s[0] == '\t' {
        without_tabs(s.skip(1))
    } else {
        s
    }
}

/// Whether a line ends a here-document.
pub open spec fn ends_document(line: Seq<char>, document: Document) -> bool {
    let body = without_last(line, '\n');
    document.delimiter == (if document.strip_tabs {
        without_tabs(body)
    } else {
        body
    })
}

/// A scanner at the start of a line.
pub open spec fn start_line(s: Scanner) -> Scanner {
    Scanner {
        eligible: s.quote is None && !s.continued,
        continued: false,
        escaped: false,
        boundary: true,
        ..s
    }
}

/// Whether a scanned line holds commands of its own.
pub open spec fn holds_commands(s: Scanner) -> bool {
    s.eligible && s.quote is None && !s.continued && !s.escaped
}

/// The lines from number `n` on that hold commands of their own; nothing where a here-document
/// is not understood.
pub open spec fn command_lines_from(lines: Seq<Seq<char>>, n: int, s: Scanner) -> Option<
    Seq<Seq<char>>,
>
    decreases lines.len() - n,
{
    if n < 0 || n >= lines.len() {
        Some(Seq::empty())
    } else if s.documents.len() > 0 {
        let rest = if ends_document(lines[n], s.documents[0]) {
            s.documents.skip(1)
        } else {
            s.documents
        };
        command_lines_from(lines, n + 1, Scanner { documents: rest, ..s })
    } else {
        match scan_line(lines[n], 0, start_line(s)) {
            None => None,
            Some(next) => match command_lines_from(lines, n + 1, next) {
                None => None,
                Some(rest) => if holds_commands(next) {
                    Some(seq![without_last(lines[n], '\n')] + rest)
                } else {
                    Some(rest)
                },
            },
        }
    }
}

pub open spec fn new_scanner() -> Scanner {
    Scanner {
        quote: None,
        documents: Seq::empty(),
        eligible: true,
        continued: false,
        escaped: false,
        boundary: true,
    }
}

/// The lines of a startup file that hold commands of their own. Lines that go on from or into
/// another one, by a quote or by an escaped line feed, and the bodies of here-documents do
/// not count. Where a here-document is not understood, no line counts.
pub open spec fn command_lines_of(contents: Seq<char>) -> Seq<Seq<char>> {
    match command_lines_from(lines_of(contents), 0, new_scanner()) {
        Some(lines) => lines,
        None => Seq::empty(),
    }
}

struct HereDocument {
    delimiter: String,
    strip_tabs: bool,
}

impl View for HereDocument {
    type V = Document;

    closed spec fn view(&self) -> Document {
        Document { delimiter: self.delimiter@, strip_tabs: self.strip_tabs }
    }
}

spec fn document_views(documents: Seq<HereDocument>) -> Seq<Document> {
    documents.map_values(|d: HereDocument| d@)
}

struct ScanState {
    quote: Option<char>,
    documents: Vec<HereDocument>,
    eligible: bool,
    continued: bool,
    escaped: bool,
    boundary: bool,
}

impl View for ScanState {
    type V = Scanner;

    closed spec fn view(&self) -> Scanner {
        Scanner {
            quote: self.quote,
            documents: document_views(self.documents@),
            eligible: self.eligible,
            continued: self.continued,
            escaped: self.escaped,
            boundary: self.boundary,
        }
    }
}

fn announced_document(line: &[char], i: usize) -> (r: Option<HereDocument>)
    requires
        i <= line@.len(),
    ensures
        (match r {
            Some(d) => Some(d@),
            None => None,
        }) == announced(line@, i as int),
{
    let n = line.len();
    let strip_tabs = i < n && line[i] == '-';
    let first: usize = if strip_tabs {
        i + 1
    } else {
        i
    };
    let mut from: usize = first;
    while from < n && (line[from] == ' ' || line[from] == '\t')
        invariant
            from <= n,
            n == line@.len(),
            skip_blanks(line@, first as int) == skip_blanks(line@, from as int),
        decreases n - from,
    {
        from += 1;
    }
    let mut end: usize = from;
    let mut open: Option<char> = None;
    while end < n
        invariant_except_break
            delimiter_end(line@, from as int, None) == delimiter_end(line@, end as int, open),
        invariant
            from <= end <= n,
            n == line@.len(),
        ensures
            delimiter_end(line@, from as int, None) == (end as int, open),
        decreases n - end,
    {
        let c = line[end];
        match open {
            Some(quote) => {
                if c == quote {
                    open = None;
                }
            },
            None => {
                if c == '\'' || c == '"' {
                    open = Some(c);
                } else if word_ends_at(c) {
                    break;
                }
            },
        }
        end += 1;
    }
    let word = text::from_chars(line, from, end);
    let delimiter = unquote_shell_token(&word);
    let chars = text::to_chars(&delimiter);
    if chars.len() == 0 || open.is_some() || text::has_char(&chars, '\'') || text::has_char(
        &chars,
        '"',
    ) || text::has_char(&chars, '\\') {
        return None;
    }
    Some(HereDocument { delimiter, strip_tabs })
}

fn scan_rest(line: &[char], state: ScanState) -> (r: Option<ScanState>)
    ensures
        (match r {
            Some(next) => Some(next@),
            None => None,
        }) == scan_line(line@, 0, state@),
{
    let ghost initial = state@;
    let mut s = state;
    let n = line.len();
    let mut i: usize = 0;
    while i < n
        invariant_except_break
            scan_line(line@, 0, initial) == scan_line(line@, i as int, s@),
        invariant
            initial == state@,
            i <= n,
            n == line@.len(),
        ensures
            scan_line(line@, 0, initial) == Some(s@),
        decreases n - i,
    {
        let c = line[i];
        if s.escaped {
            s.escaped = false;
            if c == '\n' {
                s.continued = true;
            }
            i += 1;
            continue;
        }
        let literal = match s.quote {
            Some(q) => q == '\'',
            None => false,
        };
        if !literal && c == '\\' {
            s.escaped = true;
            s.boundary = false;
            i += 1;
            continue;
        }
        match s.quote {
            Some(delimiter) => {
                if c == delimiter {
                    s.quote = None;
                }
                i += 1;
                continue;
            },
            None => {},
        }
        if c == '#' && s.boundary {
            break;
        }
        if c == '\'' || c == '"' {
            s.quote = Some(c);
            s.boundary = false;
            i += 1;
        } else if c == '<' && i + 1 < n && line[i + 1] == '<' {
            s.eligible = false;
            if i + 2 < n && line[i + 2] == '<' {
                i += 3;
            } else {
                match announced_document(line, i + 2) {
                    Some(document) => {
                        proof {
                            assert(document_views(s.documents@.push(document)) =~= document_views(
                                s.documents@,
                            ).push(document@));
                        }
                        s.documents.push(document);
                    },
                    None => {
                        return None;
                    },
                }
                s.boundary = true;
                i += 2;
            }
        } else {
            s.boundary = word_ends_at(c);
            i += 1;
        }
    }
    Some(s)
}

fn document_ends(line: &[char], document: &HereDocument) -> (r: bool)
    ensures
        r == ends_document(line@, document@),
{
    let body = text::strip_last(line, '\n');
    let mut from: usize = 0;
    if document.strip_tabs {
        assert(body@.skip(0) =~= body@);
        while from < body.len() && body[from] == '\t'
            invariant
                from <= body@.len(),
                without_tabs(body@) == without_tabs(body@.skip(from as int)),
            decreases body.len() - from,
        {
            assert(body@.skip(from as int).skip(1) =~= body@.skip(from + 1));
            from += 1;
        }
    }
    let rest = text::sub_chars(&body, from, body.len());
    assert(rest@ =~= body@.skip(from as int));
    assert(body@.skip(0) =~= body@);
    text::same_chars(&rest, &text::to_chars(&document.delimiter))
}

/// The lines of a startup file that hold commands of their own.
pub fn command_lines(contents: &str) -> (r: Vec<String>)
    ensures
        string_views(r@) == command_lines_of(contents@),
{
    let lines = text::split_lines(&text::to_chars(contents));
    let ghost views = text::char_views(lines@);
    let mut result: Vec<String> = Vec::new();
    let mut s = ScanState {
        quote: None,
        documents: Vec::new(),
        eligible: true,
        continued: false,
        escaped: false,
        boundary: true,
    };
    let mut n: usize = 0;
    proof {
        assert(s@.documents =~= Seq::empty());
        assert(string_views(result@) =~= Seq::empty());
        match command_lines_from(views, 0, new_scanner()) {
            Some(rest) => {
                assert(Seq::<Seq<char>>::empty() + rest =~= rest);
            },
            None => {},
        }
    }
    while n < lines.len()
        invariant
            n <= lines@.len(),
            views == text::char_views(lines@),
            views == lines_of(contents@),
            command_lines_from(views, 0, new_scanner()) == (match command_lines_from(
                views,
                n as int,
                s@,
            ) {
                Some(rest) => Some(string_views(result@) + rest),
                None => None,
            }),
        decreases lines.len() - n,
    {
        let line = &lines[n];
        proof {
            assert(views[n as int] == line@);
            assert(s@.documents.len() == s.documents@.len());
        }
        if s.documents.len() > 0 {
            assert(s@.documents[0] == s.documents@[0]@);
            if document_ends(line, &s.documents[0]) {
                let ghost before = s.documents@;
                s.documents.remove(0);
                assert(document_views(s.documents@) =~= document_views(before).skip(1));
            }
            n += 1;
            continue;
        }
        s.eligible = s.quote.is_none() && !s.continued;
        s.continued = false;
        s.escaped = false;
        s.boundary = true;
        match scan_rest(line, s) {
            Some(next) => {
                s = next;
            },
            None => {
                let none: Vec<String> = Vec::new();
                assert(string_views(none@) =~= Seq::empty());
                return none;
            },
        }
        if s.eligible && s.quote.is_none() && !s.continued && !s.escaped {
            let text = text::whole(&text::strip_last(line, '\n'));
            proof {
                lemma_push_word(result@, text);
                match command_lines_from(views, n + 1, s@) {
                    Some(rest) => {
                        assert(string_views(result@) + (seq![text@] + rest) =~= string_views(
                            result@,
                        ).push(text@) + rest);
                    },
                    None => {},
                }
            }
            result.push(text);
        }
        n += 1;
    }
    assert(views.len() == lines@.len());
    assert(string_views(result@) + Seq::<Seq<char>>::empty() =~= string_views(result@));
    result
}

} // verus!

//! What the shells do with the blocks that the library writes: they read the literals in them back
//! as the paths, and they come to load the completion.
use vstd::prelude::*;

use crate::error::ErrorView;
use crate::path::{parent, spelled};
use crate::shell::bash::bash_block;
use crate::shell::elvish::elvish_block;
use crate::shell::powershell::powershell_block;
use crate::shell::quoting::{
    bourne_quote, doubled_quote, doubly_quoted, enclosed, shell_quoted, with_quotes,
};
use crate::shell::zsh::{zsh_block, zsh_commands};
use crate::text::utf8_text;

verus! {

/// How a shell of the Bourne family reads a word that is made of quoted pieces: the text so far,
/// and the quote that is open. A word with anything else in it is not read.
pub open spec fn bourne_read(word: Seq<char>) -> Option<(Seq<char>, Option<char>)>
    decreases word.len(),
{
    if word.len() == 0 {
        Some((Seq::empty(), None))
    } else {
        match bourne_read(word.drop_last()) {
            None => None,
            Some((text, open)) => {
                let c = word.last();
                if open == Some(c) {
                    Some((text, None))
                } else if open == Some('\'') {
                    Some((text.push(c), open))
                } else if open == Some('"') {
                    if c == '$' || c == '`' || c == '\\' {
                        None
                    } else {
                        Some((text.push(c), open))
                    }
                } else if c == '\'' || c == '"' {
                    Some((text, Some(c)))
                } else {
                    None
                }
            },
        }
    }
}

/// The text that a word of quoted pieces stands for in a shell of the Bourne family.
pub open spec fn bourne_value(word: Seq<char>) -> Option<Seq<char>> {
    match bourne_read(word) {
        Some((text, None)) => Some(text),
        _ => None,
    }
}

/// Where a reader of a literal in single quotes stands, in the shells in which two single quotes
/// within it stand for one.
pub enum LiteralPlace {
    Before,
    Within,
    /// Behind a single quote that ends the literal unless another one follows.
    BehindQuote,
}

/// How PowerShell and Elvish read a literal in single quotes.
pub open spec fn doubled_read(word: Seq<char>) -> Option<(Seq<char>, LiteralPlace)>
    decreases word.len(),
{
    if word.len() == 0 {
        Some((Seq::empty(), LiteralPlace::Before))
    } else {
        match doubled_read(word.drop_last()) {
            None => None,
            Some((text, place)) => {
                let c = word.last();
                match place {
                    LiteralPlace::Before => if c == '\'' {
                        Some((text, LiteralPlace::Within))
                    } else {
                        None
                    },
                    LiteralPlace::Within => if c == '\'' {
                        Some((text, LiteralPlace::BehindQuote))
                    } else {
                        Some((text.push(c), LiteralPlace::Within))
                    },
                    LiteralPlace::BehindQuote => if c == '\'' {
                        Some((text.push(c), LiteralPlace::Within))
                    } else {
                        None
                    },
                }
            },
        }
    }
}

/// The text that a literal in single quotes stands for in PowerShell and Elvish.
pub open spec fn doubled_value(word: Seq<char>) -> Option<Seq<char>> {
    match doubled_read(word) {
        Some((text, LiteralPlace::BehindQuote)) => Some(text),
        _ => None,
    }
}

proof fn lemma_bourne_push(word: Seq<char>, c: char)
    ensures
        word.push(c).drop_last() == word,
        word.push(c).last() == c,
{
    assert(word.push(c).drop_last() =~= word);
}

/// Up to its closing quote, a literal of the Bourne family reads as its text.
proof fn lemma_bourne_inner(text: Seq<char>)
    ensures
        bourne_read(seq!['\''] + with_quotes(text, bourne_quote())) == Some((text, Some('\''))),
    decreases text.len(),
{
    reveal_strlit("'\"'\"'");
    let open = seq!['\''];
    if text.len() == 0 {
        assert(open + with_quotes(text, bourne_quote()) =~= Seq::<char>::empty().push('\''));
        lemma_bourne_push(Seq::empty(), '\'');
        assert(bourne_read(Seq::<char>::empty()) == Some((Seq::<char>::empty(), None::<char>)));
        assert(text =~= Seq::empty());
    } else {
        let front = text.drop_last();
        lemma_bourne_inner(front);
        let before = open + with_quotes(front, bourne_quote());
        let all = open + with_quotes(text, bourne_quote());
        assert(front.push(text.last()) =~= text);
        if text.last() == '\'' {
            let a = before.push('\'');
            let b = a.push('"');
            let c = b.push('\'');
            let d = c.push('"');
            let e = d.push('\'');
            assert(all =~= e);
            lemma_bourne_push(before, '\'');
            lemma_bourne_push(a, '"');
            lemma_bourne_push(b, '\'');
            lemma_bourne_push(c, '"');
            lemma_bourne_push(d, '\'');
            assert(bourne_read(a) == Some((front, None::<char>)));
            assert(bourne_read(b) == Some((front, Some('"'))));
            assert(bourne_read(c) == Some((text, Some('"'))));
            assert(bourne_read(d) == Some((text, None::<char>)));
        } else {
            assert(all =~= before.push(text.last()));
            lemma_bourne_push(before, text.last());
        }
    }
}

/// Up to its closing quote, a literal of PowerShell and Elvish reads as its text.
proof fn lemma_doubled_inner(text: Seq<char>)
    ensures
        doubled_read(seq!['\''] + with_quotes(text, doubled_quote())) == Some(
            (text, LiteralPlace::Within),
        ),
    decreases text.len(),
{
    reveal_strlit("''");
    let open = seq!['\''];
    if text.len() == 0 {
        assert(open + with_quotes(text, doubled_quote()) =~= Seq::<char>::empty().push('\''));
        lemma_bourne_push(Seq::empty(), '\'');
        assert(doubled_read(Seq::<char>::empty()) == Some(
            (Seq::<char>::empty(), LiteralPlace::Before),
        ));
        assert(text =~= Seq::empty());
    } else {
        let front = text.drop_last();
        lemma_doubled_inner(front);
        let before = open + with_quotes(front, doubled_quote());
        let all = open + with_quotes(text, doubled_quote());
        assert(front.push(text.last()) =~= text);
        if text.last() == '\'' {
            let a = before.push('\'');
            assert(all =~= a.push('\''));
            lemma_bourne_push(before, '\'');
            lemma_bourne_push(a, '\'');
            assert(doubled_read(a) == Some((front, LiteralPlace::BehindQuote)));
        } else {
            assert(all =~= before.push(text.last()));
            lemma_bourne_push(before, text.last());
        }
    }
}

/// A literal is read back as the path that it was made of, by the shells of the Bourne family and
/// by PowerShell and Elvish. Every path that is text has one, and no other path has.
pub proof fn law_literals_are_read_back(path: Seq<u8>)
    ensures
        match utf8_text(spelled(path)) {
            Some(text) => {
                &&& shell_quoted(path) matches Ok(word) && bourne_value(word) == Some(text)
                &&& doubly_quoted(path) matches Ok(word) && doubled_value(word) == Some(text)
            },
            None => {
                &&& shell_quoted(path) == Err::<Seq<char>, ErrorView>(
                    ErrorView::NonUtf8Path { path },
                )
                &&& doubly_quoted(path) == Err::<Seq<char>, ErrorView>(
                    ErrorView::NonUtf8Path { path },
                )
            },
        },
{
    reveal_strlit("'");
    match utf8_text(spelled(path)) {
        Some(text) => {
            let bourne = seq!['\''] + with_quotes(text, bourne_quote());
            let doubled = seq!['\''] + with_quotes(text, doubled_quote());
            lemma_bourne_inner(text);
            lemma_doubled_inner(text);
            assert(enclosed(text, bourne_quote()) =~= bourne.push('\''));
            assert(enclosed(text, doubled_quote()) =~= doubled.push('\''));
            lemma_bourne_push(bourne, '\'');
            lemma_bourne_push(doubled, '\'');
        },
        None => {},
    }
}

/// Lines put one below the other.
pub open spec fn below_each_other(lines: Seq<Seq<char>>) -> Seq<char>
    decreases lines.len(),
{
    if lines.len() == 0 {
        Seq::empty()
    } else if lines.len() == 1 {
        lines[0]
    } else {
        below_each_other(lines.drop_last()) + seq!['\n'] + lines.last()
    }
}

/// The shells whose blocks load a completion file under the condition that it is there.
pub enum Dialect {
    Bash,
    Powershell,
    Elvish,
}

/// The commands of a block that loads a completion file under the condition that it is there.
pub enum Loading {
    /// Makes the module with the condition known, where the shell needs that.
    UseModule,
    /// Goes on with what follows up to the end only where the file is there.
    IfThere(Seq<char>),
    /// Runs the commands of the file in the current shell.
    Load(Seq<char>),
    End,
}

/// How a shell writes a command of a block; a file is written as a literal.
pub open spec fn loading_text(dialect: Dialect, command: Loading) -> Seq<char> {
    match (dialect, command) {
        (Dialect::Bash, Loading::IfThere(file)) => "if [ -f "@ + file + " ]; then"@,
        (Dialect::Bash, Loading::Load(file)) => "  . "@ + file,
        (Dialect::Bash, Loading::End) => "fi"@,
        (Dialect::Powershell, Loading::IfThere(file)) => "if (Test-Path -LiteralPath "@ + file
            + " -PathType Leaf) {"@,
        (Dialect::Powershell, Loading::Load(file)) => "  . "@ + file,
        (Dialect::Powershell, Loading::End) => "}"@,
        (Dialect::Elvish, Loading::UseModule) => "use os"@,
        (Dialect::Elvish, Loading::IfThere(file)) => "if (os:exists "@ + file + ") {"@,
        (Dialect::Elvish, Loading::Load(file)) => "  eval (slurp < "@ + file + ")"@,
        (Dialect::Elvish, Loading::End) => "}"@,
        (_, Loading::UseModule) => Seq::empty(),
    }
}

/// What a literal stands for in a shell.
pub open spec fn literal_value(dialect: Dialect, word: Seq<char>) -> Option<Seq<char>> {
    match dialect {
        Dialect::Bash => bourne_value(word),
        _ => doubled_value(word),
    }
}

/// A shell that runs a block: whether it has the module, whether it leaves out what it comes to,
/// and the files that it has loaded.
pub struct Loader {
    pub has_module: bool,
    pub leaves_out: bool,
    pub loaded: Seq<Seq<char>>,
}

/// What a command makes of a shell; nothing where the shell does not understand it.
pub open spec fn loading_step(
    dialect: Dialect,
    there: Set<Seq<char>>,
    s: Loader,
    command: Loading,
) -> Option<Loader> {
    match command {
        Loading::UseModule => Some(Loader { has_module: true, ..s }),
        Loading::IfThere(file) => match literal_value(dialect, file) {
            Some(path) => if dialect is Elvish && !s.has_module {
                None
            } else {
                Some(Loader { leaves_out: !there.contains(path), ..s })
            },
            None => None,
        },
        Loading::Load(file) => if s.leaves_out {
            Some(s)
        } else {
            match literal_value(dialect, file) {
                Some(path) => Some(Loader { loaded: s.loaded.push(path), ..s }),
                None => None,
            }
        },
        Loading::End => Some(Loader { leaves_out: false, ..s }),
    }
}

/// What commands, one after the other, make of a shell.
pub open spec fn loading_run(
    dialect: Dialect,
    there: Set<Seq<char>>,
    s: Loader,
    commands: Seq<Loading>,
) -> Option<Loader>
    decreases commands.len(),
{
    if commands.len() == 0 {
        Some(s)
    } else {
        match loading_step(dialect, there, s, commands[0]) {
            Some(next) => loading_run(dialect, there, next, commands.skip(1)),
            None => None,
        }
    }
}

/// Whether a text is that of commands, each on a line of its own.
pub open spec fn is_loading_text(dialect: Dialect, text: Seq<char>, commands: Seq<Loading>) -> bool {
    text == below_each_other(
        commands.map_values(|command: Loading| loading_text(dialect, command)),
    )
}

/// Whether a shell that runs a text, with the given files there, loads exactly the given ones.
pub open spec fn loads_files(
    dialect: Dialect,
    text: Seq<char>,
    there: Set<Seq<char>>,
    files: Seq<Seq<char>>,
) -> bool {
    exists|commands: Seq<Loading>| #[trigger]
        is_loading_text(dialect, text, commands) && (loading_run(
            dialect,
            there,
            (Loader { has_module: false, leaves_out: false, loaded: Seq::empty() }),
            commands,
        ) matches Some(end) && end.loaded == files && !end.leaves_out)
}

proof fn lemma_lines(lines: Seq<Seq<char>>)
    ensures
        lines.len() == 3 ==> below_each_other(lines) == lines[0] + seq!['\n'] + lines[1]
            + seq!['\n'] + lines[2],
        lines.len() == 4 ==> below_each_other(lines) == lines[0] + seq!['\n'] + lines[1]
            + seq!['\n'] + lines[2] + seq!['\n'] + lines[3],
{
    reveal_with_fuel(below_each_other, 5);
}

proof fn lemma_guarded(dialect: Dialect, there: Set<Seq<char>>, file: Seq<char>, path: Seq<char>)
    requires
        literal_value(dialect, file) == Some(path),
    ensures
        ({
            let start = Loader { has_module: false, leaves_out: false, loaded: Seq::empty() };
            let guarded = seq![Loading::IfThere(file), Loading::Load(file), Loading::End];
            let commands = if dialect is Elvish {
                seq![Loading::UseModule] + guarded
            } else {
                guarded
            };
            loading_run(dialect, there, start, commands) matches Some(end) && end.loaded == (
            if there.contains(path) {
                seq![path]
            } else {
                Seq::empty()
            }) && !end.leaves_out
        }),
{
    reveal_with_fuel(loading_run, 6);
    let start = Loader { has_module: false, leaves_out: false, loaded: Seq::empty() };
    let guarded = seq![Loading::IfThere(file), Loading::Load(file), Loading::End];
    let g1 = seq![Loading::Load(file), Loading::End];
    let g2 = seq![Loading::End];
    assert(guarded.skip(1) =~= g1);
    assert(g1.skip(1) =~= g2);
    assert(g2.skip(1) =~= Seq::empty());
    assert((seq![Loading::UseModule] + guarded).skip(1) =~= guarded);
    assert(Seq::<Seq<char>>::empty().push(path) =~= seq![path]);
}

/// The block of Bash, PowerShell and Elvish loads the completion file where it is there, and
/// nothing else. There is a block for every path that is text.
pub proof fn law_blocks_load_the_completion(
    name: Seq<char>,
    target: Seq<u8>,
    there: Set<Seq<char>>,
)
    ensures
        match utf8_text(spelled(target)) {
            Some(path) => {
                let files = if there.contains(path) {
                    seq![path]
                } else {
                    Seq::empty()
                };
                &&& bash_block(name, target) matches Ok(b) && loads_files(
                    Dialect::Bash,
                    b.body,
                    there,
                    files,
                )
                &&& powershell_block(name, target) matches Ok(b) && loads_files(
                    Dialect::Powershell,
                    b.body,
                    there,
                    files,
                )
                &&& elvish_block(name, target) matches Ok(b) && loads_files(
                    Dialect::Elvish,
                    b.body,
                    there,
                    files,
                )
            },
            None => {
                &&& bash_block(name, target) is Err
                &&& powershell_block(name, target) is Err
                &&& elvish_block(name, target) is Err
            },
        },
{
    law_literals_are_read_back(target);
    match utf8_text(spelled(target)) {
        Some(path) => {
            let bourne = shell_quoted(target)->Ok_0;
            let doubled = doubly_quoted(target)->Ok_0;
            lemma_guarded(Dialect::Bash, there, bourne, path);
            lemma_guarded(Dialect::Powershell, there, doubled, path);
            lemma_guarded(Dialect::Elvish, there, doubled, path);
            lemma_bash_text(name, target);
            lemma_powershell_text(name, target);
            lemma_elvish_text(name, target);
        },
        None => {},
    }
}

proof fn lemma_bash_text(name: Seq<char>, target: Seq<u8>)
    requires
        shell_quoted(target) is Ok,
    ensures
        ({
            let file = shell_quoted(target)->Ok_0;
            bash_block(name, target) matches Ok(b) && is_loading_text(
                Dialect::Bash,
                b.body,
                seq![Loading::IfThere(file), Loading::Load(file), Loading::End],
            )
        }),
{
    reveal_strlit("if [ -f ");
    reveal_strlit(" ]; then\n  . ");
    reveal_strlit("\nfi");
    reveal_strlit(" ]; then");
    reveal_strlit("  . ");
    reveal_strlit("fi");
    let file = shell_quoted(target)->Ok_0;
    let commands = seq![Loading::IfThere(file), Loading::Load(file), Loading::End];
    let lines = commands.map_values(|command: Loading| loading_text(Dialect::Bash, command));
    lemma_lines(lines);
    assert(bash_block(name, target)->Ok_0.body =~= lines[0] + seq!['\n'] + lines[1] + seq!['\n']
        + lines[2]);
}

proof fn lemma_powershell_text(name: Seq<char>, target: Seq<u8>)
    requires
        doubly_quoted(target) is Ok,
    ensures
        ({
            let file = doubly_quoted(target)->Ok_0;
            powershell_block(name, target) matches Ok(b) && is_loading_text(
                Dialect::Powershell,
                b.body,
                seq![Loading::IfThere(file), Loading::Load(file), Loading::End],
            )
        }),
{
    reveal_strlit("if (Test-Path -LiteralPath ");
    reveal_strlit(" -PathType Leaf) {\n  . ");
    reveal_strlit("\n}");
    reveal_strlit(" -PathType Leaf) {");
    reveal_strlit("  . ");
    reveal_strlit("}");
    let file = doubly_quoted(target)->Ok_0;
    let commands = seq![Loading::IfThere(file), Loading::Load(file), Loading::End];
    let lines = commands.map_values(|command: Loading| loading_text(Dialect::Powershell, command));
    lemma_lines(lines);
    assert(powershell_block(name, target)->Ok_0.body =~= lines[0] + seq!['\n'] + lines[1]
        + seq!['\n'] + lines[2]);
}

proof fn lemma_elvish_text(name: Seq<char>, target: Seq<u8>)
    requires
        doubly_quoted(target) is Ok,
    ensures
        ({
            let file = doubly_quoted(target)->Ok_0;
            elvish_block(name, target) matches Ok(b) && is_loading_text(
                Dialect::Elvish,
                b.body,
                seq![Loading::UseModule] + seq![
                    Loading::IfThere(file),
                    Loading::Load(file),
                    Loading::End,
                ],
            )
        }),
{
    reveal_strlit("use os\nif (os:exists ");
    reveal_strlit(") {\n  eval (slurp < ");
    reveal_strlit(")\n}");
    reveal_strlit("use os");
    reveal_strlit("if (os:exists ");
    reveal_strlit(") {");
    reveal_strlit("  eval (slurp < ");
    reveal_strlit(")");
    reveal_strlit("}");
    let file = doubly_quoted(target)->Ok_0;
    let commands = seq![Loading::UseModule] + seq![
        Loading::IfThere(file),
        Loading::Load(file),
        Loading::End,
    ];
    let lines = commands.map_values(|command: Loading| loading_text(Dialect::Elvish, command));
    lemma_lines(lines);
    assert(elvish_block(name, target)->Ok_0.body =~= lines[0] + seq!['\n'] + lines[1] + seq!['\n']
        + lines[2] + seq!['\n'] + lines[3]);
}

/// The commands of the block of Zsh.
pub enum ZshCommand {
    /// Names a directory, which is written as a literal.
    NameDirectory(Seq<char>),
    /// Notes whether the search path was changed.
    NoteChange(bool),
    /// Goes on with what follows up to the end only where the directory is not on the search path.
    IfNotOnPath,
    /// Puts the directory in front of the search path.
    PutInFront,
    End,
    /// Makes the initialisation of the completion system known.
    KnowInitialisation,
    /// Goes on with what follows up to the end only where the completion system has not been
    /// initialised or the search path was changed.
    IfNotInitialisedOrChanged,
    /// Initialises the completion system with what is on the search path.
    Initialise,
    ForgetChange,
    ForgetDirectory,
}

/// How Zsh writes a command of the block.
pub open spec fn zsh_text(command: ZshCommand) -> Seq<char> {
    match command {
        ZshCommand::NameDirectory(word) => "shellcomp_zfunc_dir="@ + word,
        ZshCommand::NoteChange(false) => "shellcomp_zfunc_changed=0"@,
        ZshCommand::IfNotOnPath => "if (( ${fpath[(Ie)$shellcomp_zfunc_dir]} == 0 )); then"@,
        ZshCommand::PutInFront => "  fpath=(\"$shellcomp_zfunc_dir\" $fpath)"@,
        ZshCommand::NoteChange(true) => "  shellcomp_zfunc_changed=1"@,
        ZshCommand::End => "fi"@,
        ZshCommand::KnowInitialisation => "autoload -Uz compinit"@,
        ZshCommand::IfNotInitialisedOrChanged =>
            "if ! type compdef >/dev/null 2>&1 || (( shellcomp_zfunc_changed == 1 )); then"@,
        ZshCommand::Initialise => "  compinit -i"@,
        ZshCommand::ForgetChange => "unset shellcomp_zfunc_changed"@,
        ZshCommand::ForgetDirectory => "unset shellcomp_zfunc_dir"@,
    }
}

/// What of Zsh the block concerns: the search path for functions, whether the completion system is
/// initialised and with which search path it last was, whether its initialisation is known, the
/// variables of the block, and whether what comes is left out.
pub struct Zsh {
    pub fpath: Seq<Seq<char>>,
    pub initialised: Option<Seq<Seq<char>>>,
    pub knows_initialisation: bool,
    pub directory: Option<Seq<char>>,
    pub changed: Option<bool>,
    pub leaves_out: bool,
}

/// The entries of a search path that are not empty, which are those that remain when it is put
/// together anew.
pub open spec fn filled(fpath: Seq<Seq<char>>) -> Seq<Seq<char>> {
    fpath.filter(|dir: Seq<char>| dir.len() > 0)
}

/// What a command makes of Zsh; nothing where it cannot be carried out.
pub open spec fn zsh_step(s: Zsh, command: ZshCommand) -> Option<Zsh> {
    if command is End {
        Some(Zsh { leaves_out: false, ..s })
    } else if s.leaves_out {
        Some(s)
    } else {
        match command {
            ZshCommand::NameDirectory(word) => match bourne_value(word) {
                Some(dir) => Some(Zsh { directory: Some(dir), ..s }),
                None => None,
            },
            ZshCommand::NoteChange(changed) => Some(Zsh { changed: Some(changed), ..s }),
            ZshCommand::IfNotOnPath => match s.directory {
                Some(dir) => Some(Zsh { leaves_out: s.fpath.contains(dir), ..s }),
                None => None,
            },
            ZshCommand::PutInFront => match s.directory {
                Some(dir) => Some(Zsh { fpath: seq![dir] + filled(s.fpath), ..s }),
                None => None,
            },
            ZshCommand::End => Some(Zsh { leaves_out: false, ..s }),
            ZshCommand::KnowInitialisation => Some(Zsh { knows_initialisation: true, ..s }),
            ZshCommand::IfNotInitialisedOrChanged => Some(
                Zsh { leaves_out: s.initialised is Some && s.changed != Some(true), ..s },
            ),
            ZshCommand::Initialise => if s.knows_initialisation {
                Some(Zsh { initialised: Some(s.fpath), ..s })
            } else {
                None
            },
            ZshCommand::ForgetChange => Some(Zsh { changed: None, ..s }),
            ZshCommand::ForgetDirectory => Some(Zsh { directory: None, ..s }),
        }
    }
}

/// What commands, one after the other, make of Zsh.
pub open spec fn zsh_run(s: Zsh, commands: Seq<ZshCommand>) -> Option<Zsh>
    decreases commands.len(),
{
    if commands.len() == 0 {
        Some(s)
    } else {
        match zsh_step(s, commands[0]) {
            Some(next) => zsh_run(next, commands.skip(1)),
            None => None,
        }
    }
}

/// Whether a text is that of commands of Zsh, each on a line of its own.
pub open spec fn is_zsh_text(text: Seq<char>, commands: Seq<ZshCommand>) -> bool {
    text == below_each_other(commands.map_values(|command: ZshCommand| zsh_text(command)))
}

/// Whether a text takes Zsh from one state to another.
pub open spec fn zsh_does(text: Seq<char>, before: Zsh, after: Zsh) -> bool {
    exists|commands: Seq<ZshCommand>| #[trigger]
        is_zsh_text(text, commands) && zsh_run(before, commands) == Some(after)
}

spec fn zsh_program(word: Seq<char>) -> Seq<ZshCommand> {
    seq![
        ZshCommand::NameDirectory(word),
        ZshCommand::NoteChange(false),
        ZshCommand::IfNotOnPath,
        ZshCommand::PutInFront,
        ZshCommand::NoteChange(true),
        ZshCommand::End,
        ZshCommand::KnowInitialisation,
        ZshCommand::IfNotInitialisedOrChanged,
        ZshCommand::Initialise,
        ZshCommand::End,
        ZshCommand::ForgetChange,
        ZshCommand::ForgetDirectory,
    ]
}

proof fn lemma_zsh_run(s: Zsh, commands: Seq<ZshCommand>, n: int, middle: Zsh)
    requires
        0 <= n < commands.len(),
        zsh_run(s, commands) == zsh_run(middle, commands.skip(n)),
    ensures
        zsh_step(middle, commands[n]) matches Some(next) ==> zsh_run(s, commands) == zsh_run(
            next,
            commands.skip(n + 1),
        ),
{
    assert(commands.skip(n)[0] == commands[n]);
    assert(commands.skip(n).skip(1) =~= commands.skip(n + 1));
}

proof fn lemma_zsh_program(word: Seq<char>, dir: Seq<char>, s: Zsh)
    requires
        bourne_value(word) == Some(dir),
        !s.leaves_out,
    ensures
        ({
            let missing = !s.fpath.contains(dir);
            let fpath = if missing {
                seq![dir] + filled(s.fpath)
            } else {
                s.fpath
            };
            zsh_run(s, zsh_program(word)) == Some(
                Zsh {
                    fpath,
                    initialised: if missing || s.initialised is None {
                        Some(fpath)
                    } else {
                        s.initialised
                    },
                    knows_initialisation: true,
                    directory: None,
                    changed: None,
                    leaves_out: false,
                },
            )
        }),
{
    let p = zsh_program(word);
    assert(p.skip(0) =~= p);
    let s1 = zsh_step(s, p[0])->0;
    lemma_zsh_run(s, p, 0, s);
    let s2 = zsh_step(s1, p[1])->0;
    lemma_zsh_run(s, p, 1, s1);
    let s3 = zsh_step(s2, p[2])->0;
    lemma_zsh_run(s, p, 2, s2);
    let s4 = zsh_step(s3, p[3])->0;
    lemma_zsh_run(s, p, 3, s3);
    let s5 = zsh_step(s4, p[4])->0;
    lemma_zsh_run(s, p, 4, s4);
    let s6 = zsh_step(s5, p[5])->0;
    lemma_zsh_run(s, p, 5, s5);
    let s7 = zsh_step(s6, p[6])->0;
    lemma_zsh_run(s, p, 6, s6);
    let s8 = zsh_step(s7, p[7])->0;
    lemma_zsh_run(s, p, 7, s7);
    let s9 = zsh_step(s8, p[8])->0;
    lemma_zsh_run(s, p, 8, s8);
    let s10 = zsh_step(s9, p[9])->0;
    lemma_zsh_run(s, p, 9, s9);
    let s11 = zsh_step(s10, p[10])->0;
    lemma_zsh_run(s, p, 10, s10);
    let s12 = zsh_step(s11, p[11])->0;
    lemma_zsh_run(s, p, 11, s11);
    assert(p.skip(12) =~= Seq::empty());
}

#[verifier::rlimit(100)]
#[verifier::spinoff_prover]
proof fn lemma_zsh_commands()
    ensures
        zsh_commands() == "\n"@ + "shellcomp_zfunc_changed=0"@ + "\n"@
            + "if (( ${fpath[(Ie)$shellcomp_zfunc_dir]} == 0 )); then"@ + "\n"@
            + "  fpath=(\"$shellcomp_zfunc_dir\" $fpath)"@ + "\n"@
            + "  shellcomp_zfunc_changed=1"@ + "\n"@ + "fi"@ + "\n"@ + "autoload -Uz compinit"@
            + "\n"@
            + "if ! type compdef >/dev/null 2>&1 || (( shellcomp_zfunc_changed == 1 )); then"@
            + "\n"@ + "  compinit -i"@ + "\n"@ + "fi"@ + "\n"@ + "unset shellcomp_zfunc_changed"@
            + "\n"@ + "unset shellcomp_zfunc_dir"@,
{
    reveal_strlit(
        "\nshellcomp_zfunc_changed=0\nif (( ${fpath[(Ie)$shellcomp_zfunc_dir]} == 0 )); then\n  fpath=(\"$shellcomp_zfunc_dir\" $fpath)\n  shellcomp_zfunc_changed=1\nfi\nautoload -Uz compinit\nif ! type compdef >/dev/null 2>&1 || (( shellcomp_zfunc_changed == 1 )); then\n  compinit -i\nfi\nunset shellcomp_zfunc_changed\nunset shellcomp_zfunc_dir",
    );
    reveal_strlit("\n");
    reveal_strlit("shellcomp_zfunc_changed=0");
    reveal_strlit("if (( ${fpath[(Ie)$shellcomp_zfunc_dir]} == 0 )); then");
    reveal_strlit("  fpath=(\"$shellcomp_zfunc_dir\" $fpath)");
    reveal_strlit("  shellcomp_zfunc_changed=1");
    reveal_strlit("fi");
    reveal_strlit("autoload -Uz compinit");
    reveal_strlit("if ! type compdef >/dev/null 2>&1 || (( shellcomp_zfunc_changed == 1 )); then");
    reveal_strlit("  compinit -i");
    reveal_strlit("unset shellcomp_zfunc_changed");
    reveal_strlit("unset shellcomp_zfunc_dir");
}

proof fn lemma_next_line(lines: Seq<Seq<char>>, n: int)
    requires
        1 <= n < lines.len(),
    ensures
        below_each_other(lines.take(n + 1)) == below_each_other(lines.take(n)) + seq!['\n']
            + lines[n],
{
    assert(lines.take(n + 1).drop_last() =~= lines.take(n));
    assert(lines.take(n + 1).last() == lines[n]);
}

proof fn lemma_zsh_lines(word: Seq<char>)
    ensures
        is_zsh_text("shellcomp_zfunc_dir="@ + word + zsh_commands(), zsh_program(word)),
{
    lemma_zsh_commands();
    reveal_strlit("\n");
    let nl = seq!['\n'];
    assert("\n"@ =~= nl);
    let lines = zsh_program(word).map_values(|command: ZshCommand| zsh_text(command));
    assert(below_each_other(lines.take(1)) == lines[0]);
    lemma_next_line(lines, 1);
    lemma_next_line(lines, 2);
    lemma_next_line(lines, 3);
    lemma_next_line(lines, 4);
    lemma_next_line(lines, 5);
    lemma_next_line(lines, 6);
    lemma_next_line(lines, 7);
    lemma_next_line(lines, 8);
    lemma_next_line(lines, 9);
    lemma_next_line(lines, 10);
    lemma_next_line(lines, 11);
    assert(lines.take(12) =~= lines);
    assert("shellcomp_zfunc_dir="@ + word + zsh_commands() =~= below_each_other(lines));
}

/// Whatever the search path was, it holds the directory of the completion file once Zsh has run the
/// block, and nothing but empty entries has left it. The completion system is initialised then, and
/// anew where the search path changed. The block leaves no variables. There is a block for every
/// file in a directory whose path is text.
pub proof fn law_zsh_block_finds_the_completion(name: Seq<char>, target: Seq<u8>, before: Zsh)
    requires
        !before.leaves_out,
    ensures
        zsh_block(name, target) is Ok <==> (parent(target) matches Some(dir) && utf8_text(
            spelled(dir),
        ) is Some),
        zsh_block(name, target) matches Ok(b) ==> {
            let dir = utf8_text(spelled(parent(target)->0))->0;
            exists|after: Zsh| #[trigger]
                zsh_does(b.body, before, after) && after.fpath.contains(dir) && after.fpath == (
                if before.fpath.contains(dir) {
                    before.fpath
                } else {
                    seq![dir] + filled(before.fpath)
                }) && after.initialised == (if after.fpath == before.fpath
                    && before.initialised is Some {
                    before.initialised
                } else {
                    Some(after.fpath)
                }) && after.directory is None && after.changed is None && !after.leaves_out
        },
{
    match parent(target) {
        Some(up) => {
            law_literals_are_read_back(up);
            match zsh_block(name, target) {
                Ok(b) => {
                    let dir = utf8_text(spelled(up))->0;
                    let word = shell_quoted(up)->Ok_0;
                    lemma_zsh_program(word, dir, before);
                    lemma_zsh_lines(word);
                    let after = zsh_run(before, zsh_program(word))->0;
                    assert(zsh_does(b.body, before, after));
                    if !before.fpath.contains(dir) {
                        assert(after.fpath[0] == dir);
                    }
                },
                Err(_) => {},
            }
        },
        None => {},
    }
}

} // verus!

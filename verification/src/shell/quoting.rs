//! Paths as literals of shell code.
use vstd::prelude::*;

use crate::error::{Error, ErrorView};
use crate::managed_block::text_result;
use crate::path::FilePath;
use crate::text;
use crate::text::utf8_text;

verus! {

/// A text with another text in the place of each single quote.
pub open spec fn with_quotes(s: Seq<char>, replacement: Seq<char>) -> Seq<char>
    decreases s.len(),
{
    if s.len() == 0 {
        Seq::empty()
    } else {
        with_quotes(s.drop_last(), replacement) + (if s.last() == '\'' {
            replacement
        } else {
            seq![s.last()]
        })
    }
}

/// A text between single quotes, with a replacement for those within.
pub open spec fn enclosed(s: Seq<char>, replacement: Seq<char>) -> Seq<char> {
    "'"@ + with_quotes(s, replacement) + "'"@
}

/// A path as a literal; there is none for a path that is not valid UTF-8.
pub open spec fn quoted(path: Seq<u8>, replacement: Seq<char>) -> Result<Seq<char>, ErrorView> {
    match utf8_text(crate::path::spelled(path)) {
        Some(text) => Ok(enclosed(text, replacement)),
        None => Err(ErrorView::NonUtf8Path { path }),
    }
}

/// How the shells of the Bourne family write a single quote within single quotes: they end the
/// quotes, add a quoted single quote, and begin anew.
pub open spec fn bourne_quote() -> Seq<char> {
    "'\"'\"'"@
}

/// How PowerShell and Elvish write a single quote within single quotes: twice.
pub open spec fn doubled_quote() -> Seq<char> {
    "''"@
}

/// A path as a literal of Bash, Zsh and Fish.
pub open spec fn shell_quoted(path: Seq<u8>) -> Result<Seq<char>, ErrorView> {
    quoted(path, bourne_quote())
}

/// A path as a literal of PowerShell and Elvish.
pub open spec fn doubly_quoted(path: Seq<u8>) -> Result<Seq<char>, ErrorView> {
    quoted(path, doubled_quote())
}

fn quote(path: &FilePath, replacement: &str) -> (r: Result<String, Error>)
    ensures
        text_result(r) == quoted(path@, replacement@),
{
    match path.to_text() {
        Some(value) => {
            let chars = text::to_chars(&value);
            let mut out = String::new();
            let mut i: usize = 0;
            assert(chars@.take(0) =~= Seq::empty());
            while i < chars.len()
                invariant
                    i <= chars@.len(),
                    out@ == with_quotes(chars@.take(i as int), replacement@),
                decreases chars.len() - i,
            {
                assert(chars@.take(i + 1).drop_last() =~= chars@.take(i as int));
                if chars[i] == '\'' {
                    out.append(replacement);
                } else {
                    let ghost before = out@;
                    out.push(chars[i]);
                    assert(out@ =~= before + seq![chars@[i as int]]);
                }
                i += 1;
            }
            assert(chars@.take(i as int) =~= chars@);
            Ok(text::concat3("'", &out, "'"))
        },
        None => Err(Error::NonUtf8Path { path: path.copy() }),
    }
}

/// A path as a literal of Bash, Zsh and Fish.
pub fn shell_quote(path: &FilePath) -> (r: Result<String, Error>)
    ensures
        text_result(r) == shell_quoted(path@),
{
    quote(path, "'\"'\"'")
}

/// A path as a literal of PowerShell.
pub fn powershell_quote(path: &FilePath) -> (r: Result<String, Error>)
    ensures
        text_result(r) == doubly_quoted(path@),
{
    quote(path, "''")
}

/// A path as a literal of Elvish.
pub fn elvish_quote(path: &FilePath) -> (r: Result<String, Error>)
    ensures
        text_result(r) == doubly_quoted(path@),
{
    quote(path, "''")
}

} // verus!

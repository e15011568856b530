//! What holds of the blocks that the library writes for the shells.
use vstd::prelude::*;
use vstd::utf8::{decode_utf8_encode_utf8, encode_scalar, encode_utf8, leading_byte_width_1};

use crate::error::ErrorView;
use crate::laws::blocks::{
    body_lines, inner_lines, inserted, is_one_block, is_other_line, law_upsert_keeps_other_blocks,
    lemma_block_lines, lemma_enclosed_block, lemma_marker_line, lemma_newline_for, newline_for,
};
use crate::laws::lines::{is_ended, is_line};
use crate::laws::places::lemma_parent_bytes;
use crate::managed_block::{
    block_spans, covered, ends_in_cr, holds_block, is_marker, rendered, with_block, BlockView,
};
use crate::model::ShellView;
use crate::path::{parent, spelled};
use crate::paths::{is_name_char, program_name_error};
use crate::shell::bash::bash_block;
use crate::shell::elvish::elvish_block;
use crate::shell::powershell::powershell_block;
use crate::shell::quoting::{
    bourne_quote, doubled_quote, doubly_quoted, enclosed, quoted, shell_quoted, with_quotes,
};
use crate::shell::wiring::{end_marker, start_marker};
use crate::shell::zsh::{zsh_block, zsh_commands};
use crate::text::{is_space, lines_of, marker_text, trim_end, utf8_text};

verus! {

/// Whether a path holds no line ending.
pub open spec fn is_single_line(path: Seq<u8>) -> bool {
    !path.contains(10u8) && !path.contains(13u8)
}

/// Whether a text holds no line ending.
pub open spec fn is_single_line_text(text: Seq<char>) -> bool {
    !text.contains('\n') && !text.contains('\r')
}

/// The block that the library writes for a completion file.
pub open spec fn own_block(shell: ShellView, name: Seq<char>, target: Seq<u8>) -> Result<
    BlockView,
    ErrorView,
> {
    match shell {
        ShellView::Bash => bash_block(name, target),
        ShellView::Zsh => zsh_block(name, target),
        ShellView::Powershell => powershell_block(name, target),
        ShellView::Elvish => elvish_block(name, target),
        _ => Err(ErrorView::UnsupportedShell { shell }),
    }
}

/// Whether no line of a text begins with a number sign.
pub open spec fn no_comment(s: Seq<char>) -> bool {
    forall|k: int| 0 <= k < s.len() && #[trigger] s[k] == '#' ==> k > 0 && s[k - 1] != '\n'
}

proof fn lemma_add_plain(x: Seq<char>, y: Seq<char>)
    requires
        no_comment(x),
        !y.contains('#'),
    ensures
        no_comment(x + y),
{
    let s = x + y;
    assert forall|k: int| 0 <= k < s.len() && #[trigger] s[k] == '#' implies k > 0 && s[k - 1]
        != '\n' by {
        if k < x.len() {
            assert(x[k] == '#');
        } else {
            assert(y[k - x.len()] == '#');
        }
    }
}

proof fn lemma_add_inline(x: Seq<char>, y: Seq<char>)
    requires
        no_comment(x),
        x.len() > 0,
        x.last() != '\n',
        !y.contains('\n'),
    ensures
        no_comment(x + y),
{
    let s = x + y;
    assert forall|k: int| 0 <= k < s.len() && #[trigger] s[k] == '#' implies k > 0 && s[k - 1]
        != '\n' by {
        if k < x.len() {
            assert(x[k] == '#');
        } else if k > x.len() {
            assert(y[k - x.len() - 1] != '\n');
        }
    }
}

/// The lines of such a text do not begin with a number sign.
proof fn lemma_no_comment_lines(s: Seq<char>)
    requires
        no_comment(s),
    ensures
        forall|i: int| 0 <= i < lines_of(s).len() ==> (#[trigger] lines_of(s)[i])[0] != '#',
    decreases s.len(),
{
    if s.len() > 0 {
        crate::text::lemma_find_from(s, '\n', 0);
        let n = crate::text::line_end(s);
        assert(s[0] != '#');
        if n < s.len() {
            let rest = s.skip(n + 1);
            assert forall|k: int| 0 <= k < rest.len() && #[trigger] rest[k] == '#' implies k > 0
                && rest[k - 1] != '\n' by {
                assert(s[n + 1 + k] == '#');
            }
            lemma_no_comment_lines(rest);
            let all = lines_of(s);
            assert forall|i: int| 0 <= i < all.len() implies (#[trigger] all[i])[0] != '#' by {
                if i > 0 {
                    assert(all[i] == lines_of(rest)[i - 1]);
                }
            }
        }
    }
}

/// Between the markers of a block that goes into a text no line begins with a number sign where
/// none of the body does.
#[verifier::spinoff_prover]
proof fn lemma_no_comment_inside(contents: Seq<char>, b: BlockView)
    requires
        is_marker(b.start_marker),
        is_marker(b.end_marker),
        no_comment(trim_end(b.body) + seq!['\n']),
    ensures
        forall|i: int|
            0 <= i < inner_lines(contents, b).len() ==> {
                let text = marker_text(#[trigger] inner_lines(contents, b)[i]);
                text.len() == 0 || text[0] != '#'
            },
{
    let newline = newline_for(contents, b);
    lemma_newline_for(contents, b);
    lemma_block_lines(contents, b);
    lemma_no_comment_lines(trim_end(b.body) + seq!['\n']);
    let inner = inner_lines(contents, b);
    assert forall|i: int| 0 <= i < inner.len() implies {
        let text = marker_text(#[trigger] inner[i]);
        text.len() == 0 || text[0] != '#'
    } by {
        let line = body_lines(b)[i];
        assert(line[0] != '#');
        assert(inner[i] == line.drop_last() + newline);
        assert(is_line(line) && is_ended(line));
        assert(inner[i][0] != '#') by {
            if line.len() > 1 {
                assert(inner[i][0] == line[0]);
            } else {
                assert(inner[i][0] == newline[0]);
            }
        }
        let text = marker_text(inner[i]);
        assert(text.len() == 0 || text[0] == inner[i][0]);
    }
}

/// A block whose markers are in order and of whose body no line begins with a number sign, as
/// the markers do, is one block.
proof fn lemma_one_block(contents: Seq<char>, b: BlockView)
    requires
        is_marker(b.start_marker),
        is_marker(b.end_marker),
        b.start_marker != b.end_marker,
        b.start_marker[0] == '#',
        b.end_marker[0] == '#',
        no_comment(trim_end(b.body) + seq!['\n']),
    ensures
        is_one_block(b, inserted(contents, b)),
{
    lemma_no_comment_inside(contents, b);
    let inner = inner_lines(contents, b);
    assert forall|i: int| 0 <= i < inner.len() implies is_other_line(b, #[trigger] inner[i]) by {
        let text = marker_text(inner[i]);
        assert(text.len() == 0 || text[0] != '#');
    }
    lemma_enclosed_block(contents, b);
}

/// Quoting brings in no line ending.
proof fn lemma_quoted(s: Seq<char>, replacement: Seq<char>)
    requires
        is_single_line_text(s),
        is_single_line_text(replacement),
    ensures
        is_single_line_text(with_quotes(s, replacement)),
    decreases s.len(),
{
    if s.len() > 0 {
        let front = s.drop_last();
        assert forall|k: int| 0 <= k < front.len() implies front[k] != '\n' && front[k]
            != '\r' by {
            assert(s[k] != '\n' && s[k] != '\r');
        }
        lemma_quoted(front, replacement);
        let x = with_quotes(front, replacement);
        let y = if s.last() == '\'' {
            replacement
        } else {
            seq![s.last()]
        };
        assert(s[s.len() - 1] != '\n' && s[s.len() - 1] != '\r');
        lemma_single_add(x, y);
    }
}

proof fn lemma_single_add(x: Seq<char>, y: Seq<char>)
    requires
        is_single_line_text(x),
        is_single_line_text(y),
    ensures
        is_single_line_text(x + y),
{
    assert forall|k: int| 0 <= k < (x + y).len() implies (x + y)[k] != '\n' && (x + y)[k]
        != '\r' by {
        if k < x.len() {
            assert(x[k] != '\n' && x[k] != '\r');
        } else {
            assert(y[k - x.len()] != '\n' && y[k - x.len()] != '\r');
        }
    }
}

/// A line ending in a text shows in its bytes.
proof fn lemma_text_bytes(text: Seq<char>, i: int)
    requires
        0 <= i < text.len(),
        text[i] == '\n' || text[i] == '\r',
    ensures
        text[i] == '\n' ==> encode_utf8(text).contains(10u8),
        text[i] == '\r' ==> encode_utf8(text).contains(13u8),
    decreases text.len(),
{
    let rest = encode_utf8(text.drop_first());
    let head = encode_scalar(text[0] as u32);
    let all = encode_utf8(text);
    assert(all == head + rest);
    if i == 0 {
        let c = text[0] as u32;
        assert(leading_byte_width_1(10u32) == 10u8 && leading_byte_width_1(13u32) == 13u8) by (
            bit_vector);
        assert(all[0] == head[0]);
    } else {
        lemma_text_bytes(text.drop_first(), i - 1);
        if text[i] == '\n' {
            let k = choose|k: int| 0 <= k < rest.len() && rest[k] == 10u8;
            assert(all[head.len() + k] == 10u8);
        } else {
            let k = choose|k: int| 0 <= k < rest.len() && rest[k] == 13u8;
            assert(all[head.len() + k] == 13u8);
        }
    }
}

/// The literal of a path without line endings has none.
proof fn lemma_literal(path: Seq<u8>, replacement: Seq<char>)
    requires
        is_single_line(path),
        is_single_line_text(replacement),
        quoted(path, replacement) is Ok,
    ensures
        is_single_line_text(quoted(path, replacement)->Ok_0),
{
    let text = utf8_text(spelled(path))->0;
    let written = spelled(path);
    decode_utf8_encode_utf8(written);
    assert(encode_utf8(text) == written);
    assert(!written.contains(10) && !written.contains(13)) by {
        assert forall|k: int| 0 <= k < written.len() implies path.contains(#[trigger] written[k]) by {
            let at = k + path.len() - written.len();
            assert(path[at] == written[k]);
        }
    }
    assert(is_single_line_text(text)) by {
        if text.contains('\n') {
            let i = choose|i: int| 0 <= i < text.len() && text[i] == '\n';
            lemma_text_bytes(text, i);
        }
        if text.contains('\r') {
            let i = choose|i: int| 0 <= i < text.len() && text[i] == '\r';
            lemma_text_bytes(text, i);
        }
    }
    lemma_quoted(text, replacement);
    reveal_strlit("'");
    let inner = with_quotes(text, replacement);
    lemma_single_add("'"@, inner);
    lemma_single_add("'"@ + inner, "'"@);
}

proof fn lemma_quotes()
    ensures
        is_single_line_text(bourne_quote()),
        is_single_line_text(doubled_quote()),
{
    reveal_strlit("'\"'\"'");
    reveal_strlit("''");
}

/// The markers of a valid program name are in order.
pub proof fn lemma_markers(shell: Seq<char>, name: Seq<char>)
    requires
        program_name_error(name) is None,
        is_single_line_text(shell),
    ensures
        is_marker(start_marker(shell, name)),
        is_marker(end_marker(shell, name)),
        start_marker(shell, name) != end_marker(shell, name),
        start_marker(shell, name)[0] == '#',
        end_marker(shell, name)[0] == '#',
{
    reveal_strlit("# >>> shellcomp ");
    reveal_strlit("# <<< shellcomp ");
    reveal_strlit(" >>>");
    reveal_strlit(" <<<");
    reveal_strlit(" ");
    assert(is_single_line_text(name)) by {
        assert forall|k: int| 0 <= k < name.len() implies name[k] != '\n' && name[k] != '\r' by {
            assert(is_name_char(name[k]));
        }
    }
    lemma_single_add("# >>> shellcomp "@, shell);
    lemma_single_add("# >>> shellcomp "@ + shell, " "@);
    lemma_single_add("# >>> shellcomp "@ + shell + " "@, name);
    lemma_single_add("# >>> shellcomp "@ + shell + " "@ + name, " >>>"@);
    lemma_single_add("# <<< shellcomp "@, shell);
    lemma_single_add("# <<< shellcomp "@ + shell, " "@);
    lemma_single_add("# <<< shellcomp "@ + shell + " "@, name);
    lemma_single_add("# <<< shellcomp "@ + shell + " "@ + name, " <<<"@);
    let start = start_marker(shell, name);
    let end = end_marker(shell, name);
    assert(start[0] == '#' && start[2] == '>');
    assert(end[0] == '#' && end[2] == '<');
    assert(!is_space(start[0]));
    assert(!is_space(end[0]));
}

/// Whether a text can stand in the body of a block around literals: no number sign and no
/// carriage return is in it.
spec fn is_code(s: Seq<char>) -> bool {
    forall|k: int| 0 <= k < s.len() ==> #[trigger] s[k] != '#' && s[k] != '\r'
}

proof fn lemma_code(s: Seq<char>)
    requires
        is_code(s),
    ensures
        !s.contains('#'),
        !s.contains('\r'),
{
}

proof fn lemma_trimmed(s: Seq<char>)
    requires
        s.len() > 0,
        !is_space(s.last()),
    ensures
        trim_end(s) == s,
{
}

/// A body that is code, with one or two literals of a path in it.
proof fn lemma_body(a: Seq<char>, q: Seq<char>, m: Seq<char>, q2: Seq<char>, z: Seq<char>)
    requires
        is_code(a),
        a.len() > 0,
        a.last() != '\n',
        is_single_line_text(q),
        is_code(m),
        q2.len() > 0 ==> m.len() > 0 && m.last() != '\n',
        is_single_line_text(q2),
        is_code(z),
        z.len() > 0,
        !is_space(z.last()),
    ensures
        trim_end(a + q + m + q2 + z) == a + q + m + q2 + z,
        no_comment(trim_end(a + q + m + q2 + z) + seq!['\n']),
        !(a + q + m + q2 + z).contains('\r'),
{
    let body = a + q + m + q2 + z;
    assert(body.last() == z.last());
    lemma_trimmed(body);
    lemma_code(a);
    lemma_code(m);
    lemma_code(z);
    assert(no_comment(a)) by {
        assert forall|k: int| 0 <= k < a.len() implies #[trigger] a[k] != '#' by {}
    }
    lemma_add_inline(a, q);
    lemma_add_plain(a + q, m);
    if q2.len() > 0 {
        assert((a + q + m).last() == m.last());
        lemma_add_inline(a + q + m, q2);
    } else {
        assert(a + q + m + q2 =~= a + q + m);
    }
    lemma_add_plain(a + q + m + q2, z);
    lemma_add_plain(body, seq!['\n']);
    assert forall|k: int| 0 <= k < body.len() implies body[k] != '\r' by {
        let n1 = a.len() as int;
        let n2 = n1 + q.len();
        let n3 = n2 + m.len();
        let n4 = n3 + q2.len();
        if k < n1 {
            assert(a[k] != '\r');
        } else if k < n2 {
            assert(q[k - n1] != '\r');
        } else if k < n3 {
            assert(m[k - n2] != '\r');
        } else if k < n4 {
            assert(q2[k - n3] != '\r');
        } else {
            assert(z[k - n4] != '\r');
        }
    }
}

#[verifier::rlimit(100)]
#[verifier::spinoff_prover]
proof fn lemma_zsh_code()
    ensures
        is_code(zsh_commands()),
        zsh_commands().len() > 0,
        !is_space(zsh_commands().last()),
{
    reveal_strlit(
        "\nshellcomp_zfunc_changed=0\nif (( ${fpath[(Ie)$shellcomp_zfunc_dir]} == 0 )); then\n  fpath=(\"$shellcomp_zfunc_dir\" $fpath)\n  shellcomp_zfunc_changed=1\nfi\nautoload -Uz compinit\nif ! type compdef >/dev/null 2>&1 || (( shellcomp_zfunc_changed == 1 )); then\n  compinit -i\nfi\nunset shellcomp_zfunc_changed\nunset shellcomp_zfunc_dir",
    );
}

proof fn lemma_short_code()
    ensures
        is_code("if [ -f "@) && "if [ -f "@.len() > 0 && "if [ -f "@.last() != '\n',
        is_code(" ]; then\n  . "@) && " ]; then\n  . "@.len() > 0 && " ]; then\n  . "@.last() != '\n',
        is_code("\nfi"@) && "\nfi"@.len() > 0 && !is_space("\nfi"@.last()),
        is_code("shellcomp_zfunc_dir="@) && "shellcomp_zfunc_dir="@.len() > 0
            && "shellcomp_zfunc_dir="@.last() != '\n',
        is_code("if (Test-Path -LiteralPath "@) && "if (Test-Path -LiteralPath "@.len() > 0
            && "if (Test-Path -LiteralPath "@.last() != '\n',
        is_code(" -PathType Leaf) {\n  . "@) && " -PathType Leaf) {\n  . "@.len() > 0
            && " -PathType Leaf) {\n  . "@.last() != '\n',
        is_code("\n}"@) && "\n}"@.len() > 0 && !is_space("\n}"@.last()),
        is_code("use os\nif (os:exists "@) && "use os\nif (os:exists "@.len() > 0
            && "use os\nif (os:exists "@.last() != '\n',
        is_code(") {\n  eval (slurp < "@) && ") {\n  eval (slurp < "@.len() > 0
            && ") {\n  eval (slurp < "@.last() != '\n',
        is_code(")\n}"@) && ")\n}"@.len() > 0 && !is_space(")\n}"@.last()),
{
    reveal_strlit("if [ -f ");
    reveal_strlit(" ]; then\n  . ");
    reveal_strlit("\nfi");
    reveal_strlit("shellcomp_zfunc_dir=");
    reveal_strlit("if (Test-Path -LiteralPath ");
    reveal_strlit(" -PathType Leaf) {\n  . ");
    reveal_strlit("\n}");
    reveal_strlit("use os\nif (os:exists ");
    reveal_strlit(") {\n  eval (slurp < ");
    reveal_strlit(")\n}");
}

proof fn lemma_shell_names()
    ensures
        is_single_line_text("bash"@),
        is_single_line_text("zsh"@),
        is_single_line_text("powershell"@),
        is_single_line_text("elvish"@),
{
    reveal_strlit("bash");
    reveal_strlit("zsh");
    reveal_strlit("powershell");
    reveal_strlit("elvish");
}

/// The markers and the body of the library's blocks.
pub proof fn lemma_own_block(shell: ShellView, name: Seq<char>, target: Seq<u8>)
    requires
        program_name_error(name) is None,
        own_block(shell, name, target) is Ok,
        is_single_line(target),
    ensures
        ({
            let b = own_block(shell, name, target)->Ok_0;
            &&& is_marker(b.start_marker)
            &&& is_marker(b.end_marker)
            &&& b.start_marker != b.end_marker
            &&& b.start_marker[0] == '#'
            &&& b.end_marker[0] == '#'
            &&& trim_end(b.body) == b.body
            &&& no_comment(trim_end(b.body) + seq!['\n'])
            &&& !b.body.contains('\r')
        }),
{
    let b = own_block(shell, name, target)->Ok_0;
    lemma_quotes();
    lemma_shell_names();
    lemma_short_code();
    let none = Seq::<char>::empty();
    match shell {
        ShellView::Bash => {
            let q = shell_quoted(target)->Ok_0;
            lemma_literal(target, bourne_quote());
            lemma_markers("bash"@, name);
            lemma_body("if [ -f "@, q, " ]; then\n  . "@, q, "\nfi"@);
        },
        ShellView::Zsh => {
            let dir = parent(target)->0;
            lemma_parent_bytes(target);
            assert(is_single_line(dir)) by {
                assert forall|k: int| 0 <= k < dir.len() implies dir[k] != 10u8 && dir[k]
                    != 13u8 by {
                    assert(target[k] != 10u8 && target[k] != 13u8);
                }
            }
            let q = shell_quoted(dir)->Ok_0;
            lemma_literal(dir, bourne_quote());
            lemma_markers("zsh"@, name);
            lemma_zsh_code();
            let z = zsh_commands();
            lemma_body("shellcomp_zfunc_dir="@, q, none, none, z);
            assert("shellcomp_zfunc_dir="@ + q + none + none + z =~= "shellcomp_zfunc_dir="@ + q
                + z);
        },
        ShellView::Powershell => {
            let q = doubly_quoted(target)->Ok_0;
            lemma_literal(target, doubled_quote());
            lemma_markers("powershell"@, name);
            lemma_body(
                "if (Test-Path -LiteralPath "@,
                q,
                " -PathType Leaf) {\n  . "@,
                q,
                "\n}"@,
            );
        },
        ShellView::Elvish => {
            let q = doubly_quoted(target)->Ok_0;
            lemma_literal(target, doubled_quote());
            lemma_markers("elvish"@, name);
            lemma_body("use os\nif (os:exists "@, q, ") {\n  eval (slurp < "@, q, ")\n}"@);
        },
        _ => {},
    }
}

/// The block that the library writes for a program is one block wherever it goes, and it holds
/// no carriage return. Left out are target paths with a line ending in them.
pub proof fn law_own_blocks_stand_alone(
    shell: ShellView,
    name: Seq<char>,
    target: Seq<u8>,
    contents: Seq<char>,
)
    requires
        program_name_error(name) is None,
        own_block(shell, name, target) is Ok,
        is_single_line(target),
    ensures
        is_one_block(
            own_block(shell, name, target)->Ok_0,
            inserted(contents, own_block(shell, name, target)->Ok_0),
        ),
        !rendered(own_block(shell, name, target)->Ok_0).contains('\r'),
{
    lemma_own_block(shell, name, target);
    lemma_one_block(contents, own_block(shell, name, target)->Ok_0);
    lemma_rendered(own_block(shell, name, target)->Ok_0);
}

/// A block of markers and a body without carriage returns has none.
proof fn lemma_rendered(b: BlockView)
    requires
        is_marker(b.start_marker),
        is_marker(b.end_marker),
        trim_end(b.body) == b.body,
        !b.body.contains('\r'),
    ensures
        !rendered(b).contains('\r'),
{
    reveal_strlit("\n");
    let text = rendered(b);
    let n1 = b.start_marker.len() as int;
    let n2 = n1 + 1 + b.body.len();
    let n3 = n2 + 1 + b.end_marker.len();
    assert forall|k: int| 0 <= k < text.len() implies text[k] != '\r' by {
        if k < n1 {
            assert(text[k] == b.start_marker[k]);
        } else if n1 < k < n2 {
            assert(text[k] == b.body[k - n1 - 1]);
        } else if n2 < k < n3 {
            assert(text[k] == b.end_marker[k - n2 - 1]);
        }
    }
}

/// Different texts are quoted differently.
#[verifier::spinoff_prover]
proof fn lemma_quotes_distinct(a: Seq<char>, b: Seq<char>, replacement: Seq<char>)
    requires
        replacement.len() > 0,
        replacement.last() == '\'',
        with_quotes(a, replacement) == with_quotes(b, replacement),
    ensures
        a == b,
    decreases a.len() + b.len(),
{
    let x = with_quotes(a, replacement);
    let y = with_quotes(b, replacement);
    if a.len() == 0 || b.len() == 0 {
        assert(a =~= b);
    } else {
        let front_a = with_quotes(a.drop_last(), replacement);
        let front_b = with_quotes(b.drop_last(), replacement);
        assert(x.last() == (if a.last() == '\'' {
            '\''
        } else {
            a.last()
        }));
        assert(y.last() == (if b.last() == '\'' {
            '\''
        } else {
            b.last()
        }));
        assert(a.last() == b.last());
        let n = if a.last() == '\'' {
            replacement.len() as int
        } else {
            1
        };
        assert(front_a =~= x.take(x.len() - n));
        assert(front_b =~= y.take(y.len() - n));
        lemma_quotes_distinct(a.drop_last(), b.drop_last(), replacement);
        assert(a =~= a.drop_last().push(a.last()));
        assert(b =~= b.drop_last().push(b.last()));
    }
}

/// Paths that are written differently have different literals, in the shells of the Bourne family
/// and in the others.
pub proof fn law_literals_tell_paths_apart(a: Seq<u8>, b: Seq<u8>)
    requires
        utf8_text(spelled(a)) is Some,
        utf8_text(spelled(b)) is Some,
    ensures
        shell_quoted(a) == shell_quoted(b) <==> spelled(a) == spelled(b),
        doubly_quoted(a) == doubly_quoted(b) <==> spelled(a) == spelled(b),
{
    reveal_strlit("'\"'\"'");
    reveal_strlit("''");
    reveal_strlit("'");
    let x = utf8_text(spelled(a))->0;
    let y = utf8_text(spelled(b))->0;
    decode_utf8_encode_utf8(spelled(a));
    decode_utf8_encode_utf8(spelled(b));
    if shell_quoted(a) == shell_quoted(b) {
        lemma_enclosed(x, y, bourne_quote());
    }
    if doubly_quoted(a) == doubly_quoted(b) {
        lemma_enclosed(x, y, doubled_quote());
    }
}

proof fn lemma_enclosed(x: Seq<char>, y: Seq<char>, replacement: Seq<char>)
    requires
        replacement.len() > 0,
        replacement.last() == '\'',
        enclosed(x, replacement) == enclosed(y, replacement),
    ensures
        x == y,
{
    reveal_strlit("'");
    let a = enclosed(x, replacement);
    let b = enclosed(y, replacement);
    assert(with_quotes(x, replacement) =~= a.subrange(1, a.len() - 1));
    assert(with_quotes(y, replacement) =~= b.subrange(1, b.len() - 1));
    lemma_quotes_distinct(x, y, replacement);
}

/// The markers of two programs differ.
proof fn lemma_markers_differ(shell: Seq<char>, a: Seq<char>, b: Seq<char>)
    requires
        a != b,
    ensures
        start_marker(shell, a) != start_marker(shell, b),
        end_marker(shell, a) != end_marker(shell, b),
        start_marker(shell, a) != end_marker(shell, b),
        end_marker(shell, a) != start_marker(shell, b),
{
    reveal_strlit("# >>> shellcomp ");
    reveal_strlit("# <<< shellcomp ");
    reveal_strlit(" >>>");
    reveal_strlit(" <<<");
    reveal_strlit(" ");
    let n = 16 + shell.len() as int + 1;
    let sa = start_marker(shell, a);
    let sb = start_marker(shell, b);
    let ea = end_marker(shell, a);
    let eb = end_marker(shell, b);
    assert(sa[2] == '>' && sb[2] == '>' && ea[2] == '<' && eb[2] == '<');
    assert(sa.subrange(n, sa.len() - 4) =~= a);
    assert(sb.subrange(n, sb.len() - 4) =~= b);
    assert(ea.subrange(n, ea.len() - 4) =~= a);
    assert(eb.subrange(n, eb.len() - 4) =~= b);
}

/// Wiring one program leaves the block of another as it was: it is seen if and only if it was
/// seen before. The blocks that are there must be in order and must not share lines. Behind a
/// carriage return at the end of the text it may be seen where it was not.
pub proof fn law_programs_keep_their_blocks(
    path: Seq<u8>,
    contents: Seq<char>,
    shell: ShellView,
    name: Seq<char>,
    target: Seq<u8>,
    other_name: Seq<char>,
    other_target: Seq<u8>,
)
    requires
        program_name_error(name) is None,
        program_name_error(other_name) is None,
        name != other_name,
        is_single_line(target),
        own_block(shell, name, target) is Ok,
        own_block(shell, other_name, other_target) is Ok,
        ({
            let b = own_block(shell, name, target)->Ok_0;
            let c = own_block(shell, other_name, other_target)->Ok_0;
            let lines = lines_of(contents);
            &&& block_spans(path, lines, b) is Ok
            &&& block_spans(path, lines, c) is Ok
            &&& forall|i: int|
                covered(block_spans(path, lines, b)->Ok_0, i) ==> !#[trigger] covered(
                    block_spans(path, lines, c)->Ok_0,
                    i,
                )
        }),
    ensures
        ({
            let b = own_block(shell, name, target)->Ok_0;
            let c = own_block(shell, other_name, other_target)->Ok_0;
            with_block(path, contents, b) matches Ok(updated) && {
                &&& holds_block(path, updated, c) is Ok
                &&& !ends_in_cr(contents) || holds_block(path, contents, c) == Ok::<
                    bool,
                    crate::error::ErrorView,
                >(true) ==> holds_block(path, updated, c) == holds_block(path, contents, c)
            }
        }),
{
    let b = own_block(shell, name, target)->Ok_0;
    let c = own_block(shell, other_name, other_target)->Ok_0;
    lemma_own_block(shell, name, target);
    lemma_shell_names();
    let word = match shell {
        ShellView::Bash => "bash"@,
        ShellView::Zsh => "zsh"@,
        ShellView::Powershell => "powershell"@,
        _ => "elvish"@,
    };
    lemma_markers(word, other_name);
    lemma_markers_differ(word, name, other_name);
    lemma_block_lines(contents, b);
    lemma_no_comment_inside(contents, b);
    let newline = newline_for(contents, b);
    lemma_newline_for(contents, b);
    lemma_marker_line(b.start_marker, newline);
    lemma_marker_line(b.end_marker, newline);
    let inner = inner_lines(contents, b);
    let lines = lines_of(inserted(contents, b));
    assert forall|i: int| 0 <= i < lines.len() implies is_other_line(c, #[trigger] lines[i]) by {
        if 0 < i < lines.len() - 1 {
            assert(lines[i] == inner[i - 1]);
            let text = marker_text(inner[i - 1]);
            assert(text.len() == 0 || text[0] != '#');
        }
    }
    law_upsert_keeps_other_blocks(path, contents, b, c);
}

} // verus!

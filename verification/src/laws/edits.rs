//! What becomes of the text of a startup file when blocks are put in and taken out.
use vstd::prelude::*;

use crate::error::ErrorView;
use crate::laws::blocks::{
    back_lines, body_lines, free_of, front_lines, law_removal_is_final, law_upsert_is_seen,
    lemma_collect_none, lemma_collected, lemma_crlf_found, lemma_legacy_gone, lemma_order_covers,
    inner_lines, inserted, is_one_block, is_other_line, lemma_block_lines, lemma_edited_between,
    lemma_enclosed_block, lemma_free_text, lemma_newline_for, lemma_no_lines, lemma_rebuilt_joined,
    lemma_shape, lemma_already_in_order, lemma_single, lemma_walk_add_free, lemma_walk_free,
    lemma_walk_outside, newline_for, own_spans,
};
use crate::laws::lines::{
    is_ended, is_line, joined, lemma_joined_add, lemma_joined_one, lemma_lines_of_joined,
    lemma_lines_whole, whole_lines,
};
use crate::laws::outcomes::{is_line_with, lemma_line_with, lemma_span_opens};
use crate::managed_block::{
    any_overlap, block_spans, collect_spans, covered, has_crlf, holds_block, in_order, marker_error,
    migrated_text, overlap, precedes, with_span, is_marker, lemma_walk_spans, rendered, span_lines,
    walk, with_block, without_blocks, BlockView, Walk,
};
use crate::model::FileChange;
use crate::text::{is_space, lines_of, marker_text, plain_line, plain_lines, trim_end};

verus! {

/// Lines of which each has the given line ending.
pub open spec fn ended(lines: Seq<Seq<char>>, newline: Seq<char>) -> Seq<Seq<char>> {
    lines.map_values(|line: Seq<char>| line + newline)
}

/// Whether a text is one line, without the line ending, and not a blank one.
pub open spec fn is_marker_text(text: Seq<char>) -> bool {
    &&& exists|k: int| 0 <= k < text.len() && !is_space(#[trigger] text[k])
    &&& forall|k: int| 0 <= k < text.len() ==> #[trigger] text[k] != '\n' && text[k] != '\r'
}

/// Whether a block has the given lines between its markers. None of them is a marker itself, and
/// the last one has no white space at its end.
pub open spec fn is_block_of(b: BlockView, commands: Seq<Seq<char>>) -> bool {
    &&& is_marker_text(b.start_marker)
    &&& is_marker_text(b.end_marker)
    &&& b.start_marker != b.end_marker
    &&& commands.len() > 0
    &&& commands.last().len() > 0 && !is_space(commands.last().last())
    &&& b.body + seq!['\n'] == joined(ended(commands, seq!['\n']))
    &&& forall|i: int|
        0 <= i < commands.len() ==> (#[trigger] commands[i]) != b.start_marker && commands[i]
            != b.end_marker && !commands[i].contains('\n') && !commands[i].contains('\r')
}

/// The line ending of a text: two characters where these stand together somewhere in it.
pub open spec fn newline_of(text: Seq<char>) -> Seq<char> {
    if exists|k: int| 0 <= k < text.len() - 1 && #[trigger] text[k] == '\r' && text[k + 1] == '\n' {
        seq!['\r', '\n']
    } else {
        seq!['\n']
    }
}

/// The text of a block with the given lines.
pub open spec fn block_text(b: BlockView, commands: Seq<Seq<char>>, newline: Seq<char>) -> Seq<char> {
    joined(ended(seq![b.start_marker] + commands + seq![b.end_marker], newline))
}

/// Whether no line of a list has a marker of a block as its content.
pub open spec fn shows_no_marker(b: BlockView, lines: Seq<Seq<char>>) -> bool {
    forall|i: int|
        0 <= i < lines.len() ==> !is_line_with(#[trigger] lines[i], b.start_marker)
            && !is_line_with(lines[i], b.end_marker)
}

proof fn lemma_marker_text(text: Seq<char>)
    requires
        is_marker_text(text),
    ensures
        is_marker(text),
        text.len() > 0,
        text.last() != '\n',
        text.last() != '\r',
        forall|line: Seq<char>| #[trigger]
            is_line_with(line, text) <==> marker_text(line) == text,
{
    let k = choose|k: int| 0 <= k < text.len() && !is_space(#[trigger] text[k]);
    assert(text[k] != '\n');
    assert(text[text.len() - 1] != '\n');
    assert forall|line: Seq<char>| #[trigger] is_line_with(line, text) <==> marker_text(line)
        == text by {
        lemma_line_with(line, text);
    }
}

/// Lines in which no marker is shown are free of markers.
proof fn lemma_no_marker(b: BlockView, lines: Seq<Seq<char>>)
    requires
        is_marker_text(b.start_marker),
        is_marker_text(b.end_marker),
        shows_no_marker(b, lines),
    ensures
        free_of(b, lines),
{
    lemma_marker_text(b.start_marker);
    lemma_marker_text(b.end_marker);
    assert forall|i: int| 0 <= i < lines.len() implies is_other_line(b, #[trigger] lines[i]) by {
        assert(!is_line_with(lines[i], b.start_marker));
        assert(!is_line_with(lines[i], b.end_marker));
    }
}

/// Lines without line feeds in them, each with a line ending, are the lines of a text.
proof fn lemma_ended_lines(lines: Seq<Seq<char>>, newline: Seq<char>)
    requires
        newline == seq!['\n'] || newline == seq!['\r', '\n'],
        forall|i: int| 0 <= i < lines.len() ==> !(#[trigger] lines[i]).contains('\n'),
    ensures
        whole_lines(ended(lines, newline)),
        lines_of(joined(ended(lines, newline))) == ended(lines, newline),
{
    let all = ended(lines, newline);
    assert forall|i: int| 0 <= i < all.len() implies is_line(#[trigger] all[i])
        && is_ended(all[i]) by {
        assert(all[i] == lines[i] + newline);
        assert forall|k: int| 0 <= k < all[i].len() - 1 implies #[trigger] all[i][k] != '\n' by {
            if k < lines[i].len() {
                assert(lines[i][k] != '\n');
            }
        }
    }
    lemma_lines_of_joined(all);
}

/// The text of a block as it goes into a text.
proof fn lemma_block_text(contents: Seq<char>, b: BlockView, commands: Seq<Seq<char>>)
    requires
        is_block_of(b, commands),
    ensures
        ({
            let newline = newline_for(contents, b);
            let all = seq![b.start_marker] + commands + seq![b.end_marker];
            &&& is_marker(b.start_marker) && is_marker(b.end_marker)
            &&& inserted(contents, b) == block_text(b, commands, newline)
            &&& lines_of(inserted(contents, b)) == ended(all, newline)
            &&& is_one_block(b, inserted(contents, b))
            &&& trim_end(b.body) == b.body
        }),
{
    let newline = newline_for(contents, b);
    let all = seq![b.start_marker] + commands + seq![b.end_marker];
    lemma_marker_text(b.start_marker);
    lemma_marker_text(b.end_marker);
    lemma_newline_for(contents, b);
    lemma_block_lines(contents, b);
    lemma_ended_lines(commands, seq!['\n']);
    let whole = ended(commands, seq!['\n']);
    assert(whole.last() == commands.last() + seq!['\n']);
    assert(joined(whole) == joined(whole.drop_last()) + whole.last());
    assert(joined(whole)[joined(whole).len() - 2] == commands.last().last());
    assert(b.body.last() == (b.body + seq!['\n'])[b.body.len() - 1]);
    assert(trim_end(b.body) == b.body);
    assert(body_lines(b) == whole);
    let inner = inner_lines(contents, b);
    assert forall|i: int| 0 <= i < inner.len() implies #[trigger] inner[i] == commands[i]
        + newline by {
        assert(inner[i] == whole[i].drop_last() + newline);
        assert((commands[i] + seq!['\n']).drop_last() =~= commands[i]);
    }
    assert(lines_of(inserted(contents, b)) =~= ended(all, newline));
    lemma_lines_whole(inserted(contents, b));
    assert forall|i: int| 0 <= i < inner.len() implies is_other_line(b, #[trigger] inner[i]) by {
        lemma_content(commands[i], newline);
        assert(inner[i] == commands[i] + newline);
    }
    lemma_enclosed_block(contents, b);
}

/// The content of a line that has a line ending.
proof fn lemma_content(line: Seq<char>, newline: Seq<char>)
    requires
        newline == seq!['\n'] || newline == seq!['\r', '\n'],
        !line.contains('\n'),
        !line.contains('\r'),
    ensures
        marker_text(line + newline) == line,
{
    if line.len() > 0 {
        assert(line.contains(line.last()));
    }
    if newline.len() == 2 {
        assert((line + newline).drop_last() =~= line + seq!['\r']);
        assert((line + seq!['\r']).drop_last() =~= line);
    } else {
        assert((line + newline).drop_last() =~= line);
    }
}

/// Into a text without a marker of it a block goes at the end, behind a blank line. It has the
/// line ending of the text, and a last line that is not ended is ended in the same way. Nothing
/// is taken out of such a text, and it is not said to hold the block.
pub proof fn law_blocks_go_behind_the_text(
    path: Seq<u8>,
    contents: Seq<char>,
    b: BlockView,
    commands: Seq<Seq<char>>,
)
    requires
        is_block_of(b, commands),
        shows_no_marker(b, lines_of(contents)),
    ensures
        ({
            let newline = if contents.len() > 0 && contents.last() == '\r' {
                seq!['\r', '\n']
            } else {
                newline_of(contents)
            };
            let between = if contents.len() == 0 {
                Seq::empty()
            } else if contents.last() == '\n' {
                newline
            } else if contents.last() == '\r' {
                seq!['\n'] + newline
            } else {
                newline + newline
            };
            &&& with_block(path, contents, b) == Ok::<Seq<char>, ErrorView>(
                contents + between + block_text(b, commands, newline),
            )
            &&& without_blocks(path, contents, seq![b]) == Ok::<
                (Seq<char>, FileChange),
                ErrorView,
            >((contents, FileChange::Absent))
            &&& holds_block(path, contents, b) == Ok::<bool, ErrorView>(false)
        }),
{
    let lines = lines_of(contents);
    lemma_no_marker(b, lines);
    lemma_walk_free(b, lines);
    lemma_block_text(contents, b, commands);
    lemma_newline_for(contents, b);
    reveal_strlit("\n");
    assert("\n"@ =~= seq!['\n']);
    assert(block_spans(path, lines, b) == Ok::<Seq<(int, int)>, ErrorView>(Seq::empty()));
    lemma_free_text(path, contents, seq![b]);
}

/// The walk over lines with one block among them.
proof fn lemma_one_found(
    b: BlockView,
    front: Seq<Seq<char>>,
    first: Seq<char>,
    inner: Seq<Seq<char>>,
)
    requires
        is_marker_text(b.start_marker),
        is_marker_text(b.end_marker),
        b.start_marker != b.end_marker,
        is_line_with(first, b.start_marker),
        shows_no_marker(b, front),
        shows_no_marker(b, inner),
    ensures
        walk(b, front) == Ok::<Walk, Seq<char>>((Walk { open: None, spans: Seq::empty() })),
        walk(b, front.push(first) + inner) == Ok::<Walk, Seq<char>>(
            (Walk { open: Some(front.len() as int), spans: Seq::empty() }),
        ),
{
    lemma_marker_text(b.start_marker);
    lemma_marker_text(b.end_marker);
    lemma_no_marker(b, front);
    lemma_no_marker(b, inner);
    lemma_walk_free(b, front);
    assert(front.push(first).drop_last() =~= front);
    assert(is_line_with(first, b.start_marker));
    lemma_walk_add_free(b, front.push(first), inner);
}

/// The lines of the text of a block without their line endings.
proof fn lemma_rendered_lines(b: BlockView, commands: Seq<Seq<char>>)
    requires
        is_block_of(b, commands),
    ensures
        plain_lines(rendered(b)) == seq![b.start_marker] + commands + seq![b.end_marker],
        lines_of(rendered(b)) == ended(
            seq![b.start_marker] + commands + seq![b.end_marker],
            seq!['\n'],
        ),
{
    let newline = seq!['\n'];
    let all = seq![b.start_marker] + commands + seq![b.end_marker];
    lemma_block_text(Seq::empty(), b, commands);
    lemma_marker_text(b.start_marker);
    lemma_marker_text(b.end_marker);
    reveal_strlit("\n");
    assert("\n"@ =~= newline);
    assert(ended(all, newline) =~= seq![b.start_marker + newline] + ended(commands, newline)
        + seq![b.end_marker + newline]);
    lemma_joined_add(
        seq![b.start_marker + newline] + ended(commands, newline),
        seq![b.end_marker + newline],
    );
    lemma_joined_add(seq![b.start_marker + newline], ended(commands, newline));
    lemma_joined_one(b.start_marker + newline);
    lemma_joined_one(b.end_marker + newline);
    assert(rendered(b) =~= joined(ended(all, newline)));
    assert forall|i: int| 0 <= i < all.len() implies !(#[trigger] all[i]).contains('\n')
        && !all[i].contains('\r') by {
        if 0 < i <= commands.len() {
            assert(all[i] == commands[i - 1]);
        }
    }
    lemma_ended_lines(all, newline);
    assert forall|i: int| 0 <= i < all.len() implies #[trigger] plain_lines(rendered(b))[i]
        == all[i] by {
        assert(ended(all, newline)[i] == all[i] + newline);
        assert((all[i] + newline).drop_last() =~= all[i]);
        if all[i].len() > 0 {
            assert(all[i].contains(all[i].last()));
        }
    }
    assert(plain_lines(rendered(b)) =~= all);
}

/// What is left of a line without its line ending.
proof fn lemma_plain_content(line: Seq<char>, content: Seq<char>)
    requires
        !content.contains('\n'),
        !content.contains('\r'),
    ensures
        plain_line(line) == content ==> is_line_with(line, content),
        is_line_with(line, content) && (line == content || line.last() == '\n') ==> plain_line(line)
            == content,
{
    if content.len() > 0 {
        assert(content.contains(content.last()));
    }
    assert((content + seq!['\n']).drop_last() =~= content);
    assert((content + seq!['\r', '\n']).drop_last() =~= content + seq!['\r']);
    assert((content + seq!['\r']).drop_last() =~= content);
    if plain_line(line) == content && line.len() > 0 && line.last() == '\n' {
        let body = line.drop_last();
        assert(line =~= body + seq!['\n']);
        if body.len() > 0 && body.last() == '\r' {
            assert(body =~= content + seq!['\r']);
            assert(line =~= content + seq!['\r', '\n']);
        }
    }
}

/// A block is held if and only if its lines are those between the markers.
proof fn lemma_held(
    b: BlockView,
    commands: Seq<Seq<char>>,
    all: Seq<Seq<char>>,
    first: Seq<char>,
    inner: Seq<Seq<char>>,
    last: Seq<char>,
    n: int,
)
    requires
        is_block_of(b, commands),
        0 <= n,
        n + inner.len() + 2 <= all.len(),
        all.subrange(n, n + inner.len() + 2) == seq![first] + inner.push(last),
        whole_lines(all),
        is_line_with(first, b.start_marker),
        is_line_with(last, b.end_marker),
    ensures
        ({
            let seen = span_lines(all, (n, n + inner.len() + 2));
            let own = plain_lines(rendered(b));
            &&& seen == own ==> inner.len() == commands.len() && forall|i: int|
                0 <= i < inner.len() ==> is_line_with(#[trigger] inner[i], commands[i])
            &&& last == b.end_marker || last == b.end_marker + seq!['\n'] || last == b.end_marker
                + seq!['\r', '\n'] ==> (inner.len() == commands.len() && (forall|i: int|
                0 <= i < inner.len() ==> is_line_with(#[trigger] inner[i], commands[i])) ==> seen
                == own)
        }),
{
    let m = n + inner.len() + 2;
    let lines = seq![first] + inner.push(last);
    let seen = span_lines(all, (n, m));
    let own = seq![b.start_marker] + commands + seq![b.end_marker];
    lemma_rendered_lines(b, commands);
    lemma_marker_text(b.start_marker);
    lemma_marker_text(b.end_marker);
    assert(seen.len() == lines.len());
    assert forall|i: int| 0 <= i < lines.len() implies #[trigger] seen[i] == plain_line(
        lines[i],
    ) && lines[i] == all[n + i] by {
        assert(all.subrange(n, m)[i] == lines[i]);
    }
    assert(lines[0] == first && is_ended(all[n + 0]));
    lemma_plain_content(first, b.start_marker);
    lemma_plain_content(last, b.end_marker);
    assert(lines[lines.len() - 1] == last);
    assert forall|i: int| 0 <= i < inner.len() && i < commands.len() implies (plain_line(
        #[trigger] inner[i],
    ) == commands[i] <==> is_line_with(inner[i], commands[i])) by {
        assert(lines[i + 1] == inner[i]);
        assert(is_ended(all[n + i + 1]));
        lemma_plain_content(inner[i], commands[i]);
    }
    if seen == own {
        assert forall|i: int| 0 <= i < inner.len() implies is_line_with(
            #[trigger] inner[i],
            commands[i],
        ) by {
            assert(own[i + 1] == commands[i]);
            assert(seen[i + 1] == plain_line(lines[i + 1]));
            assert(lines[i + 1] == inner[i]);
        }
    }
    if inner.len() == commands.len() && (forall|i: int|
        0 <= i < inner.len() ==> is_line_with(#[trigger] inner[i], commands[i])) && (last
        == b.end_marker || last == b.end_marker + seq!['\n'] || last == b.end_marker + seq![
        '\r',
        '\n',
    ]) {
        assert forall|i: int| 0 <= i < own.len() implies #[trigger] seen[i] == own[i] by {
            if 0 < i < own.len() - 1 {
                assert(lines[i] == inner[i - 1]);
                assert(is_line_with(inner[i - 1], commands[i - 1]));
            }
        }
        assert(seen =~= own);
    }
}

/// A block takes the place of the one with its markers: what stands before it and behind it stays
/// as it was. Taking it out leaves just that. A text is said to hold a block if it has the same
/// lines between the same markers, whatever the line endings.
pub proof fn law_blocks_are_replaced_in_place(
    path: Seq<u8>,
    b: BlockView,
    commands: Seq<Seq<char>>,
    front: Seq<Seq<char>>,
    first: Seq<char>,
    inner: Seq<Seq<char>>,
    last: Seq<char>,
    back: Seq<Seq<char>>,
)
    requires
        is_block_of(b, commands),
        whole_lines(front.push(first) + inner.push(last) + back),
        is_line_with(first, b.start_marker),
        is_line_with(last, b.end_marker),
        shows_no_marker(b, front),
        shows_no_marker(b, inner),
        shows_no_marker(b, back),
    ensures
        ({
            let contents = joined(front.push(first) + inner.push(last) + back);
            let newline = newline_of(contents);
            &&& with_block(path, contents, b) == Ok::<Seq<char>, ErrorView>(
                joined(front) + block_text(b, commands, newline) + joined(back),
            )
            &&& without_blocks(path, contents, seq![b]) == Ok::<
                (Seq<char>, FileChange),
                ErrorView,
            >((joined(front) + joined(back), FileChange::Removed))
            &&& holds_block(path, contents, b) is Ok
            &&& holds_block(path, contents, b)->Ok_0 ==> inner.len() == commands.len() && forall|
                i: int,
            |
                0 <= i < inner.len() ==> is_line_with(#[trigger] inner[i], commands[i])
            &&& last == b.end_marker || last == b.end_marker + seq!['\n'] || last == b.end_marker
                + seq!['\r', '\n'] ==> (inner.len() == commands.len() && (forall|i: int|
                0 <= i < inner.len() ==> is_line_with(#[trigger] inner[i], commands[i]))
                ==> holds_block(path, contents, b)->Ok_0)
        }),
{
    let all = front.push(first) + inner.push(last) + back;
    let contents = joined(all);
    let n = front.len() as int;
    let m = n + inner.len() + 2;
    lemma_lines_of_joined(all);
    lemma_one_span(b, front, first, inner, last, back);
    let spans = seq![(n, m)];
    assert(walk(b, all) == Ok::<Walk, Seq<char>>((Walk { open: None, spans })));
    assert(block_spans(path, all, b) == Ok::<Seq<(int, int)>, ErrorView>(spans));
    lemma_block_text(contents, b, commands);
    lemma_newline_for(contents, b);
    assert(own_spans(contents, b).len() == 1);
    let middle = seq![first] + inner.push(last);
    assert(front + middle + back =~= all);
    assert forall|i: int| 0 <= i < all.len() implies (#[trigger] covered(spans, i) <==> n <= i
        < m) by {
        if n <= i < m {
            assert(spans[0].0 <= i < spans[0].1);
        }
    }
    let new = lines_of(inserted(contents, b));
    let none = Seq::<Seq<char>>::empty();
    lemma_edited_between(front, middle, back, spans, new, all.len() as int);
    lemma_edited_between(front, middle, back, spans, none, all.len() as int);
    assert(back.take(back.len() as int) =~= back);
    lemma_rebuilt_joined(all, spans, new, all.len() as int);
    lemma_no_lines();
    lemma_rebuilt_joined(all, spans, none, all.len() as int);
    lemma_lines_whole(inserted(contents, b));
    lemma_joined_add(front + new, back);
    lemma_joined_add(front, new);
    lemma_joined_add(front + none, back);
    assert(front + none =~= front);
    lemma_single(path, all, b);
    assert(all.subrange(n, m) =~= middle);
    lemma_held(b, commands, all, first, inner, last, n);
}

/// Where a text has several blocks with its markers, a block takes the place of the first one:
/// the text before that one stays, and the block stands behind it.
pub proof fn law_the_first_block_is_the_place(
    path: Seq<u8>,
    b: BlockView,
    commands: Seq<Seq<char>>,
    front: Seq<Seq<char>>,
    first: Seq<char>,
    rest: Seq<Seq<char>>,
)
    requires
        is_block_of(b, commands),
        whole_lines(front.push(first) + rest),
        is_line_with(first, b.start_marker),
        shows_no_marker(b, front),
    ensures
        ({
            let contents = joined(front.push(first) + rest);
            let head = joined(front) + block_text(b, commands, newline_of(contents));
            with_block(path, contents, b) matches Ok(updated) ==> updated.len() >= head.len()
                && updated.take(head.len() as int) == head
        }),
{
    let all = front.push(first) + rest;
    let contents = joined(all);
    let n = front.len() as int;
    lemma_lines_of_joined(all);
    if with_block(path, contents, b) is Ok {
        let spans = block_spans(path, all, b)->Ok_0;
        lemma_marker_text(b.start_marker);
        lemma_no_marker(b, front);
        lemma_walk_spans(b, all);
        assert(all[n] == first);
        assert(is_line_with(first, b.start_marker));
        if !covered(spans, n) {
            lemma_walk_outside(b, all, n);
        }
        let k = choose|k: int| 0 <= k < spans.len() && (#[trigger] spans[k]).0 <= n < spans[k].1;
        lemma_span_opens(b, all, 0);
        if spans[0].0 < n {
            assert(all[spans[0].0] == front[spans[0].0]);
            assert(is_other_line(b, front[spans[0].0]));
        }
        if k > 0 {
            assert(spans[0].1 <= spans[k].0);
        }
        assert(spans[0].0 == n);
        lemma_shape(path, contents, b, spans);
        lemma_block_text(contents, b, commands);
        lemma_newline_for(contents, b);
        assert(own_spans(contents, b) == spans);
        let new = lines_of(inserted(contents, b));
        let before = front_lines(contents, spans);
        let behind = back_lines(contents, spans);
        assert(before =~= front);
        lemma_joined_add(before + new, behind);
        lemma_joined_add(before, new);
        lemma_lines_whole(inserted(contents, b));
        let head = joined(front) + inserted(contents, b);
        assert((head + joined(behind)).take(head.len() as int) =~= head);
    }
}

/// What all functions on the blocks of a text answer where the blocks cannot be told apart.
pub open spec fn is_refused(path: Seq<u8>, contents: Seq<char>, b: BlockView, error: ErrorView) -> bool {
    &&& with_block(path, contents, b) == Err::<Seq<char>, ErrorView>(error)
    &&& without_blocks(path, contents, seq![b]) == Err::<(Seq<char>, FileChange), ErrorView>(error)
    &&& holds_block(path, contents, b) == Err::<bool, ErrorView>(error)
}

pub proof fn lemma_refused(path: Seq<u8>, contents: Seq<char>, b: BlockView, error: ErrorView)
    requires
        block_spans(path, lines_of(contents), b) == Err::<Seq<(int, int)>, ErrorView>(error),
    ensures
        is_refused(path, contents, b, error),
{
    let lines = lines_of(contents);
    assert(collect_spans(path, lines, seq![b], 0) == Ok::<Seq<(int, int)>, ErrorView>(
        Seq::empty(),
    ));
    assert(collect_spans(path, lines, seq![b], 1) == Err::<Seq<(int, int)>, ErrorView>(error));
}

proof fn lemma_walk_fails(b: BlockView, x: Seq<Seq<char>>, y: Seq<Seq<char>>)
    requires
        walk(b, x) is Err,
    ensures
        walk(b, x + y) == walk(b, x),
    decreases y.len(),
{
    if y.len() == 0 {
        assert(x + y =~= x);
    } else {
        lemma_walk_fails(b, x, y.drop_last());
        assert((x + y).drop_last() =~= x + y.drop_last());
    }
}

/// Texts in which the markers of a block do not come in pairs are refused: one with an opening
/// line behind which no closing one comes, one with a second opening line before the closing one,
/// and one with a closing line before any opening one. So are markers that are blank, of several
/// lines, or the same.
pub proof fn law_unpaired_markers_are_refused(
    path: Seq<u8>,
    b: BlockView,
    front: Seq<Seq<char>>,
    first: Seq<char>,
    inner: Seq<Seq<char>>,
    next: Seq<char>,
    rest: Seq<Seq<char>>,
    contents: Seq<char>,
)
    ensures
        is_marker_text(b.start_marker) && is_marker_text(b.end_marker) && b.start_marker
            != b.end_marker && shows_no_marker(b, front) && shows_no_marker(b, inner) ==> {
            &&& whole_lines(front.push(first) + inner) && is_line_with(first, b.start_marker)
                ==> is_refused(
                path,
                joined(front.push(first) + inner),
                b,
                ErrorView::ManagedBlockMissingEnd {
                    path,
                    start_marker: b.start_marker,
                    end_marker: b.end_marker,
                },
            )
            &&& whole_lines(front.push(first) + inner.push(next) + rest) && is_line_with(
                first,
                b.start_marker,
            ) && is_line_with(next, b.start_marker) ==> is_refused(
                path,
                joined(front.push(first) + inner.push(next) + rest),
                b,
                ErrorView::InvalidManagedBlock {
                    path,
                    reason: "managed blocks must not be nested"@,
                },
            )
            &&& whole_lines(front.push(first) + rest) && is_line_with(first, b.end_marker)
                ==> is_refused(
                path,
                joined(front.push(first) + rest),
                b,
                ErrorView::InvalidManagedBlock {
                    path,
                    reason: "end marker has no matching start marker"@,
                },
            )
        },
        !is_marker_text(b.start_marker) || !is_marker_text(b.end_marker) ==> is_refused(
            path,
            contents,
            b,
            ErrorView::InvalidManagedBlock {
                path,
                reason: "markers must be nonempty single lines"@,
            },
        ),
        is_marker_text(b.start_marker) && b.start_marker == b.end_marker ==> is_refused(
            path,
            contents,
            b,
            ErrorView::InvalidManagedBlock {
                path,
                reason: "start and end markers must be distinct"@,
            },
        ),
{
    lemma_is_marker(b.start_marker);
    lemma_is_marker(b.end_marker);
    if !is_marker_text(b.start_marker) || !is_marker_text(b.end_marker) {
        lemma_refused(
            path,
            contents,
            b,
            ErrorView::InvalidManagedBlock {
                path,
                reason: "markers must be nonempty single lines"@,
            },
        );
    } else if b.start_marker == b.end_marker {
        lemma_refused(
            path,
            contents,
            b,
            ErrorView::InvalidManagedBlock {
                path,
                reason: "start and end markers must be distinct"@,
            },
        );
    } else if shows_no_marker(b, front) && shows_no_marker(b, inner) {
        lemma_marker_text(b.start_marker);
        lemma_marker_text(b.end_marker);
        lemma_no_marker(b, front);
        lemma_walk_free(b, front);
        assert(front.push(first).drop_last() =~= front);
        if is_line_with(first, b.start_marker) {
            let open = front.push(first) + inner;
            lemma_one_found(b, front, first, inner);
            if whole_lines(open) {
                lemma_lines_of_joined(open);
                lemma_refused(
                    path,
                    joined(open),
                    b,
                    ErrorView::ManagedBlockMissingEnd {
                        path,
                        start_marker: b.start_marker,
                        end_marker: b.end_marker,
                    },
                );
            }
            let all = front.push(first) + inner.push(next) + rest;
            if whole_lines(all) && is_line_with(next, b.start_marker) {
                let nested = open.push(next);
                assert(nested.drop_last() =~= open);
                assert(nested.last() == next);
                lemma_walk_fails(b, nested, rest);
                assert(nested + rest =~= all);
                lemma_lines_of_joined(all);
                lemma_refused(
                    path,
                    joined(all),
                    b,
                    ErrorView::InvalidManagedBlock {
                        path,
                        reason: "managed blocks must not be nested"@,
                    },
                );
            }
        }
        let all = front.push(first) + rest;
        if whole_lines(all) && is_line_with(first, b.end_marker) {
            assert(front.push(first).last() == first);
            lemma_walk_fails(b, front.push(first), rest);
            lemma_lines_of_joined(all);
            lemma_refused(
                path,
                joined(all),
                b,
                ErrorView::InvalidManagedBlock {
                    path,
                    reason: "end marker has no matching start marker"@,
                },
            );
        }
    }
}

proof fn lemma_is_marker(text: Seq<char>)
    ensures
        is_marker_text(text) <==> is_marker(text),
{
    if is_marker_text(text) {
        lemma_marker_text(text);
    } else if is_marker(text) {
        assert forall|k: int| 0 <= k < text.len() implies #[trigger] text[k] != '\n' && text[k]
            != '\r' by {
            assert(text.contains(text[k]));
        }
    }
}

/// Whether no line of a list has a marker of any of several blocks as its content.
pub open spec fn shows_none_of(blocks: Seq<BlockView>, lines: Seq<Seq<char>>) -> bool {
    forall|n: int| 0 <= n < blocks.len() ==> shows_no_marker(#[trigger] blocks[n], lines)
}

/// Lines are free of the markers of a block if and only if none of them shows one.
proof fn lemma_free_shows(path: Seq<u8>, b: BlockView, lines: Seq<Seq<char>>)
    requires
        marker_error(path, b) is None,
    ensures
        free_of(b, lines) <==> shows_no_marker(b, lines),
{
    lemma_is_marker(b.start_marker);
    lemma_is_marker(b.end_marker);
    lemma_marker_text(b.start_marker);
    lemma_marker_text(b.end_marker);
    if shows_no_marker(b, lines) {
        lemma_no_marker(b, lines);
    }
    if free_of(b, lines) {
        assert forall|i: int| 0 <= i < lines.len() implies !is_line_with(
            #[trigger] lines[i],
            b.start_marker,
        ) && !is_line_with(lines[i], b.end_marker) by {
            assert(is_other_line(b, lines[i]));
        }
    }
}

/// Lines in which no block is found are free of markers.
proof fn lemma_none_found(path: Seq<u8>, lines: Seq<Seq<char>>, blocks: Seq<BlockView>)
    requires
        collect_spans(path, lines, blocks, blocks.len() as int) is Ok,
    ensures
        collect_spans(path, lines, blocks, blocks.len() as int)->Ok_0.len() == 0 <==> shows_none_of(
            blocks,
            lines,
        ),
        forall|n: int| 0 <= n < blocks.len() ==> marker_error(path, #[trigger] blocks[n]) is None,
{
    let all = collect_spans(path, lines, blocks, blocks.len() as int)->Ok_0;
    assert forall|n: int| 0 <= n < blocks.len() implies marker_error(
        path,
        #[trigger] blocks[n],
    ) is None && (all.len() == 0 ==> shows_no_marker(blocks[n], lines)) by {
        lemma_collected(path, lines, blocks, blocks.len() as int, n);
        if all.len() == 0 {
            assert forall|i: int| 0 <= i < lines.len() implies is_other_line(
                blocks[n],
                #[trigger] lines[i],
            ) by {
                assert(!covered(all, i));
                lemma_walk_outside(blocks[n], lines, i);
            }
            lemma_free_shows(path, blocks[n], lines);
        }
    }
    if shows_none_of(blocks, lines) {
        assert forall|n: int| 0 <= n < blocks.len() implies marker_error(
            path,
            #[trigger] blocks[n],
        ) is None && free_of(blocks[n], lines) by {
            assert(shows_no_marker(blocks[n], lines));
            lemma_free_shows(path, blocks[n], lines);
        }
        lemma_collect_none(path, lines, blocks, blocks.len() as int);
    }
}

/// Taking blocks out leaves no marker of them, and says whether there was one.
pub proof fn law_removal_leaves_no_marker(
    path: Seq<u8>,
    contents: Seq<char>,
    blocks: Seq<BlockView>,
)
    ensures
        without_blocks(path, contents, blocks) matches Ok((rest, change)) ==> {
            &&& shows_none_of(blocks, lines_of(rest))
            &&& change == (if shows_none_of(blocks, lines_of(contents)) {
                FileChange::Absent
            } else {
                FileChange::Removed
            })
            &&& change == FileChange::Absent ==> rest == contents
        },
{
    let lines = lines_of(contents);
    if without_blocks(path, contents, blocks) is Ok {
        let rest = without_blocks(path, contents, blocks)->Ok_0.0;
        law_removal_is_final(path, contents, blocks);
        lemma_none_found(path, lines, blocks);
        lemma_order_covers(collect_spans(path, lines, blocks, blocks.len() as int)->Ok_0);
        lemma_none_found(path, lines_of(rest), blocks);
        lemma_order_covers(
            collect_spans(path, lines_of(rest), blocks, blocks.len() as int)->Ok_0,
        );
        if shows_none_of(blocks, lines) {
            assert forall|n: int| 0 <= n < blocks.len() implies marker_error(
                path,
                #[trigger] blocks[n],
            ) is None && free_of(blocks[n], lines) by {
                assert(shows_no_marker(blocks[n], lines));
                lemma_free_shows(path, blocks[n], lines);
            }
            lemma_free_text(path, contents, blocks);
        }
    }
}

/// A migrated text shows no marker of the legacy blocks, unless the new block has one in it, and
/// shows the new block. What is said of the legacy blocks is whether there was one. What is said of
/// the new block is whether the text without the legacy ones had one with its markers already, and
/// whether it was the same.
pub proof fn law_migrated_texts_have_the_new_block(
    path: Seq<u8>,
    contents: Seq<char>,
    legacy: Seq<BlockView>,
    b: BlockView,
    commands: Seq<Seq<char>>,
)
    requires
        is_block_of(b, commands),
        migrated_text(path, contents, legacy, b) is Ok,
    ensures
        ({
            let (updated, (legacy_change, managed_change)) = migrated_text(
                path,
                contents,
                legacy,
                b,
            )->Ok_0;
            let rest = without_blocks(path, contents, legacy)->Ok_0.0;
            let block = seq![b.start_marker] + commands + seq![b.end_marker];
            &&& holds_block(path, updated, b) == Ok::<bool, ErrorView>(true)
            &&& shows_none_of(legacy, ended(block, seq!['\n'])) && shows_none_of(
                legacy,
                ended(block, seq!['\r', '\n']),
            ) ==> shows_none_of(legacy, lines_of(updated))
            &&& legacy_change == (if shows_none_of(legacy, lines_of(contents)) {
                FileChange::Absent
            } else {
                FileChange::Removed
            })
            &&& shows_no_marker(b, lines_of(rest)) ==> managed_change == FileChange::Created
            &&& !shows_no_marker(b, lines_of(rest)) ==> managed_change == (if updated == rest {
                FileChange::Unchanged
            } else {
                FileChange::Updated
            })
        }),
{
    let rest = without_blocks(path, contents, legacy)->Ok_0.0;
    let updated = migrated_text(path, contents, legacy, b)->Ok_0.0;
    let block = seq![b.start_marker] + commands + seq![b.end_marker];
    law_removal_leaves_no_marker(path, contents, legacy);
    lemma_block_text(rest, b, commands);
    lemma_newline_for(rest, b);
    let newline = newline_for(rest, b);
    lemma_no_return(b, commands);
    law_upsert_is_seen(path, rest, b);
    if shows_none_of(legacy, ended(block, seq!['\n'])) && shows_none_of(
        legacy,
        ended(block, seq!['\r', '\n']),
    ) {
        lemma_none_found(path, lines_of(contents), legacy);
        assert forall|n: int| 0 <= n < legacy.len() implies free_of(
            #[trigger] legacy[n],
            lines_of(inserted(rest, b)),
        ) by {
            assert(marker_error(path, legacy[n]) is None);
            assert(shows_no_marker(legacy[n], ended(block, newline)));
            lemma_free_shows(path, legacy[n], ended(block, newline));
        }
        lemma_legacy_gone(path, contents, legacy, b);
        assert forall|n: int| 0 <= n < legacy.len() implies shows_no_marker(
            #[trigger] legacy[n],
            lines_of(updated),
        ) by {
            lemma_free_shows(path, legacy[n], lines_of(updated));
        }
    }
    let spans = block_spans(path, lines_of(rest), b)->Ok_0;
    if shows_no_marker(b, lines_of(rest)) {
        lemma_no_marker(b, lines_of(rest));
        lemma_walk_free(b, lines_of(rest));
        law_blocks_go_behind_the_text(path, rest, b, commands);
    } else if spans.len() == 0 {
        assert forall|i: int| 0 <= i < lines_of(rest).len() implies is_other_line(
            b,
            #[trigger] lines_of(rest)[i],
        ) by {
            assert(!covered(spans, i));
            lemma_walk_outside(b, lines_of(rest), i);
        }
        lemma_free_shows(path, b, lines_of(rest));
    }
}

/// The text of a block of plain lines has no carriage return in it.
proof fn lemma_no_return(b: BlockView, commands: Seq<Seq<char>>)
    requires
        is_block_of(b, commands),
    ensures
        !has_crlf(rendered(b)),
{
    let newline = seq!['\n'];
    let all = seq![b.start_marker] + commands + seq![b.end_marker];
    lemma_rendered_lines(b, commands);
    if has_crlf(rendered(b)) {
        let s = rendered(b);
        lemma_lines_whole(s);
        let i = lemma_crlf_found(lines_of(s));
        let line = lines_of(s)[i];
        assert(line == all[i] + newline);
        assert(all[i].contains(line[line.len() - 2]));
        lemma_marker_text(b.start_marker);
        lemma_marker_text(b.end_marker);
        if 0 < i <= commands.len() {
            assert(all[i] == commands[i - 1]);
        }
    }
}

/// White space at the end of the body of a block is dropped.
pub proof fn law_space_at_the_end_of_a_body_is_dropped(b: BlockView, space: Seq<char>)
    requires
        b.body.len() == 0 || !is_space(b.body.last()),
        forall|k: int| 0 <= k < space.len() ==> is_space(#[trigger] space[k]),
    ensures
        rendered(BlockView { body: b.body + space, ..b }) == b.start_marker + seq!['\n'] + b.body
            + seq!['\n'] + b.end_marker + seq!['\n'],
{
    reveal_strlit("\n");
    assert("\n"@ =~= seq!['\n']);
    lemma_trimmed(b.body, space);
}

proof fn lemma_trimmed(body: Seq<char>, space: Seq<char>)
    requires
        body.len() == 0 || !is_space(body.last()),
        forall|k: int| 0 <= k < space.len() ==> is_space(#[trigger] space[k]),
    ensures
        trim_end(body + space) == body,
    decreases space.len(),
{
    if space.len() == 0 {
        assert(body + space =~= body);
    } else {
        let less = space.drop_last();
        assert forall|k: int| 0 <= k < less.len() implies is_space(#[trigger] less[k]) by {
            assert(less[k] == space[k]);
        }
        lemma_trimmed(body, less);
        assert(is_space(space[space.len() - 1]));
        assert((body + space).drop_last() =~= body + less);
    }
}

/// The characters that Unicode counts as white space.
pub proof fn law_white_space_is_that_of_unicode(c: char)
    ensures
        is_space(c) <==> c == '\t' || c == '\n' || c == '\u{b}' || c == '\u{c}' || c == '\r' || c
            == ' ' || c == '\u{85}' || c == '\u{a0}' || c == '\u{1680}' || c == '\u{2000}' || c
            == '\u{2001}' || c == '\u{2002}' || c == '\u{2003}' || c == '\u{2004}' || c
            == '\u{2005}' || c == '\u{2006}' || c == '\u{2007}' || c == '\u{2008}' || c
            == '\u{2009}' || c == '\u{200a}' || c == '\u{2028}' || c == '\u{2029}' || c
            == '\u{202f}' || c == '\u{205f}' || c == '\u{3000}',
{
}

/// Blocks that share lines are refused: of two blocks, one must not open within the other and close
/// behind it.
pub proof fn law_interleaved_blocks_are_refused(
    path: Seq<u8>,
    a: BlockView,
    b: BlockView,
    first: Seq<char>,
    inner: Seq<Seq<char>>,
    second: Seq<char>,
    shared: Seq<Seq<char>>,
    first_end: Seq<char>,
    rest: Seq<Seq<char>>,
    second_end: Seq<char>,
)
    requires
        is_marker_text(a.start_marker) && is_marker_text(a.end_marker),
        is_marker_text(b.start_marker) && is_marker_text(b.end_marker),
        a.start_marker != a.end_marker && b.start_marker != b.end_marker,
        a.start_marker != b.start_marker && a.start_marker != b.end_marker,
        a.end_marker != b.start_marker && a.end_marker != b.end_marker,
        is_line_with(first, a.start_marker) && is_line_with(first_end, a.end_marker),
        is_line_with(second, b.start_marker) && is_line_with(second_end, b.end_marker),
        shows_no_marker(a, inner) && shows_no_marker(a, shared) && shows_no_marker(a, rest),
        shows_no_marker(b, inner) && shows_no_marker(b, shared) && shows_no_marker(b, rest),
        whole_lines(
            (seq![first] + inner).push(second) + shared.push(first_end) + rest.push(second_end),
        ),
    ensures
        without_blocks(
            path,
            joined(
                (seq![first] + inner).push(second) + shared.push(first_end) + rest.push(second_end),
            ),
            seq![a, b],
        ) == Err::<(Seq<char>, FileChange), ErrorView>(
            ErrorView::InvalidManagedBlock { path, reason: "managed blocks must not overlap"@ },
        ),
{
    let lines = (seq![first] + inner).push(second) + shared.push(first_end) + rest.push(second_end);
    let none = Seq::<Seq<char>>::empty();
    let n = inner.len() + 1;
    let m = n + 1 + shared.len();
    lemma_lines_of_joined(lines);
    lemma_marker_text(a.start_marker);
    lemma_marker_text(a.end_marker);
    lemma_marker_text(b.start_marker);
    lemma_marker_text(b.end_marker);
    assert(is_line_with(first, a.start_marker) && is_line_with(first_end, a.end_marker));
    assert(is_line_with(second, b.start_marker) && is_line_with(second_end, b.end_marker));
    // The first block reaches from the first line to the one that closes it.
    let within = inner.push(second) + shared;
    assert forall|i: int| 0 <= i < within.len() implies !is_line_with(
        #[trigger] within[i],
        a.start_marker,
    ) && !is_line_with(within[i], a.end_marker) by {
        if i < inner.len() {
            assert(within[i] == inner[i]);
        } else if i > inner.len() {
            assert(within[i] == shared[i - inner.len() - 1]);
        }
    }
    let behind = rest.push(second_end);
    assert forall|i: int| 0 <= i < behind.len() implies !is_line_with(
        #[trigger] behind[i],
        a.start_marker,
    ) && !is_line_with(behind[i], a.end_marker) by {
        if i < rest.len() {
            assert(behind[i] == rest[i]);
        }
    }
    lemma_one_span(a, none, first, within, first_end, behind);
    assert(none.push(first) + within.push(first_end) + behind =~= lines);
    // The second one opens within it and closes on the last line.
    let before = seq![first] + inner;
    assert forall|i: int| 0 <= i < before.len() implies !is_line_with(
        #[trigger] before[i],
        b.start_marker,
    ) && !is_line_with(before[i], b.end_marker) by {
        if i > 0 {
            assert(before[i] == inner[i - 1]);
        }
    }
    let body = shared.push(first_end) + rest;
    assert forall|i: int| 0 <= i < body.len() implies !is_line_with(
        #[trigger] body[i],
        b.start_marker,
    ) && !is_line_with(body[i], b.end_marker) by {
        if i < shared.len() {
            assert(body[i] == shared[i]);
        } else if i > shared.len() {
            assert(body[i] == rest[i - shared.len() - 1]);
        }
    }
    lemma_one_span(b, before, second, body, second_end, none);
    assert(before.push(second) + body.push(second_end) + none =~= lines);
    let one = (0int, m + 1int);
    let two = (n as int, lines.len() as int);
    let blocks = seq![a, b];
    assert(walk(a, lines)->Ok_0.spans =~= seq![one]);
    assert(walk(b, lines)->Ok_0.spans =~= seq![two]);
    assert(collect_spans(path, lines, blocks, 0) == Ok::<Seq<(int, int)>, ErrorView>(
        Seq::empty(),
    ));
    assert(Seq::<(int, int)>::empty() + seq![one] =~= seq![one]);
    assert(collect_spans(path, lines, blocks, 1) == Ok::<Seq<(int, int)>, ErrorView>(seq![one]));
    let both = seq![one] + seq![two];
    assert(collect_spans(path, lines, blocks, 2) == Ok::<Seq<(int, int)>, ErrorView>(both));
    assert(both[0] == one && both[1] == two);
    assert(overlap(both[0], both[1]));
    assert(any_overlap(both));
}

/// The one block that stands between lines without its markers.
proof fn lemma_one_span(
    b: BlockView,
    front: Seq<Seq<char>>,
    first: Seq<char>,
    inner: Seq<Seq<char>>,
    last: Seq<char>,
    back: Seq<Seq<char>>,
)
    requires
        is_marker_text(b.start_marker),
        is_marker_text(b.end_marker),
        b.start_marker != b.end_marker,
        is_line_with(first, b.start_marker),
        is_line_with(last, b.end_marker),
        shows_no_marker(b, front),
        shows_no_marker(b, inner),
        shows_no_marker(b, back),
    ensures
        walk(b, front.push(first) + inner.push(last) + back) == Ok::<Walk, Seq<char>>(
            (Walk {
                open: None,
                spans: seq![(front.len() as int, front.len() as int + inner.len() + 2)],
            }),
        ),
{
    let n = front.len() as int;
    let m = n + inner.len() + 2;
    lemma_one_found(b, front, first, inner);
    lemma_marker_text(b.start_marker);
    lemma_marker_text(b.end_marker);
    lemma_no_marker(b, back);
    let open = front.push(first) + inner;
    let closed = front.push(first) + inner.push(last);
    assert(closed.drop_last() =~= open);
    assert(closed.last() == last);
    assert(is_line_with(last, b.end_marker));
    assert(Seq::<(int, int)>::empty().push((n, m)) =~= seq![(n, m)]);
    lemma_walk_add_free(b, closed, back);
}

/// Blocks in order stay as they are when one of them is put in again.
proof fn lemma_with_existing(spans: Seq<(int, int)>, k: int)
    requires
        0 <= k < spans.len(),
        forall|i: int, j: int|
            0 <= i < j < spans.len() ==> precedes(#[trigger] spans[i], #[trigger] spans[j]),
    ensures
        with_span(spans, spans[k]) == spans,
    decreases spans.len(),
{
    let n = spans.len() - 1;
    if k < n {
        let front = spans.drop_last();
        assert(precedes(spans[k], spans[n]));
        assert forall|i: int, j: int| 0 <= i < j < front.len() implies precedes(
            #[trigger] front[i],
            #[trigger] front[j],
        ) by {
            assert(precedes(spans[i], spans[j]));
        }
        lemma_with_existing(front, k);
        assert(front[k] == spans[k]);
        assert(front.push(spans.last()) =~= spans);
    }
}

proof fn lemma_order_again(spans: Seq<(int, int)>, count: int)
    requires
        0 <= count <= spans.len(),
        forall|i: int, j: int|
            0 <= i < j < spans.len() ==> precedes(#[trigger] spans[i], #[trigger] spans[j]),
    ensures
        in_order(spans + spans.take(count)) == spans,
    decreases count,
{
    let all = spans + spans.take(count);
    if count == 0 {
        assert(all =~= spans);
        lemma_already_in_order(spans);
    } else {
        lemma_order_again(spans, count - 1);
        assert(all.drop_last() =~= spans + spans.take(count - 1));
        assert(all.last() == spans[count - 1]);
        lemma_with_existing(spans, count - 1);
    }
}

/// A pair of markers that is given twice counts once.
pub proof fn law_markers_given_twice_count_once(path: Seq<u8>, contents: Seq<char>, b: BlockView)
    ensures
        without_blocks(path, contents, seq![b, b]) == without_blocks(path, contents, seq![b]),
{
    let lines = lines_of(contents);
    let one = seq![b];
    let two = seq![b, b];
    assert(collect_spans(path, lines, one, 0) == Ok::<Seq<(int, int)>, ErrorView>(Seq::empty()));
    assert(collect_spans(path, lines, two, 0) == Ok::<Seq<(int, int)>, ErrorView>(Seq::empty()));
    match block_spans(path, lines, b) {
        Err(error) => {
            assert(collect_spans(path, lines, one, 1) == Err::<Seq<(int, int)>, ErrorView>(error));
            assert(collect_spans(path, lines, two, 1) == Err::<Seq<(int, int)>, ErrorView>(error));
            assert(collect_spans(path, lines, two, 2) == Err::<Seq<(int, int)>, ErrorView>(error));
        },
        Ok(spans) => {
            lemma_single(path, lines, b);
            lemma_walk_spans(b, lines);
            assert(Seq::<(int, int)>::empty() + spans =~= spans);
            assert(collect_spans(path, lines, two, 1) == Ok::<Seq<(int, int)>, ErrorView>(spans));
            let all = spans + spans;
            assert(collect_spans(path, lines, two, 2) == Ok::<Seq<(int, int)>, ErrorView>(all));
            let n = spans.len() as int;
            assert forall|i: int, j: int|
                0 <= i < all.len() && 0 <= j < all.len() implies !overlap(
                #[trigger] all[i],
                #[trigger] all[j],
            ) by {
                let p = if i < n {
                    i
                } else {
                    i - n
                };
                let r = if j < n {
                    j
                } else {
                    j - n
                };
                assert(all[i] == spans[p] && all[j] == spans[r]);
                if p < r {
                    assert(spans[p].1 <= spans[r].0);
                } else if r < p {
                    assert(spans[r].1 <= spans[p].0);
                }
            }
            assert(!any_overlap(all));
            assert forall|i: int, j: int| 0 <= i < j < spans.len() implies precedes(
                #[trigger] spans[i],
                #[trigger] spans[j],
            ) by {
                assert(spans[i].1 <= spans[j].0);
            }
            lemma_order_again(spans, n);
            assert(spans.take(n) =~= spans);
        },
    }
}

} // verus!

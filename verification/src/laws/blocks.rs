//! What holds of the blocks of a startup file.
use vstd::prelude::*;

use crate::laws::lines::{
    ended_lines, is_ended, is_line, joined, lemma_joined_add, lemma_joined_ended, lemma_joined_one,
    lemma_lines_add, lemma_lines_ended, lemma_lines_of_joined, lemma_lines_whole, lemma_one_line,
    whole_lines,
};
use crate::managed_block::{
    all_spans, any_overlap, block_spans, collect_spans, covered, ends_in_cr, gap, has_crlf,
    holds_block, in_order, is_marker, lemma_in_order, lemma_walk_spans, marker_error, migrated_text,
    newline_in, piece, precedes, rebuilt, rendered, span_lines, walk, with_block, with_newlines,
    with_span, without_blocks, BlockView, Walk,
};
use crate::model::FileChange;
use crate::text::{is_blank, lines_of, marker_text, plain_line, plain_lines, trim_end, without_last};

verus! {

/// Whether a line is no marker of a block.
pub open spec fn is_other_line(b: BlockView, line: Seq<char>) -> bool {
    marker_text(line) != b.start_marker && marker_text(line) != b.end_marker
}

/// Whether no line is a marker of a block.
pub open spec fn free_of(b: BlockView, lines: Seq<Seq<char>>) -> bool {
    forall|i: int| 0 <= i < lines.len() ==> is_other_line(b, #[trigger] lines[i])
}

/// What becomes of a line when the blocks are taken out and lines are put in the place of the
/// first one.
pub open spec fn edited_line(
    lines: Seq<Seq<char>>,
    spans: Seq<(int, int)>,
    new: Seq<Seq<char>>,
    line: int,
) -> Seq<Seq<char>> {
    if spans.len() > 0 && line == spans[0].0 {
        new
    } else if covered(spans, line) {
        Seq::empty()
    } else {
        seq![lines[line]]
    }
}

/// The first `count` lines of a text with its blocks taken out and lines put in the place of
/// the first one.
pub open spec fn edited(
    lines: Seq<Seq<char>>,
    spans: Seq<(int, int)>,
    new: Seq<Seq<char>>,
    count: int,
) -> Seq<Seq<char>>
    decreases count,
{
    if count <= 0 {
        Seq::empty()
    } else {
        edited(lines, spans, new, count - 1) + edited_line(lines, spans, new, count - 1)
    }
}

/// The lines of a text outside of its blocks.
pub open spec fn kept(lines: Seq<Seq<char>>, spans: Seq<(int, int)>) -> Seq<Seq<char>> {
    edited(lines, spans, Seq::empty(), lines.len() as int)
}

pub open spec fn shifted(spans: Seq<(int, int)>, by: int) -> Seq<(int, int)> {
    spans.map_values(|s: (int, int)| (s.0 + by, s.1 + by))
}

pub proof fn lemma_walk_free(b: BlockView, lines: Seq<Seq<char>>)
    requires
        free_of(b, lines),
    ensures
        walk(b, lines) == Ok::<Walk, Seq<char>>((Walk { open: None, spans: Seq::empty() })),
    decreases lines.len(),
{
    if lines.len() > 0 {
        let front = lines.drop_last();
        assert forall|i: int| 0 <= i < front.len() implies is_other_line(b, #[trigger] front[i]) by {
            assert(front[i] == lines[i]);
        }
        lemma_walk_free(b, front);
        assert(is_other_line(b, lines[lines.len() - 1]));
    }
}

/// Lines without markers leave a walk where it is.
pub proof fn lemma_walk_add_free(b: BlockView, x: Seq<Seq<char>>, y: Seq<Seq<char>>)
    requires
        free_of(b, y),
    ensures
        walk(b, x + y) == walk(b, x),
    decreases y.len(),
{
    if y.len() == 0 {
        assert(x + y =~= x);
    } else {
        let front = y.drop_last();
        assert forall|i: int| 0 <= i < front.len() implies is_other_line(b, #[trigger] front[i]) by {
            assert(front[i] == y[i]);
        }
        lemma_walk_add_free(b, x, front);
        assert((x + y).drop_last() =~= x + front);
        assert((x + y).last() == y[y.len() - 1]);
        assert(is_other_line(b, y[y.len() - 1]));
    }
}

/// A walk goes on behind lines in which every block is closed as it would from the start.
pub proof fn lemma_walk_add(b: BlockView, x: Seq<Seq<char>>, y: Seq<Seq<char>>)
    requires
        walk(b, x) matches Ok(w) && w.open is None,
    ensures
        walk(b, x + y) == (match walk(b, y) {
            Err(reason) => Err::<Walk, Seq<char>>(reason),
            Ok(w) => Ok::<Walk, Seq<char>>(
                (Walk {
                    open: match w.open {
                        Some(n) => Some(n + x.len()),
                        None => None,
                    },
                    spans: walk(b, x)->Ok_0.spans + shifted(w.spans, x.len() as int),
                }),
            ),
        }),
    decreases y.len(),
{
    let first = walk(b, x)->Ok_0.spans;
    if y.len() == 0 {
        assert(x + y =~= x);
        assert(first + shifted(Seq::empty(), x.len() as int) =~= first);
    } else {
        let front = y.drop_last();
        lemma_walk_add(b, x, front);
        assert((x + y).drop_last() =~= x + front);
        assert((x + y).last() == y.last());
        if walk(b, front) is Ok {
            let w = walk(b, front)->Ok_0;
            if w.open is Some {
                let n = w.open->0;
                assert(shifted(w.spans.push((n, y.len() as int)), x.len() as int) =~= shifted(
                    w.spans,
                    x.len() as int,
                ).push((n + x.len(), (x + y).len() as int)));
                assert(first + shifted(w.spans, x.len() as int).push(
                    (n + x.len(), (x + y).len() as int),
                ) =~= (first + shifted(w.spans, x.len() as int)).push(
                    (n + x.len(), (x + y).len() as int),
                ));
            }
        }
    }
}

/// Outside of the blocks no line is a marker.
pub proof fn lemma_walk_outside(b: BlockView, lines: Seq<Seq<char>>, i: int)
    requires
        walk(b, lines) is Ok,
        0 <= i < lines.len(),
        !covered(walk(b, lines)->Ok_0.spans, i),
        walk(b, lines)->Ok_0.open matches Some(n) ==> i < n,
    ensures
        is_other_line(b, lines[i]),
    decreases lines.len(),
{
    let front = lines.drop_last();
    let w = walk(b, lines)->Ok_0;
    let w0 = walk(b, front)->Ok_0;
    lemma_walk_spans(b, front);
    if i == lines.len() - 1 {
        if marker_text(lines.last()) == b.end_marker && marker_text(lines.last())
            != b.start_marker {
            assert(w.spans[w.spans.len() - 1].0 <= i < w.spans[w.spans.len() - 1].1);
        }
    } else {
        if covered(w0.spans, i) {
            let k = choose|k: int|
                0 <= k < w0.spans.len() && (#[trigger] w0.spans[k]).0 <= i < w0.spans[k].1;
            assert(w.spans[k] == w0.spans[k]);
        }
        if w0.open is Some && i >= w0.open->0 {
            assert(w.open is None);
            assert(w.spans[w.spans.len() - 1].0 <= i < w.spans[w.spans.len() - 1].1);
        }
        lemma_walk_outside(b, front, i);
        assert(front[i] == lines[i]);
    }
}

pub proof fn lemma_rebuilt_joined(
    lines: Seq<Seq<char>>,
    spans: Seq<(int, int)>,
    new: Seq<Seq<char>>,
    count: int,
)
    requires
        0 <= count <= lines.len(),
    ensures
        rebuilt(lines, spans, joined(new), count) == joined(edited(lines, spans, new, count)),
    decreases count,
{
    if count > 0 {
        let n = count - 1;
        lemma_rebuilt_joined(lines, spans, new, n);
        lemma_joined_add(edited(lines, spans, new, n), edited_line(lines, spans, new, n));
        lemma_joined_one(lines[n]);
        assert(joined(edited_line(lines, spans, new, n)) == piece(lines, spans, joined(new), n)) by {
            assert(joined(Seq::<Seq<char>>::empty()) == Seq::<char>::empty());
        }
    } else {
        assert(joined(edited(lines, spans, new, count)) =~= rebuilt(
            lines,
            spans,
            joined(new),
            count,
        ));
    }
}

proof fn lemma_edited_whole(
    lines: Seq<Seq<char>>,
    spans: Seq<(int, int)>,
    new: Seq<Seq<char>>,
    count: int,
)
    requires
        whole_lines(lines),
        ended_lines(new),
        0 <= count <= lines.len(),
    ensures
        whole_lines(edited(lines, spans, new, count)),
        count < lines.len() ==> ended_lines(edited(lines, spans, new, count)),
    decreases count,
{
    if count > 0 {
        let n = count - 1;
        lemma_edited_whole(lines, spans, new, n);
        let x = edited(lines, spans, new, n);
        let y = edited_line(lines, spans, new, n);
        let all = edited(lines, spans, new, count);
        assert(all == x + y);
        assert forall|i: int| 0 <= i < all.len() implies is_line(#[trigger] all[i]) && (count
            < lines.len() || i < all.len() - 1 ==> is_ended(all[i])) by {
            if i < x.len() {
                assert(all[i] == x[i]);
            } else {
                assert(all[i] == y[i - x.len()]);
            }
        }
    }
}

proof fn lemma_edited_free(
    b: BlockView,
    lines: Seq<Seq<char>>,
    spans: Seq<(int, int)>,
    new: Seq<Seq<char>>,
    count: int,
)
    requires
        0 <= count <= lines.len(),
        free_of(b, new),
        forall|i: int|
            0 <= i < lines.len() && !covered(spans, i) ==> is_other_line(b, #[trigger] lines[i]),
    ensures
        free_of(b, edited(lines, spans, new, count)),
    decreases count,
{
    if count > 0 {
        let n = count - 1;
        lemma_edited_free(b, lines, spans, new, n);
        let x = edited(lines, spans, new, n);
        let y = edited_line(lines, spans, new, n);
        let all = edited(lines, spans, new, count);
        assert forall|i: int| 0 <= i < all.len() implies is_other_line(b, #[trigger] all[i]) by {
            if i < x.len() {
                assert(all[i] == x[i]);
            } else {
                assert(all[i] == y[i - x.len()]);
                assert(is_other_line(b, lines[n]) || y != seq![lines[n]]);
            }
        }
    }
}

/// An edit without blocks changes nothing.
pub proof fn lemma_edited_none(lines: Seq<Seq<char>>, new: Seq<Seq<char>>, count: int)
    requires
        0 <= count <= lines.len(),
    ensures
        edited(lines, Seq::empty(), new, count) == lines.take(count),
    decreases count,
{
    if count > 0 {
        lemma_edited_none(lines, new, count - 1);
        assert(lines.take(count) =~= lines.take(count - 1) + seq![lines[count - 1]]);
    } else {
        assert(lines.take(0) =~= Seq::empty());
    }
}

/// Up to the first block an edit changes nothing; behind it the new lines stand, and then what
/// the blocks leave.
proof fn lemma_edited_parts(
    lines: Seq<Seq<char>>,
    spans: Seq<(int, int)>,
    new: Seq<Seq<char>>,
    count: int,
)
    requires
        0 <= count <= lines.len(),
        spans.len() > 0,
        forall|k: int| 0 <= k < spans.len() ==> spans[0].0 <= (#[trigger] spans[k]).0,
        0 <= spans[0].0 < spans[0].1,
    ensures
        count <= spans[0].0 ==> edited(lines, spans, new, count) == lines.take(count),
        count > spans[0].0 ==> {
            let bare = edited(lines, spans, Seq::empty(), count);
            &&& bare.len() >= spans[0].0
            &&& bare.take(spans[0].0) == lines.take(spans[0].0)
            &&& edited(lines, spans, new, count) == lines.take(spans[0].0) + new + bare.skip(
                spans[0].0,
            )
        },
    decreases count,
{
    let f = spans[0].0;
    if count <= 0 {
        assert(lines.take(0) =~= Seq::empty());
    } else {
        let n = count - 1;
        let none = Seq::<Seq<char>>::empty();
        lemma_edited_parts(lines, spans, new, n);
        lemma_edited_parts(lines, spans, none, n);
        if n < f {
            assert(!covered(spans, n));
            assert(lines.take(count) =~= lines.take(n) + seq![lines[n]]);
        } else if n == f {
            let bare = edited(lines, spans, none, count);
            assert(bare =~= lines.take(f));
            assert(bare.take(f) =~= bare);
            assert(bare.skip(f) =~= none);
            assert(edited(lines, spans, new, count) =~= lines.take(f) + new + none);
        } else {
            let before = edited(lines, spans, none, n);
            let bare = edited(lines, spans, none, count);
            let y = edited_line(lines, spans, none, n);
            assert(y == edited_line(lines, spans, new, n));
            assert(bare == before + y);
            assert(bare.skip(f) =~= before.skip(f) + y);
            assert(bare.take(f) =~= before.take(f));
            assert(edited(lines, spans, new, count) =~= lines.take(f) + new + bare.skip(f));
        }
    }
}

/// The blocks that are collected hold those of every pair of markers.
pub proof fn lemma_collected(
    path: Seq<u8>,
    lines: Seq<Seq<char>>,
    blocks: Seq<BlockView>,
    count: int,
    n: int,
)
    requires
        0 <= n < count <= blocks.len(),
        collect_spans(path, lines, blocks, count) is Ok,
    ensures
        block_spans(path, lines, blocks[n]) is Ok,
        forall|i: int|
            covered(block_spans(path, lines, blocks[n])->Ok_0, i) ==> #[trigger] covered(
                collect_spans(path, lines, blocks, count)->Ok_0,
                i,
            ),
    decreases count,
{
    let before = collect_spans(path, lines, blocks, count - 1)->Ok_0;
    let last = block_spans(path, lines, blocks[count - 1])->Ok_0;
    let all = collect_spans(path, lines, blocks, count)->Ok_0;
    assert(all == before + last);
    if n == count - 1 {
        assert forall|i: int| covered(last, i) implies #[trigger] covered(all, i) by {
            let k = choose|k: int|
                0 <= k < last.len() && (#[trigger] last[k]).0 <= i < last[k].1;
            assert(all[before.len() + k] == last[k]);
        }
    } else {
        lemma_collected(path, lines, blocks, count - 1, n);
        let own = block_spans(path, lines, blocks[n])->Ok_0;
        assert forall|i: int| covered(own, i) implies #[trigger] covered(all, i) by {
            assert(covered(before, i));
            let k = choose|k: int|
                0 <= k < before.len() && (#[trigger] before[k]).0 <= i < before[k].1;
            assert(all[k] == before[k]);
        }
    }
}

/// Putting blocks in order changes nothing about which lines belong to one.
pub proof fn lemma_order_covers(spans: Seq<(int, int)>)
    ensures
        forall|i: int| #[trigger] covered(in_order(spans), i) <==> covered(spans, i),
        in_order(spans).len() == 0 <==> spans.len() == 0,
{
    lemma_in_order(spans);
    let out = in_order(spans);
    assert forall|i: int| #[trigger] covered(out, i) <==> covered(spans, i) by {
        if covered(out, i) {
            let k = choose|k: int| 0 <= k < out.len() && (#[trigger] out[k]).0 <= i < out[k].1;
            assert(out.contains(out[k]));
            let j = spans.index_of(out[k]);
            assert(spans[j].0 <= i < spans[j].1);
        }
        if covered(spans, i) {
            let k = choose|k: int|
                0 <= k < spans.len() && (#[trigger] spans[k]).0 <= i < spans[k].1;
            assert(spans.contains(spans[k]));
            assert(out.contains(spans[k]));
            let j = out.index_of(spans[k]);
            assert(out[j].0 <= i < out[j].1);
        }
    }
    if spans.len() > 0 {
        assert(spans.contains(spans[0]));
        assert(out.contains(spans[0]));
    }
    if out.len() > 0 {
        assert(out.contains(out[0]));
    }
}

/// Blocks that are in order stay as they are.
pub proof fn lemma_already_in_order(spans: Seq<(int, int)>)
    requires
        forall|i: int, j: int|
            0 <= i < j < spans.len() ==> precedes(#[trigger] spans[i], #[trigger] spans[j]),
    ensures
        in_order(spans) == spans,
    decreases spans.len(),
{
    if spans.len() > 0 {
        let front = spans.drop_last();
        lemma_already_in_order(front);
        if front.len() > 0 {
            assert(precedes(spans[front.len() - 1], spans[spans.len() - 1]));
            assert(front.push(spans.last()) =~= spans);
        } else {
            assert(seq![spans.last()] =~= spans);
        }
        assert(with_span(front, spans.last()) == spans);
    }
}

pub proof fn lemma_collect_none(
    path: Seq<u8>,
    lines: Seq<Seq<char>>,
    blocks: Seq<BlockView>,
    count: int,
)
    requires
        0 <= count <= blocks.len(),
        forall|n: int|
            0 <= n < count ==> marker_error(path, #[trigger] blocks[n]) is None && free_of(
                blocks[n],
                lines,
            ),
    ensures
        collect_spans(path, lines, blocks, count) == Ok::<
            Seq<(int, int)>,
            crate::error::ErrorView,
        >(Seq::empty()),
    decreases count,
{
    if count > 0 {
        lemma_collect_none(path, lines, blocks, count - 1);
        lemma_walk_free(blocks[count - 1], lines);
        assert(Seq::<(int, int)>::empty() + Seq::<(int, int)>::empty() =~= Seq::<
            (int, int),
        >::empty());
    }
}

pub proof fn lemma_no_lines()
    ensures
        joined(Seq::<Seq<char>>::empty()) == Seq::<char>::empty(),
        ended_lines(Seq::<Seq<char>>::empty()),
{
}

/// Taking blocks out of a text keeps every line outside of the blocks, in order and as it was.
pub proof fn law_removal_keeps_other_lines(
    path: Seq<u8>,
    contents: Seq<char>,
    blocks: Seq<BlockView>,
    spans: Seq<(int, int)>,
)
    requires
        all_spans(path, lines_of(contents), blocks) == Ok::<
            Seq<(int, int)>,
            crate::error::ErrorView,
        >(spans),
    ensures
        without_blocks(path, contents, blocks) matches Ok((rest, _)) && lines_of(rest) == kept(
            lines_of(contents),
            spans,
        ),
{
    let lines = lines_of(contents);
    let none = Seq::<Seq<char>>::empty();
    lemma_no_lines();
    lemma_lines_whole(contents);
    lemma_rebuilt_joined(lines, spans, none, lines.len() as int);
    lemma_edited_whole(lines, spans, none, lines.len() as int);
    lemma_lines_of_joined(kept(lines, spans));
}

/// Taking the same blocks out a second time finds none and changes nothing.
pub proof fn law_removal_is_final(
    path: Seq<u8>,
    contents: Seq<char>,
    blocks: Seq<BlockView>,
)
    requires
        without_blocks(path, contents, blocks) is Ok,
    ensures
        ({
            let rest = without_blocks(path, contents, blocks)->Ok_0.0;
            without_blocks(path, rest, blocks) == Ok::<
                (Seq<char>, FileChange),
                crate::error::ErrorView,
            >((rest, FileChange::Absent))
        }),
{
    let lines = lines_of(contents);
    let spans = all_spans(path, lines, blocks)->Ok_0;
    let rest = without_blocks(path, contents, blocks)->Ok_0.0;
    let none = Seq::<Seq<char>>::empty();
    let left = kept(lines, spans);
    lemma_order_covers(collect_spans(path, lines, blocks, blocks.len() as int)->Ok_0);
    law_removal_keeps_other_lines(path, contents, blocks, spans);
    assert forall|n: int| 0 <= n < blocks.len() implies marker_error(
        path,
        #[trigger] blocks[n],
    ) is None && free_of(blocks[n], left) by {
        lemma_collected(path, lines, blocks, blocks.len() as int, n);
        let own = block_spans(path, lines, blocks[n])->Ok_0;
        assert forall|i: int| 0 <= i < lines.len() && !covered(spans, i) implies is_other_line(
            blocks[n],
            #[trigger] lines[i],
        ) by {
            assert(!covered(
                collect_spans(path, lines, blocks, blocks.len() as int)->Ok_0,
                i,
            ));
            assert(!covered(own, i));
            lemma_walk_outside(blocks[n], lines, i);
        }
        lemma_edited_free(blocks[n], lines, spans, none, lines.len() as int);
    }
    lemma_collect_none(path, left, blocks, blocks.len() as int);
    let empty = Seq::<(int, int)>::empty();
    assert(!any_overlap(empty));
    assert(in_order(empty) == empty);
    lemma_no_lines();
    lemma_lines_whole(rest);
    lemma_rebuilt_joined(left, empty, none, left.len() as int);
    lemma_edited_none(left, none, left.len() as int);
    assert(left.take(left.len() as int) =~= left);
}

/// The blocks with the given markers that a text holds.
pub open spec fn own_spans(contents: Seq<char>, b: BlockView) -> Seq<(int, int)> {
    match walk(b, lines_of(contents)) {
        Ok(end) => end.spans,
        Err(_) => Seq::empty(),
    }
}

/// The line ending that a block has in a text that it goes into.
pub open spec fn newline_for(contents: Seq<char>, b: BlockView) -> Seq<char> {
    newline_in(contents, own_spans(contents, b))
}

/// The text of a block in the line ending that it has in the text that it goes into.
pub open spec fn inserted(contents: Seq<char>, b: BlockView) -> Seq<char> {
    with_newlines(rendered(b), newline_for(contents, b))
}

/// Whether a text, read by itself, consists of blocks with the given markers and of nothing
/// else.
pub open spec fn stands_alone(b: BlockView, text: Seq<char>) -> bool {
    walk(b, lines_of(text)) matches Ok(w) && {
        &&& w.open is None
        &&& forall|i: int| 0 <= i < lines_of(text).len() ==> #[trigger] covered(w.spans, i)
    }
}

/// Whether a text, read by itself, is one block with the given markers.
pub open spec fn is_one_block(b: BlockView, text: Seq<char>) -> bool {
    walk(b, lines_of(text)) == Ok::<Walk, Seq<char>>(
        (Walk { open: None, spans: seq![(0int, lines_of(text).len() as int)] }),
    )
}

/// A text that is one block holds that block alone.
pub proof fn lemma_one_block_alone(b: BlockView, text: Seq<char>)
    requires
        is_one_block(b, text),
    ensures
        stands_alone(b, text),
{
    let spans = seq![(0int, lines_of(text).len() as int)];
    assert forall|i: int| 0 <= i < lines_of(text).len() implies #[trigger] covered(spans, i) by {
        assert(spans[0].0 <= i < spans[0].1);
    }
}

/// Line endings of two texts change each for itself.
pub proof fn lemma_newlines_add(a: Seq<char>, b: Seq<char>, newline: Seq<char>)
    ensures
        with_newlines(a + b, newline) == with_newlines(a, newline) + with_newlines(b, newline),
    decreases b.len(),
{
    if b.len() == 0 {
        assert(a + b =~= a);
        assert(with_newlines(a, newline) + with_newlines(b, newline) =~= with_newlines(
            a,
            newline,
        ));
    } else {
        assert((a + b).drop_last() =~= a + b.drop_last());
        assert((a + b).last() == b.last());
        lemma_newlines_add(a, b.drop_last(), newline);
        assert(with_newlines(a + b, newline) =~= with_newlines(a, newline) + with_newlines(
            b,
            newline,
        ));
    }
}

/// Whether a text is one of the two line endings.
pub open spec fn is_newline(newline: Seq<char>) -> bool {
    newline == seq!['\n'] || newline == seq!['\r', '\n']
}

/// A block has one of the two line endings.
pub proof fn lemma_newline_for(s: Seq<char>, b: BlockView)
    ensures
        is_newline(newline_for(s, b)),
        newline_for(s, b) == (if has_crlf(s) || own_spans(s, b).len() == 0 && ends_in_cr(s) {
            seq!['\r', '\n']
        } else {
            seq!['\n']
        }),
{
    reveal_strlit("\r\n");
    reveal_strlit("\n");
    assert("\r\n"@ =~= seq!['\r', '\n']);
    assert("\n"@ =~= seq!['\n']);
}

/// The text of a block is not empty, and a line ending ends it.
proof fn lemma_inserted_ended(contents: Seq<char>, b: BlockView)
    ensures
        is_ended(inserted(contents, b)),
        lines_of(inserted(contents, b)).len() > 0,
        ended_lines(lines_of(inserted(contents, b))),
{
    let newline = newline_for(contents, b);
    lemma_newline_for(contents, b);
    reveal_strlit("\n");
    let text = rendered(b);
    assert(text.last() == '\n');
    let block = inserted(contents, b);
    assert(block == with_newlines(text.drop_last(), newline) + newline);
    assert(block.last() == newline.last());
    lemma_lines_whole(block);
    lemma_lines_ended(block);
}

/// What stands before the block once it has been put in.
pub open spec fn front_lines(contents: Seq<char>, spans: Seq<(int, int)>) -> Seq<Seq<char>> {
    if spans.len() == 0 {
        lines_of(contents + gap(contents, newline_in(contents, spans)))
    } else {
        lines_of(contents).take(spans[0].0)
    }
}

/// What stands behind the block once it has been put in.
pub open spec fn back_lines(contents: Seq<char>, spans: Seq<(int, int)>) -> Seq<Seq<char>> {
    if spans.len() == 0 {
        Seq::empty()
    } else {
        kept(lines_of(contents), spans).skip(spans[0].0)
    }
}

proof fn lemma_without_newline(line: Seq<char>)
    requires
        is_line(line),
        !is_ended(line),
    ensures
        !line.contains('\n'),
        marker_text(line) == without_last(line, '\r'),
        marker_text(line + seq!['\n']) == marker_text(line),
        marker_text(line + seq!['\r', '\n']) == line,
        is_line(line + seq!['\n']) && is_ended(line + seq!['\n']),
        is_line(line + seq!['\r', '\n']) && is_ended(line + seq!['\r', '\n']),
{
    assert((line + seq!['\n']).drop_last() =~= line);
    assert((line + seq!['\r', '\n']).drop_last() =~= line + seq!['\r']);
    assert((line + seq!['\r']).drop_last() =~= line);
}

/// The last line of a text behind which a gap was put: a carriage return at its end becomes part
/// of the line ending.
pub open spec fn last_line(contents: Seq<char>, newline: Seq<char>) -> Seq<char> {
    let last = lines_of(contents).last();
    if is_ended(last) {
        last
    } else if ends_in_cr(contents) {
        last + seq!['\n']
    } else {
        last + newline
    }
}

/// The lines of a text behind which a gap was put: those of the text, the last one with a line
/// ending, and a blank one. The last one is the same to a marker.
proof fn lemma_gap_lines(contents: Seq<char>, newline: Seq<char>)
    requires
        contents.len() > 0,
        is_newline(newline),
    ensures
        ({
            let lines = lines_of(contents);
            let last = last_line(contents, newline);
            &&& lines.len() > 0
            &&& is_line(lines.last())
            &&& lines.last().len() > 0 && lines.last().last() == contents.last()
            &&& marker_text(last) == marker_text(lines.last())
            &&& lines_of(contents + gap(contents, newline)) == lines.drop_last().push(last).push(
                newline,
            )
            &&& ended_lines(lines.drop_last().push(last).push(newline))
        }),
{
    let lines = lines_of(contents);
    let last = last_line(contents, newline);
    reveal_strlit("\n");
    assert("\n"@ =~= seq!['\n']);
    lemma_lines_whole(contents);
    let all = lines.drop_last().push(last).push(newline);
    assert(is_line(lines[lines.len() - 1]));
    assert(contents.last() == lines.last().last());
    if !is_ended(lines.last()) {
        lemma_without_newline(lines.last());
    }
    assert forall|i: int| 0 <= i < all.len() implies is_line(#[trigger] all[i]) && is_ended(
        all[i],
    ) by {
        if i < lines.len() - 1 {
            assert(all[i] == lines[i]);
        }
    }
    lemma_lines_of_joined(all);
    let front = lines.drop_last();
    assert(joined(all) == joined(front.push(last)) + newline) by {
        assert(all.drop_last() =~= front.push(last));
    }
    assert(joined(front.push(last)) == joined(front) + last) by {
        assert(front.push(last).drop_last() =~= front);
    }
    assert(joined(all) =~= contents + gap(contents, newline));
}

/// A gap behind a text without markers makes no marker of its last line.
proof fn lemma_gap_free(b: BlockView, contents: Seq<char>, newline: Seq<char>)
    requires
        is_marker(b.start_marker),
        is_marker(b.end_marker),
        is_newline(newline),
        free_of(b, lines_of(contents)),
    ensures
        free_of(b, lines_of(contents + gap(contents, newline))),
{
    let lines = lines_of(contents);
    let front = lines_of(contents + gap(contents, newline));
    if contents.len() == 0 {
        assert(contents + gap(contents, newline) =~= Seq::empty());
    } else {
        lemma_gap_lines(contents, newline);
        assert(is_other_line(b, lines[lines.len() - 1]));
        assert(newline.drop_last().len() == 0 || newline.drop_last() =~= seq!['\r']);
        assert(marker_text(newline) =~= Seq::empty());
        assert forall|i: int| 0 <= i < front.len() implies is_other_line(
            b,
            #[trigger] front[i],
        ) by {
            if i < lines.len() - 1 {
                assert(front[i] == lines[i]);
            }
        }
    }
}

/// Before and behind the block no line is a marker, and the lines before it are ended.
pub proof fn lemma_shape(path: Seq<u8>, contents: Seq<char>, b: BlockView, spans: Seq<(int, int)>)
    requires
        block_spans(path, lines_of(contents), b) == Ok::<
            Seq<(int, int)>,
            crate::error::ErrorView,
        >(spans),
    ensures
        free_of(b, front_lines(contents, spans)),
        ended_lines(front_lines(contents, spans)),
        free_of(b, back_lines(contents, spans)),
        spans.len() > 0 ==> front_lines(contents, spans) + back_lines(contents, spans) == kept(
            lines_of(contents),
            spans,
        ),
        with_block(path, contents, b) == Ok::<Seq<char>, crate::error::ErrorView>(
            joined(
                front_lines(contents, spans) + lines_of(inserted(contents, b)) + back_lines(
                    contents,
                    spans,
                ),
            ),
        ),
        whole_lines(
            front_lines(contents, spans) + lines_of(inserted(contents, b)) + back_lines(
                contents,
                spans,
            ),
        ),
        whole_lines(front_lines(contents, spans) + back_lines(contents, spans)),
{
    let lines = lines_of(contents);
    let newline = newline_for(contents, b);
    let block = inserted(contents, b);
    let new = lines_of(block);
    let none = Seq::<Seq<char>>::empty();
    let front = front_lines(contents, spans);
    let back = back_lines(contents, spans);
    lemma_walk_spans(b, lines);
    lemma_inserted_ended(contents, b);
    lemma_lines_whole(block);
    lemma_lines_whole(contents);
    assert forall|i: int| 0 <= i < lines.len() && !covered(spans, i) implies is_other_line(
        b,
        #[trigger] lines[i],
    ) by {
        lemma_walk_outside(b, lines, i);
    }
    if spans.len() == 0 {
        assert forall|i: int| 0 <= i < lines.len() implies is_other_line(
            b,
            #[trigger] lines[i],
        ) by {
            assert(!covered(spans, i));
        }
        lemma_newline_for(contents, b);
        if contents.len() == 0 {
            assert(contents + gap(contents, newline) =~= Seq::empty());
            assert(front =~= none);
        } else {
            lemma_gap_lines(contents, newline);
            lemma_gap_free(b, contents, newline);
        }
        lemma_lines_whole(contents + gap(contents, newline));
        lemma_joined_add(front, new);
        assert(front + new + back =~= front + new);
        assert(front + back =~= front);
    } else {
        let f = spans[0].0;
        assert forall|k: int| 0 <= k < spans.len() implies f <= (#[trigger] spans[k]).0 by {
            if k > 0 {
                assert(spans[0].1 <= spans[k].0);
            }
        }
        lemma_edited_parts(lines, spans, new, lines.len() as int);
        lemma_rebuilt_joined(lines, spans, new, lines.len() as int);
        lemma_edited_whole(lines, spans, new, lines.len() as int);
        lemma_edited_whole(lines, spans, none, lines.len() as int);
        lemma_edited_free(b, lines, spans, none, lines.len() as int);
        let bare = kept(lines, spans);
        assert(front + back =~= bare);
        assert forall|i: int| 0 <= i < front.len() implies is_other_line(b, #[trigger] front[i])
            && is_line(front[i]) && is_ended(front[i]) by {
            assert(front[i] == bare[i]);
            assert(front[i] == lines[i]);
        }
        assert forall|i: int| 0 <= i < back.len() implies is_other_line(
            b,
            #[trigger] back[i],
        ) by {
            assert(back[i] == bare[f + i]);
        }
    }
    let all = front + new + back;
    assert forall|i: int| 0 <= i < all.len() implies is_line(#[trigger] all[i]) && (i < all.len()
        - 1 ==> is_ended(all[i])) by {
        if i < front.len() {
            assert(all[i] == front[i]);
        } else if i < front.len() + new.len() {
            assert(all[i] == new[i - front.len()]);
        } else {
            assert(spans.len() > 0);
            let bare = kept(lines, spans);
            assert(all[i] == back[i - front.len() - new.len()]);
            assert(all[i] == bare[i - new.len()]);
        }
    }
    let both = front + back;
    if spans.len() > 0 {
        assert(both == kept(lines, spans));
    } else {
        assert forall|i: int| 0 <= i < both.len() implies is_line(#[trigger] both[i]) && is_ended(
            both[i],
        ) by {
            assert(both[i] == front[i]);
        }
    }
}

/// The blocks of a text in which one stands between lines that are no markers, and what an edit
/// of them leaves.
pub proof fn lemma_between(
    b: BlockView,
    front: Seq<Seq<char>>,
    block: Seq<char>,
    back: Seq<Seq<char>>,
    new: Seq<Seq<char>>,
)
    requires
        free_of(b, front),
        free_of(b, back),
        stands_alone(b, block),
        lines_of(block).len() > 0,
    ensures
        ({
            let all = front + lines_of(block) + back;
            let spans = shifted(walk(b, lines_of(block))->Ok_0.spans, front.len() as int);
            &&& walk(b, all) == Ok::<Walk, Seq<char>>((Walk { open: None, spans }))
            &&& spans.len() > 0
            &&& edited(all, spans, new, all.len() as int) == front + new + back
        }),
{
    let lines = lines_of(block);
    let all = front + lines + back;
    let own = walk(b, lines)->Ok_0.spans;
    let n = front.len() as int;
    let spans = shifted(own, n);
    lemma_walk_free(b, front);
    lemma_walk_add(b, front, lines);
    assert(Seq::<(int, int)>::empty() + spans =~= spans);
    lemma_walk_add_free(b, front + lines, back);
    lemma_walk_spans(b, lines);
    assert(covered(own, 0));
    let k = choose|k: int| 0 <= k < own.len() && (#[trigger] own[k]).0 <= 0 < own[k].1;
    if k > 0 {
        assert(own[0].1 <= own[k].0);
    }
    assert(own[0].0 == 0);
    assert(spans[0].0 == n);
    assert forall|i: int| 0 <= i < all.len() implies (#[trigger] covered(spans, i) <==> n <= i < n
        + lines.len()) by {
        if n <= i < n + lines.len() {
            assert(covered(own, i - n));
            let m = choose|m: int|
                0 <= m < own.len() && (#[trigger] own[m]).0 <= i - n < own[m].1;
            assert(spans[m].0 <= i < spans[m].1);
        }
        if covered(spans, i) {
            let m = choose|m: int|
                0 <= m < spans.len() && (#[trigger] spans[m]).0 <= i < spans[m].1;
            assert(spans[m] == (own[m].0 + n, own[m].1 + n));
            assert(own[m].1 <= lines.len());
        }
    }
    lemma_edited_between(front, lines, back, spans, new, all.len() as int);
    assert(back.take(back.len() as int) =~= back);
}

pub proof fn lemma_edited_between(
    front: Seq<Seq<char>>,
    lines: Seq<Seq<char>>,
    back: Seq<Seq<char>>,
    spans: Seq<(int, int)>,
    new: Seq<Seq<char>>,
    count: int,
)
    requires
        0 <= count <= front.len() + lines.len() + back.len(),
        lines.len() > 0,
        spans.len() > 0,
        spans[0].0 == front.len(),
        forall|i: int|
            0 <= i < front.len() + lines.len() + back.len() ==> (#[trigger] covered(spans, i)
                <==> front.len() <= i < front.len() + lines.len()),
    ensures
        count <= front.len() ==> edited(front + lines + back, spans, new, count) == front.take(
            count,
        ),
        front.len() < count <= front.len() + lines.len() ==> edited(
            front + lines + back,
            spans,
            new,
            count,
        ) == front + new,
        front.len() + lines.len() <= count ==> edited(front + lines + back, spans, new, count)
            == front + new + back.take(count - front.len() - lines.len()),
    decreases count,
{
    let all = front + lines + back;
    if count <= 0 {
        assert(front.take(0) =~= Seq::empty());
    } else {
        let i = count - 1;
        lemma_edited_between(front, lines, back, spans, new, i);
        assert(covered(spans, i) <==> front.len() <= i < front.len() + lines.len());
        if i < front.len() {
            assert(all[i] == front[i]);
            assert(front.take(count) =~= front.take(i) + seq![front[i]]);
        } else if i < front.len() + lines.len() {
            assert(front.take(front.len() as int) =~= front);
            assert(edited(all, spans, new, count) =~= front + new);
        } else {
            let m = i - front.len() - lines.len();
            assert(all[i] == back[m]);
            assert(back.take(m + 1) =~= back.take(m) + seq![back[m]]);
            assert(back.take(0) =~= Seq::empty());
            assert(front + new + back.take(0) =~= front + new);
            assert(edited(all, spans, new, count) =~= front + new + back.take(m + 1));
        }
        if count == front.len() + lines.len() {
            assert(back.take(0) =~= Seq::empty());
            assert(front + new + back.take(0) =~= front + new);
        }
    }
}

/// Putting a block in a second time changes nothing. Left out are blocks that hold marker lines
/// of their own with something between them, and texts whose line ending the block changed.
pub proof fn law_upsert_is_idempotent(path: Seq<u8>, contents: Seq<char>, b: BlockView)
    requires
        with_block(path, contents, b) is Ok,
        stands_alone(b, inserted(contents, b)),
        newline_for(with_block(path, contents, b)->Ok_0, b) == newline_for(contents, b),
    ensures
        with_block(path, with_block(path, contents, b)->Ok_0, b) == with_block(path, contents, b),
{
    let spans = block_spans(path, lines_of(contents), b)->Ok_0;
    let block = inserted(contents, b);
    let front = front_lines(contents, spans);
    let back = back_lines(contents, spans);
    let new = lines_of(block);
    let all = front + new + back;
    lemma_shape(path, contents, b, spans);
    lemma_lines_of_joined(all);
    lemma_inserted_ended(contents, b);
    lemma_between(b, front, block, back, new);
    let found = shifted(walk(b, new)->Ok_0.spans, front.len() as int);
    lemma_lines_whole(block);
    lemma_rebuilt_joined(all, found, new, all.len() as int);
}

/// A text into which a block was put holds no other block with its markers.
pub proof fn law_upsert_leaves_one_block(path: Seq<u8>, contents: Seq<char>, b: BlockView)
    requires
        with_block(path, contents, b) is Ok,
        is_one_block(b, inserted(contents, b)),
    ensures
        block_spans(path, lines_of(with_block(path, contents, b)->Ok_0), b) matches Ok(spans)
            && spans.len() == 1,
{
    let spans = block_spans(path, lines_of(contents), b)->Ok_0;
    let block = inserted(contents, b);
    let front = front_lines(contents, spans);
    let back = back_lines(contents, spans);
    lemma_shape(path, contents, b, spans);
    lemma_lines_of_joined(front + lines_of(block) + back);
    lemma_inserted_ended(contents, b);
    lemma_one_block_alone(b, block);
    lemma_between(b, front, block, back, lines_of(block));
}

/// Taking a block out behind putting it in leaves the text as it would be without the block:
/// where the block was put at the end, the text and the gap before the block; where it took the
/// place of others with its markers, the text without those.
pub proof fn law_removal_undoes_upsert(path: Seq<u8>, contents: Seq<char>, b: BlockView)
    requires
        with_block(path, contents, b) is Ok,
        stands_alone(b, inserted(contents, b)),
    ensures
        ({
            let spans = block_spans(path, lines_of(contents), b)->Ok_0;
            let rest = if spans.len() == 0 {
                contents + gap(contents, newline_for(contents, b))
            } else {
                without_blocks(path, contents, seq![b])->Ok_0.0
            };
            without_blocks(path, with_block(path, contents, b)->Ok_0, seq![b]) == Ok::<
                (Seq<char>, FileChange),
                crate::error::ErrorView,
            >((rest, FileChange::Removed))
        }),
{
    let lines = lines_of(contents);
    let spans = block_spans(path, lines, b)->Ok_0;
    let block = inserted(contents, b);
    let front = front_lines(contents, spans);
    let back = back_lines(contents, spans);
    let new = lines_of(block);
    let none = Seq::<Seq<char>>::empty();
    let all = front + new + back;
    lemma_shape(path, contents, b, spans);
    lemma_lines_of_joined(all);
    lemma_inserted_ended(contents, b);
    lemma_between(b, front, block, back, none);
    let found = shifted(walk(b, new)->Ok_0.spans, front.len() as int);
    lemma_no_lines();
    lemma_rebuilt_joined(all, found, none, all.len() as int);
    assert(front + none + back =~= front + back);
    lemma_single(path, all, b);
    lemma_single(path, lines, b);
    if spans.len() == 0 {
        assert(front + back =~= front);
        lemma_lines_whole(contents + gap(contents, newline_for(contents, b)));
    } else {
        lemma_rebuilt_joined(lines, spans, none, lines.len() as int);
    }
}

/// The blocks of one pair of markers do not overlap.
pub proof fn lemma_single(path: Seq<u8>, lines: Seq<Seq<char>>, b: BlockView)
    requires
        block_spans(path, lines, b) is Ok,
    ensures
        all_spans(path, lines, seq![b]) == block_spans(path, lines, b),
{
    let spans = block_spans(path, lines, b)->Ok_0;
    lemma_walk_spans(b, lines);
    assert(collect_spans(path, lines, seq![b], 0) == Ok::<
        Seq<(int, int)>,
        crate::error::ErrorView,
    >(Seq::empty()));
    assert(Seq::<(int, int)>::empty() + spans =~= spans);
    assert(collect_spans(path, lines, seq![b], 1) == Ok::<
        Seq<(int, int)>,
        crate::error::ErrorView,
    >(spans));
    assert forall|i: int, j: int|
        0 <= i < spans.len() && 0 <= j < spans.len() implies !crate::managed_block::overlap(
        #[trigger] spans[i],
        #[trigger] spans[j],
    ) by {
        if i < j {
            assert(spans[i].1 <= spans[j].0);
        } else if j < i {
            assert(spans[j].1 <= spans[i].0);
        }
    }
    assert forall|i: int, j: int| 0 <= i < j < spans.len() implies precedes(
        #[trigger] spans[i],
        #[trigger] spans[j],
    ) by {
        assert(spans[i].1 <= spans[j].0);
    }
    lemma_already_in_order(spans);
}

/// Lines with the same markers at the same places hold the same blocks.
proof fn lemma_walk_same(b: BlockView, x: Seq<Seq<char>>, y: Seq<Seq<char>>)
    requires
        x.len() == y.len(),
        forall|i: int| 0 <= i < x.len() ==> marker_text(#[trigger] x[i]) == marker_text(y[i]),
    ensures
        walk(b, x) == walk(b, y),
    decreases x.len(),
{
    if x.len() > 0 {
        let n = x.len() - 1;
        assert forall|i: int| 0 <= i < n implies marker_text(#[trigger] x.drop_last()[i])
            == marker_text(y.drop_last()[i]) by {
            assert(marker_text(x[i]) == marker_text(y[i]));
        }
        lemma_walk_same(b, x.drop_last(), y.drop_last());
        assert(marker_text(x[n]) == marker_text(y[n]));
    }
}

/// A text without line endings stays as it is.
pub proof fn lemma_newlines_none(s: Seq<char>, newline: Seq<char>)
    requires
        !s.contains('\n'),
    ensures
        with_newlines(s, newline) == s,
    decreases s.len(),
{
    if s.len() > 0 {
        assert forall|k: int| 0 <= k < s.drop_last().len() implies s.drop_last()[k] != '\n' by {
            assert(s[k] != '\n');
        }
        lemma_newlines_none(s.drop_last(), newline);
        assert(s[s.len() - 1] != '\n');
        assert(with_newlines(s, newline) =~= s);
    } else {
        assert(with_newlines(s, newline) =~= s);
    }
}

/// Another line ending changes a text line by line.
pub proof fn lemma_newlines_lines(lines: Seq<Seq<char>>, newline: Seq<char>)
    requires
        ended_lines(lines),
        is_newline(newline),
    ensures
        ({
            let out = lines.map_values(|line: Seq<char>| line.drop_last() + newline);
            &&& with_newlines(joined(lines), newline) == joined(out)
            &&& ended_lines(out)
        }),
    decreases lines.len(),
{
    let change = |line: Seq<char>| line.drop_last() + newline;
    let out = lines.map_values(change);
    if lines.len() > 0 {
        let front = lines.drop_last();
        let last = lines.last();
        assert(is_line(lines[lines.len() - 1]) && is_ended(lines[lines.len() - 1]));
        assert forall|i: int| 0 <= i < front.len() implies is_line(#[trigger] front[i])
            && is_ended(front[i]) by {
            assert(front[i] == lines[i]);
        }
        lemma_newlines_lines(front, newline);
        assert(out.drop_last() =~= front.map_values(change));
        lemma_newlines_add(joined(front), last, newline);
        let head = last.drop_last();
        assert(!head.contains('\n')) by {
            assert forall|k: int| 0 <= k < head.len() implies head[k] != '\n' by {
                assert(last[k] != '\n');
            }
        }
        lemma_newlines_none(head, newline);
        assert(with_newlines(last, newline) == head + newline);
        assert forall|i: int| 0 <= i < out.len() implies is_line(#[trigger] out[i]) && is_ended(
            out[i],
        ) by {
            assert(is_line(lines[i]) && is_ended(lines[i]));
            let line = lines[i];
            assert(out[i] == line.drop_last() + newline);
            assert forall|k: int| 0 <= k < out[i].len() - 1 implies #[trigger] out[i][k]
                != '\n' by {
                if k < line.len() - 1 {
                    assert(line[k] != '\n');
                }
            }
        }
    } else {
        assert(out =~= Seq::empty());
    }
}

/// The lines of a block that goes into a text, and those of the block by itself.
proof fn lemma_inserted_lines(contents: Seq<char>, b: BlockView)
    ensures
        ended_lines(lines_of(rendered(b))),
        lines_of(inserted(contents, b)) == lines_of(rendered(b)).map_values(
            |line: Seq<char>| line.drop_last() + newline_for(contents, b),
        ),
{
    reveal_strlit("\n");
    let text = rendered(b);
    assert(is_ended(text));
    lemma_lines_ended(text);
    lemma_lines_whole(text);
    lemma_newline_for(contents, b);
    lemma_newlines_lines(lines_of(text), newline_for(contents, b));
    lemma_lines_of_joined(
        lines_of(text).map_values(|line: Seq<char>| line.drop_last() + newline_for(contents, b)),
    );
}

/// A line without the line ending is the same whatever the line ending, unless a carriage
/// return stands before it.
proof fn lemma_plain(line: Seq<char>, newline: Seq<char>)
    requires
        is_line(line),
        is_ended(line),
        is_newline(newline),
        newline.len() == 2 ==> !(line.len() > 1 && line[line.len() - 2] == '\r'),
    ensures
        plain_line(line.drop_last() + newline) == plain_line(line),
{
    let head = line.drop_last();
    if newline.len() == 2 {
        assert((head + newline).drop_last() =~= head + seq!['\r']);
        assert((head + seq!['\r']).drop_last() =~= head);
        assert(without_last(head, '\r') == head) by {
            if head.len() > 0 {
                assert(head.last() == line[line.len() - 2]);
            }
        }
    } else {
        assert((head + newline) =~= line);
    }
}

/// A line that ends in a carriage return and a line feed shows in the text that it belongs to.
proof fn lemma_crlf_line(lines: Seq<Seq<char>>, i: int)
    requires
        0 <= i < lines.len(),
        lines[i].len() > 1,
        lines[i][lines[i].len() - 2] == '\r',
        lines[i].last() == '\n',
    ensures
        has_crlf(joined(lines)),
    decreases lines.len(),
{
    let front = joined(lines.drop_last());
    let all = joined(lines);
    if i == lines.len() - 1 {
        let k = front.len() + lines[i].len() - 2;
        assert(all[k] == '\r' && all[k + 1] == '\n');
    } else {
        lemma_crlf_line(lines.drop_last(), i);
        let k = choose|k: int|
            0 <= k < front.len() - 1 && #[trigger] front[k] == '\r' && front[k + 1] == '\n';
        assert(all[k] == '\r' && all[k + 1] == '\n');
    }
}

/// A text into which a block was put holds it. Left out are blocks with marker lines in their
/// body, and blocks with carriage returns at the ends of lines in texts that have them too.
pub proof fn law_upsert_is_seen(path: Seq<u8>, contents: Seq<char>, b: BlockView)
    requires
        with_block(path, contents, b) is Ok,
        is_one_block(b, inserted(contents, b)),
        newline_for(contents, b).len() == 2 ==> !has_crlf(rendered(b)),
    ensures
        holds_block(path, with_block(path, contents, b)->Ok_0, b) == Ok::<
            bool,
            crate::error::ErrorView,
        >(true),
{
    let spans = block_spans(path, lines_of(contents), b)->Ok_0;
    let newline = newline_for(contents, b);
    let block = inserted(contents, b);
    let front = front_lines(contents, spans);
    let back = back_lines(contents, spans);
    let new = lines_of(block);
    let all = front + new + back;
    lemma_shape(path, contents, b, spans);
    lemma_lines_of_joined(all);
    lemma_inserted_ended(contents, b);
    lemma_one_block_alone(b, block);
    lemma_between(b, front, block, back, new);
    lemma_inserted_lines(contents, b);
    lemma_newline_for(contents, b);
    lemma_lines_whole(rendered(b));
    let own = lines_of(rendered(b));
    let n = front.len() as int;
    let found = shifted(seq![(0int, new.len() as int)], n);
    assert(found =~= seq![(n, n + new.len())]);
    assert(all.subrange(n, n + new.len()) =~= new);
    let seen = span_lines(all, found[0]);
    assert(seen.len() == own.len());
    assert forall|i: int| 0 <= i < seen.len() implies #[trigger] seen[i] == plain_lines(
        rendered(b),
    )[i] by {
        assert(new[i] == own[i].drop_last() + newline);
        assert(is_line(own[i]) && is_ended(own[i]));
        if newline.len() == 2 && own[i].len() > 1 && own[i][own[i].len() - 2] == '\r' {
            lemma_crlf_line(own, i);
        }
        lemma_plain(own[i], newline);
    }
    assert(seen =~= plain_lines(rendered(b)));
}

/// A marker and a line ending make a line with that marker.
pub proof fn lemma_marker_line(marker: Seq<char>, newline: Seq<char>)
    requires
        is_marker(marker),
        is_newline(newline),
    ensures
        marker.len() > 0,
        with_newlines(marker + seq!['\n'], newline) == marker + newline,
        is_line(marker + newline),
        is_ended(marker + newline),
        marker_text(marker + newline) == marker,
{
    lemma_newlines_none(marker, newline);
    assert((marker + seq!['\n']).drop_last() =~= marker);
    assert(marker.len() > 0) by {
        if marker.len() == 0 {
            assert(is_blank(marker));
        }
    }
    let line = marker + newline;
    assert forall|k: int| 0 <= k < line.len() - 1 implies #[trigger] line[k] != '\n' by {
        if k < marker.len() {
            assert(marker[k] != '\n');
        }
    }
    assert(marker[marker.len() - 1] != '\r');
    if newline.len() == 2 {
        assert(line.drop_last() =~= marker + seq!['\r']);
        assert((marker + seq!['\r']).drop_last() =~= marker);
    } else {
        assert(line.drop_last() =~= marker);
    }
}

/// The lines of the body of a block.
pub open spec fn body_lines(b: BlockView) -> Seq<Seq<char>> {
    lines_of(trim_end(b.body) + seq!['\n'])
}

/// The lines between the markers of a block that goes into a text.
pub open spec fn inner_lines(contents: Seq<char>, b: BlockView) -> Seq<Seq<char>> {
    body_lines(b).map_values(|line: Seq<char>| line.drop_last() + newline_for(contents, b))
}

/// The lines of a block that goes into a text: the markers, and those of the body between them.
pub proof fn lemma_block_lines(contents: Seq<char>, b: BlockView)
    requires
        is_marker(b.start_marker),
        is_marker(b.end_marker),
    ensures
        lines_of(inserted(contents, b)) == seq![b.start_marker + newline_for(contents, b)]
            + inner_lines(contents, b) + seq![b.end_marker + newline_for(contents, b)],
        ended_lines(body_lines(b)),
        joined(body_lines(b)) == trim_end(b.body) + seq!['\n'],
{
    let newline = newline_for(contents, b);
    lemma_newline_for(contents, b);
    reveal_strlit("\n");
    assert("\n"@ =~= seq!['\n']);
    let head = b.start_marker + seq!['\n'];
    let body = trim_end(b.body) + seq!['\n'];
    let tail = b.end_marker + seq!['\n'];
    assert(rendered(b) =~= head + body + tail);
    lemma_newlines_add(head + body, tail, newline);
    lemma_newlines_add(head, body, newline);
    lemma_marker_line(b.start_marker, newline);
    lemma_marker_line(b.end_marker, newline);
    let first = b.start_marker + newline;
    let last = b.end_marker + newline;
    let middle = with_newlines(body, newline);
    assert(inserted(contents, b) == first + middle + last);
    lemma_lines_ended(body);
    lemma_lines_whole(body);
    lemma_newlines_lines(lines_of(body), newline);
    let inner = inner_lines(contents, b);
    lemma_lines_of_joined(inner);
    assert(lines_of(middle) == inner);
    assert(inner.len() > 0);
    lemma_joined_ended(inner);
    assert(is_ended(first + middle)) by {
        assert((first + middle).last() == middle.last());
    }
    lemma_lines_add(first + middle, last);
    lemma_lines_add(first, middle);
    lemma_one_line(first);
    lemma_one_line(last);
}

/// A block with no marker between its own is one block.
pub proof fn lemma_enclosed_block(contents: Seq<char>, b: BlockView)
    requires
        is_marker(b.start_marker),
        is_marker(b.end_marker),
        b.start_marker != b.end_marker,
        free_of(b, inner_lines(contents, b)),
    ensures
        is_one_block(b, inserted(contents, b)),
{
    let newline = newline_for(contents, b);
    lemma_newline_for(contents, b);
    lemma_marker_line(b.start_marker, newline);
    lemma_marker_line(b.end_marker, newline);
    lemma_block_lines(contents, b);
    let first = b.start_marker + newline;
    let last = b.end_marker + newline;
    let inner = inner_lines(contents, b);
    let lines = lines_of(inserted(contents, b));
    let start = seq![first];
    assert(start.drop_last() =~= Seq::empty());
    assert(walk(b, start.drop_last()) == Ok::<Walk, Seq<char>>(
        (Walk { open: None, spans: Seq::empty() }),
    ));
    assert(walk(b, start) == Ok::<Walk, Seq<char>>(
        (Walk { open: Some(0), spans: Seq::empty() }),
    ));
    lemma_walk_add_free(b, start, inner);
    let before = start + inner;
    assert(lines.drop_last() =~= before);
    assert(lines.last() == last);
    assert(Seq::<(int, int)>::empty().push((0int, lines.len() as int)) =~= seq![
        (0int, lines.len() as int),
    ]);
}

/// Whether a block has two different markers, each a line that is not blank, and a body without
/// carriage returns and without marker lines.
pub open spec fn is_plain_block(b: BlockView) -> bool {
    &&& is_marker(b.start_marker)
    &&& is_marker(b.end_marker)
    &&& b.start_marker != b.end_marker
    &&& !trim_end(b.body).contains('\r')
    &&& free_of(b, body_lines(b))
}

/// What stands in a line stands in the text.
pub proof fn lemma_char_of_line(lines: Seq<Seq<char>>, i: int, k: int)
    requires
        0 <= i < lines.len(),
        0 <= k < lines[i].len(),
    ensures
        joined(lines).contains(lines[i][k]),
    decreases lines.len(),
{
    let front = joined(lines.drop_last());
    if i == lines.len() - 1 {
        assert(joined(lines)[front.len() + k] == lines[i][k]);
    } else {
        lemma_char_of_line(lines.drop_last(), i, k);
        let n = front.index_of(lines[i][k]);
        assert(joined(lines)[n] == lines[i][k]);
    }
}

/// A plain block is one block in every text and brings in no line ending of two characters.
pub proof fn lemma_plain_block(contents: Seq<char>, b: BlockView)
    requires
        is_plain_block(b),
    ensures
        is_one_block(b, inserted(contents, b)),
        !has_crlf(rendered(b)),
{
    let newline = newline_for(contents, b);
    lemma_newline_for(contents, b);
    lemma_block_lines(contents, b);
    let body = trim_end(b.body) + seq!['\n'];
    let inner = inner_lines(contents, b);
    assert(!body.contains('\r')) by {
        assert forall|k: int| 0 <= k < body.len() implies body[k] != '\r' by {
            if k < trim_end(b.body).len() {
                assert(trim_end(b.body)[k] != '\r');
            }
        }
    }
    assert forall|i: int| 0 <= i < inner.len() implies is_other_line(b, #[trigger] inner[i]) by {
        let line = body_lines(b)[i];
        assert(inner[i] == line.drop_last() + newline);
        assert(is_line(line) && is_ended(line));
        assert(is_other_line(b, line));
        let head = line.drop_last();
        if head.len() > 0 && head.last() == '\r' {
            lemma_char_of_line(body_lines(b), i, line.len() - 2);
        }
        if newline.len() == 2 {
            assert(inner[i].drop_last() =~= head + seq!['\r']);
            assert((head + seq!['\r']).drop_last() =~= head);
        } else {
            assert(inner[i] =~= line);
        }
    }
    lemma_enclosed_block(contents, b);
    let s = rendered(b);
    reveal_strlit("\n");
    if has_crlf(s) {
        let k = choose|k: int|
            0 <= k < s.len() - 1 && #[trigger] s[k] == '\r' && s[k + 1] == '\n';
        let n = b.start_marker.len() as int;
        let m = n + 1 + body.len();
        if k < n {
            assert(b.start_marker[k] == '\r');
        } else if n < k < m {
            assert(body[k - n - 1] == s[k]);
        } else if k >= m && k < m + b.end_marker.len() {
            assert(b.end_marker[k - m] == '\r');
        }
    }
}

/// A plain block is put into a text once: doing it again changes nothing, the text then holds
/// the block alone and line for line, and apart from it the text is as it was. Where there was
/// no such block, only line endings separate it from the text before it.
pub proof fn law_plain_blocks_are_put_in_once(path: Seq<u8>, contents: Seq<char>, b: BlockView)
    requires
        is_plain_block(b),
        with_block(path, contents, b) is Ok,
    ensures
        ({
            let updated = with_block(path, contents, b)->Ok_0;
            let spans = block_spans(path, lines_of(contents), b)->Ok_0;
            let between = gap(contents, newline_for(contents, b));
            &&& with_block(path, updated, b) == Ok::<Seq<char>, crate::error::ErrorView>(updated)
            &&& block_spans(path, lines_of(updated), b) matches Ok(found) && found.len() == 1
            &&& holds_block(path, updated, b) == Ok::<bool, crate::error::ErrorView>(true)
            &&& spans.len() > 0 ==> without_blocks(path, updated, seq![b])->Ok_0.0
                == without_blocks(path, contents, seq![b])->Ok_0.0
            &&& spans.len() == 0 ==> updated == contents + between + inserted(contents, b)
            &&& forall|k: int|
                0 <= k < between.len() ==> #[trigger] between[k] == '\n' || between[k] == '\r'
        }),
{
    lemma_plain_block(contents, b);
    lemma_one_block_alone(b, inserted(contents, b));
    lemma_style_kept(path, contents, b);
    law_upsert_is_idempotent(path, contents, b);
    law_upsert_is_seen(path, contents, b);
    law_removal_undoes_upsert(path, contents, b);
    lemma_newline_for(contents, b);
    reveal_strlit("\n");
}

/// Where the end of the first `count` lines comes to stand.
pub open spec fn moved(
    lines: Seq<Seq<char>>,
    spans: Seq<(int, int)>,
    new: Seq<Seq<char>>,
    count: int,
) -> int {
    edited(lines, spans, new, count).len() as int
}

/// Blocks of other markers move with their lines.
proof fn lemma_walk_moved(
    c: BlockView,
    lines: Seq<Seq<char>>,
    spans: Seq<(int, int)>,
    new: Seq<Seq<char>>,
    count: int,
)
    requires
        0 <= count <= lines.len(),
        free_of(c, new),
        forall|i: int|
            0 <= i < lines.len() && (covered(spans, i) || spans.len() > 0 && i == spans[0].0)
                ==> is_other_line(c, #[trigger] lines[i]),
    ensures
        walk(c, lines.take(count)) matches Ok(w) ==> walk(c, edited(lines, spans, new, count))
            == Ok::<Walk, Seq<char>>(
            (Walk {
                open: match w.open {
                    Some(n) => Some(moved(lines, spans, new, n)),
                    None => None,
                },
                spans: w.spans.map_values(
                    |s: (int, int)|
                        (moved(lines, spans, new, s.0), moved(lines, spans, new, s.1)),
                ),
            }),
        ),
    decreases count,
{
    let map = |s: (int, int)| (moved(lines, spans, new, s.0), moved(lines, spans, new, s.1));
    if count == 0 {
        assert(lines.take(0) =~= Seq::empty());
        assert(Seq::<(int, int)>::empty().map_values(map) =~= Seq::empty());
    } else {
        let n = count - 1;
        lemma_walk_moved(c, lines, spans, new, n);
        assert(lines.take(count).drop_last() =~= lines.take(n));
        assert(lines.take(count).last() == lines[n]);
        let before = edited(lines, spans, new, n);
        let after = edited(lines, spans, new, count);
        let y = edited_line(lines, spans, new, n);
        if walk(c, lines.take(count)) is Ok {
            let w = walk(c, lines.take(n))->Ok_0;
            if covered(spans, n) || spans.len() > 0 && n == spans[0].0 {
                assert(is_other_line(c, lines[n]));
                assert(free_of(c, y));
                lemma_walk_add_free(c, before, y);
            } else {
                assert(after.drop_last() =~= before);
                assert(after.last() == lines[n]);
                assert(moved(lines, spans, new, count) == moved(lines, spans, new, n) + 1);
                if w.open is Some {
                    let o = w.open->0;
                    assert(w.spans.push((o, count)).map_values(map) =~= w.spans.map_values(
                        map,
                    ).push((moved(lines, spans, new, o), moved(lines, spans, new, count))));
                }
            }
        }
    }
}

/// Lines that no block covers stay together.
proof fn lemma_range_moved(
    lines: Seq<Seq<char>>,
    spans: Seq<(int, int)>,
    new: Seq<Seq<char>>,
    from: int,
    to: int,
    count: int,
)
    requires
        0 <= from <= to <= count <= lines.len(),
        forall|i: int| from <= i < to ==> !#[trigger] covered(spans, i),
        spans.len() > 0 ==> spans[0].0 < spans[0].1,
    ensures
        moved(lines, spans, new, from) <= moved(lines, spans, new, to) <= moved(
            lines,
            spans,
            new,
            count,
        ),
        edited(lines, spans, new, count).subrange(
            moved(lines, spans, new, from),
            moved(lines, spans, new, to),
        ) == lines.subrange(from, to),
    decreases count,
{
    let all = edited(lines, spans, new, count);
    let a = moved(lines, spans, new, from);
    let b = moved(lines, spans, new, to);
    if count > to {
        lemma_range_moved(lines, spans, new, from, to, count - 1);
        let before = edited(lines, spans, new, count - 1);
        assert(all.subrange(a, b) =~= before.subrange(a, b));
    } else if to > from {
        let n = to - 1;
        lemma_range_moved(lines, spans, new, from, n, n);
        let before = edited(lines, spans, new, n);
        assert(!covered(spans, n));
        if spans.len() > 0 && n == spans[0].0 {
            assert(spans[0].0 <= n < spans[0].1);
        }
        assert(all == before + seq![lines[n]]);
        assert(all.subrange(a, b) =~= before.subrange(a, before.len() as int) + seq![lines[n]]);
        assert(lines.subrange(from, to) =~= lines.subrange(from, n) + seq![lines[n]]);
    } else {
        assert(all.subrange(a, b) =~= lines.subrange(from, to));
    }
}


/// Putting one program's block in leaves another's as it was: it is seen if and only if it was
/// seen before. The blocks must not share lines, and the new block must not hold markers of the
/// other one. Behind a carriage return at the end of the text, which becomes part of a line
/// ending, it may be seen where it was not.
pub proof fn law_upsert_keeps_other_blocks(
    path: Seq<u8>,
    contents: Seq<char>,
    b: BlockView,
    c: BlockView,
)
    requires
        block_spans(path, lines_of(contents), b) is Ok,
        block_spans(path, lines_of(contents), c) is Ok,
        forall|i: int|
            covered(block_spans(path, lines_of(contents), b)->Ok_0, i) ==> !#[trigger] covered(
                block_spans(path, lines_of(contents), c)->Ok_0,
                i,
            ),
        free_of(c, lines_of(inserted(contents, b))),
    ensures
        with_block(path, contents, b) matches Ok(updated) && {
            &&& holds_block(path, updated, c) is Ok
            &&& !ends_in_cr(contents) || holds_block(path, contents, c) == Ok::<
                bool,
                crate::error::ErrorView,
            >(true) ==> holds_block(path, updated, c) == holds_block(path, contents, c)
        },
{
    let lines = lines_of(contents);
    let sb = block_spans(path, lines, b)->Ok_0;
    let sc = block_spans(path, lines, c)->Ok_0;
    let block = inserted(contents, b);
    let new = lines_of(block);
    let front = front_lines(contents, sb);
    let back = back_lines(contents, sb);
    let all = front + new + back;
    lemma_shape(path, contents, b, sb);
    lemma_lines_of_joined(all);
    lemma_walk_spans(b, lines);
    lemma_walk_spans(c, lines);
    lemma_lines_whole(contents);
    lemma_inserted_ended(contents, b);
    if sb.len() == 0 {
        lemma_newline_for(contents, b);
        let newline = newline_for(contents, b);
        assert(all =~= front + new);
        if contents.len() == 0 {
            assert(contents + gap(contents, newline) =~= Seq::empty());
            assert(front =~= Seq::empty());
            assert(lines =~= Seq::empty());
            assert(all =~= lines + new);
            lemma_walk_add_free(c, lines, new);
            assert(sc =~= Seq::empty());
        } else {
            lemma_gap_lines(contents, newline);
            let last = lines.last();
            let x = front.drop_last();
            assert(newline.drop_last().len() == 0 || newline.drop_last() =~= seq!['\r']);
            assert(marker_text(newline) =~= Seq::empty());
            assert(!is_blank(c.start_marker) && !is_blank(c.end_marker));
            assert(x =~= lines.drop_last().push(front[lines.len() - 1]));
            let own = plain_lines(rendered(c));
            let kept_whole = !ends_in_cr(contents) || is_ended(last);
            assert forall|i: int| 0 <= i < x.len() implies marker_text(#[trigger] x[i])
                == marker_text(lines[i]) && (kept_whole || i < lines.len() - 1 ==> plain_line(x[i])
                == plain_line(lines[i])) by {
                if i == lines.len() - 1 && !is_ended(last) && kept_whole {
                    if x[i] == last + seq!['\n'] {
                        assert((last + seq!['\n']).drop_last() =~= last);
                    } else {
                        assert(x[i] == last + seq!['\r', '\n']);
                        assert((last + seq!['\r', '\n']).drop_last() =~= last + seq!['\r']);
                        assert((last + seq!['\r']).drop_last() =~= last);
                    }
                }
            }
            lemma_walk_same(c, x, lines);
            let tail = seq![newline] + new;
            assert(all =~= x + tail);
            assert forall|i: int| 0 <= i < tail.len() implies is_other_line(
                c,
                #[trigger] tail[i],
            ) by {
                if i > 0 {
                    assert(tail[i] == new[i - 1]);
                }
            }
            lemma_walk_add_free(c, x, tail);
            if sc.len() == 1 && (kept_whole || span_lines(lines, sc[0]) == own) {
                let seen = span_lines(lines, sc[0]);
                if !kept_whole && sc[0].1 == lines.len() {
                    lemma_last_plain(c);
                    let n = seen.len() - 1;
                    assert(seen[n] == plain_line(last));
                    assert(seen[n] == own[n]);
                    assert(plain_line(last) == last);
                    assert(last[last.len() - 1] == '\r');
                    assert(last.contains('\r'));
                }
                assert(span_lines(all, sc[0]) =~= seen);
            }
        }
    } else {
        let f = sb[0].0;
        assert forall|k: int| 0 <= k < sb.len() implies f <= (#[trigger] sb[k]).0 by {
            if k > 0 {
                assert(sb[0].1 <= sb[k].0);
            }
        }
        let n = lines.len() as int;
        lemma_edited_parts(lines, sb, new, n);
        assert(all == edited(lines, sb, new, n));
        assert forall|i: int| 0 <= i < lines.len() && (covered(sb, i) || i == f) implies
            is_other_line(c, #[trigger] lines[i]) by {
            if i == f {
                assert(sb[0].0 <= i < sb[0].1);
                assert(covered(sb, i));
            }
            assert(!covered(sc, i));
            lemma_walk_outside(c, lines, i);
        }
        lemma_walk_moved(c, lines, sb, new, n);
        assert(lines.take(n) =~= lines);
        if sc.len() == 1 {
            let s = sc[0];
            assert forall|i: int| s.0 <= i < s.1 implies !#[trigger] covered(sb, i) by {
                assert(sc[0].0 <= i < sc[0].1);
                assert(covered(sc, i));
            }
            lemma_range_moved(lines, sb, new, s.0, s.1, n);
            let t = (moved(lines, sb, new, s.0), moved(lines, sb, new, s.1));
            assert(span_lines(all, t) =~= span_lines(lines, s));
        }
    }
}

/// The last line of a block is its end marker.
proof fn lemma_last_plain(c: BlockView)
    requires
        is_marker(c.end_marker),
    ensures
        plain_lines(rendered(c)).len() > 0,
        plain_lines(rendered(c)).last() == c.end_marker,
{
    reveal_strlit("\n");
    assert("\n"@ =~= seq!['\n']);
    let head = c.start_marker + "\n"@ + trim_end(c.body) + "\n"@;
    let tail = c.end_marker + "\n"@;
    assert(rendered(c) =~= head + tail);
    assert(is_ended(head));
    lemma_lines_add(head, tail);
    assert(tail.drop_last() =~= c.end_marker);
    assert forall|k: int| 0 <= k < tail.len() - 1 implies #[trigger] tail[k] != '\n' by {
        assert(c.end_marker[k] != '\n');
    }
    lemma_one_line(tail);
    assert(lines_of(rendered(c)).last() == tail);
    if c.end_marker.len() > 0 {
        assert(c.end_marker[c.end_marker.len() - 1] != '\r');
    }
}

/// A text without markers of one kind has none after a block without such markers was put in.
proof fn lemma_upsert_keeps_free(
    path: Seq<u8>,
    contents: Seq<char>,
    b: BlockView,
    c: BlockView,
)
    requires
        with_block(path, contents, b) is Ok,
        is_marker(c.start_marker),
        is_marker(c.end_marker),
        free_of(c, lines_of(contents)),
        free_of(c, lines_of(inserted(contents, b))),
    ensures
        free_of(c, lines_of(with_block(path, contents, b)->Ok_0)),
{
    let lines = lines_of(contents);
    let spans = block_spans(path, lines, b)->Ok_0;
    let new = lines_of(inserted(contents, b));
    let front = front_lines(contents, spans);
    let back = back_lines(contents, spans);
    let all = front + new + back;
    lemma_shape(path, contents, b, spans);
    lemma_lines_of_joined(all);
    if spans.len() == 0 {
        lemma_newline_for(contents, b);
        lemma_gap_free(c, contents, newline_for(contents, b));
    } else {
        lemma_edited_free(c, lines, spans, Seq::empty(), lines.len() as int);
        let bare = kept(lines, spans);
        lemma_walk_spans(b, lines);
        assert forall|i: int| 0 <= i < front.len() implies is_other_line(
            c,
            #[trigger] front[i],
        ) by {
            assert(front[i] == lines[i]);
        }
        assert forall|i: int| 0 <= i < back.len() implies is_other_line(c, #[trigger] back[i]) by {
            assert(back[i] == bare[spans[0].0 + i]);
        }
    }
    assert forall|i: int| 0 <= i < all.len() implies is_other_line(c, #[trigger] all[i]) by {
        if i < front.len() {
            assert(all[i] == front[i]);
        } else if i < front.len() + new.len() {
            assert(all[i] == new[i - front.len()]);
        } else {
            assert(all[i] == back[i - front.len() - new.len()]);
        }
    }
}

/// What a migration needs of its blocks for its outcome to be seen: the new block is one block,
/// holds no legacy markers and keeps the line ending of the text.
pub open spec fn fits(
    path: Seq<u8>,
    contents: Seq<char>,
    legacy: Seq<BlockView>,
    b: BlockView,
) -> bool {
    without_blocks(path, contents, legacy) matches Ok((cleaned, _)) && {
        &&& is_one_block(b, inserted(cleaned, b))
        &&& newline_for(cleaned, b).len() == 2 ==> !has_crlf(rendered(b))
        &&& forall|n: int|
            0 <= n < legacy.len() ==> free_of(
                #[trigger] legacy[n],
                lines_of(inserted(cleaned, b)),
            )
    }
}

/// A migrated text holds the new block and no legacy block.
pub proof fn law_migration_replaces_legacy_blocks(
    path: Seq<u8>,
    contents: Seq<char>,
    legacy: Seq<BlockView>,
    b: BlockView,
)
    requires
        migrated_text(path, contents, legacy, b) is Ok,
        fits(path, contents, legacy, b),
    ensures
        ({
            let updated = migrated_text(path, contents, legacy, b)->Ok_0.0;
            &&& holds_block(path, updated, b) == Ok::<bool, crate::error::ErrorView>(true)
            &&& without_blocks(path, updated, legacy) == Ok::<
                (Seq<char>, FileChange),
                crate::error::ErrorView,
            >((updated, FileChange::Absent))
        }),
{
    let cleaned = without_blocks(path, contents, legacy)->Ok_0.0;
    let updated = migrated_text(path, contents, legacy, b)->Ok_0.0;
    law_upsert_is_seen(path, cleaned, b);
    lemma_legacy_gone(path, contents, legacy, b);
    lemma_free_text(path, updated, legacy);
}

/// The markers of legacy blocks are gone from a migrated text.
pub proof fn lemma_legacy_gone(
    path: Seq<u8>,
    contents: Seq<char>,
    legacy: Seq<BlockView>,
    b: BlockView,
)
    requires
        migrated_text(path, contents, legacy, b) is Ok,
        fits(path, contents, legacy, b),
    ensures
        forall|n: int|
            0 <= n < legacy.len() ==> marker_error(path, #[trigger] legacy[n]) is None && free_of(
                legacy[n],
                lines_of(migrated_text(path, contents, legacy, b)->Ok_0.0),
            ),
{
    let cleaned = without_blocks(path, contents, legacy)->Ok_0.0;
    law_removal_is_final(path, contents, legacy);
    let lines = lines_of(cleaned);
    lemma_order_covers(collect_spans(path, lines, legacy, legacy.len() as int)->Ok_0);
    let none = collect_spans(path, lines, legacy, legacy.len() as int)->Ok_0;
    assert(none.len() == 0);
    assert forall|n: int| 0 <= n < legacy.len() implies marker_error(
        path,
        #[trigger] legacy[n],
    ) is None && free_of(
        legacy[n],
        lines_of(migrated_text(path, contents, legacy, b)->Ok_0.0),
    ) by {
        lemma_collected(path, lines, legacy, legacy.len() as int, n);
        assert forall|i: int| 0 <= i < lines.len() implies is_other_line(
            legacy[n],
            #[trigger] lines[i],
        ) by {
            assert(!covered(none, i));
            lemma_walk_outside(legacy[n], lines, i);
        }
        lemma_upsert_keeps_free(path, cleaned, b, legacy[n]);
    }
}

/// A text without markers is left as it is when their blocks are taken out.
pub proof fn lemma_free_text(path: Seq<u8>, contents: Seq<char>, blocks: Seq<BlockView>)
    requires
        forall|n: int|
            0 <= n < blocks.len() ==> marker_error(path, #[trigger] blocks[n]) is None && free_of(
                blocks[n],
                lines_of(contents),
            ),
    ensures
        without_blocks(path, contents, blocks) == Ok::<
            (Seq<char>, FileChange),
            crate::error::ErrorView,
        >((contents, FileChange::Absent)),
{
    let lines = lines_of(contents);
    let none = Seq::<Seq<char>>::empty();
    let empty = Seq::<(int, int)>::empty();
    lemma_collect_none(path, lines, blocks, blocks.len() as int);
    assert(!any_overlap(empty));
    assert(in_order(empty) == empty);
    lemma_no_lines();
    lemma_lines_whole(contents);
    lemma_rebuilt_joined(lines, empty, none, lines.len() as int);
    lemma_edited_none(lines, none, lines.len() as int);
    assert(lines.take(lines.len() as int) =~= lines);
}

/// A second migration finds no legacy block and leaves the text as it is.
pub proof fn law_migration_is_idempotent(
    path: Seq<u8>,
    contents: Seq<char>,
    legacy: Seq<BlockView>,
    b: BlockView,
)
    requires
        migrated_text(path, contents, legacy, b) is Ok,
        fits(path, contents, legacy, b),
        newline_for(migrated_text(path, contents, legacy, b)->Ok_0.0, b) == newline_for(
            without_blocks(path, contents, legacy)->Ok_0.0,
            b,
        ),
    ensures
        ({
            let updated = migrated_text(path, contents, legacy, b)->Ok_0.0;
            migrated_text(path, updated, legacy, b) == Ok::<
                (Seq<char>, (FileChange, FileChange)),
                crate::error::ErrorView,
            >((updated, (FileChange::Absent, FileChange::Unchanged)))
        }),
{
    let cleaned = without_blocks(path, contents, legacy)->Ok_0.0;
    let updated = migrated_text(path, contents, legacy, b)->Ok_0.0;
    let lines = lines_of(updated);
    lemma_legacy_gone(path, contents, legacy, b);
    lemma_free_text(path, updated, legacy);
    lemma_one_block_alone(b, inserted(cleaned, b));
    law_upsert_is_idempotent(path, cleaned, b);
    let all = legacy.push(b);
    assert forall|n: int| 0 <= n < legacy.len() implies marker_error(
        path,
        #[trigger] all[n],
    ) is None && free_of(all[n], lines) by {
        assert(all[n] == legacy[n]);
    }
    lemma_collect_none(path, lines, all, legacy.len() as int);
    let own = block_spans(path, lines, b)->Ok_0;
    assert(Seq::<(int, int)>::empty() + own =~= own);
    assert(all[legacy.len() as int] == b);
    lemma_single(path, lines, b);
    assert(collect_spans(path, lines, all, all.len() as int) == Ok::<
        Seq<(int, int)>,
        crate::error::ErrorView,
    >(own));
    assert(collect_spans(path, lines, seq![b], 0) == Ok::<
        Seq<(int, int)>,
        crate::error::ErrorView,
    >(Seq::empty()));
}

/// Two characters of a line ending that stand together belong to one line.
pub proof fn lemma_crlf_found(lines: Seq<Seq<char>>) -> (i: int)
    requires
        whole_lines(lines),
        has_crlf(joined(lines)),
    ensures
        0 <= i < lines.len(),
        lines[i].len() > 1,
        lines[i][lines[i].len() - 2] == '\r',
        lines[i].last() == '\n',
    decreases lines.len(),
{
    let all = joined(lines);
    let k = choose|k: int|
        0 <= k < all.len() - 1 && #[trigger] all[k] == '\r' && all[k + 1] == '\n';
    let front_lines = lines.drop_last();
    let front = joined(front_lines);
    let last = lines.last();
    assert forall|i: int| 0 <= i < front_lines.len() implies is_line(#[trigger] front_lines[i])
        && is_ended(front_lines[i]) by {
        assert(front_lines[i] == lines[i]);
    }
    lemma_joined_ended(front_lines);
    assert(is_line(lines[lines.len() - 1]));
    if k + 1 < front.len() {
        assert(front[k] == '\r' && front[k + 1] == '\n');
        lemma_crlf_found(front_lines)
    } else {
        assert(k >= front.len()) by {
            if k < front.len() {
                assert(front.last() == all[k]);
            }
        }
        let j = k - front.len();
        assert(last[j] == '\r' && last[j + 1] == '\n');
        lines.len() - 1
    }
}

/// What is left of the lines of a text are lines of the text.
proof fn lemma_kept_line(lines: Seq<Seq<char>>, spans: Seq<(int, int)>, count: int, i: int) -> (j:
    int)
    requires
        0 <= count <= lines.len(),
        0 <= i < edited(lines, spans, Seq::empty(), count).len(),
    ensures
        0 <= j < lines.len(),
        edited(lines, spans, Seq::empty(), count)[i] == lines[j],
    decreases count,
{
    let before = edited(lines, spans, Seq::empty(), count - 1);
    if i < before.len() {
        lemma_kept_line(lines, spans, count - 1, i)
    } else {
        count - 1
    }
}

/// Whether a block has no line ending of two characters in itself, or the text has it too.
pub open spec fn keeps_style(contents: Seq<char>, b: BlockView) -> bool {
    has_crlf(rendered(b)) ==> newline_for(contents, b).len() == 2
}

/// A text keeps the line ending of the block that was put in.
pub proof fn lemma_style_kept(path: Seq<u8>, contents: Seq<char>, b: BlockView)
    requires
        with_block(path, contents, b) is Ok,
        stands_alone(b, inserted(contents, b)),
        keeps_style(contents, b),
    ensures
        newline_for(with_block(path, contents, b)->Ok_0, b) == newline_for(contents, b),
{
    let lines = lines_of(contents);
    let spans = block_spans(path, lines, b)->Ok_0;
    let newline = newline_for(contents, b);
    let own = lines_of(rendered(b));
    let new = lines_of(inserted(contents, b));
    let front = front_lines(contents, spans);
    let back = back_lines(contents, spans);
    let all = front + new + back;
    lemma_shape(path, contents, b, spans);
    lemma_newline_for(contents, b);
    lemma_inserted_lines(contents, b);
    lemma_inserted_ended(contents, b);
    lemma_lines_whole(contents);
    lemma_lines_whole(rendered(b));
    let updated = with_block(path, contents, b)->Ok_0;
    lemma_lines_of_joined(all);
    lemma_between(b, front, inserted(contents, b), back, new);
    assert(own_spans(updated, b).len() > 0);
    lemma_newline_for(updated, b);
    if newline.len() == 2 {
        let i = front.len() as int;
        assert(all[i] == new[0]);
        assert(new[0] == own[0].drop_last() + newline);
        lemma_crlf_line(all, i);
    } else if has_crlf(joined(all)) {
        let i = lemma_crlf_found(all);
        let line = all[i];
        if i < front.len() {
            assert(line == front[i]);
            if spans.len() == 0 {
                if contents.len() == 0 {
                    assert(contents + gap(contents, newline) =~= Seq::empty());
                } else {
                    lemma_gap_lines(contents, newline);
                    if i < lines.len() - 1 {
                        assert(line == lines[i]);
                        lemma_crlf_line(lines, i);
                    } else if i == lines.len() - 1 {
                        if is_ended(lines.last()) {
                            lemma_crlf_line(lines, i);
                        } else {
                            assert(!ends_in_cr(contents));
                            assert(line == lines.last() + newline);
                            assert(line[line.len() - 2] == lines.last().last());
                        }
                    }
                }
            } else {
                lemma_walk_spans(b, lines);
                assert(line == lines[i]);
                lemma_crlf_line(lines, i);
            }
        } else if i < front.len() + new.len() {
            let k = i - front.len();
            assert(line == new[k]);
            assert(new[k] == own[k].drop_last() + newline);
            assert(is_line(own[k]) && is_ended(own[k]));
            assert(line =~= own[k]);
            lemma_crlf_line(own, k);
        } else {
            let k = i - front.len() - new.len();
            assert(line == back[k]);
            assert((front + back)[front.len() + k] == back[k]);
            let j = lemma_kept_line(lines, spans, lines.len() as int, front.len() + k);
            assert(line == lines[j]);
            lemma_crlf_line(lines, j);
        }
    }
}

} // verus!

//! Texts and their lines.
use vstd::prelude::*;

use crate::text::{find_from, lemma_find_from, line_end, lines_of};

verus! {

/// The text that lines make up.
pub open spec fn joined(lines: Seq<Seq<char>>) -> Seq<char>
    decreases lines.len(),
{
    if lines.len() == 0 {
        Seq::empty()
    } else {
        joined(lines.drop_last()) + lines.last()
    }
}

/// Whether a line feed stands nowhere in a line but at its end.
pub open spec fn is_line(line: Seq<char>) -> bool {
    &&& line.len() > 0
    &&& forall|k: int| 0 <= k < line.len() - 1 ==> #[trigger] line[k] != '\n'
}

/// Whether a line feed ends a text.
pub open spec fn is_ended(s: Seq<char>) -> bool {
    s.len() > 0 && s.last() == '\n'
}

/// Whether a list is one of whole lines: only the last one may lack its line feed.
pub open spec fn whole_lines(lines: Seq<Seq<char>>) -> bool {
    &&& forall|i: int| 0 <= i < lines.len() ==> is_line(#[trigger] lines[i])
    &&& forall|i: int| 0 <= i < lines.len() - 1 ==> is_ended(#[trigger] lines[i])
}

/// Whether a line feed ends every line of a list.
pub open spec fn ended_lines(lines: Seq<Seq<char>>) -> bool {
    forall|i: int| 0 <= i < lines.len() ==> is_line(#[trigger] lines[i]) && is_ended(lines[i])
}

/// A line feed is found in a text where it is found in the part that holds the first one.
proof fn lemma_find_in_front(a: Seq<char>, b: Seq<char>, from: int)
    requires
        0 <= from <= a.len(),
        find_from(a, '\n', from) < a.len(),
    ensures
        find_from(a + b, '\n', from) == find_from(a, '\n', from),
    decreases a.len() - from,
{
    if from < a.len() {
        assert((a + b)[from] == a[from]);
        if a[from] != '\n' {
            lemma_find_in_front(a, b, from + 1);
        }
    }
}

/// The lines of two texts that stand one behind the other, where the first one is empty or a
/// line feed ends it.
pub proof fn lemma_lines_add(a: Seq<char>, b: Seq<char>)
    requires
        a.len() == 0 || is_ended(a),
    ensures
        lines_of(a + b) == lines_of(a) + lines_of(b),
    decreases a.len(),
{
    if a.len() == 0 {
        assert(a + b =~= b);
        assert(lines_of(a) + lines_of(b) =~= lines_of(b));
    } else {
        lemma_find_from(a, '\n', 0);
        let n = line_end(a);
        assert(n < a.len());
        lemma_find_in_front(a, b, 0);
        assert((a + b).take(n + 1) =~= a.take(n + 1));
        assert((a + b).skip(n + 1) =~= a.skip(n + 1) + b);
        let rest = a.skip(n + 1);
        if rest.len() > 0 {
            assert(rest.last() == a.last());
        }
        lemma_lines_add(rest, b);
        assert(lines_of(a + b) =~= seq![a.take(n + 1)] + (lines_of(rest) + lines_of(b)));
        assert(lines_of(a) + lines_of(b) =~= seq![a.take(n + 1)] + (lines_of(rest) + lines_of(
            b,
        )));
    }
}

/// A line is a text of one line.
pub proof fn lemma_one_line(line: Seq<char>)
    requires
        is_line(line),
    ensures
        lines_of(line) == seq![line],
{
    lemma_find_from(line, '\n', 0);
    let n = line_end(line);
    if n < line.len() {
        assert(n == line.len() - 1);
        assert(line.take(n + 1) =~= line);
        assert(line.skip(n + 1) =~= Seq::empty());
        assert(lines_of(line.skip(n + 1)) == Seq::<Seq<char>>::empty());
        assert(lines_of(line) =~= seq![line]);
    }
}

/// Joining two lists of lines joins what each gives.
pub proof fn lemma_joined_add(a: Seq<Seq<char>>, b: Seq<Seq<char>>)
    ensures
        joined(a + b) == joined(a) + joined(b),
    decreases b.len(),
{
    if b.len() == 0 {
        assert(a + b =~= a);
        assert(joined(a) + joined(b) =~= joined(a));
    } else {
        assert((a + b).drop_last() =~= a + b.drop_last());
        assert((a + b).last() == b.last());
        lemma_joined_add(a, b.drop_last());
        assert(joined(a + b) =~= joined(a) + joined(b));
    }
}

/// Joining one line gives the line.
pub proof fn lemma_joined_one(line: Seq<char>)
    ensures
        joined(seq![line]) == line,
{
    assert(seq![line].drop_last() =~= Seq::empty());
    assert(joined(seq![line].drop_last()) == Seq::<char>::empty());
    assert(joined(seq![line]) =~= line);
}

/// A text that lines with line feeds make up is empty or ends with one.
pub proof fn lemma_joined_ended(lines: Seq<Seq<char>>)
    requires
        ended_lines(lines),
    ensures
        joined(lines).len() == 0 || is_ended(joined(lines)),
        lines.len() > 0 ==> is_ended(joined(lines)),
{
    if lines.len() > 0 {
        assert(is_ended(lines.last()));
        assert(joined(lines).last() == lines.last().last());
    }
}

/// The lines of a text that whole lines make up are those lines.
pub proof fn lemma_lines_of_joined(lines: Seq<Seq<char>>)
    requires
        whole_lines(lines),
    ensures
        lines_of(joined(lines)) == lines,
    decreases lines.len(),
{
    if lines.len() > 0 {
        let front = lines.drop_last();
        assert forall|i: int| 0 <= i < front.len() implies is_line(#[trigger] front[i])
            && is_ended(front[i]) by {
            assert(front[i] == lines[i]);
        }
        lemma_lines_of_joined(front);
        lemma_joined_ended(front);
        lemma_lines_add(joined(front), lines.last());
        lemma_one_line(lines.last());
        assert(lines =~= front + seq![lines.last()]);
    }
}

/// The lines of a text are whole lines and make the text up.
pub proof fn lemma_lines_whole(s: Seq<char>)
    ensures
        whole_lines(lines_of(s)),
        joined(lines_of(s)) == s,
        s.len() > 0 ==> lines_of(s).len() > 0 && lines_of(s).last().last() == s.last(),
    decreases s.len(),
{
    if s.len() > 0 {
        lemma_find_from(s, '\n', 0);
        let n = line_end(s);
        if n >= s.len() {
            lemma_joined_one(s);
        } else {
            let rest = s.skip(n + 1);
            let head = s.take(n + 1);
            lemma_lines_whole(rest);
            lemma_joined_add(seq![head], lines_of(rest));
            lemma_joined_one(head);
            assert(head + rest =~= s);
            let all = seq![head] + lines_of(rest);
            assert forall|i: int| 0 <= i < all.len() implies is_line(#[trigger] all[i]) by {
                if i > 0 {
                    assert(all[i] == lines_of(rest)[i - 1]);
                }
            }
            assert forall|i: int| 0 <= i < all.len() - 1 implies is_ended(#[trigger] all[i]) by {
                if i > 0 {
                    assert(all[i] == lines_of(rest)[i - 1]);
                }
            }
            if rest.len() == 0 {
                assert(lines_of(rest) =~= Seq::empty());
            } else {
                assert(rest.last() == s.last());
            }
        }
    }
}

/// A text that a line feed ends consists of lines that line feeds end.
pub proof fn lemma_lines_ended(s: Seq<char>)
    requires
        s.len() == 0 || is_ended(s),
    ensures
        ended_lines(lines_of(s)),
{
    lemma_lines_whole(s);
    let lines = lines_of(s);
    assert forall|i: int| 0 <= i < lines.len() implies is_line(#[trigger] lines[i]) && is_ended(
        lines[i],
    ) by {
        if i == lines.len() - 1 {
            assert(lines[i] == lines.last());
            assert(s.len() > 0) by {
                if s.len() == 0 {
                    assert(lines =~= Seq::empty());
                }
            }
        }
    }
}

} // verus!

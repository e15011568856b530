//! What holds of paths and of the places that they name.
use vstd::prelude::*;
use vstd::utf8::{is_ascii_chars, is_ascii_chars_encode_utf8};

use crate::environment::Platform;
use crate::path::{
    before_last_segment, below_root_name, body_start, components, drive_join, file_name,
    is_absolute, on, is_marked, lemma_marked, slashed_part, spelled, has_drive, is_anchored,
    is_filler, is_rooted, is_separator, join, last_segment, lemma_prefix_len, lemma_separator_from,
    names_from, next_name, parent, plain_components, plain_file_name, plain_join, plain_parent,
    prefix_len, prefix_root, same_path, segment_start, separator_from, slash_from, slashed,
    slashed_byte, tail, trim_tail, BACKSLASH, DOT, SLASH,
};
use crate::paths::{ancestors, macos_identity, physical_below};
use crate::text::text_bytes;

verus! {

proof fn lemma_slash_from(b: Seq<u8>, from: int)
    requires
        0 <= from <= b.len(),
    ensures
        from <= slash_from(b, from) <= b.len(),
        slash_from(b, from) < b.len() ==> b[slash_from(b, from)] == SLASH,
        forall|k: int| from <= k < slash_from(b, from) ==> #[trigger] b[k] != SLASH,
    decreases b.len() - from,
{
    if from < b.len() && b[from] != SLASH {
        lemma_slash_from(b, from + 1);
    }
}

/// The first separator is where it stands, whatever else is known of the path.
proof fn lemma_slash_is(b: Seq<u8>, from: int, end: int)
    requires
        0 <= from <= end <= b.len(),
        end < b.len() ==> b[end] == SLASH,
        forall|k: int| from <= k < end ==> #[trigger] b[k] != SLASH,
    ensures
        slash_from(b, from) == end,
{
    lemma_slash_from(b, from);
}

proof fn lemma_segment_start(b: Seq<u8>, from: int, to: int)
    requires
        0 <= from <= to <= b.len(),
    ensures
        from <= segment_start(b, from, to) <= to,
        segment_start(b, from, to) > from ==> b[segment_start(b, from, to) - 1] == SLASH,
        forall|k: int| segment_start(b, from, to) <= k < to ==> #[trigger] b[k] != SLASH,
    decreases to - from,
{
    if from < to && b[to - 1] != SLASH {
        lemma_segment_start(b, from, to - 1);
    }
}

/// The names before a separator and those behind it make up the names of a path.
proof fn lemma_names_split(b: Seq<u8>, from: int, n: int)
    requires
        0 <= from <= n < b.len(),
        b[n] == SLASH,
    ensures
        names_from(b, from) == names_from(b.take(n), from) + names_from(b, n + 1),
    decreases b.len() - from,
{
    let front = b.take(n);
    lemma_slash_from(b, from);
    let end = slash_from(b, from);
    assert(end <= n);
    if from == n {
        assert(b.subrange(from, end) =~= Seq::empty());
        assert(names_from(front, from) =~= Seq::empty());
        assert(names_from(b, from) =~= names_from(b, n + 1));
    } else {
        lemma_slash_is(front, from, end);
        assert(front.subrange(from, end) =~= b.subrange(from, end));
        let segment = b.subrange(from, end);
        if end == n {
            if is_filler(segment) {
                assert(names_from(b, from) =~= Seq::empty() + names_from(b, n + 1));
            } else {
                assert(seq![segment] + Seq::empty() =~= seq![segment]);
            }
        } else {
            lemma_names_split(b, end + 1, n);
            assert(seq![segment] + (names_from(front, end + 1) + names_from(b, n + 1)) =~= (
            seq![segment] + names_from(front, end + 1)) + names_from(b, n + 1));
        }
    }
}

/// A part without separators is one name, or none if it is a filler.
proof fn lemma_names_last(b: Seq<u8>, from: int)
    requires
        0 <= from <= b.len(),
        forall|k: int| from <= k < b.len() ==> #[trigger] b[k] != SLASH,
    ensures
        names_from(b, from) == (if is_filler(b.skip(from)) {
            Seq::<Seq<u8>>::empty()
        } else {
            seq![b.skip(from)]
        }),
{
    lemma_slash_is(b, from, b.len() as int);
    assert(b.subrange(from, b.len() as int) =~= b.skip(from));
    if from == b.len() {
        assert(b.skip(from) =~= Seq::empty());
    } else {
        assert(seq![b.skip(from)] + Seq::empty() =~= seq![b.skip(from)]);
    }
}

/// A path has the components of what stands before its last segment, and then that segment
/// unless it is a filler.
proof fn lemma_last_segment(b: Seq<u8>)
    requires
        b.len() > body_start(b),
    ensures
        before_last_segment(b).len() < b.len(),
        plain_components(b) == plain_components(before_last_segment(b)) + (if is_filler(
            last_segment(b),
        ) {
            Seq::<Seq<u8>>::empty()
        } else {
            seq![last_segment(b)]
        }),
{
    let low = body_start(b);
    let start = segment_start(b, low, b.len() as int);
    lemma_segment_start(b, low, b.len() as int);
    lemma_names_last(b, start);
    let front = before_last_segment(b);
    let tail = names_from(b, start);
    if start > low {
        lemma_names_split(b, low, start - 1);
        assert(front == b.take(start - 1));
        assert(body_start(front) == low);
        if low == 1 {
            assert(front.take(1) =~= b.take(1));
            assert(seq![b.take(1)] + (names_from(front, 1) + tail) =~= (seq![b.take(1)]
                + names_from(front, 1)) + tail);
        }
    } else {
        assert(names_from(front, low) =~= Seq::empty());
        if low == 1 {
            assert(front =~= b.take(1));
            assert(body_start(front) == 1);
            assert(front.take(1) =~= b.take(1));
            assert(seq![b.take(1)] + names_from(front, 1) =~= seq![b.take(1)]);
            assert(plain_components(b) =~= seq![b.take(1)] + tail);
        } else {
            assert(front =~= Seq::empty());
            assert(plain_components(front) =~= Seq::empty());
            assert(plain_components(b) =~= Seq::empty() + tail);
        }
    }
}

/// The separators and the fillers at the end of a path count for nothing.
pub proof fn lemma_trim_tail(b: Seq<u8>)
    ensures
        plain_components(trim_tail(b)) == plain_components(b),
        trim_tail(b).len() > body_start(trim_tail(b)) ==> !is_filler(last_segment(trim_tail(b))),
    decreases b.len(),
{
    if b.len() > body_start(b) {
        lemma_last_segment(b);
        if is_filler(last_segment(b)) {
            lemma_trim_tail(before_last_segment(b));
            assert(plain_components(before_last_segment(b)) + Seq::<Seq<u8>>::empty() =~= plain_components(
                before_last_segment(b),
            ));
        }
    }
}

proof fn lemma_plain_parent(b: Seq<u8>)
    ensures
        plain_parent(b) matches Some(up) ==> plain_components(b).len() > 0 && plain_components(
            up,
        ) == plain_components(
            b,
        ).drop_last(),
        plain_components(b).len() > 1 ==> plain_parent(b) is Some,
        plain_parent(b) is None ==> plain_components(b).len() == 0 || plain_components(b) == seq![
            seq![SLASH],
        ],
{
    let t = trim_tail(b);
    lemma_trim_tail(b);
    if t.len() > body_start(t) {
        lemma_last_segment(t);
        lemma_trim_tail(before_last_segment(t));
        assert(plain_components(b).drop_last() =~= plain_components(before_last_segment(t)));
    } else {
        assert(names_from(t, body_start(t)) =~= Seq::empty());
        if body_start(t) == 1 {
            assert(t.take(1) =~= seq![t[0]]);
            assert(plain_components(t) =~= seq![t.take(1)]);
            assert(plain_components(Seq::<u8>::empty()) =~= Seq::empty());
            assert(plain_components(b).drop_last() =~= Seq::empty());
        }
    }
}

proof fn lemma_plain_file_name(b: Seq<u8>)
    ensures
        plain_file_name(b) matches Some(name) ==> plain_components(b).len() > 0
            && plain_components(b).last() == name,
{
    let t = trim_tail(b);
    lemma_trim_tail(b);
    if t.len() > body_start(t) {
        lemma_last_segment(t);
    }
}

/// A drive or a share is the same whatever stands behind it and its separator.
proof fn lemma_prefix_kept(b: Seq<u8>, m: int)
    requires
        prefix_len(b) > 0,
        prefix_len(b) < m <= b.len(),
    ensures
        prefix_len(b.take(m)) == prefix_len(b),
        prefix_root(b.take(m)) == prefix_root(b),
        tail(b.take(m)) == tail(b).take(m - prefix_len(b)),
{
    let c = b.take(m);
    lemma_prefix_len(b);
    if !has_drive(b) {
        lemma_separator_from(b, 2);
        let server = separator_from(b, 2);
        lemma_separator_from(b, server + 1);
        lemma_separator_is(c, 2, server);
        lemma_separator_is(c, server + 1, prefix_len(b));
        assert(c.take(prefix_len(b)) =~= b.take(prefix_len(b)));
    }
    assert(tail(c) =~= tail(b).take(m - prefix_len(b)));
}

proof fn lemma_separator_is(b: Seq<u8>, from: int, end: int)
    requires
        0 <= from <= end < b.len(),
        is_separator(b[end]),
        forall|k: int| from <= k < end ==> !is_separator(#[trigger] b[k]),
    ensures
        separator_from(b, from) == end,
    decreases end - from,
{
    if from < end {
        lemma_separator_is(b, from + 1, end);
    }
}

/// The parent of a path has all of its components but the last, every path with more than one
/// component has a parent, and a parent begins at the root that the path begins at.
pub proof fn law_parent_drops_the_last_component(b: Seq<u8>)
    ensures
        parent(b) matches Some(up) ==> components(b).len() > 0 && components(up) == components(
            b,
        ).drop_last(),
        components(b).len() > 1 ==> parent(b) is Some,
        parent(b) is None ==> components(b).len() <= 1,
        is_anchored(b) ==> components(b).len() > 0,
        is_anchored(b) ==> (parent(b) matches Some(up) ==> is_anchored(up)),
{
    if is_marked(b) {
        lemma_drive_parent(b);
    } else {
        lemma_plain_parent(b);
        lemma_plain_parent_bytes(b);
        if is_rooted(b) {
            lemma_rooted_parent(b);
        }
    }
}

/// The same for a path of Windows.
proof fn lemma_drive_parent(b: Seq<u8>)
    requires
        is_marked(b),
    ensures
        parent(b) matches Some(up) ==> components(b).len() > 0 && components(up) == components(
            b,
        ).drop_last() && (is_anchored(b) ==> is_anchored(up)),
        components(b).len() > 1 ==> parent(b) is Some,
        is_anchored(b) ==> components(b).len() > 0,
{
    let s = spelled(b);
    let t = tail(s);
    let p = prefix_len(s);
    lemma_prefix_len(s);
    lemma_plain_parent(t);
    lemma_plain_parent_bytes(t);
    if p > 0 {
        lemma_rooted_parent(t);
    }
    match plain_parent(t) {
        Some(up) => {
            crate::paths::lemma_plain_parent_len(t);
            let m = p + up.len();
            let c = b.take(1 + m);
            assert(is_marked(c));
            assert(spelled(c) =~= s.take(m));
            if p > 0 {
                lemma_prefix_kept(s, m);
            } else {
                lemma_no_prefix(s, s.take(m));
                assert(tail(s.take(m)) =~= t.take(m));
            }
            assert(components(c) =~= components(b).drop_last());
        },
        None => {},
    }
}

/// The beginning of a path without a drive or a share is one too.
proof fn lemma_no_prefix(s: Seq<u8>, up: Seq<u8>)
    requires
        prefix_len(s) == 0,
        up.len() <= s.len(),
        up == s.take(up.len() as int),
    ensures
        prefix_len(up) == 0,
{
    if prefix_len(up) > 0 {
        lemma_prefix_len(up);
        if !has_drive(up) {
            lemma_separator_from(up, 2);
            let server = separator_from(up, 2);
            lemma_separator_from(up, server + 1);
            assert(!is_separator(up[server + 1]));
            assert forall|k: int| 2 <= k < server implies !is_separator(#[trigger] s[k]) by {
                assert(up[k] == s[k]);
            }
            lemma_separator_is(s, 2, server);
            lemma_separator_from(s, server + 1);
            assert(separator_from(s, server + 1) > server + 1);
        }
    }
}

/// The file name of a path is its last component, unless that is the root or names a directory
/// above.
pub proof fn law_file_name_is_the_last_component(b: Seq<u8>)
    ensures
        file_name(b) matches Some(name) ==> components(b).len() > 0 && components(b).last() == name,
{
    let part = slashed_part(b);
    lemma_plain_file_name(part);
    if is_marked(b) {
        lemma_prefix_len(spelled(b));
        if prefix_len(spelled(b)) > 0 {
            lemma_rooted_name(part);
        }
    }
}

/// The file name of a path that begins at the root is not its first component.
proof fn lemma_rooted_name(b: Seq<u8>)
    requires
        is_rooted(b),
    ensures
        plain_file_name(b) is Some ==> plain_components(b).len() > 1,
{
    let t = trim_tail(b);
    lemma_trim_tail(b);
    lemma_trim_keeps_root(b);
    if t.len() > body_start(t) {
        lemma_last_segment(t);
        let before = before_last_segment(t);
        lemma_segment_start(t, 1, t.len() as int);
        assert(is_rooted(before));
        assert(before.take(1) =~= seq![SLASH]);
    }
}

proof fn lemma_rooted_parent(path: Seq<u8>)
    requires
        is_rooted(path),
    ensures
        plain_components(path).len() > 0,
        plain_components(path)[0] == seq![SLASH],
        plain_parent(path) matches Some(up) ==> is_rooted(up),
{
    assert(path.take(1) =~= seq![SLASH]);
    lemma_plain_parent(path);
    let t = trim_tail(path);
    lemma_trim_keeps_root(path);
    if t.len() > body_start(t) {
        let low = body_start(t);
        lemma_segment_start(t, low, t.len() as int);
        let before = before_last_segment(t);
        assert(is_rooted(before));
        lemma_trim_keeps_root(before);
    }
}

proof fn lemma_trim_keeps_root(path: Seq<u8>)
    requires
        is_rooted(path),
    ensures
        is_rooted(trim_tail(path)),
    decreases path.len(),
{
    if path.len() > body_start(path) && is_filler(last_segment(path)) && before_last_segment(
        path,
    ).len() < path.len() {
        lemma_segment_start(path, 1, path.len() as int);
        assert(is_rooted(before_last_segment(path)));
        lemma_trim_keeps_root(before_last_segment(path));
    }
}

/// The directories above a path that begins at a root, and the path itself, have the beginnings
/// of its components, from the longest to the root.
pub proof fn lemma_ancestors(path: Seq<u8>, i: int)
    requires
        is_anchored(path),
        0 <= i < ancestors(path).len(),
    ensures
        ancestors(path).len() == components(path).len(),
        components(ancestors(path)[i]) == components(path).take(components(path).len() - i),
    decreases path.len(),
{
    lemma_ancestor_count(path);
    lemma_ancestor_at(path, i);
}

proof fn lemma_ancestor_count(path: Seq<u8>)
    requires
        is_anchored(path),
    ensures
        ancestors(path).len() == components(path).len(),
    decreases path.len(),
{
    crate::paths::lemma_parent_len(path);
    law_parent_drops_the_last_component(path);
    match parent(path) {
        Some(up) => {
            lemma_ancestor_count(up);
        },
        None => {},
    }
}

proof fn lemma_ancestor_at(path: Seq<u8>, i: int)
    requires
        is_anchored(path),
        0 <= i < ancestors(path).len(),
    ensures
        components(ancestors(path)[i]) == components(path).take(components(path).len() - i),
    decreases path.len(),
{
    let all = components(path);
    crate::paths::lemma_parent_len(path);
    lemma_ancestor_count(path);
    law_parent_drops_the_last_component(path);
    if i == 0 {
        assert(ancestors(path)[0] == path);
        assert(all.take(all.len() as int) =~= all);
    } else {
        let up = parent(path)->0;
        assert(ancestors(path)[i] == ancestors(up)[i - 1]);
        lemma_ancestor_at(up, i - 1);
        assert(components(up).take(components(up).len() - (i - 1)) =~= all.take(all.len() - i));
    }
}

/// The names behind a part of a path are those of the rest by itself.
proof fn lemma_names_shift(x: Seq<u8>, y: Seq<u8>, k: int)
    requires
        0 <= k <= y.len(),
    ensures
        names_from(x + y, x.len() + k) == names_from(y, k),
    decreases y.len() - k,
{
    let b = x + y;
    if k < y.len() {
        lemma_slash_from(y, k);
        let end = slash_from(y, k);
        assert forall|m: int| x.len() + k <= m < x.len() + end implies #[trigger] b[m] != SLASH by {
            assert(b[m] == y[m - x.len()]);
        }
        lemma_slash_is(b, x.len() + k, x.len() + end);
        assert(b.subrange(x.len() + k, x.len() + end) =~= y.subrange(k, end));
        if end < y.len() {
            lemma_names_shift(x, y, end + 1);
        }
    }
}

/// The fillers before the first name count for nothing.
proof fn lemma_next_name(b: Seq<u8>, from: int)
    requires
        0 <= from <= b.len(),
    ensures
        from <= next_name(b, from) <= b.len(),
        names_from(b, next_name(b, from)) == names_from(b, from),
        next_name(b, from) < b.len() ==> !is_filler(
            b.subrange(next_name(b, from), slash_from(b, next_name(b, from))),
        ),
    decreases b.len() - from,
{
    if from < b.len() {
        lemma_slash_from(b, from);
        let end = slash_from(b, from);
        if is_filler(b.subrange(from, end)) {
            if end < b.len() {
                lemma_next_name(b, end + 1);
            }
        }
    }
}

/// The components of a path that is put below a directory.
proof fn lemma_join_below(a: Seq<u8>, rest: Seq<u8>)
    requires
        is_rooted(a),
        a.len() > 1,
        a.last() != SLASH,
        !is_rooted(rest),
    ensures
        is_rooted(plain_join(a, rest)),
        plain_components(plain_join(a, rest)) == plain_components(a) + names_from(rest, 0),
{
    let n = a.len() as int;
    let b = a + seq![SLASH] + rest;
    assert(plain_join(a, rest) == b);
    assert(b[n] == SLASH);
    lemma_names_split(b, 1, n);
    assert(b.take(n) =~= a);
    lemma_names_shift(a + seq![SLASH], rest, 0);
    assert(b.take(1) =~= a.take(1));
    assert(seq![a.take(1)] + (names_from(a, 1) + names_from(rest, 0)) =~= (seq![a.take(1)]
        + names_from(a, 1)) + names_from(rest, 0));
}

/// Whether a name is one of the directories that macOS reaches through links of its own.
pub open spec fn is_alias_name(name: Seq<u8>) -> bool {
    name == text_bytes("var"@) || name == text_bytes("tmp"@) || name == text_bytes("etc"@)
}

/// The place of the directories that macOS reaches through links of its own.
pub open spec fn private_name() -> Seq<u8> {
    text_bytes("private"@)
}

pub proof fn lemma_alias_bytes()
    ensures
        text_bytes("var"@) == seq![118u8, 97, 114],
        text_bytes("tmp"@) == seq![116u8, 109, 112],
        text_bytes("etc"@) == seq![101u8, 116, 99],
        private_name() == seq![112u8, 114, 105, 118, 97, 116, 101],
        text_bytes("/private/var"@) == seq![SLASH] + private_name() + seq![SLASH] + text_bytes(
            "var"@,
        ),
        text_bytes("/private/tmp"@) == seq![SLASH] + private_name() + seq![SLASH] + text_bytes(
            "tmp"@,
        ),
        text_bytes("/private/etc"@) == seq![SLASH] + private_name() + seq![SLASH] + text_bytes(
            "etc"@,
        ),
{
    reveal_strlit("var");
    reveal_strlit("tmp");
    reveal_strlit("etc");
    reveal_strlit("private");
    reveal_strlit("/private/var");
    reveal_strlit("/private/tmp");
    reveal_strlit("/private/etc");
    is_ascii_chars_encode_utf8("var"@);
    is_ascii_chars_encode_utf8("tmp"@);
    is_ascii_chars_encode_utf8("etc"@);
    is_ascii_chars_encode_utf8("private"@);
    is_ascii_chars_encode_utf8("/private/var"@);
    is_ascii_chars_encode_utf8("/private/tmp"@);
    is_ascii_chars_encode_utf8("/private/etc"@);
    assert(text_bytes("var"@) =~= seq![118u8, 97, 114]);
    assert(text_bytes("tmp"@) =~= seq![116u8, 109, 112]);
    assert(text_bytes("etc"@) =~= seq![101u8, 116, 99]);
    assert(private_name() =~= seq![112u8, 114, 105, 118, 97, 116, 101]);
}

/// The components of a directory below `/private`.
proof fn lemma_private(name: Seq<u8>)
    requires
        name.len() == 3,
        forall|k: int| 0 <= k < 3 ==> #[trigger] name[k] != SLASH,
    ensures
        ({
            let a = seq![SLASH] + private_name() + seq![SLASH] + name;
            &&& is_rooted(a)
            &&& a.len() > 1
            &&& a.last() != SLASH
            &&& plain_components(a) == seq![seq![SLASH], private_name(), name]
        }),
{
    lemma_alias_bytes();
    let a = seq![SLASH] + private_name() + seq![SLASH] + name;
    assert(a[8] == SLASH);
    assert(a.last() == name[2]);
    assert forall|k: int| 1 <= k < 8 implies #[trigger] a[k] != SLASH by {
        assert(a[k] == private_name()[k - 1]);
    }
    lemma_slash_is(a, 1, 8);
    assert(a.subrange(1, 8) =~= private_name());
    assert forall|k: int| 9 <= k < a.len() implies #[trigger] a[k] != SLASH by {
        assert(a[k] == name[k - 9]);
    }
    lemma_names_last(a, 9);
    assert(a.skip(9) =~= name);
    assert(a.take(1) =~= seq![SLASH]);
    assert(names_from(a, 1) =~= seq![private_name(), name]);
    assert(plain_components(a) =~= seq![seq![SLASH], private_name(), name]);
}

/// When a path is below a directory of the root, and what its components are then.
proof fn lemma_below_root(path: Seq<u8>, name: Seq<u8>)
    requires
        is_rooted(path),
        name.len() == 3,
        forall|k: int| 0 <= k < 3 ==> #[trigger] name[k] != SLASH,
    ensures
        below_root_name(path, name) is Some <==> plain_components(path).len() > 1 && plain_components(path)[1]
            == name,
        below_root_name(path, name) matches Some(rest) ==> {
            let place = plain_join(seq![SLASH] + private_name() + seq![SLASH] + name, rest);
            &&& is_rooted(place)
            &&& plain_components(place) == seq![seq![SLASH], private_name()] + plain_components(
                path,
            ).skip(1)
        },
{
    let start = next_name(path, 1);
    lemma_next_name(path, 1);
    assert(plain_components(path) == seq![path.take(1)] + names_from(path, start));
    if start < path.len() {
        lemma_slash_from(path, start);
        let end = slash_from(path, start);
        let segment = path.subrange(start, end);
        let tail = if end < path.len() {
            names_from(path, end + 1)
        } else {
            Seq::empty()
        };
        assert(names_from(path, start) == seq![segment] + tail);
        assert(plain_components(path)[1] == segment);
        if segment == name {
            let from = next_name(path, end + 1);
            let rest0 = path.skip(from);
            if end < path.len() {
                lemma_next_name(path, end + 1);
            } else {
                assert(from == path.len());
            }
            lemma_names_shift(path.take(from), rest0, 0);
            assert(path.take(from) + rest0 =~= path);
            assert(names_from(rest0, 0) == tail);
            if rest0.len() > 0 {
                lemma_slash_from(path, from);
                let stop = slash_from(path, from);
                let first = path.subrange(from, stop);
                assert(first.len() > 0 && first[0] == path[from]);
                assert(rest0[0] == path[from]);
                assert(path[from] != SLASH);
                if body_start(rest0) == 1 {
                    if rest0.len() > 1 {
                        assert(rest0[1] == path[from + 1]);
                        lemma_slash_is(path, from, from + 1);
                    }
                    assert(first =~= seq![DOT]);
                }
            }
            assert(body_start(rest0) == 0);
            let rest = trim_tail(rest0);
            lemma_trim_tail(rest0);
            lemma_trim_prefix(rest0);
            if rest.len() > 0 {
                assert(rest[0] == rest0[0]);
                if body_start(rest) == 1 {
                    assert(rest.take(1) =~= seq![DOT]);
                    assert(plain_components(rest0)[0] == rest.take(1));
                    lemma_first_name(rest0, 0);
                }
            }
            assert(names_from(rest, 0) == tail) by {
                if rest.len() == 0 {
                    assert(plain_components(rest) =~= Seq::empty());
                }
            }
            let a = seq![SLASH] + private_name() + seq![SLASH] + name;
            lemma_private(name);
            lemma_join_below(a, rest);
            assert(plain_components(plain_join(a, rest)) =~= seq![seq![SLASH], private_name()] + plain_components(
                path,
            ).skip(1));
        }
    } else {
        assert(names_from(path, start) =~= Seq::empty());
    }
}

proof fn lemma_trim_prefix(b: Seq<u8>)
    ensures
        trim_tail(b).len() <= b.len(),
        trim_tail(b) == b.take(trim_tail(b).len() as int),
    decreases b.len(),
{
    if b.len() > body_start(b) && is_filler(last_segment(b)) && before_last_segment(b).len()
        < b.len() {
        let front = before_last_segment(b);
        lemma_segment_start(b, body_start(b), b.len() as int);
        lemma_trim_prefix(front);
        assert(front == b.take(front.len() as int));
        assert(trim_tail(b) =~= b.take(trim_tail(b).len() as int));
    } else {
        assert(b.take(b.len() as int) =~= b);
    }
}

/// No name is a filler.
proof fn lemma_first_name(b: Seq<u8>, from: int)
    requires
        0 <= from <= b.len(),
    ensures
        names_from(b, from).len() > 0 ==> !is_filler(names_from(b, from)[0]),
    decreases b.len() - from,
{
    if from < b.len() {
        lemma_slash_from(b, from);
        let end = slash_from(b, from);
        if end < b.len() {
            lemma_first_name(b, end + 1);
        }
    }
}

/// On macOS a path below `/var`, `/tmp` or `/etc` stands for the same place below `/private`,
/// and every other path for itself. Whole names count, and the place of a place is the place.
pub proof fn law_macos_identity(path: Seq<u8>)
    ensures
        !is_rooted(path) ==> macos_identity(path) == path,
        same_path(macos_identity(path), path) ==> macos_identity(path) == path,
        is_rooted(path) ==> is_rooted(macos_identity(path)),
        is_rooted(path) ==> components(macos_identity(path)) == (if components(path).len() > 1
            && is_alias_name(components(path)[1]) {
            seq![seq![SLASH], private_name()] + components(path).skip(1)
        } else {
            components(path)
        }),
        same_path(macos_identity(macos_identity(path)), macos_identity(path)),
{
    lemma_identity(path);
    lemma_identity(macos_identity(path));
    lemma_alias_bytes();
    if is_rooted(path) {
        let place = components(macos_identity(path));
        if components(path).len() > 1 && is_alias_name(components(path)[1]) {
            assert(place[1] == private_name());
        }
        if place.len() > 1 && place[1] == private_name() {
            assert(private_name().len() == 7);
        }
    }
}

proof fn lemma_identity(path: Seq<u8>)
    ensures
        !is_rooted(path) ==> macos_identity(path) == path,
        macos_identity(path) == path || plain_components(macos_identity(path))
            != plain_components(path),
        is_rooted(path) ==> is_rooted(macos_identity(path)),
        is_rooted(path) ==> plain_components(macos_identity(path)) == (if plain_components(path).len() > 1
            && is_alias_name(plain_components(path)[1]) {
            seq![seq![SLASH], private_name()] + plain_components(path).skip(1)
        } else {
            plain_components(path)
        }),
{
    reveal_with_fuel(physical_below, 4);
    lemma_alias_bytes();
    if is_rooted(path) {
        lemma_below_root(path, text_bytes("var"@));
        lemma_below_root(path, text_bytes("tmp"@));
        lemma_below_root(path, text_bytes("etc"@));
    }
}

/// The directory that macOS keeps the others below is none of them.
pub proof fn lemma_alias_names()
    ensures
        !is_alias_name(private_name()),
{
    lemma_alias_bytes();
    assert(private_name().len() == 7);
    assert(text_bytes("var"@).len() == 3);
}

proof fn lemma_plain_parent_bytes(path: Seq<u8>)
    ensures
        plain_parent(path) matches Some(up) ==> up.len() <= path.len() && up == path.take(
            up.len() as int,
        ),
{
    let t = trim_tail(path);
    lemma_trim_prefix(path);
    if t.len() > body_start(t) {
        let before = before_last_segment(t);
        lemma_segment_start(t, body_start(t), t.len() as int);
        lemma_trim_prefix(before);
        assert(before =~= path.take(before.len() as int));
        assert(trim_tail(before) =~= path.take(trim_tail(before).len() as int));
    } else {
        assert(Seq::<u8>::empty() =~= path.take(0));
    }
}

/// The last segment of a path begins behind the last separator.
proof fn lemma_segment_is(b: Seq<u8>, from: int, start: int)
    requires
        0 <= from <= start <= b.len(),
        start > from ==> b[start - 1] == SLASH,
        forall|k: int| start <= k < b.len() ==> #[trigger] b[k] != SLASH,
    ensures
        segment_start(b, from, b.len() as int) == start,
{
    lemma_segment_start(b, from, b.len() as int);
    let r = segment_start(b, from, b.len() as int);
    if r < start {
        assert(b[start - 1] != SLASH);
    }
    if r > start {
        assert(b[r - 1] != SLASH);
    }
}

proof fn lemma_plain_join_name(a: Seq<u8>, name: Seq<u8>)
    requires
        name.len() > 0,
        !name.contains(SLASH),
        name != seq![DOT],
        name != seq![DOT, DOT],
    ensures
        plain_file_name(plain_join(a, name)) == Some(name),
{
    let b = plain_join(a, name);
    let start = b.len() - name.len();
    assert(name[0] != SLASH);
    assert(b.skip(start) =~= name);
    assert forall|k: int| start <= k < b.len() implies #[trigger] b[k] != SLASH by {
        assert(b[k] == name[k - start]);
        assert(name[k - start] != SLASH);
    }
    if start == 0 {
        assert(b =~= name);
        if name[0] == DOT && name.len() == 1 {
            assert(name =~= seq![DOT]);
        }
        if name.len() > 1 {
            assert(name[1] != SLASH);
        }
        assert(body_start(b) == 0);
    } else {
        assert(b[start - 1] == SLASH);
        assert(body_start(b) <= start);
    }
    lemma_segment_is(b, body_start(b), start);
    assert(last_segment(b) == name);
    assert(trim_tail(b) == b);
}

/// What is written stays when it is taken for a path of a platform, and it is one of that platform
/// then. Drives, shares and backslashes count on Windows alone: elsewhere they are parts of names.
pub proof fn law_paths_belong_to_a_platform(platform: Platform, b: Seq<u8>, name: Seq<u8>)
    requires
        !is_marked(spelled(b)),
        !is_marked(name),
    ensures
        spelled(on(platform, b)) == spelled(b),
        is_marked(on(platform, b)) <==> platform == Platform::Windows,
        on(platform, on(platform, b)) == on(platform, b),
        platform != Platform::Windows ==> {
            &&& components(on(platform, b)) == plain_components(spelled(b))
            &&& join(on(platform, b), name) == plain_join(spelled(b), name)
            &&& is_absolute(platform, on(platform, b)) <==> is_rooted(spelled(b))
        },
{
    lemma_marked(spelled(b));
}

/// A parent is a beginning of the path that it belongs to.
pub proof fn lemma_parent_bytes(path: Seq<u8>)
    ensures
        parent(path) matches Some(up) ==> up.len() <= path.len() && up == path.take(
            up.len() as int,
        ),
{
    lemma_prefix_len(spelled(path));
    lemma_plain_parent_bytes(path);
    crate::paths::lemma_plain_parent_len(tail(spelled(path)));
}

/// A name that is appended to a path is its file name. On Windows that is so below a drive or a
/// share.
pub proof fn law_join_ends_with_the_name(a: Seq<u8>, name: Seq<u8>)
    requires
        name.len() > 0,
        !is_marked(name),
        !name.contains(SLASH),
        !name.contains(BACKSLASH),
        !has_drive(name),
        name != seq![DOT],
        name != seq![DOT, DOT],
        is_marked(a) ==> is_anchored(join(a, name)) && parent(join(a, name)) is Some,
    ensures
        file_name(join(a, name)) == Some(name),
{
    assert(name[0] != SLASH && name[0] != BACKSLASH);
    if is_marked(a) {
        let s = drive_join(spelled(a), name);
        lemma_marked(s);
        lemma_prefix_len(s);
        crate::paths::lemma_plain_parent_len(tail(s));
        assert(s.skip(s.len() - name.len()) =~= name);
        lemma_name_behind_prefix(s, name);
    } else {
        lemma_plain_join_name(a, name);
        assert(!is_marked(join(a, name)));
    }
}

/// A name at the end of a path with a drive or a share is its file name.
proof fn lemma_name_behind_prefix(b: Seq<u8>, name: Seq<u8>)
    requires
        name.len() > 0,
        !name.contains(SLASH),
        !name.contains(BACKSLASH),
        name != seq![DOT],
        name != seq![DOT, DOT],
        0 < prefix_len(b) < b.len(),
        b.len() > name.len(),
        b.skip(b.len() - name.len()) == name,
        is_separator(b[b.len() - name.len() - 1]),
    ensures
        plain_file_name(tail(b)) == Some(name),
{
    let p = prefix_len(b);
    lemma_prefix_len(b);
    let head = b.take(b.len() - name.len());
    assert(b =~= head + name);
    assert(p < head.len()) by {
        if p >= head.len() {
            assert(b[p] == name[p - head.len()]);
            assert(name.contains(b[p]));
        }
    }
    assert(is_separator(head.last()));
    let t = slashed(head.skip(p));
    assert(slashed(name) =~= name) by {
        assert forall|k: int| 0 <= k < name.len() implies slashed_byte(#[trigger] name[k])
            == name[k] by {
            assert(name[k] != BACKSLASH);
        }
    }
    assert(tail(b) =~= t + name);
    assert(t.len() > 0 && t.last() == SLASH);
    lemma_plain_join_name(t, name);
    assert(plain_join(t, name) == t + name);
}

#[verifier::spinoff_prover]
#[verifier::rlimit(40)]
proof fn lemma_plain_join_component(a: Seq<u8>, name: Seq<u8>)
    requires
        is_rooted(a),
        name.len() > 0,
        !name.contains(SLASH),
        name != seq![DOT],
    ensures
        plain_components(plain_join(a, name)) == plain_components(a).push(name),
        is_rooted(plain_join(a, name)),
{
    let b = plain_join(a, name);
    let start = b.len() - name.len();
    assert(name[0] != SLASH);
    assert(b.skip(start) =~= name);
    assert forall|k: int| start <= k < b.len() implies #[trigger] b[k] != SLASH by {
        assert(b[k] == name[k - start]);
        assert(name[k - start] != SLASH);
    }
    assert(b[start - 1] == SLASH);
    lemma_segment_is(b, 1, start);
    lemma_last_segment(b);
    assert(last_segment(b) == name);
    if a.last() == SLASH {
        if a.len() > 1 {
            assert(before_last_segment(b) =~= a.drop_last());
            lemma_segment_is(a, 1, a.len() as int);
            lemma_last_segment(a);
            assert(last_segment(a) =~= Seq::empty());
            assert(before_last_segment(a) =~= a.drop_last());
            assert(plain_components(a.drop_last()) + Seq::<Seq<u8>>::empty() =~= plain_components(
                a.drop_last(),
            ));
        } else {
            assert(before_last_segment(b) =~= a);
        }
    } else {
        assert(before_last_segment(b) =~= a);
    }
    assert(plain_components(a) + seq![name] =~= plain_components(a).push(name));
}

/// What is appended behind a drive or a share leaves it as it is.
proof fn lemma_prefix_stays(a: Seq<u8>, b: Seq<u8>)
    requires
        prefix_len(a) > 0,
        a.len() < b.len(),
        a == b.take(a.len() as int),
        is_separator(a.last()) || is_separator(b[a.len() as int]),
    ensures
        prefix_len(b) == prefix_len(a),
        prefix_root(b) == prefix_root(a),
{
    lemma_prefix_len(a);
    assert forall|k: int| 0 <= k < a.len() implies a[k] == b[k] by {}
    if !has_drive(a) {
        lemma_separator_from(a, 2);
        let server = separator_from(a, 2);
        lemma_separator_from(a, server + 1);
        let share = separator_from(a, server + 1);
        assert forall|k: int| 2 <= k < server implies !is_separator(#[trigger] b[k]) by {
            assert(!is_separator(a[k]));
        }
        lemma_separator_is(b, 2, server);
        assert forall|k: int| server + 1 <= k < share implies !is_separator(#[trigger] b[k]) by {
            assert(!is_separator(a[k]));
        }
        if share == a.len() {
            assert(!is_separator(a[share - 1]));
        }
        lemma_separator_is(b, server + 1, share);
        assert(b.take(share) =~= a.take(share));
    }
}

/// What stands behind the drive or the share when a name is appended.
#[verifier::spinoff_prover]
#[verifier::rlimit(40)]
proof fn lemma_tail_of_join(s: Seq<u8>, t: Seq<u8>, name: Seq<u8>)
    requires
        prefix_len(s) > 0,
        name.len() > 0,
        !name.contains(SLASH),
        !name.contains(BACKSLASH),
        t == (if is_separator(s.last()) {
            s + name
        } else {
            s + seq![BACKSLASH] + name
        }),
        prefix_len(t) == prefix_len(s),
    ensures
        tail(t) == plain_join(tail(s), name),
{
    let p = prefix_len(s);
    lemma_prefix_len(s);
    assert(name[0] != SLASH);
    assert forall|k: int| 0 <= k < name.len() implies slashed_byte(#[trigger] name[k])
        == name[k] by {
        assert(name[k] != BACKSLASH);
    }
    assert(tail(t) == slashed(t.skip(p)));
    if p == s.len() {
        if !has_drive(s) {
            lemma_separator_from(s, 2);
            lemma_separator_from(s, separator_from(s, 2) + 1);
            assert(!is_separator(s[p - 1]));
        }
        assert(t.skip(p) =~= seq![BACKSLASH] + name);
        assert(tail(t) =~= seq![SLASH] + name);
    } else {
        let rest = s.skip(p);
        assert(rest.last() == s.last());
        assert(tail(s) == slashed(rest));
        assert(tail(s).last() == slashed_byte(s.last()));
        if is_separator(s.last()) {
            assert(t.skip(p) =~= rest + name);
            assert(tail(t) =~= tail(s) + name);
        } else {
            assert(t.skip(p) =~= rest + seq![BACKSLASH] + name);
            assert(tail(t) =~= tail(s) + seq![SLASH] + name);
        }
    }
}

/// A name that is appended to an absolute path becomes its last component.
#[verifier::spinoff_prover]
#[verifier::rlimit(40)]
pub proof fn lemma_join_component(a: Seq<u8>, name: Seq<u8>)
    requires
        is_anchored(a),
        name.len() > 0,
        !is_marked(name),
        !name.contains(SLASH),
        !name.contains(BACKSLASH),
        !has_drive(name),
        name != seq![DOT],
    ensures
        components(join(a, name)) == components(a).push(name),
        is_anchored(join(a, name)),
        is_marked(join(a, name)) == is_marked(a),
{
    assert(name[0] != SLASH && name[0] != BACKSLASH);
    if is_marked(a) {
        let s = spelled(a);
        let t = drive_join(s, name);
        lemma_marked(t);
        lemma_prefix_len(s);
        assert(s =~= t.take(s.len() as int));
        if !is_separator(s.last()) {
            assert(t[s.len() as int] == BACKSLASH);
        }
        lemma_prefix_stays(s, t);
        lemma_tail_of_join(s, t, name);
        lemma_plain_join_component(tail(s), name);
        lemma_rooted_parent(tail(s));
        let root = prefix_root(s);
        assert(plain_components(tail(s)).push(name).update(0, root) =~= plain_components(
            tail(s),
        ).update(0, root).push(name));
    } else {
        lemma_plain_join_component(a, name);
    }
}

/// How a name is appended to an absolute path: behind a separator of the platform, unless there is
/// one.
#[verifier::spinoff_prover]
#[verifier::rlimit(40)]
pub proof fn lemma_join_stays(a: Seq<u8>, name: Seq<u8>)
    requires
        is_anchored(a),
        name.len() > 0,
        !is_marked(name),
        !name.contains(SLASH),
        !name.contains(BACKSLASH),
        !has_drive(name),
    ensures
        !is_marked(a) ==> join(a, name) == (if a.last() == SLASH {
            a + name
        } else {
            a + seq![SLASH] + name
        }),
        is_marked(a) ==> join(a, name) == (if is_separator(a.last()) {
            a + name
        } else {
            a + seq![BACKSLASH] + name
        }),
{
    assert(name[0] != SLASH && name[0] != BACKSLASH);
    if is_marked(a) {
        let s = spelled(a);
        lemma_prefix_len(s);
        assert(a =~= seq![crate::path::MARK] + s);
        assert(s.last() == a.last());
        assert(join(a, name) =~= (if is_separator(a.last()) {
            a + name
        } else {
            a + seq![BACKSLASH] + name
        }));
    }
}

} // verus!

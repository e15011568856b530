//! Blocks of a startup file that stand between a pair of marker lines.
use vstd::prelude::*;

use crate::disk::{Disk, DiskView};
use crate::environment::Platform;
use crate::error::{Error, ErrorView};
use crate::fs::{change_result, changed, file_view, read_file_if_exists, write_atomic, written};
use crate::model::FileChange;
use crate::path::FilePath;
use crate::paths::{target_error, validate_target_path};
use crate::text;
use crate::text::{
    char_views, is_blank, lines_of, marker_text, plain_line, plain_lines, text_bytes, trim_end,
    utf8_text,
};

verus! {

/// A block with its marker lines and what stands between them.
#[derive(Debug, Clone, PartialEq, Eq)]
pub struct ManagedBlock {
    pub start_marker: String,
    pub end_marker: String,
    pub body: String,
}

#[verifier::ext_equal]
pub struct BlockView {
    pub start_marker: Seq<char>,
    pub end_marker: Seq<char>,
    pub body: Seq<char>,
}

impl View for ManagedBlock {
    type V = BlockView;

    open spec fn view(&self) -> BlockView {
        BlockView {
            start_marker: self.start_marker@,
            end_marker: self.end_marker@,
            body: self.body@,
        }
    }
}

/// The views of a list of blocks.
pub open spec fn block_views(blocks: Seq<ManagedBlock>) -> Seq<BlockView> {
    blocks.map_values(|b: ManagedBlock| b@)
}

/// The text of a block: the markers with the body between them, each on lines of its own.
pub open spec fn rendered(b: BlockView) -> Seq<char> {
    b.start_marker + "\n"@ + trim_end(b.body) + "\n"@ + b.end_marker + "\n"@
}

pub open spec fn invalid_block(path: Seq<u8>, reason: Seq<char>) -> ErrorView {
    ErrorView::InvalidManagedBlock { path, reason }
}

/// Whether a text can stand as a marker: one line, and not a blank one.
pub open spec fn is_marker(marker: Seq<char>) -> bool {
    !is_blank(marker) && !marker.contains('\n') && !marker.contains('\r')
}

/// What is wrong with the markers of a block.
pub open spec fn marker_error(path: Seq<u8>, b: BlockView) -> Option<ErrorView> {
    if !is_marker(b.start_marker) || !is_marker(b.end_marker) {
        Some(invalid_block(path, "markers must be nonempty single lines"@))
    } else if b.start_marker == b.end_marker {
        Some(invalid_block(path, "start and end markers must be distinct"@))
    } else {
        None
    }
}

/// How far a walk over lines has come: the line at which a block was opened, if one is open,
/// and the blocks found so far, each as its first line and the line behind its last.
#[verifier::ext_equal]
pub struct Walk {
    pub open: Option<int>,
    pub spans: Seq<(int, int)>,
}

/// A walk over lines that looks for the blocks with the given markers. Markers match whole
/// lines only.
pub open spec fn walk(b: BlockView, lines: Seq<Seq<char>>) -> Result<Walk, Seq<char>>
    decreases lines.len(),
{
    if lines.len() == 0 {
        Ok(Walk { open: None, spans: Seq::empty() })
    } else {
        match walk(b, lines.drop_last()) {
            Err(reason) => Err(reason),
            Ok(before) => step(b, before, lines.last(), lines.len() - 1),
        }
    }
}

/// One step of the walk, over the line with the given number.
pub open spec fn step(b: BlockView, before: Walk, line: Seq<char>, number: int) -> Result<
    Walk,
    Seq<char>,
> {
    if marker_text(line) == b.start_marker {
        match before.open {
            Some(_) => Err("managed blocks must not be nested"@),
            None => Ok(Walk { open: Some(number), spans: before.spans }),
        }
    } else if marker_text(line) == b.end_marker {
        match before.open {
            Some(first) => Ok(
                Walk { open: None, spans: before.spans.push((first, number + 1)) },
            ),
            None => Err("end marker has no matching start marker"@),
        }
    } else {
        Ok(before)
    }
}

/// The blocks of a text.
pub open spec fn block_spans(path: Seq<u8>, lines: Seq<Seq<char>>, b: BlockView) -> Result<
    Seq<(int, int)>,
    ErrorView,
> {
    match marker_error(path, b) {
        Some(error) => Err(error),
        None => match walk(b, lines) {
            Err(reason) => Err(invalid_block(path, reason)),
            Ok(end) => match end.open {
                Some(_) => Err(
                    ErrorView::ManagedBlockMissingEnd {
                        path,
                        start_marker: b.start_marker,
                        end_marker: b.end_marker,
                    },
                ),
                None => Ok(end.spans),
            },
        },
    }
}

/// The blocks that any of the first `count` pairs of markers delimits.
pub open spec fn collect_spans(
    path: Seq<u8>,
    lines: Seq<Seq<char>>,
    blocks: Seq<BlockView>,
    count: int,
) -> Result<Seq<(int, int)>, ErrorView>
    decreases count,
{
    if count <= 0 {
        Ok(Seq::empty())
    } else {
        match collect_spans(path, lines, blocks, count - 1) {
            Err(error) => Err(error),
            Ok(before) => match block_spans(path, lines, blocks[count - 1]) {
                Err(error) => Err(error),
                Ok(spans) => Ok(before + spans),
            },
        }
    }
}

/// Whether two different blocks share a line.
pub open spec fn overlap(a: (int, int), b: (int, int)) -> bool {
    a != b && a.0 < b.1 && b.0 < a.1
}

pub open spec fn any_overlap(spans: Seq<(int, int)>) -> bool {
    exists|i: int, j: int|
        0 <= i < spans.len() && 0 <= j < spans.len() && overlap(
            #[trigger] spans[i],
            #[trigger] spans[j],
        )
}

/// Whether a block begins before another, or begins with it and ends before it.
pub open spec fn precedes(a: (int, int), b: (int, int)) -> bool {
    a.0 < b.0 || a.0 == b.0 && a.1 < b.1
}

/// A list of blocks in order with one more, where it is not there yet.
pub open spec fn with_span(spans: Seq<(int, int)>, span: (int, int)) -> Seq<(int, int)>
    decreases spans.len(),
{
    if spans.len() == 0 {
        seq![span]
    } else if spans.last() == span {
        spans
    } else if precedes(spans.last(), span) {
        spans.push(span)
    } else {
        with_span(spans.drop_last(), span).push(spans.last())
    }
}

/// The blocks of a list in order, each once.
pub open spec fn in_order(spans: Seq<(int, int)>) -> Seq<(int, int)>
    decreases spans.len(),
{
    if spans.len() == 0 {
        Seq::empty()
    } else {
        with_span(in_order(spans.drop_last()), spans.last())
    }
}

/// The blocks of all pairs of markers, in order and each once; they must not overlap.
pub open spec fn all_spans(path: Seq<u8>, lines: Seq<Seq<char>>, blocks: Seq<BlockView>) -> Result<
    Seq<(int, int)>,
    ErrorView,
> {
    match collect_spans(path, lines, blocks, blocks.len() as int) {
        Err(error) => Err(error),
        Ok(spans) => if any_overlap(spans) {
            Err(invalid_block(path, "managed blocks must not overlap"@))
        } else {
            Ok(in_order(spans))
        },
    }
}

/// Whether a line belongs to a block.
pub open spec fn covered(spans: Seq<(int, int)>, line: int) -> bool {
    exists|k: int| 0 <= k < spans.len() && (#[trigger] spans[k]).0 <= line < spans[k].1
}

/// What becomes of a line when the blocks are taken out and a text is put in the place of the
/// first one.
pub open spec fn piece(
    lines: Seq<Seq<char>>,
    spans: Seq<(int, int)>,
    replacement: Seq<char>,
    line: int,
) -> Seq<char> {
    if spans.len() > 0 && line == spans[0].0 {
        replacement
    } else if covered(spans, line) {
        Seq::empty()
    } else {
        lines[line]
    }
}

/// The first `count` lines of a text with its blocks taken out and a text put in the place of
/// the first one. Every line outside of the blocks stays as it is.
pub open spec fn rebuilt(
    lines: Seq<Seq<char>>,
    spans: Seq<(int, int)>,
    replacement: Seq<char>,
    count: int,
) -> Seq<char>
    decreases count,
{
    if count <= 0 {
        Seq::empty()
    } else {
        rebuilt(lines, spans, replacement, count - 1) + piece(
            lines,
            spans,
            replacement,
            count - 1,
        )
    }
}

/// A text without its blocks, and whether there were any.
pub open spec fn without_blocks(path: Seq<u8>, contents: Seq<char>, blocks: Seq<BlockView>) -> Result<
    (Seq<char>, FileChange),
    ErrorView,
> {
    let lines = lines_of(contents);
    match all_spans(path, lines, blocks) {
        Err(error) => Err(error),
        Ok(spans) => Ok(
            (
                rebuilt(lines, spans, Seq::empty(), lines.len() as int),
                if spans.len() == 0 {
                    FileChange::Absent
                } else {
                    FileChange::Removed
                },
            ),
        ),
    }
}

/// Whether a carriage return and a line feed stand together somewhere in a text.
pub open spec fn has_crlf(s: Seq<char>) -> bool {
    exists|k: int| 0 <= k < s.len() - 1 && #[trigger] s[k] == '\r' && s[k + 1] == '\n'
}

/// Whether a text ends in a carriage return that no line feed follows.
pub open spec fn ends_in_cr(s: Seq<char>) -> bool {
    s.len() > 0 && s.last() == '\r'
}

/// The line ending of a block that goes into a text in which blocks of its kind stand at the
/// given places: that of the text. A block that goes behind a carriage return at the end of the
/// text, which the gap makes into a line ending, has that line ending.
pub open spec fn newline_in(s: Seq<char>, spans: Seq<(int, int)>) -> Seq<char> {
    if has_crlf(s) || spans.len() == 0 && ends_in_cr(s) {
        "\r\n"@
    } else {
        "\n"@
    }
}

/// A text with another line ending in the place of each line feed.
pub open spec fn with_newlines(s: Seq<char>, newline: Seq<char>) -> Seq<char>
    decreases s.len(),
{
    if s.len() == 0 {
        Seq::empty()
    } else {
        with_newlines(s.drop_last(), newline) + (if s.last() == '\n' {
            newline
        } else {
            seq![s.last()]
        })
    }
}

/// What stands between a text and a block that is put behind it: what is missing to the end of
/// its last line, and a blank line.
pub open spec fn gap(s: Seq<char>, newline: Seq<char>) -> Seq<char> {
    if s.len() == 0 {
        Seq::empty()
    } else if s.last() == '\n' {
        newline
    } else if s.last() == '\r' {
        "\n"@ + newline
    } else {
        newline + newline
    }
}

/// A text with the block in it: in the place of the first one with its markers, or at the end.
pub open spec fn with_block(path: Seq<u8>, contents: Seq<char>, b: BlockView) -> Result<
    Seq<char>,
    ErrorView,
> {
    let lines = lines_of(contents);
    match block_spans(path, lines, b) {
        Err(error) => Err(error),
        Ok(spans) => {
            let newline = newline_in(contents, spans);
            let block = with_newlines(rendered(b), newline);
            if spans.len() == 0 {
                Ok(contents + gap(contents, newline) + block)
            } else {
                Ok(rebuilt(lines, spans, block, lines.len() as int))
            }
        },
    }
}

/// Whether a text holds the block once, line for line.
pub open spec fn holds_block(path: Seq<u8>, contents: Seq<char>, b: BlockView) -> Result<
    bool,
    ErrorView,
> {
    let lines = lines_of(contents);
    match block_spans(path, lines, b) {
        Err(error) => Err(error),
        Ok(spans) => Ok(
            spans.len() == 1 && span_lines(lines, spans[0]) == plain_lines(rendered(b)),
        ),
    }
}

/// The lines of a block without their line endings.
pub open spec fn span_lines(lines: Seq<Seq<char>>, span: (int, int)) -> Seq<Seq<char>> {
    lines.subrange(span.0, span.1).map_values(|line: Seq<char>| plain_line(line))
}

/// The text of a startup file; an absent file is an empty text.
pub open spec fn profile_text(d: DiskView, path: Seq<u8>) -> Result<Option<Seq<char>>, ErrorView> {
    match file_view(d, path) {
        Err(error) => Err(error),
        Ok(None) => Ok(None),
        Ok(Some(bytes)) => match utf8_text(bytes) {
            Some(text) => Ok(Some(text)),
            None => Err(ErrorView::InvalidUtf8File { path }),
        },
    }
}

pub open spec fn or_empty(text: Option<Seq<char>>) -> Seq<char> {
    match text {
        Some(t) => t,
        None => Seq::empty(),
    }
}

/// What putting a block into a startup file leaves and returns.
pub open spec fn upserted(platform: Platform, d: DiskView, path: Seq<u8>, b: BlockView) -> (
    DiskView,
    Result<FileChange, ErrorView>,
) {
    match target_error(platform, d, path) {
        Some(error) => (d, Err(error)),
        None => match profile_text(d, path) {
            Err(error) => (d, Err(error)),
            Ok(existing) => match with_block(path, or_empty(existing), b) {
                Err(error) => (d, Err(error)),
                Ok(updated) => if existing == Some(updated) {
                    (d, Ok(FileChange::Unchanged))
                } else {
                    changed(
                        written(platform, d, path, text_bytes(updated)),
                        if existing is Some {
                            FileChange::Updated
                        } else {
                            FileChange::Created
                        },
                    )
                },
            },
        },
    }
}

/// What taking blocks out of a startup file leaves and returns.
pub open spec fn blocks_removed(
    platform: Platform,
    d: DiskView,
    path: Seq<u8>,
    blocks: Seq<BlockView>,
) -> (DiskView, Result<FileChange, ErrorView>) {
    match target_error(platform, d, path) {
        Some(error) => (d, Err(error)),
        None => match profile_text(d, path) {
            Err(error) => (d, Err(error)),
            Ok(existing) => match without_blocks(path, or_empty(existing), blocks) {
                Err(error) => (d, Err(error)),
                Ok((updated, change)) => if change == FileChange::Removed {
                    changed(written(platform, d, path, text_bytes(updated)), change)
                } else {
                    (d, Ok(change))
                },
            },
        },
    }
}

/// What replacing legacy blocks by a block leaves and returns: the change of the legacy blocks
/// and that of the block.
pub open spec fn blocks_migrated(
    platform: Platform,
    d: DiskView,
    path: Seq<u8>,
    legacy: Seq<BlockView>,
    b: BlockView,
) -> (DiskView, Result<(FileChange, FileChange), ErrorView>) {
    match target_error(platform, d, path) {
        Some(error) => (d, Err(error)),
        None => match profile_text(d, path) {
            Err(error) => (d, Err(error)),
            Ok(existing) => match migrated_text(path, or_empty(existing), legacy, b) {
                Err(error) => (d, Err(error)),
                Ok((updated, changes)) => if existing == Some(updated) {
                    (d, Ok(changes))
                } else {
                    let outcome = written(platform, d, path, text_bytes(updated));
                    match outcome.1 {
                        Some(error) => (outcome.0, Err(error)),
                        None => (outcome.0, Ok(changes)),
                    }
                },
            },
        },
    }
}

/// A text with its legacy blocks taken out and the block put in. All markers are looked at
/// before anything is taken out.
pub open spec fn migrated_text(
    path: Seq<u8>,
    contents: Seq<char>,
    legacy: Seq<BlockView>,
    b: BlockView,
) -> Result<(Seq<char>, (FileChange, FileChange)), ErrorView> {
    match all_spans(path, lines_of(contents), legacy.push(b)) {
        Err(error) => Err(error),
        Ok(_) => match without_blocks(path, contents, legacy) {
            Err(error) => Err(error),
            Ok((cleaned, legacy_change)) => match block_spans(path, lines_of(cleaned), b) {
                Err(error) => Err(error),
                Ok(spans) => match with_block(path, cleaned, b) {
                    Err(error) => Err(error),
                    Ok(updated) => Ok(
                        (
                            updated,
                            (
                                legacy_change,
                                if cleaned == updated {
                                    FileChange::Unchanged
                                } else if spans.len() > 0 {
                                    FileChange::Updated
                                } else {
                                    FileChange::Created
                                },
                            ),
                        ),
                    ),
                },
            },
        },
    }
}

/// Whether a startup file holds a block once, line for line.
pub open spec fn block_matches(platform: Platform, d: DiskView, path: Seq<u8>, b: BlockView) -> Result<
    bool,
    ErrorView,
> {
    match target_error(platform, d, path) {
        Some(error) => Err(error),
        None => match profile_text(d, path) {
            Err(error) => Err(error),
            Ok(existing) => holds_block(path, or_empty(existing), b),
        },
    }
}

/// The view of a list of blocks found in a text.
pub open spec fn span_views(spans: Seq<(usize, usize)>) -> Seq<(int, int)> {
    spans.map_values(|s: (usize, usize)| (s.0 as int, s.1 as int))
}

pub open spec fn spans_result(r: Result<Vec<(usize, usize)>, Error>) -> Result<
    Seq<(int, int)>,
    ErrorView,
> {
    match r {
        Ok(spans) => Ok(span_views(spans@)),
        Err(error) => Err(error@),
    }
}

pub open spec fn text_result(r: Result<String, Error>) -> Result<Seq<char>, ErrorView> {
    match r {
        Ok(text) => Ok(text@),
        Err(error) => Err(error@),
    }
}

impl ManagedBlock {
    /// A copy of the block.
    pub fn copy(&self) -> (r: ManagedBlock)
        ensures
            r@ == self@,
    {
        ManagedBlock {
            start_marker: text::copy(&self.start_marker),
            end_marker: text::copy(&self.end_marker),
            body: text::copy(&self.body),
        }
    }

    /// The text of the block.
    pub fn render(&self) -> (r: String)
        ensures
            r@ == rendered(self@),
    {
        let body = text::whole(&text::trimmed_end(&text::to_chars(&self.body)));
        let head = text::concat5(&self.start_marker, "\n", &body, "\n", &self.end_marker);
        text::concat2(&head, "\n")
    }
}

fn acceptable_marker(marker: &str) -> (r: bool)
    ensures
        r == is_marker(marker@),
{
    let chars = text::to_chars(marker);
    !text::blank(&chars) && !text::has_char(&chars, '\n') && !text::has_char(&chars, '\r')
}

fn invalid(path: &FilePath, reason: &'static str) -> (r: Error)
    ensures
        r@ == invalid_block(path@, reason@),
{
    Error::InvalidManagedBlock { path: path.copy(), reason }
}

/// The blocks of a text, each as its first line and the line behind its last.
fn block_ranges(path: &FilePath, lines: &Vec<Vec<char>>, block: &ManagedBlock) -> (r: Result<
    Vec<(usize, usize)>,
    Error,
>)
    ensures
        spans_result(r) == block_spans(path@, char_views(lines@), block@),
{
    if !acceptable_marker(&block.start_marker) || !acceptable_marker(&block.end_marker) {
        return Err(invalid(path, "markers must be nonempty single lines"));
    }
    let start_marker = text::to_chars(&block.start_marker);
    let end_marker = text::to_chars(&block.end_marker);
    if text::same_chars(&start_marker, &end_marker) {
        return Err(invalid(path, "start and end markers must be distinct"));
    }
    let ghost views = char_views(lines@);
    let mut spans: Vec<(usize, usize)> = Vec::new();
    let mut open: Option<usize> = None;
    let mut i: usize = 0;
    assert(span_views(spans@) =~= Seq::empty());
    assert(views.take(0) =~= Seq::empty());
    while i < lines.len()
        invariant
            i <= lines@.len(),
            views == char_views(lines@),
            start_marker@ == block@.start_marker,
            end_marker@ == block@.end_marker,
            marker_error(path@, block@) is None,
            walk(block@, views.take(i as int)) == Ok::<Walk, Seq<char>>(
                (Walk {
                    open: match open {
                        Some(n) => Some(n as int),
                        None => None,
                    },
                    spans: span_views(spans@),
                }),
            ),
        decreases lines.len() - i,
    {
        let line = text::marker_line(&lines[i]);
        proof {
            assert(views[i as int] == lines@[i as int]@);
            assert(views.take(i + 1).drop_last() =~= views.take(i as int));
            assert(views.take(i + 1).last() == views[i as int]);
        }
        if text::same_chars(&line, &start_marker) {
            if open.is_some() {
                proof {
                    lemma_walk_error(block@, views, i + 1);
                }
                return Err(invalid(path, "managed blocks must not be nested"));
            }
            open = Some(i);
        } else if text::same_chars(&line, &end_marker) {
            match open {
                Some(first) => {
                    let ghost before = spans@;
                    spans.push((first, i + 1));
                    open = None;
                    assert(span_views(spans@) =~= span_views(before).push(
                        (first as int, i + 1),
                    ));
                },
                None => {
                    proof {
                        lemma_walk_error(block@, views, i + 1);
                    }
                    return Err(invalid(path, "end marker has no matching start marker"));
                },
            }
        }
        i += 1;
    }
    assert(views.len() == lines@.len());
    assert(views.take(i as int) =~= views);
    if open.is_some() {
        return Err(
            Error::ManagedBlockMissingEnd {
                path: path.copy(),
                start_marker: text::copy(&block.start_marker),
                end_marker: text::copy(&block.end_marker),
            },
        );
    }
    Ok(spans)
}

/// A walk that failed stays failed.
proof fn lemma_walk_error(b: BlockView, lines: Seq<Seq<char>>, n: int)
    requires
        0 <= n <= lines.len(),
        walk(b, lines.take(n)) is Err,
    ensures
        walk(b, lines) == walk(b, lines.take(n)),
    decreases lines.len(),
{
    if n < lines.len() {
        assert(lines.drop_last().take(n) =~= lines.take(n));
        lemma_walk_error(b, lines.drop_last(), n);
    } else {
        assert(lines.take(n) =~= lines);
    }
}

/// Whether blocks stand one behind the other.
pub open spec fn stand_in_a_row(spans: Seq<(int, int)>) -> bool {
    forall|i: int, j: int|
        0 <= i < j < spans.len() ==> (#[trigger] spans[i]).1 <= (#[trigger] spans[j]).0
}

/// The blocks of all pairs of markers, one behind the other and each once; they must not overlap.
fn block_ranges_for_all(path: &FilePath, lines: &Vec<Vec<char>>, blocks: &[ManagedBlock]) -> (r:
    Result<Vec<(usize, usize)>, Error>)
    ensures
        spans_result(r) == all_spans(path@, char_views(lines@), block_views(blocks@)),
        r matches Ok(spans) ==> {
            let found = collect_spans(
                path@,
                char_views(lines@),
                block_views(blocks@),
                blocks@.len() as int,
            );
            &&& stand_in_a_row(span_views(spans@))
            &&& span_views(spans@).no_duplicates()
            &&& forall|s: (int, int)| #[trigger]
                span_views(spans@).contains(s) <==> found->Ok_0.contains(s)
        },
{
    let ghost views = block_views(blocks@);
    let mut spans: Vec<(usize, usize)> = Vec::new();
    let mut n: usize = 0;
    assert(span_views(spans@) =~= Seq::empty());
    while n < blocks.len()
        invariant
            n <= blocks@.len(),
            views == block_views(blocks@),
            views.len() == blocks@.len(),
            collect_spans(path@, char_views(lines@), views, n as int) == Ok::<
                Seq<(int, int)>,
                ErrorView,
            >(span_views(spans@)),
        decreases blocks.len() - n,
    {
        assert(views[n as int] == blocks@[n as int]@);
        match block_ranges(path, lines, &blocks[n]) {
            Ok(found) => {
                let ghost before = spans@;
                let ghost more = found@;
                let mut found = found;
                spans.append(&mut found);
                assert(span_views(spans@) =~= span_views(before) + span_views(more));
            },
            Err(error) => {
                proof {
                    lemma_collect_error(path@, char_views(lines@), views, n + 1, views.len() as int);
                }
                return Err(error);
            },
        }
        n += 1;
    }
    if overlapping(&spans) {
        return Err(invalid(path, "managed blocks must not overlap"));
    }
    let sorted = put_in_order(&spans);
    proof {
        assert(views.len() == blocks@.len());
        let found = span_views(spans@);
        lemma_collected_spans(path@, char_views(lines@), views, n as int);
        lemma_in_order(found);
        lemma_in_a_row(found);
    }
    Ok(sorted)
}

/// The blocks that were found are not empty.
pub proof fn lemma_collected_spans(
    path: Seq<u8>,
    lines: Seq<Seq<char>>,
    blocks: Seq<BlockView>,
    count: int,
)
    requires
        count <= blocks.len(),
        collect_spans(path, lines, blocks, count) is Ok,
    ensures
        forall|i: int|
            0 <= i < collect_spans(path, lines, blocks, count)->Ok_0.len() ==> (
            #[trigger] collect_spans(path, lines, blocks, count)->Ok_0[i]).0 < collect_spans(
                path,
                lines,
                blocks,
                count,
            )->Ok_0[i].1,
    decreases count,
{
    if count > 0 {
        lemma_collected_spans(path, lines, blocks, count - 1);
        lemma_walk_spans(blocks[count - 1], lines);
    }
}

/// Adding a block to a list in order keeps the order and adds that block alone.
proof fn lemma_with_span(spans: Seq<(int, int)>, span: (int, int))
    requires
        forall|i: int, j: int|
            0 <= i < j < spans.len() ==> precedes(#[trigger] spans[i], #[trigger] spans[j]),
    ensures
        forall|i: int, j: int|
            0 <= i < j < with_span(spans, span).len() ==> precedes(
                #[trigger] with_span(spans, span)[i],
                #[trigger] with_span(spans, span)[j],
            ),
        forall|s: (int, int)| #[trigger]
            with_span(spans, span).contains(s) <==> spans.contains(s) || s == span,
    decreases spans.len(),
{
    let out = with_span(spans, span);
    if spans.len() == 0 {
        assert(out[0] == span);
    } else if spans.last() == span {
        assert(spans[spans.len() - 1] == span);
    } else if precedes(spans.last(), span) {
        assert forall|s: (int, int)| #[trigger] out.contains(s) <==> spans.contains(s) || s
            == span by {
            if spans.contains(s) {
                let k = spans.index_of(s);
                assert(out[k] == s);
            }
            assert(out[spans.len() as int] == span);
        }
    } else {
        let front = spans.drop_last();
        let last = spans.last();
        lemma_with_span(front, span);
        let inner = with_span(front, span);
        assert forall|i: int, j: int| 0 <= i < j < out.len() implies precedes(
            #[trigger] out[i],
            #[trigger] out[j],
        ) by {
            if j == out.len() - 1 {
                assert(inner.contains(out[i]));
                if out[i] != span {
                    let k = front.index_of(out[i]);
                    assert(precedes(spans[k], spans[spans.len() - 1]));
                }
            }
        }
        assert forall|s: (int, int)| #[trigger] out.contains(s) <==> spans.contains(s) || s
            == span by {
            if out.contains(s) {
                let k = out.index_of(s);
                if k < inner.len() {
                    assert(inner.contains(s));
                    if s != span {
                        assert(spans[front.index_of(s)] == s);
                    }
                } else {
                    assert(spans[spans.len() - 1] == s);
                }
            }
            if spans.contains(s) || s == span {
                if s == last {
                    assert(out[inner.len() as int] == s);
                } else {
                    if spans.contains(s) {
                        let k = spans.index_of(s);
                        assert(front[k] == s);
                    }
                    assert(inner.contains(s));
                    assert(out[inner.index_of(s)] == s);
                }
            }
        }
    }
}

/// The blocks of a list in order are those of the list.
pub proof fn lemma_in_order(spans: Seq<(int, int)>)
    ensures
        forall|i: int, j: int|
            0 <= i < j < in_order(spans).len() ==> precedes(
                #[trigger] in_order(spans)[i],
                #[trigger] in_order(spans)[j],
            ),
        forall|s: (int, int)| #[trigger] in_order(spans).contains(s) <==> spans.contains(s),
        in_order(spans).no_duplicates(),
    decreases spans.len(),
{
    if spans.len() > 0 {
        let front = spans.drop_last();
        lemma_in_order(front);
        lemma_with_span(in_order(front), spans.last());
        assert forall|s: (int, int)| #[trigger] in_order(spans).contains(s)
            <==> spans.contains(s) by {
            if spans.contains(s) {
                let k = spans.index_of(s);
                if k < front.len() {
                    assert(front[k] == s);
                }
            }
            if front.contains(s) {
                assert(spans[front.index_of(s)] == s);
            }
            assert(spans[spans.len() - 1] == spans.last());
        }
    }
}

/// Blocks that do not overlap stand one behind the other once they are in order.
pub proof fn lemma_in_a_row(spans: Seq<(int, int)>)
    requires
        !any_overlap(spans),
        forall|i: int| 0 <= i < spans.len() ==> (#[trigger] spans[i]).0 < spans[i].1,
    ensures
        stand_in_a_row(in_order(spans)),
{
    lemma_in_order(spans);
    let out = in_order(spans);
    assert forall|i: int, j: int| 0 <= i < j < out.len() implies (#[trigger] out[i]).1 <= (
    #[trigger] out[j]).0 by {
        assert(out.contains(out[i]) && out.contains(out[j]));
        let a = spans.index_of(out[i]);
        let b = spans.index_of(out[j]);
        assert(!overlap(spans[a], spans[b]));
        assert(precedes(out[i], out[j]));
    }
}

/// Adds a block to a list in order.
fn add_in_order(spans: &mut Vec<(usize, usize)>, span: (usize, usize))
    ensures
        span_views(final(spans)@) == with_span(
            span_views(old(spans)@),
            (span.0 as int, span.1 as int),
        ),
{
    let ghost before = span_views(spans@);
    let ghost s = (span.0 as int, span.1 as int);
    let mut i: usize = spans.len();
    assert(before.take(i as int) =~= before);
    assert(before.skip(i as int) =~= Seq::empty());
    assert(with_span(before, s) + Seq::<(int, int)>::empty() =~= with_span(before, s));
    while i > 0
        invariant
            i <= spans@.len(),
            before == span_views(spans@),
            s == (span.0 as int, span.1 as int),
            with_span(before, s) == with_span(before.take(i as int), s) + before.skip(i as int),
        ensures
            i == 0 || before[i - 1] != s && precedes(before[i - 1], s),
        decreases i,
    {
        let last = spans[i - 1];
        let ghost front = before.take(i as int);
        proof {
            assert(front.last() == (last.0 as int, last.1 as int));
        }
        if last.0 == span.0 && last.1 == span.1 {
            assert(front + before.skip(i as int) =~= before);
            return;
        }
        if last.0 < span.0 || (last.0 == span.0 && last.1 < span.1) {
            break;
        }
        proof {
            assert(front.drop_last() =~= before.take(i - 1));
            assert(with_span(front.drop_last(), s).push(front.last()) + before.skip(i as int)
                =~= with_span(front.drop_last(), s) + before.skip(i - 1));
        }
        i -= 1;
    }
    assert(i > 0 ==> before.take(i as int).last() == before[i - 1]);
    spans.insert(i, span);
    assert(span_views(spans@) =~= before.take(i as int).push(s) + before.skip(i as int));
    assert(i == 0 ==> before.take(i as int) =~= Seq::empty());
    assert(Seq::<(int, int)>::empty().push(s) =~= seq![s]);
}

fn put_in_order(spans: &Vec<(usize, usize)>) -> (r: Vec<(usize, usize)>)
    ensures
        span_views(r@) == in_order(span_views(spans@)),
{
    let ghost views = span_views(spans@);
    let mut out: Vec<(usize, usize)> = Vec::new();
    let mut i: usize = 0;
    assert(span_views(out@) =~= in_order(views.take(0)));
    while i < spans.len()
        invariant
            i <= spans@.len(),
            views == span_views(spans@),
            span_views(out@) == in_order(views.take(i as int)),
        decreases spans.len() - i,
    {
        proof {
            assert(views.take(i + 1).drop_last() =~= views.take(i as int));
            assert(views.take(i + 1).last() == (spans@[i as int].0 as int, spans@[i as int].1
                as int));
        }
        add_in_order(&mut out, spans[i]);
        i += 1;
    }
    assert(views.take(i as int) =~= views);
    out
}

proof fn lemma_collect_error(
    path: Seq<u8>,
    lines: Seq<Seq<char>>,
    blocks: Seq<BlockView>,
    n: int,
    m: int,
)
    requires
        n <= m,
        collect_spans(path, lines, blocks, n) is Err,
    ensures
        collect_spans(path, lines, blocks, m) == collect_spans(path, lines, blocks, n),
    decreases m - n,
{
    if n < m {
        lemma_collect_error(path, lines, blocks, n, m - 1);
    }
}

fn overlapping(spans: &Vec<(usize, usize)>) -> (r: bool)
    ensures
        r == any_overlap(span_views(spans@)),
{
    let ghost views = span_views(spans@);
    let mut i: usize = 0;
    while i < spans.len()
        invariant
            i <= spans@.len(),
            views == span_views(spans@),
            forall|a: int, b: int|
                0 <= a < i && 0 <= b < views.len() ==> !overlap(
                    #[trigger] views[a],
                    #[trigger] views[b],
                ),
        decreases spans.len() - i,
    {
        let mut j: usize = 0;
        while j < spans.len()
            invariant
                i < spans@.len(),
                j <= spans@.len(),
                views == span_views(spans@),
                forall|b: int| 0 <= b < j ==> !overlap(views[i as int], #[trigger] views[b]),
            decreases spans.len() - j,
        {
            let a = spans[i];
            let b = spans[j];
            assert(views[i as int] == (a.0 as int, a.1 as int));
            assert(views[j as int] == (b.0 as int, b.1 as int));
            if (a.0 != b.0 || a.1 != b.1) && a.0 < b.1 && b.0 < a.1 {
                assert(overlap(views[i as int], views[j as int]));
                return true;
            }
            j += 1;
        }
        i += 1;
    }
    false
}

fn in_block(spans: &Vec<(usize, usize)>, line: usize) -> (r: bool)
    ensures
        r == covered(span_views(spans@), line as int),
{
    let ghost views = span_views(spans@);
    let mut k: usize = 0;
    while k < spans.len()
        invariant
            k <= spans@.len(),
            views == span_views(spans@),
            forall|a: int| 0 <= a < k ==> !((#[trigger] views[a]).0 <= line < views[a].1),
        decreases spans.len() - k,
    {
        let s = spans[k];
        assert(views[k as int] == (s.0 as int, s.1 as int));
        if s.0 <= line && line < s.1 {
            return true;
        }
        k += 1;
    }
    false
}

/// A text with its blocks taken out and a text put in the place of the first one.
fn replace_ranges(lines: &Vec<Vec<char>>, spans: &Vec<(usize, usize)>, replacement: &str) -> (r:
    String)
    ensures
        r@ == rebuilt(
            char_views(lines@),
            span_views(spans@),
            replacement@,
            lines@.len() as int,
        ),
{
    let ghost views = char_views(lines@);
    let ghost found = span_views(spans@);
    let mut out = String::new();
    let mut i: usize = 0;
    while i < lines.len()
        invariant
            i <= lines@.len(),
            views == char_views(lines@),
            found == span_views(spans@),
            out@ == rebuilt(views, found, replacement@, i as int),
        decreases lines.len() - i,
    {
        proof {
            assert(views[i as int] == lines@[i as int]@);
            if spans@.len() > 0 {
                assert(found[0] == (spans@[0].0 as int, spans@[0].1 as int));
            }
        }
        if spans.len() > 0 && i == spans[0].0 {
            out.append(replacement);
        } else if !in_block(spans, i) {
            out.append(&text::whole(&lines[i]));
        } else {
            assert(out@ + Seq::<char>::empty() =~= out@);
        }
        i += 1;
    }
    out
}

/// A text without its blocks, and whether there were any.
fn rewrite_remove_all(path: &FilePath, contents: &str, blocks: &[ManagedBlock]) -> (r: Result<
    (String, FileChange),
    Error,
>)
    ensures
        (match r {
            Ok((text, change)) => Ok::<(Seq<char>, FileChange), ErrorView>((text@, change)),
            Err(error) => Err::<(Seq<char>, FileChange), ErrorView>(error@),
        }) == without_blocks(path@, contents@, block_views(blocks@)),
{
    let lines = text::split_lines(&text::to_chars(contents));
    let spans = block_ranges_for_all(path, &lines, blocks)?;
    let change = if spans.len() == 0 {
        FileChange::Absent
    } else {
        FileChange::Removed
    };
    assert(char_views(lines@).len() == lines@.len());
    proof {
        reveal_strlit("");
        assert(""@ =~= Seq::<char>::empty());
    }
    Ok((replace_ranges(&lines, &spans, ""), change))
}

fn contains_crlf(s: &[char]) -> (r: bool)
    ensures
        r == has_crlf(s@),
{
    let mut i: usize = 0;
    while i < s.len()
        invariant
            i <= s@.len(),
            forall|k: int| 0 <= k < i && k < s@.len() - 1 ==> !(#[trigger] s@[k] == '\r' && s@[k + 1]
                == '\n'),
        decreases s.len() - i,
    {
        if i + 1 < s.len() && s[i] == '\r' && s[i + 1] == '\n' {
            return true;
        }
        i += 1;
    }
    false
}

fn convert_newlines(s: &[char], newline: &str) -> (r: String)
    ensures
        r@ == with_newlines(s@, newline@),
{
    let mut out = String::new();
    let mut i: usize = 0;
    assert(s@.take(0) =~= Seq::empty());
    while i < s.len()
        invariant
            i <= s@.len(),
            out@ == with_newlines(s@.take(i as int), newline@),
        decreases s.len() - i,
    {
        assert(s@.take(i + 1).drop_last() =~= s@.take(i as int));
        if s[i] == '\n' {
            out.append(newline);
        } else {
            let ghost before = out@;
            out.push(s[i]);
            assert(out@ =~= before + seq![s@[i as int]]);
        }
        i += 1;
    }
    assert(s@.take(i as int) =~= s@);
    out
}

/// A text with the block in it.
pub fn rewrite_upsert(path: &FilePath, contents: &str, block: &ManagedBlock) -> (r: Result<
    String,
    Error,
>)
    ensures
        text_result(r) == with_block(path@, contents@, block@),
{
    let chars = text::to_chars(contents);
    let lines = text::split_lines(&chars);
    let spans = block_ranges(path, &lines, block)?;
    let behind_cr = chars.len() > 0 && chars[chars.len() - 1] == '\r';
    let newline = if contains_crlf(&chars) || (spans.len() == 0 && behind_cr) {
        "\r\n"
    } else {
        "\n"
    };
    let rendered = convert_newlines(&text::to_chars(&block.render()), newline);
    if spans.len() == 0 {
        let mut gap_text = String::new();
        if chars.len() > 0 {
            if behind_cr {
                gap_text = text::copy("\n");
            } else if chars[chars.len() - 1] != '\n' {
                gap_text = text::copy(newline);
            }
            let ghost before = gap_text@;
            gap_text.append(newline);
            assert(gap_text@ =~= before + newline@);
            assert(Seq::<char>::empty() + newline@ =~= newline@);
        }
        Ok(text::concat3(contents, &gap_text, &rendered))
    } else {
        assert(char_views(lines@).len() == lines@.len());
        Ok(replace_ranges(&lines, &spans, &rendered))
    }
}

/// The text of a startup file, if there is one.
fn read_utf8_file(disk: &Disk, path: &FilePath) -> (r: Result<Option<String>, Error>)
    ensures
        (match r {
            Ok(text) => Ok::<Option<Seq<char>>, ErrorView>(crate::model::opt_text(text)),
            Err(error) => Err::<Option<Seq<char>>, ErrorView>(error@),
        }) == profile_text(disk@, path@),
{
    match read_file_if_exists(disk, path)? {
        Some(bytes) => match text::text_of(&bytes) {
            Some(text) => Ok(Some(text)),
            None => Err(Error::InvalidUtf8File { path: path.copy() }),
        },
        None => Ok(None),
    }
}

fn text_or_empty(text: &Option<String>) -> (r: String)
    ensures
        r@ == or_empty(crate::model::opt_text(*text)),
{
    match text {
        Some(t) => text::copy(t),
        None => String::new(),
    }
}

fn is_text(text: &Option<String>, other: &str) -> (r: bool)
    ensures
        r == (crate::model::opt_text(*text) == Some(other@)),
{
    match text {
        Some(t) => text::same(t, other),
        None => false,
    }
}

/// Puts a block into a startup file.
pub fn upsert(platform: Platform, disk: &mut Disk, path: &FilePath, block: &ManagedBlock) -> (r:
    Result<FileChange, Error>)
    ensures
        (final(disk)@, change_result(r)) == upserted(platform, old(disk)@, path@, block@),
{
    validate_target_path(platform, disk, path)?;
    let existing = read_utf8_file(disk, path)?;
    let updated = rewrite_upsert(path, &text_or_empty(&existing), block)?;
    if is_text(&existing, &updated) {
        return Ok(FileChange::Unchanged);
    }
    write_atomic(platform, disk, path, &text::bytes_of(&updated))?;
    Ok(
        if existing.is_some() {
            FileChange::Updated
        } else {
            FileChange::Created
        },
    )
}

/// Takes a block out of a startup file.
pub fn remove(platform: Platform, disk: &mut Disk, path: &FilePath, block: &ManagedBlock) -> (r:
    Result<FileChange, Error>)
    ensures
        (final(disk)@, change_result(r)) == blocks_removed(
            platform,
            old(disk)@,
            path@,
            seq![block@],
        ),
{
    let mut blocks: Vec<ManagedBlock> = Vec::new();
    blocks.push(block.copy());
    assert(block_views(blocks@) =~= seq![block@]);
    remove_all(platform, disk, path, &blocks)
}

/// Takes blocks out of a startup file.
pub fn remove_all(platform: Platform, disk: &mut Disk, path: &FilePath, blocks: &[ManagedBlock]) -> (r:
    Result<FileChange, Error>)
    ensures
        (final(disk)@, change_result(r)) == blocks_removed(
            platform,
            old(disk)@,
            path@,
            block_views(blocks@),
        ),
{
    validate_target_path(platform, disk, path)?;
    let existing = read_utf8_file(disk, path)?;
    let (updated, change) = rewrite_remove_all(path, &text_or_empty(&existing), blocks)?;
    match change {
        FileChange::Removed => {
            write_atomic(platform, disk, path, &text::bytes_of(&updated))?;
        },
        _ => {},
    }
    Ok(change)
}

/// Replaces legacy blocks of a startup file by a block. Returns what happened to the legacy
/// blocks and what happened to the block.
pub fn migrate_blocks(
    platform: Platform,
    disk: &mut Disk,
    path: &FilePath,
    legacy_blocks: &[ManagedBlock],
    managed_block: &ManagedBlock,
) -> (r: Result<(FileChange, FileChange), Error>)
    ensures
        (final(disk)@, (match r {
            Ok(changes) => Ok::<(FileChange, FileChange), ErrorView>(changes),
            Err(error) => Err::<(FileChange, FileChange), ErrorView>(error@),
        })) == blocks_migrated(
            platform,
            old(disk)@,
            path@,
            block_views(legacy_blocks@),
            managed_block@,
        ),
{
    validate_target_path(platform, disk, path)?;
    let existing = read_utf8_file(disk, path)?;
    let contents = text_or_empty(&existing);
    let all_blocks = with_last(legacy_blocks, managed_block);
    let lines = text::split_lines(&text::to_chars(&contents));
    block_ranges_for_all(path, &lines, &all_blocks)?;
    let (without_legacy, legacy_change) = rewrite_remove_all(path, &contents, legacy_blocks)?;
    let cleaned = text::split_lines(&text::to_chars(&without_legacy));
    let own_spans = block_ranges(path, &cleaned, managed_block)?;
    let updated = rewrite_upsert(path, &without_legacy, managed_block)?;
    let managed_change = if text::same(&without_legacy, &updated) {
        FileChange::Unchanged
    } else if own_spans.len() > 0 {
        FileChange::Updated
    } else {
        FileChange::Created
    };
    if !is_text(&existing, &updated) {
        write_atomic(platform, disk, path, &text::bytes_of(&updated))?;
    }
    Ok((legacy_change, managed_change))
}

fn with_last(blocks: &[ManagedBlock], last: &ManagedBlock) -> (r: Vec<ManagedBlock>)
    ensures
        block_views(r@) == block_views(blocks@).push(last@),
{
    let mut out: Vec<ManagedBlock> = Vec::new();
    let mut i: usize = 0;
    while i < blocks.len()
        invariant
            i <= blocks@.len(),
            out@.len() == i,
            forall|k: int| 0 <= k < i ==> (#[trigger] out@[k])@ == blocks@[k]@,
        decreases blocks.len() - i,
    {
        out.push(blocks[i].copy());
        i += 1;
    }
    out.push(last.copy());
    assert(block_views(out@) =~= block_views(blocks@).push(last@));
    out
}

/// Whether a startup file holds a block once, line for line.
pub fn matches(platform: Platform, disk: &Disk, path: &FilePath, block: &ManagedBlock) -> (r:
    Result<bool, Error>)
    ensures
        crate::fs::bool_result(r) == block_matches(platform, disk@, path@, block@),
{
    validate_target_path(platform, disk, path)?;
    let existing = read_utf8_file(disk, path)?;
    let contents = text_or_empty(&existing);
    let lines = text::split_lines(&text::to_chars(&contents));
    let spans = block_ranges(path, &lines, block)?;
    if spans.len() != 1 {
        return Ok(false);
    }
    let expected = text::plain_lines_of(&text::to_chars(&block.render()));
    let (first, last) = spans[0];
    let ghost views = char_views(lines@);
    proof {
        assert(span_views(spans@)[0] == (first as int, last as int));
        lemma_walk_spans(block@, views);
        assert(views.len() == lines@.len());
        assert(char_views(expected@).len() == expected@.len());
        assert(span_lines(views, (first as int, last as int)).len() == last - first);
    }
    if last - first != expected.len() {
        return Ok(false);
    }
    let mut k: usize = 0;
    while k < expected.len()
        invariant
            k <= expected@.len(),
            expected@.len() == last - first,
            first <= last <= lines@.len(),
            views == char_views(lines@),
            char_views(expected@) == plain_lines(rendered(block@)),
            views.len() == lines@.len(),
            forall|m: int|
                0 <= m < k ==> #[trigger] span_lines(views, (first as int, last as int))[m]
                    == expected@[m]@,
            holds_block(path@, contents@, block@) == Ok::<bool, ErrorView>(
                span_lines(views, (first as int, last as int)) == plain_lines(rendered(block@)),
            ),
            profile_text(disk@, path@) == Ok::<Option<Seq<char>>, ErrorView>(
                crate::model::opt_text(existing),
            ),
            contents@ == or_empty(crate::model::opt_text(existing)),
            target_error(platform, disk@, path@) is None,
        decreases expected.len() - k,
    {
        let line = text::plain(&lines[first + k]);
        proof {
            assert(views[first + k] == lines@[first + k]@);
            assert(views.subrange(first as int, last as int)[k as int] == views[first + k]);
            assert(span_lines(views, (first as int, last as int))[k as int] == line@);
            assert(char_views(expected@)[k as int] == expected@[k as int]@);
        }
        if !text::same_chars(&line, &expected[k]) {
            assert(span_lines(views, (first as int, last as int))[k as int] != plain_lines(
                rendered(block@),
            )[k as int]);
            return Ok(false);
        }
        k += 1;
    }
    proof {
        assert forall|m: int| 0 <= m < expected@.len() implies span_lines(
            views,
            (first as int, last as int),
        )[m] == char_views(expected@)[m] by {}
        assert(span_lines(views, (first as int, last as int)) =~= char_views(expected@));
    }
    Ok(true)
}

/// The blocks that a walk finds are not empty, lie within the lines, and come one after the
/// other.
pub proof fn lemma_walk_spans(b: BlockView, lines: Seq<Seq<char>>)
    ensures
        walk(b, lines) matches Ok(w) ==> {
            &&& forall|k: int|
                0 <= k < w.spans.len() ==> 0 <= (#[trigger] w.spans[k]).0 < w.spans[k].1
                    <= lines.len()
            &&& forall|j: int, k: int|
                0 <= j < k < w.spans.len() ==> (#[trigger] w.spans[j]).1 <= (
                #[trigger] w.spans[k]).0
            &&& w.open matches Some(n) ==> 0 <= n < lines.len() && forall|k: int|
                0 <= k < w.spans.len() ==> (#[trigger] w.spans[k]).1 <= n
        },
    decreases lines.len(),
{
    if lines.len() > 0 {
        lemma_walk_spans(b, lines.drop_last());
    }
}

} // verus!

//! What holds of startup files and the blocks in them.
use vstd::prelude::*;
use vstd::utf8::{encode_utf8_decode_utf8, encode_utf8_valid_utf8};

use crate::disk::{node_at, DiskView};
use crate::environment::Platform;
use crate::error::ErrorView;
use crate::fs::written;
use crate::laws::blocks::{
    fits, inserted, is_one_block, keeps_style, law_migration_is_idempotent,
    law_migration_replaces_legacy_blocks, law_removal_is_final, law_removal_undoes_upsert,
    law_upsert_is_idempotent, law_upsert_is_seen, lemma_one_block_alone, lemma_style_kept,
    newline_for, stands_alone,
};
use crate::laws::files::{
    changed_in_one_step, differs_at, is_readable, law_read_gives_what_was_written,
    law_write_changes_one_file, law_write_is_one_step, law_written_target_stays_acceptable,
    lemma_nothing_changed,
};
use crate::managed_block::{
    block_matches, blocks_migrated, blocks_removed, has_crlf, migrated_text, or_empty, profile_text,
    rendered, upserted, with_block, without_blocks, BlockView,
};
use crate::model::FileChange;
use crate::path::components;
use crate::paths::target_error;
use crate::text::text_bytes;

verus! {

/// The text of a startup file, where it can be read.
pub open spec fn text_at(d: DiskView, path: Seq<u8>) -> Seq<char> {
    match profile_text(d, path) {
        Ok(text) => or_empty(text),
        Err(_) => Seq::empty(),
    }
}

/// A startup file that was written holds the text that was written.
pub proof fn lemma_text_written(platform: Platform, d: DiskView, path: Seq<u8>, text: Seq<char>)
    requires
        written(platform, d, path, text_bytes(text)).1 is None,
        is_readable(d, path),
    ensures
        profile_text(written(platform, d, path, text_bytes(text)).0, path) == Ok::<
            Option<Seq<char>>,
            ErrorView,
        >(Some(text)),
        target_error(platform, written(platform, d, path, text_bytes(text)).0, path) is None,
        is_readable(written(platform, d, path, text_bytes(text)).0, path),
{
    law_read_gives_what_was_written(platform, d, path, text_bytes(text));
    law_written_target_stays_acceptable(platform, d, path, text_bytes(text));
    law_write_changes_one_file(platform, d, path, text_bytes(text));
    encode_utf8_valid_utf8(text);
    encode_utf8_decode_utf8(text);
}

/// A startup file whose text was read can be read.
proof fn lemma_text_readable(d: DiskView, path: Seq<u8>)
    requires
        profile_text(d, path) matches Ok(Some(_)),
    ensures
        is_readable(d, path),
{
}

/// Putting a block into a startup file a second time changes nothing and says so.
pub proof fn law_wiring_is_idempotent(
    platform: Platform,
    d: DiskView,
    path: Seq<u8>,
    b: BlockView,
)
    requires
        upserted(platform, d, path, b).1 is Ok,
        is_readable(d, path),
        stands_alone(b, inserted(text_at(d, path), b)),
        keeps_style(text_at(d, path), b),
    ensures
        ({
            let after = upserted(platform, d, path, b).0;
            upserted(platform, after, path, b) == (
                after,
                Ok::<FileChange, ErrorView>(FileChange::Unchanged),
            )
        }),
{
    let contents = text_at(d, path);
    let updated = with_block(path, contents, b)->Ok_0;
    lemma_style_kept(path, contents, b);
    law_upsert_is_idempotent(path, contents, b);
    if profile_text(d, path) != Ok::<Option<Seq<char>>, ErrorView>(Some(updated)) {
        lemma_text_written(platform, d, path, updated);
    }
}

/// A block that was put into a startup file is seen there.
pub proof fn law_wiring_is_seen(platform: Platform, d: DiskView, path: Seq<u8>, b: BlockView)
    requires
        upserted(platform, d, path, b).1 is Ok,
        is_readable(d, path),
        is_one_block(b, inserted(text_at(d, path), b)),
        newline_for(text_at(d, path), b).len() == 2 ==> !has_crlf(rendered(b)),
    ensures
        block_matches(platform, upserted(platform, d, path, b).0, path, b) == Ok::<
            bool,
            ErrorView,
        >(true),
{
    let contents = text_at(d, path);
    let updated = with_block(path, contents, b)->Ok_0;
    law_upsert_is_seen(path, contents, b);
    if profile_text(d, path) != Ok::<Option<Seq<char>>, ErrorView>(Some(updated)) {
        lemma_text_written(platform, d, path, updated);
    }
}

/// Taking a block out behind putting it in: the cleanup reports the block as removed unless the
/// system refuses to write, and leaves the text as it would be without the block.
pub proof fn law_cleanup_undoes_wiring(
    platform: Platform,
    d: DiskView,
    path: Seq<u8>,
    b: BlockView,
)
    requires
        upserted(platform, d, path, b).1 is Ok,
        is_readable(d, path),
        stands_alone(b, inserted(text_at(d, path), b)),
    ensures
        ({
            let after = upserted(platform, d, path, b).0;
            let (end, outcome) = blocks_removed(platform, after, path, seq![b]);
            let rest = without_blocks(
                path,
                with_block(path, text_at(d, path), b)->Ok_0,
                seq![b],
            )->Ok_0.0;
            &&& outcome is Ok ==> outcome == Ok::<FileChange, ErrorView>(FileChange::Removed)
            &&& outcome is Ok ==> profile_text(end, path) == Ok::<
                Option<Seq<char>>,
                ErrorView,
            >(Some(rest))
            &&& outcome matches Err(error) ==> Some(error) == written(
                platform,
                after,
                path,
                text_bytes(rest),
            ).1
        }),
{
    let contents = text_at(d, path);
    let updated = with_block(path, contents, b)->Ok_0;
    law_removal_undoes_upsert(path, contents, b);
    let after = upserted(platform, d, path, b).0;
    if profile_text(d, path) != Ok::<Option<Seq<char>>, ErrorView>(Some(updated)) {
        lemma_text_written(platform, d, path, updated);
    }
    let rest = without_blocks(path, updated, seq![b])->Ok_0.0;
    if written(platform, after, path, text_bytes(rest)).1 is None {
        lemma_text_written(platform, after, path, rest);
    }
}

/// Taking blocks out of a startup file a second time finds none and changes nothing.
pub proof fn law_cleanup_is_idempotent(
    platform: Platform,
    d: DiskView,
    path: Seq<u8>,
    blocks: Seq<BlockView>,
)
    requires
        blocks_removed(platform, d, path, blocks).1 is Ok,
    ensures
        ({
            let after = blocks_removed(platform, d, path, blocks).0;
            blocks_removed(platform, after, path, blocks) == (
                after,
                Ok::<FileChange, ErrorView>(FileChange::Absent),
            )
        }),
{
    let contents = text_at(d, path);
    let rest = without_blocks(path, contents, blocks)->Ok_0.0;
    law_removal_is_final(path, contents, blocks);
    if without_blocks(path, contents, blocks)->Ok_0.1 == FileChange::Removed {
        assert(profile_text(d, path) matches Ok(Some(_))) by {
            if profile_text(d, path) == Ok::<Option<Seq<char>>, ErrorView>(None) {
                assert(crate::text::lines_of(contents) =~= Seq::empty());
                lemma_nothing_found(path, blocks, blocks.len() as int);
            }
        }
        lemma_text_readable(d, path);
        lemma_text_written(platform, d, path, rest);
    }
}

/// An absent startup file holds no block.
proof fn lemma_nothing_found(path: Seq<u8>, blocks: Seq<BlockView>, count: int)
    requires
        0 <= count <= blocks.len(),
    ensures
        crate::managed_block::collect_spans(path, Seq::empty(), blocks, count) matches Ok(spans)
            ==> spans.len() == 0,
    decreases count,
{
    if count > 0 {
        lemma_nothing_found(path, blocks, count - 1);
        assert(crate::managed_block::walk(blocks[count - 1], Seq::empty()) == Ok::<
            crate::managed_block::Walk,
            Seq<char>,
        >((crate::managed_block::Walk { open: None, spans: Seq::empty() })));
    }
}

/// An edit of a startup file touches that file alone, apart from new directories above it, and in
/// one step; one that fails leaves the file as it was.
pub proof fn law_edits_keep_the_rest(
    platform: Platform,
    d: DiskView,
    path: Seq<u8>,
    b: BlockView,
    blocks: Seq<BlockView>,
)
    ensures
        differs_at(d, upserted(platform, d, path, b).0, components(path)),
        differs_at(d, blocks_removed(platform, d, path, blocks).0, components(path)),
        differs_at(d, blocks_migrated(platform, d, path, blocks, b).0, components(path)),
        changed_in_one_step(d, upserted(platform, d, path, b).0, path),
        changed_in_one_step(d, blocks_removed(platform, d, path, blocks).0, path),
        changed_in_one_step(d, blocks_migrated(platform, d, path, blocks, b).0, path),
        upserted(platform, d, path, b).1 is Err ==> node_at(upserted(platform, d, path, b).0, path)
            == node_at(d, path),
        blocks_removed(platform, d, path, blocks).1 is Err ==> node_at(
            blocks_removed(platform, d, path, blocks).0,
            path,
        ) == node_at(d, path),
        blocks_migrated(platform, d, path, blocks, b).1 is Err ==> node_at(
            blocks_migrated(platform, d, path, blocks, b).0,
            path,
        ) == node_at(d, path),
{
    let contents = text_at(d, path);
    lemma_nothing_changed(d, path);
    if with_block(path, contents, b) is Ok {
        law_write_is_one_step(
            platform,
            d,
            path,
            text_bytes(with_block(path, contents, b)->Ok_0),
        );
        law_write_changes_one_file(
            platform,
            d,
            path,
            text_bytes(with_block(path, contents, b)->Ok_0),
        );
    }
    if without_blocks(path, contents, blocks) is Ok {
        law_write_is_one_step(
            platform,
            d,
            path,
            text_bytes(without_blocks(path, contents, blocks)->Ok_0.0),
        );
        law_write_changes_one_file(
            platform,
            d,
            path,
            text_bytes(without_blocks(path, contents, blocks)->Ok_0.0),
        );
    }
    if migrated_text(path, contents, blocks, b) is Ok {
        law_write_is_one_step(
            platform,
            d,
            path,
            text_bytes(migrated_text(path, contents, blocks, b)->Ok_0.0),
        );
        law_write_changes_one_file(
            platform,
            d,
            path,
            text_bytes(migrated_text(path, contents, blocks, b)->Ok_0.0),
        );
    }
}

/// A startup file with markers that are out of order is not touched at all.
pub proof fn law_malformed_blocks_change_nothing(
    platform: Platform,
    d: DiskView,
    path: Seq<u8>,
    b: BlockView,
    blocks: Seq<BlockView>,
)
    ensures
        with_block(path, text_at(d, path), b) is Err ==> upserted(platform, d, path, b).0 == d
            && upserted(platform, d, path, b).1 is Err,
        without_blocks(path, text_at(d, path), blocks) is Err ==> blocks_removed(
            platform,
            d,
            path,
            blocks,
        ).0 == d && blocks_removed(platform, d, path, blocks).1 is Err,
        migrated_text(path, text_at(d, path), blocks, b) is Err ==> blocks_migrated(
            platform,
            d,
            path,
            blocks,
            b,
        ).0 == d && blocks_migrated(platform, d, path, blocks, b).1 is Err,
{
}

/// Behind a migration the new block is seen, no legacy block is left, and a second migration
/// changes nothing.
pub proof fn law_migration_is_lasting(
    platform: Platform,
    d: DiskView,
    path: Seq<u8>,
    legacy: Seq<BlockView>,
    b: BlockView,
)
    requires
        blocks_migrated(platform, d, path, legacy, b).1 is Ok,
        is_readable(d, path),
        fits(path, text_at(d, path), legacy, b),
        keeps_style(without_blocks(path, text_at(d, path), legacy)->Ok_0.0, b),
    ensures
        ({
            let after = blocks_migrated(platform, d, path, legacy, b).0;
            &&& block_matches(platform, after, path, b) == Ok::<bool, ErrorView>(true)
            &&& blocks_removed(platform, after, path, legacy) == (
                after,
                Ok::<FileChange, ErrorView>(FileChange::Absent),
            )
            &&& blocks_migrated(platform, after, path, legacy, b) == (
                after,
                Ok::<(FileChange, FileChange), ErrorView>(
                    (FileChange::Absent, FileChange::Unchanged),
                ),
            )
        }),
{
    let contents = text_at(d, path);
    let updated = migrated_text(path, contents, legacy, b)->Ok_0.0;
    law_migration_replaces_legacy_blocks(path, contents, legacy, b);
    let cleaned = without_blocks(path, contents, legacy)->Ok_0.0;
    lemma_one_block_alone(b, inserted(cleaned, b));
    lemma_style_kept(path, cleaned, b);
    law_migration_is_idempotent(path, contents, legacy, b);
    if profile_text(d, path) != Ok::<Option<Seq<char>>, ErrorView>(Some(updated)) {
        lemma_text_written(platform, d, path, updated);
    }
}

} // verus!

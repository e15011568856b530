//! What the shells with a managed startup file have in common.
use vstd::prelude::*;

use crate::disk::{Disk, DiskView};
use crate::environment::Platform;
use crate::error::{Error, ErrorView};
use crate::managed_block;
use crate::managed_block::{blocks_migrated, blocks_removed, upserted, BlockView, ManagedBlock};
use crate::model::{
    opt_path, ActivationReport, ActivationView, CleanupReport, CleanupView, FileChange,
    LegacyManagedBlock,
};
use crate::path::{path_views, FilePath};
use crate::text;

verus! {

/// The activation that an install arranged, and the files that it touched for that.
#[derive(Debug)]
pub struct ActivationOutcome {
    pub report: ActivationReport,
    pub affected_locations: Vec<FilePath>,
}

#[verifier::ext_equal]
pub struct ActivationOutcomeView {
    pub report: ActivationView,
    pub affected_locations: Seq<Seq<u8>>,
}

impl View for ActivationOutcome {
    type V = ActivationOutcomeView;

    open spec fn view(&self) -> ActivationOutcomeView {
        ActivationOutcomeView {
            report: self.report@,
            affected_locations: path_views(self.affected_locations@),
        }
    }
}

/// The cleanup that an uninstall did, and the files that it touched for that.
#[derive(Debug)]
pub struct CleanupOutcome {
    pub cleanup: CleanupReport,
    pub affected_locations: Vec<FilePath>,
}

#[verifier::ext_equal]
pub struct CleanupOutcomeView {
    pub cleanup: CleanupView,
    pub affected_locations: Seq<Seq<u8>>,
}

impl View for CleanupOutcome {
    type V = CleanupOutcomeView;

    open spec fn view(&self) -> CleanupOutcomeView {
        CleanupOutcomeView {
            cleanup: self.cleanup@,
            affected_locations: path_views(self.affected_locations@),
        }
    }
}

/// What a migration did to a startup file.
#[derive(Debug)]
pub struct MigrationOutcome {
    pub location: Option<FilePath>,
    pub managed_change: FileChange,
    pub legacy_change: FileChange,
    pub affected_locations: Vec<FilePath>,
}

#[verifier::ext_equal]
pub struct MigrationOutcomeView {
    pub location: Option<Seq<u8>>,
    pub managed_change: FileChange,
    pub legacy_change: FileChange,
    pub affected_locations: Seq<Seq<u8>>,
}

impl View for MigrationOutcome {
    type V = MigrationOutcomeView;

    open spec fn view(&self) -> MigrationOutcomeView {
        MigrationOutcomeView {
            location: opt_path(self.location),
            managed_change: self.managed_change,
            legacy_change: self.legacy_change,
            affected_locations: path_views(self.affected_locations@),
        }
    }
}

pub open spec fn activation_result(r: Result<ActivationOutcome, Error>) -> Result<
    ActivationOutcomeView,
    ErrorView,
> {
    match r {
        Ok(outcome) => Ok(outcome@),
        Err(error) => Err(error@),
    }
}

pub open spec fn cleanup_result(r: Result<CleanupOutcome, Error>) -> Result<
    CleanupOutcomeView,
    ErrorView,
> {
    match r {
        Ok(outcome) => Ok(outcome@),
        Err(error) => Err(error@),
    }
}

pub open spec fn migration_result(r: Result<MigrationOutcome, Error>) -> Result<
    MigrationOutcomeView,
    ErrorView,
> {
    match r {
        Ok(outcome) => Ok(outcome@),
        Err(error) => Err(error@),
    }
}

pub open spec fn report_result(r: Result<ActivationReport, Error>) -> Result<
    ActivationView,
    ErrorView,
> {
    match r {
        Ok(report) => Ok(report@),
        Err(error) => Err(error@),
    }
}

pub open spec fn block_result(r: Result<ManagedBlock, Error>) -> Result<BlockView, ErrorView> {
    match r {
        Ok(block) => Ok(block@),
        Err(error) => Err(error@),
    }
}

/// The markers of the library's block for a shell and a program.
pub open spec fn start_marker(shell: Seq<char>, name: Seq<char>) -> Seq<char> {
    "# >>> shellcomp "@ + shell + " "@ + name + " >>>"@
}

pub open spec fn end_marker(shell: Seq<char>, name: Seq<char>) -> Seq<char> {
    "# <<< shellcomp "@ + shell + " "@ + name + " <<<"@
}

/// The line at which the block of a program begins.
pub fn start_marker_of(shell: &str, name: &str) -> (r: String)
    ensures
        r@ == start_marker(shell@, name@),
{
    text::concat5("# >>> shellcomp ", shell, " ", name, " >>>")
}

/// The line at which the block of a program ends.
pub fn end_marker_of(shell: &str, name: &str) -> (r: String)
    ensures
        r@ == end_marker(shell@, name@),
{
    text::concat5("# <<< shellcomp ", shell, " ", name, " <<<")
}

/// An install that puts a block into a startup file and then reports.
pub open spec fn block_install(
    platform: Platform,
    d: DiskView,
    profile: Result<Seq<u8>, ErrorView>,
    block: Result<BlockView, ErrorView>,
    report: spec_fn(Seq<u8>) -> Result<ActivationView, ErrorView>,
) -> (DiskView, Result<ActivationOutcomeView, ErrorView>) {
    match (profile, block) {
        (Err(error), _) => (d, Err(error)),
        (Ok(_), Err(error)) => (d, Err(error)),
        (Ok(path), Ok(b)) => {
            let (after, change) = upserted(platform, d, path, b);
            match (change, report(path)) {
                (Err(error), _) => (after, Err(error)),
                (Ok(_), Err(error)) => (after, Err(error)),
                (Ok(_), Ok(activation)) => (
                    after,
                    Ok(
                        ActivationOutcomeView {
                            report: activation,
                            affected_locations: seq![path],
                        },
                    ),
                ),
            }
        },
    }
}

/// A cleanup that takes a block out of a startup file.
pub open spec fn block_cleanup(
    platform: Platform,
    d: DiskView,
    profile: Result<Seq<u8>, ErrorView>,
    block: Result<BlockView, ErrorView>,
    outcome: spec_fn(Seq<u8>, FileChange) -> CleanupOutcomeView,
) -> (DiskView, Result<CleanupOutcomeView, ErrorView>) {
    match (profile, block) {
        (Err(error), _) => (d, Err(error)),
        (Ok(_), Err(error)) => (d, Err(error)),
        (Ok(path), Ok(b)) => {
            let (after, change) = blocks_removed(platform, d, path, seq![b]);
            match change {
                Err(error) => (after, Err(error)),
                Ok(c) => (after, Ok(outcome(path, c))),
            }
        },
    }
}

/// The views of legacy blocks, which have no body of their own.
pub open spec fn legacy_views(blocks: Seq<LegacyManagedBlock>) -> Seq<BlockView> {
    blocks.map_values(
        |b: LegacyManagedBlock|
            BlockView {
                start_marker: b.start_marker@,
                end_marker: b.end_marker@,
                body: Seq::empty(),
            },
    )
}

/// A migration that replaces legacy blocks of a startup file by a block.
pub open spec fn block_migration(
    platform: Platform,
    d: DiskView,
    profile: Result<Seq<u8>, ErrorView>,
    block: Result<BlockView, ErrorView>,
    legacy: Seq<BlockView>,
) -> (DiskView, Result<MigrationOutcomeView, ErrorView>) {
    match (profile, block) {
        (Err(error), _) => (d, Err(error)),
        (Ok(_), Err(error)) => (d, Err(error)),
        (Ok(path), Ok(b)) => {
            let (after, changes) = blocks_migrated(platform, d, path, legacy, b);
            match changes {
                Err(error) => (after, Err(error)),
                Ok((legacy_change, managed_change)) => (
                    after,
                    Ok(
                        MigrationOutcomeView {
                            location: Some(path),
                            managed_change,
                            legacy_change,
                            affected_locations: seq![path],
                        },
                    ),
                ),
            }
        },
    }
}

/// Replaces legacy blocks of a startup file by a block.
pub fn migrate_profile_blocks(
    platform: Platform,
    disk: &mut Disk,
    profile: FilePath,
    legacy_blocks: &Vec<LegacyManagedBlock>,
    block: &ManagedBlock,
) -> (r: Result<MigrationOutcome, Error>)
    ensures
        (final(disk)@, migration_result(r)) == block_migration(
            platform,
            old(disk)@,
            Ok(profile@),
            Ok(block@),
            legacy_views(legacy_blocks@),
        ),
{
    let mut blocks: Vec<ManagedBlock> = Vec::new();
    let mut i: usize = 0;
    while i < legacy_blocks.len()
        invariant
            i <= legacy_blocks@.len(),
            blocks@.len() == i,
            forall|k: int|
                0 <= k < i ==> (#[trigger] blocks@[k])@ == legacy_views(legacy_blocks@)[k],
        decreases legacy_blocks.len() - i,
    {
        blocks.push(
            ManagedBlock {
                start_marker: text::copy(&legacy_blocks[i].start_marker),
                end_marker: text::copy(&legacy_blocks[i].end_marker),
                body: String::new(),
            },
        );
        i += 1;
    }
    assert(managed_block::block_views(blocks@) =~= legacy_views(legacy_blocks@));
    let (legacy_change, managed_change) = managed_block::migrate_blocks(
        platform,
        disk,
        &profile,
        &blocks,
        block,
    )?;
    Ok(
        MigrationOutcome {
            location: Some(profile.copy()),
            managed_change,
            legacy_change,
            affected_locations: one(profile),
        },
    )
}

/// The list with one path.
pub fn one(path: FilePath) -> (r: Vec<FilePath>)
    ensures
        path_views(r@) == seq![path@],
{
    let mut out: Vec<FilePath> = Vec::new();
    out.push(path);
    assert(path_views(out@) =~= seq![path@]);
    out
}

/// The list with two paths.
pub fn two(a: FilePath, b: FilePath) -> (r: Vec<FilePath>)
    ensures
        path_views(r@) == seq![a@, b@],
{
    let mut out: Vec<FilePath> = Vec::new();
    out.push(a);
    out.push(b);
    assert(path_views(out@) =~= seq![a@, b@]);
    out
}

/// The list without paths.
pub fn none() -> (r: Vec<FilePath>)
    ensures
        path_views(r@) == Seq::<Seq<u8>>::empty(),
{
    let out: Vec<FilePath> = Vec::new();
    assert(path_views(out@) =~= Seq::empty());
    out
}

} // verus!

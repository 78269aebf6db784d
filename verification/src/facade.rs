//! What the entry point of the program does in which order, and what it refuses.

use vstd::prelude::*;

use crate::error::Error;
use crate::import::state::Phase;
use crate::path;
use crate::text;
use crate::volume;

verus! {

// ---------------------------------------------------------------------------
// Imports
// ---------------------------------------------------------------------------

/// One step of an import.
#[derive(Debug, Clone, Copy, PartialEq, Eq, Structural)]
pub enum Step {
    /// Bring the local cache up to the bucket.
    Reconcile,
    /// Read the stored job.
    LoadJob,
    /// Read the options of the stored job; the defaults if there is none.
    LoadOptions,
    /// Scan, fingerprint and dedupe.
    Plan,
    /// Put interrupted and failed files back in line.
    PrepareForResume,
    /// Fingerprint files again that have changed.
    RefreshChangedFiles,
    Upload,
    /// Check the size of what was staged.
    Verify,
    /// Check the content of what was staged.
    DeepVerify,
    Commit,
    /// Put the committed entries into the local cache.
    StoreEntries,
    CaptureArtwork,
    /// Enter captured artwork in the bucket's manifest.
    AppendArtwork,
    PushIndex,
    SaveJob,
    WriteManifest,
}

/// A command on import jobs.
#[derive(Debug, Clone, Copy, PartialEq, Eq, Structural)]
pub enum ImportCommand {
    /// Plan a new job.
    Plan,
    /// Go on planning a job that was interrupted.
    ContinuePlan,
    /// Upload and verify.
    RunJob,
    /// Verify again, by content if `deep`.
    VerifyJob { deep: bool },
    /// Commit what was verified.
    CommitJob,
    /// Upload, verify and commit.
    Run,
}

/// The steps of a command, up to the manifest.
pub open spec fn core_steps(c: ImportCommand) -> Seq<Step> {
    match c {
        ImportCommand::Plan => seq![Step::Reconcile, Step::Plan, Step::SaveJob],
        ImportCommand::ContinuePlan => seq![
            Step::Reconcile,
            Step::LoadJob,
            Step::Plan,
            Step::SaveJob,
        ],
        ImportCommand::RunJob => seq![
            Step::LoadJob,
            Step::PrepareForResume,
            Step::RefreshChangedFiles,
            Step::Upload,
            Step::Verify,
            Step::SaveJob,
        ],
        ImportCommand::VerifyJob { deep } => seq![
            Step::LoadJob,
            if deep {
                Step::DeepVerify
            } else {
                Step::Verify
            },
            Step::SaveJob,
        ],
        ImportCommand::CommitJob => seq![
            Step::Reconcile,
            Step::LoadJob,
            Step::Commit,
            Step::StoreEntries,
            Step::CaptureArtwork,
            Step::AppendArtwork,
            Step::PushIndex,
            Step::SaveJob,
        ],
        ImportCommand::Run => seq![
            Step::Reconcile,
            Step::LoadOptions,
            Step::SaveJob,
            Step::PrepareForResume,
            Step::RefreshChangedFiles,
            Step::Upload,
            Step::Verify,
            Step::Commit,
            Step::StoreEntries,
            Step::CaptureArtwork,
            Step::AppendArtwork,
            Step::PushIndex,
            Step::SaveJob,
        ],
    }
}

/// The steps of a command. A manifest is written where there is a disk to write
/// it to.
pub open spec fn steps(c: ImportCommand, on_disk: bool) -> Seq<Step> {
    if on_disk {
        core_steps(c).push(Step::WriteManifest)
    } else {
        core_steps(c)
    }
}

/// The steps of a command.
pub fn import_steps(c: ImportCommand, on_disk: bool) -> (r: Vec<Step>)
    ensures
        r@ == steps(c, on_disk),
{
    let mut r: Vec<Step> = match c {
        ImportCommand::Plan => vec![Step::Reconcile, Step::Plan, Step::SaveJob],
        ImportCommand::ContinuePlan => vec![
            Step::Reconcile,
            Step::LoadJob,
            Step::Plan,
            Step::SaveJob,
        ],
        ImportCommand::RunJob => vec![
            Step::LoadJob,
            Step::PrepareForResume,
            Step::RefreshChangedFiles,
            Step::Upload,
            Step::Verify,
            Step::SaveJob,
        ],
        ImportCommand::VerifyJob { deep } => {
            let check = if deep {
                Step::DeepVerify
            } else {
                Step::Verify
            };
            vec![Step::LoadJob, check, Step::SaveJob]
        },
        ImportCommand::CommitJob => vec![
            Step::Reconcile,
            Step::LoadJob,
            Step::Commit,
            Step::StoreEntries,
            Step::CaptureArtwork,
            Step::AppendArtwork,
            Step::PushIndex,
            Step::SaveJob,
        ],
        ImportCommand::Run => vec![
            Step::Reconcile,
            Step::LoadOptions,
            Step::SaveJob,
            Step::PrepareForResume,
            Step::RefreshChangedFiles,
            Step::Upload,
            Step::Verify,
            Step::Commit,
            Step::StoreEntries,
            Step::CaptureArtwork,
            Step::AppendArtwork,
            Step::PushIndex,
            Step::SaveJob,
        ],
    };
    proof {
        assert(r@ =~= core_steps(c));
    }
    if on_disk {
        r.push(Step::WriteManifest);
    }
    r
}

/// The index is pushed only by a command that commits, and only after the commit
/// and after the committed entries are in the local cache.
pub proof fn law_index_is_pushed_after_commit(c: ImportCommand, on_disk: bool, i: int)
    requires
        0 <= i < steps(c, on_disk).len(),
        steps(c, on_disk)[i] == Step::PushIndex,
    ensures
        exists|j: int, k: int|
            0 <= j < k < i && #[trigger] steps(c, on_disk)[j] == Step::Commit
                && #[trigger] steps(c, on_disk)[k] == Step::StoreEntries,
{
    let all = steps(c, on_disk);
    match c {
        ImportCommand::CommitJob => {
            assert(all[2] == Step::Commit && all[3] == Step::StoreEntries);
        },
        ImportCommand::Run => {
            assert(all[7] == Step::Commit && all[8] == Step::StoreEntries);
        },
        _ => {},
    }
}

/// Whatever looks for duplicates in the archive has brought the local cache up to
/// the bucket first.
pub proof fn law_reconciles_before_looking_for_duplicates(
    c: ImportCommand,
    on_disk: bool,
    i: int,
)
    requires
        0 <= i < steps(c, on_disk).len(),
        steps(c, on_disk)[i] == Step::Plan || steps(c, on_disk)[i] == Step::Commit,
    ensures
        i > 0,
        steps(c, on_disk)[0] == Step::Reconcile,
{
}

/// Nothing is committed in the same run that uploads it unless it was verified in
/// between.
pub proof fn law_verifies_between_upload_and_commit(
    c: ImportCommand,
    on_disk: bool,
    i: int,
    j: int,
)
    requires
        0 <= i < steps(c, on_disk).len(),
        0 <= j < steps(c, on_disk).len(),
        steps(c, on_disk)[i] == Step::Upload,
        steps(c, on_disk)[j] == Step::Commit,
    ensures
        exists|k: int| i < k < j && #[trigger] steps(c, on_disk)[k] == Step::Verify,
{
    let all = steps(c, on_disk);
    assert(c is Run);
    assert(all[6] == Step::Verify);
}

/// Before anything is uploaded, interrupted files are put back in line and files that
/// have changed are fingerprinted again, in this order.
pub proof fn law_files_are_refreshed_before_upload(c: ImportCommand, on_disk: bool, i: int)
    requires
        0 <= i < steps(c, on_disk).len(),
        steps(c, on_disk)[i] == Step::Upload,
    ensures
        i >= 2,
        steps(c, on_disk)[i - 1] == Step::RefreshChangedFiles,
        steps(c, on_disk)[i - 2] == Step::PrepareForResume,
        steps(c, on_disk)[i + 1] == Step::Verify,
{
}

/// What was committed goes into the cache, then its artwork into the bucket and into
/// the manifest, and then the index is pushed.
pub proof fn law_commit_is_carried_through(c: ImportCommand, on_disk: bool, i: int)
    requires
        0 <= i < steps(c, on_disk).len(),
        steps(c, on_disk)[i] == Step::Commit,
    ensures
        i + 5 < steps(c, on_disk).len(),
        steps(c, on_disk)[i + 1] == Step::StoreEntries,
        steps(c, on_disk)[i + 2] == Step::CaptureArtwork,
        steps(c, on_disk)[i + 3] == Step::AppendArtwork,
        steps(c, on_disk)[i + 4] == Step::PushIndex,
        steps(c, on_disk)[i + 5] == Step::SaveJob,
{
}

/// Each command does what it is there for: it plans, uploads and verifies, verifies by
/// size or by content as asked, commits, or does all of it after planning. A command on
/// a stored job reads the job first.
pub proof fn law_command_does_what_it_says(c: ImportCommand)
    ensures
        core_steps(c).contains(Step::Plan) <==> c is Plan || c is ContinuePlan,
        core_steps(c).contains(Step::Upload) <==> c is RunJob || c is Run,
        core_steps(c).contains(Step::Commit) <==> c is CommitJob || c is Run,
        core_steps(c).contains(Step::DeepVerify) <==> (c matches ImportCommand::VerifyJob { deep }
            && deep),
        core_steps(c).contains(Step::Verify) <==> c is RunJob || c is Run || (
        c matches ImportCommand::VerifyJob { deep } && !deep),
        core_steps(c).contains(Step::LoadJob) <==> c is ContinuePlan || c is RunJob
            || c is VerifyJob || c is CommitJob,
        core_steps(c).contains(Step::LoadOptions) <==> c is Run,
{
    let s = core_steps(c);
    match c {
        ImportCommand::Plan => {
            assert(s[1] == Step::Plan);
        },
        ImportCommand::ContinuePlan => {
            assert(s[1] == Step::LoadJob);
            assert(s[2] == Step::Plan);
        },
        ImportCommand::RunJob => {
            assert(s[0] == Step::LoadJob);
            assert(s[3] == Step::Upload);
            assert(s[4] == Step::Verify);
        },
        ImportCommand::VerifyJob { deep } => {
            assert(s[0] == Step::LoadJob);
            assert(s[1] == (if deep {
                Step::DeepVerify
            } else {
                Step::Verify
            }));
        },
        ImportCommand::CommitJob => {
            assert(s[1] == Step::LoadJob);
            assert(s[2] == Step::Commit);
        },
        ImportCommand::Run => {
            assert(s[1] == Step::LoadOptions);
            assert(s[5] == Step::Upload);
            assert(s[6] == Step::Verify);
            assert(s[7] == Step::Commit);
        },
    }
}

/// Every command leaves the job saved.
pub proof fn law_job_is_saved_last(c: ImportCommand, on_disk: bool)
    ensures
        core_steps(c).last() == Step::SaveJob,
        steps(c, on_disk).last() == (if on_disk {
            Step::WriteManifest
        } else {
            Step::SaveJob
        }),
{
}

/// The commands that resume a job: one that was interrupted while it was planned
/// is planned to the end first.
pub fn resume_commands(phase: Phase) -> (r: Vec<ImportCommand>)
    ensures
        r@ == (if phase is Fingerprint {
            seq![ImportCommand::ContinuePlan, ImportCommand::RunJob]
        } else {
            seq![ImportCommand::RunJob]
        }),
{
    let r = match phase {
        Phase::Fingerprint => vec![ImportCommand::ContinuePlan, ImportCommand::RunJob],
        _ => vec![ImportCommand::RunJob],
    };
    proof {
        if phase is Fingerprint {
            assert(r@ =~= seq![ImportCommand::ContinuePlan, ImportCommand::RunJob]);
        } else {
            assert(r@ =~= seq![ImportCommand::RunJob]);
        }
    }
    r
}

/// The commands of an import from start to end.
pub fn full_import_commands() -> (r: Vec<ImportCommand>)
    ensures
        r@ == seq![ImportCommand::Plan, ImportCommand::RunJob, ImportCommand::CommitJob],
{
    let r = vec![ImportCommand::Plan, ImportCommand::RunJob, ImportCommand::CommitJob];
    proof {
        assert(r@ =~= seq![ImportCommand::Plan, ImportCommand::RunJob, ImportCommand::CommitJob]);
    }
    r
}

/// Whether a home is a folder on disk.
pub fn is_on_disk(home: &str) -> (r: bool)
    ensures
        r == !volume::is_in_memory(home@),
{
    !path::same_path(home, volume::MEMORY_HOME)
}

// ---------------------------------------------------------------------------
// Refusals
// ---------------------------------------------------------------------------

/// Which tracks a command on a volume is about.
#[derive(Debug, Clone, PartialEq, Eq)]
pub enum Selection {
    Playlist(String),
    Query,
}

/// Chooses the tracks of a command on a volume. A playlist counts before query
/// filters, and one of them has to be given.
pub fn select_tracks(command: &str, playlist: &Option<String>, has_query: bool) -> (r: Result<
    Selection,
    Error,
>)
    ensures
        match *playlist {
            Some(name) => r matches Ok(Selection::Playlist(n)) && n@ == name@,
            None => if has_query {
                r == Ok::<Selection, Error>(Selection::Query)
            } else {
                r matches Err(Error::Other(m)) && m@ == command@
                    + " requires --playlist or query filters"@
            },
        },
{
    match playlist {
        Some(name) => Ok(Selection::Playlist(name.clone())),
        None => {
            if has_query {
                Ok(Selection::Query)
            } else {
                Err(Error::Other(text::cat2(command, " requires --playlist or query filters")))
            }
        },
    }
}

/// The library root, which has to be declared.
pub fn require_root(root: &Option<String>) -> (r: Result<String, Error>)
    ensures
        match *root {
            Some(p) => r matches Ok(s) && s@ == p@,
            None => r matches Err(Error::Config(m)) && m@
                == "no library root declared \u{2014} set one with `trove library root --set <path>` first"@,
        },
{
    match root {
        Some(p) => Ok(p.clone()),
        None => Err(
            Error::Config(
                "no library root declared \u{2014} set one with `trove library root --set <path>` first".to_owned(),
            ),
        ),
    }
}

/// The sync job to go on with, which has to exist.
pub fn require_sync_job<T>(found: Option<T>) -> (r: Result<T, Error>)
    ensures
        match found {
            Some(j) => r == Ok::<T, Error>(j),
            None => r matches Err(Error::NotFound(m)) && m@ == "active sync job"@,
        },
{
    match found {
        Some(j) => Ok(j),
        None => Err(Error::NotFound("active sync job".to_owned())),
    }
}

} // verus!

//! Import jobs and their files.

use vstd::prelude::*;

use crate::error::Error;
use crate::import::job;
use crate::import::job::{
    ArtworkCandidate, ImportJob, ImportOptions, ImportStats, PlannedFile,
};
use crate::import::state;
use crate::import::state::{FileState, Phase};
use crate::model::{Timestamp, TrackId};
use crate::text;
use crate::time;

verus! {

/// A job in a list of jobs.
#[derive(Debug, Clone, PartialEq, Eq)]
pub struct ImportJobSummary {
    pub id: String,
    pub source_root: String,
    pub phase: Phase,
    pub total_files: usize,
    pub stats: ImportStats,
    pub created_at: Timestamp,
    pub updated_at: Timestamp,
}

/// The status of one job.
#[derive(Debug, Clone, PartialEq, Eq)]
pub struct ImportStatusReport {
    pub id: String,
    pub source_root: String,
    pub phase: Phase,
    pub stats: ImportStats,
    pub created_at: Timestamp,
    pub updated_at: Timestamp,
}

/// A file of a job, as the database holds it.
#[derive(Debug, Clone, PartialEq, Eq)]
pub struct StoredFile {
    pub path: String,
    pub size: i64,
    pub mtime: Option<String>,
    pub sha256: String,
    pub state: String,
    pub object_key: Option<String>,
    pub track_id: Option<String>,
    pub etag: Option<String>,
    pub error: Option<String>,
    pub attempts: i64,
}

/// A job, as the database holds it.
#[derive(Debug, Clone, PartialEq, Eq)]
pub struct StoredJob {
    pub source_root: String,
    pub phase: String,
    pub staging_prefix: String,
    pub include_dotfiles: i32,
    pub capture_artwork: i32,
}

/// What a stored state stands for. A name that there is none of counts as a
/// failure.
pub open spec fn is_state_of(state: FileState, name: Seq<char>) -> bool {
    if exists|s: FileState| #[trigger] s.name() == name {
        state.name() == name
    } else {
        state is Failed
    }
}

/// Whether a file is what a row holds.
pub open spec fn is_file_of(f: PlannedFile, row: StoredFile) -> bool {
    &&& f.path == row.path
    &&& f.size == row.size as u64
    &&& f.mtime == row.mtime
    &&& f.sha256 == row.sha256
    &&& is_state_of(f.state, row.state@)
    &&& f.object_key == row.object_key
    &&& f.track_id == match row.track_id {
        Some(t) => Some(TrackId(t)),
        None => None,
    }
    &&& f.etag == row.etag
    &&& f.error == row.error
    &&& f.attempts == row.attempts as u32
    &&& f.duplicate_reason is None
}

/// Reads a file of a job.
pub fn row_to_planned_file(row: StoredFile) -> (r: PlannedFile)
    ensures
        is_file_of(r, row),
{
    let state = match FileState::parse(row.state.as_str()) {
        Some(s) => {
            assert(s.name() == row.state@);
            s
        },
        None => FileState::Failed,
    };
    PlannedFile {
        path: row.path,
        size: row.size as u64,
        mtime: row.mtime,
        sha256: row.sha256,
        state,
        object_key: row.object_key,
        track_id: match row.track_id {
            Some(t) => Some(TrackId(t)),
            None => None,
        },
        etag: row.etag,
        error: row.error,
        attempts: row.attempts as u32,
        duplicate_reason: None,
    }
}

/// Writes a file of a job.
pub fn planned_file_to_row(f: &PlannedFile) -> (r: StoredFile)
    ensures
        r.state@ == f.state.name(),
        is_file_of(
            (PlannedFile { duplicate_reason: None, ..*f }),
            r,
        ),
{
    let size: u64 = f.size;
    let attempts: u32 = f.attempts;
    proof {
        assert((size as i64) as u64 == size) by (bit_vector);
        assert((attempts as i64) as u32 == attempts) by (bit_vector);
        assert(f.state.name() == f.state.name());
    }
    StoredFile {
        path: f.path.clone(),
        size: size as i64,
        mtime: text::copy_opt(&f.mtime),
        sha256: f.sha256.clone(),
        state: f.state.as_str().to_owned(),
        object_key: text::copy_opt(&f.object_key),
        track_id: match &f.track_id {
            Some(t) => Some(t.0.clone()),
            None => None,
        },
        etag: text::copy_opt(&f.etag),
        error: text::copy_opt(&f.error),
        attempts: attempts as i64,
    }
}

/// A stored file is read with every field as it stands in its row. A state that is not
/// known counts as failed.
pub proof fn law_stored_file_is_read_field_by_field(f: PlannedFile, row: StoredFile, s: FileState)
    requires
        is_file_of(f, row),
    ensures
        f.path == row.path,
        f.sha256 == row.sha256,
        f.size == row.size as u64,
        f.mtime == row.mtime,
        f.object_key == row.object_key,
        f.etag == row.etag,
        f.error == row.error,
        f.attempts == row.attempts as u32,
        f.track_id is Some <==> row.track_id is Some,
        f.track_id is Some ==> (f.track_id->0).0 == row.track_id->0,
        row.state@ == s.name() ==> f.state == s,
        (forall|t: FileState| #[trigger] t.name() != row.state@) ==> f.state is Failed,
{
    if row.state@ == s.name() {
        assert(f.state.name() == s.name());
        state::law_file_state_names_distinct(f.state, s);
    }
}

/// A file that was written and read back is the same file: a resumed job takes
/// up its files as they were left.
pub proof fn law_stored_file_reads_back(f: PlannedFile, row: StoredFile, g: PlannedFile)
    requires
        is_file_of(PlannedFile { duplicate_reason: None, ..f }, row),
        is_file_of(g, row),
    ensures
        g == (PlannedFile { duplicate_reason: None, ..f }),
{
    let h = PlannedFile { duplicate_reason: None, ..f };
    if exists|s: FileState| #[trigger] s.name() == row.state@ {
        crate::import::state::law_file_state_names_distinct(h.state, g.state);
    }
}

/// The files that rows hold.
fn rows_to_files(rows: Vec<StoredFile>) -> (r: Vec<PlannedFile>)
    ensures
        r@.len() == rows@.len(),
        forall|i: int| 0 <= i < rows@.len() ==> is_file_of(#[trigger] r@[i], rows@[i]),
{
    let mut r: Vec<PlannedFile> = Vec::new();
    let mut i: usize = 0;
    while i < rows.len()
        invariant
            i <= rows@.len(),
            r@.len() == i,
            forall|k: int| 0 <= k < i ==> is_file_of(#[trigger] r@[k], rows@[k]),
        decreases rows@.len() - i,
    {
        let row = copy_row(&rows[i]);
        r.push(row_to_planned_file(row));
        i = i + 1;
    }
    r
}

fn copy_row(row: &StoredFile) -> (r: StoredFile)
    ensures
        r == *row,
{
    StoredFile {
        path: row.path.clone(),
        size: row.size,
        mtime: text::copy_opt(&row.mtime),
        sha256: row.sha256.clone(),
        state: row.state.clone(),
        object_key: text::copy_opt(&row.object_key),
        track_id: text::copy_opt(&row.track_id),
        etag: text::copy_opt(&row.etag),
        error: text::copy_opt(&row.error),
        attempts: row.attempts,
    }
}

/// Puts a stored job together.
///
/// Fails with `NotFound` if there is no such job, else with `Other` if its phase
/// is not one, else with what is wrong with its artwork, and only then.
pub fn load_job(
    id: &str,
    row: Option<StoredJob>,
    files: Vec<StoredFile>,
    artwork: Result<Vec<ArtworkCandidate>, Error>,
) -> (r: Result<(ImportJob, ImportOptions), Error>)
    ensures
        match row {
            None => r matches Err(Error::NotFound(m)) && m@ == "import job '"@ + id@ + "'"@,
            Some(j) => match r {
                Ok((job, options)) => {
                    &&& job.id@ == id@
                    &&& job.source_root == j.source_root
                    &&& job.staging_prefix == j.staging_prefix
                    &&& job.phase.name() == j.phase@
                    &&& artwork == Ok::<Vec<ArtworkCandidate>, Error>(job.artwork)
                    &&& job.files@.len() == files@.len()
                    &&& forall|i: int|
                        0 <= i < files@.len() ==> is_file_of(#[trigger] job.files@[i], files@[i])
                    &&& options.include_dotfiles == (j.include_dotfiles != 0)
                    &&& options.capture_artwork == (j.capture_artwork != 0)
                    &&& options.artwork_paths@.len() == 0
                },
                Err(e) => if forall|p: Phase| #[trigger] p.name() != j.phase@ {
                    e matches Error::Other(m) && m@ == "invalid phase '"@ + j.phase@
                        + "' for job "@ + id@
                } else {
                    artwork == Err::<Vec<ArtworkCandidate>, Error>(e)
                },
            },
        },
{
    let j = match row {
        Some(j) => j,
        None => {
            return Err(Error::NotFound(text::cat3("import job '", id, "'")));
        },
    };
    let phase = match Phase::parse(j.phase.as_str()) {
        Some(p) => {
            assert(p.name() == j.phase@);
            p
        },
        None => {
            return Err(
                Error::Other(text::cat4("invalid phase '", j.phase.as_str(), "' for job ", id)),
            );
        },
    };
    let artwork = match artwork {
        Ok(list) => list,
        Err(e) => {
            return Err(e);
        },
    };
    let options = ImportOptions {
        include_dotfiles: j.include_dotfiles != 0,
        capture_artwork: j.capture_artwork != 0,
        artwork_paths: Vec::new(),
    };
    let job = ImportJob {
        id: id.to_owned(),
        source_root: j.source_root,
        staging_prefix: j.staging_prefix,
        phase,
        files: rows_to_files(files),
        artwork,
    };
    Ok((job, options))
}

/// How often a name occurs.
pub open spec fn count_name(names: Seq<Seq<char>>, wanted: Seq<char>) -> nat
    decreases names.len(),
{
    if names.len() == 0 {
        0
    } else {
        count_name(names.drop_last(), wanted) + (if names.last() == wanted {
            1nat
        } else {
            0nat
        })
    }
}

/// Whether stats are those of files with the given stored states.
pub open spec fn counts_names(stats: ImportStats, names: Seq<Seq<char>>) -> bool {
    &&& stats.total == names.len()
    &&& stats.duplicates == count_name(names, "duplicate"@)
    &&& stats.uploaded == count_name(names, "uploaded"@)
    &&& stats.verified == count_name(names, "verified"@)
    &&& stats.committed == count_name(names, "committed"@)
    &&& stats.failed == count_name(names, "failed"@)
}

proof fn lemma_count_name_bound(names: Seq<Seq<char>>, wanted: Seq<char>)
    ensures
        count_name(names, wanted) <= names.len(),
    decreases names.len(),
{
    if names.len() > 0 {
        lemma_count_name_bound(names.drop_last(), wanted);
    }
}

/// The names of the counted states differ from each other.
proof fn lemma_counted_names_differ()
    ensures
        "duplicate"@ != "uploaded"@,
        "duplicate"@ != "verified"@,
        "duplicate"@ != "committed"@,
        "duplicate"@ != "failed"@,
        "uploaded"@ != "verified"@,
        "uploaded"@ != "committed"@,
        "uploaded"@ != "failed"@,
        "verified"@ != "committed"@,
        "verified"@ != "failed"@,
        "committed"@ != "failed"@,
{
    reveal_strlit("duplicate");
    reveal_strlit("uploaded");
    reveal_strlit("verified");
    reveal_strlit("committed");
    reveal_strlit("failed");
    assert("duplicate"@[0] == 'd');
    assert("committed"@[0] == 'c');
    assert("uploaded"@[0] == 'u');
    assert("verified"@[0] == 'v');
    assert("failed"@[0] == 'f');
}

proof fn lemma_count_name(list: Seq<FileState>, wanted: FileState)
    ensures
        count_name(list.map_values(|s: FileState| s.name()), wanted.name()) == job::count_state(
            list,
            wanted,
        ),
    decreases list.len(),
{
    let names = list.map_values(|s: FileState| s.name());
    if list.len() > 0 {
        let front = list.drop_last();
        lemma_count_name(front, wanted);
        assert(names.drop_last() =~= front.map_values(|s: FileState| s.name()));
        if list.last().name() == wanted.name() {
            state::law_file_state_names_distinct(list.last(), wanted);
        }
    }
}

/// Stored files are counted as the files of a job are: by the state that each is in.
pub proof fn law_stored_files_are_counted_by_state(stats: ImportStats, list: Seq<FileState>)
    ensures
        counts_names(stats, list.map_values(|s: FileState| s.name())) == job::counts(stats, list),
{
    lemma_count_name(list, FileState::Duplicate);
    lemma_count_name(list, FileState::Uploaded);
    lemma_count_name(list, FileState::Verified);
    lemma_count_name(list, FileState::Committed);
    lemma_count_name(list, FileState::Failed);
}

/// Counts the files of a job by their stored states.
pub fn file_stats(names: &Vec<String>) -> (s: ImportStats)
    ensures
        counts_names(s, text::views(names@)),
{
    let mut s = ImportStats::default();
    let mut i: usize = 0;
    let ghost all = text::views(names@);
    proof {
        assert(all.take(0) =~= Seq::<Seq<char>>::empty());
        lemma_counted_names_differ();
    }
    while i < names.len()
        invariant
            i <= names@.len(),
            all == text::views(names@),
            counts_names(s, all.take(i as int)),
            "duplicate"@ != "uploaded"@,
            "duplicate"@ != "verified"@,
            "duplicate"@ != "committed"@,
            "duplicate"@ != "failed"@,
            "uploaded"@ != "verified"@,
            "uploaded"@ != "committed"@,
            "uploaded"@ != "failed"@,
            "verified"@ != "committed"@,
            "verified"@ != "failed"@,
            "committed"@ != "failed"@,
        decreases names@.len() - i,
    {
        let name = names[i].as_str();
        proof {
            assert(all.take(i + 1).drop_last() =~= all.take(i as int));
            assert(all.take(i + 1).last() == name@);
            lemma_count_name_bound(all.take(i as int), "duplicate"@);
            lemma_count_name_bound(all.take(i as int), "uploaded"@);
            lemma_count_name_bound(all.take(i as int), "verified"@);
            lemma_count_name_bound(all.take(i as int), "committed"@);
            lemma_count_name_bound(all.take(i as int), "failed"@);
        }
        s.total = s.total + 1;
        if text::same(name, "duplicate") {
            s.duplicates = s.duplicates + 1;
        } else if text::same(name, "uploaded") {
            s.uploaded = s.uploaded + 1;
        } else if text::same(name, "verified") {
            s.verified = s.verified + 1;
        } else if text::same(name, "committed") {
            s.committed = s.committed + 1;
        } else if text::same(name, "failed") {
            s.failed = s.failed + 1;
        }
        i = i + 1;
    }
    proof {
        assert(all.take(names@.len() as int) =~= all);
    }
    s
}

/// The head of a job, as the database holds it.
#[derive(Debug, Clone, PartialEq, Eq)]
pub struct StoredSummary {
    pub id: String,
    pub source_root: String,
    pub phase: String,
    pub total_files: usize,
    pub created_at: String,
    pub updated_at: String,
}

/// Whether the head of a job can be read.
pub open spec fn is_readable(row: StoredSummary) -> bool {
    &&& exists|p: Phase| #[trigger] p.name() == row.phase@
    &&& time::rfc3339_reading(row.created_at@) is Ok
    &&& time::rfc3339_reading(row.updated_at@) is Ok
}

/// Reads the head of a job. Fails exactly on a phase that is not one and on
/// times that cannot be read; the phase comes first, then the time of making,
/// then that of the last change.
pub fn row_to_summary(row: StoredSummary, stats: ImportStats) -> (r: Result<ImportJobSummary, Error>)
    ensures
        r is Ok <==> is_readable(row),
        match r {
            Ok(j) => {
                &&& j.id == row.id
                &&& j.source_root == row.source_root
                &&& j.phase.name() == row.phase@
                &&& j.total_files == row.total_files
                &&& j.stats == stats
                &&& time::rfc3339_reading(row.created_at@) == Ok::<(i64, u32), Seq<char>>(
                    (j.created_at.secs, j.created_at.nanos),
                )
                &&& time::rfc3339_reading(row.updated_at@) == Ok::<(i64, u32), Seq<char>>(
                    (j.updated_at.secs, j.updated_at.nanos),
                )
            },
            Err(e) => e matches Error::Other(m) && if forall|p: Phase| #[trigger]
                p.name() != row.phase@ {
                m@ == "invalid phase '"@ + row.phase@ + "'"@
            } else {
                match time::rfc3339_reading(row.created_at@) {
                    Err(why) => m@ == time::bad_moment(row.created_at@, why),
                    Ok(_) => time::rfc3339_reading(row.updated_at@) matches Err(why) && m@
                        == time::bad_moment(row.updated_at@, why),
                }
            },
        },
{
    let phase = match Phase::parse(row.phase.as_str()) {
        Some(p) => {
            assert(p.name() == row.phase@);
            p
        },
        None => {
            return Err(Error::Other(text::cat3("invalid phase '", row.phase.as_str(), "'")));
        },
    };
    let created_at = match time::parse_ts(row.created_at.as_str()) {
        Ok(t) => t,
        Err(e) => {
            return Err(e);
        },
    };
    let updated_at = match time::parse_ts(row.updated_at.as_str()) {
        Ok(t) => t,
        Err(e) => {
            return Err(e);
        },
    };
    Ok(
        ImportJobSummary {
            id: row.id,
            source_root: row.source_root,
            phase,
            total_files: row.total_files,
            stats,
            created_at,
            updated_at,
        },
    )
}

/// The status report of a job.
pub fn status_report(job: ImportJobSummary) -> (r: ImportStatusReport)
    ensures
        r.id == job.id,
        r.source_root == job.source_root,
        r.phase == job.phase,
        r.stats == job.stats,
        r.created_at == job.created_at,
        r.updated_at == job.updated_at,
{
    ImportStatusReport {
        id: job.id,
        source_root: job.source_root,
        phase: job.phase,
        stats: job.stats,
        created_at: job.created_at,
        updated_at: job.updated_at,
    }
}

} // verus!

//! The local manifest of a job: what it is about, for anyone who looks.

use vstd::prelude::*;

use crate::import::job::{ImportJob, PlannedFile};
use crate::import::state::{FileState, Phase};
use crate::model::Timestamp;
use crate::path;
use crate::text;

verus! {

/// The manifest of a job.
#[derive(Debug, Clone, PartialEq, Eq)]
pub struct ImportManifest {
    pub job_id: String,
    pub source_root: String,
    pub phase: Phase,
    pub files: Vec<ImportManifestFile>,
    pub written_at: Timestamp,
}

/// One file of a manifest.
#[derive(Debug, Clone, PartialEq, Eq)]
pub struct ImportManifestFile {
    pub path: String,
    pub sha256: String,
    pub state: FileState,
    pub object_key: Option<String>,
}

/// What a manifest says of a file.
pub open spec fn manifest_file(f: PlannedFile) -> ImportManifestFile {
    ImportManifestFile {
        path: f.path,
        sha256: f.sha256,
        state: f.state,
        object_key: f.object_key,
    }
}

/// The manifest says of each file of a job where it came from, what it holds, how far
/// it got, and where it is stored.
pub proof fn law_manifest_repeats_the_job(files: Seq<PlannedFile>, i: int)
    requires
        0 <= i < files.len(),
    ensures
        ({
            let all = files.map_values(|f: PlannedFile| manifest_file(f));
            &&& all.len() == files.len()
            &&& all[i].path == files[i].path
            &&& all[i].sha256 == files[i].sha256
            &&& all[i].state == files[i].state
            &&& all[i].object_key == files[i].object_key
        }),
{
}

/// The manifest of a job.
pub fn manifest_of(job: &ImportJob, now: Timestamp) -> (r: ImportManifest)
    ensures
        r.job_id@ == job.id@,
        r.source_root@ == job.source_root@,
        r.phase == job.phase,
        r.files@ == job.files@.map_values(|f: PlannedFile| manifest_file(f)),
        r.written_at == now,
{
    let mut files: Vec<ImportManifestFile> = Vec::new();
    let mut i: usize = 0;
    while i < job.files.len()
        invariant
            i <= job.files@.len(),
            files@.len() == i,
            forall|k: int| 0 <= k < i ==> files@[k] == manifest_file(job.files@[k]),
        decreases job.files@.len() - i,
    {
        let f: &PlannedFile = &job.files[i];
        files.push(
            ImportManifestFile {
                path: f.path.clone(),
                sha256: f.sha256.clone(),
                state: f.state,
                object_key: text::copy_opt(&f.object_key),
            },
        );
        i = i + 1;
    }
    proof {
        assert(files@ =~= job.files@.map_values(|f: PlannedFile| manifest_file(f)));
    }
    ImportManifest {
        job_id: job.id.clone(),
        source_root: job.source_root.clone(),
        phase: job.phase,
        files,
        written_at: now,
    }
}

/// Where the manifest of a job stands.
pub fn manifest_path(home: &str, job_id: &str) -> (r: String)
    ensures
        r@ == path::join(path::join(home@, "cache/manifests"@), job_id@ + ".json"@),
{
    let dir = path::join_path(home, "cache/manifests");
    let name = text::cat2(job_id, ".json");
    path::join_path(dir.as_str(), name.as_str())
}

} // verus!

//! The upload phase: every new file is put under the job's staging prefix.

use vstd::prelude::*;

use crate::archive::index::BucketPaths;
use crate::error::Error;
use crate::import::job;
use crate::import::job::{ImportJob, PlannedFile};
use crate::import::phase;
use crate::import::phase::PhaseRun;
use crate::import::state::{FileState, Phase};
use crate::path;
use crate::store::api::ObjectMeta;
use crate::text;

verus! {

/// Whether a file was uploaded, with this reply from the store.
pub open spec fn is_uploaded(
    new: PlannedFile,
    f: PlannedFile,
    meta: ObjectMeta,
    attempts: u32,
) -> bool {
    &&& new.object_key == Some(meta.key)
    &&& new.etag == meta.etag
    &&& new.state is Uploaded
    &&& new.error is None
    &&& new.attempts == attempts
    &&& same_source(new, f)
    &&& new.track_id == f.track_id
}

/// Whether the upload of a file failed, with this error.
pub open spec fn is_failed(new: PlannedFile, f: PlannedFile, e: Error, attempts: u32) -> bool {
    &&& new.state is Failed
    &&& text::opt_view(new.error) == Some(e.shown())
    &&& new.attempts == attempts
    &&& same_source(new, f)
    &&& new.object_key == f.object_key
    &&& new.etag == f.etag
    &&& new.track_id == f.track_id
}

/// Whether a file is the same one as far as its source goes.
pub open spec fn same_source(a: PlannedFile, b: PlannedFile) -> bool {
    &&& a.path == b.path
    &&& a.size == b.size
    &&& a.mtime == b.mtime
    &&& a.sha256 == b.sha256
    &&& a.duplicate_reason == b.duplicate_reason
}

/// What an upload makes of a file: uploaded, with the key it went to, or
/// failed, with the reason.
pub open spec fn upload_outcome() -> spec_fn(PlannedFile, PlannedFile) -> bool {
    |f: PlannedFile, new: PlannedFile|
        {
            &&& same_source(new, f)
            &&& new.track_id == f.track_id
            &&& {
                ||| new.state is Uploaded && new.object_key is Some && new.error is None
                ||| new.state is Failed && new.error is Some && new.object_key == f.object_key
            }
        }
}

/// The key that a file is staged under.
pub open spec fn staging_key(paths: BucketPaths, job_id: Seq<char>, f: PlannedFile) -> Seq<char> {
    paths.staging_prefix(job_id) + "/"@ + (f.sha256@ + "/"@ + job::name_or(f.path@, "object"@))
}

/// A file is staged under the job's own prefix, in a folder named after its hash, under
/// its own name: no two jobs and no two contents ever share a key.
pub proof fn law_staged_under_job_and_hash(
    paths: BucketPaths,
    job_id: Seq<char>,
    f: PlannedFile,
    dir: Seq<char>,
    name: Seq<char>,
)
    requires
        f.path@ == dir.push('/') + name,
        path::is_name(name),
    ensures
        staging_key(paths, job_id, f) == paths.prefix_text() + "/staging/"@ + job_id + "/"@
            + f.sha256@ + "/"@ + name,
{
    path::law_last_name_stands_behind_the_separator(dir, name);
    assert(staging_key(paths, job_id, f) =~= paths.prefix_text() + "/staging/"@ + job_id + "/"@
        + f.sha256@ + "/"@ + name);
}

/// An upload that went through leaves the file uploaded, under the key that the store
/// gave it; one that failed leaves it failed, with the reason, and to be tried again
/// when the job is resumed. Either way it is the same file with the same content.
pub proof fn law_upload_leaves_key_or_reason(
    new: PlannedFile,
    f: PlannedFile,
    meta: ObjectMeta,
    e: Error,
    attempts: u32,
)
    ensures
        is_uploaded(new, f, meta, attempts) ==> {
            &&& new.state is Uploaded
            &&& new.object_key == Some(meta.key)
            &&& new.error is None
            &&& new.path == f.path && new.sha256 == f.sha256 && new.size == f.size
        },
        is_failed(new, f, e, attempts) ==> {
            &&& new.state is Failed
            &&& new.error is Some && new.error->0@ == e.shown()
            &&& new.path == f.path && new.sha256 == f.sha256 && new.size == f.size
            &&& job::resumed(new).state is Hashed
        },
{
}

/// An upload phase in progress.
pub struct UploadRun {
    run: PhaseRun,
}

impl UploadRun {
    pub closed spec fn wf(self) -> bool {
        &&& self.run.wf()
        &&& self.run.wants() is Hashed
        &&& self.run.allows() == upload_outcome()
        &&& self.run.phase() is Upload
        &&& self.run.is_busy() ==> self.run.now()[self.run.at()] == (PlannedFile {
            state: FileState::Uploading,
            ..self.run.begun().files@[self.run.at()]
        })
    }

    /// The job as the phase found it.
    pub closed spec fn begun(self) -> ImportJob {
        self.run.begun()
    }

    /// The place of the file that is being uploaded.
    pub closed spec fn at(self) -> int {
        self.run.at()
    }

    /// Whether a file is being uploaded.
    pub closed spec fn is_busy(self) -> bool {
        self.run.is_busy()
    }

    /// The files as they are now.
    pub closed spec fn now(self) -> Seq<PlannedFile> {
        self.run.now()
    }

    /// Starts the phase.
    pub fn begin(job: ImportJob) -> (r: UploadRun)
        ensures
            r.wf(),
            r.begun() == job,
            r.at() == 0,
            !r.is_busy(),
            r.now() == job.files@,
    {
        UploadRun {
            run: PhaseRun::begin(job, Phase::Upload, FileState::Hashed, Ghost(upload_outcome())),
        }
    }

    /// Takes up the next new file and marks it as being uploaded. The result is
    /// the key that it has to be put under; `None` if no new file is left.
    pub fn next_upload(&mut self, paths: &BucketPaths) -> (r: Option<String>)
        requires
            old(self).wf(),
            !old(self).is_busy(),
        ensures
            final(self).wf(),
            final(self).begun() == old(self).begun(),
            match r {
                Some(key) => {
                    let i = final(self).at();
                    let f = final(self).begun().files@[i];
                    &&& final(self).is_busy()
                    &&& old(self).at() <= i < old(self).now().len()
                    &&& f.state is Hashed
                    &&& key@ == staging_key(*paths, final(self).begun().id@, f)
                    &&& final(self).now() == old(self).now().update(
                        i,
                        PlannedFile { state: FileState::Uploading, ..f },
                    )
                    &&& forall|k: int|
                        old(self).at() <= k < i ==> !((#[trigger] final(self).begun().files@[k]).state is Hashed)
                },
                None => {
                    &&& !final(self).is_busy()
                    &&& final(self).at() == final(self).now().len()
                    &&& final(self).now() == old(self).now()
                },
            },
    {
        if !self.run.advance() {
            return None;
        }
        let mut file = self.run.current().copy();
        file.state = FileState::Uploading;
        let rel = job::staging_relative(file.sha256.as_str(), file.path.as_str());
        let area = paths.staging(self.run.job().id.as_str());
        let key = text::cat3(area.as_str(), "/", rel.as_str());
        self.run.update(file);
        Some(key)
    }

    /// The file that is being uploaded.
    pub fn current(&self) -> (r: &PlannedFile)
        requires
            self.wf(),
            self.is_busy(),
        ensures
            *r == self.now()[self.at()],
    {
        self.run.current()
    }

    /// Enters how the upload ended, after so many tries.
    pub fn settle(&mut self, outcome: Result<ObjectMeta, Error>, attempts: u32) -> (r: PlannedFile)
        requires
            old(self).wf(),
            old(self).is_busy(),
        ensures
            final(self).wf(),
            final(self).begun() == old(self).begun(),
            !final(self).is_busy(),
            final(self).at() == old(self).at() + 1,
            final(self).now() == old(self).now().update(old(self).at(), r),
            match outcome {
                Ok(meta) => is_uploaded(r, old(self).now()[old(self).at()], meta, attempts),
                Err(e) => is_failed(r, old(self).now()[old(self).at()], e, attempts),
            },
    {
        let mut file = self.run.current().copy();
        file.attempts = attempts;
        match outcome {
            Ok(meta) => {
                file.object_key = Some(meta.key);
                file.etag = meta.etag;
                file.state = FileState::Uploaded;
                file.error = None;
            },
            Err(e) => {
                file.state = FileState::Failed;
                file.error = Some(e.message());
            },
        }
        let r = file.copy();
        self.run.settle(file);
        r
    }

    /// How many files have been treated, and how many there are to treat.
    pub fn progress(&self) -> (r: (usize, usize))
        requires
            self.wf(),
        ensures
            r.0 == job::count_state(
                job::states(self.begun().files@).take(self.at()),
                FileState::Hashed,
            ),
            r.1 == job::count_state(job::states(self.begun().files@), FileState::Hashed),
    {
        (self.run.files_done(), self.run.files_total())
    }

    /// Ends the phase. Every new file is uploaded or failed; every other file
    /// is as it was.
    pub fn finish(self) -> (r: ImportJob)
        requires
            self.wf(),
            !self.is_busy(),
            self.at() == self.now().len(),
        ensures
            r.phase is Verify,
            phase::same_job(r, self.begun()),
            r.files@ == self.now(),
            phase::passed(self.begun().files@, r.files@, FileState::Hashed, upload_outcome()),
    {
        self.run.finish(Phase::Verify)
    }
}

} // verus!

//! The verify phase: every uploaded object is held against the file it came
//! from.

use vstd::prelude::*;

use crate::error::Error;
use crate::hash;
use crate::import::job;
use crate::import::job::{ImportJob, PlannedFile};
use crate::import::phase;
use crate::import::phase::PhaseRun;
use crate::import::state::{FileState, Phase};
use crate::import::upload;
use crate::store::api::{ObjectMeta, ObjectStore};
use crate::store::logged::{Exchange, LoggedStore};
use crate::text;

verus! {

/// What an object's metadata says of an upload.
#[derive(Debug, Clone, PartialEq, Eq)]
pub enum HeadVerdict {
    Pass,
    /// Only the object's bytes can tell.
    NeedsBytes,
    Fail(Error),
}

/// The message about an object of the wrong size.
pub open spec fn size_message(key: Seq<char>, expected: nat, got: nat) -> Seq<char> {
    "size mismatch for "@ + key + ": expected "@ + text::decimal(expected) + (" got "@
        + text::decimal(got))
}

/// The message about an object of the wrong content.
pub open spec fn hash_message(key: Seq<char>, expected: Seq<char>, got: Seq<char>) -> Seq<char> {
    "content hash mismatch for "@ + key + ": expected "@ + expected + (" got "@ + got)
}

/// What is said of a wrong object names its key, and tells what was expected from what
/// was found.
pub proof fn law_mismatch_tells_expected_from_found(
    key: Seq<char>,
    expected: nat,
    found: nat,
    hash: Seq<char>,
    other: Seq<char>,
)
    ensures
        size_message(key, expected, found) == "size mismatch for "@ + key + ": expected "@
            + text::decimal(expected) + " got "@ + text::decimal(found),
        hash_message(key, hash, other) == "content hash mismatch for "@ + key + ": expected "@
            + hash + " got "@ + other,
{
    assert(size_message(key, expected, found) =~= "size mismatch for "@ + key + ": expected "@
        + text::decimal(expected) + " got "@ + text::decimal(found));
    assert(hash_message(key, hash, other) =~= "content hash mismatch for "@ + key
        + ": expected "@ + hash + " got "@ + other);
}

/// Judges an upload by the object's metadata: it has to be there and to have
/// the size of the file. A deep check goes on to the bytes.
pub fn judge_head(f: &PlannedFile, key: &str, head: &Option<ObjectMeta>, deep: bool) -> (r:
    HeadVerdict)
    ensures
        match *head {
            None => r matches HeadVerdict::Fail(Error::NotFound(m)) && m@ == key@,
            Some(meta) => if meta.size_bytes != f.size {
                r matches HeadVerdict::Fail(Error::Store(m)) && m@ == size_message(
                    key@,
                    f.size as nat,
                    meta.size_bytes as nat,
                )
            } else if deep {
                r is NeedsBytes
            } else {
                r is Pass
            },
        },
{
    match head {
        None => HeadVerdict::Fail(Error::not_found(key)),
        Some(meta) => {
            if meta.size_bytes != f.size {
                let expected = text::decimal_text(f.size);
                let number = text::decimal_text(meta.size_bytes);
                let got = text::cat2(" got ", number.as_str());
                let mut m = text::cat4(
                    "size mismatch for ",
                    key,
                    ": expected ",
                    expected.as_str(),
                );
                m.append(got.as_str());
                HeadVerdict::Fail(Error::Store(m))
            } else if deep {
                HeadVerdict::NeedsBytes
            } else {
                HeadVerdict::Pass
            }
        },
    }
}

/// Judges an upload by the object's bytes: they have to have the hash of the
/// file.
pub fn judge_content(f: &PlannedFile, key: &str, bytes: &[u8]) -> (r: Result<(), Error>)
    ensures
        r is Ok <==> hash::sha256_hex(bytes@) == f.sha256@,
        r matches Err(e) ==> (e matches Error::Store(m) && m@ == hash_message(
            key@,
            f.sha256@,
            hash::sha256_hex(bytes@),
        )),
{
    let actual = hash::hash_bytes(bytes);
    if text::same(actual.as_str(), f.sha256.as_str()) {
        Ok(())
    } else {
        let got = text::cat2(" got ", actual.as_str());
        let mut m = text::cat4(
            "content hash mismatch for ",
            key,
            ": expected ",
            f.sha256.as_str(),
        );
        m.append(got.as_str());
        Err(Error::Store(m))
    }
}

/// Whether a check of an upload came to this end by these exchanges with the
/// store: the object's metadata is asked for, and, for a deep check of an object
/// of the right size, its bytes.
pub open spec fn checked(
    f: PlannedFile,
    key: Seq<char>,
    deep: bool,
    asked: Seq<Exchange>,
    r: Result<(), Error>,
) -> bool {
    &&& asked.len() >= 1
    &&& asked[0] matches Exchange::Head(k, reply)
    &&& k == key
    &&& match reply {
        Err(e) => asked.len() == 1 && r == Err::<(), Error>(e),
        Ok(None) => asked.len() == 1 && (r matches Err(Error::NotFound(m)) && m@ == key),
        Ok(Some(meta)) => if meta.size_bytes != f.size {
            asked.len() == 1 && (r matches Err(Error::Store(m)) && m@ == size_message(
                key,
                f.size as nat,
                meta.size_bytes as nat,
            ))
        } else if !deep {
            asked.len() == 1 && r is Ok
        } else {
            asked.len() == 2 && read_back(f, key, asked[1], r)
        },
    }
}

/// Whether a deep check came to this end by reading the object.
pub open spec fn read_back(
    f: PlannedFile,
    key: Seq<char>,
    asked: Exchange,
    r: Result<(), Error>,
) -> bool {
    &&& asked matches Exchange::Get(k, reply)
    &&& k == key
    &&& match reply {
        Err(e) => r == Err::<(), Error>(e),
        Ok(bytes) => if hash::sha256_hex(bytes@) == f.sha256@ {
            r is Ok
        } else {
            r matches Err(Error::Store(m)) && m@ == hash_message(
                key,
                f.sha256@,
                hash::sha256_hex(bytes@),
            )
        },
    }
}

/// Checks an upload once.
pub fn check_object<S: ObjectStore>(
    store: &mut LoggedStore<S>,
    f: &PlannedFile,
    key: &str,
    deep: bool,
) -> (r: Result<(), Error>)
    ensures
        old(store).history().is_prefix_of(final(store).history()),
        checked(
            *f,
            key@,
            deep,
            final(store).history().skip(old(store).history().len() as int),
            r,
        ),
{
    let head = match store.head(key) {
        Ok(head) => head,
        Err(e) => {
            return Err(e);
        },
    };
    match judge_head(f, key, &head, deep) {
        HeadVerdict::Pass => Ok(()),
        HeadVerdict::Fail(e) => Err(e),
        HeadVerdict::NeedsBytes => match store.get(key) {
            Ok(bytes) => judge_content(f, key, bytes.as_slice()),
            Err(e) => Err(e),
        },
    }
}

/// Success is never implicit: an upload passes a check only if the store says
/// that the object is there and has the size of the file, and a deep check only
/// if its bytes have the hash of the file too.
pub proof fn law_passed_check_means_object_is_there(
    f: PlannedFile,
    key: Seq<char>,
    deep: bool,
    asked: Seq<Exchange>,
)
    requires
        checked(f, key, deep, asked, Ok(())),
    ensures
        asked[0] matches Exchange::Head(k, reply) && k == key && (reply matches Ok(head) && (
        head matches Some(meta) && meta.size_bytes == f.size)),
        deep ==> (asked[1] matches Exchange::Get(k, reply) && k == key && (reply matches Ok(bytes)
            && hash::sha256_hex(bytes@) == f.sha256@)),
{
}

/// An upload whose object has the size of the file passes a check that is not deep, and
/// one whose bytes hash to the file's hash passes any. One that is not there, or has
/// another size or other bytes, does not.
pub proof fn law_check_ends_as_the_object_is(
    f: PlannedFile,
    key: Seq<char>,
    deep: bool,
    asked: Seq<Exchange>,
    r: Result<(), Error>,
)
    requires
        checked(f, key, deep, asked, r),
    ensures
        match asked[0] {
            Exchange::Head(k, Ok(Some(meta))) => {
                &&& k == key
                &&& meta.size_bytes != f.size ==> r is Err
                &&& meta.size_bytes == f.size && !deep ==> r is Ok
                &&& meta.size_bytes == f.size && deep ==> match asked[1] {
                    Exchange::Get(k2, Ok(bytes)) => k2 == key && (r is Ok
                        <==> hash::sha256_hex(bytes@) == f.sha256@),
                    Exchange::Get(k2, Err(e)) => k2 == key && r == Err::<(), Error>(e),
                    _ => false,
                }
            },
            Exchange::Head(k, Ok(None)) => k == key && r is Err,
            Exchange::Head(k, Err(e)) => k == key && r == Err::<(), Error>(e),
            _ => false,
        },
{
}

/// What a verification makes of a file: verified, or failed with the reason.
/// Nothing else about the file changes but the number of tries.
pub open spec fn verify_outcome() -> spec_fn(PlannedFile, PlannedFile) -> bool {
    |f: PlannedFile, new: PlannedFile|
        {
            &&& upload::same_source(new, f)
            &&& new.track_id == f.track_id
            &&& new.object_key == f.object_key
            &&& new.etag == f.etag
            &&& {
                ||| new.state is Verified && new.error is None && new.object_key is Some
                ||| new.state is Failed && new.error is Some
            }
        }
}

/// A file to verify.
#[derive(Debug, Clone, PartialEq, Eq)]
pub enum VerifyTask {
    /// The object under this key is to be checked.
    Check { key: String },
    /// The file has failed already: nobody knows where it was uploaded to.
    Failed { file: PlannedFile },
}

/// A verify phase in progress.
pub struct VerifyRun {
    run: PhaseRun,
}

impl VerifyRun {
    pub closed spec fn wf(self) -> bool {
        &&& self.run.wf()
        &&& self.run.wants() is Uploaded
        &&& self.run.allows() == verify_outcome()
        &&& self.run.phase() is Verify
        &&& self.run.is_busy() ==> self.run.now()[self.run.at()]
            == self.run.begun().files@[self.run.at()] && self.run.now()[self.run.at()].object_key is Some
    }

    /// The job as the phase found it.
    pub closed spec fn begun(self) -> ImportJob {
        self.run.begun()
    }

    /// The place of the phase.
    pub closed spec fn at(self) -> int {
        self.run.at()
    }

    /// Whether a file is being verified.
    pub closed spec fn is_busy(self) -> bool {
        self.run.is_busy()
    }

    /// The files as they are now.
    pub closed spec fn now(self) -> Seq<PlannedFile> {
        self.run.now()
    }

    /// Starts the phase.
    pub fn begin(job: ImportJob) -> (r: VerifyRun)
        ensures
            r.wf(),
            r.begun() == job,
            r.at() == 0,
            !r.is_busy(),
            r.now() == job.files@,
    {
        VerifyRun {
            run: PhaseRun::begin(job, Phase::Verify, FileState::Uploaded, Ghost(verify_outcome())),
        }
    }

    /// Takes up the next uploaded file; `None` if none is left.
    pub fn next_check(&mut self) -> (r: Option<VerifyTask>)
        requires
            old(self).wf(),
            !old(self).is_busy(),
        ensures
            final(self).wf(),
            final(self).begun() == old(self).begun(),
            forall|k: int|
                old(self).at() <= k < final(self).at() && !(r matches Some(VerifyTask::Failed { .. })
                    && k == final(self).at() - 1) ==> !((
                #[trigger] final(self).begun().files@[k]).state is Uploaded),
            match r {
                Some(VerifyTask::Check { key }) => {
                    let i = final(self).at();
                    let f = final(self).begun().files@[i];
                    &&& final(self).is_busy()
                    &&& old(self).at() <= i < old(self).now().len()
                    &&& f.state is Uploaded
                    &&& text::opt_view(f.object_key) == Some(key@)
                    &&& final(self).now() == old(self).now()
                },
                Some(VerifyTask::Failed { file }) => {
                    let i = final(self).at() - 1;
                    let f = final(self).begun().files@[i];
                    &&& !final(self).is_busy()
                    &&& old(self).at() <= i < old(self).now().len()
                    &&& f.state is Uploaded
                    &&& f.object_key is None
                    &&& file.state is Failed
                    &&& text::opt_view(file.error) == Some("uploaded file missing object key"@)
                    &&& file == (PlannedFile {
                        state: FileState::Failed,
                        error: file.error,
                        ..f
                    })
                    &&& final(self).now() == old(self).now().update(i, file)
                },
                None => {
                    &&& !final(self).is_busy()
                    &&& final(self).at() == final(self).now().len()
                    &&& final(self).now() == old(self).now()
                },
            },
    {
        if !self.run.advance() {
            return None;
        }
        let mut file = self.run.current().copy();
        match text::copy_opt(&file.object_key) {
            Some(key) => Some(VerifyTask::Check { key }),
            None => {
                file.state = FileState::Failed;
                file.error = Some("uploaded file missing object key".to_owned());
                let r = file.copy();
                self.run.settle(file);
                Some(VerifyTask::Failed { file: r })
            },
        }
    }

    /// The file that is being verified.
    pub fn current(&self) -> (r: &PlannedFile)
        requires
            self.wf(),
            self.is_busy(),
        ensures
            *r == self.now()[self.at()],
    {
        self.run.current()
    }

    /// Enters how the check ended, after so many tries.
    pub fn settle(&mut self, outcome: Result<(), Error>, attempts: u32) -> (r: PlannedFile)
        requires
            old(self).wf(),
            old(self).is_busy(),
        ensures
            final(self).wf(),
            final(self).begun() == old(self).begun(),
            !final(self).is_busy(),
            final(self).at() == old(self).at() + 1,
            final(self).now() == old(self).now().update(old(self).at(), r),
            r == (PlannedFile {
                state: r.state,
                error: r.error,
                attempts,
                ..old(self).now()[old(self).at()]
            }),
            match outcome {
                Ok(_) => r.state is Verified && r.error is None,
                Err(e) => r.state is Failed && text::opt_view(r.error) == Some(e.shown()),
            },
    {
        let mut file = self.run.current().copy();
        file.attempts = attempts;
        match outcome {
            Ok(_) => {
                file.state = FileState::Verified;
                file.error = None;
            },
            Err(e) => {
                file.state = FileState::Failed;
                file.error = Some(e.message());
            },
        }
        let r = file.copy();
        self.run.settle(file);
        r
    }

    /// How many files have been treated, and how many there are to treat.
    pub fn progress(&self) -> (r: (usize, usize))
        requires
            self.wf(),
        ensures
            r.0 == job::count_state(
                job::states(self.begun().files@).take(self.at()),
                FileState::Uploaded,
            ),
            r.1 == job::count_state(job::states(self.begun().files@), FileState::Uploaded),
    {
        (self.run.files_done(), self.run.files_total())
    }

    /// Ends the phase. Every uploaded file is verified or failed; every other
    /// file is as it was.
    pub fn finish(self) -> (r: ImportJob)
        requires
            self.wf(),
            !self.is_busy(),
            self.at() == self.now().len(),
        ensures
            r.phase is Commit,
            phase::same_job(r, self.begun()),
            r.files@ == self.now(),
            phase::passed(self.begun().files@, r.files@, FileState::Uploaded, verify_outcome()),
    {
        self.run.finish(Phase::Commit)
    }
}

} // verus!

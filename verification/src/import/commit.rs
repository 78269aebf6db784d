//! The commit phase: every verified object is promoted into the archive.

use vstd::prelude::*;

use crate::archive::index::BucketPaths;
use crate::error::Error;
use crate::import::job;
use crate::import::job::{ImportJob, PlannedFile};
use crate::import::phase;
use crate::import::phase::PhaseRun;
use crate::import::state::{FileState, Phase};
use crate::import::upload;
use crate::import::verify;
use crate::library::slug;
use crate::model;
use crate::model::{ArchiveEntry, Metadata, Timestamp, TrackId};
use crate::path;
use crate::selection;
use crate::store::api;
use crate::store::api::ObjectStore;
use crate::store::logged::{Exchange, LoggedStore};
use crate::text;

verus! {

/// The key that a file is committed under: its content hash and extension.
pub open spec fn music_key(paths: BucketPaths, f: PlannedFile) -> Seq<char> {
    paths.music_key(f.sha256@ + "."@ + job::extension_or(f.path@, "bin"@))
}

/// The slug of a committed file. There is none unless a library root is
/// declared.
pub open spec fn slug_of(library_root: Option<Seq<char>>, path: Seq<char>) -> Option<Seq<char>> {
    match library_root {
        Some(root) => slug::slug(root, path),
        None => None,
    }
}

/// The index entry of a committed file.
pub open spec fn new_entry(
    f: PlannedFile,
    paths: BucketPaths,
    track_id: TrackId,
    now: Timestamp,
    metadata: Metadata,
    library_root: Option<Seq<char>>,
) -> model::EntryView {
    model::EntryView {
        track_id: track_id.0@,
        object_key: music_key(paths, f),
        size_bytes: f.size,
        sha256: f.sha256@,
        metadata,
        tags: Seq::empty(),
        imported_at: now,
        updated_at: now,
        source_path_original: Some(f.path@),
        artwork_object_key: None,
        library_relative_path: slug_of(library_root, f.path@),
    }
}

/// A file is committed under its hash and its extension, below the prefix for music.
pub proof fn law_committed_under_its_hash(
    paths: BucketPaths,
    f: PlannedFile,
    dir: Seq<char>,
    stem: Seq<char>,
    ext: Seq<char>,
)
    requires
        f.path@ == dir.push('/') + (stem.push('.') + ext),
        path::is_name(stem.push('.') + ext),
        stem.len() > 0,
        !ext.contains('.'),
        f.sha256@.len() > 0,
        f.sha256@[0] != '/',
    ensures
        music_key(paths, f) == paths.music_prefix_text() + "/"@ + (f.sha256@ + "."@
            + text::lowered(ext)),
{
    job::law_names_are_taken_from_the_path(dir, stem, ext, "bin"@);
    let rel = f.sha256@ + "."@ + text::lowered(ext);
    assert(rel[0] == f.sha256@[0]);
    assert(text::trim_start(rel, '/') == rel);
}

/// A file without an extension is committed as `bin`.
pub proof fn law_committed_without_extension(paths: BucketPaths, f: PlannedFile)
    requires
        path::extension(f.path@) is None,
        f.sha256@.len() > 0,
        f.sha256@[0] != '/',
    ensures
        music_key(paths, f) == paths.music_prefix_text() + "/"@ + (f.sha256@ + ".bin"@),
{
    reveal_strlit(".");
    reveal_strlit("bin");
    reveal_strlit(".bin");
    assert("."@ + "bin"@ =~= ".bin"@);
    let rel = f.sha256@ + "."@ + "bin"@;
    assert(rel =~= f.sha256@ + ".bin"@);
    assert(rel[0] == f.sha256@[0]);
    assert(text::trim_start(rel, '/') == rel);
}

/// The index entry of a committed file points to the object that it was promoted to,
/// and says of it what was found: its hash, its size, where it came from, and its
/// place below the library root if one is declared.
pub proof fn law_entry_describes_the_committed_file(
    f: PlannedFile,
    paths: BucketPaths,
    track_id: TrackId,
    now: Timestamp,
    metadata: Metadata,
    library_root: Option<Seq<char>>,
)
    ensures
        ({
            let e = new_entry(f, paths, track_id, now, metadata, library_root);
            &&& e.track_id == track_id.0@
            &&& e.object_key == music_key(paths, f)
            &&& e.sha256 == f.sha256@
            &&& e.size_bytes == f.size
            &&& e.metadata == metadata
            &&& e.source_path_original == Some(f.path@)
            &&& e.imported_at == now && e.updated_at == now
            &&& e.tags.len() == 0
            &&& e.artwork_object_key is None
            &&& library_root is None ==> e.library_relative_path is None
            &&& library_root is Some ==> e.library_relative_path == slug::slug(
                library_root->0,
                f.path@,
            )
        }),
{
}

/// What a commit makes of a file: committed under a key and a track id, a
/// duplicate of a track that the archive has, or failed with the reason.
pub open spec fn commit_outcome() -> spec_fn(PlannedFile, PlannedFile) -> bool {
    |f: PlannedFile, new: PlannedFile|
        {
            &&& upload::same_source(new, f)
            &&& new.etag == f.etag
            &&& {
                ||| new.state is Committed && new.object_key is Some && new.track_id is Some
                ||| new.state is Duplicate && new.object_key is Some && new.track_id is Some
                ||| new.state is Failed && new.error is Some && new.object_key == f.object_key
                    && new.track_id == f.track_id
            }
        }
}

/// Whether a promotion came to this end by these exchanges with the store: it
/// is asked whether it has an object under the key, and if it has none, the
/// staged object is copied there. What is there already is left alone.
pub open spec fn promoted(
    from: Seq<char>,
    to: Seq<char>,
    asked: Seq<Exchange>,
    r: Result<(), Error>,
) -> bool {
    &&& asked.len() >= 1
    &&& asked[0] matches Exchange::Exists(k, reply)
    &&& k == to
    &&& match reply {
        Err(e) => asked.len() == 1 && r == Err::<(), Error>(e),
        Ok(true) => asked.len() == 1 && r is Ok,
        Ok(false) => asked.len() == 2 && (asked[1] matches Exchange::Copy(a, b, copied) && a == from
            && b == to && match copied {
            Ok(_) => r is Ok,
            Err(e) => r == Err::<(), Error>(e),
        }),
    }
}

/// Promotes a staged object once.
pub fn promote_object<S: ObjectStore>(store: &mut LoggedStore<S>, from: &str, to: &str) -> (r: Result<
    (),
    Error,
>)
    ensures
        old(store).history().is_prefix_of(final(store).history()),
        promoted(
            from@,
            to@,
            final(store).history().skip(old(store).history().len() as int),
            r,
        ),
{
    match store.object_exists(to) {
        Ok(true) => Ok(()),
        Ok(false) => match store.copy(from, to) {
            Ok(_) => Ok(()),
            Err(e) => Err(e),
        },
        Err(e) => Err(e),
    }
}

/// A promotion never overwrites: an object is copied only where the store has
/// said that there is none.
pub proof fn law_promotion_never_overwrites(
    from: Seq<char>,
    to: Seq<char>,
    asked: Seq<Exchange>,
    r: Result<(), Error>,
    i: int,
)
    requires
        promoted(from, to, asked, r),
        0 <= i < asked.len(),
        asked[i] is Copy,
    ensures
        i == 1,
        asked[0] == Exchange::Exists(to, Ok(false)),
        asked[1] matches Exchange::Copy(a, b, _) && a == from && b == to,
{
}

/// A promotion ends well exactly if the object stands under the key already, or was
/// copied there; what went wrong is what the store says.
pub proof fn law_promotion_ends_as_the_store_says(
    from: Seq<char>,
    to: Seq<char>,
    asked: Seq<Exchange>,
    r: Result<(), Error>,
)
    requires
        promoted(from, to, asked, r),
    ensures
        match asked[0] {
            Exchange::Exists(k, Ok(there)) => {
                &&& k == to
                &&& there ==> asked.len() == 1 && r is Ok
                &&& !there ==> asked.len() == 2 && match asked[1] {
                    Exchange::Copy(a, b, copied) => {
                        &&& a == from
                        &&& b == to
                        &&& r is Ok <==> copied is Ok
                        &&& copied is Err ==> r == Err::<(), Error>(copied->Err_0)
                    },
                    _ => false,
                }
            },
            Exchange::Exists(k, Err(e)) => k == to && asked.len() == 1 && r == Err::<
                (),
                Error,
            >(e),
            _ => false,
        },
{
}

/// What has to be done to commit a file.
#[derive(Debug, Clone, PartialEq, Eq)]
pub enum CommitTask {
    /// The staged object is to be promoted.
    Promote { from: String, to: String },
    /// The archive has the content already: the file is settled.
    Settled { file: PlannedFile },
}

/// The files that a commit has newly committed, in their order.
pub open spec fn newly_committed(before: Seq<PlannedFile>, after: Seq<PlannedFile>) -> Seq<
    PlannedFile,
>
    decreases before.len(),
{
    if before.len() == 0 || after.len() == 0 {
        Seq::empty()
    } else {
        let front = newly_committed(before.drop_last(), after.drop_last());
        if before.last().state is Verified && after.last().state is Committed {
            front.push(after.last())
        } else {
            front
        }
    }
}

/// Which files were verified and are committed now.
pub open spec fn promoted_files(before: Seq<PlannedFile>, after: Seq<PlannedFile>) -> spec_fn(
    int,
) -> bool {
    |i: int| before[i].state is Verified && after[i].state is Committed
}

/// The file at each place.
pub open spec fn file_at(files: Seq<PlannedFile>) -> spec_fn(int) -> PlannedFile {
    |i: int| files[i]
}

/// The newly committed files are those that were verified and are committed now, each
/// once, in their order.
pub proof fn law_newly_committed_were_verified(
    before: Seq<PlannedFile>,
    after: Seq<PlannedFile>,
)
    requires
        before.len() == after.len(),
    ensures
        selection::is_selection(
            newly_committed(before, after),
            before.len() as int,
            promoted_files(before, after),
            file_at(after),
        ),
    decreases before.len(),
{
    if before.len() == 0 {
        selection::lemma_selection_empty(promoted_files(before, after), file_at(after));
    } else {
        let a = before.drop_last();
        let b = after.drop_last();
        law_newly_committed_were_verified(a, b);
        selection::lemma_selection_grows(
            newly_committed(a, b),
            a.len() as int,
            promoted_files(a, b),
            file_at(b),
            newly_committed(before, after),
            promoted_files(before, after),
            file_at(after),
        );
    }
}

/// Whether an index entry is that of a committed file.
pub open spec fn is_entry_for(e: model::EntryView, f: PlannedFile) -> bool {
    &&& f.track_id matches Some(id) && id.0@ == e.track_id
    &&& text::opt_view(f.object_key) == Some(e.object_key)
    &&& e.sha256 == f.sha256@
    &&& e.size_bytes == f.size
    &&& e.source_path_original == Some(f.path@)
}

/// Whether index entries are those of committed files, one for each, in their
/// order.
pub open spec fn are_entries_for(entries: Seq<model::EntryView>, files: Seq<PlannedFile>) -> bool {
    &&& entries.len() == files.len()
    &&& forall|i: int|
        0 <= i < entries.len() ==> is_entry_for(#[trigger] entries[i], files[i])
}

/// Going past files that are not verified commits none of them.
proof fn lemma_skipped(before: Seq<PlannedFile>, after: Seq<PlannedFile>, i: int, j: int)
    requires
        0 <= i <= j <= before.len(),
        before.len() == after.len(),
        forall|k: int| i <= k < j ==> !((#[trigger] before[k]).state is Verified),
    ensures
        newly_committed(before.take(j), after.take(j)) == newly_committed(
            before.take(i),
            after.take(i),
        ),
    decreases j - i,
{
    if i < j {
        lemma_skipped(before, after, i, j - 1);
        assert(before.take(j).drop_last() =~= before.take(j - 1));
        assert(after.take(j).drop_last() =~= after.take(j - 1));
        assert(before.take(j).last() == before[j - 1]);
    }
}

/// As many files are newly committed as there are more committed ones than
/// before.
proof fn lemma_count_newly(before: Seq<PlannedFile>, after: Seq<PlannedFile>)
    requires
        phase::passed(before, after, FileState::Verified, commit_outcome()),
    ensures
        newly_committed(before, after).len() + job::count_state(
            job::states(before),
            FileState::Committed,
        ) == job::count_state(job::states(after), FileState::Committed),
    decreases before.len(),
{
    if before.len() > 0 {
        let a = before.drop_last();
        let b = after.drop_last();
        assert forall|k: int| 0 <= k < a.len() implies if (#[trigger] a[k]).state
            == FileState::Verified {
            commit_outcome()(a[k], b[k])
        } else {
            b[k] == a[k]
        } by {
            assert(before[k] == a[k]);
        }
        lemma_count_newly(a, b);
        assert(job::states(before).drop_last() =~= job::states(a));
        assert(job::states(after).drop_last() =~= job::states(b));
        assert(before[before.len() - 1] == before.last());
    }
}

/// A commit phase in progress.
pub struct CommitRun {
    run: PhaseRun,
    entries: Vec<ArchiveEntry>,
}

impl CommitRun {
    pub closed spec fn wf(self) -> bool {
        &&& self.run.wf()
        &&& self.run.wants() is Verified
        &&& self.run.allows() == commit_outcome()
        &&& self.run.phase() is Commit
        &&& self.run.is_busy() ==> self.run.now()[self.run.at()]
            == self.run.begun().files@[self.run.at()] && self.run.now()[self.run.at()].state is Verified
        &&& are_entries_for(
            model::entry_views(self.entries@),
            newly_committed(
                self.run.begun().files@.take(self.run.at()),
                self.run.now().take(self.run.at()),
            ),
        )
    }

    /// The job as the phase found it.
    pub closed spec fn begun(self) -> ImportJob {
        self.run.begun()
    }

    /// The place of the phase.
    pub closed spec fn at(self) -> int {
        self.run.at()
    }

    /// Whether a file is being committed.
    pub closed spec fn is_busy(self) -> bool {
        self.run.is_busy()
    }

    /// The files as they are now.
    pub closed spec fn now(self) -> Seq<PlannedFile> {
        self.run.now()
    }

    /// The index entries of the files committed so far.
    pub closed spec fn entries(self) -> Seq<model::EntryView> {
        model::entry_views(self.entries@)
    }

    /// Starts the phase.
    pub fn begin(job: ImportJob) -> (r: CommitRun)
        ensures
            r.wf(),
            r.begun() == job,
            r.at() == 0,
            !r.is_busy(),
            r.now() == job.files@,
            r.entries().len() == 0,
    {
        CommitRun {
            run: PhaseRun::begin(job, Phase::Commit, FileState::Verified, Ghost(commit_outcome())),
            entries: Vec::new(),
        }
    }

    /// Takes up the next verified file, if one is left.
    pub fn next_commit(&mut self) -> (found: bool)
        requires
            old(self).wf(),
            !old(self).is_busy(),
        ensures
            final(self).wf(),
            final(self).begun() == old(self).begun(),
            final(self).now() == old(self).now(),
            final(self).entries() == old(self).entries(),
            final(self).is_busy() == found,
            old(self).at() <= final(self).at(),
            forall|k: int|
                old(self).at() <= k < final(self).at() ==> !((
                #[trigger] final(self).begun().files@[k]).state is Verified),
            found ==> {
                &&& final(self).at() < final(self).now().len()
                &&& final(self).now()[final(self).at()].state is Verified
            },
            !found ==> final(self).at() == final(self).now().len(),
    {
        let ghost from = self.run.at();
        proof {
            self.run.lemma_bounds();
        }
        let found = self.run.advance();
        proof {
            self.run.lemma_bounds();
            lemma_skipped(self.run.begun().files@, self.run.now(), from, self.run.at());
        }
        found
    }

    /// The file that is being committed.
    pub fn current(&self) -> (r: &PlannedFile)
        requires
            self.wf(),
            self.is_busy(),
        ensures
            *r == self.now()[self.at()],
            r.state is Verified,
    {
        self.run.current()
    }

    /// Decides what has to be done, given the track that the archive has with
    /// the file's content, if any. A file whose content is archived is a
    /// duplicate, and nothing is added to the index.
    pub fn look_up(&mut self, existing: &Option<ArchiveEntry>, paths: &BucketPaths) -> (r:
        CommitTask)
        requires
            old(self).wf(),
            old(self).is_busy(),
            existing is None ==> old(self).now()[old(self).at()].object_key is Some,
        ensures
            final(self).wf(),
            final(self).begun() == old(self).begun(),
            final(self).entries() == old(self).entries(),
            match *existing {
                Some(e) => {
                    &&& r matches CommitTask::Settled { file }
                    &&& !final(self).is_busy()
                    &&& final(self).at() == old(self).at() + 1
                    &&& final(self).now() == old(self).now().update(old(self).at(), file)
                    &&& file == (PlannedFile {
                        state: FileState::Duplicate,
                        object_key: Some(e.object_key),
                        track_id: Some(e.track_id),
                        ..old(self).now()[old(self).at()]
                    })
                },
                None => {
                    &&& r matches CommitTask::Promote { from, to }
                    &&& final(self).is_busy()
                    &&& final(self).at() == old(self).at()
                    &&& final(self).now() == old(self).now()
                    &&& Some(from@) == text::opt_view(old(self).now()[old(self).at()].object_key)
                    &&& to@ == music_key(*paths, old(self).now()[old(self).at()])
                },
            },
    {
        let mut file = self.run.current().copy();
        let ghost before = *self;
        match existing {
            Some(e) => {
                file.object_key = Some(e.object_key.clone());
                file.track_id = Some(e.track_id.copy());
                file.state = FileState::Duplicate;
                let r = file.copy();
                self.run.settle(file);
                proof {
                    before.lemma_settled(self.run, r);
                }
                CommitTask::Settled { file: r }
            },
            None => {
                let from = match file.object_key {
                    Some(key) => key,
                    None => String::new(),
                };
                let rel = job::canonical_music_relative(file.sha256.as_str(), file.path.as_str());
                CommitTask::Promote { from, to: paths.music(rel.as_str()) }
            },
        }
    }

    /// Enters how the promotion ended, after so many tries. A promoted file
    /// gets an index entry with the metadata that was read from it; where none
    /// could be read, the entry has none.
    pub fn settle(
        &mut self,
        outcome: Result<Option<Metadata>, Error>,
        attempts: u32,
        paths: &BucketPaths,
        track_id: TrackId,
        now: Timestamp,
        library_root: Option<&str>,
    ) -> (r: PlannedFile)
        requires
            old(self).wf(),
            old(self).is_busy(),
        ensures
            final(self).wf(),
            final(self).begun() == old(self).begun(),
            !final(self).is_busy(),
            final(self).at() == old(self).at() + 1,
            final(self).now() == old(self).now().update(old(self).at(), r),
            match outcome {
                Err(e) => final(self).entries() == old(self).entries() && upload::is_failed(
                    r,
                    old(self).now()[old(self).at()],
                    e,
                    attempts,
                ),
                Ok(found) => {
                    &&& r == (PlannedFile {
                        state: FileState::Committed,
                        object_key: r.object_key,
                        track_id: Some(track_id),
                        attempts,
                        ..old(self).now()[old(self).at()]
                    })
                    &&& text::opt_view(r.object_key) == Some(
                        music_key(*paths, old(self).now()[old(self).at()]),
                    )
                    &&& exists|metadata: Metadata|
                        {
                            &&& match found {
                                Some(m) => metadata == m,
                                None => metadata.is_blank(),
                            }
                            &&& final(self).entries() == old(self).entries().push(
                                #[trigger] new_entry(
                                    old(self).now()[old(self).at()],
                                    *paths,
                                    track_id,
                                    now,
                                    metadata,
                                    api::opt_str(library_root),
                                ),
                            )
                        }
                },
            },
    {
        let mut file = self.run.current().copy();
        let ghost before = *self;
        file.attempts = attempts;
        match outcome {
            Err(e) => {
                file.state = FileState::Failed;
                file.error = Some(e.message());
            },
            Ok(found) => {
                let metadata = match found {
                    Some(m) => m,
                    None => Metadata::default(),
                };
                let rel = job::canonical_music_relative(file.sha256.as_str(), file.path.as_str());
                let key = paths.music(rel.as_str());
                let slug = match library_root {
                    Some(root) => slug::compute_slug(root, file.path.as_str()),
                    None => None,
                };
                let entry = ArchiveEntry {
                    track_id: track_id.copy(),
                    object_key: key.clone(),
                    size_bytes: file.size,
                    sha256: file.sha256.clone(),
                    metadata,
                    tags: Vec::new(),
                    imported_at: now,
                    updated_at: now,
                    source_path_original: Some(file.path.clone()),
                    artwork_object_key: None,
                    library_relative_path: slug,
                };
                proof {
                    assert(text::views(entry.tags@) =~= Seq::<Seq<char>>::empty());
                    assert(entry@ == new_entry(
                        self.now()[self.at()],
                        *paths,
                        track_id,
                        now,
                        metadata,
                        api::opt_str(library_root),
                    ));
                }
                file.object_key = Some(key);
                file.track_id = Some(track_id);
                file.state = FileState::Committed;
                self.entries.push(entry);
                proof {
                    assert(self.entries() =~= before.entries().push(entry@));
                }
            },
        }
        let r = file.copy();
        self.run.settle(file);
        proof {
            before.lemma_settled(self.run, r);
        }
        r
    }

    /// Settling the file in hand adds it to the newly committed ones if it is
    /// committed, and leaves them as they were if not.
    proof fn lemma_settled(self, run: PhaseRun, file: PlannedFile)
        requires
            self.wf(),
            self.is_busy(),
            run.wf(),
            run.begun() == self.begun(),
            run.at() == self.at() + 1,
            run.now() == self.now().update(self.at(), file),
        ensures
            ({
                let old_list = newly_committed(
                    self.begun().files@.take(self.at()),
                    self.now().take(self.at()),
                );
                newly_committed(run.begun().files@.take(run.at()), run.now().take(run.at())) == (
                if file.state is Committed {
                    old_list.push(file)
                } else {
                    old_list
                })
            }),
    {
        self.run.lemma_bounds();
        run.lemma_bounds();
        let i = self.at();
        let before = self.begun().files@;
        assert(before.take(i + 1).drop_last() =~= before.take(i));
        assert(run.now().take(i + 1).drop_last() =~= self.now().take(i));
        assert(before.take(i + 1).last() == before[i]);
        assert(run.now().take(i + 1).last() == file);
    }

    /// How many files have been treated, and how many there are to treat.
    pub fn progress(&self) -> (r: (usize, usize))
        requires
            self.wf(),
        ensures
            r.0 == job::count_state(
                job::states(self.begun().files@).take(self.at()),
                FileState::Verified,
            ),
            r.1 == job::count_state(job::states(self.begun().files@), FileState::Verified),
    {
        (self.run.files_done(), self.run.files_total())
    }

    /// Ends the phase. Every verified file is committed, a duplicate or failed;
    /// every other file is as it was. There is one index entry for each newly
    /// committed file, in their order, and no other.
    pub fn finish(self) -> (r: (ImportJob, Vec<ArchiveEntry>))
        requires
            self.wf(),
            !self.is_busy(),
            self.at() == self.now().len(),
        ensures
            r.0.phase is Done,
            phase::same_job(r.0, self.begun()),
            r.0.files@ == self.now(),
            phase::passed(self.begun().files@, r.0.files@, FileState::Verified, commit_outcome()),
            model::entry_views(r.1@) == self.entries(),
            are_entries_for(
                model::entry_views(r.1@),
                newly_committed(self.begun().files@, r.0.files@),
            ),
            r.1@.len() + job::count_state(job::states(self.begun().files@), FileState::Committed)
                == job::count_state(job::states(r.0.files@), FileState::Committed),
    {
        let ghost before = self.begun().files@;
        proof {
            self.run.lemma_bounds();
            assert(before.take(self.at()) =~= before);
            assert(self.now().take(self.at()) =~= self.now());
        }
        let entries = self.entries;
        let job = self.run.finish(Phase::Done);
        proof {
            lemma_count_newly(before, job.files@);
        }
        (job, entries)
    }
}

/// Success is never implicit: a file that is committed at the end of an import
/// and was not before has gone through upload, verify and commit, in this
/// order, and its content is the one that was fingerprinted.
pub proof fn law_commit_only_after_verify(
    start: Seq<PlannedFile>,
    uploaded: Seq<PlannedFile>,
    verified: Seq<PlannedFile>,
    committed: Seq<PlannedFile>,
    k: int,
)
    requires
        phase::passed(start, uploaded, FileState::Hashed, upload::upload_outcome()),
        phase::passed(uploaded, verified, FileState::Uploaded, verify::verify_outcome()),
        phase::passed(verified, committed, FileState::Verified, commit_outcome()),
        0 <= k < start.len(),
        committed[k].state is Committed,
    ensures
        start[k].state is Committed || verified[k].state is Verified,
        start[k].state is Hashed ==> uploaded[k].state is Uploaded && verified[k].state is Verified
            && verified[k].object_key == uploaded[k].object_key,
        committed[k].sha256 == start[k].sha256,
        committed[k].path == start[k].path,
{
    assert(start[k] == start[k]);
    assert(uploaded[k] == uploaded[k]);
    assert(verified[k] == verified[k]);
}

/// An import leaves alone what it has nothing to do with: duplicates, failures
/// and tracks committed before come out as they went in.
pub proof fn law_import_leaves_settled_files(
    start: Seq<PlannedFile>,
    uploaded: Seq<PlannedFile>,
    verified: Seq<PlannedFile>,
    committed: Seq<PlannedFile>,
    k: int,
)
    requires
        phase::passed(start, uploaded, FileState::Hashed, upload::upload_outcome()),
        phase::passed(uploaded, verified, FileState::Uploaded, verify::verify_outcome()),
        phase::passed(verified, committed, FileState::Verified, commit_outcome()),
        0 <= k < start.len(),
        start[k].state.terminal(),
    ensures
        committed[k] == start[k],
{
    assert(start[k] == start[k]);
    assert(uploaded[k] == uploaded[k]);
    assert(verified[k] == verified[k]);
}

/// An import that went through all its phases leaves no new file in between:
/// it is committed, a duplicate, or failed.
pub proof fn law_import_settles_every_new_file(
    start: Seq<PlannedFile>,
    uploaded: Seq<PlannedFile>,
    verified: Seq<PlannedFile>,
    committed: Seq<PlannedFile>,
    k: int,
)
    requires
        phase::passed(start, uploaded, FileState::Hashed, upload::upload_outcome()),
        phase::passed(uploaded, verified, FileState::Uploaded, verify::verify_outcome()),
        phase::passed(verified, committed, FileState::Verified, commit_outcome()),
        0 <= k < start.len(),
        start[k].state is Hashed,
    ensures
        committed[k].state.terminal(),
{
    assert(start[k] == start[k]);
    assert(uploaded[k] == uploaded[k]);
    assert(verified[k] == verified[k]);
}

/// Content that is already in the archive, under the same hash, is committed
/// under the same key as before: the key depends on content and extension
/// alone.
pub proof fn law_music_key_is_content_addressed(paths: BucketPaths, a: PlannedFile, b: PlannedFile)
    requires
        a.sha256@ == b.sha256@,
        job::extension_or(a.path@, "bin"@) == job::extension_or(b.path@, "bin"@),
    ensures
        music_key(paths, a) == music_key(paths, b),
{
}

} // verus!

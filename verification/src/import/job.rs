//! An import job and its files.

use vstd::prelude::*;

use crate::hash;
use crate::import::state::{FileState, Phase};
use crate::model::TrackId;
use crate::path;
use crate::text;

verus! {

/// Options of an import scan.
#[derive(Debug, Clone, PartialEq, Eq)]
pub struct ImportOptions {
    /// Take dotfiles and hidden folders as well.
    pub include_dotfiles: bool,
    /// Capture cover art that stands next to the audio of an imported folder.
    pub capture_artwork: bool,
    /// Cover-art images, or folders of them, named explicitly.
    pub artwork_paths: Vec<String>,
}

impl Default for ImportOptions {
    fn default() -> (r: ImportOptions)
        ensures
            !r.include_dotfiles,
            r.capture_artwork,
            r.artwork_paths@.len() == 0,
    {
        ImportOptions {
            include_dotfiles: false,
            capture_artwork: true,
            artwork_paths: Vec::new(),
        }
    }
}

/// Why a file counts as a duplicate without having been read.
#[derive(Debug, Clone, Copy, PartialEq, Eq, Structural)]
pub enum DuplicateReason {
    /// The archive has a track of the same slug and size.
    SlugAndSize,
}

/// A file of an import.
#[derive(Debug, Clone, PartialEq, Eq)]
pub struct PlannedFile {
    pub path: String,
    pub size: u64,
    pub mtime: Option<String>,
    pub sha256: String,
    pub state: FileState,
    pub object_key: Option<String>,
    pub track_id: Option<TrackId>,
    pub etag: Option<String>,
    pub error: Option<String>,
    pub attempts: u32,
    pub duplicate_reason: Option<DuplicateReason>,
}

/// A copy of an optional track id.
pub fn copy_opt_id(id: &Option<TrackId>) -> (r: Option<TrackId>)
    ensures
        r == *id,
{
    match id {
        Some(t) => Some(t.copy()),
        None => None,
    }
}

impl PlannedFile {
    /// The same file again.
    pub fn copy(&self) -> (r: PlannedFile)
        ensures
            r == *self,
    {
        PlannedFile {
            path: self.path.clone(),
            size: self.size,
            mtime: text::copy_opt(&self.mtime),
            sha256: self.sha256.clone(),
            state: self.state,
            object_key: text::copy_opt(&self.object_key),
            track_id: copy_opt_id(&self.track_id),
            etag: text::copy_opt(&self.etag),
            error: text::copy_opt(&self.error),
            attempts: self.attempts,
            duplicate_reason: self.duplicate_reason,
        }
    }

    /// Whether nothing is known of a file but its path.
    pub open spec fn is_blank(self) -> bool {
        &&& self.size == 0
        &&& self.mtime is None
        &&& self.sha256@.len() == 0
        &&& self.state is Pending
        &&& self.object_key is None
        &&& self.track_id is None
        &&& self.etag is None
        &&& self.error is None
        &&& self.attempts == 0
        &&& self.duplicate_reason is None
    }

    /// A file of which nothing is known but its path.
    pub fn pending(path: &str) -> (r: PlannedFile)
        ensures
            r.path@ == path@,
            r.is_blank(),
    {
        PlannedFile {
            path: path.to_owned(),
            size: 0,
            mtime: None,
            sha256: String::new(),
            state: FileState::Pending,
            object_key: None,
            track_id: None,
            etag: None,
            error: None,
            attempts: 0,
            duplicate_reason: None,
        }
    }
}

/// A cover-art image found next to imported audio.
#[derive(Debug, Clone, PartialEq, Eq)]
pub struct ArtworkCandidate {
    pub path: String,
    pub sha256: String,
    pub size: u64,
    /// The source folder that the image was found in.
    pub source_folder: String,
    pub object_key: Option<String>,
}

impl ArtworkCandidate {
    /// The same candidate again.
    pub fn copy(&self) -> (r: ArtworkCandidate)
        ensures
            r == *self,
    {
        ArtworkCandidate {
            path: self.path.clone(),
            sha256: self.sha256.clone(),
            size: self.size,
            source_folder: self.source_folder.clone(),
            object_key: text::copy_opt(&self.object_key),
        }
    }
}

/// A planned import, or one in progress.
#[derive(Debug, Clone, PartialEq, Eq)]
pub struct ImportJob {
    pub id: String,
    pub source_root: String,
    pub staging_prefix: String,
    pub phase: Phase,
    pub files: Vec<PlannedFile>,
    pub artwork: Vec<ArtworkCandidate>,
}

/// How many files of a job are in which state.
#[derive(Debug, Clone, Copy, PartialEq, Eq, Structural)]
pub struct ImportStats {
    pub total: usize,
    pub duplicates: usize,
    pub uploaded: usize,
    pub verified: usize,
    pub committed: usize,
    pub failed: usize,
}

impl Default for ImportStats {
    fn default() -> (r: ImportStats)
        ensures
            r == (ImportStats {
                total: 0,
                duplicates: 0,
                uploaded: 0,
                verified: 0,
                committed: 0,
                failed: 0,
            }),
    {
        ImportStats { total: 0, duplicates: 0, uploaded: 0, verified: 0, committed: 0, failed: 0 }
    }
}

/// The states of files.
pub open spec fn states(files: Seq<PlannedFile>) -> Seq<FileState> {
    files.map_values(|f: PlannedFile| f.state)
}

/// How often a state occurs.
pub open spec fn count_state(list: Seq<FileState>, wanted: FileState) -> nat
    decreases list.len(),
{
    if list.len() == 0 {
        0
    } else {
        count_state(list.drop_last(), wanted) + (if list.last() == wanted {
            1nat
        } else {
            0nat
        })
    }
}

/// No state occurs more often than there are files.
pub proof fn lemma_count_bound(list: Seq<FileState>, wanted: FileState)
    ensures
        count_state(list, wanted) <= list.len(),
    decreases list.len(),
{
    if list.len() > 0 {
        lemma_count_bound(list.drop_last(), wanted);
    }
}

/// Whether stats are those of files in the given states.
pub open spec fn counts(stats: ImportStats, list: Seq<FileState>) -> bool {
    &&& stats.total == list.len()
    &&& stats.duplicates == count_state(list, FileState::Duplicate)
    &&& stats.uploaded == count_state(list, FileState::Uploaded)
    &&& stats.verified == count_state(list, FileState::Verified)
    &&& stats.committed == count_state(list, FileState::Committed)
    &&& stats.failed == count_state(list, FileState::Failed)
}

impl ImportStats {
    /// Counts one more file.
    pub(crate) fn count(&mut self, state: FileState, Ghost(list): Ghost<Seq<FileState>>)
        requires
            counts(*old(self), list),
            list.len() < usize::MAX,
        ensures
            counts(*final(self), list.push(state)),
    {
        proof {
            assert(list.push(state).drop_last() =~= list);
            lemma_count_bound(list, FileState::Duplicate);
            lemma_count_bound(list, FileState::Uploaded);
            lemma_count_bound(list, FileState::Verified);
            lemma_count_bound(list, FileState::Committed);
            lemma_count_bound(list, FileState::Failed);
        }
        self.total = self.total + 1;
        match state {
            FileState::Duplicate => {
                self.duplicates = self.duplicates + 1;
            },
            FileState::Committed => {
                self.committed = self.committed + 1;
            },
            FileState::Verified => {
                self.verified = self.verified + 1;
            },
            FileState::Uploaded => {
                self.uploaded = self.uploaded + 1;
            },
            FileState::Failed => {
                self.failed = self.failed + 1;
            },
            _ => {},
        }
    }
}

impl ImportJob {
    /// How many files are in which state.
    pub fn stats(&self) -> (s: ImportStats)
        ensures
            counts(s, states(self.files@)),
    {
        let mut s = ImportStats::default();
        let mut i: usize = 0;
        let ghost all = states(self.files@);
        proof {
            assert(all.take(0) =~= Seq::<FileState>::empty());
        }
        while i < self.files.len()
            invariant
                i <= self.files@.len(),
                all == states(self.files@),
                counts(s, all.take(i as int)),
            decreases self.files@.len() - i,
        {
            s.count(self.files[i].state, Ghost(all.take(i as int)));
            proof {
                assert(all.take(i as int).push(self.files@[i as int].state) =~= all.take(i + 1));
            }
            i = i + 1;
        }
        proof {
            assert(all.take(self.files@.len() as int) =~= all);
        }
        s
    }
}

/// How many files of a job are in a given state.
pub fn count_in_state(files: &Vec<PlannedFile>, wanted: FileState) -> (n: usize)
    ensures
        n == count_state(states(files@), wanted),
{
    let mut n: usize = 0;
    let mut i: usize = 0;
    let ghost all = states(files@);
    proof {
        assert(all.take(0) =~= Seq::<FileState>::empty());
    }
    while i < files.len()
        invariant
            i <= files@.len(),
            n <= i,
            all == states(files@),
            n == count_state(all.take(i as int), wanted),
        decreases files@.len() - i,
    {
        proof {
            assert(all.take(i + 1).drop_last() =~= all.take(i as int));
        }
        if files[i].state == wanted {
            n = n + 1;
        }
        i = i + 1;
    }
    proof {
        assert(all.take(files@.len() as int) =~= all);
    }
    n
}

// ---------------------------------------------------------------------------
// Resuming
// ---------------------------------------------------------------------------

/// A file as a resumed job takes it up: an upload that was under way or failed
/// is tried again.
pub open spec fn resumed(f: PlannedFile) -> PlannedFile {
    if f.state is Uploading || f.state is Failed {
        PlannedFile { state: FileState::Hashed, error: None, ..f }
    } else {
        f
    }
}

/// Resets unfinished uploads so that a resumed job can retry them.
pub fn prepare_for_resume(job: &mut ImportJob)
    ensures
        final(job).files@ == old(job).files@.map_values(|f: PlannedFile| resumed(f)),
        final(job).id == old(job).id,
        final(job).source_root == old(job).source_root,
        final(job).staging_prefix == old(job).staging_prefix,
        final(job).phase == old(job).phase,
        final(job).artwork == old(job).artwork,
{
    let ghost before = job.files@;
    let mut i: usize = 0;
    while i < job.files.len()
        invariant
            i <= job.files@.len(),
            before == old(job).files@,
            job.files@.len() == before.len(),
            forall|k: int| 0 <= k < i ==> job.files@[k] == resumed(before[k]),
            forall|k: int| i <= k < before.len() ==> job.files@[k] == before[k],
            job.id == old(job).id,
            job.source_root == old(job).source_root,
            job.staging_prefix == old(job).staging_prefix,
            job.phase == old(job).phase,
            job.artwork == old(job).artwork,
        decreases job.files@.len() - i,
    {
        let retry: bool = match job.files[i].state {
            FileState::Uploading => true,
            FileState::Failed => true,
            _ => false,
        };
        if retry {
            let mut file = job.files[i].copy();
            file.state = FileState::Hashed;
            file.error = None;
            job.files.set(i, file);
        }
        i = i + 1;
    }
    proof {
        assert(job.files@ =~= before.map_values(|f: PlannedFile| resumed(f)));
    }
}

/// Preparing twice is preparing once.
pub proof fn law_prepare_is_idempotent(f: PlannedFile)
    ensures
        resumed(resumed(f)) == resumed(f),
{
}

/// Preparing gives up no finished work: a file that was recognized, uploaded,
/// verified or committed stays as it is, and no file loses its fingerprint.
pub proof fn law_prepare_keeps_finished_work(f: PlannedFile)
    ensures
        f.state is Duplicate || f.state is Uploaded || f.state is Verified || f.state is Committed
            ==> resumed(f) == f,
        resumed(f).sha256 == f.sha256,
        resumed(f).path == f.path,
        !(resumed(f).state is Uploading),
        !(resumed(f).state is Failed),
{
}

/// An upload that was under way or failed is put back in line, with nothing held
/// against it; every other file is taken up as it is.
pub proof fn law_interrupted_upload_is_tried_again(f: PlannedFile)
    ensures
        f.state is Uploading || f.state is Failed ==> {
            let g = resumed(f);
            &&& g.state is Hashed
            &&& g.error is None
            &&& g.path == f.path
            &&& g.sha256 == f.sha256
            &&& g.size == f.size
            &&& g.mtime == f.mtime
            &&& g.attempts == f.attempts
        },
        !(f.state is Uploading) && !(f.state is Failed) ==> resumed(f) == f,
{
}

/// A count of a state is the number of files in it.
pub proof fn law_count_is_the_number_of_files(files: Seq<PlannedFile>, wanted: FileState)
    ensures
        count_state(states(files), wanted) == files.filter(
            |f: PlannedFile| f.state == wanted,
        ).len(),
    decreases files.len(),
{
    reveal(Seq::filter);
    if files.len() > 0 {
        law_count_is_the_number_of_files(files.drop_last(), wanted);
        assert(states(files).drop_last() =~= states(files.drop_last()));
    }
}

/// Whether two optional texts are the same.
pub fn same_opt(a: &Option<String>, b: &Option<String>) -> (r: bool)
    ensures
        r == (text::opt_view(*a) == text::opt_view(*b)),
{
    match (a, b) {
        (None, None) => true,
        (Some(x), Some(y)) => text::same(x.as_str(), y.as_str()),
        _ => false,
    }
}

/// Whether a file on disk still looks as it did when it was fingerprinted.
pub open spec fn looks_unchanged(f: PlannedFile, size: u64, mtime: Option<String>) -> bool {
    f.size == size && text::opt_view(f.mtime) == text::opt_view(mtime)
}

/// Whether a file on disk still looks as it did when it was fingerprinted.
pub fn is_unchanged(f: &PlannedFile, size: u64, mtime: &Option<String>) -> (r: bool)
    ensures
        r == looks_unchanged(*f, size, *mtime),
{
    f.size == size && same_opt(&f.mtime, mtime)
}

/// Whether a file has to be looked at again before an upload.
pub open spec fn wants_refresh(f: PlannedFile) -> bool {
    !(f.state is Duplicate) && !(f.state is Committed) && f.sha256@.len() > 0
}

/// Whether a file has to be looked at again before an upload.
pub fn needs_refresh(f: &PlannedFile) -> (r: bool)
    ensures
        r == wants_refresh(*f),
{
    match f.state {
        FileState::Duplicate => false,
        FileState::Committed => false,
        _ => !f.sha256.as_str().is_empty(),
    }
}

/// Size and modification time of a file on disk.
#[derive(Debug, Clone, PartialEq, Eq)]
pub struct FileStamp {
    pub size: u64,
    pub mtime: Option<String>,
}

/// Whether a file has to be read again before an upload: it is not settled, it
/// can be found, and it does not look as it did.
pub open spec fn changed(f: PlannedFile, found: Option<FileStamp>) -> bool {
    wants_refresh(f) && match found {
        Some(stamp) => !looks_unchanged(f, stamp.size, stamp.mtime),
        None => false,
    }
}

/// A file is read again before an upload exactly if it is not settled, has a
/// fingerprint, can be found, and has another size or modification time than when it
/// was fingerprinted.
pub proof fn law_only_changed_files_are_read_again(f: PlannedFile, stamp: FileStamp)
    ensures
        changed(f, Some(stamp)) <==> {
            &&& !(f.state is Duplicate)
            &&& !(f.state is Committed)
            &&& f.sha256@.len() > 0
            &&& (f.size != stamp.size || text::opt_view(f.mtime) != text::opt_view(stamp.mtime))
        },
        !changed(f, None),
{
}

/// Whether a file has to be read again before an upload.
pub fn has_changed(f: &PlannedFile, found: &Option<FileStamp>) -> (r: bool)
    ensures
        r == changed(*f, *found),
{
    match found {
        Some(stamp) => needs_refresh(f) && !is_unchanged(f, stamp.size, &stamp.mtime),
        None => false,
    }
}

/// Whether a file is the same one, fingerprinted anew.
pub open spec fn is_refreshed(
    new: PlannedFile,
    f: PlannedFile,
    size: u64,
    mtime: Option<String>,
    bytes: Seq<u8>,
) -> bool {
    &&& new.path == f.path
    &&& new.size == size
    &&& new.mtime == mtime
    &&& new.sha256@ == hash::sha256_hex(bytes)
    &&& new.state is Hashed
    &&& new.object_key is None
    &&& new.track_id == f.track_id
    &&& new.etag is None
    &&& new.error is None
    &&& new.attempts == 0
    &&& new.duplicate_reason == f.duplicate_reason
}

/// A file that was fingerprinted anew is in line for an upload, under the hash of what
/// was read, and does not count as changed as long as it looks as it did then.
pub proof fn law_refreshed_file_is_up_to_date(
    new: PlannedFile,
    f: PlannedFile,
    stamp: FileStamp,
    bytes: Seq<u8>,
)
    requires
        is_refreshed(new, f, stamp.size, stamp.mtime, bytes),
    ensures
        new.state is Hashed,
        new.sha256@ == hash::sha256_hex(bytes),
        new.path == f.path,
        new.object_key is None,
        new.error is None,
        !changed(new, Some(stamp)),
        resumed(new) == new,
{
}

/// Fingerprints a file that has changed on disk since it was planned, and puts
/// it back in line for the upload.
pub fn refresh_file(f: &mut PlannedFile, size: u64, mtime: Option<String>, bytes: &[u8])
    ensures
        is_refreshed(*final(f), *old(f), size, mtime, bytes@),
{
    f.size = size;
    f.mtime = mtime;
    f.sha256 = hash::hash_bytes(bytes);
    f.state = FileState::Hashed;
    f.object_key = None;
    f.etag = None;
    f.error = None;
    f.attempts = 0;
}

// ---------------------------------------------------------------------------
// Names
// ---------------------------------------------------------------------------

/// The lower-case extension of a path, or a substitute.
pub open spec fn extension_or(path: Seq<char>, fallback: Seq<char>) -> Seq<char> {
    match path::extension(path) {
        Some(e) => text::lowered(e),
        None => fallback,
    }
}

/// The last name of a path, or a substitute.
pub open spec fn name_or(path: Seq<char>, fallback: Seq<char>) -> Seq<char> {
    match path::file_name(path) {
        Some(n) => n,
        None => fallback,
    }
}

/// The extension of a file is what stands behind the last dot of its name, in small
/// letters; where there is none, the substitute counts as it is. Its name is what
/// stands behind the last separator.
pub proof fn law_names_are_taken_from_the_path(
    dir: Seq<char>,
    stem: Seq<char>,
    ext: Seq<char>,
    fallback: Seq<char>,
)
    requires
        path::is_name(stem.push('.') + ext),
        stem.len() > 0,
        !ext.contains('.'),
    ensures
        extension_or(dir.push('/') + (stem.push('.') + ext), fallback) == text::lowered(ext),
        name_or(dir.push('/') + (stem.push('.') + ext), fallback) == stem.push('.') + ext,
        path::extension(dir) is None ==> extension_or(dir, fallback) == fallback,
        path::file_name(dir) is None ==> name_or(dir, fallback) == fallback,
{
    path::law_extension_stands_behind_the_last_dot(dir, stem, ext);
    path::law_last_name_stands_behind_the_separator(dir, stem.push('.') + ext);
}

/// The lower-case extension of a path, or a substitute.
pub fn extension_or_else(path: &str, fallback: &str) -> (r: String)
    ensures
        r@ == extension_or(path@, fallback@),
{
    match path::extension_of(path) {
        Some(e) => text::to_lowercase(e.as_str()),
        None => fallback.to_owned(),
    }
}

/// The last name of a path, or a substitute.
pub fn name_or_else(path: &str, fallback: &str) -> (r: String)
    ensures
        r@ == name_or(path@, fallback@),
{
    match path::file_name_of(path) {
        Some(n) => n,
        None => fallback.to_owned(),
    }
}

/// The name of a staged upload: the hash as a folder, the file's own name in
/// it.
pub fn staging_relative(sha256: &str, path: &str) -> (r: String)
    ensures
        r@ == sha256@ + "/"@ + name_or(path@, "object"@),
{
    let name = name_or_else(path, "object");
    text::cat3(sha256, "/", name.as_str())
}

/// The committed name of an audio file: its hash and its extension.
pub fn canonical_music_relative(sha256: &str, path: &str) -> (r: String)
    ensures
        r@ == sha256@ + "."@ + extension_or(path@, "bin"@),
{
    let ext = extension_or_else(path, "bin");
    text::cat3(sha256, ".", ext.as_str())
}

/// A modification time as text: seconds, a dot, and nine digits of
/// nanoseconds.
pub fn format_mtime(secs: u64, nanos: u32) -> (r: String)
    ensures
        r@ == text::decimal(secs as nat) + "."@ + text::padded(text::decimal(nanos as nat), 9),
{
    let whole = text::decimal_text(secs);
    let part = text::padded_decimal_text(nanos as u64, 9);
    text::cat3(whole.as_str(), ".", part.as_str())
}

} // verus!

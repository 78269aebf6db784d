//! Planning an import: every discovered file is fingerprinted and held against
//! what the job and the archive already have.

use vstd::prelude::*;

use crate::collections::TextMap;
use crate::error::Error;
use crate::hash;
use crate::import::job;
use crate::import::job::{
    ArtworkCandidate, DuplicateReason, ImportJob, ImportOptions, PlannedFile,
};
use crate::import::scan;
use crate::import::state::{FileState, Phase};
use crate::library::listing;
use crate::library::shape;
use crate::library::shape::Entry;
use crate::library::slug;
use crate::model;
use crate::model::ArchiveEntry;
use crate::sort;
use crate::text;

verus! {

// ---------------------------------------------------------------------------
// Discovery
// ---------------------------------------------------------------------------

/// What stands at the path that an import starts from.
#[derive(Debug)]
pub enum Source {
    /// A folder with these entries.
    Directory { entries: Vec<Entry> },
    /// A single file.
    File,
    /// Nothing that can be imported.
    Missing,
}

/// The audio files in one entry of a listing, in the order of the walk.
pub open spec fn entry_audio(e: Entry, extensions: Seq<&str>, include_dotfiles: bool) -> Seq<
    Seq<char>,
>
    decreases e,
{
    if scan::hidden(shape::entry_path(e), include_dotfiles) {
        Seq::empty()
    } else {
        match e {
            Entry::Dir { path, entries } => listing_audio(entries@, extensions, include_dotfiles),
            Entry::File { path, .. } => if scan::extension_in(path@, extensions) {
                seq![path@]
            } else {
                Seq::empty()
            },
            Entry::Other { path } => if scan::extension_in(path@, extensions) {
                seq![path@]
            } else {
                Seq::empty()
            },
        }
    }
}

/// The audio files in a listing, in the order of the walk. Hidden files and
/// whatever is in hidden folders are left out.
pub open spec fn listing_audio(
    entries: Seq<Entry>,
    extensions: Seq<&str>,
    include_dotfiles: bool,
) -> Seq<Seq<char>>
    decreases entries,
{
    if entries.len() == 0 {
        Seq::empty()
    } else {
        listing_audio(entries.drop_last(), extensions, include_dotfiles) + entry_audio(
            entries.last(),
            extensions,
            include_dotfiles,
        )
    }
}

/// Collects the audio files in a listing.
fn scan_dir(entries: &Vec<Entry>, extensions: &[&str], include_dotfiles: bool, out: &mut Vec<String>)
    ensures
        text::views(final(out)@) == text::views(old(out)@) + listing_audio(
            entries@,
            extensions@,
            include_dotfiles,
        ),
    decreases entries@,
{
    let ghost start = text::views(out@);
    let mut i: usize = 0;
    proof {
        assert(entries@.take(0) =~= Seq::<Entry>::empty());
        assert(start + Seq::<Seq<char>>::empty() =~= start);
    }
    while i < entries.len()
        invariant
            i <= entries@.len(),
            text::views(out@) == start + listing_audio(
                entries@.take(i as int),
                extensions@,
                include_dotfiles,
            ),
        decreases entries@.len() - i,
    {
        let entry: &Entry = &entries[i];
        let ghost here = listing_audio(entries@.take(i as int), extensions@, include_dotfiles);
        let ghost before = text::views(out@);
        proof {
            let next = entries@.take(i + 1);
            assert(next.drop_last() =~= entries@.take(i as int));
            assert(next.last() == *entry);
            assert(start + (here + Seq::<Seq<char>>::empty()) =~= start + here);
            assert(listing_audio(next, extensions@, include_dotfiles) == here + entry_audio(
                *entry,
                extensions@,
                include_dotfiles,
            ));
        }
        match entry {
            Entry::Dir { path, entries: inner } => {
                if !scan::is_hidden(path.as_str(), include_dotfiles) {
                    scan_dir(inner, extensions, include_dotfiles, out);
                    proof {
                        let more = listing_audio(inner@, extensions@, include_dotfiles);
                        assert(start + here + more =~= start + (here + more));
                    }
                }
            },
            Entry::File { path, .. } => {
                if !scan::is_hidden(path.as_str(), include_dotfiles) && scan::is_audio(
                    path.as_str(),
                    extensions,
                ) {
                    out.push(path.clone());
                    proof {
                        assert(text::views(out@) =~= before.push(path@));
                        assert(before.push(path@) =~= start + (here + seq![path@]));
                    }
                }
            },
            Entry::Other { path } => {
                if !scan::is_hidden(path.as_str(), include_dotfiles) && scan::is_audio(
                    path.as_str(),
                    extensions,
                ) {
                    out.push(path.clone());
                    proof {
                        assert(text::views(out@) =~= before.push(path@));
                        assert(before.push(path@) =~= start + (here + seq![path@]));
                    }
                }
            },
        }
        proof {
            let one = entry_audio(*entry, extensions@, include_dotfiles);
            assert(text::views(out@) =~= start + (here + one));
        }
        i = i + 1;
    }
    proof {
        assert(entries@.take(entries@.len() as int) =~= entries@);
    }
}

/// The audio files that an import from a source takes, in the order of the
/// walk.
pub open spec fn discovered(
    path: Seq<char>,
    source: Source,
    extensions: Seq<&str>,
    include_dotfiles: bool,
) -> Seq<Seq<char>> {
    match source {
        Source::Directory { entries } => listing_audio(entries@, extensions, include_dotfiles),
        Source::File => if !scan::hidden(path, include_dotfiles) && scan::extension_in(
            path,
            extensions,
        ) {
            seq![path]
        } else {
            Seq::empty()
        },
        Source::Missing => Seq::empty(),
    }
}

/// Whether an entry has one of the given extensions.
pub open spec fn with_extension(extensions: Seq<&str>) -> spec_fn(Entry) -> bool {
    |e: Entry| scan::extension_in(shape::entry_path(e), extensions)
}

/// Whether paths are those of the audio files in a listing that an import sees:
/// of each such file, at any depth, exactly once, and of nothing else.
pub open spec fn finds_all_audio(
    found: Seq<Seq<char>>,
    entries: Seq<Entry>,
    extensions: Seq<&str>,
    include_dotfiles: bool,
) -> bool {
    exists|trails: Seq<Seq<int>>|
        {
            &&& #[trigger] listing::is_walk(
                entries,
                trails,
                with_extension(extensions),
                include_dotfiles,
            )
            &&& found.len() == trails.len()
            &&& forall|a: int|
                0 <= a < found.len() ==> #[trigger] found[a] == shape::entry_path(
                    listing::entry_at(entries, trails[a])->0,
                )
        }
}

proof fn lemma_audio_gathered(entries: Seq<Entry>, extensions: Seq<&str>, include_dotfiles: bool)
    ensures
        ({
            let wanted = with_extension(extensions);
            listing_audio(entries, extensions, include_dotfiles) == listing::gathered(
                entries,
                listing::walk(entries, wanted, include_dotfiles),
                |e: Entry, depth: int| shape::entry_path(e),
                0,
            )
        }),
    decreases entries,
{
    let wanted = with_extension(extensions);
    let known = |e: Entry, depth: int| shape::entry_path(e);
    if entries.len() > 0 {
        listing::lemma_gathered(entries, wanted, include_dotfiles, known, 0);
        lemma_audio_gathered(entries.drop_last(), extensions, include_dotfiles);
        match entries.last() {
            Entry::Dir { path, entries: inner } => {
                lemma_audio_gathered(inner@, extensions, include_dotfiles);
                let trails = listing::walk(inner@, wanted, include_dotfiles);
                assert(listing::gathered(inner@, trails, known, 0) =~= listing::gathered(
                    inner@,
                    trails,
                    known,
                    1,
                ));
            },
            _ => {},
        }
        assert(entry_audio(entries.last(), extensions, include_dotfiles) =~= if scan::hidden(
            shape::entry_path(entries.last()),
            include_dotfiles,
        ) {
            Seq::empty()
        } else {
            match entries.last() {
                Entry::Dir { path, entries: inner } => listing::gathered(
                    inner@,
                    listing::walk(inner@, wanted, include_dotfiles),
                    known,
                    1,
                ),
                _ => if wanted(entries.last()) {
                    seq![known(entries.last(), 0)]
                } else {
                    Seq::empty()
                },
            }
        });
    } else {
        assert(listing_audio(entries, extensions, include_dotfiles) =~= listing::gathered(
            entries,
            listing::walk(entries, wanted, include_dotfiles),
            known,
            0,
        ));
    }
}

/// An import of a folder finds every audio file in it, at any depth, once, unless
/// the name of the file or of a folder on the way to it starts with a dot; it finds
/// nothing else. With dotfiles included, no name is left out for its dot.
pub proof fn law_import_finds_visible_audio(
    path: Seq<char>,
    source: Source,
    extensions: Seq<&str>,
    include_dotfiles: bool,
)
    requires
        source is Directory,
    ensures
        finds_all_audio(
            discovered(path, source, extensions, include_dotfiles),
            source->entries@,
            extensions,
            include_dotfiles,
        ),
        forall|a: int|
            0 <= a < discovered(path, source, extensions, include_dotfiles).len() ==> {
                let p = #[trigger] discovered(path, source, extensions, include_dotfiles)[a];
                &&& !include_dotfiles ==> !listing::is_dotted(p)
                &&& scan::extension_in(p, extensions)
            },
{
    let entries = source->entries@;
    let wanted = with_extension(extensions);
    let known = |e: Entry, depth: int| shape::entry_path(e);
    let trails = listing::walk(entries, wanted, include_dotfiles);
    let found = discovered(path, source, extensions, include_dotfiles);
    lemma_audio_gathered(entries, extensions, include_dotfiles);
    listing::law_walk_sees_all(entries, wanted, include_dotfiles);
    assert(found == listing::gathered(entries, trails, known, 0));
    assert forall|a: int| 0 <= a < found.len() implies {
        let p = #[trigger] found[a];
        &&& !include_dotfiles ==> !listing::is_dotted(p)
        &&& scan::extension_in(p, extensions)
    } by {
        let t = trails[a];
        assert(listing::is_seen(entries, t, wanted, include_dotfiles));
        assert(t.take(t.len() as int) =~= t);
        assert(found[a] == shape::entry_path(listing::entry_at(entries, t)->0));
    }
}

/// An import of a single file takes it if it is audio and its name does not start
/// with a dot, or dotfiles are included.
pub proof fn law_import_takes_single_audio_file(
    path: Seq<char>,
    extensions: Seq<&str>,
    include_dotfiles: bool,
)
    ensures
        discovered(path, Source::File, extensions, include_dotfiles).len() <= 1,
        discovered(path, Source::File, extensions, include_dotfiles).contains(path) == (
        scan::extension_in(path, extensions) && (include_dotfiles || !listing::is_dotted(path))),
        discovered(path, Source::File, extensions, include_dotfiles).len() == 1
            ==> discovered(path, Source::File, extensions, include_dotfiles)[0] == path,
{
    let found = discovered(path, Source::File, extensions, include_dotfiles);
    if found.len() == 1 {
        assert(found[0] == path);
    }
}

/// Finds the audio files that an import takes.
///
/// Fails with `NotFound` if there is nothing at the source, and only then.
pub fn discover_audio(path: &str, source: &Source, extensions: &[&str], include_dotfiles: bool) -> (r:
    Result<Vec<String>, Error>)
    ensures
        match r {
            Ok(list) => {
                &&& !(source is Missing)
                &&& text::views(list@) == discovered(
                    path@,
                    *source,
                    extensions@,
                    include_dotfiles,
                )
                &&& source matches Source::Directory { entries } ==> finds_all_audio(
                    text::views(list@),
                    entries@,
                    extensions@,
                    include_dotfiles,
                )
            },
            Err(e) => source is Missing && (e matches Error::NotFound(m) && m@
                == "import source not found: "@ + path@),
        },
{
    let mut out: Vec<String> = Vec::new();
    proof {
        assert(text::views(out@) =~= Seq::<Seq<char>>::empty());
    }
    match source {
        Source::Directory { entries } => {
            scan_dir(entries, extensions, include_dotfiles, &mut out);
            proof {
                let all = listing_audio(entries@, extensions@, include_dotfiles);
                assert(Seq::<Seq<char>>::empty() + all =~= all);
                law_import_finds_visible_audio(path@, *source, extensions@, include_dotfiles);
            }
            Ok(out)
        },
        Source::File => {
            if !scan::is_hidden(path, include_dotfiles) && scan::is_audio(path, extensions) {
                out.push(path.to_owned());
                proof {
                    assert(text::views(out@) =~= seq![path@]);
                }
            }
            Ok(out)
        },
        Source::Missing => Err(Error::NotFound(text::cat2("import source not found: ", path))),
    }
}

/// Finds the audio files that an import takes, in path order.
///
/// Fails with `NotFound` if there is nothing at the source, and only then.
pub fn discover_sorted(path: &str, source: &Source, extensions: &[&str], include_dotfiles: bool) -> (r:
    Result<Vec<String>, Error>)
    ensures
        match r {
            Ok(list) => {
                let found = discovered(path@, *source, extensions@, include_dotfiles);
                &&& !(source is Missing)
                &&& text::views(list@) == sort::sorted_paths(found)
                &&& sort::is_path_order(found, sort::path_order(found))
            },
            Err(e) => source is Missing && (e matches Error::NotFound(m) && m@
                == "import source not found: "@ + path@),
        },
{
    match discover_audio(path, source, extensions, include_dotfiles) {
        Ok(list) => Ok(sort::sort_paths(&list)),
        Err(e) => Err(e),
    }
}

/// Whether an import gathers the artwork that stands next to the audio: the
/// import of a folder does, unless that is switched off; that of a single file
/// does not.
pub fn gathers_artwork(options: &ImportOptions, source: &Source) -> (r: bool)
    ensures
        r == (options.capture_artwork && source is Directory),
{
    match source {
        Source::Directory { .. } => options.capture_artwork,
        _ => false,
    }
}

// ---------------------------------------------------------------------------
// Fingerprints
// ---------------------------------------------------------------------------

/// Whether a file of an interrupted plan has a fingerprint already.
pub open spec fn has_fingerprint(f: PlannedFile) -> bool {
    (f.state is Hashed || f.state is Duplicate) && f.sha256@.len() > 0
}

/// Whether a file of an interrupted plan has a fingerprint already.
fn is_fingerprinted(f: &PlannedFile) -> (r: bool)
    ensures
        r == has_fingerprint(*f),
{
    let settled: bool = match f.state {
        FileState::Hashed => true,
        FileState::Duplicate => true,
        _ => false,
    };
    settled && !f.sha256.as_str().is_empty()
}

/// Whether a file of an interrupted plan does not have to be fingerprinted
/// again.
pub open spec fn skippable(f: PlannedFile, size: u64, mtime: Option<String>) -> bool {
    has_fingerprint(f) && job::looks_unchanged(f, size, mtime)
}

/// Whether a file of an interrupted plan does not have to be fingerprinted
/// again.
pub fn can_skip_fingerprint(f: &PlannedFile, size: u64, mtime: &Option<String>) -> (r: bool)
    ensures
        r == skippable(*f, size, *mtime),
{
    is_fingerprinted(f) && job::is_unchanged(f, size, mtime)
}

/// A row of the fingerprint cache: size, modification time and hash.
#[derive(Debug, Clone, PartialEq, Eq)]
pub struct CachedFingerprint {
    pub size_bytes: u64,
    pub mtime: Option<String>,
    pub sha256: String,
}

/// The hash that a cache row vouches for, if the file still looks the same.
pub open spec fn cached_hash(
    row: Option<CachedFingerprint>,
    size: u64,
    mtime: Option<Seq<char>>,
) -> Option<Seq<char>> {
    match row {
        Some(c) => if c.size_bytes == size && text::opt_view(c.mtime) == mtime {
            Some(c.sha256@)
        } else {
            None
        },
        None => None,
    }
}

/// The hash that a cache row vouches for.
pub fn cache_lookup(row: &Option<CachedFingerprint>, size: u64, mtime: &Option<String>) -> (r:
    Option<String>)
    ensures
        text::opt_view(r) == cached_hash(*row, size, text::opt_view(*mtime)),
{
    match row {
        Some(c) => {
            if c.size_bytes == size && job::same_opt(&c.mtime, mtime) {
                Some(c.sha256.clone())
            } else {
                None
            }
        },
        None => None,
    }
}

/// The first archived track of the given size among those with the file's
/// slug.
pub open spec fn slug_match(candidates: Seq<model::EntryView>, size: u64) -> Option<Seq<char>>
    decreases candidates.len(),
{
    if candidates.len() == 0 {
        None
    } else if candidates[0].size_bytes == size {
        Some(candidates[0].sha256)
    } else {
        slug_match(candidates.drop_first(), size)
    }
}

/// The hash of the first archived track with the file's slug and size.
pub fn match_by_slug(candidates: &Vec<ArchiveEntry>, size: u64) -> (r: Option<String>)
    ensures
        text::opt_view(r) == slug_match(model::entry_views(candidates@), size),
{
    let ghost all = model::entry_views(candidates@);
    let mut i: usize = 0;
    proof {
        assert(all.skip(0) =~= all);
    }
    while i < candidates.len()
        invariant
            i <= candidates@.len(),
            all == model::entry_views(candidates@),
            slug_match(all, size) == slug_match(all.skip(i as int), size),
        decreases candidates@.len() - i,
    {
        proof {
            assert(all.skip(i as int)[0] == candidates@[i as int]@);
            assert(all.skip(i as int).drop_first() =~= all.skip(i + 1));
        }
        if candidates[i].size_bytes == size {
            return Some(candidates[i].sha256.clone());
        }
        i = i + 1;
    }
    None
}

/// Whether a file was settled by its content: it is a duplicate if its content
/// was seen before or is archived, else it is new.
pub open spec fn settled_by_hash(
    new: PlannedFile,
    f: PlannedFile,
    size: u64,
    mtime: Option<String>,
    sha256: Seq<char>,
    known: bool,
) -> bool {
    &&& new.path == f.path
    &&& new.size == size
    &&& new.mtime == mtime
    &&& new.sha256@ == sha256
    &&& new.state == (if known {
        FileState::Duplicate
    } else {
        FileState::Hashed
    })
    &&& new.object_key == f.object_key
    &&& new.track_id == f.track_id
    &&& new.etag == f.etag
    &&& new.error is None
    &&& new.attempts == f.attempts
    &&& new.duplicate_reason is None
}

/// Whether a file was settled by its slug and size: the archive's hash is
/// taken on trust, and the file is a duplicate.
pub open spec fn settled_by_slug(
    new: PlannedFile,
    f: PlannedFile,
    size: u64,
    mtime: Option<String>,
    sha256: Seq<char>,
) -> bool {
    &&& new.path == f.path
    &&& new.size == size
    &&& new.mtime == mtime
    &&& new.sha256@ == sha256
    &&& new.state is Duplicate
    &&& new.object_key == f.object_key
    &&& new.track_id == f.track_id
    &&& new.etag == f.etag
    &&& new.error is None
    &&& new.attempts == f.attempts
    &&& new.duplicate_reason == Some(DuplicateReason::SlugAndSize)
}

// ---------------------------------------------------------------------------
// The run
// ---------------------------------------------------------------------------

/// Where the planning of a file stands, and with it what has to be found out
/// next.
#[derive(Debug, Clone, PartialEq, Eq)]
pub enum PlanStage {
    /// No file is in hand.
    Idle,
    /// Size and modification time tell whether a fingerprint from before still
    /// stands.
    Compare { file: PlannedFile },
    /// The file is to be stored as being scanned; then its size and
    /// modification time are wanted.
    Scan { file: PlannedFile },
    /// The archived tracks at the file's place of the library are wanted.
    Slug { file: PlannedFile, size: u64, mtime: Option<String>, slug: String },
    /// The row that the fingerprint cache has for the path is wanted.
    Cache { file: PlannedFile, size: u64, mtime: Option<String> },
    /// The bytes are wanted.
    Read { file: PlannedFile, size: u64, mtime: Option<String> },
    /// Whether the archive has the content is wanted. A hash that was just
    /// computed goes into the fingerprint cache first.
    Archive {
        file: PlannedFile,
        size: u64,
        mtime: Option<String>,
        sha256: String,
        computed: bool,
    },
    /// The file is planned, and is to be stored.
    Settled { file: PlannedFile },
    /// The file is planned as it was.
    Kept { file: PlannedFile },
}

/// What was found out.
#[derive(Debug)]
pub enum PlanEvent {
    /// Size and modification time of the file.
    Found { size: u64, mtime: Option<String> },
    /// The archived tracks with the file's slug.
    Candidates { entries: Vec<ArchiveEntry> },
    /// The row of the fingerprint cache.
    Cached { row: Option<CachedFingerprint> },
    /// The content of the file.
    Content { bytes: Vec<u8> },
    /// Whether the archive has the content.
    Archived { known: bool },
}

/// A plan in the making.
pub struct PlanRun {
    job: ImportJob,
    paths: Vec<String>,
    root: Option<String>,
    existing: TextMap<PlannedFile>,
    seen: TextMap<bool>,
    files: Vec<PlannedFile>,
    at: usize,
    stage: PlanStage,
    archived: Ghost<Set<Seq<char>>>,
}

/// The hashes that files of an interrupted plan have settled.
pub open spec fn settled_hashes(files: Map<Seq<char>, PlannedFile>) -> Set<Seq<char>> {
    Set::new(
        |h: Seq<char>|
            exists|p: Seq<char>| #[trigger]
                files.contains_key(p) && files[p].sha256@ == h && (files[p].state is Hashed
                    || files[p].state is Duplicate),
    )
}

/// Whether no two files that are to be uploaded have the same content.
pub open spec fn uploads_distinct(files: Seq<PlannedFile>) -> bool {
    forall|i: int, j: int|
        0 <= i < j < files.len() && (#[trigger] files[i]).state is Hashed && (
        #[trigger] files[j]).state is Hashed ==> files[i].sha256@ != files[j].sha256@
}

/// Whether no two files by path that are to be uploaded have the same content.
pub open spec fn are_apart(files: Map<Seq<char>, PlannedFile>) -> bool {
    forall|p: Seq<char>, q: Seq<char>|
        p != q && #[trigger] files.contains_key(p) && #[trigger] files.contains_key(q)
            && files[p].state is Hashed && files[q].state is Hashed ==> files[p].sha256@
            != files[q].sha256@
}

/// Whether a file is not to be uploaded, or its content is neither among that of
/// planned files that are, nor among that of files that are left.
spec fn is_clear(f: PlannedFile, files: Seq<PlannedFile>, left: Map<Seq<char>, PlannedFile>) -> bool {
    f.state is Hashed ==> {
        &&& forall|i: int|
            0 <= i < files.len() && (#[trigger] files[i]).state is Hashed ==> files[i].sha256@
                != f.sha256@
        &&& forall|p: Seq<char>| #[trigger]
            left.contains_key(p) && left[p].state is Hashed ==> left[p].sha256@ != f.sha256@
    }
}

/// Whether no planned file that is to be uploaded has the content of one that is
/// left.
spec fn left_is_clear(files: Seq<PlannedFile>, left: Map<Seq<char>, PlannedFile>) -> bool {
    forall|i: int, p: Seq<char>|
        0 <= i < files.len() && (#[trigger] files[i]).state is Hashed && #[trigger]
            left.contains_key(p) && left[p].state is Hashed ==> files[i].sha256@ != left[p].sha256@
}

/// Whether the content of every file that is to be uploaded has been seen.
pub open spec fn uploads_seen(files: Seq<PlannedFile>, seen: Set<Seq<char>>) -> bool {
    forall|i: int|
        0 <= i < files.len() && (#[trigger] files[i]).state is Hashed ==> seen.contains(
            files[i].sha256@,
        )
}

/// Whether content is among what is to be uploaded.
pub open spec fn is_to_be_uploaded(files: Seq<PlannedFile>, sha256: Seq<char>) -> bool {
    exists|j: int|
        0 <= j < files.len() && (#[trigger] files[j]).state is Hashed && files[j].sha256@ == sha256
}

/// Whether the content of every duplicate is archived, or to be uploaded for a
/// file before it.
pub open spec fn nothing_lost(files: Seq<PlannedFile>, archived: Set<Seq<char>>) -> bool {
    forall|i: int|
        0 <= i < files.len() && (#[trigger] files[i]).state is Duplicate ==> archived.contains(
            files[i].sha256@,
        ) || is_to_be_uploaded(files.take(i), files[i].sha256@)
}

/// The content that an answer says is archived, if it says so of any.
pub open spec fn vouched_by(stage: PlanStage, event: PlanEvent) -> Option<Seq<char>> {
    match (stage, event) {
        (
            PlanStage::Slug { size, .. },
            PlanEvent::Candidates { entries },
        ) => slug_match(model::entry_views(entries@), size),
        (PlanStage::Archive { sha256, .. }, PlanEvent::Archived { known }) => if known {
            Some(sha256@)
        } else {
            None
        },
        _ => None,
    }
}

/// The files of a list by path, the last one with a path winning.
pub open spec fn by_path(files: Seq<PlannedFile>) -> Map<Seq<char>, PlannedFile>
    decreases files.len(),
{
    if files.len() == 0 {
        Map::empty()
    } else {
        by_path(files.drop_last()).insert(files.last().path@, files.last())
    }
}

/// The place of a file in the library, if a library root is declared and the
/// file stands below it.
pub open spec fn place_of(root: Option<Seq<char>>, path: Seq<char>) -> Option<Seq<char>> {
    match root {
        Some(r) => slug::slug(r, path),
        None => None,
    }
}

/// Whether a stage follows from another one and what was found out. What was
/// not asked for changes nothing.
pub open spec fn is_step(
    stage: PlanStage,
    event: PlanEvent,
    root: Option<Seq<char>>,
    seen: Set<Seq<char>>,
    next: PlanStage,
) -> bool {
    match (stage, event) {
        (PlanStage::Compare { file }, PlanEvent::Found { size, mtime }) => if skippable(
            file,
            size,
            mtime,
        ) {
            next == (PlanStage::Kept { file })
        } else {
            next == (PlanStage::Scan {
                file: PlannedFile { state: FileState::Scanning, ..file },
            })
        },
        (PlanStage::Scan { file }, PlanEvent::Found { size, mtime }) => match place_of(
            root,
            file.path@,
        ) {
            Some(place) => next matches PlanStage::Slug { file: f, size: n, mtime: m, slug } && f
                == file && n == size && m == mtime && slug@ == place,
            None => next == (PlanStage::Cache { file, size, mtime }),
        },
        (
            PlanStage::Slug { file, size, mtime, slug: _ },
            PlanEvent::Candidates { entries },
        ) => match slug_match(model::entry_views(entries@), size) {
            Some(sha256) => next matches PlanStage::Settled { file: f } && settled_by_slug(
                f,
                file,
                size,
                mtime,
                sha256,
            ),
            None => next == (PlanStage::Cache { file, size, mtime }),
        },
        (
            PlanStage::Cache { file, size, mtime },
            PlanEvent::Cached { row },
        ) => match cached_hash(row, size, text::opt_view(mtime)) {
            Some(sha256) => is_hashed(next, file, size, mtime, sha256, false),
            None => next == (PlanStage::Read { file, size, mtime }),
        },
        (PlanStage::Read { file, size, mtime }, PlanEvent::Content { bytes }) => is_hashed(
            next,
            file,
            size,
            mtime,
            hash::sha256_hex(bytes@),
            true,
        ),
        (
            PlanStage::Archive { file, size, mtime, sha256, computed: _ },
            PlanEvent::Archived { known },
        ) => next matches PlanStage::Settled { file: f } && settled_by_hash(
            f,
            file,
            size,
            mtime,
            sha256@,
            known || seen.contains(sha256@),
        ),
        _ => next == stage,
    }
}

/// Whether a file has got its hash, from the cache or computed.
pub open spec fn is_hashed(
    next: PlanStage,
    file: PlannedFile,
    size: u64,
    mtime: Option<String>,
    sha256: Seq<char>,
    computed: bool,
) -> bool {
    next matches PlanStage::Archive { file: f, size: n, mtime: m, sha256: h, computed: c } && f
        == file && n == size && m == mtime && h@ == sha256 && c == computed
}

/// The file that a stage has planned, if it has planned one.
pub open spec fn planned_by(stage: PlanStage) -> Option<PlannedFile> {
    match stage {
        PlanStage::Settled { file } => Some(file),
        PlanStage::Kept { file } => Some(file),
        _ => None,
    }
}

/// Whether a stage waits for something to be found out.
pub open spec fn is_open(stage: PlanStage) -> bool {
    !(stage is Idle) && planned_by(stage) is None
}

/// How many answers a file can need at most from a stage on.
pub open spec fn answers_left(stage: PlanStage) -> nat {
    match stage {
        PlanStage::Compare { .. } => 6,
        PlanStage::Scan { .. } => 5,
        PlanStage::Slug { .. } => 4,
        PlanStage::Cache { .. } => 3,
        PlanStage::Read { .. } => 2,
        PlanStage::Archive { .. } => 1,
        _ => 0,
    }
}

/// Whether an event answers what a stage waits for.
pub open spec fn answers(event: PlanEvent, stage: PlanStage) -> bool {
    match stage {
        PlanStage::Compare { .. } => event is Found,
        PlanStage::Scan { .. } => event is Found,
        PlanStage::Slug { .. } => event is Candidates,
        PlanStage::Cache { .. } => event is Cached,
        PlanStage::Read { .. } => event is Content,
        PlanStage::Archive { .. } => event is Archived,
        _ => false,
    }
}

/// The path of the file that a stage has in hand.
pub open spec fn path_in_hand(stage: PlanStage) -> Seq<char> {
    match stage {
        PlanStage::Idle => Seq::empty(),
        PlanStage::Compare { file } => file.path@,
        PlanStage::Scan { file } => file.path@,
        PlanStage::Slug { file, .. } => file.path@,
        PlanStage::Cache { file, .. } => file.path@,
        PlanStage::Read { file, .. } => file.path@,
        PlanStage::Archive { file, .. } => file.path@,
        PlanStage::Settled { file } => file.path@,
        PlanStage::Kept { file } => file.path@,
    }
}

/// Whether a file has been through planning: its content is known, and it is
/// new or a duplicate.
pub open spec fn is_planned(f: PlannedFile) -> bool {
    f.state is Hashed || f.state is Duplicate
}

/// Whether files are the planned ones of the first paths of a list.
pub open spec fn cover(files: Seq<PlannedFile>, paths: Seq<Seq<char>>) -> bool {
    &&& files.len() <= paths.len()
    &&& forall|i: int|
        0 <= i < files.len() ==> (#[trigger] files[i]).path@ == paths[i] && is_planned(files[i])
}

/// A file that is being scanned.
fn scanning(file: PlannedFile) -> (r: PlannedFile)
    ensures
        r == (PlannedFile { state: FileState::Scanning, ..file }),
{
    let mut r = file;
    r.state = FileState::Scanning;
    r
}

/// The place of a file in the library.
fn place(root: &Option<String>, path: &str) -> (r: Option<String>)
    ensures
        text::opt_view(r) == place_of(text::opt_view(*root), path@),
{
    match root {
        Some(dir) => slug::compute_slug(dir.as_str(), path),
        None => None,
    }
}

/// Settles a file by its slug and size.
fn settle_by_slug(
    seen: &mut TextMap<bool>,
    file: PlannedFile,
    size: u64,
    mtime: Option<String>,
    sha256: String,
) -> (r: PlannedFile)
    requires
        old(seen).wf(),
    ensures
        final(seen).wf(),
        final(seen).map().dom() == old(seen).map().dom().insert(sha256@),
        settled_by_slug(r, file, size, mtime, sha256@),
{
    seen.insert(sha256.as_str(), true);
    let mut new = file;
    new.size = size;
    new.mtime = mtime;
    new.sha256 = sha256;
    new.state = FileState::Duplicate;
    new.error = None;
    new.duplicate_reason = Some(DuplicateReason::SlugAndSize);
    proof {
        assert(seen.map().dom() =~= old(seen).map().dom().insert(sha256@));
    }
    new
}

/// Settles a file by its content.
fn settle_by_hash(
    seen: &mut TextMap<bool>,
    file: PlannedFile,
    size: u64,
    mtime: Option<String>,
    sha256: String,
    in_archive: bool,
) -> (r: PlannedFile)
    requires
        old(seen).wf(),
    ensures
        final(seen).wf(),
        final(seen).map().dom() == old(seen).map().dom().insert(sha256@),
        settled_by_hash(
            r,
            file,
            size,
            mtime,
            sha256@,
            in_archive || old(seen).map().contains_key(sha256@),
        ),
{
    let known: bool = in_archive || seen.contains_key(sha256.as_str());
    seen.insert(sha256.as_str(), true);
    let mut new = file;
    new.size = size;
    new.mtime = mtime;
    new.sha256 = sha256;
    new.state = if known {
        FileState::Duplicate
    } else {
        FileState::Hashed
    };
    new.error = None;
    new.duplicate_reason = None;
    proof {
        assert(seen.map().dom() =~= old(seen).map().dom().insert(sha256@));
    }
    new
}

impl PlanRun {
    /// Whether the parts fit together.
    pub closed spec fn wf(self) -> bool {
        &&& self.existing.wf()
        &&& self.seen.wf()
        &&& self.at <= self.paths@.len()
        &&& cover(self.files@, text::views(self.paths@))
        &&& self.files@.len() == self.at - (if is_open(self.stage) {
            1int
        } else {
            0
        })
        &&& is_open(self.stage) ==> path_in_hand(self.stage) == self.paths@[self.at - 1]@
        &&& forall|p: Seq<char>| #[trigger]
            self.existing.map().contains_key(p) ==> self.existing.map()[p].path@ == p
        &&& uploads_seen(self.files@, self.seen.map().dom())
        &&& forall|p: Seq<char>| #[trigger]
            self.existing.map().contains_key(p) && is_planned(self.existing.map()[p])
                ==> self.seen.map().contains_key(self.existing.map()[p].sha256@)
        &&& self.stage matches PlanStage::Compare { file } ==> self.seen.map().contains_key(
            file.sha256@,
        )
        &&& are_apart(by_path(self.job.files@)) ==> {
            &&& uploads_distinct(self.files@)
            &&& are_apart(self.existing.map())
            &&& left_is_clear(self.files@, self.existing.map())
            &&& self.stage matches PlanStage::Compare { file } ==> is_clear(
                file,
                self.files@,
                self.existing.map(),
            )
        }
        &&& !self.is_resumed() ==> {
            &&& self.existing.map() == Map::<Seq<char>, PlannedFile>::empty()
            &&& !(self.stage is Compare)
            &&& nothing_lost(self.files@, self.archived@)
            &&& forall|h: Seq<char>| #[trigger]
                self.seen.map().contains_key(h) ==> self.archived@.contains(h) || is_to_be_uploaded(
                    self.files@,
                    h,
                )
        }
    }

    /// The discovered paths.
    pub closed spec fn paths(self) -> Seq<Seq<char>> {
        text::views(self.paths@)
    }

    /// The declared root of the library.
    pub closed spec fn root(self) -> Option<Seq<char>> {
        text::opt_view(self.root)
    }

    /// The job as the plan found it.
    pub closed spec fn begun(self) -> ImportJob {
        self.job
    }

    /// Whether the plan goes on with an interrupted one.
    pub open spec fn is_resumed(self) -> bool {
        self.begun().files@.len() > 0
    }

    /// Files of an interrupted plan that have not been taken up yet, by path.
    pub closed spec fn left(self) -> Map<Seq<char>, PlannedFile> {
        self.existing.map()
    }

    /// The content hashes seen so far.
    pub closed spec fn hashes(self) -> Set<Seq<char>> {
        self.seen.map().dom()
    }

    /// The files planned so far.
    pub closed spec fn planned(self) -> Seq<PlannedFile> {
        self.files@
    }

    /// The content hashes that the archive was found to have.
    pub closed spec fn archived(self) -> Set<Seq<char>> {
        self.archived@
    }

    /// How many paths have been taken up.
    pub closed spec fn taken(self) -> nat {
        self.at as nat
    }

    /// Where the planning of the file in hand stands.
    pub closed spec fn current(self) -> PlanStage {
        self.stage
    }

    /// Whether two states belong to one plan.
    pub open spec fn same_plan(self, other: PlanRun) -> bool {
        self.begun() == other.begun() && self.paths() == other.paths() && self.root()
            == other.root()
    }

    /// A plan for what an import finds at the source of a job. It takes up the
    /// files of an interrupted plan, if the job has any.
    ///
    /// Fails with `NotFound` if there is nothing at the source, and only then.
    pub fn begin(
        job: ImportJob,
        source: &Source,
        extensions: &[&str],
        include_dotfiles: bool,
        root: Option<String>,
    ) -> (r: Result<PlanRun, Error>)
        ensures
            match r {
                Ok(run) => {
                    let found = discovered(
                        job.source_root@,
                        *source,
                        extensions@,
                        include_dotfiles,
                    );
                    &&& !(source is Missing)
                    &&& run.wf()
                    &&& run.begun() == job
                    &&& run.paths() == sort::sorted_paths(found)
                    &&& sort::is_path_order(found, sort::path_order(found))
                    &&& run.root() == text::opt_view(root)
                    &&& run.left() == by_path(job.files@)
                    &&& run.planned().len() == 0
                    &&& run.taken() == 0
                    &&& run.archived() == Set::<Seq<char>>::empty()
                    &&& run.hashes() == settled_hashes(by_path(job.files@))
                    &&& run.current() is Idle
                },
                Err(e) => source is Missing && (e matches Error::NotFound(m) && m@
                    == "import source not found: "@ + job.source_root@),
            },
    {
        let paths = match discover_sorted(
            job.source_root.as_str(),
            source,
            extensions,
            include_dotfiles,
        ) {
            Ok(paths) => paths,
            Err(e) => {
                return Err(e);
            },
        };
        Ok(PlanRun::over(job, paths, root))
    }

    /// A plan for the given paths.
    fn over(job: ImportJob, paths: Vec<String>, root: Option<String>) -> (r: PlanRun)
        ensures
            r.wf(),
            r.begun() == job,
            r.paths() == text::views(paths@),
            r.root() == text::opt_view(root),
            r.left() == by_path(job.files@),
            r.planned().len() == 0,
            r.taken() == 0,
            r.archived() == Set::<Seq<char>>::empty(),
            r.hashes() == settled_hashes(by_path(job.files@)),
            r.current() is Idle,
    {
        let interrupted: &Vec<PlannedFile> = &job.files;
        let mut existing: TextMap<PlannedFile> = TextMap::new();
        let mut i: usize = 0;
        proof {
            assert(interrupted@.take(0) =~= Seq::<PlannedFile>::empty());
        }
        while i < interrupted.len()
            invariant
                i <= interrupted@.len(),
                existing.wf(),
                existing.map() == by_path(interrupted@.take(i as int)),
            decreases interrupted@.len() - i,
        {
            proof {
                assert(interrupted@.take(i + 1).drop_last() =~= interrupted@.take(i as int));
            }
            let file = interrupted[i].copy();
            existing.insert(interrupted[i].path.as_str(), file);
            i = i + 1;
        }
        proof {
            assert(interrupted@.take(interrupted@.len() as int) =~= interrupted@);
        }
        let ghost files = by_path(interrupted@);
        let mut seen: TextMap<bool> = TextMap::new();
        let mut j: usize = 0;
        while j < interrupted.len()
            invariant
                j <= interrupted@.len(),
                files == by_path(interrupted@),
                existing.wf(),
                existing.map() == files,
                seen.wf(),
                forall|h: Seq<char>| #[trigger]
                    seen.map().contains_key(h) ==> settled_hashes(files).contains(h),
                forall|k: int|
                    0 <= k < j && files.contains_key((#[trigger] interrupted@[k]).path@) && (
                    files[interrupted@[k].path@].state is Hashed
                        || files[interrupted@[k].path@].state is Duplicate)
                        ==> seen.map().contains_key(files[interrupted@[k].path@].sha256@),
            decreases interrupted@.len() - j,
        {
            let ghost before = seen.map();
            let ghost p = interrupted@[j as int].path@;
            match existing.get(interrupted[j].path.as_str()) {
                Some(file) => {
                    let settled: bool = match file.state {
                        FileState::Hashed => true,
                        FileState::Duplicate => true,
                        _ => false,
                    };
                    if settled {
                        proof {
                            assert(files.contains_key(p) && files[p] == *file);
                            assert(settled_hashes(files).contains(file.sha256@));
                        }
                        seen.insert(file.sha256.as_str(), true);
                    }
                },
                None => {},
            }
            proof {
                assert forall|k: int|
                    0 <= k < j + 1 && files.contains_key((#[trigger] interrupted@[k]).path@) && (
                    files[interrupted@[k].path@].state is Hashed
                        || files[interrupted@[k].path@].state is Duplicate) implies seen.map().contains_key(
                files[interrupted@[k].path@].sha256@) by {
                    if k < j {
                        assert(before.contains_key(files[interrupted@[k].path@].sha256@));
                    }
                }
            }
            j = j + 1;
        }
        let ghost old_files = interrupted@;
        let r = PlanRun {
            job,
            paths,
            root,
            existing,
            seen,
            files: Vec::new(),
            at: 0,
            stage: PlanStage::Idle,
            archived: Ghost(Set::empty()),
        };
        proof {
            lemma_by_path(old_files);
            assert forall|h: Seq<char>| settled_hashes(files).contains(h) implies r.hashes().contains(
            h) by {
                let p = choose|p: Seq<char>| #[trigger]
                    files.contains_key(p) && files[p].sha256@ == h && (files[p].state is Hashed
                        || files[p].state is Duplicate);
                let k = choose|k: int|
                    0 <= k < old_files.len() && (#[trigger] old_files[k]).path@ == p;
                assert(seen.map().contains_key(files[old_files[k].path@].sha256@));
            }
            assert(r.hashes() =~= settled_hashes(files));
        }
        r
    }

    /// Takes up the next path, if one is left. A file of the interrupted plan
    /// goes on with what it had; its fingerprint, if it has one, is looked at
    /// first.
    pub fn next_file(&mut self) -> (found: bool)
        requires
            old(self).wf(),
            !is_open(old(self).current()),
        ensures
            final(self).wf(),
            final(self).same_plan(*old(self)),
            final(self).hashes() == old(self).hashes(),
            final(self).archived() == old(self).archived(),
            final(self).planned() == old(self).planned(),
            found == (old(self).taken() < old(self).paths().len()),
            !found ==> {
                &&& final(self).current() is Idle
                &&& final(self).taken() == old(self).taken()
                &&& final(self).left() == old(self).left()
            },
            found ==> {
                let path = old(self).paths()[old(self).taken() as int];
                &&& final(self).taken() == old(self).taken() + 1
                &&& final(self).left() == old(self).left().remove(path)
                &&& is_open(final(self).current())
                &&& if old(self).left().contains_key(path) {
                    let file = old(self).left()[path];
                    if has_fingerprint(file) {
                        final(self).current() == (PlanStage::Compare { file })
                    } else {
                        final(self).current() == (PlanStage::Scan {
                            file: PlannedFile { state: FileState::Scanning, ..file },
                        })
                    }
                } else {
                    final(self).current() matches PlanStage::Scan { file } && file.path@ == path
                        && file.state is Scanning && (PlannedFile {
                        state: FileState::Pending,
                        ..file
                    }).is_blank()
                }
            },
    {
        let n: usize = self.paths.len();
        if self.at >= n {
            self.stage = PlanStage::Idle;
            return false;
        }
        let path = self.paths[self.at].clone();
        self.at = self.at + 1;
        proof {
            assert(self.paths()[self.at - 1] == path@);
            assert(Map::<Seq<char>, PlannedFile>::empty().remove(path@) =~= Map::empty());
        }
        match self.existing.remove(path.as_str()) {
            Some(file) => {
                if is_fingerprinted(&file) {
                    self.stage = PlanStage::Compare { file };
                } else {
                    self.stage = PlanStage::Scan { file: scanning(file) };
                }
            },
            None => {
                self.stage = PlanStage::Scan { file: scanning(PlannedFile::pending(path.as_str())) };
            },
        }
        true
    }

    /// Where the planning of the file in hand stands.
    pub fn stage(&self) -> (r: &PlanStage)
        ensures
            *r == self.current(),
    {
        &self.stage
    }

    /// Takes into account what was found out.
    pub fn report(&mut self, event: PlanEvent)
        requires
            old(self).wf(),
            is_open(old(self).current()),
        ensures
            final(self).wf(),
            final(self).same_plan(*old(self)),
            final(self).left() == old(self).left(),
            final(self).taken() == old(self).taken(),
            is_step(
                old(self).current(),
                event,
                old(self).root(),
                old(self).hashes(),
                final(self).current(),
            ),
            match planned_by(final(self).current()) {
                Some(file) => final(self).planned() == old(self).planned().push(file),
                None => final(self).planned() == old(self).planned(),
            },
            final(self).current() matches PlanStage::Settled { file } ==> final(self).hashes()
                == old(self).hashes().insert(file.sha256@),
            !(final(self).current() is Settled) ==> final(self).hashes() == old(self).hashes(),
            final(self).archived() == match vouched_by(old(self).current(), event) {
                Some(h) => old(self).archived().insert(h),
                None => old(self).archived(),
            },
    {
        let ghost before = *self;
        let ghost asked = event;
        let mut stage = PlanStage::Idle;
        core::mem::swap(&mut stage, &mut self.stage);
        let next = match (stage, event) {
            (PlanStage::Compare { file }, PlanEvent::Found { size, mtime }) => {
                if can_skip_fingerprint(&file, size, &mtime) {
                    self.files.push(file.copy());
                    PlanStage::Kept { file }
                } else {
                    PlanStage::Scan { file: scanning(file) }
                }
            },
            (PlanStage::Scan { file }, PlanEvent::Found { size, mtime }) => {
                match place(&self.root, file.path.as_str()) {
                    Some(slug) => PlanStage::Slug { file, size, mtime, slug },
                    None => PlanStage::Cache { file, size, mtime },
                }
            },
            (
                PlanStage::Slug { file, size, mtime, slug: _ },
                PlanEvent::Candidates { entries },
            ) => {
                match match_by_slug(&entries, size) {
                    Some(sha256) => {
                        let file = settle_by_slug(&mut self.seen, file, size, mtime, sha256);
                        self.files.push(file.copy());
                        PlanStage::Settled { file }
                    },
                    None => PlanStage::Cache { file, size, mtime },
                }
            },
            (PlanStage::Cache { file, size, mtime }, PlanEvent::Cached { row }) => {
                match cache_lookup(&row, size, &mtime) {
                    Some(sha256) => PlanStage::Archive { file, size, mtime, sha256, computed: false },
                    None => PlanStage::Read { file, size, mtime },
                }
            },
            (PlanStage::Read { file, size, mtime }, PlanEvent::Content { bytes }) => {
                let sha256 = hash::hash_bytes(bytes.as_slice());
                PlanStage::Archive { file, size, mtime, sha256, computed: true }
            },
            (
                PlanStage::Archive { file, size, mtime, sha256, computed: _ },
                PlanEvent::Archived { known },
            ) => {
                let file = settle_by_hash(&mut self.seen, file, size, mtime, sha256, known);
                self.files.push(file.copy());
                PlanStage::Settled { file }
            },
            (other, _) => other,
        };
        self.stage = next;
        self.archived = Ghost(
            match vouched_by(before.stage, asked) {
                Some(h) => before.archived@.insert(h),
                None => before.archived@,
            },
        );
        proof {
            if !self.is_resumed() && self.files@.len() > before.files@.len() {
                lemma_nothing_lost(
                    before.files@,
                    self.files@.last(),
                    before.archived@,
                    self.archived@,
                );
                assert(self.files@ =~= before.files@.push(self.files@.last()));
                assert forall|h: Seq<char>| #[trigger]
                    self.seen.map().contains_key(h) implies self.archived@.contains(h)
                    || is_to_be_uploaded(self.files@, h) by {
                    if h == self.files@.last().sha256@ {
                        if self.files@.last().state is Hashed {
                            assert(self.files@[self.files@.len() - 1].sha256@ == h);
                        }
                    } else {
                        assert(before.seen.map().dom().contains(h));
                    }
                }
            }
        }
    }
    /// The discovered paths, in path order.
    pub fn discovered(&self) -> (r: &Vec<String>)
        ensures
            text::views(r@) == self.paths(),
    {
        &self.paths
    }

    /// The planned job, with the given artwork. It has one file for each discovered
    /// path, in their order, each new or a duplicate. No content is to be uploaded
    /// twice, unless an interrupted plan had it twice already. Unless there was an
    /// interrupted one, none is lost: what a duplicate holds is archived, or to be
    /// uploaded for a file before it.
    pub fn finish(self, artwork: Vec<ArtworkCandidate>) -> (r: ImportJob)
        requires
            self.wf(),
            self.current() is Idle,
            self.taken() == self.paths().len(),
        ensures
            is_planned_from(r, self.begun(), self.planned(), artwork@),
            r.files@.len() == self.paths().len(),
            cover(r.files@, self.paths()),
            are_apart(by_path(self.begun().files@)) ==> uploads_distinct(r.files@),
            !self.is_resumed() ==> uploads_distinct(r.files@),
            !self.is_resumed() ==> nothing_lost(r.files@, self.archived()),
    {
        proof {
            if !self.is_resumed() {
                assert(by_path(self.job.files@) =~= Map::empty());
            }
        }
        planned_job(self.job, self.files, artwork)
    }
}

/// Whether a job is another one after planning: the duplicates are found, and all
/// but the files and the artwork is as it was.
pub open spec fn is_planned_from(
    r: ImportJob,
    job: ImportJob,
    files: Seq<PlannedFile>,
    artwork: Seq<ArtworkCandidate>,
) -> bool {
    &&& r.phase is Dedupe
    &&& r.id@ == job.id@
    &&& r.source_root@ == job.source_root@
    &&& r.staging_prefix@ == job.staging_prefix@
    &&& r.files@ == files
    &&& r.artwork@ == artwork
}

/// A job after planning.
pub fn planned_job(
    job: ImportJob,
    files: Vec<PlannedFile>,
    artwork: Vec<ArtworkCandidate>,
) -> (r: ImportJob)
    ensures
        is_planned_from(r, job, files@, artwork@),
{
    ImportJob {
        id: job.id,
        source_root: job.source_root,
        staging_prefix: job.staging_prefix,
        phase: Phase::Dedupe,
        files,
        artwork,
    }
}

/// A file behind the others loses nothing if its content is archived or among
/// what they upload, and what they upload is still to be uploaded.
proof fn lemma_nothing_lost(
    files: Seq<PlannedFile>,
    f: PlannedFile,
    archived: Set<Seq<char>>,
    more: Set<Seq<char>>,
)
    requires
        nothing_lost(files, archived),
        archived.subset_of(more),
        f.state is Duplicate ==> more.contains(f.sha256@) || is_to_be_uploaded(files, f.sha256@),
    ensures
        nothing_lost(files.push(f), more),
        forall|h: Seq<char>| #[trigger] is_to_be_uploaded(files, h) ==> is_to_be_uploaded(files.push(f), h),
{
    let all = files.push(f);
    assert forall|i: int|
        0 <= i < all.len() && (#[trigger] all[i]).state is Duplicate implies more.contains(
        all[i].sha256@,
    ) || is_to_be_uploaded(all.take(i), all[i].sha256@) by {
        if i < files.len() {
            assert(all[i] == files[i]);
            assert(all.take(i) =~= files.take(i));
        } else {
            assert(all.take(i) =~= files);
        }
    }
    assert forall|h: Seq<char>| #[trigger] is_to_be_uploaded(files, h) implies is_to_be_uploaded(all, h) by {
        let j = choose|j: int|
            0 <= j < files.len() && (#[trigger] files[j]).state is Hashed && files[j].sha256@ == h;
        assert(all[j] == files[j]);
    }
}

proof fn lemma_by_path(files: Seq<PlannedFile>)
    ensures
        forall|p: Seq<char>| #[trigger]
            by_path(files).contains_key(p) ==> by_path(files)[p].path@ == p && exists|k: int|
                0 <= k < files.len() && (#[trigger] files[k]).path@ == p,
    decreases files.len(),
{
    if files.len() > 0 {
        let front = files.drop_last();
        lemma_by_path(front);
        assert forall|p: Seq<char>| #[trigger] by_path(files).contains_key(p) implies by_path(
            files,
        )[p].path@ == p && exists|k: int|
            0 <= k < files.len() && (#[trigger] files[k]).path@ == p by {
            if p == files.last().path@ {
                assert(files[files.len() - 1].path@ == p);
            } else {
                assert(by_path(front).contains_key(p));
                let k = choose|k: int| 0 <= k < front.len() && (#[trigger] front[k]).path@ == p;
                assert(files[k].path@ == p);
            }
        }
    }
}

/// Every answer to what a file waits for brings it nearer to being planned, so
/// at most six answers plan it.
pub proof fn law_every_answer_advances(
    stage: PlanStage,
    event: PlanEvent,
    root: Option<Seq<char>>,
    seen: Set<Seq<char>>,
    next: PlanStage,
)
    requires
        is_open(stage),
        answers(event, stage),
        is_step(stage, event, root, seen, next),
    ensures
        answers_left(next) < answers_left(stage),
        answers_left(next) == 0 <==> planned_by(next) is Some,
        path_in_hand(next) == path_in_hand(stage),
{
}

/// A file keeps its path through all of planning, and what was found out of it goes
/// into the plan: its size and modification time, and the hash of the bytes that were
/// read, or the one that the cache has for a file of this size and time.
pub proof fn law_plan_takes_down_what_was_found(
    stage: PlanStage,
    event: PlanEvent,
    root: Option<Seq<char>>,
    seen: Set<Seq<char>>,
    next: PlanStage,
)
    requires
        is_step(stage, event, root, seen, next),
        is_open(stage),
    ensures
        path_in_hand(next) == path_in_hand(stage),
        stage is Scan && event is Found ==> match next {
            PlanStage::Slug { size, mtime, .. } => size == event->size && mtime
                == event->Found_mtime,
            PlanStage::Cache { size, mtime, .. } => size == event->size && mtime
                == event->Found_mtime,
            _ => false,
        },
        stage is Read && event is Content ==> next is Archive && next->Archive_sha256@
            == hash::sha256_hex(event->bytes@) && next->Archive_size == stage->Read_size
            && next->Archive_mtime == stage->Read_mtime && next->computed,
        stage is Cache && next is Archive ==> {
            &&& event is Cached && event->row is Some
            &&& event->row->0.size_bytes == stage->Cache_size
            &&& text::opt_view(event->row->0.mtime) == text::opt_view(stage->Cache_mtime)
            &&& next->Archive_sha256@ == event->row->0.sha256@
            &&& next->Archive_size == stage->Cache_size
            &&& next->Archive_mtime == stage->Cache_mtime
            &&& !next->computed
        },
        stage is Archive && next is Settled ==> {
            &&& next->Settled_file.size == stage->Archive_size
            &&& next->Settled_file.mtime == stage->Archive_mtime
            &&& next->Settled_file.sha256@ == stage->Archive_sha256@
            &&& next->Settled_file.error is None
        },
{
}

/// A file is read only if it has to be: a fingerprint from before stands as long as the
/// file looks the same, and so does one that the cache has for a file of its size and
/// modification time. A file below the library root is looked up at its place first.
pub proof fn law_known_files_are_not_read(
    stage: PlanStage,
    event: PlanEvent,
    root: Option<Seq<char>>,
    seen: Set<Seq<char>>,
    next: PlanStage,
)
    requires
        is_step(stage, event, root, seen, next),
    ensures
        stage is Compare && event is Found ==> (next is Kept <==> {
            let f = stage->Compare_file;
            &&& f.state is Hashed || f.state is Duplicate
            &&& f.sha256@.len() > 0
            &&& f.size == event->size
            &&& text::opt_view(f.mtime) == text::opt_view(event->Found_mtime)
        }),
        stage is Cache && event is Cached ==> (next is Archive <==> {
            &&& event->row is Some
            &&& event->row->0.size_bytes == stage->Cache_size
            &&& text::opt_view(event->row->0.mtime) == text::opt_view(stage->Cache_mtime)
        }),
        stage is Scan && event is Found ==> match root {
            Some(r) => match slug::slug(r, stage->Scan_file.path@) {
                Some(place) => next is Slug && next->slug@ == place,
                None => next is Cache,
            },
            None => next is Cache,
        },
{
}

/// Of an interrupted plan, the last file with a path counts.
pub proof fn law_interrupted_files_are_found_by_path(files: Seq<PlannedFile>, p: Seq<char>)
    ensures
        if by_path(files).contains_key(p) {
            exists|i: int|
                {
                    &&& 0 <= i < files.len()
                    &&& #[trigger] files[i] == by_path(files)[p]
                    &&& files[i].path@ == p
                    &&& forall|k: int| i < k < files.len() ==> (#[trigger] files[k]).path@ != p
                }
        } else {
            forall|k: int| 0 <= k < files.len() ==> (#[trigger] files[k]).path@ != p
        },
    decreases files.len(),
{
    if files.len() > 0 {
        let front = files.drop_last();
        let n = files.len() - 1;
        law_interrupted_files_are_found_by_path(front, p);
        assert forall|k: int| 0 <= k < n implies front[k] == #[trigger] files[k] by {}
        if files.last().path@ == p {
            assert(files[n] == by_path(files)[p]);
        } else if by_path(front).contains_key(p) {
            let i = choose|i: int|
                {
                    &&& 0 <= i < front.len()
                    &&& #[trigger] front[i] == by_path(front)[p]
                    &&& front[i].path@ == p
                    &&& forall|k: int| i < k < front.len() ==> (#[trigger] front[k]).path@ != p
                };
            assert(files[i] == by_path(files)[p]);
        }
    }
}

/// A file is new exactly if the archive does not have its content and no file before
/// it had. It is a duplicate unread only if the archive has a track at its place in
/// the library that is exactly as large; that track's hash is then taken for its own.
pub proof fn law_only_unknown_content_is_new(
    stage: PlanStage,
    event: PlanEvent,
    root: Option<Seq<char>>,
    seen: Set<Seq<char>>,
    next: PlanStage,
)
    requires
        is_step(stage, event, root, seen, next),
        is_open(stage),
    ensures
        stage is Archive && event is Archived ==> next is Settled && (
        next->Settled_file.state is Hashed <==> !event->known && !seen.contains(
            stage->Archive_sha256@,
        )) && (next->Settled_file.state is Duplicate <==> event->known || seen.contains(
            stage->Archive_sha256@,
        )),
        stage is Slug && next is Settled ==> {
            &&& event is Candidates
            &&& next->Settled_file.state is Duplicate
            &&& next->Settled_file.duplicate_reason is Some
            &&& next->Settled_file.size == stage->Slug_size
            &&& exists|k: int|
                0 <= k < event->entries@.len() && (#[trigger] event->entries@[k])@.size_bytes
                    == stage->Slug_size && event->entries@[k]@.sha256
                    == next->Settled_file.sha256@
        },
        stage is Slug && event is Candidates && !(next is Settled) ==> forall|k: int|
            0 <= k < event->entries@.len() ==> (#[trigger] event->entries@[k])@.size_bytes
                != stage->Slug_size,
        stage is Compare && next is Kept ==> {
            &&& event is Found
            &&& next->Kept_file == stage->Compare_file
            &&& stage->Compare_file.size == event->size
            &&& text::opt_view(stage->Compare_file.mtime) == text::opt_view(event->Found_mtime)
            &&& stage->Compare_file.sha256@.len() > 0
        },
        stage is Compare && next is Scan ==> next->Scan_file.state is Scanning
            && next->Scan_file.sha256 == stage->Compare_file.sha256,
{
    if stage is Slug && event is Candidates {
        let all = model::entry_views(event->entries@);
        lemma_slug_match(all, stage->Slug_size);
        assert forall|k: int| 0 <= k < all.len() implies all[k] == (
        #[trigger] event->entries@[k])@ by {}
        if next is Settled {
            let k = choose|k: int|
                0 <= k < all.len() && (#[trigger] all[k]).size_bytes == stage->Slug_size
                    && all[k].sha256 == next->Settled_file.sha256@;
            assert(event->entries@[k]@ == all[k]);
        }
    }
}

proof fn lemma_slug_match(candidates: Seq<model::EntryView>, size: u64)
    ensures
        match slug_match(candidates, size) {
            Some(h) => exists|k: int|
                0 <= k < candidates.len() && (#[trigger] candidates[k]).size_bytes == size
                    && candidates[k].sha256 == h,
            None => forall|k: int|
                0 <= k < candidates.len() ==> (#[trigger] candidates[k]).size_bytes != size,
        },
    decreases candidates.len(),
{
    if candidates.len() > 0 && candidates[0].size_bytes != size {
        let rest = candidates.drop_first();
        lemma_slug_match(rest, size);
        match slug_match(rest, size) {
            Some(h) => {
                let k = choose|k: int|
                    0 <= k < rest.len() && (#[trigger] rest[k]).size_bytes == size
                        && rest[k].sha256 == h;
                assert(candidates[k + 1] == rest[k]);
            },
            None => {
                assert forall|k: int| 0 <= k < candidates.len() implies (
                #[trigger] candidates[k]).size_bytes != size by {
                    if k > 0 {
                        assert(rest[k - 1] == candidates[k]);
                    }
                }
            },
        }
    }
}

/// Content is read only if nothing else vouches for it: neither a fingerprint
/// from before, nor an archived track of the same size at the same place of the
/// library, nor the fingerprint cache.
pub proof fn law_content_is_read_last(
    stage: PlanStage,
    event: PlanEvent,
    root: Option<Seq<char>>,
    seen: Set<Seq<char>>,
    next: PlanStage,
)
    requires
        is_step(stage, event, root, seen, next),
        next is Read,
        next != stage,
    ensures
        stage matches PlanStage::Cache { file, size, mtime } && (event matches PlanEvent::Cached {
            row,
        } && cached_hash(row, size, text::opt_view(mtime)) is None),
{
}

/// The name of a job's staging area.
pub fn staging_name(job_id: &str) -> (r: String)
    ensures
        r@ == "staging/"@ + job_id@,
{
    text::cat2("staging/", job_id)
}

/// A fresh job for a source: nothing is scanned yet, and it is staged under its
/// id.
pub fn new_job(id: String, source_root: &str) -> (r: ImportJob)
    ensures
        r.id@ == id@,
        r.source_root@ == source_root@,
        r.staging_prefix@ == "staging/"@ + r.id@,
        r.phase is Scan,
        r.files@.len() == 0,
        r.artwork@.len() == 0,
{
    let staging_prefix = staging_name(id.as_str());
    ImportJob {
        id,
        source_root: source_root.to_owned(),
        staging_prefix,
        phase: Phase::Scan,
        files: Vec::new(),
        artwork: Vec::new(),
    }
}

} // verus!

//! Cover art: which images are taken, where they go, and what is kept of
//! where they came from.

use vstd::prelude::*;

use crate::archive::index::BucketPaths;
use crate::error::Error;
use crate::hash;
use crate::import::job;
use crate::import::job::ArtworkCandidate;
use crate::import::scan;
use crate::model::{ArtworkRecord, Timestamp};
use crate::path;
use crate::sort;
use crate::text;

verus! {

// ---------------------------------------------------------------------------
// Folders
// ---------------------------------------------------------------------------

/// The folders that paths stand in, in the order of the paths.
pub open spec fn parents(paths: Seq<Seq<char>>) -> Seq<Seq<char>>
    decreases paths.len(),
{
    if paths.len() == 0 {
        Seq::empty()
    } else {
        let front = parents(paths.drop_last());
        match path::parent(paths.last()) {
            Some(p) => front.push(p),
            None => front,
        }
    }
}

/// A list without the paths that are the same, part by part, as the one before
/// them.
pub open spec fn without_repeats(paths: Seq<Seq<char>>) -> Seq<Seq<char>>
    decreases paths.len(),
{
    if paths.len() == 0 {
        Seq::empty()
    } else {
        let front = without_repeats(paths.drop_last());
        if paths.len() > 1 && path::parts(paths[paths.len() - 2]) == path::parts(paths.last()) {
            front
        } else {
            front.push(paths.last())
        }
    }
}

/// The folders that hold the given files, each once, in path order.
pub open spec fn folders_of(paths: Seq<Seq<char>>) -> Seq<Seq<char>> {
    without_repeats(sort::sorted_paths(parents(paths)))
}

proof fn lemma_parents(paths: Seq<Seq<char>>)
    ensures
        forall|f: Seq<char>| #[trigger]
            parents(paths).contains(f) <==> exists|k: int|
                0 <= k < paths.len() && path::parent(#[trigger] paths[k]) == Some(f),
    decreases paths.len(),
{
    let all = parents(paths);
    if paths.len() > 0 {
        let front = paths.drop_last();
        let before = parents(front);
        lemma_parents(front);
        assert forall|f: Seq<char>| #[trigger] all.contains(f) <==> exists|k: int|
            0 <= k < paths.len() && path::parent(#[trigger] paths[k]) == Some(f) by {
            if all.contains(f) {
                let i = choose|i: int| 0 <= i < all.len() && all[i] == f;
                if i < before.len() {
                    assert(before[i] == f);
                    assert(before.contains(f));
                    let k = choose|k: int|
                        0 <= k < front.len() && path::parent(#[trigger] front[k]) == Some(f);
                    assert(path::parent(paths[k]) == Some(f));
                } else {
                    assert(path::parent(paths[paths.len() - 1]) == Some(f));
                }
            }
            if exists|k: int|
                0 <= k < paths.len() && path::parent(#[trigger] paths[k]) == Some(f) {
                let k = choose|k: int|
                    0 <= k < paths.len() && path::parent(#[trigger] paths[k]) == Some(f);
                if k < front.len() {
                    assert(path::parent(front[k]) == Some(f));
                    assert(before.contains(f));
                    let i = choose|i: int| 0 <= i < before.len() && before[i] == f;
                    assert(all[i] == f);
                } else {
                    assert(all[before.len() as int] == f);
                }
            }
        }
    }
}

/// Whether a folder is among the given ones, name by name.
pub open spec fn has_folder(folders: Seq<Seq<char>>, f: Seq<char>) -> bool {
    exists|i: int|
        0 <= i < folders.len() && path::parts(#[trigger] folders[i]) == path::parts(f)
}

/// Whether no folder comes twice in a row.
pub open spec fn differ_in_a_row(folders: Seq<Seq<char>>) -> bool {
    forall|i: int, j: int|
        0 <= i && j == i + 1 && j < folders.len() ==> path::parts(#[trigger] folders[i])
            != path::parts(#[trigger] folders[j])
}

proof fn lemma_repeats_last(paths: Seq<Seq<char>>)
    ensures
        paths.len() > 0 ==> without_repeats(paths).len() > 0 && path::parts(
            without_repeats(paths).last(),
        ) == path::parts(paths.last()),
        differ_in_a_row(without_repeats(paths)),
    decreases paths.len(),
{
    let r = without_repeats(paths);
    if paths.len() > 0 {
        let front = paths.drop_last();
        let before = without_repeats(front);
        lemma_repeats_last(front);
        if paths.len() > 1 {
            assert(front.last() == paths[paths.len() - 2]);
            if path::parts(paths[paths.len() - 2]) != path::parts(paths.last()) {
                assert(r == before.push(paths.last()));
                assert forall|i: int, j: int|
                    0 <= i && j == i + 1 && j < r.len() implies path::parts(#[trigger] r[i])
                    != path::parts(#[trigger] r[j]) by {
                    assert(r[i] == before[i]);
                    if j < before.len() {
                        assert(r[j] == before[j]);
                    }
                }
            }
        }
    }
}

proof fn lemma_repeats_members(paths: Seq<Seq<char>>)
    ensures
        forall|i: int|
            0 <= i < without_repeats(paths).len() ==> paths.contains(
                #[trigger] without_repeats(paths)[i],
            ),
    decreases paths.len(),
{
    let r = without_repeats(paths);
    if paths.len() > 0 {
        let front = paths.drop_last();
        let before = without_repeats(front);
        lemma_repeats_members(front);
        assert forall|i: int| 0 <= i < r.len() implies paths.contains(#[trigger] r[i]) by {
            if i < before.len() {
                assert(r[i] == before[i]);
                let k = choose|k: int| 0 <= k < front.len() && front[k] == before[i];
                assert(paths[k] == r[i]);
            } else {
                assert(paths[paths.len() - 1] == r[i]);
            }
        }
    }
}

proof fn lemma_repeats_cover(paths: Seq<Seq<char>>, k: int)
    requires
        0 <= k < paths.len(),
    ensures
        has_folder(without_repeats(paths), paths[k]),
    decreases paths.len(),
{
    let r = without_repeats(paths);
    let front = paths.drop_last();
    let before = without_repeats(front);
    if k < front.len() {
        lemma_repeats_cover(front, k);
        assert(front[k] == paths[k]);
        let i = choose|i: int|
            0 <= i < before.len() && path::parts(#[trigger] before[i]) == path::parts(front[k]);
        assert(r[i] == before[i]);
    } else {
        lemma_repeats_last(paths);
        assert(path::parts(r[r.len() - 1]) == path::parts(paths[k]));
    }
}

/// Artwork is looked for in the folders that the audio stands in, in each of them, and
/// in no other; no folder comes twice in a row.
pub proof fn law_artwork_is_looked_for_next_to_audio(paths: Seq<Seq<char>>)
    requires
        parents(paths).len() <= usize::MAX,
    ensures
        forall|i: int|
            0 <= i < folders_of(paths).len() ==> exists|k: int|
                0 <= k < paths.len() && path::parent(#[trigger] paths[k]) == Some(
                    #[trigger] folders_of(paths)[i],
                ),
        forall|k: int|
            0 <= k < paths.len() && path::parent(#[trigger] paths[k]) is Some ==> has_folder(
                folders_of(paths),
                path::parent(paths[k])->0,
            ),
        differ_in_a_row(folders_of(paths)),
{
    let all = parents(paths);
    let order = sort::path_order(all);
    let sorted = sort::sorted_paths(all);
    let r = folders_of(paths);
    sort::law_paths_have_an_order(all);
    lemma_parents(paths);
    lemma_repeats_last(sorted);
    lemma_repeats_members(sorted);
    assert forall|i: int| 0 <= i < r.len() implies exists|k: int|
        0 <= k < paths.len() && path::parent(#[trigger] paths[k]) == Some(#[trigger] r[i]) by {
        assert(sorted.contains(r[i]));
        let a = choose|a: int| 0 <= a < sorted.len() && sorted[a] == r[i];
        assert(order[a] < all.len());
        assert(all[order[a] as int] == r[i]);
        assert(all.contains(r[i]));
    }
    assert forall|k: int|
        0 <= k < paths.len() && path::parent(#[trigger] paths[k]) is Some implies has_folder(
        r,
        path::parent(paths[k])->0,
    ) by {
        let f = path::parent(paths[k])->0;
        assert(all.contains(f));
        let m = choose|m: int| 0 <= m < all.len() && all[m] == f;
        assert(sort::lists(order, m));
        let a = choose|a: int| 0 <= a < order.len() && #[trigger] order[a] == m;
        assert(sorted[a] == f);
        lemma_repeats_cover(sorted, a);
    }
}

/// The folders that hold the given files, each once, in path order.
pub fn artwork_folders(audio_paths: &Vec<String>) -> (r: Vec<String>)
    ensures
        text::views(r@) == folders_of(text::views(audio_paths@)),
        sort::is_path_order(
            parents(text::views(audio_paths@)),
            sort::path_order(parents(text::views(audio_paths@))),
        ),
{
    let ghost all = text::views(audio_paths@);
    let mut list: Vec<String> = Vec::new();
    let mut i: usize = 0;
    proof {
        assert(all.take(0) =~= Seq::<Seq<char>>::empty());
        assert(text::views(list@) =~= Seq::<Seq<char>>::empty());
    }
    while i < audio_paths.len()
        invariant
            i <= audio_paths@.len(),
            all == text::views(audio_paths@),
            text::views(list@) == parents(all.take(i as int)),
        decreases audio_paths@.len() - i,
    {
        proof {
            assert(all.take(i + 1).drop_last() =~= all.take(i as int));
            assert(all.take(i + 1).last() == audio_paths@[i as int]@);
        }
        let ghost before = text::views(list@);
        if let Some(p) = path::parent_of(audio_paths[i].as_str()) {
            list.push(p);
            proof {
                assert(text::views(list@) =~= before.push(p@));
            }
        }
        i = i + 1;
    }
    proof {
        assert(all.take(audio_paths@.len() as int) =~= all);
    }
    let sorted = sort::sort_paths(&list);
    let ghost order = text::views(sorted@);
    let mut r: Vec<String> = Vec::new();
    let mut j: usize = 0;
    proof {
        assert(order.take(0) =~= Seq::<Seq<char>>::empty());
        assert(text::views(r@) =~= Seq::<Seq<char>>::empty());
    }
    while j < sorted.len()
        invariant
            j <= sorted@.len(),
            order == text::views(sorted@),
            text::views(r@) == without_repeats(order.take(j as int)),
        decreases sorted@.len() - j,
    {
        proof {
            let next = order.take(j + 1);
            assert(next.drop_last() =~= order.take(j as int));
            assert(next.last() == sorted@[j as int]@);
            if j > 0 {
                assert(next[next.len() - 2] == sorted@[j - 1]@);
            }
        }
        let ghost before = text::views(r@);
        let repeat: bool = j > 0 && path::same_path(sorted[j - 1].as_str(), sorted[j].as_str());
        if !repeat {
            r.push(sorted[j].clone());
            proof {
                assert(text::views(r@) =~= before.push(sorted@[j as int]@));
            }
        }
        j = j + 1;
    }
    proof {
        assert(order.take(sorted@.len() as int) =~= order);
    }
    r
}

// ---------------------------------------------------------------------------
// Candidates
// ---------------------------------------------------------------------------

/// Whether a list has an image of the given content from the given folder.
pub open spec fn has_candidate(
    list: Seq<ArtworkCandidate>,
    sha256: Seq<char>,
    folder: Seq<char>,
) -> bool {
    exists|i: int|
        0 <= i < list.len() && (#[trigger] list[i]).sha256@ == sha256 && list[i].source_folder@
            == folder
}

/// Whether a list has an image of the given content from the given folder.
fn find_candidate(list: &Vec<ArtworkCandidate>, sha256: &str, folder: &str) -> (r: bool)
    ensures
        r == has_candidate(list@, sha256@, folder@),
{
    let mut i: usize = 0;
    while i < list.len()
        invariant
            i <= list@.len(),
            forall|k: int|
                0 <= k < i ==> !((#[trigger] list@[k]).sha256@ == sha256@ && list@[k].source_folder@
                    == folder@),
        decreases list@.len() - i,
    {
        if text::same(list[i].sha256.as_str(), sha256) && text::same(
            list[i].source_folder.as_str(),
            folder,
        ) {
            return true;
        }
        i = i + 1;
    }
    false
}

/// Adds an image, unless the same content was found in the same folder before.
pub fn push_artwork_file(
    candidates: &mut Vec<ArtworkCandidate>,
    path: &str,
    source_folder: &str,
    bytes: &[u8],
)
    ensures
        if has_candidate(old(candidates)@, hash::sha256_hex(bytes@), source_folder@) {
            final(candidates)@ == old(candidates)@
        } else {
            &&& final(candidates)@.len() == old(candidates)@.len() + 1
            &&& final(candidates)@.drop_last() == old(candidates)@
            &&& final(candidates)@.last().path@ == path@
            &&& final(candidates)@.last().sha256@ == hash::sha256_hex(bytes@)
            &&& final(candidates)@.last().size == bytes@.len()
            &&& final(candidates)@.last().source_folder@ == source_folder@
            &&& final(candidates)@.last().object_key is None
        },
{
    let sha256 = hash::hash_bytes(bytes);
    if find_candidate(candidates, sha256.as_str(), source_folder) {
        return;
    }
    let ghost before = candidates@;
    candidates.push(
        ArtworkCandidate {
            path: path.to_owned(),
            sha256,
            size: bytes.len() as u64,
            source_folder: source_folder.to_owned(),
            object_key: None,
        },
    );
    proof {
        assert(candidates@.drop_last() =~= before);
    }
}

/// A list with more images, those left out whose content it already has from
/// the same folder.
pub open spec fn merged(into: Seq<ArtworkCandidate>, more: Seq<ArtworkCandidate>) -> Seq<
    ArtworkCandidate,
>
    decreases more.len(),
{
    if more.len() == 0 {
        into
    } else {
        let front = merged(into, more.drop_last());
        let c = more.last();
        if has_candidate(front, c.sha256@, c.source_folder@) {
            front
        } else {
            front.push(c)
        }
    }
}

/// Merging brings in nothing but what is given.
pub proof fn law_merge_adds_only_what_is_given(
    into: Seq<ArtworkCandidate>,
    more: Seq<ArtworkCandidate>,
)
    ensures
        forall|i: int|
            0 <= i < merged(into, more).len() ==> into.contains(#[trigger] merged(into, more)[i])
                || more.contains(merged(into, more)[i]),
    decreases more.len(),
{
    let all = merged(into, more);
    if more.len() > 0 {
        let front = more.drop_last();
        law_merge_adds_only_what_is_given(into, front);
        let before = merged(into, front);
        assert forall|i: int| 0 <= i < all.len() implies into.contains(#[trigger] all[i])
            || more.contains(all[i]) by {
            if i < before.len() {
                assert(all[i] == before[i]);
                if front.contains(before[i]) {
                    let k = choose|k: int| 0 <= k < front.len() && front[k] == before[i];
                    assert(more[k] == all[i]);
                }
            } else {
                assert(more[more.len() - 1] == all[i]);
            }
        }
    }
}

/// Adds images to a list, without repeats.
pub fn merge_artwork(into: &mut Vec<ArtworkCandidate>, more: Vec<ArtworkCandidate>)
    ensures
        final(into)@ == merged(old(into)@, more@),
{
    let ghost start = into@;
    let mut i: usize = 0;
    proof {
        assert(more@.take(0) =~= Seq::<ArtworkCandidate>::empty());
    }
    while i < more.len()
        invariant
            i <= more@.len(),
            start == old(into)@,
            into@ == merged(start, more@.take(i as int)),
        decreases more@.len() - i,
    {
        proof {
            assert(more@.take(i + 1).drop_last() =~= more@.take(i as int));
        }
        let c = more[i].copy();
        if !find_candidate(into, c.sha256.as_str(), c.source_folder.as_str()) {
            into.push(c);
        }
        i = i + 1;
    }
    proof {
        assert(more@.take(more@.len() as int) =~= more@);
    }
}

/// Whether no image occurs twice from the same folder.
pub open spec fn no_repeats(list: Seq<ArtworkCandidate>) -> bool {
    forall|i: int, j: int|
        0 <= i < j < list.len() ==> (#[trigger] list[i]).sha256@ != (#[trigger] list[j]).sha256@
            || list[i].source_folder@ != list[j].source_folder@
}

/// Merging brings in no repeats, loses nothing of the list it adds to, and
/// ends up with every image that was to be added.
pub proof fn law_merge_keeps_and_dedupes(
    into: Seq<ArtworkCandidate>,
    more: Seq<ArtworkCandidate>,
)
    ensures
        into.is_prefix_of(merged(into, more)),
        no_repeats(into) ==> no_repeats(merged(into, more)),
        forall|i: int|
            0 <= i < more.len() ==> has_candidate(
                merged(into, more),
                (#[trigger] more[i]).sha256@,
                more[i].source_folder@,
            ),
    decreases more.len(),
{
    let all = merged(into, more);
    if more.len() == 0 {
        assert(into =~= all.subrange(0, into.len() as int));
    } else {
        let rest = more.drop_last();
        law_merge_keeps_and_dedupes(into, rest);
        let front = merged(into, rest);
        let c = more.last();
        assert(into =~= all.subrange(0, into.len() as int)) by {
            assert(into =~= front.subrange(0, into.len() as int));
        }
        if no_repeats(into) && !has_candidate(front, c.sha256@, c.source_folder@) {
            assert forall|i: int, j: int| 0 <= i < j < all.len() implies (
            #[trigger] all[i]).sha256@ != (#[trigger] all[j]).sha256@ || all[i].source_folder@
                != all[j].source_folder@ by {
                if j < front.len() {
                    assert(front[i] == all[i] && front[j] == all[j]);
                } else {
                    assert(front[i] == all[i]);
                }
            }
        }
        assert forall|i: int| 0 <= i < more.len() implies has_candidate(
            all,
            (#[trigger] more[i]).sha256@,
            more[i].source_folder@,
        ) by {
            if i < rest.len() {
                assert(rest[i] == more[i]);
                let k = choose|k: int|
                    0 <= k < front.len() && (#[trigger] front[k]).sha256@ == rest[i].sha256@
                        && front[k].source_folder@ == rest[i].source_folder@;
                assert(all[k] == front[k]);
            } else if !has_candidate(front, c.sha256@, c.source_folder@) {
                assert(all[all.len() - 1] == c);
            }
        }
    }
}

// ---------------------------------------------------------------------------
// Explicit paths
// ---------------------------------------------------------------------------

/// What stands at a path.
#[derive(Debug, Clone, Copy, PartialEq, Eq, Structural)]
pub enum PathKind {
    Missing,
    File,
    Directory,
    Other,
}

/// What to do with an explicitly named artwork path.
#[derive(Debug, Clone, Copy, PartialEq, Eq, Structural)]
pub enum ArtworkPathUse {
    /// Leave it out.
    Skip,
    /// Take the image.
    TakeFile,
    /// Take the images in the folder.
    ScanFolder,
}

/// Decides what to do with an explicitly named artwork path.
pub fn use_artwork_path(path: &str, kind: PathKind, include_dotfiles: bool) -> (r: Result<
    ArtworkPathUse,
    Error,
>)
    ensures
        match kind {
            PathKind::Missing => r matches Err(Error::Other(m)) && m@ == "artwork path not found: "@
                + path@,
            PathKind::File => if scan::hidden(path@, include_dotfiles) {
                r == Ok::<ArtworkPathUse, Error>(ArtworkPathUse::Skip)
            } else if scan::extension_in(path@, scan::DEFAULT_IMAGE_EXTENSIONS@) {
                r == Ok::<ArtworkPathUse, Error>(ArtworkPathUse::TakeFile)
            } else {
                r matches Err(Error::Other(m)) && m@ == "artwork path is not an image: "@ + path@
            },
            PathKind::Directory => r == Ok::<ArtworkPathUse, Error>(ArtworkPathUse::ScanFolder),
            PathKind::Other => r matches Err(Error::Other(m)) && m@
                == "artwork path is not a file or directory: "@ + path@,
        },
{
    match kind {
        PathKind::Missing => Err(Error::Other(text::cat2("artwork path not found: ", path))),
        PathKind::File => {
            if scan::is_hidden(path, include_dotfiles) {
                Ok(ArtworkPathUse::Skip)
            } else if scan::is_image(path, &scan::DEFAULT_IMAGE_EXTENSIONS) {
                Ok(ArtworkPathUse::TakeFile)
            } else {
                Err(Error::Other(text::cat2("artwork path is not an image: ", path)))
            }
        },
        PathKind::Directory => Ok(ArtworkPathUse::ScanFolder),
        PathKind::Other => Err(
            Error::Other(text::cat2("artwork path is not a file or directory: ", path)),
        ),
    }
}

/// Whether an entry of a folder is taken as cover art.
pub fn takes_folder_entry(path: &str, is_file: bool, include_dotfiles: bool) -> (r: bool)
    ensures
        r == (is_file && !scan::hidden(path@, include_dotfiles) && scan::extension_in(
            path@,
            scan::DEFAULT_IMAGE_EXTENSIONS@,
        )),
{
    is_file && !scan::is_hidden(path, include_dotfiles) && scan::is_image(
        path,
        &scan::DEFAULT_IMAGE_EXTENSIONS,
    )
}

/// The folder that an explicitly named image is recorded under: the one it
/// stands in.
pub fn folder_of_image(path: &str) -> (r: String)
    ensures
        r@ == match path::parent(path@) {
            Some(p) => p,
            None => Seq::empty(),
        },
{
    match path::parent_of(path) {
        Some(p) => p,
        None => String::new(),
    }
}

// ---------------------------------------------------------------------------
// Capture
// ---------------------------------------------------------------------------

/// The key that an image is stored under: its content hash and extension.
pub open spec fn artwork_key(c: ArtworkCandidate) -> Seq<char> {
    "artwork/"@ + text::trim_start(
        c.sha256@ + "."@ + job::extension_or(c.path@, "img"@),
        '/',
    )
}

/// Artwork is stored under its hash and its extension, in a folder of its own.
pub proof fn law_artwork_is_stored_under_its_hash(
    c: ArtworkCandidate,
    dir: Seq<char>,
    stem: Seq<char>,
    ext: Seq<char>,
)
    requires
        c.path@ == dir.push('/') + (stem.push('.') + ext),
        path::is_name(stem.push('.') + ext),
        stem.len() > 0,
        !ext.contains('.'),
        c.sha256@.len() > 0,
        c.sha256@[0] != '/',
    ensures
        artwork_key(c) == "artwork/"@ + (c.sha256@ + "."@ + text::lowered(ext)),
{
    job::law_names_are_taken_from_the_path(dir, stem, ext, "img"@);
    let rel = c.sha256@ + "."@ + text::lowered(ext);
    assert(rel[0] == c.sha256@[0]);
    assert(text::trim_start(rel, '/') == rel);
}

/// A record of artwork says under which key the image with its hash stands, how large
/// it is, what it was called, and which folder it was found in.
pub proof fn law_record_describes_the_artwork(
    r: ArtworkRecord,
    c: ArtworkCandidate,
    new: ArtworkCandidate,
    dir: Seq<char>,
    name: Seq<char>,
)
    requires
        is_record_of(r, c),
        is_captured(new, c),
        c.path@ == dir.push('/') + name,
        path::is_name(name),
    ensures
        new.object_key is Some && r.object_key@ == new.object_key->0@,
        new.sha256 == c.sha256 && new.path == c.path && new.size == c.size,
        r.sha256@ == c.sha256@,
        r.size_bytes == c.size,
        r.source_folder@ == c.source_folder@,
        r.file_name@ == name,
{
    path::law_last_name_stands_behind_the_separator(dir, name);
}

/// The key that an image is stored under.
pub fn artwork_key_of(c: &ArtworkCandidate, paths: &BucketPaths) -> (r: String)
    ensures
        r@ == artwork_key(*c),
{
    let ext = job::extension_or_else(c.path.as_str(), "img");
    let rel = text::cat3(c.sha256.as_str(), ".", ext.as_str());
    paths.artwork(rel.as_str())
}

/// The record of a captured image.
pub fn artwork_record(c: &ArtworkCandidate, key: &str, now: Timestamp) -> (r: ArtworkRecord)
    ensures
        r.sha256@ == c.sha256@,
        r.object_key@ == key@,
        r.size_bytes == c.size,
        r.source_folder@ == c.source_folder@,
        r.file_name@ == job::name_or(c.path@, "cover"@),
        r.captured_at == now,
{
    ArtworkRecord {
        sha256: c.sha256.clone(),
        object_key: key.to_owned(),
        size_bytes: c.size,
        source_folder: c.source_folder.clone(),
        file_name: job::name_or_else(c.path.as_str(), "cover"),
        captured_at: now,
    }
}

/// Whether a record is that of a captured image.
pub open spec fn is_record_of(r: ArtworkRecord, c: ArtworkCandidate) -> bool {
    &&& r.sha256@ == c.sha256@
    &&& r.object_key@ == artwork_key(c)
    &&& r.size_bytes == c.size
    &&& r.source_folder@ == c.source_folder@
    &&& r.file_name@ == job::name_or(c.path@, "cover"@)
}

/// Whether a candidate is another one, now that it has been captured.
pub open spec fn is_captured(new: ArtworkCandidate, c: ArtworkCandidate) -> bool {
    &&& new == (ArtworkCandidate { object_key: new.object_key, ..c })
    &&& text::opt_view(new.object_key) == Some(artwork_key(c))
}

/// An image to capture: it is to be stored under the key unless an object
/// stands there already.
#[derive(Debug, Clone, PartialEq, Eq)]
pub struct CaptureTask {
    pub path: String,
    pub key: String,
}

/// The capture of a job's images in progress.
pub struct CaptureRun {
    images: Vec<ArtworkCandidate>,
    at: usize,
    records: Vec<ArtworkRecord>,
    start: Ghost<Seq<ArtworkCandidate>>,
}

impl CaptureRun {
    pub closed spec fn wf(self) -> bool {
        &&& self.images@.len() == self.start@.len()
        &&& self.at <= self.images@.len()
        &&& self.records@.len() == self.at
        &&& forall|i: int|
            0 <= i < self.at ==> is_captured(#[trigger] self.images@[i], self.start@[i])
        &&& forall|i: int|
            0 <= i < self.at ==> is_record_of(#[trigger] self.records@[i], self.start@[i])
        &&& forall|i: int|
            self.at <= i < self.images@.len() ==> #[trigger] self.images@[i] == self.start@[i]
    }

    /// The images as they were found.
    pub closed spec fn begun(self) -> Seq<ArtworkCandidate> {
        self.start@
    }

    /// How many images have been captured.
    pub closed spec fn done(self) -> nat {
        self.at as nat
    }

    /// The records of the images captured so far.
    pub closed spec fn recorded(self) -> Seq<ArtworkRecord> {
        self.records@
    }

    /// Starts the capture.
    pub fn begin(images: Vec<ArtworkCandidate>) -> (r: CaptureRun)
        ensures
            r.wf(),
            r.begun() == images@,
            r.done() == 0,
            r.recorded().len() == 0,
    {
        let ghost start = images@;
        CaptureRun { images, at: 0, records: Vec::new(), start: Ghost(start) }
    }

    /// The next image, if one is left.
    pub fn next_image(&self, paths: &BucketPaths) -> (r: Option<CaptureTask>)
        requires
            self.wf(),
        ensures
            r is Some <==> self.done() < self.begun().len(),
            r matches Some(t) ==> t.path@ == self.begun()[self.done() as int].path@ && t.key@
                == artwork_key(self.begun()[self.done() as int]),
    {
        let n: usize = self.images.len();
        if self.at >= n {
            return None;
        }
        let image: &ArtworkCandidate = &self.images[self.at];
        Some(CaptureTask { path: image.path.clone(), key: artwork_key_of(image, paths) })
    }

    /// Enters that the image is stored.
    pub fn captured(&mut self, paths: &BucketPaths, now: Timestamp)
        requires
            old(self).wf(),
            old(self).done() < old(self).begun().len(),
        ensures
            final(self).wf(),
            final(self).begun() == old(self).begun(),
            final(self).done() == old(self).done() + 1,
            final(self).recorded().len() == old(self).recorded().len() + 1,
            final(self).recorded().drop_last() == old(self).recorded(),
            is_record_of(final(self).recorded().last(), old(self).begun()[old(self).done() as int]),
            final(self).recorded().last().captured_at == now,
    {
        let ghost before = *self;
        let n: usize = self.images.len();
        let mut image = self.images[self.at].copy();
        let key = artwork_key_of(&image, paths);
        self.records.push(artwork_record(&image, key.as_str(), now));
        image.object_key = Some(key);
        self.images.set(self.at, image);
        self.at = self.at + 1;
        proof {
            assert(self.records@.drop_last() =~= before.records@);
            assert(self.at <= n);
            assert forall|i: int| 0 <= i < self.at implies is_captured(
                #[trigger] self.images@[i],
                self.start@[i],
            ) by {
                if i < before.at {
                    assert(is_captured(before.images@[i], self.start@[i]));
                }
            }
            assert forall|i: int| 0 <= i < self.at implies is_record_of(
                #[trigger] self.records@[i],
                self.start@[i],
            ) by {
                if i < before.at {
                    assert(is_record_of(before.records@[i], self.start@[i]));
                }
            }
        }
    }

    /// The images with the keys they were stored under, and their records.
    pub fn finish(self) -> (r: (Vec<ArtworkCandidate>, Vec<ArtworkRecord>))
        requires
            self.wf(),
            self.done() == self.begun().len(),
        ensures
            r.0@.len() == self.begun().len(),
            r.1@ == self.recorded(),
            r.1@.len() == self.begun().len(),
            forall|i: int|
                0 <= i < self.begun().len() ==> is_captured(#[trigger] r.0@[i], self.begun()[i]),
            forall|i: int|
                0 <= i < self.begun().len() ==> is_record_of(#[trigger] r.1@[i], self.begun()[i]),
    {
        (self.images, self.records)
    }
}

// ---------------------------------------------------------------------------
// Manifest
// ---------------------------------------------------------------------------

/// Whether a manifest has a record of the given content from the given folder.
pub open spec fn has_record(list: Seq<ArtworkRecord>, sha256: Seq<char>, folder: Seq<char>) -> bool {
    exists|i: int|
        0 <= i < list.len() && (#[trigger] list[i]).sha256@ == sha256 && list[i].source_folder@
            == folder
}

/// A manifest with more records, those left out that it already has.
pub open spec fn manifest_with(all: Seq<ArtworkRecord>, records: Seq<ArtworkRecord>) -> Seq<
    ArtworkRecord,
>
    decreases records.len(),
{
    if records.len() == 0 {
        all
    } else {
        let front = manifest_with(all, records.drop_last());
        let r = records.last();
        if has_record(front, r.sha256@, r.source_folder@) {
            front
        } else {
            front.push(r)
        }
    }
}

/// Whether a manifest has a record of the given content from the given folder.
fn find_record(list: &Vec<ArtworkRecord>, sha256: &str, folder: &str) -> (r: bool)
    ensures
        r == has_record(list@, sha256@, folder@),
{
    let mut i: usize = 0;
    while i < list.len()
        invariant
            i <= list@.len(),
            forall|k: int|
                0 <= k < i ==> !((#[trigger] list@[k]).sha256@ == sha256@ && list@[k].source_folder@
                    == folder@),
        decreases list@.len() - i,
    {
        if text::same(list[i].sha256.as_str(), sha256) && text::same(
            list[i].source_folder.as_str(),
            folder,
        ) {
            return true;
        }
        i = i + 1;
    }
    false
}

/// The manifest takes in nothing but the given records, and none twice.
pub proof fn law_manifest_adds_only_new_records(
    all: Seq<ArtworkRecord>,
    records: Seq<ArtworkRecord>,
)
    ensures
        forall|i: int|
            all.len() <= i < manifest_with(all, records).len() ==> records.contains(
                #[trigger] manifest_with(all, records)[i],
            ) && !has_record(
                manifest_with(all, records).take(i),
                manifest_with(all, records)[i].sha256@,
                manifest_with(all, records)[i].source_folder@,
            ),
    decreases records.len(),
{
    let m = manifest_with(all, records);
    if records.len() > 0 {
        let front = records.drop_last();
        law_manifest_adds_only_new_records(all, front);
        let before = manifest_with(all, front);
        assert forall|i: int| all.len() <= i < m.len() implies records.contains(#[trigger] m[i])
            && !has_record(m.take(i), m[i].sha256@, m[i].source_folder@) by {
            if i < before.len() {
                assert(m[i] == before[i]);
                assert(m.take(i) =~= before.take(i));
                let k = choose|k: int| 0 <= k < front.len() && front[k] == before[i];
                assert(records[k] == m[i]);
            } else {
                assert(records[records.len() - 1] == m[i]);
                assert(m.take(i) =~= before);
            }
        }
    }
}

/// Adds records to a manifest, without repeats.
pub fn append_artwork_manifest(all: &mut Vec<ArtworkRecord>, records: &Vec<ArtworkRecord>)
    ensures
        final(all)@ == manifest_with(old(all)@, records@),
{
    let ghost start = all@;
    let mut i: usize = 0;
    proof {
        assert(records@.take(0) =~= Seq::<ArtworkRecord>::empty());
    }
    while i < records.len()
        invariant
            i <= records@.len(),
            start == old(all)@,
            all@ == manifest_with(start, records@.take(i as int)),
        decreases records@.len() - i,
    {
        proof {
            assert(records@.take(i + 1).drop_last() =~= records@.take(i as int));
        }
        let record: &ArtworkRecord = &records[i];
        if !find_record(all, record.sha256.as_str(), record.source_folder.as_str()) {
            all.push(record.copy());
        }
        i = i + 1;
    }
    proof {
        assert(records@.take(records@.len() as int) =~= records@);
    }
}

/// Appending loses no record of the manifest, and every new record ends up in
/// it.
pub proof fn law_manifest_only_grows(all: Seq<ArtworkRecord>, records: Seq<ArtworkRecord>)
    ensures
        all.is_prefix_of(manifest_with(all, records)),
        forall|i: int|
            0 <= i < records.len() ==> has_record(
                manifest_with(all, records),
                (#[trigger] records[i]).sha256@,
                records[i].source_folder@,
            ),
    decreases records.len(),
{
    let more = manifest_with(all, records);
    if records.len() == 0 {
        assert(all =~= more.subrange(0, all.len() as int));
    } else {
        let rest = records.drop_last();
        law_manifest_only_grows(all, rest);
        let front = manifest_with(all, rest);
        let r = records.last();
        assert(all =~= more.subrange(0, all.len() as int)) by {
            assert(all =~= front.subrange(0, all.len() as int));
        }
        assert forall|i: int| 0 <= i < records.len() implies has_record(
            more,
            (#[trigger] records[i]).sha256@,
            records[i].source_folder@,
        ) by {
            if i < rest.len() {
                assert(rest[i] == records[i]);
                let k = choose|k: int|
                    0 <= k < front.len() && (#[trigger] front[k]).sha256@ == rest[i].sha256@
                        && front[k].source_folder@ == rest[i].source_folder@;
                assert(more[k] == front[k]);
            } else if !has_record(front, r.sha256@, r.source_folder@) {
                assert(more[more.len() - 1] == r);
            }
        }
    }
}

} // verus!

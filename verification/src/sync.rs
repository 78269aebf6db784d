//! Filling performance volumes: what goes where, what is there already, and
//! what a playlist file on the volume says.

use vstd::prelude::*;

use crate::collections::TextMap;
use crate::config::{ExportLayout, PlaylistFormat};
use crate::db::transfer::{TransferRow, TransferStatus};
use crate::db::volume::{VolumeFile, VolumeFileStatus};
use crate::error::Error;
use crate::import::retry;
use crate::model;
use crate::model::{ArchiveEntry, Timestamp, TrackId};
use crate::path;
use crate::selection;
use crate::text;

verus! {

/// Which way a transfer goes, as seen from this machine.
#[derive(Debug, Clone, Copy, PartialEq, Eq, Structural)]
pub enum Direction {
    Download,
    Upload,
}

/// One transfer of a plan.
#[derive(Debug, Clone, PartialEq, Eq)]
pub struct Transfer {
    pub track_id: String,
    pub object_key: String,
    /// Where it goes, relative to the root of the volume.
    pub relative_path: String,
    pub direction: Direction,
    pub bytes_total: u64,
}

/// What a sync will move.
#[derive(Debug, Clone, PartialEq, Eq)]
pub struct SyncPlan {
    pub transfers: Vec<Transfer>,
    /// Tracks that are on the volume already.
    pub already_present: Vec<String>,
    pub bytes_remaining: u64,
}

/// A playlist file for a volume.
#[derive(Debug, Clone, PartialEq, Eq)]
pub struct PlaylistExport {
    pub filename: String,
    pub body: String,
    pub relative_paths: Vec<String>,
}

/// How one track stands on a volume.
#[derive(Debug, Clone, PartialEq, Eq)]
pub struct VolumeDiffEntry {
    pub track_id: TrackId,
    pub relative_path: String,
    pub state: VolumeDiffState,
}

/// How a track stands on a volume.
#[derive(Debug, Clone, Copy, PartialEq, Eq, Structural)]
pub enum VolumeDiffState {
    Present,
    Missing,
    Stale,
}

// ---------------------------------------------------------------------------
// Names
// ---------------------------------------------------------------------------

/// Whether a character cannot stand in a file name on every file system.
pub open spec fn is_unsafe(c: char) -> bool {
    ||| c == '/'
    ||| c == '\\'
    ||| c == ':'
    ||| c == '*'
    ||| c == '?'
    ||| c == '"'
    ||| c == '<'
    ||| c == '>'
    ||| c == '|'
}

/// A name with `_` for every character that is not safe.
pub open spec fn sanitized(s: Seq<char>) -> Seq<char> {
    s.map_values(
        |c: char|
            if is_unsafe(c) {
                '_'
            } else {
                c
            },
    )
}

/// A name with `_` for every character that is not safe.
pub fn sanitize(component: &str) -> (r: String)
    ensures
        r@ == sanitized(component@),
{
    let v = text::chars_of(component);
    let mut r = String::new();
    let mut i: usize = 0;
    while i < v.len()
        invariant
            i <= v@.len(),
            v@ == component@,
            r@ == sanitized(component@).take(i as int),
        decreases v@.len() - i,
    {
        let c: char = v[i];
        let bad: bool = c == '/' || c == '\\' || c == ':' || c == '*' || c == '?' || c == '"' || c
            == '<' || c == '>' || c == '|';
        let d: char = if bad {
            '_'
        } else {
            c
        };
        r.push(d);
        proof {
            assert(r@ =~= sanitized(component@).take(i + 1));
        }
        i = i + 1;
    }
    proof {
        assert(sanitized(component@).take(v@.len() as int) =~= sanitized(component@));
    }
    r
}

/// A sanitized name is one name: it holds no separator and nothing else that is
/// not safe, and sanitizing it again changes nothing.
pub proof fn law_sanitized_is_safe(s: Seq<char>)
    ensures
        forall|i: int| 0 <= i < sanitized(s).len() ==> !is_unsafe(#[trigger] sanitized(s)[i]),
        sanitized(sanitized(s)) == sanitized(s),
        sanitized(s).len() == s.len(),
{
    assert(sanitized(sanitized(s)) =~= sanitized(s));
}

/// Sanitizing replaces `/`, `\`, `:`, `*`, `?`, `"`, `<`, `>` and `|` by `_`, and leaves
/// every other character as it is.
pub proof fn law_sanitizing_replaces_unsafe_characters(s: Seq<char>, i: int)
    requires
        0 <= i < s.len(),
    ensures
        s[i] == '/' || s[i] == '\\' || s[i] == ':' || s[i] == '*' || s[i] == '?' || s[i] == '"'
            || s[i] == '<' || s[i] == '>' || s[i] == '|' ==> sanitized(s)[i] == '_',
        !(s[i] == '/' || s[i] == '\\' || s[i] == ':' || s[i] == '*' || s[i] == '?' || s[i] == '"'
            || s[i] == '<' || s[i] == '>' || s[i] == '|') ==> sanitized(s)[i] == s[i],
{
}

/// The text behind the last `.`, or all of it if there is none.
pub open spec fn after_last_dot(s: Seq<char>) -> Seq<char> {
    if path::last_dot(s) >= 0 {
        s.skip(path::last_dot(s) + 1)
    } else {
        s
    }
}

/// The extension of a track's file.
pub open spec fn extension_for(e: model::EntryView) -> Seq<char> {
    match text::opt_view(e.metadata.file_type) {
        Some(ft) => if text::trim_start(ft, '.').len() > 0 {
            text::lowered(text::trim_start(ft, '.'))
        } else {
            text::lowered(after_last_dot(e.object_key))
        },
        None => text::lowered(after_last_dot(e.object_key)),
    }
}

/// The name of a track's file: its title, else the name it was imported under,
/// never its hash.
pub open spec fn file_name_for(e: model::EntryView) -> Seq<char> {
    let ext = extension_for(e);
    let title = text::opt_view(e.metadata.title);
    if title is Some && title->0.len() > 0 {
        sanitized(title->0) + "."@ + ext
    } else {
        match e.source_path_original {
            Some(source) => match path::file_stem(source) {
                Some(stem) => sanitized(stem) + "."@ + ext,
                None => "track."@ + ext,
            },
            None => "track."@ + ext,
        }
    }
}

/// Whether a text is in small ASCII letters and digits.
pub open spec fn is_plain_ext(s: Seq<char>) -> bool {
    &&& s.len() > 0
    &&& forall|i: int|
        0 <= i < s.len() ==> 'a' <= #[trigger] s[i] <= 'z' || '0' <= s[i] <= '9'
}

proof fn lemma_plain_ext(ext: Seq<char>)
    requires
        is_plain_ext(ext),
    ensures
        text::lowered(ext) == ext,
        text::trim_start(ext, '.') == ext,
        !ext.contains('.'),
{
    assert(ext[0] != '.');
    assert forall|i: int| 0 <= i < ext.len() implies (#[trigger] ext[i]) < '\u{80}' by {}
    assert(ext.map_values(|c: char| text::ascii_lower(c)) =~= ext);
    if ext.contains('.') {
        let k = choose|k: int| 0 <= k < ext.len() && ext[k] == '.';
        assert(ext[k] == '.');
    }
}

/// A file has the extension of the track's file type or, where that is not known, of
/// its object, in small letters.
pub proof fn law_file_has_the_extension_of_its_track(
    e: model::EntryView,
    ext: Seq<char>,
    key: Seq<char>,
    dots: nat,
)
    requires
        ext.len() > 0,
        !ext.contains('.'),
    ensures
        e.metadata.file_type is Some && e.metadata.file_type->0@ == Seq::new(dots, |i: int| '.')
            + ext ==> extension_for(e) == text::lowered(ext),
        e.metadata.file_type is None && e.object_key == key.push('.') + ext ==> extension_for(e)
            == text::lowered(ext),
        e.metadata.file_type is Some && e.metadata.file_type->0@ == Seq::new(dots, |i: int| '.')
            && e.object_key == key.push('.') + ext ==> extension_for(e) == text::lowered(ext),
{
    assert(ext[0] != '.') by {
        if ext[0] == '.' {
            assert(ext.contains('.'));
        }
    }
    text::law_trim_start_leaves_the_rest(dots, ext, '.');
    text::law_trim_start_leaves_the_rest(dots, Seq::empty(), '.');
    assert(Seq::new(dots, |i: int| '.') + Seq::<char>::empty() =~= Seq::new(dots, |i: int| '.'));
    lemma_last_dot_before(key, ext);
    assert((key.push('.') + ext).skip(key.len() as int + 1) =~= ext);
}

proof fn lemma_last_dot_before(key: Seq<char>, ext: Seq<char>)
    requires
        !ext.contains('.'),
    ensures
        path::last_dot(key.push('.') + ext) == key.len(),
    decreases ext.len(),
{
    let whole = key.push('.') + ext;
    if ext.len() == 0 {
        assert(whole =~= key.push('.'));
    } else {
        let shorter = ext.drop_last();
        assert(whole.drop_last() =~= key.push('.') + shorter);
        assert(whole.last() == ext[ext.len() - 1]);
        assert(!shorter.contains('.')) by {
            if shorter.contains('.') {
                let k = choose|k: int| 0 <= k < shorter.len() && shorter[k] == '.';
                assert(ext[k] == '.');
            }
        }
        lemma_last_dot_before(key, shorter);
    }
}

/// A file is named after the title of its track, with what is not safe replaced; a
/// track without one goes by the name that it was imported under, without its
/// extension, and one that has neither is called `track`. The extension follows behind a
/// dot.
pub proof fn law_file_is_named_after_its_track(
    e: model::EntryView,
    dir: Seq<char>,
    stem: Seq<char>,
    was: Seq<char>,
)
    requires
        path::is_name(stem.push('.') + was),
        stem.len() > 0,
        !was.contains('.'),
    ensures
        e.metadata.title is Some && e.metadata.title->0@.len() > 0 ==> file_name_for(e)
            == sanitized(e.metadata.title->0@) + "."@ + extension_for(e),
        (e.metadata.title is None || e.metadata.title->0@.len() == 0)
            && e.source_path_original == Some(dir.push('/') + (stem.push('.') + was))
            ==> file_name_for(e) == sanitized(stem) + "."@ + extension_for(e),
        (e.metadata.title is None || e.metadata.title->0@.len() == 0)
            && e.source_path_original is Some && path::file_name(e.source_path_original->0) is None
            ==> file_name_for(e) == "track."@ + extension_for(e),
        (e.metadata.title is None || e.metadata.title->0@.len() == 0)
            && e.source_path_original is None ==> file_name_for(e) == "track."@ + extension_for(
            e,
        ),
{
    path::law_extension_stands_behind_the_last_dot(dir, stem, was);
}

/// The text behind the last `.` of a key, or all of it.
fn after_last_dot_of(s: &str) -> (r: String)
    ensures
        r@ == after_last_dot(s@),
{
    let v = text::chars_of(s);
    let n: usize = v.len();
    let mut i: usize = n;
    proof {
        assert(v@.take(n as int) =~= v@);
    }
    while i > 0
        invariant
            i <= n,
            n == v@.len(),
            v@ == s@,
            path::last_dot(s@) == path::last_dot(v@.take(i as int)),
        decreases i,
    {
        proof {
            assert(v@.take(i as int).drop_last() =~= v@.take(i - 1));
            assert(v@.take(i as int).last() == v@[i - 1]);
        }
        if v[i - 1] == '.' {
            let r = text::text_slice(&v, i, n);
            proof {
                assert(r@ =~= s@.skip(i as int));
            }
            return r;
        }
        i = i - 1;
    }
    s.to_owned()
}

/// The extension of a track's file.
fn extension_for_entry(entry: &ArchiveEntry) -> (r: String)
    ensures
        r@ == extension_for(entry@),
{
    if let Some(ft) = &entry.metadata.file_type {
        let plain = text::trim_start_text(ft.as_str(), '.');
        if !plain.as_str().is_empty() {
            return text::to_lowercase(plain.as_str());
        }
    }
    let ext = after_last_dot_of(entry.object_key.as_str());
    text::to_lowercase(ext.as_str())
}

/// The name of a track's file.
pub fn display_filename(entry: &ArchiveEntry) -> (r: String)
    ensures
        r@ == file_name_for(entry@),
{
    let ext = extension_for_entry(entry);
    if let Some(title) = &entry.metadata.title {
        if !title.as_str().is_empty() {
            let name = sanitize(title.as_str());
            return text::cat3(name.as_str(), ".", ext.as_str());
        }
    }
    if let Some(source) = &entry.source_path_original {
        if let Some(stem) = path::file_stem_of(source.as_str()) {
            let name = sanitize(stem.as_str());
            return text::cat3(name.as_str(), ".", ext.as_str());
        }
    }
    text::cat2("track.", ext.as_str())
}

/// A file name taken apart at its last `.`. One without an extension counts as
/// an MP3.
pub open spec fn name_and_ext(name: Seq<char>) -> (Seq<char>, Seq<char>) {
    let i = path::last_dot(name);
    if i >= 0 && name.skip(i + 1).len() > 0 && !name.skip(i + 1).contains('/') {
        (name.take(i), name.skip(i + 1))
    } else {
        (name, "mp3"@)
    }
}

/// A file name is taken apart at its last dot; a name without an extension counts as
/// one of an MP3.
pub proof fn law_name_is_taken_apart_at_the_last_dot(stem: Seq<char>, ext: Seq<char>)
    requires
        is_plain_ext(ext),
    ensures
        name_and_ext(stem.push('.') + ext) == (stem, ext),
        !stem.contains('.') ==> name_and_ext(stem) == (stem, "mp3"@),
{
    let name = stem.push('.') + ext;
    lemma_plain_ext(ext);
    lemma_last_dot_before(stem, ext);
    assert(name.skip(stem.len() as int + 1) =~= ext);
    assert(name.take(stem.len() as int) =~= stem);
    if ext.contains('/') {
        let k = choose|k: int| 0 <= k < ext.len() && ext[k] == '/';
        assert(ext[k] == '/');
    }
    if !stem.contains('.') {
        lemma_no_last_dot(stem);
    }
}

proof fn lemma_no_last_dot(name: Seq<char>)
    requires
        !name.contains('.'),
    ensures
        path::last_dot(name) == -1,
    decreases name.len(),
{
    if name.len() > 0 {
        let front = name.drop_last();
        assert(name[name.len() - 1] != '.');
        assert(!front.contains('.')) by {
            if front.contains('.') {
                let k = choose|k: int| 0 <= k < front.len() && front[k] == '.';
                assert(name[k] == '.');
            }
        }
        lemma_no_last_dot(front);
    }
}

/// A file name taken apart at its last `.`.
pub fn split_name_ext(name: &str) -> (r: (String, String))
    ensures
        (r.0@, r.1@) == name_and_ext(name@),
{
    let v = text::chars_of(name);
    let n: usize = v.len();
    let mut i: usize = n;
    proof {
        assert(v@.take(n as int) =~= v@);
    }
    while i > 0
        invariant
            i <= n,
            n == v@.len(),
            v@ == name@,
            path::last_dot(name@) == path::last_dot(v@.take(i as int)),
            forall|k: int| i <= k < n ==> v@[k] != '/',
        decreases i,
    {
        proof {
            assert(v@.take(i as int).drop_last() =~= v@.take(i - 1));
            assert(v@.take(i as int).last() == v@[i - 1]);
        }
        if v[i - 1] == '.' {
            let ghost ext = name@.skip(i as int);
            proof {
                assert(!ext.contains('/')) by {
                    if ext.contains('/') {
                        let k = choose|k: int| 0 <= k < ext.len() && ext[k] == '/';
                        assert(v@[i + k] == '/');
                    }
                }
            }
            if i == n {
                return (name.to_owned(), "mp3".to_owned());
            }
            let a = text::text_slice(&v, 0, i - 1);
            let b = text::text_slice(&v, i, n);
            proof {
                assert(a@ =~= name@.take(i - 1));
                assert(b@ =~= ext);
            }
            return (a, b);
        }
        if v[i - 1] == '/' {
            proof {
                lemma_slash_in_ext(name@, i - 1);
            }
            return (name.to_owned(), "mp3".to_owned());
        }
        i = i - 1;
    }
    (name.to_owned(), "mp3".to_owned())
}

/// If a separator stands behind every `.`, it is part of what follows the last
/// one.
proof fn lemma_slash_in_ext(name: Seq<char>, at: int)
    requires
        0 <= at < name.len(),
        name[at] == '/',
        path::last_dot(name) == path::last_dot(name.take(at + 1)),
    ensures
        name_and_ext(name) == (name, "mp3"@),
{
    let i = path::last_dot(name);
    lemma_last_dot_range(name.take(at + 1));
    assert(name.take(at + 1).drop_last() =~= name.take(at));
    assert(name.take(at + 1).last() == '/');
    lemma_last_dot_range(name.take(at));
    if i >= 0 {
        assert(name.skip(i + 1)[at - i - 1] == '/');
    }
}

proof fn lemma_last_dot_range(name: Seq<char>)
    ensures
        -1 <= path::last_dot(name) < name.len(),
    decreases name.len(),
{
    if name.len() > 0 && name.last() != '.' {
        lemma_last_dot_range(name.drop_last());
    }
}

// ---------------------------------------------------------------------------
// Destinations
// ---------------------------------------------------------------------------

/// A text, or a substitute.
pub open spec fn text_or(s: Option<Seq<char>>, fallback: Seq<char>) -> Seq<char> {
    match s {
        Some(t) => t,
        None => fallback,
    }
}

/// The folder that a track goes to.
pub open spec fn folder_for(e: model::EntryView, layout: ExportLayout) -> Seq<char> {
    match layout {
        ExportLayout::Flat => "Music/"@,
        ExportLayout::ArtistAlbum => "Music/"@ + sanitized(
            text_or(text::opt_view(e.metadata.artist), "Unknown Artist"@),
        ) + "/"@ + sanitized(text_or(text::opt_view(e.metadata.album), "Unknown Album"@)) + "/"@,
    }
}

/// The path that a track goes to if it is free.
pub open spec fn base_path(e: model::EntryView, layout: ExportLayout) -> Seq<char> {
    folder_for(e, layout) + file_name_for(e)
}

/// The `n`-th path that a track can go to.
pub open spec fn numbered_path(e: model::EntryView, layout: ExportLayout, n: nat) -> Seq<char> {
    let (stem, ext) = name_and_ext(file_name_for(e));
    folder_for(e, layout) + stem + (" ("@ + text::decimal(n) + ")."@ + ext)
}

/// The first of the numbered paths from `n` on, up to the 99th, that is not
/// taken.
pub open spec fn first_free(
    e: model::EntryView,
    layout: ExportLayout,
    used: Set<Seq<char>>,
    n: nat,
) -> Option<Seq<char>>
    decreases 100 - n,
{
    if n > 99 {
        None
    } else if !used.contains(numbered_path(e, layout, n)) {
        Some(numbered_path(e, layout, n))
    } else {
        first_free(e, layout, used, n + 1)
    }
}

/// The path that a track goes to, given the paths that are taken. If all its
/// numbered paths are taken too, it goes to its plain path all the same.
pub open spec fn destination(e: model::EntryView, layout: ExportLayout, used: Set<Seq<char>>) -> Seq<
    char,
> {
    let base = base_path(e, layout);
    if !used.contains(base) {
        base
    } else {
        match first_free(e, layout, used, 2) {
            Some(p) => p,
            None => base,
        }
    }
}

/// Whether every path that a track can go to is taken.
pub open spec fn exhausted(e: model::EntryView, layout: ExportLayout, used: Set<Seq<char>>) -> bool {
    used.contains(base_path(e, layout)) && first_free(e, layout, used, 2) is None
}

proof fn lemma_first_free(
    e: model::EntryView,
    layout: ExportLayout,
    used: Set<Seq<char>>,
    n: nat,
)
    ensures
        first_free(e, layout, used, n) matches Some(p) ==> !used.contains(p),
    decreases 100 - n,
{
    if n <= 99 && used.contains(numbered_path(e, layout, n)) {
        lemma_first_free(e, layout, used, n + 1);
    }
}

/// A track never takes the place of another one, unless the path it has to go
/// to and all the numbered ones are taken.
pub proof fn law_destination_is_free(
    e: model::EntryView,
    layout: ExportLayout,
    used: Set<Seq<char>>,
)
    ensures
        !exhausted(e, layout, used) ==> !used.contains(destination(e, layout, used)),
{
    lemma_first_free(e, layout, used, 2);
}

/// All tracks go below the folder `Music`: side by side, or into a folder for the
/// artist and in it one for the album, with what is not safe in a name replaced.
pub proof fn law_layout_decides_the_folder(e: model::EntryView)
    ensures
        folder_for(e, ExportLayout::Flat) == "Music/"@,
        e.metadata.artist is Some && e.metadata.album is Some ==> folder_for(
            e,
            ExportLayout::ArtistAlbum,
        ) == "Music/"@ + sanitized(e.metadata.artist->0@) + "/"@ + sanitized(
            e.metadata.album->0@,
        ) + "/"@,
        e.metadata.artist is Some && e.metadata.album is None ==> folder_for(
            e,
            ExportLayout::ArtistAlbum,
        ) == "Music/"@ + sanitized(e.metadata.artist->0@) + "/Unknown Album/"@,
        e.metadata.artist is None && e.metadata.album is None ==> folder_for(
            e,
            ExportLayout::ArtistAlbum,
        ) == "Music/Unknown Artist/Unknown Album/"@,
{
    reveal_strlit("Unknown Artist");
    reveal_strlit("Unknown Album");
    reveal_strlit("Music/");
    reveal_strlit("/");
    reveal_strlit("/Unknown Album/");
    reveal_strlit("Music/Unknown Artist/Unknown Album/");
    assert(sanitized("Unknown Artist"@) =~= "Unknown Artist"@);
    assert(sanitized("Unknown Album"@) =~= "Unknown Album"@);
    assert("/"@ + "Unknown Album"@ + "/"@ =~= "/Unknown Album/"@);
    if e.metadata.artist is Some && e.metadata.album is None {
        let front = "Music/"@ + sanitized(e.metadata.artist->0@);
        assert(front + "/"@ + "Unknown Album"@ + "/"@ =~= front + "/Unknown Album/"@);
    }
    assert("Music/"@ + "Unknown Artist"@ + "/"@ + "Unknown Album"@ + "/"@
        =~= "Music/Unknown Artist/Unknown Album/"@);
}

/// The folder that a track goes to.
fn folder_of_entry(entry: &ArchiveEntry, layout: ExportLayout) -> (r: String)
    ensures
        r@ == folder_for(entry@, layout),
{
    match layout {
        ExportLayout::Flat => "Music/".to_owned(),
        ExportLayout::ArtistAlbum => {
            let artist = match &entry.metadata.artist {
                Some(a) => sanitize(a.as_str()),
                None => sanitize("Unknown Artist"),
            };
            let album = match &entry.metadata.album {
                Some(a) => sanitize(a.as_str()),
                None => sanitize("Unknown Album"),
            };
            let mut r = text::cat4("Music/", artist.as_str(), "/", album.as_str());
            r.append("/");
            r
        },
    }
}

/// Finds the path that a track goes to, and marks it as taken.
pub fn unique_destination_path(
    entry: &ArchiveEntry,
    layout: ExportLayout,
    used: &mut TextMap<bool>,
) -> (r: String)
    requires
        old(used).wf(),
    ensures
        final(used).wf(),
        r@ == destination(entry@, layout, old(used).map().dom()),
        final(used).map().dom() == old(used).map().dom().insert(r@),
{
    let ghost before = used.map();
    let file_name = display_filename(entry);
    let folder = folder_of_entry(entry, layout);
    let base = text::cat2(folder.as_str(), file_name.as_str());
    if !used.contains_key(base.as_str()) {
        used.insert(base.as_str(), true);
        proof {
            assert(used.map().dom() =~= before.dom().insert(base@));
        }
        return base;
    }
    let (stem, ext) = split_name_ext(file_name.as_str());
    let mut n: u64 = 2;
    while n <= 99
        invariant
            2 <= n <= 100,
            used.wf(),
            used.map() == before,
            before == old(used).map(),
            before.dom().contains(base@),
            base@ == base_path(entry@, layout),
            folder@ == folder_for(entry@, layout),
            (stem@, ext@) == name_and_ext(file_name_for(entry@)),
            first_free(entry@, layout, before.dom(), 2) == first_free(
                entry@,
                layout,
                before.dom(),
                n as nat,
            ),
        decreases 100 - n,
    {
        let number = text::decimal_text(n);
        let tail = text::cat4(" (", number.as_str(), ").", ext.as_str());
        let candidate = text::cat3(folder.as_str(), stem.as_str(), tail.as_str());
        proof {
            assert(candidate@ == numbered_path(entry@, layout, n as nat));
        }
        if !used.contains_key(candidate.as_str()) {
            used.insert(candidate.as_str(), true);
            proof {
                assert(used.map().dom() =~= before.dom().insert(candidate@));
            }
            return candidate;
        }
        n = n + 1;
    }
    proof {
        assert(before.dom().insert(base@) =~= before.dom());
    }
    base
}

/// The path that a track goes to on an empty volume.
pub fn destination_path(entry: &ArchiveEntry, layout: ExportLayout) -> (r: String)
    ensures
        r@ == base_path(entry@, layout),
{
    let mut used: TextMap<bool> = TextMap::new();
    unique_destination_path(entry, layout, &mut used)
}

/// The paths taken after the first tracks of a list have found theirs.
pub open spec fn taken(entries: Seq<model::EntryView>, layout: ExportLayout) -> Set<Seq<char>>
    decreases entries.len(),
{
    if entries.len() == 0 {
        Set::empty()
    } else {
        let before = taken(entries.drop_last(), layout);
        before.insert(destination(entries.last(), layout, before))
    }
}

/// The paths that the tracks of a list go to, one after the other.
pub open spec fn destinations(entries: Seq<model::EntryView>, layout: ExportLayout) -> Seq<Seq<char>>
    decreases entries.len(),
{
    if entries.len() == 0 {
        Seq::empty()
    } else {
        destinations(entries.drop_last(), layout).push(
            destination(entries.last(), layout, taken(entries.drop_last(), layout)),
        )
    }
}

proof fn lemma_taken(entries: Seq<model::EntryView>, layout: ExportLayout)
    ensures
        destinations(entries, layout).len() == entries.len(),
        forall|i: int|
            0 <= i < entries.len() ==> taken(entries, layout).contains(
                #[trigger] destinations(entries, layout)[i],
            ),
    decreases entries.len(),
{
    if entries.len() > 0 {
        let front = entries.drop_last();
        lemma_taken(front, layout);
        assert forall|i: int| 0 <= i < entries.len() implies taken(entries, layout).contains(
            #[trigger] destinations(entries, layout)[i],
        ) by {
            if i < front.len() {
                assert(destinations(entries, layout)[i] == destinations(front, layout)[i]);
            }
        }
    }
}

/// No two tracks of a list go to the same path, as long as each of them finds a
/// free one.
pub proof fn law_destinations_distinct(entries: Seq<model::EntryView>, layout: ExportLayout)
    requires
        forall|j: int|
            0 <= j < entries.len() ==> !exhausted(
                #[trigger] entries[j],
                layout,
                taken(entries.take(j), layout),
            ),
    ensures
        forall|i: int, j: int|
            0 <= i < j < entries.len() ==> #[trigger] destinations(entries, layout)[i]
                != #[trigger] destinations(entries, layout)[j],
    decreases entries.len(),
{
    if entries.len() > 0 {
        let front = entries.drop_last();
        assert forall|j: int| 0 <= j < front.len() implies !exhausted(
            #[trigger] front[j],
            layout,
            taken(front.take(j), layout),
        ) by {
            assert(front[j] == entries[j]);
            assert(front.take(j) =~= entries.take(j));
        }
        law_destinations_distinct(front, layout);
        lemma_taken(front, layout);
        lemma_taken(entries, layout);
        let last = entries[entries.len() - 1];
        assert(entries.take(entries.len() - 1) =~= front);
        assert(!exhausted(last, layout, taken(front, layout)));
        law_destination_is_free(last, layout, taken(front, layout));
        let all = destinations(entries, layout);
        assert forall|i: int, j: int| 0 <= i < j < entries.len() implies #[trigger] all[i]
            != #[trigger] all[j] by {
            assert(all[i] == destinations(front, layout)[i]);
            if j < front.len() {
                assert(all[j] == destinations(front, layout)[j]);
            } else {
                assert(taken(front, layout).contains(destinations(front, layout)[i]));
            }
        }
    }
}

/// Each track of a list goes to its plain path, or to the first numbered one that no
/// track before it has.
pub proof fn law_destinations_are_taken_in_turn(
    entries: Seq<model::EntryView>,
    layout: ExportLayout,
)
    ensures
        destinations(entries, layout).len() == entries.len(),
        taken(entries, layout) == destinations(entries, layout).to_set(),
        forall|i: int|
            0 <= i < entries.len() ==> is_place(
                #[trigger] entries[i],
                layout,
                destinations(entries, layout).take(i),
                destinations(entries, layout)[i],
            ),
    decreases entries.len(),
{
    let all = destinations(entries, layout);
    if entries.len() == 0 {
        assert(taken(entries, layout) =~= all.to_set());
    } else {
        let front = entries.drop_last();
        let before = destinations(front, layout);
        let n = front.len() as int;
        law_destinations_are_taken_in_turn(front, layout);
        let here = destination(entries.last(), layout, taken(front, layout));
        assert(all == before.push(here));
        law_destination_is_first_free(entries.last(), layout, before);
        assert forall|i: int| 0 <= i < entries.len() implies is_place(
            #[trigger] entries[i],
            layout,
            all.take(i),
            all[i],
        ) by {
            assert(all.take(i) =~= before.take(i));
            if i < n {
                assert(is_place(front[i], layout, before.take(i), before[i]));
            } else {
                assert(before.take(i) =~= before);
            }
        }
        selection::lemma_push_member(before, here);
    }
}

/// Finds the paths that the tracks of a list go to.
pub fn destination_paths(entries: &[ArchiveEntry], layout: ExportLayout) -> (r: Vec<String>)
    ensures
        text::views(r@) == destinations(model::entry_views(entries@), layout),
{
    let ghost all = model::entry_views(entries@);
    let mut used: TextMap<bool> = TextMap::new();
    let mut r: Vec<String> = Vec::new();
    let mut i: usize = 0;
    proof {
        assert(all.take(0) =~= Seq::<model::EntryView>::empty());
        assert(text::views(r@) =~= Seq::<Seq<char>>::empty());
        assert(used.map().dom() =~= Set::<Seq<char>>::empty());
    }
    while i < entries.len()
        invariant
            i <= entries@.len(),
            all == model::entry_views(entries@),
            used.wf(),
            used.map().dom() == taken(all.take(i as int), layout),
            text::views(r@) == destinations(all.take(i as int), layout),
        decreases entries@.len() - i,
    {
        proof {
            assert(all.take(i + 1).drop_last() =~= all.take(i as int));
            assert(all.take(i + 1).last() == entries@[i as int]@);
        }
        let ghost before = text::views(r@);
        let p = unique_destination_path(&entries[i], layout, &mut used);
        r.push(p);
        proof {
            assert(text::views(r@) =~= before.push(p@));
        }
        i = i + 1;
    }
    proof {
        assert(all.take(entries@.len() as int) =~= all);
    }
    r
}

// ---------------------------------------------------------------------------
// Plans
// ---------------------------------------------------------------------------

/// What stands at a path of a volume.
#[derive(Debug, Clone, Copy, PartialEq, Eq, Structural)]
pub enum OnDisk {
    Nothing,
    /// A file of this size.
    File { size: u64 },
    /// Something else, or something that cannot be looked at.
    Other,
}

/// What the index of a volume says of a track's content, and what stands at
/// the path it names.
#[derive(Debug, Clone, PartialEq, Eq)]
pub struct VolumeLookup {
    pub relative_path: String,
    pub status: VolumeFileStatus,
    pub found: OnDisk,
}

/// Whether a track of this size is on the volume already.
pub open spec fn is_present(l: Option<VolumeLookup>, size: u64) -> bool {
    l matches Some(v) && v.status is Copied && v.found == (OnDisk::File { size })
}

/// Whether a file of this size was found.
fn has_size(found: OnDisk, size: u64) -> (r: bool)
    ensures
        r == (found == (OnDisk::File { size })),
{
    match found {
        OnDisk::File { size: n } => n == size,
        _ => false,
    }
}

/// Whether a track of this size is on the volume already, where its index
/// knows it.
fn is_copied(l: &VolumeLookup, size: u64) -> (r: bool)
    ensures
        r == is_present(Some(*l), size),
{
    match l.status {
        VolumeFileStatus::Copied => has_size(l.found, size),
        _ => false,
    }
}

/// A transfer, as the contracts speak of it.
pub struct TransferView {
    pub track_id: Seq<char>,
    pub object_key: Seq<char>,
    pub relative_path: Seq<char>,
    pub direction: Direction,
    pub bytes_total: u64,
}

impl View for Transfer {
    type V = TransferView;

    open spec fn view(&self) -> TransferView {
        TransferView {
            track_id: self.track_id@,
            object_key: self.object_key@,
            relative_path: self.relative_path@,
            direction: self.direction,
            bytes_total: self.bytes_total,
        }
    }
}

/// The transfers that a list holds.
pub open spec fn transfer_views(list: Seq<Transfer>) -> Seq<TransferView> {
    list.map_values(|t: Transfer| t@)
}

/// What the contracts say of a transfer they say of its fields, each under its own name.
pub proof fn law_transfer_is_seen_field_by_field(list: Seq<Transfer>, i: int)
    requires
        0 <= i < list.len(),
    ensures
        transfer_views(list).len() == list.len(),
        transfer_views(list)[i].track_id == list[i].track_id@,
        transfer_views(list)[i].object_key == list[i].object_key@,
        transfer_views(list)[i].relative_path == list[i].relative_path@,
        transfer_views(list)[i].direction == list[i].direction,
        transfer_views(list)[i].bytes_total == list[i].bytes_total,
{
}

/// A plan in the making.
pub struct Planning {
    pub transfers: Seq<TransferView>,
    pub present: Seq<Seq<char>>,
    pub bytes: int,
    pub used: Set<Seq<char>>,
}

/// The plan for tracks of which the given is known: those on the volume are
/// left out, and keep their paths; the others are downloaded to free ones.
pub open spec fn planned(
    entries: Seq<model::EntryView>,
    lookups: Seq<Option<VolumeLookup>>,
    layout: ExportLayout,
) -> Planning
    decreases entries.len(),
{
    if entries.len() == 0 {
        Planning {
            transfers: Seq::empty(),
            present: Seq::empty(),
            bytes: 0,
            used: Set::empty(),
        }
    } else {
        let p = planned(entries.drop_last(), lookups.drop_last(), layout);
        let e = entries.last();
        if is_present(lookups.last(), e.size_bytes) {
            Planning {
                present: p.present.push(e.track_id),
                used: p.used.insert(lookups.last()->0.relative_path@),
                ..p
            }
        } else {
            let d = destination(e, layout, p.used);
            Planning {
                transfers: p.transfers.push(
                    TransferView {
                        track_id: e.track_id,
                        object_key: e.object_key,
                        relative_path: d,
                        direction: Direction::Download,
                        bytes_total: e.size_bytes,
                    },
                ),
                bytes: p.bytes + e.size_bytes,
                used: p.used.insert(d),
                ..p
            }
        }
    }
}

proof fn lemma_planned_bytes(
    entries: Seq<model::EntryView>,
    lookups: Seq<Option<VolumeLookup>>,
    layout: ExportLayout,
    n: int,
)
    requires
        entries.len() == lookups.len(),
        0 <= n <= entries.len(),
    ensures
        0 <= planned(entries.take(n), lookups.take(n), layout).bytes <= planned(
            entries,
            lookups,
            layout,
        ).bytes,
    decreases entries.len(),
{
    if n == entries.len() {
        assert(entries.take(n) =~= entries);
        assert(lookups.take(n) =~= lookups);
        if n > 0 {
            lemma_planned_bytes(entries.drop_last(), lookups.drop_last(), layout, n - 1);
        }
    } else {
        lemma_planned_bytes(entries.drop_last(), lookups.drop_last(), layout, n);
        assert(entries.drop_last().take(n) =~= entries.take(n));
        assert(lookups.drop_last().take(n) =~= lookups.take(n));
    }
}

/// The bytes of transfers.
pub open spec fn sum_bytes(list: Seq<TransferView>) -> int
    decreases list.len(),
{
    if list.len() == 0 {
        0
    } else {
        sum_bytes(list.drop_last()) + list.last().bytes_total
    }
}

/// A plan accounts for every track: it is on the volume or it is transferred.
/// What remains to be moved is what the transfers add up to.
pub proof fn law_plan_accounts_for_every_track(
    entries: Seq<model::EntryView>,
    lookups: Seq<Option<VolumeLookup>>,
    layout: ExportLayout,
)
    requires
        entries.len() == lookups.len(),
    ensures
        ({
            let p = planned(entries, lookups, layout);
            &&& p.transfers.len() + p.present.len() == entries.len()
            &&& p.bytes == sum_bytes(p.transfers)
        }),
    decreases entries.len(),
{
    if entries.len() > 0 {
        law_plan_accounts_for_every_track(entries.drop_last(), lookups.drop_last(), layout);
        let before = planned(entries.drop_last(), lookups.drop_last(), layout);
        let after = planned(entries, lookups, layout);
        if !is_present(lookups.last(), entries.last().size_bytes) {
            assert(after.transfers.drop_last() =~= before.transfers);
        }
    }
}

/// A transfer never goes to the path of a track that is on the volume already
/// or that was planned before, unless no path was left for it.
pub proof fn law_plan_overwrites_nothing(
    entries: Seq<model::EntryView>,
    lookups: Seq<Option<VolumeLookup>>,
    layout: ExportLayout,
)
    requires
        entries.len() > 0,
        entries.len() == lookups.len(),
        !is_present(lookups.last(), entries.last().size_bytes),
        !exhausted(
            entries.last(),
            layout,
            planned(entries.drop_last(), lookups.drop_last(), layout).used,
        ),
    ensures
        !planned(entries.drop_last(), lookups.drop_last(), layout).used.contains(
            planned(entries, lookups, layout).transfers.last().relative_path,
        ),
{
    law_destination_is_free(
        entries.last(),
        layout,
        planned(entries.drop_last(), lookups.drop_last(), layout).used,
    );
}

/// Whether a path is where a track goes, given the paths that are taken: to its
/// plain path if that is free, else to the first of its paths with the numbers 2 to
/// 99 that is free, and to the plain one all the same if none is.
pub open spec fn is_place(
    e: model::EntryView,
    layout: ExportLayout,
    used: Seq<Seq<char>>,
    p: Seq<char>,
) -> bool {
    if !used.contains(base_path(e, layout)) {
        p == base_path(e, layout)
    } else {
        ||| exists|n: nat|
            {
                &&& 2 <= n <= 99
                &&& p == #[trigger] numbered_path(e, layout, n)
                &&& !used.contains(p)
                &&& forall|m: nat|
                    2 <= m < n ==> used.contains(#[trigger] numbered_path(e, layout, m))
            }
        ||| {
            &&& p == base_path(e, layout)
            &&& forall|m: nat|
                2 <= m <= 99 ==> used.contains(#[trigger] numbered_path(e, layout, m))
        }
    }
}

proof fn lemma_first_free_is_first(
    e: model::EntryView,
    layout: ExportLayout,
    used: Set<Seq<char>>,
    n: nat,
)
    requires
        n <= 100,
    ensures
        match first_free(e, layout, used, n) {
            Some(p) => exists|k: nat|
                {
                    &&& n <= k <= 99
                    &&& p == #[trigger] numbered_path(e, layout, k)
                    &&& !used.contains(p)
                    &&& forall|m: nat|
                        n <= m < k ==> used.contains(#[trigger] numbered_path(e, layout, m))
                },
            None => forall|m: nat|
                n <= m <= 99 ==> used.contains(#[trigger] numbered_path(e, layout, m)),
        },
    decreases 100 - n,
{
    if n <= 99 {
        if used.contains(numbered_path(e, layout, n)) {
            lemma_first_free_is_first(e, layout, used, n + 1);
            if first_free(e, layout, used, n) is Some {
                let p = first_free(e, layout, used, n)->0;
                let k = choose|k: nat|
                    {
                        &&& n + 1 <= k <= 99
                        &&& p == #[trigger] numbered_path(e, layout, k)
                        &&& !used.contains(p)
                        &&& forall|m: nat|
                            n + 1 <= m < k ==> used.contains(#[trigger] numbered_path(e, layout, m))
                    };
                assert(n <= k <= 99);
            }
        }
    }
}

/// A track goes to its plain path, or to the first numbered one that is free.
pub proof fn law_destination_is_first_free(
    e: model::EntryView,
    layout: ExportLayout,
    used: Seq<Seq<char>>,
)
    ensures
        is_place(e, layout, used, destination(e, layout, used.to_set())),
{
    lemma_first_free_is_first(e, layout, used.to_set(), 2);
    assert forall|p: Seq<char>| used.contains(p) == #[trigger] used.to_set().contains(p) by {}
}

/// Two numbered paths of a track are never the same.
pub proof fn law_numbered_paths_differ(
    e: model::EntryView,
    layout: ExportLayout,
    a: nat,
    b: nat,
)
    requires
        a != b,
    ensures
        numbered_path(e, layout, a) != numbered_path(e, layout, b),
{
    let (stem, ext) = name_and_ext(file_name_for(e));
    let front = folder_for(e, layout) + stem;
    let x = text::decimal(a);
    let y = text::decimal(b);
    let p = numbered_path(e, layout, a);
    let q = numbered_path(e, layout, b);
    if p == q {
        reveal_strlit(" (");
        reveal_strlit(").");
        assert(p.len() == front.len() + 2 + x.len() + 2 + ext.len());
        assert(q.len() == front.len() + 2 + y.len() + 2 + ext.len());
        assert forall|i: int| 0 <= i < x.len() implies x[i] == y[i] by {
            assert(p[front.len() + 2 + i] == x[i]);
            assert(q[front.len() + 2 + i] == y[i]);
        }
        assert(x =~= y);
        text::lemma_decimal_injective(a, b);
    }
}

/// A numbered path stands in the folder of the plain one, and has its extension.
pub proof fn law_numbered_path_stays_by_the_plain_one(
    e: model::EntryView,
    layout: ExportLayout,
    n: nat,
)
    ensures
        folder_for(e, layout).is_prefix_of(base_path(e, layout)),
        folder_for(e, layout).is_prefix_of(numbered_path(e, layout, n)),
        base_path(e, layout).skip(folder_for(e, layout).len() as int) == file_name_for(e),
        name_and_ext(file_name_for(e)).1.is_suffix_of(numbered_path(e, layout, n)),
{
    let folder = folder_for(e, layout);
    let (stem, ext) = name_and_ext(file_name_for(e));
    let p = numbered_path(e, layout, n);
    assert(base_path(e, layout).skip(folder.len() as int) =~= file_name_for(e));
    assert(folder =~= base_path(e, layout).subrange(0, folder.len() as int));
    assert(folder =~= p.subrange(0, folder.len() as int));
    assert(ext =~= p.subrange(p.len() - ext.len(), p.len() as int));
}

/// Whether a track is on the volume: its index says that it was copied, and a file
/// of the track's size stands where it says.
pub open spec fn is_on_volume(l: Option<VolumeLookup>, e: model::EntryView) -> bool {
    &&& l is Some
    &&& l->0.status is Copied
    &&& l->0.found matches OnDisk::File { size } && size == e.size_bytes
}

/// Which tracks are on the volume.
pub open spec fn there(
    entries: Seq<model::EntryView>,
    lookups: Seq<Option<VolumeLookup>>,
) -> spec_fn(int) -> bool {
    |i: int| is_on_volume(lookups[i], entries[i])
}

/// Which tracks are not on the volume.
pub open spec fn missing(
    entries: Seq<model::EntryView>,
    lookups: Seq<Option<VolumeLookup>>,
) -> spec_fn(int) -> bool {
    |i: int| !is_on_volume(lookups[i], entries[i])
}

/// The download of each track to the given path.
pub open spec fn download_of(
    entries: Seq<model::EntryView>,
    paths: Seq<Seq<char>>,
) -> spec_fn(int) -> TransferView {
    |i: int|
        TransferView {
            track_id: entries[i].track_id,
            object_key: entries[i].object_key,
            relative_path: paths[i],
            direction: Direction::Download,
            bytes_total: entries[i].size_bytes,
        }
}

/// The id of each track.
pub open spec fn id_of(entries: Seq<model::EntryView>) -> spec_fn(int) -> Seq<char> {
    |i: int| entries[i].track_id
}

/// Whether transfers and ids are a plan for tracks that go to the given paths. The
/// transfers download each track that is not on the volume, under its own key, and
/// nothing else, in order; the ids are those of the others. A track on the volume
/// stays where it is; any other goes to a path that none before it has.
pub open spec fn is_plan(
    transfers: Seq<TransferView>,
    present: Seq<Seq<char>>,
    entries: Seq<model::EntryView>,
    lookups: Seq<Option<VolumeLookup>>,
    layout: ExportLayout,
    paths: Seq<Seq<char>>,
) -> bool {
    let n = entries.len() as int;
    &&& paths.len() == n
    &&& selection::is_selection(
        transfers,
        n,
        missing(entries, lookups),
        download_of(entries, paths),
    )
    &&& selection::is_selection(present, n, there(entries, lookups), id_of(entries))
    &&& forall|i: int| 0 <= i < n ==> #[trigger] is_placed(entries, lookups, layout, paths, i)
}

/// Whether the track at a place goes where it has to, given the paths of those before
/// it.
pub open spec fn is_placed(
    entries: Seq<model::EntryView>,
    lookups: Seq<Option<VolumeLookup>>,
    layout: ExportLayout,
    paths: Seq<Seq<char>>,
    i: int,
) -> bool {
    if is_on_volume(lookups[i], entries[i]) {
        paths[i] == lookups[i]->0.relative_path@
    } else {
        is_place(entries[i], layout, paths.take(i), paths[i])
    }
}

proof fn lemma_places_grow(
    entries: Seq<model::EntryView>,
    lookups: Seq<Option<VolumeLookup>>,
    layout: ExportLayout,
    before: Seq<Seq<char>>,
    here: Seq<char>,
)
    requires
        entries.len() > 0,
        entries.len() == lookups.len(),
        before.len() == entries.len() - 1,
        forall|i: int|
            0 <= i < before.len() ==> #[trigger] is_placed(
                entries.drop_last(),
                lookups.drop_last(),
                layout,
                before,
                i,
            ),
        if is_on_volume(lookups.last(), entries.last()) {
            here == lookups.last()->0.relative_path@
        } else {
            is_place(entries.last(), layout, before, here)
        },
    ensures
        forall|i: int|
            0 <= i < entries.len() ==> #[trigger] is_placed(
                entries,
                lookups,
                layout,
                before.push(here),
                i,
            ),
{
    let paths = before.push(here);
    assert forall|i: int| 0 <= i < entries.len() implies #[trigger] is_placed(
        entries,
        lookups,
        layout,
        paths,
        i,
    ) by {
        assert(paths.take(i) =~= before.take(i));
        if i < before.len() {
            assert(is_placed(entries.drop_last(), lookups.drop_last(), layout, before, i));
        } else {
            assert(before.take(i) =~= before);
        }
    }
}

/// A sync moves exactly what is not on the volume: each such track, under its own
/// key and with its own size, to a path of its own.
pub proof fn law_plan_moves_what_is_missing(
    entries: Seq<model::EntryView>,
    lookups: Seq<Option<VolumeLookup>>,
    layout: ExportLayout,
) -> (paths: Seq<Seq<char>>)
    requires
        entries.len() == lookups.len(),
    ensures
        ({
            let p = planned(entries, lookups, layout);
            &&& is_plan(p.transfers, p.present, entries, lookups, layout, paths)
            &&& p.used == paths.to_set()
            &&& p.bytes == selection::sum(
                p.transfers.map_values(|t: TransferView| t.bytes_total as int),
            )
        }),
    decreases entries.len(),
{
    let p = planned(entries, lookups, layout);
    if entries.len() == 0 {
        let paths = Seq::<Seq<char>>::empty();
        selection::lemma_selection_empty(missing(entries, lookups), download_of(entries, paths));
        selection::lemma_selection_empty(there(entries, lookups), id_of(entries));
        assert(p.used =~= paths.to_set());
        assert(p.transfers.map_values(|t: TransferView| t.bytes_total as int) =~= Seq::empty());
        paths
    } else {
        let front = entries.drop_last();
        let known = lookups.drop_last();
        let n = front.len() as int;
        let e = entries.last();
        let q = planned(front, known, layout);
        let before = law_plan_moves_what_is_missing(front, known, layout);
        let here = if is_on_volume(lookups.last(), e) {
            lookups.last()->0.relative_path@
        } else {
            destination(e, layout, q.used)
        };
        let paths = before.push(here);
        law_destination_is_first_free(e, layout, before);
        selection::lemma_selection_grows(
            q.transfers,
            n,
            missing(front, known),
            download_of(front, before),
            p.transfers,
            missing(entries, lookups),
            download_of(entries, paths),
        );
        selection::lemma_selection_grows(
            q.present,
            n,
            there(front, known),
            id_of(front),
            p.present,
            there(entries, lookups),
            id_of(entries),
        );
        lemma_places_grow(entries, lookups, layout, before, here);
        selection::lemma_push_member(before, here);
        let sizes = q.transfers.map_values(|t: TransferView| t.bytes_total as int);
        if !is_on_volume(lookups.last(), e) {
            selection::lemma_sum_push(sizes, e.size_bytes as int);
            assert(p.transfers.map_values(|t: TransferView| t.bytes_total as int) =~= sizes.push(
                e.size_bytes as int,
            ));
        }
        paths
    }
}

/// Plans a sync. `lookups` holds what is known of each track on the volume.
pub fn plan_sync(
    entries: &[ArchiveEntry],
    lookups: &Vec<Option<VolumeLookup>>,
    layout: ExportLayout,
) -> (r: SyncPlan)
    requires
        entries@.len() == lookups@.len(),
        planned(model::entry_views(entries@), lookups@, layout).bytes <= u64::MAX,
    ensures
        ({
            let p = planned(model::entry_views(entries@), lookups@, layout);
            &&& transfer_views(r.transfers@) == p.transfers
            &&& text::views(r.already_present@) == p.present
            &&& r.bytes_remaining == p.bytes
        }),
        exists|paths: Seq<Seq<char>>|
            #[trigger] is_plan(
                transfer_views(r.transfers@),
                text::views(r.already_present@),
                model::entry_views(entries@),
                lookups@,
                layout,
                paths,
            ),
        r.bytes_remaining == selection::sum(
            transfer_views(r.transfers@).map_values(|t: TransferView| t.bytes_total as int),
        ),
{
    let ghost all = model::entry_views(entries@);
    let mut transfers: Vec<Transfer> = Vec::new();
    let mut already_present: Vec<String> = Vec::new();
    let mut bytes_remaining: u64 = 0;
    let mut used: TextMap<bool> = TextMap::new();
    let mut i: usize = 0;
    proof {
        assert(all.take(0) =~= Seq::<model::EntryView>::empty());
        assert(transfer_views(transfers@) =~= Seq::<TransferView>::empty());
        assert(text::views(already_present@) =~= Seq::<Seq<char>>::empty());
        assert(used.map().dom() =~= Set::<Seq<char>>::empty());
    }
    while i < entries.len()
        invariant
            i <= entries@.len(),
            entries@.len() == lookups@.len(),
            all == model::entry_views(entries@),
            planned(all, lookups@, layout).bytes <= u64::MAX,
            used.wf(),
            ({
                let p = planned(all.take(i as int), lookups@.take(i as int), layout);
                &&& transfer_views(transfers@) == p.transfers
                &&& text::views(already_present@) == p.present
                &&& bytes_remaining == p.bytes
                &&& used.map().dom() == p.used
            }),
        decreases entries@.len() - i,
    {
        let entry: &ArchiveEntry = &entries[i];
        proof {
            assert(all.take(i + 1).drop_last() =~= all.take(i as int));
            assert(all.take(i + 1).last() == entry@);
            assert(lookups@.take(i + 1).drop_last() =~= lookups@.take(i as int));
            assert(lookups@.take(i + 1).last() == lookups@[i as int]);
            lemma_planned_bytes(all, lookups@, layout, i + 1);
        }
        let present: bool = match &lookups[i] {
            Some(l) => is_copied(l, entry.size_bytes),
            None => false,
        };
        if present {
            if let Some(l) = &lookups[i] {
                let ghost ids = text::views(already_present@);
                let ghost paths = used.map();
                already_present.push(entry.track_id.0.clone());
                used.insert(l.relative_path.as_str(), true);
                proof {
                    assert(text::views(already_present@) =~= ids.push(entry@.track_id));
                    assert(used.map().dom() =~= paths.dom().insert(l.relative_path@));
                }
            }
        } else {
            let relative_path = unique_destination_path(entry, layout, &mut used);
            bytes_remaining = bytes_remaining + entry.size_bytes;
            let ghost before = transfer_views(transfers@);
            let t = Transfer {
                track_id: entry.track_id.0.clone(),
                object_key: entry.object_key.clone(),
                relative_path,
                direction: Direction::Download,
                bytes_total: entry.size_bytes,
            };
            let ghost v = t@;
            transfers.push(t);
            proof {
                assert(transfer_views(transfers@) =~= before.push(v));
            }
        }
        i = i + 1;
    }
    proof {
        assert(all.take(entries@.len() as int) =~= all);
        assert(lookups@.take(entries@.len() as int) =~= lookups@);
    }
    let plan = SyncPlan { transfers, already_present, bytes_remaining };
    proof {
        let paths = law_plan_moves_what_is_missing(all, lookups@, layout);
        assert(is_plan(
            transfer_views(plan.transfers@),
            text::views(plan.already_present@),
            model::entry_views(entries@),
            lookups@,
            layout,
            paths,
        ));
    }
    plan
}

// ---------------------------------------------------------------------------
// Running a plan
// ---------------------------------------------------------------------------

/// The entry of a transferred track: the last one with its id.
pub open spec fn entry_with_id(entries: Seq<model::EntryView>, id: Seq<char>) -> Option<
    model::EntryView,
>
    decreases entries.len(),
{
    if entries.len() == 0 {
        None
    } else if entries.last().track_id == id {
        Some(entries.last())
    } else {
        entry_with_id(entries.drop_last(), id)
    }
}

/// The entry of a track is one that has its id, the last of them; there is none only
/// if no entry has the id.
pub proof fn law_entry_is_found_by_id(entries: Seq<model::EntryView>, id: Seq<char>)
    ensures
        match entry_with_id(entries, id) {
            Some(e) => e.track_id == id && exists|i: int|
                {
                    &&& 0 <= i < entries.len()
                    &&& #[trigger] entries[i] == e
                    &&& forall|k: int|
                        i < k < entries.len() ==> (#[trigger] entries[k]).track_id != id
                },
            None => forall|k: int|
                0 <= k < entries.len() ==> (#[trigger] entries[k]).track_id != id,
        },
    decreases entries.len(),
{
    if entries.len() > 0 {
        let front = entries.drop_last();
        let n = entries.len() - 1;
        if entries.last().track_id == id {
            assert(entries[n] == entries.last());
        } else {
            law_entry_is_found_by_id(front, id);
            assert forall|k: int| 0 <= k < n implies front[k] == #[trigger] entries[k] by {}
            if let Some(e) = entry_with_id(front, id) {
                let i = choose|i: int|
                    {
                        &&& 0 <= i < front.len()
                        &&& #[trigger] front[i] == e
                        &&& forall|k: int|
                            i < k < front.len() ==> (#[trigger] front[k]).track_id != id
                    };
                assert(entries[i] == e);
            }
        }
    }
}

/// Finds the entry of a transferred track.
pub fn find_entry<'a>(entries: &'a Vec<ArchiveEntry>, id: &str) -> (r: Result<&'a ArchiveEntry, Error>)
    ensures
        match entry_with_id(model::entry_views(entries@), id@) {
            Some(e) => r matches Ok(x) && x@ == e,
            None => r matches Err(Error::NotFound(m)) && m@ == "archive entry for track '"@ + id@
                + "'"@,
        },
{
    let ghost all = model::entry_views(entries@);
    let mut i: usize = entries.len();
    proof {
        assert(all.take(i as int) =~= all);
    }
    while i > 0
        invariant
            i <= entries@.len(),
            all == model::entry_views(entries@),
            entry_with_id(all, id@) == entry_with_id(all.take(i as int), id@),
        decreases i,
    {
        proof {
            assert(all.take(i as int).drop_last() =~= all.take(i - 1));
            assert(all.take(i as int).last() == entries@[i - 1]@);
        }
        if text::same(entries[i - 1].track_id.0.as_str(), id) {
            return Ok(&entries[i - 1]);
        }
        i = i - 1;
    }
    Err(Error::NotFound(text::cat3("archive entry for track '", id, "'")))
}

/// Checks a download by its size.
pub fn check_download(dest: &str, expected_size: u64, got: u64) -> (r: Result<(), Error>)
    ensures
        r is Ok <==> expected_size == got,
        r matches Err(e) ==> (e matches Error::Other(m) && m@ == "size mismatch for "@ + dest@
            + ": expected "@ + text::decimal(expected_size as nat) + (", got "@ + text::decimal(
            got as nat,
        ))),
{
    if expected_size == got {
        Ok(())
    } else {
        let a = text::decimal_text(expected_size);
        let b = text::decimal_text(got);
        let tail = text::cat2(", got ", b.as_str());
        let mut m = text::cat4("size mismatch for ", dest, ": expected ", a.as_str());
        m.append(tail.as_str());
        Err(Error::Other(m))
    }
}

/// What is noted of a transfer.
#[derive(Debug, Clone, PartialEq, Eq)]
pub struct TransferUpdate {
    pub id: String,
    pub status: TransferStatus,
    pub local_path: Option<String>,
    pub bytes_done: u64,
    pub attempts: u32,
}

/// How a try to move a track can end.
#[derive(Debug, Clone, Copy, PartialEq, Eq, Structural)]
pub enum TryEnd {
    Moved,
    /// It failed, for a reason that may go away.
    Passing,
    /// It failed, for a reason that stays.
    Lasting,
}

/// How a try ended.
pub open spec fn end_of(outcome: Result<(), Error>) -> TryEnd {
    match outcome {
        Ok(_) => TryEnd::Moved,
        Err(e) => if retry::transient(e) {
            TryEnd::Passing
        } else {
            TryEnd::Lasting
        },
    }
}

/// How far a sync job has come.
pub struct Progress {
    /// The transfers that are settled.
    pub at: nat,
    /// How often the current transfer has been tried, over all runs.
    pub attempts: nat,
    pub done: nat,
    pub failed: nat,
}

/// How often a transfer had been tried before this run.
pub open spec fn tried_before(starts: Seq<nat>, at: nat) -> nat {
    if at < starts.len() {
        starts[at as int]
    } else {
        0
    }
}

/// A job of which nothing has been done.
pub open spec fn fresh(starts: Seq<nat>) -> Progress {
    Progress { at: 0, attempts: tried_before(starts, 0), done: 0, failed: 0 }
}

/// Whether a transfer is settled by how a try ended.
pub open spec fn settles(attempts: nat, end: TryEnd) -> bool {
    attempts >= retry::MAX_STORE_ATTEMPTS || !(end is Passing)
}

/// A job after one more try.
pub open spec fn after_try(p: Progress, starts: Seq<nat>, end: TryEnd) -> Progress {
    let attempts = p.attempts + 1;
    if settles(attempts, end) {
        Progress {
            at: p.at + 1,
            attempts: tried_before(starts, p.at + 1),
            done: if end is Moved {
                p.done + 1
            } else {
                p.done
            },
            failed: if end is Moved {
                p.failed
            } else {
                p.failed + 1
            },
        }
    } else {
        Progress { attempts, ..p }
    }
}

/// A job after these tries; what comes after its last transfer is settled does
/// not count.
pub open spec fn after_tries(starts: Seq<nat>, ends: Seq<TryEnd>) -> Progress
    decreases ends.len(),
{
    if ends.len() == 0 {
        fresh(starts)
    } else {
        let p = after_tries(starts, ends.drop_last());
        if p.at < starts.len() {
            after_try(p, starts, ends.last())
        } else {
            p
        }
    }
}

/// How many tries a job can still need.
spec fn tries_left(p: Progress, n: nat) -> int {
    if p.at >= n {
        0
    } else if p.attempts >= 4 {
        5 * (n - p.at) - 4
    } else {
        5 * (n - p.at) - p.attempts
    }
}

proof fn lemma_tries(starts: Seq<nat>, ends: Seq<TryEnd>)
    ensures
        ({
            let p = after_tries(starts, ends);
            &&& p.at <= starts.len()
            &&& p.done + p.failed == p.at
            &&& p.at < starts.len() ==> tries_left(p, starts.len()) + ends.len() <= 5
                * starts.len()
        }),
    decreases ends.len(),
{
    if ends.len() > 0 {
        lemma_tries(starts, ends.drop_last());
    }
}

/// A job settles every transfer, as moved or as failed, and needs at most five
/// tries for each.
pub proof fn law_every_transfer_is_settled(starts: Seq<nat>, ends: Seq<TryEnd>)
    requires
        ends.len() >= 5 * starts.len(),
    ensures
        after_tries(starts, ends).at == starts.len(),
        after_tries(starts, ends).done + after_tries(starts, ends).failed == starts.len(),
{
    lemma_tries(starts, ends);
}

/// If every try succeeds, every transfer is moved and none fails.
pub proof fn law_clean_run_moves_everything(starts: Seq<nat>, ends: Seq<TryEnd>)
    requires
        ends.len() == starts.len(),
        forall|i: int| 0 <= i < ends.len() ==> (#[trigger] ends[i]) is Moved,
    ensures
        after_tries(starts, ends).done == starts.len(),
        after_tries(starts, ends).failed == 0,
{
    lemma_clean_run(starts, ends);
}

proof fn lemma_clean_run(starts: Seq<nat>, ends: Seq<TryEnd>)
    requires
        ends.len() <= starts.len(),
        forall|i: int| 0 <= i < ends.len() ==> (#[trigger] ends[i]) is Moved,
    ensures
        after_tries(starts, ends).at == ends.len(),
        after_tries(starts, ends).done == ends.len(),
        after_tries(starts, ends).failed == 0,
    decreases ends.len(),
{
    if ends.len() > 0 {
        assert(ends.last() == ends[ends.len() - 1]);
        lemma_clean_run(starts, ends.drop_last());
    }
}

/// What has to be done next for a sync job.
#[derive(Debug, Clone, PartialEq, Eq)]
pub struct SyncTask {
    /// What is noted of the transfer before it starts.
    pub update: TransferUpdate,
    pub object_key: String,
    pub relative_path: String,
    pub size_bytes: u64,
}

/// What follows from how a try ended.
#[derive(Debug, Clone, PartialEq, Eq)]
pub enum SyncReply {
    /// It is tried again after a wait.
    Retry { wait_ms: u64 },
    /// The transfer is settled: what is noted of it, and of the file on the
    /// volume.
    Settled { update: TransferUpdate, file: VolumeFile },
}

/// A transfer that went through counts as done. One that failed for a lasting reason,
/// or for the fifth time, counts as failed. One that failed for a reason that may go
/// away is tried again.
pub proof fn law_failed_transfer_is_tried_five_times(
    p: Progress,
    starts: Seq<nat>,
    outcome: Result<(), Error>,
)
    ensures
        ({
            let q = after_try(p, starts, end_of(outcome));
            match outcome {
                Ok(_) => q.at == p.at + 1 && q.done == p.done + 1 && q.failed == p.failed,
                Err(e) => if (e is Store || e is Io) && p.attempts + 1 < 5 {
                    q.at == p.at && q.attempts == p.attempts + 1 && q.done == p.done && q.failed
                        == p.failed
                } else {
                    q.at == p.at + 1 && q.done == p.done && q.failed == p.failed + 1
                },
            }
        }),
        ({
            let q = after_try(p, starts, end_of(outcome));
            q.at == p.at + 1 && q.at < starts.len() ==> q.attempts == starts[q.at as int]
        }),
{
}

/// A track that was moved is on the volume from then on, so that the next plan leaves
/// it out; one that was not is planned again.
pub proof fn law_moved_track_is_not_moved_again(
    file: VolumeFile,
    row: TransferRow,
    e: model::EntryView,
    moved: bool,
    now: Timestamp,
    lookup: VolumeLookup,
)
    requires
        is_filed_as(file, row, e, moved, now),
        lookup.status == file.status,
        lookup.relative_path@ == file.relative_path@,
        lookup.found == (OnDisk::File { size: e.size_bytes }),
    ensures
        is_on_volume(Some(lookup), e) == moved,
        lookup.relative_path@ == row.relative_path@,
        file.sha256 is Some && file.sha256->0@ == e.sha256,
        file.track_id.0@ == e.track_id,
        moved ==> file.size_bytes == Some(e.size_bytes),
{
}

/// What is noted of a transfer says whether it went through: done, with all the bytes
/// of the track and the place it went to, or failed, with none.
pub proof fn law_transfer_is_noted_as_it_ended(
    update: TransferUpdate,
    row: TransferRow,
    e: model::EntryView,
    dest: Seq<char>,
    moved: bool,
    attempts: nat,
)
    requires
        is_settled_as(update, row, e, dest, moved, attempts),
    ensures
        update.id@ == row.id@,
        update.status is Done <==> moved,
        update.status is Failed <==> !moved,
        moved ==> update.bytes_done == e.size_bytes && update.local_path is Some
            && update.local_path->0@ == dest,
        !moved ==> update.bytes_done == 0 && update.local_path is None,
        update.attempts == attempts,
{
}

/// Whether this is what is noted of a transfer that is settled.
pub open spec fn is_settled_as(
    update: TransferUpdate,
    row: TransferRow,
    e: model::EntryView,
    dest: Seq<char>,
    moved: bool,
    attempts: nat,
) -> bool {
    &&& update.id@ == row.id@
    &&& update.attempts == attempts
    &&& if moved {
        &&& update.status is Done
        &&& text::opt_view(update.local_path) == Some(dest)
        &&& update.bytes_done == e.size_bytes
    } else {
        &&& update.status is Failed
        &&& update.local_path is None
        &&& update.bytes_done == 0
    }
}

/// Whether this is what is noted of a file whose transfer is settled.
pub open spec fn is_filed_as(
    file: VolumeFile,
    row: TransferRow,
    e: model::EntryView,
    moved: bool,
    now: Timestamp,
) -> bool {
    &&& file.track_id.0@ == e.track_id
    &&& file.relative_path@ == row.relative_path@
    &&& text::opt_view(file.sha256) == Some(e.sha256)
    &&& file.last_seen_at == Some(now)
    &&& if moved {
        &&& file.size_bytes == Some(e.size_bytes)
        &&& file.status is Copied
    } else {
        &&& file.size_bytes is None
        &&& file.status is Failed
    }
}

/// A sync job in progress.
pub struct SyncRun {
    rows: Vec<TransferRow>,
    entries: Vec<ArchiveEntry>,
    at: usize,
    attempts: u32,
    done: usize,
    failed: usize,
}

impl SyncRun {
    pub closed spec fn wf(self) -> bool {
        &&& self.at <= self.rows@.len()
        &&& self.done + self.failed == self.at
    }

    /// The transfers of the job.
    pub closed spec fn rows(self) -> Seq<TransferRow> {
        self.rows@
    }

    /// The tracks that the transfers can be for.
    pub closed spec fn entries(self) -> Seq<model::EntryView> {
        model::entry_views(self.entries@)
    }

    /// How far the job has come.
    pub closed spec fn progress(self) -> Progress {
        Progress {
            at: self.at as nat,
            attempts: self.attempts as nat,
            done: self.done as nat,
            failed: self.failed as nat,
        }
    }

    /// How often each transfer had been tried before.
    pub open spec fn starts(self) -> Seq<nat> {
        self.rows().map_values(|r: TransferRow| r.attempts as nat)
    }

    /// The current transfer.
    pub open spec fn current(self) -> TransferRow {
        self.rows()[self.progress().at as int]
    }

    /// The track of the current transfer.
    pub open spec fn current_entry(self) -> Option<model::EntryView> {
        entry_with_id(self.entries(), self.current().track_id@)
    }

    /// Starts a job.
    pub fn begin(rows: Vec<TransferRow>, entries: Vec<ArchiveEntry>) -> (r: SyncRun)
        ensures
            r.wf(),
            r.rows() == rows@,
            r.entries() == model::entry_views(entries@),
            r.progress() == fresh(r.starts()),
    {
        let attempts: u32 = if rows.len() > 0 {
            rows[0].attempts
        } else {
            0
        };
        SyncRun { rows, entries, at: 0, attempts, done: 0, failed: 0 }
    }

    /// The transfer to do next; `None` if all are settled. It is an error if the
    /// track of the transfer is not known.
    pub fn next(&self) -> (r: Result<Option<SyncTask>, Error>)
        requires
            self.wf(),
        ensures
            self.progress().at == self.rows().len() ==> (r matches Ok(t) && t is None),
            self.progress().at < self.rows().len() ==> match self.current_entry() {
                Some(e) => {
                    &&& r matches Ok(o)
                    &&& o matches Some(t)
                    &&& t.update.id@ == self.current().id@
                    &&& t.update.status is Active
                    &&& t.update.local_path is None
                    &&& t.update.bytes_done == 0
                    &&& t.update.attempts == self.progress().attempts
                    &&& t.object_key@ == self.current().object_key@
                    &&& t.relative_path@ == self.current().relative_path@
                    &&& t.size_bytes == e.size_bytes
                },
                None => r matches Err(Error::NotFound(m)) && m@ == "archive entry for track '"@
                    + self.current().track_id@ + "'"@,
            },
    {
        if self.at == self.rows.len() {
            return Ok(None);
        }
        let row: &TransferRow = &self.rows[self.at];
        match find_entry(&self.entries, row.track_id.as_str()) {
            Ok(entry) => Ok(
                Some(
                    SyncTask {
                        update: TransferUpdate {
                            id: row.id.clone(),
                            status: TransferStatus::Active,
                            local_path: None,
                            bytes_done: 0,
                            attempts: self.attempts,
                        },
                        object_key: row.object_key.clone(),
                        relative_path: row.relative_path.clone(),
                        size_bytes: entry.size_bytes,
                    },
                ),
            ),
            Err(e) => Err(e),
        }
    }

    /// Enters how a try of the current transfer ended. `dest` is where the file
    /// was put.
    pub fn report(&mut self, outcome: Result<(), Error>, dest: &str, now: Timestamp) -> (r: Result<
        SyncReply,
        Error,
    >)
        requires
            old(self).wf(),
            old(self).progress().at < old(self).rows().len(),
            old(self).progress().attempts < u32::MAX,
        ensures
            final(self).wf(),
            final(self).rows() == old(self).rows(),
            final(self).entries() == old(self).entries(),
            match old(self).current_entry() {
                Some(e) => {
                    let tried = old(self).progress().attempts + 1;
                    &&& final(self).progress() == after_try(
                        old(self).progress(),
                        old(self).starts(),
                        end_of(outcome),
                    )
                    &&& r matches Ok(reply)
                    &&& if settles(tried, end_of(outcome)) {
                        &&& reply matches SyncReply::Settled { update, file }
                        &&& is_settled_as(
                            update,
                            old(self).current(),
                            e,
                            dest@,
                            outcome is Ok,
                            tried,
                        )
                        &&& is_filed_as(file, old(self).current(), e, outcome is Ok, now)
                    } else {
                        reply == (SyncReply::Retry { wait_ms: retry::delay_ms(tried) as u64 })
                    }
                },
                None => {
                    &&& *final(self) == *old(self)
                    &&& r matches Err(Error::NotFound(m))
                    &&& m@ == "archive entry for track '"@ + old(self).current().track_id@ + "'"@
                },
            },
    {
        let i: usize = self.at;
        let n: usize = self.rows.len();
        let (track_id, size_bytes, sha256) = match find_entry(
            &self.entries,
            self.rows[i].track_id.as_str(),
        ) {
            Ok(entry) => (entry.track_id.copy(), entry.size_bytes, entry.sha256.clone()),
            Err(e) => {
                return Err(e);
            },
        };
        let attempts: u32 = self.attempts + 1;
        let moved: bool = match &outcome {
            Ok(_) => true,
            Err(e) => {
                if let Some(wait_ms) = retry::after_failure(attempts, e) {
                    self.attempts = attempts;
                    return Ok(SyncReply::Retry { wait_ms });
                }
                false
            },
        };
        let update = TransferUpdate {
            id: self.rows[i].id.clone(),
            status: if moved {
                TransferStatus::Done
            } else {
                TransferStatus::Failed
            },
            local_path: if moved {
                Some(dest.to_owned())
            } else {
                None
            },
            bytes_done: if moved {
                size_bytes
            } else {
                0
            },
            attempts,
        };
        let file = VolumeFile {
            track_id,
            relative_path: self.rows[i].relative_path.clone(),
            size_bytes: if moved {
                Some(size_bytes)
            } else {
                None
            },
            sha256: Some(sha256),
            status: if moved {
                VolumeFileStatus::Copied
            } else {
                VolumeFileStatus::Failed
            },
            last_seen_at: Some(now),
        };
        if moved {
            self.done = self.done + 1;
        } else {
            self.failed = self.failed + 1;
        }
        self.at = i + 1;
        self.attempts = if i + 1 < n {
            self.rows[i + 1].attempts
        } else {
            0
        };
        Ok(SyncReply::Settled { update, file })
    }

    /// How many transfers were moved and how many failed, and whether the job is
    /// finished: it is kept open as long as a transfer has failed.
    pub fn finish(&self) -> (r: (usize, usize, bool))
        requires
            self.wf(),
        ensures
            r.0 == self.progress().done,
            r.1 == self.progress().failed,
            r.2 == (self.progress().failed == 0),
    {
        (self.done, self.failed, self.failed == 0)
    }
}

// ---------------------------------------------------------------------------
// Looking at a volume
// ---------------------------------------------------------------------------

/// How a track stands on a volume: copied, if a file of the right size is at
/// its path; stale, if something else is; pending, if nothing is.
pub open spec fn status_on_disk(e: model::EntryView, d: OnDisk) -> VolumeFileStatus {
    match d {
        OnDisk::Nothing => VolumeFileStatus::Pending,
        OnDisk::File { size } => if size == e.size_bytes {
            VolumeFileStatus::Copied
        } else {
            VolumeFileStatus::Stale
        },
        OnDisk::Other => VolumeFileStatus::Stale,
    }
}

/// How a track stands on a volume.
pub fn judge_on_disk(entry: &ArchiveEntry, d: OnDisk) -> (r: VolumeFileStatus)
    ensures
        r == status_on_disk(entry@, d),
{
    match d {
        OnDisk::Nothing => VolumeFileStatus::Pending,
        OnDisk::File { size } => {
            if size == entry.size_bytes {
                VolumeFileStatus::Copied
            } else {
                VolumeFileStatus::Stale
            }
        },
        OnDisk::Other => VolumeFileStatus::Stale,
    }
}

/// How many tracks stand on a volume in a given way.
pub open spec fn count_status(
    entries: Seq<model::EntryView>,
    disk: Seq<OnDisk>,
    wanted: VolumeFileStatus,
) -> nat
    decreases entries.len(),
{
    if entries.len() == 0 {
        0
    } else {
        count_status(entries.drop_last(), disk.drop_last(), wanted) + (if status_on_disk(
            entries.last(),
            disk.last(),
        ) == wanted {
            1nat
        } else {
            0nat
        })
    }
}

/// Every track stands on a volume in exactly one way.
pub proof fn law_volume_counts_add_up(entries: Seq<model::EntryView>, disk: Seq<OnDisk>)
    requires
        entries.len() == disk.len(),
    ensures
        count_status(entries, disk, VolumeFileStatus::Copied) + count_status(
            entries,
            disk,
            VolumeFileStatus::Pending,
        ) + count_status(entries, disk, VolumeFileStatus::Stale) == entries.len(),
    decreases entries.len(),
{
    if entries.len() > 0 {
        law_volume_counts_add_up(entries.drop_last(), disk.drop_last());
    }
}

/// A track is copied exactly if a file of its size stands at its place, and pending
/// exactly if nothing does; whatever else stands there is stale.
pub proof fn law_status_is_told_by_what_stands_there(e: model::EntryView, d: OnDisk)
    ensures
        status_on_disk(e, d) is Copied <==> d == (OnDisk::File { size: e.size_bytes }),
        status_on_disk(e, d) is Pending <==> d is Nothing,
        status_on_disk(e, d) is Stale <==> !(d is Nothing) && d != (OnDisk::File {
            size: e.size_bytes,
        }),
{
}

/// The count of a status is the number of tracks that have it.
pub proof fn law_status_count_counts_tracks(
    entries: Seq<model::EntryView>,
    disk: Seq<OnDisk>,
    wanted: VolumeFileStatus,
)
    requires
        entries.len() == disk.len(),
    ensures
        count_status(entries, disk, wanted) == Seq::new(
            entries.len(),
            |i: int| status_on_disk(entries[i], disk[i]),
        ).filter(|s: VolumeFileStatus| s == wanted).len(),
    decreases entries.len(),
{
    reveal(Seq::filter);
    let all = Seq::new(entries.len(), |i: int| status_on_disk(entries[i], disk[i]));
    if entries.len() > 0 {
        let front = entries.drop_last();
        let before = disk.drop_last();
        law_status_count_counts_tracks(front, before, wanted);
        assert(all.drop_last() =~= Seq::new(
            front.len(),
            |i: int| status_on_disk(front[i], before[i]),
        ));
    }
}

/// Whether what is noted of a file is what was found of it.
pub open spec fn is_found(
    f: VolumeFile,
    e: model::EntryView,
    path: Seq<char>,
    d: OnDisk,
    now: Timestamp,
) -> bool {
    &&& f.track_id.0@ == e.track_id
    &&& f.relative_path@ == path
    &&& f.size_bytes == (if status_on_disk(e, d) is Copied {
        Some(e.size_bytes)
    } else {
        None
    })
    &&& text::opt_view(f.sha256) == Some(e.sha256)
    &&& f.status == status_on_disk(e, d)
    &&& f.last_seen_at == Some(now)
}

/// What a check of a volume files of a track: what it is, where it belongs, and whether
/// it is there; the size only of one that is.
pub proof fn law_check_files_what_it_found(
    f: VolumeFile,
    e: model::EntryView,
    p: Seq<char>,
    d: OnDisk,
    now: Timestamp,
)
    requires
        is_found(f, e, p, d, now),
    ensures
        f.track_id.0@ == e.track_id,
        f.relative_path@ == p,
        f.sha256 is Some && f.sha256->0@ == e.sha256,
        f.last_seen_at == Some(now),
        d == (OnDisk::File { size: e.size_bytes }) ==> f.status is Copied && f.size_bytes == Some(
            e.size_bytes,
        ),
        d is Nothing ==> f.status is Pending && f.size_bytes is None,
        !(d is Nothing) && d != (OnDisk::File { size: e.size_bytes }) ==> f.status is Stale
            && f.size_bytes is None,
{
}

/// Verifies the tracks of a volume: how many are present, missing and stale,
/// and what is to be noted of each.
pub fn verify_volume(
    entries: &[ArchiveEntry],
    layout: ExportLayout,
    disk: &Vec<OnDisk>,
    now: Timestamp,
) -> (r: ((usize, usize, usize), Vec<VolumeFile>))
    requires
        entries@.len() == disk@.len(),
    ensures
        r.0.0 == count_status(model::entry_views(entries@), disk@, VolumeFileStatus::Copied),
        r.0.1 == count_status(model::entry_views(entries@), disk@, VolumeFileStatus::Pending),
        r.0.2 == count_status(model::entry_views(entries@), disk@, VolumeFileStatus::Stale),
        r.1@.len() == entries@.len(),
        forall|i: int|
            0 <= i < entries@.len() ==> is_found(
                #[trigger] r.1@[i],
                entries@[i]@,
                destinations(model::entry_views(entries@), layout)[i],
                disk@[i],
                now,
            ),
{
    let ghost all = model::entry_views(entries@);
    let paths = destination_paths(entries, layout);
    proof {
        lemma_taken(all, layout);
        assert(paths@.len() == text::views(paths@).len());
    }
    let mut present: usize = 0;
    let mut missing: usize = 0;
    let mut stale: usize = 0;
    let mut files: Vec<VolumeFile> = Vec::new();
    let mut i: usize = 0;
    proof {
        assert(all.take(0) =~= Seq::<model::EntryView>::empty());
    }
    while i < entries.len()
        invariant
            i <= entries@.len(),
            entries@.len() == paths@.len(),
            entries@.len() == disk@.len(),
            all == model::entry_views(entries@),
            text::views(paths@) == destinations(all, layout),
            present == count_status(
                all.take(i as int),
                disk@.take(i as int),
                VolumeFileStatus::Copied,
            ),
            missing == count_status(
                all.take(i as int),
                disk@.take(i as int),
                VolumeFileStatus::Pending,
            ),
            stale == count_status(all.take(i as int), disk@.take(i as int), VolumeFileStatus::Stale),
            files@.len() == i,
            forall|k: int|
                0 <= k < i ==> is_found(
                    #[trigger] files@[k],
                    entries@[k]@,
                    destinations(all, layout)[k],
                    disk@[k],
                    now,
                ),
        decreases entries@.len() - i,
    {
        let entry: &ArchiveEntry = &entries[i];
        proof {
            law_volume_counts_add_up(all.take(i as int), disk@.take(i as int));
            assert(all.take(i + 1).drop_last() =~= all.take(i as int));
            assert(all.take(i + 1).last() == entry@);
            assert(disk@.take(i + 1).drop_last() =~= disk@.take(i as int));
        }
        let status = judge_on_disk(entry, disk[i]);
        let size_bytes: Option<u64> = match status {
            VolumeFileStatus::Copied => {
                present = present + 1;
                Some(entry.size_bytes)
            },
            VolumeFileStatus::Pending => {
                missing = missing + 1;
                None
            },
            _ => {
                stale = stale + 1;
                None
            },
        };
        proof {
            assert(text::views(paths@)[i as int] == paths@[i as int]@);
        }
        files.push(
            VolumeFile {
                track_id: entry.track_id.copy(),
                relative_path: paths[i].clone(),
                size_bytes,
                sha256: Some(entry.sha256.clone()),
                status,
                last_seen_at: Some(now),
            },
        );
        i = i + 1;
    }
    proof {
        assert(all.take(entries@.len() as int) =~= all);
        assert(disk@.take(entries@.len() as int) =~= disk@);
    }
    ((present, missing, stale), files)
}

/// How a track differs from what a volume should hold: what the index of the
/// volume says counts first, and only without it what is at the track's path.
pub open spec fn diff_state(l: Option<VolumeLookup>, at_destination: OnDisk, size: u64) -> VolumeDiffState {
    match l {
        Some(v) => if is_present(l, size) {
            VolumeDiffState::Present
        } else {
            VolumeDiffState::Stale
        },
        None => if at_destination == (OnDisk::File { size }) {
            VolumeDiffState::Present
        } else {
            VolumeDiffState::Missing
        },
    }
}

/// Holds the tracks of a list against a volume, moving nothing.
pub fn diff_volume(
    entries: &[ArchiveEntry],
    layout: ExportLayout,
    lookups: &Vec<Option<VolumeLookup>>,
    at_destination: &Vec<OnDisk>,
) -> (r: Vec<VolumeDiffEntry>)
    requires
        entries@.len() == lookups@.len(),
        entries@.len() == at_destination@.len(),
    ensures
        r@.len() == entries@.len(),
        forall|i: int|
            #![trigger r@[i]]
            0 <= i < entries@.len() ==> r@[i].track_id.0@ == entries@[i]@.track_id
                && r@[i].relative_path@ == destinations(model::entry_views(entries@), layout)[i]
                && r@[i].state == diff_state(lookups@[i], at_destination@[i], entries@[i].size_bytes),
{
    let ghost all = model::entry_views(entries@);
    let paths = destination_paths(entries, layout);
    proof {
        lemma_taken(all, layout);
        assert(paths@.len() == text::views(paths@).len());
    }
    let mut r: Vec<VolumeDiffEntry> = Vec::new();
    let mut i: usize = 0;
    while i < entries.len()
        invariant
            i <= entries@.len(),
            entries@.len() == paths@.len(),
            entries@.len() == lookups@.len(),
            entries@.len() == at_destination@.len(),
            text::views(paths@) == destinations(all, layout),
            r@.len() == i,
            forall|k: int|
                #![trigger r@[k]]
                0 <= k < i ==> r@[k].track_id.0@ == entries@[k]@.track_id && r@[k].relative_path@
                    == destinations(all, layout)[k] && r@[k].state == diff_state(lookups@[k], at_destination@[k], entries@[k].size_bytes),
        decreases entries@.len() - i,
    {
        let state = match &lookups[i] {
            Some(l) => {
                if is_copied(l, entries[i].size_bytes) {
                    VolumeDiffState::Present
                } else {
                    VolumeDiffState::Stale
                }
            },
            None => {
                if has_size(at_destination[i], entries[i].size_bytes) {
                    VolumeDiffState::Present
                } else {
                    VolumeDiffState::Missing
                }
            },
        };
        proof {
            assert(text::views(paths@)[i as int] == paths@[i as int]@);
        }
        r.push(
            VolumeDiffEntry {
                track_id: entries[i].track_id.copy(),
                relative_path: paths[i].clone(),
                state,
            },
        );
        i = i + 1;
    }
    r
}

// ---------------------------------------------------------------------------
// Playlists
// ---------------------------------------------------------------------------

/// A track that the volume's index knows is present exactly if a plan would leave it
/// out, and stale otherwise. One that it does not know is present only if a file of
/// its size stands where it would go.
pub proof fn law_diff_agrees_with_the_plan(
    l: Option<VolumeLookup>,
    at_destination: OnDisk,
    e: model::EntryView,
)
    ensures
        l is Some ==> diff_state(l, at_destination, e.size_bytes) == (if is_on_volume(l, e) {
            VolumeDiffState::Present
        } else {
            VolumeDiffState::Stale
        }),
        l is None ==> diff_state(l, at_destination, e.size_bytes) == (if at_destination == (
        OnDisk::File { size: e.size_bytes }) {
            VolumeDiffState::Present
        } else {
            VolumeDiffState::Missing
        }),
{
}

/// The extension of playlist files.
pub open spec fn playlist_extension(format: PlaylistFormat) -> Seq<char> {
    match format {
        PlaylistFormat::M3u8 => "m3u8"@,
        PlaylistFormat::M3u => "m3u"@,
    }
}

/// A playlist file is told by its extension.
pub proof fn law_playlist_extension_tells_the_format(format: PlaylistFormat)
    ensures
        format is M3u8 ==> playlist_extension(format) == "m3u8"@,
        format is M3u ==> playlist_extension(format) == "m3u"@,
{
}

/// The line of a playlist file for a path.
pub open spec fn playlist_line(p: Seq<char>, relative: bool) -> Seq<char> {
    if relative {
        p
    } else {
        "/"@ + text::trim_start(p, '/')
    }
}

/// The lines of a playlist file.
pub open spec fn playlist_lines(
    paths: Seq<Seq<char>>,
    format: PlaylistFormat,
    relative: bool,
) -> Seq<Seq<char>> {
    (match format {
        PlaylistFormat::M3u8 => seq!["#EXTM3U"@],
        PlaylistFormat::M3u => Seq::empty(),
    }) + paths.map_values(|p: Seq<char>| playlist_line(p, relative))
}

/// The text of a playlist file.
pub open spec fn playlist_body(
    paths: Seq<Seq<char>>,
    format: PlaylistFormat,
    relative: bool,
) -> Seq<char> {
    text::joined(playlist_lines(paths, format, relative), "\n"@) + "\n"@
}

/// How many lines a playlist file has before its tracks.
pub open spec fn heading_lines(format: PlaylistFormat) -> int {
    if format is M3u8 {
        1
    } else {
        0
    }
}

/// A playlist file has one line for each track, in their order, behind a heading in
/// the extended format, and ends with a line break. A line is the path on the volume,
/// from its root where paths are to be absolute.
pub proof fn law_playlist_has_a_line_for_each_track(
    paths: Seq<Seq<char>>,
    format: PlaylistFormat,
    relative: bool,
)
    requires
        forall|i: int|
            0 <= i < paths.len() ==> (#[trigger] paths[i]).len() > 0 && paths[i][0] != '/'
                && !paths[i].contains('\n'),
        paths.len() > 0,
    ensures
        ({
            let lines = text::split(playlist_body(paths, format, relative), '\n');
            let head = heading_lines(format);
            &&& lines.len() == head + paths.len() + 1
            &&& format is M3u8 ==> lines[0] == "#EXTM3U"@
            &&& forall|i: int|
                0 <= i < paths.len() ==> #[trigger] lines[head + i] == (if relative {
                    paths[i]
                } else {
                    "/"@ + paths[i]
                })
            &&& lines.last().len() == 0
        }),
{
    let lines = playlist_lines(paths, format, relative);
    let head = heading_lines(format);
    reveal_strlit("#EXTM3U");
    reveal_strlit("/");
    reveal_strlit("\n");
    assert(lines.len() == head + paths.len());
    assert forall|i: int| 0 <= i < paths.len() implies #[trigger] lines[head + i] == (
    if relative {
        paths[i]
    } else {
        "/"@ + paths[i]
    }) by {
        assert(lines[head + i] == playlist_line(paths[i], relative));
        assert(text::trim_start(paths[i], '/') == paths[i]);
    }
    assert forall|k: int| 0 <= k < lines.len() implies !(#[trigger] lines[k]).contains('\n') by {
        if k >= head {
            let p = paths[k - head];
            assert(lines[head + (k - head)] == (if relative {
                p
            } else {
                "/"@ + p
            }));
            if lines[k].contains('\n') {
                let j = choose|j: int| 0 <= j < lines[k].len() && lines[k][j] == '\n';
                if relative {
                    assert(p[j] == '\n');
                } else if j > 0 {
                    assert(p[j - 1] == '\n');
                }
            }
        } else {
            assert(lines[k] == "#EXTM3U"@);
        }
    }
    assert("\n"@ =~= seq!['\n']);
    text::lemma_split_joined(lines, '\n');
    let body = text::joined(lines, seq!['\n']);
    text::lemma_split_append(body, Seq::empty(), '\n');
    assert(body.push('\n') + Seq::<char>::empty() =~= body + "\n"@);
    let split = text::split(playlist_body(paths, format, relative), '\n');
    assert(split == lines.push(Seq::empty()));
    assert forall|i: int| 0 <= i < paths.len() implies #[trigger] split[head + i] == (
    if relative {
        paths[i]
    } else {
        "/"@ + paths[i]
    }) by {
        assert(split[head + i] == lines[head + i]);
    }
}

/// The text of a playlist file.
pub fn render_playlist(paths: &Vec<String>, format: PlaylistFormat, relative: bool) -> (r: String)
    ensures
        r@ == playlist_body(text::views(paths@), format, relative),
{
    let mut lines: Vec<String> = Vec::new();
    match format {
        PlaylistFormat::M3u8 => {
            lines.push("#EXTM3U".to_owned());
        },
        PlaylistFormat::M3u => {},
    }
    let ghost head = text::views(lines@);
    let ghost tail = text::views(paths@).map_values(|p: Seq<char>| playlist_line(p, relative));
    let mut i: usize = 0;
    proof {
        assert(head =~= match format {
            PlaylistFormat::M3u8 => seq!["#EXTM3U"@],
            PlaylistFormat::M3u => Seq::empty(),
        });
        assert(text::views(lines@) =~= head + tail.take(0));
    }
    while i < paths.len()
        invariant
            i <= paths@.len(),
            tail == text::views(paths@).map_values(|p: Seq<char>| playlist_line(p, relative)),
            text::views(lines@) == head + tail.take(i as int),
        decreases paths@.len() - i,
    {
        let ghost before = text::views(lines@);
        let line = if relative {
            paths[i].clone()
        } else {
            let p = text::trim_start_text(paths[i].as_str(), '/');
            text::cat2("/", p.as_str())
        };
        lines.push(line);
        proof {
            assert(text::views(lines@) =~= before.push(line@));
            assert(text::views(lines@) =~= head + tail.take(i + 1));
        }
        i = i + 1;
    }
    proof {
        assert(tail.take(paths@.len() as int) =~= tail);
        assert(text::views(lines@) =~= playlist_lines(text::views(paths@), format, relative));
    }
    let mut body = text::join_texts(&lines, "\n");
    body.append("\n");
    body
}

/// Puts a playlist into a file for a volume.
pub fn export_playlist(
    playlist_name: &str,
    entries: &[ArchiveEntry],
    layout: ExportLayout,
    format: PlaylistFormat,
    relative_paths: bool,
) -> (r: PlaylistExport)
    ensures
        r.filename@ == "Playlists/"@ + playlist_name@ + "."@ + playlist_extension(format),
        text::views(r.relative_paths@) == destinations(model::entry_views(entries@), layout),
        r.body@ == playlist_body(
            destinations(model::entry_views(entries@), layout),
            format,
            relative_paths,
        ),
{
    let paths = destination_paths(entries, layout);
    let ext = match format {
        PlaylistFormat::M3u8 => "m3u8",
        PlaylistFormat::M3u => "m3u",
    };
    let filename = text::cat4("Playlists/", playlist_name, ".", ext);
    let body = render_playlist(&paths, format, relative_paths);
    PlaylistExport { filename, body, relative_paths: paths }
}

} // verus!

//! The records of the archive.

use vstd::prelude::*;

use crate::text;

verus! {

/// Stable identifier of a track within the archive.
#[derive(Debug, Clone, PartialEq, Eq, Hash, PartialOrd, Ord)]
pub struct TrackId(pub String);

/// Whether text has the form of a fresh identifier: 36 characters, hyphens
/// after the 8th, 12th, 16th and 20th digit, and lower-case hexadecimal digits
/// elsewhere.
pub open spec fn is_uuid(s: Seq<char>) -> bool {
    &&& s.len() == 36
    &&& forall|i: int|
        0 <= i < 36 ==> if i == 8 || i == 13 || i == 18 || i == 23 {
            #[trigger] s[i] == '-'
        } else {
            '0' <= s[i] <= '9' || 'a' <= s[i] <= 'f'
        }
}

/// A fresh identifier is a plain name: it holds no path separator, so it can
/// stand in a path or an object key as one part.
pub proof fn law_fresh_id_is_a_plain_name(s: Seq<char>)
    requires
        is_uuid(s),
    ensures
        s.len() > 0,
        !s.contains('/'),
{
    if s.contains('/') {
        let i = choose|i: int| 0 <= i < s.len() && s[i] == '/';
        assert(s[i] == '/');
    }
}

/// A fresh random identifier in text form.
///
/// Trusted: the text of `uuid::Uuid::new_v4`. Which one comes rests on chance;
/// its form is that of the crate's hyphenated display.
#[verifier::external_body]
fn random_id() -> (r: String)
    ensures
        is_uuid(r@),
{
    uuid::Uuid::new_v4().to_string()
}

/// The current time.
///
/// Trusted: `chrono::Utc::now`, in seconds and nanoseconds since the Unix
/// epoch. It rests on the clock, so nothing is said of the result.
#[verifier::external_body]
fn clock() -> (r: Timestamp) {
    let now = chrono::Utc::now();
    Timestamp { secs: now.timestamp(), nanos: now.timestamp_subsec_nanos() }
}

impl TrackId {
    /// A fresh random identifier. Which one comes rests on chance.
    pub fn new() -> (r: TrackId)
        ensures
            is_uuid(r.0@),
    {
        TrackId(random_id())
    }

    /// The identifier with the given text.
    pub fn named(s: &str) -> (r: TrackId)
        ensures
            r.0@ == s@,
    {
        TrackId(s.to_owned())
    }

    /// The same identifier again.
    pub fn copy(&self) -> (r: TrackId)
        ensures
            r == *self,
    {
        TrackId(self.0.clone())
    }
}

impl Default for TrackId {
    fn default() -> (r: TrackId)
        ensures
            is_uuid(r.0@),
    {
        TrackId::new()
    }
}

impl<'a> From<&'a str> for TrackId {
    fn from(s: &'a str) -> (r: TrackId)
        ensures
            r.0@ == s@,
    {
        TrackId::named(s)
    }
}

impl<'a> vstd::std_specs::convert::FromSpecImpl<&'a str> for TrackId {
    open spec fn obeys_from_spec() -> bool {
        false
    }

    open spec fn from_spec(s: &'a str) -> TrackId {
        arbitrary()
    }
}

/// The texts of a list of identifiers.
pub open spec fn id_views(ids: Seq<TrackId>) -> Seq<Seq<char>> {
    ids.map_values(|id: TrackId| id.0@)
}

/// A moment in time: seconds since the Unix epoch, and nanoseconds within the
/// second.
#[derive(Debug, Clone, Copy, PartialEq, Eq, Structural)]
pub struct Timestamp {
    pub secs: i64,
    pub nanos: u32,
}

impl Timestamp {
    /// The current time. It rests on the clock.
    pub fn now() -> Timestamp {
        clock()
    }
}

/// What is known of a track from its file.
#[derive(Debug, Clone, PartialEq, Eq)]
pub struct Metadata {
    pub title: Option<String>,
    pub artist: Option<String>,
    pub album: Option<String>,
    pub genre: Option<String>,
    pub year: Option<i32>,
    /// Beats per minute, as the bits of an IEEE 754 single.
    pub bpm: Option<u32>,
    /// Musical key, in Camelot or standard notation.
    pub key: Option<String>,
    /// Duration in seconds, as the bits of an IEEE 754 double.
    pub duration_secs: Option<u64>,
    pub comment: Option<String>,
    pub file_type: Option<String>,
}

impl Metadata {
    /// Whether nothing is known.
    pub open spec fn is_blank(self) -> bool {
        &&& self.title is None
        &&& self.artist is None
        &&& self.album is None
        &&& self.genre is None
        &&& self.year is None
        &&& self.bpm is None
        &&& self.key is None
        &&& self.duration_secs is None
        &&& self.comment is None
        &&& self.file_type is None
    }

    /// The same metadata again.
    pub fn copy(&self) -> (r: Metadata)
        ensures
            r == *self,
    {
        Metadata {
            title: text::copy_opt(&self.title),
            artist: text::copy_opt(&self.artist),
            album: text::copy_opt(&self.album),
            genre: text::copy_opt(&self.genre),
            year: self.year,
            bpm: self.bpm,
            key: text::copy_opt(&self.key),
            duration_secs: self.duration_secs,
            comment: text::copy_opt(&self.comment),
            file_type: text::copy_opt(&self.file_type),
        }
    }
}

impl Default for Metadata {
    fn default() -> (r: Metadata)
        ensures
            r.is_blank(),
    {
        Metadata {
            title: None,
            artist: None,
            album: None,
            genre: None,
            year: None,
            bpm: None,
            key: None,
            duration_secs: None,
            comment: None,
            file_type: None,
        }
    }
}

/// One entry of the canonical bucket index.
#[derive(Debug, Clone, PartialEq, Eq)]
pub struct ArchiveEntry {
    pub track_id: TrackId,
    pub object_key: String,
    pub size_bytes: u64,
    pub sha256: String,
    pub metadata: Metadata,
    pub tags: Vec<String>,
    pub imported_at: Timestamp,
    pub updated_at: Timestamp,
    /// The absolute path of the file when it was imported.
    pub source_path_original: Option<String>,
    pub artwork_object_key: Option<String>,
    /// The slug of the file, if a library root was declared.
    pub library_relative_path: Option<String>,
}

/// An index entry, as the contracts speak of it.
pub struct EntryView {
    pub track_id: Seq<char>,
    pub object_key: Seq<char>,
    pub size_bytes: u64,
    pub sha256: Seq<char>,
    pub metadata: Metadata,
    pub tags: Seq<Seq<char>>,
    pub imported_at: Timestamp,
    pub updated_at: Timestamp,
    pub source_path_original: Option<Seq<char>>,
    pub artwork_object_key: Option<Seq<char>>,
    pub library_relative_path: Option<Seq<char>>,
}

impl View for ArchiveEntry {
    type V = EntryView;

    open spec fn view(&self) -> EntryView {
        EntryView {
            track_id: self.track_id.0@,
            object_key: self.object_key@,
            size_bytes: self.size_bytes,
            sha256: self.sha256@,
            metadata: self.metadata,
            tags: text::views(self.tags@),
            imported_at: self.imported_at,
            updated_at: self.updated_at,
            source_path_original: text::opt_view(self.source_path_original),
            artwork_object_key: text::opt_view(self.artwork_object_key),
            library_relative_path: text::opt_view(self.library_relative_path),
        }
    }
}

/// The entries that a list holds.
pub open spec fn entry_views(list: Seq<ArchiveEntry>) -> Seq<EntryView> {
    list.map_values(|e: ArchiveEntry| e@)
}

/// What the contracts say of an entry they say of its fields, each under its own name.
pub proof fn law_entry_is_seen_field_by_field(list: Seq<ArchiveEntry>, i: int)
    requires
        0 <= i < list.len(),
    ensures
        entry_views(list).len() == list.len(),
        ({
            let v = entry_views(list)[i];
            let e = list[i];
            &&& v.track_id == e.track_id.0@
            &&& v.object_key == e.object_key@
            &&& v.size_bytes == e.size_bytes
            &&& v.sha256 == e.sha256@
            &&& v.metadata == e.metadata
            &&& v.tags.len() == e.tags@.len()
            &&& forall|k: int| 0 <= k < v.tags.len() ==> #[trigger] v.tags[k] == e.tags@[k]@
            &&& v.imported_at == e.imported_at
            &&& v.updated_at == e.updated_at
            &&& v.source_path_original is Some <==> e.source_path_original is Some
            &&& v.source_path_original is Some ==> v.source_path_original->0
                == e.source_path_original->0@
            &&& v.artwork_object_key is Some <==> e.artwork_object_key is Some
            &&& v.artwork_object_key is Some ==> v.artwork_object_key->0
                == e.artwork_object_key->0@
            &&& v.library_relative_path is Some <==> e.library_relative_path is Some
            &&& v.library_relative_path is Some ==> v.library_relative_path->0
                == e.library_relative_path->0@
        }),
{
}

impl ArchiveEntry {
    /// The same entry again.
    pub fn copy(&self) -> (r: ArchiveEntry)
        ensures
            r@ == self@,
    {
        ArchiveEntry {
            track_id: self.track_id.copy(),
            object_key: self.object_key.clone(),
            size_bytes: self.size_bytes,
            sha256: self.sha256.clone(),
            metadata: self.metadata.copy(),
            tags: text::copy_texts(&self.tags),
            imported_at: self.imported_at,
            updated_at: self.updated_at,
            source_path_original: text::copy_opt(&self.source_path_original),
            artwork_object_key: text::copy_opt(&self.artwork_object_key),
            library_relative_path: text::copy_opt(&self.library_relative_path),
        }
    }
}

/// A logical playlist.
#[derive(Debug, Clone, PartialEq, Eq)]
pub struct Playlist {
    pub id: String,
    pub name: String,
    pub created_at: Timestamp,
    pub updated_at: Timestamp,
    pub track_ids: Vec<TrackId>,
}

impl Playlist {
    /// An empty playlist with a fresh random id, made now.
    pub fn new(name: &str) -> (r: Playlist)
        ensures
            is_uuid(r.id@),
            r.name@ == name@,
            r.track_ids@.len() == 0,
            r.created_at == r.updated_at,
    {
        let now = Timestamp::now();
        Playlist::create(random_id(), name, now)
    }

    /// An empty playlist with the given id, made at the given time.
    pub fn create(id: String, name: &str, now: Timestamp) -> (r: Playlist)
        ensures
            r.id@ == id@,
            r.name@ == name@,
            r.created_at == now,
            r.updated_at == now,
            r.track_ids@.len() == 0,
    {
        Playlist {
            id,
            name: name.to_owned(),
            created_at: now,
            updated_at: now,
            track_ids: Vec::new(),
        }
    }
}

/// The identity file of a performance volume.
#[derive(Debug, Clone, PartialEq, Eq)]
pub struct VolumeIdentity {
    pub volume_id: String,
    pub label: Option<String>,
    pub created_at: Timestamp,
}

impl VolumeIdentity {
    /// An identity with a fresh random id, made now.
    pub fn new(label: Option<String>) -> (r: VolumeIdentity)
        ensures
            is_uuid(r.volume_id@),
            r.label == label,
    {
        VolumeIdentity { volume_id: random_id(), label, created_at: Timestamp::now() }
    }

    /// The same identity again.
    pub fn copy(&self) -> (r: VolumeIdentity)
        ensures
            r == *self,
    {
        VolumeIdentity {
            volume_id: self.volume_id.clone(),
            label: text::copy_opt(&self.label),
            created_at: self.created_at,
        }
    }
}

/// A captured cover-art object and where it was found.
#[derive(Debug, Clone, PartialEq, Eq)]
pub struct ArtworkRecord {
    pub sha256: String,
    /// The content-addressed object key in the bucket.
    pub object_key: String,
    pub size_bytes: u64,
    /// The source folder that the image was found in.
    pub source_folder: String,
    pub file_name: String,
    pub captured_at: Timestamp,
}

impl ArtworkRecord {
    /// The same record again.
    pub fn copy(&self) -> (r: ArtworkRecord)
        ensures
            r == *self,
    {
        ArtworkRecord {
            sha256: self.sha256.clone(),
            object_key: self.object_key.clone(),
            size_bytes: self.size_bytes,
            source_folder: self.source_folder.clone(),
            file_name: self.file_name.clone(),
            captured_at: self.captured_at,
        }
    }
}

/// The generation marker of the bucket index.
#[derive(Debug, Clone, Copy, PartialEq, Eq, Structural)]
pub struct SchemaVersion {
    pub schema_version: u32,
    /// Advanced on every write of the canonical index.
    pub generation: u64,
    pub updated_at: Timestamp,
}

} // verus!

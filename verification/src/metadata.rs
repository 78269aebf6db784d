//! What is known of an audio file before it is played.

use vstd::prelude::*;

use crate::error::Error;
use crate::model::Metadata;
use crate::path;
use crate::text;

verus! {

/// Finds out what an audio file says of itself.
pub trait MetadataExtractor {
    fn extract(&self, path: &str) -> Result<Metadata, Error>;
}

/// What the name of a file says: its title and its type.
pub open spec fn is_named_after(m: Metadata, p: Seq<char>) -> bool {
    &&& text::opt_view(m.title) == path::file_stem(p)
    &&& match path::extension(p) {
        Some(e) => m.file_type matches Some(t) && t@ == text::lowered(e),
        None => m.file_type is None,
    }
    &&& (Metadata { title: None, file_type: None, ..m }).is_blank()
}

/// Of a file of which only its path is known, the title is its name without the
/// extension, the type is the extension in small letters, and nothing else is known.
pub proof fn law_metadata_is_taken_from_the_name(
    m: Metadata,
    dir: Seq<char>,
    stem: Seq<char>,
    ext: Seq<char>,
)
    requires
        path::is_name(stem.push('.') + ext),
        stem.len() > 0,
        !ext.contains('.'),
        is_named_after(m, dir.push('/') + (stem.push('.') + ext)),
    ensures
        m.title is Some && m.title->0@ == stem,
        m.file_type is Some && m.file_type->0@ == text::lowered(ext),
        m.artist is None && m.album is None && m.genre is None && m.year is None && m.bpm is None,
{
    path::law_extension_stands_behind_the_last_dot(dir, stem, ext);
}

/// An extractor that goes by the name of the file alone.
#[derive(Debug, Clone, Copy)]
pub struct StubExtractor;

impl MetadataExtractor for StubExtractor {
    fn extract(&self, path: &str) -> (r: Result<Metadata, Error>)
        ensures
            r matches Ok(m) && is_named_after(m, path@),
    {
        let title = path::file_stem_of(path);
        let file_type = match path::extension_of(path) {
            Some(e) => Some(text::to_lowercase(e.as_str())),
            None => None,
        };
        let mut m: Metadata = Metadata::default();
        m.title = title;
        m.file_type = file_type;
        Ok(m)
    }
}

} // verus!

//! Which files an import takes.

use vstd::prelude::*;

use crate::path;
use crate::text;

verus! {

/// Default audio extensions recognized by import scans.
pub const DEFAULT_AUDIO_EXTENSIONS: [&'static str; 8] = [
    "flac",
    "wav",
    "aiff",
    "aif",
    "mp3",
    "m4a",
    "aac",
    "ogg",
];

/// Image extensions treated as candidate cover art when they stand next to
/// audio.
pub const DEFAULT_IMAGE_EXTENSIONS: [&'static str; 8] = [
    "jpg",
    "jpeg",
    "png",
    "gif",
    "webp",
    "bmp",
    "tiff",
    "tif",
];

/// Whether a path's last name starts with a dot, unless such names count as
/// any other.
pub open spec fn hidden(path: Seq<char>, include_dotfiles: bool) -> bool {
    !include_dotfiles && match path::file_name(path) {
        Some(name) => name.len() > 0 && name[0] == '.',
        None => false,
    }
}

/// Whether a path's extension is one of the given ones, up to the case of
/// ASCII letters.
pub open spec fn extension_in(path: Seq<char>, extensions: Seq<&str>) -> bool {
    match path::extension(path) {
        Some(e) => exists|i: int|
            0 <= i < extensions.len() && text::same_ignoring_ascii_case(
                (#[trigger] extensions[i])@,
                e,
            ),
        None => false,
    }
}

/// Whether two texts are the same letter for letter, but for the case of ASCII
/// letters.
pub open spec fn is_spelled_alike(a: Seq<char>, b: Seq<char>) -> bool {
    &&& a.len() == b.len()
    &&& forall|k: int|
        0 <= k < b.len() ==> a[k] == #[trigger] b[k] || ('A' <= a[k] <= 'Z' && a[k] as int + 32
            == b[k] as int) || ('A' <= b[k] <= 'Z' && b[k] as int + 32 == a[k] as int)
}

/// A file counts as having an extension if what stands behind the last dot of its
/// name is one of the given ones, letter for letter, but for the case of ASCII
/// letters. A name that has no dot behind its first character has none.
pub proof fn law_extension_is_told_by_name(
    dir: Seq<char>,
    stem: Seq<char>,
    ext: Seq<char>,
    extensions: Seq<&str>,
)
    requires
        path::is_name(stem.push('.') + ext),
        !ext.contains('.'),
    ensures
        extension_in(dir.push('/') + (stem.push('.') + ext), extensions) == (stem.len() > 0
            && exists|i: int|
            0 <= i < extensions.len() && is_spelled_alike((#[trigger] extensions[i])@, ext)),
{
    path::law_extension_stands_behind_the_last_dot(dir, stem, ext);
    assert forall|i: int| 0 <= i < extensions.len() implies is_spelled_alike(
        (#[trigger] extensions[i])@,
        ext,
    ) == text::same_ignoring_ascii_case(extensions[i]@, ext) by {
        let a = extensions[i]@;
        let small_a = a.map_values(|c: char| text::ascii_lower(c));
        let small_b = ext.map_values(|c: char| text::ascii_lower(c));
        if is_spelled_alike(a, ext) {
            assert forall|k: int| 0 <= k < a.len() implies small_a[k] == small_b[k] by {
                assert(ext[k] == ext[k]);
            }
            assert(small_a =~= small_b);
        }
        if small_a == small_b {
            assert(a.len() == small_a.len() && ext.len() == small_b.len());
            assert forall|k: int| 0 <= k < ext.len() implies a[k] == #[trigger] ext[k] || ('A'
                <= a[k] <= 'Z' && a[k] as int + 32 == ext[k] as int) || ('A' <= ext[k] <= 'Z'
                && ext[k] as int + 32 == a[k] as int) by {
                assert(small_a[k] == small_b[k]);
            }
        }
    }
}

/// By default, audio is what ends in one of eight extensions, in capitals or not, and
/// artwork what ends in one of eight others.
pub proof fn law_default_extensions(dir: Seq<char>, stem: Seq<char>, ext: Seq<char>)
    requires
        path::is_name(stem.push('.') + ext),
        stem.len() > 0,
        !ext.contains('.'),
    ensures
        extension_in(dir.push('/') + (stem.push('.') + ext), DEFAULT_AUDIO_EXTENSIONS@) <==> {
            ||| is_spelled_alike("flac"@, ext)
            ||| is_spelled_alike("wav"@, ext)
            ||| is_spelled_alike("aiff"@, ext)
            ||| is_spelled_alike("aif"@, ext)
            ||| is_spelled_alike("mp3"@, ext)
            ||| is_spelled_alike("m4a"@, ext)
            ||| is_spelled_alike("aac"@, ext)
            ||| is_spelled_alike("ogg"@, ext)
        },
        extension_in(dir.push('/') + (stem.push('.') + ext), DEFAULT_IMAGE_EXTENSIONS@) <==> {
            ||| is_spelled_alike("jpg"@, ext)
            ||| is_spelled_alike("jpeg"@, ext)
            ||| is_spelled_alike("png"@, ext)
            ||| is_spelled_alike("gif"@, ext)
            ||| is_spelled_alike("webp"@, ext)
            ||| is_spelled_alike("bmp"@, ext)
            ||| is_spelled_alike("tiff"@, ext)
            ||| is_spelled_alike("tif"@, ext)
        },
{
    let audio = DEFAULT_AUDIO_EXTENSIONS@;
    let images = DEFAULT_IMAGE_EXTENSIONS@;
    law_extension_is_told_by_name(dir, stem, ext, audio);
    law_extension_is_told_by_name(dir, stem, ext, images);
    assert(audio.len() == 8 && images.len() == 8);
    assert(audio[0] == "flac" && audio[1] == "wav" && audio[2] == "aiff" && audio[3] == "aif");
    assert(audio[4] == "mp3" && audio[5] == "m4a" && audio[6] == "aac" && audio[7] == "ogg");
    assert(images[0] == "jpg" && images[1] == "jpeg" && images[2] == "png" && images[3] == "gif");
    assert(images[4] == "webp" && images[5] == "bmp" && images[6] == "tiff" && images[7] == "tif");
}

/// A file is hidden if its name starts with a dot, unless dotfiles are included.
pub proof fn law_hidden_is_told_by_name(dir: Seq<char>, name: Seq<char>, include_dotfiles: bool)
    requires
        path::is_name(name),
    ensures
        hidden(dir.push('/') + name, include_dotfiles) == (!include_dotfiles && name[0] == '.'),
{
    path::law_last_name_stands_behind_the_separator(dir, name);
}

/// Whether a path's last name starts with a dot and such names are left out.
pub fn is_hidden(path: &str, include_dotfiles: bool) -> (r: bool)
    ensures
        r == hidden(path@, include_dotfiles),
{
    if include_dotfiles {
        return false;
    }
    match path::file_name_of(path) {
        Some(name) => !name.as_str().is_empty() && name.as_str().get_char(0) == '.',
        None => false,
    }
}

/// Whether a path's extension is one of the given ones.
fn has_extension(path: &str, extensions: &[&str]) -> (r: bool)
    ensures
        r == extension_in(path@, extensions@),
{
    match path::extension_of(path) {
        Some(e) => {
            let mut i: usize = 0;
            while i < extensions.len()
                invariant
                    i <= extensions@.len(),
                    path::extension(path@) == Some(e@),
                    forall|k: int|
                        0 <= k < i ==> !text::same_ignoring_ascii_case(
                            (#[trigger] extensions@[k])@,
                            e@,
                        ),
                decreases extensions@.len() - i,
            {
                if text::eq_ignore_ascii_case(extensions[i], e.as_str()) {
                    return true;
                }
                i = i + 1;
            }
            false
        },
        None => false,
    }
}

/// Whether a path names an audio file.
pub fn is_audio(path: &str, extensions: &[&str]) -> (r: bool)
    ensures
        r == extension_in(path@, extensions@),
{
    has_extension(path, extensions)
}

/// Whether a path names an image.
pub fn is_image(path: &str, extensions: &[&str]) -> (r: bool)
    ensures
        r == extension_in(path@, extensions@),
{
    has_extension(path, extensions)
}

} // verus!

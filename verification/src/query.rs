//! Searching the archive index.

use vstd::prelude::*;

use crate::error::Error;
use crate::text;

verus! {

/// A range of values, both ends included.
#[derive(Debug, Clone, Copy, PartialEq, Eq)]
pub struct Range<T> {
    pub min: Option<T>,
    pub max: Option<T>,
}

impl<T> Default for Range<T> {
    fn default() -> (r: Range<T>)
        ensures
            r.min is None,
            r.max is None,
    {
        Range { min: None, max: None }
    }
}

/// A query over the archive index. Every filter is optional.
#[derive(Debug, Clone, PartialEq, Eq)]
pub struct QuerySpec {
    /// Free text, looked for in title, artist, album and comment.
    pub text: Option<String>,
    pub artist: Option<String>,
    pub album: Option<String>,
    pub genre: Option<String>,
    pub key: Option<String>,
    pub file_type: Option<String>,
    /// Beats per minute, as the bits of IEEE 754 singles.
    pub bpm: Range<u32>,
    pub year: Range<i32>,
    /// Tags that must all be present.
    pub tags: Vec<String>,
    pub limit: Option<u32>,
}

impl Default for QuerySpec {
    fn default() -> (r: QuerySpec)
        ensures
            r.is_open(),
    {
        QuerySpec {
            text: None,
            artist: None,
            album: None,
            genre: None,
            key: None,
            file_type: None,
            bpm: Range::default(),
            year: Range::default(),
            tags: Vec::new(),
            limit: None,
        }
    }
}

impl QuerySpec {
    /// Whether a query has no filter at all.
    pub open spec fn is_open(self) -> bool {
        &&& self.text is None
        &&& self.artist is None
        &&& self.album is None
        &&& self.genre is None
        &&& self.key is None
        &&& self.file_type is None
        &&& self.bpm.min is None
        &&& self.bpm.max is None
        &&& self.year.min is None
        &&& self.year.max is None
        &&& self.tags@.len() == 0
        &&& self.limit is None
    }

    /// A query with no filter.
    pub fn new() -> (r: QuerySpec)
        ensures
            r.is_open(),
    {
        QuerySpec::default()
    }

    /// The query with a free text.
    pub fn text(self, t: &str) -> (r: QuerySpec)
        ensures
            r == (QuerySpec { text: r.text, ..self }),
            text::opt_view(r.text) == Some(t@),
    {
        let mut q = self;
        q.text = Some(t.to_owned());
        q
    }

    /// The query with an artist.
    pub fn artist(self, a: &str) -> (r: QuerySpec)
        ensures
            r == (QuerySpec { artist: r.artist, ..self }),
            text::opt_view(r.artist) == Some(a@),
    {
        let mut q = self;
        q.artist = Some(a.to_owned());
        q
    }

    /// The query with a genre.
    pub fn genre(self, g: &str) -> (r: QuerySpec)
        ensures
            r == (QuerySpec { genre: r.genre, ..self }),
            text::opt_view(r.genre) == Some(g@),
    {
        let mut q = self;
        q.genre = Some(g.to_owned());
        q
    }

    /// The query with a musical key.
    pub fn key(self, k: &str) -> (r: QuerySpec)
        ensures
            r == (QuerySpec { key: r.key, ..self }),
            text::opt_view(r.key) == Some(k@),
    {
        let mut q = self;
        q.key = Some(k.to_owned());
        q
    }

    /// The query with a range of beats per minute.
    pub fn bpm_range(self, min: Option<u32>, max: Option<u32>) -> (r: QuerySpec)
        ensures
            r == (QuerySpec { bpm: (Range { min, max }), ..self }),
    {
        let mut q = self;
        q.bpm = Range { min, max };
        q
    }
}

/// A bound given as text. Blank text is no bound.
pub open spec fn bound_of(s: Seq<char>) -> Option<Seq<char>> {
    if text::trimmed(s).len() == 0 {
        None
    } else {
        Some(text::trimmed(s))
    }
}

/// What stands before the colon of a range is its lower bound, what stands behind it
/// its upper bound. Where nothing stands, there is no bound.
pub proof fn law_range_bounds_stand_around_the_colon(min: Seq<char>, max: Seq<char>)
    requires
        !min.contains(':'),
        min.len() > 0 ==> !text::is_white(min[0]) && !text::is_white(min.last()),
        max.len() > 0 ==> !text::is_white(max[0]) && !text::is_white(max.last()),
    ensures
        text::split_once(min + seq![':'] + max, ':') == Some((min, max)),
        bound_of(min) == (if min.len() > 0 {
            Some(min)
        } else {
            None
        }),
        bound_of(max) == (if max.len() > 0 {
            Some(max)
        } else {
            None
        }),
{
    text::law_split_once_at_first(min, ':', max);
}

/// A bound given as text.
fn bound_text(s: &str) -> (r: Option<String>)
    ensures
        text::opt_view(r) == bound_of(s@),
{
    let t = text::trim(s);
    if t.as_str().is_empty() {
        None
    } else {
        Some(t)
    }
}

/// Takes apart a range given as `min:max`, where either side may be blank. No
/// range at all has no bounds.
///
/// Fails with `Other` if there is no `:`, and only then.
pub fn parse_range(spec: Option<&str>) -> (r: Result<(Option<String>, Option<String>), Error>)
    ensures
        match spec {
            None => r matches Ok((a, b)) && a is None && b is None,
            Some(s) => match text::split_once(s@, ':') {
                Some((min, max)) => r matches Ok((a, b)) && text::opt_view(a) == bound_of(min)
                    && text::opt_view(b) == bound_of(max),
                None => r matches Err(Error::Other(m)) && m@ == "range '"@ + s@
                    + "' must be in min:max form"@,
            },
        },
{
    let s = match spec {
        Some(s) => s,
        None => {
            return Ok((None, None));
        },
    };
    match text::split_once_text(s, ':') {
        Some((min, max)) => Ok((bound_text(min.as_str()), bound_text(max.as_str()))),
        None => Err(Error::Other(text::cat3("range '", s, "' must be in min:max form"))),
    }
}

} // verus!

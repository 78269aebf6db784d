//! Bringing the local cache in line with the bucket before a read.
//!
//! If the cache is at the generation that the marker names, nothing has to be
//! done. Else the index of that generation is pulled, and the cache rebuilt
//! from it.

use vstd::prelude::*;

use crate::archive::index;
use crate::archive::index::BucketPaths;
use crate::error::Error;
use crate::model;
use crate::model::{ArchiveEntry, SchemaVersion};
use crate::text;

verus! {

/// The outcome of a reconciliation.
#[derive(Debug, Clone, Copy, PartialEq, Eq, Structural)]
pub enum ReconcileReport {
    /// The cache already matched the bucket.
    UpToDate { generation: u64 },
    /// The cache was rebuilt from the bucket.
    Rehydrated { generation: u64, entries_loaded: usize },
    /// The bucket has no index yet.
    EmptyBucket,
    /// The bucket could not be reached, and the cache is served as it is.
    OfflineFallback { local_generation: Option<u64> },
}

/// What came back when the marker was read.
#[derive(Debug, Clone, PartialEq, Eq)]
pub enum MarkerReply {
    /// The marker.
    Found(SchemaVersion),
    /// The bytes were read but are no marker.
    Unreadable(Error),
    /// There is no marker.
    Missing,
    /// The bucket did not answer.
    Unreachable(Error),
}

/// What the local cache says of itself.
#[derive(Debug, Clone, Copy, PartialEq, Eq, Structural)]
pub struct CacheState {
    /// The generation it was last brought up to.
    pub generation: Option<u64>,
    /// How many tracks it holds.
    pub count: u64,
}

/// What a reconciliation does next.
#[derive(Debug, Clone, PartialEq, Eq)]
pub enum ReconcileStep {
    /// It is over.
    Done(ReconcileReport),
    /// It failed.
    Fail(Error),
    /// The index under `key` is to be read, the cache replaced by it, and the
    /// cache marked as `generation`.
    Pull { key: String, generation: u64 },
}

/// Whether a step is the right one.
pub open spec fn is_step(
    step: ReconcileStep,
    paths: BucketPaths,
    reply: MarkerReply,
    cache: CacheState,
    allow_offline: bool,
) -> bool {
    match reply {
        MarkerReply::Found(marker) => if cache.generation == Some(marker.generation) && cache.count
            > 0 {
            step == ReconcileStep::Done(
                ReconcileReport::UpToDate { generation: marker.generation },
            )
        } else {
            step matches ReconcileStep::Pull { key, generation } && generation == marker.generation
                && key@ == paths.index_key(marker.generation as nat)
        },
        MarkerReply::Unreadable(e) => step == ReconcileStep::Fail(e),
        MarkerReply::Missing => step == ReconcileStep::Done(ReconcileReport::EmptyBucket),
        MarkerReply::Unreachable(e) => if allow_offline {
            step == ReconcileStep::Done(
                ReconcileReport::OfflineFallback { local_generation: cache.generation },
            )
        } else {
            step matches ReconcileStep::Fail(Error::Reconcile(m)) && m@ == "could not read "@
                + paths.marker_key() + ": "@ + e.shown()
        },
    }
}

/// Decides what to do about the marker that was read.
pub fn reconcile(
    paths: &BucketPaths,
    reply: MarkerReply,
    cache: &CacheState,
    allow_offline: bool,
) -> (r: ReconcileStep)
    ensures
        is_step(r, *paths, reply, *cache, allow_offline),
{
    match reply {
        MarkerReply::Found(marker) => {
            let current: bool = match cache.generation {
                Some(g) => g == marker.generation && cache.count > 0,
                None => false,
            };
            if current {
                ReconcileStep::Done(ReconcileReport::UpToDate { generation: marker.generation })
            } else {
                ReconcileStep::Pull {
                    key: paths.archive_index_generation(marker.generation),
                    generation: marker.generation,
                }
            }
        },
        MarkerReply::Unreadable(e) => ReconcileStep::Fail(e),
        MarkerReply::Missing => ReconcileStep::Done(ReconcileReport::EmptyBucket),
        MarkerReply::Unreachable(e) => {
            if allow_offline {
                ReconcileStep::Done(
                    ReconcileReport::OfflineFallback { local_generation: cache.generation },
                )
            } else {
                let key = paths.schema_version();
                let why = e.message();
                ReconcileStep::Fail(
                    Error::Reconcile(
                        text::cat4("could not read ", key.as_str(), ": ", why.as_str()),
                    ),
                )
            }
        },
    }
}

/// What the local cache holds: its tracks by id, and the generation it was last
/// brought up to.
pub struct Cache {
    pub tracks: Map<Seq<char>, model::EntryView>,
    pub generation: Option<u64>,
}

/// The tracks of an index by id.
pub open spec fn by_id(index: Seq<model::EntryView>) -> Map<Seq<char>, model::EntryView>
    decreases index.len(),
{
    if index.len() == 0 {
        Map::empty()
    } else {
        by_id(index.drop_last()).insert(index.last().track_id, index.last())
    }
}

/// A cache that is filled from an index holds each track of it, and nothing else; of
/// two lines with one id, the last counts.
pub proof fn law_last_line_of_a_track_counts(index: Seq<model::EntryView>, id: Seq<char>)
    ensures
        if by_id(index).contains_key(id) {
            exists|i: int|
                {
                    &&& 0 <= i < index.len()
                    &&& #[trigger] index[i] == by_id(index)[id]
                    &&& index[i].track_id == id
                    &&& forall|k: int| i < k < index.len() ==> (#[trigger] index[k]).track_id != id
                }
        } else {
            forall|k: int| 0 <= k < index.len() ==> (#[trigger] index[k]).track_id != id
        },
    decreases index.len(),
{
    if index.len() > 0 {
        let front = index.drop_last();
        let n = index.len() - 1;
        law_last_line_of_a_track_counts(front, id);
        assert forall|k: int| 0 <= k < n implies front[k] == #[trigger] index[k] by {}
        if index.last().track_id == id {
            assert(index[n] == by_id(index)[id]);
        } else if by_id(front).contains_key(id) {
            let i = choose|i: int|
                {
                    &&& 0 <= i < front.len()
                    &&& #[trigger] front[i] == by_id(front)[id]
                    &&& front[i].track_id == id
                    &&& forall|k: int| i < k < front.len() ==> (#[trigger] front[k]).track_id != id
                };
            assert(index[i] == by_id(index)[id]);
        }
    }
}

/// Whether no two tracks of an index have the same id.
pub open spec fn ids_distinct(index: Seq<model::EntryView>) -> bool {
    forall|i: int, j: int|
        0 <= i < j < index.len() ==> (#[trigger] index[i]).track_id != (
        #[trigger] index[j]).track_id
}

/// Whether this is what a cache says of itself.
pub open spec fn describes(state: CacheState, cache: Cache) -> bool {
    state.generation == cache.generation && state.count == cache.tracks.dom().len()
}

/// What takes the place of everything that the cache held: these tracks and no
/// others, under this generation.
#[derive(Debug, Clone, PartialEq, Eq)]
pub struct Replacement {
    pub entries: Vec<ArchiveEntry>,
    pub generation: u64,
    pub report: ReconcileReport,
}

impl Replacement {
    /// The cache once it has been replaced.
    pub open spec fn cache(self) -> Cache {
        Cache {
            tracks: by_id(model::entry_views(self.entries@)),
            generation: Some(self.generation),
        }
    }

    /// Whether this replaces the cache by an index.
    pub open spec fn is_from(self, generation: u64, index: Seq<model::EntryView>) -> bool {
        &&& model::entry_views(self.entries@) == index
        &&& self.generation == generation
        &&& self.report == (ReconcileReport::Rehydrated {
            generation,
            entries_loaded: index.len() as usize,
        })
        &&& index.len() <= usize::MAX
    }
}

/// What the cache holds after a step. Only a pull that succeeded changes it.
pub open spec fn cache_after(
    step: ReconcileStep,
    cache: Cache,
    pull: Result<Replacement, Error>,
) -> Cache {
    match (step, pull) {
        (ReconcileStep::Pull { .. }, Ok(r)) => r.cache(),
        _ => cache,
    }
}

/// What replaces the cache, given the tracks of the index that was pulled, or the
/// error if it could not be.
pub fn pulled(generation: u64, index: Result<Vec<ArchiveEntry>, Error>) -> (r: Result<
    Replacement,
    Error,
>)
    ensures
        match index {
            Ok(entries) => r matches Ok(x) && x.is_from(generation, model::entry_views(entries@)),
            Err(e) => r matches Err(Error::Reconcile(m)) && m@ == "could not pull archive index: "@
                + e.shown(),
        },
{
    match index {
        Ok(entries) => {
            let n: usize = entries.len();
            Ok(
                Replacement {
                    entries,
                    generation,
                    report: ReconcileReport::Rehydrated { generation, entries_loaded: n },
                },
            )
        },
        Err(e) => {
            let why = e.message();
            Err(Error::Reconcile(text::cat2("could not pull archive index: ", why.as_str())))
        },
    }
}

/// The tracks of an index with distinct ids are all found by their ids, there are
/// no others, and they are as many.
proof fn lemma_by_id(index: Seq<model::EntryView>)
    requires
        ids_distinct(index),
    ensures
        forall|i: int|
            0 <= i < index.len() ==> by_id(index).contains_key((#[trigger] index[i]).track_id)
                && by_id(index)[index[i].track_id] == index[i],
        forall|id: Seq<char>| #[trigger]
            by_id(index).contains_key(id) ==> exists|i: int|
                0 <= i < index.len() && (#[trigger] index[i]).track_id == id,
        by_id(index).dom().finite(),
        by_id(index).dom().len() == index.len(),
    decreases index.len(),
{
    if index.len() > 0 {
        let front = index.drop_last();
        assert forall|i: int, j: int| 0 <= i < j < front.len() implies (
        #[trigger] front[i]).track_id != (#[trigger] front[j]).track_id by {
            assert(index[i].track_id != index[j].track_id);
        }
        lemma_by_id(front);
        let last = index.last();
        assert(!by_id(front).contains_key(last.track_id)) by {
            if by_id(front).contains_key(last.track_id) {
                let i = choose|i: int|
                    0 <= i < front.len() && (#[trigger] front[i]).track_id == last.track_id;
                assert(index[i].track_id != index[index.len() - 1].track_id);
            }
        }
        assert forall|i: int| 0 <= i < index.len() implies by_id(index).contains_key(
            (#[trigger] index[i]).track_id,
        ) && by_id(index)[index[i].track_id] == index[i] by {
            if i < front.len() {
                assert(front[i] == index[i]);
                assert(by_id(front).contains_key(front[i].track_id));
            }
        }
        assert forall|id: Seq<char>| #[trigger] by_id(index).contains_key(id) implies exists|i: int|
            0 <= i < index.len() && (#[trigger] index[i]).track_id == id by {
            if id == last.track_id {
                assert(index[index.len() - 1].track_id == id);
            } else {
                assert(by_id(front).contains_key(id));
                let i = choose|i: int| 0 <= i < front.len() && (#[trigger] front[i]).track_id == id;
                assert(index[i].track_id == id);
            }
        }
        assert(by_id(index).dom() =~= by_id(front).dom().insert(last.track_id));
    }
}

/// A cache that is not at the generation of the marker, or holds nothing, is
/// rebuilt: it then holds exactly the tracks of the index that the marker names,
/// those of before are gone, and it is at the generation of the marker.
/// Reconciling again while the marker stands still finds it up to date and changes
/// nothing.
pub proof fn law_reconcile_rebuilds_then_settles(
    paths: BucketPaths,
    marker: SchemaVersion,
    allow_offline: bool,
    cache: Cache,
    state: CacheState,
    step: ReconcileStep,
    index: Seq<model::EntryView>,
    replacement: Replacement,
    later: CacheState,
    next: ReconcileStep,
    pull: Result<Replacement, Error>,
)
    requires
        describes(state, cache),
        cache.generation != Some(marker.generation) || cache.tracks.dom().len() == 0,
        is_step(step, paths, MarkerReply::Found(marker), state, allow_offline),
        index.len() > 0,
        ids_distinct(index),
        replacement.is_from(marker.generation, index),
        describes(later, cache_after(step, cache, Ok(replacement))),
        is_step(next, paths, MarkerReply::Found(marker), later, allow_offline),
    ensures
        step matches ReconcileStep::Pull { key, generation } && generation == marker.generation
            && key@ == paths.index_key(marker.generation as nat),
        replacement.report == (ReconcileReport::Rehydrated {
            generation: marker.generation,
            entries_loaded: index.len() as usize,
        }),
        ({
            let rebuilt = cache_after(step, cache, Ok(replacement));
            &&& rebuilt.generation == Some(marker.generation)
            &&& forall|i: int|
                0 <= i < index.len() ==> rebuilt.tracks.contains_key((#[trigger] index[i]).track_id)
                    && rebuilt.tracks[index[i].track_id] == index[i]
            &&& forall|id: Seq<char>| #[trigger]
                rebuilt.tracks.contains_key(id) ==> exists|i: int|
                    0 <= i < index.len() && (#[trigger] index[i]).track_id == id
            &&& rebuilt.tracks.dom().len() == index.len()
            &&& next == ReconcileStep::Done(
                ReconcileReport::UpToDate { generation: marker.generation },
            )
            &&& cache_after(next, rebuilt, pull) == rebuilt
        }),
{
    lemma_by_id(index);
}

/// The bucket always wins over the cache: a cache at any other generation is
/// rebuilt from the index that the marker names, older or newer.
pub proof fn law_marker_decides(
    paths: BucketPaths,
    marker: SchemaVersion,
    cache: CacheState,
    allow_offline: bool,
    step: ReconcileStep,
)
    requires
        cache.generation != Some(marker.generation),
        is_step(step, paths, MarkerReply::Found(marker), cache, allow_offline),
    ensures
        step matches ReconcileStep::Pull { key, generation } && generation == marker.generation
            && key@ == paths.index_key(marker.generation as nat),
{
}

/// What a look at the marker comes to. A cache of the marker's generation that holds
/// tracks is up to date; any other is rebuilt from the index of that generation. An
/// empty bucket is no error; a marker that cannot be read is; a bucket that cannot be
/// reached is one unless the cache may stand in for it.
pub proof fn law_reconcile_outcomes(
    paths: BucketPaths,
    reply: MarkerReply,
    cache: CacheState,
    allow_offline: bool,
    step: ReconcileStep,
)
    requires
        is_step(step, paths, reply, cache, allow_offline),
    ensures
        match reply {
            MarkerReply::Found(marker) => {
                &&& (step is Pull <==> cache.generation != Some(marker.generation)
                    || cache.count == 0)
                &&& (step == ReconcileStep::Done(
                    ReconcileReport::UpToDate { generation: marker.generation },
                ) <==> cache.generation == Some(marker.generation) && cache.count > 0)
                &&& step is Pull ==> step->Pull_generation == marker.generation
                    && step->Pull_key@ == paths.prefix_text() + "/archive-index/"@
                    + text::decimal(marker.generation as nat) + ".jsonl"@
            },
            MarkerReply::Missing => step == ReconcileStep::Done(ReconcileReport::EmptyBucket),
            MarkerReply::Unreadable(e) => step == ReconcileStep::Fail(e),
            MarkerReply::Unreachable(e) => if allow_offline {
                step == ReconcileStep::Done(
                    ReconcileReport::OfflineFallback { local_generation: cache.generation },
                )
            } else {
                step is Fail && step->Fail_0 is Reconcile
            },
        },
{
    if let MarkerReply::Found(marker) = reply {
        index::law_bucket_layout(
            paths,
            marker.generation as nat,
            Seq::empty(),
            Seq::empty(),
            seq!['m'],
        );
    }
}

/// Staleness is never served unasked: an unreachable bucket is an error unless
/// working offline was allowed.
pub proof fn law_offline_needs_consent(
    paths: BucketPaths,
    e: Error,
    cache: CacheState,
    step: ReconcileStep,
)
    requires
        is_step(step, paths, MarkerReply::Unreachable(e), cache, false),
    ensures
        step is Fail,
{
}

} // verus!

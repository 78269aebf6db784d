//! Which chunk is claimed next, and which paths a chunk stands for.

use vstd::prelude::*;

use crate::library::events;
use crate::library::events::{ChunkState, ChunkStatus};
use crate::library::plan;
use crate::library::plan::{BackfillPlan, PlanChunk};
use crate::library::sanity::StatSanityCheck;
use crate::path;
use crate::text;

verus! {

/// The outcome of one claim.
#[derive(Debug, Clone, PartialEq, Eq)]
pub struct ClaimReport {
    pub plan_id: String,
    pub chunk_id: String,
    /// Every path that the chunk resolved to and that was imported.
    pub targets: Vec<String>,
    pub tracks_committed: u64,
    /// The estimate of the chunk held against what was found.
    pub stat_check: StatSanityCheck,
}

/// Why no chunk could be picked.
#[derive(Debug, Clone, PartialEq, Eq)]
pub enum PickNextError {
    /// No chunk of the plan has the id that was asked for.
    UnknownChunkId(String),
    /// Every chunk has been claimed or completed, and taking over a claim was
    /// not asked for.
    NoUntouchedChunksRemain,
    /// Every chunk has been completed.
    AllChunksCompleted,
}

/// Whether a plan has a chunk with the given id.
pub open spec fn has_chunk(chunks: Seq<plan::ChunkView>, id: Seq<char>) -> bool {
    exists|i: int| 0 <= i < chunks.len() && (#[trigger] chunks[i]).chunk_id == id
}

/// The id of the first chunk that nobody has touched.
pub open spec fn first_untouched(statuses: Seq<events::StatusView>) -> Option<Seq<char>>
    decreases statuses.len(),
{
    if statuses.len() == 0 {
        None
    } else if statuses[0].state == ChunkState::Untouched {
        Some(statuses[0].chunk_id)
    } else {
        first_untouched(statuses.drop_first())
    }
}

/// The id of the first chunk that is not completed.
pub open spec fn first_unfinished(statuses: Seq<events::StatusView>) -> Option<Seq<char>>
    decreases statuses.len(),
{
    if statuses.len() == 0 {
        None
    } else if statuses[0].state != ChunkState::Completed {
        Some(statuses[0].chunk_id)
    } else {
        first_unfinished(statuses.drop_first())
    }
}

/// The outcome of picking a chunk, as the contracts speak of it.
pub enum Pick {
    Chunk(Seq<char>),
    Unknown(Seq<char>),
    NoneUntouched,
    AllCompleted,
}

/// The claim policy. A chunk that is asked for by id is taken as it is. Else
/// the first untouched chunk is taken, and, only if asked for, the first
/// unfinished one when none is untouched.
pub open spec fn policy(
    chunks: Seq<plan::ChunkView>,
    statuses: Seq<events::StatusView>,
    explicit: Option<Seq<char>>,
    include_claimed: bool,
) -> Pick {
    match explicit {
        Some(id) => if has_chunk(chunks, id) {
            Pick::Chunk(id)
        } else {
            Pick::Unknown(id)
        },
        None => match first_untouched(statuses) {
            Some(id) => Pick::Chunk(id),
            None => if include_claimed {
                match first_unfinished(statuses) {
                    Some(id) => Pick::Chunk(id),
                    None => Pick::AllCompleted,
                }
            } else {
                Pick::NoneUntouched
            },
        },
    }
}

/// What a result of picking stands for.
pub open spec fn pick_view(r: Result<String, PickNextError>) -> Pick {
    match r {
        Ok(id) => Pick::Chunk(id@),
        Err(PickNextError::UnknownChunkId(id)) => Pick::Unknown(id@),
        Err(PickNextError::NoUntouchedChunksRemain) => Pick::NoneUntouched,
        Err(PickNextError::AllChunksCompleted) => Pick::AllCompleted,
    }
}

/// A claim that is granted names its chunk, and each refusal is told apart.
pub proof fn law_refusals_are_told_apart(r: Result<String, PickNextError>)
    ensures
        pick_view(r) is Chunk <==> r is Ok,
        r is Ok ==> pick_view(r)->Chunk_0 == r->Ok_0@,
        pick_view(r) is Unknown <==> r is Err && r->Err_0 is UnknownChunkId,
        pick_view(r) is NoneUntouched <==> r is Err && r->Err_0 is NoUntouchedChunksRemain,
        pick_view(r) is AllCompleted <==> r is Err && r->Err_0 is AllChunksCompleted,
{
}

proof fn lemma_first_untouched(statuses: Seq<events::StatusView>)
    ensures
        first_untouched(statuses) matches Some(id) ==> exists|i: int|
            0 <= i < statuses.len() && (#[trigger] statuses[i]).chunk_id == id && statuses[i].state
                == ChunkState::Untouched,
        first_untouched(statuses) is None ==> forall|i: int|
            0 <= i < statuses.len() ==> (#[trigger] statuses[i]).state != ChunkState::Untouched,
    decreases statuses.len(),
{
    if statuses.len() > 0 && statuses[0].state != ChunkState::Untouched {
        let rest = statuses.drop_first();
        lemma_first_untouched(rest);
        if first_untouched(rest) is Some {
            let id = first_untouched(rest)->0;
            let i = choose|i: int|
                0 <= i < rest.len() && (#[trigger] rest[i]).chunk_id == id && rest[i].state
                    == ChunkState::Untouched;
            assert(statuses[i + 1] == rest[i]);
        } else {
            assert forall|i: int| 0 <= i < statuses.len() implies (#[trigger] statuses[i]).state
                != ChunkState::Untouched by {
                if i > 0 {
                    assert(statuses[i] == rest[i - 1]);
                }
            }
        }
    }
}

/// Nothing is taken over by default: without an explicit id and without asking
/// for claimed chunks, only a chunk with no event at all is ever picked.
pub proof fn law_default_claim_never_steals(
    chunks: Seq<plan::ChunkView>,
    log: Seq<events::ChunkEvent>,
    id: Seq<char>,
)
    requires
        policy(chunks, events::folded(chunks, log), None, false) == Pick::Chunk(id),
    ensures
        has_chunk(chunks, id),
        forall|e: events::ChunkEvent| #[trigger] log.contains(e) ==> e.chunk_id@ != id,
{
    let statuses = events::folded(chunks, log);
    lemma_first_untouched(statuses);
    let i = choose|i: int|
        0 <= i < statuses.len() && (#[trigger] statuses[i]).chunk_id == id && statuses[i].state
            == ChunkState::Untouched;
    assert(chunks[i].chunk_id == id);
    events::law_state_settled_by_events(id, log);
}

/// A refusal by default means that every chunk of the plan has been claimed or
/// completed.
pub proof fn law_refusal_means_all_touched(
    chunks: Seq<plan::ChunkView>,
    log: Seq<events::ChunkEvent>,
    i: int,
)
    requires
        policy(chunks, events::folded(chunks, log), None, false) == Pick::NoneUntouched,
        0 <= i < chunks.len(),
    ensures
        exists|e: events::ChunkEvent| #[trigger] log.contains(e) && e.chunk_id@
            == chunks[i].chunk_id,
{
    let statuses = events::folded(chunks, log);
    lemma_first_untouched(statuses);
    assert(statuses[i].state != ChunkState::Untouched);
    events::law_state_settled_by_events(chunks[i].chunk_id, log);
}

/// Whether the status at a place is the first in one of the wanted states, and is
/// that of the given chunk.
pub open spec fn is_first_at(
    i: int,
    id: Seq<char>,
    statuses: Seq<events::StatusView>,
    wanted: spec_fn(ChunkState) -> bool,
) -> bool {
    &&& 0 <= i < statuses.len()
    &&& statuses[i].chunk_id == id
    &&& wanted(statuses[i].state)
    &&& forall|k: int| 0 <= k < i ==> !wanted((#[trigger] statuses[k]).state)
}

/// Whether an id is that of the first status in one of the wanted states.
pub open spec fn is_first_in(
    id: Seq<char>,
    statuses: Seq<events::StatusView>,
    wanted: spec_fn(ChunkState) -> bool,
) -> bool {
    exists|i: int| #[trigger] is_first_at(i, id, statuses, wanted)
}

/// Whether no status is in one of the wanted states.
pub open spec fn none_in(
    statuses: Seq<events::StatusView>,
    wanted: spec_fn(ChunkState) -> bool,
) -> bool {
    forall|k: int| 0 <= k < statuses.len() ==> !wanted((#[trigger] statuses[k]).state)
}

/// Nobody has touched the chunk.
pub open spec fn untouched() -> spec_fn(ChunkState) -> bool {
    |s: ChunkState| s is Untouched
}

/// The chunk is not completed, claimed or not.
pub open spec fn unfinished() -> spec_fn(ChunkState) -> bool {
    |s: ChunkState| s is Untouched || s is Claimed
}

/// What holds of the statuses behind the first holds of all if the first is not in
/// a wanted state.
proof fn lemma_behind_first(
    statuses: Seq<events::StatusView>,
    found: Option<Seq<char>>,
    wanted: spec_fn(ChunkState) -> bool,
)
    requires
        statuses.len() > 0,
        !wanted(statuses[0].state),
        match found {
            Some(id) => is_first_in(id, statuses.drop_first(), wanted),
            None => none_in(statuses.drop_first(), wanted),
        },
    ensures
        match found {
            Some(id) => is_first_in(id, statuses, wanted),
            None => none_in(statuses, wanted),
        },
{
    let rest = statuses.drop_first();
    match found {
        Some(id) => {
            let i = choose|i: int| #[trigger] is_first_at(i, id, rest, wanted);
            assert forall|k: int| 0 <= k < i + 1 implies !wanted(
                (#[trigger] statuses[k]).state,
            ) by {
                if k > 0 {
                    assert(rest[k - 1] == statuses[k]);
                }
            }
            assert(is_first_at(i + 1, id, statuses, wanted));
        },
        None => {
            assert forall|k: int| 0 <= k < statuses.len() implies !wanted(
                (#[trigger] statuses[k]).state,
            ) by {
                if k > 0 {
                    assert(rest[k - 1] == statuses[k]);
                }
            }
        },
    }
}

proof fn lemma_untouched_is_first(statuses: Seq<events::StatusView>)
    ensures
        match first_untouched(statuses) {
            Some(id) => is_first_in(id, statuses, untouched()),
            None => none_in(statuses, untouched()),
        },
    decreases statuses.len(),
{
    if statuses.len() > 0 {
        lemma_untouched_is_first(statuses.drop_first());
        if untouched()(statuses[0].state) {
            assert(is_first_at(0, statuses[0].chunk_id, statuses, untouched()));
        } else {
            lemma_behind_first(statuses, first_untouched(statuses.drop_first()), untouched());
        }
    }
}

proof fn lemma_unfinished_is_first(statuses: Seq<events::StatusView>)
    ensures
        match first_unfinished(statuses) {
            Some(id) => is_first_in(id, statuses, unfinished()),
            None => none_in(statuses, unfinished()),
        },
    decreases statuses.len(),
{
    if statuses.len() > 0 {
        lemma_unfinished_is_first(statuses.drop_first());
        if unfinished()(statuses[0].state) {
            assert(is_first_at(0, statuses[0].chunk_id, statuses, unfinished()));
        } else {
            lemma_behind_first(statuses, first_unfinished(statuses.drop_first()), unfinished());
        }
    }
}

/// Without a choice, the first chunk that nobody has touched is claimed. If there
/// is none, the claim is refused, unless claimed chunks may be taken too: then it
/// is the first that is not completed, and the claim is refused only if all are.
pub proof fn law_first_open_chunk_is_claimed(
    chunks: Seq<plan::ChunkView>,
    statuses: Seq<events::StatusView>,
    include_claimed: bool,
)
    ensures
        match policy(chunks, statuses, None, include_claimed) {
            Pick::Chunk(id) => {
                ||| is_first_in(id, statuses, untouched())
                ||| {
                    &&& include_claimed
                    &&& none_in(statuses, untouched())
                    &&& is_first_in(id, statuses, unfinished())
                }
            },
            Pick::NoneUntouched => !include_claimed && none_in(statuses, untouched()),
            Pick::AllCompleted => include_claimed && none_in(statuses, unfinished()),
            Pick::Unknown(_) => false,
        },
{
    lemma_untouched_is_first(statuses);
    lemma_unfinished_is_first(statuses);
}

/// A chunk that is asked for by its id is claimed whatever its state, if the plan
/// has it; no other chunk ever takes its place.
pub proof fn law_named_chunk_is_claimed(
    chunks: Seq<plan::ChunkView>,
    statuses: Seq<events::StatusView>,
    id: Seq<char>,
    include_claimed: bool,
)
    ensures
        (exists|i: int| 0 <= i < chunks.len() && (#[trigger] chunks[i]).chunk_id == id)
            ==> policy(chunks, statuses, Some(id), include_claimed) == Pick::Chunk(id),
        (forall|i: int| 0 <= i < chunks.len() ==> (#[trigger] chunks[i]).chunk_id != id)
            ==> policy(chunks, statuses, Some(id), include_claimed) == Pick::Unknown(id),
{
}

/// The path of each folder of a chunk is the root, a separator and the folder, one
/// path for each folder, in their order.
pub proof fn law_targets_stand_below_the_root(library_root: Seq<char>, folders: Seq<Seq<char>>, i: int)
    requires
        library_root.len() > 0,
        library_root.last() != '/',
        0 <= i < folders.len(),
        folders[i].len() > 0,
        folders[i][0] != '/',
    ensures
        folder_targets(library_root, folders).len() == folders.len(),
        folder_targets(library_root, folders)[i] == library_root + seq!['/'] + folders[i],
{
    assert(library_root.push('/') + folders[i] =~= library_root + seq!['/'] + folders[i]);
}

/// Picks the chunk to claim next.
pub fn pick_next_chunk(
    plan: &BackfillPlan,
    statuses: &[ChunkStatus],
    explicit_chunk_id: Option<&str>,
    include_claimed: bool,
) -> (r: Result<String, PickNextError>)
    ensures
        pick_view(r) == policy(
            plan::chunk_views(plan.chunks@),
            events::status_views(statuses@),
            match explicit_chunk_id {
                Some(id) => Some(id@),
                None => None,
            },
            include_claimed,
        ),
{
    let ghost chunks = plan::chunk_views(plan.chunks@);
    let ghost views = events::status_views(statuses@);
    if let Some(id) = explicit_chunk_id {
        let mut i: usize = 0;
        while i < plan.chunks.len()
            invariant
                i <= plan.chunks@.len(),
                chunks == plan::chunk_views(plan.chunks@),
                views == events::status_views(statuses@),
                explicit_chunk_id == Some(id),
                forall|k: int| 0 <= k < i ==> (#[trigger] chunks[k]).chunk_id != id@,
            decreases plan.chunks@.len() - i,
        {
            if text::same(plan.chunks[i].chunk_id.as_str(), id) {
                proof {
                    assert(chunks[i as int].chunk_id == id@);
                }
                return Ok(id.to_owned());
            }
            i = i + 1;
        }
        return Err(PickNextError::UnknownChunkId(id.to_owned()));
    }
    let mut i: usize = 0;
    proof {
        assert(views.skip(0) =~= views);
    }
    while i < statuses.len()
        invariant
            i <= statuses@.len(),
            chunks == plan::chunk_views(plan.chunks@),
            views == events::status_views(statuses@),
            explicit_chunk_id is None,
            first_untouched(views) == first_untouched(views.skip(i as int)),
        decreases statuses@.len() - i,
    {
        proof {
            assert(views.skip(i as int)[0] == statuses@[i as int]@);
            assert(views.skip(i as int).drop_first() =~= views.skip(i + 1));
        }
        if statuses[i].state == ChunkState::Untouched {
            return Ok(statuses[i].chunk_id.clone());
        }
        i = i + 1;
    }
    proof {
        assert(first_untouched(views) is None);
    }
    if include_claimed {
        let mut j: usize = 0;
        while j < statuses.len()
            invariant
                j <= statuses@.len(),
                include_claimed,
                chunks == plan::chunk_views(plan.chunks@),
                views == events::status_views(statuses@),
                explicit_chunk_id is None,
                first_untouched(views) is None,
                first_unfinished(views) == first_unfinished(views.skip(j as int)),
            decreases statuses@.len() - j,
        {
            proof {
                assert(views.skip(j as int)[0] == statuses@[j as int]@);
                assert(views.skip(j as int).drop_first() =~= views.skip(j + 1));
            }
            if statuses[j].state != ChunkState::Completed {
                return Ok(statuses[j].chunk_id.clone());
            }
            j = j + 1;
        }
        return Err(PickNextError::AllChunksCompleted);
    }
    Err(PickNextError::NoUntouchedChunksRemain)
}

/// The paths that the folders of a chunk stand for under a root.
pub open spec fn folder_targets(library_root: Seq<char>, folders: Seq<Seq<char>>) -> Seq<Seq<char>> {
    folders.map_values(|f: Seq<char>| path::join(library_root, f))
}

/// Resolves a chunk to the paths it stands for: each of its folders below the
/// library root, and the given loose files if the chunk covers them.
pub fn resolve_chunk_targets(
    library_root: &str,
    chunk: &PlanChunk,
    loose_root_files: &[String],
) -> (r: Vec<String>)
    ensures
        text::views(r@) == folder_targets(library_root@, chunk@.folders) + (
        if chunk.includes_root_files {
            text::views(loose_root_files@)
        } else {
            Seq::empty()
        }),
{
    let mut r: Vec<String> = Vec::new();
    let mut i: usize = 0;
    while i < chunk.folders.len()
        invariant
            i <= chunk.folders@.len(),
            r@.len() == i,
            forall|k: int|
                0 <= k < i ==> (#[trigger] r@[k])@ == path::join(
                    library_root@,
                    chunk.folders@[k]@,
                ),
        decreases chunk.folders@.len() - i,
    {
        r.push(path::join_path(library_root, chunk.folders[i].as_str()));
        i = i + 1;
    }
    let ghost targets = folder_targets(library_root@, chunk@.folders);
    proof {
        assert(text::views(r@) =~= targets);
    }
    if chunk.includes_root_files {
        let mut j: usize = 0;
        proof {
            assert(text::views(r@) =~= targets + text::views(loose_root_files@).take(0));
        }
        while j < loose_root_files.len()
            invariant
                j <= loose_root_files@.len(),
                text::views(r@) == targets + text::views(loose_root_files@).take(j as int),
            decreases loose_root_files@.len() - j,
        {
            let ghost before = text::views(r@);
            r.push(loose_root_files[j].clone());
            proof {
                assert(text::views(r@) =~= before.push(loose_root_files@[j as int]@));
                assert(text::views(r@) =~= targets + text::views(loose_root_files@).take(j + 1));
            }
            j = j + 1;
        }
        proof {
            assert(text::views(loose_root_files@).take(loose_root_files@.len() as int)
                =~= text::views(loose_root_files@));
        }
    } else {
        proof {
            assert(targets + Seq::<Seq<char>>::empty() =~= targets);
        }
    }
    r
}

/// The message of a refusal to pick a chunk.
pub fn refusal_message(plan_id: &str, e: &PickNextError) -> (r: String)
    ensures
        r@ == match *e {
            PickNextError::UnknownChunkId(id) => "backfill plan "@ + plan_id@
                + " has no chunk "@ + id@,
            PickNextError::NoUntouchedChunksRemain => "no untouched chunks remain in backfill plan "@
                + plan_id@,
            PickNextError::AllChunksCompleted => "every chunk is already completed in backfill plan "@
                + plan_id@,
        },
{
    match e {
        PickNextError::UnknownChunkId(id) => text::cat4(
            "backfill plan ",
            plan_id,
            " has no chunk ",
            id.as_str(),
        ),
        PickNextError::NoUntouchedChunksRemain => text::cat2(
            "no untouched chunks remain in backfill plan ",
            plan_id,
        ),
        PickNextError::AllChunksCompleted => text::cat2(
            "every chunk is already completed in backfill plan ",
            plan_id,
        ),
    }
}

} // verus!

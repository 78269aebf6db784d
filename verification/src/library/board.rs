//! Working through a plan from several machines: finding the plans of a bucket,
//! recording progress, and claiming one chunk after the other.

use vstd::prelude::*;

use crate::archive::index::BucketPaths;
use crate::error::Error;
use crate::library::claim;
use crate::library::claim::{ClaimReport, PickNextError};
use crate::library::events;
use crate::library::events::{ChunkEvent, ChunkEventKind};
use crate::library::plan;
use crate::library::plan::{BackfillPlan, PlanChunk};
use crate::library::sanity;
use crate::path;
use crate::selection;
use crate::text;

verus! {

/// The id of the plan that a key belongs to, if it is the key of a plan: the part
/// between the prefix of all plans and `.json`, which is one name. The events of a
/// plan stand deeper.
pub open spec fn plan_in(paths: BucketPaths, key: Seq<char>) -> Option<Seq<char>> {
    let n = paths.plans_prefix().len() as int;
    if paths.plans_prefix().is_prefix_of(key) && ".json"@.len() <= key.len() - n && key.skip(
        key.len() - ".json"@.len(),
    ) == ".json"@ && !key.subrange(n, key.len() - ".json"@.len()).contains('/') {
        Some(key.subrange(n, key.len() - ".json"@.len()))
    } else {
        None
    }
}

/// The id of the plan that a key belongs to, if it is the key of a plan.
pub fn plan_id_of(paths: &BucketPaths, key: &str) -> (r: Option<String>)
    ensures
        text::opt_view(r) == plan_in(*paths, key@),
{
    let prefix = paths.backfill_plans_prefix();
    if !text::starts_with(key, prefix.as_str()) {
        return None;
    }
    let v = text::chars_of(key);
    let p = text::chars_of(prefix.as_str());
    let n: usize = p.len();
    let end: usize = v.len();
    proof {
        reveal_strlit(".json");
    }
    if end - n < 5 {
        return None;
    }
    let cut: usize = end - 5;
    let tail = text::text_slice(&v, cut, end);
    proof {
        assert(tail@ =~= key@.skip(cut as int));
    }
    if !text::same(tail.as_str(), ".json") {
        return None;
    }
    let mut i: usize = n;
    while i < cut
        invariant
            n <= i <= cut,
            cut <= v@.len(),
            v@ == key@,
            n == paths.plans_prefix().len(),
            ".json"@.len() == 5,
            cut == key@.len() - 5,
            forall|k: int| n <= k < i ==> v@[k] != '/',
        decreases cut - i,
    {
        if v[i] == '/' {
            proof {
                assert(key@.subrange(n as int, cut as int)[i - n] == '/');
            }
            return None;
        }
        i = i + 1;
    }
    let id = text::text_slice(&v, n, cut);
    proof {
        assert(id@ =~= key@.subrange(n as int, cut as int));
    }
    Some(id)
}

/// Every plan is found by its key, and no event of a plan is taken for a plan.
pub proof fn law_plans_are_told_from_events(
    paths: BucketPaths,
    plan_id: Seq<char>,
    event_id: Seq<char>,
)
    requires
        !plan_id.contains('/'),
    ensures
        plan_in(paths, paths.plan_key(plan_id)) == Some(plan_id),
        plan_in(paths, paths.event_key(plan_id, event_id)) is None,
{
    reveal_strlit(".json");
    reveal_strlit("/events/");
    let prefix = paths.plans_prefix();
    let n = prefix.len() as int;
    let k = paths.plan_key(plan_id);
    assert(k.subrange(0, n) =~= prefix);
    assert(k.skip(k.len() - 5) =~= ".json"@);
    assert(k.subrange(n, k.len() - 5) =~= plan_id);
    let e = paths.event_key(plan_id, event_id);
    assert(e.subrange(0, n) =~= prefix);
    let rest = e.subrange(n, e.len() - 5);
    assert(rest[plan_id.len() as int] == '/');
}

/// The keys of plans among the keys of a listing, in their order.
pub open spec fn plan_keys(paths: BucketPaths, keys: Seq<Seq<char>>) -> Seq<Seq<char>>
    decreases keys.len(),
{
    if keys.len() == 0 {
        Seq::empty()
    } else {
        let front = plan_keys(paths, keys.drop_last());
        if plan_in(paths, keys.last()) is Some {
            front.push(keys.last())
        } else {
            front
        }
    }
}

/// Which keys are those of plans: the folder of plans, a name with no further
/// separator, and `.json`.
pub open spec fn names_plan(paths: BucketPaths, keys: Seq<Seq<char>>) -> spec_fn(int) -> bool {
    |i: int|
        exists|id: Seq<char>|
            !id.contains('/') && keys[i] == #[trigger] paths.plan_key(id)
}

/// The key at each place.
pub open spec fn key_at(keys: Seq<Seq<char>>) -> spec_fn(int) -> Seq<char> {
    |i: int| keys[i]
}

/// A key names a plan exactly if it is the key of one.
proof fn lemma_names_plan(paths: BucketPaths, key: Seq<char>)
    ensures
        plan_in(paths, key) is Some <==> exists|id: Seq<char>|
            !id.contains('/') && key == #[trigger] paths.plan_key(id),
{
    reveal_strlit("backfill-plans/");
    reveal_strlit(".json");
    if let Some(id) = plan_in(paths, key) {
        assert(paths.plan_key(id) =~= key) by {
            let prefix = paths.plans_prefix();
            let n = prefix.len() as int;
            assert(key.subrange(0, n) =~= prefix);
            assert(key =~= prefix + id + ".json"@) by {
                assert(key.skip(key.len() - 5) == ".json"@);
                assert forall|k: int| 0 <= k < key.len() implies key[k] == (prefix + id
                    + ".json"@)[k] by {
                    if k < n {
                        assert(key.subrange(0, n)[k] == key[k]);
                    } else if k >= key.len() - 5 {
                        assert(key.skip(key.len() - 5)[k - (key.len() - 5)] == key[k]);
                    }
                }
            }
            assert(prefix + id + ".json"@ =~= paths.plan_key(id));
        }
    }
    if exists|id: Seq<char>| !id.contains('/') && key == #[trigger] paths.plan_key(id) {
        let id = choose|id: Seq<char>| !id.contains('/') && key == #[trigger] paths.plan_key(id);
        law_plans_are_told_from_events(paths, id, Seq::empty());
    }
}

/// The plans of a listing are the keys under which plans are stored, each once, in
/// their order; the keys of events and of anything else are passed over.
pub proof fn law_listing_yields_the_plans(paths: BucketPaths, keys: Seq<Seq<char>>)
    ensures
        selection::is_selection(
            plan_keys(paths, keys),
            keys.len() as int,
            names_plan(paths, keys),
            key_at(keys),
        ),
    decreases keys.len(),
{
    if keys.len() == 0 {
        selection::lemma_selection_empty(names_plan(paths, keys), key_at(keys));
    } else {
        let front = keys.drop_last();
        law_listing_yields_the_plans(paths, front);
        lemma_names_plan(paths, keys.last());
        selection::lemma_selection_grows(
            plan_keys(paths, front),
            front.len() as int,
            names_plan(paths, front),
            key_at(front),
            plan_keys(paths, keys),
            names_plan(paths, keys),
            key_at(keys),
        );
    }
}

/// Picks the keys of plans out of a listing.
pub fn plan_keys_of(paths: &BucketPaths, keys: &Vec<String>) -> (r: Vec<String>)
    ensures
        text::views(r@) == plan_keys(*paths, text::views(keys@)),
{
    let ghost all = text::views(keys@);
    let mut r: Vec<String> = Vec::new();
    let mut i: usize = 0;
    proof {
        assert(all.take(0) =~= Seq::<Seq<char>>::empty());
        assert(text::views(r@) =~= Seq::<Seq<char>>::empty());
    }
    while i < keys.len()
        invariant
            i <= keys@.len(),
            all == text::views(keys@),
            text::views(r@) == plan_keys(*paths, all.take(i as int)),
        decreases keys@.len() - i,
    {
        proof {
            assert(all.take(i + 1).drop_last() =~= all.take(i as int));
            assert(all.take(i + 1).last() == keys@[i as int]@);
        }
        if let Some(_) = plan_id_of(paths, keys[i].as_str()) {
            let ghost before = text::views(r@);
            r.push(keys[i].clone());
            proof {
                assert(text::views(r@) =~= before.push(keys@[i as int]@));
            }
        }
        i = i + 1;
    }
    proof {
        assert(all.take(keys@.len() as int) =~= all);
    }
    r
}

/// Whether a plan is for a library root; every plan is, if none is given.
pub fn is_plan_for(plan: &BackfillPlan, root: Option<&str>) -> (r: bool)
    ensures
        r == match root {
            Some(p) => path::parts(plan.library_root@) == path::parts(p@),
            None => true,
        },
{
    match root {
        Some(p) => path::same_path(plan.library_root.as_str(), p),
        None => true,
    }
}

/// The first chunk of a plan with an id.
pub open spec fn chunk_with_id(chunks: Seq<plan::ChunkView>, id: Seq<char>) -> int
    decreases chunks.len(),
{
    if chunks.len() == 0 {
        -1
    } else if chunk_with_id(chunks.drop_last(), id) >= 0 {
        chunk_with_id(chunks.drop_last(), id)
    } else if chunks.last().chunk_id == id {
        chunks.len() - 1
    } else {
        -1
    }
}

proof fn lemma_chunk_with_id(chunks: Seq<plan::ChunkView>, id: Seq<char>)
    ensures
        -1 <= chunk_with_id(chunks, id) < chunks.len(),
        chunk_with_id(chunks, id) >= 0 <==> claim::has_chunk(chunks, id),
        chunk_with_id(chunks, id) >= 0 ==> chunks[chunk_with_id(chunks, id)].chunk_id == id,
    decreases chunks.len(),
{
    if chunks.len() > 0 {
        let front = chunks.drop_last();
        lemma_chunk_with_id(front, id);
        if claim::has_chunk(front, id) {
            let i = choose|i: int| 0 <= i < front.len() && (#[trigger] front[i]).chunk_id == id;
            assert(chunks[i].chunk_id == id);
        } else if claim::has_chunk(chunks, id) {
            let i = choose|i: int| 0 <= i < chunks.len() && (#[trigger] chunks[i]).chunk_id == id;
            if i < front.len() {
                assert(front[i].chunk_id == id);
            }
        } else if chunks.last().chunk_id == id {
            assert(chunks[chunks.len() - 1].chunk_id == id);
        }
    }
}

/// The chunk with an id is the first of the plan that has it; there is none only if
/// no chunk has it.
pub proof fn law_chunk_is_found_by_id(chunks: Seq<plan::ChunkView>, id: Seq<char>)
    ensures
        ({
            let i = chunk_with_id(chunks, id);
            if i >= 0 {
                &&& i < chunks.len()
                &&& chunks[i].chunk_id == id
                &&& forall|k: int| 0 <= k < i ==> (#[trigger] chunks[k]).chunk_id != id
            } else {
                forall|k: int| 0 <= k < chunks.len() ==> (#[trigger] chunks[k]).chunk_id != id
            }
        }),
    decreases chunks.len(),
{
    if chunks.len() > 0 {
        let front = chunks.drop_last();
        law_chunk_is_found_by_id(front, id);
        lemma_chunk_with_id(front, id);
        assert forall|k: int| 0 <= k < front.len() implies front[k] == #[trigger] chunks[k] by {}
    }
}

/// Finds the first chunk of a plan with an id.
fn find_chunk(chunks: &Vec<PlanChunk>, id: &str) -> (r: Option<usize>)
    ensures
        match r {
            Some(i) => i == chunk_with_id(plan::chunk_views(chunks@), id@) && i < chunks@.len(),
            None => !claim::has_chunk(plan::chunk_views(chunks@), id@),
        },
{
    let ghost all = plan::chunk_views(chunks@);
    let mut i: usize = 0;
    proof {
        assert(all.take(0) =~= Seq::<plan::ChunkView>::empty());
    }
    while i < chunks.len()
        invariant
            i <= chunks@.len(),
            all == plan::chunk_views(chunks@),
            chunk_with_id(all.take(i as int), id@) == -1,
        decreases chunks@.len() - i,
    {
        proof {
            assert(all.take(i + 1).drop_last() =~= all.take(i as int));
            assert(all.take(i + 1).last() == chunks@[i as int]@);
        }
        if text::same(chunks[i].chunk_id.as_str(), id) {
            proof {
                lemma_chunk_stays(all, id@, i + 1);
            }
            return Some(i);
        }
        i = i + 1;
    }
    proof {
        assert(all.take(chunks@.len() as int) =~= all);
        lemma_chunk_with_id(all, id@);
    }
    None
}

proof fn lemma_chunk_stays(chunks: Seq<plan::ChunkView>, id: Seq<char>, n: int)
    requires
        0 <= n <= chunks.len(),
        chunk_with_id(chunks.take(n), id) >= 0,
    ensures
        chunk_with_id(chunks, id) == chunk_with_id(chunks.take(n), id),
    decreases chunks.len(),
{
    if n < chunks.len() {
        assert(chunks.drop_last().take(n) =~= chunks.take(n));
        lemma_chunk_stays(chunks.drop_last(), id, n);
    } else {
        assert(chunks.take(n) =~= chunks);
    }
}

/// Folding picks chunks of the plan only.
proof fn lemma_pick_is_in_plan(
    chunks: Seq<plan::ChunkView>,
    statuses: Seq<events::StatusView>,
    id: Seq<char>,
)
    requires
        statuses.len() == chunks.len(),
        forall|i: int|
            0 <= i < chunks.len() ==> (#[trigger] statuses[i]).chunk_id == chunks[i].chunk_id,
        claim::first_untouched(statuses) == Some(id) || claim::first_unfinished(statuses) == Some(
            id,
        ),
    ensures
        claim::has_chunk(chunks, id),
    decreases chunks.len(),
{
    if chunks.len() > 0 {
        if statuses[0].chunk_id == id {
            assert(chunks[0].chunk_id == id);
        } else {
            let rest = chunks.drop_first();
            let left = statuses.drop_first();
            assert forall|i: int| 0 <= i < rest.len() implies (#[trigger] left[i]).chunk_id
                == rest[i].chunk_id by {
                assert(left[i] == statuses[i + 1]);
            }
            lemma_pick_is_in_plan(rest, left, id);
            let i = choose|i: int| 0 <= i < rest.len() && (#[trigger] rest[i]).chunk_id == id;
            assert(chunks[i + 1].chunk_id == id);
        }
    }
}

/// The chunk that a claim takes: what the policy makes of the folded log.
pub open spec fn claimed_chunk(
    chunks: Seq<plan::ChunkView>,
    log: Seq<ChunkEvent>,
    explicit: Option<Seq<char>>,
    include_claimed: bool,
) -> claim::Pick {
    claim::policy(chunks, events::folded(chunks, log), explicit, include_claimed)
}

/// Whether the log has an event of a chunk.
pub open spec fn is_touched(log: Seq<ChunkEvent>, id: Seq<char>) -> bool {
    exists|i: int| 0 <= i < log.len() && (#[trigger] log[i]).chunk_id@ == id
}

/// Whether the log has a completion of a chunk.
pub open spec fn is_completed(log: Seq<ChunkEvent>, id: Seq<char>) -> bool {
    exists|i: int|
        0 <= i < log.len() && (#[trigger] log[i]).chunk_id@ == id && log[i].kind is Completed
}

proof fn lemma_folded_state(chunks: Seq<plan::ChunkView>, log: Seq<ChunkEvent>, i: int)
    requires
        0 <= i < chunks.len(),
    ensures
        events::folded(chunks, log)[i].state is Untouched <==> !is_touched(
            log,
            chunks[i].chunk_id,
        ),
        events::folded(chunks, log)[i].state is Completed <==> is_completed(
            log,
            chunks[i].chunk_id,
        ),
        events::folded(chunks, log)[i].chunk_id == chunks[i].chunk_id,
{
    let id = chunks[i].chunk_id;
    events::law_state_settled_by_events(id, log);
    if is_touched(log, id) {
        let k = choose|k: int| 0 <= k < log.len() && (#[trigger] log[k]).chunk_id@ == id;
        assert(log.contains(log[k]));
    }
    if is_completed(log, id) {
        let k = choose|k: int|
            0 <= k < log.len() && (#[trigger] log[k]).chunk_id@ == id && log[k].kind is Completed;
        assert(log.contains(log[k]));
        assert(events::concerns(log[k], id, ChunkEventKind::Completed));
    }
}

/// Without a choice, a claim takes the first chunk of the plan that the log has no event
/// of. If there is none, it is refused, unless claimed chunks may be taken too: then it
/// takes the first that is not completed, and is refused only if all are.
pub proof fn law_claim_takes_the_first_open_chunk(
    chunks: Seq<plan::ChunkView>,
    log: Seq<ChunkEvent>,
    include_claimed: bool,
)
    ensures
        match claimed_chunk(chunks, log, None, include_claimed) {
            claim::Pick::Chunk(id) => exists|i: int|
                {
                    &&& 0 <= i < chunks.len()
                    &&& (#[trigger] chunks[i]).chunk_id == id
                    &&& {
                        ||| {
                            &&& !is_touched(log, id)
                            &&& forall|k: int|
                                0 <= k < i ==> is_touched(log, (#[trigger] chunks[k]).chunk_id)
                        }
                        ||| {
                            &&& include_claimed
                            &&& !is_completed(log, id)
                            &&& forall|k: int|
                                0 <= k < i ==> is_completed(log, (#[trigger] chunks[k]).chunk_id)
                            &&& forall|k: int|
                                0 <= k < chunks.len() ==> is_touched(
                                    log,
                                    (#[trigger] chunks[k]).chunk_id,
                                )
                        }
                    }
                },
            claim::Pick::NoneUntouched => !include_claimed && forall|k: int|
                0 <= k < chunks.len() ==> is_touched(log, (#[trigger] chunks[k]).chunk_id),
            claim::Pick::AllCompleted => include_claimed && forall|k: int|
                0 <= k < chunks.len() ==> is_completed(log, (#[trigger] chunks[k]).chunk_id),
            claim::Pick::Unknown(_) => false,
        },
{
    let statuses = events::folded(chunks, log);
    let pick = claimed_chunk(chunks, log, None, include_claimed);
    claim::law_first_open_chunk_is_claimed(chunks, statuses, include_claimed);
    assert forall|k: int| 0 <= k < chunks.len() implies {
        &&& claim::untouched()((#[trigger] statuses[k]).state) == !is_touched(
            log,
            chunks[k].chunk_id,
        )
        &&& claim::unfinished()(statuses[k].state) == !is_completed(log, chunks[k].chunk_id)
        &&& statuses[k].chunk_id == chunks[k].chunk_id
    } by {
        lemma_folded_state(chunks, log, k);
    }
    match pick {
        claim::Pick::Chunk(id) => {
            if claim::is_first_in(id, statuses, claim::untouched()) {
                let i = choose|i: int|
                    #[trigger] claim::is_first_at(i, id, statuses, claim::untouched());
                assert forall|k: int| 0 <= k < i implies is_touched(
                    log,
                    (#[trigger] chunks[k]).chunk_id,
                ) by {
                    assert(!claim::untouched()(statuses[k].state));
                }
                assert(chunks[i].chunk_id == id);
            } else {
                let i = choose|i: int|
                    #[trigger] claim::is_first_at(i, id, statuses, claim::unfinished());
                assert forall|k: int| 0 <= k < i implies is_completed(
                    log,
                    (#[trigger] chunks[k]).chunk_id,
                ) by {
                    assert(!claim::unfinished()(statuses[k].state));
                }
                assert forall|k: int| 0 <= k < chunks.len() implies is_touched(
                    log,
                    (#[trigger] chunks[k]).chunk_id,
                ) by {
                    assert(!claim::untouched()(statuses[k].state));
                }
                assert(chunks[i].chunk_id == id);
            }
        },
        claim::Pick::NoneUntouched => {
            assert forall|k: int| 0 <= k < chunks.len() implies is_touched(
                log,
                (#[trigger] chunks[k]).chunk_id,
            ) by {
                assert(!claim::untouched()(statuses[k].state));
            }
        },
        claim::Pick::AllCompleted => {
            assert forall|k: int| 0 <= k < chunks.len() implies is_completed(
                log,
                (#[trigger] chunks[k]).chunk_id,
            ) by {
                assert(!claim::unfinished()(statuses[k].state));
            }
        },
        claim::Pick::Unknown(_) => {},
    }
}

/// A claim of a chunk by its id takes that chunk, whatever the log says, and is refused
/// only if the plan does not have it.
pub proof fn law_claim_by_id_takes_that_chunk(
    chunks: Seq<plan::ChunkView>,
    log: Seq<ChunkEvent>,
    id: Seq<char>,
    include_claimed: bool,
)
    ensures
        claimed_chunk(chunks, log, Some(id), include_claimed) == (if exists|i: int|
            0 <= i < chunks.len() && (#[trigger] chunks[i]).chunk_id == id {
            claim::Pick::Chunk(id)
        } else {
            claim::Pick::Unknown(id)
        }),
{
    claim::law_named_chunk_is_claimed(
        chunks,
        events::folded(chunks, log),
        id,
        include_claimed,
    );
}

/// The message of a refused claim.
pub open spec fn refusal(plan_id: Seq<char>, pick: claim::Pick) -> Seq<char> {
    match pick {
        claim::Pick::Unknown(id) => "backfill plan "@ + plan_id + " has no chunk "@ + id,
        claim::Pick::AllCompleted => "every chunk is already completed in backfill plan "@
            + plan_id,
        _ => "no untouched chunks remain in backfill plan "@ + plan_id,
    }
}

/// A refused claim says which plan it was of and why: there is no such chunk, all are
/// completed, or none is untouched.
pub proof fn law_refusal_names_plan_and_reason(plan_id: Seq<char>, id: Seq<char>)
    ensures
        refusal(plan_id, claim::Pick::Unknown(id)) == "backfill plan "@ + plan_id
            + " has no chunk "@ + id,
        refusal(plan_id, claim::Pick::AllCompleted)
            == "every chunk is already completed in backfill plan "@ + plan_id,
        refusal(plan_id, claim::Pick::NoneUntouched)
            == "no untouched chunks remain in backfill plan "@ + plan_id,
{
}

/// A claim of one chunk in progress.
pub struct ClaimRun {
    plan_id: String,
    chunk_id: String,
    targets: Vec<String>,
    estimated_files: u64,
    estimated_bytes: u64,
    done: usize,
    committed: u64,
    files: u64,
    bytes: u64,
}

impl ClaimRun {
    pub closed spec fn wf(self) -> bool {
        self.done <= self.targets@.len()
    }

    pub closed spec fn plan_id(self) -> Seq<char> {
        self.plan_id@
    }

    /// The chunk that was claimed.
    pub closed spec fn chunk_id(self) -> Seq<char> {
        self.chunk_id@
    }

    /// The paths that the chunk stands for.
    pub closed spec fn targets(self) -> Seq<Seq<char>> {
        text::views(self.targets@)
    }

    /// The audio files and bytes that were estimated.
    pub closed spec fn estimate(self) -> (u64, u64) {
        (self.estimated_files, self.estimated_bytes)
    }

    /// How many of the paths have been imported.
    pub closed spec fn done(self) -> nat {
        self.done as nat
    }

    /// The tracks committed so far, and the audio files and bytes found.
    pub closed spec fn tally(self) -> (u64, u64, u64) {
        (self.committed, self.files, self.bytes)
    }

    /// Claims a chunk of a plan, given the events that are known. `loose` are the
    /// loose audio files of the library root. A refusal records nothing.
    pub fn begin(
        plan: &BackfillPlan,
        log: &[ChunkEvent],
        explicit: Option<&str>,
        include_claimed: bool,
        loose: &[String],
    ) -> (r: Result<ClaimRun, Error>)
        ensures
            match claimed_chunk(
                plan::chunk_views(plan.chunks@),
                log@,
                match explicit {
                    Some(id) => Some(id@),
                    None => None,
                },
                include_claimed,
            ) {
                claim::Pick::Chunk(id) => {
                    let chunks = plan::chunk_views(plan.chunks@);
                    let c = chunks[chunk_with_id(chunks, id)];
                    &&& claim::has_chunk(chunks, id)
                    &&& c.chunk_id == id
                    &&& r matches Ok(run)
                    &&& run.wf()
                    &&& run.plan_id() == plan.plan_id@
                    &&& run.chunk_id() == id
                    &&& run.targets() == claim::folder_targets(plan.library_root@, c.folders) + (
                    if c.includes_root_files {
                        text::views(loose@)
                    } else {
                        Seq::empty()
                    })
                    &&& (run.estimate().0 as int, run.estimate().1 as int) == (
                        c.estimate.audio_files,
                        c.estimate.audio_bytes,
                    )
                    &&& run.done() == 0
                    &&& run.tally() == (0u64, 0u64, 0u64)
                },
                pick => r matches Err(Error::Other(m)) && m@ == refusal(plan.plan_id@, pick),
            },
    {
        let ghost chunks = plan::chunk_views(plan.chunks@);
        let statuses = events::fold_chunk_status(plan, log);
        let picked = claim::pick_next_chunk(plan, &statuses, explicit, include_claimed);
        match picked {
            Ok(id) => {
                proof {
                    if explicit is None {
                        lemma_pick_is_in_plan(chunks, events::folded(chunks, log@), id@);
                    }
                    lemma_chunk_with_id(chunks, id@);
                }
                match find_chunk(&plan.chunks, id.as_str()) {
                    Some(i) => {
                        let chunk: &PlanChunk = &plan.chunks[i];
                        let targets = claim::resolve_chunk_targets(
                            plan.library_root.as_str(),
                            chunk,
                            loose,
                        );
                        Ok(
                            ClaimRun {
                                plan_id: plan.plan_id.clone(),
                                chunk_id: id,
                                targets,
                                estimated_files: chunk.estimated_audio_file_count,
                                estimated_bytes: chunk.estimated_audio_bytes,
                                done: 0,
                                committed: 0,
                                files: 0,
                                bytes: 0,
                            },
                        )
                    },
                    None => {
                        let e = PickNextError::UnknownChunkId(id);
                        Err(Error::Other(claim::refusal_message(plan.plan_id.as_str(), &e)))
                    },
                }
            },
            Err(e) => Err(Error::Other(claim::refusal_message(plan.plan_id.as_str(), &e))),
        }
    }

    /// The next path to import; `None` if all have been.
    pub fn next_target(&self) -> (r: Option<String>)
        requires
            self.wf(),
        ensures
            self.done() < self.targets().len() ==> text::opt_view(r) == Some(
                self.targets()[self.done() as int],
            ),
            self.done() >= self.targets().len() ==> r is None,
    {
        if self.done < self.targets.len() {
            Some(self.targets[self.done].clone())
        } else {
            None
        }
    }

    /// Enters the import of the next path: the tracks it committed, and the audio
    /// files and bytes that were found there.
    pub fn imported(&mut self, committed: u64, files: u64, bytes: u64)
        requires
            old(self).wf(),
            old(self).done() < old(self).targets().len(),
            old(self).tally().0 + committed <= u64::MAX,
            old(self).tally().1 + files <= u64::MAX,
            old(self).tally().2 + bytes <= u64::MAX,
        ensures
            final(self).wf(),
            final(self).plan_id() == old(self).plan_id(),
            final(self).chunk_id() == old(self).chunk_id(),
            final(self).targets() == old(self).targets(),
            final(self).estimate() == old(self).estimate(),
            final(self).done() == old(self).done() + 1,
            final(self).tally().0 == old(self).tally().0 + committed,
            final(self).tally().1 == old(self).tally().1 + files,
            final(self).tally().2 == old(self).tally().2 + bytes,
    {
        let n: usize = self.targets.len();
        assert(self.done < n);
        self.done = self.done + 1;
        self.committed = self.committed + committed;
        self.files = self.files + files;
        self.bytes = self.bytes + bytes;
    }

    /// The event that records the claim.
    pub fn claim_event(&self, event_id: &str, by: &str, at: &str) -> (r: ChunkEvent)
        ensures
            is_event(r, event_id@, self.chunk_id(), ChunkEventKind::Claimed, by@, at@),
    {
        ChunkEvent {
            event_id: event_id.to_owned(),
            chunk_id: self.chunk_id.clone(),
            kind: ChunkEventKind::Claimed,
            by: by.to_owned(),
            at: at.to_owned(),
        }
    }

    /// The event that records the completion. There is none before every path has
    /// been imported.
    pub fn completion_event(&self, event_id: &str, by: &str, at: &str) -> (r: Option<ChunkEvent>)
        requires
            self.wf(),
        ensures
            r is Some <==> self.done() == self.targets().len(),
            r matches Some(e) ==> is_event(
                e,
                event_id@,
                self.chunk_id(),
                ChunkEventKind::Completed,
                by@,
                at@,
            ),
    {
        if self.done < self.targets.len() {
            return None;
        }
        Some(
            ChunkEvent {
                event_id: event_id.to_owned(),
                chunk_id: self.chunk_id.clone(),
                kind: ChunkEventKind::Completed,
                by: by.to_owned(),
                at: at.to_owned(),
            },
        )
    }

    /// The outcome of the claim. A mismatch with the estimate is a hint and
    /// changes nothing else.
    pub fn report(&self) -> (r: ClaimReport)
        ensures
            r.plan_id@ == self.plan_id(),
            r.chunk_id@ == self.chunk_id(),
            text::views(r.targets@) == self.targets(),
            r.tracks_committed == self.tally().0,
            r.stat_check.estimated_audio_file_count == self.estimate().0,
            r.stat_check.estimated_audio_bytes == self.estimate().1,
            r.stat_check.actual_audio_file_count == self.tally().1,
            r.stat_check.actual_audio_bytes == self.tally().2,
            r.stat_check.mismatch == (sanity::differs(
                self.estimate().0 as int,
                self.tally().1 as int,
            ) || sanity::differs(self.estimate().1 as int, self.tally().2 as int)),
    {
        ClaimReport {
            plan_id: self.plan_id.clone(),
            chunk_id: self.chunk_id.clone(),
            targets: text::copy_texts(&self.targets),
            tracks_committed: self.committed,
            stat_check: sanity::check_chunk_stats(
                self.estimated_files,
                self.estimated_bytes,
                self.files,
                self.bytes,
            ),
        }
    }
}

/// Whether an event says this.
pub open spec fn is_event(
    e: ChunkEvent,
    event_id: Seq<char>,
    chunk_id: Seq<char>,
    kind: ChunkEventKind,
    by: Seq<char>,
    at: Seq<char>,
) -> bool {
    &&& e.event_id@ == event_id
    &&& e.chunk_id@ == chunk_id
    &&& e.kind == kind
    &&& e.by@ == by
    &&& e.at@ == at
}

/// An event says which chunk it is of, what happened to it, by whom and when.
pub proof fn law_event_says_who_did_what(
    e: ChunkEvent,
    event_id: Seq<char>,
    chunk_id: Seq<char>,
    kind: ChunkEventKind,
    by: Seq<char>,
    at: Seq<char>,
)
    requires
        is_event(e, event_id, chunk_id, kind, by, at),
    ensures
        events::concerns(e, chunk_id, kind),
        forall|log: Seq<ChunkEvent>|
            kind is Completed ==> events::status_of(
                chunk_id,
                #[trigger] log.push(e),
            ).state is Completed,
        forall|log: Seq<ChunkEvent>|
            !(events::status_of(chunk_id, #[trigger] log.push(e)).state is Untouched),
        e.event_id@ == event_id && e.by@ == by && e.at@ == at,
{
    assert forall|log: Seq<ChunkEvent>| kind is Completed implies events::status_of(
        chunk_id,
        #[trigger] log.push(e),
    ).state is Completed by {
        events::law_state_settled_by_events(chunk_id, log.push(e));
        assert(log.push(e)[log.len() as int] == e);
        assert(log.push(e).contains(e));
    }
    assert forall|log: Seq<ChunkEvent>| !(events::status_of(
        chunk_id,
        #[trigger] log.push(e),
    ).state is Untouched) by {
        events::law_state_settled_by_events(chunk_id, log.push(e));
        assert(log.push(e)[log.len() as int] == e);
        assert(log.push(e).contains(e));
    }
}

/// A chunk that was claimed by default and completed is never claimed by default
/// again.
pub proof fn law_completed_chunk_is_left_alone(
    chunks: Seq<plan::ChunkView>,
    log: Seq<ChunkEvent>,
    e: ChunkEvent,
    id: Seq<char>,
)
    requires
        log.contains(e),
        e.chunk_id@ == id,
        e.kind == ChunkEventKind::Completed,
    ensures
        claimed_chunk(chunks, log, None, false) != claim::Pick::Chunk(id),
{
    if claimed_chunk(chunks, log, None, false) == claim::Pick::Chunk(id) {
        claim::law_default_claim_never_steals(chunks, log, id);
    }
}

} // verus!

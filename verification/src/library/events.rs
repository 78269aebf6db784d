//! The append-only event log of chunk progress.
//!
//! Each event is an object of its own, written once under a key of its own.
//! Any machine reconstructs the current status by folding the log of a plan.
//! Claiming is not exclusive: the log records what happened and prevents
//! nothing.

use vstd::prelude::*;

use crate::library::plan;
use crate::library::plan::BackfillPlan;
use crate::selection;
use crate::sort;
use crate::text;

verus! {

/// What an event records happening to a chunk.
#[derive(Debug, Clone, Copy, PartialEq, Eq, Structural)]
pub enum ChunkEventKind {
    /// A machine started working on the chunk. Not a lock.
    Claimed,
    /// The import of the chunk finished.
    Completed,
}

/// One event of one chunk of one plan.
#[derive(Debug, Clone, PartialEq, Eq)]
pub struct ChunkEvent {
    /// Unique within the log of the plan.
    pub event_id: String,
    pub chunk_id: String,
    pub kind: ChunkEventKind,
    /// Who recorded the event. Informational.
    pub by: String,
    /// When it was recorded, as RFC 3339 text.
    pub at: String,
}

impl ChunkEvent {
    /// The same event again.
    pub fn copy(&self) -> (r: ChunkEvent)
        ensures
            r == *self,
    {
        ChunkEvent {
            event_id: self.event_id.clone(),
            chunk_id: self.chunk_id.clone(),
            kind: self.kind,
            by: self.by.clone(),
            at: self.at.clone(),
        }
    }
}

/// How far a chunk has got.
#[derive(Debug, Clone, Copy, PartialEq, Eq, Structural)]
pub enum ChunkState {
    Untouched,
    Claimed,
    Completed,
}

/// The current status of a chunk, as of the events that were read.
#[derive(Debug, Clone, PartialEq, Eq)]
pub struct ChunkStatus {
    pub chunk_id: String,
    pub state: ChunkState,
    /// Every claim of this chunk, oldest first.
    pub claims: Vec<ChunkEvent>,
    /// Every completion of this chunk, oldest first.
    pub completions: Vec<ChunkEvent>,
}

/// A status, as the contracts speak of it.
pub struct StatusView {
    pub chunk_id: Seq<char>,
    pub state: ChunkState,
    pub claims: Seq<ChunkEvent>,
    pub completions: Seq<ChunkEvent>,
}

impl View for ChunkStatus {
    type V = StatusView;

    open spec fn view(&self) -> StatusView {
        StatusView {
            chunk_id: self.chunk_id@,
            state: self.state,
            claims: self.claims@,
            completions: self.completions@,
        }
    }
}

/// The statuses that a list holds.
pub open spec fn status_views(list: Seq<ChunkStatus>) -> Seq<StatusView> {
    list.map_values(|s: ChunkStatus| s@)
}

/// What the contracts say of a status they say of its fields, each under its own name.
pub proof fn law_chunk_status_is_seen_field_by_field(list: Seq<ChunkStatus>, i: int)
    requires
        0 <= i < list.len(),
    ensures
        status_views(list).len() == list.len(),
        status_views(list)[i].chunk_id == list[i].chunk_id@,
        status_views(list)[i].state == list[i].state,
        status_views(list)[i].claims == list[i].claims@,
        status_views(list)[i].completions == list[i].completions@,
{
}

/// Whether an event is of the given chunk and kind.
pub open spec fn concerns(e: ChunkEvent, chunk_id: Seq<char>, kind: ChunkEventKind) -> bool {
    e.chunk_id@ == chunk_id && e.kind == kind
}

/// The events of one chunk and one kind, in the order of the log.
pub open spec fn selected(events: Seq<ChunkEvent>, chunk_id: Seq<char>, kind: ChunkEventKind) -> Seq<
    ChunkEvent,
>
    decreases events.len(),
{
    if events.len() == 0 {
        Seq::empty()
    } else {
        let front = selected(events.drop_last(), chunk_id, kind);
        if concerns(events.last(), chunk_id, kind) {
            front.push(events.last())
        } else {
            front
        }
    }
}

/// The times of events.
pub open spec fn times(events: Seq<ChunkEvent>) -> Seq<Seq<char>> {
    events.map_values(|e: ChunkEvent| e.at@)
}

/// Events with the oldest first. Those of the same time stay in the order of
/// the log.
pub open spec fn oldest_first(events: Seq<ChunkEvent>) -> Seq<ChunkEvent> {
    sort::arranged(events, sort::text_order(times(events)))
}

/// The status of one chunk.
pub open spec fn status_of(chunk_id: Seq<char>, events: Seq<ChunkEvent>) -> StatusView {
    let claims = oldest_first(selected(events, chunk_id, ChunkEventKind::Claimed));
    let completions = oldest_first(selected(events, chunk_id, ChunkEventKind::Completed));
    StatusView {
        chunk_id,
        state: if selected(events, chunk_id, ChunkEventKind::Completed).len() > 0 {
            ChunkState::Completed
        } else if selected(events, chunk_id, ChunkEventKind::Claimed).len() > 0 {
            ChunkState::Claimed
        } else {
            ChunkState::Untouched
        },
        claims,
        completions,
    }
}

/// The status of every chunk, in the order of the plan.
pub open spec fn folded(chunks: Seq<plan::ChunkView>, events: Seq<ChunkEvent>) -> Seq<StatusView> {
    Seq::new(chunks.len(), |i: int| status_of(chunks[i].chunk_id, events))
}

/// What is selected is what is in the log and concerns the chunk.
pub proof fn lemma_selected(events: Seq<ChunkEvent>, chunk_id: Seq<char>, kind: ChunkEventKind)
    ensures
        forall|e: ChunkEvent|
            selected(events, chunk_id, kind).contains(e) <==> events.contains(e) && concerns(
                e,
                chunk_id,
                kind,
            ),
    decreases events.len(),
{
    if events.len() > 0 {
        let front = events.drop_last();
        lemma_selected(front, chunk_id, kind);
        let all = selected(events, chunk_id, kind);
        let some = selected(front, chunk_id, kind);
        assert forall|e: ChunkEvent| all.contains(e) <==> events.contains(e) && concerns(
            e,
            chunk_id,
            kind,
        ) by {
            if all.contains(e) {
                let k = choose|k: int| 0 <= k < all.len() && all[k] == e;
                if k < some.len() {
                    assert(some[k] == e);
                    assert(front.contains(e));
                    let m = choose|m: int| 0 <= m < front.len() && front[m] == e;
                    assert(events[m] == e);
                } else {
                    assert(events[events.len() - 1] == e);
                }
            }
            if events.contains(e) && concerns(e, chunk_id, kind) {
                let m = choose|m: int| 0 <= m < events.len() && events[m] == e;
                if m < front.len() {
                    assert(front[m] == e);
                    assert(front.contains(e));
                    assert(some.contains(e));
                    let k = choose|k: int| 0 <= k < some.len() && some[k] == e;
                    assert(all[k] == e);
                } else {
                    assert(all[all.len() - 1] == e);
                }
            }
        }
    }
}

/// The state of a chunk is settled by which events there are: completed if
/// any completion of it is in the log, else claimed if any claim of it is,
/// else untouched. Neither the order of the log nor the times matter, and
/// events of other chunks do not either.
pub proof fn law_state_settled_by_events(chunk_id: Seq<char>, events: Seq<ChunkEvent>)
    ensures
        status_of(chunk_id, events).state == ChunkState::Completed <==> exists|e: ChunkEvent|
            #[trigger] events.contains(e) && concerns(e, chunk_id, ChunkEventKind::Completed),
        status_of(chunk_id, events).state == ChunkState::Untouched <==> forall|e: ChunkEvent|
            #[trigger] events.contains(e) ==> e.chunk_id@ != chunk_id,
{
    lemma_selected(events, chunk_id, ChunkEventKind::Completed);
    lemma_selected(events, chunk_id, ChunkEventKind::Claimed);
    let done = selected(events, chunk_id, ChunkEventKind::Completed);
    let claimed = selected(events, chunk_id, ChunkEventKind::Claimed);
    if done.len() > 0 {
        assert(done.contains(done[0]));
        assert(events.contains(done[0]));
    }
    if claimed.len() > 0 {
        assert(claimed.contains(claimed[0]));
        assert(events.contains(claimed[0]));
    }
    assert forall|e: ChunkEvent| #[trigger] events.contains(e) && e.chunk_id@ == chunk_id implies
        done.len() > 0 || claimed.len() > 0 by {
        match e.kind {
            ChunkEventKind::Completed => {
                assert(concerns(e, chunk_id, ChunkEventKind::Completed));
                assert(done.contains(e));
            },
            ChunkEventKind::Claimed => {
                assert(concerns(e, chunk_id, ChunkEventKind::Claimed));
                assert(claimed.contains(e));
            },
        }
    }
    assert forall|e: ChunkEvent| #[trigger] events.contains(e) && concerns(
        e,
        chunk_id,
        ChunkEventKind::Completed,
    ) implies done.len() > 0 by {
        assert(done.contains(e));
    }
}

/// Two logs with the same events in any order give every chunk the same state.
pub proof fn law_state_ignores_event_order(
    chunk_id: Seq<char>,
    a: Seq<ChunkEvent>,
    b: Seq<ChunkEvent>,
)
    requires
        forall|e: ChunkEvent|
            #![trigger a.contains(e)]
            #![trigger b.contains(e)]
            a.contains(e) <==> b.contains(e),
    ensures
        status_of(chunk_id, a).state == status_of(chunk_id, b).state,
{
    law_state_settled_by_events(chunk_id, a);
    law_state_settled_by_events(chunk_id, b);
    let finished_a = exists|e: ChunkEvent|
        #[trigger] a.contains(e) && concerns(e, chunk_id, ChunkEventKind::Completed);
    let finished_b = exists|e: ChunkEvent|
        #[trigger] b.contains(e) && concerns(e, chunk_id, ChunkEventKind::Completed);
    if finished_a {
        let e = choose|e: ChunkEvent|
            #[trigger] a.contains(e) && concerns(e, chunk_id, ChunkEventKind::Completed);
        assert(b.contains(e));
    }
    if finished_b {
        let e = choose|e: ChunkEvent|
            #[trigger] b.contains(e) && concerns(e, chunk_id, ChunkEventKind::Completed);
        assert(a.contains(e));
    }
}

/// Whether no event is older than one that stands in front of it.
pub open spec fn is_by_age(events: Seq<ChunkEvent>) -> bool {
    forall|a: int, b: int|
        0 <= a < b < events.len() ==> sort::text_at_most(
            (#[trigger] events[a]).at@,
            (#[trigger] events[b]).at@,
        )
}

/// Sorting by age puts the oldest event first and keeps every event: nothing is
/// dropped or merged, however many machines claimed or completed the chunk.
pub proof fn law_status_keeps_every_event(events: Seq<ChunkEvent>)
    requires
        events.len() <= usize::MAX,
    ensures
        sort::is_text_order(times(events), sort::text_order(times(events))),
        oldest_first(events).len() == events.len(),
        is_by_age(oldest_first(events)),
        forall|e: ChunkEvent| #[trigger] oldest_first(events).contains(e) <==> events.contains(e),
{
    sort::law_texts_have_an_order(times(events));
    let order = sort::text_order(times(events));
    let sorted = oldest_first(events);
    assert forall|a: int, b: int| 0 <= a < b < sorted.len() implies sort::text_at_most(
        (#[trigger] sorted[a]).at@,
        (#[trigger] sorted[b]).at@,
    ) by {
        assert(sort::text_before(times(events), order[a] as int, order[b] as int));
    }
    assert forall|e: ChunkEvent| #[trigger] sorted.contains(e) <==> events.contains(e) by {
        if sorted.contains(e) {
            let k = choose|k: int| 0 <= k < sorted.len() && sorted[k] == e;
            assert(order[k] < times(events).len());
            assert(events[order[k] as int] == e);
        }
        if events.contains(e) {
            let m = choose|m: int| 0 <= m < events.len() && events[m] == e;
            assert(sort::lists(order, m));
            let k = choose|k: int| 0 <= k < order.len() && #[trigger] order[k] == m;
            assert(sorted[k] == e);
        }
    }
}

proof fn lemma_selection_of(events: Seq<ChunkEvent>, chunk_id: Seq<char>, kind: ChunkEventKind)
    ensures
        selection::is_selection(
            selected(events, chunk_id, kind),
            events.len() as int,
            of_kind(events, chunk_id, kind),
            event_at(events),
        ),
        selected(events, chunk_id, kind).len() <= events.len(),
    decreases events.len(),
{
    if events.len() == 0 {
        selection::lemma_selection_empty(of_kind(events, chunk_id, kind), event_at(events));
    } else {
        let front = events.drop_last();
        lemma_selection_of(front, chunk_id, kind);
        selection::lemma_selection_grows(
            selected(front, chunk_id, kind),
            front.len() as int,
            of_kind(front, chunk_id, kind),
            event_at(front),
            selected(events, chunk_id, kind),
            of_kind(events, chunk_id, kind),
            event_at(events),
        );
    }
}

/// Which events are of a chunk and a kind.
pub open spec fn of_kind(
    events: Seq<ChunkEvent>,
    chunk_id: Seq<char>,
    kind: ChunkEventKind,
) -> spec_fn(int) -> bool {
    |i: int| events[i].chunk_id@ == chunk_id && events[i].kind == kind
}

/// The event at each place.
pub open spec fn event_at(events: Seq<ChunkEvent>) -> spec_fn(int) -> ChunkEvent {
    |i: int| events[i]
}

/// Whether a list holds the events of a chunk and a kind, each as often as the log
/// has it, the oldest first.
pub open spec fn is_history(
    list: Seq<ChunkEvent>,
    events: Seq<ChunkEvent>,
    chunk_id: Seq<char>,
    kind: ChunkEventKind,
) -> bool {
    &&& is_by_age(list)
    &&& exists|found: Seq<ChunkEvent>|
        {
            &&& #[trigger] selection::is_selection(
                found,
                events.len() as int,
                of_kind(events, chunk_id, kind),
                event_at(events),
            )
            &&& found.len() == list.len()
            &&& forall|e: ChunkEvent| #[trigger] list.contains(e) <==> found.contains(e)
        }
}

/// The status of a chunk lists the claims and the completions that the log has of
/// it, each under its own heading, the oldest first, and nothing of another chunk.
pub proof fn law_status_lists_the_events_of_its_chunk(
    chunks: Seq<plan::ChunkView>,
    events: Seq<ChunkEvent>,
    i: int,
)
    requires
        events.len() <= usize::MAX,
        0 <= i < chunks.len(),
    ensures
        folded(chunks, events).len() == chunks.len(),
        folded(chunks, events)[i].chunk_id == chunks[i].chunk_id,
        is_history(
            folded(chunks, events)[i].claims,
            events,
            chunks[i].chunk_id,
            ChunkEventKind::Claimed,
        ),
        is_history(
            folded(chunks, events)[i].completions,
            events,
            chunks[i].chunk_id,
            ChunkEventKind::Completed,
        ),
        folded(chunks, events)[i].state == (if folded(chunks, events)[i].completions.len() > 0 {
            ChunkState::Completed
        } else if folded(chunks, events)[i].claims.len() > 0 {
            ChunkState::Claimed
        } else {
            ChunkState::Untouched
        }),
{
    let id = chunks[i].chunk_id;
    let claims = selected(events, id, ChunkEventKind::Claimed);
    let completions = selected(events, id, ChunkEventKind::Completed);
    lemma_selection_of(events, id, ChunkEventKind::Claimed);
    lemma_selection_of(events, id, ChunkEventKind::Completed);
    law_status_keeps_every_event(claims);
    law_status_keeps_every_event(completions);
    assert(is_history(oldest_first(claims), events, id, ChunkEventKind::Claimed));
    assert(is_history(oldest_first(completions), events, id, ChunkEventKind::Completed));
}

/// The events of one chunk and one kind.
fn select(events: &[ChunkEvent], chunk_id: &str, kind: ChunkEventKind) -> (r: Vec<ChunkEvent>)
    ensures
        r@ == selected(events@, chunk_id@, kind),
{
    let mut r: Vec<ChunkEvent> = Vec::new();
    let mut i: usize = 0;
    proof {
        assert(events@.take(0) =~= Seq::<ChunkEvent>::empty());
    }
    while i < events.len()
        invariant
            i <= events@.len(),
            r@ == selected(events@.take(i as int), chunk_id@, kind),
        decreases events@.len() - i,
    {
        let e: &ChunkEvent = &events[i];
        proof {
            assert(events@.take(i + 1).drop_last() =~= events@.take(i as int));
        }
        if e.kind == kind && text::same(e.chunk_id.as_str(), chunk_id) {
            r.push(e.copy());
        }
        i = i + 1;
    }
    proof {
        assert(events@.take(events@.len() as int) =~= events@);
    }
    r
}

/// Events with the oldest first.
fn sort_by_at(events: &Vec<ChunkEvent>) -> (r: Vec<ChunkEvent>)
    ensures
        r@ == oldest_first(events@),
        r@.len() == events@.len(),
        is_by_age(r@),
{
    let mut at: Vec<String> = Vec::new();
    let mut i: usize = 0;
    while i < events.len()
        invariant
            i <= events@.len(),
            at@.len() == i,
            forall|k: int| 0 <= k < i ==> at@[k]@ == events@[k].at@,
        decreases events@.len() - i,
    {
        at.push(events[i].at.clone());
        i = i + 1;
    }
    proof {
        assert(text::views(at@) =~= times(events@));
    }
    let order = sort::order_texts(&at);
    let mut r: Vec<ChunkEvent> = Vec::new();
    let mut j: usize = 0;
    while j < order.len()
        invariant
            j <= order@.len(),
            r@.len() == j,
            forall|a: int| 0 <= a < order@.len() ==> #[trigger] order@[a] < events@.len(),
            forall|a: int| 0 <= a < j ==> r@[a] == events@[order@[a] as int],
        decreases order@.len() - j,
    {
        r.push(events[order[j]].copy());
        j = j + 1;
    }
    proof {
        assert(r@ =~= oldest_first(events@));
        law_status_keeps_every_event(events@);
    }
    r
}

/// Folds the event log of a plan into the status of each chunk, in the order
/// of the plan, with the oldest events first. Events of chunks that are not in the
/// plan are left out.
pub fn fold_chunk_status(plan: &BackfillPlan, events: &[ChunkEvent]) -> (r: Vec<ChunkStatus>)
    ensures
        status_views(r@) == folded(plan::chunk_views(plan.chunks@), events@),
        forall|i: int|
            0 <= i < r@.len() ==> is_by_age((#[trigger] r@[i]).claims@) && is_by_age(
                r@[i].completions@,
            ),
{
    let mut r: Vec<ChunkStatus> = Vec::new();
    let mut i: usize = 0;
    while i < plan.chunks.len()
        invariant
            i <= plan.chunks@.len(),
            r@.len() == i,
            forall|k: int|
                0 <= k < i ==> (#[trigger] r@[k])@ == status_of(plan.chunks@[k].chunk_id@, events@),
            forall|k: int|
                0 <= k < i ==> is_by_age((#[trigger] r@[k]).claims@) && is_by_age(
                    r@[k].completions@,
                ),
        decreases plan.chunks@.len() - i,
    {
        let id: &String = &plan.chunks[i].chunk_id;
        let claimed = select(events, id.as_str(), ChunkEventKind::Claimed);
        let completed = select(events, id.as_str(), ChunkEventKind::Completed);
        let claims = sort_by_at(&claimed);
        let completions = sort_by_at(&completed);
        let state = if completions.len() > 0 {
            ChunkState::Completed
        } else if claims.len() > 0 {
            ChunkState::Claimed
        } else {
            ChunkState::Untouched
        };
        r.push(ChunkStatus { chunk_id: id.clone(), state, claims, completions });
        i = i + 1;
    }
    proof {
        assert(status_views(r@) =~= folded(plan::chunk_views(plan.chunks@), events@));
    }
    r
}

} // verus!

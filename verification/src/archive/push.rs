//! Publishing the local index as the next generation of the canonical one.
//!
//! A push reads the marker, merges the generation it names into the local
//! cache, writes the merged index under the key of the next generation (only
//! if nobody has), and then advances the marker (only if it has not changed
//! since it was read). Losing either race starts over from a fresh read.

use vstd::prelude::*;

use crate::archive::index;
use crate::archive::index::BucketPaths;
use crate::error::Error;
use crate::text;

verus! {

/// How often a push starts over before it gives up.
pub const MAX_RETRIES: u32 = 10;

/// How far a push has got.
#[derive(Debug, Clone, PartialEq, Eq)]
pub enum PushState {
    /// The marker's metadata is to be read.
    Head { attempt: u32 },
    /// The marker's generation is to be read.
    Generation { attempt: u32, etag: Option<String> },
    /// The generation of the marker is to be merged into the cache.
    Merge { attempt: u32, remote: u64, etag: Option<String> },
    /// The cache is to be written as generation `next`.
    Claim { attempt: u32, next: u64, etag: Option<String> },
    /// The marker is to be advanced to `next`.
    Advance { attempt: u32, next: u64, etag: Option<String> },
    /// The cache is generation `generation`.
    Done { generation: u64 },
    /// Every attempt lost a race.
    GaveUp,
}

/// What was found out or done since the last step.
#[derive(Debug, Clone, PartialEq, Eq)]
pub enum PushEvent {
    /// There is no marker yet.
    NoMarker,
    /// There is a marker, with this etag.
    MarkerSeen { etag: Option<String> },
    /// The marker names `remote`, and the cache was last brought up to `local`.
    GenerationRead { remote: u64, local: Option<u64> },
    /// The generation has been merged into the cache.
    Merged,
    /// The conditional write succeeded.
    Written,
    /// The conditional write was refused.
    Refused,
}

/// What has to be done next.
#[derive(Debug, Clone, PartialEq, Eq)]
pub enum PushAction {
    /// Read the metadata of the object under `key`.
    ReadHead { key: String },
    /// Read and parse the marker under `key`.
    ReadMarker { key: String },
    /// Read the index under `key` and add its entries to the cache, deleting
    /// nothing.
    MergeIndex { key: String },
    /// Write the cache under `key`, only if there is no such object yet.
    CreateIndex { key: String },
    /// Write a marker for `generation` under `key`, only if the object there
    /// still has the given etag.
    AdvanceMarker { key: String, generation: u64, etag: Option<String> },
    /// Note in the cache that it is generation `generation`.
    Finish { generation: u64 },
    /// Report the error.
    Fail { error: Error },
}

/// How far a push has got, as the contracts speak of it.
pub enum PushPhase {
    Head { attempt: nat },
    Generation { attempt: nat, etag: Option<Seq<char>> },
    Merge { attempt: nat, remote: nat, etag: Option<Seq<char>> },
    Claim { attempt: nat, next: nat, etag: Option<Seq<char>> },
    Advance { attempt: nat, next: nat, etag: Option<Seq<char>> },
    Done { generation: nat },
    GaveUp,
}

impl View for PushState {
    type V = PushPhase;

    open spec fn view(&self) -> PushPhase {
        match *self {
            PushState::Head { attempt } => PushPhase::Head { attempt: attempt as nat },
            PushState::Generation { attempt, etag } => PushPhase::Generation {
                attempt: attempt as nat,
                etag: text::opt_view(etag),
            },
            PushState::Merge { attempt, remote, etag } => PushPhase::Merge {
                attempt: attempt as nat,
                remote: remote as nat,
                etag: text::opt_view(etag),
            },
            PushState::Claim { attempt, next, etag } => PushPhase::Claim {
                attempt: attempt as nat,
                next: next as nat,
                etag: text::opt_view(etag),
            },
            PushState::Advance { attempt, next, etag } => PushPhase::Advance {
                attempt: attempt as nat,
                next: next as nat,
                etag: text::opt_view(etag),
            },
            PushState::Done { generation } => PushPhase::Done { generation: generation as nat },
            PushState::GaveUp => PushPhase::GaveUp,
        }
    }
}

/// An event, as the contracts speak of it.
pub enum Event {
    NoMarker,
    MarkerSeen { etag: Option<Seq<char>> },
    GenerationRead { remote: nat, local: Option<nat> },
    Merged,
    Written,
    Refused,
}

impl View for PushEvent {
    type V = Event;

    open spec fn view(&self) -> Event {
        match *self {
            PushEvent::NoMarker => Event::NoMarker,
            PushEvent::MarkerSeen { etag } => Event::MarkerSeen { etag: text::opt_view(etag) },
            PushEvent::GenerationRead { remote, local } => Event::GenerationRead {
                remote: remote as nat,
                local: match local {
                    Some(g) => Some(g as nat),
                    None => None,
                },
            },
            PushEvent::Merged => Event::Merged,
            PushEvent::Written => Event::Written,
            PushEvent::Refused => Event::Refused,
        }
    }
}

/// A fresh attempt, if one is left.
pub open spec fn retried(attempt: nat) -> PushPhase {
    if attempt + 1 < MAX_RETRIES {
        PushPhase::Head { attempt: attempt + 1 }
    } else {
        PushPhase::GaveUp
    }
}

/// Where an event leads. An event that does not belong to the phase leads
/// nowhere.
pub open spec fn next_phase(phase: PushPhase, event: Event) -> PushPhase {
    match (phase, event) {
        (PushPhase::Head { attempt }, Event::NoMarker) => PushPhase::Claim {
            attempt,
            next: 1,
            etag: None,
        },
        (PushPhase::Head { attempt }, Event::MarkerSeen { etag }) => PushPhase::Generation {
            attempt,
            etag,
        },
        (
            PushPhase::Generation { attempt, etag },
            Event::GenerationRead { remote, local },
        ) => if local == Some(remote) {
            PushPhase::Claim { attempt, next: remote + 1, etag }
        } else {
            PushPhase::Merge { attempt, remote, etag }
        },
        (PushPhase::Merge { attempt, remote, etag }, Event::Merged) => PushPhase::Claim {
            attempt,
            next: remote + 1,
            etag,
        },
        (PushPhase::Claim { attempt, next, etag }, Event::Written) => PushPhase::Advance {
            attempt,
            next,
            etag,
        },
        (PushPhase::Claim { attempt, .. }, Event::Refused) => retried(attempt),
        (PushPhase::Advance { next, .. }, Event::Written) => PushPhase::Done { generation: next },
        (PushPhase::Advance { attempt, .. }, Event::Refused) => retried(attempt),
        _ => phase,
    }
}

/// A push that loses a race starts over from the marker, ten times at most.
pub proof fn law_lost_race_is_tried_ten_times(
    attempt: nat,
    next: nat,
    etag: Option<Seq<char>>,
)
    ensures
        ({
            let after = if attempt < 9 {
                PushPhase::Head { attempt: attempt + 1 }
            } else {
                PushPhase::GaveUp
            };
            &&& next_phase(PushPhase::Claim { attempt, next, etag }, Event::Refused) == after
            &&& next_phase(PushPhase::Advance { attempt, next, etag }, Event::Refused) == after
        }),
{
}

/// A push builds on the generation that it has read: it writes the one after it, merges
/// first unless the cache was in step with it, and advances the marker from the state
/// in which it was read.
pub proof fn law_push_builds_on_what_it_read(
    attempt: nat,
    remote: nat,
    local: Option<nat>,
    etag: Option<Seq<char>>,
)
    ensures
        ({
            let seen = next_phase(PushPhase::Head { attempt }, Event::MarkerSeen { etag });
            let read = next_phase(seen, Event::GenerationRead { remote, local });
            let claim = if local == Some(remote) {
                read
            } else {
                next_phase(read, Event::Merged)
            };
            let advance = next_phase(claim, Event::Written);
            &&& local != Some(remote) ==> read == (PushPhase::Merge { attempt, remote, etag })
            &&& claim == (PushPhase::Claim { attempt, next: remote + 1, etag })
            &&& advance == (PushPhase::Advance { attempt, next: remote + 1, etag })
            &&& next_phase(advance, Event::Written) == (PushPhase::Done {
                generation: remote + 1,
            })
        }),
        ({
            let first = next_phase(PushPhase::Head { attempt }, Event::NoMarker);
            first == (PushPhase::Claim { attempt, next: 1, etag: None })
        }),
{
}

/// Whether an action is the one that a phase asks for.
pub open spec fn is_action_of(action: PushAction, phase: PushPhase, paths: BucketPaths) -> bool {
    match phase {
        PushPhase::Head { .. } => action matches PushAction::ReadHead { key } && key@
            == paths.marker_key(),
        PushPhase::Generation { .. } => action matches PushAction::ReadMarker { key } && key@
            == paths.marker_key(),
        PushPhase::Merge { remote, .. } => action matches PushAction::MergeIndex { key } && key@
            == paths.index_key(remote),
        PushPhase::Claim { next, .. } => action matches PushAction::CreateIndex { key } && key@
            == paths.index_key(next),
        PushPhase::Advance { next, etag, .. } => action matches PushAction::AdvanceMarker {
            key,
            generation,
            etag: expected,
        } && key@ == paths.marker_key() && generation == next && text::opt_view(expected) == etag,
        PushPhase::Done { generation } => action matches PushAction::Finish { generation: g } && g
            == generation,
        PushPhase::GaveUp => action matches PushAction::Fail { error } && (
        error matches Error::Store(m) && m@ == "push_index: exceeded 10 retries under contention"@),
    }
}

/// The phase in which a push starts.
pub fn push_start() -> (r: PushState)
    ensures
        r@ == (PushPhase::Head { attempt: 0 }),
{
    PushState::Head { attempt: 0 }
}

/// A fresh attempt, if one is left.
fn retry(attempt: u32) -> (r: PushState)
    ensures
        r@ == retried(attempt as nat),
{
    if attempt < MAX_RETRIES - 1 {
        PushState::Head { attempt: attempt + 1 }
    } else {
        PushState::GaveUp
    }
}

/// Takes an event into account.
pub fn push_next(state: PushState, event: PushEvent) -> (r: PushState)
    requires
        event matches PushEvent::GenerationRead { remote, .. } ==> remote < u64::MAX,
        state matches PushState::Merge { remote, .. } ==> remote < u64::MAX,
    ensures
        r@ == next_phase(state@, event@),
        r matches PushState::Merge { remote, .. } ==> remote < u64::MAX,
{
    match (state, event) {
        (PushState::Head { attempt }, PushEvent::NoMarker) => PushState::Claim {
            attempt,
            next: 1,
            etag: None,
        },
        (PushState::Head { attempt }, PushEvent::MarkerSeen { etag }) => PushState::Generation {
            attempt,
            etag,
        },
        (
            PushState::Generation { attempt, etag },
            PushEvent::GenerationRead { remote, local },
        ) => {
            let current: bool = match local {
                Some(g) => g == remote,
                None => false,
            };
            if current {
                PushState::Claim { attempt, next: remote + 1, etag }
            } else {
                PushState::Merge { attempt, remote, etag }
            }
        },
        (PushState::Merge { attempt, remote, etag }, PushEvent::Merged) => PushState::Claim {
            attempt,
            next: remote + 1,
            etag,
        },
        (PushState::Claim { attempt, next, etag }, PushEvent::Written) => PushState::Advance {
            attempt,
            next,
            etag,
        },
        (PushState::Claim { attempt, .. }, PushEvent::Refused) => retry(attempt),
        (PushState::Advance { next, .. }, PushEvent::Written) => PushState::Done {
            generation: next,
        },
        (PushState::Advance { attempt, .. }, PushEvent::Refused) => retry(attempt),
        (state, _) => state,
    }
}

/// What a push reads and writes: the marker where the marker stands, the index that it
/// merges and the one that it writes each under its own generation, and the marker only
/// as long as it is the one that was read.
pub proof fn law_push_touches_marker_and_own_index(
    action: PushAction,
    phase: PushPhase,
    paths: BucketPaths,
)
    requires
        is_action_of(action, phase, paths),
    ensures
        phase is Head ==> action is ReadHead && action->ReadHead_key@ == paths.prefix_text()
            + "/schema-version.json"@,
        phase is Generation ==> action is ReadMarker && action->ReadMarker_key@
            == paths.prefix_text() + "/schema-version.json"@,
        phase is Merge ==> action is MergeIndex && action->MergeIndex_key@ == paths.prefix_text()
            + "/archive-index/"@ + text::decimal(phase->Merge_remote) + ".jsonl"@,
        phase is Claim ==> action is CreateIndex && action->CreateIndex_key@
            == paths.prefix_text() + "/archive-index/"@ + text::decimal(phase->Claim_next)
            + ".jsonl"@,
        phase is Advance ==> {
            &&& action is AdvanceMarker
            &&& action->AdvanceMarker_key@ == paths.prefix_text() + "/schema-version.json"@
            &&& action->AdvanceMarker_generation == phase->Advance_next
            &&& text::opt_view(action->etag) == phase->Advance_etag
        },
        phase is Done ==> action is Finish && action->Finish_generation
            == phase->Done_generation,
        phase is GaveUp ==> action is Fail,
{
    let file = seq!['m'];
    match phase {
        PushPhase::Merge { remote, .. } => {
            index::law_bucket_layout(paths, remote, Seq::empty(), Seq::empty(), file);
        },
        PushPhase::Claim { next, .. } => {
            index::law_bucket_layout(paths, next, Seq::empty(), Seq::empty(), file);
        },
        _ => {
            index::law_bucket_layout(paths, 0, Seq::empty(), Seq::empty(), file);
        },
    }
}

/// What a push has to do next.
pub fn push_action(state: &PushState, paths: &BucketPaths) -> (r: PushAction)
    ensures
        is_action_of(r, state@, *paths),
{
    match state {
        PushState::Head { .. } => PushAction::ReadHead { key: paths.schema_version() },
        PushState::Generation { .. } => PushAction::ReadMarker { key: paths.schema_version() },
        PushState::Merge { remote, .. } => PushAction::MergeIndex {
            key: paths.archive_index_generation(*remote),
        },
        PushState::Claim { next, .. } => PushAction::CreateIndex {
            key: paths.archive_index_generation(*next),
        },
        PushState::Advance { next, etag, .. } => PushAction::AdvanceMarker {
            key: paths.schema_version(),
            generation: *next,
            etag: text::copy_opt(etag),
        },
        PushState::Done { generation } => PushAction::Finish { generation: *generation },
        PushState::GaveUp => PushAction::Fail {
            error: Error::store("push_index: exceeded 10 retries under contention"),
        },
    }
}

// ---------------------------------------------------------------------------
// Any number of machines pushing to one bucket
// ---------------------------------------------------------------------------

/// The current marker. Every write of it has an etag of its own.
pub struct Marker {
    pub generation: nat,
    pub etag: Seq<char>,
}

/// The bucket: the marker, the etags it has ever had, and the track ids of
/// each index.
pub struct Bucket {
    pub marker: Option<Marker>,
    pub used: Set<Seq<char>>,
    pub indexes: Map<nat, Set<Seq<char>>>,
}

/// A machine: the track ids in its cache, the generation that the cache was
/// last brought up to, and how far its push has got, if it is pushing.
pub struct Machine {
    pub local: Set<Seq<char>>,
    pub synced: Option<nat>,
    pub push: Option<PushPhase>,
}

/// The bucket and all the machines.
pub struct World {
    pub bucket: Bucket,
    pub machines: Map<int, Machine>,
}

/// One thing that one machine does.
pub enum Move {
    /// A track is added to the cache.
    Commit(int, Seq<char>),
    /// The cache is replaced by the canonical index.
    Rehydrate(int),
    /// A push starts.
    Start(int),
    /// A push takes its next step. `Seq<char>` is the etag that the store
    /// gives to the marker if the step writes it.
    Step(int, Seq<char>),
    /// A push that is over is put away.
    Leave(int),
}

/// The track ids of the canonical index.
pub open spec fn canonical(b: Bucket) -> Set<Seq<char>> {
    match b.marker {
        Some(m) => b.indexes[m.generation],
        None => Set::empty(),
    }
}

/// The etag of the marker, if there is one.
pub open spec fn marker_etag(b: Bucket) -> Option<Seq<char>> {
    match b.marker {
        Some(m) => Some(m.etag),
        None => None,
    }
}

/// What the store tells a push in a given phase.
pub open spec fn reply(w: World, m: Machine, phase: PushPhase) -> Event {
    match phase {
        PushPhase::Head { .. } => match w.bucket.marker {
            Some(marker) => Event::MarkerSeen { etag: Some(marker.etag) },
            None => Event::NoMarker,
        },
        PushPhase::Generation { .. } => Event::GenerationRead {
            remote: w.bucket.marker->0.generation,
            local: m.synced,
        },
        PushPhase::Merge { .. } => Event::Merged,
        PushPhase::Claim { next, .. } => if w.bucket.indexes.contains_key(next) {
            Event::Refused
        } else {
            Event::Written
        },
        PushPhase::Advance { etag, .. } => if marker_etag(w.bucket) == etag {
            Event::Written
        } else {
            Event::Refused
        },
        _ => Event::Merged,
    }
}

/// The bucket after a push has taken the step of its phase.
pub open spec fn bucket_after(
    w: World,
    m: Machine,
    phase: PushPhase,
    fresh: Seq<char>,
) -> Bucket {
    match (phase, reply(w, m, phase)) {
        (PushPhase::Claim { next, .. }, Event::Written) => Bucket {
            indexes: w.bucket.indexes.insert(next, m.local),
            ..w.bucket
        },
        (PushPhase::Advance { next, .. }, Event::Written) => Bucket {
            marker: Some(Marker { generation: next, etag: fresh }),
            used: w.bucket.used.insert(fresh),
            ..w.bucket
        },
        _ => w.bucket,
    }
}

/// The machine after its push has taken the step of its phase.
pub open spec fn machine_after(w: World, m: Machine, phase: PushPhase) -> Machine {
    let after = next_phase(phase, reply(w, m, phase));
    Machine {
        local: match phase {
            PushPhase::Merge { remote, .. } => m.local.union(w.bucket.indexes[remote]),
            _ => m.local,
        },
        synced: match (phase, after) {
            (PushPhase::Advance { .. }, PushPhase::Done { generation }) => Some(generation),
            _ => m.synced,
        },
        push: Some(after),
    }
}

/// Whether a move can be made.
pub open spec fn enabled(w: World, mv: Move) -> bool {
    match mv {
        Move::Commit(i, _) => w.machines.contains_key(i) && w.machines[i].push is None,
        Move::Rehydrate(i) => w.machines.contains_key(i) && w.machines[i].push is None
            && w.bucket.marker is Some,
        Move::Start(i) => w.machines.contains_key(i) && w.machines[i].push is None,
        Move::Step(i, fresh) => w.machines.contains_key(i) && w.machines[i].push is Some
            && !w.bucket.used.contains(fresh),
        Move::Leave(i) => w.machines.contains_key(i) && match w.machines[i].push {
            Some(PushPhase::Done { .. }) => true,
            Some(PushPhase::GaveUp) => true,
            _ => false,
        },
    }
}

/// The world after a move.
pub open spec fn moved(w: World, mv: Move) -> World {
    match mv {
        Move::Commit(i, id) => {
            let m = w.machines[i];
            World {
                machines: w.machines.insert(i, Machine { local: m.local.insert(id), ..m }),
                ..w
            }
        },
        Move::Rehydrate(i) => {
            let m = w.machines[i];
            let generation = w.bucket.marker->0.generation;
            World {
                machines: w.machines.insert(
                    i,
                    Machine {
                        local: w.bucket.indexes[generation],
                        synced: Some(generation),
                        ..m
                    },
                ),
                ..w
            }
        },
        Move::Start(i) => World {
            machines: w.machines.insert(
                i,
                Machine { push: Some(PushPhase::Head { attempt: 0 }), ..w.machines[i] },
            ),
            ..w
        },
        Move::Step(i, fresh) => {
            let m = w.machines[i];
            let phase = m.push->0;
            World {
                bucket: bucket_after(w, m, phase, fresh),
                machines: w.machines.insert(i, machine_after(w, m, phase)),
            }
        },
        Move::Leave(i) => World {
            machines: w.machines.insert(i, Machine { push: None, ..w.machines[i] }),
            ..w
        },
    }
}

/// Whether an etag that was read names the marker of the generation before
/// `next`, for as long as it names the marker at all.
spec fn etag_of_previous(b: Bucket, etag: Option<Seq<char>>, next: nat) -> bool {
    match etag {
        None => next == 1,
        Some(e) => b.used.contains(e) && (b.marker matches Some(m) ==> (m.etag == e ==> m.generation
            + 1 == next)),
    }
}

/// What holds of the bucket at all times.
spec fn bucket_sound(b: Bucket) -> bool {
    b.marker matches Some(m) ==> {
        &&& b.used.contains(m.etag)
        &&& m.generation >= 1
        &&& forall|g: nat| 1 <= g <= m.generation ==> #[trigger] b.indexes.contains_key(g)
        &&& forall|g: nat, h: nat|
            1 <= g <= h <= m.generation ==> (#[trigger] b.indexes[g]).subset_of(
                #[trigger] b.indexes[h],
            )
    }
}

/// What holds of a machine at all times.
spec fn machine_sound(b: Bucket, m: Machine) -> bool {
    &&& m.synced matches Some(g) ==> b.indexes.contains_key(g) && b.indexes[g].subset_of(m.local)
    &&& match m.push {
        Some(PushPhase::Generation { etag, .. }) => {
            &&& b.marker is Some
            &&& etag matches Some(e) && b.used.contains(e)
        },
        Some(PushPhase::Merge { remote, etag, .. }) => {
            &&& b.indexes.contains_key(remote)
            &&& etag is Some
            &&& etag_of_previous(b, etag, remote + 1)
        },
        Some(PushPhase::Claim { next, etag, .. }) => {
            &&& next >= 1
            &&& etag_of_previous(b, etag, next)
            &&& etag is Some ==> b.indexes.contains_key((next - 1) as nat) && b.indexes[(next
                - 1) as nat].subset_of(m.local)
        },
        Some(PushPhase::Advance { next, etag, .. }) => {
            &&& next >= 1
            &&& etag_of_previous(b, etag, next)
            &&& b.indexes.contains_key(next)
            &&& b.indexes[next] == m.local
            &&& etag is Some ==> b.indexes.contains_key((next - 1) as nat) && b.indexes[(next
                - 1) as nat].subset_of(m.local)
        },
        _ => true,
    }
}

/// What holds of the world at all times.
pub closed spec fn sound(w: World) -> bool {
    &&& bucket_sound(w.bucket)
    &&& forall|i: int| #[trigger]
        w.machines.contains_key(i) ==> machine_sound(w.bucket, w.machines[i])
}

/// A machine that does nothing stays sound while the bucket moves on.
proof fn lemma_bystander(b: Bucket, c: Bucket, m: Machine)
    requires
        machine_sound(b, m),
        forall|g: nat| #[trigger]
            b.indexes.contains_key(g) ==> c.indexes.contains_key(g) && c.indexes[g] == b.indexes[g],
        b.used.subset_of(c.used),
        b.marker is Some ==> c.marker is Some,
        c.marker == b.marker || (c.marker matches Some(n) && !b.used.contains(n.etag)),
    ensures
        machine_sound(c, m),
{
}

/// A fresh world is sound: an empty bucket, and machines with whatever tracks
/// of their own that have never talked to it.
pub proof fn law_fresh_world_is_sound(w: World)
    requires
        w.bucket.marker is None,
        w.bucket.indexes == Map::<nat, Set<Seq<char>>>::empty(),
        forall|i: int| #[trigger]
            w.machines.contains_key(i) ==> w.machines[i].synced is None && w.machines[i].push is None,
    ensures
        sound(w),
{
}

/// Soundness is kept by every move of every machine.
pub proof fn law_moves_keep_world_sound(w: World, mv: Move)
    requires
        sound(w),
        enabled(w, mv),
    ensures
        sound(moved(w, mv)),
{
    let v = moved(w, mv);
    let i = match mv {
        Move::Commit(i, _) => i,
        Move::Rehydrate(i) => i,
        Move::Start(i) => i,
        Move::Step(i, _) => i,
        Move::Leave(i) => i,
    };
    let m = w.machines[i];
    assert(machine_sound(w.bucket, m));
    match mv {
        Move::Step(_, fresh) => {
            lemma_step_sound(w, m, m.push->0, fresh);
        },
        _ => {},
    }
    assert(machine_sound(v.bucket, v.machines[i]));
    assert forall|k: int| #[trigger] v.machines.contains_key(k) implies machine_sound(
        v.bucket,
        v.machines[k],
    ) by {
        if k != i {
            assert(w.machines.contains_key(k));
            lemma_bystander(w.bucket, v.bucket, w.machines[k]);
        }
    }
}

/// One step of a push keeps the bucket and the machine sound, and disturbs
/// nobody else.
proof fn lemma_step_sound(w: World, m: Machine, phase: PushPhase, fresh: Seq<char>)
    requires
        bucket_sound(w.bucket),
        machine_sound(w.bucket, m),
        m.push == Some(phase),
        !w.bucket.used.contains(fresh),
    ensures
        bucket_sound(bucket_after(w, m, phase, fresh)),
        machine_sound(bucket_after(w, m, phase, fresh), machine_after(w, m, phase)),
        forall|g: nat| #[trigger]
            w.bucket.indexes.contains_key(g) ==> bucket_after(
                w,
                m,
                phase,
                fresh,
            ).indexes.contains_key(g) && bucket_after(w, m, phase, fresh).indexes[g]
                == w.bucket.indexes[g],
        w.bucket.used.subset_of(bucket_after(w, m, phase, fresh).used),
        w.bucket.marker is Some ==> bucket_after(w, m, phase, fresh).marker is Some,
        bucket_after(w, m, phase, fresh).marker == w.bucket.marker || (bucket_after(
            w,
            m,
            phase,
            fresh,
        ).marker matches Some(n) && n.etag == fresh),
{
    let b = w.bucket;
    let c = bucket_after(w, m, phase, fresh);
    let n = machine_after(w, m, phase);
    match phase {
        PushPhase::Generation { attempt, etag } => {
            let remote = b.marker->0.generation;
            assert(b.indexes.contains_key(remote));
            assert(etag_of_previous(b, etag, remote + 1));
            assert((remote + 1 - 1) as nat == remote);
        },
        PushPhase::Merge { attempt, remote, etag } => {
            assert((remote + 1 - 1) as nat == remote);
            assert(b.indexes[remote].subset_of(n.local));
            assert(m.local.subset_of(n.local));
        },
        PushPhase::Claim { attempt, next, etag } => {
            if !b.indexes.contains_key(next) {
                assert(c.indexes[next] == m.local);
                assert(bucket_sound(c)) by {
                    if c.marker is Some {
                        let g = c.marker->0.generation;
                        assert(next > g || !b.indexes.contains_key(next));
                        assert forall|x: nat, y: nat| 1 <= x <= y <= g implies (
                        #[trigger] c.indexes[x]).subset_of(#[trigger] c.indexes[y]) by {
                            assert(b.indexes.contains_key(x));
                            assert(b.indexes.contains_key(y));
                            assert(b.indexes[x].subset_of(b.indexes[y]));
                        }
                    }
                }
            }
        },
        PushPhase::Advance { attempt, next, etag } => {
            if marker_etag(b) == etag {
                assert(bucket_sound(c)) by {
                    assert forall|x: nat, y: nat| 1 <= x <= y <= next implies (
                    #[trigger] c.indexes[x]).subset_of(#[trigger] c.indexes[y]) by {
                        if y == next && x < next {
                            let g = b.marker->0.generation;
                            assert(g + 1 == next);
                            assert(b.indexes[x].subset_of(b.indexes[g]));
                            assert(b.indexes[g].subset_of(m.local));
                        }
                    }
                    assert forall|x: nat| 1 <= x <= next implies #[trigger] c.indexes.contains_key(
                        x,
                    ) by {}
                }
            }
        },
        _ => {},
    }
}

/// No update is ever lost: whatever any machine does, every track of the
/// canonical index stays in the canonical index.
pub proof fn law_no_lost_update(w: World, mv: Move)
    requires
        sound(w),
        enabled(w, mv),
    ensures
        canonical(w.bucket).subset_of(canonical(moved(w, mv).bucket)),
{
    match mv {
        Move::Step(i, fresh) => {
            let m = w.machines[i];
            let phase = m.push->0;
            assert(machine_sound(w.bucket, m));
            match phase {
                PushPhase::Claim { attempt, next, etag } => {
                    if w.bucket.marker is Some {
                        let g = w.bucket.marker->0.generation;
                        assert(w.bucket.indexes.contains_key(g));
                    }
                },
                PushPhase::Advance { attempt, next, etag } => {
                    if marker_etag(w.bucket) == etag && w.bucket.marker is Some {
                        let g = w.bucket.marker->0.generation;
                        assert(g + 1 == next);
                        assert((next - 1) as nat == g);
                    }
                },
                _ => {},
            }
        },
        _ => {},
    }
}

/// A push that succeeds has published everything its machine had: when the
/// marker moves, it moves to an index that was written before and that holds
/// every track of the machine's cache.
pub proof fn law_push_publishes_local_tracks(w: World, i: int, fresh: Seq<char>)
    requires
        sound(w),
        enabled(w, Move::Step(i, fresh)),
        w.machines[i].push->0 is Advance,
        moved(w, Move::Step(i, fresh)).machines[i].push->0 is Done,
    ensures
        w.machines[i].local.subset_of(canonical(moved(w, Move::Step(i, fresh)).bucket)),
        moved(w, Move::Step(i, fresh)).bucket.indexes == w.bucket.indexes,
{
    assert(machine_sound(w.bucket, w.machines[i]));
}

/// An index that has been written is never rewritten.
pub proof fn law_indexes_are_immutable(w: World, mv: Move, generation: nat)
    requires
        enabled(w, mv),
        w.bucket.indexes.contains_key(generation),
    ensures
        moved(w, mv).bucket.indexes.contains_key(generation),
        moved(w, mv).bucket.indexes[generation] == w.bucket.indexes[generation],
{
}

/// The generation never goes back, and moves by one at a time.
pub proof fn law_generation_advances_by_one(w: World, mv: Move)
    requires
        sound(w),
        enabled(w, mv),
        w.bucket.marker is Some,
    ensures
        moved(w, mv).bucket.marker is Some,
        ({
            let before = w.bucket.marker->0.generation;
            let after = moved(w, mv).bucket.marker->0.generation;
            after == before || after == before + 1
        }),
{
    match mv {
        Move::Step(i, fresh) => {
            assert(machine_sound(w.bucket, w.machines[i]));
        },
        _ => {},
    }
}

/// The world after a run of moves.
pub open spec fn after_all(w: World, moves: Seq<Move>) -> World
    decreases moves.len(),
{
    if moves.len() == 0 {
        w
    } else {
        moved(after_all(w, moves.drop_last()), moves.last())
    }
}

/// Whether a run of moves can be made.
pub open spec fn all_enabled(w: World, moves: Seq<Move>) -> bool
    decreases moves.len(),
{
    if moves.len() == 0 {
        true
    } else {
        all_enabled(w, moves.drop_last()) && enabled(
            after_all(w, moves.drop_last()),
            moves.last(),
        )
    }
}

/// However many machines push in whatever order, no track of the canonical
/// index is ever lost.
pub proof fn law_no_lost_update_in_any_run(w: World, moves: Seq<Move>)
    requires
        sound(w),
        all_enabled(w, moves),
    ensures
        sound(after_all(w, moves)),
        canonical(w.bucket).subset_of(canonical(after_all(w, moves).bucket)),
    decreases moves.len(),
{
    if moves.len() > 0 {
        let front = moves.drop_last();
        law_no_lost_update_in_any_run(w, front);
        law_moves_keep_world_sound(after_all(w, front), moves.last());
        law_no_lost_update(after_all(w, front), moves.last());
    }
}

/// A push ends: each step brings it closer to an attempt's end, and attempts
/// run out.
pub open spec fn steps_left(phase: PushPhase) -> nat {
    let span = |attempt: nat| (if attempt < MAX_RETRIES {
        6 * (MAX_RETRIES - attempt)
    } else {
        6
    }) as nat;
    match phase {
        PushPhase::Head { attempt } => span(attempt),
        PushPhase::Generation { attempt, .. } => (span(attempt) - 1) as nat,
        PushPhase::Merge { attempt, .. } => (span(attempt) - 2) as nat,
        PushPhase::Claim { attempt, .. } => (span(attempt) - 3) as nat,
        PushPhase::Advance { attempt, .. } => (span(attempt) - 4) as nat,
        _ => 0,
    }
}

/// Every event that belongs to a phase leaves a push fewer steps.
pub proof fn law_push_terminates(phase: PushPhase, event: Event)
    requires
        next_phase(phase, event) != phase,
    ensures
        steps_left(next_phase(phase, event)) < steps_left(phase),
{
}

} // verus!

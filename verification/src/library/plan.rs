//! The backfill plan: which folders of a library are handled together, in
//! which chunks.
//!
//! A plan describes scope. It is written once and never rewritten; progress
//! is kept apart from it, in an event log.

use vstd::prelude::*;

use crate::library::shape;
use crate::library::shape::{LibraryShape, SubtreeShape};
use crate::selection;
use crate::text;

verus! {

/// One chunk of a plan: the folders it covers and what the shape scan saw in
/// them.
#[derive(Debug, Clone, PartialEq, Eq)]
pub struct PlanChunk {
    /// The place of the chunk in its plan: "0", "1", and so on.
    pub chunk_id: String,
    /// The slugs of the folders this chunk covers, in the order of the scan.
    pub folders: Vec<String>,
    /// Whether this chunk also covers the loose files in the library root.
    pub includes_root_files: bool,
    pub estimated_audio_file_count: u64,
    pub estimated_audio_bytes: u64,
    pub estimated_total_file_count: u64,
    pub estimated_total_bytes: u64,
}

/// A plan document.
#[derive(Debug, Clone, PartialEq, Eq)]
pub struct BackfillPlan {
    pub plan_id: String,
    pub library_root: String,
    /// When the plan was made, as RFC 3339 text.
    pub created_at: String,
    /// How many folders were put into each chunk.
    pub chunk_folders: u32,
    pub chunks: Vec<PlanChunk>,
}

/// The counts and bytes estimated for a chunk.
pub struct Estimate {
    pub audio_files: int,
    pub audio_bytes: int,
    pub files: int,
    pub bytes: int,
}

impl Estimate {
    pub open spec fn zero() -> Estimate {
        Estimate { audio_files: 0, audio_bytes: 0, files: 0, bytes: 0 }
    }

    pub open spec fn plus(self, other: Estimate) -> Estimate {
        Estimate {
            audio_files: self.audio_files + other.audio_files,
            audio_bytes: self.audio_bytes + other.audio_bytes,
            files: self.files + other.files,
            bytes: self.bytes + other.bytes,
        }
    }

    /// Whether the numbers fit in the machine's integers.
    pub open spec fn fits(self) -> bool {
        &&& 0 <= self.audio_files <= u64::MAX
        &&& 0 <= self.audio_bytes <= u64::MAX
        &&& 0 <= self.files <= u64::MAX
        &&& 0 <= self.bytes <= u64::MAX
    }
}

/// A chunk, as the contracts speak of it.
pub struct ChunkView {
    pub chunk_id: Seq<char>,
    pub folders: Seq<Seq<char>>,
    pub includes_root_files: bool,
    pub estimate: Estimate,
}

impl View for PlanChunk {
    type V = ChunkView;

    open spec fn view(&self) -> ChunkView {
        ChunkView {
            chunk_id: self.chunk_id@,
            folders: text::views(self.folders@),
            includes_root_files: self.includes_root_files,
            estimate: Estimate {
                audio_files: self.estimated_audio_file_count as int,
                audio_bytes: self.estimated_audio_bytes as int,
                files: self.estimated_total_file_count as int,
                bytes: self.estimated_total_bytes as int,
            },
        }
    }
}

/// The chunks that a list holds.
pub open spec fn chunk_views(list: Seq<PlanChunk>) -> Seq<ChunkView> {
    list.map_values(|c: PlanChunk| c@)
}

/// What the contracts say of a chunk they say of its fields, each under its own name.
pub proof fn law_chunk_is_seen_field_by_field(list: Seq<PlanChunk>, i: int)
    requires
        0 <= i < list.len(),
    ensures
        chunk_views(list).len() == list.len(),
        ({
            let v = chunk_views(list)[i];
            let c = list[i];
            &&& v.chunk_id == c.chunk_id@
            &&& v.folders.len() == c.folders@.len()
            &&& forall|k: int|
                0 <= k < v.folders.len() ==> #[trigger] v.folders[k] == c.folders@[k]@
            &&& v.includes_root_files == c.includes_root_files
            &&& v.estimate.audio_files == c.estimated_audio_file_count
            &&& v.estimate.audio_bytes == c.estimated_audio_bytes
            &&& v.estimate.files == c.estimated_total_file_count
            &&& v.estimate.bytes == c.estimated_total_bytes
        }),
{
}

/// What the scan saw in one subtree.
pub open spec fn subtree_estimate(s: shape::SubtreeView) -> Estimate {
    Estimate {
        audio_files: s.totals.audio_files,
        audio_bytes: s.totals.audio_bytes,
        files: s.totals.files,
        bytes: s.totals.bytes,
    }
}

/// What the scan saw in several subtrees.
pub open spec fn group_estimate(group: Seq<shape::SubtreeView>) -> Estimate
    decreases group.len(),
{
    if group.len() == 0 {
        Estimate::zero()
    } else {
        group_estimate(group.drop_last()).plus(subtree_estimate(group.last()))
    }
}

/// The folders of several subtrees.
pub open spec fn group_folders(group: Seq<shape::SubtreeView>) -> Seq<Seq<char>>
    decreases group.len(),
{
    if group.len() == 0 {
        Seq::empty()
    } else {
        let front = group_folders(group.drop_last());
        match group.last().relative_path {
            Some(p) => front.push(p),
            None => front,
        }
    }
}

/// The subtrees cut into groups of `n`, the last one as long as what is left.
pub open spec fn groups(subtrees: Seq<shape::SubtreeView>, n: nat) -> Seq<Seq<shape::SubtreeView>>
    decreases subtrees.len(),
{
    if subtrees.len() == 0 || n == 0 {
        Seq::empty()
    } else if subtrees.len() <= n {
        seq![subtrees]
    } else {
        seq![subtrees.take(n as int)] + groups(subtrees.skip(n as int), n)
    }
}

/// The chunk that covers a group of subtrees.
pub open spec fn chunk_of(group: Seq<shape::SubtreeView>, index: int) -> ChunkView {
    ChunkView {
        chunk_id: text::decimal(index as nat),
        folders: group_folders(group),
        includes_root_files: false,
        estimate: group_estimate(group),
    }
}

/// A chunk that covers the loose files in the root as well.
pub open spec fn with_root_files(chunk: ChunkView, loose: shape::SubtreeView) -> ChunkView {
    ChunkView {
        includes_root_files: true,
        estimate: chunk.estimate.plus(subtree_estimate(loose)),
        ..chunk
    }
}

/// The chunks of the folders alone.
pub open spec fn folder_chunks(subtrees: Seq<shape::SubtreeView>, n: nat) -> Seq<ChunkView> {
    let cut = groups(subtrees, n);
    Seq::new(cut.len(), |i: int| chunk_of(cut[i], i))
}

/// The chunks of a plan: groups of `n` folders, and the loose files in the
/// root folded into the first chunk.
pub open spec fn plan_chunks(s: shape::ShapeView, n: nat) -> Seq<ChunkView> {
    let chunks = folder_chunks(s.subtrees, n);
    match s.root_files {
        None => chunks,
        Some(loose) => if chunks.len() > 0 {
            chunks.update(0, with_root_files(chunks[0], loose))
        } else {
            seq![with_root_files(chunk_of(Seq::empty(), 0), loose)]
        },
    }
}

/// How many folders a chunk holds: at least one.
pub open spec fn group_size(chunk_folders: u32) -> nat {
    if chunk_folders == 0 {
        1
    } else {
        chunk_folders as nat
    }
}

/// A plan takes as many folders at a time as asked, and one at a time if none is asked
/// for.
pub proof fn law_chunks_have_at_least_one_folder(chunk_folders: u32)
    ensures
        group_size(chunk_folders) >= 1,
        chunk_folders >= 1 ==> group_size(chunk_folders) == chunk_folders,
        chunk_folders == 0 ==> group_size(chunk_folders) == 1,
{
}

/// Whether every estimate of a plan fits in the machine's integers.
pub open spec fn plan_fits(s: shape::ShapeView, n: nat) -> bool {
    forall|i: int|
        0 <= i < plan_chunks(s, n).len() ==> (#[trigger] plan_chunks(s, n)[i]).estimate.fits()
}

// ---------------------------------------------------------------------------
// Facts
// ---------------------------------------------------------------------------

/// No estimate of scanned subtrees is negative.
proof fn lemma_group_natural(list: Seq<SubtreeShape>)
    ensures
        group_estimate(shape::subtree_views(list)).audio_files >= 0,
        group_estimate(shape::subtree_views(list)).audio_bytes >= 0,
        group_estimate(shape::subtree_views(list)).files >= 0,
        group_estimate(shape::subtree_views(list)).bytes >= 0,
    decreases list.len(),
{
    if list.len() > 0 {
        lemma_group_natural(list.drop_last());
        assert(shape::subtree_views(list).drop_last() =~= shape::subtree_views(list.drop_last()));
        assert(shape::subtree_views(list).last() == list.last()@);
    }
}

/// The first subtrees hold no more than all of them.
proof fn lemma_group_prefix(list: Seq<SubtreeShape>, n: int)
    requires
        0 <= n <= list.len(),
        group_estimate(shape::subtree_views(list)).fits(),
    ensures
        group_estimate(shape::subtree_views(list.take(n))).fits(),
    decreases list.len(),
{
    lemma_group_natural(list.take(n));
    if n == list.len() {
        assert(list.take(n) =~= list);
    } else {
        let front = list.drop_last();
        assert(shape::subtree_views(list).drop_last() =~= shape::subtree_views(front));
        assert(shape::subtree_views(list).last() == list.last()@);
        lemma_group_natural(front);
        lemma_group_prefix(front, n);
        assert(front.take(n) =~= list.take(n));
    }
}

/// The number of groups cut so far and the group that comes next.
proof fn lemma_groups_step(all: Seq<shape::SubtreeView>, n: nat, start: int, done: int)
    requires
        n > 0,
        0 <= start < all.len(),
        0 <= done,
        done + groups(all.skip(start), n).len() == groups(all, n).len(),
        groups(all, n).skip(done) == groups(all.skip(start), n),
    ensures
        done < groups(all, n).len(),
        start + n < all.len() ==> {
            &&& groups(all, n)[done] == all.subrange(start, start + n)
            &&& groups(all, n).skip(done + 1) == groups(all.skip(start + n), n)
        },
        start + n >= all.len() ==> {
            &&& groups(all, n)[done] == all.subrange(start, all.len() as int)
            &&& done + 1 == groups(all, n).len()
        },
{
    let rest = all.skip(start);
    let cut = groups(all, n);
    assert(cut[done] == cut.skip(done)[0]);
    if start + n < all.len() {
        assert(rest.take(n as int) =~= all.subrange(start, start + n));
        assert(rest.skip(n as int) =~= all.skip(start + n));
        assert(cut.skip(done + 1) =~= cut.skip(done).skip(1));
        assert((seq![rest.take(n as int)] + groups(rest.skip(n as int), n)).skip(1) =~= groups(
            rest.skip(n as int),
            n,
        ));
    } else {
        assert(rest =~= all.subrange(start, all.len() as int));
        assert(cut.len() == done + 1);
    }
}

/// All the groups in a row.
pub open spec fn flat(cut: Seq<Seq<shape::SubtreeView>>) -> Seq<shape::SubtreeView>
    decreases cut.len(),
{
    if cut.len() == 0 {
        Seq::empty()
    } else {
        cut[0] + flat(cut.skip(1))
    }
}

/// Cutting subtrees into groups loses none, repeats none and keeps their
/// order; every group but the last has exactly `n`, and none is empty.
pub proof fn law_groups_partition_subtrees(subtrees: Seq<shape::SubtreeView>, n: nat)
    requires
        n > 0,
    ensures
        flat(groups(subtrees, n)) == subtrees,
        forall|i: int|
            0 <= i < groups(subtrees, n).len() ==> 0 < (#[trigger] groups(subtrees, n)[i]).len() <= n,
        forall|i: int|
            0 <= i < groups(subtrees, n).len() - 1 ==> (#[trigger] groups(subtrees, n)[i]).len() == n,
    decreases subtrees.len(),
{
    let cut = groups(subtrees, n);
    if subtrees.len() == 0 {
        assert(flat(cut) =~= subtrees);
    } else if subtrees.len() <= n {
        assert(cut.skip(1) =~= Seq::<Seq<shape::SubtreeView>>::empty());
        assert(flat(cut.skip(1)) =~= Seq::<shape::SubtreeView>::empty());
        assert(flat(cut) =~= subtrees);
    } else {
        let rest = subtrees.skip(n as int);
        law_groups_partition_subtrees(rest, n);
        assert(cut.skip(1) =~= groups(rest, n));
        assert(subtrees.take(n as int) + rest =~= subtrees);
        assert forall|i: int| 0 <= i < cut.len() implies 0 < (#[trigger] cut[i]).len() <= n by {
            if i > 0 {
                assert(cut[i] == groups(rest, n)[i - 1]);
            }
        }
        assert forall|i: int| 0 <= i < cut.len() - 1 implies (#[trigger] cut[i]).len() == n by {
            if i > 0 {
                assert(cut[i] == groups(rest, n)[i - 1]);
            }
        }
    }
}

/// The folders of all chunks in a row.
pub open spec fn all_folders(chunks: Seq<ChunkView>) -> Seq<Seq<char>>
    decreases chunks.len(),
{
    if chunks.len() == 0 {
        Seq::empty()
    } else {
        all_folders(chunks.drop_last()) + chunks.last().folders
    }
}

/// The estimates of all chunks together.
pub open spec fn all_estimates(chunks: Seq<ChunkView>) -> Estimate
    decreases chunks.len(),
{
    if chunks.len() == 0 {
        Estimate::zero()
    } else {
        all_estimates(chunks.drop_last()).plus(chunks.last().estimate)
    }
}

proof fn lemma_folders_append(a: Seq<shape::SubtreeView>, b: Seq<shape::SubtreeView>)
    ensures
        group_folders(a + b) == group_folders(a) + group_folders(b),
        group_estimate(a + b) == group_estimate(a).plus(group_estimate(b)),
    decreases b.len(),
{
    if b.len() == 0 {
        assert(a + b =~= a);
        assert(group_folders(a) + group_folders(b) =~= group_folders(a));
    } else {
        lemma_folders_append(a, b.drop_last());
        assert((a + b).drop_last() =~= a + b.drop_last());
        assert((a + b).last() == b.last());
        match b.last().relative_path {
            Some(p) => {
                assert((group_folders(a) + group_folders(b.drop_last())).push(p) =~= group_folders(
                    a,
                ) + group_folders(b.drop_last()).push(p));
            },
            None => {},
        }
    }
}

/// All the groups before place `k` in a row.
spec fn flat_to(cut: Seq<Seq<shape::SubtreeView>>, k: int) -> Seq<shape::SubtreeView>
    decreases k,
{
    if k <= 0 {
        Seq::empty()
    } else {
        flat_to(cut, k - 1) + cut[k - 1]
    }
}

proof fn lemma_flat_to(cut: Seq<Seq<shape::SubtreeView>>, k: int)
    requires
        0 <= k <= cut.len(),
    ensures
        flat_to(cut, k) + flat(cut.skip(k)) == flat(cut),
    decreases k,
{
    if k == 0 {
        assert(cut.skip(0) =~= cut);
        assert(flat_to(cut, 0) + flat(cut) =~= flat(cut));
    } else {
        lemma_flat_to(cut, k - 1);
        let rest = cut.skip(k - 1);
        assert(rest.skip(1) =~= cut.skip(k));
        assert(rest[0] == cut[k - 1]);
        assert(flat_to(cut, k) + flat(cut.skip(k)) =~= flat_to(cut, k - 1) + flat(rest));
    }
}

proof fn lemma_chunks_to(cut: Seq<Seq<shape::SubtreeView>>, k: int)
    requires
        0 <= k <= cut.len(),
    ensures
        all_folders(Seq::new(k as nat, |i: int| chunk_of(cut[i], i))) == group_folders(
            flat_to(cut, k),
        ),
        all_estimates(Seq::new(k as nat, |i: int| chunk_of(cut[i], i))) == group_estimate(
            flat_to(cut, k),
        ),
    decreases k,
{
    let chunks = Seq::new(k as nat, |i: int| chunk_of(cut[i], i));
    if k > 0 {
        lemma_chunks_to(cut, k - 1);
        assert(chunks.drop_last() =~= Seq::new((k - 1) as nat, |i: int| chunk_of(cut[i], i)));
        lemma_folders_append(flat_to(cut, k - 1), cut[k - 1]);
    }
}

proof fn lemma_first_estimate(chunks: Seq<ChunkView>, loose: shape::SubtreeView)
    requires
        chunks.len() > 0,
    ensures
        all_folders(chunks.update(0, with_root_files(chunks[0], loose))) == all_folders(chunks),
        all_estimates(chunks.update(0, with_root_files(chunks[0], loose))) == all_estimates(
            chunks,
        ).plus(subtree_estimate(loose)),
    decreases chunks.len(),
{
    let more = chunks.update(0, with_root_files(chunks[0], loose));
    if chunks.len() == 1 {
        assert(more.drop_last() =~= Seq::<ChunkView>::empty());
        assert(chunks.drop_last() =~= Seq::<ChunkView>::empty());
    } else {
        let front = chunks.drop_last();
        lemma_first_estimate(front, loose);
        assert(more.drop_last() =~= front.update(0, with_root_files(front[0], loose)));
        assert(more.last() == chunks.last());
    }
}

/// A plan covers every folder of the shape once, in the order of the scan, and
/// its estimates add up to what the scan saw, loose files and all.
pub proof fn law_plan_covers_the_library(s: shape::ShapeView, n: nat)
    requires
        n > 0,
    ensures
        all_folders(plan_chunks(s, n)) == group_folders(s.subtrees),
        all_estimates(plan_chunks(s, n)) == group_estimate(s.subtrees).plus(
            match s.root_files {
                Some(loose) => subtree_estimate(loose),
                None => Estimate::zero(),
            },
        ),
{
    let cut = groups(s.subtrees, n);
    let chunks = folder_chunks(s.subtrees, n);
    law_groups_partition_subtrees(s.subtrees, n);
    lemma_flat_to(cut, cut.len() as int);
    assert(cut.skip(cut.len() as int) =~= Seq::<Seq<shape::SubtreeView>>::empty());
    assert(flat_to(cut, cut.len() as int) =~= s.subtrees);
    lemma_chunks_to(cut, cut.len() as int);
    assert(chunks =~= Seq::new(cut.len(), |i: int| chunk_of(cut[i], i)));
    match s.root_files {
        Some(loose) => {
            if chunks.len() > 0 {
                lemma_first_estimate(chunks, loose);
            } else {
                let only = with_root_files(chunk_of(Seq::empty(), 0), loose);
                let none = Seq::<ChunkView>::empty();
                assert(seq![only].drop_last() =~= none);
                assert(all_folders(none) =~= Seq::<Seq<char>>::empty());
                assert(all_estimates(none) == Estimate::zero());
                assert(s.subtrees =~= Seq::<shape::SubtreeView>::empty());
                assert(all_folders(seq![only]) =~= group_folders(s.subtrees));
            }
        },
        None => {},
    }
}

/// The smaller of two numbers.
pub open spec fn up_to(a: int, b: int) -> int {
    if a <= b {
        a
    } else {
        b
    }
}

/// The subtrees that the chunk at a place stands for: the next `n`, or those that
/// are left.
pub open spec fn share(subtrees: Seq<shape::SubtreeView>, n: nat, i: int) -> Seq<shape::SubtreeView> {
    let len = subtrees.len() as int;
    subtrees.subrange(up_to(i * n, len), up_to((i + 1) * n, len))
}

/// Which subtrees have a name.
pub open spec fn named(part: Seq<shape::SubtreeView>) -> spec_fn(int) -> bool {
    |k: int| part[k].relative_path is Some
}

/// The name of each subtree.
pub open spec fn name_at(part: Seq<shape::SubtreeView>) -> spec_fn(int) -> Seq<char> {
    |k: int| part[k].relative_path->0
}

/// Whether an estimate adds up what a scan saw of subtrees and, if they belong to
/// it, of the loose files.
pub open spec fn estimates(
    e: Estimate,
    part: Seq<shape::SubtreeView>,
    loose: Option<shape::SubtreeView>,
) -> bool {
    let t = match loose {
        Some(l) => l.totals,
        None => shape::Totals { audio_files: 0, audio_bytes: 0, files: 0, bytes: 0, depth: 0 },
    };
    &&& e.audio_files == selection::sum(
        part.map_values(|s: shape::SubtreeView| s.totals.audio_files),
    ) + t.audio_files
    &&& e.audio_bytes == selection::sum(
        part.map_values(|s: shape::SubtreeView| s.totals.audio_bytes),
    ) + t.audio_bytes
    &&& e.files == selection::sum(part.map_values(|s: shape::SubtreeView| s.totals.files))
        + t.files
    &&& e.bytes == selection::sum(part.map_values(|s: shape::SubtreeView| s.totals.bytes))
        + t.bytes
}

proof fn lemma_group_is_share(subtrees: Seq<shape::SubtreeView>, n: nat, i: int)
    requires
        n > 0,
        0 <= i < groups(subtrees, n).len(),
    ensures
        groups(subtrees, n)[i] == share(subtrees, n, i),
    decreases subtrees.len(),
{
    let len = subtrees.len() as int;
    let cut = groups(subtrees, n);
    if len <= n {
        assert(i == 0);
        assert(i * n == 0 && (i + 1) * n == n) by (nonlinear_arith)
            requires
                i == 0,
        ;
        assert(share(subtrees, n, 0) =~= subtrees);
    } else {
        let rest = subtrees.skip(n as int);
        if i == 0 {
            assert(i * n == 0 && (i + 1) * n == n) by (nonlinear_arith)
                requires
                    i == 0,
            ;
            assert(share(subtrees, n, 0) =~= subtrees.take(n as int));
        } else {
            assert(cut[i] == groups(rest, n)[i - 1]);
            lemma_group_is_share(rest, n, i - 1);
            assert((i - 1) * n + n == i * n) by (nonlinear_arith);
            assert((i - 1 + 1) * n == i * n) by (nonlinear_arith);
            assert((i + 1) * n == i * n + n) by (nonlinear_arith);
            assert((i - 1) * n >= 0) by (nonlinear_arith)
                requires
                    i >= 1,
            ;
            assert(share(rest, n, i - 1) =~= share(subtrees, n, i));
        }
    }
}

proof fn lemma_group_counts(group: Seq<shape::SubtreeView>)
    ensures
        estimates(group_estimate(group), group, None),
        selection::is_selection(
            group_folders(group),
            group.len() as int,
            named(group),
            name_at(group),
        ),
    decreases group.len(),
{
    if group.len() == 0 {
        selection::lemma_selection_empty(named(group), name_at(group));
    } else {
        let front = group.drop_last();
        lemma_group_counts(front);
        selection::lemma_selection_grows(
            group_folders(front),
            front.len() as int,
            named(front),
            name_at(front),
            group_folders(group),
            named(group),
            name_at(group),
        );
        let t = group.last().totals;
        let a = front.map_values(|s: shape::SubtreeView| s.totals.audio_files);
        let b = front.map_values(|s: shape::SubtreeView| s.totals.audio_bytes);
        let c = front.map_values(|s: shape::SubtreeView| s.totals.files);
        let d = front.map_values(|s: shape::SubtreeView| s.totals.bytes);
        assert(group.map_values(|s: shape::SubtreeView| s.totals.audio_files) =~= a.push(
            t.audio_files,
        ));
        assert(group.map_values(|s: shape::SubtreeView| s.totals.audio_bytes) =~= b.push(
            t.audio_bytes,
        ));
        assert(group.map_values(|s: shape::SubtreeView| s.totals.files) =~= c.push(t.files));
        assert(group.map_values(|s: shape::SubtreeView| s.totals.bytes) =~= d.push(t.bytes));
        selection::lemma_sum_push(a, t.audio_files);
        selection::lemma_sum_push(b, t.audio_bytes);
        selection::lemma_sum_push(c, t.files);
        selection::lemma_sum_push(d, t.bytes);
    }
}

/// A plan cuts the library into chunks of `n` folders, in the order of the scan, the
/// last one with what is left. Each is numbered by its place, and is expected to
/// hold what the scan saw in its folders. The loose files go with the first.
pub proof fn law_chunks_follow_the_shape(s: shape::ShapeView, n: nat, i: int)
    requires
        n > 0,
        0 <= i < plan_chunks(s, n).len(),
    ensures
        ({
            let c = plan_chunks(s, n)[i];
            let part = share(s.subtrees, n, i);
            let loose = if i == 0 {
                s.root_files
            } else {
                None
            };
            &&& c.chunk_id == text::decimal(i as nat)
            &&& selection::is_selection(
                c.folders,
                part.len() as int,
                named(part),
                name_at(part),
            )
            &&& c.includes_root_files == (loose is Some)
            &&& estimates(c.estimate, part, loose)
            &&& i > 0 ==> part.len() > 0
        }),
{
    let cut = groups(s.subtrees, n);
    let part = share(s.subtrees, n, i);
    if cut.len() > 0 {
        lemma_group_is_share(s.subtrees, n, i);
        law_groups_partition_subtrees(s.subtrees, n);
        assert(cut[i].len() > 0);
    } else {
        assert(s.subtrees.len() == 0);
        assert(i == 0);
        assert(i * n == 0 && (i + 1) * n == n) by (nonlinear_arith)
            requires
                i == 0,
        ;
        assert(part =~= Seq::empty());
    }
    lemma_group_counts(part);
}

/// The loose files in the root are covered by the first chunk, if there are
/// any, and by no other.
pub proof fn law_root_files_in_first_chunk(s: shape::ShapeView, n: nat)
    ensures
        s.root_files is Some ==> plan_chunks(s, n).len() > 0,
        forall|i: int|
            0 <= i < plan_chunks(s, n).len() ==> ((#[trigger] plan_chunks(
                s,
                n,
            )[i]).includes_root_files <==> i == 0 && s.root_files is Some),
{
}

/// No two chunks of a plan have the same id.
pub proof fn law_chunk_ids_distinct(s: shape::ShapeView, n: nat, i: int, j: int)
    requires
        0 <= i < plan_chunks(s, n).len(),
        0 <= j < plan_chunks(s, n).len(),
        plan_chunks(s, n)[i].chunk_id == plan_chunks(s, n)[j].chunk_id,
    ensures
        i == j,
{
    assert(plan_chunks(s, n)[i].chunk_id == text::decimal(i as nat));
    assert(plan_chunks(s, n)[j].chunk_id == text::decimal(j as nat));
    text::lemma_decimal_injective(i as nat, j as nat);
}

// ---------------------------------------------------------------------------
// The functions
// ---------------------------------------------------------------------------

/// The chunk that covers the subtrees from `start` up to `end`.
fn chunk_for(subtrees: &Vec<SubtreeShape>, start: usize, end: usize, index: u64) -> (chunk:
    PlanChunk)
    requires
        start <= end <= subtrees@.len(),
        group_estimate(shape::subtree_views(subtrees@.subrange(start as int, end as int))).fits(),
    ensures
        chunk@ == chunk_of(
            shape::subtree_views(subtrees@.subrange(start as int, end as int)),
            index as int,
        ),
{
    let mut chunk = PlanChunk {
        chunk_id: text::decimal_text(index),
        folders: Vec::new(),
        includes_root_files: false,
        estimated_audio_file_count: 0,
        estimated_audio_bytes: 0,
        estimated_total_file_count: 0,
        estimated_total_bytes: 0,
    };
    let ghost group = subtrees@.subrange(start as int, end as int);
    let mut i: usize = start;
    proof {
        assert(shape::subtree_views(group.take(0)) =~= Seq::<shape::SubtreeView>::empty());
        assert(text::views(chunk.folders@) =~= Seq::<Seq<char>>::empty());
    }
    while i < end
        invariant
            start <= i <= end <= subtrees@.len(),
            group == subtrees@.subrange(start as int, end as int),
            group_estimate(shape::subtree_views(group)).fits(),
            chunk@ == chunk_of(shape::subtree_views(group.take(i - start)), index as int),
        decreases end - i,
    {
        let subtree: &SubtreeShape = &subtrees[i];
        let ghost before = chunk@;
        proof {
            let next = group.take(i - start + 1);
            lemma_group_prefix(group, i - start + 1);
            lemma_group_natural(group.take(i - start));
            assert(shape::subtree_views(next).drop_last() =~= shape::subtree_views(
                group.take(i - start),
            ));
            assert(shape::subtree_views(next).last() == subtree@);
        }
        if let Some(relative_path) = &subtree.relative_path {
            chunk.folders.push(relative_path.clone());
            proof {
                assert(text::views(chunk.folders@) =~= before.folders.push(relative_path@));
            }
        }
        chunk.estimated_audio_file_count =
        chunk.estimated_audio_file_count + subtree.audio_file_count;
        chunk.estimated_audio_bytes = chunk.estimated_audio_bytes + subtree.audio_bytes;
        chunk.estimated_total_file_count =
        chunk.estimated_total_file_count + subtree.total_file_count;
        chunk.estimated_total_bytes = chunk.estimated_total_bytes + subtree.total_bytes;
        i = i + 1;
    }
    proof {
        assert(group.take(end - start) =~= group);
    }
    chunk
}

/// Builds a plan from a shape, `chunk_folders` folders to a chunk (at least
/// one).
pub fn build_plan(plan_id: String, created_at: String, shape: &LibraryShape, chunk_folders: u32) -> (r:
    BackfillPlan)
    requires
        plan_fits(shape@, group_size(chunk_folders)),
    ensures
        r.plan_id@ == plan_id@,
        r.created_at@ == created_at@,
        r.library_root@ == shape.root@,
        r.chunk_folders == group_size(chunk_folders),
        chunk_views(r.chunks@) == plan_chunks(shape@, group_size(chunk_folders)),
{
    let size: u32 = if chunk_folders == 0 {
        1
    } else {
        chunk_folders
    };
    let ghost n = group_size(chunk_folders);
    let ghost all = shape@.subtrees;
    let ghost cut = groups(all, n);
    let ghost want = plan_chunks(shape@, n);
    let mut chunks: Vec<PlanChunk> = Vec::new();
    let total: usize = shape.subtrees.len();
    let mut start: usize = 0;
    proof {
        assert(all.skip(0) =~= all);
        assert(cut.skip(0) =~= cut);
    }
    while start < total
        invariant
            start <= total,
            total == shape.subtrees@.len(),
            all == shape::subtree_views(shape.subtrees@),
            all == shape@.subtrees,
            n == group_size(chunk_folders),
            n == size,
            cut == groups(all, n),
            want == plan_chunks(shape@, n),
            plan_fits(shape@, n),
            chunks@.len() <= start,
            chunks@.len() <= cut.len(),
            start == total ==> chunks@.len() == cut.len(),
            start < total ==> cut.skip(chunks@.len() as int) == groups(all.skip(start as int), n),
            forall|i: int| 0 <= i < chunks@.len() ==> (#[trigger] chunks@[i])@ == chunk_of(cut[i], i),
        decreases total - start,
    {
        let left: usize = total - start;
        let end: usize = if (size as u64) < (left as u64) {
            start + size as usize
        } else {
            total
        };
        let ghost k = chunks@.len() as int;
        proof {
            lemma_groups_step(all, n, start as int, k);
            let group = shape::subtree_views(shape.subtrees@.subrange(start as int, end as int));
            assert(group =~= all.subrange(start as int, end as int));
            assert(cut[k] == group);
            assert(folder_chunks(all, n)[k] == chunk_of(group, k));
            assert(want[k].estimate.fits());
            lemma_group_natural(shape.subtrees@.subrange(start as int, end as int));
            assert(group_estimate(group).fits());
        }
        let chunk = chunk_for(&shape.subtrees, start, end, chunks.len() as u64);
        chunks.push(chunk);
        start = end;
    }
    proof {
        if total == 0 {
            assert(all =~= Seq::<shape::SubtreeView>::empty());
        }
        assert(chunk_views(chunks@) =~= folder_chunks(all, n));
    }
    if let Some(root_files) = &shape.root_files {
        if chunks.len() > 0 {
            let ghost before = chunks@;
            let ghost first = chunks@[0]@;
            proof {
                assert(want[0] == with_root_files(folder_chunks(all, n)[0], root_files@));
                assert(want[0].estimate.fits());
                assert(first == folder_chunks(all, n)[0]);
            }
            let mut chunk = chunks.remove(0);
            chunk.includes_root_files = true;
            chunk.estimated_audio_file_count =
            chunk.estimated_audio_file_count + root_files.audio_file_count;
            chunk.estimated_audio_bytes = chunk.estimated_audio_bytes + root_files.audio_bytes;
            chunk.estimated_total_file_count =
            chunk.estimated_total_file_count + root_files.total_file_count;
            chunk.estimated_total_bytes = chunk.estimated_total_bytes + root_files.total_bytes;
            chunks.insert(0, chunk);
            proof {
                assert(chunk_views(chunks@) =~= want);
            }
        } else {
            let ghost none = chunk_of(Seq::empty(), 0);
            let chunk = PlanChunk {
                chunk_id: text::decimal_text(0),
                folders: Vec::new(),
                includes_root_files: true,
                estimated_audio_file_count: root_files.audio_file_count,
                estimated_audio_bytes: root_files.audio_bytes,
                estimated_total_file_count: root_files.total_file_count,
                estimated_total_bytes: root_files.total_bytes,
            };
            chunks.push(chunk);
            proof {
                assert(text::views(chunk.folders@) =~= Seq::<Seq<char>>::empty());
                assert(chunk@ == with_root_files(none, root_files@));
                assert(chunk_views(chunks@) =~= want);
            }
        }
    }
    BackfillPlan {
        plan_id,
        library_root: shape.root.clone(),
        created_at,
        chunk_folders: size,
        chunks,
    }
}

} // verus!

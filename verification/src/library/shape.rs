//! The shape of a library: file counts, byte totals and depth for each folder
//! directly under the root.
//!
//! A scan needs listings and sizes only, never the contents of a file. It is
//! also the raw material that a backfill plan is cut from.

use vstd::prelude::*;

use crate::error::Error;
use crate::import::scan;
use crate::library::listing;
use crate::library::slug;
use crate::selection;
use crate::sort;
use crate::text;

verus! {

/// One entry of a folder listing.
#[derive(Debug)]
pub enum Entry {
    /// A folder with its own listing.
    Dir { path: String, entries: Vec<Entry> },
    /// A file and its size in bytes.
    File { path: String, size: u64 },
    /// Anything that is neither.
    Other { path: String },
}

/// What stands at the path that a scan starts from.
#[derive(Debug)]
pub enum RootListing {
    /// Nothing, or something other than a folder.
    NotADirectory,
    /// A folder with these entries, in any order.
    Directory { entries: Vec<Entry> },
}

/// Totals for one subtree: a folder directly under the library root, or the
/// loose files in the root itself.
#[derive(Debug, Clone, PartialEq, Eq)]
pub struct SubtreeShape {
    /// The slug of this subtree. `None` for the loose files in the root.
    pub relative_path: Option<String>,
    pub audio_file_count: u64,
    pub audio_bytes: u64,
    pub total_file_count: u64,
    pub total_bytes: u64,
    /// The deepest file, in folder levels below the library root: 0 for a
    /// file in the root itself.
    pub max_depth: u32,
}

/// The full shape of a library root.
#[derive(Debug, Clone, PartialEq, Eq)]
pub struct LibraryShape {
    pub root: String,
    /// One for each folder directly under the root, in path order.
    pub subtrees: Vec<SubtreeShape>,
    /// The loose files in the root, if there are any.
    pub root_files: Option<SubtreeShape>,
    pub audio_file_count: u64,
    pub audio_bytes: u64,
    pub total_file_count: u64,
    pub total_bytes: u64,
    pub max_depth: u32,
}

/// Options of a shape scan.
#[derive(Debug, Clone, Copy, PartialEq, Eq, Structural)]
pub struct ShapeOptions {
    pub include_dotfiles: bool,
}

impl Default for ShapeOptions {
    fn default() -> (r: ShapeOptions)
        ensures
            r == (ShapeOptions { include_dotfiles: false }),
    {
        ShapeOptions { include_dotfiles: false }
    }
}

/// Counts, bytes and depth of a set of files.
pub struct Totals {
    pub audio_files: int,
    pub audio_bytes: int,
    pub files: int,
    pub bytes: int,
    pub depth: int,
}

/// The larger of two numbers.
pub open spec fn larger(a: int, b: int) -> int {
    if a >= b {
        a
    } else {
        b
    }
}

impl Totals {
    /// No files.
    pub open spec fn zero() -> Totals {
        Totals { audio_files: 0, audio_bytes: 0, files: 0, bytes: 0, depth: 0 }
    }

    /// Both sets together.
    pub open spec fn plus(self, other: Totals) -> Totals {
        Totals {
            audio_files: self.audio_files + other.audio_files,
            audio_bytes: self.audio_bytes + other.audio_bytes,
            files: self.files + other.files,
            bytes: self.bytes + other.bytes,
            depth: larger(self.depth, other.depth),
        }
    }

    /// Whether the numbers fit in the machine's integers.
    pub open spec fn fits(self) -> bool {
        &&& 0 <= self.audio_files <= u64::MAX
        &&& 0 <= self.audio_bytes <= u64::MAX
        &&& 0 <= self.files <= u64::MAX
        &&& 0 <= self.bytes <= u64::MAX
        &&& 0 <= self.depth <= u32::MAX
    }

    /// Whether no number is negative.
    pub open spec fn natural(self) -> bool {
        &&& 0 <= self.audio_files
        &&& 0 <= self.audio_bytes
        &&& 0 <= self.files
        &&& 0 <= self.bytes
        &&& 0 <= self.depth
    }
}

/// The totals of one file at a given depth.
pub open spec fn file_totals(path: Seq<char>, size: int, depth: int) -> Totals {
    let audio = scan::extension_in(path, scan::DEFAULT_AUDIO_EXTENSIONS@);
    Totals {
        audio_files: if audio {
            1
        } else {
            0
        },
        audio_bytes: if audio {
            size
        } else {
            0
        },
        files: 1,
        bytes: size,
        depth,
    }
}

/// The path of an entry.
pub open spec fn entry_path(e: Entry) -> Seq<char> {
    match e {
        Entry::Dir { path, .. } => path@,
        Entry::File { path, .. } => path@,
        Entry::Other { path } => path@,
    }
}

/// The totals of what one entry at a given depth holds, hidden files and
/// folders left out.
pub open spec fn entry_totals(e: Entry, depth: int, include_dotfiles: bool) -> Totals
    decreases e,
{
    if scan::hidden(entry_path(e), include_dotfiles) {
        Totals::zero()
    } else {
        match e {
            Entry::Dir { path, entries } => listing_totals(entries@, depth + 1, include_dotfiles),
            Entry::File { path, size } => file_totals(path@, size as int, depth),
            Entry::Other { path } => Totals::zero(),
        }
    }
}

/// The totals of a listing whose files stand at a given depth.
pub open spec fn listing_totals(entries: Seq<Entry>, depth: int, include_dotfiles: bool) -> Totals
    decreases entries,
{
    if entries.len() == 0 {
        Totals::zero()
    } else {
        listing_totals(entries.drop_last(), depth, include_dotfiles).plus(
            entry_totals(entries.last(), depth, include_dotfiles),
        )
    }
}

/// How many levels of folders an entry has.
pub open spec fn entry_height(e: Entry) -> int
    decreases e,
{
    match e {
        Entry::Dir { path, entries } => 1 + listing_height(entries@),
        _ => 0,
    }
}

/// How many levels of folders a listing has.
pub open spec fn listing_height(entries: Seq<Entry>) -> int
    decreases entries,
{
    if entries.len() == 0 {
        0
    } else {
        larger(listing_height(entries.drop_last()), entry_height(entries.last()))
    }
}

/// No total is negative.
proof fn lemma_entry_natural(e: Entry, depth: int, include_dotfiles: bool)
    requires
        depth >= 0,
    ensures
        entry_totals(e, depth, include_dotfiles).natural(),
        entry_height(e) >= 0,
    decreases e,
{
    match e {
        Entry::Dir { path, entries } => {
            lemma_listing_natural(entries@, depth + 1, include_dotfiles);
        },
        _ => {},
    }
}

/// No total is negative.
proof fn lemma_listing_natural(entries: Seq<Entry>, depth: int, include_dotfiles: bool)
    requires
        depth >= 0,
    ensures
        listing_totals(entries, depth, include_dotfiles).natural(),
        listing_height(entries) >= 0,
    decreases entries,
{
    if entries.len() > 0 {
        lemma_listing_natural(entries.drop_last(), depth, include_dotfiles);
        lemma_entry_natural(entries.last(), depth, include_dotfiles);
    }
}

/// The first entries of a listing hold no more than all of it.
proof fn lemma_listing_prefix(entries: Seq<Entry>, n: int, depth: int, include_dotfiles: bool)
    requires
        0 <= n <= entries.len(),
        depth >= 0,
    ensures
        listing_totals(entries.take(n), depth, include_dotfiles).audio_files <= listing_totals(
            entries,
            depth,
            include_dotfiles,
        ).audio_files,
        listing_totals(entries.take(n), depth, include_dotfiles).audio_bytes <= listing_totals(
            entries,
            depth,
            include_dotfiles,
        ).audio_bytes,
        listing_totals(entries.take(n), depth, include_dotfiles).files <= listing_totals(
            entries,
            depth,
            include_dotfiles,
        ).files,
        listing_totals(entries.take(n), depth, include_dotfiles).bytes <= listing_totals(
            entries,
            depth,
            include_dotfiles,
        ).bytes,
        listing_totals(entries.take(n), depth, include_dotfiles).depth <= listing_totals(
            entries,
            depth,
            include_dotfiles,
        ).depth,
        listing_height(entries.take(n)) <= listing_height(entries),
    decreases entries.len(),
{
    if n == entries.len() {
        assert(entries.take(n) =~= entries);
    } else {
        lemma_listing_prefix(entries.drop_last(), n, depth, include_dotfiles);
        assert(entries.drop_last().take(n) =~= entries.take(n));
        lemma_entry_natural(entries.last(), depth, include_dotfiles);
        lemma_listing_natural(entries.drop_last(), depth, include_dotfiles);
    }
}

/// Running totals of a scan.
#[derive(Clone, Copy)]
struct Accumulator {
    audio_file_count: u64,
    audio_bytes: u64,
    total_file_count: u64,
    total_bytes: u64,
    max_depth: u32,
}

impl Accumulator {
    spec fn totals(self) -> Totals {
        Totals {
            audio_files: self.audio_file_count as int,
            audio_bytes: self.audio_bytes as int,
            files: self.total_file_count as int,
            bytes: self.total_bytes as int,
            depth: self.max_depth as int,
        }
    }

    fn empty() -> (r: Accumulator)
        ensures
            r.totals() == Totals::zero(),
    {
        Accumulator {
            audio_file_count: 0,
            audio_bytes: 0,
            total_file_count: 0,
            total_bytes: 0,
            max_depth: 0,
        }
    }

    fn add_file(&mut self, path: &str, size: u64, depth: u32)
        requires
            old(self).totals().plus(file_totals(path@, size as int, depth as int)).fits(),
        ensures
            final(self).totals() == old(self).totals().plus(
                file_totals(path@, size as int, depth as int),
            ),
    {
        self.total_file_count = self.total_file_count + 1;
        self.total_bytes = self.total_bytes + size;
        if scan::is_audio(path, &scan::DEFAULT_AUDIO_EXTENSIONS) {
            self.audio_file_count = self.audio_file_count + 1;
            self.audio_bytes = self.audio_bytes + size;
        }
        if depth > self.max_depth {
            self.max_depth = depth;
        }
    }

    fn merge(&mut self, other: &Accumulator)
        requires
            old(self).totals().plus(other.totals()).fits(),
        ensures
            final(self).totals() == old(self).totals().plus(other.totals()),
    {
        self.audio_file_count = self.audio_file_count + other.audio_file_count;
        self.audio_bytes = self.audio_bytes + other.audio_bytes;
        self.total_file_count = self.total_file_count + other.total_file_count;
        self.total_bytes = self.total_bytes + other.total_bytes;
        if other.max_depth > self.max_depth {
            self.max_depth = other.max_depth;
        }
    }

    fn into_shape(self, relative_path: Option<String>) -> (r: SubtreeShape)
        ensures
            subtree_totals(r) == self.totals(),
            r.relative_path == relative_path,
    {
        SubtreeShape {
            relative_path,
            audio_file_count: self.audio_file_count,
            audio_bytes: self.audio_bytes,
            total_file_count: self.total_file_count,
            total_bytes: self.total_bytes,
            max_depth: self.max_depth,
        }
    }
}

/// The numbers of a subtree.
pub open spec fn subtree_totals(s: SubtreeShape) -> Totals {
    Totals {
        audio_files: s.audio_file_count as int,
        audio_bytes: s.audio_bytes as int,
        files: s.total_file_count as int,
        bytes: s.total_bytes as int,
        depth: s.max_depth as int,
    }
}

/// The numbers of a whole library.
pub open spec fn shape_totals(s: LibraryShape) -> Totals {
    Totals {
        audio_files: s.audio_file_count as int,
        audio_bytes: s.audio_bytes as int,
        files: s.total_file_count as int,
        bytes: s.total_bytes as int,
        depth: s.max_depth as int,
    }
}

/// Adds up what a listing holds, folder by folder.
fn walk_subtree(entries: &Vec<Entry>, depth: u32, include_dotfiles: bool, acc: &mut Accumulator)
    requires
        old(acc).totals().plus(listing_totals(entries@, depth as int, include_dotfiles)).fits(),
        depth + listing_height(entries@) <= u32::MAX,
    ensures
        final(acc).totals() == old(acc).totals().plus(
            listing_totals(entries@, depth as int, include_dotfiles),
        ),
    decreases entries@,
{
    let ghost start = acc.totals();
    let ghost all = listing_totals(entries@, depth as int, include_dotfiles);
    let mut i: usize = 0;
    proof {
        assert(entries@.take(0) =~= Seq::<Entry>::empty());
        assert(start.plus(Totals::zero()) == start);
    }
    while i < entries.len()
        invariant
            i <= entries@.len(),
            all == listing_totals(entries@, depth as int, include_dotfiles),
            start.natural(),
            start.plus(all).fits(),
            depth + listing_height(entries@) <= u32::MAX,
            acc.totals() == start.plus(
                listing_totals(entries@.take(i as int), depth as int, include_dotfiles),
            ),
        decreases entries@.len() - i,
    {
        let entry: &Entry = &entries[i];
        let ghost here = listing_totals(entries@.take(i as int), depth as int, include_dotfiles);
        let ghost one = entry_totals(*entry, depth as int, include_dotfiles);
        proof {
            let next = entries@.take(i + 1);
            assert(next.drop_last() =~= entries@.take(i as int));
            assert(next.last() == *entry);
            lemma_listing_prefix(entries@, i + 1, depth as int, include_dotfiles);
            lemma_listing_natural(entries@.take(i as int), depth as int, include_dotfiles);
            lemma_entry_natural(*entry, depth as int, include_dotfiles);
            assert(listing_totals(next, depth as int, include_dotfiles) == here.plus(one));
            assert(start.plus(here).plus(one) == start.plus(here.plus(one)));
            assert(start.plus(here.plus(one)).fits());
        }
        match entry {
            Entry::Dir { path, entries: inner } => {
                if !scan::is_hidden(path.as_str(), include_dotfiles) {
                    proof {
                        lemma_listing_natural(inner@, depth + 1, include_dotfiles);
                    }
                    walk_subtree(inner, depth + 1, include_dotfiles, acc);
                } else {
                    proof {
                        assert(start.plus(here).plus(Totals::zero()) == start.plus(here));
                    }
                }
            },
            Entry::File { path, size } => {
                if !scan::is_hidden(path.as_str(), include_dotfiles) {
                    acc.add_file(path.as_str(), *size, depth);
                } else {
                    proof {
                        assert(start.plus(here).plus(Totals::zero()) == start.plus(here));
                    }
                }
            },
            Entry::Other { path } => {
                proof {
                    assert(start.plus(here).plus(Totals::zero()) == start.plus(here));
                }
            },
        }
        i = i + 1;
    }
    proof {
        assert(entries@.take(entries@.len() as int) =~= entries@);
    }
}

/// A subtree, as the contracts speak of it.
pub struct SubtreeView {
    pub relative_path: Option<Seq<char>>,
    pub totals: Totals,
}

/// A library shape, as the contracts speak of it.
pub struct ShapeView {
    pub root: Seq<char>,
    pub subtrees: Seq<SubtreeView>,
    pub root_files: Option<SubtreeView>,
    pub totals: Totals,
}

impl View for SubtreeShape {
    type V = SubtreeView;

    open spec fn view(&self) -> SubtreeView {
        SubtreeView {
            relative_path: text::opt_view(self.relative_path),
            totals: subtree_totals(*self),
        }
    }
}

/// The subtrees that a list holds.
pub open spec fn subtree_views(list: Seq<SubtreeShape>) -> Seq<SubtreeView> {
    list.map_values(|s: SubtreeShape| s@)
}

impl View for LibraryShape {
    type V = ShapeView;

    open spec fn view(&self) -> ShapeView {
        ShapeView {
            root: self.root@,
            subtrees: subtree_views(self.subtrees@),
            root_files: match self.root_files {
                Some(s) => Some(s@),
                None => None,
            },
            totals: shape_totals(*self),
        }
    }
}

/// What the contracts say of the numbers of a shape they say of its fields, each under
/// its own name.
pub proof fn law_shape_is_seen_field_by_field(s: LibraryShape, i: int)
    requires
        0 <= i < s.subtrees@.len(),
    ensures
        s@.root == s.root@,
        s@.totals.audio_files == s.audio_file_count,
        s@.totals.audio_bytes == s.audio_bytes,
        s@.totals.files == s.total_file_count,
        s@.totals.bytes == s.total_bytes,
        s@.totals.depth == s.max_depth,
        s@.subtrees.len() == s.subtrees@.len(),
        ({
            let v = s@.subtrees[i];
            let t = s.subtrees@[i];
            &&& v.totals.audio_files == t.audio_file_count
            &&& v.totals.audio_bytes == t.audio_bytes
            &&& v.totals.files == t.total_file_count
            &&& v.totals.bytes == t.total_bytes
            &&& v.totals.depth == t.max_depth
            &&& v.relative_path is Some <==> t.relative_path is Some
            &&& v.relative_path is Some ==> v.relative_path->0 == t.relative_path->0@
        }),
        s@.root_files is Some <==> s.root_files is Some,
        s.root_files is Some ==> ({
            let v = s@.root_files->0;
            let t = s.root_files->0;
            &&& v.totals.audio_files == t.audio_file_count
            &&& v.totals.audio_bytes == t.audio_bytes
            &&& v.totals.files == t.total_file_count
            &&& v.totals.bytes == t.total_bytes
            &&& v.totals.depth == t.max_depth
        }),
{
}

/// The subtrees of the folders in a root listing, hidden ones left out.
pub open spec fn subtrees_of(root: Seq<char>, entries: Seq<Entry>, include_dotfiles: bool) -> Seq<
    SubtreeView,
>
    decreases entries.len(),
{
    if entries.len() == 0 {
        Seq::empty()
    } else {
        let front = subtrees_of(root, entries.drop_last(), include_dotfiles);
        match entries.last() {
            Entry::Dir { path, entries: inner } => if scan::hidden(path@, include_dotfiles) {
                front
            } else {
                front.push(
                    SubtreeView {
                        relative_path: slug::slug(root, path@),
                        totals: listing_totals(inner@, 1, include_dotfiles),
                    },
                )
            },
            _ => front,
        }
    }
}

/// The totals of several subtrees together.
pub open spec fn sum_subtrees(list: Seq<SubtreeView>) -> Totals
    decreases list.len(),
{
    if list.len() == 0 {
        Totals::zero()
    } else {
        sum_subtrees(list.drop_last()).plus(list.last().totals)
    }
}

/// The totals of the loose files in a root listing, hidden ones left out.
pub open spec fn loose_totals(entries: Seq<Entry>, include_dotfiles: bool) -> Totals
    decreases entries.len(),
{
    if entries.len() == 0 {
        Totals::zero()
    } else {
        let front = loose_totals(entries.drop_last(), include_dotfiles);
        match entries.last() {
            Entry::File { path, size } => if scan::hidden(path@, include_dotfiles) {
                front
            } else {
                front.plus(file_totals(path@, size as int, 0))
            },
            _ => front,
        }
    }
}

/// The paths of the entries of a listing.
pub open spec fn entry_paths(entries: Seq<Entry>) -> Seq<Seq<char>> {
    entries.map_values(|e: Entry| entry_path(e))
}

/// The entries of a listing in path order.
pub open spec fn in_path_order(entries: Seq<Entry>) -> Seq<Entry> {
    sort::arranged(entries, sort::path_order(entry_paths(entries)))
}

/// The shape of a library whose root holds these entries.
pub open spec fn shape_of(root: Seq<char>, entries: Seq<Entry>, include_dotfiles: bool) -> ShapeView {
    let sorted = in_path_order(entries);
    let subtrees = subtrees_of(root, sorted, include_dotfiles);
    let loose = loose_totals(sorted, include_dotfiles);
    ShapeView {
        root,
        subtrees,
        root_files: if loose.files > 0 {
            Some(SubtreeView { relative_path: None, totals: loose })
        } else {
            None
        },
        totals: sum_subtrees(subtrees).plus(loose),
    }
}

/// Whether the counts, sizes and depths of a listing fit in the machine's
/// integers.
pub open spec fn listing_fits(entries: Seq<Entry>, include_dotfiles: bool) -> bool {
    listing_totals(entries, 0, include_dotfiles).fits() && listing_height(entries) <= u32::MAX
}

/// Whether indices are those below their number, each once.
spec fn is_permutation(order: Seq<usize>) -> bool {
    &&& forall|a: int| 0 <= a < order.len() ==> #[trigger] order[a] < order.len()
    &&& forall|a: int, b: int|
        0 <= a < b < order.len() ==> #[trigger] order[a] != #[trigger] order[b]
    &&& forall|x: int| 0 <= x < order.len() ==> #[trigger] sort::lists(order, x)
}

/// What a listing holds is what is left without one of its entries, and that
/// entry.
proof fn lemma_without_entry(entries: Seq<Entry>, a: int, depth: int, include_dotfiles: bool)
    requires
        0 <= a < entries.len(),
    ensures
        listing_totals(entries, depth, include_dotfiles) == listing_totals(
            entries.remove(a),
            depth,
            include_dotfiles,
        ).plus(entry_totals(entries[a], depth, include_dotfiles)),
        listing_height(entries) == larger(
            listing_height(entries.remove(a)),
            entry_height(entries[a]),
        ),
    decreases entries.len(),
{
    if a == entries.len() - 1 {
        assert(entries.remove(a) =~= entries.drop_last());
    } else {
        lemma_without_entry(entries.drop_last(), a, depth, include_dotfiles);
        assert(entries.remove(a).drop_last() =~= entries.drop_last().remove(a));
        assert(entries.remove(a).last() == entries.last());
    }
}

/// What a listing holds does not depend on its order.
proof fn lemma_rearranged(
    entries: Seq<Entry>,
    order: Seq<usize>,
    depth: int,
    include_dotfiles: bool,
)
    requires
        order.len() == entries.len(),
        is_permutation(order),
    ensures
        listing_totals(sort::arranged(entries, order), depth, include_dotfiles) == listing_totals(
            entries,
            depth,
            include_dotfiles,
        ),
        listing_height(sort::arranged(entries, order)) == listing_height(entries),
    decreases entries.len(),
{
    let all = sort::arranged(entries, order);
    if entries.len() > 0 {
        let n = entries.len() - 1;
        assert(sort::lists(order, n));
        let a = choose|a: int| 0 <= a < order.len() && #[trigger] order[a] == n;
        let rest = order.remove(a);
        let front = entries.drop_last();
        assert forall|b: int| 0 <= b < rest.len() implies #[trigger] rest[b] < rest.len() by {
            let c = if b < a {
                b
            } else {
                b + 1
            };
            assert(rest[b] == order[c]);
            assert(order[c] != order[a]);
        }
        assert forall|b: int, c: int| 0 <= b < c < rest.len() implies #[trigger] rest[b]
            != #[trigger] rest[c] by {
            assert(rest[b] == order[if b < a {
                b
            } else {
                b + 1
            }]);
            assert(rest[c] == order[if c < a {
                c
            } else {
                c + 1
            }]);
        }
        assert forall|x: int| 0 <= x < rest.len() implies #[trigger] sort::lists(rest, x) by {
            assert(sort::lists(order, x));
            let c = choose|c: int| 0 <= c < order.len() && #[trigger] order[c] == x;
            assert(rest[if c < a {
                c
            } else {
                c - 1
            }] == x);
        }
        lemma_rearranged(front, rest, depth, include_dotfiles);
        assert(all.remove(a) =~= sort::arranged(front, rest));
        lemma_without_entry(all, a, depth, include_dotfiles);
        assert(all[a] == entries.last());
    } else {
        assert(all =~= entries);
    }
}

/// The sorted order of paths lists each of them once.
proof fn lemma_path_order_permutes(paths: Seq<Seq<char>>, order: Seq<usize>)
    requires
        sort::is_path_order(paths, order),
    ensures
        is_permutation(order),
{
    assert forall|a: int, b: int| 0 <= a < b < order.len() implies #[trigger] order[a]
        != #[trigger] order[b] by {
        assert(sort::path_before(paths, order[a] as int, order[b] as int));
    }
}

/// What a root listing holds is what its folders and its loose files hold.
proof fn lemma_root_totals(root: Seq<char>, entries: Seq<Entry>, include_dotfiles: bool)
    ensures
        listing_totals(entries, 0, include_dotfiles) == sum_subtrees(
            subtrees_of(root, entries, include_dotfiles),
        ).plus(loose_totals(entries, include_dotfiles)),
        sum_subtrees(subtrees_of(root, entries, include_dotfiles)).natural(),
        loose_totals(entries, include_dotfiles).natural(),
        loose_totals(entries, include_dotfiles).files == 0 ==> loose_totals(
            entries,
            include_dotfiles,
        ) == Totals::zero(),
    decreases entries.len(),
{
    if entries.len() > 0 {
        lemma_root_totals(root, entries.drop_last(), include_dotfiles);
        let front = subtrees_of(root, entries.drop_last(), include_dotfiles);
        lemma_entry_natural(entries.last(), 0, include_dotfiles);
        match entries.last() {
            Entry::Dir { path, entries: inner } => {
                if !scan::hidden(path@, include_dotfiles) {
                    let one = SubtreeView {
                        relative_path: slug::slug(root, path@),
                        totals: listing_totals(inner@, 1, include_dotfiles),
                    };
                    assert(front.push(one).drop_last() =~= front);
                }
            },
            _ => {},
        }
    }
}

/// A file of a listing: its path, its size and its depth.
pub struct FileAt {
    pub path: Seq<char>,
    pub size: int,
    pub depth: int,
}

/// What a scan takes down of a file.
pub open spec fn file_at() -> spec_fn(Entry, int) -> FileAt {
    |e: Entry, depth: int|
        FileAt { path: entry_path(e), size: e->File_size as int, depth }
}

/// Whether an entry is a file.
pub open spec fn is_file() -> spec_fn(Entry) -> bool {
    |e: Entry| e is File
}

/// Whether a file is audio.
pub open spec fn is_audio_file(f: FileAt) -> bool {
    scan::extension_in(f.path, scan::DEFAULT_AUDIO_EXTENSIONS@)
}

/// The sizes of files.
pub open spec fn sizes(files: Seq<FileAt>) -> Seq<int> {
    files.map_values(|f: FileAt| f.size)
}

/// The files that are audio.
pub open spec fn audio_of(files: Seq<FileAt>) -> Seq<FileAt> {
    files.filter(|f: FileAt| is_audio_file(f))
}

/// Whether totals are those of a flat list of files: the number of all of them and
/// of the audio among them, what the sizes of all of them and of the audio add up
/// to, and the depth of the deepest.
pub open spec fn tallies(t: Totals, files: Seq<FileAt>) -> bool {
    &&& t.files == files.len()
    &&& t.bytes == selection::sum(sizes(files))
    &&& t.audio_files == audio_of(files).len()
    &&& t.audio_bytes == selection::sum(sizes(audio_of(files)))
    &&& forall|a: int| 0 <= a < files.len() ==> (#[trigger] files[a]).depth <= t.depth
    &&& if files.len() == 0 {
        t.depth == 0
    } else {
        exists|a: int| 0 <= a < files.len() && (#[trigger] files[a]).depth == t.depth
    }
}

/// Whether totals are those of all the files in a listing, at any depth, behind no
/// name that starts with a dot unless those are included.
pub open spec fn adds_up(t: Totals, entries: Seq<Entry>, depth: int, include_dotfiles: bool) -> bool {
    exists|trails: Seq<Seq<int>>|
        {
            &&& #[trigger] listing::is_walk(entries, trails, is_file(), include_dotfiles)
            &&& tallies(t, listing::gathered(entries, trails, file_at(), depth))
        }
}

proof fn lemma_tallies_file(path: Seq<char>, size: int, depth: int)
    ensures
        tallies(file_totals(path, size, depth), seq![FileAt { path, size, depth }]),
{
    let f = FileAt { path, size, depth };
    let files = seq![f];
    reveal(Seq::filter);
    assert(files.drop_last() =~= Seq::<FileAt>::empty());
    assert(Seq::<FileAt>::empty().filter(|g: FileAt| is_audio_file(g)) =~= Seq::empty());
    assert(sizes(files) =~= Seq::empty().push(size));
    selection::lemma_sum_push(Seq::empty(), size);
    if is_audio_file(f) {
        assert(audio_of(files) =~= files);
    } else {
        assert(audio_of(files) =~= Seq::<FileAt>::empty());
        assert(sizes(Seq::<FileAt>::empty()) =~= Seq::<int>::empty());
    }
    assert(files[0].depth == depth);
}

proof fn lemma_tallies_none()
    ensures
        tallies(Totals::zero(), Seq::empty()),
{
    let none = Seq::<FileAt>::empty();
    reveal(Seq::filter);
    assert(audio_of(none) =~= none);
    assert(sizes(none) =~= Seq::<int>::empty());
}

proof fn lemma_tallies_both(a: Totals, b: Totals, x: Seq<FileAt>, y: Seq<FileAt>)
    requires
        tallies(a, x),
        tallies(b, y),
        a.natural(),
        b.natural(),
    ensures
        tallies(a.plus(b), x + y),
{
    let all = x + y;
    assert(sizes(all) =~= sizes(x) + sizes(y));
    selection::lemma_sum_append(sizes(x), sizes(y));
    Seq::filter_distributes_over_add(x, y, |f: FileAt| is_audio_file(f));
    assert(audio_of(all) == audio_of(x) + audio_of(y));
    assert(sizes(audio_of(all)) =~= sizes(audio_of(x)) + sizes(audio_of(y)));
    selection::lemma_sum_append(sizes(audio_of(x)), sizes(audio_of(y)));
    let t = a.plus(b);
    assert forall|k: int| 0 <= k < all.len() implies (#[trigger] all[k]).depth <= t.depth by {
        if k < x.len() {
            assert(all[k] == x[k]);
        } else {
            assert(all[k] == y[k - x.len()]);
        }
    }
    if x.len() > 0 && (a.depth >= b.depth || y.len() == 0) {
        let k = choose|k: int| 0 <= k < x.len() && (#[trigger] x[k]).depth == a.depth;
        assert(all[k] == x[k]);
    } else if y.len() > 0 {
        let k = choose|k: int| 0 <= k < y.len() && (#[trigger] y[k]).depth == b.depth;
        assert(all[x.len() + k] == y[k]);
    }
}

proof fn lemma_listing_tallies(entries: Seq<Entry>, depth: int, include_dotfiles: bool)
    requires
        depth >= 0,
    ensures
        tallies(
            listing_totals(entries, depth, include_dotfiles),
            listing::gathered(
                entries,
                listing::walk(entries, is_file(), include_dotfiles),
                file_at(),
                depth,
            ),
        ),
    decreases entries,
{
    let all = listing::gathered(
        entries,
        listing::walk(entries, is_file(), include_dotfiles),
        file_at(),
        depth,
    );
    lemma_tallies_none();
    if entries.len() > 0 {
        let front = entries.drop_last();
        let e = entries.last();
        lemma_listing_tallies(front, depth, include_dotfiles);
        listing::lemma_gathered(entries, is_file(), include_dotfiles, file_at(), depth);
        lemma_listing_natural(front, depth, include_dotfiles);
        lemma_entry_natural(e, depth, include_dotfiles);
        let before = listing::gathered(
            front,
            listing::walk(front, is_file(), include_dotfiles),
            file_at(),
            depth,
        );
        let more = if scan::hidden(entry_path(e), include_dotfiles) {
            Seq::empty()
        } else {
            match e {
                Entry::Dir { path, entries: inner } => listing::gathered(
                    inner@,
                    listing::walk(inner@, is_file(), include_dotfiles),
                    file_at(),
                    depth + 1,
                ),
                _ => if is_file()(e) {
                    seq![file_at()(e, depth)]
                } else {
                    Seq::empty()
                },
            }
        };
        match e {
            Entry::Dir { path, entries: inner } => {
                lemma_listing_tallies(inner@, depth + 1, include_dotfiles);
            },
            Entry::File { path, size } => {
                lemma_tallies_file(path@, size as int, depth);
            },
            Entry::Other { .. } => {},
        }
        assert(tallies(entry_totals(e, depth, include_dotfiles), more));
        lemma_tallies_both(
            listing_totals(front, depth, include_dotfiles),
            entry_totals(e, depth, include_dotfiles),
            before,
            more,
        );
    } else {
        assert(all =~= Seq::empty());
    }
}

/// The totals of a listing are those of the files in it: every file counts once,
/// with its size, whatever its extension; audio counts as audio too; what stands
/// behind a name that starts with a dot counts only if it is asked for.
pub proof fn law_totals_count_every_file(entries: Seq<Entry>, depth: int, include_dotfiles: bool)
    requires
        depth >= 0,
    ensures
        adds_up(
            listing_totals(entries, depth, include_dotfiles),
            entries,
            depth,
            include_dotfiles,
        ),
{
    lemma_listing_tallies(entries, depth, include_dotfiles);
    listing::law_walk_sees_all(entries, is_file(), include_dotfiles);
}

/// Whether an entry's name does not keep a scan from looking at it.
pub open spec fn is_shown(e: Entry, include_dotfiles: bool) -> bool {
    include_dotfiles || !listing::is_dotted(entry_path(e))
}

/// Whether subtrees are those of the folders among the given entries, in their
/// order: each with its slug and the totals of all the files in it.
pub open spec fn reports_folders(
    subtrees: Seq<SubtreeView>,
    root: Seq<char>,
    entries: Seq<Entry>,
    include_dotfiles: bool,
) -> bool {
    exists|at: Seq<int>|
        {
            &&& #[trigger] selection::picks(
                at,
                entries.len() as int,
                folders_of(entries, include_dotfiles),
                itself(),
                at,
            )
            &&& subtrees.len() == at.len()
            &&& forall|k: int|
                0 <= k < at.len() ==> {
                    let s = #[trigger] subtrees[k];
                    let e = entries[at[k]];
                    &&& s.relative_path == slug::slug(root, entry_path(e))
                    &&& adds_up(s.totals, e->Dir_entries@, 1, include_dotfiles)
                }
        }
}

/// Which entries are folders that a scan looks into.
pub open spec fn folders_of(entries: Seq<Entry>, include_dotfiles: bool) -> spec_fn(int) -> bool {
    |i: int| entries[i] is Dir && is_shown(entries[i], include_dotfiles)
}

/// Which entries are files that a scan counts.
pub open spec fn files_of(entries: Seq<Entry>, include_dotfiles: bool) -> spec_fn(int) -> bool {
    |i: int| entries[i] is File && is_shown(entries[i], include_dotfiles)
}

/// A position, as itself.
pub open spec fn itself() -> spec_fn(int) -> int {
    |i: int| i
}

/// Whether totals are those of the files among the given entries, not of those
/// in their folders.
pub open spec fn reports_loose(t: Totals, entries: Seq<Entry>, include_dotfiles: bool) -> bool {
    exists|files: Seq<FileAt>|
        {
            &&& #[trigger] tallies(t, files)
            &&& selection::is_selection(
                files,
                entries.len() as int,
                files_of(entries, include_dotfiles),
                |i: int| file_at()(entries[i], 0),
            )
        }
}

proof fn lemma_loose(entries: Seq<Entry>, include_dotfiles: bool) -> (files: Seq<FileAt>)
    ensures
        tallies(loose_totals(entries, include_dotfiles), files),
        selection::is_selection(
            files,
            entries.len() as int,
            files_of(entries, include_dotfiles),
            |i: int| file_at()(entries[i], 0),
        ),
        loose_totals(entries, include_dotfiles).natural(),
    decreases entries.len(),
{
    let keep = files_of(entries, include_dotfiles);
    let item = |i: int| file_at()(entries[i], 0);
    if entries.len() == 0 {
        lemma_tallies_none();
        selection::lemma_selection_empty(keep, item);
        Seq::empty()
    } else {
        let front = entries.drop_last();
        let e = entries.last();
        let n = entries.len() - 1;
        let before = lemma_loose(front, include_dotfiles);
        let files = if keep(n) {
            before.push(item(n))
        } else {
            before
        };
        selection::lemma_selection_grows(
            before,
            n,
            files_of(front, include_dotfiles),
            |i: int| file_at()(front[i], 0),
            files,
            keep,
            item,
        );
        if keep(n) {
            let path = e->File_path@;
            let size = e->File_size as int;
            lemma_tallies_file(path, size, 0);
            lemma_tallies_both(
                loose_totals(front, include_dotfiles),
                file_totals(path, size, 0),
                before,
                seq![FileAt { path, size, depth: 0 }],
            );
            assert(files =~= before + seq![FileAt { path, size, depth: 0 }]);
        }
        files
    }
}

proof fn lemma_folders(root: Seq<char>, entries: Seq<Entry>, include_dotfiles: bool)
    ensures
        reports_folders(
            subtrees_of(root, entries, include_dotfiles),
            root,
            entries,
            include_dotfiles,
        ),
    decreases entries.len(),
{
    let keep = folders_of(entries, include_dotfiles);
    let all = subtrees_of(root, entries, include_dotfiles);
    if entries.len() == 0 {
        assert(selection::picks(Seq::<int>::empty(), 0, keep, itself(), Seq::empty()));
    } else {
        let front = entries.drop_last();
        let n = entries.len() - 1;
        let before = subtrees_of(root, front, include_dotfiles);
        lemma_folders(root, front, include_dotfiles);
        let keep_front = folders_of(front, include_dotfiles);
        let old_at = choose|at: Seq<int>|
            {
                &&& #[trigger] selection::picks(at, n, keep_front, itself(), at)
                &&& before.len() == at.len()
                &&& forall|k: int|
                    0 <= k < at.len() ==> {
                        let s = #[trigger] before[k];
                        let e = front[at[k]];
                        &&& s.relative_path == slug::slug(root, entry_path(e))
                        &&& adds_up(s.totals, e->Dir_entries@, 1, include_dotfiles)
                    }
            };
        let at = if keep(n) {
            old_at.push(n)
        } else {
            old_at
        };
        assert forall|a: int| 0 <= a < at.len() implies 0 <= #[trigger] at[a] < n + 1 && keep(
            at[a],
        ) && at[a] == itself()(at[a]) by {
            if a < old_at.len() {
                assert(at[a] == old_at[a]);
                assert(keep_front(old_at[a]));
            }
        }
        assert forall|i: int| 0 <= i < n + 1 && #[trigger] keep(i) implies at.contains(i) by {
            if i < n {
                assert(keep_front(i));
                let a = choose|a: int| 0 <= a < old_at.len() && old_at[a] == i;
                assert(at[a] == i);
            } else {
                assert(at[old_at.len() as int] == n);
            }
        }
        assert(selection::picks(at, n + 1, keep, itself(), at));
        if keep(n) {
            law_totals_count_every_file(entries[n]->Dir_entries@, 1, include_dotfiles);
        }
        assert(all.len() == at.len());
        assert forall|k: int| 0 <= k < at.len() implies {
            let s = #[trigger] all[k];
            let e = entries[at[k]];
            &&& s.relative_path == slug::slug(root, entry_path(e))
            &&& adds_up(s.totals, e->Dir_entries@, 1, include_dotfiles)
        } by {
            if k < old_at.len() {
                assert(all[k] == before[k]);
                assert(at[k] == old_at[k]);
                assert(front[at[k]] == entries[at[k]]);
            }
        }
    }
}

/// Whether a shape is that of a library whose root holds the given entries: the
/// library's totals are those of all its files; there is one subtree for each
/// folder of the root, in path order, with the totals of all the files in it; the
/// loose files of the root stand apart, if there are any.
pub open spec fn is_shape_of(
    s: ShapeView,
    root: Seq<char>,
    entries: Seq<Entry>,
    include_dotfiles: bool,
) -> bool {
    let sorted = in_path_order(entries);
    &&& s.root == root
    &&& sort::is_path_order(entry_paths(entries), sort::path_order(entry_paths(entries)))
    &&& adds_up(s.totals, entries, 0, include_dotfiles)
    &&& reports_folders(s.subtrees, root, sorted, include_dotfiles)
    &&& match s.root_files {
        Some(loose) => loose.relative_path is None && loose.totals.files > 0 && reports_loose(
            loose.totals,
            sorted,
            include_dotfiles,
        ),
        None => forall|i: int|
            0 <= i < entries.len() ==> !(#[trigger] entries[i] is File && is_shown(
                entries[i],
                include_dotfiles,
            )),
    }
}

/// The shape of a library accounts for every file that a scan sees, in its totals
/// and in the subtree that the file stands in.
pub proof fn law_shape_accounts_for_every_file(
    root: Seq<char>,
    entries: Seq<Entry>,
    include_dotfiles: bool,
)
    requires
        entries.len() <= usize::MAX,
    ensures
        is_shape_of(
            shape_of(root, entries, include_dotfiles),
            root,
            entries,
            include_dotfiles,
        ),
{
    let sorted = in_path_order(entries);
    let order = sort::path_order(entry_paths(entries));
    let s = shape_of(root, entries, include_dotfiles);
    sort::law_paths_have_an_order(entry_paths(entries));
    lemma_path_order_permutes(entry_paths(entries), order);
    lemma_rearranged(entries, order, 0, include_dotfiles);
    lemma_root_totals(root, sorted, include_dotfiles);
    law_totals_count_every_file(entries, 0, include_dotfiles);
    lemma_folders(root, sorted, include_dotfiles);
    let files = lemma_loose(sorted, include_dotfiles);
    if s.root_files is None {
        assert(files.len() == 0);
        assert forall|i: int| 0 <= i < entries.len() implies !(#[trigger] entries[i] is File
            && is_shown(entries[i], include_dotfiles)) by {
            assert(sort::lists(order, i));
            let a = choose|a: int| 0 <= a < order.len() && #[trigger] order[a] == i;
            assert(sorted[a] == entries[i]);
            let keep = files_of(sorted, include_dotfiles);
            let item = |i: int| file_at()(sorted[i], 0);
            let at = choose|at: Seq<int>|
                #[trigger] selection::picks(files, sorted.len() as int, keep, item, at);
            if keep(a) {
                assert(at.contains(a));
            }
        }
    } else {
        assert(reports_loose(loose_totals(sorted, include_dotfiles), sorted, include_dotfiles));
    }
}

/// The path of an entry.
fn path_of(e: &Entry) -> (r: &String)
    ensures
        r@ == entry_path(*e),
{
    match e {
        Entry::Dir { path, .. } => path,
        Entry::File { path, .. } => path,
        Entry::Other { path } => path,
    }
}

/// The paths of the entries of a listing.
fn paths_of(entries: &Vec<Entry>) -> (r: Vec<String>)
    ensures
        text::views(r@) == entry_paths(entries@),
{
    let mut r: Vec<String> = Vec::new();
    let mut i: usize = 0;
    while i < entries.len()
        invariant
            i <= entries@.len(),
            r@.len() == i,
            forall|k: int| 0 <= k < i ==> r@[k]@ == entry_path(entries@[k]),
        decreases entries@.len() - i,
    {
        r.push(path_of(&entries[i]).clone());
        i = i + 1;
    }
    proof {
        assert(text::views(r@) =~= entry_paths(entries@));
    }
    r
}

/// Reports the shape of a library root from its listing.
///
/// Fails with `NotFound` if the root is not a folder, and only then.
pub fn scan_library_shape(root: &str, listing: &RootListing, options: &ShapeOptions) -> (r: Result<
    LibraryShape,
    Error,
>)
    requires
        listing matches RootListing::Directory { entries } ==> listing_fits(
            entries@,
            options.include_dotfiles,
        ),
    ensures
        match *listing {
            RootListing::NotADirectory => r matches Err(Error::NotFound(m)) && m@
                == "library root not found or not a directory: "@ + root@,
            RootListing::Directory { entries } => r matches Ok(shape) && shape@ == shape_of(
                root@,
                entries@,
                options.include_dotfiles,
            ) && sort::is_path_order(
                entry_paths(entries@),
                sort::path_order(entry_paths(entries@)),
            ) && is_shape_of(shape@, root@, entries@, options.include_dotfiles),
        },
{
    let entries = match listing {
        RootListing::NotADirectory => {
            return Err(
                Error::NotFound(
                    text::cat2("library root not found or not a directory: ", root),
                ),
            );
        },
        RootListing::Directory { entries } => entries,
    };
    let include_dotfiles: bool = options.include_dotfiles;
    let paths = paths_of(entries);
    let order = sort::order_paths(&paths);
    let ghost sorted = in_path_order(entries@);
    proof {
        lemma_path_order_permutes(entry_paths(entries@), order@);
        lemma_rearranged(entries@, order@, 0, include_dotfiles);
    }
    let mut root_files_acc = Accumulator::empty();
    let mut totals = Accumulator::empty();
    let mut subtrees: Vec<SubtreeShape> = Vec::new();
    let mut i: usize = 0;
    proof {
        assert(sorted.take(0) =~= Seq::<Entry>::empty());
        assert(subtree_views(subtrees@) =~= Seq::<SubtreeView>::empty());
    }
    while i < order.len()
        invariant
            i <= order@.len(),
            sorted == in_path_order(entries@),
            order@ == sort::path_order(entry_paths(entries@)),
            order@.len() == sorted.len(),
            forall|a: int| 0 <= a < order@.len() ==> #[trigger] order@[a] < entries@.len(),
            listing_totals(sorted, 0, include_dotfiles).fits(),
            listing_height(sorted) <= u32::MAX,
            subtree_views(subtrees@) == subtrees_of(root@, sorted.take(i as int), include_dotfiles),
            totals.totals() == sum_subtrees(subtree_views(subtrees@)),
            root_files_acc.totals() == loose_totals(sorted.take(i as int), include_dotfiles),
        decreases order@.len() - i,
    {
        let entry: &Entry = &entries[order[i]];
        let ghost done = subtree_views(subtrees@);
        proof {
            let next = sorted.take(i + 1);
            assert(next.drop_last() =~= sorted.take(i as int));
            assert(next.last() == *entry);
            lemma_listing_prefix(sorted, i + 1, 0, include_dotfiles);
            lemma_listing_natural(sorted.take(i as int), 0, include_dotfiles);
            lemma_entry_natural(*entry, 0, include_dotfiles);
            lemma_root_totals(root@, sorted.take(i as int), include_dotfiles);
            lemma_root_totals(root@, next, include_dotfiles);
        }
        if !scan::is_hidden(path_of(entry).as_str(), include_dotfiles) {
            match entry {
                Entry::Dir { path, entries: inner } => {
                    let mut acc = Accumulator::empty();
                    let ghost inside = listing_totals(inner@, 1, include_dotfiles);
                    proof {
                        lemma_listing_natural(inner@, 1, include_dotfiles);
                        assert(Totals::zero().plus(inside) == inside);
                        assert(done.push(
                            SubtreeView {
                                relative_path: slug::slug(root@, path@),
                                totals: inside,
                            },
                        ).drop_last() =~= done);
                    }
                    walk_subtree(inner, 1, include_dotfiles, &mut acc);
                    totals.merge(&acc);
                    let relative_path = slug::compute_slug(root, path.as_str());
                    let shape = acc.into_shape(relative_path);
                    subtrees.push(shape);
                    proof {
                        assert(subtree_views(subtrees@) =~= done.push(shape@));
                        assert(done.push(shape@).drop_last() =~= done);
                    }
                },
                Entry::File { path, size } => {
                    root_files_acc.add_file(path.as_str(), *size, 0);
                },
                Entry::Other { .. } => {},
            }
        }
        i = i + 1;
    }
    proof {
        assert(sorted.take(sorted.len() as int) =~= sorted);
        lemma_root_totals(root@, sorted, include_dotfiles);
        let sum = sum_subtrees(subtrees_of(root@, sorted, include_dotfiles));
        assert(sum.plus(Totals::zero()) == sum);
        law_shape_accounts_for_every_file(root@, entries@, include_dotfiles);
    }
    let root_files = if root_files_acc.total_file_count > 0 {
        totals.merge(&root_files_acc);
        Some(root_files_acc.into_shape(None))
    } else {
        None
    };
    Ok(
        LibraryShape {
            root: root.to_owned(),
            subtrees,
            root_files,
            audio_file_count: totals.audio_file_count,
            audio_bytes: totals.audio_bytes,
            total_file_count: totals.total_file_count,
            total_bytes: totals.total_bytes,
            max_depth: totals.max_depth,
        },
    )
}

} // verus!

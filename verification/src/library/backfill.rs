//! Giving slugs to entries that were archived before a library root was
//! declared.
//!
//! An entry remembers the absolute path its file was imported from, so a slug
//! can be computed later without reading the file again.

use vstd::prelude::*;

use crate::library::slug;
use crate::model;
use crate::model::ArchiveEntry;
use crate::selection;

verus! {

/// The result of one backfill pass.
#[derive(Debug, Clone, Copy, PartialEq, Eq, Structural)]
pub struct BackfillSlugsReport {
    pub total: usize,
    /// Given a slug in this pass.
    pub backfilled: usize,
    /// Had one before, and were left untouched.
    pub already_had_slug: usize,
    /// Were imported from outside the root, and stay without a slug.
    pub outside_root: usize,
    /// Have no source path to compute a slug from.
    pub no_source_path: usize,
}

impl Default for BackfillSlugsReport {
    fn default() -> (r: BackfillSlugsReport)
        ensures
            r == (BackfillSlugsReport {
                total: 0,
                backfilled: 0,
                already_had_slug: 0,
                outside_root: 0,
                no_source_path: 0,
            }),
    {
        BackfillSlugsReport {
            total: 0,
            backfilled: 0,
            already_had_slug: 0,
            outside_root: 0,
            no_source_path: 0,
        }
    }
}

/// What a pass does with one entry.
pub enum Verdict {
    AlreadyHadSlug,
    NoSourcePath,
    OutsideRoot,
    /// The entry is given this slug.
    Backfill(Seq<char>),
}

/// What a pass does with an entry under a root.
pub open spec fn verdict(library_root: Seq<char>, e: model::EntryView) -> Verdict {
    if e.library_relative_path is Some {
        Verdict::AlreadyHadSlug
    } else {
        match e.source_path_original {
            None => Verdict::NoSourcePath,
            Some(source) => match slug::slug(library_root, source) {
                Some(s) => Verdict::Backfill(s),
                None => Verdict::OutsideRoot,
            },
        }
    }
}

/// An entry with a slug.
pub open spec fn with_slug(e: model::EntryView, s: Seq<char>) -> model::EntryView {
    model::EntryView { library_relative_path: Some(s), ..e }
}

/// The entries that a pass changes, as it leaves them.
pub open spec fn updates(library_root: Seq<char>, entries: Seq<model::EntryView>) -> Seq<
    model::EntryView,
>
    decreases entries.len(),
{
    if entries.len() == 0 {
        Seq::empty()
    } else {
        let front = updates(library_root, entries.drop_last());
        match verdict(library_root, entries.last()) {
            Verdict::Backfill(s) => front.push(with_slug(entries.last(), s)),
            _ => front,
        }
    }
}

/// How many entries get each verdict.
pub open spec fn tally(library_root: Seq<char>, entries: Seq<model::EntryView>) -> (
    int,
    int,
    int,
    int,
)
    decreases entries.len(),
{
    if entries.len() == 0 {
        (0, 0, 0, 0)
    } else {
        let (b, a, o, n) = tally(library_root, entries.drop_last());
        match verdict(library_root, entries.last()) {
            Verdict::Backfill(_) => (b + 1, a, o, n),
            Verdict::AlreadyHadSlug => (b, a + 1, o, n),
            Verdict::OutsideRoot => (b, a, o + 1, n),
            Verdict::NoSourcePath => (b, a, o, n + 1),
        }
    }
}

/// Every entry is counted once.
pub proof fn law_report_accounts_for_every_entry(
    library_root: Seq<char>,
    entries: Seq<model::EntryView>,
)
    ensures
        ({
            let (b, a, o, n) = tally(library_root, entries);
            &&& b + a + o + n == entries.len()
            &&& b == updates(library_root, entries).len()
            &&& 0 <= b
            &&& 0 <= a
            &&& 0 <= o
            &&& 0 <= n
        }),
    decreases entries.len(),
{
    if entries.len() > 0 {
        law_report_accounts_for_every_entry(library_root, entries.drop_last());
    }
}

/// The whole archive after a pass.
pub open spec fn after_pass(library_root: Seq<char>, entries: Seq<model::EntryView>) -> Seq<
    model::EntryView,
> {
    entries.map_values(
        |e: model::EntryView|
            match verdict(library_root, e) {
                Verdict::Backfill(s) => with_slug(e, s),
                _ => e,
            },
    )
}

/// A second pass under the same root finds nothing left to do.
pub proof fn law_backfill_is_idempotent(library_root: Seq<char>, entries: Seq<model::EntryView>)
    ensures
        updates(library_root, after_pass(library_root, entries)).len() == 0,
    decreases entries.len(),
{
    let all = after_pass(library_root, entries);
    if entries.len() > 0 {
        law_backfill_is_idempotent(library_root, entries.drop_last());
        assert(all.drop_last() =~= after_pass(library_root, entries.drop_last()));
        let e = entries.last();
        let new = all.last();
        assert(!(verdict(library_root, new) is Backfill));
    }
}

/// A pass changes nothing of an entry but its slug, and never the slug of an
/// entry that had one.
pub proof fn law_backfill_touches_slug_only(library_root: Seq<char>, e: model::EntryView)
    ensures
        verdict(library_root, e) matches Verdict::Backfill(s) ==> {
            &&& e.library_relative_path is None
            &&& with_slug(e, s).track_id == e.track_id
            &&& with_slug(e, s).object_key == e.object_key
            &&& with_slug(e, s).sha256 == e.sha256
            &&& with_slug(e, s).size_bytes == e.size_bytes
            &&& with_slug(e, s).source_path_original == e.source_path_original
        },
{
}

/// Whether an entry has no slug yet, but a source below the root that gives it one.
pub open spec fn wants_slug(library_root: Seq<char>, e: model::EntryView) -> bool {
    &&& e.library_relative_path is None
    &&& e.source_path_original is Some
    &&& slug::slug(library_root, e.source_path_original->0) is Some
}

/// Which entries want a slug.
pub open spec fn slugless(library_root: Seq<char>, entries: Seq<model::EntryView>) -> spec_fn(
    int,
) -> bool {
    |i: int| wants_slug(library_root, entries[i])
}

/// Each entry with the slug of its source, and all else as it was.
pub open spec fn slugged(library_root: Seq<char>, entries: Seq<model::EntryView>) -> spec_fn(
    int,
) -> model::EntryView {
    |i: int|
        model::EntryView {
            library_relative_path: slug::slug(
                library_root,
                entries[i].source_path_original->0,
            ),
            ..entries[i]
        }
}

/// A pass gives a slug to each entry that has none and was imported from below the
/// root, that of its source, and changes no other. The others are told apart: those
/// that have a slug, those without a source, and those from elsewhere.
pub proof fn law_backfill_fills_in_missing_slugs(
    library_root: Seq<char>,
    entries: Seq<model::EntryView>,
)
    ensures
        selection::is_selection(
            updates(library_root, entries),
            entries.len() as int,
            slugless(library_root, entries),
            slugged(library_root, entries),
        ),
        tally(library_root, entries).1 == entries.filter(
            |e: model::EntryView| e.library_relative_path is Some,
        ).len(),
        tally(library_root, entries).3 == entries.filter(
            |e: model::EntryView|
                e.library_relative_path is None && e.source_path_original is None,
        ).len(),
    decreases entries.len(),
{
    reveal(Seq::filter);
    if entries.len() == 0 {
        selection::lemma_selection_empty(
            slugless(library_root, entries),
            slugged(library_root, entries),
        );
    } else {
        let front = entries.drop_last();
        law_backfill_fills_in_missing_slugs(library_root, front);
        selection::lemma_selection_grows(
            updates(library_root, front),
            front.len() as int,
            slugless(library_root, front),
            slugged(library_root, front),
            updates(library_root, entries),
            slugless(library_root, entries),
            slugged(library_root, entries),
        );
    }
}

/// Decides which entries need a slug and what it is.
pub fn plan_slug_backfill(library_root: &str, entries: &[ArchiveEntry]) -> (r: (
    Vec<ArchiveEntry>,
    BackfillSlugsReport,
))
    ensures
        model::entry_views(r.0@) == updates(library_root@, model::entry_views(entries@)),
        r.1.total == entries@.len(),
        tally(library_root@, model::entry_views(entries@)) == (
            r.1.backfilled as int,
            r.1.already_had_slug as int,
            r.1.outside_root as int,
            r.1.no_source_path as int,
        ),
{
    let ghost all = model::entry_views(entries@);
    let ghost root = library_root@;
    let mut to_update: Vec<ArchiveEntry> = Vec::new();
    let mut report = BackfillSlugsReport::default();
    report.total = entries.len();
    let mut i: usize = 0;
    proof {
        assert(all.take(0) =~= Seq::<model::EntryView>::empty());
        assert(model::entry_views(to_update@) =~= Seq::<model::EntryView>::empty());
    }
    while i < entries.len()
        invariant
            i <= entries@.len(),
            all == model::entry_views(entries@),
            root == library_root@,
            report.total == entries@.len(),
            model::entry_views(to_update@) == updates(root, all.take(i as int)),
            tally(root, all.take(i as int)) == (
                report.backfilled as int,
                report.already_had_slug as int,
                report.outside_root as int,
                report.no_source_path as int,
            ),
        decreases entries@.len() - i,
    {
        let entry: &ArchiveEntry = &entries[i];
        let ghost before = model::entry_views(to_update@);
        proof {
            law_report_accounts_for_every_entry(root, all.take(i as int));
            assert(all.take(i + 1).drop_last() =~= all.take(i as int));
            assert(all.take(i + 1).last() == entry@);
        }
        if entry.library_relative_path.is_some() {
            report.already_had_slug = report.already_had_slug + 1;
        } else {
            match &entry.source_path_original {
                None => {
                    report.no_source_path = report.no_source_path + 1;
                },
                Some(source) => {
                    match slug::compute_slug(library_root, source.as_str()) {
                        Some(s) => {
                            let mut updated = entry.copy();
                            updated.library_relative_path = Some(s);
                            proof {
                                assert(updated@ == with_slug(entry@, s@));
                            }
                            report.backfilled = report.backfilled + 1;
                            let ghost new = updated@;
                            to_update.push(updated);
                            proof {
                                assert(model::entry_views(to_update@) =~= before.push(new));
                            }
                        },
                        None => {
                            report.outside_root = report.outside_root + 1;
                        },
                    }
                },
            }
        }
        i = i + 1;
    }
    proof {
        assert(all.take(entries@.len() as int) =~= all);
    }
    (to_update, report)
}

} // verus!

//! Whether the bucket holds what the index says it holds.

use vstd::prelude::*;

use crate::error::Error;
use crate::hash;
use crate::model;
use crate::model::{ArchiveEntry, TrackId};
use crate::selection;
use crate::store::api::{ObjectMeta, ObjectStore};
use crate::store::logged;
use crate::store::logged::LoggedStore;
use crate::text;

verus! {

/// The result of one pass over the index.
#[derive(Debug, Clone, PartialEq, Eq)]
pub struct ArchiveVerifyReport {
    pub total: usize,
    pub verified: usize,
    /// Indexed, but there is no object under the key.
    pub missing: Vec<TrackId>,
    /// The object does not have the indexed size.
    pub size_mismatch: Vec<TrackId>,
    /// The object has the indexed size, but not the indexed hash. Only looked
    /// for in a deep pass.
    pub hash_mismatch: Vec<TrackId>,
    /// Whether the pass read and hashed every object.
    pub deep: bool,
}

impl Default for ArchiveVerifyReport {
    fn default() -> (r: ArchiveVerifyReport)
        ensures
            r.total == 0,
            r.verified == 0,
            r.missing@.len() == 0,
            r.size_mismatch@.len() == 0,
            r.hash_mismatch@.len() == 0,
            !r.deep,
    {
        ArchiveVerifyReport {
            total: 0,
            verified: 0,
            missing: Vec::new(),
            size_mismatch: Vec::new(),
            hash_mismatch: Vec::new(),
            deep: false,
        }
    }
}

/// What was found of one entry.
#[derive(Debug, Clone, Copy, PartialEq, Eq, Structural)]
pub enum Verdict {
    Verified,
    Missing,
    SizeMismatch,
    HashMismatch,
}

/// What an object's metadata says of an entry. `None` means that only the
/// object's bytes can tell.
pub open spec fn judged_by_meta(
    e: model::EntryView,
    meta: Option<ObjectMeta>,
    deep: bool,
) -> Option<Verdict> {
    match meta {
        None => Some(Verdict::Missing),
        Some(m) => if m.size_bytes != e.size_bytes {
            Some(Verdict::SizeMismatch)
        } else if deep {
            None
        } else {
            Some(Verdict::Verified)
        },
    }
}

/// What an object's bytes say of an entry.
pub open spec fn judged_by_bytes(e: model::EntryView, bytes: Seq<u8>) -> Verdict {
    if hash::sha256_hex(bytes) == e.sha256 {
        Verdict::Verified
    } else {
        Verdict::HashMismatch
    }
}

/// What an object's metadata says of an entry.
pub fn judge_meta(entry: &ArchiveEntry, meta: &Option<ObjectMeta>, deep: bool) -> (r: Option<Verdict>)
    ensures
        r == judged_by_meta(entry@, *meta, deep),
{
    match meta {
        None => Some(Verdict::Missing),
        Some(m) => {
            if m.size_bytes != entry.size_bytes {
                Some(Verdict::SizeMismatch)
            } else if deep {
                None
            } else {
                Some(Verdict::Verified)
            }
        },
    }
}

/// What an object's bytes say of an entry.
pub fn judge_bytes(entry: &ArchiveEntry, bytes: &[u8]) -> (r: Verdict)
    ensures
        r == judged_by_bytes(entry@, bytes@),
{
    let actual = hash::hash_bytes(bytes);
    if text::same(actual.as_str(), entry.sha256.as_str()) {
        Verdict::Verified
    } else {
        Verdict::HashMismatch
    }
}

/// The ids of the entries with a given verdict, in the order of the index.
pub open spec fn ids_with(
    entries: Seq<model::EntryView>,
    verdicts: Seq<Verdict>,
    wanted: Verdict,
) -> Seq<Seq<char>>
    decreases entries.len(),
{
    if entries.len() == 0 {
        Seq::empty()
    } else {
        let front = ids_with(entries.drop_last(), verdicts.drop_last(), wanted);
        if verdicts.last() == wanted {
            front.push(entries.last().track_id)
        } else {
            front
        }
    }
}

/// Whether a report is that of a pass with these verdicts.
pub open spec fn reports(
    r: ArchiveVerifyReport,
    entries: Seq<model::EntryView>,
    verdicts: Seq<Verdict>,
    deep: bool,
) -> bool {
    &&& r.total == entries.len()
    &&& r.deep == deep
    &&& r.verified == ids_with(entries, verdicts, Verdict::Verified).len()
    &&& model::id_views(r.missing@) == ids_with(entries, verdicts, Verdict::Missing)
    &&& model::id_views(r.size_mismatch@) == ids_with(entries, verdicts, Verdict::SizeMismatch)
    &&& model::id_views(r.hash_mismatch@) == ids_with(entries, verdicts, Verdict::HashMismatch)
}

/// Whether the given requests, made in this order, led to these verdicts: for
/// each entry the metadata under its key was asked for, and, only where that
/// did not settle it, the bytes.
pub open spec fn audited(
    entries: Seq<model::EntryView>,
    deep: bool,
    asked: Seq<logged::Exchange>,
    verdicts: Seq<Verdict>,
) -> bool
    decreases entries.len(),
{
    if entries.len() == 0 {
        asked.len() == 0 && verdicts.len() == 0
    } else {
        let e = entries.last();
        let front = entries.drop_last();
        &&& verdicts.len() == entries.len()
        &&& asked.len() > 0
        &&& match asked.last() {
            logged::Exchange::Head(key, Ok(meta)) => {
                &&& key == e.object_key
                &&& judged_by_meta(e, meta, deep) == Some(verdicts.last())
                &&& audited(front, deep, asked.drop_last(), verdicts.drop_last())
            },
            logged::Exchange::Get(key, Ok(bytes)) => {
                &&& key == e.object_key
                &&& judged_by_bytes(e, bytes@) == verdicts.last()
                &&& asked.len() > 1
                &&& match asked[asked.len() - 2] {
                    logged::Exchange::Head(first_key, Ok(meta)) => {
                        &&& first_key == e.object_key
                        &&& judged_by_meta(e, meta, deep) is None
                        &&& audited(
                            front,
                            deep,
                            asked.drop_last().drop_last(),
                            verdicts.drop_last(),
                        )
                    },
                    _ => false,
                }
            },
            _ => false,
        }
    }
}

/// Whether a request failed with the given error.
pub open spec fn failed_with(x: logged::Exchange, e: Error) -> bool {
    ||| x matches logged::Exchange::Head(_, Err(f)) && f == e
    ||| x matches logged::Exchange::Get(_, Err(f)) && f == e
}

/// Every entry falls under exactly one heading of the report.
pub proof fn law_report_partitions_entries(
    entries: Seq<model::EntryView>,
    verdicts: Seq<Verdict>,
)
    requires
        entries.len() == verdicts.len(),
    ensures
        ids_with(entries, verdicts, Verdict::Verified).len() + ids_with(
            entries,
            verdicts,
            Verdict::Missing,
        ).len() + ids_with(entries, verdicts, Verdict::SizeMismatch).len() + ids_with(
            entries,
            verdicts,
            Verdict::HashMismatch,
        ).len() == entries.len(),
    decreases entries.len(),
{
    if entries.len() > 0 {
        law_report_partitions_entries(entries.drop_last(), verdicts.drop_last());
    }
}

/// Whether a verdict is what the store's answers say of an entry: the answer to
/// the request for the metadata under the entry's key and, in a deep pass over an
/// object of the indexed size, the answer to the request for its bytes that was
/// made next.
pub open spec fn is_borne_out(
    e: model::EntryView,
    deep: bool,
    asked: Seq<logged::Exchange>,
    at: int,
    v: Verdict,
) -> bool {
    &&& 0 <= at < asked.len()
    &&& match asked[at] {
        logged::Exchange::Head(key, Ok(None)) => key == e.object_key && v is Missing,
        logged::Exchange::Head(key, Ok(Some(m))) => {
            &&& key == e.object_key
            &&& m.size_bytes != e.size_bytes ==> v is SizeMismatch
            &&& m.size_bytes == e.size_bytes && !deep ==> v is Verified
            &&& m.size_bytes == e.size_bytes && deep ==> {
                &&& at + 1 < asked.len()
                &&& asked[at + 1] matches logged::Exchange::Get(k, Ok(bytes)) && {
                    &&& k == e.object_key
                    &&& hash::sha256_hex(bytes@) == e.sha256 ==> v is Verified
                    &&& hash::sha256_hex(bytes@) != e.sha256 ==> v is HashMismatch
                }
            }
        },
        _ => false,
    }
}

/// Whether each verdict is borne out by answers of the store, the entries asked
/// after one by one.
pub open spec fn are_borne_out(
    entries: Seq<model::EntryView>,
    deep: bool,
    asked: Seq<logged::Exchange>,
    verdicts: Seq<Verdict>,
    at: Seq<int>,
) -> bool {
    &&& at.len() == entries.len()
    &&& verdicts.len() == entries.len()
    &&& selection::is_rising(at)
    &&& forall|i: int|
        0 <= i < entries.len() ==> is_borne_out(
            #[trigger] entries[i],
            deep,
            asked,
            at[i],
            verdicts[i],
        )
}

/// The ids under a heading of a report are those of the entries with that
/// verdict, each once, in the order of the index.
pub proof fn law_heading_lists_its_entries(
    entries: Seq<model::EntryView>,
    verdicts: Seq<Verdict>,
    wanted: Verdict,
)
    requires
        entries.len() == verdicts.len(),
    ensures
        lists_all(ids_with(entries, verdicts, wanted), entries, verdicts, wanted),
    decreases entries.len(),
{
    let keep = with_verdict(verdicts, wanted);
    let item = id_at(entries);
    if entries.len() == 0 {
        selection::lemma_selection_empty(keep, item);
    } else {
        let front = entries.drop_last();
        let before = verdicts.drop_last();
        law_heading_lists_its_entries(front, before, wanted);
        selection::lemma_selection_grows(
            ids_with(front, before, wanted),
            front.len() as int,
            with_verdict(before, wanted),
            id_at(front),
            ids_with(entries, verdicts, wanted),
            keep,
            item,
        );
    }
}

/// No entry passes without evidence. One counts as verified only if the store has
/// an object of exactly the indexed size under its key and, in a deep pass, the
/// bytes of that object hash to the indexed hash. One whose object has another size
/// is a size mismatch, in a shallow and in a deep pass alike.
pub proof fn law_verdicts_are_borne_out(
    entries: Seq<model::EntryView>,
    deep: bool,
    asked: Seq<logged::Exchange>,
    verdicts: Seq<Verdict>,
) -> (at: Seq<int>)
    requires
        audited(entries, deep, asked, verdicts),
    ensures
        are_borne_out(entries, deep, asked, verdicts, at),
        forall|i: int| 0 <= i < at.len() ==> 0 <= #[trigger] at[i] < asked.len(),
    decreases entries.len(),
{
    if entries.len() == 0 {
        Seq::empty()
    } else {
        let front = entries.drop_last();
        let e = entries.last();
        let n = entries.len() - 1;
        let (here, past) = match asked.last() {
            logged::Exchange::Head(..) => (asked.len() - 1, asked.drop_last()),
            _ => (asked.len() - 2, asked.drop_last().drop_last()),
        };
        let before = law_verdicts_are_borne_out(front, deep, past, verdicts.drop_last());
        let at = before.push(here);
        assert(is_borne_out(e, deep, asked, here, verdicts.last()));
        assert forall|i: int| 0 <= i < entries.len() implies is_borne_out(
            #[trigger] entries[i],
            deep,
            asked,
            at[i],
            verdicts[i],
        ) by {
            if i < n {
                assert(is_borne_out(front[i], deep, past, before[i], verdicts.drop_last()[i]));
                assert(asked[before[i]] == past[before[i]]);
                if before[i] + 1 < past.len() {
                    assert(asked[before[i] + 1] == past[before[i] + 1]);
                }
            }
        }
        at
    }
}

/// Which entries have a verdict.
pub open spec fn with_verdict(verdicts: Seq<Verdict>, wanted: Verdict) -> spec_fn(int) -> bool {
    |i: int| verdicts[i] == wanted
}

/// The id of each entry.
pub open spec fn id_at(entries: Seq<model::EntryView>) -> spec_fn(int) -> Seq<char> {
    |i: int| entries[i].track_id
}

/// Whether ids are those of the entries with a verdict, each once, in the order of
/// the index.
pub open spec fn lists_all(
    ids: Seq<Seq<char>>,
    entries: Seq<model::EntryView>,
    verdicts: Seq<Verdict>,
    wanted: Verdict,
) -> bool {
    selection::is_selection(
        ids,
        entries.len() as int,
        with_verdict(verdicts, wanted),
        id_at(entries),
    )
}

/// Whether a report says what the store's answers say of each entry.
pub open spec fn is_faithful(
    r: ArchiveVerifyReport,
    entries: Seq<model::EntryView>,
    deep: bool,
    asked: Seq<logged::Exchange>,
    verdicts: Seq<Verdict>,
) -> bool {
    &&& exists|at: Seq<int>| #[trigger] are_borne_out(entries, deep, asked, verdicts, at)
    &&& r.total == entries.len()
    &&& r.deep == deep
    &&& exists|ids: Seq<Seq<char>>|
        #[trigger] lists_all(ids, entries, verdicts, Verdict::Verified) && r.verified == ids.len()
    &&& lists_all(model::id_views(r.missing@), entries, verdicts, Verdict::Missing)
    &&& lists_all(model::id_views(r.size_mismatch@), entries, verdicts, Verdict::SizeMismatch)
    &&& lists_all(model::id_views(r.hash_mismatch@), entries, verdicts, Verdict::HashMismatch)
}

/// A report of a pass says what the store's answers say of each entry.
pub proof fn law_report_is_faithful(
    r: ArchiveVerifyReport,
    entries: Seq<model::EntryView>,
    deep: bool,
    asked: Seq<logged::Exchange>,
    verdicts: Seq<Verdict>,
)
    requires
        audited(entries, deep, asked, verdicts),
        reports(r, entries, verdicts, deep),
    ensures
        is_faithful(r, entries, deep, asked, verdicts),
{
    let at = law_verdicts_are_borne_out(entries, deep, asked, verdicts);
    law_heading_lists_its_entries(entries, verdicts, Verdict::Verified);
    law_heading_lists_its_entries(entries, verdicts, Verdict::Missing);
    law_heading_lists_its_entries(entries, verdicts, Verdict::SizeMismatch);
    law_heading_lists_its_entries(entries, verdicts, Verdict::HashMismatch);
    let ids = ids_with(entries, verdicts, Verdict::Verified);
    assert(lists_all(ids, entries, verdicts, Verdict::Verified) && r.verified == ids.len());
}

proof fn lemma_nothing_listed(
    entries: Seq<model::EntryView>,
    verdicts: Seq<Verdict>,
    wanted: Verdict,
    i: int,
)
    requires
        lists_all(Seq::empty(), entries, verdicts, wanted),
        0 <= i < entries.len(),
    ensures
        verdicts[i] != wanted,
{
    let keep = with_verdict(verdicts, wanted);
    let at = choose|at: Seq<int>|
        #[trigger] selection::picks(
            Seq::<Seq<char>>::empty(),
            entries.len() as int,
            keep,
            id_at(entries),
            at,
        );
    if keep(i) {
        assert(at.contains(i));
    }
}

/// If a report lists no problem, the store's answers bear out every entry.
pub proof fn law_clean_report_verifies_every_entry(
    r: ArchiveVerifyReport,
    entries: Seq<model::EntryView>,
    deep: bool,
    asked: Seq<logged::Exchange>,
    verdicts: Seq<Verdict>,
)
    requires
        verdicts.len() == entries.len(),
        is_faithful(r, entries, deep, asked, verdicts),
        r.missing@.len() == 0,
        r.size_mismatch@.len() == 0,
        r.hash_mismatch@.len() == 0,
    ensures
        forall|i: int| 0 <= i < entries.len() ==> #[trigger] verdicts[i] is Verified,
{
    assert(model::id_views(r.missing@) =~= Seq::empty());
    assert(model::id_views(r.size_mismatch@) =~= Seq::empty());
    assert(model::id_views(r.hash_mismatch@) =~= Seq::empty());
    assert forall|i: int| 0 <= i < entries.len() implies #[trigger] verdicts[i] is Verified by {
        lemma_nothing_listed(entries, verdicts, Verdict::Missing, i);
        lemma_nothing_listed(entries, verdicts, Verdict::SizeMismatch, i);
        lemma_nothing_listed(entries, verdicts, Verdict::HashMismatch, i);
    }
}

impl ArchiveVerifyReport {
    /// Whether every indexed entry checked out.
    pub fn is_clean(&self) -> (r: bool)
        ensures
            r == (self.missing@.len() == 0 && self.size_mismatch@.len() == 0
                && self.hash_mismatch@.len() == 0),
    {
        self.missing.len() == 0 && self.size_mismatch.len() == 0 && self.hash_mismatch.len() == 0
    }

    /// Enters the verdict on one more entry.
    fn record(
        &mut self,
        entry: &ArchiveEntry,
        verdict: Verdict,
        Ghost(entries): Ghost<Seq<model::EntryView>>,
        Ghost(verdicts): Ghost<Seq<Verdict>>,
        Ghost(deep): Ghost<bool>,
    )
        requires
            entries.len() == verdicts.len(),
            entries.len() < usize::MAX,
            old(self).deep == deep,
            old(self).verified == ids_with(entries, verdicts, Verdict::Verified).len(),
            model::id_views(old(self).missing@) == ids_with(entries, verdicts, Verdict::Missing),
            model::id_views(old(self).size_mismatch@) == ids_with(
                entries,
                verdicts,
                Verdict::SizeMismatch,
            ),
            model::id_views(old(self).hash_mismatch@) == ids_with(
                entries,
                verdicts,
                Verdict::HashMismatch,
            ),
        ensures
            final(self).total == old(self).total,
            final(self).deep == deep,
            final(self).verified == ids_with(
                entries.push(entry@),
                verdicts.push(verdict),
                Verdict::Verified,
            ).len(),
            model::id_views(final(self).missing@) == ids_with(
                entries.push(entry@),
                verdicts.push(verdict),
                Verdict::Missing,
            ),
            model::id_views(final(self).size_mismatch@) == ids_with(
                entries.push(entry@),
                verdicts.push(verdict),
                Verdict::SizeMismatch,
            ),
            model::id_views(final(self).hash_mismatch@) == ids_with(
                entries.push(entry@),
                verdicts.push(verdict),
                Verdict::HashMismatch,
            ),
    {
        proof {
            assert(entries.push(entry@).drop_last() =~= entries);
            assert(verdicts.push(verdict).drop_last() =~= verdicts);
            law_report_partitions_entries(entries, verdicts);
        }
        match verdict {
            Verdict::Verified => {
                self.verified = self.verified + 1;
            },
            Verdict::Missing => {
                let ghost before = model::id_views(self.missing@);
                self.missing.push(entry.track_id.copy());
                proof {
                    assert(model::id_views(self.missing@) =~= before.push(entry@.track_id));
                }
            },
            Verdict::SizeMismatch => {
                let ghost before = model::id_views(self.size_mismatch@);
                self.size_mismatch.push(entry.track_id.copy());
                proof {
                    assert(model::id_views(self.size_mismatch@) =~= before.push(entry@.track_id));
                }
            },
            Verdict::HashMismatch => {
                let ghost before = model::id_views(self.hash_mismatch@);
                self.hash_mismatch.push(entry.track_id.copy());
                proof {
                    assert(model::id_views(self.hash_mismatch@) =~= before.push(entry@.track_id));
                }
            },
        }
    }
}

/// Checks every entry against the store. A deep pass also reads and hashes
/// every object of the right size.
///
/// Fails exactly with the error of a request that failed, at the first one.
pub fn verify_archive<S: ObjectStore>(store: &mut LoggedStore<S>, entries: &[ArchiveEntry], deep: bool) -> (r:
    Result<ArchiveVerifyReport, Error>)
    ensures
        old(store).history().is_prefix_of(final(store).history()),
        match r {
            Ok(report) => exists|verdicts: Seq<Verdict>|
                {
                    &&& #[trigger] audited(
                        model::entry_views(entries@),
                        deep,
                        final(store).history().skip(old(store).history().len() as int),
                        verdicts,
                    )
                    &&& reports(report, model::entry_views(entries@), verdicts, deep)
                    &&& is_faithful(
                        report,
                        model::entry_views(entries@),
                        deep,
                        final(store).history().skip(old(store).history().len() as int),
                        verdicts,
                    )
                },
            Err(e) => {
                let asked = final(store).history().skip(old(store).history().len() as int);
                asked.len() > 0 && failed_with(asked.last(), e)
            },
        },
{
    let ghost all = model::entry_views(entries@);
    let ghost start = store.history();
    let ghost mut verdicts: Seq<Verdict> = Seq::empty();
    let mut report = ArchiveVerifyReport::default();
    report.total = entries.len();
    report.deep = deep;
    let mut i: usize = 0;
    proof {
        assert(all.take(0) =~= Seq::<model::EntryView>::empty());
        assert(store.history().skip(start.len() as int) =~= Seq::<logged::Exchange>::empty());
        assert(start =~= store.history().subrange(0, start.len() as int));
        assert(model::id_views(report.missing@) =~= Seq::<Seq<char>>::empty());
        assert(model::id_views(report.size_mismatch@) =~= Seq::<Seq<char>>::empty());
        assert(model::id_views(report.hash_mismatch@) =~= Seq::<Seq<char>>::empty());
    }
    while i < entries.len()
        invariant
            i <= entries@.len(),
            all == model::entry_views(entries@),
            start == old(store).history(),
            start.is_prefix_of(store.history()),
            report.total == entries@.len(),
            report.deep == deep,
            verdicts.len() == i,
            audited(all.take(i as int), deep, store.history().skip(start.len() as int), verdicts),
            report.verified == ids_with(all.take(i as int), verdicts, Verdict::Verified).len(),
            model::id_views(report.missing@) == ids_with(
                all.take(i as int),
                verdicts,
                Verdict::Missing,
            ),
            model::id_views(report.size_mismatch@) == ids_with(
                all.take(i as int),
                verdicts,
                Verdict::SizeMismatch,
            ),
            model::id_views(report.hash_mismatch@) == ids_with(
                all.take(i as int),
                verdicts,
                Verdict::HashMismatch,
            ),
        decreases entries@.len() - i,
    {
        let entry: &ArchiveEntry = &entries[i];
        let ghost front = all.take(i as int);
        let ghost before = store.history();
        let ghost asked = before.skip(start.len() as int);
        let head = store.head(entry.object_key.as_str());
        let ghost x = logged::Exchange::Head(entry@.object_key, head);
        proof {
            assert(all.take(i + 1) =~= front.push(entry@));
            assert(front.push(entry@).drop_last() =~= front);
            assert(store.history().skip(start.len() as int) =~= asked.push(x));
            assert(asked.push(x).drop_last() =~= asked);
            assert(start =~= store.history().subrange(0, start.len() as int));
        }
        let meta = match head {
            Ok(meta) => meta,
            Err(e) => {
                return Err(e);
            },
        };
        let verdict = match judge_meta(entry, &meta, deep) {
            Some(v) => {
                proof {
                    assert(verdicts.push(v).drop_last() =~= verdicts);
                    assert(x == logged::Exchange::Head(entry@.object_key, Ok(meta)));
                    assert(audited(front.push(entry@), deep, asked.push(x), verdicts.push(v)));
                }
                v
            },
            None => {
                let got = store.get(entry.object_key.as_str());
                let ghost y = logged::Exchange::Get(entry@.object_key, got);
                proof {
                    assert(store.history().skip(start.len() as int) =~= asked.push(x).push(y));
                    assert(asked.push(x).push(y).drop_last() =~= asked.push(x));
                    assert(start =~= store.history().subrange(0, start.len() as int));
                }
                let bytes = match got {
                    Ok(bytes) => bytes,
                    Err(e) => {
                        return Err(e);
                    },
                };
                let v = judge_bytes(entry, bytes.as_slice());
                proof {
                    assert(verdicts.push(v).drop_last() =~= verdicts);
                    assert(x == logged::Exchange::Head(entry@.object_key, Ok(meta)));
                    assert(y == logged::Exchange::Get(entry@.object_key, Ok(bytes)));
                    assert(audited(
                        front.push(entry@),
                        deep,
                        asked.push(x).push(y),
                        verdicts.push(v),
                    ));
                }
                v
            },
        };
        report.record(entry, verdict, Ghost(front), Ghost(verdicts), Ghost(deep));
        proof {
            verdicts = verdicts.push(verdict);
        }
        i = i + 1;
    }
    proof {
        assert(all.take(entries@.len() as int) =~= all);
        let asked = store.history().skip(start.len() as int);
        law_report_is_faithful(report, all, deep, asked, verdicts);
        assert(audited(all, deep, asked, verdicts));
    }
    Ok(report)
}

} // verus!

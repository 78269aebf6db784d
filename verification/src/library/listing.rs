//! The files of a listing, one by one: where each stands, and which of them a walk
//! sees.

use vstd::prelude::*;

use crate::import::scan;
use crate::library::shape;
use crate::library::shape::Entry;
use crate::path;

verus! {

/// The entry that a trail leads to: the first number is its place in the listing,
/// each further one the place in the folder before it.
pub open spec fn entry_at(entries: Seq<Entry>, trail: Seq<int>) -> Option<Entry>
    decreases trail.len(),
{
    if trail.len() == 0 || !(0 <= trail[0] < entries.len()) {
        None
    } else if trail.len() == 1 {
        Some(entries[trail[0]])
    } else {
        match entries[trail[0]] {
            Entry::Dir { path, entries: inner } => entry_at(inner@, trail.skip(1)),
            _ => None,
        }
    }
}

/// Whether a path's last name starts with a dot.
pub open spec fn is_dotted(p: Seq<char>) -> bool {
    path::file_name(p) matches Some(name) && name.len() > 0 && name[0] == '.'
}

/// Whether an entry on a trail has a name that starts with a dot: the one that
/// the trail leads to, or a folder on the way.
pub open spec fn passes_dotted(entries: Seq<Entry>, trail: Seq<int>) -> bool {
    exists|n: int|
        1 <= n <= trail.len() && (#[trigger] entry_at(entries, trail.take(n)) matches Some(e)
            && is_dotted(shape::entry_path(e)))
}

/// Whether a trail leads to something other than a folder that is wanted, and
/// past no name that starts with a dot unless those count as any other.
pub open spec fn is_seen(
    entries: Seq<Entry>,
    trail: Seq<int>,
    wanted: spec_fn(Entry) -> bool,
    include_dotfiles: bool,
) -> bool {
    &&& entry_at(entries, trail) matches Some(e) && !(e is Dir) && wanted(e)
    &&& include_dotfiles || !passes_dotted(entries, trail)
}

/// Whether trails are all those to what is wanted and seen, each once.
pub open spec fn is_walk(
    entries: Seq<Entry>,
    trails: Seq<Seq<int>>,
    wanted: spec_fn(Entry) -> bool,
    include_dotfiles: bool,
) -> bool {
    &&& forall|a: int, b: int|
        0 <= a < b < trails.len() ==> #[trigger] trails[a] != #[trigger] trails[b]
    &&& forall|a: int|
        0 <= a < trails.len() ==> is_seen(entries, #[trigger] trails[a], wanted, include_dotfiles)
    &&& forall|t: Seq<int>|
        #[trigger] is_seen(entries, t, wanted, include_dotfiles) ==> trails.contains(t)
}

/// Trails that start with one more step.
pub open spec fn stepped(i: int, trails: Seq<Seq<int>>) -> Seq<Seq<int>> {
    trails.map_values(|t: Seq<int>| seq![i] + t)
}

/// The trails to what is wanted and seen, from an entry on.
pub open spec fn entry_walk(e: Entry, wanted: spec_fn(Entry) -> bool, include_dotfiles: bool) -> Seq<
    Seq<int>,
>
    decreases e,
{
    if scan::hidden(shape::entry_path(e), include_dotfiles) {
        Seq::empty()
    } else {
        match e {
            Entry::Dir { path, entries } => walk(entries@, wanted, include_dotfiles),
            _ => if wanted(e) {
                seq![Seq::empty()]
            } else {
                Seq::empty()
            },
        }
    }
}

/// The trails to what is wanted and seen in a listing.
pub open spec fn walk(
    entries: Seq<Entry>,
    wanted: spec_fn(Entry) -> bool,
    include_dotfiles: bool,
) -> Seq<Seq<int>>
    decreases entries,
{
    if entries.len() == 0 {
        Seq::empty()
    } else {
        walk(entries.drop_last(), wanted, include_dotfiles) + stepped(
            entries.len() - 1,
            entry_walk(entries.last(), wanted, include_dotfiles),
        )
    }
}

/// A trail that starts at `i` passes a dotted name iff the entry there has one or
/// the rest of the trail does.
proof fn lemma_passes(entries: Seq<Entry>, trail: Seq<int>)
    requires
        trail.len() > 0,
        0 <= trail[0] < entries.len(),
        entry_at(entries, trail) is Some,
    ensures
        passes_dotted(entries, trail) == (is_dotted(shape::entry_path(entries[trail[0]])) || (
        trail.len() > 1 && passes_dotted(entries[trail[0]]->Dir_entries@, trail.skip(1)))),
{
    let e = entries[trail[0]];
    let rest = trail.skip(1);
    assert(entry_at(entries, trail.take(1)) == Some(e));
    if trail.len() > 1 {
        assert(e is Dir);
        let inner = e->Dir_entries@;
        if passes_dotted(entries, trail) {
            let n = choose|n: int|
                1 <= n <= trail.len() && (#[trigger] entry_at(entries, trail.take(n)) matches Some(
                    x,
                ) && is_dotted(shape::entry_path(x)));
            if n > 1 {
                assert(trail.take(n).skip(1) =~= rest.take(n - 1));
                assert(entry_at(entries, trail.take(n)) == entry_at(inner, rest.take(n - 1)));
            }
        }
        if passes_dotted(inner, rest) {
            let n = choose|n: int|
                1 <= n <= rest.len() && (#[trigger] entry_at(inner, rest.take(n)) matches Some(x)
                    && is_dotted(shape::entry_path(x)));
            assert(trail.take(n + 1).skip(1) =~= rest.take(n));
            assert(entry_at(entries, trail.take(n + 1)) == entry_at(inner, rest.take(n)));
        }
    } else if passes_dotted(entries, trail) {
        let n = choose|n: int|
            1 <= n <= trail.len() && (#[trigger] entry_at(entries, trail.take(n)) matches Some(x)
                && is_dotted(shape::entry_path(x)));
        assert(n == 1);
    }
}

/// What a trail leads to is seen iff the entry it starts at is, and the rest of
/// the trail is from there.
proof fn lemma_seen(
    entries: Seq<Entry>,
    trail: Seq<int>,
    wanted: spec_fn(Entry) -> bool,
    include_dotfiles: bool,
)
    requires
        trail.len() > 0,
        0 <= trail[0] < entries.len(),
    ensures
        is_seen(entries, trail, wanted, include_dotfiles) == ({
            let e = entries[trail[0]];
            &&& include_dotfiles || !is_dotted(shape::entry_path(e))
            &&& if trail.len() == 1 {
                !(e is Dir) && wanted(e)
            } else {
                e is Dir && is_seen(e->Dir_entries@, trail.skip(1), wanted, include_dotfiles)
            }
        }),
{
    if entry_at(entries, trail) is Some {
        lemma_passes(entries, trail);
    }
}

/// The walk of one entry is made of the rests of the trails that start at it.
proof fn lemma_entry_walk(
    entries: Seq<Entry>,
    i: int,
    wanted: spec_fn(Entry) -> bool,
    include_dotfiles: bool,
)
    requires
        0 <= i < entries.len(),
    ensures
        ({
            let trails = stepped(i, entry_walk(entries[i], wanted, include_dotfiles));
            &&& forall|a: int, b: int|
                0 <= a < b < trails.len() ==> #[trigger] trails[a] != #[trigger] trails[b]
            &&& forall|a: int|
                0 <= a < trails.len() ==> #[trigger] trails[a].len() > 0 && trails[a][0] == i
                    && is_seen(entries, trails[a], wanted, include_dotfiles)
            &&& forall|t: Seq<int>|
                t.len() > 0 && t[0] == i && #[trigger] is_seen(
                    entries,
                    t,
                    wanted,
                    include_dotfiles,
                ) ==> trails.contains(t)
        }),
    decreases entries[i],
{
    let e = entries[i];
    let rests = entry_walk(e, wanted, include_dotfiles);
    let trails = stepped(i, rests);
    let shown = !scan::hidden(shape::entry_path(e), include_dotfiles);
    assert(shown == (include_dotfiles || !is_dotted(shape::entry_path(e))));
    if shown && e is Dir {
        law_walk_sees_all(e->Dir_entries@, wanted, include_dotfiles);
    }
    assert forall|a: int| 0 <= a < trails.len() implies #[trigger] trails[a].len() > 0
        && trails[a][0] == i && is_seen(entries, trails[a], wanted, include_dotfiles) by {
        let t = trails[a];
        assert(t == seq![i] + rests[a]);
        assert(t.skip(1) =~= rests[a]);
        lemma_seen(entries, t, wanted, include_dotfiles);
        if e is Dir {
            assert(is_seen(e->Dir_entries@, rests[a], wanted, include_dotfiles));
        }
    }
    assert forall|a: int, b: int| 0 <= a < b < trails.len() implies #[trigger] trails[a]
        != #[trigger] trails[b] by {
        assert(trails[a].skip(1) =~= rests[a]);
        assert(trails[b].skip(1) =~= rests[b]);
        assert(rests[a] != rests[b]);
    }
    assert forall|t: Seq<int>|
        t.len() > 0 && t[0] == i && #[trigger] is_seen(
            entries,
            t,
            wanted,
            include_dotfiles,
        ) implies trails.contains(t) by {
        lemma_seen(entries, t, wanted, include_dotfiles);
        let rest = t.skip(1);
        assert(seq![i] + rest =~= t);
        if t.len() == 1 {
            assert(rest =~= Seq::<int>::empty());
            assert(rests[0] == rest);
        } else {
            assert(rests.contains(rest));
        }
        let a = choose|a: int| 0 <= a < rests.len() && rests[a] == rest;
        assert(trails[a] == t);
    }
}

/// A walk sees each file that it is to see exactly once: nothing behind a name
/// that starts with a dot, and everything else that is wanted, at any depth.
pub proof fn law_walk_sees_all(
    entries: Seq<Entry>,
    wanted: spec_fn(Entry) -> bool,
    include_dotfiles: bool,
)
    ensures
        is_walk(entries, walk(entries, wanted, include_dotfiles), wanted, include_dotfiles),
    decreases entries,
{
    let all = walk(entries, wanted, include_dotfiles);
    lemma_prefix_walk(entries, entries.len() as int, wanted, include_dotfiles);
    assert(entries.take(entries.len() as int) =~= entries);
    assert forall|t: Seq<int>| #[trigger] is_seen(
        entries,
        t,
        wanted,
        include_dotfiles,
    ) implies all.contains(t) by {
        assert(entry_at(entries, t) is Some);
    }
}

/// The walk of the first entries of a listing is made of the trails that start at
/// one of them.
proof fn lemma_prefix_walk(
    entries: Seq<Entry>,
    n: int,
    wanted: spec_fn(Entry) -> bool,
    include_dotfiles: bool,
)
    requires
        0 <= n <= entries.len(),
    ensures
        ({
            let trails = walk(entries.take(n), wanted, include_dotfiles);
            &&& forall|a: int, b: int|
                0 <= a < b < trails.len() ==> #[trigger] trails[a] != #[trigger] trails[b]
            &&& forall|a: int|
                0 <= a < trails.len() ==> #[trigger] trails[a].len() > 0 && 0 <= trails[a][0] < n
                    && is_seen(entries, trails[a], wanted, include_dotfiles)
            &&& forall|t: Seq<int>|
                t.len() > 0 && 0 <= t[0] < n && #[trigger] is_seen(
                    entries,
                    t,
                    wanted,
                    include_dotfiles,
                ) ==> trails.contains(t)
        }),
    decreases entries, n,
{
    if n > 0 {
        let i = n - 1;
        lemma_prefix_walk(entries, i, wanted, include_dotfiles);
        lemma_entry_walk(entries, i, wanted, include_dotfiles);
        let front = walk(entries.take(i), wanted, include_dotfiles);
        let more = stepped(i, entry_walk(entries[i], wanted, include_dotfiles));
        let trails = walk(entries.take(n), wanted, include_dotfiles);
        assert(entries.take(n).drop_last() =~= entries.take(i));
        assert(trails == front + more);
        assert forall|t: Seq<int>|
            t.len() > 0 && 0 <= t[0] < n && #[trigger] is_seen(
                entries,
                t,
                wanted,
                include_dotfiles,
            ) implies trails.contains(t) by {
            if t[0] < i {
                assert(front.contains(t));
                let a = choose|a: int| 0 <= a < front.len() && front[a] == t;
                assert(trails[a] == t);
            } else {
                assert(more.contains(t));
                let a = choose|a: int| 0 <= a < more.len() && more[a] == t;
                assert(trails[front.len() + a] == t);
            }
        }
        assert forall|a: int, b: int| 0 <= a < b < trails.len() implies #[trigger] trails[a]
            != #[trigger] trails[b] by {
            if b < front.len() {
                assert(trails[a] == front[a] && trails[b] == front[b]);
            } else if a >= front.len() {
                assert(trails[a] == more[a - front.len()] && trails[b] == more[b - front.len()]);
            } else {
                assert(trails[a] == front[a] && trails[b] == more[b - front.len()]);
                assert(front[a].len() > 0 && more[b - front.len()].len() > 0);
            }
        }
        assert forall|a: int| 0 <= a < trails.len() implies #[trigger] trails[a].len() > 0 && 0
            <= trails[a][0] < n && is_seen(entries, trails[a], wanted, include_dotfiles) by {
            if a < front.len() {
                assert(trails[a] == front[a]);
            } else {
                assert(trails[a] == more[a - front.len()]);
            }
        }
    }
}

/// What is known of the files at the ends of trails, each with its depth: 0 more
/// than that of the listing for what stands in the listing itself.
pub open spec fn gathered<A>(
    entries: Seq<Entry>,
    trails: Seq<Seq<int>>,
    known: spec_fn(Entry, int) -> A,
    depth: int,
) -> Seq<A> {
    trails.map_values(|t: Seq<int>| known(entry_at(entries, t)->0, depth + t.len() - 1))
}

/// What a walk gathers is what it gathers without the last entry, and what that
/// entry adds.
pub proof fn lemma_gathered<A>(
    entries: Seq<Entry>,
    wanted: spec_fn(Entry) -> bool,
    include_dotfiles: bool,
    known: spec_fn(Entry, int) -> A,
    depth: int,
)
    requires
        entries.len() > 0,
    ensures
        ({
            let front = entries.drop_last();
            let e = entries.last();
            gathered(entries, walk(entries, wanted, include_dotfiles), known, depth) == gathered(
                front,
                walk(front, wanted, include_dotfiles),
                known,
                depth,
            ) + (if scan::hidden(shape::entry_path(e), include_dotfiles) {
                Seq::empty()
            } else {
                match e {
                    Entry::Dir { path, entries: inner } => gathered(
                        inner@,
                        walk(inner@, wanted, include_dotfiles),
                        known,
                        depth + 1,
                    ),
                    _ => if wanted(e) {
                        seq![known(e, depth)]
                    } else {
                        Seq::empty()
                    },
                }
            })
        }),
{
    let front = entries.drop_last();
    let e = entries.last();
    let i = entries.len() - 1;
    let first = walk(front, wanted, include_dotfiles);
    let rests = entry_walk(e, wanted, include_dotfiles);
    let all = walk(entries, wanted, include_dotfiles);
    law_walk_sees_all(front, wanted, include_dotfiles);
    let here = gathered(entries, all, known, depth);
    let before = gathered(front, first, known, depth);
    let more = if scan::hidden(shape::entry_path(e), include_dotfiles) {
        Seq::empty()
    } else {
        match e {
            Entry::Dir { path, entries: inner } => gathered(
                inner@,
                walk(inner@, wanted, include_dotfiles),
                known,
                depth + 1,
            ),
            _ => if wanted(e) {
                seq![known(e, depth)]
            } else {
                Seq::empty()
            },
        }
    };
    if e is Dir {
        law_walk_sees_all(e->Dir_entries@, wanted, include_dotfiles);
    }
    assert(here.len() == before.len() + more.len());
    assert forall|a: int| 0 <= a < here.len() implies here[a] == (before + more)[a] by {
        if a < first.len() {
            let t = first[a];
            assert(all[a] == t);
            assert(is_seen(front, t, wanted, include_dotfiles));
            assert(entry_at(front, t) == entry_at(entries, t));
        } else {
            let rest = rests[a - first.len()];
            let t = all[a];
            assert(t == seq![i] + rest);
            assert(t.skip(1) =~= rest);
            if e is Dir {
                assert(is_seen(e->Dir_entries@, rest, wanted, include_dotfiles));
                assert(entry_at(entries, t) == entry_at(e->Dir_entries@, rest));
            } else {
                assert(rest =~= Seq::<int>::empty());
                assert(entry_at(entries, t) == Some(e));
            }
        }
    }
    assert(here =~= before + more);
}

} // verus!

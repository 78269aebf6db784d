//! Logical playlists: which tracks, in which order.

use vstd::prelude::*;

use crate::error::Error;
use crate::model;
use crate::model::{ArchiveEntry, Playlist, Timestamp, TrackId};
use crate::selection;
use crate::sync;
use crate::text;
use crate::time;

verus! {

/// One track of a playlist, as the database holds it.
#[derive(Debug, Clone, PartialEq, Eq)]
pub struct PlaylistTrack {
    pub track_id: String,
    pub position: i64,
}

/// A playlist without its tracks, as the database holds it.
#[derive(Debug, Clone, PartialEq, Eq)]
pub struct StoredPlaylist {
    pub id: String,
    pub name: String,
    pub created_at: String,
    pub updated_at: String,
}

/// The tracks of a playlist: ids and positions.
pub open spec fn track_views(rows: Seq<PlaylistTrack>) -> Seq<(Seq<char>, int)> {
    rows.map_values(|r: PlaylistTrack| (r.track_id@, r.position as int))
}

/// What the contracts say of a row they say of its track and its position.
pub proof fn law_row_is_seen_as_track_and_position(rows: Seq<PlaylistTrack>, i: int)
    requires
        0 <= i < rows.len(),
    ensures
        track_views(rows).len() == rows.len(),
        track_views(rows)[i].0 == rows[i].track_id@,
        track_views(rows)[i].1 == rows[i].position,
{
}

/// Whether a playlist has a track.
pub open spec fn has_track(rows: Seq<(Seq<char>, int)>, id: Seq<char>) -> bool {
    exists|i: int| 0 <= i < rows.len() && (#[trigger] rows[i]).0 == id
}

/// The position behind the last one, 0 for an empty playlist.
pub open spec fn next_position(rows: Seq<(Seq<char>, int)>) -> int
    decreases rows.len(),
{
    if rows.len() == 0 {
        0
    } else if rows.len() == 1 {
        rows[0].1 + 1
    } else {
        let before = next_position(rows.drop_last());
        if rows.last().1 + 1 > before {
            rows.last().1 + 1
        } else {
            before
        }
    }
}

/// A playlist after tracks were added: each takes the position behind the last
/// one that its place in the list gives it, and a track that is there already
/// keeps its old one.
pub open spec fn with_tracks(rows: Seq<(Seq<char>, int)>, base: int, ids: Seq<Seq<char>>) -> Seq<
    (Seq<char>, int),
>
    decreases ids.len(),
{
    if ids.len() == 0 {
        rows
    } else {
        let before = with_tracks(rows, base, ids.drop_last());
        if has_track(before, ids.last()) {
            before
        } else {
            before.push((ids.last(), base + ids.len() - 1))
        }
    }
}

/// Whether tracks stand in the order of their positions, each once.
pub open spec fn is_orderly(rows: Seq<(Seq<char>, int)>) -> bool {
    &&& forall|i: int, j: int|
        0 <= i < j < rows.len() ==> (#[trigger] rows[i]).1 < (#[trigger] rows[j]).1
    &&& forall|i: int, j: int|
        0 <= i < j < rows.len() ==> (#[trigger] rows[i]).0 != (#[trigger] rows[j]).0
}

proof fn lemma_next_position(rows: Seq<(Seq<char>, int)>)
    ensures
        forall|i: int| 0 <= i < rows.len() ==> (#[trigger] rows[i]).1 < next_position(rows),
    decreases rows.len(),
{
    if rows.len() > 1 {
        lemma_next_position(rows.drop_last());
        assert forall|i: int| 0 <= i < rows.len() implies (#[trigger] rows[i]).1 < next_position(
            rows,
        ) by {
            if i < rows.len() - 1 {
                assert(rows.drop_last()[i] == rows[i]);
            }
        }
    }
}

/// Adding tracks appends them: what was there stays in front, in its order, and
/// every track is there once, behind it in the order given.
pub proof fn law_adding_appends(rows: Seq<(Seq<char>, int)>, ids: Seq<Seq<char>>)
    requires
        is_orderly(rows),
    ensures
        ({
            let after = with_tracks(rows, next_position(rows), ids);
            &&& is_orderly(after)
            &&& rows.is_prefix_of(after)
            &&& forall|k: int| 0 <= k < ids.len() ==> has_track(after, #[trigger] ids[k])
            &&& forall|i: int|
                rows.len() <= i < after.len() ==> ids.contains((#[trigger] after[i]).0)
        }),
{
    lemma_next_position(rows);
    lemma_adding(rows, next_position(rows), ids);
}

proof fn lemma_adding(rows: Seq<(Seq<char>, int)>, base: int, ids: Seq<Seq<char>>)
    requires
        is_orderly(rows),
        forall|i: int| 0 <= i < rows.len() ==> (#[trigger] rows[i]).1 < base,
    ensures
        ({
            let after = with_tracks(rows, base, ids);
            &&& is_orderly(after)
            &&& rows.is_prefix_of(after)
            &&& forall|i: int| 0 <= i < after.len() ==> (#[trigger] after[i]).1 < base + ids.len()
            &&& forall|k: int| 0 <= k < ids.len() ==> has_track(after, #[trigger] ids[k])
            &&& forall|i: int|
                rows.len() <= i < after.len() ==> ids.contains((#[trigger] after[i]).0)
        }),
    decreases ids.len(),
{
    if ids.len() > 0 {
        let front = ids.drop_last();
        let before = with_tracks(rows, base, front);
        let after = with_tracks(rows, base, ids);
        lemma_adding(rows, base, front);
        assert(ids.last() == ids[ids.len() - 1]);
        assert forall|k: int| 0 <= k < ids.len() implies has_track(after, #[trigger] ids[k]) by {
            if k < front.len() {
                assert(front[k] == ids[k]);
                let i = choose|i: int| 0 <= i < before.len() && (#[trigger] before[i]).0 == ids[k];
                assert(after[i] == before[i]);
            } else if !has_track(before, ids.last()) {
                assert(after[after.len() - 1].0 == ids[k]);
            }
        }
        assert forall|i: int| rows.len() <= i < after.len() implies ids.contains(
            (#[trigger] after[i]).0,
        ) by {
            if i < before.len() {
                assert(after[i] == before[i]);
                let k = choose|k: int| 0 <= k < front.len() && front[k] == before[i].0;
                assert(ids[k] == after[i].0);
            } else {
                assert(ids[ids.len() - 1] == after[i].0);
            }
        }
        assert forall|i: int, j: int| 0 <= i < j < after.len() implies (#[trigger] after[i]).0
            != (#[trigger] after[j]).0 by {
            assert(after[i] == before[i]);
            if j < before.len() {
                assert(after[j] == before[j]);
            }
        }
        assert forall|i: int, j: int| 0 <= i < j < after.len() implies (#[trigger] after[i]).1
            < (#[trigger] after[j]).1 by {
            assert(after[i] == before[i]);
            if j < before.len() {
                assert(after[j] == before[j]);
            }
        }
        assert(rows.is_prefix_of(after)) by {
            assert forall|i: int| 0 <= i < rows.len() implies rows[i] == after[i] by {
                assert(before.subrange(0, rows.len() as int)[i] == rows[i]);
                assert(after[i] == before[i]);
            }
            assert(after.subrange(0, rows.len() as int) =~= rows);
        }
        assert forall|i: int| 0 <= i < after.len() implies (#[trigger] after[i]).1 < base
            + ids.len() by {
            if i < before.len() {
                assert(after[i] == before[i]);
            }
        }
    }
}

/// Adding the tracks of a playlist again changes nothing.
pub proof fn law_adding_again_changes_nothing(
    rows: Seq<(Seq<char>, int)>,
    base: int,
    ids: Seq<Seq<char>>,
)
    requires
        forall|k: int| 0 <= k < ids.len() ==> has_track(rows, #[trigger] ids[k]),
    ensures
        with_tracks(rows, base, ids) == rows,
    decreases ids.len(),
{
    if ids.len() > 0 {
        assert(ids.last() == ids[ids.len() - 1]);
        assert forall|k: int| 0 <= k < ids.drop_last().len() implies has_track(
            rows,
            #[trigger] ids.drop_last()[k],
        ) by {
            assert(ids.drop_last()[k] == ids[k]);
        }
        law_adding_again_changes_nothing(rows, base, ids.drop_last());
    }
}

/// Whether a playlist has a track.
fn holds_track(rows: &Vec<PlaylistTrack>, id: &str) -> (r: bool)
    ensures
        r == has_track(track_views(rows@), id@),
{
    let mut i: usize = 0;
    while i < rows.len()
        invariant
            i <= rows@.len(),
            forall|k: int| 0 <= k < i ==> (#[trigger] track_views(rows@)[k]).0 != id@,
        decreases rows@.len() - i,
    {
        proof {
            assert(track_views(rows@)[i as int].0 == rows@[i as int].track_id@);
        }
        if text::same(rows[i].track_id.as_str(), id) {
            return true;
        }
        i = i + 1;
    }
    false
}

/// The position behind the last one.
fn position_behind(rows: &Vec<PlaylistTrack>) -> (r: i64)
    requires
        forall|i: int| 0 <= i < rows@.len() ==> (#[trigger] rows@[i]).position < i64::MAX,
    ensures
        r == next_position(track_views(rows@)),
{
    if rows.len() == 0 {
        return 0;
    }
    let ghost all = track_views(rows@);
    let mut r: i64 = rows[0].position + 1;
    let mut i: usize = 1;
    proof {
        assert(all.take(1)[0] == all[0]);
    }
    while i < rows.len()
        invariant
            1 <= i <= rows@.len(),
            all == track_views(rows@),
            forall|k: int| 0 <= k < rows@.len() ==> (#[trigger] rows@[k]).position < i64::MAX,
            r == next_position(all.take(i as int)),
        decreases rows@.len() - i,
    {
        proof {
            assert(all.take(i + 1).drop_last() =~= all.take(i as int));
            assert(all.take(i + 1).last() == all[i as int]);
        }
        let p: i64 = rows[i].position;
        if p + 1 > r {
            r = p + 1;
        }
        i = i + 1;
    }
    proof {
        assert(all.take(rows@.len() as int) =~= all);
    }
    r
}

/// Adds tracks to a playlist.
pub fn add_tracks(rows: &mut Vec<PlaylistTrack>, track_ids: &[TrackId])
    requires
        track_ids@.len() <= i64::MAX,
        forall|i: int|
            0 <= i < old(rows)@.len() ==> (#[trigger] old(rows)@[i]).position < i64::MAX
                - track_ids@.len(),
    ensures
        track_views(final(rows)@) == with_tracks(
            track_views(old(rows)@),
            next_position(track_views(old(rows)@)),
            model::id_views(track_ids@),
        ),
{
    let ghost before = track_views(rows@);
    let ghost ids = model::id_views(track_ids@);
    let n: usize = track_ids.len();
    proof {
        lemma_position_bound(rows@, n as int);
    }
    let base: i64 = position_behind(rows);
    let mut k: usize = 0;
    proof {
        assert(ids.take(0) =~= Seq::<Seq<char>>::empty());
    }
    while k < n
        invariant
            k <= n,
            n == track_ids@.len(),
            ids == model::id_views(track_ids@),
            n <= i64::MAX,
            base <= i64::MAX - n,
            track_views(rows@) == with_tracks(before, base as int, ids.take(k as int)),
        decreases n - k,
    {
        proof {
            assert(ids.take(k + 1).drop_last() =~= ids.take(k as int));
            assert(ids.take(k + 1).last() == track_ids@[k as int].0@);
        }
        let id: &str = track_ids[k].0.as_str();
        if !holds_track(rows, id) {
            let ghost front = track_views(rows@);
            let row = PlaylistTrack { track_id: id.to_owned(), position: base + k as i64 };
            let ghost view = (row.track_id@, row.position as int);
            rows.push(row);
            proof {
                assert(track_views(rows@) =~= front.push(view));
            }
        }
        k = k + 1;
    }
    proof {
        assert(ids.take(n as int) =~= ids);
    }
}

proof fn lemma_position_bound(rows: Seq<PlaylistTrack>, n: int)
    requires
        0 <= n,
        n <= usize::MAX,
        n <= i64::MAX,
        forall|i: int| 0 <= i < rows.len() ==> (#[trigger] rows[i]).position < i64::MAX - n,
    ensures
        next_position(track_views(rows)) <= i64::MAX - n,
    decreases rows.len(),
{
    let all = track_views(rows);
    if rows.len() == 1 {
        assert(all[0].1 == rows[0].position);
    } else if rows.len() > 1 {
        assert(track_views(rows.drop_last()) =~= all.drop_last());
        lemma_position_bound(rows.drop_last(), n);
        assert(all.last().1 == rows[rows.len() - 1].position);
    }
}

/// A playlist after a track was removed: the others, as they were.
pub open spec fn without_track(rows: Seq<(Seq<char>, int)>, id: Seq<char>) -> Seq<(Seq<char>, int)>
    decreases rows.len(),
{
    if rows.len() == 0 {
        Seq::empty()
    } else if rows.last().0 == id {
        without_track(rows.drop_last(), id)
    } else {
        without_track(rows.drop_last(), id).push(rows.last())
    }
}

/// Removes a track from a playlist.
pub fn remove_track(rows: &Vec<PlaylistTrack>, track_id: &TrackId) -> (r: Vec<PlaylistTrack>)
    ensures
        track_views(r@) == without_track(track_views(rows@), track_id.0@),
{
    let ghost all = track_views(rows@);
    let mut r: Vec<PlaylistTrack> = Vec::new();
    let mut i: usize = 0;
    proof {
        assert(all.take(0) =~= Seq::<(Seq<char>, int)>::empty());
        assert(track_views(r@) =~= Seq::<(Seq<char>, int)>::empty());
    }
    while i < rows.len()
        invariant
            i <= rows@.len(),
            all == track_views(rows@),
            track_views(r@) == without_track(all.take(i as int), track_id.0@),
        decreases rows@.len() - i,
    {
        proof {
            assert(all.take(i + 1).drop_last() =~= all.take(i as int));
            assert(all.take(i + 1).last() == (rows@[i as int].track_id@, rows@[i as int].position as int));
        }
        if !text::same(rows[i].track_id.as_str(), track_id.0.as_str()) {
            let ghost front = track_views(r@);
            let row = PlaylistTrack {
                track_id: rows[i].track_id.clone(),
                position: rows[i].position,
            };
            let ghost view = (row.track_id@, row.position as int);
            r.push(row);
            proof {
                assert(track_views(r@) =~= front.push(view));
            }
        }
        i = i + 1;
    }
    proof {
        assert(all.take(rows@.len() as int) =~= all);
    }
    r
}

proof fn lemma_without(rows: Seq<(Seq<char>, int)>, id: Seq<char>)
    ensures
        forall|i: int|
            0 <= i < without_track(rows, id).len() ==> (#[trigger] without_track(rows, id)[i]).0
                != id && rows.contains(without_track(rows, id)[i]),
        forall|x: (Seq<char>, int)|
            #[trigger] rows.contains(x) && x.0 != id ==> without_track(rows, id).contains(x),
    decreases rows.len(),
{
    if rows.len() > 0 {
        let front = rows.drop_last();
        lemma_without(front, id);
        let after = without_track(rows, id);
        let before = without_track(front, id);
        assert forall|i: int| 0 <= i < after.len() implies (#[trigger] after[i]).0 != id
            && rows.contains(after[i]) by {
            if i < before.len() {
                assert(after[i] == before[i]);
                let k = choose|k: int| 0 <= k < front.len() && front[k] == before[i];
                assert(rows[k] == after[i]);
            } else {
                assert(rows[rows.len() - 1] == after[i]);
            }
        }
        assert forall|x: (Seq<char>, int)|
            #[trigger] rows.contains(x) && x.0 != id implies after.contains(x) by {
            let k = choose|k: int| 0 <= k < rows.len() && rows[k] == x;
            if k < front.len() {
                assert(front[k] == x);
                assert(front.contains(x));
                let i = choose|i: int| 0 <= i < before.len() && before[i] == x;
                assert(after[i] == x);
            } else {
                assert(after[after.len() - 1] == x);
            }
        }
    }
}

/// Removing a track takes that track out and no other.
pub proof fn law_removing_takes_one_track(rows: Seq<(Seq<char>, int)>, id: Seq<char>)
    ensures
        !has_track(without_track(rows, id), id),
        forall|x: (Seq<char>, int)|
            x.0 != id ==> (#[trigger] without_track(rows, id).contains(x) <==> rows.contains(x)),
{
    lemma_without(rows, id);
    let after = without_track(rows, id);
    assert forall|x: (Seq<char>, int)| x.0 != id implies (#[trigger] after.contains(x)
        <==> rows.contains(x)) by {
        if after.contains(x) {
            let i = choose|i: int| 0 <= i < after.len() && after[i] == x;
            assert(rows.contains(after[i]));
        }
    }
}

/// Which rows are of another track.
pub open spec fn of_others(rows: Seq<(Seq<char>, int)>, id: Seq<char>) -> spec_fn(int) -> bool {
    |i: int| rows[i].0 != id
}

/// The row at each place.
pub open spec fn row_at(rows: Seq<(Seq<char>, int)>) -> spec_fn(int) -> (Seq<char>, int) {
    |i: int| rows[i]
}

/// Removing a track leaves the rows of the others as they are, in their order.
pub proof fn law_removing_keeps_the_others(rows: Seq<(Seq<char>, int)>, id: Seq<char>)
    ensures
        selection::is_selection(
            without_track(rows, id),
            rows.len() as int,
            of_others(rows, id),
            row_at(rows),
        ),
    decreases rows.len(),
{
    if rows.len() == 0 {
        selection::lemma_selection_empty(of_others(rows, id), row_at(rows));
    } else {
        let front = rows.drop_last();
        law_removing_keeps_the_others(front, id);
        selection::lemma_selection_grows(
            without_track(front, id),
            front.len() as int,
            of_others(front, id),
            row_at(front),
            without_track(rows, id),
            of_others(rows, id),
            row_at(rows),
        );
    }
}

/// Tracks that a playlist does not have go to its end in the order in which they are
/// given, each at the next position.
pub proof fn law_new_tracks_keep_their_order(rows: Seq<(Seq<char>, int)>, ids: Seq<Seq<char>>)
    requires
        forall|k: int| 0 <= k < ids.len() ==> !has_track(rows, #[trigger] ids[k]),
        forall|j: int, k: int|
            0 <= j < k < ids.len() ==> #[trigger] ids[j] != #[trigger] ids[k],
    ensures
        with_tracks(rows, next_position(rows), ids) == rows + Seq::new(
            ids.len(),
            |k: int| (ids[k], next_position(rows) + k),
        ),
    decreases ids.len(),
{
    let base = next_position(rows);
    let new = Seq::new(ids.len(), |k: int| (ids[k], base + k));
    if ids.len() == 0 {
        assert(rows + new =~= rows);
    } else {
        let front = ids.drop_last();
        assert forall|k: int| 0 <= k < front.len() implies !has_track(rows, #[trigger] front[k]) by {
            assert(front[k] == ids[k]);
        }
        law_new_tracks_keep_their_order(rows, front);
        let before = with_tracks(rows, base, front);
        let first = Seq::new(front.len(), |k: int| (front[k], base + k));
        assert(!has_track(before, ids.last())) by {
            if has_track(before, ids.last()) {
                let i = choose|i: int|
                    0 <= i < before.len() && (#[trigger] before[i]).0 == ids.last();
                assert(!has_track(rows, ids[ids.len() - 1]));
                if i < rows.len() {
                    assert(rows[i] == before[i]);
                    assert(has_track(rows, ids.last()));
                } else {
                    assert(before[i] == first[i - rows.len()]);
                    assert(ids[i - rows.len()] == ids[ids.len() - 1]);
                }
            }
        }
        assert(before.push((ids.last(), base + ids.len() - 1)) =~= rows + new);
    }
}

/// The next position of a playlist is one behind the last that is taken, and the
/// first if none is.
pub proof fn law_next_position_is_behind_the_last(rows: Seq<(Seq<char>, int)>)
    ensures
        rows.len() == 0 ==> next_position(rows) == 0,
        forall|i: int| 0 <= i < rows.len() ==> (#[trigger] rows[i]).1 < next_position(rows),
        rows.len() > 0 ==> exists|i: int|
            0 <= i < rows.len() && (#[trigger] rows[i]).1 + 1 == next_position(rows),
    decreases rows.len(),
{
    if rows.len() > 1 {
        let front = rows.drop_last();
        law_next_position_is_behind_the_last(front);
        let k = choose|i: int|
            0 <= i < front.len() && (#[trigger] front[i]).1 + 1 == next_position(front);
        assert(front[k] == rows[k]);
        assert forall|i: int| 0 <= i < rows.len() implies (#[trigger] rows[i]).1 < next_position(
            rows,
        ) by {
            if i < front.len() {
                assert(front[i] == rows[i]);
            }
        }
        assert(rows[rows.len() - 1] == rows.last());
    } else if rows.len() == 1 {
        assert(rows[0].1 + 1 == next_position(rows));
    }
}

/// Reads a stored playlist, with the ids of its tracks in their order. A moment
/// that cannot be read counts as `now`.
pub fn row_to_playlist(row: &StoredPlaylist, track_ids: Vec<TrackId>, now: Timestamp) -> (r: Playlist)
    ensures
        r.id@ == row.id@,
        r.name@ == row.name@,
        r.created_at == read_moment(row.created_at@, now),
        r.updated_at == read_moment(row.updated_at@, now),
        r.track_ids == track_ids,
{
    Playlist {
        id: row.id.clone(),
        name: row.name.clone(),
        created_at: time::parse_dt(row.created_at.as_str(), now),
        updated_at: time::parse_dt(row.updated_at.as_str(), now),
        track_ids,
    }
}

/// A stored moment, or `now` if it cannot be read.
pub open spec fn read_moment(s: Seq<char>, now: Timestamp) -> Timestamp {
    match time::rfc3339_reading(s) {
        Ok(m) => Timestamp { secs: m.0, nanos: m.1 },
        Err(_) => now,
    }
}

/// A moment is read as it was stored; one that cannot be read counts as now.
pub proof fn law_moment_is_read_as_stored(s: Seq<char>, now: Timestamp)
    ensures
        time::rfc3339_reading(s) is Ok ==> (
            read_moment(s, now).secs,
            read_moment(s, now).nanos,
        ) == time::rfc3339_reading(s)->Ok_0,
        time::rfc3339_reading(s) is Err ==> read_moment(s, now) == now,
{
}

/// The id of a playlist that was looked up by its name.
pub fn playlist_id(found: Option<String>, name: &str) -> (r: Result<String, Error>)
    ensures
        match found {
            Some(id) => r == Ok::<String, Error>(id),
            None => r matches Err(Error::NotFound(m)) && m@ == "playlist '"@ + name@ + "'"@,
        },
{
    match found {
        Some(id) => Ok(id),
        None => Err(Error::NotFound(text::cat3("playlist '", name, "'"))),
    }
}

/// The entries of a playlist, in its order. Tracks that the archive does not know
/// are passed over.
pub open spec fn resolved(ids: Seq<Seq<char>>, archive: Seq<model::EntryView>) -> Seq<
    model::EntryView,
>
    decreases ids.len(),
{
    if ids.len() == 0 {
        Seq::empty()
    } else {
        let front = resolved(ids.drop_last(), archive);
        match sync::entry_with_id(archive, ids.last()) {
            Some(e) => front.push(e),
            None => front,
        }
    }
}

/// Which ids the archive knows.
pub open spec fn known(ids: Seq<Seq<char>>, archive: Seq<model::EntryView>) -> spec_fn(int) -> bool {
    |i: int| exists|k: int| 0 <= k < archive.len() && (#[trigger] archive[k]).track_id == ids[i]
}

/// The id at each place.
pub open spec fn listed(ids: Seq<Seq<char>>) -> spec_fn(int) -> Seq<char> {
    |i: int| ids[i]
}

/// The ids of entries.
pub open spec fn ids_of(entries: Seq<model::EntryView>) -> Seq<Seq<char>> {
    entries.map_values(|e: model::EntryView| e.track_id)
}

/// The entries of a playlist are those that the archive has of its tracks, in the
/// order of the playlist, one for each that the archive knows.
pub proof fn law_playlist_keeps_its_order(ids: Seq<Seq<char>>, archive: Seq<model::EntryView>)
    ensures
        selection::is_selection(
            ids_of(resolved(ids, archive)),
            ids.len() as int,
            known(ids, archive),
            listed(ids),
        ),
        forall|k: int|
            0 <= k < resolved(ids, archive).len() ==> archive.contains(
                #[trigger] resolved(ids, archive)[k],
            ),
    decreases ids.len(),
{
    let all = resolved(ids, archive);
    if ids.len() == 0 {
        assert(ids_of(all) =~= Seq::empty());
        selection::lemma_selection_empty(known(ids, archive), listed(ids));
    } else {
        let front = ids.drop_last();
        let before = resolved(front, archive);
        law_playlist_keeps_its_order(front, archive);
        sync::law_entry_is_found_by_id(archive, ids.last());
        if let Some(e) = sync::entry_with_id(archive, ids.last()) {
            assert(ids_of(all) =~= ids_of(before).push(ids.last()));
            let k = choose|k: int| 0 <= k < archive.len() && archive[k] == e;
            assert(archive[k].track_id == ids[ids.len() - 1]);
            assert(known(ids, archive)(ids.len() - 1));
        } else {
            assert(!known(ids, archive)(ids.len() - 1));
        }
        selection::lemma_selection_grows(
            ids_of(before),
            front.len() as int,
            known(front, archive),
            listed(front),
            ids_of(all),
            known(ids, archive),
            listed(ids),
        );
        assert forall|k: int| 0 <= k < all.len() implies archive.contains(#[trigger] all[k]) by {
            if k < before.len() {
                assert(all[k] == before[k]);
            }
        }
    }
}

/// Finds the entries of a playlist.
pub fn resolve_entries(track_ids: &Vec<TrackId>, archive: &Vec<ArchiveEntry>) -> (r: Vec<ArchiveEntry>)
    ensures
        model::entry_views(r@) == resolved(
            model::id_views(track_ids@),
            model::entry_views(archive@),
        ),
{
    let ghost ids = model::id_views(track_ids@);
    let ghost all = model::entry_views(archive@);
    let mut r: Vec<ArchiveEntry> = Vec::new();
    let mut i: usize = 0;
    proof {
        assert(ids.take(0) =~= Seq::<Seq<char>>::empty());
        assert(model::entry_views(r@) =~= Seq::<model::EntryView>::empty());
    }
    while i < track_ids.len()
        invariant
            i <= track_ids@.len(),
            ids == model::id_views(track_ids@),
            all == model::entry_views(archive@),
            model::entry_views(r@) == resolved(ids.take(i as int), all),
        decreases track_ids@.len() - i,
    {
        proof {
            assert(ids.take(i + 1).drop_last() =~= ids.take(i as int));
            assert(ids.take(i + 1).last() == track_ids@[i as int].0@);
        }
        if let Ok(entry) = sync::find_entry(archive, track_ids[i].0.as_str()) {
            let ghost before = model::entry_views(r@);
            let copy = entry.copy();
            let ghost view = copy@;
            r.push(copy);
            proof {
                assert(model::entry_views(r@) =~= before.push(view));
            }
        }
        i = i + 1;
    }
    proof {
        assert(ids.take(track_ids@.len() as int) =~= ids);
    }
    r
}

} // verus!

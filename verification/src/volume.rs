//! Removable performance volumes.
//!
//! The mounted drive holds a `Music/` tree, a `Playlists/` tree and a small
//! identity file. What else is known of a volume stays on the host, in a database
//! of its own.

use vstd::prelude::*;

use crate::error::Error;
use crate::model;
use crate::model::{Timestamp, VolumeIdentity};
use crate::path;
use crate::sort;
use crate::text;

verus! {

/// The name of the identity file at the root of a volume.
pub const VOLUME_IDENTITY_FILE: &'static str = ".trove-volume.json";

/// The folder that stands for a home which exists in memory only.
pub const MEMORY_HOME: &'static str = ":memory:";

/// Whether a home exists in memory only: it is that path, part by part.
pub open spec fn is_in_memory(home: Seq<char>) -> bool {
    path::parts(home) == path::parts(MEMORY_HOME@)
}

/// The database of a volume on the host.
pub open spec fn db_path(home: Seq<char>, volume_id: Seq<char>) -> Seq<char> {
    path::join(path::join(home, "volumes"@), volume_id + ".sqlite"@)
}

/// The database of a volume is named after its id, in the folder for volumes of the
/// home.
pub proof fn law_volume_database_is_named_after_its_id(home: Seq<char>, id: Seq<char>)
    requires
        home.len() > 0,
        home.last() != '/',
        id.len() > 0,
        id[0] != '/',
    ensures
        db_path(home, id) == home + "/volumes/"@ + id + ".sqlite"@,
{
    reveal_strlit("volumes");
    reveal_strlit("/volumes/");
    path::law_join_puts_a_separator_between(home, "volumes"@);
    let dir = path::join(home, "volumes"@);
    assert(dir.last() == "volumes"@[6]);
    let name = id + ".sqlite"@;
    assert(name[0] == id[0]);
    path::law_join_puts_a_separator_between(dir, name);
    assert(seq!['/'] + "volumes"@ + seq!['/'] =~= "/volumes/"@);
    assert(db_path(home, id) =~= home + (seq!['/'] + "volumes"@ + seq!['/']) + id + ".sqlite"@);
}

/// The database of a volume on the host.
pub fn volume_db_path(home: &str, volume_id: &str) -> (r: String)
    ensures
        r@ == db_path(home@, volume_id@),
{
    let dir = path::join_path(home, "volumes");
    let name = text::cat2(volume_id, ".sqlite");
    path::join_path(dir.as_str(), name.as_str())
}

/// Two volumes never share a database, unless an id is an absolute path.
pub proof fn law_volume_databases_distinct(home: Seq<char>, a: Seq<char>, b: Seq<char>)
    requires
        !path::is_absolute(a + ".sqlite"@),
        !path::is_absolute(b + ".sqlite"@),
        db_path(home, a) == db_path(home, b),
    ensures
        a == b,
{
    let x = db_path(home, a);
    let y = db_path(home, b);
    reveal_strlit(".sqlite");
    assert(x.len() == y.len());
    let n = x.len() - a.len() - 7;
    assert(a.len() == b.len());
    assert(x.subrange(n, n + a.len()) =~= a);
    assert(y.subrange(n, n + b.len()) =~= b);
}

/// Two volumes that were given fresh ids never share a database.
pub proof fn law_fresh_volumes_have_their_own_databases(
    home: Seq<char>,
    a: Seq<char>,
    b: Seq<char>,
)
    requires
        model::is_uuid(a),
        model::is_uuid(b),
        a != b,
    ensures
        db_path(home, a) != db_path(home, b),
{
    reveal_strlit(".sqlite");
    model::law_fresh_id_is_a_plain_name(a);
    model::law_fresh_id_is_a_plain_name(b);
    assert((a + ".sqlite"@)[0] == a[0]);
    assert((b + ".sqlite"@)[0] == b[0]);
    assert(a.contains(a[0]));
    assert(b.contains(b[0]));
    if db_path(home, a) == db_path(home, b) {
        law_volume_databases_distinct(home, a, b);
    }
}

/// What stands at the root of a volume.
#[derive(Debug, Clone, PartialEq, Eq)]
pub struct VolumeLayout {
    pub music: String,
    pub playlists: String,
    pub identity: String,
}

/// Where things stand on a volume. It is an error if nothing is mounted.
pub fn volume_layout(mount_point: &str, is_mounted: bool) -> (r: Result<VolumeLayout, Error>)
    ensures
        match r {
            Ok(l) => {
                &&& is_mounted
                &&& l.music@ == path::join(mount_point@, "Music"@)
                &&& l.playlists@ == path::join(mount_point@, "Playlists"@)
                &&& l.identity@ == path::join(mount_point@, VOLUME_IDENTITY_FILE@)
            },
            Err(e) => !is_mounted && (e matches Error::NotFound(m) && m@ == "mount point "@
                + mount_point@),
        },
{
    if !is_mounted {
        return Err(Error::NotFound(text::cat2("mount point ", mount_point)));
    }
    Ok(
        VolumeLayout {
            music: path::join_path(mount_point, "Music"),
            playlists: path::join_path(mount_point, "Playlists"),
            identity: path::join_path(mount_point, VOLUME_IDENTITY_FILE),
        },
    )
}

/// Which identity a volume has: the one it has already, else a fresh one with
/// this label. The second part says whether it is fresh, and has to be written.
pub fn choose_identity(existing: Option<VolumeIdentity>, label: Option<String>) -> (r: (
    VolumeIdentity,
    bool,
))
    ensures
        match existing {
            Some(i) => r.0 == i && !r.1,
            None => model::is_uuid(r.0.volume_id@) && r.0.label == label && r.1,
        },
{
    match existing {
        Some(i) => (i, false),
        None => (VolumeIdentity::new(label), true),
    }
}

/// What is noted of a volume in its database on the host.
#[derive(Debug, Clone, PartialEq, Eq)]
pub struct VolumeRecord {
    pub path: String,
    /// Names and values, in the order of writing.
    pub meta: Vec<(String, String)>,
}

/// Names and values.
pub open spec fn pair_views(pairs: Seq<(String, String)>) -> Seq<(Seq<char>, Seq<char>)> {
    pairs.map_values(|p: (String, String)| (p.0@, p.1@))
}

/// What a volume's database says of it.
pub open spec fn meta_of(i: VolumeIdentity, mount_point: Seq<char>) -> Seq<(Seq<char>, Seq<char>)> {
    match i.label {
        Some(l) => seq![
            ("volume_id"@, i.volume_id@),
            ("label"@, l@),
            ("mount_point"@, mount_point),
        ],
        None => seq![("volume_id"@, i.volume_id@), ("mount_point"@, mount_point)],
    }
}

/// Whether a volume is to be noted on the host: a fresh one always, one with an
/// identity only if it has no database yet, and none if the home is not on disk.
pub open spec fn is_noted(home: Option<Seq<char>>, fresh: bool, db_exists: bool) -> bool {
    home is Some && !is_in_memory(home->0) && (fresh || !db_exists)
}

/// A home on disk notes a volume that was just given its identity, and one that it has
/// no database for; one that it knows is left alone. A home in memory notes none.
pub proof fn law_known_volume_is_left_alone(home: Seq<char>, fresh: bool, db_exists: bool)
    ensures
        !is_noted(None, fresh, db_exists),
        path::parts(home) == path::parts(":memory:"@) ==> !is_noted(
            Some(home),
            fresh,
            db_exists,
        ),
        path::parts(home) != path::parts(":memory:"@) ==> (is_noted(Some(home), fresh, db_exists)
            <==> !(db_exists && !fresh)),
{
}

/// What is noted of a volume is its id, its label if it has one, and where it is
/// mounted.
pub proof fn law_volume_is_noted_with_id_and_mount(i: VolumeIdentity, mount_point: Seq<char>)
    ensures
        meta_of(i, mount_point)[0] == ("volume_id"@, i.volume_id@),
        meta_of(i, mount_point).last() == ("mount_point"@, mount_point),
        i.label is Some ==> meta_of(i, mount_point).len() == 3 && meta_of(i, mount_point)[1] == (
            "label"@,
            i.label->0@,
        ),
        i.label is None ==> meta_of(i, mount_point).len() == 2,
{
}

/// What is to be noted of a volume on the host, if anything.
pub fn record_volume(
    identity: &VolumeIdentity,
    mount_point: &str,
    home: &Option<String>,
    fresh: bool,
    db_exists: bool,
) -> (r: Option<VolumeRecord>)
    ensures
        r is Some <==> is_noted(text::opt_view(*home), fresh, db_exists),
        r matches Some(v) ==> v.path@ == db_path(home->0@, identity.volume_id@) && pair_views(
            v.meta@,
        ) == meta_of(*identity, mount_point@),
{
    match home {
        Some(h) => {
            if path::same_path(h.as_str(), MEMORY_HOME) || (!fresh && db_exists) {
                return None;
            }
            let mut meta: Vec<(String, String)> = Vec::new();
            meta.push(("volume_id".to_owned(), identity.volume_id.clone()));
            if let Some(l) = &identity.label {
                meta.push(("label".to_owned(), l.clone()));
            }
            meta.push(("mount_point".to_owned(), mount_point.to_owned()));
            proof {
                assert(pair_views(meta@) =~= meta_of(*identity, mount_point@));
            }
            Some(
                VolumeRecord {
                    path: volume_db_path(h.as_str(), identity.volume_id.as_str()),
                    meta,
                },
            )
        },
        None => None,
    }
}

/// Whether a file on the host is the database of a volume.
pub fn is_volume_db(path: &str) -> (r: bool)
    ensures
        r == (path::extension(path@) == Some("sqlite"@)),
{
    match path::extension_of(path) {
        Some(e) => text::same(e.as_str(), "sqlite"),
        None => false,
    }
}

/// The identity of a volume as its database gives it. Without an id in there, the
/// name of the database counts.
pub fn known_volume(
    path: &str,
    volume_id: Option<String>,
    label: Option<String>,
    now: Timestamp,
) -> (r: VolumeIdentity)
    requires
        path::extension(path@) == Some("sqlite"@),
    ensures
        r.volume_id@ == match volume_id {
            Some(id) => id@,
            None => path::file_stem(path@)->0,
        },
        path::file_stem(path@) is Some,
        r.label == label,
        r.created_at == now,
{
    let id = match volume_id {
        Some(id) => id,
        None => match path::file_stem_of(path) {
            Some(stem) => stem,
            None => String::new(),
        },
    };
    VolumeIdentity { volume_id: id, label, created_at: now }
}

/// The ids of volumes.
pub open spec fn volume_ids(list: Seq<VolumeIdentity>) -> Seq<Seq<char>> {
    list.map_values(|v: VolumeIdentity| v.volume_id@)
}

/// Puts volumes into the order of their ids.
pub fn sort_volumes(list: &Vec<VolumeIdentity>) -> (r: Vec<VolumeIdentity>)
    ensures
        r@ == sort::arranged(list@, sort::text_order(volume_ids(list@))),
        sort::is_text_order(volume_ids(list@), sort::text_order(volume_ids(list@))),
{
    let mut ids: Vec<String> = Vec::new();
    let mut i: usize = 0;
    while i < list.len()
        invariant
            i <= list@.len(),
            ids@.len() == i,
            forall|k: int| 0 <= k < i ==> (#[trigger] ids@[k])@ == list@[k].volume_id@,
        decreases list@.len() - i,
    {
        ids.push(list[i].volume_id.clone());
        i = i + 1;
    }
    proof {
        assert(text::views(ids@) =~= volume_ids(list@));
    }
    let order = sort::order_texts(&ids);
    let mut r: Vec<VolumeIdentity> = Vec::new();
    let mut k: usize = 0;
    while k < order.len()
        invariant
            k <= order@.len(),
            r@.len() == k,
            forall|a: int| 0 <= a < order@.len() ==> #[trigger] order@[a] < list@.len(),
            forall|a: int| 0 <= a < k ==> r@[a] == list@[order@[a] as int],
        decreases order@.len() - k,
    {
        r.push(list[order[k]].copy());
        k = k + 1;
    }
    proof {
        assert(r@ =~= sort::arranged(list@, order@));
    }
    r
}

/// The identity of a mounted volume, which has to have one.
pub fn require_identity(found: Option<VolumeIdentity>) -> (r: Result<VolumeIdentity, Error>)
    ensures
        match found {
            Some(i) => r == Ok::<VolumeIdentity, Error>(i),
            None => r matches Err(Error::NotFound(m)) && m@ == "volume identity on mount"@,
        },
{
    match found {
        Some(i) => Ok(i),
        None => Err(Error::NotFound("volume identity on mount".to_owned())),
    }
}

} // verus!

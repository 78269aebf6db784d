//! A bucket simulated by a folder: where its objects stand and how their
//! states are told apart.

use vstd::prelude::*;

use crate::import::job;
use crate::path;
use crate::selection;
use crate::sort;
use crate::text;

verus! {

/// A bucket under a folder.
#[derive(Debug, Clone)]
pub struct FsStore {
    root: String,
}

/// The size and the modification time of an object, as one text.
pub open spec fn surrogate(size: nat, mtime_nanos: nat) -> Seq<char> {
    text::decimal(size) + "-"@ + text::decimal(mtime_nanos)
}

impl FsStore {
    /// The folder that holds the objects.
    pub closed spec fn folder(self) -> Seq<char> {
        self.root@
    }

    /// A bucket under the given folder.
    pub fn new(root: &str) -> (r: FsStore)
        ensures
            r.folder() == root@,
    {
        FsStore { root: root.to_owned() }
    }

    /// The folder that holds the objects.
    pub fn root(&self) -> (r: &str)
        ensures
            r@ == self.folder(),
    {
        self.root.as_str()
    }

    /// The file that holds the object under a key.
    pub fn path_for(&self, key: &str) -> (r: String)
        ensures
            r@ == path::join(self.folder(), key@),
    {
        path::join_path(self.root.as_str(), key)
    }

    /// An etag that needs no more than the size and the modification time.
    pub fn surrogate_etag(size: u64, mtime_nanos: u128) -> (r: String)
        ensures
            r@ == surrogate(size as nat, mtime_nanos as nat),
    {
        let a = text::decimal_text(size);
        let b = text::wide_decimal_text(mtime_nanos);
        text::cat3(a.as_str(), "-", b.as_str())
    }

    /// The name of the file that a conditional write fills before it takes the
    /// place of the object.
    pub fn temp_name(path: &str, process_id: u32) -> (r: String)
        ensures
            r@ == "."@ + job::name_or(path@, "object"@) + ".tmp-"@ + text::decimal(
                process_id as nat,
            ),
    {
        let name = job::name_or_else(path, "object");
        let id = text::decimal_text(process_id as u64);
        text::cat4(".", name.as_str(), ".tmp-", id.as_str())
    }
}

/// Two states of an object have the same surrogate etag only if they have the
/// same size and modification time.
pub proof fn law_surrogate_etag_is_faithful(
    size_a: nat,
    nanos_a: nat,
    size_b: nat,
    nanos_b: nat,
)
    requires
        surrogate(size_a, nanos_a) == surrogate(size_b, nanos_b),
    ensures
        size_a == size_b,
        nanos_a == nanos_b,
{
    reveal_strlit("-");
    let a = text::decimal(size_a);
    let b = text::decimal(size_b);
    let x = text::decimal(nanos_a);
    let y = text::decimal(nanos_b);
    text::lemma_decimal_digits(size_a);
    text::lemma_decimal_digits(size_b);
    let s = surrogate(size_a, nanos_a);
    let t = surrogate(size_b, nanos_b);
    assert(s[a.len() as int] == '-');
    assert(t[b.len() as int] == '-');
    if a.len() < b.len() {
        assert(t[a.len() as int] == b[a.len() as int]);
    } else if b.len() < a.len() {
        assert(s[b.len() as int] == a[b.len() as int]);
    }
    assert(a.len() == b.len());
    assert forall|i: int| 0 <= i < a.len() implies a[i] == b[i] by {
        assert(s[i] == a[i]);
        assert(t[i] == b[i]);
    }
    assert(a =~= b);
    assert(s.len() == a.len() + 1 + x.len());
    assert(t.len() == b.len() + 1 + y.len());
    assert(x.len() == y.len());
    assert forall|i: int| 0 <= i < x.len() implies x[i] == y[i] by {
        assert(s[a.len() + 1 + i] == x[i]);
        assert(t[a.len() + 1 + i] == y[i]);
    }
    assert(x =~= y);
    text::lemma_decimal_injective(size_a, size_b);
    text::lemma_decimal_injective(nanos_a, nanos_b);
}

/// The keys that start with a prefix, in the order they come.
pub open spec fn with_prefix(keys: Seq<Seq<char>>, prefix: Seq<char>) -> Seq<Seq<char>>
    decreases keys.len(),
{
    if keys.len() == 0 {
        Seq::empty()
    } else {
        let front = with_prefix(keys.drop_last(), prefix);
        if prefix.is_prefix_of(keys.last()) {
            front.push(keys.last())
        } else {
            front
        }
    }
}

/// The keys that start with a prefix, in text order.
pub open spec fn listing(keys: Seq<Seq<char>>, prefix: Seq<char>) -> Seq<Seq<char>> {
    let found = with_prefix(keys, prefix);
    sort::arranged(found, sort::text_order(found))
}

/// Which keys start with a prefix, character by character.
pub open spec fn starts_with(keys: Seq<Seq<char>>, prefix: Seq<char>) -> spec_fn(int) -> bool {
    |i: int|
        prefix.len() <= keys[i].len() && forall|k: int|
            0 <= k < prefix.len() ==> keys[i][k] == #[trigger] prefix[k]
}

/// The key at each place.
pub open spec fn key_at(keys: Seq<Seq<char>>) -> spec_fn(int) -> Seq<char> {
    |i: int| keys[i]
}

/// The keys under a prefix are those that start with it, each once.
pub proof fn law_prefix_selects_keys(keys: Seq<Seq<char>>, prefix: Seq<char>)
    ensures
        selection::is_selection(
            with_prefix(keys, prefix),
            keys.len() as int,
            starts_with(keys, prefix),
            key_at(keys),
        ),
    decreases keys.len(),
{
    if keys.len() == 0 {
        selection::lemma_selection_empty(starts_with(keys, prefix), key_at(keys));
    } else {
        let front = keys.drop_last();
        let last = keys.last();
        law_prefix_selects_keys(front, prefix);
        if prefix.is_prefix_of(last) {
            assert forall|k: int| 0 <= k < prefix.len() implies last[k] == #[trigger] prefix[k] by {
                assert(last.subrange(0, prefix.len() as int)[k] == last[k]);
            }
        }
        if starts_with(keys, prefix)(keys.len() - 1) {
            assert(prefix =~= last.subrange(0, prefix.len() as int));
        }
        selection::lemma_selection_grows(
            with_prefix(front, prefix),
            front.len() as int,
            starts_with(front, prefix),
            key_at(front),
            with_prefix(keys, prefix),
            starts_with(keys, prefix),
            key_at(keys),
        );
    }
}

/// A listing holds the keys under a prefix and no others, in text order.
pub proof fn law_listing_is_sorted(keys: Seq<Seq<char>>, prefix: Seq<char>)
    requires
        with_prefix(keys, prefix).len() <= usize::MAX,
    ensures
        listing(keys, prefix).len() == with_prefix(keys, prefix).len(),
        forall|k: Seq<char>| #[trigger]
            listing(keys, prefix).contains(k) <==> with_prefix(keys, prefix).contains(k),
        forall|a: int, b: int|
            0 <= a < b < listing(keys, prefix).len() ==> sort::text_at_most(
                #[trigger] listing(keys, prefix)[a],
                #[trigger] listing(keys, prefix)[b],
            ),
{
    let found = with_prefix(keys, prefix);
    let order = sort::text_order(found);
    let all = listing(keys, prefix);
    sort::law_texts_have_an_order(found);
    assert forall|a: int, b: int| 0 <= a < b < all.len() implies sort::text_at_most(
        #[trigger] all[a],
        #[trigger] all[b],
    ) by {
        assert(sort::text_before(found, order[a] as int, order[b] as int));
    }
    assert forall|k: Seq<char>| #[trigger] all.contains(k) <==> found.contains(k) by {
        if all.contains(k) {
            let a = choose|a: int| 0 <= a < all.len() && all[a] == k;
            assert(order[a] < found.len());
            assert(found[order[a] as int] == k);
        }
        if found.contains(k) {
            let m = choose|m: int| 0 <= m < found.len() && found[m] == k;
            assert(sort::lists(order, m));
            let a = choose|a: int| 0 <= a < order.len() && #[trigger] order[a] == m;
            assert(all[a] == k);
        }
    }
}

/// The keys that start with a prefix, in text order.
pub fn list_keys(keys: &Vec<String>, prefix: &str) -> (r: Vec<String>)
    ensures
        text::views(r@) == listing(text::views(keys@), prefix@),
        sort::is_text_order(
            with_prefix(text::views(keys@), prefix@),
            sort::text_order(with_prefix(text::views(keys@), prefix@)),
        ),
{
    let ghost all = text::views(keys@);
    let mut found: Vec<String> = Vec::new();
    let mut i: usize = 0;
    proof {
        assert(all.take(0) =~= Seq::<Seq<char>>::empty());
        assert(text::views(found@) =~= Seq::<Seq<char>>::empty());
    }
    while i < keys.len()
        invariant
            i <= keys@.len(),
            all == text::views(keys@),
            text::views(found@) == with_prefix(all.take(i as int), prefix@),
        decreases keys@.len() - i,
    {
        proof {
            assert(all.take(i + 1).drop_last() =~= all.take(i as int));
            assert(all.take(i + 1).last() == keys@[i as int]@);
        }
        let ghost before = text::views(found@);
        if text::starts_with(keys[i].as_str(), prefix) {
            found.push(keys[i].clone());
            proof {
                assert(text::views(found@) =~= before.push(keys@[i as int]@));
            }
        }
        i = i + 1;
    }
    proof {
        assert(all.take(keys@.len() as int) =~= all);
    }
    let order = sort::order_texts(&found);
    let r = text::arrange(&found, &order);
    proof {
        assert(text::views(r@) =~= listing(all, prefix@));
    }
    r
}

/// The key of a file below the root: its relative path with `/` for `\`.
pub open spec fn key_of(relative: Seq<char>) -> Seq<char> {
    relative.map_values(
        |c: char|
            if c == '\\' {
                '/'
            } else {
                c
            },
    )
}

/// A key is the relative path, character by character, with a `/` for every `\\`.
pub proof fn law_key_has_no_backslash(relative: Seq<char>, i: int)
    requires
        0 <= i < relative.len(),
    ensures
        key_of(relative).len() == relative.len(),
        key_of(relative)[i] != '\\',
        relative[i] != '\\' ==> key_of(relative)[i] == relative[i],
        relative[i] == '\\' ==> key_of(relative)[i] == '/',
{
}

/// The key of a file below the root.
pub fn key_for(relative: &str) -> (r: String)
    ensures
        r@ == key_of(relative@),
{
    let v = text::chars_of(relative);
    let mut r = String::new();
    let mut i: usize = 0;
    while i < v.len()
        invariant
            i <= v@.len(),
            v@ == relative@,
            r@ == key_of(relative@).take(i as int),
        decreases v@.len() - i,
    {
        let c: char = if v[i] == '\\' {
            '/'
        } else {
            v[i]
        };
        r.push(c);
        proof {
            assert(r@ =~= key_of(relative@).take(i + 1));
        }
        i = i + 1;
    }
    proof {
        assert(key_of(relative@).take(v@.len() as int) =~= key_of(relative@));
    }
    r
}

} // verus!

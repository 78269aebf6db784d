//! An object store in memory.

use vstd::prelude::*;

use crate::error::Error;
use crate::hash;
use crate::sort;
use crate::store::api;
use crate::store::api::{ObjectMeta, ObjectStore, PutOutcome};
use crate::text;

verus! {

/// One stored object.
struct Object {
    key: String,
    bytes: Vec<u8>,
}

/// A store that lives as long as the value that holds it.
pub struct StubStore {
    objects: Vec<Object>,
}

/// What a list of objects holds under each key. A later object takes the place
/// of an earlier one with the same key.
spec fn contents_of(objects: Seq<Object>) -> Map<Seq<char>, Seq<u8>>
    decreases objects.len(),
{
    if objects.len() == 0 {
        Map::empty()
    } else {
        contents_of(objects.drop_last()).insert(objects.last().key@, objects.last().bytes@)
    }
}

/// The keys of a list of objects are those that it holds something under.
proof fn lemma_contents_keys(objects: Seq<Object>)
    ensures
        forall|k: Seq<char>| #[trigger]
            contents_of(objects).contains_key(k) <==> exists|i: int|
                0 <= i < objects.len() && (#[trigger] objects[i]).key@ == k,
    decreases objects.len(),
{
    if objects.len() > 0 {
        let front = objects.drop_last();
        lemma_contents_keys(front);
        assert forall|k: Seq<char>| #[trigger] contents_of(objects).contains_key(k) <==> exists|
            i: int,
        |
            0 <= i < objects.len() && (#[trigger] objects[i]).key@ == k by {
            if contents_of(objects).contains_key(k) {
                if k == objects.last().key@ {
                    assert(objects[objects.len() - 1].key@ == k);
                } else {
                    assert(contents_of(front).contains_key(k));
                    let i = choose|i: int| 0 <= i < front.len() && (#[trigger] front[i]).key@ == k;
                    assert(objects[i].key@ == k);
                }
            }
            if exists|i: int| 0 <= i < objects.len() && (#[trigger] objects[i]).key@ == k {
                let i = choose|i: int| 0 <= i < objects.len() && (#[trigger] objects[i]).key@ == k;
                if i < front.len() {
                    assert(front[i].key@ == k);
                    assert(contents_of(front).contains_key(k));
                }
            }
        }
    }
}

/// Replacing the last object with a key changes what the key holds, and
/// nothing else.
proof fn lemma_replace(objects: Seq<Object>, i: int, new: Object)
    requires
        0 <= i < objects.len(),
        new.key@ == objects[i].key@,
        forall|j: int| i < j < objects.len() ==> (#[trigger] objects[j]).key@ != new.key@,
    ensures
        contents_of(objects.update(i, new)) == contents_of(objects).insert(new.key@, new.bytes@),
    decreases objects.len(),
{
    let after = objects.update(i, new);
    let front = objects.drop_last();
    if i == objects.len() - 1 {
        assert(after.drop_last() =~= front);
        assert(contents_of(after) =~= contents_of(objects).insert(new.key@, new.bytes@));
    } else {
        assert forall|j: int| i < j < front.len() implies (#[trigger] front[j]).key@ != new.key@ by {
            assert(objects[j].key@ != new.key@);
        }
        lemma_replace(front, i, new);
        assert(after.drop_last() =~= front.update(i, new));
        assert(objects[objects.len() - 1].key@ != new.key@);
        assert(contents_of(after) =~= contents_of(objects).insert(new.key@, new.bytes@));
    }
}

/// The metadata that this store gives to an object.
pub open spec fn is_meta_of(meta: ObjectMeta, key: Seq<char>, bytes: Seq<u8>) -> bool {
    &&& meta.key@ == key
    &&& meta.size_bytes == bytes.len()
    &&& text::opt_view(meta.etag) == Some(hash::sha256_hex(bytes))
}

/// What a store says of an object is its key, the number of its bytes, and a tag that
/// is its hash.
pub proof fn law_metadata_describes_the_object(meta: ObjectMeta, key: Seq<char>, bytes: Seq<u8>)
    requires
        is_meta_of(meta, key, bytes),
    ensures
        meta.key@ == key,
        meta.size_bytes == bytes.len(),
        meta.etag is Some && meta.etag->0@ == hash::sha256_hex(bytes),
{
}

/// The etag of what stands under a key, if anything does.
pub open spec fn etag_at(contents: Map<Seq<char>, Seq<u8>>, key: Seq<char>) -> Option<Seq<char>> {
    if contents.contains_key(key) {
        Some(hash::sha256_hex(contents[key]))
    } else {
        None
    }
}

/// Whether a listing holds the keys under a prefix, each once and in order.
pub open spec fn is_listing(
    keys: Seq<Seq<char>>,
    contents: Map<Seq<char>, Seq<u8>>,
    prefix: Seq<char>,
) -> bool {
    &&& forall|k: Seq<char>| #[trigger]
        keys.contains(k) <==> contents.contains_key(k) && prefix.is_prefix_of(k)
    &&& forall|i: int, j: int|
        0 <= i < j < keys.len() ==> sort::text_at_most(#[trigger] keys[i], #[trigger] keys[j])
            && keys[i] != keys[j]
}

/// A listing holds the keys of the objects under a prefix, no other, each once, in text
/// order.
pub proof fn law_listing_holds_the_keys_under_a_prefix(
    keys: Seq<Seq<char>>,
    contents: Map<Seq<char>, Seq<u8>>,
    prefix: Seq<char>,
    k: Seq<char>,
    i: int,
    j: int,
)
    requires
        is_listing(keys, contents, prefix),
        0 <= i < j < keys.len(),
    ensures
        contents.contains_key(k) && prefix.is_prefix_of(k) <==> keys.contains(k),
        keys[i] != keys[j],
        sort::text_at_most(keys[i], keys[j]),
{
}

/// A read gives back what a write wrote, and a write touches nothing else.
pub proof fn law_writes_are_read_back(
    contents: Map<Seq<char>, Seq<u8>>,
    key: Seq<char>,
    bytes: Seq<u8>,
)
    ensures
        contents.insert(key, bytes).contains_key(key),
        contents.insert(key, bytes)[key] == bytes,
        forall|other: Seq<char>|
            other != key ==> {
                &&& #[trigger] contents.insert(key, bytes).contains_key(other)
                    == contents.contains_key(other)
                &&& etag_at(contents.insert(key, bytes), other) == etag_at(contents, other)
            },
{
}

/// A write that expects no object succeeds on a free key, and never twice in a
/// row: the second one finds the object of the first.
pub proof fn law_object_is_created_once(
    contents: Map<Seq<char>, Seq<u8>>,
    key: Seq<char>,
    bytes: Seq<u8>,
)
    ensures
        api::condition_holds(None, etag_at(contents, key)) <==> !contents.contains_key(key),
        !api::condition_holds(None, etag_at(contents.insert(key, bytes), key)),
{
}

/// A write that expects what it has seen succeeds as long as it still stands,
/// and is refused once content with another hash has taken its place.
pub proof fn law_stale_write_is_refused(
    contents: Map<Seq<char>, Seq<u8>>,
    key: Seq<char>,
    seen: Seq<u8>,
    newer: Seq<u8>,
)
    requires
        hash::sha256_hex(seen) != hash::sha256_hex(newer),
    ensures
        api::condition_holds(
            Some(hash::sha256_hex(seen)),
            etag_at(contents.insert(key, seen), key),
        ),
        !api::condition_holds(
            Some(hash::sha256_hex(seen)),
            etag_at(contents.insert(key, newer), key),
        ),
{
}

impl StubStore {
    /// What the store holds under each key.
    pub closed spec fn contents(self) -> Map<Seq<char>, Seq<u8>> {
        contents_of(self.objects@)
    }

    /// An empty store.
    pub fn new() -> (r: StubStore)
        ensures
            r.contents() == Map::<Seq<char>, Seq<u8>>::empty(),
    {
        StubStore { objects: Vec::new() }
    }

    /// Where the last object with a key stands.
    fn find(&self, key: &str) -> (r: Option<usize>)
        ensures
            r matches Some(i) ==> {
                &&& i < self.objects@.len()
                &&& self.objects@[i as int].key@ == key@
                &&& forall|j: int|
                    i < j < self.objects@.len() ==> (#[trigger] self.objects@[j]).key@ != key@
                &&& self.contents().contains_key(key@)
                &&& self.contents()[key@] == self.objects@[i as int].bytes@
            },
            r is None ==> !self.contents().contains_key(key@),
    {
        let mut i: usize = self.objects.len();
        let ghost all = self.objects@;
        proof {
            assert(all.take(i as int) =~= all);
        }
        while i > 0
            invariant
                i <= self.objects@.len(),
                all == self.objects@,
                forall|j: int| i <= j < all.len() ==> (#[trigger] all[j]).key@ != key@,
                contents_of(all).contains_key(key@) == contents_of(all.take(i as int)).contains_key(
                    key@,
                ),
                contents_of(all).contains_key(key@) ==> contents_of(all)[key@] == contents_of(
                    all.take(i as int),
                )[key@],
            decreases i,
        {
            proof {
                assert(all.take(i as int).drop_last() =~= all.take(i - 1));
                assert(all.take(i as int).last() == all[i - 1]);
            }
            if text::same(self.objects[i - 1].key.as_str(), key) {
                return Some(i - 1);
            }
            i = i - 1;
        }
        None
    }

    /// The metadata of an object.
    fn meta(key: &str, bytes: &[u8]) -> (r: ObjectMeta)
        ensures
            is_meta_of(r, key@, bytes@),
    {
        ObjectMeta {
            key: key.to_owned(),
            size_bytes: bytes.len() as u64,
            etag: Some(hash::hash_bytes(bytes)),
        }
    }

    /// Puts bytes under a key.
    fn store(&mut self, key: &str, bytes: Vec<u8>)
        ensures
            final(self).contents() == old(self).contents().insert(key@, bytes@),
    {
        let found = self.find(key);
        let ghost before = self.objects@;
        let object = Object { key: key.to_owned(), bytes };
        match found {
            Some(i) => {
                proof {
                    lemma_replace(before, i as int, object);
                }
                self.objects.set(i, object);
            },
            None => {
                proof {
                    assert(before.push(object).drop_last() =~= before);
                }
                self.objects.push(object);
            },
        }
    }

    /// A copy of the bytes under a key.
    fn fetch(&self, key: &str) -> (r: Option<Vec<u8>>)
        ensures
            r matches Some(b) ==> self.contents().contains_key(key@) && self.contents()[key@] == b@,
            r is None ==> !self.contents().contains_key(key@),
    {
        match self.find(key) {
            Some(i) => Some(copy_bytes(self.objects[i].bytes.as_slice())),
            None => None,
        }
    }

    /// The keys under a prefix, in order.
    fn keys_under(&self, prefix: &str) -> (r: Vec<String>)
        ensures
            is_listing(text::views(r@), self.contents(), prefix@),
    {
        proof {
            lemma_contents_keys(self.objects@);
        }
        let mut found: Vec<String> = Vec::new();
        let mut i: usize = 0;
        while i < self.objects.len()
            invariant
                i <= self.objects@.len(),
                forall|a: int|
                    0 <= a < found@.len() ==> prefix@.is_prefix_of((#[trigger] found@[a])@) && exists|
                        m: int,
                    |
                        0 <= m < i && (#[trigger] self.objects@[m]).key@ == found@[a]@,
                forall|m: int|
                    0 <= m < i && prefix@.is_prefix_of((#[trigger] self.objects@[m]).key@)
                        ==> text::views(found@).contains(self.objects@[m].key@),
                forall|a: int, b: int|
                    0 <= a < b < found@.len() ==> (#[trigger] found@[a])@ != (
                    #[trigger] found@[b])@,
            decreases self.objects@.len() - i,
        {
            let key: &String = &self.objects[i].key;
            let ghost before = found@;
            if text::starts_with(key.as_str(), prefix) && !text::contains_text(
                &found,
                key.as_str(),
            ) {
                proof {
                    assert forall|a: int| 0 <= a < before.len() implies (#[trigger] before[a])@
                        != key@ by {
                        assert(text::views(before)[a] == before[a]@);
                    }
                }
                found.push(key.clone());
                proof {
                    assert(text::views(found@)[before.len() as int] == key@);
                    assert forall|m: int|
                        0 <= m < i + 1 && prefix@.is_prefix_of(
                            (#[trigger] self.objects@[m]).key@,
                        ) implies text::views(found@).contains(self.objects@[m].key@) by {
                        if m < i {
                            let v = text::views(before);
                            let a = choose|a: int|
                                0 <= a < v.len() && v[a] == self.objects@[m].key@;
                            assert(text::views(found@)[a] == self.objects@[m].key@);
                        }
                    }
                    assert(self.objects@[i as int].key@ == found@[before.len() as int]@);
                }
            }
            i = i + 1;
        }
        let order = sort::order_texts(&found);
        let r = text::arrange(&found, &order);
        proof {
            let all = text::views(found@);
            let sorted = text::views(r@);
            assert forall|k: Seq<char>| #[trigger] sorted.contains(k) <==> self.contents()
                .contains_key(k) && prefix@.is_prefix_of(k) by {
                if sorted.contains(k) {
                    let a = choose|a: int| 0 <= a < sorted.len() && sorted[a] == k;
                    assert(found@[order@[a] as int]@ == k);
                    let m = choose|m: int|
                        0 <= m < self.objects@.len() && (#[trigger] self.objects@[m]).key@ == k;
                    assert(self.contents().contains_key(self.objects@[m].key@));
                }
                if self.contents().contains_key(k) && prefix@.is_prefix_of(k) {
                    let m = choose|m: int|
                        0 <= m < self.objects@.len() && (#[trigger] self.objects@[m]).key@ == k;
                    assert(all.contains(k));
                    let a = choose|a: int| 0 <= a < all.len() && all[a] == k;
                    assert(sort::lists(order@, a));
                    let b = choose|b: int| 0 <= b < order@.len() && #[trigger] order@[b] == a;
                    assert(sorted[b] == k);
                }
            }
            assert forall|a: int, b: int| 0 <= a < b < sorted.len() implies sort::text_at_most(
                #[trigger] sorted[a],
                #[trigger] sorted[b],
            ) && sorted[a] != sorted[b] by {
                let p = order@[a] as int;
                let q = order@[b] as int;
                assert(sort::text_before(all, p, q));
                if p < q {
                    assert(found@[p]@ != found@[q]@);
                } else if q < p {
                    assert(found@[q]@ != found@[p]@);
                } else {
                    assert(false);
                }
            }
        }
        r
    }
}

/// A copy of some bytes.
pub fn copy_bytes(bytes: &[u8]) -> (r: Vec<u8>)
    ensures
        r@ == bytes@,
{
    let mut r: Vec<u8> = Vec::new();
    r.extend_from_slice(bytes);
    proof {
        assert(r@ =~= bytes@);
    }
    r
}

impl Default for StubStore {
    fn default() -> (r: StubStore)
        ensures
            r.contents() == Map::<Seq<char>, Seq<u8>>::empty(),
    {
        StubStore::new()
    }
}

impl ObjectStore for StubStore {
    fn get(&mut self, key: &str) -> (r: Result<Vec<u8>, Error>)
        ensures
            final(self).contents() == old(self).contents(),
            match r {
                Ok(bytes) => old(self).contents().contains_key(key@) && bytes@ == old(self).contents()[key@],
                Err(e) => {
                    &&& !old(self).contents().contains_key(key@)
                    &&& e matches Error::NotFound(m) && m@ == "object "@ + key@
                },
            },
    {
        match self.fetch(key) {
            Some(bytes) => Ok(bytes),
            None => Err(Error::NotFound(text::cat2("object ", key))),
        }
    }

    fn put(&mut self, key: &str, bytes: &[u8]) -> (r: Result<ObjectMeta, Error>)
        ensures
            final(self).contents() == old(self).contents().insert(key@, bytes@),
            r matches Ok(meta) && is_meta_of(meta, key@, bytes@),
    {
        self.store(key, copy_bytes(bytes));
        Ok(StubStore::meta(key, bytes))
    }

    fn object_exists(&mut self, key: &str) -> (r: Result<bool, Error>)
        ensures
            final(self).contents() == old(self).contents(),
            r == Ok::<bool, Error>(old(self).contents().contains_key(key@)),
    {
        Ok(self.find(key).is_some())
    }

    fn head(&mut self, key: &str) -> (r: Result<Option<ObjectMeta>, Error>)
        ensures
            final(self).contents() == old(self).contents(),
            match r {
                Ok(Some(meta)) => old(self).contents().contains_key(key@) && is_meta_of(
                    meta,
                    key@,
                    old(self).contents()[key@],
                ),
                Ok(None) => !old(self).contents().contains_key(key@),
                Err(_) => false,
            },
    {
        match self.find(key) {
            Some(i) => Ok(Some(StubStore::meta(key, self.objects[i].bytes.as_slice()))),
            None => Ok(None),
        }
    }

    fn copy(&mut self, from_key: &str, to_key: &str) -> (r: Result<ObjectMeta, Error>)
        ensures
            match r {
                Ok(meta) => {
                    let bytes = old(self).contents()[from_key@];
                    &&& old(self).contents().contains_key(from_key@)
                    &&& final(self).contents() == old(self).contents().insert(to_key@, bytes)
                    &&& is_meta_of(meta, to_key@, bytes)
                },
                Err(e) => {
                    &&& !old(self).contents().contains_key(from_key@)
                    &&& final(self).contents() == old(self).contents()
                    &&& e matches Error::NotFound(m) && m@ == "object "@ + from_key@
                },
            },
    {
        match self.fetch(from_key) {
            Some(bytes) => {
                let meta = StubStore::meta(to_key, bytes.as_slice());
                self.store(to_key, bytes);
                Ok(meta)
            },
            None => Err(Error::NotFound(text::cat2("object ", from_key))),
        }
    }

    fn list(&mut self, prefix: &str) -> (r: Result<Vec<String>, Error>)
        ensures
            final(self).contents() == old(self).contents(),
            r matches Ok(keys) && is_listing(text::views(keys@), old(self).contents(), prefix@),
    {
        Ok(self.keys_under(prefix))
    }

    fn put_if_match(&mut self, key: &str, expected_etag: Option<&str>, bytes: &[u8]) -> (r: Result<
        PutOutcome,
        Error,
    >)
        ensures
            match r {
                Ok(PutOutcome::Written(meta)) => {
                    &&& api::condition_holds(
                        api::opt_str(expected_etag),
                        etag_at(old(self).contents(), key@),
                    )
                    &&& final(self).contents() == old(self).contents().insert(key@, bytes@)
                    &&& is_meta_of(meta, key@, bytes@)
                },
                Ok(PutOutcome::Conflict { current_etag }) => {
                    &&& !api::condition_holds(
                        api::opt_str(expected_etag),
                        etag_at(old(self).contents(), key@),
                    )
                    &&& final(self).contents() == old(self).contents()
                    &&& text::opt_view(current_etag) == etag_at(old(self).contents(), key@)
                },
                Err(_) => false,
            },
    {
        let current: Option<String> = match self.find(key) {
            Some(i) => Some(hash::hash_bytes(self.objects[i].bytes.as_slice())),
            None => None,
        };
        if api::etag_matches(expected_etag, &current) {
            self.store(key, copy_bytes(bytes));
            Ok(PutOutcome::Written(StubStore::meta(key, bytes)))
        } else {
            Ok(PutOutcome::Conflict { current_etag: current })
        }
    }
}

} // verus!

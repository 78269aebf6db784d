//! A map with text keys, kept in sorted order.

use vstd::prelude::*;

use crate::sort;
use crate::text;

verus! {

/// A map from texts to values.
pub struct TextMap<V> {
    keys: Vec<String>,
    values: Vec<V>,
}

/// Whether texts stand in strictly ascending order.
pub open spec fn ascending(keys: Seq<Seq<char>>) -> bool {
    forall|i: int, j: int|
        0 <= i < j < keys.len() ==> sort::text_at_most(#[trigger] keys[i], #[trigger] keys[j])
            && keys[i] != keys[j]
}

/// Where a text stands.
spec fn place(keys: Seq<Seq<char>>, k: Seq<char>) -> int {
    choose|i: int| 0 <= i < keys.len() && keys[i] == k
}

/// The map that keys and values make up.
spec fn map_of<V>(keys: Seq<Seq<char>>, values: Seq<V>) -> Map<Seq<char>, V> {
    Map::new(|k: Seq<char>| keys.contains(k), |k: Seq<char>| values[place(keys, k)])
}

proof fn lemma_place(keys: Seq<Seq<char>>, i: int)
    requires
        ascending(keys),
        0 <= i < keys.len(),
    ensures
        place(keys, keys[i]) == i,
        keys.contains(keys[i]),
{
    let k = keys[i];
    let p = place(keys, k);
    assert(0 <= i < keys.len() && keys[i] == k);
    assert(0 <= p < keys.len() && keys[p] == k);
    if p < i {
        assert(keys[p] != keys[i]);
    } else if i < p {
        assert(keys[i] != keys[p]);
    }
}

/// A key that would stand between its neighbours is not there.
proof fn lemma_absent(keys: Seq<Seq<char>>, k: Seq<char>, at: int)
    requires
        ascending(keys),
        0 <= at <= keys.len(),
        forall|i: int| 0 <= i < at ==> sort::text_at_most(#[trigger] keys[i], k) && keys[i] != k,
        forall|i: int| at <= i < keys.len() ==> !sort::text_at_most(#[trigger] keys[i], k),
    ensures
        !keys.contains(k),
        ascending(keys.insert(at, k)),
{
    if keys.contains(k) {
        let i = choose|i: int| 0 <= i < keys.len() && keys[i] == k;
        sort::lemma_text_total(k, k);
        if i >= at {
            assert(!sort::text_at_most(keys[i], k));
        }
    }
    let more = keys.insert(at, k);
    assert forall|i: int, j: int| 0 <= i < j < more.len() implies sort::text_at_most(
        #[trigger] more[i],
        #[trigger] more[j],
    ) && more[i] != more[j] by {
        if j < at {
            assert(more[i] == keys[i] && more[j] == keys[j]);
        } else if j == at {
            assert(more[i] == keys[i] && more[j] == k);
        } else if i < at {
            assert(more[i] == keys[i] && more[j] == keys[j - 1]);
        } else if i == at {
            assert(more[i] == k && more[j] == keys[j - 1]);
            sort::lemma_text_total(k, keys[j - 1]);
        } else {
            assert(more[i] == keys[i - 1] && more[j] == keys[j - 1]);
        }
    }
}

impl<V> TextMap<V> {
    /// Whether the keys stand in order, with a value for each.
    pub closed spec fn wf(self) -> bool {
        &&& self.keys@.len() == self.values@.len()
        &&& ascending(text::views(self.keys@))
    }

    /// What the map holds under each key.
    pub closed spec fn map(self) -> Map<Seq<char>, V> {
        map_of(text::views(self.keys@), self.values@)
    }

    /// An empty map.
    pub fn new() -> (r: TextMap<V>)
        ensures
            r.wf(),
            r.map() == Map::<Seq<char>, V>::empty(),
    {
        let r = TextMap { keys: Vec::new(), values: Vec::new() };
        proof {
            assert(r.map() =~= Map::<Seq<char>, V>::empty());
        }
        r
    }

    /// Where a key stands, or where it would have to stand.
    fn locate(&self, key: &str) -> (r: (bool, usize))
        requires
            self.wf(),
        ensures
            r.1 <= self.keys@.len(),
            r.0 ==> r.1 < self.keys@.len() && self.keys@[r.1 as int]@ == key@,
            !r.0 ==> {
                let keys = text::views(self.keys@);
                &&& forall|i: int|
                    0 <= i < r.1 ==> sort::text_at_most(#[trigger] keys[i], key@) && keys[i]
                        != key@
                &&& forall|i: int|
                    r.1 <= i < keys.len() ==> !sort::text_at_most(#[trigger] keys[i], key@)
            },
    {
        let ghost keys = text::views(self.keys@);
        let mut lo: usize = 0;
        let mut hi: usize = self.keys.len();
        while lo < hi
            invariant
                self.wf(),
                keys == text::views(self.keys@),
                lo <= hi <= self.keys@.len(),
                forall|i: int|
                    0 <= i < lo ==> sort::text_at_most(#[trigger] keys[i], key@) && keys[i]
                        != key@,
                forall|i: int| hi <= i < keys.len() ==> !sort::text_at_most(#[trigger] keys[i], key@),
            decreases hi - lo,
        {
            let mid: usize = lo + (hi - lo) / 2;
            let here: &String = &self.keys[mid];
            proof {
                assert(keys[mid as int] == here@);
            }
            if text::same(here.as_str(), key) {
                return (true, mid);
            }
            if sort::text_le(here.as_str(), key) {
                proof {
                    assert forall|i: int| 0 <= i < mid + 1 implies sort::text_at_most(
                        #[trigger] keys[i],
                        key@,
                    ) && keys[i] != key@ by {
                        if i < mid {
                            assert(sort::text_at_most(keys[i], keys[mid as int]));
                            sort::lemma_text_transitive(keys[i], keys[mid as int], key@);
                            if keys[i] == key@ {
                                sort::lemma_text_antisymmetric(keys[i], keys[mid as int]);
                            }
                        }
                    }
                }
                lo = mid + 1;
            } else {
                proof {
                    assert forall|i: int| mid <= i < keys.len() implies !sort::text_at_most(
                        #[trigger] keys[i],
                        key@,
                    ) by {
                        if i > mid && sort::text_at_most(keys[i], key@) {
                            assert(sort::text_at_most(keys[mid as int], keys[i]));
                            sort::lemma_text_transitive(keys[mid as int], keys[i], key@);
                        }
                    }
                }
                hi = mid;
            }
        }
        (false, lo)
    }

    /// Whether something stands under a key.
    pub fn contains_key(&self, key: &str) -> (r: bool)
        requires
            self.wf(),
        ensures
            r == self.map().contains_key(key@),
    {
        let (found, at) = self.locate(key);
        proof {
            let keys = text::views(self.keys@);
            if found {
                assert(keys[at as int] == key@);
            } else {
                lemma_absent(keys, key@, at as int);
            }
        }
        found
    }

    /// What stands under a key.
    pub fn get(&self, key: &str) -> (r: Option<&V>)
        requires
            self.wf(),
        ensures
            r matches Some(v) ==> self.map().contains_key(key@) && self.map()[key@] == *v,
            r is None ==> !self.map().contains_key(key@),
    {
        let (found, at) = self.locate(key);
        let ghost keys = text::views(self.keys@);
        if found {
            proof {
                assert(keys[at as int] == key@);
                lemma_place(keys, at as int);
            }
            Some(&self.values[at])
        } else {
            proof {
                lemma_absent(keys, key@, at as int);
            }
            None
        }
    }

    /// Puts a value under a key, in place of what stood there.
    pub fn insert(&mut self, key: &str, value: V)
        requires
            old(self).wf(),
        ensures
            final(self).wf(),
            final(self).map() == old(self).map().insert(key@, value),
    {
        let (found, at) = self.locate(key);
        let ghost keys = text::views(self.keys@);
        let ghost values = self.values@;
        let ghost want = map_of(keys, values).insert(key@, value);
        if found {
            self.values.set(at, value);
            proof {
                assert(keys[at as int] == key@);
                lemma_place(keys, at as int);
                let have = map_of(keys, self.values@);
                assert forall|k: Seq<char>| have.contains_key(k) <==> want.contains_key(k) by {}
                assert forall|k: Seq<char>| have.contains_key(k) implies have[k] == want[k] by {
                    let i = choose|i: int| 0 <= i < keys.len() && keys[i] == k;
                    lemma_place(keys, i);
                }
                assert(have =~= want);
            }
        } else {
            proof {
                lemma_absent(keys, key@, at as int);
            }
            self.keys.insert(at, key.to_owned());
            self.values.insert(at, value);
            proof {
                let more = text::views(self.keys@);
                assert(more =~= keys.insert(at as int, key@));
                let have = map_of(more, self.values@);
                assert forall|k: Seq<char>| have.contains_key(k) <==> want.contains_key(k) by {
                    if more.contains(k) && k != key@ {
                        let i = choose|i: int| 0 <= i < more.len() && more[i] == k;
                        if i < at {
                            assert(keys[i] == k);
                        } else {
                            assert(keys[i - 1] == k);
                        }
                    }
                    if keys.contains(k) {
                        let i = choose|i: int| 0 <= i < keys.len() && keys[i] == k;
                        if i < at {
                            assert(more[i] == k);
                        } else {
                            assert(more[i + 1] == k);
                        }
                    }
                    assert(more[at as int] == key@);
                }
                assert forall|k: Seq<char>| have.contains_key(k) implies have[k] == want[k] by {
                    let i = choose|i: int| 0 <= i < more.len() && more[i] == k;
                    lemma_place(more, i);
                    if i < at {
                        assert(keys[i] == k);
                        lemma_place(keys, i);
                    } else if i > at {
                        assert(keys[i - 1] == k);
                        lemma_place(keys, i - 1);
                    }
                }
                assert(have =~= want);
            }
        }
    }

    /// Takes out what stands under a key.
    pub fn remove(&mut self, key: &str) -> (r: Option<V>)
        requires
            old(self).wf(),
        ensures
            final(self).wf(),
            final(self).map() == old(self).map().remove(key@),
            r matches Some(v) ==> old(self).map().contains_key(key@) && old(self).map()[key@] == v,
            r is None ==> !old(self).map().contains_key(key@),
    {
        let (found, at) = self.locate(key);
        let ghost keys = text::views(self.keys@);
        let ghost values = self.values@;
        let ghost want = map_of(keys, values).remove(key@);
        if found {
            self.keys.remove(at);
            let v = self.values.remove(at);
            proof {
                assert(keys[at as int] == key@);
                lemma_place(keys, at as int);
                let less = text::views(self.keys@);
                assert(less =~= keys.remove(at as int));
                assert(ascending(less)) by {
                    assert forall|i: int, j: int| 0 <= i < j < less.len() implies sort::text_at_most(
                        #[trigger] less[i],
                        #[trigger] less[j],
                    ) && less[i] != less[j] by {
                        let a = if i < at {
                            i
                        } else {
                            i + 1
                        };
                        let b = if j < at {
                            j
                        } else {
                            j + 1
                        };
                        assert(less[i] == keys[a] && less[j] == keys[b]);
                    }
                }
                let have = map_of(less, self.values@);
                assert forall|k: Seq<char>| have.contains_key(k) <==> want.contains_key(k) by {
                    if less.contains(k) {
                        let i = choose|i: int| 0 <= i < less.len() && less[i] == k;
                        let a = if i < at {
                            i
                        } else {
                            i + 1
                        };
                        assert(keys[a] == k);
                        lemma_place(keys, a);
                    }
                    if keys.contains(k) && k != key@ {
                        let i = choose|i: int| 0 <= i < keys.len() && keys[i] == k;
                        if i < at {
                            assert(less[i] == k);
                        } else {
                            assert(less[i - 1] == k);
                        }
                    }
                }
                assert forall|k: Seq<char>| have.contains_key(k) implies have[k] == want[k] by {
                    let i = choose|i: int| 0 <= i < less.len() && less[i] == k;
                    lemma_place(less, i);
                    let a = if i < at {
                        i
                    } else {
                        i + 1
                    };
                    assert(keys[a] == k);
                    lemma_place(keys, a);
                }
                assert(have =~= want);
            }
            Some(v)
        } else {
            proof {
                lemma_absent(keys, key@, at as int);
                assert(want =~= map_of(keys, values));
            }
            None
        }
    }
}

} // verus!

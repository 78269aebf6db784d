//! A stable merge sort that yields the order in which the items stand.

use vstd::prelude::*;

use crate::path;
use crate::path::Component;
use crate::text;

verus! {

/// Values with a total order, under which different values may rank the same.
pub trait Ranked: Sized {
    /// Whether `self` ranks no higher than `other`.
    spec fn at_most(&self, other: &Self) -> bool;

    /// Whether `self` ranks no higher than `other`.
    fn ranks_at_most(&self, other: &Self) -> (r: bool)
        ensures
            r == self.at_most(other),
    ;

    /// Of any two values one ranks no higher than the other.
    proof fn rank_total(a: Self, b: Self)
        ensures
            a.at_most(&b) || b.at_most(&a),
    ;

    /// The order is transitive.
    proof fn rank_transitive(a: Self, b: Self, c: Self)
        requires
            a.at_most(&b),
            b.at_most(&c),
        ensures
            a.at_most(&c),
    ;
}

/// Whether item `i` comes before item `j`: it ranks lower, or the same and
/// stands further in front.
pub open spec fn before<K: Ranked>(keys: Seq<K>, i: int, j: int) -> bool {
    keys[i].at_most(&keys[j]) && (keys[j].at_most(&keys[i]) ==> i < j)
}

/// Whether a list of indices holds `x`.
pub open spec fn lists(order: Seq<usize>, x: int) -> bool {
    exists|a: int| 0 <= a < order.len() && #[trigger] order[a] == x
}

/// Whether `order` lists every index of `keys` once, in stable sorted order.
pub open spec fn is_stable_order<K: Ranked>(keys: Seq<K>, order: Seq<usize>) -> bool {
    &&& order.len() == keys.len()
    &&& forall|x: int| 0 <= x < keys.len() ==> #[trigger] lists(order, x)
    &&& forall|a: int| 0 <= a < order.len() ==> #[trigger] order[a] < keys.len()
    &&& forall|a: int, b: int|
        0 <= a < b < order.len() ==> before(keys, #[trigger] order[a] as int, #[trigger] order[b] as int)
}

/// Whether `order` lists the indices from `lo` up to `hi` in stable sorted
/// order.
spec fn orders_range<K: Ranked>(keys: Seq<K>, lo: int, hi: int, order: Seq<usize>) -> bool {
    &&& order.len() == hi - lo
    &&& forall|x: int| lo <= x < hi ==> #[trigger] lists(order, x)
    &&& forall|a: int| 0 <= a < order.len() ==> lo <= #[trigger] order[a] < hi
    &&& forall|a: int, b: int|
        0 <= a < b < order.len() ==> before(keys, #[trigger] order[a] as int, #[trigger] order[b] as int)
}

proof fn lemma_before_transitive<K: Ranked>(keys: Seq<K>, i: int, j: int, k: int)
    requires
        before(keys, i, j),
        before(keys, j, k),
    ensures
        before(keys, i, k),
{
    K::rank_transitive(keys[i], keys[j], keys[k]);
    if keys[k].at_most(&keys[i]) {
        K::rank_transitive(keys[k], keys[i], keys[j]);
        K::rank_transitive(keys[j], keys[k], keys[i]);
    }
}

/// Merges the sorted indices of two neighbouring ranges.
fn merge<K: Ranked>(keys: &Vec<K>, lo: usize, mid: usize, hi: usize, x: &Vec<usize>, y: &Vec<usize>) -> (r:
    Vec<usize>)
    requires
        lo <= mid <= hi <= keys@.len(),
        orders_range(keys@, lo as int, mid as int, x@),
        orders_range(keys@, mid as int, hi as int, y@),
    ensures
        orders_range(keys@, lo as int, hi as int, r@),
{
    let mut r: Vec<usize> = Vec::new();
    let mut i: usize = 0;
    let mut j: usize = 0;
    while i < x.len() || j < y.len()
        invariant
            lo <= mid <= hi <= keys@.len(),
            orders_range(keys@, lo as int, mid as int, x@),
            orders_range(keys@, mid as int, hi as int, y@),
            i <= x@.len(),
            j <= y@.len(),
            r@.len() == i + j,
            forall|a: int| 0 <= a < r@.len() ==> lo <= #[trigger] r@[a] < hi,
            forall|a: int, b: int|
                0 <= a < b < r@.len() ==> before(
                    keys@,
                    #[trigger] r@[a] as int,
                    #[trigger] r@[b] as int,
                ),
            forall|a: int, b: int|
                0 <= a < r@.len() && i <= b < x@.len() ==> before(
                    keys@,
                    #[trigger] r@[a] as int,
                    #[trigger] x@[b] as int,
                ),
            forall|a: int, b: int|
                0 <= a < r@.len() && j <= b < y@.len() ==> before(
                    keys@,
                    #[trigger] r@[a] as int,
                    #[trigger] y@[b] as int,
                ),
            forall|b: int| 0 <= b < i ==> r@.contains(#[trigger] x@[b]),
            forall|b: int| 0 <= b < j ==> r@.contains(#[trigger] y@[b]),
        decreases x@.len() - i + y@.len() - j,
    {
        let take_left: bool = if i >= x.len() {
            false
        } else if j >= y.len() {
            true
        } else {
            keys[x[i]].ranks_at_most(&keys[y[j]])
        };
        let ghost old_r = r@;
        if take_left {
            let next: usize = x[i];
            proof {
                if j < y@.len() {
                    assert(before(keys@, next as int, y@[j as int] as int));
                    assert forall|b: int| j <= b < y@.len() implies before(
                        keys@,
                        next as int,
                        #[trigger] y@[b] as int,
                    ) by {
                        if b > j {
                            lemma_before_transitive(
                                keys@,
                                next as int,
                                y@[j as int] as int,
                                y@[b] as int,
                            );
                        }
                    }
                }
            }
            r.push(next);
            i = i + 1;
            proof {
                assert(r@[r@.len() - 1] == next);
                assert forall|b: int| 0 <= b < i implies r@.contains(#[trigger] x@[b]) by {
                    if b < i - 1 {
                        let k = choose|k: int| 0 <= k < old_r.len() && old_r[k] == x@[b];
                        assert(r@[k] == x@[b]);
                    }
                }
                assert forall|b: int| 0 <= b < j implies r@.contains(#[trigger] y@[b]) by {
                    let k = choose|k: int| 0 <= k < old_r.len() && old_r[k] == y@[b];
                    assert(r@[k] == y@[b]);
                }
            }
        } else {
            let next: usize = y[j];
            proof {
                if i < x@.len() {
                    K::rank_total(keys@[x@[i as int] as int], keys@[next as int]);
                    assert(before(keys@, next as int, x@[i as int] as int));
                    assert forall|b: int| i <= b < x@.len() implies before(
                        keys@,
                        next as int,
                        #[trigger] x@[b] as int,
                    ) by {
                        if b > i {
                            lemma_before_transitive(
                                keys@,
                                next as int,
                                x@[i as int] as int,
                                x@[b] as int,
                            );
                        }
                    }
                }
            }
            r.push(next);
            j = j + 1;
            proof {
                assert(r@[r@.len() - 1] == next);
                assert forall|b: int| 0 <= b < j implies r@.contains(#[trigger] y@[b]) by {
                    if b < j - 1 {
                        let k = choose|k: int| 0 <= k < old_r.len() && old_r[k] == y@[b];
                        assert(r@[k] == y@[b]);
                    }
                }
                assert forall|b: int| 0 <= b < i implies r@.contains(#[trigger] x@[b]) by {
                    let k = choose|k: int| 0 <= k < old_r.len() && old_r[k] == x@[b];
                    assert(r@[k] == x@[b]);
                }
            }
        }
    }
    proof {
        assert forall|v: int| lo <= v < hi implies #[trigger] lists(r@, v) by {
            if v < mid {
                assert(lists(x@, v));
                let b = choose|b: int| 0 <= b < x@.len() && #[trigger] x@[b] == v;
                assert(r@.contains(x@[b]));
            } else {
                assert(lists(y@, v));
                let b = choose|b: int| 0 <= b < y@.len() && #[trigger] y@[b] == v;
                assert(r@.contains(y@[b]));
            }
        }
    }
    r
}

/// The indices from `lo` up to `hi` in stable sorted order.
fn order_range<K: Ranked>(keys: &Vec<K>, lo: usize, hi: usize) -> (r: Vec<usize>)
    requires
        lo <= hi <= keys@.len(),
    ensures
        orders_range(keys@, lo as int, hi as int, r@),
    decreases hi - lo,
{
    let mut r: Vec<usize> = Vec::new();
    if hi == lo {
        return r;
    }
    if hi - lo == 1 {
        r.push(lo);
        proof {
            assert(r@[0] == lo);
        }
        return r;
    }
    let mid: usize = lo + (hi - lo) / 2;
    let x = order_range(keys, lo, mid);
    let y = order_range(keys, mid, hi);
    merge(keys, lo, mid, hi, &x, &y)
}

/// The stable sorted order of the given keys.
pub fn stable_order<K: Ranked>(keys: &Vec<K>) -> (order: Vec<usize>)
    ensures
        is_stable_order(keys@, order@),
{
    order_range(keys, 0, keys.len())
}

/// Whether `order` lists the indices below `n` once each, every one of them
/// before the later ones.
pub open spec fn is_order(n: nat, precedes: spec_fn(int, int) -> bool, order: Seq<usize>) -> bool {
    &&& order.len() == n
    &&& forall|x: int| 0 <= x < n ==> #[trigger] lists(order, x)
    &&& forall|a: int| 0 <= a < order.len() ==> #[trigger] order[a] < n
    &&& forall|a: int, b: int|
        0 <= a < b < order.len() ==> precedes(
            #[trigger] order[a] as int,
            #[trigger] order[b] as int,
        )
}

/// Two orders by the same relation agree from the start up to any place.
proof fn lemma_orders_agree(
    count: nat,
    precedes: spec_fn(int, int) -> bool,
    x: Seq<usize>,
    y: Seq<usize>,
    n: int,
)
    requires
        is_order(count, precedes, x),
        is_order(count, precedes, y),
        forall|i: int, j: int| !(#[trigger] precedes(i, j) && precedes(j, i)),
        0 <= n <= count,
    ensures
        x.take(n) == y.take(n),
    decreases n,
{
    if n > 0 {
        lemma_orders_agree(count, precedes, x, y, n - 1);
        let p = x[n - 1];
        let q = y[n - 1];
        if p != q {
            assert(lists(y, p as int));
            assert(lists(x, q as int));
            let a = choose|a: int| 0 <= a < y.len() && #[trigger] y[a] == p as int;
            let b = choose|b: int| 0 <= b < x.len() && #[trigger] x[b] == q as int;
            if a < n - 1 {
                assert(x.take(n - 1)[a] == y.take(n - 1)[a]);
                assert(x[a] == p);
                assert(precedes(x[a] as int, x[n - 1] as int));
                assert(false);
            }
            if b < n - 1 {
                assert(x.take(n - 1)[b] == y.take(n - 1)[b]);
                assert(y[b] == q);
                assert(precedes(y[b] as int, y[n - 1] as int));
                assert(false);
            }
            assert(precedes(y[n - 1] as int, y[a] as int));
            assert(precedes(x[n - 1] as int, x[b] as int));
            assert(false);
        }
        assert(x.take(n) =~= x.take(n - 1).push(p));
        assert(y.take(n) =~= y.take(n - 1).push(q));
    }
}

/// There is only one order by a given relation.
proof fn lemma_order_unique(
    count: nat,
    precedes: spec_fn(int, int) -> bool,
    x: Seq<usize>,
    y: Seq<usize>,
)
    requires
        is_order(count, precedes, x),
        is_order(count, precedes, y),
        forall|i: int, j: int| !(#[trigger] precedes(i, j) && precedes(j, i)),
    ensures
        x == y,
{
    lemma_orders_agree(count, precedes, x, y, count as int);
    assert(x.take(count as int) =~= x);
    assert(y.take(count as int) =~= y);
}

/// Whether of any two indices below `n` one comes before the other, and what comes
/// before one comes before all that it comes before.
spec fn is_ranking(n: nat, precedes: spec_fn(int, int) -> bool) -> bool {
    &&& forall|i: int, j: int|
        0 <= i < n && 0 <= j < n && i != j ==> #[trigger] precedes(i, j) || precedes(j, i)
    &&& forall|i: int, j: int, k: int| #[trigger]
        precedes(i, j) && #[trigger] precedes(j, k) ==> precedes(i, k)
}

/// A sorted list of indices with one more put in its place.
spec fn with_index(order: Seq<usize>, k: usize, precedes: spec_fn(int, int) -> bool) -> Seq<usize>
    decreases order.len(),
{
    if order.len() == 0 || precedes(order.last() as int, k as int) {
        order.push(k)
    } else {
        with_index(order.drop_last(), k, precedes).push(order.last())
    }
}

/// Putting an index in its place keeps a list sorted.
proof fn lemma_with_index(
    order: Seq<usize>,
    k: usize,
    n: nat,
    precedes: spec_fn(int, int) -> bool,
)
    requires
        is_ranking(n, precedes),
        k < n,
        forall|a: int| 0 <= a < order.len() ==> #[trigger] order[a] < n && order[a] != k,
        forall|a: int, b: int|
            0 <= a < b < order.len() ==> precedes(
                #[trigger] order[a] as int,
                #[trigger] order[b] as int,
            ),
    ensures
        with_index(order, k, precedes).len() == order.len() + 1,
        forall|a: int|
            0 <= a <= order.len() ==> (#[trigger] with_index(order, k, precedes)[a] == k || lists(
                order,
                with_index(order, k, precedes)[a] as int,
            )),
        lists(with_index(order, k, precedes), k as int),
        forall|x: int| #[trigger] lists(order, x) ==> lists(with_index(order, k, precedes), x),
        forall|a: int, b: int|
            0 <= a < b <= order.len() ==> precedes(
                #[trigger] with_index(order, k, precedes)[a] as int,
                #[trigger] with_index(order, k, precedes)[b] as int,
            ),
    decreases order.len(),
{
    let all = with_index(order, k, precedes);
    if order.len() == 0 || precedes(order.last() as int, k as int) {
        assert(all[order.len() as int] == k);
        assert forall|a: int, b: int| 0 <= a < b <= order.len() implies precedes(
            #[trigger] all[a] as int,
            #[trigger] all[b] as int,
        ) by {
            if b == order.len() && a < order.len() - 1 {
                assert(precedes(order[a] as int, order[order.len() - 1] as int));
            }
        }
        assert forall|x: int| #[trigger] lists(order, x) implies lists(all, x) by {
            let a = choose|a: int| 0 <= a < order.len() && #[trigger] order[a] == x;
            assert(all[a] == x);
        }
        assert forall|a: int| 0 <= a <= order.len() implies (#[trigger] all[a] == k || lists(
            order,
            all[a] as int,
        )) by {
            if a < order.len() {
                assert(order[a] == all[a]);
            }
        }
    } else {
        let front = order.drop_last();
        let last = order.last();
        lemma_with_index(front, k, n, precedes);
        let some = with_index(front, k, precedes);
        assert(order[order.len() - 1] == last);
        assert(precedes(k as int, last as int));
        assert forall|a: int| 0 <= a <= order.len() implies (#[trigger] all[a] == k || lists(
            order,
            all[a] as int,
        )) by {
            if a < some.len() {
                assert(all[a] == some[a]);
                if some[a] != k {
                    let c = choose|c: int|
                        0 <= c < front.len() && #[trigger] front[c] == some[a] as int;
                    assert(order[c] == some[a]);
                }
            }
        }
        assert forall|a: int, b: int| 0 <= a < b <= order.len() implies precedes(
            #[trigger] all[a] as int,
            #[trigger] all[b] as int,
        ) by {
            assert(all[a] == some[a]);
            if b < some.len() {
                assert(all[b] == some[b]);
            } else if some[a] != k {
                let c = choose|c: int|
                    0 <= c < front.len() && #[trigger] front[c] == some[a] as int;
                assert(precedes(order[c] as int, order[order.len() - 1] as int));
            }
        }
        let at = choose|a: int| 0 <= a < some.len() && #[trigger] some[a] == k as int;
        assert(all[at] == k);
        assert forall|x: int| #[trigger] lists(order, x) implies lists(all, x) by {
            let a = choose|a: int| 0 <= a < order.len() && #[trigger] order[a] == x;
            if a < front.len() {
                assert(front[a] == x);
                assert(lists(front, x));
                let b = choose|b: int| 0 <= b < some.len() && #[trigger] some[b] == x;
                assert(all[b] == x);
            } else {
                assert(all[order.len() as int] == x);
            }
        }
    }
}

/// Whatever ranks can be put in order.
proof fn lemma_order_exists(n: nat, count: nat, precedes: spec_fn(int, int) -> bool) -> (order: Seq<
    usize,
>)
    requires
        n <= count <= usize::MAX,
        is_ranking(count, precedes),
    ensures
        is_order(n, precedes, order),
    decreases n,
{
    if n == 0 {
        Seq::empty()
    } else {
        let front = lemma_order_exists((n - 1) as nat, count, precedes);
        let k = (n - 1) as usize;
        lemma_with_index(front, k, count, precedes);
        let order = with_index(front, k, precedes);
        assert forall|a: int| 0 <= a < order.len() implies #[trigger] order[a] < n by {
            if order[a] != k {
                let c = choose|c: int|
                    0 <= c < front.len() && #[trigger] front[c] == order[a] as int;
                assert(front[c] < n - 1);
            }
        }
        assert forall|x: int| 0 <= x < n implies #[trigger] lists(order, x) by {
            if x < n - 1 {
                assert(lists(front, x));
            }
        }
        order
    }
}

/// The items in the order that a list of indices gives.
pub open spec fn arranged<T>(items: Seq<T>, order: Seq<usize>) -> Seq<T> {
    Seq::new(order.len(), |i: int| items[order[i] as int])
}

// ---------------------------------------------------------------------------
// Text order
// ---------------------------------------------------------------------------

/// The order of texts by their characters' code points, the order of `str`.
pub open spec fn text_at_most(a: Seq<char>, b: Seq<char>) -> bool
    decreases a.len(),
{
    if a.len() == 0 {
        true
    } else if b.len() == 0 {
        false
    } else if a[0] == b[0] {
        text_at_most(a.drop_first(), b.drop_first())
    } else {
        a[0] < b[0]
    }
}

/// Of two texts that go the same way at first, the one with the smaller character at
/// the first difference comes first, and one that ends there comes before any that
/// goes on.
pub proof fn law_first_difference_decides(
    same: Seq<char>,
    x: char,
    y: char,
    a: Seq<char>,
    b: Seq<char>,
)
    requires
        x < y,
    ensures
        text_at_most(same + (seq![x] + a), same + (seq![y] + b)),
        !text_at_most(same + (seq![y] + b), same + (seq![x] + a)),
        text_at_most(same, same + (seq![y] + b)),
        !text_at_most(same + (seq![y] + b), same),
    decreases same.len(),
{
    let s = same + (seq![x] + a);
    let t = same + (seq![y] + b);
    if same.len() == 0 {
        assert(s[0] == x);
        assert(t[0] == y);
    } else {
        let rest = same.drop_first();
        law_first_difference_decides(rest, x, y, a, b);
        assert(s.drop_first() =~= rest + (seq![x] + a));
        assert(t.drop_first() =~= rest + (seq![y] + b));
        assert(s[0] == same[0] && t[0] == same[0]);
    }
}

pub proof fn lemma_text_total(a: Seq<char>, b: Seq<char>)
    ensures
        text_at_most(a, b) || text_at_most(b, a),
    decreases a.len(),
{
    if a.len() > 0 && b.len() > 0 && a[0] == b[0] {
        lemma_text_total(a.drop_first(), b.drop_first());
    }
}

pub proof fn lemma_text_transitive(a: Seq<char>, b: Seq<char>, c: Seq<char>)
    requires
        text_at_most(a, b),
        text_at_most(b, c),
    ensures
        text_at_most(a, c),
    decreases a.len(),
{
    if a.len() > 0 && a[0] == b[0] && b[0] == c[0] {
        lemma_text_transitive(a.drop_first(), b.drop_first(), c.drop_first());
    }
}

/// Texts that rank the same are the same.
pub proof fn lemma_text_antisymmetric(a: Seq<char>, b: Seq<char>)
    requires
        text_at_most(a, b),
        text_at_most(b, a),
    ensures
        a == b,
    decreases a.len(),
{
    if a.len() > 0 {
        assert(b.len() > 0);
        assert(a[0] == b[0]);
        lemma_text_antisymmetric(a.drop_first(), b.drop_first());
        assert(a.drop_first().len() == b.drop_first().len());
        assert forall|i: int| 0 <= i < a.len() implies a[i] == b[i] by {
            if i > 0 {
                assert(a.drop_first()[i - 1] == b.drop_first()[i - 1]);
            }
        }
        assert(a =~= b);
    } else {
        assert(b.len() == 0);
        assert(a =~= b);
    }
}

/// Whether `a` comes no later than `b` in the order of texts.
pub fn text_le(a: &str, b: &str) -> (r: bool)
    ensures
        r == text_at_most(a@, b@),
{
    let x = text::chars_of(a);
    let y = text::chars_of(b);
    let mut i: usize = 0;
    proof {
        assert(x@.skip(0) =~= a@);
        assert(y@.skip(0) =~= b@);
    }
    while i < x.len() && i < y.len()
        invariant
            i <= x@.len(),
            i <= y@.len(),
            x@ == a@,
            y@ == b@,
            text_at_most(a@, b@) == text_at_most(x@.skip(i as int), y@.skip(i as int)),
        decreases x@.len() - i,
    {
        if x[i] != y[i] {
            return x[i] < y[i];
        }
        proof {
            assert(x@.skip(i as int).drop_first() =~= x@.skip(i + 1));
            assert(y@.skip(i as int).drop_first() =~= y@.skip(i + 1));
        }
        i = i + 1;
    }
    i == x.len()
}

impl Ranked for String {
    open spec fn at_most(&self, other: &Self) -> bool {
        text_at_most(self@, other@)
    }

    fn ranks_at_most(&self, other: &Self) -> (r: bool) {
        text_le(self.as_str(), other.as_str())
    }

    proof fn rank_total(a: Self, b: Self) {
        lemma_text_total(a@, b@);
    }

    proof fn rank_transitive(a: Self, b: Self, c: Self) {
        lemma_text_transitive(a@, b@, c@);
    }
}

/// Whether text `i` comes before text `j` in a stable sort.
pub open spec fn text_before(texts: Seq<Seq<char>>, i: int, j: int) -> bool {
    text_at_most(texts[i], texts[j]) && (text_at_most(texts[j], texts[i]) ==> i < j)
}

/// Whether `order` is the stable sorted order of texts.
pub open spec fn is_text_order(texts: Seq<Seq<char>>, order: Seq<usize>) -> bool {
    is_order(texts.len(), |i: int, j: int| text_before(texts, i, j), order)
}

/// The stable sorted order of texts.
pub open spec fn text_order(texts: Seq<Seq<char>>) -> Seq<usize> {
    choose|order: Seq<usize>| is_text_order(texts, order)
}

/// Texts have a stable sorted order, and [`text_order`] is it.
pub proof fn law_texts_have_an_order(texts: Seq<Seq<char>>)
    requires
        texts.len() <= usize::MAX,
    ensures
        is_text_order(texts, text_order(texts)),
{
    let precedes = |i: int, j: int| text_before(texts, i, j);
    assert forall|i: int, j: int|
        0 <= i < texts.len() && 0 <= j < texts.len() && i != j implies #[trigger] precedes(i, j)
        || precedes(j, i) by {
        lemma_text_total(texts[i], texts[j]);
    }
    assert forall|i: int, j: int, k: int| #[trigger]
        precedes(i, j) && #[trigger] precedes(j, k) implies precedes(i, k) by {
        lemma_text_transitive(texts[i], texts[j], texts[k]);
        if text_at_most(texts[k], texts[i]) {
            lemma_text_transitive(texts[k], texts[i], texts[j]);
            lemma_text_transitive(texts[j], texts[k], texts[i]);
        }
    }
    let order = lemma_order_exists(texts.len(), texts.len(), precedes);
    assert(is_text_order(texts, order));
}

/// The stable sorted order of texts.
pub fn order_texts(texts: &Vec<String>) -> (order: Vec<usize>)
    ensures
        order@ == text_order(text::views(texts@)),
        is_text_order(text::views(texts@), order@),
{
    let order = stable_order(texts);
    proof {
        let views = text::views(texts@);
        let precedes = |i: int, j: int| text_before(views, i, j);
        assert(is_text_order(views, order@)) by {
            assert forall|a: int, b: int| 0 <= a < b < order@.len() implies precedes(
                #[trigger] order@[a] as int,
                #[trigger] order@[b] as int,
            ) by {
                assert(before(texts@, order@[a] as int, order@[b] as int));
            }
        }
        lemma_order_unique(views.len(), precedes, order@, text_order(views));
    }
    order
}

// ---------------------------------------------------------------------------
// Path order
// ---------------------------------------------------------------------------

/// The order of the kinds of path parts.
pub open spec fn part_kind(p: path::Part) -> int {
    match p {
        path::Part::Root => 0,
        path::Part::Cur => 1,
        path::Part::Up => 2,
        path::Part::Named(_) => 3,
    }
}

/// The order of path parts: by kind, and names by text order.
pub open spec fn part_at_most(a: path::Part, b: path::Part) -> bool {
    match (a, b) {
        (path::Part::Named(x), path::Part::Named(y)) => text_at_most(x, y),
        _ => part_kind(a) <= part_kind(b),
    }
}

/// The order of paths: part by part.
pub open spec fn parts_at_most(a: Seq<path::Part>, b: Seq<path::Part>) -> bool
    decreases a.len(),
{
    if a.len() == 0 {
        true
    } else if b.len() == 0 {
        false
    } else if a[0] == b[0] {
        parts_at_most(a.drop_first(), b.drop_first())
    } else {
        part_at_most(a[0], b[0])
    }
}

proof fn lemma_part_order(a: path::Part, b: path::Part, c: path::Part)
    ensures
        part_at_most(a, b) || part_at_most(b, a),
        part_at_most(a, b) && part_at_most(b, c) ==> part_at_most(a, c),
        part_at_most(a, b) && part_at_most(b, a) ==> a == b,
{
    if a is Named && b is Named {
        lemma_text_total(a->Named_0, b->Named_0);
        if part_at_most(a, b) && part_at_most(b, a) {
            lemma_text_antisymmetric(a->Named_0, b->Named_0);
        }
        if c is Named && part_at_most(a, b) && part_at_most(b, c) {
            lemma_text_transitive(a->Named_0, b->Named_0, c->Named_0);
        }
    }
}

/// Of two paths that go the same way at first, the one with the name that comes first
/// in text order comes first, whatever follows, and a folder comes before what stands
/// in it.
pub proof fn law_first_name_that_differs_decides(
    same: Seq<path::Part>,
    x: Seq<char>,
    y: Seq<char>,
    a: Seq<path::Part>,
    b: Seq<path::Part>,
)
    requires
        text_at_most(x, y),
        x != y,
    ensures
        parts_at_most(
            same + (seq![path::Part::Named(x)] + a),
            same + (seq![path::Part::Named(y)] + b),
        ),
        !parts_at_most(
            same + (seq![path::Part::Named(y)] + b),
            same + (seq![path::Part::Named(x)] + a),
        ),
        parts_at_most(same, same + (seq![path::Part::Named(y)] + b)),
        !parts_at_most(same + (seq![path::Part::Named(y)] + b), same),
    decreases same.len(),
{
    let s = same + (seq![path::Part::Named(x)] + a);
    let t = same + (seq![path::Part::Named(y)] + b);
    if same.len() == 0 {
        assert(s[0] == path::Part::Named(x));
        assert(t[0] == path::Part::Named(y));
        if text_at_most(y, x) {
            lemma_text_antisymmetric(x, y);
        }
    } else {
        let rest = same.drop_first();
        law_first_name_that_differs_decides(rest, x, y, a, b);
        assert(s.drop_first() =~= rest + (seq![path::Part::Named(x)] + a));
        assert(t.drop_first() =~= rest + (seq![path::Part::Named(y)] + b));
        assert(s[0] == same[0] && t[0] == same[0]);
    }
}

proof fn lemma_parts_total(a: Seq<path::Part>, b: Seq<path::Part>)
    ensures
        parts_at_most(a, b) || parts_at_most(b, a),
    decreases a.len(),
{
    if a.len() > 0 && b.len() > 0 {
        if a[0] == b[0] {
            lemma_parts_total(a.drop_first(), b.drop_first());
        } else {
            lemma_part_order(a[0], b[0], a[0]);
        }
    }
}

proof fn lemma_parts_transitive(a: Seq<path::Part>, b: Seq<path::Part>, c: Seq<path::Part>)
    requires
        parts_at_most(a, b),
        parts_at_most(b, c),
    ensures
        parts_at_most(a, c),
    decreases a.len(),
{
    if a.len() > 0 {
        if a[0] == b[0] && b[0] == c[0] {
            lemma_parts_transitive(a.drop_first(), b.drop_first(), c.drop_first());
        } else {
            lemma_part_order(a[0], b[0], c[0]);
            lemma_part_order(b[0], c[0], a[0]);
            lemma_part_order(b[0], a[0], b[0]);
        }
    }
}

/// A path, taken apart for ordering.
pub struct PathKey {
    pub components: Vec<Component>,
}

impl Ranked for PathKey {
    open spec fn at_most(&self, other: &Self) -> bool {
        parts_at_most(path::part_views(self.components@), path::part_views(other.components@))
    }

    fn ranks_at_most(&self, other: &Self) -> (r: bool) {
        let x = &self.components;
        let y = &other.components;
        let ghost p = path::part_views(x@);
        let ghost q = path::part_views(y@);
        let mut i: usize = 0;
        proof {
            assert(p.skip(0) =~= p);
            assert(q.skip(0) =~= q);
        }
        while i < x.len() && i < y.len()
            invariant
                i <= x@.len(),
                i <= y@.len(),
                p == path::part_views(x@),
                q == path::part_views(y@),
                p == path::part_views(self.components@),
                q == path::part_views(other.components@),
                parts_at_most(p, q) == parts_at_most(p.skip(i as int), q.skip(i as int)),
            decreases x@.len() - i,
        {
            let a = &x[i];
            let b = &y[i];
            proof {
                assert(p.skip(i as int)[0] == a@);
                assert(q.skip(i as int)[0] == b@);
            }
            if component_le(a, b) {
                if !component_le(b, a) {
                    proof {
                        lemma_part_order(a@, a@, a@);
                    }
                    return true;
                }
            } else {
                proof {
                    lemma_part_order(a@, a@, a@);
                }
                return false;
            }
            proof {
                lemma_part_order(a@, b@, a@);
                assert(p.skip(i as int).drop_first() =~= p.skip(i + 1));
                assert(q.skip(i as int).drop_first() =~= q.skip(i + 1));
            }
            i = i + 1;
        }
        i == x.len()
    }

    proof fn rank_total(a: Self, b: Self) {
        lemma_parts_total(path::part_views(a.components@), path::part_views(b.components@));
    }

    proof fn rank_transitive(a: Self, b: Self, c: Self) {
        lemma_parts_transitive(
            path::part_views(a.components@),
            path::part_views(b.components@),
            path::part_views(c.components@),
        );
    }
}

/// The order of the kinds of path parts.
fn component_kind(c: &Component) -> (r: u8)
    ensures
        r == part_kind(c@),
{
    match c {
        Component::RootDir => 0,
        Component::CurDir => 1,
        Component::ParentDir => 2,
        Component::Normal(_) => 3,
    }
}

/// Whether one path part comes no later than another.
fn component_le(a: &Component, b: &Component) -> (r: bool)
    ensures
        r == part_at_most(a@, b@),
{
    match (a, b) {
        (Component::Normal(x), Component::Normal(y)) => text_le(x.as_str(), y.as_str()),
        _ => component_kind(a) <= component_kind(b),
    }
}

/// Whether path `i` comes before path `j` in a stable sort.
pub open spec fn path_before(paths: Seq<Seq<char>>, i: int, j: int) -> bool {
    parts_at_most(path::parts(paths[i]), path::parts(paths[j])) && (parts_at_most(
        path::parts(paths[j]),
        path::parts(paths[i]),
    ) ==> i < j)
}

/// Whether `order` is the stable sorted order of paths.
pub open spec fn is_path_order(paths: Seq<Seq<char>>, order: Seq<usize>) -> bool {
    is_order(paths.len(), |i: int, j: int| path_before(paths, i, j), order)
}

/// The stable sorted order of paths.
pub open spec fn path_order(paths: Seq<Seq<char>>) -> Seq<usize> {
    choose|order: Seq<usize>| is_path_order(paths, order)
}

/// Paths have a stable sorted order, and [`path_order`] is it.
pub proof fn law_paths_have_an_order(paths: Seq<Seq<char>>)
    requires
        paths.len() <= usize::MAX,
    ensures
        is_path_order(paths, path_order(paths)),
{
    let precedes = |i: int, j: int| path_before(paths, i, j);
    assert forall|i: int, j: int|
        0 <= i < paths.len() && 0 <= j < paths.len() && i != j implies #[trigger] precedes(i, j)
        || precedes(j, i) by {
        lemma_parts_total(path::parts(paths[i]), path::parts(paths[j]));
    }
    assert forall|i: int, j: int, k: int| #[trigger]
        precedes(i, j) && #[trigger] precedes(j, k) implies precedes(i, k) by {
        let (a, b, c) = (path::parts(paths[i]), path::parts(paths[j]), path::parts(paths[k]));
        lemma_parts_transitive(a, b, c);
        if parts_at_most(c, a) {
            lemma_parts_transitive(c, a, b);
            lemma_parts_transitive(b, c, a);
        }
    }
    let order = lemma_order_exists(paths.len(), paths.len(), precedes);
    assert(is_path_order(paths, order));
}

/// The stable sorted order of paths.
pub fn order_paths(paths: &Vec<String>) -> (order: Vec<usize>)
    ensures
        order@ == path_order(text::views(paths@)),
        is_path_order(text::views(paths@), order@),
{
    let keys = path_keys(paths);
    let order = stable_order(&keys);
    proof {
        let views = text::views(paths@);
        let precedes = |i: int, j: int| path_before(views, i, j);
        assert(is_path_order(views, order@)) by {
            assert forall|a: int, b: int| 0 <= a < b < order@.len() implies precedes(
                #[trigger] order@[a] as int,
                #[trigger] order@[b] as int,
            ) by {
                assert(before(keys@, order@[a] as int, order@[b] as int));
            }
        }
        lemma_order_unique(views.len(), precedes, order@, path_order(views));
    }
    order
}

/// The paths in the order of paths.
pub open spec fn sorted_paths(paths: Seq<Seq<char>>) -> Seq<Seq<char>> {
    arranged(paths, path_order(paths))
}

/// Whether positions are those below `n`, each once.
pub open spec fn is_rearrangement(order: Seq<usize>, n: nat) -> bool {
    &&& order.len() == n
    &&& forall|a: int| 0 <= a < n ==> #[trigger] order[a] < n
    &&& forall|a: int, b: int|
        0 <= a < b < n ==> #[trigger] order[a] != #[trigger] order[b]
}

/// Sorting paths loses none and adds none, and leaves each at most as far back as those
/// behind it.
pub proof fn law_sorted_paths_are_the_paths_in_order(paths: Seq<Seq<char>>)
    requires
        paths.len() <= usize::MAX,
    ensures
        exists|order: Seq<usize>|
            {
                &&& #[trigger] is_rearrangement(order, paths.len())
                &&& sorted_paths(paths).len() == paths.len()
                &&& forall|a: int|
                    0 <= a < paths.len() ==> #[trigger] sorted_paths(paths)[a]
                        == paths[order[a] as int]
            },
        forall|a: int, b: int|
            0 <= a < b < sorted_paths(paths).len() ==> parts_at_most(
                path::parts(#[trigger] sorted_paths(paths)[a]),
                path::parts(#[trigger] sorted_paths(paths)[b]),
            ),
{
    let order = path_order(paths);
    let sorted = sorted_paths(paths);
    law_paths_have_an_order(paths);
    let precedes = |i: int, j: int| path_before(paths, i, j);
    assert forall|a: int, b: int| 0 <= a < b < order.len() implies #[trigger] order[a]
        != #[trigger] order[b] && parts_at_most(
        path::parts(sorted[a]),
        path::parts(sorted[b]),
    ) by {
        assert(precedes(order[a] as int, order[b] as int));
    }
    assert(is_rearrangement(order, paths.len()));
}

/// Puts paths into the order of paths.
pub fn sort_paths(paths: &Vec<String>) -> (r: Vec<String>)
    ensures
        text::views(r@) == sorted_paths(text::views(paths@)),
        is_path_order(text::views(paths@), path_order(text::views(paths@))),
{
    let order = order_paths(paths);
    let mut r: Vec<String> = Vec::new();
    let mut i: usize = 0;
    while i < order.len()
        invariant
            i <= order@.len(),
            r@.len() == i,
            forall|a: int| 0 <= a < order@.len() ==> #[trigger] order@[a] < paths@.len(),
            forall|a: int| 0 <= a < i ==> r@[a]@ == paths@[order@[a] as int]@,
        decreases order@.len() - i,
    {
        r.push(paths[order[i]].clone());
        i = i + 1;
    }
    proof {
        assert(text::views(r@) =~= sorted_paths(text::views(paths@)));
    }
    r
}

/// The keys by which paths are ordered.
fn path_keys(paths: &Vec<String>) -> (keys: Vec<PathKey>)
    ensures
        keys@.len() == paths@.len(),
        forall|i: int|
            0 <= i < keys@.len() ==> path::part_views((#[trigger] keys@[i]).components@)
                == path::parts(paths@[i]@),
{
    let mut keys: Vec<PathKey> = Vec::new();
    let mut i: usize = 0;
    while i < paths.len()
        invariant
            i <= paths@.len(),
            keys@.len() == i,
            forall|k: int|
                0 <= k < keys@.len() ==> path::part_views((#[trigger] keys@[k]).components@)
                    == path::parts(paths@[k]@),
        decreases paths@.len() - i,
    {
        keys.push(PathKey { components: path::components(paths[i].as_str()) });
        i = i + 1;
    }
    keys
}

} // verus!

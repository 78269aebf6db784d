//! What it means that a list was picked from another one, and what numbers add
//! up to.

use vstd::prelude::*;

verus! {

/// Whether positions go up.
pub open spec fn is_rising(at: Seq<int>) -> bool {
    forall|a: int, b: int| 0 <= a < b < at.len() ==> #[trigger] at[a] < #[trigger] at[b]
}

/// Whether a list holds the items at the given positions below `n`, and these are
/// the ones to keep, from the first to the last.
pub open spec fn picks<A>(
    list: Seq<A>,
    n: int,
    keep: spec_fn(int) -> bool,
    item: spec_fn(int) -> A,
    at: Seq<int>,
) -> bool {
    &&& at.len() == list.len()
    &&& is_rising(at)
    &&& forall|a: int|
        0 <= a < at.len() ==> 0 <= #[trigger] at[a] < n && keep(at[a]) && list[a] == item(at[a])
    &&& forall|i: int| 0 <= i < n && #[trigger] keep(i) ==> at.contains(i)
}

/// Whether a list holds one item for each position below `n` that is to be kept,
/// in their order, and no other.
pub open spec fn is_selection<A>(
    list: Seq<A>,
    n: int,
    keep: spec_fn(int) -> bool,
    item: spec_fn(int) -> A,
) -> bool {
    exists|at: Seq<int>| #[trigger] picks(list, n, keep, item, at)
}

/// Of nothing, nothing is picked.
pub proof fn lemma_selection_empty<A>(keep: spec_fn(int) -> bool, item: spec_fn(int) -> A)
    ensures
        is_selection(Seq::<A>::empty(), 0, keep, item),
{
    assert(picks(Seq::<A>::empty(), 0, keep, item, Seq::empty()));
}

/// What is picked below `n + 1` is what is picked below `n`, and the item at `n`
/// if it is to be kept.
pub proof fn lemma_selection_grows<A>(
    front: Seq<A>,
    n: int,
    keep_front: spec_fn(int) -> bool,
    item_front: spec_fn(int) -> A,
    list: Seq<A>,
    keep: spec_fn(int) -> bool,
    item: spec_fn(int) -> A,
)
    requires
        n >= 0,
        is_selection(front, n, keep_front, item_front),
        forall|i: int| 0 <= i < n ==> keep_front(i) == #[trigger] keep(i),
        forall|i: int| 0 <= i < n && keep_front(i) ==> item_front(i) == #[trigger] item(i),
        list == (if keep(n) {
            front.push(item(n))
        } else {
            front
        }),
    ensures
        is_selection(list, n + 1, keep, item),
{
    let old_at = choose|at: Seq<int>| #[trigger] picks(front, n, keep_front, item_front, at);
    let at = if keep(n) {
        old_at.push(n)
    } else {
        old_at
    };
    assert forall|a: int| 0 <= a < at.len() implies 0 <= #[trigger] at[a] < n + 1 && keep(at[a])
        && list[a] == item(at[a]) by {
        if a < old_at.len() {
            assert(at[a] == old_at[a]);
            assert(keep_front(old_at[a]));
            assert(front[a] == item_front(old_at[a]));
        }
    }
    assert forall|i: int| 0 <= i < n + 1 && #[trigger] keep(i) implies at.contains(i) by {
        if i < n {
            assert(keep_front(i));
            assert(old_at.contains(i));
            let a = choose|a: int| 0 <= a < old_at.len() && old_at[a] == i;
            assert(at[a] == i);
        } else {
            assert(at[old_at.len() as int] == n);
        }
    }
    assert(picks(list, n + 1, keep, item, at));
}

/// One more item is one more member.
pub proof fn lemma_push_member<A>(list: Seq<A>, x: A)
    ensures
        list.push(x).to_set() == list.to_set().insert(x),
{
    let more = list.push(x);
    assert forall|y: A| #[trigger] more.to_set().contains(y) == list.to_set().insert(x).contains(
        y,
    ) by {
        if list.contains(y) {
            let i = choose|i: int| 0 <= i < list.len() && list[i] == y;
            assert(more[i] == y);
        }
        if more.contains(y) {
            let i = choose|i: int| 0 <= i < more.len() && more[i] == y;
            if i < list.len() {
                assert(list[i] == y);
            }
        }
        assert(more[list.len() as int] == x);
    }
    assert(more.to_set() =~= list.to_set().insert(x));
}

/// What numbers add up to.
pub open spec fn sum(numbers: Seq<int>) -> int
    decreases numbers.len(),
{
    if numbers.len() == 0 {
        0
    } else {
        sum(numbers.drop_last()) + numbers.last()
    }
}

/// Two lists of numbers together add up to both sums.
pub proof fn lemma_sum_append(a: Seq<int>, b: Seq<int>)
    ensures
        sum(a + b) == sum(a) + sum(b),
    decreases b.len(),
{
    if b.len() == 0 {
        assert(a + b =~= a);
    } else {
        assert((a + b).drop_last() =~= a + b.drop_last());
        lemma_sum_append(a, b.drop_last());
    }
}

/// One more number adds itself.
pub proof fn lemma_sum_push(a: Seq<int>, x: int)
    ensures
        sum(a.push(x)) == sum(a) + x,
{
    assert(a.push(x).drop_last() =~= a);
}

} // verus!

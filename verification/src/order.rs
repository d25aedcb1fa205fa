//! Stable ordering by integer keys.
use vstd::prelude::*;

verus! {

/// How many of the leading entries of `order` have a key that is at most `key`, where the keys
/// along `order` do not decrease.
pub open spec fn slot(order: Seq<usize>, keys: Seq<i128>, key: i128) -> nat
    decreases order.len(),
{
    if order.len() == 0 {
        0
    } else if keys[order.last() as int] <= key {
        order.len()
    } else {
        slot(order.drop_last(), keys, key)
    }
}

/// The positions `0..keys.len()` by ascending key; equal keys keep their order.
pub open spec fn stable_positions(keys: Seq<i128>) -> Seq<usize>
    decreases keys.len(),
{
    if keys.len() == 0 {
        Seq::empty()
    } else {
        let rest = stable_positions(keys.drop_last());
        rest.insert(slot(rest, keys, keys.last()) as int, (keys.len() - 1) as usize)
    }
}

/// `items` in the order that `positions` gives.
pub open spec fn arranged<T>(items: Seq<T>, positions: Seq<usize>) -> Seq<T> {
    Seq::new(positions.len(), |i: int| items[positions[i] as int])
}

/// Position `a` comes before position `b`: it has the smaller key, or the same key and the
/// smaller position.
pub open spec fn precedes(keys: Seq<i128>, a: usize, b: usize) -> bool {
    keys[a as int] < keys[b as int] || (keys[a as int] == keys[b as int] && a < b)
}

proof fn lemma_slot(order: Seq<usize>, keys: Seq<i128>, key: i128)
    requires
        forall|i: int, j: int|
            0 <= i < j < order.len() ==> keys[order[i] as int] <= keys[order[j] as int],
    ensures
        slot(order, keys, key) <= order.len(),
        forall|i: int| 0 <= i < slot(order, keys, key) ==> keys[#[trigger] order[i] as int] <= key,
        forall|i: int|
            slot(order, keys, key) <= i < order.len() ==> keys[#[trigger] order[i] as int] > key,
    decreases order.len(),
{
    if order.len() > 0 && keys[order.last() as int] > key {
        lemma_slot(order.drop_last(), keys, key);
        let rest = order.drop_last();
        assert forall|i: int| 0 <= i < slot(order, keys, key) implies keys[#[trigger] order[i] as int]
            <= key by {
            assert(rest[i] == order[i]);
        }
        assert forall|i: int|
            slot(order, keys, key) <= i < order.len() implies keys[#[trigger] order[i] as int]
            > key by {
            if i < rest.len() {
                assert(rest[i] == order[i]);
            }
        }
    }
}

/// The stable order lists every position once, by ascending key, and positions with equal keys
/// by ascending position.
pub proof fn lemma_stable_positions(keys: Seq<i128>)
    requires
        keys.len() <= usize::MAX,
    ensures
        stable_positions(keys).len() == keys.len(),
        forall|i: int|
            0 <= i < keys.len() ==> (#[trigger] stable_positions(keys)[i]) < keys.len(),
        forall|i: int, j: int|
            0 <= i < j < keys.len() ==> precedes(
                keys,
                #[trigger] stable_positions(keys)[i],
                #[trigger] stable_positions(keys)[j],
            ),
        forall|p: usize| p < keys.len() ==> #[trigger] stable_positions(keys).contains(p),
    decreases keys.len(),
{
    if keys.len() > 0 {
        let shorter = keys.drop_last();
        let last = (keys.len() - 1) as usize;
        lemma_stable_positions(shorter);
        let rest = stable_positions(shorter);
        assert forall|i: int, j: int| 0 <= i < j < rest.len() implies keys[rest[i] as int]
            <= keys[rest[j] as int] by {
            assert(precedes(shorter, rest[i], rest[j]));
        }
        lemma_slot(rest, keys, keys.last());
        let at = slot(rest, keys, keys.last()) as int;
        let whole = stable_positions(keys);
        assert forall|i: int, j: int| 0 <= i < j < keys.len() implies precedes(
            keys,
            #[trigger] whole[i],
            #[trigger] whole[j],
        ) by {
            if i == at {
                assert(whole[j] == rest[j - 1]);
            } else if j == at {
                assert(whole[i] == rest[i]);
            } else {
                let ri = if i < at { i } else { i - 1 };
                let rj = if j < at { j } else { j - 1 };
                assert(whole[i] == rest[ri] && whole[j] == rest[rj]);
                assert(precedes(shorter, rest[ri], rest[rj]));
            }
        }
        assert forall|p: usize| p < keys.len() implies #[trigger] whole.contains(p) by {
            if p == last {
                assert(whole[at] == p);
            } else {
                assert(rest.contains(p));
                let r = choose|r: int| 0 <= r < rest.len() && rest[r] == p;
                let w = if r < at { r } else { r + 1 };
                assert(whole[w] == p);
            }
        }
        assert forall|i: int| 0 <= i < keys.len() implies (#[trigger] whole[i]) < keys.len() by {
            if i < at {
                assert(whole[i] == rest[i]);
            } else if i > at {
                assert(whole[i] == rest[i - 1]);
            }
        }
    }
}

/// Any listing of all positions that is sorted in this sense is the stable order: the order is
/// determined by the keys alone.
pub proof fn lemma_stable_positions_unique(keys: Seq<i128>, listing: Seq<usize>)
    requires
        keys.len() <= usize::MAX,
        listing.len() == keys.len(),
        forall|i: int| 0 <= i < keys.len() ==> (#[trigger] listing[i]) < keys.len(),
        forall|i: int, j: int|
            0 <= i < j < keys.len() ==> precedes(keys, #[trigger] listing[i], #[trigger] listing[j]),
        forall|p: usize| p < keys.len() ==> #[trigger] listing.contains(p),
    ensures
        listing == stable_positions(keys),
{
    lemma_stable_positions(keys);
    let sorted = stable_positions(keys);
    assert forall|i: int| 0 <= i < keys.len() implies listing[i] == sorted[i] by {
        lemma_same_prefix(keys, listing, sorted, i);
    }
    assert(listing =~= sorted);
}

proof fn lemma_same_prefix(keys: Seq<i128>, a: Seq<usize>, b: Seq<usize>, i: int)
    requires
        a.len() == keys.len(),
        b.len() == keys.len(),
        0 <= i < keys.len(),
        forall|i: int| 0 <= i < keys.len() ==> (#[trigger] a[i]) < keys.len(),
        forall|i: int| 0 <= i < keys.len() ==> (#[trigger] b[i]) < keys.len(),
        forall|i: int, j: int|
            0 <= i < j < keys.len() ==> precedes(keys, #[trigger] a[i], #[trigger] a[j]),
        forall|i: int, j: int|
            0 <= i < j < keys.len() ==> precedes(keys, #[trigger] b[i], #[trigger] b[j]),
        forall|p: usize| p < keys.len() ==> #[trigger] a.contains(p),
        forall|p: usize| p < keys.len() ==> #[trigger] b.contains(p),
    ensures
        a[i] == b[i],
    decreases i,
{
    assert forall|k: int| 0 <= k < i implies a[k] == b[k] by {
        lemma_same_prefix(keys, a, b, k);
    }
    assert(b.contains(a[i]) && a.contains(b[i]));
    let at_b = choose|k: int| 0 <= k < b.len() && b[k] == a[i];
    let at_a = choose|k: int| 0 <= k < a.len() && a[k] == b[i];
    if at_b < i {
        assert(a[at_b] == a[i]);
        assert(precedes(keys, a[at_b], a[i]));
    }
    if at_a < i {
        assert(b[at_a] == b[i]);
        assert(precedes(keys, b[at_a], b[i]));
    }
    if at_b > i && at_a > i {
        assert(precedes(keys, b[i], b[at_b]));
        assert(precedes(keys, a[i], a[at_a]));
    }
}

/// The positions of `keys` by ascending key; equal keys keep their order.
pub fn stable_order(keys: &Vec<i128>) -> (r: Vec<usize>)
    ensures
        r@ == stable_positions(keys@),
        r@.len() == keys@.len(),
        forall|i: int| 0 <= i < r@.len() ==> (#[trigger] r@[i]) < keys@.len(),
{
    let mut order: Vec<usize> = Vec::new();
    let mut next: usize = 0;
    let ghost all = keys@;
    while next < keys.len()
        invariant
            next <= keys@.len(),
            all == keys@,
            order@ == stable_positions(all.take(next as int)),
            order@.len() == next,
        decreases keys@.len() - next,
    {
        let ghost taken = all.take(next as int + 1);
        let key: i128 = keys[next];
        let mut at: usize = order.len();
        proof {
            assert(taken.drop_last() =~= all.take(next as int));
            lemma_stable_positions(all.take(next as int));
            assert(order@.take(order@.len() as int) =~= order@);
        }
        while at > 0 && keys[order[at - 1]] > key
            invariant
                at <= order@.len(),
                next < keys@.len(),
                all == keys@,
                taken == all.take(next as int + 1),
                order@.len() == next,
                order@ == stable_positions(all.take(next as int)),
                key == all[next as int],
                forall|i: int| 0 <= i < order@.len() ==> (#[trigger] order@[i]) < next,
                slot(order@, taken, key) == slot(order@.take(at as int), taken, key),
            decreases at,
        {
            proof {
                assert(order@.take(at as int).drop_last() =~= order@.take(at - 1));
                assert(order@.take(at as int).last() == order@[at - 1]);
                assert(taken[order@[at - 1] as int] == all[order@[at - 1] as int]);
            }
            at = at - 1;
        }
        proof {
            assert(order@ =~= stable_positions(taken.drop_last())) by {
                assert(taken.drop_last() =~= all.take(next as int));
            }
            if at > 0 {
                assert(order@.take(at as int).last() == order@[at - 1]);
                assert(taken[order@[at - 1] as int] == all[order@[at - 1] as int]);
            }
            assert(slot(order@, taken, key) == at);
            lemma_stable_positions(taken);
        }
        order.insert(at, next);
        next = next + 1;
    }
    proof {
        assert(all.take(all.len() as int) =~= all);
        lemma_stable_positions(all);
    }
    order
}

pub open spec fn widened(values: Seq<usize>) -> Seq<i128> {
    Seq::new(values.len(), |i: int| values[i] as i128)
}

/// The same values in ascending order.
pub open spec fn ascending(values: Seq<usize>) -> Seq<usize> {
    arranged(values, stable_positions(widened(values)))
}

/// The same values in ascending order.
pub fn sort_ascending(values: &Vec<usize>) -> (r: Vec<usize>)
    ensures
        r@ == ascending(values@),
        r@.len() == values@.len(),
{
    let mut keys: Vec<i128> = Vec::new();
    let mut idx: usize = 0;
    while idx < values.len()
        invariant
            idx <= values@.len(),
            keys@ =~= widened(values@.take(idx as int)),
        decreases values@.len() - idx,
    {
        keys.push(values[idx] as i128);
        idx = idx + 1;
    }
    assert(values@.take(values@.len() as int) =~= values@);
    let order = stable_order(&keys);
    let mut sorted: Vec<usize> = Vec::new();
    let mut at: usize = 0;
    while at < order.len()
        invariant
            at <= order@.len(),
            order@ == stable_positions(widened(values@)),
            order@.len() == values@.len(),
            forall|i: int| 0 <= i < order@.len() ==> (#[trigger] order@[i]) < values@.len(),
            sorted@ =~= ascending(values@).take(at as int),
        decreases order@.len() - at,
    {
        sorted.push(values[order[at]]);
        at = at + 1;
    }
    sorted
}

/// Sorting gives an ascending sequence of the same length whose entries are entries of the input.
pub proof fn lemma_ascending(values: Seq<usize>)
    requires
        values.len() <= usize::MAX,
    ensures
        ascending(values).len() == values.len(),
        forall|i: int, j: int|
            0 <= i <= j < values.len() ==> ascending(values)[i] <= ascending(values)[j],
        forall|i: int| 0 <= i < values.len() ==> values.contains(#[trigger] ascending(values)[i]),
        forall|v: usize| values.contains(v) ==> #[trigger] ascending(values).contains(v),
{
    let keys = widened(values);
    let positions = stable_positions(keys);
    lemma_stable_positions(keys);
    assert forall|i: int, j: int| 0 <= i <= j < values.len() implies ascending(values)[i]
        <= ascending(values)[j] by {
        if i < j {
            assert(precedes(keys, positions[i], positions[j]));
        }
    }
    assert forall|i: int| 0 <= i < values.len() implies values.contains(
        #[trigger] ascending(values)[i],
    ) by {
        assert(values[positions[i] as int] == ascending(values)[i]);
    }
    assert forall|v: usize| values.contains(v) implies #[trigger] ascending(values).contains(v) by {
        let at = choose|at: int| 0 <= at < values.len() && values[at] == v;
        assert(positions.contains(at as usize));
        let i = choose|i: int| 0 <= i < positions.len() && positions[i] == at as usize;
        assert(ascending(values)[i] == v);
    }
}

} // verus!

//! Selecting positions of a list and ordering them by a key.
use vstd::prelude::*;

verus! {

/// The positions below `n` that satisfy `keep`, in ascending order.
pub open spec fn select(n: nat, keep: spec_fn(int) -> bool) -> Seq<int>
    decreases n,
{
    if n == 0 {
        Seq::empty()
    } else {
        let before = select((n - 1) as nat, keep);
        if keep(n - 1) {
            before.push(n - 1)
        } else {
            before
        }
    }
}

/// Where a position with the key `key` goes into `order`: behind the last one whose key
/// is not smaller.
pub open spec fn slot(order: Seq<int>, keys: Seq<u64>, key: u64) -> int
    decreases order.len(),
{
    if order.len() == 0 {
        0
    } else if keys[order.last()] >= key {
        order.len() as int
    } else {
        slot(order.drop_last(), keys, key)
    }
}

/// The positions ordered by descending key; those with equal keys keep their order.
pub open spec fn ranked(positions: Seq<int>, keys: Seq<u64>) -> Seq<int>
    decreases positions.len(),
{
    if positions.len() == 0 {
        Seq::empty()
    } else {
        let front = ranked(positions.drop_last(), keys);
        let last = positions.last();
        front.insert(slot(front, keys, keys[last]), last)
    }
}

/// The positions held by a vector.
pub open spec fn positions_of(list: Seq<usize>) -> Seq<int> {
    list.map_values(|position: usize| position as int)
}

/// Whether every position lies below `n`.
pub open spec fn below(positions: Seq<int>, n: int) -> bool {
    forall|i: int| 0 <= i < positions.len() ==> 0 <= #[trigger] positions[i] < n
}

/// Whether the keys descend along the order.
pub open spec fn descending(order: Seq<int>, keys: Seq<u64>) -> bool {
    forall|i: int, j: int|
        0 <= i < j < order.len() ==> keys[#[trigger] order[i]] >= keys[#[trigger] order[j]]
}

/// The selected positions are those below `n` that satisfy `keep`, in ascending order.
pub proof fn lemma_select(n: nat, keep: spec_fn(int) -> bool)
    ensures
        forall|i: int|
            0 <= i < select(n, keep).len() ==> 0 <= #[trigger] select(n, keep)[i] < n && keep(
                select(n, keep)[i],
            ),
        forall|p: int| 0 <= p < n && keep(p) ==> #[trigger] select(n, keep).contains(p),
        forall|i: int, j: int|
            0 <= i < j < select(n, keep).len() ==> (#[trigger] select(n, keep)[i])
                < #[trigger] select(n, keep)[j],
    decreases n,
{
    if n > 0 {
        let m = (n - 1) as nat;
        lemma_select(m, keep);
        let before = select(m, keep);
        let all = select(n, keep);
        assert forall|p: int| 0 <= p < n && keep(p) implies #[trigger] all.contains(p) by {
            if p < m {
                assert(before.contains(p));
                let i = choose|i: int| 0 <= i < before.len() && before[i] == p;
                assert(all[i] == p);
            } else {
                assert(all[all.len() - 1] == p);
            }
        }
    }
}

/// Selecting by two conditions that agree below `n` gives the same positions.
pub proof fn lemma_select_agrees(n: nat, a: spec_fn(int) -> bool, b: spec_fn(int) -> bool)
    requires
        forall|i: int| 0 <= i < n ==> #[trigger] a(i) == b(i),
    ensures
        select(n, a) == select(n, b),
    decreases n,
{
    if n > 0 {
        lemma_select_agrees((n - 1) as nat, a, b);
        assert(a(n - 1) == b(n - 1));
    }
}

proof fn lemma_slot(order: Seq<int>, keys: Seq<u64>, key: u64)
    ensures
        0 <= slot(order, keys, key) <= order.len(),
        forall|i: int|
            slot(order, keys, key) <= i < order.len() ==> keys[#[trigger] order[i]] < key,
        slot(order, keys, key) > 0 ==> keys[order[slot(order, keys, key) - 1]] >= key,
    decreases order.len(),
{
    if order.len() > 0 && keys[order.last()] < key {
        lemma_slot(order.drop_last(), keys, key);
        assert forall|i: int| slot(order, keys, key) <= i < order.len() implies keys[
            #[trigger] order[i]] < key by {
            if i < order.len() - 1 {
                assert(order.drop_last()[i] == order[i]);
            }
        }
    }
}

/// Ranking keeps exactly the given positions, and the keys descend along the result.
pub proof fn ranking_descends(positions: Seq<int>, keys: Seq<u64>)
    ensures
        ranked(positions, keys).len() == positions.len(),
        ranked(positions, keys).to_multiset() == positions.to_multiset(),
        descending(ranked(positions, keys), keys),
    decreases positions.len(),
{
    if positions.len() > 0 {
        let rest = positions.drop_last();
        let last = positions.last();
        ranking_descends(rest, keys);
        let front = ranked(rest, keys);
        let at = slot(front, keys, keys[last]);
        lemma_slot(front, keys, keys[last]);
        let all = front.insert(at, last);
        front.insert_ensures(at, last);
        vstd::seq_lib::to_multiset_insert(front, at, last);
        assert(positions =~= rest.push(last));
        rest.to_multiset_ensures();
        assert(positions.to_multiset() =~= rest.to_multiset().insert(last));
        assert forall|i: int, j: int| 0 <= i < j < all.len() implies keys[#[trigger] all[i]]
            >= keys[#[trigger] all[j]] by {
            let fi = if i < at { i } else { i - 1 };
            let fj = if j < at { j } else { j - 1 };
            if i != at && j != at {
                assert(all[i] == front[fi] && all[j] == front[fj]);
            } else if i == at {
                assert(all[j] == front[j - 1]);
            } else {
                assert(all[i] == front[i]);
                assert(keys[front[at - 1]] >= keys[last]);
                if i < at - 1 {
                    assert(keys[front[i]] >= keys[front[at - 1]]);
                }
            }
        }
    } else {
        assert(positions =~= Seq::empty());
    }
}

/// Ranking is stable: of two positions with equal keys, the smaller one comes first,
/// where the positions were given in ascending order.
pub proof fn ranking_is_stable(positions: Seq<int>, keys: Seq<u64>)
    requires
        forall|i: int, j: int|
            0 <= i < j < positions.len() ==> (#[trigger] positions[i]) < #[trigger] positions[j],
    ensures
        forall|i: int, j: int|
            0 <= i < j < positions.len() && keys[#[trigger] ranked(positions, keys)[i]]
                == keys[#[trigger] ranked(positions, keys)[j]] ==> ranked(positions, keys)[i]
                < ranked(positions, keys)[j],
    decreases positions.len(),
{
    if positions.len() > 0 {
        let rest = positions.drop_last();
        let last = positions.last();
        assert(forall|i: int| 0 <= i < rest.len() ==> rest[i] == positions[i]);
        ranking_is_stable(rest, keys);
        ranking_descends(rest, keys);
        lemma_ranked_members(rest, keys);
        let front = ranked(rest, keys);
        let at = slot(front, keys, keys[last]);
        lemma_slot(front, keys, keys[last]);
        let all = front.insert(at, last);
        front.insert_ensures(at, last);
        assert forall|i: int, j: int|
            0 <= i < j < all.len() && keys[#[trigger] all[i]] == keys[#[trigger] all[j]] implies all[i]
            < all[j] by {
            let fi = if i < at { i } else { i - 1 };
            let fj = if j < at { j } else { j - 1 };
            if i != at && j != at {
                assert(all[i] == front[fi] && all[j] == front[fj]);
            } else if i == at {
                assert(all[j] == front[j - 1]);
            } else {
                assert(all[i] == front[i]);
                assert(front.contains(front[i]));
                assert(rest.contains(front[i]));
            }
        }
    }
}

/// Ranking keeps membership.
pub proof fn lemma_ranked_members(positions: Seq<int>, keys: Seq<u64>)
    ensures
        forall|p: int|
            #![trigger ranked(positions, keys).contains(p)]
            #![trigger positions.contains(p)]
            ranked(positions, keys).contains(p) == positions.contains(p),
{
    ranking_descends(positions, keys);
    let order = ranked(positions, keys);
    order.to_multiset_ensures();
    positions.to_multiset_ensures();
    assert forall|p: int|
        #![trigger ranked(positions, keys).contains(p)]
        #![trigger positions.contains(p)]
        ranked(positions, keys).contains(p) == positions.contains(p) by {
        assert(order.contains(p) <==> order.to_multiset().count(p) > 0);
        assert(positions.contains(p) <==> positions.to_multiset().count(p) > 0);
    }
}

/// Only the keys of the ranked positions matter.
pub proof fn lemma_ranked_agrees(positions: Seq<int>, a: Seq<u64>, b: Seq<u64>)
    requires
        forall|i: int| 0 <= i < positions.len() ==> a[#[trigger] positions[i]] == b[positions[i]],
    ensures
        ranked(positions, a) == ranked(positions, b),
    decreases positions.len(),
{
    if positions.len() > 0 {
        let rest = positions.drop_last();
        assert(forall|i: int| 0 <= i < rest.len() ==> rest[i] == positions[i]);
        lemma_ranked_agrees(rest, a, b);
        lemma_ranked_members(rest, a);
        let front = ranked(rest, a);
        assert forall|i: int| 0 <= i < front.len() implies a[#[trigger] front[i]]
            == b[front[i]] by {
            assert(front.contains(front[i]));
            let m = choose|m: int| 0 <= m < rest.len() && rest[m] == front[i];
            assert(a[rest[m]] == b[rest[m]]);
        }
        assert(a[positions[positions.len() - 1]] == b[positions[positions.len() - 1]]);
        lemma_slot_agrees(front, a, b, a[positions.last()]);
    }
}

proof fn lemma_slot_agrees(order: Seq<int>, a: Seq<u64>, b: Seq<u64>, key: u64)
    requires
        forall|i: int| 0 <= i < order.len() ==> a[#[trigger] order[i]] == b[order[i]],
    ensures
        slot(order, a, key) == slot(order, b, key),
    decreases order.len(),
{
    if order.len() > 0 {
        assert(a[order[order.len() - 1]] == b[order[order.len() - 1]]);
        assert(forall|i: int| 0 <= i < order.len() - 1 ==> order.drop_last()[i] == order[i]);
        lemma_slot_agrees(order.drop_last(), a, b, key);
    }
}

/// Orders the positions by descending key; those with equal keys keep their order.
pub fn rank(positions: &Vec<usize>, keys: &Vec<u64>) -> (order: Vec<usize>)
    requires
        below(positions_of(positions@), keys@.len() as int),
    ensures
        positions_of(order@) == ranked(positions_of(positions@), keys@),
{
    let mut order: Vec<usize> = Vec::new();
    let ghost all = positions_of(positions@);
    for i in 0..positions.len()
        invariant
            all == positions_of(positions@),
            below(all, keys@.len() as int),
            below(positions_of(order@), keys@.len() as int),
            positions_of(order@) == ranked(all.take(i as int), keys@),
    {
        let position = positions[i];
        assert(all[i as int] == position);
        let key = keys[position];
        let ghost front = positions_of(order@);
        let mut at = order.len();
        assert(front.take(at as int) =~= front);
        while at > 0 && keys[order[at - 1]] < key
            invariant
                at <= order.len(),
                front == positions_of(order@),
                below(front, keys@.len() as int),
                slot(front, keys@, key) == slot(front.take(at as int), keys@, key),
            decreases at,
        {
            assert(front.take(at as int).drop_last() =~= front.take(at - 1));
            assert(front.take(at as int).last() == order@[at - 1]);
            at -= 1;
        }
        proof {
            if at > 0 {
                assert(front.take(at as int).last() == order@[at - 1]);
            }
            assert(slot(front, keys@, key) == at);
        }
        order.insert(at, position);
        proof {
            assert(positions_of(order@) =~= front.insert(at as int, position as int));
            assert(all.take(i + 1).drop_last() =~= all.take(i as int));
            assert(all.take(i + 1).last() == position);
            assert forall|k: int| 0 <= k < positions_of(order@).len() implies 0
                <= #[trigger] positions_of(order@)[k] < keys@.len() by {
                if k < at {
                    assert(positions_of(order@)[k] == front[k]);
                } else if k > at {
                    assert(positions_of(order@)[k] == front[k - 1]);
                }
            }
        }
    }
    assert(all.take(positions@.len() as int) =~= all);
    order
}

} // verus!

//! Stable ranking of items by an integer key.
//!
//! Ranking orders item indices by key, ascending or descending, and keeps
//! items with equal keys in the order they came, as a stable sort by key
//! (or by the key reversed) does.
use vstd::prelude::*;

verus! {

/// The first item is recommended, the others are alternatives.
pub open spec fn rank_label(i: int) -> Seq<char> {
    if i == 0 {
        "RECOMMENDED"@
    } else {
        "ALTERNATIVE"@
    }
}

/// The label of the `i`-th item of a ranking.
pub fn rank_label_str(i: usize) -> (r: &'static str)
    ensures
        r@ == rank_label(i as int),
{
    if i == 0 {
        "RECOMMENDED"
    } else {
        "ALTERNATIVE"
    }
}

/// Key `a` strictly precedes key `b` in the ranking direction.
pub open spec fn precedes(a: nat, b: nat, desc: bool) -> bool {
    if desc {
        a > b
    } else {
        a < b
    }
}

/// Where an item with key `k` goes into `order`, a ranking of indices into
/// `keys`: before the first item it strictly precedes, after all others.
pub open spec fn place(order: Seq<nat>, keys: Seq<nat>, k: nat, desc: bool) -> int
    decreases order.len(),
{
    if order.len() == 0 {
        0
    } else if precedes(k, keys[order[0] as int], desc) {
        0
    } else {
        1 + place(order.drop_first(), keys, k, desc)
    }
}

/// The ranking of the first `n` indices of `keys`, each inserted in turn.
pub open spec fn rank_order(keys: Seq<nat>, n: nat, desc: bool) -> Seq<nat>
    decreases n,
{
    if n == 0 {
        seq![]
    } else {
        let prev = rank_order(keys, (n - 1) as nat, desc);
        prev.insert(place(prev, keys, keys[n - 1], desc), (n - 1) as nat)
    }
}

/// The stable ranking of all indices of `keys`.
pub open spec fn ranking(keys: Seq<nat>, desc: bool) -> Seq<nat> {
    rank_order(keys, keys.len(), desc)
}

/// The values of a sequence of machine integers.
pub open spec fn nats(v: Seq<u64>) -> Seq<nat> {
    v.map_values(|k: u64| k as nat)
}

/// The values of a sequence of indices.
pub open spec fn idx(v: Seq<usize>) -> Seq<nat> {
    v.map_values(|i: usize| i as nat)
}

/// `order` lists indices below `n`, each once.
pub open spec fn is_permutation(order: Seq<nat>, n: nat) -> bool {
    &&& order.len() == n
    &&& order.no_duplicates()
    &&& forall|j: int| 0 <= j < order.len() ==> #[trigger] order[j] < n
}

/// `order` is ordered by key in the ranking direction, equal keys by index.
pub open spec fn is_ranked(order: Seq<nat>, keys: Seq<nat>, desc: bool) -> bool {
    forall|a: int, b: int|
        #![trigger order[a], order[b]]
        0 <= a < b < order.len() ==> in_rank_order(order[a], order[b], keys, desc)
}

/// Index `x` may come before index `y`: its key does not come after, and on
/// equal keys its index is smaller.
pub open spec fn in_rank_order(x: nat, y: nat, keys: Seq<nat>, desc: bool) -> bool {
    &&& !precedes(keys[y as int], keys[x as int], desc)
    &&& (keys[x as int] == keys[y as int] ==> x < y)
}

/// The place is within `order`; items before it are not preceded by `k`, and
/// the item at it is.
pub proof fn lemma_place(order: Seq<nat>, keys: Seq<nat>, k: nat, desc: bool)
    ensures
        0 <= place(order, keys, k, desc) <= order.len(),
        forall|j: int|
            0 <= j < place(order, keys, k, desc) ==> !precedes(k, #[trigger] keys[order[j] as int], desc),
        place(order, keys, k, desc) < order.len() ==> precedes(
            k,
            keys[order[place(order, keys, k, desc)] as int],
            desc,
        ),
    decreases order.len(),
{
    if order.len() > 0 && !precedes(k, keys[order[0] as int], desc) {
        let rest = order.drop_first();
        lemma_place(rest, keys, k, desc);
        assert forall|j: int|
            0 <= j < place(order, keys, k, desc) implies !precedes(k, #[trigger] keys[order[j] as int], desc) by {
            if j > 0 {
                assert(order[j] == rest[j - 1]);
            }
        }
    }
}

/// Law: the ranking of the first `n` indices lists each of them once.
pub proof fn lemma_rank_order_permutation(keys: Seq<nat>, n: nat, desc: bool)
    requires
        n <= keys.len(),
    ensures
        is_permutation(rank_order(keys, n, desc), n),
    decreases n,
{
    if n > 0 {
        let prev = rank_order(keys, (n - 1) as nat, desc);
        lemma_rank_order_permutation(keys, (n - 1) as nat, desc);
        let p = place(prev, keys, keys[n - 1], desc);
        lemma_place(prev, keys, keys[n - 1], desc);
        let r = prev.insert(p, (n - 1) as nat);
        prev.insert_ensures(p, (n - 1) as nat);
        assert(r == rank_order(keys, n, desc));
        assert forall|j: int| 0 <= j < r.len() implies #[trigger] r[j] < n by {
            if j < p {
                assert(r[j] == prev[j]);
            } else if j > p {
                assert(r[j] == prev[j - 1]);
            }
        }
        assert forall|a: int, b: int| 0 <= a < r.len() && 0 <= b < r.len() && a != b implies r[a]
            != r[b] by {
            if a != p && b != p {
                let pa = if a < p {
                    a
                } else {
                    a - 1
                };
                let pb = if b < p {
                    b
                } else {
                    b - 1
                };
                assert(r[a] == prev[pa]);
                assert(r[b] == prev[pb]);
            } else if a == p {
                let pb = if b < p {
                    b
                } else {
                    b - 1
                };
                assert(r[b] == prev[pb]);
            } else {
                let pa = if a < p {
                    a
                } else {
                    a - 1
                };
                assert(r[a] == prev[pa]);
            }
        }
    }
}

/// Law: the ranking of the first `n` indices lists every one of them.
pub proof fn lemma_rank_order_covers(keys: Seq<nat>, n: nat, desc: bool, j: nat)
    requires
        n <= keys.len(),
        j < n,
    ensures
        rank_order(keys, n, desc).contains(j),
    decreases n,
{
    let prev = rank_order(keys, (n - 1) as nat, desc);
    lemma_rank_order_permutation(keys, (n - 1) as nat, desc);
    let p = place(prev, keys, keys[n - 1], desc);
    lemma_place(prev, keys, keys[n - 1], desc);
    let r = prev.insert(p, (n - 1) as nat);
    prev.insert_ensures(p, (n - 1) as nat);
    assert(r == rank_order(keys, n, desc));
    if j == n - 1 {
        assert(r[p] == j);
    } else {
        lemma_rank_order_covers(keys, (n - 1) as nat, desc, j);
        let k = choose|k: int| 0 <= k < prev.len() && prev[k] == j;
        if k < p {
            assert(r[k] == j);
        } else {
            assert(r[k + 1] == j);
        }
    }
}

/// Law: the ranking is ordered by key in the ranking direction, and items
/// with equal keys keep their index order.
pub proof fn lemma_rank_order_ranked(keys: Seq<nat>, n: nat, desc: bool)
    requires
        n <= keys.len(),
    ensures
        is_ranked(rank_order(keys, n, desc), keys, desc),
    decreases n,
{
    if n > 0 {
        let prev = rank_order(keys, (n - 1) as nat, desc);
        lemma_rank_order_ranked(keys, (n - 1) as nat, desc);
        lemma_rank_order_permutation(keys, (n - 1) as nat, desc);
        let k = keys[n - 1];
        let p = place(prev, keys, k, desc);
        lemma_place(prev, keys, k, desc);
        let r = prev.insert(p, (n - 1) as nat);
        prev.insert_ensures(p, (n - 1) as nat);
        assert(r == rank_order(keys, n, desc));
        assert forall|a: int, b: int| 0 <= a < b < r.len() implies in_rank_order(
            #[trigger] r[a],
            #[trigger] r[b],
            keys,
            desc,
        ) by {
            if a != p && b != p {
                let pa = if a < p {
                    a
                } else {
                    a - 1
                };
                let pb = if b < p {
                    b
                } else {
                    b - 1
                };
                assert(r[a] == prev[pa]);
                assert(r[b] == prev[pb]);
                assert(pa < pb);
            } else if b == p {
                assert(r[a] == prev[a]);
                assert(!precedes(k, keys[prev[a] as int], desc));
                assert(prev[a] < n - 1);
            } else {
                assert(r[b] == prev[b - 1]);
                assert(precedes(k, keys[prev[p] as int], desc));
                if b - 1 > p {
                    assert(!precedes(keys[prev[b - 1] as int], keys[prev[p] as int], desc));
                }
            }
        }
    }
}

/// Whether key `a` strictly precedes key `b` in the ranking direction.
fn precedes_exec(a: u64, b: u64, desc: bool) -> (r: bool)
    ensures
        r == precedes(a as nat, b as nat, desc),
{
    if desc {
        a > b
    } else {
        a < b
    }
}

/// The indices of `keys` in stable ranked order.
pub fn rank_indices(keys: &Vec<u64>, desc: bool) -> (r: Vec<usize>)
    ensures
        idx(r@) == ranking(nats(keys@), desc),
{
    let ghost ks = nats(keys@);
    let n = keys.len();
    let mut order: Vec<usize> = Vec::new();
    let mut i: usize = 0;
    assert(idx(order@) =~= rank_order(ks, 0, desc));
    while i < n
        invariant
            n == keys.len(),
            ks == nats(keys@),
            i <= n,
            idx(order@) == rank_order(ks, i as nat, desc),
            order.len() == i,
            forall|j: int| 0 <= j < i ==> #[trigger] order@[j] < i,
        decreases n - i,
    {
        let k = keys[i];
        let ghost prev = idx(order@);
        let mut p: usize = 0;
        assert(prev.skip(0) =~= prev);
        while p < order.len() && !precedes_exec(k, keys[order[p]], desc)
            invariant
                n == keys.len(),
                ks == nats(keys@),
                i < n,
                order.len() == i,
                prev == idx(order@),
                forall|j: int| 0 <= j < i ==> #[trigger] order@[j] < i,
                p <= order.len(),
                place(prev, ks, k as nat, desc) == p + place(prev.skip(p as int), ks, k as nat, desc),
            decreases order.len() - p,
        {
            proof {
                assert(prev.skip(p as int)[0] == order@[p as int] as nat);
                assert(prev.skip(p as int).drop_first() =~= prev.skip(p + 1));
            }
            p = p + 1;
        }
        proof {
            if p < order.len() {
                assert(prev.skip(p as int)[0] == order@[p as int] as nat);
            } else {
                assert(prev.skip(p as int).len() == 0);
            }
            assert(place(prev, ks, k as nat, desc) == p);
        }
        let ghost before = order@;
        order.insert(p, i);
        proof {
            assert(idx(order@) =~= prev.insert(p as int, i as nat));
            assert(ks[i as int] == k as nat);
            assert forall|j: int| 0 <= j < i + 1 implies #[trigger] order@[j] < i + 1 by {
                if j < p {
                    assert(order@[j] == before[j]);
                } else if j > p {
                    assert(order@[j] == before[j - 1]);
                }
            }
        }
        i = i + 1;
    }
    order
}

} // verus!

//! Ordering items by keys, best first.

use vstd::prelude::*;

verus! {

/// A key: items are ordered by its first part, and by its second where the first
/// is the same. Larger comes first.
pub type Key = (i128, i128);

/// Whether one key comes before another.
pub open spec fn before(a: Key, b: Key) -> bool {
    a.0 > b.0 || (a.0 == b.0 && a.1 > b.1)
}

/// Whether `order` lists the positions that have a key, best first.
pub open spec fn lists_best_first(keys: Seq<Option<Key>>, order: Seq<usize>) -> bool {
    &&& forall|i: int|
        0 <= i < order.len() ==> (#[trigger] order[i]) < keys.len() && keys[order[i] as int] is Some
    &&& forall|i: int, j: int|
        0 <= i < j < order.len() ==> before(
            keys[(#[trigger] order[i]) as int]->0,
            keys[(#[trigger] order[j]) as int]->0,
        )
    &&& forall|p: usize|
        p < keys.len() && (#[trigger] keys[p as int]) is Some ==> order.contains(p)
}

/// Whether no two positions have the same key.
pub open spec fn keys_differ(keys: Seq<Option<Key>>) -> bool {
    forall|i: int, j: int|
        0 <= i < j < keys.len() && (#[trigger] keys[i]) is Some && (#[trigger] keys[j]) is Some
            ==> keys[i]->0 != keys[j]->0
}

/// How many positions have a key.
pub open spec fn keyed(keys: Seq<Option<Key>>) -> nat
    decreases keys.len(),
{
    if keys.len() == 0 {
        0
    } else if keys.last() is Some {
        keyed(keys.drop_last()) + 1
    } else {
        keyed(keys.drop_last())
    }
}

fn is_before(a: Key, b: Key) -> (r: bool)
    ensures
        r == before(a, b),
{
    a.0 > b.0 || (a.0 == b.0 && a.1 > b.1)
}

fn key_at(keys: &Vec<Option<Key>>, i: usize) -> (r: Key)
    requires
        i < keys@.len(),
        keys@[i as int] is Some,
    ensures
        r == keys@[i as int]->0,
{
    match keys[i] {
        Some(k) => k,
        None => (0, 0),
    }
}

/// Lists the positions that have a key, best first.
pub fn best_first(keys: &Vec<Option<Key>>) -> (order: Vec<usize>)
    requires
        keys_differ(keys@),
    ensures
        lists_best_first(keys@, order@),
        order@.len() == keyed(keys@),
{
    let mut order: Vec<usize> = Vec::new();
    let mut p: usize = 0;
    assert(keys@.take(0) =~= Seq::<Option<Key>>::empty());
    while p < keys.len()
        invariant
            p <= keys@.len(),
            keys_differ(keys@),
            lists_best_first(keys@.take(p as int), order@),
            order@.len() == keyed(keys@.take(p as int)),
        decreases keys@.len() - p,
    {
        let ghost shorter = keys@.take(p as int);
        let ghost longer = keys@.take(p + 1);
        assert(longer =~= shorter.push(keys@[p as int]));
        assert(longer.drop_last() =~= shorter);
        if let Some(k) = keys[p] {
            let mut at: usize = 0;
            while at < order.len() && is_before(key_at(keys, order[at]), k)
                invariant
                    at <= order@.len(),
                    p < keys@.len(),
                    shorter == keys@.take(p as int),
                    lists_best_first(shorter, order@),
                    forall|i: int|
                        0 <= i < order@.len() ==> (#[trigger] order@[i]) < p
                            && keys@[order@[i] as int] is Some,
                    forall|i: int|
                        0 <= i < at ==> before(keys@[(#[trigger] order@[i]) as int]->0, k),
                decreases order@.len() - at,
            {
                at += 1;
            }
            let ghost old_order = order@;
            proof {
                assert forall|i: int| at <= i < old_order.len() implies before(
                    k,
                    keys@[(#[trigger] old_order[i]) as int]->0,
                ) by {
                    let q = old_order[i] as int;
                    assert(keys@[q] is Some && keys@[p as int] is Some);
                    assert(keys@[q]->0 != k);
                    assert(shorter[q] == keys@[q]);
                    if i > at {
                        let a = old_order[at as int] as int;
                        assert(shorter[a] == keys@[a]);
                        assert(keys@[a]->0 != k);
                        assert(before(shorter[a]->0, shorter[q]->0));
                    }
                }
            }
            order.insert(at, p);
            proof {
                lemma_inserted(keys@, p, old_order, at as int);
                assert(order@ =~= old_order.insert(at as int, p));
            }
        } else {
            assert(lists_best_first(longer, order@)) by {
                assert forall|q: usize| q < longer.len() && (#[trigger] longer[q as int]) is Some implies order@.contains(
                    q,
                ) by {
                    assert(q < p);
                    assert(shorter[q as int] is Some);
                }
                assert forall|i: int, j: int| 0 <= i < j < order@.len() implies before(
                    longer[(#[trigger] order@[i]) as int]->0,
                    longer[(#[trigger] order@[j]) as int]->0,
                ) by {
                    assert(longer[order@[i] as int] == shorter[order@[i] as int]);
                    assert(longer[order@[j] as int] == shorter[order@[j] as int]);
                }
            }
        }
        p += 1;
    }
    assert(keys@.take(p as int) =~= keys@);
    order
}

proof fn lemma_inserted(keys: Seq<Option<Key>>, p: usize, order: Seq<usize>, at: int)
    requires
        p < keys.len(),
        keys[p as int] is Some,
        0 <= at <= order.len(),
        lists_best_first(keys.take(p as int), order),
        forall|i: int|
            0 <= i < at ==> before(keys[(#[trigger] order[i]) as int]->0, keys[p as int]->0),
        forall|i: int|
            at <= i < order.len() ==> before(keys[p as int]->0, keys[(#[trigger] order[i]) as int]->0),
    ensures
        lists_best_first(keys.take(p + 1), order.insert(at, p)),
{
    let shorter = keys.take(p as int);
    let longer = keys.take(p + 1);
    let now = order.insert(at, p);
    assert forall|i: int| 0 <= i < now.len() implies (#[trigger] now[i]) < longer.len()
        && longer[now[i] as int] is Some by {
        if i < at {
            assert(now[i] == order[i]);
            assert(shorter[order[i] as int] is Some);
        } else if i > at {
            assert(now[i] == order[i - 1]);
            assert(shorter[order[i - 1] as int] is Some);
        }
    }
    assert forall|i: int, j: int| 0 <= i < j < now.len() implies before(
        longer[(#[trigger] now[i]) as int]->0,
        longer[(#[trigger] now[j]) as int]->0,
    ) by {
        let a = if i < at {
            i
        } else {
            i - 1
        };
        let b = if j < at {
            j
        } else {
            j - 1
        };
        if i != at {
            assert(now[i] == order[a]);
            assert(shorter[order[a] as int] == longer[now[i] as int]);
        }
        if j != at {
            assert(now[j] == order[b]);
            assert(shorter[order[b] as int] == longer[now[j] as int]);
        }
        if i != at && j != at {
            assert(before(shorter[order[a] as int]->0, shorter[order[b] as int]->0));
        }
    }
    assert forall|q: usize| q < longer.len() && (#[trigger] longer[q as int]) is Some implies now.contains(
        q,
    ) by {
        if q == p {
            assert(now[at] == p);
        } else {
            assert(shorter[q as int] is Some);
            let i = choose|i: int| 0 <= i < order.len() && order[i] == q;
            if i < at {
                assert(now[i] == q);
            } else {
                assert(now[i + 1] == q);
            }
        }
    }
}

/// Whether one position comes before another: its key is larger, or the same
/// further to the front.
pub open spec fn ahead(keys: Seq<i64>, p: usize, q: usize) -> bool {
    keys[p as int] > keys[q as int] || (keys[p as int] == keys[q as int] && p < q)
}

/// Whether `order` lists the best positions, best first and at most so many.
pub open spec fn lists_top(keys: Seq<i64>, top_k: usize, order: Seq<usize>) -> bool {
    &&& order.len() == if top_k <= keys.len() {
        top_k as nat
    } else {
        keys.len()
    }
    &&& forall|i: int| 0 <= i < order.len() ==> (#[trigger] order[i]) < keys.len()
    &&& forall|i: int, j: int|
        0 <= i < j < order.len() ==> ahead(keys, #[trigger] order[i], #[trigger] order[j])
    &&& forall|p: usize, i: int|
        p < keys.len() && 0 <= i < order.len() && !order.contains(p) ==> #[trigger] ahead(
            keys,
            order[i],
            p,
        )
}

/// Lists the best positions, best first and at most so many.
pub fn top(keys: &Vec<i64>, top_k: usize) -> (r: Vec<usize>)
    ensures
        lists_top(keys@, top_k, r@),
{
    let n: usize = keys.len();
    let mut wide: Vec<Option<Key>> = Vec::new();
    let mut i: usize = 0;
    while i < n
        invariant
            i <= n == keys@.len(),
            wide@.len() == i,
            keyed(wide@) == i,
            forall|j: int| 0 <= j < i ==> (#[trigger] wide@[j]) == Some(
                (keys@[j] as i128, (-j) as i128),
            ),
        decreases n - i,
    {
        let ghost before = wide@;
        wide.push(Some((keys[i] as i128, -(i as i128))));
        assert(wide@.drop_last() =~= before);
        i += 1;
    }
    assert(keys_differ(wide@));
    let mut order = best_first(&wide);
    let ghost full = order@;
    proof {
        assert forall|a: int, b: int| 0 <= a < b < full.len() implies ahead(
            keys@,
            #[trigger] full[a],
            #[trigger] full[b],
        ) by {
            assert(wide@[full[a] as int] is Some && wide@[full[b] as int] is Some);
            assert(before(wide@[full[a] as int]->0, wide@[full[b] as int]->0));
        }
    }
    if top_k < order.len() {
        order.truncate(top_k);
    }
    proof {
        assert forall|p: usize, i: int|
            p < keys@.len() && 0 <= i < order@.len() && !order@.contains(p) implies #[trigger] ahead(
            keys@,
            order@[i],
            p,
        ) by {
            assert(wide@[p as int] is Some);
            let q = choose|q: int| 0 <= q < full.len() && full[q] == p;
            if q < order@.len() {
                assert(order@[q] == p);
            }
            assert(ahead(keys@, full[i], full[q]));
        }
    }
    order
}

/// There is one list of the best positions.
pub proof fn top_is_determined(keys: Seq<i64>, top_k: usize, a: Seq<usize>, b: Seq<usize>)
    requires
        lists_top(keys, top_k, a),
        lists_top(keys, top_k, b),
    ensures
        a == b,
{
    assert forall|i: int| 0 <= i < a.len() implies a[i] == b[i] by {
        lemma_same_at(keys, top_k, a, b, i);
    }
    assert(a =~= b);
}

proof fn lemma_same_at(keys: Seq<i64>, top_k: usize, a: Seq<usize>, b: Seq<usize>, i: int)
    requires
        lists_top(keys, top_k, a),
        lists_top(keys, top_k, b),
        0 <= i < a.len(),
    ensures
        a[i] == b[i],
    decreases i,
{
    assert forall|j: int| 0 <= j < i implies a[j] == b[j] by {
        lemma_same_at(keys, top_k, a, b, j);
    }
    if a[i] != b[i] {
        if ahead(keys, a[i], b[i]) {
            lemma_not_behind(keys, top_k, a, b, i);
        } else {
            assert(ahead(keys, b[i], a[i]));
            lemma_not_behind(keys, top_k, b, a, i);
        }
    }
}

proof fn lemma_not_behind(keys: Seq<i64>, top_k: usize, a: Seq<usize>, b: Seq<usize>, i: int)
    requires
        lists_top(keys, top_k, a),
        lists_top(keys, top_k, b),
        0 <= i < a.len(),
        forall|j: int| 0 <= j < i ==> #[trigger] a[j] == b[j],
    ensures
        !ahead(keys, a[i], b[i]),
{
    if b.contains(a[i]) {
        let q = choose|q: int| 0 <= q < b.len() && b[q] == a[i];
        if q < i {
            assert(a[q] == b[q]);
            assert(ahead(keys, a[q], a[i]));
        } else if q > i {
            assert(ahead(keys, b[i], b[q]));
        }
    } else {
        assert(ahead(keys, b[i], a[i]));
    }
}

/// Of what is to be ranked, as many are listed as asked for, or all. None that is
/// listed is listed behind a worse one or is worse than one that is not, and of equals
/// those that come first go first.
pub proof fn the_best_come_first(keys: Seq<i64>, top_k: usize, order: Seq<usize>)
    requires
        lists_top(keys, top_k, order),
        keys.len() <= usize::MAX,
    ensures
        order.len() == vstd::math::min(top_k as int, keys.len() as int),
        forall|i: int, j: int|
            0 <= i < j < order.len() ==> {
                &&& keys[#[trigger] order[i] as int] >= keys[#[trigger] order[j] as int]
                &&& keys[order[i] as int] == keys[order[j] as int] ==> order[i] < order[j]
            },
        forall|i: int, p: usize|
            0 <= i < order.len() && p < keys.len() && !order.contains(p)
                ==> keys[#[trigger] order[i] as int] >= #[trigger] keys[p as int],
{
    assert forall|i: int, p: usize|
        0 <= i < order.len() && p < keys.len() && !order.contains(p) implies keys[
        #[trigger] order[i] as int] >= #[trigger] keys[p as int] by {
        assert(ahead(keys, order[i], p));
    }
}

} // verus!

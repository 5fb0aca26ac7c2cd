//! Scheduling by dependency levels.

use crate::error::{DaimonError, ErrorView, Result};
use crate::text::owned;
use vstd::prelude::*;

verus! {

/// Whether an edge leads from one place of a path to the next.
pub open spec fn joins<T>(edges: Seq<(T, T)>, path: Seq<T>, i: int) -> bool {
    edges.contains((path[i], path[i + 1]))
}

/// Whether each two neighbours of a path are joined by an edge.
pub open spec fn is_walk<T>(edges: Seq<(T, T)>, path: Seq<T>) -> bool {
    forall|i: int| 0 <= i < path.len() - 1 ==> #[trigger] joins(edges, path, i)
}

/// Whether some walk along the edges comes back to where it began.
pub open spec fn cyclic<T>(edges: Seq<(T, T)>) -> bool {
    exists|path: Seq<T>| #[trigger]
        is_walk(edges, path) && path.len() >= 2 && path[0] == path[path.len() - 1]
}

/// Whether all edges join nodes below `n`.
pub open spec fn in_range(n: nat, edges: Seq<(usize, usize)>) -> bool {
    forall|e: int| 0 <= e < edges.len() ==> (#[trigger] edges[e]).0 < n && edges[e].1 < n
}

/// Whether `levels` holds every node once, at the level that `rank` gives it, with
/// no level empty, where every edge goes to a higher level and every node stands directly above
/// one that it depends on, or at the bottom.
pub open spec fn ranked(
    n: nat,
    edges: Seq<(usize, usize)>,
    levels: Seq<Seq<usize>>,
    rank: Seq<nat>,
) -> bool {
    &&& rank.len() == n
    &&& forall|k: int, i: int|
        0 <= k < levels.len() && 0 <= i < levels[k].len() ==> (#[trigger] levels[k][i]) < n
            && rank[levels[k][i] as int] == k
    &&& forall|v: usize|
        v < n ==> #[trigger] rank[v as int] < levels.len() && levels[rank[v as int] as int].contains(
            v,
        )
    &&& forall|k: int|
        0 <= k < levels.len() ==> (#[trigger] levels[k]).no_duplicates() && levels[k].len() > 0
    &&& forall|e: int|
        0 <= e < edges.len() ==> rank[(#[trigger] edges[e]).0 as int] < rank[edges[e].1 as int]
    &&& forall|v: int|
        0 <= v < n && #[trigger] rank[v] > 0 ==> exists|e: int|
            0 <= e < edges.len() && (#[trigger] edges[e]).1 == v && rank[edges[e].0 as int] + 1
                == rank[v]
}

/// Whether `levels` is a schedule of the nodes by their dependencies.
pub open spec fn schedules(
    n: nat,
    edges: Seq<(usize, usize)>,
    levels: Seq<Seq<usize>>,
) -> bool {
    exists|rank: Seq<nat>| ranked(n, edges, levels, rank)
}

/// The lists inside a list of lists.
pub open spec fn level_views(levels: Seq<Vec<usize>>) -> Seq<Seq<usize>> {
    levels.map_values(|l: Vec<usize>| l@)
}

spec fn ready(edges: Seq<(usize, usize)>, placed: Seq<bool>, v: int) -> bool {
    !placed[v] && forall|e: int|
        0 <= e < edges.len() && (#[trigger] edges[e]).1 == v ==> placed[edges[e].0 as int]
}

fn is_ready(edges: &Vec<(usize, usize)>, placed: &Vec<bool>, v: usize) -> (r: bool)
    requires
        in_range(placed@.len(), edges@),
        v < placed@.len(),
    ensures
        r == ready(edges@, placed@, v as int),
{
    if placed[v] {
        return false;
    }
    let mut e: usize = 0;
    while e < edges.len()
        invariant
            e <= edges@.len(),
            in_range(placed@.len(), edges@),
            forall|d: int|
                0 <= d < e && (#[trigger] edges@[d]).1 == v ==> placed@[edges@[d].0 as int],
        decreases edges@.len() - e,
    {
        if edges[e].1 == v && !placed[edges[e].0] {
            return false;
        }
        e += 1;
    }
    true
}

fn ready_nodes(edges: &Vec<(usize, usize)>, placed: &Vec<bool>) -> (r: Vec<usize>)
    requires
        in_range(placed@.len(), edges@),
    ensures
        forall|i: int| 0 <= i < r@.len() ==> (#[trigger] r@[i]) < placed@.len(),
        forall|v: usize|
            v < placed@.len() ==> (#[trigger] r@.contains(v) <==> ready(edges@, placed@, v as int)),
        r@.no_duplicates(),
{
    let mut r: Vec<usize> = Vec::new();
    let mut v: usize = 0;
    while v < placed.len()
        invariant
            v <= placed@.len(),
            in_range(placed@.len(), edges@),
            forall|i: int| 0 <= i < r@.len() ==> (#[trigger] r@[i]) < v,
            forall|u: usize|
                u < v ==> (#[trigger] r@.contains(u) <==> ready(edges@, placed@, u as int)),
            r@.no_duplicates(),
        decreases placed@.len() - v,
    {
        let ghost before = r@;
        if is_ready(edges, placed, v) {
            r.push(v);
            proof {
                assert forall|u: usize| u < v + 1 implies (#[trigger] r@.contains(u) <==> ready(
                    edges@,
                    placed@,
                    u as int,
                )) by {
                    if u < v {
                        if before.contains(u) {
                            let i = choose|i: int| 0 <= i < before.len() && before[i] == u;
                            assert(r@[i] == u);
                        }
                        if r@.contains(u) {
                            let i = choose|i: int| 0 <= i < r@.len() && r@[i] == u;
                            assert(before[i] == u);
                        }
                    } else {
                        assert(r@[before.len() as int] == u);
                    }
                }
            }
        } else {
            assert(!r@.contains(v));
        }
        v += 1;
    }
    r
}

// ---------------------------------------------------------------------
// Cycles
// ---------------------------------------------------------------------

/// Whether each of these nodes depends on another of them.
spec fn stuck(edges: Seq<(usize, usize)>, placed: Seq<bool>) -> bool {
    forall|v: int|
        0 <= v < placed.len() && !#[trigger] placed[v] ==> exists|e: int|
            0 <= e < edges.len() && (#[trigger] edges[e]).1 == v && !placed[edges[e].0 as int]
}

spec fn blocker(edges: Seq<(usize, usize)>, placed: Seq<bool>, v: usize) -> usize {
    let e = choose|e: int|
        0 <= e < edges.len() && (#[trigger] edges[e]).1 == v && !placed[edges[e].0 as int];
    edges[e].0
}

spec fn joins_back(edges: Seq<(usize, usize)>, path: Seq<usize>, i: int) -> bool {
    edges.contains((path[i + 1], path[i]))
}

spec fn back_path(edges: Seq<(usize, usize)>, placed: Seq<bool>, v: usize, len: nat) -> Seq<usize>
    decreases len,
{
    if len == 0 {
        Seq::empty()
    } else if len == 1 {
        seq![v]
    } else {
        let path = back_path(edges, placed, v, (len - 1) as nat);
        path.push(blocker(edges, placed, path.last()))
    }
}

proof fn lemma_back_path(edges: Seq<(usize, usize)>, placed: Seq<bool>, v: usize, len: nat)
    requires
        in_range(placed.len(), edges),
        stuck(edges, placed),
        v < placed.len(),
        !placed[v as int],
        len >= 1,
    ensures
        ({
            let path = back_path(edges, placed, v, len);
            &&& path.len() == len
            &&& forall|i: int|
                0 <= i < len ==> (#[trigger] path[i]) < placed.len() && !placed[path[i] as int]
            &&& forall|i: int| 0 <= i < len - 1 ==> #[trigger] joins_back(edges, path, i)
        }),
    decreases len,
{
    if len > 1 {
        lemma_back_path(edges, placed, v, (len - 1) as nat);
        let path = back_path(edges, placed, v, (len - 1) as nat);
        let last = path.last();
        assert(path[len - 2] == last);
        assert(!placed[last as int]);
        let e = choose|e: int|
            0 <= e < edges.len() && (#[trigger] edges[e]).1 == last && !placed[edges[e].0 as int];
        assert(edges.contains((edges[e].0, last)));
        let longer = back_path(edges, placed, v, len);
        assert forall|i: int| 0 <= i < len - 1 implies #[trigger] joins_back(edges, longer, i) by {
            if i < len - 2 {
                assert(joins_back(edges, path, i));
            }
        }
    }
}

proof fn lemma_repeats(s: Seq<usize>, n: nat)
    requires
        s.len() > n,
        forall|i: int| 0 <= i < s.len() ==> (#[trigger] s[i]) < n,
    ensures
        exists|i: int, j: int| 0 <= i < j < s.len() && #[trigger] s[i] == #[trigger] s[j],
{
    if s.no_duplicates() {
        let t = s.map_values(|x: usize| x as int);
        assert(t.no_duplicates()) by {
            assert forall|i: int, j: int| 0 <= i < t.len() && 0 <= j < t.len() && i != j implies t[i]
                != t[j] by {
                assert(s[i] != s[j]);
            }
        }
        t.unique_seq_to_set();
        let all = vstd::set_lib::set_int_range(0, n as int);
        vstd::set_lib::lemma_int_range(0, n as int);
        assert(t.to_set().subset_of(all)) by {
            assert forall|x: int| t.to_set().contains(x) implies all.contains(x) by {
                let i = choose|i: int| 0 <= i < t.len() && t[i] == x;
                assert(s[i] < n);
            }
        }
        vstd::set_lib::lemma_len_subset(t.to_set(), all);
        assert(false);
    }
}

proof fn lemma_stuck_is_cyclic(edges: Seq<(usize, usize)>, placed: Seq<bool>, v: usize)
    requires
        in_range(placed.len(), edges),
        stuck(edges, placed),
        v < placed.len(),
        !placed[v as int],
    ensures
        cyclic(edges),
{
    let len = placed.len() + 1;
    let path = back_path(edges, placed, v, len);
    lemma_back_path(edges, placed, v, len);
    lemma_repeats(path, placed.len());
    let (i, j) = choose|i: int, j: int|
        0 <= i < j < path.len() && #[trigger] path[i] == #[trigger] path[j];
    let cycle = Seq::new((j - i + 1) as nat, |k: int| path[j - k]);
    assert forall|k: int| 0 <= k < cycle.len() - 1 implies #[trigger] joins(edges, cycle, k) by {
        assert(joins_back(edges, path, j - k - 1));
        assert(cycle[k] == path[j - k]);
        assert(cycle[k + 1] == path[j - k - 1]);
    }
    assert(is_walk(edges, cycle));
}

proof fn lemma_rank_rises(
    n: nat,
    edges: Seq<(usize, usize)>,
    levels: Seq<Seq<usize>>,
    rank: Seq<nat>,
    path: Seq<usize>,
    k: int,
)
    requires
        in_range(n, edges),
        ranked(n, edges, levels, rank),
        is_walk(edges, path),
        1 <= k < path.len(),
    ensures
        path[0] < n,
        path[k] < n,
        rank[path[0] as int] < rank[path[k] as int],
    decreases k,
{
    assert(joins(edges, path, k - 1));
    let e = choose|e: int| 0 <= e < edges.len() && edges[e] == (path[k - 1], path[k]);
    assert(rank[edges[e].0 as int] < rank[edges[e].1 as int]);
    if k > 1 {
        lemma_rank_rises(n, edges, levels, rank, path, k - 1);
    }
}

/// What can be scheduled by levels has no cycle.
pub proof fn ranked_is_acyclic(
    n: nat,
    edges: Seq<(usize, usize)>,
    levels: Seq<Seq<usize>>,
    rank: Seq<nat>,
)
    requires
        in_range(n, edges),
        ranked(n, edges, levels, rank),
    ensures
        !cyclic(edges),
{
    if cyclic(edges) {
        let path = choose|path: Seq<usize>| #[trigger]
            is_walk(edges, path) && path.len() >= 2 && path[0] == path[path.len() - 1];
        lemma_rank_rises(n, edges, levels, rank, path, path.len() - 1);
    }
}

// ---------------------------------------------------------------------
// Levels
// ---------------------------------------------------------------------

spec fn partly_ranked(
    edges: Seq<(usize, usize)>,
    placed: Seq<bool>,
    levels: Seq<Seq<usize>>,
    rank: Seq<nat>,
) -> bool {
    &&& rank.len() == placed.len()
    &&& forall|k: int, i: int|
        0 <= k < levels.len() && 0 <= i < levels[k].len() ==> (#[trigger] levels[k][i])
            < placed.len() && placed[levels[k][i] as int] && rank[levels[k][i] as int] == k
    &&& forall|v: usize|
        v < placed.len() && #[trigger] placed[v as int] ==> rank[v as int] < levels.len()
            && levels[rank[v as int] as int].contains(v)
    &&& forall|k: int|
        0 <= k < levels.len() ==> (#[trigger] levels[k]).no_duplicates() && levels[k].len() > 0
    &&& forall|e: int|
        0 <= e < edges.len() && placed[(#[trigger] edges[e]).1 as int] ==> placed[edges[e].0 as int]
            && rank[edges[e].0 as int] < rank[edges[e].1 as int]
    &&& forall|v: int|
        0 <= v < placed.len() && #[trigger] placed[v] && rank[v] > 0 ==> exists|e: int|
            0 <= e < edges.len() && (#[trigger] edges[e]).1 == v && rank[edges[e].0 as int] + 1
                == rank[v]
    &&& forall|v: int|
        0 <= v < placed.len() && ready(edges, placed, v) && levels.len() > 0 ==> exists|e: int|
            0 <= e < edges.len() && (#[trigger] edges[e]).1 == v && rank[edges[e].0 as int] + 1
                == levels.len()
}

proof fn lemma_all_placed(
    edges: Seq<(usize, usize)>,
    placed: Seq<bool>,
    levels: Seq<Seq<usize>>,
    rank: Seq<nat>,
)
    requires
        in_range(placed.len(), edges),
        partly_ranked(edges, placed, levels, rank),
        forall|v: int| 0 <= v < placed.len() ==> placed[v],
    ensures
        ranked(placed.len(), edges, levels, rank),
{
    assert forall|v: usize| v < placed.len() implies #[trigger] rank[v as int] < levels.len()
        && levels[rank[v as int] as int].contains(v) by {
        assert(placed[v as int]);
    }
    assert forall|e: int| 0 <= e < edges.len() implies rank[(#[trigger] edges[e]).0 as int]
        < rank[edges[e].1 as int] by {
        assert(placed[edges[e].1 as int]);
    }
    assert forall|v: int| 0 <= v < placed.len() && #[trigger] rank[v] > 0 implies exists|e: int|
        0 <= e < edges.len() && (#[trigger] edges[e]).1 == v && rank[edges[e].0 as int] + 1
            == rank[v] by {
        assert(placed[v]);
    }
}

spec fn unplaced(placed: Seq<bool>) -> nat
    decreases placed.len(),
{
    if placed.len() == 0 {
        0
    } else {
        unplaced(placed.drop_last()) + if placed.last() {
            0nat
        } else {
            1nat
        }
    }
}

proof fn lemma_place(placed: Seq<bool>, v: int)
    requires
        0 <= v < placed.len(),
    ensures
        unplaced(placed.update(v, true)) <= unplaced(placed),
        !placed[v] ==> unplaced(placed.update(v, true)) < unplaced(placed),
    decreases placed.len(),
{
    let after = placed.update(v, true);
    if v < placed.len() - 1 {
        lemma_place(placed.drop_last(), v);
        assert(after.drop_last() =~= placed.drop_last().update(v, true));
    } else {
        assert(after.drop_last() =~= placed.drop_last());
    }
}

fn place_all(placed: &mut Vec<bool>, level: &Vec<usize>)
    requires
        forall|i: int| 0 <= i < level@.len() ==> (#[trigger] level@[i]) < old(placed)@.len(),
        level@.len() > 0,
        !old(placed)@[level@[0] as int],
    ensures
        final(placed)@.len() == old(placed)@.len(),
        forall|v: usize|
            v < final(placed)@.len() ==> #[trigger] final(placed)@[v as int] == (
            old(placed)@[v as int] || level@.contains(v)),
        unplaced(final(placed)@) < unplaced(old(placed)@),
{
    let mut i: usize = 0;
    let ghost start = placed@;
    while i < level.len()
        invariant
            i <= level@.len(),
            placed@.len() == start.len(),
            forall|j: int| 0 <= j < level@.len() ==> (#[trigger] level@[j]) < start.len(),
            level@.len() > 0,
            !start[level@[0] as int],
            forall|v: usize|
                v < placed@.len() ==> #[trigger] placed@[v as int] == (start[v as int]
                    || level@.take(i as int).contains(v)),
            i == 0 ==> placed@ == start,
            unplaced(placed@) <= unplaced(start),
            i > 0 ==> unplaced(placed@) < unplaced(start),
        decreases level@.len() - i,
    {
        let ghost before = placed@;
        proof {
            lemma_place(before, level@[i as int] as int);
        }
        placed.set(level[i], true);
        i += 1;
        proof {
            let now = level@.take(i as int);
            let was = level@.take(i - 1);
            assert(now =~= was.push(level@[i - 1]));
            assert forall|v: usize| v < placed@.len() implies #[trigger] placed@[v as int] == (
            start[v as int] || now.contains(v)) by {
                if was.contains(v) {
                    let j = choose|j: int| 0 <= j < was.len() && was[j] == v;
                    assert(now[j] == v);
                }
                if now.contains(v) {
                    let j = choose|j: int| 0 <= j < now.len() && now[j] == v;
                    if j < i - 1 {
                        assert(was[j] == v);
                    }
                }
                if v == level@[i - 1] {
                    assert(now[i - 1] == v);
                } else {
                    assert(placed@[v as int] == before[v as int]);
                }
            }
        }
    }
    assert(level@.take(i as int) =~= level@);
}

/// Groups nodes into levels such that each depends only on nodes of lower
/// levels. Nodes of one level do not depend on each other and may run at the
/// same time. Fails with `cycle_message` if the edges form a cycle.
#[verifier::rlimit(40)]
pub fn topological_levels(
    node_count: usize,
    edges: &Vec<(usize, usize)>,
    cycle_message: &str,
) -> (r: Result<Vec<Vec<usize>>>)
    requires
        in_range(node_count as nat, edges@),
    ensures
        match r {
            Ok(levels) => !cyclic(edges@) && schedules(
                node_count as nat,
                edges@,
                level_views(levels@),
            ),
            Err(e) => cyclic(edges@) && e@ == ErrorView::Orchestration(cycle_message@),
        },
{
    let mut placed: Vec<bool> = Vec::new();
    let mut i: usize = 0;
    while i < node_count
        invariant
            i <= node_count,
            placed@.len() == i,
            forall|v: int| 0 <= v < i ==> !placed@[v],
        decreases node_count - i,
    {
        placed.push(false);
        i += 1;
    }
    let mut levels: Vec<Vec<usize>> = Vec::new();
    let ghost mut rank: Seq<nat> = Seq::new(node_count as nat, |v: int| 0nat);
    assert(level_views(levels@) =~= Seq::<Seq<usize>>::empty());
    loop
        invariant
            placed@.len() == node_count,
            in_range(node_count as nat, edges@),
            partly_ranked(edges@, placed@, level_views(levels@), rank),
        decreases unplaced(placed@),
    {
        let level = ready_nodes(edges, &placed);
        let ghost views = level_views(levels@);
        if level.len() == 0 {
            let mut v: usize = 0;
            while v < node_count
                invariant
                    v <= node_count == placed@.len(),
                    in_range(node_count as nat, edges@),
                    level@.len() == 0,
                    forall|u: usize|
                        u < placed@.len() ==> (#[trigger] level@.contains(u) <==> ready(
                            edges@,
                            placed@,
                            u as int,
                        )),
                    forall|u: int| 0 <= u < v ==> placed@[u],
                decreases node_count - v,
            {
                if !placed[v] {
                    proof {
                        assert forall|w: int| 0 <= w < placed@.len() && !#[trigger] placed@[w] implies exists|
                            e: int,
                        |
                            0 <= e < edges@.len() && (#[trigger] edges@[e]).1 == w
                                && !placed@[edges@[e].0 as int] by {
                            assert(!level@.contains(w as usize));
                            assert(!ready(edges@, placed@, w));
                        }
                        lemma_stuck_is_cyclic(edges@, placed@, v);
                    }
                    return Err(DaimonError::Orchestration(owned(cycle_message)));
                }
                v += 1;
            }
            proof {
                lemma_all_placed(edges@, placed@, views, rank);
                ranked_is_acyclic(node_count as nat, edges@, views, rank);
            }
            return Ok(levels);
        }
        let ghost before = placed@;
        let ghost old_rank = rank;
        let ghost lv = level@;
        assert(level@.contains(level@[0]));
        place_all(&mut placed, &level);
        levels.push(level);
        proof {
            let k = views.len();
            let now = level_views(levels@);
            assert(now =~= views.push(lv));
            rank = Seq::new(
                node_count as nat,
                |v: int|
                    if before[v] {
                        old_rank[v]
                    } else {
                        k
                    },
            );
            lemma_level_added(edges@, before, placed@, views, lv, old_rank, rank);
        }
    }
}

#[verifier::rlimit(60)]
#[verifier::spinoff_prover]
proof fn lemma_level_added(
    edges: Seq<(usize, usize)>,
    before: Seq<bool>,
    after: Seq<bool>,
    levels: Seq<Seq<usize>>,
    level: Seq<usize>,
    rank: Seq<nat>,
    new_rank: Seq<nat>,
)
    requires
        before.len() <= usize::MAX,
        in_range(before.len(), edges),
        partly_ranked(edges, before, levels, rank),
        after.len() == before.len(),
        forall|i: int| 0 <= i < level.len() ==> (#[trigger] level[i]) < before.len(),
        forall|v: usize|
            v < before.len() ==> (#[trigger] level.contains(v) <==> ready(edges, before, v as int)),
        level.no_duplicates(),
        level.len() > 0,
        forall|v: usize|
            v < before.len() ==> #[trigger] after[v as int] == (before[v as int] || level.contains(v)),
        new_rank == Seq::new(
            before.len(),
            |v: int|
                if before[v] {
                    rank[v]
                } else {
                    levels.len()
                },
        ),
    ensures
        partly_ranked(edges, after, levels.push(level), new_rank),
{
    let now = levels.push(level);
    let k = levels.len() as int;
    assert forall|a: int, i: int| 0 <= a < now.len() && 0 <= i < now[a].len() implies (
    #[trigger] now[a][i]) < after.len() && after[now[a][i] as int] && new_rank[now[a][i] as int]
        == a by {
        let v = now[a][i];
        if a < k {
            assert(levels[a][i] == v);
            assert(after[v as int]);
        } else {
            assert(level[i] == v);
            assert(level.contains(v));
            assert(ready(edges, before, v as int));
            assert(after[v as int]);
        }
    }
    assert forall|v: usize| v < after.len() && #[trigger] after[v as int] implies new_rank[v as int]
        < now.len() && now[new_rank[v as int] as int].contains(v) by {
        if before[v as int] {
            assert(levels[rank[v as int] as int].contains(v));
            assert(now[rank[v as int] as int] == levels[rank[v as int] as int]);
        } else {
            assert(level.contains(v));
            assert(now[k] == level);
        }
    }
    assert forall|a: int| 0 <= a < now.len() implies (#[trigger] now[a]).no_duplicates() by {
        if a < k {
            assert(now[a] == levels[a]);
        }
    }
    assert forall|e: int| 0 <= e < edges.len() && after[(#[trigger] edges[e]).1 as int] implies after[edges[e].0 as int]
        && new_rank[edges[e].0 as int] < new_rank[edges[e].1 as int] by {
        let u = edges[e].0;
        let v = edges[e].1;
        if before[v as int] {
            assert(before[u as int]);
        } else {
            assert(level.contains(v));
            assert(ready(edges, before, v as int));
            assert(before[u as int]);
        }
        assert(after[u as int]);
        assert(levels[rank[u as int] as int].contains(u));
    }
    assert forall|v: int| 0 <= v < after.len() && #[trigger] after[v] && new_rank[v] > 0 implies exists|
        e: int,
    |
        0 <= e < edges.len() && (#[trigger] edges[e]).1 == v && new_rank[edges[e].0 as int] + 1
            == new_rank[v] by {
        if before[v] {
            let e = choose|e: int|
                0 <= e < edges.len() && (#[trigger] edges[e]).1 == v && rank[edges[e].0 as int] + 1
                    == rank[v];
            assert(before[edges[e].1 as int]);
            assert(before[edges[e].0 as int]);
            assert(new_rank[edges[e].0 as int] + 1 == new_rank[v]);
        } else {
            assert(after[(v as usize) as int]);
            assert(level.contains(v as usize));
            assert(ready(edges, before, v));
            let e = choose|e: int|
                0 <= e < edges.len() && (#[trigger] edges[e]).1 == v && rank[edges[e].0 as int] + 1
                    == levels.len();
            assert(before[edges[e].0 as int]);
            assert(new_rank[edges[e].0 as int] + 1 == new_rank[v]);
        }
    }
    assert forall|v: int| 0 <= v < after.len() && ready(edges, after, v) && now.len() > 0 implies exists|
        e: int,
    |
        0 <= e < edges.len() && (#[trigger] edges[e]).1 == v && new_rank[edges[e].0 as int] + 1
            == now.len() by {
        assert(!after[(v as usize) as int]);
        assert(!before[v]);
        assert(!level.contains(v as usize));
        assert(!ready(edges, before, v));
        let e = choose|e: int|
            0 <= e < edges.len() && (#[trigger] edges[e]).1 == v && !before[edges[e].0 as int];
        assert(after[edges[e].0 as int]);
        assert(new_rank[edges[e].0 as int] == k);
    }
}

} // verus!

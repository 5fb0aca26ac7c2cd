//! What a run of a graph without cycles is good for: which nodes work, in what
//! order, what each of them sees, and what is left in the end.

use crate::error::{ErrorView, Outcome};
use crate::json::JsonView;
use crate::orchestration::dag::{
    activated, level_ends, level_runs, level_works, runnable, runnable_nodes_are_waited_for, runs,
    runs_from, settles, settles_all, text_of, works, Dag, State, END, START,
};
use crate::orchestration::toposort::{level_views, ranked};
use vstd::prelude::*;

verus! {

/// The names that a rule picked; without a rule nothing is left out.
pub type Pick = Option<Seq<Seq<char>>>;

/// One node at work.
pub struct Work {
    pub node: int,
    /// The position of its level.
    pub level: int,
    /// What it saw.
    pub base: State,
    /// What it left.
    pub after: State,
    /// What its rule picked.
    pub pick: Pick,
    /// How many nodes had worked when its level began.
    pub from: int,
    /// How many nodes had worked when its level was done.
    pub to: int,
}

/// A run that ended without an error: the nodes that worked, one after the other,
/// and the state before the first, between each two and behind the last.
pub struct Story {
    pub first: Pick,
    pub works: Seq<Work>,
    pub states: Seq<State>,
}

/// Whether a pick lets a name through.
pub open spec fn lets(pick: Pick, name: Seq<char>) -> bool {
    match pick {
        Some(names) => exists|i: int| 0 <= i < names.len() && #[trigger] names[i] == name,
        None => true,
    }
}

/// Whether an edge was followed: it leaves the entry point or a node that worked,
/// and what was picked there lets its target through.
pub open spec fn followed(dag: Dag, s: Story, e: int) -> bool {
    let edge = dag.plan().edges@[e];
    let target = dag.plan().names@[edge.1 as int]@;
    ||| edge.0 == 0 && lets(s.first, target)
    ||| exists|i: int|
        0 <= i < s.works.len() && (#[trigger] s.works[i]).node == edge.0 && lets(
            s.works[i].pick,
            target,
        )
}

/// Whether some edge that was followed leads to a node.
pub open spec fn reached(dag: Dag, s: Story, v: int) -> bool {
    exists|e: int|
        0 <= e < dag.plan().edges@.len() && (#[trigger] dag.plan().edges@[e]).1 == v && followed(
            dag,
            s,
            e,
        )
}

/// Whether a node worked.
pub open spec fn worked(s: Story, v: int) -> bool {
    exists|i: int| 0 <= i < s.works.len() && (#[trigger] s.works[i]).node == v
}

/// Whether a pick is what the rule behind a node may pick on a state. A node
/// without a rule, or without a way on, picks nothing.
pub open spec fn picks(dag: Dag, v: int, state: State, pick: Pick) -> bool {
    let name = dag.plan().names@[v]@;
    if dag.rules().contains_key(name) && exists|e: int|
        0 <= e < dag.plan().edges@.len() && (#[trigger] dag.plan().edges@[e]).0 == v {
        pick matches Some(p) && dag.rules()[name].branch.answers(state, Ok(p))
    } else {
        pick is None
    }
}

/// Whether two states hold the same at a key.
pub open spec fn agree(a: State, b: State, key: Seq<char>) -> bool {
    a.contains_key(key) == b.contains_key(key) && (a.contains_key(key) ==> a[key] == b[key])
}

/// Whether a state takes over what a node did: what the node left alone stays, and
/// what it set is set.
pub open spec fn takes_over(before: State, base: State, after: State, now: State) -> bool {
    forall|key: Seq<char>|
        #![trigger now.contains_key(key)]
        #![trigger after.contains_key(key)]
        {
            &&& agree(base, after, key) ==> agree(before, now, key)
            &&& after.contains_key(key) && !agree(base, after, key) ==> now.contains_key(key)
                && now[key] == after[key]
            &&& !after.contains_key(key) ==> !now.contains_key(key) || agree(before, now, key)
        }
}

/// Whether one work of a story is told rightly: the node is one of the graph and
/// works without an error on what was there before its level began. Its rule picks
/// on what was there when its level was done.
pub open spec fn tells_work(dag: Dag, s: Story, i: int) -> bool {
    let w = s.works[i];
    &&& 2 <= w.node < dag.plan().names@.len()
    &&& 0 <= w.level < dag.plan().levels@.len()
    &&& dag.plan().levels@[w.level]@.contains(w.node as usize)
    &&& 0 <= w.from <= i < w.to <= s.works.len()
    &&& w.base == s.states[w.from]
    &&& dag.tasks()[dag.plan().names@[w.node]@].node.step(w.base, w.after, Ok(()))
    &&& takes_over(s.states[i], w.base, w.after, s.states[i + 1])
    &&& picks(dag, w.node, s.states[w.to], w.pick)
}

/// Whether all works of a story are told rightly, no node works twice, and exactly
/// the nodes of one level work at the same time.
pub open spec fn tells_works(dag: Dag, s: Story) -> bool {
    &&& s.states.len() == s.works.len() + 1
    &&& forall|i: int| 0 <= i < s.works.len() ==> #[trigger] tells_work(dag, s, i)
    &&& forall|i: int, j: int|
        0 <= i < j < s.works.len() ==> (#[trigger] s.works[i]).node != (#[trigger] s.works[j]).node
            && s.works[i].level <= s.works[j].level
    &&& forall|i: int, j: int|
        0 <= i < s.works.len() && 0 <= j < s.works.len() ==> ((#[trigger] s.works[i]).from <= j
            < s.works[i].to <==> s.works[i].level == (#[trigger] s.works[j]).level)
}

/// Whether a story tells a whole run on a state: every node to which an edge was
/// followed worked, and no other.
pub open spec fn tells(dag: Dag, state: State, s: Story) -> bool {
    &&& tells_works(dag, s)
    &&& s.states[0] == state
    &&& picks(dag, 0, state, s.first)
    &&& forall|v: int|
        2 <= v < dag.plan().names@.len() ==> (#[trigger] worked(s, v) <==> reached(dag, s, v))
}

// ---------------------------------------------------------------------
// One level
// ---------------------------------------------------------------------

proof fn lemma_settled(dag: Dag, v: int, state: State, active: Seq<bool>, a: Seq<bool>) -> (pick:
    Pick)
    requires
        settles(dag, v, state, active, Ok(a)),
        0 <= v < dag.plan().names@.len(),
        dag.plan().wf(START@, END@),
        active.len() == dag.plan().edges@.len(),
    ensures
        picks(dag, v, state, pick),
        a.len() == active.len(),
        forall|e: int|
            0 <= e < a.len() ==> #[trigger] a[e] == (active[e] || dag.plan().edges@[e].0 == v && lets(
                pick,
                dag.plan().names@[dag.plan().edges@[e].1 as int]@,
            )),
{
    let names = dag.plan().name_texts();
    let edges = dag.plan().edges@;
    assert(names[v] == dag.plan().names@[v]@);
    let pick = if dag.rules().contains_key(names[v]) && exists|e: int|
        0 <= e < edges.len() && (#[trigger] edges[e]).0 == v {
        let picked = choose|picked: Outcome<Seq<Seq<char>>>|
            {
                &&& #[trigger] dag.rules()[names[v]].branch.answers(state, picked)
                &&& match picked {
                    Ok(p) => Ok::<Seq<bool>, ErrorView>(a) == Ok::<Seq<bool>, ErrorView>(
                        activated(names, edges, active, v, Some(p)),
                    ),
                    Err(e) => Ok::<Seq<bool>, ErrorView>(a) == Err::<Seq<bool>, ErrorView>(e),
                }
            };
        Some(picked->Ok_0)
    } else {
        None
    };
    assert(a == activated(names, edges, active, v, pick));
    assert forall|e: int| 0 <= e < a.len() implies #[trigger] a[e] == (active[e] || edges[e].0 == v
        && lets(pick, dag.plan().names@[edges[e].1 as int]@)) by {
        assert(names[edges[e].1 as int] == dag.plan().names@[edges[e].1 as int]@);
        if let Some(p) = pick {
            let name = names[edges[e].1 as int];
            if p.contains(name) {
                let i = choose|i: int| 0 <= i < p.len() && p[i] == name;
                assert(p[i] == name);
            }
        }
    }
    pick
}

spec fn lit(dag: Dag, nodes: Seq<usize>, chosen: Seq<Pick>, e: int) -> bool {
    exists|i: int|
        0 <= i < nodes.len() && (#[trigger] nodes[i]) == dag.plan().edges@[e].0 && lets(
            chosen[i],
            dag.plan().names@[dag.plan().edges@[e].1 as int]@,
        )
}

proof fn lemma_all_settled(
    dag: Dag,
    nodes: Seq<usize>,
    state: State,
    active: Seq<bool>,
    a: Seq<bool>,
) -> (chosen: Seq<Pick>)
    requires
        settles_all(dag, nodes, state, active, Ok(a)),
        forall|i: int| 0 <= i < nodes.len() ==> (#[trigger] nodes[i]) < dag.plan().names@.len(),
        dag.plan().wf(START@, END@),
        active.len() == dag.plan().edges@.len(),
    ensures
        chosen.len() == nodes.len(),
        forall|i: int|
            0 <= i < nodes.len() ==> picks(dag, #[trigger] nodes[i] as int, state, chosen[i]),
        a.len() == active.len(),
        forall|e: int| 0 <= e < a.len() ==> #[trigger] a[e] == (active[e] || lit(dag, nodes, chosen, e)),
    decreases nodes.len(),
{
    if nodes.len() == 0 {
        Seq::empty()
    } else {
        let mid = choose|mid: Outcome<Seq<bool>>|
            {
                &&& #[trigger] settles(dag, nodes[0] as int, state, active, mid)
                &&& match mid {
                    Ok(b) => settles_all(dag, nodes.skip(1), state, b, Ok(a)),
                    Err(e) => Ok::<Seq<bool>, ErrorView>(a) == Err::<Seq<bool>, ErrorView>(e),
                }
            };
        let b = mid->Ok_0;
        let rest = nodes.skip(1);
        let pick = lemma_settled(dag, nodes[0] as int, state, active, b);
        assert forall|i: int| 0 <= i < rest.len() implies (#[trigger] rest[i])
            < dag.plan().names@.len() by {
            assert(rest[i] == nodes[i + 1]);
        }
        let others = lemma_all_settled(dag, rest, state, b, a);
        let chosen = seq![pick] + others;
        assert forall|i: int| 0 <= i < nodes.len() implies picks(
            dag,
            #[trigger] nodes[i] as int,
            state,
            chosen[i],
        ) by {
            if i > 0 {
                assert(picks(dag, rest[i - 1] as int, state, others[i - 1]));
            }
        }
        assert forall|e: int| 0 <= e < a.len() implies #[trigger] a[e] == (active[e] || lit(
            dag,
            nodes,
            chosen,
            e,
        )) by {
            let target = dag.plan().names@[dag.plan().edges@[e].1 as int]@;
            assert(a[e] == (b[e] || lit(dag, rest, others, e)));
            if lit(dag, rest, others, e) {
                let i = choose|i: int|
                    0 <= i < rest.len() && (#[trigger] rest[i]) == dag.plan().edges@[e].0 && lets(
                        others[i],
                        target,
                    );
                assert(nodes[i + 1] == rest[i]);
                assert(chosen[i + 1] == others[i]);
            }
            if lit(dag, nodes, chosen, e) {
                let i = choose|i: int|
                    0 <= i < nodes.len() && (#[trigger] nodes[i]) == dag.plan().edges@[e].0 && lets(
                        chosen[i],
                        target,
                    );
                if i > 0 {
                    assert(rest[i - 1] == nodes[i]);
                    assert(others[i - 1] == chosen[i]);
                }
            }
            if dag.plan().edges@[e].0 == nodes[0] && lets(pick, target) {
                assert(nodes[0] == dag.plan().edges@[e].0 && lets(chosen[0], target));
            }
        }
        chosen
    }
}

/// What the nodes of a level left, and the states between them.
struct Labour {
    afters: Seq<State>,
    states: Seq<State>,
}

spec fn labours(dag: Dag, nodes: Seq<usize>, base: State, l: Labour) -> bool {
    &&& l.afters.len() == nodes.len()
    &&& l.states.len() == nodes.len() + 1
    &&& forall|i: int|
        0 <= i < nodes.len() ==> dag.tasks()[dag.plan().names@[#[trigger] nodes[i] as int]@].node.step(
            base,
            l.afters[i],
            Ok(()),
        ) && takes_over(l.states[i], base, l.afters[i], l.states[i + 1])
}

proof fn lemma_worked(
    dag: Dag,
    nodes: Seq<usize>,
    base: State,
    merged: State,
    out: State,
) -> (l: Labour)
    requires
        works(dag, nodes, base, merged, Ok(out)),
        forall|i: int| 0 <= i < nodes.len() ==> (#[trigger] nodes[i]) < dag.plan().names@.len(),
    ensures
        labours(dag, nodes, base, l),
        l.states[0] == merged,
        l.states[nodes.len() as int] == out,
    decreases nodes.len(),
{
    if nodes.len() == 0 {
        Labour { afters: Seq::empty(), states: seq![merged] }
    } else {
        let name = dag.plan().name_texts()[nodes[0] as int];
        assert(name == dag.plan().names@[nodes[0] as int]@);
        let rest = nodes.skip(1);
        let (after, r) = choose|after: State, r: Outcome<()>|
            {
                &&& #[trigger] dag.tasks()[name].node.step(base, after, r)
                &&& match r {
                    Ok(_) => works(
                        dag,
                        rest,
                        base,
                        merged.union_prefer_right(
                            crate::orchestration::dag::written(base, after),
                        ),
                        Ok(out),
                    ),
                    Err(e) => Ok::<State, ErrorView>(out) == Err::<State, ErrorView>(e),
                }
            };
        let now = merged.union_prefer_right(crate::orchestration::dag::written(base, after));
        assert forall|i: int| 0 <= i < rest.len() implies (#[trigger] rest[i])
            < dag.plan().names@.len() by {
            assert(rest[i] == nodes[i + 1]);
        }
        let others = lemma_worked(dag, rest, base, now, out);
        let l = Labour {
            afters: seq![after] + others.afters,
            states: seq![merged] + others.states,
        };
        assert(takes_over(merged, base, after, now));
        assert(r->Ok_0 == ());
        assert(r == Ok::<(), ErrorView>(()));
        assert forall|i: int| 0 <= i < nodes.len() implies dag.tasks()[dag.plan().names@[#[trigger] nodes[i] as int]@].node.step(
            base,
            l.afters[i],
            Ok(()),
        ) && takes_over(l.states[i], base, l.afters[i], l.states[i + 1]) by {
            if i > 0 {
                assert(rest[i - 1] == nodes[i]);
                assert(l.states[i] == others.states[i - 1]);
                assert(l.states[i + 1] == others.states[i]);
            }
        }
        l
    }
}

proof fn lemma_level_worked(dag: Dag, nodes: Seq<usize>, state: State, out: State) -> (l: Labour)
    requires
        level_works(dag, nodes, state, Ok(out)),
        forall|i: int| 0 <= i < nodes.len() ==> (#[trigger] nodes[i]) < dag.plan().names@.len(),
    ensures
        labours(dag, nodes, state, l),
        l.states[0] == state,
        l.states[nodes.len() as int] == out,
{
    if nodes.len() == 1 {
        let name = dag.plan().name_texts()[nodes[0] as int];
        assert(name == dag.plan().names@[nodes[0] as int]@);
        let l = Labour { afters: seq![out], states: seq![state, out] };
        let (after, r) = choose|after: State, r: Outcome<()>|
            {
                &&& #[trigger] dag.tasks()[name].node.step(state, after, r)
                &&& match r {
                    Ok(_) => Ok::<State, ErrorView>(out) == Ok::<State, ErrorView>(after),
                    Err(e) => Ok::<State, ErrorView>(out) == Err::<State, ErrorView>(e),
                }
            };
        assert(r->Ok_0 == ());
        assert(r == Ok::<(), ErrorView>(()));
        assert(takes_over(state, state, out, out));
        l
    } else {
        lemma_worked(dag, nodes, state, state, out)
    }
}

// ---------------------------------------------------------------------
// All levels
// ---------------------------------------------------------------------

/// Whether a story tells the levels before the `k`-th, with the edges that are
/// active so far.
spec fn so_far(
    dag: Dag,
    rank: Seq<nat>,
    state: State,
    k: int,
    active: Seq<bool>,
    s: Story,
) -> bool {
    &&& tells_works(dag, s)
    &&& s.states[0] == state
    &&& picks(dag, 0, state, s.first)
    &&& forall|i: int|
        0 <= i < s.works.len() ==> (#[trigger] s.works[i]).level < k && rank[s.works[i].node]
            == s.works[i].level
    &&& active.len() == dag.plan().edges@.len()
    &&& forall|e: int| 0 <= e < active.len() ==> #[trigger] active[e] == followed(dag, s, e)
    &&& forall|v: int|
        2 <= v < dag.plan().names@.len() && rank[v] < k ==> (#[trigger] worked(s, v) <==> reached(
            dag,
            s,
            v,
        ))
}

proof fn lemma_rank(dag: Dag) -> (rank: Seq<nat>)
    requires
        dag.plan().wf(START@, END@),
    ensures
        ranked(
            dag.plan().names@.len(),
            dag.plan().edges@,
            level_views(dag.plan().levels@),
            rank,
        ),
{
    choose|rank: Seq<nat>|
        ranked(dag.plan().names@.len(), dag.plan().edges@, level_views(dag.plan().levels@), rank)
}

proof fn lemma_runnable_distinct(edges: Seq<(usize, usize)>, level: Seq<usize>, active: Seq<bool>)
    requires
        level.no_duplicates(),
    ensures
        runnable(edges, level, active).no_duplicates(),
    decreases level.len(),
{
    if level.len() > 0 {
        let init = level.drop_last();
        lemma_runnable_distinct(edges, init, active);
        let before = runnable(edges, init, active);
        runnable_nodes_are_waited_for(edges, init, active, level.last());
        assert(!init.contains(level.last())) by {
            if init.contains(level.last()) {
                let i = choose|i: int| 0 <= i < init.len() && init[i] == level.last();
                assert(level[i] == level[level.len() - 1]);
            }
        }
        if runnable(edges, level, active) != before {
            let now = runnable(edges, level, active);
            assert(now == before.push(level.last()));
            assert forall|a: int, b: int|
                0 <= a < now.len() && 0 <= b < now.len() && a != b implies now[a] != now[b] by {
                if a == before.len() {
                    assert(before.contains(before[b]));
                } else if b == before.len() {
                    assert(before.contains(before[a]));
                }
            }
        }
    }
}

#[verifier::spinoff_prover]
proof fn lemma_story_grows(
    dag: Dag,
    s: Story,
    t: Story,
    new: Seq<Work>,
    l: Labour,
    chosen: Seq<Pick>,
    nodes: Seq<usize>,
    k: int,
    here: State,
    next: State,
)
    requires
        tells_works(dag, s),
        here == s.states[s.works.len() as int],
        0 <= k < dag.plan().levels@.len(),
        labours(dag, nodes, here, l),
        l.states[0] == here,
        l.states[nodes.len() as int] == next,
        chosen.len() == nodes.len(),
        nodes.no_duplicates(),
        forall|i: int|
            0 <= i < nodes.len() ==> 2 <= (#[trigger] nodes[i]) < dag.plan().names@.len()
                && dag.plan().levels@[k]@.contains(nodes[i]) && picks(
                dag,
                nodes[i] as int,
                next,
                chosen[i],
            ),
        forall|i: int|
            0 <= i < s.works.len() ==> (#[trigger] s.works[i]).level < k && !nodes.contains(
                s.works[i].node as usize,
            ),
        new == Seq::new(
            nodes.len(),
            |i: int|
                Work {
                    node: nodes[i] as int,
                    level: k,
                    base: here,
                    after: l.afters[i],
                    pick: chosen[i],
                    from: s.works.len() as int,
                    to: (s.works.len() + nodes.len()) as int,
                },
        ),
        t == (Story {
            first: s.first,
            works: s.works + new,
            states: s.states.drop_last() + l.states,
        }),
    ensures
        tells_works(dag, t),
        t.states[0] == s.states[0],
        t.states[t.works.len() as int] == next,
{
    let m = s.works.len() as int;
    assert(forall|j: int| 0 <= j <= m ==> #[trigger] t.states[j] == s.states[j]);
    assert(forall|j: int| 0 <= j <= nodes.len() ==> #[trigger] l.states[j] == t.states[m + j]);
    assert forall|i: int| 0 <= i < t.works.len() implies #[trigger] tells_work(dag, t, i) by {
        if i < m {
            assert(tells_work(dag, s, i));
            assert(t.works[i] == s.works[i]);
        } else {
            let j = i - m;
            assert(t.works[i] == new[j]);
            assert(nodes[j] == t.works[i].node);
            assert(l.states[j] == t.states[i]);
            assert(l.states[j + 1] == t.states[i + 1]);
            assert(t.states[t.works[i].to] == next);
        }
    }
    assert forall|i: int, j: int| 0 <= i < j < t.works.len() implies (#[trigger] t.works[i]).node
        != (#[trigger] t.works[j]).node && t.works[i].level <= t.works[j].level by {
        if j < m {
            assert(s.works[i].node != s.works[j].node);
        } else if i < m {
            assert(s.works[i].level < k);
            assert(t.works[i] == s.works[i]);
            assert(nodes.contains(nodes[j - m]));
        } else {
            assert(nodes[i - m] != nodes[j - m]);
        }
    }
    assert forall|i: int, j: int| 0 <= i < t.works.len() && 0 <= j < t.works.len() implies ((
    #[trigger] t.works[i]).from <= j < t.works[i].to <==> t.works[i].level == (
    #[trigger] t.works[j]).level) by {
        if i < m {
            assert(tells_work(dag, s, i));
            if j < m {
                assert(s.works[i].from <= j < s.works[i].to <==> s.works[i].level
                    == s.works[j].level);
            }
        } else if j < m {
            assert(s.works[j].level < k);
        }
    }
}

#[verifier::spinoff_prover]
proof fn lemma_level(
    dag: Dag,
    rank: Seq<nat>,
    state: State,
    k: int,
    active: Seq<bool>,
    s: Story,
    next: State,
    lit_now: Seq<bool>,
) -> (t: Story)
    requires
        dag.plan().wf(START@, END@),
        ranked(dag.plan().names@.len(), dag.plan().edges@, level_views(dag.plan().levels@), rank),
        0 <= k < dag.plan().levels@.len(),
        so_far(dag, rank, state, k, active, s),
        level_runs(
            dag,
            runnable(dag.plan().edges@, dag.plan().levels@[k]@, active),
            s.states[s.works.len() as int],
            active,
            Ok((next, lit_now)),
        ),
    ensures
        so_far(dag, rank, state, k + 1, lit_now, t),
        t.states[t.works.len() as int] == next,
{
    let edges = dag.plan().edges@;
    let level = dag.plan().levels@[k]@;
    assert(level_views(dag.plan().levels@)[k] == level);
    let nodes = runnable(edges, level, active);
    let here = s.states[s.works.len() as int];
    lemma_runnable_distinct(edges, level, active);
    assert forall|i: int| 0 <= i < nodes.len() implies 2 <= #[trigger] nodes[i]
        < dag.plan().names@.len() && rank[nodes[i] as int] == k && level.contains(nodes[i]) by {
        runnable_nodes_are_waited_for(edges, level, active, nodes[i]);
        assert(nodes.contains(nodes[i]));
        let j = choose|j: int| 0 <= j < level.len() && level[j] == nodes[i];
        assert(level_views(dag.plan().levels@)[k][j] == nodes[i]);
    }
    let mid = choose|mid: Outcome<State>|
        {
            &&& #[trigger] level_works(dag, nodes, here, mid)
            &&& match mid {
                Ok(x) => level_ends(dag, nodes, x, active, Ok((next, lit_now))),
                Err(e) => Ok::<(State, Seq<bool>), ErrorView>((next, lit_now)) == Err::<
                    (State, Seq<bool>),
                    ErrorView,
                >(e),
            }
        };
    let ended = choose|ended: Outcome<Seq<bool>>|
        {
            &&& #[trigger] settles_all(dag, nodes, mid->Ok_0, active, ended)
            &&& match ended {
                Ok(a) => Ok::<(State, Seq<bool>), ErrorView>((next, lit_now)) == Ok::<
                    (State, Seq<bool>),
                    ErrorView,
                >((mid->Ok_0, a)),
                Err(e) => Ok::<(State, Seq<bool>), ErrorView>((next, lit_now)) == Err::<
                    (State, Seq<bool>),
                    ErrorView,
                >(e),
            }
        };
    assert(mid == Ok::<State, ErrorView>(next));
    assert(ended == Ok::<Seq<bool>, ErrorView>(lit_now));
    let l = lemma_level_worked(dag, nodes, here, next);
    let chosen = lemma_all_settled(dag, nodes, next, active, lit_now);
    let m = s.works.len() as int;
    let new = Seq::new(
        nodes.len(),
        |i: int|
            Work {
                node: nodes[i] as int,
                level: k,
                base: here,
                after: l.afters[i],
                pick: chosen[i],
                from: m,
                to: m + nodes.len(),
            },
    );
    let t = Story {
        first: s.first,
        works: s.works + new,
        states: s.states.drop_last() + l.states,
    };
    assert forall|i: int| 0 <= i < s.works.len() implies (#[trigger] s.works[i]).level < k
        && !nodes.contains(s.works[i].node as usize) by {
        assert(tells_work(dag, s, i));
        assert(dag.plan().names.len() == dag.plan().names@.len());
        if nodes.contains(s.works[i].node as usize) {
            let j = choose|j: int| 0 <= j < nodes.len() && nodes[j] == s.works[i].node as usize;
            assert(rank[nodes[j] as int] == k);
        }
    }
    lemma_story_grows(dag, s, t, new, l, chosen, nodes, k, here, next);
    lemma_followed(dag, s, t, new, chosen, nodes, active, lit_now);
    assert forall|v: int| 2 <= v < dag.plan().names@.len() && rank[v] < k + 1 implies (
    #[trigger] worked(t, v) <==> reached(dag, t, v)) by {
        lemma_reached(dag, rank, state, k, active, s, t, nodes, v);
    }
    assert forall|i: int| 0 <= i < t.works.len() implies (#[trigger] t.works[i]).level < k + 1
        && rank[t.works[i].node] == t.works[i].level by {
        if i < m {
            assert(s.works[i].level < k);
        } else {
            assert(rank[nodes[i - m] as int] == k);
        }
    }
    t
}

proof fn lemma_followed(
    dag: Dag,
    s: Story,
    t: Story,
    new: Seq<Work>,
    chosen: Seq<Pick>,
    nodes: Seq<usize>,
    active: Seq<bool>,
    lit_now: Seq<bool>,
)
    requires
        t.works == s.works + new,
        t.first == s.first,
        new.len() == nodes.len() == chosen.len(),
        forall|i: int|
            0 <= i < nodes.len() ==> (#[trigger] new[i]).node == nodes[i] && new[i].pick == chosen[i],
        active.len() == lit_now.len(),
        forall|e: int| 0 <= e < active.len() ==> #[trigger] active[e] == followed(dag, s, e),
        forall|e: int|
            0 <= e < active.len() ==> #[trigger] lit_now[e] == (active[e] || lit(
                dag,
                nodes,
                chosen,
                e,
            )),
    ensures
        forall|e: int| 0 <= e < lit_now.len() ==> #[trigger] lit_now[e] == followed(dag, t, e),
{
    assert forall|e: int| 0 <= e < lit_now.len() implies #[trigger] lit_now[e] == followed(
        dag,
        t,
        e,
    ) by {
        let edge = dag.plan().edges@[e];
        let target = dag.plan().names@[edge.1 as int]@;
        let m = s.works.len() as int;
        assert(active[e] == followed(dag, s, e));
        if followed(dag, s, e) && !(edge.0 == 0 && lets(s.first, target)) {
            let i = choose|i: int|
                0 <= i < s.works.len() && (#[trigger] s.works[i]).node == edge.0 && lets(
                    s.works[i].pick,
                    target,
                );
            assert(t.works[i] == s.works[i]);
        }
        if lit(dag, nodes, chosen, e) {
            let i = choose|i: int|
                0 <= i < nodes.len() && (#[trigger] nodes[i]) == edge.0 && lets(chosen[i], target);
            assert(new[i].node == nodes[i]);
            assert(t.works[m + i] == new[i]);
        }
        if followed(dag, t, e) && !(edge.0 == 0 && lets(t.first, target)) {
            let i = choose|i: int|
                0 <= i < t.works.len() && (#[trigger] t.works[i]).node == edge.0 && lets(
                    t.works[i].pick,
                    target,
                );
            if i < m {
                assert(t.works[i] == s.works[i]);
            } else {
                assert(t.works[i] == new[i - m]);
                assert(nodes[i - m] == edge.0);
            }
        }
    }
}

proof fn lemma_reached(
    dag: Dag,
    rank: Seq<nat>,
    state: State,
    k: int,
    active: Seq<bool>,
    s: Story,
    t: Story,
    nodes: Seq<usize>,
    v: int,
)
    requires
        dag.plan().wf(START@, END@),
        ranked(dag.plan().names@.len(), dag.plan().edges@, level_views(dag.plan().levels@), rank),
        0 <= k < dag.plan().levels@.len(),
        so_far(dag, rank, state, k, active, s),
        nodes == runnable(dag.plan().edges@, dag.plan().levels@[k]@, active),
        t.first == s.first,
        t.works.len() == s.works.len() + nodes.len(),
        forall|i: int| 0 <= i < s.works.len() ==> #[trigger] t.works[i] == s.works[i],
        forall|i: int|
            0 <= i < nodes.len() ==> t.works[s.works.len() + i].node == #[trigger] nodes[i],
        forall|i: int| 0 <= i < nodes.len() ==> rank[#[trigger] nodes[i] as int] == k,
        2 <= v < dag.plan().names@.len(),
        rank[v] < k + 1,
    ensures
        worked(t, v) <==> reached(dag, t, v),
{
    let edges = dag.plan().edges@;
    let m = s.works.len() as int;
    let level = dag.plan().levels@[k]@;
    assert(level_views(dag.plan().levels@)[k] == level);
    // No edge into the node leaves the level: what leads to it was followed before.
    assert forall|e: int| 0 <= e < edges.len() && (#[trigger] edges[e]).1 == v implies followed(
        dag,
        s,
        e,
    ) == followed(dag, t, e) by {
        let target = dag.plan().names@[edges[e].1 as int]@;
        assert(rank[edges[e].0 as int] < rank[v]);
        if followed(dag, s, e) && !(edges[e].0 == 0 && lets(s.first, target)) {
            let i = choose|i: int|
                0 <= i < s.works.len() && (#[trigger] s.works[i]).node == edges[e].0 && lets(
                    s.works[i].pick,
                    target,
                );
            assert(t.works[i] == s.works[i]);
        }
        if followed(dag, t, e) && !(edges[e].0 == 0 && lets(t.first, target)) {
            let i = choose|i: int|
                0 <= i < t.works.len() && (#[trigger] t.works[i]).node == edges[e].0 && lets(
                    t.works[i].pick,
                    target,
                );
            if i >= m {
                assert(nodes[i - m] == t.works[m + (i - m)].node);
                assert(rank[nodes[i - m] as int] == k);
            } else {
                assert(t.works[i] == s.works[i]);
            }
        }
    }
    assert(reached(dag, s, v) == reached(dag, t, v)) by {
        if reached(dag, s, v) {
            let e = choose|e: int|
                0 <= e < edges.len() && (#[trigger] edges[e]).1 == v && followed(dag, s, e);
            assert(edges[e].1 == v && followed(dag, t, e));
        }
        if reached(dag, t, v) {
            let e = choose|e: int|
                0 <= e < edges.len() && (#[trigger] edges[e]).1 == v && followed(dag, t, e);
            assert(edges[e].1 == v && followed(dag, s, e));
        }
    }
    if rank[v] < k {
        if worked(s, v) {
            let i = choose|i: int| 0 <= i < s.works.len() && (#[trigger] s.works[i]).node == v;
            assert(t.works[i] == s.works[i]);
        }
        if worked(t, v) {
            let i = choose|i: int| 0 <= i < t.works.len() && (#[trigger] t.works[i]).node == v;
            if i >= m {
                assert(nodes[i - m] == t.works[m + (i - m)].node);
                assert(rank[nodes[i - m] as int] == k);
            } else {
                assert(t.works[i] == s.works[i]);
                assert(worked(s, v));
            }
        }
    } else {
        assert(dag.plan().names.len() == dag.plan().names@.len());
        let u = v as usize;
        assert(rank[u as int] == k);
        assert(level.contains(u));
        runnable_nodes_are_waited_for(edges, level, active, u);
        assert(crate::orchestration::dag::has_active(edges, active, v) == reached(dag, s, v)) by {
            if reached(dag, s, v) {
                let e = choose|e: int|
                    0 <= e < edges.len() && (#[trigger] edges[e]).1 == v && followed(dag, s, e);
                assert(active[e]);
                assert(edges[e].1 == v && active[e]);
            }
            if crate::orchestration::dag::has_active(edges, active, v) {
                let e = choose|e: int|
                    0 <= e < edges.len() && (#[trigger] edges[e]).1 == v && active[e];
                assert(followed(dag, s, e));
            }
        }
        if nodes.contains(u) {
            let i = choose|i: int| 0 <= i < nodes.len() && nodes[i] == u;
            assert(t.works[m + i].node == v);
        }
        if worked(t, v) {
            let i = choose|i: int| 0 <= i < t.works.len() && (#[trigger] t.works[i]).node == v;
            if i < m {
                assert(t.works[i] == s.works[i]);
                assert(s.works[i].level < k);
            } else {
                assert(nodes[i - m] == t.works[m + (i - m)].node);
                assert(nodes[i - m] == u);
            }
        }
    }
}

/// Whether a node of the graph, or a rule behind one, may fail in this way.
pub open spec fn may_fail(dag: Dag, e: ErrorView) -> bool {
    ||| exists|v: int, before: State, after: State|
        2 <= v < dag.plan().names@.len()
            && #[trigger] dag.tasks()[dag.plan().names@[v]@].node.step(before, after, Err(e))
    ||| exists|v: int, state: State|
        0 <= v < dag.plan().names@.len() && dag.rules().contains_key(dag.plan().names@[v]@)
            && #[trigger] dag.rules()[dag.plan().names@[v]@].branch.answers(state, Err(e))
}

/// The error of a run that never came to the exit point.
pub open spec fn missed_the_end() -> ErrorView {
    ErrorView::Orchestration(
        "DAG execution did not reach END — all paths were skipped by branches"@,
    )
}

/// Whether a story is that of a run which came out as `out`.
pub open spec fn told(dag: Dag, state: State, out: Outcome<State>, s: Story) -> bool {
    match out {
        Ok(end) => tells(dag, state, s) && reached(dag, s, 1) && s.states[s.works.len() as int]
            == end,
        Err(e) => may_fail(dag, e) || (tells(dag, state, s) && !reached(dag, s, 1) && e
            == missed_the_end()),
    }
}

proof fn lemma_settling_fails(dag: Dag, v: int, state: State, active: Seq<bool>, e: ErrorView)
    requires
        settles(dag, v, state, active, Err(e)),
        0 <= v < dag.plan().names@.len(),
    ensures
        may_fail(dag, e),
{
    let names = dag.plan().name_texts();
    assert(names[v] == dag.plan().names@[v]@);
    assert(dag.rules()[dag.plan().names@[v]@].branch.answers(state, Err(e)));
}

proof fn lemma_all_settling_fails(
    dag: Dag,
    nodes: Seq<usize>,
    state: State,
    active: Seq<bool>,
    e: ErrorView,
)
    requires
        settles_all(dag, nodes, state, active, Err(e)),
        forall|i: int| 0 <= i < nodes.len() ==> (#[trigger] nodes[i]) < dag.plan().names@.len(),
    ensures
        may_fail(dag, e),
    decreases nodes.len(),
{
    if nodes.len() > 0 {
        let mid = choose|mid: Outcome<Seq<bool>>|
            {
                &&& #[trigger] settles(dag, nodes[0] as int, state, active, mid)
                &&& match mid {
                    Ok(b) => settles_all(dag, nodes.skip(1), state, b, Err(e)),
                    Err(x) => Err::<Seq<bool>, ErrorView>(e) == Err::<Seq<bool>, ErrorView>(x),
                }
            };
        match mid {
            Ok(b) => {
                let rest = nodes.skip(1);
                assert forall|i: int| 0 <= i < rest.len() implies (#[trigger] rest[i])
                    < dag.plan().names@.len() by {
                    assert(rest[i] == nodes[i + 1]);
                }
                lemma_all_settling_fails(dag, rest, state, b, e);
            },
            Err(_) => {
                lemma_settling_fails(dag, nodes[0] as int, state, active, e);
            },
        }
    }
}

proof fn lemma_working_fails(
    dag: Dag,
    nodes: Seq<usize>,
    base: State,
    merged: State,
    e: ErrorView,
)
    requires
        works(dag, nodes, base, merged, Err(e)),
        forall|i: int|
            0 <= i < nodes.len() ==> 2 <= (#[trigger] nodes[i]) < dag.plan().names@.len(),
    ensures
        may_fail(dag, e),
    decreases nodes.len(),
{
    if nodes.len() > 0 {
        let name = dag.plan().name_texts()[nodes[0] as int];
        assert(name == dag.plan().names@[nodes[0] as int]@);
        let rest = nodes.skip(1);
        let (after, r) = choose|after: State, r: Outcome<()>|
            {
                &&& #[trigger] dag.tasks()[name].node.step(base, after, r)
                &&& match r {
                    Ok(_) => works(
                        dag,
                        rest,
                        base,
                        merged.union_prefer_right(
                            crate::orchestration::dag::written(base, after),
                        ),
                        Err(e),
                    ),
                    Err(x) => Err::<State, ErrorView>(e) == Err::<State, ErrorView>(x),
                }
            };
        match r {
            Ok(_) => {
                assert forall|i: int| 0 <= i < rest.len() implies 2 <= (#[trigger] rest[i])
                    < dag.plan().names@.len() by {
                    assert(rest[i] == nodes[i + 1]);
                }
                lemma_working_fails(
                    dag,
                    rest,
                    base,
                    merged.union_prefer_right(crate::orchestration::dag::written(base, after)),
                    e,
                );
            },
            Err(_) => {
                assert(dag.tasks()[dag.plan().names@[nodes[0] as int]@].node.step(
                    base,
                    after,
                    Err(e),
                ));
            },
        }
    }
}

proof fn lemma_level_fails(
    dag: Dag,
    nodes: Seq<usize>,
    state: State,
    active: Seq<bool>,
    e: ErrorView,
)
    requires
        level_runs(dag, nodes, state, active, Err(e)),
        forall|i: int|
            0 <= i < nodes.len() ==> 2 <= (#[trigger] nodes[i]) < dag.plan().names@.len(),
    ensures
        may_fail(dag, e),
{
    let none = Err::<(State, Seq<bool>), ErrorView>(e);
    let mid = choose|mid: Outcome<State>|
        {
            &&& #[trigger] level_works(dag, nodes, state, mid)
            &&& match mid {
                Ok(x) => level_ends(dag, nodes, x, active, none),
                Err(x) => none == Err::<(State, Seq<bool>), ErrorView>(x),
            }
        };
    match mid {
        Ok(x) => {
            let ended = choose|ended: Outcome<Seq<bool>>|
                {
                    &&& #[trigger] settles_all(dag, nodes, x, active, ended)
                    &&& match ended {
                        Ok(a) => none == Ok::<(State, Seq<bool>), ErrorView>((x, a)),
                        Err(y) => none == Err::<(State, Seq<bool>), ErrorView>(y),
                    }
                };
            lemma_all_settling_fails(dag, nodes, x, active, e);
        },
        Err(_) => {
            if nodes.len() == 1 {
                let name = dag.plan().name_texts()[nodes[0] as int];
                assert(name == dag.plan().names@[nodes[0] as int]@);
                let (after, r) = choose|after: State, r: Outcome<()>|
                    {
                        &&& #[trigger] dag.tasks()[name].node.step(state, after, r)
                        &&& match r {
                            Ok(_) => Err::<State, ErrorView>(e) == Ok::<State, ErrorView>(after),
                            Err(x) => Err::<State, ErrorView>(e) == Err::<State, ErrorView>(x),
                        }
                    };
                assert(dag.tasks()[dag.plan().names@[nodes[0] as int]@].node.step(
                    state,
                    after,
                    Err(e),
                ));
            } else {
                lemma_working_fails(dag, nodes, state, state, e);
            }
        },
    }
}

proof fn lemma_rest_is_told(
    dag: Dag,
    rank: Seq<nat>,
    state: State,
    k: int,
    active: Seq<bool>,
    s: Story,
    out: Outcome<State>,
) -> (t: Story)
    requires
        dag.plan().wf(START@, END@),
        ranked(dag.plan().names@.len(), dag.plan().edges@, level_views(dag.plan().levels@), rank),
        0 <= k <= dag.plan().levels@.len(),
        so_far(dag, rank, state, k, active, s),
        runs_from(dag, k, s.states[s.works.len() as int], active, out),
    ensures
        told(dag, state, out, t),
    decreases dag.plan().levels@.len() - k,
{
    let here = s.states[s.works.len() as int];
    let edges = dag.plan().edges@;
    if k == dag.plan().levels@.len() {
        assert forall|v: int| 2 <= v < dag.plan().names@.len() implies (#[trigger] worked(s, v)
            <==> reached(dag, s, v)) by {
            assert(dag.plan().names.len() == dag.plan().names@.len());
            let u = v as usize;
            assert(rank[u as int] < level_views(dag.plan().levels@).len());
        }
        assert(crate::orchestration::dag::has_active(edges, active, 1) == reached(dag, s, 1)) by {
            if reached(dag, s, 1) {
                let e = choose|e: int|
                    0 <= e < edges.len() && (#[trigger] edges[e]).1 == 1 && followed(dag, s, e);
                assert(active[e]);
                assert(edges[e].1 == 1 && active[e]);
            }
            if crate::orchestration::dag::has_active(edges, active, 1) {
                let e = choose|e: int|
                    0 <= e < edges.len() && (#[trigger] edges[e]).1 == 1 && active[e];
                assert(followed(dag, s, e));
            }
        }
        s
    } else {
        let nodes = runnable(edges, dag.plan().levels@[k]@, active);
        let mid = choose|mid: Outcome<(State, Seq<bool>)>|
            {
                &&& #[trigger] level_runs(dag, nodes, here, active, mid)
                &&& match mid {
                    Ok(sa) => runs_from(dag, k + 1, sa.0, sa.1, out),
                    Err(e) => out == Err::<State, ErrorView>(e),
                }
            };
        match mid {
            Ok(sa) => {
                assert(mid == Ok::<(State, Seq<bool>), ErrorView>((sa.0, sa.1)));
                let t = lemma_level(dag, rank, state, k, active, s, sa.0, sa.1);
                lemma_rest_is_told(dag, rank, state, k + 1, sa.1, t, out)
            },
            Err(e) => {
                assert forall|i: int| 0 <= i < nodes.len() implies 2 <= (#[trigger] nodes[i])
                    < dag.plan().names@.len() by {
                    let level = dag.plan().levels@[k]@;
                    runnable_nodes_are_waited_for(edges, level, active, nodes[i]);
                    assert(nodes.contains(nodes[i]));
                    let j = choose|j: int| 0 <= j < level.len() && level[j] == nodes[i];
                    assert(level_views(dag.plan().levels@)[k][j] == nodes[i]);
                }
                lemma_level_fails(dag, nodes, here, active, e);
                s
            },
        }
    }
}

// ---------------------------------------------------------------------
// The laws
// ---------------------------------------------------------------------

/// When a run ends well, a node worked exactly if an edge was followed to it, and
/// then once: with all that was done before its level in sight, and with its rule
/// deciding where to go on from it. The exit point was reached, and the result is
/// the state behind the last node. A run that fails does so because a node or a
/// rule did, or because all nodes to which an edge was followed worked and none led
/// to the exit point.
pub proof fn runs_are_told(dag: Dag, state: State, out: Outcome<State>) -> (s: Story)
    requires
        dag.plan().wf(START@, END@),
        runs(dag, state, out),
    ensures
        told(dag, state, out, s),
{
    let edges = dag.plan().edges@;
    let none = Seq::new(edges.len(), |e: int| false);
    let rank = lemma_rank(dag);
    let first = choose|first: Outcome<Seq<bool>>|
        {
            &&& #[trigger] settles(dag, 0, state, none, first)
            &&& match first {
                Ok(a) => runs_from(dag, 0, state, a, out),
                Err(e) => out == Err::<State, ErrorView>(e),
            }
        };
    match first {
        Ok(a) => {
            let pick = lemma_settled(dag, 0, state, none, a);
            let s = Story { first: pick, works: Seq::empty(), states: seq![state] };
            assert forall|e: int| 0 <= e < a.len() implies #[trigger] a[e] == followed(
                dag,
                s,
                e,
            ) by {
                assert(!none[e]);
            }
            lemma_rest_is_told(dag, rank, state, 0, a, s, out)
        },
        Err(e) => {
            lemma_settling_fails(dag, 0, state, none, e);
            Story { first: None, works: Seq::empty(), states: seq![state] }
        },
    }
}

/// Every node to which a walk from the entry point leads works, if there are no
/// branch rules.
pub proof fn without_rules_every_node_on_a_way_works(
    dag: Dag,
    state: State,
    s: Story,
    path: Seq<usize>,
)
    requires
        dag.plan().wf(START@, END@),
        tells(dag, state, s),
        dag.rules() == Map::<Seq<char>, crate::orchestration::dag::DagRule>::empty(),
        path.len() >= 2,
        path[0] == 0,
        forall|i: int| 0 < i < path.len() - 1 ==> #[trigger] path[i] >= 2,
        forall|i: int|
            0 <= i < path.len() - 1 ==> dag.plan().edges@.contains((#[trigger] path[i], path[i + 1])),
    ensures
        path[path.len() - 1] >= 2 ==> worked(s, path[path.len() - 1] as int),
        path[path.len() - 1] == 1 ==> reached(dag, s, 1),
    decreases path.len(),
{
    let edges = dag.plan().edges@;
    let u = path[path.len() - 2];
    let v = path[path.len() - 1];
    assert(edges.contains((u, v)));
    let e = choose|e: int| 0 <= e < edges.len() && edges[e] == (u, v);
    assert(edges[e].1 == v);
    if path.len() > 2 {
        let init = path.drop_last();
        assert forall|i: int| 0 <= i < init.len() - 1 implies edges.contains(
            (#[trigger] init[i], init[i + 1]),
        ) by {
            assert(edges.contains((path[i], path[i + 1])));
        }
        without_rules_every_node_on_a_way_works(dag, state, s, init);
    }
    if path.len() > 2 {
        let i = choose|i: int| 0 <= i < s.works.len() && (#[trigger] s.works[i]).node == u;
        assert(tells_work(dag, s, i));
        assert(s.works[i].node == edges[e].0 && lets(
            s.works[i].pick,
            dag.plan().names@[v as int]@,
        ));
    }
    assert(followed(dag, s, e));
    assert(reached(dag, s, v as int));
    if v >= 2 {
        assert(worked(s, v as int) <==> reached(dag, s, v as int));
    }
}

/// Whether a node left an entry as it found it.
pub open spec fn left_alone(s: Story, i: int, key: Seq<char>) -> bool {
    agree(s.works[i].base, s.works[i].after, key)
}

/// What a node set is there from then on until another node changes it, and an
/// entry that no node changes stays as it is.
pub proof fn entries_stay_until_they_are_changed(
    dag: Dag,
    s: Story,
    from: int,
    to: int,
    key: Seq<char>,
)
    requires
        tells_works(dag, s),
        0 <= from <= to <= s.works.len(),
        forall|i: int| from <= i < to ==> #[trigger] left_alone(s, i, key),
    ensures
        agree(s.states[from], s.states[to], key),
        from > 0 && !left_alone(s, from - 1, key) && s.works[from - 1].after.contains_key(key)
            ==> s.states[to].contains_key(key) && s.states[to][key] == s.works[from - 1].after[key],
    decreases to - from,
{
    if from < to {
        entries_stay_until_they_are_changed(dag, s, from, to - 1, key);
        assert(tells_work(dag, s, to - 1));
        assert(left_alone(s, to - 1, key));
        assert(s.states[to].contains_key(key) || !s.states[to].contains_key(key));
    }
    if from > 0 {
        assert(tells_work(dag, s, from - 1));
        assert(s.works[from - 1].after.contains_key(key) || true);
    }
}

/// An entry that only one node changed is, in the end, what that node set.
pub proof fn what_one_node_set_is_in_the_result(
    dag: Dag,
    state: State,
    end: State,
    s: Story,
    i: int,
    key: Seq<char>,
)
    requires
        told(dag, state, Ok(end), s),
        0 <= i < s.works.len(),
        s.works[i].after.contains_key(key),
        !left_alone(s, i, key),
        forall|j: int| 0 <= j < s.works.len() && j != i ==> #[trigger] left_alone(s, j, key),
    ensures
        end.contains_key(key),
        end[key] == s.works[i].after[key],
{
    entries_stay_until_they_are_changed(dag, s, i + 1, s.works.len() as int, key);
}

/// A node works behind every node that leads to it, and finds what that node set
/// unless another changed it in between.
pub proof fn nodes_find_what_was_set_before(
    dag: Dag,
    state: State,
    s: Story,
    i: int,
    j: int,
    e: int,
    key: Seq<char>,
)
    requires
        dag.plan().wf(START@, END@),
        tells(dag, state, s),
        0 <= i < s.works.len(),
        0 <= j < s.works.len(),
        0 <= e < dag.plan().edges@.len(),
        dag.plan().edges@[e].0 == s.works[i].node,
        dag.plan().edges@[e].1 == s.works[j].node,
        s.works[i].after.contains_key(key),
        !left_alone(s, i, key),
        forall|h: int| i < h < j ==> #[trigger] left_alone(s, h, key),
    ensures
        i < s.works[j].from <= j,
        s.works[j].base.contains_key(key),
        s.works[j].base[key] == s.works[i].after[key],
{
    let rank = lemma_rank(dag);
    assert(tells_work(dag, s, i));
    assert(tells_work(dag, s, j));
    lemma_level_is_rank(dag, rank, s, i);
    lemma_level_is_rank(dag, rank, s, j);
    assert(s.works[i].level < s.works[j].level);
    if j < i {
        assert(s.works[j].level <= s.works[i].level);
    }
    assert(s.works[j].from <= i < s.works[j].to <==> s.works[j].level == s.works[i].level);
    entries_stay_until_they_are_changed(dag, s, i + 1, s.works[j].from, key);
}

proof fn lemma_level_is_rank(dag: Dag, rank: Seq<nat>, s: Story, i: int)
    requires
        ranked(dag.plan().names@.len(), dag.plan().edges@, level_views(dag.plan().levels@), rank),
        0 <= i < s.works.len(),
        tells_work(dag, s, i),
    ensures
        rank[s.works[i].node] == s.works[i].level,
{
    let w = s.works[i];
    let level = dag.plan().levels@[w.level]@;
    assert(dag.plan().names.len() == dag.plan().names@.len());
    let h = choose|h: int| 0 <= h < level.len() && level[h] == w.node as usize;
    assert(level_views(dag.plan().levels@)[w.level][h] == w.node as usize);
}

/// An entry that is text is read as that text, and any other as an empty one.
pub proof fn entries_are_read(state: State, key: Seq<char>, text: Seq<char>)
    ensures
        state.contains_key(key) && state[key] == JsonView::Str(text) ==> text_of(state, key)
            == text,
        !state.contains_key(key) ==> text_of(state, key).len() == 0,
{
}

} // verus!

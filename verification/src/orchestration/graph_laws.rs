//! What a walk through a graph does, from its entry to its end.

use crate::error::{ErrorView, Outcome};
use crate::orchestration::dag::{written, State};
use crate::orchestration::graph::{
    branches_keep_each_others_writes, branches_work, fan_moves, fans_out, follows, has_edge,
    missing_branch, moves, next_node, untouched, walks, works_to, Draft, Edge,
    GraphTask, NextView,
};
use vstd::prelude::*;

verus! {

// ---------------------------------------------------------------------
// Edges
// ---------------------------------------------------------------------

/// Whether an edge may be passed over: it leaves another node, or its condition may
/// not hold.
pub open spec fn may_pass_over(edge: Edge, from: Seq<char>, state: State) -> bool {
    edge.source@ != from || (edge.condition matches Some(c) && c.rule.answers(state, false))
}

/// Whether an edge may be taken: it leaves the node, and it has no condition or one
/// that may hold.
pub open spec fn may_take(edge: Edge, from: Seq<char>, state: State) -> bool {
    edge.source@ == from && (edge.condition is None || edge.condition->0.rule.answers(state, true))
}

/// Whether the e-th edge is the first of a node that may be taken.
pub open spec fn takes(edges: Seq<Edge>, from: Seq<char>, state: State, e: int) -> bool {
    &&& 0 <= e < edges.len()
    &&& may_take(edges[e], from, state)
    &&& forall|j: int| 0 <= j < e ==> may_pass_over(#[trigger] edges[j], from, state)
}

/// Whether no edge of a node may be taken.
pub open spec fn takes_none(edges: Seq<Edge>, from: Seq<char>, state: State) -> bool {
    forall|j: int| 0 <= j < edges.len() ==> may_pass_over(#[trigger] edges[j], from, state)
}

/// The walk takes the first edge of a node that it may take, in the order in which
/// edges were declared, and fails only if it may take none.
pub proof fn the_first_open_edge_is_taken(
    edges: Seq<Edge>,
    from: Seq<char>,
    state: State,
    out: Outcome<Seq<char>>,
)
    requires
        next_node(edges, from, state, out),
    ensures
        out matches Ok(target) ==> exists|e: int| #[trigger]
            takes(edges, from, state, e) && edges[e].target@ == target,
        out is Err ==> takes_none(edges, from, state),
{
    if has_edge(edges, from) {
        lemma_follows(edges, from, state, out);
    } else {
        assert forall|j: int| 0 <= j < edges.len() implies may_pass_over(
            #[trigger] edges[j],
            from,
            state,
        ) by {
            assert(edges[j].source@ != from);
        }
    }
}

proof fn lemma_follows(
    edges: Seq<Edge>,
    from: Seq<char>,
    state: State,
    out: Outcome<Seq<char>>,
)
    requires
        follows(edges, from, state, out),
    ensures
        out matches Ok(target) ==> exists|e: int| #[trigger]
            takes(edges, from, state, e) && edges[e].target@ == target,
        out is Err ==> takes_none(edges, from, state),
    decreases edges.len(),
{
    if edges.len() > 0 {
        let rest = edges.skip(1);
        if may_take(edges[0], from, state) && out == Ok::<Seq<char>, ErrorView>(edges[0].target@) {
            assert(takes(edges, from, state, 0));
        } else {
            if edges[0].source@ == from {
                let c = edges[0].condition->0;
                let b = choose|b: bool|
                    {
                        &&& #[trigger] c.rule.answers(state, b)
                        &&& if b {
                            out == Ok::<Seq<char>, ErrorView>(edges[0].target@)
                        } else {
                            follows(rest, from, state, out)
                        }
                    };
                assert(!b);
            }
            assert(may_pass_over(edges[0], from, state));
            lemma_follows(rest, from, state, out);
            match out {
                Ok(target) => {
                    let e = choose|e: int| #[trigger]
                        takes(rest, from, state, e) && rest[e].target@ == target;
                    assert forall|j: int| 0 <= j < e + 1 implies may_pass_over(
                        #[trigger] edges[j],
                        from,
                        state,
                    ) by {
                        if j > 0 {
                            assert(rest[j - 1] == edges[j]);
                        }
                    }
                    assert(takes(edges, from, state, e + 1));
                },
                Err(_) => {
                    assert forall|j: int| 0 <= j < edges.len() implies may_pass_over(
                        #[trigger] edges[j],
                        from,
                        state,
                    ) by {
                        if j > 0 {
                            assert(rest[j - 1] == edges[j]);
                        }
                    }
                },
            }
        }
    }
}

// ---------------------------------------------------------------------
// Fan-outs
// ---------------------------------------------------------------------

/// Whether two states say the same of an entry.
pub open spec fn alike(a: State, b: State, key: Seq<char>) -> bool {
    a.contains_key(key) == b.contains_key(key) && (a.contains_key(key) ==> a[key] == b[key])
}

/// Whether a branch set an entry to something else than it was.
pub open spec fn set_anew(base: State, after: State, key: Seq<char>) -> bool {
    after.contains_key(key) && !(base.contains_key(key) && base[key] == after[key])
}

/// Whether no branch from the one at a position on set an entry anew.
pub open spec fn none_sets(base: State, afters: Seq<State>, from: int, key: Seq<char>) -> bool {
    forall|j: int| from <= j < afters.len() ==> !set_anew(base, #[trigger] afters[j], key)
}

/// Whether every branch worked on the state and what each set is in the result: an
/// entry is what the last branch that set it anew left, and stays if none did.
pub open spec fn fanned(
    nodes: Map<Seq<char>, GraphTask>,
    branches: Seq<Seq<char>>,
    base: State,
    merged: State,
    afters: Seq<State>,
) -> bool {
    &&& afters.len() == branches.len()
    &&& forall|i: int|
        0 <= i < branches.len() ==> nodes.contains_key(#[trigger] branches[i]) && works_to(
            nodes[branches[i]],
            base,
            afters[i],
        )
    &&& forall|key: Seq<char>| #[trigger]
        none_sets(base, afters, 0, key) ==> alike(base, merged, key)
    &&& forall|i: int, key: Seq<char>|
        0 <= i < afters.len() && #[trigger] set_anew(base, afters[i], key) && none_sets(
            base,
            afters,
            i + 1,
            key,
        ) ==> merged.contains_key(key) && merged[key] == afters[i][key]
}

proof fn lemma_missing_branch(nodes: Map<Seq<char>, GraphTask>, branches: Seq<Seq<char>>)
    ensures
        missing_branch(nodes, branches) is None <==> forall|i: int|
            0 <= i < branches.len() ==> nodes.contains_key(#[trigger] branches[i]),
    decreases branches.len(),
{
    if branches.len() > 0 {
        let rest = branches.skip(1);
        lemma_missing_branch(nodes, rest);
        assert(forall|i: int| 0 <= i < rest.len() ==> rest[i] == #[trigger] branches[i + 1]);
        if nodes.contains_key(branches[0]) && missing_branch(nodes, rest) is None {
            assert forall|i: int| 0 <= i < branches.len() implies nodes.contains_key(
                #[trigger] branches[i],
            ) by {
                if i > 0 {
                    assert(rest[i - 1] == branches[i]);
                }
            }
        }
    }
}

/// When a fan-out ends well, every branch was a node and worked on the same state,
/// and what each set is in the result.
pub proof fn every_branch_works(
    nodes: Map<Seq<char>, GraphTask>,
    branches: Seq<Seq<char>>,
    base: State,
    merged: State,
) -> (afters: Seq<State>)
    requires
        fans_out(nodes, branches, base, Ok(merged)),
    ensures
        fanned(nodes, branches, base, merged, afters),
{
    lemma_missing_branch(nodes, branches);
    let afters = branches_keep_each_others_writes(nodes, branches, base, base, merged);
    assert forall|key: Seq<char>| #[trigger] none_sets(base, afters, 0, key) implies alike(
        base,
        merged,
        key,
    ) by {
        assert forall|j: int| 0 <= j < afters.len() implies !written(
            base,
            #[trigger] afters[j],
        ).contains_key(key) by {
            assert(!set_anew(base, afters[j], key));
        }
        assert(untouched(base, afters, 0, key));
        assert(merged.contains_key(key) == base.contains_key(key));
    }
    assert forall|i: int, key: Seq<char>|
        0 <= i < afters.len() && #[trigger] set_anew(base, afters[i], key) && none_sets(
            base,
            afters,
            i + 1,
            key,
        ) implies merged.contains_key(key) && merged[key] == afters[i][key] by {
        assert(written(base, afters[i]).contains_key(key));
        assert forall|j: int| i + 1 <= j < afters.len() implies !written(
            base,
            #[trigger] afters[j],
        ).contains_key(key) by {
            assert(!set_anew(base, afters[j], key));
        }
        assert(untouched(base, afters, i + 1, key));
    }
    assert forall|i: int| 0 <= i < branches.len() implies nodes.contains_key(
        #[trigger] branches[i],
    ) && works_to(nodes[branches[i]], base, afters[i]) by {}
    afters
}

/// Whether a fan-out may fail: a branch is not a node, or may fail.
pub open spec fn may_miss(
    nodes: Map<Seq<char>, GraphTask>,
    branches: Seq<Seq<char>>,
    base: State,
) -> bool {
    exists|i: int|
        0 <= i < branches.len() && (!nodes.contains_key(#[trigger] branches[i]) || exists|
            after: State,
            e: ErrorView,
        | #[trigger]
            nodes[branches[i]].node.step(base, after, Err(e)))
}

proof fn lemma_branches_fail(
    nodes: Map<Seq<char>, GraphTask>,
    branches: Seq<Seq<char>>,
    base: State,
    merged: State,
    e: ErrorView,
)
    requires
        branches_work(nodes, branches, base, merged, Err(e)),
    ensures
        may_miss(nodes, branches, base),
    decreases branches.len(),
{
    if branches.len() > 0 {
        let out = Err::<State, ErrorView>(e);
        let (after, r) = choose|after: State, r: Outcome<NextView>|
            {
                &&& #[trigger] nodes[branches[0]].node.step(base, after, r)
                &&& match r {
                    Ok(_) => branches_work(
                        nodes,
                        branches.skip(1),
                        base,
                        merged.union_prefer_right(written(base, after)),
                        out,
                    ),
                    Err(x) => out == Err::<State, ErrorView>(x),
                }
            };
        match r {
            Ok(_) => {
                let rest = branches.skip(1);
                lemma_branches_fail(
                    nodes,
                    rest,
                    base,
                    merged.union_prefer_right(written(base, after)),
                    e,
                );
                let i = choose|i: int|
                    0 <= i < rest.len() && (!nodes.contains_key(#[trigger] rest[i]) || exists|
                        after: State,
                        e: ErrorView,
                    | #[trigger]
                        nodes[rest[i]].node.step(base, after, Err(e)));
                assert(rest[i] == branches[i + 1]);
            },
            Err(x) => {
                assert(nodes[branches[0]].node.step(base, after, Err(x)));
            },
        }
    }
}

proof fn lemma_fan_out_fails(
    nodes: Map<Seq<char>, GraphTask>,
    branches: Seq<Seq<char>>,
    base: State,
    e: ErrorView,
)
    requires
        fans_out(nodes, branches, base, Err(e)),
    ensures
        may_miss(nodes, branches, base),
{
    lemma_missing_branch(nodes, branches);
    if missing_branch(nodes, branches) is None {
        lemma_branches_fail(nodes, branches, base, base, e);
    }
}

// ---------------------------------------------------------------------
// Walks
// ---------------------------------------------------------------------

/// One node of a walk: the state that it found, the state that it left, what it
/// answered, and how many nodes could still run, itself among them.
pub struct Visit {
    pub node: Seq<char>,
    pub before: State,
    pub after: State,
    pub answer: Outcome<NextView>,
    pub left: nat,
}

/// Whether a visit was made: there is such a node, it could still run, and it may do
/// this.
pub open spec fn visited(g: Draft, v: Visit) -> bool {
    &&& v.left > 0
    &&& g.nodes.contains_key(v.node)
    &&& g.nodes[v.node].node.step(v.before, v.after, v.answer)
}

/// Whether a visit leads to a node, with a state and so many nodes left to run: where
/// the node said, or along the first edge that may be taken, with the state that it
/// left; or to the node behind a fan-out, with what the branches made of that state.
pub open spec fn leads_to(
    g: Draft,
    v: Visit,
    node: Seq<char>,
    state: State,
    left: nat,
) -> bool {
    match v.answer {
        Ok(NextView::Route(t)) => node == t && state == v.after && left + 1 == v.left,
        Ok(NextView::Continue) => state == v.after && left + 1 == v.left && exists|e: int|
            #[trigger] takes(g.edges, v.node, v.after, e) && g.edges[e].target@ == node,
        Ok(NextView::FanOut { branches, merge }) => node == merge && left + 1 + branches.len()
            == v.left && exists|afters: Seq<State>| #[trigger]
            fanned(g.nodes, branches, v.after, state, afters),
        _ => false,
    }
}

/// Whether a walk cannot go on behind a visit: no edge may be taken, the nodes that
/// are left to run are not enough for a fan-out, or a branch may fail.
pub open spec fn breaks_off(g: Draft, v: Visit) -> bool {
    match v.answer {
        Ok(NextView::Continue) => takes_none(g.edges, v.node, v.after),
        Ok(NextView::FanOut { branches, .. }) => branches.len() + 1 > v.left || may_miss(
            g.nodes,
            branches,
            v.after,
        ),
        _ => false,
    }
}

/// Whether a walk has nowhere to go: no node is left to run, or there is no such node.
pub open spec fn nowhere(g: Draft, node: Seq<char>, left: nat) -> bool {
    left == 0 || !g.nodes.contains_key(node)
}

/// Whether a walk ended in this way behind its last visit. It ends well only if the
/// node says that the walk is done, with the state that the node left.
pub open spec fn ends(g: Draft, v: Visit, out: Outcome<State>) -> bool {
    match out {
        Ok(state) => v.answer == Ok::<NextView, ErrorView>(NextView::Done) && state == v.after,
        Err(e) => {
            ||| v.answer == Err::<NextView, ErrorView>(e)
            ||| breaks_off(g, v)
            ||| exists|node: Seq<char>, state: State, left: nat| #[trigger]
                leads_to(g, v, node, state, left) && nowhere(g, node, left)
        },
    }
}

/// Whether a walk from a node went in this way.
pub open spec fn walked(
    g: Draft,
    current: Seq<char>,
    state: State,
    left: nat,
    visits: Seq<Visit>,
    out: Outcome<State>,
) -> bool {
    &&& forall|i: int| 0 <= i < visits.len() ==> visited(g, #[trigger] visits[i])
    &&& forall|i: int, j: int|
        0 <= i && j == i + 1 && j < visits.len() ==> leads_to(
            g,
            #[trigger] visits[i],
            (#[trigger] visits[j]).node,
            visits[j].before,
            visits[j].left,
        )
    &&& if visits.len() == 0 {
        out is Err && nowhere(g, current, left)
    } else {
        &&& visits[0].node == current
        &&& visits[0].before == state
        &&& visits[0].left == left
        &&& ends(g, visits.last(), out)
    }
}

proof fn lemma_one_visit(
    g: Draft,
    current: Seq<char>,
    state: State,
    left: nat,
    v: Visit,
    out: Outcome<State>,
)
    requires
        visited(g, v),
        v.node == current,
        v.before == state,
        v.left == left,
        ends(g, v, out),
    ensures
        walked(g, current, state, left, seq![v], out),
{
}

proof fn lemma_visit_before(
    g: Draft,
    v: Visit,
    node: Seq<char>,
    state: State,
    left: nat,
    rest: Seq<Visit>,
    out: Outcome<State>,
) -> (visits: Seq<Visit>)
    requires
        visited(g, v),
        leads_to(g, v, node, state, left),
        walked(g, node, state, left, rest, out),
    ensures
        walked(g, v.node, v.before, v.left, visits, out),
{
    let visits = seq![v] + rest;
    assert forall|i: int| 0 <= i < visits.len() implies visited(g, #[trigger] visits[i]) by {
        if i > 0 {
            assert(visits[i] == rest[i - 1]);
        }
    }
    assert forall|i: int, j: int| 0 <= i && j == i + 1 && j < visits.len() implies leads_to(
        g,
        #[trigger] visits[i],
        (#[trigger] visits[j]).node,
        visits[j].before,
        visits[j].left,
    ) by {
        assert(visits[j] == rest[j - 1]);
        if i > 0 {
            assert(visits[i] == rest[i - 1]);
        }
    }
    if rest.len() > 0 {
        assert(visits.last() == rest.last());
    } else {
        assert(visits.last() == v);
        assert(ends(g, v, out));
    }
    visits
}

/// A walk visits node after node, each on the state that the one before it left, and
/// goes where a node routes it, along the first edge that may be taken, or through all
/// branches of a fan-out to the node behind it. It ends well exactly where a node says
/// that it is done. No more nodes run than may, with branches counted.
pub proof fn walks_are_told(
    g: Draft,
    current: Seq<char>,
    state: State,
    left: nat,
    out: Outcome<State>,
) -> (visits: Seq<Visit>)
    requires
        walks(g, current, state, left, out),
    ensures
        walked(g, current, state, left, visits, out),
    decreases left,
{
    if left == 0 || !g.nodes.contains_key(current) {
        Seq::empty()
    } else {
        let (after, answer) = choose|after: State, r: Outcome<NextView>|
            {
                &&& #[trigger] g.nodes[current].node.step(state, after, r)
                &&& moves(g, current, after, r, left, out)
            };
        let v = Visit { node: current, before: state, after, answer, left };
        assert(visited(g, v));
        match answer {
            Err(e) => {
                lemma_one_visit(g, current, state, left, v, out);
                seq![v]
            },
            Ok(NextView::Done) => {
                lemma_one_visit(g, current, state, left, v, out);
                seq![v]
            },
            Ok(NextView::Route(t)) => {
                let rest = walks_are_told(g, t, after, (left - 1) as nat, out);
                lemma_visit_before(g, v, t, after, (left - 1) as nat, rest, out)
            },
            Ok(NextView::Continue) => {
                let next = choose|next: Outcome<Seq<char>>|
                    {
                        &&& #[trigger] next_node(g.edges, current, after, next)
                        &&& match next {
                            Ok(t) => walks(g, t, after, (left - 1) as nat, out),
                            Err(e) => out == Err::<State, ErrorView>(e),
                        }
                    };
                the_first_open_edge_is_taken(g.edges, current, after, next);
                match next {
                    Ok(t) => {
                        let rest = walks_are_told(g, t, after, (left - 1) as nat, out);
                        lemma_visit_before(g, v, t, after, (left - 1) as nat, rest, out)
                    },
                    Err(_) => {
                        lemma_one_visit(g, current, state, left, v, out);
                        seq![v]
                    },
                }
            },
            Ok(NextView::FanOut { branches, merge }) => {
                assert(fan_moves(g, branches, merge, after, left, out));
                if branches.len() + 1 > left {
                    lemma_one_visit(g, current, state, left, v, out);
                    seq![v]
                } else {
                    let mid = choose|mid: Outcome<State>|
                        {
                            &&& #[trigger] fans_out(g.nodes, branches, after, mid)
                            &&& match mid {
                                Ok(s) => walks(
                                    g,
                                    merge,
                                    s,
                                    (left - 1 - branches.len()) as nat,
                                    out,
                                ),
                                Err(e) => out == Err::<State, ErrorView>(e),
                            }
                        };
                    match mid {
                        Ok(s) => {
                            let afters = every_branch_works(g.nodes, branches, after, s);
                            assert(fanned(g.nodes, branches, after, s, afters));
                            let n = (left - 1 - branches.len()) as nat;
                            assert(leads_to(g, v, merge, s, n));
                            let rest = walks_are_told(g, merge, s, n, out);
                            lemma_visit_before(g, v, merge, s, n, rest, out)
                        },
                        Err(e) => {
                            lemma_fan_out_fails(g.nodes, branches, after, e);
                            lemma_one_visit(g, current, state, left, v, out);
                            seq![v]
                        },
                    }
                }
            },
        }
    }
}

} // verus!

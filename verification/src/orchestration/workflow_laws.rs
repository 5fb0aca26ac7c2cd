//! What a run of a workflow is good for: what arrives at a node, which nodes work,
//! and what the result is made of.

use crate::error::{ErrorView, Outcome};
use crate::json::JsonView;
use crate::orchestration::toposort::{level_views, ranked};
use crate::orchestration::workflow::{
    assembled, carried, initial_outputs, lemma_mapped_concat, mapped, pair_maps, pair_open, ready,
    ready_nodes, ready_nodes_have_all_inputs, runs_from, works, Members, Workflow, END, START,
};
use vstd::prelude::*;

verus! {

/// Pairs of a source field and a target field.
pub type Fields = Seq<(Seq<char>, Seq<char>)>;

/// The member of an output under a name.
pub open spec fn held(output: JsonView, name: Seq<char>) -> Option<JsonView> {
    match output {
        JsonView::Object(m) => if m.contains_key(name) {
            Some(m[name])
        } else {
            None
        },
        _ => None,
    }
}

/// What the `i`-th mapping of an edge sends: the value of its source field, if the
/// source of the edge has an output with that field.
pub open spec fn sent(
    edges: Seq<(usize, usize)>,
    maps: Seq<Fields>,
    outputs: Seq<Option<JsonView>>,
    e: int,
    i: int,
) -> Option<JsonView> {
    match outputs[edges[e].0 as int] {
        Some(output) => held(output, maps[e][i].0),
        None => None,
    }
}

/// Whether the `i`-th mapping of an edge sets a field of a node.
pub open spec fn sets(
    edges: Seq<(usize, usize)>,
    maps: Seq<Fields>,
    outputs: Seq<Option<JsonView>>,
    node: int,
    e: int,
    i: int,
    field: Seq<char>,
) -> bool {
    &&& 0 <= e < edges.len()
    &&& edges[e].1 == node
    &&& 0 <= i < maps[e].len()
    &&& maps[e][i].1 == field
    &&& sent(edges, maps, outputs, e, i) is Some
}

/// What an edge passes on under a name: the member of the output of its source.
pub open spec fn passed_on(
    edges: Seq<(usize, usize)>,
    outputs: Seq<Option<JsonView>>,
    e: int,
    field: Seq<char>,
) -> Option<JsonView> {
    match outputs[edges[e].0 as int] {
        Some(output) => held(output, field),
        None => None,
    }
}

/// Whether an edge without mappings passes a field on to a node.
pub open spec fn passes(
    edges: Seq<(usize, usize)>,
    maps: Seq<Fields>,
    outputs: Seq<Option<JsonView>>,
    node: int,
    e: int,
    field: Seq<char>,
) -> bool {
    &&& 0 <= e < edges.len()
    &&& edges[e].1 == node
    &&& maps[e].len() == 0
    &&& passed_on(edges, outputs, e, field) is Some
}

/// Whether the last edge between two nodes stands behind every edge between two
/// others.
pub open spec fn ends_later(
    edges: Seq<(usize, usize)>,
    one: (usize, usize),
    other: (usize, usize),
) -> bool {
    exists|k: int|
        {
            &&& 0 <= k < edges.len()
            &&& #[trigger] edges[k] == one
            &&& forall|h: int| 0 <= h < edges.len() && #[trigger] edges[h] == other ==> h < k
        }
}

/// Where the value of a field comes from: an edge, and one of its mappings or none.
pub struct Origin {
    pub edge: int,
    pub mapping: Option<int>,
}

/// Whether the value of a field comes from an origin: nothing that also sets or
/// passes the field on comes later. Between two nodes mappings count over what is
/// passed on, and the later mapping over the earlier.
pub open spec fn comes_from(
    edges: Seq<(usize, usize)>,
    maps: Seq<Fields>,
    outputs: Seq<Option<JsonView>>,
    node: int,
    field: Seq<char>,
    o: Origin,
) -> bool {
    &&& match o.mapping {
        Some(i) => sets(edges, maps, outputs, node, o.edge, i, field),
        None => passes(edges, maps, outputs, node, o.edge, field),
    }
    &&& forall|e: int, i: int| #[trigger]
        sets(edges, maps, outputs, node, e, i, field) ==> if edges[e] == edges[o.edge] {
            o.mapping is Some && (e < o.edge || e == o.edge && i <= o.mapping->0)
        } else {
            ends_later(edges, edges[o.edge], edges[e])
        }
    &&& forall|e: int| #[trigger]
        passes(edges, maps, outputs, node, e, field) ==> edges[e] == edges[o.edge] || ends_later(
            edges,
            edges[o.edge],
            edges[e],
        )
}

// ---------------------------------------------------------------------
// Assembling
// ---------------------------------------------------------------------

proof fn lemma_mapped(maps: Fields, value: JsonView, input: Members, field: Seq<char>) -> (i: int)
    ensures
        -1 <= i < maps.len(),
        i >= 0 ==> {
            &&& maps[i].1 == field
            &&& held(value, maps[i].0) is Some
            &&& mapped(maps, value, input).contains_key(field)
            &&& mapped(maps, value, input)[field] == held(value, maps[i].0)->0
        },
        i < 0 ==> {
            &&& mapped(maps, value, input).contains_key(field) == input.contains_key(field)
            &&& input.contains_key(field) ==> mapped(maps, value, input)[field] == input[field]
        },
        forall|j: int|
            i < j < maps.len() && (#[trigger] maps[j]).1 == field ==> held(value, maps[j].0) is None,
    decreases maps.len(),
{
    if maps.len() == 0 {
        -1
    } else {
        let last = maps.len() - 1;
        assert(value.field(maps.last().0) == held(value, maps[last].0));
        let i = lemma_mapped(maps.drop_last(), value, input, field);
        assert(forall|j: int| 0 <= j < last ==> maps.drop_last()[j] == #[trigger] maps[j]);
        if maps[last].1 == field && held(value, maps[last].0) is Some {
            last
        } else {
            i
        }
    }
}

/// The last mapping between two nodes, among the first `n` edges, that sets a field.
spec fn is_last(
    edges: Seq<(usize, usize)>,
    maps: Seq<Fields>,
    pair: (usize, usize),
    value: JsonView,
    field: Seq<char>,
    n: int,
    e: int,
    i: int,
) -> bool {
    &&& e >= 0 ==> {
        &&& e < n
        &&& edges[e] == pair
        &&& 0 <= i < maps[e].len()
        &&& maps[e][i].1 == field
        &&& held(value, maps[e][i].0) is Some
    }
    &&& forall|d: int, j: int|
        0 <= d < n && edges[d] == pair && 0 <= j < maps[d].len() && (#[trigger] maps[d][j]).1
            == field && held(value, maps[d][j].0) is Some ==> e >= 0 && (d < e || d == e && j <= i)
}

proof fn lemma_pair_mapped(
    edges: Seq<(usize, usize)>,
    maps: Seq<Fields>,
    pair: (usize, usize),
    value: JsonView,
    input: Members,
    field: Seq<char>,
    n: nat,
) -> (at: (int, int))
    requires
        n <= edges.len(),
        edges.len() == maps.len(),
    ensures
        -1 <= at.0,
        is_last(edges, maps, pair, value, field, n as int, at.0, at.1),
        ({
            let m = mapped(pair_maps(edges, maps, pair, n), value, input);
            if at.0 >= 0 {
                m.contains_key(field) && m[field] == held(value, maps[at.0][at.1].0)->0
            } else {
                m.contains_key(field) == input.contains_key(field) && (input.contains_key(field)
                    ==> m[field] == input[field])
            }
        }),
    decreases n,
{
    if n == 0 {
        (-1, 0)
    } else {
        let p = (n - 1) as nat;
        let before = pair_maps(edges, maps, pair, p);
        let at = lemma_pair_mapped(edges, maps, pair, value, input, field, p);
        if edges[n - 1] == pair {
            lemma_mapped_concat(before, maps[n - 1], value, input);
            let i = lemma_mapped(maps[n - 1], value, mapped(before, value, input), field);
            if i >= 0 {
                assert forall|d: int, j: int|
                    0 <= d < n && edges[d] == pair && 0 <= j < maps[d].len() && (
                    #[trigger] maps[d][j]).1 == field && held(value, maps[d][j].0) is Some implies d
                    < n - 1 || d == n - 1 && j <= i by {}
                (n - 1, i)
            } else {
                at
            }
        } else {
            at
        }
    }
}

/// What becomes of a field when the edges between two nodes carry a value over.
spec fn carries(
    edges: Seq<(usize, usize)>,
    maps: Seq<Fields>,
    pair: (usize, usize),
    value: JsonView,
    input: Members,
    field: Seq<char>,
    at: (int, int),
) -> bool {
    let m = carried(edges, maps, pair, value, input);
    &&& -1 <= at.0
    &&& is_last(edges, maps, pair, value, field, edges.len() as int, at.0, at.1)
    &&& if at.0 >= 0 {
        m.contains_key(field) && m[field] == held(value, maps[at.0][at.1].0)->0
    } else if held(value, field) is Some && exists|e: int|
        0 <= e < edges.len() && #[trigger] edges[e] == pair && maps[e].len() == 0 {
        m.contains_key(field) && m[field] == held(value, field)->0
    } else {
        m.contains_key(field) == input.contains_key(field) && (input.contains_key(field)
            ==> m[field] == input[field])
    }
}

proof fn lemma_carried(
    edges: Seq<(usize, usize)>,
    maps: Seq<Fields>,
    pair: (usize, usize),
    value: JsonView,
    input: Members,
    field: Seq<char>,
) -> (at: (int, int))
    requires
        edges.len() == maps.len(),
    ensures
        carries(edges, maps, pair, value, input, field, at),
{
    let start = if pair_open(edges, maps, pair) {
        crate::orchestration::workflow::passed(value, input)
    } else {
        input
    };
    lemma_pair_mapped(edges, maps, pair, value, start, field, edges.len())
}

/// Where a field comes from after the first `n` edges. An edge counts if one of
/// these joins the same nodes.
spec fn comes_so_far(
    edges: Seq<(usize, usize)>,
    maps: Seq<Fields>,
    outputs: Seq<Option<JsonView>>,
    node: int,
    field: Seq<char>,
    n: int,
    w: Option<(Origin, int)>,
) -> bool {
    match w {
        None => {
            &&& forall|e: int, i: int| #[trigger]
                sets(edges, maps, outputs, node, e, i, field) ==> !seen(edges, edges[e], 0, n)
            &&& forall|e: int| #[trigger]
                passes(edges, maps, outputs, node, e, field) ==> !seen(edges, edges[e], 0, n)
        },
        Some((o, k)) => {
            &&& 0 <= k < n
            &&& edges[k] == edges[o.edge]
            &&& match o.mapping {
                Some(i) => sets(edges, maps, outputs, node, o.edge, i, field),
                None => passes(edges, maps, outputs, node, o.edge, field),
            }
            &&& forall|e: int, i: int| #[trigger]
                sets(edges, maps, outputs, node, e, i, field) ==> if edges[e] == edges[o.edge] {
                    o.mapping is Some && (e < o.edge || e == o.edge && i <= o.mapping->0)
                } else {
                    !seen(edges, edges[e], k, n)
                }
            &&& forall|e: int| #[trigger]
                passes(edges, maps, outputs, node, e, field) ==> edges[e] == edges[o.edge]
                    || !seen(edges, edges[e], k, n)
        },
    }
}

/// Whether one of the edges from position `k` to `n` joins two nodes.
spec fn seen(edges: Seq<(usize, usize)>, pair: (usize, usize), k: int, n: int) -> bool {
    exists|h: int| k <= h < n && #[trigger] edges[h] == pair
}

spec fn value_from(
    edges: Seq<(usize, usize)>,
    maps: Seq<Fields>,
    outputs: Seq<Option<JsonView>>,
    field: Seq<char>,
    o: Origin,
) -> Option<JsonView> {
    match o.mapping {
        Some(i) => sent(edges, maps, outputs, o.edge, i),
        None => passed_on(edges, outputs, o.edge, field),
    }
}

proof fn lemma_seen_grows(edges: Seq<(usize, usize)>, pair: (usize, usize), k: int, n: int)
    requires
        0 <= k < n <= edges.len(),
    ensures
        seen(edges, pair, k, n) == (seen(edges, pair, k, n - 1) || edges[n - 1] == pair),
{
    if seen(edges, pair, k, n) {
        let h = choose|h: int| k <= h < n && #[trigger] edges[h] == pair;
        if h < n - 1 {
            assert(seen(edges, pair, k, n - 1));
        }
    }
    if seen(edges, pair, k, n - 1) {
        let h = choose|h: int| k <= h < n - 1 && #[trigger] edges[h] == pair;
        assert(edges[h] == pair);
    }
}

#[verifier::spinoff_prover]
proof fn lemma_assembled(
    edges: Seq<(usize, usize)>,
    maps: Seq<Fields>,
    outputs: Seq<Option<JsonView>>,
    node: int,
    field: Seq<char>,
    n: nat,
) -> (w: Option<(Origin, int)>)
    requires
        n <= edges.len(),
        edges.len() == maps.len(),
    ensures
        comes_so_far(edges, maps, outputs, node, field, n as int, w),
        ({
            let m = assembled(edges, maps, outputs, node, n);
            match w {
                None => !m.contains_key(field),
                Some((o, _)) => m.contains_key(field) && Some(m[field]) == value_from(
                    edges,
                    maps,
                    outputs,
                    field,
                    o,
                ),
            }
        }),
    decreases n,
{
    if n == 0 {
        None
    } else {
        let before = assembled(edges, maps, outputs, node, (n - 1) as nat);
        let w = lemma_assembled(edges, maps, outputs, node, field, (n - 1) as nat);
        let pair = edges[n - 1];
        assert forall|e: int, k: int|
            0 <= e < edges.len() && 0 <= k < n implies #[trigger] seen(edges, edges[e], k, n as int)
            == (seen(edges, edges[e], k, n - 1) || pair == edges[e]) by {
            lemma_seen_grows(edges, edges[e], k, n as int);
        }
        if pair.1 == node && outputs[pair.0 as int] is Some {
            let value = outputs[pair.0 as int]->0;
            let at = lemma_carried(edges, maps, pair, value, before, field);
            lemma_step(edges, maps, outputs, node, field, n, w, at)
        } else {
            assert forall|e: int, i: int| #[trigger]
                sets(edges, maps, outputs, node, e, i, field) implies edges[e] != pair by {}
            assert forall|e: int| #[trigger]
                passes(edges, maps, outputs, node, e, field) implies edges[e] != pair by {}
            w
        }
    }
}

#[verifier::spinoff_prover]
proof fn lemma_step(
    edges: Seq<(usize, usize)>,
    maps: Seq<Fields>,
    outputs: Seq<Option<JsonView>>,
    node: int,
    field: Seq<char>,
    n: nat,
    w: Option<(Origin, int)>,
    at: (int, int),
) -> (x: Option<(Origin, int)>)
    requires
        0 < n <= edges.len(),
        edges.len() == maps.len(),
        comes_so_far(edges, maps, outputs, node, field, n - 1, w),
        edges[n - 1].1 == node,
        outputs[edges[n - 1].0 as int] is Some,
        ({
            let m = assembled(edges, maps, outputs, node, (n - 1) as nat);
            &&& carries(edges, maps, edges[n - 1], outputs[edges[n - 1].0 as int]->0, m, field, at)
            &&& match w {
                None => !m.contains_key(field),
                Some((o, _)) => m.contains_key(field) && Some(m[field]) == value_from(
                    edges,
                    maps,
                    outputs,
                    field,
                    o,
                ),
            }
        }),
        forall|e: int, k: int|
            0 <= e < edges.len() && 0 <= k < n ==> #[trigger] seen(edges, edges[e], k, n as int) == (
            seen(edges, edges[e], k, n - 1) || edges[n - 1] == edges[e]),
    ensures
        comes_so_far(edges, maps, outputs, node, field, n as int, x),
        ({
            let m = carried(
                edges,
                maps,
                edges[n - 1],
                outputs[edges[n - 1].0 as int]->0,
                assembled(edges, maps, outputs, node, (n - 1) as nat),
            );
            match x {
                None => !m.contains_key(field),
                Some((o, _)) => m.contains_key(field) && Some(m[field]) == value_from(
                    edges,
                    maps,
                    outputs,
                    field,
                    o,
                ),
            }
        }),
{
    let pair = edges[n - 1];
    let value = outputs[pair.0 as int]->0;
    let k = n - 1;
    assert forall|e: int| 0 <= e < edges.len() && edges[e] != pair implies !#[trigger] seen(
        edges,
        edges[e],
        k,
        n as int,
    ) by {}
    if at.0 >= 0 {
        let o = Origin { edge: at.0, mapping: Some(at.1) };
        assert(sets(edges, maps, outputs, node, at.0, at.1, field));
        assert forall|e: int, i: int| #[trigger]
            sets(edges, maps, outputs, node, e, i, field) && edges[e] == pair implies e < at.0 || e
            == at.0 && i <= at.1 by {
            assert(maps[e][i].1 == field);
        }
        Some((o, k))
    } else {
        assert forall|e: int, i: int| #[trigger]
            sets(edges, maps, outputs, node, e, i, field) implies edges[e] != pair by {
            if edges[e] == pair {
                assert(maps[e][i].1 == field);
            }
        }
        if held(value, field) is Some && exists|e: int|
            0 <= e < edges.len() && #[trigger] edges[e] == pair && maps[e].len() == 0 {
            let e = choose|e: int|
                0 <= e < edges.len() && #[trigger] edges[e] == pair && maps[e].len() == 0;
            let o = Origin { edge: e, mapping: None };
            assert(passes(edges, maps, outputs, node, e, field));
            Some((o, k))
        } else {
            assert forall|e: int| #[trigger]
                passes(edges, maps, outputs, node, e, field) implies edges[e] != pair by {
                if edges[e] == pair {
                    assert(edges[e] == pair && maps[e].len() == 0);
                }
            }
            w
        }
    }
}

/// The input of a node, and so the result of a workflow, which is the input of the
/// exit point, holds a field exactly if a mapping of an edge into it sets the field
/// or an edge without mappings passes it on, from a source that has an output. Its
/// value is then that of the origin behind which nothing else sets it.
pub proof fn inputs_hold_what_edges_carry(
    edges: Seq<(usize, usize)>,
    maps: Seq<Fields>,
    outputs: Seq<Option<JsonView>>,
    node: int,
    field: Seq<char>,
) -> (o: Option<Origin>)
    requires
        edges.len() == maps.len(),
    ensures
        ({
            let input = assembled(edges, maps, outputs, node, edges.len());
            match o {
                Some(o) => {
                    &&& comes_from(edges, maps, outputs, node, field, o)
                    &&& input.contains_key(field)
                    &&& match o.mapping {
                        Some(i) => Some(input[field]) == sent(edges, maps, outputs, o.edge, i),
                        None => Some(input[field]) == passed_on(edges, outputs, o.edge, field),
                    }
                },
                None => {
                    &&& !input.contains_key(field)
                    &&& forall|e: int, i: int|
                        !#[trigger] sets(edges, maps, outputs, node, e, i, field)
                    &&& forall|e: int| !#[trigger] passes(edges, maps, outputs, node, e, field)
                },
            }
        }),
{
    let n = edges.len() as int;
    let w = lemma_assembled(edges, maps, outputs, node, field, edges.len());
    assert forall|e: int| 0 <= e < n implies #[trigger] seen(edges, edges[e], 0, n) by {
        assert(edges[e] == edges[e]);
    }
    match w {
        None => {
            assert forall|e: int, i: int| !#[trigger]
                sets(edges, maps, outputs, node, e, i, field) by {
                if sets(edges, maps, outputs, node, e, i, field) {
                    assert(seen(edges, edges[e], 0, n));
                }
            }
            assert forall|e: int| !#[trigger] passes(edges, maps, outputs, node, e, field) by {
                if passes(edges, maps, outputs, node, e, field) {
                    assert(seen(edges, edges[e], 0, n));
                }
            }
            None
        },
        Some((o, k)) => {
            assert forall|e: int| 0 <= e < n && !#[trigger] seen(edges, edges[e], k, n) implies
                ends_later(edges, edges[o.edge], edges[e]) by {
                assert(edges[k] == edges[o.edge]);
                assert forall|h: int| 0 <= h < n && #[trigger] edges[h] == edges[e] implies h
                    < k by {
                    if h >= k {
                        assert(seen(edges, edges[e], k, n));
                    }
                }
            }
            Some(o)
        },
    }
}

/// A mapping that alone sets a field of a node, the exit point too, delivers: the
/// input holds the field with the value that the source put out.
pub proof fn lone_mappings_deliver(
    edges: Seq<(usize, usize)>,
    maps: Seq<Fields>,
    outputs: Seq<Option<JsonView>>,
    node: int,
    e: int,
    i: int,
)
    requires
        edges.len() == maps.len(),
        sets(edges, maps, outputs, node, e, i, maps[e][i].1),
        forall|d: int, j: int| #[trigger]
            sets(edges, maps, outputs, node, d, j, maps[e][i].1) ==> d == e && j == i,
        forall|d: int| !#[trigger] passes(edges, maps, outputs, node, d, maps[e][i].1),
    ensures
        assembled(edges, maps, outputs, node, edges.len()).contains_key(maps[e][i].1),
        Some(assembled(edges, maps, outputs, node, edges.len())[maps[e][i].1]) == held(
            outputs[edges[e].0 as int]->0,
            maps[e][i].0,
        ),
{
    let o = inputs_hold_what_edges_carry(edges, maps, outputs, node, maps[e][i].1);
}

// ---------------------------------------------------------------------
// Running
// ---------------------------------------------------------------------

/// Whether a node depends on something, and all that it depends on has an output.
pub open spec fn supplied(wf: Workflow, outputs: Seq<Option<JsonView>>, v: int) -> bool {
    let edges = wf.plan().edges@;
    &&& exists|e: int| 0 <= e < edges.len() && (#[trigger] edges[e]).1 == v
    &&& forall|e: int|
        0 <= e < edges.len() && (#[trigger] edges[e]).1 == v ==> outputs[edges[e].0 as int] is Some
}

/// What a node gets, given the outputs.
pub open spec fn input_of(wf: Workflow, outputs: Seq<Option<JsonView>>, v: int) -> JsonView {
    JsonView::Object(
        assembled(wf.plan().edges@, wf.fields(), outputs, v, wf.plan().edges@.len()),
    )
}

/// Whether these are the outputs of a whole run on an input: the entry point puts
/// the input out, and every node that is supplied, and no other, puts out what it
/// makes of its input.
pub open spec fn tells(wf: Workflow, input: JsonView, outputs: Seq<Option<JsonView>>) -> bool {
    &&& outputs.len() == wf.plan().names@.len()
    &&& outputs[0] == Some(input)
    &&& outputs[1] is None
    &&& forall|v: int|
        2 <= v < outputs.len() ==> (#[trigger] outputs[v] is Some <==> supplied(wf, outputs, v))
    &&& forall|v: int|
        2 <= v < outputs.len() && #[trigger] outputs[v] is Some
            ==> wf.tasks()[wf.plan().names@[v]@].node.answers(
            input_of(wf, outputs, v),
            Ok(outputs[v]->0),
        )
}

/// Whether a node may fail in this way.
pub open spec fn may_fail(wf: Workflow, e: ErrorView) -> bool {
    exists|v: int, input: JsonView|
        2 <= v < wf.plan().names@.len()
            && #[trigger] wf.tasks()[wf.plan().names@[v]@].node.answers(input, Err(e))
}

/// Whether a run on an input that came out as `out` had these outputs.
pub open spec fn told(
    wf: Workflow,
    input: JsonView,
    out: Outcome<JsonView>,
    outputs: Seq<Option<JsonView>>,
) -> bool {
    match out {
        Ok(v) => tells(wf, input, outputs) && v == input_of(wf, outputs, 1),
        Err(e) => may_fail(wf, e),
    }
}

proof fn lemma_same_input(
    edges: Seq<(usize, usize)>,
    maps: Seq<Fields>,
    a: Seq<Option<JsonView>>,
    b: Seq<Option<JsonView>>,
    v: int,
    n: nat,
)
    requires
        n <= edges.len(),
        forall|e: int|
            0 <= e < edges.len() && (#[trigger] edges[e]).1 == v ==> a[edges[e].0 as int]
                == b[edges[e].0 as int],
    ensures
        assembled(edges, maps, a, v, n) == assembled(edges, maps, b, v, n),
    decreases n,
{
    if n > 0 {
        lemma_same_input(edges, maps, a, b, v, (n - 1) as nat);
        assert(edges[n - 1].1 == v ==> a[edges[n - 1].0 as int] == b[edges[n - 1].0 as int]);
    }
}

proof fn lemma_worked(
    wf: Workflow,
    nodes: Seq<usize>,
    base: Seq<Option<JsonView>>,
    outputs: Seq<Option<JsonView>>,
    out: Seq<Option<JsonView>>,
)
    requires
        works(wf, nodes, base, outputs, Ok(out)),
        outputs.len() == wf.plan().names@.len(),
        nodes.no_duplicates(),
        forall|i: int| 0 <= i < nodes.len() ==> (#[trigger] nodes[i]) < wf.plan().names@.len(),
    ensures
        out.len() == outputs.len(),
        forall|v: int|
            0 <= v < out.len() && !nodes.contains(v as usize) ==> #[trigger] out[v] == outputs[v],
        forall|i: int|
            0 <= i < nodes.len() ==> out[#[trigger] nodes[i] as int] is Some
                && wf.tasks()[wf.plan().names@[nodes[i] as int]@].node.answers(
                input_of(wf, base, nodes[i] as int),
                Ok(out[nodes[i] as int]->0),
            ),
    decreases nodes.len(),
{
    if nodes.len() > 0 {
        let name = wf.plan().name_texts()[nodes[0] as int];
        assert(name == wf.plan().names@[nodes[0] as int]@);
        let input = input_of(wf, base, nodes[0] as int);
        let rest = nodes.skip(1);
        let r = choose|r: Outcome<JsonView>|
            {
                &&& #[trigger] wf.tasks()[name].node.answers(input, r)
                &&& match r {
                    Ok(v) => works(
                        wf,
                        rest,
                        base,
                        outputs.update(nodes[0] as int, Some(v)),
                        Ok(out),
                    ),
                    Err(e) => Ok::<Seq<Option<JsonView>>, ErrorView>(out) == Err::<
                        Seq<Option<JsonView>>,
                        ErrorView,
                    >(e),
                }
            };
        let v = r->Ok_0;
        let later = outputs.update(nodes[0] as int, Some(v));
        assert forall|i: int| 0 <= i < rest.len() implies (#[trigger] rest[i])
            < wf.plan().names@.len() by {
            assert(rest[i] == nodes[i + 1]);
        }
        assert(rest.no_duplicates()) by {
            assert forall|a: int, b: int|
                0 <= a < rest.len() && 0 <= b < rest.len() && a != b implies rest[a] != rest[b] by {
                assert(nodes[a + 1] != nodes[b + 1]);
            }
        }
        lemma_worked(wf, rest, base, later, out);
        assert(!rest.contains(nodes[0])) by {
            if rest.contains(nodes[0]) {
                let i = choose|i: int| 0 <= i < rest.len() && rest[i] == nodes[0];
                assert(nodes[i + 1] == nodes[0]);
            }
        }
        assert forall|u: int| 0 <= u < out.len() && !nodes.contains(u as usize) implies
            #[trigger] out[u] == outputs[u] by {
            if rest.contains(u as usize) {
                let i = choose|i: int| 0 <= i < rest.len() && rest[i] == u as usize;
                assert(nodes[i + 1] == u as usize);
            }
            assert(nodes.contains(nodes[0]));
            assert(wf.plan().names.len() == wf.plan().names@.len());
        }
        assert forall|i: int| 0 <= i < nodes.len() implies out[#[trigger] nodes[i] as int] is Some
            && wf.tasks()[wf.plan().names@[nodes[i] as int]@].node.answers(
            input_of(wf, base, nodes[i] as int),
            Ok(out[nodes[i] as int]->0),
        ) by {
            if i > 0 {
                assert(rest[i - 1] == nodes[i]);
            } else {
                assert((nodes[0] as int) as usize == nodes[0]);
                assert(out[nodes[0] as int] == later[nodes[0] as int]);
            }
        }
    }
}

proof fn lemma_working_fails(
    wf: Workflow,
    nodes: Seq<usize>,
    base: Seq<Option<JsonView>>,
    outputs: Seq<Option<JsonView>>,
    e: ErrorView,
)
    requires
        works(wf, nodes, base, outputs, Err(e)),
        forall|i: int| 0 <= i < nodes.len() ==> 2 <= (#[trigger] nodes[i]) < wf.plan().names@.len(),
    ensures
        may_fail(wf, e),
    decreases nodes.len(),
{
    if nodes.len() > 0 {
        let name = wf.plan().name_texts()[nodes[0] as int];
        assert(name == wf.plan().names@[nodes[0] as int]@);
        let input = input_of(wf, base, nodes[0] as int);
        let rest = nodes.skip(1);
        let none = Err::<Seq<Option<JsonView>>, ErrorView>(e);
        let r = choose|r: Outcome<JsonView>|
            {
                &&& #[trigger] wf.tasks()[name].node.answers(input, r)
                &&& match r {
                    Ok(v) => works(
                        wf,
                        rest,
                        base,
                        outputs.update(nodes[0] as int, Some(v)),
                        none,
                    ),
                    Err(x) => none == Err::<Seq<Option<JsonView>>, ErrorView>(x),
                }
            };
        match r {
            Ok(v) => {
                assert forall|i: int| 0 <= i < rest.len() implies 2 <= (#[trigger] rest[i])
                    < wf.plan().names@.len() by {
                    assert(rest[i] == nodes[i + 1]);
                }
                lemma_working_fails(
                    wf,
                    rest,
                    base,
                    outputs.update(nodes[0] as int, Some(v)),
                    e,
                );
            },
            Err(_) => {
                assert(wf.tasks()[wf.plan().names@[nodes[0] as int]@].node.answers(input, Err(e)));
            },
        }
    }
}

/// Whether these are the outputs once the levels before the `k`-th are done.
spec fn so_far(
    wf: Workflow,
    rank: Seq<nat>,
    input: JsonView,
    k: int,
    outputs: Seq<Option<JsonView>>,
) -> bool {
    &&& outputs.len() == wf.plan().names@.len()
    &&& outputs[0] == Some(input)
    &&& outputs[1] is None
    &&& forall|v: int|
        2 <= v < outputs.len() && rank[v] < k ==> (#[trigger] outputs[v] is Some <==> supplied(
            wf,
            outputs,
            v,
        ))
    &&& forall|v: int| 2 <= v < outputs.len() && rank[v] >= k ==> #[trigger] outputs[v] is None
    &&& forall|v: int|
        2 <= v < outputs.len() && #[trigger] outputs[v] is Some
            ==> wf.tasks()[wf.plan().names@[v]@].node.answers(
            input_of(wf, outputs, v),
            Ok(outputs[v]->0),
        )
}

proof fn lemma_ready_distinct(
    edges: Seq<(usize, usize)>,
    level: Seq<usize>,
    outputs: Seq<Option<JsonView>>,
)
    requires
        level.no_duplicates(),
    ensures
        ready_nodes(edges, level, outputs).no_duplicates(),
    decreases level.len(),
{
    if level.len() > 0 {
        let init = level.drop_last();
        lemma_ready_distinct(edges, init, outputs);
        let before = ready_nodes(edges, init, outputs);
        ready_nodes_have_all_inputs(edges, init, outputs, level.last());
        assert(!init.contains(level.last())) by {
            if init.contains(level.last()) {
                let i = choose|i: int| 0 <= i < init.len() && init[i] == level.last();
                assert(level[i] == level[level.len() - 1]);
            }
        }
        let now = ready_nodes(edges, level, outputs);
        if now != before {
            assert(now == before.push(level.last()));
            assert forall|a: int, b: int|
                0 <= a < now.len() && 0 <= b < now.len() && a != b implies now[a] != now[b] by {
                if a == before.len() {
                    assert(before.contains(before[b]));
                } else if b == before.len() {
                    assert(before.contains(before[a]));
                }
            }
        }
    }
}

#[verifier::spinoff_prover]
proof fn lemma_level(
    wf: Workflow,
    rank: Seq<nat>,
    input: JsonView,
    k: int,
    outputs: Seq<Option<JsonView>>,
    nodes: Seq<usize>,
    out: Seq<Option<JsonView>>,
)
    requires
        wf.plan().wf(START@, END@),
        ranked(wf.plan().names@.len(), wf.plan().edges@, level_views(wf.plan().levels@), rank),
        0 <= k < wf.plan().levels@.len(),
        so_far(wf, rank, input, k, outputs),
        nodes == ready_nodes(wf.plan().edges@, wf.plan().levels@[k]@, outputs),
        works(wf, nodes, outputs, outputs, Ok(out)),
    ensures
        so_far(wf, rank, input, k + 1, out),
{
    let edges = wf.plan().edges@;
    let level = wf.plan().levels@[k]@;
    assert(level_views(wf.plan().levels@)[k] == level);
    assert(wf.plan().names.len() == wf.plan().names@.len());
    lemma_ready_distinct(edges, level, outputs);
    assert forall|i: int| 0 <= i < nodes.len() implies 2 <= #[trigger] nodes[i]
        < wf.plan().names@.len() && rank[nodes[i] as int] == k by {
        ready_nodes_have_all_inputs(edges, level, outputs, nodes[i]);
        assert(nodes.contains(nodes[i]));
        let j = choose|j: int| 0 <= j < level.len() && level[j] == nodes[i];
        assert(level_views(wf.plan().levels@)[k][j] == nodes[i]);
    }
    lemma_worked(wf, nodes, outputs, outputs, out);
    assert forall|v: int| 0 <= v < out.len() && (v < 2 || rank[v] != k) implies #[trigger] out[v]
        == outputs[v] by {
        if nodes.contains(v as usize) {
            let i = choose|i: int| 0 <= i < nodes.len() && nodes[i] == v as usize;
            assert(rank[nodes[i] as int] == k);
        }
    }
    assert forall|v: int| 2 <= v < out.len() && rank[v] <= k implies (#[trigger] out[v] is Some
        <==> supplied(wf, out, v)) && (out[v] is Some
        ==> wf.tasks()[wf.plan().names@[v]@].node.answers(input_of(wf, out, v), Ok(out[v]->0))) by {
        assert forall|e: int| 0 <= e < edges.len() && (#[trigger] edges[e]).1 == v implies out[edges[e].0 as int]
            == outputs[edges[e].0 as int] by {
            assert(rank[edges[e].0 as int] < rank[edges[e].1 as int]);
        }
        lemma_same_input(edges, wf.fields(), out, outputs, v, edges.len());
        assert(supplied(wf, out, v) == supplied(wf, outputs, v));
        if rank[v] == k {
            let u = v as usize;
            assert(rank[u as int] == k);
            assert(level.contains(u));
            ready_nodes_have_all_inputs(edges, level, outputs, u);
            assert(ready(edges, outputs, v) == supplied(wf, outputs, v));
            if nodes.contains(u) {
                let i = choose|i: int| 0 <= i < nodes.len() && nodes[i] == u;
                assert(out[nodes[i] as int] is Some);
            } else {
                assert(outputs[v] is None);
            }
        } else {
            assert(out[v] == outputs[v]);
            assert(outputs[v] is Some <==> supplied(wf, outputs, v));
        }
    }
    assert forall|v: int| 2 <= v < out.len() && rank[v] >= k + 1 implies #[trigger] out[v] is None by {
        assert(out[v] == outputs[v]);
    }
}

proof fn lemma_rest_is_told(
    wf: Workflow,
    rank: Seq<nat>,
    input: JsonView,
    k: int,
    outputs: Seq<Option<JsonView>>,
    out: Outcome<JsonView>,
) -> (all: Seq<Option<JsonView>>)
    requires
        wf.plan().wf(START@, END@),
        ranked(wf.plan().names@.len(), wf.plan().edges@, level_views(wf.plan().levels@), rank),
        0 <= k <= wf.plan().levels@.len(),
        so_far(wf, rank, input, k, outputs),
        runs_from(wf, k, outputs, out),
    ensures
        told(wf, input, out, all),
    decreases wf.plan().levels@.len() - k,
{
    if k == wf.plan().levels@.len() {
        assert forall|v: int| 2 <= v < outputs.len() implies (#[trigger] outputs[v] is Some
            <==> supplied(wf, outputs, v)) by {
            assert(wf.plan().names.len() == wf.plan().names@.len());
            let u = v as usize;
            assert(rank[u as int] < level_views(wf.plan().levels@).len());
        }
        outputs
    } else {
        let edges = wf.plan().edges@;
        let level = wf.plan().levels@[k]@;
        let nodes = ready_nodes(edges, level, outputs);
        let mid = choose|mid: Outcome<Seq<Option<JsonView>>>|
            {
                &&& #[trigger] works(wf, nodes, outputs, outputs, mid)
                &&& match mid {
                    Ok(o) => runs_from(wf, k + 1, o, out),
                    Err(e) => out == Err::<JsonView, ErrorView>(e),
                }
            };
        match mid {
            Ok(o) => {
                lemma_level(wf, rank, input, k, outputs, nodes, o);
                lemma_rest_is_told(wf, rank, input, k + 1, o, out)
            },
            Err(e) => {
                assert forall|i: int| 0 <= i < nodes.len() implies 2 <= (#[trigger] nodes[i])
                    < wf.plan().names@.len() by {
                    ready_nodes_have_all_inputs(edges, level, outputs, nodes[i]);
                    assert(nodes.contains(nodes[i]));
                    let j = choose|j: int| 0 <= j < level.len() && level[j] == nodes[i];
                    assert(level_views(wf.plan().levels@)[k][j] == nodes[i]);
                }
                lemma_working_fails(wf, nodes, outputs, outputs, e);
                outputs
            },
        }
    }
}

/// When a workflow ends well, every node all of whose sources have an output, and no
/// other, has worked on what the edges into it carry, and the result is what the
/// edges into the exit point carry. A workflow that fails does so because a node did.
pub proof fn runs_are_told(wf: Workflow, input: JsonView, out: Outcome<JsonView>) -> (outputs: Seq<
    Option<JsonView>,
>)
    requires
        wf.plan().wf(START@, END@),
        runs_from(wf, 0, initial_outputs(wf.plan().names@.len(), input), out),
    ensures
        told(wf, input, out, outputs),
{
    let rank = choose|rank: Seq<nat>|
        ranked(wf.plan().names@.len(), wf.plan().edges@, level_views(wf.plan().levels@), rank);
    let first = initial_outputs(wf.plan().names@.len(), input);
    lemma_rest_is_told(wf, rank, input, 0, first, out)
}

/// Every field that a mapping into the exit point alone sets, from a node that
/// worked, is in the result with the value that the node put out.
pub proof fn results_hold_every_final_output(
    wf: Workflow,
    input: JsonView,
    result: JsonView,
    outputs: Seq<Option<JsonView>>,
    e: int,
    i: int,
)
    requires
        told(wf, input, Ok(result), outputs),
        wf.plan().edges@.len() == wf.fields().len(),
        sets(wf.plan().edges@, wf.fields(), outputs, 1, e, i, wf.fields()[e][i].1),
        forall|d: int, j: int| #[trigger]
            sets(wf.plan().edges@, wf.fields(), outputs, 1, d, j, wf.fields()[e][i].1) ==> d == e
                && j == i,
        forall|d: int|
            !#[trigger] passes(
                wf.plan().edges@,
                wf.fields(),
                outputs,
                1,
                d,
                wf.fields()[e][i].1,
            ),
    ensures
        held(result, wf.fields()[e][i].1) == held(
            outputs[wf.plan().edges@[e].0 as int]->0,
            wf.fields()[e][i].0,
        ),
{
    lone_mappings_deliver(wf.plan().edges@, wf.fields(), outputs, 1, e, i);
}

} // verus!

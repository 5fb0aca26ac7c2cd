//! Checking a set of named nodes and edges and ordering it for execution.

use crate::error::{DaimonError, ErrorView, Result};
use crate::orchestration::toposort::{
    cyclic, in_range, is_walk, joins, level_views, schedules, topological_levels,
};
use crate::text::{cat3, owned, same, texts};
use vstd::prelude::*;

verus! {

/// An edge between two named nodes.
pub type NamedEdge = (Seq<char>, Seq<char>);

/// The texts of a list of edges.
pub open spec fn edge_texts(s: Seq<(String, String)>) -> Seq<NamedEdge> {
    Seq::new(s.len(), |i: int| (s[i].0@, s[i].1@))
}

/// The first name in an edge that is neither a node nor the sentinel that may
/// stand on its side.
pub open spec fn first_unknown(
    nodes: Set<Seq<char>>,
    edges: Seq<NamedEdge>,
    start: Seq<char>,
    end: Seq<char>,
) -> Option<Seq<char>>
    decreases edges.len(),
{
    if edges.len() == 0 {
        None
    } else if edges[0].0 != start && !nodes.contains(edges[0].0) {
        Some(edges[0].0)
    } else if edges[0].1 != end && !nodes.contains(edges[0].1) {
        Some(edges[0].1)
    } else {
        first_unknown(nodes, edges.skip(1), start, end)
    }
}

/// Whether some edge begins at a node.
pub open spec fn leaves(edges: Seq<NamedEdge>, node: Seq<char>) -> bool {
    exists|e: int| 0 <= e < edges.len() && (#[trigger] edges[e]).0 == node
}

/// Whether some edge ends at a node.
pub open spec fn enters(edges: Seq<NamedEdge>, node: Seq<char>) -> bool {
    exists|e: int| 0 <= e < edges.len() && (#[trigger] edges[e]).1 == node
}

/// What is wrong with a set of nodes and edges, if anything.
pub open spec fn plan_error(
    nodes: Set<Seq<char>>,
    edges: Seq<NamedEdge>,
    start: Seq<char>,
    end: Seq<char>,
    empty_message: Seq<char>,
    cycle_message: Seq<char>,
) -> Option<Seq<char>> {
    if edges.len() == 0 {
        Some(empty_message)
    } else if first_unknown(nodes, edges, start, end) is Some {
        Some(
            "edge references unknown node '"@ + first_unknown(nodes, edges, start, end)->0 + "'"@,
        )
    } else if !leaves(edges, start) {
        Some("no edges from START"@)
    } else if !enters(edges, end) {
        Some("no edges into END"@)
    } else if cyclic(edges) {
        Some(cycle_message)
    } else {
        None
    }
}

/// Nodes and edges in the order of execution. The first two names are the
/// sentinels for the start and the end.
pub struct Plan {
    pub names: Vec<String>,
    pub edges: Vec<(usize, usize)>,
    pub levels: Vec<Vec<usize>>,
}

impl Plan {
    /// The names of the nodes, the sentinels first.
    pub open spec fn name_texts(self) -> Seq<Seq<char>> {
        texts(self.names@)
    }

    /// Whether the plan is in order: names are unique, edges join nodes, and the
    /// levels schedule all of them.
    pub open spec fn wf(self, start: Seq<char>, end: Seq<char>) -> bool {
        &&& self.names@.len() >= 2
        &&& self.name_texts()[0] == start
        &&& self.name_texts()[1] == end
        &&& self.name_texts().no_duplicates()
        &&& in_range(self.names@.len(), self.edges@)
        &&& schedules(self.names@.len(), self.edges@, level_views(self.levels@))
    }

    /// The edges by name.
    pub open spec fn named_edges(self) -> Seq<NamedEdge> {
        named(self.name_texts(), self.edges@)
    }
}

/// Edges by the names of their nodes.
pub open spec fn named(names: Seq<Seq<char>>, edges: Seq<(usize, usize)>) -> Seq<NamedEdge> {
    Seq::new(edges.len(), |e: int| (names[edges[e].0 as int], names[edges[e].1 as int]))
}

fn find(names: &Vec<String>, name: &str) -> (r: Option<usize>)
    ensures
        match r {
            Some(i) => i < names@.len() && names@[i as int]@ == name@,
            None => !texts(names@).contains(name@),
        },
{
    let mut i: usize = 0;
    while i < names.len()
        invariant
            i <= names@.len(),
            forall|j: int| 0 <= j < i ==> (#[trigger] names@[j])@ != name@,
        decreases names@.len() - i,
    {
        if same(&names[i], name) {
            return Some(i);
        }
        i += 1;
    }
    proof {
        if texts(names@).contains(name@) {
            let j = choose|j: int| 0 <= j < texts(names@).len() && texts(names@)[j] == name@;
            assert(names@[j]@ == name@);
        }
    }
    None
}

fn all_names(nodes: &Vec<String>, start: &str, end: &str) -> (r: Vec<String>)
    requires
        start@ != end@,
    ensures
        r@.len() >= 2,
        texts(r@)[0] == start@,
        texts(r@)[1] == end@,
        texts(r@).no_duplicates(),
        forall|x: Seq<char>| #[trigger]
            texts(r@).contains(x) <==> x == start@ || x == end@ || texts(nodes@).contains(x),
{
    let mut r: Vec<String> = Vec::new();
    r.push(owned(start));
    r.push(owned(end));
    assert(texts(r@) =~= seq![start@, end@]);
    let ghost all = texts(nodes@);
    let mut i: usize = 0;
    proof {
        assert forall|x: Seq<char>| #[trigger]
            texts(r@).contains(x) <==> x == start@ || x == end@ || all.take(0).contains(x) by {
            assert(texts(r@)[0] == start@);
            assert(texts(r@)[1] == end@);
        }
    }
    while i < nodes.len()
        invariant
            i <= nodes@.len(),
            all == texts(nodes@),
            r@.len() >= 2,
            texts(r@)[0] == start@,
            texts(r@)[1] == end@,
            texts(r@).no_duplicates(),
            forall|x: Seq<char>| #[trigger]
                texts(r@).contains(x) <==> x == start@ || x == end@ || all.take(
                    i as int,
                ).contains(x),
        decreases nodes@.len() - i,
    {
        let ghost before = texts(r@);
        let known = find(&r, &nodes[i]);
        proof {
            if known is Some {
                let k = known->0 as int;
                assert(before[k] == nodes@[i as int]@);
                assert(before.contains(nodes@[i as int]@));
            }
        }
        if known.is_none() {
            r.push(nodes[i].clone());
            assert(texts(r@) =~= before.push(nodes@[i as int]@));
            proof {
                let now = texts(r@);
                assert forall|a: int, b: int|
                    0 <= a < now.len() && 0 <= b < now.len() && a != b implies now[a]
                    != now[b] by {
                    if a == before.len() {
                        assert(before.contains(before[b]));
                    } else if b == before.len() {
                        assert(before.contains(before[a]));
                    }
                }
            }
        }
        i += 1;
        proof {
            let now = texts(r@);
            let seen = all.take(i - 1);
            assert(all.take(i as int) =~= seen.push(all[i - 1]));
            assert forall|x: Seq<char>| #[trigger]
                now.contains(x) <==> x == start@ || x == end@ || all.take(i as int).contains(x) by {
                if before.contains(x) {
                    let k = choose|k: int| 0 <= k < before.len() && before[k] == x;
                    assert(now[k] == x);
                }
                if seen.contains(x) {
                    let k = choose|k: int| 0 <= k < seen.len() && seen[k] == x;
                    assert(all.take(i as int)[k] == x);
                }
                if all.take(i as int).contains(x) && !seen.contains(x) {
                    let k = choose|k: int|
                        0 <= k < all.take(i as int).len() && all.take(i as int)[k] == x;
                    if k < i - 1 {
                        assert(seen[k] == x);
                    }
                    assert(x == all[i - 1]);
                    if known is None {
                        assert(now[before.len() as int] == x);
                    } else {
                        assert(before.contains(x));
                    }
                }
                if now.contains(x) && !before.contains(x) {
                    let k = choose|k: int| 0 <= k < now.len() && now[k] == x;
                    if k < before.len() {
                        assert(before[k] == x);
                    }
                    assert(all.take(i as int)[i - 1] == x);
                }
            }
        }
    }
    assert(all.take(i as int) =~= all);
    r
}

proof fn lemma_named_walk(names: Seq<Seq<char>>, edges: Seq<(usize, usize)>, path: Seq<usize>)
    requires
        in_range(names.len(), edges),
        is_walk(edges, path),
    ensures
        is_walk(named(names, edges), path.map_values(|v: usize| names[v as int])),
{
    let by_name = path.map_values(|v: usize| names[v as int]);
    let es = named(names, edges);
    assert forall|i: int| 0 <= i < by_name.len() - 1 implies #[trigger] joins(es, by_name, i) by {
        assert(joins(edges, path, i));
        let e = choose|e: int| 0 <= e < edges.len() && edges[e] == (path[i], path[i + 1]);
        assert(es[e] == (by_name[i], by_name[i + 1]));
    }
}

/// Cycles are the same by position and by name.
pub proof fn lemma_named_cyclic(names: Seq<Seq<char>>, edges: Seq<(usize, usize)>)
    requires
        names.len() <= usize::MAX,
        names.no_duplicates(),
        in_range(names.len(), edges),
    ensures
        cyclic(named(names, edges)) == cyclic(edges),
{
    let es = named(names, edges);
    if cyclic(edges) {
        let path = choose|path: Seq<usize>| #[trigger]
            is_walk(edges, path) && path.len() >= 2 && path[0] == path[path.len() - 1];
        lemma_named_walk(names, edges, path);
    }
    if cyclic(es) {
        let path = choose|path: Seq<Seq<char>>| #[trigger]
            is_walk(es, path) && path.len() >= 2 && path[0] == path[path.len() - 1];
        let at = |x: Seq<char>| -> usize
            {
                (choose|i: int| 0 <= i < names.len() && names[i] == x) as usize
            };
        let idx = path.map_values(|x: Seq<char>| at(x));
        assert forall|i: int| 0 <= i < idx.len() - 1 implies #[trigger] joins(edges, idx, i) by {
            assert(joins(es, path, i));
            let e = choose|e: int| 0 <= e < es.len() && es[e] == (path[i], path[i + 1]);
            let a = edges[e].0 as int;
            let b = edges[e].1 as int;
            assert(names[a] == path[i]);
            assert(names[b] == path[i + 1]);
            let x = choose|k: int| 0 <= k < names.len() && names[k] == path[i];
            let y = choose|k: int| 0 <= k < names.len() && names[k] == path[i + 1];
            assert(x == a);
            assert(y == b);
            assert(edges[e] == (idx[i], idx[i + 1]));
        }
        assert(is_walk(edges, idx));
    }
}

fn contains(names: &Vec<String>, name: &str) -> (r: bool)
    ensures
        r == texts(names@).contains(name@),
{
    match find(names, name) {
        Some(i) => {
            assert(texts(names@)[i as int] == name@);
            true
        },
        None => false,
    }
}

/// Checks nodes and edges and schedules them.
pub fn plan(
    nodes: &Vec<String>,
    edges: &Vec<(String, String)>,
    start: &str,
    end: &str,
    empty_message: &str,
    cycle_message: &str,
) -> (r: Result<Plan>)
    requires
        start@ != end@,
    ensures
        match r {
            Ok(p) => {
                &&& plan_error(
                    texts(nodes@).to_set(),
                    edge_texts(edges@),
                    start@,
                    end@,
                    empty_message@,
                    cycle_message@,
                ) is None
                &&& p.wf(start@, end@)
                &&& p.named_edges() == edge_texts(edges@)
                &&& forall|x: Seq<char>| #[trigger]
                    p.name_texts().contains(x) <==> x == start@ || x == end@ || texts(
                        nodes@,
                    ).contains(x)
            },
            Err(e) => plan_error(
                texts(nodes@).to_set(),
                edge_texts(edges@),
                start@,
                end@,
                empty_message@,
                cycle_message@,
            ) is Some && e@ == ErrorView::Orchestration(
                plan_error(
                    texts(nodes@).to_set(),
                    edge_texts(edges@),
                    start@,
                    end@,
                    empty_message@,
                    cycle_message@,
                )->0,
            ),
        },
{
    let ghost all = edge_texts(edges@);
    let ghost known = texts(nodes@).to_set();
    if edges.len() == 0 {
        return Err(DaimonError::Orchestration(owned(empty_message)));
    }
    let names = all_names(nodes, start, end);
    let mut indexed: Vec<(usize, usize)> = Vec::new();
    let mut from_start = false;
    let mut into_end = false;
    let mut i: usize = 0;
    assert(all.skip(0) =~= all);
    while i < edges.len()
        invariant
            i <= edges@.len(),
            all == edge_texts(edges@),
            known == texts(nodes@).to_set(),
            edges@.len() > 0,
            start@ != end@,
            forall|x: Seq<char>| #[trigger]
                texts(names@).contains(x) <==> x == start@ || x == end@ || known.contains(x),
            indexed@.len() == i,
            in_range(names@.len(), indexed@),
            forall|e: int|
                0 <= e < i ==> names@[(#[trigger] indexed@[e]).0 as int]@ == all[e].0
                    && names@[indexed@[e].1 as int]@ == all[e].1,
            first_unknown(known, all.skip(i as int), start@, end@) == first_unknown(
                known,
                all,
                start@,
                end@,
            ),
            from_start == leaves(all.take(i as int), start@),
            into_end == enters(all.take(i as int), end@),
        decreases edges@.len() - i,
    {
        let from = &edges[i].0;
        let to = &edges[i].1;
        let ghost rest = all.skip(i as int);
        assert(rest[0] == (from@, to@));
        assert(rest.skip(1) =~= all.skip(i + 1));
        if !same(from, start) && !contains(nodes, from) {
            return Err(
                DaimonError::Orchestration(cat3("edge references unknown node '", from, "'")),
            );
        }
        if !same(to, end) && !contains(nodes, to) {
            return Err(
                DaimonError::Orchestration(cat3("edge references unknown node '", to, "'")),
            );
        }
        assert(texts(names@).contains(from@));
        assert(texts(names@).contains(to@));
        if let (Some(a), Some(b)) = (find(&names, from), find(&names, to)) {
            indexed.push((a, b));
        }
        let starts = same(from, start);
        let ends = same(to, end);
        proof {
            let was = all.take(i as int);
            let now = all.take(i + 1);
            assert(now =~= was.push(all[i as int]));
            assert(leaves(now, start@) == (leaves(was, start@) || starts)) by {
                if leaves(was, start@) {
                    let e = choose|e: int| 0 <= e < was.len() && (#[trigger] was[e]).0 == start@;
                    assert(now[e].0 == start@);
                }
                if starts {
                    assert(now[i as int].0 == start@);
                }
                if leaves(now, start@) && !starts {
                    let e = choose|e: int| 0 <= e < now.len() && (#[trigger] now[e]).0 == start@;
                    assert(was[e].0 == start@);
                }
            }
            assert(enters(now, end@) == (enters(was, end@) || ends)) by {
                if enters(was, end@) {
                    let e = choose|e: int| 0 <= e < was.len() && (#[trigger] was[e]).1 == end@;
                    assert(now[e].1 == end@);
                }
                if ends {
                    assert(now[i as int].1 == end@);
                }
                if enters(now, end@) && !ends {
                    let e = choose|e: int| 0 <= e < now.len() && (#[trigger] now[e]).1 == end@;
                    assert(was[e].1 == end@);
                }
            }
        }
        if starts {
            from_start = true;
        }
        if ends {
            into_end = true;
        }
        i += 1;
    }
    assert(all.take(i as int) =~= all);
    assert(all.skip(i as int) =~= Seq::<NamedEdge>::empty());
    if !from_start {
        return Err(DaimonError::Orchestration(owned("no edges from START")));
    }
    if !into_end {
        return Err(DaimonError::Orchestration(owned("no edges into END")));
    }
    assert(named(texts(names@), indexed@) =~= all);
    let count: usize = names.len();
    proof {
        assert(texts(names@).len() == count);
        lemma_named_cyclic(texts(names@), indexed@);
    }
    match topological_levels(count, &indexed, cycle_message) {
        Ok(levels) => Ok(Plan { names, edges: indexed, levels }),
        Err(e) => Err(e),
    }
}

/// Whether an edge joins nodes: it begins at a node or at the start, and ends at a
/// node or at the end.
pub open spec fn joins_nodes(
    nodes: Set<Seq<char>>,
    edge: NamedEdge,
    start: Seq<char>,
    end: Seq<char>,
) -> bool {
    (edge.0 == start || nodes.contains(edge.0)) && (edge.1 == end || nodes.contains(edge.1))
}

/// Nodes and edges are refused exactly if there are no edges, one does not join nodes,
/// none leaves the start, none enters the end, or they run in a circle. A name that is
/// complained about is one that is not a node.
pub proof fn only_sound_plans_are_built(
    nodes: Set<Seq<char>>,
    edges: Seq<NamedEdge>,
    start: Seq<char>,
    end: Seq<char>,
    empty_message: Seq<char>,
    cycle_message: Seq<char>,
)
    ensures
        plan_error(nodes, edges, start, end, empty_message, cycle_message) is None <==> {
            &&& edges.len() > 0
            &&& forall|e: int|
                0 <= e < edges.len() ==> joins_nodes(nodes, #[trigger] edges[e], start, end)
            &&& exists|e: int| 0 <= e < edges.len() && (#[trigger] edges[e]).0 == start
            &&& exists|e: int| 0 <= e < edges.len() && (#[trigger] edges[e]).1 == end
            &&& !cyclic(edges)
        },
        first_unknown(nodes, edges, start, end) matches Some(name) ==> !nodes.contains(name)
            && exists|e: int|
            0 <= e < edges.len() && !joins_nodes(nodes, #[trigger] edges[e], start, end) && (
            edges[e].0 == name || edges[e].1 == name),
{
    lemma_first_unknown(nodes, edges, start, end);
}

proof fn lemma_first_unknown(
    nodes: Set<Seq<char>>,
    edges: Seq<NamedEdge>,
    start: Seq<char>,
    end: Seq<char>,
)
    ensures
        first_unknown(nodes, edges, start, end) is None <==> forall|e: int|
            0 <= e < edges.len() ==> joins_nodes(nodes, #[trigger] edges[e], start, end),
        first_unknown(nodes, edges, start, end) matches Some(name) ==> !nodes.contains(name)
            && exists|e: int|
            0 <= e < edges.len() && !joins_nodes(nodes, #[trigger] edges[e], start, end) && (
            edges[e].0 == name || edges[e].1 == name),
    decreases edges.len(),
{
    if edges.len() > 0 {
        let rest = edges.skip(1);
        lemma_first_unknown(nodes, rest, start, end);
        assert(forall|e: int| 0 <= e < rest.len() ==> rest[e] == #[trigger] edges[e + 1]);
        if joins_nodes(nodes, edges[0], start, end) {
            if first_unknown(nodes, rest, start, end) is None {
                assert forall|e: int| 0 <= e < edges.len() implies joins_nodes(
                    nodes,
                    #[trigger] edges[e],
                    start,
                    end,
                ) by {
                    if e > 0 {
                        assert(rest[e - 1] == edges[e]);
                    }
                }
            } else {
                let name = first_unknown(nodes, rest, start, end)->0;
                let e = choose|e: int|
                    0 <= e < rest.len() && !joins_nodes(nodes, #[trigger] rest[e], start, end) && (
                    rest[e].0 == name || rest[e].1 == name);
                assert(!joins_nodes(nodes, edges[e + 1], start, end));
            }
        } else {
            assert(!joins_nodes(nodes, edges[0], start, end));
        }
    }
}

} // verus!

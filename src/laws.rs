//! Laws that relate the store's mutations to its queries.

use crate::graph::{Edge, Graph};
use vstd::prelude::*;

verus! {

/// After an edge between two vertices that were not joined is appended,
/// looking the pair up, in either order, finds that edge; so adding it a
/// second time, in either order, is refused.
pub proof fn law_added_edge_is_found(g: Graph, after: Graph, e: Edge)
    requires
        !g.adjacent(e.from, e.to),
        after.edges@ == g.edges@.push(e),
    ensures
        after.adjacent(e.from, e.to),
        after.adjacent(e.to, e.from),
        after.edge_between(e.from, e.to) == e,
        after.edge_between(e.to, e.from) == e,
{
    let n = g.edges@.len() as int;
    assert(after.edges@[n] == e);
    assert forall|j: int| 0 <= j < n implies !#[trigger] after.edges@[j].joins(e.from, e.to) by {
        assert(after.edges@[j] == g.edges@[j]);
    }
    assert forall|j: int| 0 <= j < n implies !#[trigger] after.edges@[j].joins(e.to, e.from) by {
        assert(after.edges@[j] == g.edges@[j]);
        assert(!g.edges@[j].joins(e.from, e.to));
    }
    assert(after.first_edge_at(n, e.from, e.to));
    assert(after.first_edge_at(n, e.to, e.from));
    after.lemma_first_edge(n, e.from, e.to);
    after.lemma_first_edge(n, e.to, e.from);
}

/// In a well-formed graph, once the edge between two joined vertices is
/// removed they are no longer joined, in either order; so removing it a
/// second time is refused.
pub proof fn law_removed_edge_is_gone(g: Graph, after: Graph, a: usize, b: usize)
    requires
        g.wf(),
        g.adjacent(a, b),
        after.edges@ == g.edges@.remove(g.edge_index(a, b)),
    ensures
        !after.adjacent(a, b),
        !after.adjacent(b, a),
{
    let i = choose|i: int| 0 <= i < g.edges@.len() && #[trigger] g.edges@[i].joins(a, b);
    let k = g.edge_index(a, b);
    assert(g.first_edge_at(k, a, b)) by {
        let m = lowest_join(g, a, b, i);
    }
    assert forall|x: int| 0 <= x < after.edges@.len() implies !#[trigger] after.edges@[x].joins(
        a,
        b,
    ) by {
        let x0 = if x < k { x } else { x + 1 };
        assert(after.edges@[x] == g.edges@[x0]);
        if g.edges@[x0].joins(a, b) {
            if x0 < k {
            } else {
                assert(!g.edges@[x0].joins(g.edges@[k].from, g.edges@[k].to));
            }
        }
    }
    assert forall|x: int| 0 <= x < after.edges@.len() implies !#[trigger] after.edges@[x].joins(
        b,
        a,
    ) by {
        assert(!after.edges@[x].joins(a, b));
    }
}

/// The first position at or below `i` of an edge that joins `a` and `b`.
proof fn lowest_join(g: Graph, a: usize, b: usize, i: int) -> (m: int)
    requires
        0 <= i < g.edges@.len(),
        g.edges@[i].joins(a, b),
    ensures
        g.first_edge_at(m, a, b),
    decreases i,
{
    if exists|j: int| 0 <= j < i && #[trigger] g.edges@[j].joins(a, b) {
        let j = choose|j: int| 0 <= j < i && #[trigger] g.edges@[j].joins(a, b);
        lowest_join(g, a, b, j)
    } else {
        i
    }
}

/// A complete well-formed graph stops being complete when the edge between
/// two of its vertices with distinct codes is removed.
pub proof fn law_removal_breaks_completeness(g: Graph, after: Graph, a: usize, b: usize)
    requires
        g.wf(),
        g.complete(),
        a != b,
        g.has_code(a),
        g.has_code(b),
        after.nodes == g.nodes,
        after.edges@ == g.edges@.remove(g.edge_index(a, b)),
    ensures
        !after.complete(),
{
    let i = choose|i: int| 0 <= i < g.nodes@.len() && #[trigger] g.nodes@[i].code == a;
    let j = choose|j: int| 0 <= j < g.nodes@.len() && #[trigger] g.nodes@[j].code == b;
    assert(g.adjacent(g.nodes@[i].code, g.nodes@[j].code));
    law_removed_edge_is_gone(g, after, a, b);
    assert(after.nodes@[i].code == a && after.nodes@[j].code == b);
}

/// In an unweighted graph every step of a walk costs one, whatever the
/// weights stored on the edges: a walk costs its number of steps.
pub proof fn law_unweighted_cost_counts_steps(g: Graph, p: Seq<usize>)
    requires
        !g.is_weighted,
        p.len() > 0,
    ensures
        g.walk_cost(p) == p.len() - 1,
    decreases p.len(),
{
    if p.len() > 1 {
        law_unweighted_cost_counts_steps(g, p.drop_last());
    }
}

/// In a well-formed weighted graph a step between two joined vertices costs
/// the weight of the one edge that joins them.
pub proof fn law_step_costs_its_edge_weight(g: Graph, a: usize, b: usize, i: int)
    requires
        g.wf(),
        g.is_weighted,
        0 <= i < g.edges@.len(),
        g.edges@[i].joins(a, b),
    ensures
        g.step_cost(a, b) == g.edges@[i].weight,
{
    assert forall|j: int| 0 <= j < i implies !#[trigger] g.edges@[j].joins(a, b) by {
        if g.edges@[j].joins(a, b) {
            assert(g.edges@[i].joins(g.edges@[j].from, g.edges@[j].to));
        }
    }
    assert(g.first_edge_at(i, a, b));
    g.lemma_first_edge(i, a, b);
}

} // verus!

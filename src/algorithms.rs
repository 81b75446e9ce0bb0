//! Path search, path cost, cycles and subgraph containment.

use crate::graph::{Edge, Graph, Node};
use vstd::prelude::*;
use vstd::set_lib::lemma_len_subset;

verus! {

broadcast use vstd::seq_lib::group_seq_properties;

/// The codes of a sequence of vertices.
pub open spec fn codes_of(ns: Seq<&Node>) -> Seq<usize> {
    Seq::new(ns.len(), |k: int| ns[k].code)
}

/// The walks held on a stack of vectors.
spec fn views(s: Seq<Vec<usize>>) -> Seq<Seq<usize>> {
    s.map_values(|v: Vec<usize>| v@)
}

fn holds(v: &Vec<usize>, x: usize) -> (r: bool)
    ensures
        r == v@.contains(x),
{
    let mut i: usize = 0;
    while i < v.len()
        invariant
            i <= v@.len(),
            forall|j: int| 0 <= j < i ==> v@[j] != x,
        decreases v@.len() - i,
    {
        if v[i] == x {
            return true;
        }
        i += 1;
    }
    false
}

fn extended(p: &Vec<usize>, x: usize) -> (r: Vec<usize>)
    ensures
        r@ == p@.push(x),
{
    let mut r: Vec<usize> = Vec::new();
    let mut i: usize = 0;
    while i < p.len()
        invariant
            i <= p@.len(),
            r@ == p@.take(i as int),
        decreases p@.len() - i,
    {
        r.push(p[i]);
        i += 1;
        assert(r@ =~= p@.take(i as int));
    }
    assert(p@.take(p@.len() as int) =~= p@);
    r.push(x);
    r
}

impl Graph {
    /// `p` is a walk in the graph: a non-empty sequence of codes of
    /// vertices, each joined by an edge to the next.
    pub open spec fn is_walk(self, p: Seq<usize>) -> bool {
        &&& p.len() > 0
        &&& forall|k: int| 0 <= k < p.len() ==> self.has_code(#[trigger] p[k])
        &&& forall|k: int| 0 <= k < p.len() - 1 ==> self.adjacent(#[trigger] p[k], p[k + 1])
    }

    /// Some walk leads from `a` to `b`.
    pub open spec fn reachable(self, a: usize, b: usize) -> bool {
        exists|p: Seq<usize>| #[trigger] self.is_walk(p) && p[0] == a && p.last() == b
    }

    /// A sequence of codes without repeats, all of vertices, is no longer
    /// than the vertex list.
    pub proof fn lemma_distinct_codes_bounded(self, s: Seq<usize>)
        requires
            s.no_duplicates(),
            forall|k: int| 0 <= k < s.len() ==> self.has_code(#[trigger] s[k]),
        ensures
            s.len() <= self.nodes@.len(),
    {
        broadcast use vstd::seq_lib::seq_to_set_is_finite;

        let codes = self.nodes@.map_values(|n: Node| n.code);
        codes.lemma_cardinality_of_set();
        s.unique_seq_to_set();
        assert forall|x: usize| s.to_set().contains(x) implies codes.to_set().contains(x) by {
            let k = choose|k: int| 0 <= k < s.len() && s[k] == x;
            assert(self.has_code(s[k]));
            let i = choose|i: int| 0 <= i < self.nodes@.len() && #[trigger] self.nodes@[i].code == x;
            assert(codes[i] == x);
        }
        lemma_len_subset(s.to_set(), codes.to_set());
    }

    /// The codes of the neighbours of the vertex with code `c`, one for each
    /// edge at it, in the order of the edge list.
    pub open spec fn neighbors_of(edges: Seq<Edge>, c: usize) -> Seq<usize>
        decreases edges.len(),
    {
        if edges.len() == 0 {
            Seq::empty()
        } else {
            let rest = Self::neighbors_of(edges.drop_last(), c);
            let e = edges.last();
            if e.from == c {
                rest.push(e.to)
            } else if e.to == c {
                rest.push(e.from)
            } else {
                rest
            }
        }
    }

    /// The neighbours of the vertex with code `code`, in the order of the
    /// edge list.
    pub fn find_connected_nodes(&self, code: usize) -> (r: Vec<usize>)
        ensures
            r@ == Self::neighbors_of(self.edges@, code),
            forall|w: usize| r@.contains(w) <==> self.adjacent(code, w),
    {
        let mut r: Vec<usize> = Vec::new();
        let mut i: usize = 0;
        while i < self.edges.len()
            invariant
                i <= self.edges@.len(),
                r@ == Self::neighbors_of(self.edges@.take(i as int), code),
                forall|w: usize|
                    r@.contains(w) <==> exists|k: int|
                        0 <= k < i && #[trigger] self.edges@[k].joins(code, w),
            decreases self.edges@.len() - i,
        {
            let e = self.edges[i];
            let ghost old_r = r@;
            proof {
                assert(self.edges@.take(i + 1).drop_last() =~= self.edges@.take(i as int));
                assert(self.edges@.take(i + 1).last() == e);
            }
            if e.from == code {
                r.push(e.to);
            } else if e.to == code {
                r.push(e.from);
            }
            assert forall|w: usize|
                r@.contains(w) <==> exists|k: int|
                    0 <= k < i + 1 && #[trigger] self.edges@[k].joins(code, w) by {
                if r@.contains(w) && !old_r.contains(w) {
                    assert(self.edges@[i as int].joins(code, w));
                }
                if exists|k: int| 0 <= k < i + 1 && #[trigger] self.edges@[k].joins(code, w) {
                    let k = choose|k: int| 0 <= k < i + 1 && #[trigger] self.edges@[k].joins(code, w);
                    if k == i {
                        assert(r@.last() == w);
                    }
                }
            }
            i += 1;
        }
        assert(self.edges@.take(self.edges@.len() as int) =~= self.edges@);
        r
    }

    /// The edges at the vertex with code `c`, in the order of the edge list,
    /// each turned so that it starts at `c`.
    pub open spec fn edges_at(edges: Seq<Edge>, c: usize) -> Seq<Edge>
        decreases edges.len(),
    {
        if edges.len() == 0 {
            Seq::empty()
        } else {
            let rest = Self::edges_at(edges.drop_last(), c);
            let e = edges.last();
            if e.from == c {
                rest.push(Edge { from: c, to: e.to, weight: e.weight })
            } else if e.to == c {
                rest.push(Edge { from: c, to: e.from, weight: e.weight })
            } else {
                rest
            }
        }
    }

    /// The edges at `node`, each turned so that it starts at `node`.
    pub fn get_node_edges(&self, node: &Node) -> (r: Vec<Edge>)
        ensures
            r@ == Self::edges_at(self.edges@, node.code),
    {
        let code = node.code;
        let mut r: Vec<Edge> = Vec::new();
        let mut i: usize = 0;
        while i < self.edges.len()
            invariant
                i <= self.edges@.len(),
                code == node.code,
                r@ == Self::edges_at(self.edges@.take(i as int), code),
            decreases self.edges@.len() - i,
        {
            let e = self.edges[i];
            proof {
                assert(self.edges@.take(i + 1).drop_last() =~= self.edges@.take(i as int));
                assert(self.edges@.take(i + 1).last() == e);
            }
            if e.from == code {
                r.push(Edge { from: code, to: e.to, weight: e.weight });
            } else if e.to == code {
                r.push(Edge { from: code, to: e.from, weight: e.weight });
            }
            i += 1;
        }
        assert(self.edges@.take(self.edges@.len() as int) =~= self.edges@);
        r
    }

    /// The vertices with the given codes, each the first with its code.
    fn get_by_codes(&self, codes: &Vec<usize>) -> (r: Vec<&Node>)
        requires
            forall|k: int| 0 <= k < codes@.len() ==> self.has_code(#[trigger] codes@[k]),
        ensures
            r@.len() == codes@.len(),
            forall|k: int| 0 <= k < codes@.len() ==> *r@[k] == self.node_with(#[trigger] codes@[k]),
            codes_of(r@) == codes@,
    {
        let mut r: Vec<&Node> = Vec::new();
        let mut i: usize = 0;
        while i < codes.len()
            invariant
                i <= codes@.len(),
                r@.len() == i,
                forall|k: int| 0 <= k < codes@.len() ==> self.has_code(#[trigger] codes@[k]),
                forall|k: int| 0 <= k < i ==> *r@[k] == self.node_with(#[trigger] codes@[k]),
                forall|k: int| 0 <= k < i ==> (#[trigger] r@[k]).code == codes@[k],
            decreases codes@.len() - i,
        {
            let c = codes[i];
            assert(self.has_code(codes@[i as int]));
            match self.find_by_code(c) {
                Some(n) => r.push(n),
                None => {},
            }
            i += 1;
        }
        assert(codes_of(r@) =~= codes@);
        r
    }

    spec fn expanded(self, visited: Seq<usize>, v: usize) -> bool {
        forall|w: usize| self.has_code(w) && #[trigger] self.adjacent(v, w) ==> visited.contains(w)
    }

    spec fn good_path(self, p: Seq<usize>, start: usize, visited: Seq<usize>) -> bool {
        &&& self.is_walk(p)
        &&& p[0] == start
        &&& p.no_duplicates()
        &&& forall|k: int| 0 <= k < p.len() ==> visited.contains(#[trigger] p[k])
    }

    /// Every walk that starts inside a set of codes closed under the edges
    /// ends inside it.
    proof fn lemma_closed_walk(self, visited: Seq<usize>, p: Seq<usize>)
        requires
            forall|v: usize| #[trigger] visited.contains(v) ==> self.expanded(visited, v),
            self.is_walk(p),
            visited.contains(p[0]),
        ensures
            visited.contains(p.last()),
        decreases p.len(),
    {
        if p.len() > 1 {
            let q = p.drop_last();
            assert(self.is_walk(q));
            self.lemma_closed_walk(visited, q);
            assert(self.adjacent(p[p.len() - 2], p[p.len() - 1]));
            assert(self.has_code(p[p.len() - 1]));
            assert(self.expanded(visited, q.last()));
        }
    }

    /// One expansion of the search: the neighbours in `todo` are taken in
    /// order, and each vertex not yet visited extends `path` by one step.
    /// Reaching `end` stops the search with that walk (`Err`); otherwise the
    /// extended walk is pushed on the stack and its vertex marked visited.
    /// `Ok` holds the stack and the visited codes once `todo` is exhausted.
    pub open spec fn dfs_expand(
        self,
        path: Seq<usize>,
        todo: Seq<usize>,
        stack: Seq<Seq<usize>>,
        visited: Seq<usize>,
        end: usize,
    ) -> Result<(Seq<Seq<usize>>, Seq<usize>), Seq<usize>>
        decreases todo.len(),
    {
        if todo.len() == 0 {
            Ok((stack, visited))
        } else {
            let w = todo[0];
            if self.has_code(w) && !visited.contains(w) {
                if w == end {
                    Err(path.push(w))
                } else {
                    self.dfs_expand(
                        path,
                        todo.drop_first(),
                        stack.push(path.push(w)),
                        visited.push(w),
                        end,
                    )
                }
            } else {
                self.dfs_expand(path, todo.drop_first(), stack, visited, end)
            }
        }
    }

    /// The depth-first search from a stack of walks and a list of visited
    /// codes, run for at most `fuel` expansions: the walk on top of the
    /// stack is taken off and its last vertex expanded. `None` when the fuel
    /// runs out; `Some(None)` when the stack empties without reaching `end`;
    /// `Some(Some(p))` when the walk `p` reaches it.
    pub open spec fn dfs_run(
        self,
        stack: Seq<Seq<usize>>,
        visited: Seq<usize>,
        end: usize,
        fuel: nat,
    ) -> Option<Option<Seq<usize>>>
        decreases fuel,
    {
        if fuel == 0 {
            None
        } else if stack.len() == 0 {
            Some(None)
        } else {
            let p = stack.last();
            match self.dfs_expand(
                p,
                Self::neighbors_of(self.edges@, p.last()),
                stack.drop_last(),
                visited,
                end,
            ) {
                Err(found) => Some(Some(found)),
                Ok((s2, v2)) => self.dfs_run(s2, v2, end, (fuel - 1) as nat),
            }
        }
    }

    /// The walk that the depth-first search finds from `s` to `e`: none from
    /// a code that is no vertex's, the one-vertex walk from a vertex to
    /// itself, and otherwise the outcome of `dfs_run` started from the walk
    /// `[s]` with `s` visited.
    pub open spec fn dfs_walk(self, s: usize, e: usize) -> Option<Seq<usize>> {
        if !self.has_code(s) {
            None
        } else if s == e {
            Some(seq![s])
        } else if exists|f: nat| #[trigger] self.dfs_run(seq![seq![s]], seq![s], e, f).is_some() {
            self.dfs_run(
                seq![seq![s]],
                seq![s],
                e,
                choose|f: nat| #[trigger] self.dfs_run(seq![seq![s]], seq![s], e, f).is_some(),
            ).unwrap()
        } else {
            None
        }
    }

    proof fn lemma_run_stable(
        self,
        stack: Seq<Seq<usize>>,
        visited: Seq<usize>,
        end: usize,
        f: nat,
    )
        requires
            self.dfs_run(stack, visited, end, f).is_some(),
        ensures
            self.dfs_run(stack, visited, end, f + 1) == self.dfs_run(stack, visited, end, f),
        decreases f,
    {
        if f > 0 && stack.len() > 0 {
            let p = stack.last();
            match self.dfs_expand(
                p,
                Self::neighbors_of(self.edges@, p.last()),
                stack.drop_last(),
                visited,
                end,
            ) {
                Err(found) => {},
                Ok((s2, v2)) => {
                    self.lemma_run_stable(s2, v2, end, (f - 1) as nat);
                },
            }
        }
    }

    proof fn lemma_run_later(
        self,
        stack: Seq<Seq<usize>>,
        visited: Seq<usize>,
        end: usize,
        f1: nat,
        f2: nat,
    )
        requires
            f1 <= f2,
            self.dfs_run(stack, visited, end, f1).is_some(),
        ensures
            self.dfs_run(stack, visited, end, f2) == self.dfs_run(stack, visited, end, f1),
        decreases f2 - f1,
    {
        if f2 > f1 {
            self.lemma_run_later(stack, visited, end, f1, (f2 - 1) as nat);
            self.lemma_run_stable(stack, visited, end, (f2 - 1) as nat);
        }
    }

    /// A run of the search that finishes fixes `dfs_walk`.
    proof fn lemma_dfs_walk_is(self, s: usize, e: usize, f: nat)
        requires
            self.has_code(s),
            s != e,
            self.dfs_run(seq![seq![s]], seq![s], e, f).is_some(),
        ensures
            self.dfs_walk(s, e) == self.dfs_run(seq![seq![s]], seq![s], e, f).unwrap(),
    {
        let c = choose|c: nat| #[trigger] self.dfs_run(seq![seq![s]], seq![s], e, c).is_some();
        assert(self.dfs_run(seq![seq![s]], seq![s], e, c).is_some());
        if c <= f {
            self.lemma_run_later(seq![seq![s]], seq![s], e, c, f);
        } else {
            self.lemma_run_later(seq![seq![s]], seq![s], e, f, c);
        }
    }

    /// Searches for a walk from `start_node` to `end_node` depth first: the
    /// walk most recently extended is explored first, and the neighbours of
    /// a vertex are taken in the order of the edge list. The walk found
    /// passes through no vertex twice.
    pub fn get_path(&self, start_node: &Node, end_node: &Node) -> (r: Option<Vec<&Node>>)
        ensures
            r.is_some() == self.dfs_walk(start_node.code, end_node.code).is_some(),
            r.is_some() ==> codes_of(r.unwrap()@) == self.dfs_walk(
                start_node.code,
                end_node.code,
            ).unwrap(),
            r.is_some() == self.reachable(start_node.code, end_node.code),
            !self.has_code(start_node.code) || !self.has_code(end_node.code) ==> r.is_none(),
            self.has_code(start_node.code) && start_node.code == end_node.code ==> r.is_some()
                && r.unwrap()@.len() == 1,
            r.is_some() ==> {
                let p = codes_of(r.unwrap()@);
                &&& self.is_walk(p)
                &&& p[0] == start_node.code
                &&& p.last() == end_node.code
                &&& p.no_duplicates()
                &&& forall|k: int|
                    0 <= k < p.len() ==> *r.unwrap()@[k] == self.node_with(#[trigger] p[k])
            },
    {
        let start = start_node.code;
        let end = end_node.code;
        if self.find_by_code(start).is_none() {
            proof {
                assert forall|p: Seq<usize>| #[trigger] self.is_walk(p) implies p[0] != start by {
                    assert(self.has_code(p[0]));
                }
            }
            return None;
        }
        proof {
            assert forall|p: Seq<usize>| #[trigger] self.is_walk(p) implies self.has_code(p.last()) by {
                assert(self.has_code(p[p.len() - 1]));
            }
        }
        if start == end {
            let p = vec![start];
            assert(self.is_walk(p@));
            assert(p@ =~= seq![start]);
            let r = self.get_by_codes(&p);
            return Some(r);
        }
        let mut stack: Vec<Vec<usize>> = Vec::new();
        let mut visited: Vec<usize> = Vec::new();
        stack.push(vec![start]);
        visited.push(start);
        assert(self.is_walk(stack@[0]@));
        let ghost init_stack = seq![seq![start]];
        let ghost init_vis = seq![start];
        let ghost mut steps: nat = 0;
        assert(stack@[0]@ =~= seq![start]);
        assert(views(stack@) =~= init_stack);
        assert(visited@ =~= init_vis);
        while stack.len() > 0
            invariant
                init_stack == seq![seq![start]],
                init_vis == seq![start],
                forall|f: nat| #[trigger]
                    self.dfs_run(views(stack@), visited@, end, f) == self.dfs_run(
                        init_stack,
                        init_vis,
                        end,
                        steps + f,
                    ),
                start == start_node.code,
                end == end_node.code,
                start != end,
                self.has_code(start),
                visited@.no_duplicates(),
                forall|k: int| 0 <= k < visited@.len() ==> self.has_code(#[trigger] visited@[k]),
                visited@.contains(start),
                !visited@.contains(end),
                visited@.len() <= self.nodes@.len(),
                forall|s: int|
                    0 <= s < stack@.len() ==> self.good_path(#[trigger] stack@[s]@, start, visited@),
                forall|v: usize| #[trigger]
                    visited@.contains(v) ==> (exists|s: int|
                        0 <= s < stack@.len() && (#[trigger] stack@[s])@.last() == v)
                        || self.expanded(visited@, v),
            decreases 2 * (self.nodes@.len() - visited@.len()) + stack@.len(),
        {
            let ghost m0 = 2 * (self.nodes@.len() - visited@.len()) + stack@.len();
            let ghost stack0 = stack@;
            let ghost sv0 = views(stack0);
            let ghost vis0 = visited@;
            let path = stack.pop().unwrap();
            assert(self.good_path(stack0[stack0.len() - 1]@, start, visited@));
            let current = path[path.len() - 1];
            let ghost sv_pop = views(stack@);
            proof {
                assert(sv_pop =~= sv0.drop_last());
                assert(sv0.last() == path@);
                assert(path == stack0[stack0.len() - 1]);
                assert forall|v: usize| #[trigger]
                    visited@.contains(v) implies v == current || (exists|s: int|
                        0 <= s < stack@.len() && (#[trigger] stack@[s])@.last() == v)
                        || self.expanded(visited@, v) by {
                    if !self.expanded(visited@, v) {
                        let s = choose|s: int|
                            0 <= s < stack0.len() && (#[trigger] stack0[s])@.last() == v;
                        if s < stack@.len() {
                            assert(stack@[s] == stack0[s]);
                        }
                    }
                }
            }
            let nbrs = self.find_connected_nodes(current);
            let mut j: usize = 0;
            while j < nbrs.len()
                invariant
                    init_stack == seq![seq![start]],
                    init_vis == seq![start],
                    forall|f: nat| #[trigger]
                        self.dfs_run(sv0, vis0, end, f) == self.dfs_run(
                            init_stack,
                            init_vis,
                            end,
                            steps + f,
                        ),
                    sv0.len() > 0,
                    sv0.last() == path@,
                    sv0.drop_last() == sv_pop,
                    nbrs@ == Self::neighbors_of(self.edges@, current),
                    self.dfs_expand(path@, nbrs@, sv_pop, vis0, end) == self.dfs_expand(
                        path@,
                        nbrs@.skip(j as int),
                        views(stack@),
                        visited@,
                        end,
                    ),
                    start == start_node.code,
                    end == end_node.code,
                    start != end,
                    self.has_code(start),
                    visited@.no_duplicates(),
                    forall|k: int| 0 <= k < visited@.len() ==> self.has_code(#[trigger] visited@[k]),
                    visited@.contains(start),
                    !visited@.contains(end),
                    visited@.len() <= self.nodes@.len(),
                    forall|s: int|
                        0 <= s < stack@.len() ==> self.good_path(#[trigger] stack@[s]@, start, visited@),
                    forall|v: usize| #[trigger]
                        visited@.contains(v) ==> v == current || (exists|s: int|
                            0 <= s < stack@.len() && (#[trigger] stack@[s])@.last() == v)
                            || self.expanded(visited@, v),
                    self.good_path(path@, start, visited@),
                    path@.last() == current,
                    forall|w: usize| nbrs@.contains(w) <==> self.adjacent(current, w),
                    forall|k: int|
                        0 <= k < j ==> visited@.contains(#[trigger] nbrs@[k]) || !self.has_code(nbrs@[k]),
                    j <= nbrs@.len(),
                    2 * (self.nodes@.len() - visited@.len()) + stack@.len() < m0,
                decreases nbrs@.len() - j,
            {
                let w = nbrs[j];
                proof {
                    assert(nbrs@.skip(j as int)[0] == w);
                    assert(nbrs@.skip(j as int).drop_first() =~= nbrs@.skip(j + 1));
                }
                if self.find_by_code(w).is_some() && !holds(&visited, w) {
                    assert(nbrs@.contains(w));
                    let np = extended(&path, w);
                    assert(self.adjacent(path@[path@.len() - 1], w));
                    assert(self.is_walk(np@)) by {
                        assert forall|k: int| 0 <= k < np@.len() - 1 implies self.adjacent(
                            #[trigger] np@[k],
                            np@[k + 1],
                        ) by {
                            if k < path@.len() - 1 {
                                assert(np@[k] == path@[k] && np@[k + 1] == path@[k + 1]);
                            }
                        }
                    }
                    assert(!path@.contains(w));
                    assert(np@[0] == start);
                    assert(np@.no_duplicates()) by {
                        assert forall|a: int, b: int|
                            0 <= a < b < np@.len() implies np@[a] != np@[b] by {
                            if b == np@.len() - 1 {
                                assert(path@[a] == np@[a]);
                            } else {
                                assert(path@[a] == np@[a] && path@[b] == np@[b]);
                            }
                        }
                    }
                    if w == end {
                        proof {
                            assert(self.dfs_expand(path@, nbrs@, sv_pop, vis0, end) == Err::<
                                (Seq<Seq<usize>>, Seq<usize>),
                                Seq<usize>,
                            >(np@));
                            assert(self.dfs_run(sv0, vis0, end, 1) == Some(Some(np@)));
                            assert(self.dfs_run(init_stack, init_vis, end, steps + 1) == Some(
                                Some(np@),
                            ));
                            self.lemma_dfs_walk_is(start, end, steps + 1);
                        }
                        let r = self.get_by_codes(&np);
                        return Some(r);
                    }
                    let ghost old_visited = visited@;
                    let ghost old_stack = stack@;
                    visited.push(w);
                    proof {
                        assert forall|x: usize| old_visited.contains(x) implies visited@.contains(x) by {
                            let k = choose|k: int| 0 <= k < old_visited.len() && old_visited[k] == x;
                            assert(visited@[k] == x);
                        }
                        assert(visited@.last() == w);
                        self.lemma_distinct_codes_bounded(visited@);
                    }
                    stack.push(np);
                    proof {
                        assert(views(stack@) =~= views(old_stack).push(np@));
                        assert(stack@[stack@.len() - 1]@ == np@);
                        assert forall|s: int| 0 <= s < stack@.len() implies self.good_path(
                            #[trigger] stack@[s]@,
                            start,
                            visited@,
                        ) by {
                            if s < old_stack.len() {
                                assert(stack@[s] == old_stack[s]);
                                assert(self.good_path(old_stack[s]@, start, old_visited));
                            }
                        }
                        assert forall|v: usize| #[trigger]
                            visited@.contains(v) implies v == current || (exists|s: int|
                                0 <= s < stack@.len() && (#[trigger] stack@[s])@.last() == v)
                                || self.expanded(visited@, v) by {
                            if v == w {
                                assert(stack@[stack@.len() - 1]@.last() == v);
                            } else {
                                assert(old_visited.contains(v));
                                if v != current && !self.expanded(old_visited, v) {
                                    let s = choose|s: int|
                                        0 <= s < old_stack.len() && (#[trigger] old_stack[s])@.last() == v;
                                    assert(stack@[s] == old_stack[s]);
                                }
                            }
                        }
                    }
                }
                j += 1;
            }
            proof {
                assert(nbrs@.skip(j as int) =~= Seq::<usize>::empty());
                assert forall|f: nat| #[trigger]
                    self.dfs_run(views(stack@), visited@, end, f) == self.dfs_run(
                        init_stack,
                        init_vis,
                        end,
                        (steps + 1) + f,
                    ) by {
                    assert(self.dfs_run(sv0, vis0, end, f + 1) == self.dfs_run(
                        views(stack@),
                        visited@,
                        end,
                        f,
                    ));
                    assert(self.dfs_run(sv0, vis0, end, f + 1) == self.dfs_run(
                        init_stack,
                        init_vis,
                        end,
                        steps + (f + 1),
                    ));
                }
                steps = (steps + 1) as nat;
                assert(self.expanded(visited@, current)) by {
                    assert forall|w: usize|
                        self.has_code(w) && #[trigger] self.adjacent(current, w) implies visited@.contains(w) by {
                        assert(nbrs@.contains(w));
                        let k = choose|k: int| 0 <= k < nbrs@.len() && nbrs@[k] == w;
                    }
                }
            }
        }
        proof {
            assert(views(stack@) =~= Seq::<Seq<usize>>::empty());
            assert(self.dfs_run(views(stack@), visited@, end, 1) == Some(None::<Seq<usize>>));
            self.lemma_dfs_walk_is(start, end, steps + 1);
            assert forall|p: Seq<usize>|
                #[trigger] self.is_walk(p) && p[0] == start implies p.last() != end by {
                self.lemma_closed_walk(visited@, p);
            }
        }
        None
    }

    /// What one step from `a` to `b` costs: the weight of the first edge
    /// that joins them in a weighted graph, and 1 in an unweighted one.
    pub open spec fn step_cost(self, a: usize, b: usize) -> int {
        if self.is_weighted {
            self.edge_between(a, b).weight as int
        } else {
            1
        }
    }

    /// The sum of the step costs along a walk.
    pub open spec fn walk_cost(self, p: Seq<usize>) -> int
        decreases p.len(),
    {
        if p.len() <= 1 {
            0
        } else {
            self.walk_cost(p.drop_last()) + self.step_cost(p[p.len() - 2], p[p.len() - 1])
        }
    }

    /// The cost of a walk given as its vertices.
    pub fn weigh_path(&self, path: &Vec<&Node>) -> (r: u64)
        requires
            self.is_walk(codes_of(path@)),
            path@.len() <= u32::MAX,
        ensures
            r == self.walk_cost(codes_of(path@)),
    {
        let ghost p = codes_of(path@);
        let mut sum: u64 = 0;
        let mut i: usize = 1;
        assert(p.take(1).len() == 1);
        while i < path.len()
            invariant
                1 <= i <= path@.len(),
                path@.len() <= u32::MAX,
                p == codes_of(path@),
                self.is_walk(p),
                sum == self.walk_cost(p.take(i as int)),
                sum <= (i - 1) * 4294967295,
            decreases path@.len() - i,
        {
            let a = path[i - 1].code;
            let b = path[i].code;
            assert(a == p[i - 1] && b == p[i as int]);
            assert(self.adjacent(p[i - 1], p[(i - 1) + 1]));
            let step: u64 = if self.is_weighted {
                self.find_edge_by_from_to(a, b).unwrap().weight as u64
            } else {
                1
            };
            assert(p.take(i + 1).drop_last() =~= p.take(i as int));
            sum = sum + step;
            i += 1;
        }
        assert(p.take(i as int) =~= p);
        sum
    }

    /// The cost of the walk that `get_path` finds from `start_node` to
    /// `end_node` (the walk `dfs_walk` names), if there is one: the sum of
    /// the weights of its steps in a weighted graph, its number of steps in
    /// an unweighted one.
    pub fn calculate_path(&self, start_node: &Node, end_node: &Node) -> (r: Option<u64>)
        requires
            self.nodes@.len() <= u32::MAX,
        ensures
            r.is_some() == self.dfs_walk(start_node.code, end_node.code).is_some(),
            r.is_some() ==> r.unwrap() == self.walk_cost(
                self.dfs_walk(start_node.code, end_node.code).unwrap(),
            ),
            r.is_some() == self.reachable(start_node.code, end_node.code),
    {
        match self.get_path(start_node, end_node) {
            Some(path) => {
                proof {
                    self.lemma_distinct_codes_bounded(codes_of(path@));
                }
                let c = self.weigh_path(&path);
                assert(self.is_walk(codes_of(path@)));
                Some(c)
            },
            None => None,
        }
    }

    /// `codes` has the shape of a cycle: more than two codes, the first
    /// equal to the last, and no code repeated before the last.
    pub open spec fn cycle_shape(codes: Seq<usize>) -> bool {
        &&& codes.len() > 2
        &&& codes[0] == codes.last()
        &&& codes.drop_last().no_duplicates()
    }

    /// Whether `codes` has the shape of a cycle; the edges are not looked at.
    pub fn is_cycle(codes: &Vec<usize>) -> (r: bool)
        ensures
            r == Self::cycle_shape(codes@),
    {
        let n = codes.len();
        if n <= 2 || codes[0] != codes[n - 1] {
            return false;
        }
        let ghost body = codes@.drop_last();
        let mut i: usize = 0;
        while i < n - 1
            invariant
                n == codes@.len(),
                n > 2,
                body == codes@.drop_last(),
                i <= n - 1,
                forall|a: int, b: int| 0 <= a < b < n - 1 && a < i ==> body[a] != body[b],
            decreases n - 1 - i,
        {
            let mut j: usize = i + 1;
            while j < n - 1
                invariant
                    n == codes@.len(),
                    n > 2,
                    body == codes@.drop_last(),
                    i < j <= n - 1,
                    forall|a: int, b: int| 0 <= a < b < n - 1 && a < i ==> body[a] != body[b],
                    forall|b: int| i < b < j ==> body[i as int] != body[b],
                decreases n - 1 - j,
            {
                if codes[i] == codes[j] {
                    assert(body[i as int] == body[j as int]);
                    return false;
                }
                j += 1;
            }
            i += 1;
        }
        true
    }

    /// The vertices of the cycle `codes`, when it has the shape of a cycle,
    /// every code is that of a vertex and every two consecutive codes are
    /// joined by an edge.
    pub fn get_cycle(&self, codes: &Vec<usize>) -> (r: Option<Vec<&Node>>)
        ensures
            r.is_some() == (Self::cycle_shape(codes@) && self.is_walk(codes@)),
            r.is_some() ==> codes_of(r.unwrap()@) == codes@,
            r.is_some() ==> forall|k: int|
                0 <= k < codes@.len() ==> *r.unwrap()@[k] == self.node_with(#[trigger] codes@[k]),
    {
        if !Self::is_cycle(codes) {
            return None;
        }
        let mut i: usize = 0;
        while i < codes.len()
            invariant
                i <= codes@.len(),
                codes@.len() > 2,
                forall|k: int| 0 <= k < i ==> self.has_code(#[trigger] codes@[k]),
                forall|k: int| 0 <= k < i - 1 ==> self.adjacent(#[trigger] codes@[k], codes@[k + 1]),
            decreases codes@.len() - i,
        {
            if self.find_by_code(codes[i]).is_none() {
                assert(!self.has_code(codes@[i as int]));
                return None;
            }
            if i > 0 && !self.adjacent_codes(codes[i - 1], codes[i]) {
                assert(!self.adjacent(codes@[i - 1], codes@[(i - 1) + 1]));
                return None;
            }
            i += 1;
        }
        assert(self.is_walk(codes@));
        Some(self.get_by_codes(codes))
    }

    /// The graph holds a vertex equal to `n` in code, name and category.
    pub open spec fn contains_node(self, n: Node) -> bool {
        exists|k: int| 0 <= k < self.nodes@.len() && #[trigger] self.nodes@[k].same(n)
    }

    /// The vertex `n` of `sub` fits into this graph: an equal vertex is here,
    /// every neighbour it has in `sub` is a neighbour here, and when it has no
    /// neighbour in `sub`, none of its neighbours here is a vertex of `sub`.
    pub open spec fn vertex_fits(self, sub: Graph, n: Node) -> bool {
        &&& self.contains_node(n)
        &&& forall|w: usize| #[trigger] sub.adjacent(n.code, w) ==> self.adjacent(n.code, w)
        &&& (forall|w: usize| !#[trigger] sub.adjacent(n.code, w)) ==> forall|w: usize|
            #[trigger] self.adjacent(n.code, w) ==> !sub.has_code(w)
    }

    /// Every vertex of `sub` fits into this graph.
    pub open spec fn subgraph_of(self, sub: Graph) -> bool {
        forall|i: int| 0 <= i < sub.nodes@.len() ==> self.vertex_fits(sub, #[trigger] sub.nodes@[i])
    }

    fn contains_node_exec(&self, n: &Node) -> (r: bool)
        ensures
            r == self.contains_node(*n),
    {
        let mut k: usize = 0;
        while k < self.nodes.len()
            invariant
                k <= self.nodes@.len(),
                forall|j: int| 0 <= j < k ==> !#[trigger] self.nodes@[j].same(*n),
            decreases self.nodes@.len() - k,
        {
            if self.nodes[k] == *n {
                return true;
            }
            k += 1;
        }
        false
    }

    /// Whether `subgraph` is a subgraph of this graph, in the sense of
    /// `subgraph_of`.
    pub fn is_subgraph(&self, subgraph: &Graph) -> (r: bool)
        ensures
            r == self.subgraph_of(*subgraph),
    {
        let mut i: usize = 0;
        while i < subgraph.nodes.len()
            invariant
                i <= subgraph.nodes@.len(),
                forall|k: int|
                    0 <= k < i ==> self.vertex_fits(*subgraph, #[trigger] subgraph.nodes@[k]),
            decreases subgraph.nodes@.len() - i,
        {
            let n = &subgraph.nodes[i];
            if !self.contains_node_exec(n) {
                assert(!self.vertex_fits(*subgraph, subgraph.nodes@[i as int]));
                return false;
            }
            let sub_nbrs = subgraph.find_connected_nodes(n.code);
            let nbrs = self.find_connected_nodes(n.code);
            if sub_nbrs.len() == 0 {
                let mut j: usize = 0;
                while j < nbrs.len()
                    invariant
                        i < subgraph.nodes@.len(),
                        *n == subgraph.nodes@[i as int],
                        self.contains_node(*n),
                        forall|w: usize| sub_nbrs@.contains(w) <==> subgraph.adjacent(n.code, w),
                        forall|w: usize| nbrs@.contains(w) <==> self.adjacent(n.code, w),
                        sub_nbrs@.len() == 0,
                        j <= nbrs@.len(),
                        forall|k: int| 0 <= k < j ==> !subgraph.has_code(#[trigger] nbrs@[k]),
                    decreases nbrs@.len() - j,
                {
                    if subgraph.find_by_code(nbrs[j]).is_some() {
                        assert(nbrs@.contains(nbrs@[j as int]));
                        assert(forall|w: usize| !#[trigger] subgraph.adjacent(n.code, w)) by {
                            assert forall|w: usize| !#[trigger] subgraph.adjacent(n.code, w) by {
                                if subgraph.adjacent(n.code, w) {
                                    assert(sub_nbrs@.contains(w));
                                }
                            }
                        }
                        assert(!self.vertex_fits(*subgraph, subgraph.nodes@[i as int]));
                        return false;
                    }
                    j += 1;
                }
                assert forall|w: usize| #[trigger]
                    self.adjacent(n.code, w) implies !subgraph.has_code(w) by {
                    assert(nbrs@.contains(w));
                    let k = choose|k: int| 0 <= k < nbrs@.len() && nbrs@[k] == w;
                }
            } else {
                assert(sub_nbrs@.contains(sub_nbrs@[0]));
                assert(subgraph.adjacent(n.code, sub_nbrs@[0]));
            }
            let mut j: usize = 0;
            while j < sub_nbrs.len()
                invariant
                    i < subgraph.nodes@.len(),
                    *n == subgraph.nodes@[i as int],
                    self.contains_node(*n),
                    forall|w: usize| sub_nbrs@.contains(w) <==> subgraph.adjacent(n.code, w),
                    forall|w: usize| nbrs@.contains(w) <==> self.adjacent(n.code, w),
                    j <= sub_nbrs@.len(),
                    forall|k: int| 0 <= k < j ==> self.adjacent(n.code, #[trigger] sub_nbrs@[k]),
                decreases sub_nbrs@.len() - j,
            {
                if !holds(&nbrs, sub_nbrs[j]) {
                    assert(sub_nbrs@.contains(sub_nbrs@[j as int]));
                    assert(!self.vertex_fits(*subgraph, subgraph.nodes@[i as int]));
                    return false;
                }
                j += 1;
            }
            assert forall|w: usize| #[trigger]
                subgraph.adjacent(n.code, w) implies self.adjacent(n.code, w) by {
                assert(sub_nbrs@.contains(w));
                let k = choose|k: int| 0 <= k < sub_nbrs@.len() && sub_nbrs@[k] == w;
            }
            assert(self.vertex_fits(*subgraph, subgraph.nodes@[i as int]));
            i += 1;
        }
        true
    }
}

} // verus!

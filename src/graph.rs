//! The graph store: vertices, the edge list, and the queries and mutations
//! over them.

use vstd::prelude::*;

verus! {

/// Why a mutation of the graph was refused.
#[derive(Clone, Copy, Debug, PartialEq, Eq, Structural)]
pub enum GraphError {
    /// An edge between the two vertices is already present.
    EdgeAlreadyExists,
    /// No edge joins the two vertices.
    EdgeNotFound,
    /// The graph is weighted already.
    AlreadyWeighted,
}

/// A vertex: a place with a caller-assigned code, a name and a category.
#[derive(Debug)]
pub struct Node {
    pub code: usize,
    pub name: String,
    pub local_type: String,
}

impl Node {
    /// Two vertices agree in code, name and category.
    pub open spec fn same(self, o: Node) -> bool {
        &&& self.code == o.code
        &&& self.name@ == o.name@
        &&& self.local_type@ == o.local_type@
    }
}

impl PartialEq for Node {
    fn eq(&self, o: &Node) -> (r: bool)
        ensures
            r == self.same(*o),
    {
        self.code == o.code && self.name == o.name && self.local_type == o.local_type
    }
}

impl vstd::std_specs::cmp::PartialEqSpecImpl for Node {
    open spec fn obeys_eq_spec() -> bool {
        true
    }

    open spec fn eq_spec(&self, o: &Node) -> bool {
        self.same(*o)
    }
}

/// An undirected edge between the vertices with codes `from` and `to`;
/// `from == to` is a loop.
#[derive(Clone, Copy, Debug, PartialEq, Eq, Structural)]
pub struct Edge {
    pub from: usize,
    pub to: usize,
    pub weight: u32,
}

impl Edge {
    /// The edge joins `a` and `b`, in either order.
    pub open spec fn joins(self, a: usize, b: usize) -> bool {
        (self.from == a && self.to == b) || (self.from == b && self.to == a)
    }

    /// Whether the edge joins `from` and `to`, in either order.
    pub fn has(&self, from: usize, to: usize) -> (r: bool)
        ensures
            r == self.joins(from, to),
    {
        (self.from == from && self.to == to) || (self.from == to && self.to == from)
    }
}

/// Whether some vertex in `nodes` has the code `code`.
pub fn node_exists(nodes: &Vec<Node>, code: usize) -> (r: bool)
    ensures
        r == exists|i: int| 0 <= i < nodes@.len() && #[trigger] nodes@[i].code == code,
{
    let mut i: usize = 0;
    while i < nodes.len()
        invariant
            i <= nodes@.len(),
            forall|j: int| 0 <= j < i ==> #[trigger] nodes@[j].code != code,
        decreases nodes@.len() - i,
    {
        if nodes[i].code == code {
            return true;
        }
        i += 1;
    }
    false
}

/// A graph: its vertices, its edges, whether its edges carry weights, and
/// the number of vertices it was built with.
#[derive(Debug)]
pub struct Graph {
    pub is_weighted: bool,
    pub size: usize,
    pub edges: Vec<Edge>,
    pub nodes: Vec<Node>,
}

impl Graph {
    /// Some vertex has the code `c`.
    pub open spec fn has_code(self, c: usize) -> bool {
        exists|i: int| 0 <= i < self.nodes@.len() && #[trigger] self.nodes@[i].code == c
    }

    /// Some edge joins `a` and `b`.
    pub open spec fn adjacent(self, a: usize, b: usize) -> bool {
        exists|i: int| 0 <= i < self.edges@.len() && #[trigger] self.edges@[i].joins(a, b)
    }

    /// `i` is the position of the first vertex with code `c`.
    pub open spec fn first_node_at(self, i: int, c: usize) -> bool {
        &&& 0 <= i < self.nodes@.len()
        &&& self.nodes@[i].code == c
        &&& forall|j: int| 0 <= j < i ==> #[trigger] self.nodes@[j].code != c
    }

    /// The first vertex with code `c` (meaningful when there is one).
    pub open spec fn node_with(self, c: usize) -> Node {
        self.nodes@[choose|i: int| self.first_node_at(i, c)]
    }

    /// `i` is the position of the first edge that joins `a` and `b`.
    pub open spec fn first_edge_at(self, i: int, a: usize, b: usize) -> bool {
        &&& 0 <= i < self.edges@.len()
        &&& self.edges@[i].joins(a, b)
        &&& forall|j: int| 0 <= j < i ==> !#[trigger] self.edges@[j].joins(a, b)
    }

    /// The position of the first edge that joins `a` and `b` (meaningful
    /// when there is one).
    pub open spec fn edge_index(self, a: usize, b: usize) -> int {
        choose|i: int| self.first_edge_at(i, a, b)
    }

    /// The first edge that joins `a` and `b` (meaningful when there is one).
    pub open spec fn edge_between(self, a: usize, b: usize) -> Edge {
        self.edges@[self.edge_index(a, b)]
    }

    /// No two vertices share a code, and no two edges join the same
    /// unordered pair.
    pub open spec fn wf(self) -> bool {
        &&& forall|i: int, j: int|
            0 <= i < j < self.nodes@.len() ==> #[trigger] self.nodes@[i].code
                != #[trigger] self.nodes@[j].code
        &&& forall|i: int, j: int|
            0 <= i < j < self.edges@.len() ==> !#[trigger] self.edges@[j].joins(
                #[trigger] self.edges@[i].from,
                self.edges@[i].to,
            )
    }

    /// Every two vertices with distinct codes are joined by an edge.
    pub open spec fn complete(self) -> bool {
        forall|i: int, j: int|
            0 <= i < self.nodes@.len() && 0 <= j < self.nodes@.len() && #[trigger] self.nodes@[i].code
                != #[trigger] self.nodes@[j].code ==> self.adjacent(
                self.nodes@[i].code,
                self.nodes@[j].code,
            )
    }

    /// The vertex at the first position with code `c` is `node_with(c)`.
    pub proof fn lemma_first_node(self, i: int, c: usize)
        requires
            self.first_node_at(i, c),
        ensures
            self.node_with(c) == self.nodes@[i],
    {
        let k = choose|k: int| self.first_node_at(k, c);
        assert(self.first_node_at(k, c));
        if k < i {
            assert(self.nodes@[k].code != c);
        } else if i < k {
            assert(self.nodes@[i].code != c);
        }
    }

    /// The first position of an edge that joins `a` and `b` is
    /// `edge_index(a, b)`.
    pub proof fn lemma_first_edge(self, i: int, a: usize, b: usize)
        requires
            self.first_edge_at(i, a, b),
        ensures
            self.edge_index(a, b) == i,
            self.edge_between(a, b) == self.edges@[i],
    {
        let k = choose|k: int| self.first_edge_at(k, a, b);
        assert(self.first_edge_at(k, a, b));
        if k < i {
            assert(!self.edges@[k].joins(a, b));
        } else if i < k {
            assert(!self.edges@[i].joins(a, b));
        }
    }

    fn node_position(&self, code: usize) -> (r: Option<usize>)
        ensures
            match r {
                Some(i) => self.first_node_at(i as int, code),
                None => !self.has_code(code),
            },
    {
        let mut i: usize = 0;
        while i < self.nodes.len()
            invariant
                i <= self.nodes@.len(),
                forall|j: int| 0 <= j < i ==> #[trigger] self.nodes@[j].code != code,
            decreases self.nodes@.len() - i,
        {
            if self.nodes[i].code == code {
                return Some(i);
            }
            i += 1;
        }
        None
    }

    fn edge_position(&self, a: usize, b: usize) -> (r: Option<usize>)
        ensures
            match r {
                Some(i) => self.first_edge_at(i as int, a, b),
                None => !self.adjacent(a, b),
            },
    {
        let mut i: usize = 0;
        while i < self.edges.len()
            invariant
                i <= self.edges@.len(),
                forall|j: int| 0 <= j < i ==> !#[trigger] self.edges@[j].joins(a, b),
            decreases self.edges@.len() - i,
        {
            if self.edges[i].has(a, b) {
                return Some(i);
            }
            i += 1;
        }
        None
    }

    /// Marks the graph weighted; a graph that is weighted already is left
    /// as it is.
    pub fn make_weighted(&mut self) -> (r: Result<(), GraphError>)
        ensures
            old(self).is_weighted ==> r == Err::<(), GraphError>(GraphError::AlreadyWeighted)
                && *final(self) == *old(self),
            !old(self).is_weighted ==> r == Ok::<(), GraphError>(()) && *final(self) == (Graph {
                is_weighted: true,
                ..*old(self)
            }),
    {
        if self.is_weighted {
            return Err(GraphError::AlreadyWeighted);
        }
        self.is_weighted = true;
        Ok(())
    }

    /// The first vertex with the given code, if any.
    pub fn find_by_code(&self, code: usize) -> (r: Option<&Node>)
        ensures
            r.is_some() == self.has_code(code),
            r.is_some() ==> *r.unwrap() == self.node_with(code) && r.unwrap().code == code,
    {
        match self.node_position(code) {
            Some(i) => {
                proof {
                    self.lemma_first_node(i as int, code);
                }
                Some(&self.nodes[i])
            },
            None => None,
        }
    }

    /// The first edge that joins `from` and `to`, in either order, if any.
    pub fn find_edge_by_from_to(&self, from: usize, to: usize) -> (r: Option<&Edge>)
        ensures
            r.is_some() == self.adjacent(from, to),
            r.is_some() ==> *r.unwrap() == self.edge_between(from, to),
    {
        match self.edge_position(from, to) {
            Some(i) => {
                proof {
                    self.lemma_first_edge(i as int, from, to);
                }
                Some(&self.edges[i])
            },
            None => None,
        }
    }

    /// Appends `edge`, unless an edge already joins its two ends.
    pub fn add_edge(&mut self, edge: Edge) -> (r: Result<(), GraphError>)
        ensures
            old(self).adjacent(edge.from, edge.to) ==> r == Err::<(), GraphError>(
                GraphError::EdgeAlreadyExists,
            ) && *final(self) == *old(self),
            !old(self).adjacent(edge.from, edge.to) ==> r == Ok::<(), GraphError>(())
                && final(self).edges@ == old(self).edges@.push(edge) && final(self).nodes
                == old(self).nodes && final(self).is_weighted == old(self).is_weighted
                && final(self).size == old(self).size,
            old(self).wf() ==> final(self).wf(),
    {
        match self.edge_position(edge.from, edge.to) {
            Some(_) => Err(GraphError::EdgeAlreadyExists),
            None => {
                let ghost before = self.edges@;
                let ghost was_wf = self.wf();
                self.edges.push(edge);
                proof {
                    if was_wf {
                        assert forall|i: int, j: int|
                            0 <= i < j < self.edges@.len() implies !#[trigger] self.edges@[j].joins(
                            #[trigger] self.edges@[i].from,
                            self.edges@[i].to,
                        ) by {
                            if j == before.len() {
                                if self.edges@[j].joins(self.edges@[i].from, self.edges@[i].to) {
                                    assert(before[i].joins(edge.from, edge.to));
                                }
                            } else {
                                assert(self.edges@[i] == before[i] && self.edges@[j] == before[j]);
                            }
                        }
                    }
                }
                Ok(())
            },
        }
    }

    /// Removes the first edge that joins `from` and `to`, in either order.
    pub fn remove_edge(&mut self, from: usize, to: usize) -> (r: Result<(), GraphError>)
        ensures
            !old(self).adjacent(from, to) ==> r == Err::<(), GraphError>(GraphError::EdgeNotFound)
                && *final(self) == *old(self),
            old(self).adjacent(from, to) ==> r == Ok::<(), GraphError>(()) && final(self).edges@
                == old(self).edges@.remove(old(self).edge_index(from, to)) && final(self).nodes
                == old(self).nodes && final(self).is_weighted == old(self).is_weighted
                && final(self).size == old(self).size,
            old(self).wf() ==> final(self).wf(),
    {
        match self.edge_position(from, to) {
            Some(i) => {
                proof {
                    self.lemma_first_edge(i as int, from, to);
                }
                let ghost before = self.edges@;
                let ghost was_wf = self.wf();
                self.edges.remove(i);
                proof {
                    if was_wf {
                        assert forall|x: int, y: int|
                            0 <= x < y < self.edges@.len() implies !#[trigger] self.edges@[y].joins(
                            #[trigger] self.edges@[x].from,
                            self.edges@[x].to,
                        ) by {
                            let x0 = if x < i { x } else { x + 1 };
                            let y0 = if y < i { y } else { y + 1 };
                            assert(self.edges@[x] == before[x0] && self.edges@[y] == before[y0]);
                        }
                    }
                }
                Ok(())
            },
            None => Err(GraphError::EdgeNotFound),
        }
    }

    /// Sets the weight of `edge`.
    pub fn add_weight(edge: &mut Edge, weight: u32)
        ensures
            *final(edge) == (Edge { weight, ..*old(edge) }),
    {
        edge.weight = weight;
    }

    pub(crate) fn adjacent_codes(&self, a: usize, b: usize) -> (r: bool)
        ensures
            r == self.adjacent(a, b),
    {
        self.edge_position(a, b).is_some()
    }

    /// Whether an edge joins the two vertices.
    pub fn is_adjacent(&self, node1: &Node, node2: &Node) -> (r: bool)
        ensures
            r == self.adjacent(node1.code, node2.code),
    {
        self.adjacent_codes(node1.code, node2.code)
    }

    /// Whether the vertex has a loop, an edge to itself.
    pub fn has_buckle(&self, node: &Node) -> (r: bool)
        ensures
            r == self.adjacent(node.code, node.code),
    {
        self.adjacent_codes(node.code, node.code)
    }

    /// Whether every two vertices with distinct codes are joined by an edge.
    pub fn is_complete(&self) -> (r: bool)
        ensures
            r == self.complete(),
    {
        let n = self.nodes.len();
        let mut i: usize = 0;
        while i < n
            invariant
                n == self.nodes@.len(),
                i <= n,
                forall|x: int, y: int|
                    0 <= x < i && 0 <= y < n && #[trigger] self.nodes@[x].code
                        != #[trigger] self.nodes@[y].code ==> self.adjacent(
                        self.nodes@[x].code,
                        self.nodes@[y].code,
                    ),
            decreases n - i,
        {
            let mut j: usize = 0;
            while j < n
                invariant
                    n == self.nodes@.len(),
                    i < n,
                    j <= n,
                    forall|x: int, y: int|
                        0 <= x < i && 0 <= y < n && #[trigger] self.nodes@[x].code
                            != #[trigger] self.nodes@[y].code ==> self.adjacent(
                            self.nodes@[x].code,
                            self.nodes@[y].code,
                        ),
                    forall|y: int|
                        0 <= y < j && self.nodes@[i as int].code != #[trigger] self.nodes@[y].code
                            ==> self.adjacent(self.nodes@[i as int].code, self.nodes@[y].code),
                decreases n - j,
            {
                let a = self.nodes[i].code;
                let b = self.nodes[j].code;
                if a != b && !self.adjacent_codes(a, b) {
                    return false;
                }
                j += 1;
            }
            i += 1;
        }
        true
    }

    /// Whether no two vertices share a code and no two edges join the same
    /// unordered pair: the check that a graph read from storage must pass.
    pub fn is_well_formed(&self) -> (r: bool)
        ensures
            r == self.wf(),
    {
        let n = self.nodes.len();
        let mut i: usize = 0;
        while i < n
            invariant
                n == self.nodes@.len(),
                i <= n,
                forall|x: int, y: int|
                    0 <= x < y < n && x < i ==> #[trigger] self.nodes@[x].code
                        != #[trigger] self.nodes@[y].code,
            decreases n - i,
        {
            let mut j: usize = i + 1;
            while j < n
                invariant
                    n == self.nodes@.len(),
                    i < j <= n,
                    forall|x: int, y: int|
                        0 <= x < y < n && x < i ==> #[trigger] self.nodes@[x].code
                            != #[trigger] self.nodes@[y].code,
                    forall|y: int| i < y < j ==> self.nodes@[i as int].code != #[trigger] self.nodes@[y].code,
                decreases n - j,
            {
                if self.nodes[i].code == self.nodes[j].code {
                    return false;
                }
                j += 1;
            }
            i += 1;
        }
        let m = self.edges.len();
        let mut i: usize = 0;
        while i < m
            invariant
                m == self.edges@.len(),
                i <= m,
                forall|x: int, y: int|
                    0 <= x < y < m && x < i ==> !#[trigger] self.edges@[y].joins(
                        #[trigger] self.edges@[x].from,
                        self.edges@[x].to,
                    ),
            decreases m - i,
        {
            let mut j: usize = i + 1;
            while j < m
                invariant
                    m == self.edges@.len(),
                    i < j <= m,
                    forall|x: int, y: int|
                        0 <= x < y < m && x < i ==> !#[trigger] self.edges@[y].joins(
                            #[trigger] self.edges@[x].from,
                            self.edges@[x].to,
                        ),
                    forall|y: int|
                        i < y < j ==> !#[trigger] self.edges@[y].joins(
                            self.edges@[i as int].from,
                            self.edges@[i as int].to,
                        ),
                decreases m - j,
            {
                if self.edges[j].has(self.edges[i].from, self.edges[i].to) {
                    return false;
                }
                j += 1;
            }
            i += 1;
        }
        true
    }
}

} // verus!

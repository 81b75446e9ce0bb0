//! Text renderings of vertices, edges, paths and whole graphs.

use crate::graph::{Edge, Graph, Node};
use crate::tint::{
    decimal, decimal_of, maybe_painted, paint, paint_bold, paint_number, painted, Tint,
};
use vstd::prelude::*;

verus! {

/// `r` shows the vertex `n`: its code, name and category between two bars.
pub open spec fn node_shown(r: Seq<char>, n: Node) -> bool {
    exists|b1: Seq<char>, c: Seq<char>, nm: Seq<char>, ty: Seq<char>, b2: Seq<char>|
        #[trigger] painted(b1, "|"@, Tint::Green, false) && #[trigger] painted(
            c,
            decimal_of(n.code as nat),
            Tint::Cyan,
            false,
        ) && #[trigger] maybe_painted(nm, n.name@, Tint::Cyan) && #[trigger] maybe_painted(
            ty,
            n.local_type@,
            Tint::Cyan,
        ) && #[trigger] painted(b2, "|"@, Tint::Green, false) && r == b1 + "Código: "@ + c
            + ", Nome: "@ + nm + ", Tipo do local: "@ + ty + b2
}

/// `r` shows the edge `e`: its two ends, and its weight when `weighted`.
pub open spec fn edge_shown(r: Seq<char>, weighted: bool, e: Edge) -> bool {
    exists|a: Seq<char>, b: Seq<char>|
        #[trigger] painted(a, decimal_of(e.from as nat), Tint::Cyan, false) && #[trigger] painted(
            b,
            decimal_of(e.to as nat),
            Tint::Cyan,
            false,
        ) && r == a + " -> "@ + b + (if weighted {
            " Peso = "@ + decimal_of(e.weight as nat)
        } else {
            Seq::empty()
        })
}

/// The texts in `parts`, each followed by a line break.
pub open spec fn lines_of(parts: Seq<Seq<char>>) -> Seq<char>
    decreases parts.len(),
{
    if parts.len() == 0 {
        Seq::empty()
    } else {
        lines_of(parts.drop_last()) + parts.last() + seq!['\n']
    }
}

/// The texts in `parts`, separated by line breaks.
pub open spec fn joined_lines(parts: Seq<Seq<char>>) -> Seq<char>
    decreases parts.len(),
{
    if parts.len() == 0 {
        Seq::empty()
    } else if parts.len() == 1 {
        parts[0]
    } else {
        joined_lines(parts.drop_last()) + seq!['\n'] + parts.last()
    }
}

/// The texts in `parts`, one after the other.
pub open spec fn concat_of(parts: Seq<Seq<char>>) -> Seq<char>
    decreases parts.len(),
{
    if parts.len() == 0 {
        Seq::empty()
    } else {
        concat_of(parts.drop_last()) + parts.last()
    }
}

/// `r` shows the edges, one per line.
pub open spec fn edges_shown(r: Seq<char>, weighted: bool, edges: Seq<Edge>) -> bool {
    exists|parts: Seq<Seq<char>>|
        #[trigger] joined_lines(parts) == r && parts.len() == edges.len() && forall|i: int|
            0 <= i < parts.len() ==> edge_shown(#[trigger] parts[i], weighted, edges[i])
}

/// `r` shows the graph: each vertex on a line of its own, an empty line,
/// then the edges.
pub open spec fn graph_shown(r: Seq<char>, g: Graph) -> bool {
    exists|parts: Seq<Seq<char>>, e: Seq<char>|
        #[trigger] lines_of(parts) + seq!['\n'] + e == r && parts.len() == g.nodes@.len() && (forall|
            i: int,
        |
            0 <= i < parts.len() ==> node_shown(#[trigger] parts[i], g.nodes@[i]))
            && #[trigger] edges_shown(e, g.is_weighted, g.edges@)
}

/// `r` is the line of the list of vertices that shows `n`, after its code.
pub open spec fn listed(r: Seq<char>, n: Node) -> bool {
    exists|c: Seq<char>, s: Seq<char>|
        #[trigger] painted(c, decimal_of(n.code as nat), Tint::Magenta, true) && #[trigger] node_shown(
            s,
            n,
        ) && r == seq!['\n'] + c + " - "@ + s
}

/// A vertex of a path: its code between brackets, then its name.
pub open spec fn path_step_text(n: Node) -> Seq<char> {
    seq!['['] + decimal_of(n.code as nat) + seq![']', ' '] + n.name@
}

/// The vertices of a path, separated by arrows.
pub open spec fn path_text(ns: Seq<&Node>) -> Seq<char>
    decreases ns.len(),
{
    if ns.len() == 0 {
        Seq::empty()
    } else if ns.len() == 1 {
        path_step_text(*ns[0])
    } else {
        path_text(ns.drop_last()) + seq![' ', '<', '-', '>', ' '] + path_step_text(*ns.last())
    }
}

impl Node {
    /// The vertex as one line of text.
    pub fn render(&self) -> (r: String)
        ensures
            node_shown(r@, *self),
    {
        proof {
            reveal_strlit("|");
        }
        let mut r = paint("|", Tint::Green);
        let ghost b1 = r@;
        r.append("Código: ");
        let c = paint_number(self.code as u64, Tint::Cyan);
        r.append(c.as_str());
        r.append(", Nome: ");
        let nm = paint(self.name.as_str(), Tint::Cyan);
        r.append(nm.as_str());
        r.append(", Tipo do local: ");
        let ty = paint(self.local_type.as_str(), Tint::Cyan);
        r.append(ty.as_str());
        let b2 = paint("|", Tint::Green);
        r.append(b2.as_str());
        assert(maybe_painted(nm@, self.name@, Tint::Cyan));
        assert(maybe_painted(ty@, self.local_type@, Tint::Cyan));
        assert(painted(b1, "|"@, Tint::Green, false));
        assert(painted(b2@, "|"@, Tint::Green, false));
        r
    }
}

fn render_edge(weighted: bool, e: &Edge) -> (r: String)
    ensures
        edge_shown(r@, weighted, *e),
{
    let a = paint_number(e.from as u64, Tint::Cyan);
    let b = paint_number(e.to as u64, Tint::Cyan);
    let mut r = String::new();
    r.append(a.as_str());
    r.append(" -> ");
    r.append(b.as_str());
    if weighted {
        r.append(" Peso = ");
        let w = decimal(e.weight as u64);
        r.append(w.as_str());
    }
    assert(r@ == a@ + " -> "@ + b@ + (if weighted {
        " Peso = "@ + decimal_of(e.weight as nat)
    } else {
        Seq::empty()
    }));
    r
}

/// The edges, one per line, each with its weight when `weighted`.
pub fn format_edges(weighted: bool, edges: &Vec<Edge>) -> (r: String)
    ensures
        edges_shown(r@, weighted, edges@),
{
    let mut r = String::new();
    let ghost mut parts: Seq<Seq<char>> = Seq::empty();
    let mut i: usize = 0;
    while i < edges.len()
        invariant
            i <= edges@.len(),
            parts.len() == i,
            r@ == joined_lines(parts),
            forall|k: int| 0 <= k < i ==> edge_shown(#[trigger] parts[k], weighted, edges@[k]),
        decreases edges@.len() - i,
    {
        let line = render_edge(weighted, &edges[i]);
        if i > 0 {
            r.append("\n");
            proof {
                reveal_strlit("\n");
            }
        }
        r.append(line.as_str());
        proof {
            let old_parts = parts;
            parts = parts.push(line@);
            assert(parts.drop_last() =~= old_parts);
            if i == 0 {
                assert(r@ =~= line@);
            }
        }
        i += 1;
    }
    assert(joined_lines(parts) == r@);
    r
}

impl Graph {
    /// The graph as text: each vertex on a line of its own, an empty line,
    /// then the edges, with their weights when the graph is weighted.
    pub fn render(&self) -> (r: String)
        ensures
            graph_shown(r@, *self),
    {
        let mut r = String::new();
        let ghost mut parts: Seq<Seq<char>> = Seq::empty();
        let mut i: usize = 0;
        proof {
            reveal_strlit("\n");
        }
        while i < self.nodes.len()
            invariant
                i <= self.nodes@.len(),
                parts.len() == i,
                r@ == lines_of(parts),
                forall|k: int| 0 <= k < i ==> node_shown(#[trigger] parts[k], self.nodes@[k]),
                "\n"@ == seq!['\n'],
            decreases self.nodes@.len() - i,
        {
            let line = self.nodes[i].render();
            r.append(line.as_str());
            r.append("\n");
            proof {
                let old_parts = parts;
                parts = parts.push(line@);
                assert(parts.drop_last() =~= old_parts);
            }
            i += 1;
        }
        r.append("\n");
        let e = format_edges(self.is_weighted, &self.edges);
        r.append(e.as_str());
        assert(lines_of(parts) + seq!['\n'] + e@ == r@);
        r
    }
}

/// The list of vertices: for each, a line break, its code, and the vertex.
pub fn format_available_nodes(graph: &Graph) -> (r: String)
    ensures
        exists|parts: Seq<Seq<char>>|
            #[trigger] concat_of(parts) == r@ && parts.len() == graph.nodes@.len() && forall|i: int|
                0 <= i < parts.len() ==> listed(#[trigger] parts[i], graph.nodes@[i]),
{
    let mut r = String::new();
    let ghost mut parts: Seq<Seq<char>> = Seq::empty();
    let mut i: usize = 0;
    while i < graph.nodes.len()
        invariant
            i <= graph.nodes@.len(),
            parts.len() == i,
            r@ == concat_of(parts),
            forall|k: int| 0 <= k < i ==> listed(#[trigger] parts[k], graph.nodes@[k]),
        decreases graph.nodes@.len() - i,
    {
        let node = &graph.nodes[i];
        let ghost start = r@;
        let c = decimal(node.code as u64);
        proof {
            crate::tint::lemma_decimal_plain(node.code as nat);
            reveal_strlit("\n");
        }
        let cp = paint_bold(c.as_str(), Tint::Magenta);
        let s = node.render();
        let mut line = String::from_str("\n");
        line.append(cp.as_str());
        line.append(" - ");
        line.append(s.as_str());
        r.append(line.as_str());
        proof {
            assert(painted(cp@, decimal_of(node.code as nat), Tint::Magenta, true));
            assert(node_shown(s@, *node));
            assert(line@ == seq!['\n'] + cp@ + " - "@ + s@);
            assert(listed(line@, *node));
            let old_parts = parts;
            parts = parts.push(line@);
            assert(parts.drop_last() =~= old_parts);
        }
        i += 1;
    }
    assert(concat_of(parts) == r@);
    r
}

/// A path as text: each vertex as its code between brackets and its name,
/// separated by arrows.
pub fn get_string_path(nodes: Vec<&Node>) -> (r: String)
    ensures
        r@ == path_text(nodes@),
{
    let mut r = String::new();
    let mut i: usize = 0;
    proof {
        reveal_strlit(" <-> ");
        reveal_strlit("[");
        reveal_strlit("] ");
    }
    while i < nodes.len()
        invariant
            i <= nodes@.len(),
            r@ == path_text(nodes@.take(i as int)),
            " <-> "@ == seq![' ', '<', '-', '>', ' '],
            "["@ == seq!['['],
            "] "@ == seq![']', ' '],
        decreases nodes@.len() - i,
    {
        let ghost before = r@;
        if i > 0 {
            r.append(" <-> ");
        }
        r.append("[");
        let d = decimal(nodes[i].code as u64);
        r.append(d.as_str());
        r.append("] ");
        r.append(nodes[i].name.as_str());
        proof {
            assert(nodes@.take(i + 1).drop_last() =~= nodes@.take(i as int));
            assert(nodes@.take(i + 1).last() == nodes@[i as int]);
            if i == 0 {
                assert(before =~= Seq::<char>::empty());
                assert(r@ =~= path_step_text(*nodes@[0]));
            }
        }
        i += 1;
    }
    assert(nodes@.take(nodes@.len() as int) =~= nodes@);
    r
}

} // verus!

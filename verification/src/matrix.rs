//! A directed graph over a fixed number of nodes, kept as a square matrix of
//! flags: the cell in row `a` and column `b` says whether an edge leads from
//! node `a` to node `b`.

use vstd::prelude::*;

verus! {

/// A node of the matrix graph: its index, and a name for the reader.
#[derive(Debug)]
pub struct Vertex<'a> {
    pub id: usize,
    pub name: &'a str,
}

impl<'a> Vertex<'a> {
    /// The node with this index and this name.
    pub fn new(id: usize, name: &'a str) -> (v: Self)
        ensures
            v.id == id,
            v.name == name,
    {
        Self { id, name }
    }
}

/// One cell of the matrix.
#[derive(Debug, Clone, Copy)]
pub struct Edge {
    pub edge: bool,
}

impl Edge {
    /// The cell that says: no edge.
    pub fn new() -> (e: Self)
        ensures
            !e.edge,
    {
        Self { edge: false }
    }

    /// The cell that says: an edge.
    pub fn set_edge() -> (e: Self)
        ensures
            e.edge,
    {
        Edge { edge: true }
    }
}

/// Why an edge was not entered.
#[derive(Debug, Clone, Copy, PartialEq, Eq)]
pub enum MatrixError {
    /// One of the two nodes has an index that the graph does not have.
    OutOfRange,
}

/// The matrix graph.
#[derive(Debug)]
pub struct Graph {
    nodes: usize,
    graph: Vec<Vec<Edge>>,
}

impl View for Graph {
    type V = Seq<Seq<bool>>;

    /// The flags, row by row.
    open spec fn view(&self) -> Seq<Seq<bool>> {
        self.flags()
    }
}

impl Graph {
    /// The flags, row by row.
    pub closed spec fn flags(&self) -> Seq<Seq<bool>> {
        Seq::new(
            self.graph@.len(),
            |a: int| Seq::new(self.graph@[a]@.len(), |b: int| self.graph@[a]@[b].edge),
        )
    }

    /// The number of nodes that the graph was made for.
    pub closed spec fn node_count(&self) -> nat {
        self.nodes as nat
    }

    /// The matrix is square, with one row and one column for each node.
    pub open spec fn wf(&self) -> bool {
        &&& self@.len() == self.node_count()
        &&& forall|a: int| 0 <= a < self@.len() ==> (#[trigger] self@[a]).len() == self.node_count()
    }

    /// Whether the graph says that an edge leads from node `a` to node `b`.
    pub open spec fn linked(&self, a: int, b: int) -> bool {
        0 <= a < self.node_count() && 0 <= b < self.node_count() && self@[a][b]
    }

    /// A graph of `nodes` nodes without edges.
    pub fn new(nodes: usize) -> (g: Self)
        ensures
            g.wf(),
            g.node_count() == nodes,
            forall|a: int, b: int| !g.linked(a, b),
    {
        let mut graph: Vec<Vec<Edge>> = Vec::new();
        let mut a: usize = 0;
        while a < nodes
            invariant
                a <= nodes,
                graph@.len() == a,
                forall|i: int| 0 <= i < a ==> (#[trigger] graph@[i])@.len() == nodes,
                forall|i: int, j: int|
                    0 <= i < a && 0 <= j < nodes ==> !(#[trigger] graph@[i]@[j]).edge,
            decreases nodes - a,
        {
            let mut row: Vec<Edge> = Vec::new();
            let mut b: usize = 0;
            while b < nodes
                invariant
                    b <= nodes,
                    row@.len() == b,
                    forall|j: int| 0 <= j < b ==> !(#[trigger] row@[j]).edge,
                decreases nodes - b,
            {
                row.push(Edge::new());
                b += 1;
            }
            graph.push(row);
            a += 1;
        }
        Self { nodes, graph }
    }

    /// Whether the graph has no node.
    pub fn is_empty(&self) -> (empty: bool)
        ensures
            empty == (self.node_count() == 0),
    {
        self.nodes == 0
    }

    /// The number of nodes.
    pub fn len(&self) -> (n: usize)
        ensures
            n == self.node_count(),
    {
        self.nodes
    }

    /// Enters an edge from `n1` to `n2`. Where one of the two is not a node
    /// of this graph, nothing changes and the error says so.
    pub fn add_edge(&mut self, n1: &Vertex, n2: &Vertex) -> (done: Result<(), MatrixError>)
        requires
            old(self).wf(),
        ensures
            final(self).wf(),
            final(self).node_count() == old(self).node_count(),
            match done {
                Ok(_) => {
                    &&& n1.id < old(self).node_count()
                    &&& n2.id < old(self).node_count()
                    &&& final(self)@ == old(self)@.update(
                        n1.id as int,
                        old(self)@[n1.id as int].update(n2.id as int, true),
                    )
                    &&& forall|a: int, b: int| #[trigger]
                        final(self).linked(a, b) == (old(self).linked(a, b) || (a == n1.id && b
                            == n2.id))
                },
                Err(e) => {
                    &&& e == MatrixError::OutOfRange
                    &&& n1.id >= old(self).node_count() || n2.id >= old(self).node_count()
                    &&& final(self)@ == old(self)@
                },
            },
    {
        if n1.id < self.nodes && n2.id < self.nodes {
            proof {
                assert(self@[n1.id as int].len() == self.graph@[n1.id as int]@.len());
            }
            self.graph[n1.id][n2.id] = Edge::set_edge();
            proof {
                let row = old(self)@[n1.id as int].update(n2.id as int, true);
                assert(self@[n1.id as int] =~= row);
                assert forall|a: int| 0 <= a < self@.len() implies #[trigger] self@[a] =~= old(
                    self,
                )@.update(n1.id as int, row)[a] by {
                    if a != n1.id {
                        assert(self.graph@[a] == old(self).graph@[a]);
                    }
                }
                assert(self@ =~= old(self)@.update(n1.id as int, row));
            }
            Ok(())
        } else {
            Err(MatrixError::OutOfRange)
        }
    }

    /// Whether an edge was entered from `n1` to `n2`. Where one of the two is
    /// not a node of this graph, the error says so.
    pub fn has_edge(&self, n1: &Vertex, n2: &Vertex) -> (found: Result<bool, MatrixError>)
        requires
            self.wf(),
        ensures
            match found {
                Ok(set) => {
                    &&& n1.id < self.node_count()
                    &&& n2.id < self.node_count()
                    &&& set == self.linked(n1.id as int, n2.id as int)
                },
                Err(e) => {
                    &&& e == MatrixError::OutOfRange
                    &&& n1.id >= self.node_count() || n2.id >= self.node_count()
                },
            },
    {
        if n1.id < self.nodes && n2.id < self.nodes {
            proof {
                assert(self@[n1.id as int].len() == self.graph@[n1.id as int]@.len());
            }
            Ok(self.graph[n1.id][n2.id].edge)
        } else {
            Err(MatrixError::OutOfRange)
        }
    }
}

} // verus!

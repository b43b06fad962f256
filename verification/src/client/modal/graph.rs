use vstd::prelude::*;

verus! {

pub type NodeIndex = usize;

pub type EdgeIndex = usize;

/// A node of a `Graph`: its data and the indexes of the edges that leave it, in the order they
/// were added.
pub struct Node<N> {
    pub data: N,
    pub edge_indexes: Vec<EdgeIndex>,
}

/// An edge of a `Graph`: its data and the index of the node it leads to.
pub struct Edge<E> {
    pub data: E,
    pub target: NodeIndex,
}

/// A directed graph kept in two vectors; nodes and edges are named by their index.
pub struct Graph<N, E> {
    pub nodes: Vec<Node<N>>,
    pub edges: Vec<Edge<E>>,
}

impl<N, E> Graph<N, E> {
    /// Every edge index of every node names an edge, and every edge leads to a node.
    pub open spec fn wf(&self) -> bool {
        &&& forall|n: int, k: int|
            0 <= n < self.nodes@.len() && 0 <= k < self.nodes@[n].edge_indexes@.len()
                ==> #[trigger] self.nodes@[n].edge_indexes@[k] < self.edges@.len()
        &&& forall|e: int| 0 <= e < self.edges@.len() ==> #[trigger] self.edges@[e].target < self.nodes@.len()
    }

    pub fn new() -> (r: Graph<N, E>)
        ensures
            r.nodes@.len() == 0,
            r.edges@.len() == 0,
    {
        Graph { nodes: Vec::new(), edges: Vec::new() }
    }

    /// Adds a node with no edges and returns its index.
    pub fn add_node(&mut self, data: N) -> (index: NodeIndex)
        ensures
            index == old(self).nodes@.len(),
            final(self).nodes@.len() == old(self).nodes@.len() + 1,
            forall|i: int| 0 <= i < old(self).nodes@.len() ==> final(self).nodes@[i] == old(self).nodes@[i],
            final(self).nodes@[index as int].data == data,
            final(self).nodes@[index as int].edge_indexes@ == Seq::<EdgeIndex>::empty(),
            final(self).edges == old(self).edges,
    {
        let index = self.nodes.len();
        self.nodes.push(Node { data: data, edge_indexes: Vec::new() });
        index
    }

    /// Adds an edge from `source` to `target`; it becomes the last edge of `source`.
    pub fn add_edge(&mut self, source: NodeIndex, target: NodeIndex, data: E)
        requires
            source < old(self).nodes@.len(),
        ensures
            final(self).edges@ == old(self).edges@.push(Edge { data: data, target: target }),
            final(self).nodes@.len() == old(self).nodes@.len(),
            forall|i: int| 0 <= i < old(self).nodes@.len() && i != source ==> final(self).nodes@[i] == old(self).nodes@[i],
            final(self).nodes@[source as int].data == old(self).nodes@[source as int].data,
            final(self).nodes@[source as int].edge_indexes@
                == old(self).nodes@[source as int].edge_indexes@.push(old(self).edges@.len() as EdgeIndex),
    {
        let index = self.edges.len();
        self.edges.push(Edge { target: target, data: data });
        self.nodes[source].edge_indexes.push(index);
    }
}

} // verus!

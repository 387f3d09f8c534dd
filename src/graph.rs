mod edge;
mod node;

pub use edge::GraphEdge;
pub use node::GraphNode;

use vstd::prelude::*;

verus! {

/// A directed graph stored as an arena: nodes live in one vector and are
/// named by their index, which is stable because nodes are never removed.
#[derive(Debug)]
pub struct Graph<D, E> {
    nodes: Vec<GraphNode<D, E>>,
}

impl<D, E> View for Graph<D, E> {
    type V = Seq<GraphNode<D, E>>;

    closed spec fn view(&self) -> Seq<GraphNode<D, E>> {
        self.nodes@
    }
}

impl<D, E> Graph<D, E> {
    /// Every edge points at a node of the graph.
    pub open spec fn wf(&self) -> bool {
        forall|i: int, j: int|
            0 <= i < self@.len() && 0 <= j < self@[i].spec_edges().len()
                ==> (#[trigger] self@[i].spec_edges()[j]).pointer < self@.len()
    }

    /// The edges of the node with handle `i`.
    pub open spec fn edges_of(&self, i: int) -> Seq<GraphEdge<E>> {
        self@[i].spec_edges()
    }

    pub fn new() -> (r: Self)
        ensures
            r@ == Seq::<GraphNode<D, E>>::empty(),
            r.wf(),
    {
        Self { nodes: Vec::new() }
    }

    /// Adds a new node, without edges, and returns its handle.
    pub fn add_node(&mut self, node_data: D) -> (r: usize)
        requires
            old(self)@.len() < usize::MAX,
        ensures
            r == old(self)@.len(),
            final(self)@.len() == old(self)@.len() + 1,
            final(self)@.take(r as int) == old(self)@,
            final(self)@[r as int].spec_data() == node_data,
            final(self)@[r as int].spec_edges() == Seq::<GraphEdge<E>>::empty(),
            old(self).wf() ==> final(self).wf(),
    {
        let node = GraphNode::new(node_data);
        let handle = self.nodes.len();
        self.nodes.push(node);
        proof {
            assert(self.nodes@.take(handle as int) =~= old(self).nodes@);
        }
        handle
    }

    /// The number of nodes.
    pub fn node_count(&self) -> (r: usize)
        ensures
            r == self@.len(),
    {
        self.nodes.len()
    }

    /// The handles of all nodes, in insertion order.
    pub fn iter_nodes(&self) -> (r: Vec<usize>)
        ensures
            r@.len() == self@.len(),
            forall|i: int| 0 <= i < r@.len() ==> #[trigger] r@[i] == i,
    {
        let mut handles: Vec<usize> = Vec::new();
        let n = self.nodes.len();
        let mut i: usize = 0;
        while i < n
            invariant
                n == self@.len(),
                i <= n,
                handles@.len() == i,
                forall|k: int| 0 <= k < i ==> #[trigger] handles@[k] == k,
            decreases n - i,
        {
            handles.push(i);
            i = i + 1;
        }
        handles
    }

    /// The node with handle `handle`.
    pub fn node(&self, handle: usize) -> (r: &GraphNode<D, E>)
        requires
            handle < self@.len(),
        ensures
            *r == self@[handle as int],
    {
        &self.nodes[handle]
    }

    /// Adds an edge to the node with handle `from`.
    pub fn add_edge(&mut self, from: usize, edge: GraphEdge<E>)
        requires
            from < old(self)@.len(),
        ensures
            final(self)@.len() == old(self)@.len(),
            final(self)@[from as int].spec_data() == old(self)@[from as int].spec_data(),
            final(self).edges_of(from as int) == old(self).edges_of(from as int).push(edge),
            forall|i: int|
                0 <= i < old(self)@.len() && i != from ==> #[trigger] final(self)@[i] == old(self)@[i],
            old(self).wf() && edge.pointer < old(self)@.len() ==> final(self).wf(),
    {
        let ghost target = edge.pointer;
        self.nodes[from].add_edge(edge);
        proof {
            if old(self).wf() && target < old(self)@.len() {
                assert forall|i: int, j: int|
                    0 <= i < self@.len() && 0 <= j < self@[i].spec_edges().len() implies
                    (#[trigger] self@[i].spec_edges()[j]).pointer < self@.len() by {
                    if i != from {
                        assert(self@[i] == old(self)@[i]);
                    } else if j < old(self)@[i].spec_edges().len() {
                        assert(self@[i].spec_edges()[j] == old(self)@[i].spec_edges()[j]);
                    }
                }
            }
        }
    }
}

} // verus!

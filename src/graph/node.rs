use vstd::prelude::*;

use super::GraphEdge;

verus! {

/// A node of the graph: its payload and its outgoing edges, in the order they were added.
#[derive(Debug)]
pub struct GraphNode<D, E> {
    data: D,
    edges: Vec<GraphEdge<E>>,
}

impl<D, E> GraphNode<D, E> {
    /// The payload of the node.
    pub closed spec fn spec_data(&self) -> D {
        self.data
    }

    /// The outgoing edges of the node, oldest first.
    pub closed spec fn spec_edges(&self) -> Seq<GraphEdge<E>> {
        self.edges@
    }

    pub fn new(data: D) -> (r: Self)
        ensures
            r.spec_data() == data,
            r.spec_edges() == Seq::<GraphEdge<E>>::empty(),
    {
        Self { data, edges: Vec::new() }
    }

    /// The node's edges, oldest first.
    pub fn iter_edges(&self) -> (r: &Vec<GraphEdge<E>>)
        ensures
            r@ == self.spec_edges(),
    {
        &self.edges
    }

    /// Adds a new edge to the node.
    pub fn add_edge(&mut self, edge: GraphEdge<E>)
        ensures
            final(self).spec_data() == old(self).spec_data(),
            final(self).spec_edges() == old(self).spec_edges().push(edge),
    {
        self.edges.push(edge);
    }

    /// Gets how many edges the node has.
    pub fn edges_count(&self) -> (r: usize)
        ensures
            r == self.spec_edges().len(),
    {
        self.edges.len()
    }

    /// The payload of the node.
    pub fn data(&self) -> (r: &D)
        ensures
            *r == self.spec_data(),
    {
        &self.data
    }

    /// Mutable access to the payload; the edges stay as they are.
    pub fn data_mut(&mut self) -> (r: &mut D)
        ensures
            *r == old(self).spec_data(),
            final(self).spec_data() == *final(r),
            final(self).spec_edges() == old(self).spec_edges(),
    {
        &mut self.data
    }
}

} // verus!

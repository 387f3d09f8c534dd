use vstd::prelude::*;

verus! {

/// A directed edge: its payload and the handle (index) of the node it points to.
#[derive(Debug)]
pub struct GraphEdge<E> {
    pub data: E,
    pub pointer: usize,
}

impl<E> GraphEdge<E> {
    pub fn new(data: E, pointer: usize) -> (r: Self)
        ensures
            r.data == data,
            r.pointer == pointer,
    {
        GraphEdge { data, pointer }
    }
}

} // verus!

//! A graph within a graph, ready to run.

use vstd::prelude::*;

verus! {

/// One who can run an inner graph on a part of an outer state.
pub trait StateProjector {
    /// The name of the inner graph.
    spec fn inner_name(&self) -> Seq<char>;

    /// The number of nodes of the inner graph.
    spec fn inner_count(&self) -> nat;

    /// The name of the inner graph.
    fn graph_name(&self) -> (name: &str)
        ensures
            name@ == self.inner_name(),
    ;

    /// The number of nodes of the inner graph.
    fn node_count(&self) -> (n: usize)
        ensures
            n == self.inner_count(),
    ;
}

/// A graph within a graph. `X` is the type of what runs it.
pub struct CompiledSubgraph<X> {
    pub projector: X,
    /// How many steps the inner run may take.
    pub max_steps: usize,
}

impl<X> CompiledSubgraph<X> {
    /// An inner graph with a step limit.
    pub fn new(projector: X, max_steps: usize) -> (s: Self)
        ensures
            s.projector == projector,
            s.max_steps == max_steps,
    {
        CompiledSubgraph { projector, max_steps }
    }

    /// The name of the inner graph.
    pub fn graph_name(&self) -> (name: &str) where X: StateProjector
        ensures
            name@ == self.projector.inner_name(),
    {
        self.projector.graph_name()
    }

    /// The number of nodes of the inner graph.
    pub fn node_count(&self) -> (n: usize) where X: StateProjector
        ensures
            n == self.projector.inner_count(),
    {
        self.projector.node_count()
    }
}

} // verus!

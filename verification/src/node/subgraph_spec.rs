//! A graph together with the part of an outer state that it works on.

use core::marker::PhantomData;
use vstd::prelude::*;

use crate::graph::graph_core::Graph;
use crate::node::compiled_subgraph::{CompiledSubgraph, StateProjector};
use crate::state::state_lens::StateLens;

verus! {

/// An inner graph and the lens through which it sees an outer state. `N` is the
/// type of nodes, `C` that of conditions.
pub struct SubgraphSpec<Outer, Inner, N, C, L> {
    pub graph: Graph<N, C>,
    pub lens: L,
    /// How many steps the inner run may take.
    pub max_steps: usize,
    pub outer: PhantomData<Outer>,
    pub inner: PhantomData<Inner>,
}

impl<Outer, Inner, N, C, L: StateLens<Outer, Inner>> SubgraphSpec<Outer, Inner, N, C, L> {
    /// An inner graph with the default step limit.
    pub fn new(graph: Graph<N, C>, lens: L) -> (s: Self)
        ensures
            s.graph == graph,
            s.lens == lens,
            s.max_steps == 1000,
    {
        SubgraphSpec { graph, lens, max_steps: 1000, outer: PhantomData, inner: PhantomData }
    }

    /// The inner graph with another step limit.
    pub fn max_steps(self, max: usize) -> (s: Self)
        ensures
            s.graph == self.graph,
            s.lens == self.lens,
            s.max_steps == max,
    {
        let mut s = self;
        s.max_steps = max;
        s
    }

    /// The inner state within an outer one, to work on in place.
    pub fn project<'a>(&self, outer: &'a mut Outer) -> (inner: &'a mut Inner)
        ensures
            *inner == self.lens.part(*old(outer)),
            *final(outer) == self.lens.put(*old(outer), *final(inner)),
    {
        self.lens.get(outer)
    }

    /// The inner graph, ready to run.
    pub fn compile(self) -> (s: CompiledSubgraph<Self>)
        ensures
            s.projector == self,
            s.max_steps == self.max_steps,
    {
        let max_steps = self.max_steps;
        CompiledSubgraph::new(self, max_steps)
    }
}

impl<Outer, Inner, N, C, L: StateLens<Outer, Inner>> StateProjector for SubgraphSpec<
    Outer,
    Inner,
    N,
    C,
    L,
> {
    open spec fn inner_name(&self) -> Seq<char> {
        self.graph.name@
    }

    open spec fn inner_count(&self) -> nat {
        self.graph.nodes@.len()
    }

    fn graph_name(&self) -> (name: &str) {
        self.graph.name()
    }

    fn node_count(&self) -> (n: usize) {
        self.graph.nodes.len()
    }
}

} // verus!

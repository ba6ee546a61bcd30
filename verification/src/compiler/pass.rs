//! What a pass is.

use vstd::prelude::*;

use crate::compiler::context::CompilerContext;
use crate::graph::graph_core::Graph;

verus! {

/// A pass over a graph.
pub trait CompilerPass<N, C> {
    /// What the pass is called.
    open spec fn label(&self) -> Seq<char> {
        arbitrary()
    }

    /// The pass can be run.
    open spec fn ready(&self, graph: Graph<N, C>, ctx: CompilerContext) -> bool {
        true
    }

    /// What the pass does to a graph and to the counts, and whether it has changed
    /// the graph.
    open spec fn passes(
        &self,
        before: Graph<N, C>,
        after: Graph<N, C>,
        ctx_before: CompilerContext,
        ctx_after: CompilerContext,
        modified: bool,
    ) -> bool {
        true
    }

    /// The name of the pass.
    fn name(&self) -> (name: &str)
        ensures
            name@ == self.label(),
    ;

    /// Runs the pass. The result tells whether the graph was changed.
    fn run(&self, graph: &mut Graph<N, C>, ctx: &mut CompilerContext) -> (modified: bool)
        requires
            self.ready(*old(graph), *old(ctx)),
        ensures
            self.passes(*old(graph), *final(graph), *old(ctx), *final(ctx), modified),
    ;
}

} // verus!

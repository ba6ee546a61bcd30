//! The pass that looks for graphs within the graph.

use vstd::prelude::*;

use crate::compiler::context::{CompilerContext, CompilerStats};
use crate::compiler::pass::CompilerPass;
use crate::graph::graph_core::Graph;
use crate::node::node::NodeKind;

verus! {

/// Counts the graphs within the graph. It leaves each of them as it is.
pub struct InlinePass;

impl InlinePass {
    /// The pass.
    pub fn new() -> (pass: Self)
        ensures
            pass == InlinePass,
    {
        InlinePass
    }
}

impl Default for InlinePass {
    fn default() -> (pass: Self)
        ensures
            pass == InlinePass,
    {
        InlinePass::new()
    }
}

/// How many of the nodes are graphs within the graph.
pub open spec fn subgraphs<C, X, M>(nodes: Seq<(Seq<char>, NodeKind<C, X, M>)>) -> nat {
    nodes.filter(is_inner::<C, X, M>()).len()
}

/// The node is a graph within the graph.
pub open spec fn is_inner<C, X, M>() -> spec_fn((Seq<char>, NodeKind<C, X, M>)) -> bool {
    |e: (Seq<char>, NodeKind<C, X, M>)| e.1 is Subgraph
}

impl<C, X, M> CompilerPass<NodeKind<C, X, M>, C> for InlinePass {
    open spec fn label(&self) -> Seq<char> {
        "inline"@
    }

    /// The count of the graphs that were left alone does not overflow.
    open spec fn ready(&self, graph: Graph<NodeKind<C, X, M>, C>, ctx: CompilerContext) -> bool {
        ctx.stats.not_inlined_count + subgraphs(graph.nodes@) <= usize::MAX
    }

    open spec fn passes(
        &self,
        before: Graph<NodeKind<C, X, M>, C>,
        after: Graph<NodeKind<C, X, M>, C>,
        ctx_before: CompilerContext,
        ctx_after: CompilerContext,
        modified: bool,
    ) -> bool {
        &&& after == before
        &&& !modified
        &&& ctx_after.stats.subgraph_count == subgraphs(before.nodes@)
        &&& ctx_after.stats.not_inlined_count == ctx_before.stats.not_inlined_count + subgraphs(
            before.nodes@,
        )
        &&& ctx_after.stats.total_nodes_before == before.nodes@.len()
        &&& ctx_after.stats.total_nodes_after == before.nodes@.len()
        &&& ctx_after.stats.inlined_count == ctx_before.stats.inlined_count
        &&& ctx_after == (CompilerContext { stats: ctx_after.stats, ..ctx_before })
    }

    fn name(&self) -> (name: &str) {
        "inline"
    }

    fn run(&self, graph: &mut Graph<NodeKind<C, X, M>, C>, ctx: &mut CompilerContext) -> (modified:
        bool) {
        let total = graph.nodes.len();
        let mut found: usize = 0;
        let mut i: usize = 0;
        let ghost nodes = graph.nodes@;
        let ghost inner = is_inner::<C, X, M>();
        proof {
            reveal(Seq::filter);
            assert(nodes.take(0).filter(inner).len() == 0);
        }
        while i < total
            invariant
                i <= total,
                total == nodes.len(),
                nodes == graph.nodes@,
                inner == is_inner::<C, X, M>(),
                found == nodes.take(i as int).filter(inner).len(),
                found <= i,
            decreases total - i,
        {
            if graph.nodes.node_at(i).is_subgraph() {
                found += 1;
            }
            i += 1;
            proof {
                reveal(Seq::filter);
                assert(nodes.take(i as int).drop_last() =~= nodes.take(i - 1));
                assert(nodes.take(i as int).last() == nodes[i - 1]);
            }
        }
        assert(nodes.take(total as int) =~= nodes);
        ctx.stats = CompilerStats {
            subgraph_count: found,
            inlined_count: ctx.stats.inlined_count,
            not_inlined_count: ctx.stats.not_inlined_count + found,
            total_nodes_before: total,
            total_nodes_after: total,
        };
        false
    }
}

/// The graphs within a graph are counted node by node.
pub proof fn law_inner_graphs_are_counted<C, X, M>(
    a: Seq<(Seq<char>, NodeKind<C, X, M>)>,
    b: Seq<(Seq<char>, NodeKind<C, X, M>)>,
    node: (Seq<char>, NodeKind<C, X, M>),
)
    ensures
        subgraphs(a + b) == subgraphs(a) + subgraphs(b),
        subgraphs(seq![node]) == (if node.1 is Subgraph {
            1nat
        } else {
            0nat
        }),
{
    Seq::filter_distributes_over_add(a, b, is_inner::<C, X, M>());
    reveal(Seq::filter);
    assert(seq![node].drop_last().filter(is_inner::<C, X, M>()) =~= Seq::empty());
}

/// The pass leaves the graph as it is and says so, and its counts add up.
pub proof fn law_the_pass_changes_nothing<C, X, M>(
    pass: InlinePass,
    before: Graph<NodeKind<C, X, M>, C>,
    after: Graph<NodeKind<C, X, M>, C>,
    ctx_before: CompilerContext,
    ctx_after: CompilerContext,
    modified: bool,
)
    requires
        pass.passes(before, after, ctx_before, ctx_after, modified),
    ensures
        after == before,
        !modified,
        ctx_after.stats.inlined_count == ctx_before.stats.inlined_count,
        ctx_after.stats.not_inlined_count == ctx_before.stats.not_inlined_count
            + ctx_after.stats.subgraph_count,
        ctx_after.stats.subgraph_count <= ctx_after.stats.total_nodes_before,
        ctx_after.stats.total_nodes_before == before.nodes@.len(),
        ctx_after.stats.total_nodes_after == ctx_after.stats.total_nodes_before,
        ctx_after.max_inline_size == ctx_before.max_inline_size,
{
    before.nodes@.lemma_filter_len(is_inner::<C, X, M>());
}

} // verus!

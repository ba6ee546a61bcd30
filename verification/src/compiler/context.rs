//! The settings and the counts of the passes.

use vstd::prelude::*;

verus! {

/// What the passes have counted.
#[derive(Clone, Copy, PartialEq, Eq, Structural, Debug)]
pub struct CompilerStats {
    /// Graphs within the graph.
    pub subgraph_count: usize,
    /// Those that were spread into the graph around them.
    pub inlined_count: usize,
    /// Those that were left as they are.
    pub not_inlined_count: usize,
    pub total_nodes_before: usize,
    pub total_nodes_after: usize,
}

/// Nothing counted.
pub open spec fn nothing_counted() -> CompilerStats {
    CompilerStats {
        subgraph_count: 0,
        inlined_count: 0,
        not_inlined_count: 0,
        total_nodes_before: 0,
        total_nodes_after: 0,
    }
}

impl Default for CompilerStats {
    fn default() -> (s: Self)
        ensures
            s == nothing_counted(),
    {
        CompilerStats {
            subgraph_count: 0,
            inlined_count: 0,
            not_inlined_count: 0,
            total_nodes_before: 0,
            total_nodes_after: 0,
        }
    }
}

/// The settings of the passes, and what they have counted.
#[derive(Clone, Copy, PartialEq, Eq, Structural, Debug)]
pub struct CompilerContext {
    /// How many nodes a graph may have that is spread into the one around it.
    pub max_inline_size: usize,
    pub debug: bool,
    pub stats: CompilerStats,
}

impl CompilerContext {
    /// The usual settings, nothing counted.
    pub fn new() -> (ctx: Self)
        ensures
            ctx.max_inline_size == 100,
            !ctx.debug,
            ctx.stats == nothing_counted(),
    {
        CompilerContext { max_inline_size: 100, debug: false, stats: CompilerStats::default() }
    }

    /// The same with another size.
    pub fn max_inline_size(self, max: usize) -> (ctx: Self)
        ensures
            ctx == (CompilerContext { max_inline_size: max, ..self }),
    {
        CompilerContext { max_inline_size: max, debug: self.debug, stats: self.stats }
    }

    /// The same with messages or without.
    pub fn debug(self, enable: bool) -> (ctx: Self)
        ensures
            ctx == (CompilerContext { debug: enable, ..self }),
    {
        CompilerContext {
            max_inline_size: self.max_inline_size,
            debug: enable,
            stats: self.stats,
        }
    }
}

impl Default for CompilerContext {
    fn default() -> (ctx: Self)
        ensures
            ctx.max_inline_size == 100,
            !ctx.debug,
            ctx.stats == nothing_counted(),
    {
        CompilerContext::new()
    }
}

} // verus!

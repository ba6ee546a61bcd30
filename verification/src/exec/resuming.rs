//! Checkpoints of other graphs.

use vstd::prelude::*;

use crate::checkpoint::checkpoint_data;
use crate::checkpoint::checkpoint_data::CheckpointStoreError;
use crate::error::{GraphError, TerminalError};
use crate::graph::graph_core;
use crate::text;

verus! {

/// The error says that a checkpoint was made on a graph with another fingerprint than
/// that of the graph at hand.
pub open spec fn is_foreign(e: GraphError, expected: u64, actual: u64) -> bool {
    graph_core::invalid_graph(
        e,
        "failed to load checkpoint: "@ + (CheckpointStoreError::GraphMismatch {
            expected,
            actual,
        }).message(),
    )
}

/// The error for a checkpoint that was made on a graph with another fingerprint.
pub fn foreign_checkpoint(expected: u64, actual: u64) -> (e: GraphError)
    ensures
        is_foreign(e, expected, actual),
{
    let mismatch = CheckpointStoreError::GraphMismatch { expected, actual };
    let mut m = "failed to load checkpoint: ".to_owned();
    m.append(mismatch.to_string().as_str());
    GraphError::Terminal(TerminalError::InvalidGraph(m))
}

/// The error for a checkpoint of another graph is terminal and shows both fingerprints in
/// full, the expected one first: their digits read back as the numbers.
pub proof fn law_foreign_checkpoints_are_named(e: GraphError, expected: u64, actual: u64)
    requires
        is_foreign(e, expected, actual),
    ensures
        e matches GraphError::Terminal(TerminalError::InvalidGraph(m)) && m@.len() == 99
            && text::digits_value(m@.subrange(59, 75), 16) == expected && text::digits_value(
            m@.subrange(83, 99),
            16,
        ) == actual,
{
    reveal_strlit("failed to load checkpoint: ");
    checkpoint_data::law_mismatches_show_both_graphs(expected, actual);
    let t = (CheckpointStoreError::GraphMismatch { expected, actual }).message();
    let m = "failed to load checkpoint: "@ + t;
    assert(m.subrange(59, 75) =~= t.subrange(32, 48));
    assert(m.subrange(83, 99) =~= t.subrange(56, 72));
}

} // verus!

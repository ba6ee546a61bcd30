//! What nodes put out while they run.

use std::sync::Arc;
use vstd::prelude::*;

use crate::time::Duration;

verus! {

/// Where a tool call stands.
#[derive(Clone, Copy, PartialEq, Eq, Structural, Debug)]
pub enum ToolPhase {
    /// It waits.
    Queued,
    /// It runs.
    Started,
    /// It is done.
    Finished,
}

/// A piece of output.
#[derive(Debug)]
pub enum StreamChunk {
    /// More text.
    TextDelta(String),
    /// More reasoning.
    ThinkingDelta(String),
    /// A tool call has reached a phase.
    ToolLifecycle { phase: ToolPhase, call_id: String, tool_name: String },
    /// A tool call has returned.
    ToolOutput {
        call_id: String,
        tool_name: String,
        content: String,
        is_error: bool,
        duration: Duration,
    },
}

impl Clone for StreamChunk {
    fn clone(&self) -> (copy: Self)
        ensures
            copy == *self,
    {
        match self {
            StreamChunk::TextDelta(s) => StreamChunk::TextDelta(s.clone()),
            StreamChunk::ThinkingDelta(s) => StreamChunk::ThinkingDelta(s.clone()),
            StreamChunk::ToolLifecycle { phase, call_id, tool_name } => {
                StreamChunk::ToolLifecycle {
                    phase: *phase,
                    call_id: call_id.clone(),
                    tool_name: tool_name.clone(),
                }
            },
            StreamChunk::ToolOutput { call_id, tool_name, content, is_error, duration } => {
                StreamChunk::ToolOutput {
                    call_id: call_id.clone(),
                    tool_name: tool_name.clone(),
                    content: content.clone(),
                    is_error: *is_error,
                    duration: *duration,
                }
            },
        }
    }
}

/// Where output goes.
pub trait StreamSink: Send + Sync {
    /// Hands a piece of output on.
    fn emit(&self, chunk: StreamChunk);
}

/// The sink that drops everything.
#[derive(Clone, Copy, Debug)]
pub struct NoopSink;

impl StreamSink for NoopSink {
    fn emit(&self, chunk: StreamChunk) {
    }
}

/// A sink that can be shared.
pub fn sink_arc<S: StreamSink>(sink: S) -> (shared: Arc<S>)
    ensures
        *shared == sink,
{
    Arc::new(sink)
}

/// A shared sink that drops everything.
pub fn noop_sink() -> (shared: Arc<NoopSink>)
    ensures
        *shared == NoopSink,
{
    Arc::new(NoopSink)
}

} // verus!

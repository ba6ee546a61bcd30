//! A run that outlives single executions: it owns the state and the frames, shares
//! the graph, and can be kept and restored.

use std::sync::Arc;
use vstd::prelude::*;

use crate::checkpoint::checkpoint_data::{Frame, FrameStack};
use crate::graph::graph_core::Graph;
use crate::sharing;
use crate::state::state::State;
use crate::state::workflow_state::WorkflowState;
use crate::text;

verus! {

/// All that is kept of a session.
pub struct SessionCheckpoint<S: WorkflowState> {
    pub state: S::Checkpoint,
    pub frames: FrameStack<S>,
    /// The fingerprint of the graph that the session was on.
    pub graph_hash: u64,
}

/// Why a session cannot be restored.
#[derive(Debug, PartialEq, Eq)]
pub enum SessionError {
    /// The checkpoint is of another graph.
    GraphMismatch { expected: u64, actual: u64 },
}

impl SessionError {
    /// The text of the error.
    pub open spec fn message(self) -> Seq<char> {
        match self {
            SessionError::GraphMismatch { expected, actual } =>
                "graph mismatch: expected hash 0x"@ + text::hex_text(expected as nat, 16)
                + ", got 0x"@ + text::hex_text(actual as nat, 16),
        }
    }

    /// The text of the error.
    pub fn to_string(&self) -> (s: String)
        ensures
            s@ == self.message(),
    {
        match self {
            SessionError::GraphMismatch { expected, actual } => {
                let mut s = "graph mismatch: expected hash 0x".to_owned();
                s.append(text::hex(*expected as u128, 16).as_str());
                s.append(", got 0x");
                s.append(text::hex(*actual as u128, 16).as_str());
                s
            },
        }
    }
}

/// A state, the frames of the runs within runs, and a shared graph.
pub struct ExecutionSession<S: WorkflowState, N, C> {
    pub state: S,
    pub frame_stack: FrameStack<S>,
    pub graph: Arc<Graph<N, C>>,
}

impl<S: WorkflowState, N, C> ExecutionSession<S, N, C> {
    /// What is kept of the session is its state's checkpoint, a copy of its frames
    /// and the fingerprint of its graph.
    pub open spec fn kept(self, checkpoint: SessionCheckpoint<S>) -> bool {
        &&& self.state.captured(checkpoint.state)
        &&& checkpoint.frames@.len() == self.frame_stack@.len()
        &&& forall|i: int|
            0 <= i < self.frame_stack@.len() ==> (#[trigger] checkpoint.frames@[i]).copies(
                self.frame_stack@[i],
            )
        &&& checkpoint.graph_hash == self.graph.canonical_hash
    }

    /// What a checkpoint gives back on a graph: a session with its state and frames
    /// if it was made on a graph with that fingerprint, and otherwise an error with
    /// both fingerprints.
    pub open spec fn restored(
        checkpoint: SessionCheckpoint<S>,
        graph: Arc<Graph<N, C>>,
        restored: Result<Self, SessionError>,
    ) -> bool {
        if checkpoint.graph_hash == graph.canonical_hash {
            restored matches Ok(session) && session.state.recovered(checkpoint.state)
                && session.frame_stack == checkpoint.frames && session.graph == graph
        } else {
            restored == Err::<Self, SessionError>(
                SessionError::GraphMismatch {
                    expected: checkpoint.graph_hash,
                    actual: graph.canonical_hash,
                },
            )
        }
    }

    /// A session without frames.
    pub fn new(state: S, graph: Arc<Graph<N, C>>) -> (session: Self)
        ensures
            session.state == state,
            session.frame_stack@ == Seq::<Frame<S>>::empty(),
            session.graph == graph,
    {
        ExecutionSession { state, frame_stack: FrameStack::new(), graph }
    }

    /// The session of a checkpoint, on the graph that the caller gives. A graph with
    /// another fingerprint than that of the checkpoint is refused.
    pub fn restore(checkpoint: SessionCheckpoint<S>, graph: Arc<Graph<N, C>>) -> (restored: Result<
        Self,
        SessionError,
    >)
        ensures
            Self::restored(checkpoint, graph, restored),
    {
        if checkpoint.graph_hash != graph.canonical_hash() {
            return Err(
                SessionError::GraphMismatch {
                    expected: checkpoint.graph_hash,
                    actual: graph.canonical_hash(),
                },
            );
        }
        Ok(
            ExecutionSession {
                state: S::restore(checkpoint.state),
                frame_stack: checkpoint.frames,
                graph,
            },
        )
    }

    /// What is to be kept of the session.
    pub fn checkpoint(&self) -> (checkpoint: SessionCheckpoint<S>)
        ensures
            self.kept(checkpoint),
    {
        SessionCheckpoint {
            state: self.state.snapshot(),
            frames: self.frame_stack.clone(),
            graph_hash: self.graph.canonical_hash(),
        }
    }

    /// The state.
    pub fn state(&self) -> (state: &S)
        ensures
            *state == self.state,
    {
        &self.state
    }

    /// The state, to be changed.
    pub fn state_mut(&mut self) -> (state: &mut S)
        ensures
            *state == old(self).state,
            *final(self) == (ExecutionSession { state: *final(state), ..*old(self) }),
    {
        &mut self.state
    }

    /// The frames.
    pub fn frame_stack(&self) -> (frames: &FrameStack<S>)
        ensures
            *frames == self.frame_stack,
    {
        &self.frame_stack
    }

    /// The frames, to be changed.
    pub fn frame_stack_mut(&mut self) -> (frames: &mut FrameStack<S>)
        ensures
            *frames == old(self).frame_stack,
            *final(self) == (ExecutionSession { frame_stack: *final(frames), ..*old(self) }),
    {
        &mut self.frame_stack
    }

    /// The graph.
    pub fn graph(&self) -> (graph: &Graph<N, C>)
        ensures
            *graph == *self.graph,
    {
        &*self.graph
    }

    /// The graph, shared.
    pub fn graph_arc(&self) -> (graph: Arc<Graph<N, C>>)
        ensures
            graph == self.graph,
    {
        sharing::share(&self.graph)
    }

    /// The state alone.
    pub fn into_state(self) -> (state: S)
        ensures
            state == self.state,
    {
        self.state
    }

    /// The state and the frames.
    pub fn into_parts(self) -> (parts: (S, FrameStack<S>))
        ensures
            parts.0 == self.state,
            parts.1 == self.frame_stack,
    {
        (self.state, self.frame_stack)
    }
}

/// A session on the dynamic state that is kept and restored on a graph with the
/// same fingerprint has the contents that it had, and frames at the same places. On
/// any other graph it is refused.
pub proof fn law_session_roundtrip<N, C>(
    before: ExecutionSession<State, N, C>,
    checkpoint: SessionCheckpoint<State>,
    graph: Arc<Graph<N, C>>,
    after: Result<ExecutionSession<State, N, C>, SessionError>,
)
    requires
        before.kept(checkpoint),
        ExecutionSession::restored(checkpoint, graph, after),
    ensures
        after is Ok <==> graph.canonical_hash == before.graph.canonical_hash,
        after matches Ok(session) ==> {
            &&& session.state@ == before.state@
            &&& session.frame_stack@.len() == before.frame_stack@.len()
            &&& forall|i: int|
                0 <= i < before.frame_stack@.len() ==> {
                    let a = #[trigger] session.frame_stack@[i];
                    let b = before.frame_stack@[i];
                    a.graph_id == b.graph_id && a.node_id == b.node_id && a.cursor == b.cursor
                        && a.state@ == b.state@
                }
        },
{
    if let Ok(session) = after {
        assert forall|i: int| 0 <= i < before.frame_stack@.len() implies {
            let a = #[trigger] session.frame_stack@[i];
            let b = before.frame_stack@[i];
            a.graph_id == b.graph_id && a.node_id == b.node_id && a.cursor == b.cursor && a.state@
                == b.state@
        } by {
            assert(checkpoint.frames@[i].copies(before.frame_stack@[i]));
        }
    }
}

/// The error for another graph shows both fingerprints in full: the digits of each read back
/// as the number, that of the expected graph first.
pub proof fn law_mismatched_sessions_show_both_graphs(expected: u64, actual: u64)
    ensures
        (SessionError::GraphMismatch { expected, actual }).message().len() == 72,
        text::digits_value(
            (SessionError::GraphMismatch { expected, actual }).message().subrange(32, 48),
            16,
        ) == expected,
        text::digits_value(
            (SessionError::GraphMismatch { expected, actual }).message().subrange(56, 72),
            16,
        ) == actual,
{
    reveal_strlit("graph mismatch: expected hash 0x");
    reveal_strlit(", got 0x");
    text::law_hexadecimals_read_back(expected as nat, 16);
    text::law_hexadecimals_read_back(actual as nat, 16);
    text::lemma_sixteen_digits();
    vstd::arithmetic::div_mod::lemma_small_mod(
        expected as nat,
        vstd::arithmetic::power::pow(16, 16) as nat,
    );
    vstd::arithmetic::div_mod::lemma_small_mod(
        actual as nat,
        vstd::arithmetic::power::pow(16, 16) as nat,
    );
    let m = (SessionError::GraphMismatch { expected, actual }).message();
    assert(m.subrange(32, 48) =~= text::hex_text(expected as nat, 16));
    assert(m.subrange(56, 72) =~= text::hex_text(actual as nat, 16));
}

} // verus!

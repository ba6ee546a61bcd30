//! The data of checkpoints.

use std::time::SystemTime;
use vstd::prelude::*;

use crate::ids;
use crate::state::workflow_state::WorkflowState;
use crate::text;

verus! {

/// A reading of the system clock.
#[verifier::external_type_specification]
#[verifier::external_body]
pub struct ExSystemTime(SystemTime);

/// `SystemTime::now`: the present time, of which nothing is claimed.
#[verifier::external_body]
pub(crate) fn system_now() -> SystemTime {
    SystemTime::now()
}

/// Identifies a checkpoint.
#[derive(Clone, Copy, PartialEq, Eq, Hash, Structural, Debug)]
pub struct CheckpointId(pub u128);

impl CheckpointId {
    /// A random identifier.
    pub fn random() -> (id: Self)
        ensures
            ids::is_random_id(id.0),
    {
        CheckpointId(ids::random_id())
    }

    /// The hyphenated text.
    pub fn to_string(&self) -> (s: String)
        ensures
            s@ == ids::id_text(self.0),
    {
        ids::hyphenated(self.0)
    }
}

/// Names a node.
#[derive(Debug)]
pub struct NodeId(pub String);

impl NodeId {
    /// The name.
    pub fn to_string(&self) -> (s: String)
        ensures
            s@ == self.0@,
    {
        self.0.clone()
    }
}

impl Clone for NodeId {
    fn clone(&self) -> (copy: Self)
        ensures
            copy == *self,
    {
        NodeId(self.0.clone())
    }
}

/// A resumable point of a run.
pub struct Checkpoint<S: WorkflowState> {
    pub checkpoint_id: CheckpointId,
    pub current_node: NodeId,
    pub state: S::Checkpoint,
    /// The fingerprint of the graph that the run was on.
    pub graph_hash: u64,
    pub created_at: SystemTime,
}

impl<S: WorkflowState> Checkpoint<S> {
    /// A checkpoint of a state at a node, made now under a fresh identifier.
    pub fn new(current_node: &str, state: &S, graph_hash: u64) -> (cp: Self)
        ensures
            ids::is_random_id(cp.checkpoint_id.0),
            cp.current_node.0@ == current_node@,
            state.captured(cp.state),
            cp.graph_hash == graph_hash,
    {
        Checkpoint {
            checkpoint_id: CheckpointId::random(),
            current_node: NodeId(current_node.to_owned()),
            state: state.snapshot(),
            graph_hash,
            created_at: system_now(),
        }
    }

    /// The state that the checkpoint gives back.
    pub fn restore_state(self) -> (state: S)
        ensures
            state.recovered(self.state),
    {
        S::restore(self.state)
    }

    /// The checkpoint is a copy of another, its state copied as the state's type does.
    pub open spec fn copies(self, other: Self) -> bool {
        &&& self.checkpoint_id == other.checkpoint_id
        &&& self.current_node == other.current_node
        &&& cloned(other.state, self.state)
        &&& self.graph_hash == other.graph_hash
        &&& self.created_at == other.created_at
    }
}

impl<S: WorkflowState> Clone for Checkpoint<S> {
    fn clone(&self) -> (copy: Self)
        ensures
            copy.copies(*self),
    {
        Checkpoint {
            checkpoint_id: self.checkpoint_id,
            current_node: self.current_node.clone(),
            state: self.state.clone(),
            graph_hash: self.graph_hash,
            created_at: self.created_at,
        }
    }
}

/// A checkpoint as bytes.
pub struct CheckpointBlob {
    pub id: CheckpointId,
    pub data: Vec<u8>,
    pub graph_hash: u64,
    pub created_at: SystemTime,
}

/// What a store keeps of a checkpoint.
pub struct BlobModel {
    pub id: CheckpointId,
    pub data: Seq<u8>,
    pub graph_hash: u64,
    pub created_at: SystemTime,
}

impl View for CheckpointBlob {
    type V = BlobModel;

    open spec fn view(&self) -> BlobModel {
        BlobModel {
            id: self.id,
            data: self.data@,
            graph_hash: self.graph_hash,
            created_at: self.created_at,
        }
    }
}

impl CheckpointBlob {
    /// The bytes of a checkpoint.
    pub fn new(id: CheckpointId, data: Vec<u8>, graph_hash: u64, created_at: SystemTime) -> (b: Self)
        ensures
            b == (CheckpointBlob { id, data, graph_hash, created_at }),
    {
        CheckpointBlob { id, data, graph_hash, created_at }
    }
}

impl Clone for CheckpointBlob {
    fn clone(&self) -> (copy: Self)
        ensures
            copy@ == self@,
    {
        let data = self.data.clone();
        assert(data@ =~= self.data@);
        CheckpointBlob {
            id: self.id,
            data,
            graph_hash: self.graph_hash,
            created_at: self.created_at,
        }
    }
}

/// An error of a store.
#[derive(Debug)]
pub enum CheckpointStoreError {
    /// The store failed.
    Storage(String),
    /// There is no such checkpoint.
    NotFound(CheckpointId),
    /// The bytes are no checkpoint.
    Corrupted(String),
    /// The checkpoint could not be written down.
    Serialization(String),
    /// The checkpoint is of another graph.
    GraphMismatch { expected: u64, actual: u64 },
}

impl CheckpointStoreError {
    /// The text of the error.
    pub open spec fn message(self) -> Seq<char> {
        match self {
            CheckpointStoreError::Storage(m) => "storage error: "@ + m@,
            CheckpointStoreError::NotFound(id) => "checkpoint not found: "@ + ids::id_text(id.0),
            CheckpointStoreError::Corrupted(m) => "corrupted checkpoint: "@ + m@,
            CheckpointStoreError::Serialization(m) => "serialization error: "@ + m@,
            CheckpointStoreError::GraphMismatch { expected, actual } =>
                "graph mismatch: expected hash 0x"@ + text::hex_text(expected as nat, 16)
                + ", got 0x"@ + text::hex_text(actual as nat, 16),
        }
    }

    /// The text of the error.
    pub fn to_string(&self) -> (s: String)
        ensures
            s@ == self.message(),
    {
        match self {
            CheckpointStoreError::Storage(m) => {
                let mut s = "storage error: ".to_owned();
                s.append(m.as_str());
                s
            },
            CheckpointStoreError::NotFound(id) => {
                let mut s = "checkpoint not found: ".to_owned();
                s.append(id.to_string().as_str());
                s
            },
            CheckpointStoreError::Corrupted(m) => {
                let mut s = "corrupted checkpoint: ".to_owned();
                s.append(m.as_str());
                s
            },
            CheckpointStoreError::Serialization(m) => {
                let mut s = "serialization error: ".to_owned();
                s.append(m.as_str());
                s
            },
            CheckpointStoreError::GraphMismatch { expected, actual } => {
                let mut s = "graph mismatch: expected hash 0x".to_owned();
                s.append(text::hex(*expected as u128, 16).as_str());
                s.append(", got 0x");
                s.append(text::hex(*actual as u128, 16).as_str());
                s
            },
        }
    }
}

/// A run of one graph within a run: where it stands, and its state.
pub struct Frame<S: WorkflowState> {
    pub graph_id: String,
    pub node_id: String,
    pub state: S::Checkpoint,
    /// The step that the run has reached.
    pub cursor: usize,
}

impl<S: WorkflowState> Frame<S> {
    /// A frame with the checkpoint of a state.
    pub fn new(graph_id: String, node_id: String, state: &S, cursor: usize) -> (f: Self)
        ensures
            f.graph_id == graph_id,
            f.node_id == node_id,
            state.captured(f.state),
            f.cursor == cursor,
    {
        Frame { graph_id, node_id, state: state.snapshot(), cursor }
    }

    /// The frame is a copy of another, its state copied as the state's type does.
    pub open spec fn copies(self, other: Self) -> bool {
        &&& self.graph_id == other.graph_id
        &&& self.node_id == other.node_id
        &&& cloned(other.state, self.state)
        &&& self.cursor == other.cursor
    }
}

/// The frames of runs within runs, the innermost last.
pub struct FrameStack<S: WorkflowState> {
    frames: Vec<Frame<S>>,
}

impl<S: WorkflowState> View for FrameStack<S> {
    type V = Seq<Frame<S>>;

    closed spec fn view(&self) -> Seq<Frame<S>> {
        self.frames@
    }
}

impl<S: WorkflowState> FrameStack<S> {
    /// No frames.
    pub fn new() -> (stack: Self)
        ensures
            stack@ == Seq::<Frame<S>>::empty(),
    {
        FrameStack { frames: Vec::new() }
    }

    /// Enters an inner run.
    pub fn push(&mut self, frame: Frame<S>)
        ensures
            final(self)@ == old(self)@.push(frame),
    {
        self.frames.push(frame);
    }

    /// Leaves the innermost run.
    pub fn pop(&mut self) -> (frame: Option<Frame<S>>)
        ensures
            if old(self)@.len() == 0 {
                frame is None && final(self)@ == old(self)@
            } else {
                frame == Some(old(self)@.last()) && final(self)@ == old(self)@.drop_last()
            },
    {
        self.frames.pop()
    }

    /// The frame of the innermost run.
    pub fn current(&self) -> (frame: Option<&Frame<S>>)
        ensures
            match frame {
                Some(f) => self@.len() > 0 && *f == self@.last(),
                None => self@.len() == 0,
            },
    {
        let n = self.frames.len();
        if n == 0 {
            None
        } else {
            Some(&self.frames[n - 1])
        }
    }

    /// The number of frames.
    pub fn depth(&self) -> (n: usize)
        ensures
            n == self@.len(),
    {
        self.frames.len()
    }

    /// Whether there is no frame.
    pub fn is_empty(&self) -> (empty: bool)
        ensures
            empty == (self@.len() == 0),
    {
        self.frames.len() == 0
    }

    /// The frames.
    pub fn frames(&self) -> (frames: &Vec<Frame<S>>)
        ensures
            frames@ == self@,
    {
        &self.frames
    }
}

impl<S: WorkflowState> Default for FrameStack<S> {
    fn default() -> (stack: Self)
        ensures
            stack@ == Seq::<Frame<S>>::empty(),
    {
        FrameStack::new()
    }
}

impl<S: WorkflowState> Clone for FrameStack<S> {
    fn clone(&self) -> (copy: Self)
        ensures
            copy@.len() == self@.len(),
            forall|i: int| 0 <= i < self@.len() ==> (#[trigger] copy@[i]).copies(self@[i]),
    {
        let mut frames: Vec<Frame<S>> = Vec::new();
        let mut i: usize = 0;
        while i < self.frames.len()
            invariant
                i <= self.frames@.len(),
                frames@.len() == i,
                forall|j: int| 0 <= j < i ==> (#[trigger] frames@[j]).copies(self.frames@[j]),
            decreases self.frames@.len() - i,
        {
            let f = &self.frames[i];
            frames.push(
                Frame {
                    graph_id: f.graph_id.clone(),
                    node_id: f.node_id.clone(),
                    state: f.state.clone(),
                    cursor: f.cursor,
                },
            );
            i += 1;
        }
        FrameStack { frames }
    }
}

/// Where a run stands, for those who save checkpoints.
#[derive(Debug)]
pub struct FrameInfo {
    pub node_id: String,
    pub step: usize,
}

impl FrameInfo {
    /// A place in a run.
    pub fn new(node_id: &str, step: usize) -> (info: Self)
        ensures
            info.node_id@ == node_id@,
            info.step == step,
    {
        FrameInfo { node_id: node_id.to_owned(), step }
    }
}

/// One who is told of every point from which a run can be resumed.
pub trait CheckpointSink<S: WorkflowState>: Sized {
    /// What being told of a point does. An implementation that leaves this
    /// out promises nothing.
    open spec fn told(before: Self, after: Self, state: S, node: Seq<char>, step: usize) -> bool {
        true
    }

    /// Tells of a point.
    fn on_checkpoint(&mut self, state: &S, frame: &FrameInfo)
        ensures
            Self::told(*old(self), *final(self), *state, frame.node_id@, frame.step),
    ;
}

/// The sink that keeps nothing.
#[derive(Debug)]
pub struct NoopCheckpointSink;

impl<S: WorkflowState> CheckpointSink<S> for NoopCheckpointSink {
    open spec fn told(before: Self, after: Self, state: S, node: Seq<char>, step: usize) -> bool {
        after == before
    }

    fn on_checkpoint(&mut self, state: &S, frame: &FrameInfo) {
    }
}

/// The sink that keeps a frame for every point.
pub struct MemorySink<S: WorkflowState> {
    pub frames: Vec<Frame<S>>,
}

impl<S: WorkflowState> MemorySink<S> {
    /// A sink without frames.
    pub fn new() -> (sink: Self)
        ensures
            sink.frames@ == Seq::<Frame<S>>::empty(),
    {
        MemorySink { frames: Vec::new() }
    }

    /// The frames.
    pub fn into_frames(self) -> (frames: Vec<Frame<S>>)
        ensures
            frames == self.frames,
    {
        self.frames
    }
}

impl<S: WorkflowState> Default for MemorySink<S> {
    fn default() -> (sink: Self)
        ensures
            sink.frames@ == Seq::<Frame<S>>::empty(),
    {
        MemorySink::new()
    }
}

impl<S: WorkflowState> CheckpointSink<S> for MemorySink<S> {
    open spec fn told(before: Self, after: Self, state: S, node: Seq<char>, step: usize) -> bool {
        &&& after.frames@.len() == before.frames@.len() + 1
        &&& after.frames@.drop_last() == before.frames@
        &&& after.frames@.last().graph_id@ == Seq::<char>::empty()
        &&& after.frames@.last().node_id@ == node
        &&& state.captured(after.frames@.last().state)
        &&& after.frames@.last().cursor == step
    }

    fn on_checkpoint(&mut self, state: &S, frame: &FrameInfo) {
        self.frames.push(
            Frame {
                graph_id: String::new(),
                node_id: frame.node_id.clone(),
                state: state.snapshot(),
                cursor: frame.step,
            },
        );
        assert(self.frames@.drop_last() =~= old(self).frames@);
    }
}

/// The error for another graph shows both fingerprints in full: the digits of each read back
/// as the number, that of the expected graph first.
pub proof fn law_mismatches_show_both_graphs(expected: u64, actual: u64)
    ensures
        (CheckpointStoreError::GraphMismatch { expected, actual }).message().len() == 72,
        text::digits_value(
            (CheckpointStoreError::GraphMismatch { expected, actual }).message().subrange(32, 48),
            16,
        ) == expected,
        text::digits_value(
            (CheckpointStoreError::GraphMismatch { expected, actual }).message().subrange(56, 72),
            16,
        ) == actual,
{
    reveal_strlit("graph mismatch: expected hash 0x");
    reveal_strlit(", got 0x");
    text::law_hexadecimals_read_back(expected as nat, 16);
    text::law_hexadecimals_read_back(actual as nat, 16);
    text::lemma_sixteen_digits();
    vstd::arithmetic::div_mod::lemma_small_mod(
        expected as nat,
        vstd::arithmetic::power::pow(16, 16) as nat,
    );
    vstd::arithmetic::div_mod::lemma_small_mod(
        actual as nat,
        vstd::arithmetic::power::pow(16, 16) as nat,
    );
    let m = (CheckpointStoreError::GraphMismatch { expected, actual }).message();
    assert(m.subrange(32, 48) =~= text::hex_text(expected as nat, 16));
    assert(m.subrange(56, 72) =~= text::hex_text(actual as nat, 16));
}

/// A store that is told of points keeps a frame for each, after those that it had, with
/// the node, the step and the state of the point.
pub proof fn law_points_are_kept<S: WorkflowState>(
    before: MemorySink<S>,
    after: MemorySink<S>,
    state: S,
    node: Seq<char>,
    step: usize,
    i: int,
)
    requires
        <MemorySink<S> as CheckpointSink<S>>::told(before, after, state, node, step),
    ensures
        after.frames@.len() == before.frames@.len() + 1,
        0 <= i < before.frames@.len() ==> after.frames@[i] == before.frames@[i],
        after.frames@[before.frames@.len() as int].node_id@ == node,
        after.frames@[before.frames@.len() as int].cursor == step,
        state.captured(after.frames@[before.frames@.len() as int].state),
{
    if 0 <= i < before.frames@.len() {
        assert(after.frames@.drop_last()[i] == after.frames@[i]);
    }
}

/// What went wrong in a store is told with its cause or with the checkpoint that it is about.
pub proof fn law_store_errors_are_told(m: String, id: CheckpointId)
    ensures
        CheckpointStoreError::Storage(m).message() == "storage error: "@ + m@,
        CheckpointStoreError::NotFound(id).message() == "checkpoint not found: "@ + ids::id_text(
            id.0,
        ),
        CheckpointStoreError::Corrupted(m).message() == "corrupted checkpoint: "@ + m@,
        CheckpointStoreError::Serialization(m).message() == "serialization error: "@ + m@,
{
}

/// A copy of a checkpoint or of a frame agrees with it in every part, the state being copied
/// as its type does.
pub proof fn law_copies_agree<S: WorkflowState>(
    a: Checkpoint<S>,
    b: Checkpoint<S>,
    f: Frame<S>,
    g: Frame<S>,
)
    ensures
        a.copies(b) <==> a.checkpoint_id == b.checkpoint_id && a.current_node == b.current_node
            && a.graph_hash == b.graph_hash && a.created_at == b.created_at && cloned(
            b.state,
            a.state,
        ),
        f.copies(g) <==> f.graph_id == g.graph_id && f.node_id == g.node_id && f.cursor == g.cursor
            && cloned(g.state, f.state),
{
}

} // verus!

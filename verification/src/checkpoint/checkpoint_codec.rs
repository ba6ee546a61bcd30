//! Checkpoints as bytes.
//!
//! The bytes carry the fingerprint of the graph that the run was on. They are read
//! only for a graph with that fingerprint.

use vstd::prelude::*;

use crate::checkpoint::checkpoint_data::{
    Checkpoint, CheckpointBlob, CheckpointId, CheckpointStoreError,
};
use crate::checkpoint::store;
use crate::checkpoint::store::{Archived, InMemoryBlobStore};
use crate::ids::TraceId;
use crate::state::workflow_state::WorkflowState;

verus! {

/// A way to turn checkpoints into bytes and back.
pub trait CheckpointCodec<S: WorkflowState>: Sized {
    /// The codec can be used.
    open spec fn usable(&self) -> bool {
        true
    }

    /// What writing a checkpoint for a graph gives. An implementation that leaves this
    /// out promises nothing.
    open spec fn writes(
        &self,
        cp: Checkpoint<S>,
        graph_hash: u64,
        r: Result<CheckpointBlob, CheckpointStoreError>,
    ) -> bool {
        true
    }

    /// What reading bytes for a graph gives. An implementation that leaves this
    /// out promises nothing.
    open spec fn reads(
        &self,
        blob: CheckpointBlob,
        expected_hash: u64,
        r: Result<Checkpoint<S>, CheckpointStoreError>,
    ) -> bool {
        true
    }

    /// A checkpoint as bytes, for the graph with a fingerprint.
    fn serialize(&self, cp: &Checkpoint<S>, graph_hash: u64) -> (r: Result<
        CheckpointBlob,
        CheckpointStoreError,
    >)
        requires
            self.usable(),
        ensures
            self.writes(*cp, graph_hash, r),
    ;

    /// The checkpoint of bytes, for the graph with a fingerprint.
    fn deserialize(&self, blob: &CheckpointBlob, expected_hash: u64) -> (r: Result<
        Checkpoint<S>,
        CheckpointStoreError,
    >)
        requires
            self.usable(),
        ensures
            self.reads(*blob, expected_hash, r),
    ;
}

/// The codec of a writer of values and a reader of values, each of which may fail
/// with a message.
pub struct SerdeCheckpointCodec<E, D> {
    pub encode: E,
    pub decode: D,
}

impl<E, D> SerdeCheckpointCodec<E, D> {
    /// The codec of a writer and a reader.
    pub fn new(encode: E, decode: D) -> (codec: Self)
        ensures
            codec.encode == encode,
            codec.decode == decode,
    {
        SerdeCheckpointCodec { encode, decode }
    }
}

impl<
    S: WorkflowState,
    E: Fn(&Checkpoint<S>) -> Result<Vec<u8>, String>,
    D: Fn(&Vec<u8>) -> Result<Checkpoint<S>, String>,
> CheckpointCodec<S> for SerdeCheckpointCodec<E, D> {
    open spec fn usable(&self) -> bool {
        &&& forall|cp: Checkpoint<S>| #[trigger] call_requires(self.encode, (&cp,))
        &&& forall|data: Vec<u8>| #[trigger] call_requires(self.decode, (&data,))
    }

    open spec fn writes(
        &self,
        cp: Checkpoint<S>,
        graph_hash: u64,
        r: Result<CheckpointBlob, CheckpointStoreError>,
    ) -> bool {
        match r {
            Ok(blob) => {
                &&& call_ensures(self.encode, (&cp,), Ok::<Vec<u8>, String>(blob.data))
                &&& blob.id == cp.checkpoint_id
                &&& blob.graph_hash == graph_hash
                &&& blob.created_at == cp.created_at
            },
            Err(e) => e matches CheckpointStoreError::Serialization(m) && call_ensures(
                self.encode,
                (&cp,),
                Err::<Vec<u8>, String>(m),
            ),
        }
    }

    open spec fn reads(
        &self,
        blob: CheckpointBlob,
        expected_hash: u64,
        r: Result<Checkpoint<S>, CheckpointStoreError>,
    ) -> bool {
        if blob.graph_hash != expected_hash {
            r matches Err(CheckpointStoreError::GraphMismatch { expected, actual }) && expected
                == expected_hash && actual == blob.graph_hash
        } else {
            match r {
                Ok(cp) => call_ensures(
                    self.decode,
                    (&blob.data,),
                    Ok::<Checkpoint<S>, String>(cp),
                ),
                Err(e) => e matches CheckpointStoreError::Corrupted(m) && call_ensures(
                    self.decode,
                    (&blob.data,),
                    Err::<Checkpoint<S>, String>(m),
                ),
            }
        }
    }

    fn serialize(&self, cp: &Checkpoint<S>, graph_hash: u64) -> (r: Result<
        CheckpointBlob,
        CheckpointStoreError,
    >) {
        match (self.encode)(cp) {
            Ok(data) => Ok(CheckpointBlob::new(cp.checkpoint_id, data, graph_hash, cp.created_at)),
            Err(m) => Err(CheckpointStoreError::Serialization(m)),
        }
    }

    fn deserialize(&self, blob: &CheckpointBlob, expected_hash: u64) -> (r: Result<
        Checkpoint<S>,
        CheckpointStoreError,
    >) {
        if blob.graph_hash != expected_hash {
            return Err(
                CheckpointStoreError::GraphMismatch {
                    expected: expected_hash,
                    actual: blob.graph_hash,
                },
            );
        }
        match (self.decode)(&blob.data) {
            Ok(cp) => Ok(cp),
            Err(m) => Err(CheckpointStoreError::Corrupted(m)),
        }
    }
}

/// The reader gives back what the writer wrote.
pub open spec fn faithful<
    S: WorkflowState,
    E: Fn(&Checkpoint<S>) -> Result<Vec<u8>, String>,
    D: Fn(&Vec<u8>) -> Result<Checkpoint<S>, String>,
>(codec: SerdeCheckpointCodec<E, D>) -> bool {
    forall|cp: Checkpoint<S>, data: Vec<u8>, read: Vec<u8>, r: Result<Checkpoint<S>, String>|
        #![trigger call_ensures(codec.encode, (&cp,), Ok::<Vec<u8>, String>(data)), call_ensures(codec.decode, (&read,), r)]
        call_ensures(codec.encode, (&cp,), Ok::<Vec<u8>, String>(data)) && read@ == data@
            && call_ensures(codec.decode, (&read,), r) ==> r == Ok::<Checkpoint<S>, String>(cp)
}

/// What was written for a graph is refused for any other graph, and where the reader
/// gives back what the writer wrote, it is read as it was for that graph.
pub proof fn law_blobs_are_bound_to_their_graph<
    S: WorkflowState,
    E: Fn(&Checkpoint<S>) -> Result<Vec<u8>, String>,
    D: Fn(&Vec<u8>) -> Result<Checkpoint<S>, String>,
>(
    codec: SerdeCheckpointCodec<E, D>,
    cp: Checkpoint<S>,
    graph_hash: u64,
    blob: CheckpointBlob,
    copy: CheckpointBlob,
    expected_hash: u64,
    r: Result<Checkpoint<S>, CheckpointStoreError>,
)
    requires
        codec.writes(cp, graph_hash, Ok(blob)),
        copy@ == blob@,
        codec.reads(copy, expected_hash, r),
    ensures
        expected_hash != graph_hash ==> (r matches Err(CheckpointStoreError::GraphMismatch {
            expected,
            actual,
        }) && expected == expected_hash && actual == graph_hash),
        expected_hash == graph_hash && faithful::<S, E, D>(codec) ==> r == Ok::<
            Checkpoint<S>,
            CheckpointStoreError,
        >(cp),
{
    assert(copy.graph_hash == copy@.graph_hash && copy.data@ == copy@.data);
    assert(blob.graph_hash == blob@.graph_hash && blob.data@ == blob@.data);
    if expected_hash == graph_hash && faithful::<S, E, D>(codec) {
        match r {
            Ok(c) => {
                let out = Ok::<Checkpoint<S>, String>(c);
                assert(call_ensures(codec.decode, (&copy.data,), out));
                assert(out == Ok::<Checkpoint<S>, String>(cp));
            },
            Err(CheckpointStoreError::Corrupted(m)) => {
                let out = Err::<Checkpoint<S>, String>(m);
                assert(call_ensures(codec.decode, (&copy.data,), out));
                assert(out == Ok::<Checkpoint<S>, String>(cp));
            },
            Err(_) => {},
        }
    }
}

/// Checkpoints of one type in a store of bytes.
pub struct TypedCheckpointStore<K> {
    pub codec: K,
}

/// What comes of a look into the store.
pub open spec fn opened<S: WorkflowState, K: CheckpointCodec<S>>(
    codec: K,
    found: Option<CheckpointBlob>,
    expected_hash: u64,
    r: Result<Option<Checkpoint<S>>, CheckpointStoreError>,
) -> bool {
    match found {
        None => r matches Ok(None),
        Some(blob) => match r {
            Ok(Some(cp)) => codec.reads(blob, expected_hash, Ok(cp)),
            Ok(None) => false,
            Err(e) => codec.reads(blob, expected_hash, Err(e)),
        },
    }
}

/// A checkpoint was filed for a run, as the bytes that the codec writes.
pub open spec fn saved<S: WorkflowState, K: CheckpointCodec<S>>(
    codec: K,
    before: Archived<CheckpointBlob>,
    after: Archived<CheckpointBlob>,
    run: u128,
    checkpoint: Checkpoint<S>,
    graph_hash: u64,
) -> bool {
    exists|blob: CheckpointBlob, copy: CheckpointBlob|
        #![trigger codec.writes(checkpoint, graph_hash, Ok(blob)), before.filed(run, blob.id.0, copy)]
        codec.writes(checkpoint, graph_hash, Ok(blob)) && copy@ == blob@ && after == before.filed(
            run,
            blob.id.0,
            copy,
        )
}

/// What comes of a look for bytes that are in the store, if there are any.
pub open spec fn loaded<S: WorkflowState, K: CheckpointCodec<S>>(
    codec: K,
    there: Option<CheckpointBlob>,
    expected_hash: u64,
    r: Result<Option<Checkpoint<S>>, CheckpointStoreError>,
) -> bool {
    exists|found: Option<CheckpointBlob>| #[trigger]
        opened(codec, found, expected_hash, r) && (found is Some <==> there is Some) && (
        found is Some ==> found->0@ == there->0@)
}

/// A checkpoint that was saved for a graph is loaded by its identifier and as the
/// latest of its run. For any other graph the load is refused, and where the reader
/// gives back what the writer wrote, the load for that graph gives the checkpoint.
pub proof fn law_saved_is_loaded<
    S: WorkflowState,
    E: Fn(&Checkpoint<S>) -> Result<Vec<u8>, String>,
    D: Fn(&Vec<u8>) -> Result<Checkpoint<S>, String>,
>(
    codec: SerdeCheckpointCodec<E, D>,
    before: Archived<CheckpointBlob>,
    after: Archived<CheckpointBlob>,
    run: u128,
    checkpoint: Checkpoint<S>,
    graph_hash: u64,
    expected_hash: u64,
    r: Result<Option<Checkpoint<S>>, CheckpointStoreError>,
)
    requires
        saved(codec, before, after, run, checkpoint, graph_hash),
        loaded(codec, after.item(checkpoint.checkpoint_id.0), expected_hash, r) || loaded(
            codec,
            after.latest(run),
            expected_hash,
            r,
        ),
    ensures
        expected_hash != graph_hash ==> (r matches Err(CheckpointStoreError::GraphMismatch {
            expected,
            actual,
        }) && expected == expected_hash && actual == graph_hash),
        expected_hash == graph_hash && faithful::<S, E, D>(codec) ==> r == Ok::<
            Option<Checkpoint<S>>,
            CheckpointStoreError,
        >(Some(checkpoint)),
{
    let (blob, copy) = choose|blob: CheckpointBlob, copy: CheckpointBlob|
        #![trigger codec.writes(checkpoint, graph_hash, Ok(blob)), before.filed(run, blob.id.0, copy)]
        codec.writes(checkpoint, graph_hash, Ok(blob)) && copy@ == blob@ && after == before.filed(
            run,
            blob.id.0,
            copy,
        );
    store::law_filed_is_found(before, run, blob.id.0, copy);
    let found = choose|found: Option<CheckpointBlob>| #[trigger]
        opened(codec, found, expected_hash, r) && found is Some && found->0@ == copy@;
    match r {
        Ok(Some(cp)) => {
            law_blobs_are_bound_to_their_graph(
                codec,
                checkpoint,
                graph_hash,
                blob,
                found->0,
                expected_hash,
                Ok(cp),
            );
        },
        Ok(None) => {},
        Err(e) => {
            law_blobs_are_bound_to_their_graph(
                codec,
                checkpoint,
                graph_hash,
                blob,
                found->0,
                expected_hash,
                Err(e),
            );
        },
    }
}

impl<K> TypedCheckpointStore<K> {
    /// The store that uses a codec.
    pub fn new(codec: K) -> (s: Self)
        ensures
            s.codec == codec,
    {
        TypedCheckpointStore { codec }
    }

    /// Files a checkpoint for a run, unless it cannot be written. Then the store is
    /// left as it was.
    pub fn save_with_trace<S: WorkflowState>(
        &self,
        store: &mut InMemoryBlobStore,
        trace_id: &TraceId,
        checkpoint: &Checkpoint<S>,
        graph_hash: u64,
    ) -> (r: Result<(), CheckpointStoreError>) where K: CheckpointCodec<S>
        requires
            self.codec.usable(),
        ensures
            match r {
                Ok(_) => saved(
                    self.codec,
                    old(store)@,
                    final(store)@,
                    trace_id.0,
                    *checkpoint,
                    graph_hash,
                ),
                Err(e) => self.codec.writes(*checkpoint, graph_hash, Err(e)) && final(store)@
                    == old(store)@,
            },
    {
        let ghost before = store@;
        match self.codec.serialize(checkpoint, graph_hash) {
            Ok(blob) => {
                store.save_with_trace(trace_id, &blob);
                proof {
                    let copy = choose|copy: CheckpointBlob|
                        copy@ == blob@ && store@ == #[trigger] before.filed(
                            trace_id.0,
                            blob.id.0,
                            copy,
                        );
                    assert(self.codec.writes(*checkpoint, graph_hash, Ok(blob)));
                    assert(store@ == before.filed(trace_id.0, blob.id.0, copy));
                }
                Ok(())
            },
            Err(e) => Err(e),
        }
    }

    /// What comes of a look into a store of bytes, whichever it is: what is found is
    /// read, and an error of the store is passed on.
    pub fn open<S: WorkflowState>(
        &self,
        found: Result<Option<CheckpointBlob>, CheckpointStoreError>,
        expected_hash: u64,
    ) -> (r: Result<Option<Checkpoint<S>>, CheckpointStoreError>) where K: CheckpointCodec<S>
        requires
            self.codec.usable(),
        ensures
            match found {
                Ok(blob) => opened(self.codec, blob, expected_hash, r),
                Err(e) => r == Err::<Option<Checkpoint<S>>, CheckpointStoreError>(e),
            },
    {
        match found {
            Ok(Some(blob)) => match self.codec.deserialize(&blob, expected_hash) {
                Ok(cp) => Ok(Some(cp)),
                Err(e) => Err(e),
            },
            Ok(None) => Ok(None),
            Err(e) => Err(e),
        }
    }

    /// The checkpoint with an identifier, for the graph with a fingerprint.
    pub fn load<S: WorkflowState>(
        &self,
        store: &InMemoryBlobStore,
        id: &CheckpointId,
        expected_hash: u64,
    ) -> (r: Result<Option<Checkpoint<S>>, CheckpointStoreError>) where K: CheckpointCodec<S>
        requires
            self.codec.usable(),
        ensures
            loaded(self.codec, store@.item(id.0), expected_hash, r),
    {
        let found = store.load(id);
        let ghost seen = found;
        let r = self.open(Ok(found), expected_hash);
        assert(opened(self.codec, seen, expected_hash, r));
        r
    }

    /// The checkpoint that was filed last for a run, for the graph with a
    /// fingerprint.
    pub fn load_latest<S: WorkflowState>(
        &self,
        store: &InMemoryBlobStore,
        trace_id: &TraceId,
        expected_hash: u64,
    ) -> (r: Result<Option<Checkpoint<S>>, CheckpointStoreError>) where K: CheckpointCodec<S>
        requires
            self.codec.usable(),
        ensures
            loaded(self.codec, store@.latest(trace_id.0), expected_hash, r),
    {
        let found = store.load_latest(trace_id);
        let ghost seen = found;
        let r = self.open(Ok(found), expected_hash);
        assert(opened(self.codec, seen, expected_hash, r));
        r
    }
}

/// Where nothing was kept, nothing is loaded, and that is no error; where something was kept,
/// what comes back is what the codec reads of it, and never nothing.
pub proof fn law_nothing_kept_is_nothing_loaded<S: WorkflowState, K: CheckpointCodec<S>>(
    codec: K,
    found: Option<CheckpointBlob>,
    expected_hash: u64,
    r: Result<Option<Checkpoint<S>>, CheckpointStoreError>,
)
    requires
        opened(codec, found, expected_hash, r),
    ensures
        found is None <==> r matches Ok(None),
        found matches Some(blob) ==> (r matches Ok(Some(cp)) ==> codec.reads(
            blob,
            expected_hash,
            Ok(cp),
        )),
        found matches Some(blob) ==> (r matches Err(e) ==> codec.reads(
            blob,
            expected_hash,
            Err(e),
        )),
{
}

} // verus!

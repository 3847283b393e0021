//! The state of the engine as bytes, for another session to go on with.

use crate::scalar::Scalar;
use crate::tci::{TaskSnapshot, TciEngine, TernaryBrain, memories_of};
use vstd::prelude::*;
use vstd::slice::slice_to_vec;

verus! {

/// The fields of a brain.
pub type BrainRecord = (u64, u64, Vec<i8>);

/// The fields of a task snapshot; its signature is kept as bytes, its accuracy as a pattern.
pub type TaskRecord = (String, Vec<i8>, Vec<u8>, u32);

/// The fields of an engine.
pub type EngineRecord = (BrainRecord, Vec<TaskRecord>, Vec<i8>);

/// The contents of a brain.
pub type BrainView = (u64, u64, Seq<i8>);

/// The contents of a task snapshot.
pub type TaskView = (Seq<char>, Seq<i8>, Seq<u8>, u32);

/// The contents of an engine.
pub type EngineView = (BrainView, Seq<TaskView>, Seq<i8>);

/// The contents of a record.
pub open spec fn brain_record_view(r: BrainRecord) -> BrainView {
    (r.0, r.1, r.2@)
}

/// The contents of a record.
pub open spec fn task_record_view(r: TaskRecord) -> TaskView {
    (r.0@, r.1@, r.2@, r.3)
}

/// The contents of a record.
pub open spec fn engine_record_view(r: EngineRecord) -> EngineView {
    (brain_record_view(r.0), r.1@.map_values(|t: TaskRecord| task_record_view(t)), r.2@)
}

/// The contents of a brain.
pub open spec fn brain_view(b: TernaryBrain) -> BrainView {
    (b.image_dim as u64, b.n_classes as u64, b.weights@)
}

/// The contents of a task snapshot.
pub open spec fn task_view(t: TaskSnapshot<Vec<u8>>) -> TaskView {
    (t.name@, t.weights@, t.prototype@, t.train_accuracy.bits)
}

/// The contents of an engine.
pub open spec fn engine_view(e: TciEngine<Vec<u8>>) -> EngineView {
    (
        brain_view(e.template),
        e.tasks@.map_values(|t: TaskSnapshot<Vec<u8>>| task_view(t)),
        e.consensus@,
    )
}

/// The sizes in the contents of a brain are sizes on this machine.
pub open spec fn brain_sizes_fit(v: BrainView) -> bool {
    v.0 <= usize::MAX && v.1 <= usize::MAX
}

pub(crate) fn record_brain(b: &TernaryBrain) -> (r: BrainRecord)
    ensures
        brain_record_view(r) == brain_view(*b),
{
    (b.image_dim as u64, b.n_classes as u64, slice_to_vec(b.weights.as_slice()))
}

pub(crate) fn restore_brain(r: &BrainRecord) -> (b: Option<TernaryBrain>)
    ensures
        b is Some <==> brain_sizes_fit(brain_record_view(*r)),
        b matches Some(b) ==> brain_view(b) == brain_record_view(*r),
{
    if r.0 > usize::MAX as u64 || r.1 > usize::MAX as u64 {
        return None;
    }
    Some(
        TernaryBrain {
            image_dim: r.0 as usize,
            n_classes: r.1 as usize,
            weights: slice_to_vec(r.2.as_slice()),
        },
    )
}

fn record_task(t: &TaskSnapshot<Vec<u8>>) -> (r: TaskRecord)
    ensures
        task_record_view(r) == task_view(*t),
{
    (
        t.name.clone(),
        slice_to_vec(t.weights.as_slice()),
        slice_to_vec(t.prototype.as_slice()),
        t.train_accuracy.to_bits(),
    )
}

fn restore_task(r: &TaskRecord) -> (t: TaskSnapshot<Vec<u8>>)
    ensures
        task_view(t) == task_record_view(*r),
{
    TaskSnapshot {
        name: r.0.clone(),
        weights: slice_to_vec(r.1.as_slice()),
        prototype: slice_to_vec(r.2.as_slice()),
        train_accuracy: Scalar::from_bits(r.3),
    }
}

/// The fields of an engine.
pub fn record_of_engine(e: &TciEngine<Vec<u8>>) -> (r: EngineRecord)
    ensures
        engine_record_view(r) == engine_view(*e),
{
    let mut tasks: Vec<TaskRecord> = Vec::new();
    let mut i: usize = 0;
    while i < e.tasks.len()
        invariant
            i <= e.tasks@.len(),
            tasks@.len() == i,
            forall|j: int|
                0 <= j < i ==> task_record_view(#[trigger] tasks@[j]) == task_view(e.tasks@[j]),
        decreases e.tasks.len() - i,
    {
        tasks.push(record_task(&e.tasks[i]));
        i = i + 1;
    }
    let r = (record_brain(&e.template), tasks, slice_to_vec(e.consensus.as_slice()));
    proof {
        assert(engine_record_view(r).1 =~= engine_view(*e).1);
    }
    r
}

/// The engine with these fields, if its sizes are sizes on this machine.
pub fn engine_of_record(r: &EngineRecord) -> (e: Option<TciEngine<Vec<u8>>>)
    ensures
        e is Some <==> brain_sizes_fit(engine_record_view(*r).0),
        e matches Some(e) ==> engine_view(e) == engine_record_view(*r),
{
    let template = match restore_brain(&r.0) {
        Some(b) => b,
        None => {
            return None;
        },
    };
    let mut tasks: Vec<TaskSnapshot<Vec<u8>>> = Vec::new();
    let mut i: usize = 0;
    while i < r.1.len()
        invariant
            i <= r.1@.len(),
            tasks@.len() == i,
            forall|j: int|
                0 <= j < i ==> task_view(#[trigger] tasks@[j]) == task_record_view(r.1@[j]),
        decreases r.1.len() - i,
    {
        tasks.push(restore_task(&r.1[i]));
        i = i + 1;
    }
    let e = TciEngine { template, tasks, consensus: slice_to_vec(r.2.as_slice()) };
    proof {
        assert(engine_view(e).1 =~= engine_record_view(*r).1);
    }
    Some(e)
}

/// The bytes of an engine.
pub uninterp spec fn encoded_engine(engine: EngineView) -> Seq<u8>;

/// The engine that bytes stand for, if they do.
pub uninterp spec fn decoded_engine(bytes: Seq<u8>) -> Option<EngineView>;

/// The bytes stand for this engine.
pub open spec fn bytes_hold_engine(bytes: Seq<u8>, engine: EngineView) -> bool {
    decoded_engine(bytes) == Some(engine)
}

/// What a decoder gives: an engine, or nothing.
pub open spec fn engine_result_view(r: Result<EngineRecord, String>) -> Option<EngineView> {
    match r {
        Ok(record) => Some(engine_record_view(record)),
        Err(_) => None,
    }
}

/// `bincode::serialize` of the fields of an engine: it gives bytes, because no size is limited and
/// every length is known beforehand. They depend on the contents of the fields alone, and stand
/// for those contents. How they are laid out is left unsaid.
#[verifier::external_body]
fn encode_engine(record: &EngineRecord) -> (r: Result<Vec<u8>, String>)
    ensures
        r is Ok,
        r matches Ok(bytes) ==> bytes@ == encoded_engine(engine_record_view(*record)),
        r matches Ok(bytes) ==> bytes_hold_engine(bytes@, engine_record_view(*record)),
{
    bincode::serialize(record).map_err(|e| e.to_string())
}

/// `bincode::deserialize` into the fields of an engine: whether it gives an engine, and which,
/// depends on the bytes alone. Which bytes stand for no engine, and the text of an error, is left
/// unsaid.
#[verifier::external_body]
fn decode_engine(bytes: &[u8]) -> (r: Result<EngineRecord, String>)
    ensures
        engine_result_view(r) == decoded_engine(bytes@),
{
    bincode::deserialize(bytes).map_err(|e| e.to_string())
}

/// What an encoder has given, with a word on what failed in front of the reason of a failure.
pub fn saved(encoded: Result<Vec<u8>, String>, what_failed: &str) -> (r: Result<Vec<u8>, String>)
    ensures
        match encoded {
            Ok(bytes) => r == Ok::<Vec<u8>, String>(bytes),
            Err(reason) => r matches Err(e) && e@ == what_failed@ + reason@,
        },
{
    match encoded {
        Ok(bytes) => Ok(bytes),
        Err(reason) => {
            let mut out: String = what_failed.to_owned();
            out.append(reason.as_str());
            Err(out)
        },
    }
}

/// The engine that a decoder has given, if its sizes are sizes on this machine.
pub fn loaded_engine(decoded: Result<EngineRecord, String>) -> (r: Result<
    TciEngine<Vec<u8>>,
    String,
>)
    ensures
        match decoded {
            Ok(record) => if brain_sizes_fit(engine_record_view(record).0) {
                r matches Ok(e) && engine_view(e) == engine_record_view(record)
            } else {
                r matches Err(e) && e@
                    == "tci deserialize: "@ + "a size is too large for this machine"@
            },
            Err(reason) => r matches Err(e) && e@ == "tci deserialize: "@ + reason@,
        },
{
    let mut out: String = "tci deserialize: ".to_owned();
    match decoded {
        Ok(record) => match engine_of_record(&record) {
            Some(e) => Ok(e),
            None => {
                out.append("a size is too large for this machine");
                Err(out)
            },
        },
        Err(reason) => {
            out.append(reason.as_str());
            Err(out)
        },
    }
}

impl TciEngine<Vec<u8>> {
    /// The engine as bytes.
    pub fn to_bytes(&self) -> (r: Result<Vec<u8>, String>)
        ensures
            r matches Ok(bytes) && bytes@ == encoded_engine(engine_view(*self))
                && bytes_hold_engine(bytes@, engine_view(*self)),
    {
        saved(encode_engine(&record_of_engine(self)), "tci serialize: ")
    }

    /// The engine that bytes stand for.
    pub fn from_bytes(bytes: &[u8]) -> (r: Result<TciEngine<Vec<u8>>, String>)
        ensures
            match decoded_engine(bytes@) {
                Some(v) => if brain_sizes_fit(v.0) {
                    r matches Ok(e) && engine_view(e) == v
                } else {
                    r is Err
                },
                None => r is Err,
            },
            r matches Err(e) ==> "tci deserialize: "@.is_prefix_of(e@),
    {
        let r = loaded_engine(decode_engine(bytes));
        proof {
            assert(r matches Err(e) ==> "tci deserialize: "@.is_prefix_of(e@));
        }
        r
    }
}

/// What is read back is what was written: bytes that were made of an engine stand for an engine
/// with the same template, the same snapshots in the same order, and the same consensus.
pub proof fn law_engine_is_read_back(
    written: TciEngine<Vec<u8>>,
    bytes: Seq<u8>,
    read: TciEngine<Vec<u8>>,
)
    requires
        bytes_hold_engine(bytes, engine_view(written)),
        bytes_hold_engine(bytes, engine_view(read)),
    ensures
        brain_sizes_fit(engine_view(written).0),
        read.template.image_dim == written.template.image_dim,
        read.template.n_classes == written.template.n_classes,
        read.template.weights@ == written.template.weights@,
        read.tasks@.len() == written.tasks@.len(),
        forall|t: int|
            0 <= t < read.tasks@.len() ==> task_view(#[trigger] read.tasks@[t]) == task_view(
                written.tasks@[t],
            ),
        read.consensus@ == written.consensus@,
        written.wf() ==> read.wf(),
        written.agreed() ==> read.agreed(),
{
    lemma_same_contents(written, read);
}

/// Engines with the same contents are alike in all that the engine works with.
pub(crate) proof fn lemma_same_contents(written: TciEngine<Vec<u8>>, read: TciEngine<Vec<u8>>)
    requires
        engine_view(written) == engine_view(read),
    ensures
        read.template.image_dim == written.template.image_dim,
        read.template.n_classes == written.template.n_classes,
        read.template.weights@ == written.template.weights@,
        read.tasks@.len() == written.tasks@.len(),
        forall|t: int|
            0 <= t < read.tasks@.len() ==> task_view(#[trigger] read.tasks@[t]) == task_view(
                written.tasks@[t],
            ),
        read.consensus@ == written.consensus@,
        written.wf() ==> read.wf(),
        written.agreed() ==> read.agreed(),
{
    let (a, b) = (engine_view(written), engine_view(read));
    assert(a.1.len() == b.1.len());
    assert forall|t: int| 0 <= t < read.tasks@.len() implies task_view(#[trigger] read.tasks@[t])
        == task_view(written.tasks@[t]) by {
        assert(b.1[t] == task_view(read.tasks@[t]));
        assert(a.1[t] == task_view(written.tasks@[t]));
    }
    assert(memories_of(read.tasks@) =~= memories_of(written.tasks@)) by {
        assert forall|t: int| 0 <= t < read.tasks@.len() implies #[trigger] memories_of(
            read.tasks@,
        )[t] == memories_of(written.tasks@)[t] by {
            assert(task_view(read.tasks@[t]) == task_view(written.tasks@[t]));
        }
    }
    if written.wf() {
        assert forall|t: int| 0 <= t < read.tasks@.len() implies (
        #[trigger] read.tasks@[t]).weights@.len() >= read.template.weights@.len() by {
            assert(task_view(read.tasks@[t]) == task_view(written.tasks@[t]));
            assert(written.tasks@[t].weights@.len() >= written.template.weights@.len());
        }
    }
}

} // verus!

//! What holds of the registry over any run of operations: a model that someone holds a handle to
//! stays mapped, and no identifier is given out twice.

use vstd::prelude::*;
use crate::registry;
use crate::registry::{ModelId, RegistryView, SwapMetrics};

verus! {

/// One operation on a registry.
pub enum Operation {
    /// A path is loaded, with the metrics that mapping it gives where it has to be mapped.
    Load { path: Seq<char>, metrics: SwapMetrics },
    /// Another handle is made of one.
    Share(ModelId),
    /// A handle is given back.
    Release(ModelId),
    /// A model is to be evicted.
    Evict(ModelId),
    /// A model's device memory is recorded.
    Record(ModelId, u64),
}

/// The registry after an operation.
pub open spec fn after(v: RegistryView, op: Operation) -> RegistryView {
    match op {
        Operation::Load { path, metrics } => match v.find_path(path) {
            Some(i) => v.touched(i),
            None => v.admitted(path, metrics),
        },
        Operation::Share(id) => v.shared(id),
        Operation::Release(id) => v.released(id),
        Operation::Evict(id) => v.evicted(id),
        Operation::Record(id, bytes) => v.recorded(id, bytes),
    }
}

/// The model that an operation gives a handle to, if it gives one.
pub open spec fn gives(v: RegistryView, op: Operation) -> Option<ModelId> {
    match op {
        Operation::Load { path, .. } => match v.find_path(path) {
            Some(i) => Some(v.residents[i].id),
            None => Some(ModelId(v.next_id as u64)),
        },
        Operation::Share(id) => if v.resident(id) is Some {
            Some(id)
        } else {
            None
        },
        _ => None,
    }
}

/// The registry after the first `n` operations on an empty one.
pub open spec fn run(ops: Seq<Operation>, n: int) -> RegistryView
    decreases n,
{
    if n <= 0 {
        RegistryView { next_id: 0, residents: Seq::empty() }
    } else {
        after(run(ops, n - 1), ops[n - 1])
    }
}

/// How many handles to a model are out after the first `n` operations: those that were given out
/// and not given back.
pub open spec fn out(ops: Seq<Operation>, n: int, id: ModelId) -> int
    decreases n,
{
    if n <= 0 {
        0
    } else {
        out(ops, n - 1, id) + (if gives(run(ops, n - 1), ops[n - 1]) == Some(id) {
            1int
        } else {
            0int
        }) - (if ops[n - 1] == Operation::Release(id) {
            1int
        } else {
            0int
        })
    }
}

/// Only handles that are out are given back or made others of, and identifiers do not run out.
pub open spec fn possible(ops: Seq<Operation>) -> bool {
    &&& ops.len() < u64::MAX
    &&& forall|n: int|
        0 <= n < ops.len() ==> match #[trigger] ops[n] {
            Operation::Release(id) => out(ops, n, id) > 0,
            Operation::Share(id) => out(ops, n, id) > 0,
            _ => true,
        }
}

/// Whatever was done, a model is held exactly as often as handles to it are out, and one to which
/// any is out is resident.
pub proof fn law_handles_are_counted(ops: Seq<Operation>, n: int, id: ModelId)
    requires
        possible(ops),
        0 <= n <= ops.len(),
    ensures
        run(ops, n).wf(),
        run(ops, n).next_id <= n,
        out(ops, n, id) >= 0,
        match run(ops, n).resident(id) {
            Some(r) => r.handles == out(ops, n, id),
            None => out(ops, n, id) == 0,
        },
    decreases n,
{
    if n > 0 {
        law_handles_are_counted(ops, n - 1, id);
        let v = run(ops, n - 1);
        match ops[n - 1] {
            Operation::Load { path, metrics } => {
                registry::lemma_path_index(v.residents, path, 0);
                match v.find_path(path) {
                    Some(i) => {
                        registry::law_a_use_holds_once_more(v, i, id);
                        registry::lemma_first_id(v, i, 0);
                    },
                    None => {
                        registry::law_a_load_adds_one(v, path, metrics, id);
                    },
                }
            },
            Operation::Share(shared) => {
                registry::law_sharing_holds_once_more(v, shared, id);
            },
            Operation::Release(released) => {
                registry::law_a_release_holds_once_less(v, released, id);
            },
            Operation::Evict(evicted) => {
                registry::law_an_eviction_takes_one(v, evicted, id);
                registry::lemma_id_index(v.residents, evicted, 0);
            },
            Operation::Record(recorded, bytes) => {
                registry::law_recording_changes_one(v, recorded, bytes, id);
            },
        }
    }
}

/// Identifiers are counted up: whatever was given out so far is below the next one.
proof fn lemma_identifiers_are_counted_up(ops: Seq<Operation>, m: int, n: int)
    requires
        possible(ops),
        0 <= m < n <= ops.len(),
    ensures
        gives(run(ops, m), ops[m]) matches Some(id) ==> id.0 < run(ops, n).next_id,
        run(ops, m).next_id <= run(ops, n).next_id,
    decreases n,
{
    let v = run(ops, n - 1);
    law_handles_are_counted(ops, n - 1, ModelId(0));
    if m < n - 1 {
        lemma_identifiers_are_counted_up(ops, m, n - 1);
    } else {
        match ops[m] {
            Operation::Load { path, .. } => {
                registry::lemma_path_index(v.residents, path, 0);
            },
            Operation::Share(id) => {
                registry::lemma_id_index(v.residents, id, 0);
            },
            _ => {},
        }
    }
}

/// An identifier is given out once: the one that a model gets when it is mapped was never given out
/// before, be it to a model that is resident or to one that has long been evicted.
pub proof fn law_identifiers_are_given_out_once(ops: Seq<Operation>, m: int, n: int)
    requires
        possible(ops),
        0 <= m < n < ops.len(),
        ops[n] matches Operation::Load { path, .. } && run(ops, n).find_path(path) is None,
    ensures
        gives(run(ops, n), ops[n]) is Some,
        gives(run(ops, m), ops[m]) != gives(run(ops, n), ops[n]),
{
    lemma_identifiers_are_counted_up(ops, m, n);
    law_handles_are_counted(ops, n, ModelId(0));
}

/// No run of operations takes a model away to which a handle is out: to evict it is refused then,
/// and changes nothing.
pub proof fn law_held_models_are_never_unmapped(ops: Seq<Operation>, n: int, id: ModelId)
    requires
        possible(ops),
        0 <= n <= ops.len(),
        out(ops, n, id) > 0,
    ensures
        run(ops, n).resident(id) is Some,
        run(ops, n).eviction(id) is Err,
        run(ops, n).evicted(id) == run(ops, n),
{
    law_handles_are_counted(ops, n, id);
}

/// Once the last handle to a resident model was given back, it can be evicted.
pub proof fn law_released_models_can_be_evicted(ops: Seq<Operation>, n: int, id: ModelId)
    requires
        possible(ops),
        0 <= n <= ops.len(),
        run(ops, n).resident(id) is Some,
        out(ops, n, id) == 0,
    ensures
        run(ops, n).eviction(id) is Ok,
        run(ops, n).evicted(id).resident(id) is None,
{
    law_handles_are_counted(ops, n, id);
    registry::law_an_eviction_takes_one(run(ops, n), id, id);
}

} // verus!

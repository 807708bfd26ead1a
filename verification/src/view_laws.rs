//! What contracts say of a value they say of all that is in it.

use vstd::prelude::*;

use crate::cache::{ActionView, Allocation, CacheAction, CacheEvent, EventView};
use crate::cache::{KvAction, KvActionView, KvAppend, KvAppendView};
use crate::error::{viewed, ErrorView, GraphError};
use crate::extension::{slice_set_at_outcome, slice_set_outcome, CudaTensorExtension};
use crate::graph::{ReplayAction, ReplayActionView};
use crate::input::{all_wf, distinct, inputs_view, load_from, loadable};
use crate::input::{GraphInput, InputProblem, InputsView, Load, NamedInputs};
use crate::tensor::Tensor;

verus! {

/// Two errors that are the same to a contract are of one kind and report the same values.
pub proof fn law_errors_are_told_apart(a: GraphError, b: GraphError)
    requires
        a@ == b@,
    ensures
        match (a, b) {
            (
                GraphError::DimOutOfRange { shape, dim, op },
                GraphError::DimOutOfRange { shape: s, dim: d, op: o },
            ) => shape@ == s@ && dim == d && op == o,
            (
                GraphError::NarrowInvalidArgs { shape, dim, start, len },
                GraphError::NarrowInvalidArgs { shape: s, dim: d, start: t, len: n },
            ) => shape@ == s@ && dim == d && start == t && len == n,
            (
                GraphError::UnexpectedNumberOfDims { expected, got, shape },
                GraphError::UnexpectedNumberOfDims { expected: e, got: g, shape: s },
            ) => expected == e && got == g && shape@ == s@,
            (
                GraphError::PositionCount { shape },
                GraphError::PositionCount { shape: s },
            ) => shape@ == s@,
            (
                GraphError::SourceNotContiguous { shape },
                GraphError::SourceNotContiguous { shape: s },
            ) => shape@ == s@,
            (
                GraphError::DestinationNotContiguous { shape },
                GraphError::DestinationNotContiguous { shape: s },
            ) => shape@ == s@,
            (
                GraphError::ShapeMismatch { src, dst },
                GraphError::ShapeMismatch { src: s, dst: d },
            ) => src@ == s@ && dst@ == d@,
            (
                GraphError::InputNotContiguous { name },
                GraphError::InputNotContiguous { name: n },
            ) => name@ == n@,
            _ => a == b,
        },
{
}

/// A result is the same to a contract where it succeeds, and an error is the one that it carries.
pub proof fn law_results_keep_their_values<T>(r: Result<T, GraphError>)
    ensures
        r matches Ok(value) ==> viewed(r) == Ok::<T, ErrorView>(value),
        r matches Err(e) ==> viewed(r) == Err::<T, _>(e@),
{
}

/// What a cache asks for, and what it is told, is the same to a contract.
pub proof fn law_cache_calls_keep_their_values(
    request: Allocation,
    action: CacheAction,
    event: CacheEvent,
)
    ensures
        request@.dims == request.dims@,
        request@.dtype == request.dtype,
        request@.location == request.location,
        action@ == match action {
            CacheAction::Allocate(request) => ActionView::Allocate(request@),
            CacheAction::Launch(launch) => ActionView::Launch(launch),
            CacheAction::Done => ActionView::Done,
        },
        event@ == match event {
            CacheEvent::Start => EventView::Start,
            CacheEvent::Allocated(t) => EventView::Allocated(t@),
            CacheEvent::Launched => EventView::Launched,
        },
{
}

/// What a pair of caches asks for, and what it hands back, is the same to a contract: the keys
/// as the keys and the values as the values.
pub proof fn law_kv_calls_keep_their_values(action: KvAction, append: KvAppend)
    ensures
        action@ == match action {
            KvAction::Do { half, action } => KvActionView::Do { half, action: action@ },
            KvAction::Done => KvActionView::Done,
        },
        append@ == match append {
            KvAppend::Do { half, action } => KvAppendView::Do { half, action: action@ },
            KvAppend::Done { k, v } => KvAppendView::Done { k: k@, v: v@ },
        },
{
}

/// What a replay asks for is the same to a contract.
pub proof fn law_replays_keep_their_values(action: ReplayAction, load: Load)
    ensures
        action@ == match action {
            ReplayAction::Load(load) => ReplayActionView::Load(load@),
            ReplayAction::Launch { executable, stream } => ReplayActionView::Launch {
                executable,
                stream,
            },
            ReplayAction::Synchronize => ReplayActionView::Synchronize,
            ReplayAction::Done => ReplayActionView::Done,
        },
        load@.copies == load.copies@,
        load@.result is Ok <==> load.result is Ok,
        load.result matches Err(e) ==> load@.result->Err_0 == e@,
{
}

/// What is said against inputs is the same to a contract, and so are inputs by their names.
pub proof fn law_inputs_keep_their_values(
    problem: InputProblem<String>,
    entries: Seq<(String, Tensor)>,
    i: int,
)
    requires
        0 <= i < entries.len(),
    ensures
        problem@ == match problem {
            InputProblem::NotContiguous(name) => InputProblem::NotContiguous(name@),
            InputProblem::Unknown(name) => InputProblem::Unknown(name@),
            InputProblem::Missing(name) => InputProblem::Missing(name@),
        },
        inputs_view(entries).len() == entries.len(),
        inputs_view(entries)[i] == (entries[i].0@, entries[i].1@),
{
}

/// Any two tensors may be handed to a write of a slice, and it comes to what the slice of their
/// contents comes to.
pub proof fn law_slices_of_tensors(
    dst: Tensor,
    src: Tensor,
    dim: usize,
    offset: usize,
    position: Tensor,
)
    ensures
        dst@.wf() && src@.wf() ==> dst.slice_set_admits(&src, dim, offset),
        dst@.wf() && src@.wf() && position@.wf() ==> dst.slice_set_at_admits(
            &src,
            dim,
            offset,
            &position,
        ),
        dst.slice_set_returns(&src, dim, offset) == slice_set_outcome(dst@, src@, dim, offset),
        dst.slice_set_at_returns(&src, dim, offset, &position) == slice_set_at_outcome(
            dst@,
            src@,
            dim,
            offset,
            position@,
        ),
{
}

/// Named inputs are those that they show, they are in order exactly if each lies inside its storage
/// and no name stands for two, and loading others over them is loading each over its namesake.
pub proof fn law_named_inputs_are_loaded_by_name(inputs: NamedInputs, other: NamedInputs)
    ensures
        inputs.inputs() == inputs@,
        inputs.wf() <==> all_wf(inputs@) && distinct(inputs@),
        loadable(inputs@, other@) ==> inputs.load_admits(&other),
        inputs.load_returns(&other) == load_from(inputs@, other@, 0),
{
}

/// Names are distinct exactly if no two of the inputs have the same, and inputs are in order exactly
/// if each of them lies inside its storage.
pub proof fn law_distinct_names(inputs: InputsView)
    ensures
        !distinct(inputs) <==> exists|i: int, j: int|
            0 <= i < j < inputs.len() && (#[trigger] inputs[i]).0 == (#[trigger] inputs[j]).0,
        all_wf(inputs) <==> forall|i: int|
            0 <= i < inputs.len() ==> (#[trigger] inputs[i]).1.wf(),
{
}

} // verus!

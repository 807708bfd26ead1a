//! What a graph does from its capture to its end.

use vstd::prelude::*;

use crate::copy2d::COPY2D_FINGERPRINT;
use crate::dtype::DType;
use crate::error::ErrorView;
use crate::extension::{slice_set_at_outcome, slice_set_outcome};
use crate::graph::{action_at, first_strided, stage_after, CaptureAction, CaptureEvent, Stage};
use crate::graph::{warm_up_list, Graph, ReplayActionView, ReplayEvent, TeardownAction};
use crate::input::{GraphInput, InputsView, Load, NamedInputs};
use crate::input_laws::{copies_over, law_load_succeeds, law_matching_inputs_are_loaded, named};
use crate::node::{describes, KernelLaunchParams, Node, NodeData, RawNode, NODE_TYPE_KERNEL};
use crate::tensor::TensorView;

verus! {

/// Whether an event is the answer to an action.
pub open spec fn answers(action: CaptureAction, event: CaptureEvent) -> bool {
    match action {
        CaptureAction::WarmUp => event is WarmedUp,
        CaptureAction::CreateGraph => event is Created,
        CaptureAction::BeginCapture { .. } => event is Begun,
        CaptureAction::RunCode => event is CodeRun,
        CaptureAction::EndCapture { .. } => event is Ended,
        CaptureAction::Instantiate { .. } => event is Instantiated,
        CaptureAction::Finish => false,
    }
}

/// The number of actions that are done at a stage.
pub open spec fn steps_done(stage: Stage) -> int {
    match stage {
        Stage::Cold => 0,
        Stage::Warm => 1,
        Stage::Created { .. } => 2,
        Stage::Capturing { .. } => 3,
        Stage::Traced { .. } => 4,
        Stage::Captured { .. } => 5,
        Stage::Instantiated { .. } => 6,
    }
}

/// A capture goes one way only: it moves on exactly when the action that it asked for has been
/// done, and by one stage. So kernels are loaded before the capture begins, and the code runs
/// after it has begun and before it ends.
pub proof fn law_capture_goes_one_way(stage: Stage, stream: u64, event: CaptureEvent)
    ensures
        stage_after(stage, event) is Some <==> answers(action_at(stage, stream), event),
        stage_after(stage, event) matches Some(next) ==> steps_done(next) == steps_done(stage) + 1,
        action_at(stage, stream) is Finish <==> stage is Instantiated,
{
}

/// The inputs of a graph are accepted exactly where all are contiguous.
pub proof fn law_inputs_contiguous(inputs: InputsView, i: int)
    requires
        0 <= i <= inputs.len(),
    ensures
        first_strided(inputs, i) is None <==> forall|k: int|
            i <= k < inputs.len() ==> (#[trigger] inputs[k]).1.is_contiguous(),
    decreases inputs.len() - i,
{
    if i < inputs.len() {
        law_inputs_contiguous(inputs, i + 1);
    }
}

/// The order of a replay: first the inputs are loaded, the graph is launched exactly when they
/// have been loaded without an error, and the replay is done exactly when the device is.
pub proof fn law_replay_goes_in_order<T: GraphInput, R>(
    graph: Graph<T, R>,
    input: T,
    event: ReplayEvent,
)
    ensures
        graph.replay_step(input, event) matches Ok(ReplayActionView::Load(_)) <==> event is Start,
        graph.replay_step(input, event) matches Ok(ReplayActionView::Launch { .. }) <==> {
            &&& event matches ReplayEvent::Loaded(load)
            &&& load@.result is Ok
        },
        graph.replay_step(input, event) matches Ok(ReplayActionView::Synchronize)
            <==> event is Launched,
        graph.replay_step(input, event) matches Ok(ReplayActionView::Done)
            <==> event is Synchronized,
{
}

/// Every launch that is prepared carries the fingerprint.
pub proof fn law_launches_carry_the_fingerprint(
    dst: TensorView,
    src: TensorView,
    dim: usize,
    offset: usize,
    position: TensorView,
)
    ensures
        slice_set_outcome(dst, src, dim, offset) matches Ok(Some(launch)) ==> launch.fingerprint
            == COPY2D_FINGERPRINT,
        slice_set_at_outcome(dst, src, dim, offset, position) matches Ok(Some(launch))
            ==> launch.fingerprint == COPY2D_FINGERPRINT,
        COPY2D_FINGERPRINT == 7472013941709904021,
{
}

/// What the driver describes once the launch parameters of the node with that handle have been
/// set.
pub open spec fn params_set(
    raw: Seq<RawNode>,
    handle: u64,
    launch_params: KernelLaunchParams,
) -> Seq<RawNode> {
    raw.map_values(
        |node: RawNode|
            if node.handle == handle {
                RawNode { launch_params, ..node }
            } else {
                node
            },
    )
}

/// After the launch parameters of a kernel have been set, describing the nodes again gives that
/// node as it was updated, and all others as they were. Nothing else changes what is described.
pub proof fn law_update_shows_in_the_nodes<'a>(
    raw: Seq<RawNode>,
    nodes: Seq<Node<'a>>,
    i: int,
    updated: Node<'a>,
    launch_params: KernelLaunchParams,
    again: Seq<Node<'a>>,
)
    requires
        describes(raw, nodes),
        forall|p: int, q: int|
            0 <= p < q < raw.len() ==> (#[trigger] raw[p]).handle != (#[trigger] raw[q]).handle,
        0 <= i < nodes.len(),
        nodes[i].data() is Kernel,
        updated.data() == (NodeData::Kernel { launch_params }),
        updated.handle() == nodes[i].handle(),
        describes(params_set(raw, updated.handle(), launch_params), again),
    ensures
        again.len() == nodes.len(),
        again[i].data() == updated.data(),
        again[i].handle() == updated.handle(),
        forall|j: int|
            0 <= j < nodes.len() && j != i ==> (#[trigger] again[j]).data() == nodes[j].data()
                && again[j].handle() == nodes[j].handle(),
{
    let set: Seq<RawNode> = params_set(raw, updated.handle(), launch_params);
    assert(set[i].spec_data() == Some(again[i].data()) && raw[i].spec_data() == Some(
        nodes[i].data(),
    ));
    assert forall|j: int| 0 <= j < nodes.len() && j != i implies (#[trigger] again[j]).data()
        == nodes[j].data() && again[j].handle() == nodes[j].handle() by {
        assert(raw[j].handle != raw[i].handle);
        assert(set[j] == raw[j]);
        assert(raw[j].spec_data() == Some(nodes[j].data()));
    }
}

/// As long as no parameters are set, describing the nodes again gives the same nodes.
pub proof fn law_nodes_stay<'a>(raw: Seq<RawNode>, nodes: Seq<Node<'a>>, again: Seq<Node<'a>>)
    requires
        describes(raw, nodes),
        describes(raw, again),
    ensures
        again.len() == nodes.len(),
        forall|j: int|
            0 <= j < nodes.len() ==> (#[trigger] again[j]).data() == nodes[j].data()
                && again[j].handle() == nodes[j].handle(),
{
    assert forall|j: int| 0 <= j < nodes.len() implies (#[trigger] again[j]).data()
        == nodes[j].data() && again[j].handle() == nodes[j].handle() by {
        assert(raw[j].spec_data() == Some(nodes[j].data()));
    }
}

/// A graph that was never replayed is launched before it is destroyed; nothing is launched after
/// that, and both handles are destroyed once.
pub proof fn law_launched_before_destroyed<T: GraphInput, R>(graph: Graph<T, R>)
    ensures
        ({
            let actions = graph.teardown_actions();
            let n = actions.len();
            &&& graph.ran() || actions[0] is Launch
            &&& actions[n - 2] == (TeardownAction::DestroyGraph { graph: graph.handle() })
            &&& actions[n - 1] == (TeardownAction::DestroyExec { executable: graph.executable() })
            &&& forall|i: int|
                0 <= i < n - 2 ==> !((#[trigger] actions[i]) is DestroyGraph) && !(
                actions[i] is DestroyExec)
        }),
{
}

/// A capture that is answered at every step asks for the kernels to be loaded, for an empty graph,
/// for the capture to begin on its stream, for the code to be run, for the capture of the graph
/// that was made to end on the same stream, and for an executable graph of the one that the end of
/// the capture gave. It ends with that graph and that executable graph.
pub proof fn law_capture_runs_through(stream: u64, made: u64, graph: u64, executable: u64)
    ensures
        ({
            let at = |stage: Stage| action_at(stage, stream);
            let warm = stage_after(Stage::Cold, CaptureEvent::WarmedUp);
            let created = stage_after(warm->0, CaptureEvent::Created { graph: made });
            let capturing = stage_after(created->0, CaptureEvent::Begun);
            let traced = stage_after(capturing->0, CaptureEvent::CodeRun);
            let captured = stage_after(traced->0, CaptureEvent::Ended { graph });
            let end = stage_after(captured->0, CaptureEvent::Instantiated { executable });
            &&& at(Stage::Cold) == CaptureAction::WarmUp
            &&& warm is Some && at(warm->0) == CaptureAction::CreateGraph
            &&& created is Some && at(created->0) == (CaptureAction::BeginCapture { stream })
            &&& capturing is Some && at(capturing->0) == CaptureAction::RunCode
            &&& traced is Some && at(traced->0) == (CaptureAction::EndCapture {
                stream,
                graph: made,
            })
            &&& captured is Some && at(captured->0) == (CaptureAction::Instantiate { graph })
            &&& end == Some(Stage::Instantiated { graph, executable })
            &&& at(end->0) == CaptureAction::Finish
        }),
{
}

/// The input that a capture is refused for is not contiguous, and those before it are.
pub proof fn law_the_first_strided_input_is_named(inputs: InputsView, i: int)
    requires
        0 <= i <= inputs.len(),
    ensures
        first_strided(inputs, i) matches Some(name) ==> exists|k: int|
            i <= k < inputs.len() && (#[trigger] inputs[k]).0 == name
                && !inputs[k].1.is_contiguous() && forall|m: int|
                i <= m < k ==> (#[trigger] inputs[m]).1.is_contiguous(),
    decreases inputs.len() - i,
{
    if i < inputs.len() && inputs[i].1.is_contiguous() {
        law_the_first_strided_input_is_named(inputs, i + 1);
        if first_strided(inputs, i) is Some {
            let name: Seq<char> = first_strided(inputs, i)->0;
            let k: int = choose|k: int|
                i + 1 <= k < inputs.len() && (#[trigger] inputs[k]).0 == name
                    && !inputs[k].1.is_contiguous() && forall|m: int|
                    i + 1 <= m < k ==> (#[trigger] inputs[m]).1.is_contiguous();
            assert forall|m: int| i <= m < k implies (#[trigger] inputs[m]).1.is_contiguous() by {}
            assert(inputs[k].0 == name);
        }
    } else if i < inputs.len() {
        assert(inputs[i].0 == inputs[i].0);
    }
}

/// Every element type is warmed up once.
pub proof fn law_every_element_type_is_warmed_up()
    ensures
        warm_up_list().len() == 7,
        warm_up_list().no_duplicates(),
        forall|dtype: DType| #[trigger] warm_up_list().contains(dtype),
{
    let list: Seq<DType> = warm_up_list();
    assert forall|dtype: DType| #[trigger] list.contains(dtype) by {
        assert(list[0] == DType::BF16 && list[1] == DType::F16 && list[2] == DType::F32);
        assert(list[3] == DType::F64 && list[4] == DType::I64 && list[5] == DType::U32);
        assert(list[6] == DType::U8);
    }
}

/// A replay loads what it was given over the inputs of the graph. Once that has been done it
/// launches the executable graph on the stream of the graph; where it could not be done, the
/// replay is refused with the same error.
pub proof fn law_replay_hands_on<T: GraphInput, R>(graph: Graph<T, R>, input: T, load: Load)
    ensures
        graph.replay_step(input, ReplayEvent::Start) == Ok::<_, ErrorView>(
            ReplayActionView::Load(graph.input().load_returns(&input)),
        ),
        graph.replay_step(input, ReplayEvent::Loaded(load)) == match load.result {
            Ok(_) => Ok(
                ReplayActionView::Launch {
                    executable: graph.executable(),
                    stream: graph.stream(),
                },
            ),
            Err(e) => Err(e@),
        },
{
}

/// A graph is replayed on inputs that have the names of its own and are contiguous, not empty, and
/// of the shape and element type of their namesakes: each is copied over its namesake, and then the
/// graph is launched.
pub proof fn law_replay_takes_matching_inputs<R>(
    graph: Graph<NamedInputs, R>,
    input: NamedInputs,
    load: Load,
)
    requires
        graph.input().wf(),
        input.wf(),
        forall|k: int|
            0 <= k < input@.len() ==> named(graph.input()@, (#[trigger] input@[k]).0)
                && input@[k].1.is_contiguous() && input@[k].1.elem_count() > 0
                && input@[k].1.location is Cuda,
        forall|p: int|
            0 <= p < graph.input()@.len() ==> named(input@, (#[trigger] graph.input()@[p]).0)
                && graph.input()@[p].1.is_contiguous() && graph.input()@[p].1.location is Cuda,
        forall|k: int, p: int|
            #![trigger input@[k], graph.input()@[p]]
            0 <= k < input@.len() && 0 <= p < graph.input()@.len() && input@[k].0
                == graph.input()@[p].0 ==> input@[k].1.dims == graph.input()@[p].1.dims
                && input@[k].1.dtype() == graph.input()@[p].1.dtype(),
    ensures
        graph.input().load_admits(&input),
        ({
            let start = graph.replay_step(input, ReplayEvent::Start);
            &&& start matches Ok(ReplayActionView::Load(asked))
            &&& asked.result is Ok
            &&& asked.copies.len() == input@.len()
            &&& forall|k: int, p: int|
                #![trigger input@[k], graph.input()@[p]]
                0 <= k < input@.len() && 0 <= p < graph.input()@.len() && input@[k].0
                    == graph.input()@[p].0 ==> copies_over(
                    asked.copies[k],
                    input@[k].1,
                    graph.input()@[p].1,
                )
            &&& load@ == asked ==> graph.replay_step(input, ReplayEvent::Loaded(load)) == Ok::<
                _,
                ErrorView,
            >(
                ReplayActionView::Launch {
                    executable: graph.executable(),
                    stream: graph.stream(),
                },
            )
        }),
{
    let (wanted, given): (InputsView, InputsView) = (graph.input()@, input@);
    assert forall|k: int| 0 <= k < given.len() implies (#[trigger] given[k]).1.is_contiguous()
        && given[k].1.elem_count() > 0 && given[k].1.location is Cuda && named(
        wanted,
        given[k].0,
    ) by {}
    assert forall|p: int| 0 <= p < wanted.len() implies (#[trigger] wanted[p]).1.is_contiguous()
        && wanted[p].1.location is Cuda && named(given, wanted[p].0) by {}
    law_matching_inputs_are_loaded(wanted, given);
    law_load_succeeds(wanted, given);
}

/// What kind of node the driver describes is told by its type code alone, and by every code that is
/// known in its own way: not by its handle, nor by what it is launched with or on. A kernel is
/// described with the parameters that the driver launches it with.
pub proof fn law_type_codes_tell_the_nodes(node: RawNode)
    ensures
        node.type_code == 0 <==> (node.spec_data() matches Some(NodeData::Kernel { .. })),
        node.spec_data() matches Some(NodeData::Kernel { launch_params }) ==> launch_params
            == node.launch_params,
        node.type_code == 1 <==> node.spec_data() == Some(NodeData::Memcpy),
        node.type_code == 2 <==> node.spec_data() == Some(NodeData::Memset),
        node.type_code == 3 <==> node.spec_data() == Some(NodeData::Host),
        node.type_code == 4 <==> node.spec_data() == Some(NodeData::Graph),
        node.type_code == 5 <==> node.spec_data() == Some(NodeData::Empty),
        node.type_code == 6 <==> node.spec_data() == Some(NodeData::WaitEvent),
        node.type_code == 7 <==> node.spec_data() == Some(NodeData::EventRecord),
        node.type_code == 8 <==> node.spec_data() == Some(NodeData::ExtSemasSignal),
        node.type_code == 9 <==> node.spec_data() == Some(NodeData::ExtSemasWait),
        node.type_code == 10 <==> node.spec_data() == Some(NodeData::MemAlloc),
        node.type_code == 11 <==> node.spec_data() == Some(NodeData::MemFree),
        node.type_code == 12 <==> node.spec_data() == Some(NodeData::BatchMemOp),
        node.type_code == 13 <==> node.spec_data() == Some(NodeData::Conditional),
        node.type_code > 13 <==> node.spec_data() is None,
{
}

/// Two nodes of the same type are described alike, but for the parameters of kernels, whatever
/// else the driver says of them; two of different types never are, if the types are known.
pub proof fn law_nodes_of_a_type_are_alike(a: RawNode, b: RawNode)
    ensures
        a.type_code == b.type_code && !(a.spec_data() matches Some(NodeData::Kernel { .. }))
            ==> a.spec_data() == b.spec_data(),
        a.type_code == b.type_code && a.launch_params == b.launch_params ==> a.spec_data()
            == b.spec_data(),
        a.type_code != b.type_code && a.spec_data() is Some ==> a.spec_data() != b.spec_data(),
        a.type_code == NODE_TYPE_KERNEL <==> a.spec_data() == Some(
            NodeData::Kernel { launch_params: a.launch_params },
        ),
{
}

/// The nodes of a graph are as many as the driver describes, in the same order, under the same
/// handles; a node is a kernel exactly if the driver describes one, and has its parameters.
pub proof fn law_nodes_are_those_described<'a>(raw: Seq<RawNode>, nodes: Seq<Node<'a>>, i: int)
    requires
        describes(raw, nodes),
        0 <= i < raw.len(),
    ensures
        nodes.len() == raw.len(),
        nodes[i].handle() == raw[i].handle,
        raw[i].spec_data() == Some(nodes[i].data()),
        raw[i].type_code <= 13,
        nodes[i].data() is Kernel <==> raw[i].type_code == 0,
        nodes[i].data() matches NodeData::Kernel { launch_params } ==> launch_params
            == raw[i].launch_params,
{
    assert(raw[i].spec_data() == Some(nodes[i].data()));
}

/// To let go of a graph that has been launched, its two handles are destroyed. One that was never
/// launched is launched on its stream and waited for before.
pub proof fn law_teardown<T: GraphInput, R>(graph: Graph<T, R>)
    ensures
        ({
            let actions = graph.teardown_actions();
            let (graph_gone, executable_gone) = (
                TeardownAction::DestroyGraph { graph: graph.handle() },
                TeardownAction::DestroyExec { executable: graph.executable() },
            );
            &&& graph.ran() ==> {
                &&& actions.len() == 2
                &&& actions[0] == graph_gone
                &&& actions[1] == executable_gone
            }
            &&& !graph.ran() ==> {
                &&& actions.len() == 4
                &&& actions[0] == (TeardownAction::Launch {
                    executable: graph.executable(),
                    stream: graph.stream(),
                })
                &&& actions[1] == TeardownAction::Synchronize
                &&& actions[2] == graph_gone
                &&& actions[3] == executable_gone
            }
        }),
{
}

} // verus!

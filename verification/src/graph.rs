//! Capturing a graph, replaying it, and letting go of it.
//!
//! The driver does the work; what is here decides what it is asked for next.

use vstd::prelude::*;

use crate::dtype::{DType, DeviceLocation};
use crate::dump::{dot_path, picture_argument, plan_dump, DOT_FLAGS_VERBOSE};
use crate::dump::{GraphDump, GraphDumpFormat, GraphDumpVerbosity};
use crate::error::{ErrorView, GraphError};
use crate::input::{all_wf, inputs_view, GraphInput, InputsView, Load, LoadView};
use crate::node::{describes, Node, RawNode};
use crate::tensor::Tensor;

verus! {

/// The element types whose copy kernels are loaded before anything is captured, in order.
pub open spec fn warm_up_list() -> Seq<DType> {
    seq![
        DType::BF16,
        DType::F16,
        DType::F32,
        DType::F64,
        DType::I64,
        DType::U32,
        DType::U8,
    ]
}

/// The element types whose copy kernels are loaded before anything is captured.
///
/// A kernel cannot be loaded during a capture, and every element type has a kernel of its own.
pub fn warm_up_dtypes() -> (r: Vec<DType>)
    ensures
        r@ == warm_up_list(),
        forall|dtype: DType| #[trigger] r@.contains(dtype),
{
    let r: Vec<DType> = vec![
        DType::BF16,
        DType::F16,
        DType::F32,
        DType::F64,
        DType::I64,
        DType::U32,
        DType::U8,
    ];
    proof {
        assert forall|dtype: DType| #[trigger] r@.contains(dtype) by {
            assert(r@[0] == DType::BF16 && r@[1] == DType::F16 && r@[2] == DType::F32);
            assert(r@[3] == DType::F64 && r@[4] == DType::I64 && r@[5] == DType::U32);
            assert(r@[6] == DType::U8);
        }
    }
    r
}

/// The element type whose copy kernels are to be loaded next, when those of the first `done` types
/// have been tried, until all have been.
///
/// Whether the last ones could be loaded plays no part: a device that lacks some of the kernels is
/// no reason to refuse a graph that does without them.
pub fn next_warm_up(done: usize, loaded: bool) -> (r: Option<DType>)
    ensures
        r == (if done < warm_up_list().len() {
            Some(warm_up_list()[done as int])
        } else {
            None
        }),
{
    let dtypes: Vec<DType> = warm_up_dtypes();
    if done < dtypes.len() {
        Some(dtypes[done])
    } else {
        None
    }
}

/// How far a capture has come.
#[derive(Debug, Clone, Copy, PartialEq, Eq, Structural, Hash)]
pub enum Stage {
    /// Nothing has been done.
    Cold,
    /// Every kernel that may be needed is loaded.
    Warm,
    /// There is an empty graph.
    Created { graph: u64 },
    /// What is launched goes into the graph.
    Capturing { graph: u64 },
    /// All has been launched.
    Traced { graph: u64 },
    /// The graph is complete.
    Captured { graph: u64 },
    /// The graph can be launched.
    Instantiated { graph: u64, executable: u64 },
}

/// What the driver is asked for during a capture.
#[derive(Debug, Clone, Copy, PartialEq, Eq, Structural, Hash)]
pub enum CaptureAction {
    /// Load every kernel that may be needed, and wait for the device.
    WarmUp,
    /// Make an empty graph.
    CreateGraph,
    /// Begin to capture what is launched on the stream.
    BeginCapture { stream: u64 },
    /// Run the code that is to be captured.
    RunCode,
    /// End the capture.
    EndCapture { stream: u64, graph: u64 },
    /// Make an executable graph of the captured one.
    Instantiate { graph: u64 },
    /// Nothing.
    Finish,
}

/// What the driver has done.
#[derive(Debug, Clone, Copy, PartialEq, Eq, Structural, Hash)]
pub enum CaptureEvent {
    WarmedUp,
    Created { graph: u64 },
    Begun,
    CodeRun,
    Ended { graph: u64 },
    Instantiated { executable: u64 },
}

/// What is asked for at a stage.
pub open spec fn action_at(stage: Stage, stream: u64) -> CaptureAction {
    match stage {
        Stage::Cold => CaptureAction::WarmUp,
        Stage::Warm => CaptureAction::CreateGraph,
        Stage::Created { .. } => CaptureAction::BeginCapture { stream },
        Stage::Capturing { .. } => CaptureAction::RunCode,
        Stage::Traced { graph } => CaptureAction::EndCapture { stream, graph },
        Stage::Captured { graph } => CaptureAction::Instantiate { graph },
        Stage::Instantiated { .. } => CaptureAction::Finish,
    }
}

/// The stage that an event leads to, where it can happen. The end of a capture says anew which
/// graph it is.
pub open spec fn stage_after(stage: Stage, event: CaptureEvent) -> Option<Stage> {
    match (stage, event) {
        (Stage::Cold, CaptureEvent::WarmedUp) => Some(Stage::Warm),
        (Stage::Warm, CaptureEvent::Created { graph }) => Some(Stage::Created { graph }),
        (Stage::Created { graph }, CaptureEvent::Begun) => Some(Stage::Capturing { graph }),
        (Stage::Capturing { graph }, CaptureEvent::CodeRun) => Some(Stage::Traced { graph }),
        (Stage::Traced { .. }, CaptureEvent::Ended { graph }) => Some(Stage::Captured { graph }),
        (Stage::Captured { graph }, CaptureEvent::Instantiated { executable }) => Some(
            Stage::Instantiated { graph, executable },
        ),
        _ => None,
    }
}

/// The name of the first input, from `i` on, that is not contiguous.
pub open spec fn first_strided(inputs: InputsView, i: int) -> Option<Seq<char>>
    decreases inputs.len() - i,
{
    if i >= inputs.len() {
        None
    } else if !inputs[i].1.is_contiguous() {
        Some(inputs[i].0)
    } else {
        first_strided(inputs, i + 1)
    }
}

/// A capture that is under way.
pub struct Capture<T: GraphInput, R> {
    stage: Stage,
    stream: u64,
    input: T,
    retained: R,
}

impl<T: GraphInput, R> Capture<T, R> {
    pub closed spec fn stage(&self) -> Stage {
        self.stage
    }

    pub closed spec fn stream(&self) -> u64 {
        self.stream
    }

    pub closed spec fn input(&self) -> T {
        self.input
    }

    pub closed spec fn retained(&self) -> R {
        self.retained
    }

    /// What is to be done next.
    pub fn next(&self) -> (r: CaptureAction)
        ensures
            r == action_at(self.stage(), self.stream()),
    {
        match self.stage {
            Stage::Cold => CaptureAction::WarmUp,
            Stage::Warm => CaptureAction::CreateGraph,
            Stage::Created { .. } => CaptureAction::BeginCapture { stream: self.stream },
            Stage::Capturing { .. } => CaptureAction::RunCode,
            Stage::Traced { graph } => CaptureAction::EndCapture { stream: self.stream, graph },
            Stage::Captured { graph } => CaptureAction::Instantiate { graph },
            Stage::Instantiated { .. } => CaptureAction::Finish,
        }
    }

    /// The inputs that the captured code is run on.
    pub fn inputs(&self) -> (r: &T)
        ensures
            *r == self.input(),
    {
        &self.input
    }

    /// Takes note of what the driver has done. What cannot happen at this stage is refused, and
    /// changes nothing.
    pub fn advance(&mut self, event: CaptureEvent) -> (r: bool)
        ensures
            r == (stage_after(old(self).stage(), event) is Some),
            final(self).stage() == (match stage_after(old(self).stage(), event) {
                Some(stage) => stage,
                None => old(self).stage(),
            }),
            final(self).stream() == old(self).stream(),
            final(self).input() == old(self).input(),
            final(self).retained() == old(self).retained(),
    {
        let next: Option<Stage> = match (self.stage, event) {
            (Stage::Cold, CaptureEvent::WarmedUp) => Some(Stage::Warm),
            (Stage::Warm, CaptureEvent::Created { graph }) => Some(Stage::Created { graph }),
            (Stage::Created { graph }, CaptureEvent::Begun) => Some(Stage::Capturing { graph }),
            (Stage::Capturing { graph }, CaptureEvent::CodeRun) => Some(Stage::Traced { graph }),
            (Stage::Traced { .. }, CaptureEvent::Ended { graph }) => Some(Stage::Captured { graph }),
            (Stage::Captured { graph }, CaptureEvent::Instantiated { executable }) => Some(
                Stage::Instantiated { graph, executable },
            ),
            _ => None,
        };
        match next {
            Some(stage) => {
                self.stage = stage;
                true
            },
            None => false,
        }
    }

    /// The graph, once the capture is done. All its inputs have to be contiguous.
    pub fn finish(self) -> (r: Result<Graph<T, R>, GraphError>)
        requires
            self.stage() is Instantiated,
            self.input().wf(),
        ensures
            match r {
                Ok(graph) => {
                    &&& first_strided(self.input().inputs(), 0) is None
                    &&& self.stage() == (Stage::Instantiated {
                        graph: graph.handle(),
                        executable: graph.executable(),
                    })
                    &&& graph.stream() == self.stream()
                    &&& graph.input() == self.input()
                    &&& graph.retained() == self.retained()
                    &&& !graph.ran()
                },
                Err(e) => match first_strided(self.input().inputs(), 0) {
                    Some(name) => e@ == (ErrorView::InputNotContiguous { name }),
                    None => false,
                },
            },
    {
        let (graph, executable): (u64, u64) = match self.stage {
            Stage::Instantiated { graph, executable } => (graph, executable),
            _ => (0, 0),
        };
        let inputs: Vec<(String, Tensor)> = self.input.to_inputs();
        let ghost view = self.input.inputs();
        let mut i: usize = 0;
        while i < inputs.len()
            invariant
                i <= inputs@.len(),
                inputs_view(inputs@) == view,
                view == self.input().inputs(),
                all_wf(view),
                first_strided(view, 0) == first_strided(view, i as int),
            decreases inputs@.len() - i,
        {
            proof {
                assert(view[i as int] == (inputs@[i as int].0@, inputs@[i as int].1@));
                assert(view[i as int].1.wf());
            }
            if !inputs[i].1.is_contiguous() {
                return Err(GraphError::InputNotContiguous { name: inputs[i].0.clone() });
            }
            i = i + 1;
        }
        Ok(
            Graph {
                graph,
                executable,
                stream: self.stream,
                input: self.input,
                retained: self.retained,
                ran_graph: false,
            },
        )
    }
}

/// What has happened during a replay.
#[derive(Debug, PartialEq, Eq)]
pub enum ReplayEvent {
    /// Nothing yet.
    Start,
    /// The copies of the load that was asked for have been made.
    Loaded(Load),
    /// The graph has been launched.
    Launched,
    /// The device is done.
    Synchronized,
}

/// What is asked for during a replay.
#[derive(Debug, PartialEq, Eq)]
pub enum ReplayAction {
    /// Make the copies of a load, waiting for the device after each.
    Load(Load),
    /// Launch the executable graph on the stream.
    Launch { executable: u64, stream: u64 },
    /// Wait for the device.
    Synchronize,
    /// Nothing.
    Done,
}

/// The mathematical content of a [`ReplayAction`].
pub enum ReplayActionView {
    Load(LoadView),
    Launch { executable: u64, stream: u64 },
    Synchronize,
    Done,
}

impl ReplayAction {
    pub open spec fn view(&self) -> ReplayActionView {
        match self {
            ReplayAction::Load(load) => ReplayActionView::Load(load@),
            ReplayAction::Launch { executable, stream } => ReplayActionView::Launch {
                executable: *executable,
                stream: *stream,
            },
            ReplayAction::Synchronize => ReplayActionView::Synchronize,
            ReplayAction::Done => ReplayActionView::Done,
        }
    }
}

/// What has to be done to let go of a graph.
#[derive(Debug, Clone, Copy, PartialEq, Eq, Structural, Hash)]
pub enum TeardownAction {
    Launch { executable: u64, stream: u64 },
    Synchronize,
    DestroyGraph { graph: u64 },
    DestroyExec { executable: u64 },
}

/// A captured graph.
///
/// A capture keeps the addresses of what the code worked on, and nothing else. So the graph holds
/// on to its inputs, and to whatever is handed to it as `retained`: a value that is let go of
/// would have every later replay write to memory that is no longer its own.
pub struct Graph<T: GraphInput, R> {
    graph: u64,
    executable: u64,
    stream: u64,
    input: T,
    retained: R,
    ran_graph: bool,
}

impl<T: GraphInput> Graph<T, ()> {
    /// Starts to capture a graph on a CUDA device.
    ///
    /// Whatever the code works on besides `input` has to outlive the graph; see
    /// [`new_retaining`](Graph::new_retaining).
    pub fn new(device: DeviceLocation, stream: u64, input: T) -> (r: Result<
        Capture<T, ()>,
        GraphError,
    >)
        ensures
            match r {
                Ok(capture) => {
                    &&& device is Cuda
                    &&& capture.stage() is Cold
                    &&& capture.stream() == stream
                    &&& capture.input() == input
                },
                Err(e) => !(device is Cuda) && e@ == ErrorView::NotCuda,
            },
    {
        Graph::new_retaining(device, stream, input, ())
    }
}

impl<T: GraphInput, R> Graph<T, R> {
    /// As [`new`](Graph::new), with a value that the graph holds on to for as long as it can be
    /// replayed. For a cache that is its buffer, once reserved.
    pub fn new_retaining(device: DeviceLocation, stream: u64, input: T, retained: R) -> (r: Result<
        Capture<T, R>,
        GraphError,
    >)
        ensures
            match r {
                Ok(capture) => {
                    &&& device is Cuda
                    &&& capture.stage() is Cold
                    &&& capture.stream() == stream
                    &&& capture.input() == input
                    &&& capture.retained() == retained
                },
                Err(e) => !(device is Cuda) && e@ == ErrorView::NotCuda,
            },
    {
        if !device.is_cuda() {
            return Err(GraphError::NotCuda);
        }
        Ok(Capture { stage: Stage::Cold, stream, input, retained })
    }

    /// The handle of the graph.
    pub closed spec fn handle(&self) -> u64 {
        self.graph
    }

    /// The handle of the executable graph.
    pub closed spec fn executable(&self) -> u64 {
        self.executable
    }

    pub closed spec fn stream(&self) -> u64 {
        self.stream
    }

    pub closed spec fn input(&self) -> T {
        self.input
    }

    pub closed spec fn retained(&self) -> R {
        self.retained
    }

    /// Whether the graph has been launched.
    pub closed spec fn ran(&self) -> bool {
        self.ran_graph
    }

    /// The handle of the graph.
    pub fn raw(&self) -> (r: u64)
        ensures
            r == self.handle(),
    {
        self.graph
    }

    /// The same graph but for whether it has been launched.
    pub open spec fn same_graph(&self, other: &Self) -> bool {
        &&& self.handle() == other.handle()
        &&& self.executable() == other.executable()
        &&& self.stream() == other.stream()
        &&& self.input() == other.input()
        &&& self.retained() == other.retained()
    }

    /// What comes next in a replay after an event.
    pub open spec fn replay_step(&self, input: T, event: ReplayEvent) -> Result<
        ReplayActionView,
        ErrorView,
    > {
        match event {
            ReplayEvent::Start => Ok(ReplayActionView::Load(self.input().load_returns(&input))),
            ReplayEvent::Loaded(load) => match load@.result {
                Ok(_) => Ok(ReplayActionView::Launch { executable: self.executable(), stream: self.stream() }),
                Err(e) => Err(e),
            },
            ReplayEvent::Launched => Ok(ReplayActionView::Synchronize),
            ReplayEvent::Synchronized => Ok(ReplayActionView::Done),
        }
    }

    /// Replays the graph on new inputs, which are copied over those that were captured.
    ///
    /// The graph counts as launched as soon as it is, whether or not the device then gets done.
    pub fn replay(&mut self, input: &T, event: ReplayEvent) -> (r: Result<
        ReplayAction,
        GraphError,
    >)
        requires
            match event {
                ReplayEvent::Start => old(self).input().load_admits(input),
                ReplayEvent::Loaded(load) => load@ == old(self).input().load_returns(input),
                _ => true,
            },
        ensures
            match r {
                Ok(action) => old(self).replay_step(*input, event) == Ok::<_, ErrorView>(action@),
                Err(e) => old(self).replay_step(*input, event) == Err::<ReplayActionView, _>(e@),
            },
            r matches Ok(ReplayAction::Load(load)) ==> load@.sized(),
            final(self).same_graph(old(self)),
            final(self).ran() == (old(self).ran() || event is Launched),
    {
        match event {
            ReplayEvent::Start => Ok(ReplayAction::Load(self.input.load_inputs_inplace(input))),
            ReplayEvent::Loaded(load) => match load.result {
                Ok(_) => Ok(ReplayAction::Launch { executable: self.executable, stream: self.stream }),
                Err(e) => Err(e),
            },
            ReplayEvent::Launched => {
                self.ran_graph = true;
                Ok(ReplayAction::Synchronize)
            },
            ReplayEvent::Synchronized => Ok(ReplayAction::Done),
        }
    }

    /// Plans how to write the graph to `out`.
    pub fn output_dot(
        &self,
        out: &str,
        format: GraphDumpFormat,
        verbosity: GraphDumpVerbosity,
    ) -> (r: GraphDump)
        ensures
            r.graph == self.handle(),
            r.path@ == dot_path(out@, format),
            r.flags == (if verbosity is Verbose {
                DOT_FLAGS_VERBOSE
            } else {
                0
            }),
            r.picture == picture_argument(format),
    {
        plan_dump(self.graph, out, format, verbosity)
    }

    /// The nodes of the graph, as the driver describes them. What they depend on is not tracked.
    pub fn nodes<'a>(&'a self, raw: &Vec<RawNode>) -> (r: Result<Vec<Node<'a>>, GraphError>)
        ensures
            match r {
                Ok(nodes) => describes(raw@, nodes@),
                Err(e) => exists|i: int|
                    0 <= i < raw@.len() && (#[trigger] raw@[i]).spec_data() is None && (forall|
                        k: int,
                    |
                        0 <= k < i ==> (#[trigger] raw@[k]).spec_data() is Some) && e@
                        == (ErrorView::UnknownNodeType { code: raw@[i].type_code }),
            },
    {
        let mut nodes: Vec<Node<'a>> = Vec::new();
        let mut i: usize = 0;
        while i < raw.len()
            invariant
                i <= raw@.len(),
                nodes@.len() == i,
                forall|k: int|
                    0 <= k < i ==> raw@[k].spec_data() == Some((#[trigger] nodes@[k]).data())
                        && nodes@[k].handle() == raw@[k].handle,
            decreases raw@.len() - i,
        {
            match raw[i].data() {
                Some(data) => {
                    nodes.push(Node::new(data, raw[i].handle));
                },
                None => {
                    proof {
                        assert forall|k: int| 0 <= k < i implies (
                        #[trigger] raw@[k]).spec_data() is Some by {
                            assert(raw@[k].spec_data() == Some(nodes@[k].data()));
                        }
                        assert(raw@[i as int].spec_data() is None);
                    }
                    return Err(GraphError::UnknownNodeType { code: raw[i].type_code });
                },
            }
            i = i + 1;
        }
        Ok(nodes)
    }

    /// What has to be done to let go of the graph, in order.
    pub open spec fn teardown_actions(&self) -> Seq<TeardownAction> {
        let destroy = seq![
            TeardownAction::DestroyGraph { graph: self.handle() },
            TeardownAction::DestroyExec { executable: self.executable() },
        ];
        if self.ran() {
            destroy
        } else {
            seq![
                TeardownAction::Launch { executable: self.executable(), stream: self.stream() },
                TeardownAction::Synchronize,
            ] + destroy
        }
    }

    /// What has to be done to let go of the graph, in order. A graph that was never launched is
    /// launched once before.
    pub fn teardown(&self) -> (r: Vec<TeardownAction>)
        ensures
            r@ == self.teardown_actions(),
    {
        let mut r: Vec<TeardownAction> = Vec::new();
        if !self.ran_graph {
            r.push(TeardownAction::Launch { executable: self.executable, stream: self.stream });
            r.push(TeardownAction::Synchronize);
        }
        r.push(TeardownAction::DestroyGraph { graph: self.graph });
        r.push(TeardownAction::DestroyExec { executable: self.executable });
        r
    }
}

} // verus!

use candle_graph::cache::{Cache, CacheAction, CacheEvent, Half, KvAction, KvCache};
use candle_graph::copy2d::{Copy2d, COPY2D_FINGERPRINT};
use candle_graph::dtype::{DType, DeviceLocation};
use candle_graph::dump::{picture, GraphDumpFormat, GraphDumpVerbosity};
use candle_graph::error::GraphError;
use candle_graph::extension::CudaTensorExtension;
use candle_graph::graph::{next_warm_up, warm_up_dtypes, Capture, CaptureAction, CaptureEvent};
use candle_graph::graph::Graph;
use candle_graph::graph::{ReplayAction, ReplayEvent, TeardownAction};
use candle_graph::inplace::{copy_inplace, memcpy_dtod};
use candle_graph::input::{GraphInput, InputProblem, Load, NamedInputs};
use candle_graph::memory::{Memcpy, Memory};
use candle_graph::node::{KernelLaunchParams, NodeData, RawNode};
use candle_graph::tensor::{Storage, Tensor};

const GPU: DeviceLocation = DeviceLocation::Cuda { gpu_id: 0 };

/// A device whose memory is held on the host.
struct Host {
    memory: Memory,
    next: u64,
}

impl Host {
    fn new() -> Host {
        Host { memory: Memory::new(), next: 4096 }
    }

    fn with_bits(&mut self, dims: &[usize], dtype: DType, bits: &[u64]) -> Tensor {
        let count: usize = dims.iter().product();
        assert_eq!(count, bits.len());
        let storage = Storage { ptr: self.next, len: count, dtype };
        for (k, value) in bits.iter().enumerate() {
            self.memory.store(self.next + (k * dtype.size_in_bytes()) as u64, *value);
        }
        self.next += (count * dtype.size_in_bytes()) as u64 + 256;
        Tensor::new(storage, dims.to_vec(), row_major_strides(dims), 0, GPU).unwrap()
    }

    fn zeros(&mut self, dims: &[usize], dtype: DType) -> Tensor {
        let count: usize = dims.iter().product();
        self.with_bits(dims, dtype, &vec![0; count])
    }

    fn f32s(&mut self, dims: &[usize], values: &[f32]) -> Tensor {
        let bits: Vec<u64> = values.iter().map(|v| v.to_bits() as u64).collect();
        self.with_bits(dims, DType::F32, &bits)
    }

    fn full(&mut self, dims: &[usize], value: f32) -> Tensor {
        let count: usize = dims.iter().product();
        self.f32s(dims, &vec![value; count])
    }

    fn u32s(&mut self, values: &[u32]) -> Tensor {
        let bits: Vec<u64> = values.iter().map(|v| *v as u64).collect();
        self.with_bits(&[values.len()], DType::U32, &bits)
    }

    fn read(&self, t: &Tensor) -> Vec<u64> {
        let size = t.dtype().size_in_bytes();
        let count: usize = t.dims().iter().product();
        let mut out = Vec::new();
        for place in 0..count {
            let mut rest = place;
            let mut offset = t.start_offset();
            for (dim, stride) in t.dims().iter().zip(t.stride().iter()).rev() {
                offset += (rest % dim) * stride;
                rest /= dim;
            }
            let address = t.storage().ptr + (offset * size) as u64;
            out.push(self.memory.load(address).expect("an allocated element"));
        }
        out
    }

    fn read_f32(&self, t: &Tensor) -> Vec<f32> {
        self.read(t).iter().map(|bits| f32::from_bits(*bits as u32)).collect()
    }

    fn run(&mut self, launch: Option<Copy2d>) {
        if let Some(launch) = launch {
            self.memory.launch(&launch);
        }
    }
}

fn row_major_strides(dims: &[usize]) -> Vec<usize> {
    (0..dims.len()).map(|i| dims[i + 1..].iter().product()).collect()
}

const GRAPH: u64 = 11;
const EXECUTABLE: u64 = 12;
const STREAM: u64 = 13;

/// Goes through a capture, running `code` when it is asked for.
fn capture<T: GraphInput, R>(
    mut capture: Capture<T, R>,
    code: impl FnOnce(&T),
) -> Result<Graph<T, R>, GraphError> {
    let mut code = Some(code);
    loop {
        let event = match capture.next() {
            CaptureAction::WarmUp => CaptureEvent::WarmedUp,
            CaptureAction::CreateGraph => CaptureEvent::Created { graph: 1 },
            CaptureAction::BeginCapture { stream } => {
                assert_eq!(stream, STREAM);
                CaptureEvent::Begun
            }
            CaptureAction::RunCode => {
                (code.take().expect("the code runs once"))(capture.inputs());
                CaptureEvent::CodeRun
            }
            CaptureAction::EndCapture { stream, graph } => {
                assert_eq!((stream, graph), (STREAM, 1));
                CaptureEvent::Ended { graph: GRAPH }
            }
            CaptureAction::Instantiate { graph } => {
                assert_eq!(graph, GRAPH);
                CaptureEvent::Instantiated { executable: EXECUTABLE }
            }
            CaptureAction::Finish => return capture.finish(),
        };
        assert!(capture.advance(event));
    }
}

impl Host {
    /// Replays a graph that has captured `launches`.
    fn replay<T: GraphInput, R>(
        &mut self,
        graph: &mut Graph<T, R>,
        launches: &[Copy2d],
        input: &T,
    ) -> Result<(), GraphError> {
        let mut event = ReplayEvent::Start;
        loop {
            event = match graph.replay(input, event)? {
                ReplayAction::Load(load) => {
                    for copy in &load.copies {
                        self.memory.memcpy(copy);
                    }
                    ReplayEvent::Loaded(load)
                }
                ReplayAction::Launch { executable, stream } => {
                    assert_eq!((executable, stream), (EXECUTABLE, STREAM));
                    for launch in launches {
                        self.memory.launch(launch);
                    }
                    ReplayEvent::Launched
                }
                ReplayAction::Synchronize => ReplayEvent::Synchronized,
                ReplayAction::Done => return Ok(()),
            }
        }
    }
}

struct Inputs {
    x: Tensor,
    position: Tensor,
}

impl GraphInput for Inputs {
    fn to_inputs(&self) -> Vec<(String, Tensor)> {
        vec![
            ("x".to_string(), self.x.clone()),
            ("position".to_string(), self.position.clone()),
        ]
    }

    fn load_inputs_inplace(&self, input: &Self) -> Load {
        let mut copies = Vec::new();
        for (src, dst) in [(&input.x, &self.x), (&input.position, &self.position)] {
            match copy_inplace(src, dst) {
                Ok(copy) => copies.push(copy),
                Err(e) => return Load { copies, result: Err(e) },
            }
        }
        Load { copies, result: Ok(()) }
    }
}

/// Captures a single write at a position once and replays it three times with the position moved
/// in between: each replay has to land in its own slot.
#[test]
fn slice_set_at_survives_graph_replay() {
    let mut host = Host::new();
    let (b, h, max_t, d) = (1, 1, 4, 2);

    let cache = host.zeros(&[b, h, max_t, d], DType::F32);
    let x = host.zeros(&[b, h, 1, d], DType::F32);
    let position = host.u32s(&[0]);

    let mut launches = Vec::new();
    let started = Graph::new(GPU, STREAM, Inputs { x, position }).unwrap();
    let mut graph = capture(started, |input: &Inputs| {
        let launch = cache.slice_set_fingerprinted_at(&input.x, 2, 0, &input.position).unwrap();
        launches.extend(launch);
    })
    .unwrap();

    for step in 0u32..3 {
        let x = host.full(&[b, h, 1, d], step as f32 + 1.);
        let position = host.u32s(&[step]);
        host.replay(&mut graph, &launches, &Inputs { x, position }).unwrap();

        let written = host.read_f32(&cache.narrow(2, step as usize, 1).unwrap());
        for &v in &written {
            assert_eq!(v, step as f32 + 1., "slot {step} after replay {step}");
        }
    }

    // The final replay must not have touched earlier slots.
    for slot in 0usize..2 {
        let expected = slot as f32 + 1.;
        let got = host.read_f32(&cache.narrow(2, slot, 1).unwrap());
        for &v in &got {
            assert_eq!(v, expected, "slot {slot} must retain its own replay's value");
        }
    }
}

/// A contiguous view shares the storage of the buffer that it was taken from, so the copy has to
/// go by the layouts of the two tensors.
#[test]
fn copy_inplace_honors_view_offsets() {
    let mut host = Host::new();

    let positions = host.u32s(&[10, 20, 30, 40]);
    let src = positions.narrow(0, 2, 1).unwrap();

    // The destination is a view too: the write has to land on its element, not on the start of
    // the buffer behind it.
    let dst_buf = host.zeros(&[4], DType::U32);
    let dst = dst_buf.narrow(0, 1, 1).unwrap();
    let copy = copy_inplace(&src, &dst).unwrap();
    host.memory.memcpy(&copy);
    assert_eq!(host.read(&dst_buf), [0, 30, 0, 0]);

    // A destination whose entire storage is one element: copying the source's storage wholesale
    // would write four elements into it.
    let small = host.zeros(&[1], DType::U32);
    let copy = copy_inplace(&src, &small).unwrap();
    host.memory.memcpy(&copy);
    assert_eq!(host.read(&small), [30]);
}

/// One decode step is captured with both halves of a cache and replayed at five positions.
#[test]
fn a_decode_step_is_replayed_at_many_positions() {
    let mut host = Host::new();
    let (heads, head_dim, max_seq_len, steps) = (2, 4, 8, 5u32);

    let mut cache = KvCache::new(2, max_seq_len);
    let k = host.zeros(&[1, heads, 1, head_dim], DType::F32);
    let v = host.zeros(&[1, heads, 1, head_dim], DType::F32);
    let position = host.u32s(&[0]);

    let (mut half, mut event) = (Half::K, CacheEvent::Start);
    while let KvAction::Do { half: next, action } = cache.reserve(&k, &v, half, event) {
        half = next;
        event = match action {
            CacheAction::Allocate(request) => {
                CacheEvent::Allocated(host.zeros(&request.dims, request.dtype))
            }
            action => panic!("{action:?}"),
        };
    }
    let k_all = cache.k_cache().all_data().as_ref().unwrap().clone();
    let v_all = cache.v_cache().all_data().as_ref().unwrap().clone();

    let named = |k: Tensor, v: Tensor, position: Tensor| {
        NamedInputs::new(vec![
            ("k".to_string(), k),
            ("v".to_string(), v),
            ("position".to_string(), position),
        ])
        .unwrap()
    };
    let retained = vec![k_all.clone(), v_all.clone()];
    let started =
        Graph::new_retaining(GPU, STREAM, named(k, v, position), retained).unwrap();
    let mut launches = Vec::new();
    let mut graph = capture(started, |inputs: &NamedInputs| {
        let k = inputs.get(&"k".to_string()).unwrap();
        let v = inputs.get(&"v".to_string()).unwrap();
        let position = inputs.get(&"position".to_string()).unwrap();
        let (mut half, mut event) = (Half::K, CacheEvent::Start);
        while let KvAction::Do { half: next, action } =
            cache.append_at(k, v, position, half, event).unwrap()
        {
            half = next;
            event = match action {
                CacheAction::Launch(launch) => {
                    launches.push(launch);
                    CacheEvent::Launched
                }
                action => panic!("nothing is allocated during a capture: {action:?}"),
            };
        }
    })
    .unwrap();
    assert_eq!(launches.len(), 2);

    for step in 0..steps {
        let value = step as f32 + 1.;
        let k = host.full(&[1, heads, 1, head_dim], value);
        let v = host.full(&[1, heads, 1, head_dim], -value);
        let position = host.u32s(&[step]);
        host.replay(&mut graph, &launches, &named(k, v, position)).unwrap();
    }

    for step in 0..steps as usize {
        let expected = step as f32 + 1.;
        for got in host.read_f32(&k_all.narrow(2, step, 1).unwrap()) {
            assert_eq!(got, expected, "slot {step}");
        }
        for got in host.read_f32(&v_all.narrow(2, step, 1).unwrap()) {
            assert_eq!(got, -expected, "slot {step}");
        }
    }
    for slot in steps as usize..max_seq_len {
        for got in host.read_f32(&k_all.narrow(2, slot, 1).unwrap()) {
            assert_eq!(got, 0., "slot {slot}");
        }
    }
}

#[test]
fn a_write_at_a_fixed_slot_is_replayed_to_that_slot() {
    let mut host = Host::new();
    let cache = host.zeros(&[4, 1], DType::F32);
    let x = host.zeros(&[1, 1], DType::F32);
    let position = host.u32s(&[0]);
    let mut launches = Vec::new();
    let started = Graph::new(GPU, STREAM, Inputs { x, position }).unwrap();
    let mut graph = capture(started, |input: &Inputs| {
        launches.extend(cache.slice_set_fingerprinted(&input.x, 0, 1).unwrap());
    })
    .unwrap();
    for step in 0u32..3 {
        let x = host.full(&[1, 1], step as f32 + 1.);
        let position = host.u32s(&[step]);
        host.replay(&mut graph, &launches, &Inputs { x, position }).unwrap();
    }
    assert_eq!(host.read_f32(&cache), [0., 3., 0., 0.]);
}

#[test]
fn the_last_replay_at_a_slot_wins() {
    let mut host = Host::new();
    let cache = host.full(&[4, 1], 9.);
    let x = host.zeros(&[1, 1], DType::F32);
    let position = host.u32s(&[3]);
    let mut launches = Vec::new();
    let started = Graph::new(GPU, STREAM, Inputs { x, position }).unwrap();
    let mut graph = capture(started, |input: &Inputs| {
        let launch = cache.slice_set_fingerprinted_at(&input.x, 0, 0, &input.position).unwrap();
        launches.extend(launch);
    })
    .unwrap();
    for (value, slot) in [(1., 2), (2., 0), (3., 2), (4., 4), (5., u32::MAX)] {
        let x = host.full(&[1, 1], value);
        let position = host.u32s(&[slot]);
        host.replay(&mut graph, &launches, &Inputs { x, position }).unwrap();
    }
    assert_eq!(host.read_f32(&cache), [2., 9., 3., 9.]);
}

#[test]
fn a_captured_append_keeps_its_slot() {
    let mut host = Host::new();
    let mut cache = Cache::new(0, 4);
    let x = host.full(&[1, 1], 7.);
    let position = host.u32s(&[0]);
    let buffer = host.zeros(&[4, 1], DType::F32);
    assert!(matches!(cache.reserve(&x, CacheEvent::Start), CacheAction::Allocate(_)));
    cache.reserve(&x, CacheEvent::Allocated(buffer.clone()));
    let launch = match cache.append(&x, CacheEvent::Start).unwrap() {
        CacheAction::Launch(launch) => launch,
        action => panic!("{action:?}"),
    };
    host.run(Some(launch));
    cache.append(&x, CacheEvent::Launched).unwrap();

    let mut launches = Vec::new();
    let started = Graph::new(GPU, STREAM, Inputs { x, position }).unwrap();
    let mut graph = capture(started, |input: &Inputs| {
        match cache.append(&input.x, CacheEvent::Start).unwrap() {
            CacheAction::Launch(launch) => launches.push(launch),
            action => panic!("{action:?}"),
        }
        cache.append(&input.x, CacheEvent::Launched).unwrap();
    })
    .unwrap();
    for value in [1., 2., 3.] {
        let x = host.full(&[1, 1], value);
        let position = host.u32s(&[0]);
        host.replay(&mut graph, &launches, &Inputs { x, position }).unwrap();
        assert_eq!(host.read_f32(&buffer), [7., value, 0., 0.]);
    }
    assert_eq!(cache.current_seq_len(), 2);
}

/// The zeros that a new buffer is filled with become part of a graph if the buffer is allocated
/// during the capture.
#[test]
fn a_cache_allocated_during_a_capture_is_cleared_by_every_replay() {
    let mut host = Host::new();
    let mut cache = Cache::new(0, 3);
    let x = host.zeros(&[1, 1], DType::F32);
    let position = host.u32s(&[0]);
    let buffer = host.zeros(&[3, 1], DType::F32);
    let mut launches = Vec::new();
    let started = Graph::new(GPU, STREAM, Inputs { x, position }).unwrap();
    let mut graph = capture(started, |input: &Inputs| {
        let (x, position) = (&input.x, &input.position);
        match cache.append_at(x, position, CacheEvent::Start).unwrap() {
            CacheAction::Allocate(request) => assert!(request.met_by(&buffer)),
            action => panic!("{action:?}"),
        }
        match cache.append_at(x, position, CacheEvent::Allocated(buffer.clone())).unwrap() {
            CacheAction::Launch(launch) => launches.push(launch),
            action => panic!("{action:?}"),
        }
    })
    .unwrap();
    for (value, slot) in [(1., 0u32), (2., 1), (3., 2)] {
        // The captured fill runs before the captured launch.
        for k in 0..3 {
            host.memory.store(buffer.storage().ptr + 4 * k, 0);
        }
        let x = host.full(&[1, 1], value);
        let position = host.u32s(&[slot]);
        host.replay(&mut graph, &launches, &Inputs { x, position }).unwrap();
        let mut expected = [0.; 3];
        expected[slot as usize] = value;
        assert_eq!(host.read_f32(&buffer), expected);
    }
}

#[test]
fn copy_inplace_names_addresses_and_sizes() {
    let mut host = Host::new();
    let src = host.zeros(&[2, 3], DType::F64);
    let dst = host.zeros(&[4, 3], DType::F64).narrow(0, 1, 2).unwrap();
    let copy = copy_inplace(&src, &dst).unwrap();
    assert_eq!(
        copy,
        Memcpy { dst: dst.storage().ptr + 24, src: src.storage().ptr, count: 6, elem: 8 }
    );
    assert_eq!(copy.bytes(), 48);
}

#[test]
fn copy_inplace_refuses_what_does_not_match() {
    let mut host = Host::new();
    let t = host.zeros(&[2, 3], DType::F32);
    let column = host.zeros(&[2, 4], DType::F32).narrow(1, 0, 3).unwrap();
    assert_eq!(
        copy_inplace(&column, &t),
        Err(GraphError::SourceNotContiguous { shape: vec![2, 3] })
    );
    assert_eq!(
        copy_inplace(&t, &column),
        Err(GraphError::DestinationNotContiguous { shape: vec![2, 3] })
    );
    let turned = host.zeros(&[3, 2], DType::F32);
    assert_eq!(
        copy_inplace(&t, &turned),
        Err(GraphError::ShapeMismatch { src: vec![2, 3], dst: vec![3, 2] })
    );
    let halves = host.zeros(&[2, 3], DType::F16);
    assert_eq!(copy_inplace(&t, &halves), Err(GraphError::CopyDType));
    // A single element repeated has no run of elements to copy from.
    let storage = Storage { ptr: 0, len: 1, dtype: DType::F32 };
    let repeated = Tensor::new(storage, vec![2, 3], vec![0, 0], 0, GPU).unwrap();
    assert!(copy_inplace(&repeated, &t).is_err());
}

#[test]
fn memcpy_stays_inside_the_storages() {
    let a = Storage { ptr: 100, len: 4, dtype: DType::U32 };
    let b = Storage { ptr: 200, len: 2, dtype: DType::U32 };
    assert_eq!(
        memcpy_dtod(DType::U32, &a, 1, &b, 0, 2),
        Ok(Memcpy { dst: 200, src: 104, count: 2, elem: 4 })
    );
    assert_eq!(
        memcpy_dtod(DType::U32, &a, 1, &b, 1, 2),
        Err(GraphError::StorageTooSmall {
            count: 2,
            src_offset: 1,
            dst_offset: 1,
            src_len: 4,
            dst_len: 2,
        })
    );
    assert_eq!(
        memcpy_dtod(DType::F32, &a, 0, &b, 0, 1),
        Err(GraphError::UnexpectedDType { expected: DType::F32, got: DType::U32 })
    );
}

#[test]
fn names_occur_once() {
    let mut host = Host::new();
    let x = host.u32s(&[1]);
    let entries = vec![("a".to_string(), x.clone()), ("a".to_string(), x.clone())];
    assert!(NamedInputs::new(entries).is_none());
    let inputs = NamedInputs::new(vec![("a".to_string(), x.clone())]).unwrap();
    assert_eq!(inputs.get(&"a".to_string()), Some(&x));
    assert_eq!(inputs.get(&"b".to_string()), None);
    assert_eq!(inputs.to_inputs(), vec![("a".to_string(), x)]);
}

#[test]
fn inputs_are_loaded_by_name() {
    let mut host = Host::new();
    let (a, b) = (host.u32s(&[1]), host.u32s(&[2, 3]));
    let (new_a, new_b) = (host.u32s(&[7]), host.u32s(&[8, 9]));
    let held = NamedInputs::new(vec![("a".to_string(), a.clone()), ("b".to_string(), b.clone())])
        .unwrap();
    let given =
        NamedInputs::new(vec![("b".to_string(), new_b), ("a".to_string(), new_a)]).unwrap();
    assert_eq!(held.problem(&given), None);
    let load = held.load_inputs_inplace(&given);
    assert_eq!(load.result, Ok(()));
    let bytes: Vec<usize> = load.copies.iter().map(|copy| copy.bytes()).collect();
    assert_eq!(bytes, [8, 4]);
    for copy in &load.copies {
        host.memory.memcpy(copy);
    }
    assert_eq!(host.read(&a), [7]);
    assert_eq!(host.read(&b), [8, 9]);
}

#[test]
fn inputs_have_to_match() {
    let mut host = Host::new();
    let x = host.u32s(&[1, 2, 3]);
    let named = |names: &[&str], t: &Tensor| {
        NamedInputs::new(names.iter().map(|n| (n.to_string(), t.clone())).collect()).unwrap()
    };
    let held = named(&["a", "b"], &x);
    assert_eq!(
        held.problem(&named(&["a"], &x)),
        Some(InputProblem::Missing("b".to_string()))
    );
    assert_eq!(
        held.problem(&named(&["a", "b", "c"], &x)),
        Some(InputProblem::Unknown("c".to_string()))
    );
    let strided = Tensor::new(x.storage(), vec![2], vec![2], 0, GPU).unwrap();
    assert_eq!(
        held.problem(&named(&["a", "b"], &strided)),
        Some(InputProblem::NotContiguous("a".to_string()))
    );
}

#[test]
fn copies_before_an_error_are_made() {
    let mut host = Host::new();
    let (a, b) = (host.u32s(&[1]), host.u32s(&[2]));
    let (new_a, new_b) = (host.u32s(&[7]), host.u32s(&[8, 9]));
    let held = Inputs { x: a.clone(), position: b };
    let mut graph = capture(Graph::new(GPU, STREAM, held).unwrap(), |_| ()).unwrap();
    let given = Inputs { x: new_a, position: new_b };
    assert_eq!(
        host.replay(&mut graph, &[], &given),
        Err(GraphError::ShapeMismatch { src: vec![2], dst: vec![1] })
    );
    assert_eq!(host.read(&a), [7]);
    // The graph was not launched, so that is still to be done.
    assert_eq!(graph.teardown().len(), 4);
}

#[test]
fn graphs_need_a_cuda_device() {
    let mut host = Host::new();
    let x = host.u32s(&[1]);
    for device in [DeviceLocation::Cpu, DeviceLocation::Metal { gpu_id: 0 }] {
        let input = NamedInputs::new(vec![("x".to_string(), x.clone())]).unwrap();
        assert_eq!(Graph::new(device, STREAM, input).err(), Some(GraphError::NotCuda));
    }
}

#[test]
fn captured_inputs_have_to_be_contiguous() {
    let mut host = Host::new();
    let x = host.u32s(&[1, 2, 3]);
    let strided = Tensor::new(x.storage(), vec![2], vec![2], 0, GPU).unwrap();
    let entries = vec![("x".to_string(), x), ("y".to_string(), strided)];
    let input = NamedInputs::new(entries).unwrap();
    let result = capture(Graph::new(GPU, STREAM, input).unwrap(), |_| ());
    assert_eq!(
        result.err(),
        Some(GraphError::InputNotContiguous { name: "y".to_string() })
    );
}

#[test]
fn a_capture_takes_no_event_out_of_turn() {
    let input = NamedInputs::new(Vec::new()).unwrap();
    let mut capture = Graph::new(GPU, STREAM, input).unwrap();
    assert!(!capture.advance(CaptureEvent::Begun));
    assert_eq!(capture.next(), CaptureAction::WarmUp);
    assert!(capture.advance(CaptureEvent::WarmedUp));
    assert!(!capture.advance(CaptureEvent::CodeRun));
    assert_eq!(capture.next(), CaptureAction::CreateGraph);
}

#[test]
fn every_element_type_is_warmed_up() {
    assert_eq!(
        warm_up_dtypes(),
        [
            DType::BF16,
            DType::F16,
            DType::F32,
            DType::F64,
            DType::I64,
            DType::U32,
            DType::U8,
        ]
    );
}

#[test]
fn a_kernel_that_cannot_be_loaded_is_passed_over() {
    for loaded in [false, true] {
        let tried: Vec<DType> = (0..7).map(|done| next_warm_up(done, loaded).unwrap()).collect();
        assert_eq!(tried, warm_up_dtypes());
        assert_eq!(next_warm_up(7, loaded), None);
    }
}

#[test]
fn a_graph_is_launched_before_it_is_destroyed() {
    let mut host = Host::new();
    let no_inputs = || NamedInputs::new(Vec::new()).unwrap();
    let mut graph = capture(Graph::new(GPU, STREAM, no_inputs()).unwrap(), |_| ()).unwrap();
    let destroy = [
        TeardownAction::DestroyGraph { graph: GRAPH },
        TeardownAction::DestroyExec { executable: EXECUTABLE },
    ];
    assert_eq!(
        graph.teardown(),
        [
            TeardownAction::Launch { executable: EXECUTABLE, stream: STREAM },
            TeardownAction::Synchronize,
            destroy[0],
            destroy[1],
        ]
    );
    host.replay(&mut graph, &[], &no_inputs()).unwrap();
    assert_eq!(graph.teardown(), destroy);
}

#[test]
fn graphs_are_written_out() {
    let input = NamedInputs::new(Vec::new()).unwrap();
    let graph = capture(Graph::new(GPU, STREAM, input).unwrap(), |_| ()).unwrap();
    let dump = graph.output_dot("out.png", GraphDumpFormat::Png, GraphDumpVerbosity::Verbose);
    assert_eq!(
        (dump.graph, dump.path.as_str(), dump.flags, dump.picture),
        (GRAPH, "out.png.dot", 1, Some("-Tpng"))
    );
    let dump = graph.output_dot(" a.svg", GraphDumpFormat::Svg, GraphDumpVerbosity::Clean);
    assert_eq!(
        (dump.path.as_str(), dump.flags, dump.picture),
        (" a.svg.dot", 0, Some("-Tsvg"))
    );
    let out = "\u{3000}\t a b.dot\u{85}\u{a0}\n";
    let dump = graph.output_dot(out, GraphDumpFormat::Dot, GraphDumpVerbosity::Clean);
    assert_eq!((dump.path.as_str(), dump.picture), ("a b.dot", None));
    let blank = "\u{1680}\u{2000}\u{200a}\u{2028}\u{2029}\u{202f}\u{205f}\u{b}\u{c}\r ";
    let dump = graph.output_dot(blank, GraphDumpFormat::Dot, GraphDumpVerbosity::Clean);
    assert_eq!(dump.path, "");
    let dump = graph.output_dot("\u{200b}x", GraphDumpFormat::Dot, GraphDumpVerbosity::Clean);
    assert_eq!(dump.path, "\u{200b}x");
}

#[test]
fn a_picture_is_what_dot_printed() {
    assert_eq!(picture(true, vec![1, 2, 3]), Ok(vec![1, 2, 3]));
    assert_eq!(picture(false, vec![1, 2, 3]), Err(GraphError::PictureNotDrawn));
}

fn raw(handle: u64, type_code: u32) -> RawNode {
    let launch_params = KernelLaunchParams {
        grid_dim_x: 1,
        grid_dim_y: 2,
        grid_dim_z: 3,
        block_dim_x: 4,
        block_dim_y: 5,
        block_dim_z: 6,
        shared_mem_bytes: 7,
    };
    RawNode { handle, type_code, launch_params, first_argument: COPY2D_FINGERPRINT }
}

#[test]
fn nodes_are_told_apart() {
    let input = NamedInputs::new(Vec::new()).unwrap();
    let graph = capture(Graph::new(GPU, STREAM, input).unwrap(), |_| ()).unwrap();
    let described: Vec<RawNode> = (0..14).map(|code| raw(100 + code as u64, code)).collect();
    let nodes = graph.nodes(&described).unwrap();
    let kernel = NodeData::Kernel { launch_params: described[0].launch_params };
    let expected = [
        kernel,
        NodeData::Memcpy,
        NodeData::Memset,
        NodeData::Host,
        NodeData::Graph,
        NodeData::Empty,
        NodeData::WaitEvent,
        NodeData::EventRecord,
        NodeData::ExtSemasSignal,
        NodeData::ExtSemasWait,
        NodeData::MemAlloc,
        NodeData::MemFree,
        NodeData::BatchMemOp,
        NodeData::Conditional,
    ];
    assert_eq!(nodes.len(), 14);
    for (i, node) in nodes.iter().enumerate() {
        assert_eq!(**node, expected[i]);
        assert_eq!(*node.as_ref(), expected[i]);
        assert_eq!(node.inner(), 100 + i as u64);
        assert_eq!(node.is_kernel(), i == 0);
    }
    assert_eq!(
        graph.nodes(&vec![raw(1, 3), raw(2, 14), raw(3, 15)]),
        Err(GraphError::UnknownNodeType { code: 14 })
    );
}

#[test]
fn copy_kernels_are_found_by_their_fingerprint() {
    assert!(raw(1, 0).is_copy2d());
    assert!(!raw(1, 1).is_copy2d());
    let mut other = raw(1, 0);
    other.first_argument += 1;
    assert!(!other.is_copy2d());
}

#[test]
fn only_kernels_take_launch_parameters() {
    let input = NamedInputs::new(Vec::new()).unwrap();
    let graph = capture(Graph::new(GPU, STREAM, input).unwrap(), |_| ()).unwrap();
    let described = vec![raw(1, 0), raw(2, 2)];
    let mut nodes = graph.nodes(&described).unwrap();
    let mut params = described[0].launch_params;
    params.grid_dim_x = 99;
    assert_eq!(nodes[0].update_kernel_launch_params(params), Ok(params));
    assert_eq!(*nodes[0], NodeData::Kernel { launch_params: params });
    assert_eq!(
        nodes[1].update_kernel_launch_params(params),
        Err(GraphError::NotAKernelNode)
    );
    assert_eq!(*nodes[1], NodeData::Memset);
}

#[test]
fn an_update_shows_when_the_nodes_are_described_again() {
    let input = NamedInputs::new(Vec::new()).unwrap();
    let graph = capture(Graph::new(GPU, STREAM, input).unwrap(), |_| ()).unwrap();
    let mut described = vec![raw(1, 0), raw(2, 0), raw(3, 1)];
    let mut nodes = graph.nodes(&described).unwrap();
    let mut params = described[1].launch_params;
    params.block_dim_x = 77;
    let set = nodes[1].update_kernel_launch_params(params).unwrap();
    for node in &mut described {
        if node.handle == nodes[1].inner() {
            node.launch_params = set;
        }
    }
    assert_eq!(graph.nodes(&described).unwrap(), nodes);
}

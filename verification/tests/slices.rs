use candle_graph::copy2d::{Copy2d, Target, COPY2D_FINGERPRINT};
use candle_graph::dtype::{DType, DeviceLocation};
use candle_graph::error::{GraphError, Op};
use candle_graph::extension::CudaTensorExtension;
use candle_graph::memory::Memory;
use candle_graph::node::KernelLaunchParams;
use candle_graph::tensor::{Storage, Tensor};

const GPU: DeviceLocation = DeviceLocation::Cuda { gpu_id: 0 };

/// A device whose memory is held on the host.
struct Host {
    memory: Memory,
    next: u64,
}

impl Host {
    fn new() -> Host {
        Host { memory: Memory::new(), next: 4096 }
    }

    fn with_bits(&mut self, dims: &[usize], dtype: DType, bits: &[u64]) -> Tensor {
        let count: usize = dims.iter().product();
        assert_eq!(count, bits.len());
        let storage = Storage { ptr: self.next, len: count, dtype };
        for (k, value) in bits.iter().enumerate() {
            self.memory.store(self.next + (k * dtype.size_in_bytes()) as u64, *value);
        }
        self.next += (count * dtype.size_in_bytes()) as u64 + 256;
        Tensor::new(storage, dims.to_vec(), row_major_strides(dims), 0, GPU).unwrap()
    }

    fn zeros(&mut self, dims: &[usize], dtype: DType) -> Tensor {
        let count: usize = dims.iter().product();
        self.with_bits(dims, dtype, &vec![0; count])
    }

    fn f32s(&mut self, dims: &[usize], values: &[f32]) -> Tensor {
        let bits: Vec<u64> = values.iter().map(|v| v.to_bits() as u64).collect();
        self.with_bits(dims, DType::F32, &bits)
    }

    fn full(&mut self, dims: &[usize], value: f32) -> Tensor {
        let count: usize = dims.iter().product();
        self.f32s(dims, &vec![value; count])
    }

    fn u32s(&mut self, values: &[u32]) -> Tensor {
        let bits: Vec<u64> = values.iter().map(|v| *v as u64).collect();
        self.with_bits(&[values.len()], DType::U32, &bits)
    }

    fn read(&self, t: &Tensor) -> Vec<u64> {
        let size = t.dtype().size_in_bytes();
        let count: usize = t.dims().iter().product();
        let mut out = Vec::new();
        for place in 0..count {
            let mut rest = place;
            let mut offset = t.start_offset();
            for (dim, stride) in t.dims().iter().zip(t.stride().iter()).rev() {
                offset += (rest % dim) * stride;
                rest /= dim;
            }
            let address = t.storage().ptr + (offset * size) as u64;
            out.push(self.memory.load(address).expect("an allocated element"));
        }
        out
    }

    fn read_f32(&self, t: &Tensor) -> Vec<f32> {
        self.read(t).iter().map(|bits| f32::from_bits(*bits as u32)).collect()
    }

    fn run(&mut self, launch: Option<Copy2d>) {
        if let Some(launch) = launch {
            self.memory.launch(&launch);
        }
    }
}

fn row_major_strides(dims: &[usize]) -> Vec<usize> {
    (0..dims.len()).map(|i| dims[i + 1..].iter().product()).collect()
}

/// Values that look random and are the same on every run.
fn scattered(count: usize) -> Vec<f32> {
    let mut state: u32 = 2463534242;
    (0..count)
        .map(|_| {
            state ^= state << 13;
            state ^= state >> 17;
            state ^= state << 5;
            (state as f32 / u32::MAX as f32) * 4. - 2.
        })
        .collect()
}

fn diff(a: &[f32], b: &[f32]) -> f32 {
    assert_eq!(a.len(), b.len());
    a.iter().zip(b.iter()).map(|(x, y)| (x - y).abs()).sum()
}

fn abs_sum(values: &[f32]) -> f32 {
    values.iter().map(|v| v.abs()).sum()
}

#[test]
fn slice_set() {
    let mut host = Host::new();

    let (b, h, max_t, d) = (2, 4, 7, 3);
    let cache = host.zeros(&[b, h, max_t, d], DType::F32);
    let tensor = host.f32s(&[b, h, 4, d], &scattered(b * h * 4 * d));
    let launch = cache.slice_set_fingerprinted(&tensor, 2, 0).unwrap();
    host.run(launch);
    let cache_t = cache.narrow(2, 0, 4).unwrap();
    assert_eq!(diff(&host.read_f32(&cache_t), &host.read_f32(&tensor)), 0.);
    let launch = cache.slice_set_fingerprinted(&tensor, 2, 1).unwrap();
    host.run(launch);
    let cache_t = cache.narrow(2, 1, 4).unwrap();
    assert_eq!(diff(&host.read_f32(&cache_t), &host.read_f32(&tensor)), 0.);
    let ones = host.full(&[b, h, 1, d], 1.);
    let launch = cache.slice_set_fingerprinted(&ones, 2, 6).unwrap();
    host.run(launch);
    assert_eq!(abs_sum(&host.read_f32(&cache.narrow(2, 5, 1).unwrap())), 0.);
    let last: Vec<f32> =
        host.read_f32(&cache.narrow(2, 6, 1).unwrap()).iter().map(|v| v - 1.).collect();
    assert_eq!(abs_sum(&last), 0.);
}

#[test]
fn slice_set_at_matches_slice_set() {
    let mut host = Host::new();

    let (b, h, max_t, d) = (2, 4, 7, 3);
    let cache = host.zeros(&[b, h, max_t, d], DType::F32);
    let tensor = host.f32s(&[b, h, 1, d], &scattered(b * h * d));
    let position = host.u32s(&[3]);

    let launch = cache.slice_set_fingerprinted_at(&tensor, 2, 0, &position).unwrap();
    host.run(launch);
    let cache_t = cache.narrow(2, 3, 1).unwrap();
    assert_eq!(diff(&host.read_f32(&cache_t), &host.read_f32(&tensor)), 0.);

    // Every other slot must be untouched.
    for other in [0usize, 1, 2, 4, 5, 6] {
        let sum = abs_sum(&host.read_f32(&cache.narrow(2, other, 1).unwrap()));
        assert_eq!(sum, 0., "slot {other} should still be zero");
    }
}

/// A position that is a view of a larger buffer has its element at the start of the view, not at
/// the start of the buffer.
#[test]
fn slice_set_at_honors_position_view_offset() {
    let mut host = Host::new();

    let (b, h, max_t, d) = (1, 1, 7, 3);
    let cache = host.zeros(&[b, h, max_t, d], DType::F32);
    let tensor = host.full(&[b, h, 1, d], 1.);

    // Element 0 is a decoy: if the offset is ignored, the write lands on slot 5.
    let positions = host.u32s(&[5, 2]);
    let position = positions.narrow(0, 1, 1).unwrap();
    assert_eq!(position.start_offset(), 1);

    let launch = cache.slice_set_fingerprinted_at(&tensor, 2, 0, &position).unwrap();
    host.run(launch);

    for slot in 0usize..max_t {
        let sum = abs_sum(&host.read_f32(&cache.narrow(2, slot, 1).unwrap()));
        let expected = if slot == 2 { d as f32 } else { 0. };
        assert_eq!(sum, expected, "slot {slot}: write landed in the wrong slot");
    }
}

/// A position past the end of the cache makes the kernel drop the copy.
#[test]
fn slice_set_at_skips_out_of_range_position() {
    let mut host = Host::new();

    let (b, h, max_t, d) = (1, 1, 4, 3);
    let cache = host.zeros(&[b, h, max_t, d], DType::F32);
    let tensor = host.full(&[b, h, 1, d], 1.);

    // One past the last writable slot, and a value that would overflow the u32 offset
    // arithmetic if it were left to wrap.
    for out_of_range in [max_t as u32, max_t as u32 + 7, u32::MAX] {
        let position = host.u32s(&[out_of_range]);
        let launch = cache.slice_set_fingerprinted_at(&tensor, 2, 0, &position).unwrap();
        host.run(launch);
        let touched = abs_sum(&host.read_f32(&cache));
        assert_eq!(touched, 0., "position {out_of_range} wrote into the cache");
    }

    // The last in-range slot still writes, so the bound is not off by one.
    let position = host.u32s(&[max_t as u32 - 1]);
    let launch = cache.slice_set_fingerprinted_at(&tensor, 2, 0, &position).unwrap();
    host.run(launch);
    for slot in 0usize..max_t {
        let sum = abs_sum(&host.read_f32(&cache.narrow(2, slot, 1).unwrap()));
        let expected = if slot == max_t - 1 { d as f32 } else { 0. };
        assert_eq!(sum, expected, "slot {slot}");
    }
}

/// What is wrong for every position is an error, not a copy that is dropped.
#[test]
fn slice_set_at_rejects_a_source_that_cannot_fit() {
    let mut host = Host::new();

    let (b, h, max_t, d) = (1, 1, 4, 3);
    let cache = host.zeros(&[b, h, max_t, d], DType::F32);
    let position = host.u32s(&[0]);

    // Source longer than the cache: no position can make this fit.
    let too_long = host.full(&[b, h, max_t + 1, d], 1.);
    assert!(cache.slice_set_fingerprinted_at(&too_long, 2, 0, &position).is_err());

    // Fits on its own, but not at this offset.
    let tensor = host.full(&[b, h, 2, d], 1.);
    assert!(cache.slice_set_fingerprinted_at(&tensor, 2, 3, &position).is_err());
    assert!(cache.slice_set_fingerprinted_at(&tensor, 2, 2, &position).is_ok());
}

#[test]
fn a_slice_becomes_one_launch() {
    let mut host = Host::new();
    let dst = host.zeros(&[2, 6, 3], DType::BF16);
    let src = host.zeros(&[2, 2, 3], DType::BF16);
    let launch = dst.slice_set_fingerprinted(&src, 1, 3).unwrap();
    let expected = Copy2d {
        fingerprint: COPY2D_FINGERPRINT,
        config: KernelLaunchParams {
            grid_dim_x: 1,
            grid_dim_y: 1,
            grid_dim_z: 1,
            block_dim_x: 1024,
            block_dim_y: 1,
            block_dim_z: 1,
            shared_mem_bytes: 0,
        },
        dtype: DType::BF16,
        src: src.storage().ptr,
        dst: dst.storage().ptr,
        d1: 2,
        d2: 6,
        src_o: 0,
        src_s: 6,
        dst_s: 18,
        target: Target::Fixed { offset: 9 },
    };
    assert_eq!(launch, Some(expected));
    assert_eq!(expected.fingerprint, 7472013941709904021);
    assert_eq!(expected.kernel_name(), "copy2d_bf16");
}

#[test]
fn a_slice_at_a_position_becomes_one_launch() {
    let mut host = Host::new();
    let dst = host.zeros(&[2, 6, 3], DType::I64);
    let src = host.zeros(&[2, 2, 3], DType::I64);
    let positions = host.u32s(&[7, 8, 9]);
    let position = positions.narrow(0, 2, 1).unwrap();
    let launch = dst.slice_set_fingerprinted_at(&src, 1, 1, &position).unwrap().unwrap();
    assert_eq!(launch.fingerprint, COPY2D_FINGERPRINT);
    assert_eq!((launch.d1, launch.d2, launch.src_s, launch.dst_s), (2, 6, 6, 18));
    assert_eq!(
        launch.target,
        Target::AtPosition {
            base: 3,
            stride: 3,
            position_ptr: positions.storage().ptr + 8,
            position_max: 3,
        }
    );
    assert_eq!(launch.kernel_name(), "copy2d_dynoffset_i64");
}

#[test]
fn large_copies_get_more_blocks() {
    let mut host = Host::new();
    let dst = host.zeros(&[3, 1000], DType::U8);
    let src = host.zeros(&[3, 700], DType::U8);
    let launch = dst.slice_set_fingerprinted(&src, 1, 0).unwrap().unwrap();
    assert_eq!(launch.config.grid_dim_x, 3);
    let src = host.zeros(&[1, 1000], DType::U8);
    let launch = dst.slice_set_fingerprinted(&src, 0, 1).unwrap().unwrap();
    assert_eq!(launch.config.grid_dim_x, 1);
}

#[test]
fn every_element_type_has_its_kernels() {
    let mut host = Host::new();
    let position = host.u32s(&[0]);
    for (dtype, name) in [
        (DType::U8, "u8"),
        (DType::U32, "u32"),
        (DType::I64, "i64"),
        (DType::BF16, "bf16"),
        (DType::F16, "f16"),
        (DType::F32, "f32"),
        (DType::F64, "f64"),
    ] {
        let dst = host.zeros(&[1, 1], dtype);
        let src = host.zeros(&[1, 1], dtype);
        let launch = dst.slice_set_fingerprinted(&src, 0, 0).unwrap().unwrap();
        assert_eq!(launch.kernel_name(), format!("copy2d_{name}"));
        let launch = dst.slice_set_fingerprinted_at(&src, 0, 0, &position).unwrap().unwrap();
        assert_eq!(launch.kernel_name(), format!("copy2d_dynoffset_{name}"));
    }
}

#[test]
fn no_elements_means_no_launch() {
    let mut host = Host::new();
    let dst = host.zeros(&[2, 6, 3], DType::F32);
    let src = host.zeros(&[2, 0, 3], DType::F32);
    let position = host.u32s(&[0]);
    assert_eq!(dst.slice_set_fingerprinted(&src, 1, 6), Ok(None));
    assert_eq!(dst.slice_set_fingerprinted_at(&src, 1, 6, &position), Ok(None));
}

#[test]
fn the_offset_and_the_position_add_up() {
    let mut host = Host::new();
    let at = host.zeros(&[2, 5], DType::F32);
    let fixed = host.zeros(&[2, 5], DType::F32);
    let src = host.f32s(&[2, 1], &[1.5, -2.5]);
    let position = host.u32s(&[2]);
    let launch = at.slice_set_fingerprinted_at(&src, 1, 1, &position).unwrap();
    host.run(launch);
    let launch = fixed.slice_set_fingerprinted(&src, 1, 3).unwrap();
    host.run(launch);
    assert_eq!(host.read_f32(&at), [0., 0., 0., 1.5, 0., 0., 0., 0., -2.5, 0.]);
    assert_eq!(host.read_f32(&at), host.read_f32(&fixed));
}

#[test]
fn a_destination_may_be_a_view() {
    let mut host = Host::new();
    let whole = host.zeros(&[4, 2], DType::F32);
    let view = whole.narrow(0, 1, 2).unwrap();
    let src = host.f32s(&[1, 2], &[3., 4.]);
    let launch = view.slice_set_fingerprinted(&src, 0, 1).unwrap();
    host.run(launch);
    assert_eq!(host.read_f32(&whole), [0., 0., 0., 0., 3., 4., 0., 0.]);
}

#[test]
fn slice_errors_come_in_order() {
    let mut host = Host::new();
    let dst = host.zeros(&[2, 3], DType::F32);
    let src = host.zeros(&[2, 3], DType::F32);
    assert_eq!(
        dst.slice_set_fingerprinted(&src, 2, 0),
        Err(GraphError::DimOutOfRange { shape: vec![2, 3], dim: 2, op: Op::SliceSet })
    );
    let column = src.narrow(1, 0, 2).unwrap();
    assert_eq!(
        dst.slice_set_fingerprinted(&column, 1, 0),
        Err(GraphError::RequiresContiguous { op: Op::SliceSet })
    );
    let halves = host.zeros(&[2, 3], DType::F16);
    assert_eq!(
        dst.slice_set_fingerprinted(&halves, 0, 0),
        Err(GraphError::DTypeMismatchBinaryOp {
            lhs: DType::F32,
            rhs: DType::F16,
            op: Op::SliceSet
        })
    );
    let elsewhere = DeviceLocation::Cuda { gpu_id: 1 };
    let other = Tensor::new(src.storage(), vec![2, 3], vec![3, 1], 0, elsewhere).unwrap();
    assert_eq!(
        dst.slice_set_fingerprinted(&other, 0, 0),
        Err(GraphError::DeviceMismatchBinaryOp { lhs: GPU, rhs: elsewhere, op: Op::SliceSet })
    );
    let flat = host.zeros(&[6], DType::F32);
    assert_eq!(
        dst.slice_set_fingerprinted(&flat, 0, 0),
        Err(GraphError::UnexpectedNumberOfDims { expected: 2, got: 1, shape: vec![2, 3] })
    );
    assert_eq!(
        dst.slice_set_fingerprinted(&src, 0, 1),
        Err(GraphError::TargetDimMismatch { dst: 2, src: 2, offset: 1, op: Op::SliceSet })
    );
    let wide = host.zeros(&[1, 4], DType::F32);
    assert_eq!(
        dst.slice_set_fingerprinted(&wide, 0, 0),
        Err(GraphError::DimMismatch { dim: 1, dst: 3, src: 4 })
    );
    assert_eq!(
        dst.slice_set_fingerprinted(&src, 0, usize::MAX),
        Err(GraphError::TargetDimMismatch { dst: 2, src: 2, offset: usize::MAX, op: Op::SliceSet })
    );
    let on_host = |t: &Tensor| {
        Tensor::new(t.storage(), t.dims().clone(), t.stride().clone(), 0, DeviceLocation::Cpu)
            .unwrap()
    };
    assert_eq!(
        on_host(&dst).slice_set_fingerprinted(&on_host(&src), 0, 0),
        Err(GraphError::DeviceMismatchBinaryOp {
            lhs: DeviceLocation::Cpu,
            rhs: DeviceLocation::Cpu,
            op: Op::Copy2dCuda
        })
    );
}

#[test]
fn slice_at_errors_come_in_order() {
    let mut host = Host::new();
    let dst = host.zeros(&[2, 3], DType::F32);
    let src = host.zeros(&[2, 3], DType::F32);
    let position = host.u32s(&[0]);
    let op = Op::SliceSetAt;
    assert_eq!(
        dst.slice_set_fingerprinted_at(&src, 5, 0, &position),
        Err(GraphError::DimOutOfRange { shape: vec![2, 3], dim: 5, op })
    );
    let column = dst.narrow(1, 0, 2).unwrap();
    assert_eq!(
        column.slice_set_fingerprinted_at(&src, 1, 0, &position),
        Err(GraphError::RequiresContiguous { op })
    );
    let metal = DeviceLocation::Metal { gpu_id: 0 };
    let moved = Tensor::new(position.storage(), vec![1], vec![1], 0, metal).unwrap();
    assert_eq!(
        dst.slice_set_fingerprinted_at(&src, 0, 0, &moved),
        Err(GraphError::DeviceMismatchBinaryOp { lhs: GPU, rhs: GPU, op })
    );
    let wrong_type = host.zeros(&[1], DType::I64);
    assert_eq!(
        dst.slice_set_fingerprinted_at(&src, 0, 0, &wrong_type),
        Err(GraphError::PositionDType { got: DType::I64 })
    );
    let two = host.u32s(&[0, 1]);
    assert_eq!(
        dst.slice_set_fingerprinted_at(&src, 0, 0, &two),
        Err(GraphError::PositionCount { shape: vec![2] })
    );
    let wide = host.zeros(&[1, 4], DType::F32);
    assert_eq!(
        dst.slice_set_fingerprinted_at(&wide, 0, 0, &position),
        Err(GraphError::DimMismatch { dim: 1, dst: 3, src: 4 })
    );
    assert_eq!(
        dst.slice_set_fingerprinted_at(&src, 0, 1, &position),
        Err(GraphError::TargetDimMismatch { dst: 2, src: 2, offset: 1, op })
    );
}

/// A tensor that nothing is stored for.
fn huge(dims: &[usize], dtype: DType) -> Tensor {
    let storage = Storage { ptr: 1 << 50, len: dims.iter().product(), dtype };
    Tensor::new(storage, dims.to_vec(), row_major_strides(dims), 0, GPU).unwrap()
}

#[test]
fn what_a_kernel_cannot_count_is_refused() {
    let big = 1usize << 32;
    let dst = huge(&[big], DType::U8);
    assert_eq!(
        dst.slice_set_fingerprinted(&huge(&[big], DType::U8), 0, 0),
        Err(GraphError::KernelSizes { d1: 1, d2: big, src_s: big, dst_s: big })
    );
    // A shorter source fits, wherever it goes: there is only one row.
    let launch = dst.slice_set_fingerprinted(&huge(&[3], DType::U8), 0, big - 3).unwrap().unwrap();
    assert_eq!(launch.target, Target::Fixed { offset: big - 3 });
    // The rows of this destination are too far apart.
    let rows = huge(&[2, big], DType::U8);
    assert_eq!(
        rows.slice_set_fingerprinted(&huge(&[2, 1], DType::U8), 1, 0),
        Err(GraphError::KernelSizes { d1: 2, d2: 1, src_s: 1, dst_s: big })
    );
    // Each size fits by itself, but not their product.
    let square = huge(&[1 << 16, 1 << 16], DType::U8);
    assert_eq!(
        square.slice_set_fingerprinted(&square, 1, 0),
        Err(GraphError::KernelSizes {
            d1: 1 << 16,
            d2: 1 << 16,
            src_s: 1 << 16,
            dst_s: 1 << 16,
        })
    );
}

#[test]
fn a_large_destination_takes_small_positions() {
    let mut host = Host::new();
    let position = host.u32s(&[5]);
    // One row of 2^33 elements, of which a slot near the start is written.
    let (slots, block) = (1usize << 20, 1usize << 13);
    let dst = huge(&[slots, block], DType::U8);
    let src = host.with_bits(&[1, block], DType::U8, &vec![1; block]);
    let launch = dst.slice_set_fingerprinted_at(&src, 0, 0, &position).unwrap().unwrap();
    assert_eq!(
        launch.target,
        Target::AtPosition {
            base: 0,
            stride: block as u32,
            position_ptr: position.storage().ptr,
            position_max: slots as u32 - 1,
        }
    );
    let slot = dst.narrow(0, 5, 1).unwrap();
    let first = dst.storage().ptr + 5 * block as u64;
    for k in 0..block as u64 {
        host.memory.store(first + k, 0);
    }
    host.run(Some(launch));
    assert_eq!(host.read(&slot), vec![1; block]);
}

#[test]
fn a_bound_beyond_32_bits_lets_every_position_pass() {
    let mut host = Host::new();
    let position = host.u32s(&[0]);
    let big = 1usize << 32;
    let one = huge(&[1], DType::U8);
    for len in [big, big + 1, big + 7] {
        let launch = huge(&[len], DType::U8).slice_set_fingerprinted_at(&one, 0, 0, &position);
        assert_eq!(
            launch.unwrap().unwrap().target,
            Target::AtPosition {
                base: 0,
                stride: 1,
                position_ptr: position.storage().ptr,
                position_max: u32::MAX,
            }
        );
    }
    assert_eq!(
        huge(&[big + 7], DType::U8).slice_set_fingerprinted_at(&one, 0, big, &position),
        Err(GraphError::KernelOffsets { base: big, stride: 1 })
    );
}

use candle_core::{Device, Tensor as CandleTensor};
use candle_graph::copy2d::{copy2d_fingerprinted, copy2d_fingerprinted_dynoffset, Target};
use candle_graph::dtype::{DType, DeviceLocation};
use candle_graph::error::{GraphError, Op};
use candle_graph::tensor::{Storage, Tensor};

const GPU: DeviceLocation = DeviceLocation::Cuda { gpu_id: 0 };

fn tensor(len: usize, dims: &[usize], stride: &[usize], start_offset: usize) -> Option<Tensor> {
    let storage = Storage { ptr: 4096, len, dtype: DType::F32 };
    Tensor::new(storage, dims.to_vec(), stride.to_vec(), start_offset, GPU)
}

#[test]
fn a_tensor_lies_inside_its_storage() {
    assert!(tensor(6, &[2, 3], &[3, 1], 0).is_some());
    assert!(tensor(6, &[2, 3], &[3, 1], 1).is_none());
    assert!(tensor(6, &[2, 3], &[0, 0], 5).is_some());
    assert!(tensor(6, &[2, 3], &[3], 0).is_none());
    assert!(tensor(0, &[0, 3], &[3, 1], 0).is_some());
    assert!(tensor(0, &[], &[], 0).is_none());
    assert!(tensor(1, &[], &[], 0).is_some());
    assert!(tensor(6, &[usize::MAX, 3], &[0, 0], 0).is_none());
    let far = Storage { ptr: u64::MAX - 8, len: 6, dtype: DType::F32 };
    assert!(Tensor::new(far, vec![6], vec![1], 0, GPU).is_none());
}

#[test]
fn contiguity_ignores_dimensions_of_one() {
    assert!(tensor(6, &[2, 3], &[3, 1], 0).unwrap().is_contiguous());
    assert!(!tensor(6, &[2, 3], &[1, 2], 0).unwrap().is_contiguous());
    assert!(!tensor(1, &[2, 3], &[0, 0], 0).unwrap().is_contiguous());
    assert!(tensor(6, &[1, 3], &[77, 1], 0).unwrap().is_contiguous());
    assert_eq!(tensor(6, &[2, 3], &[3, 1], 0).unwrap().elem_count(), 6);
    assert_eq!(tensor(6, &[], &[], 0).unwrap().elem_count(), 1);
}

#[test]
fn a_narrower_view_agrees_with_candle() {
    let candle = CandleTensor::arange(0u32, 24, &Device::Cpu).unwrap().reshape((2, 3, 4)).unwrap();
    let ours = tensor(24, &[2, 3, 4], &[12, 4, 1], 0).unwrap();
    for (dim, start, len) in [(0, 1, 1), (1, 1, 2), (2, 3, 1), (1, 0, 0), (2, 0, 4)] {
        let expected = candle.narrow(dim, start, len).unwrap();
        let got = ours.narrow(dim, start, len).unwrap();
        assert_eq!(got.dims().as_slice(), expected.dims());
        assert_eq!(got.stride().as_slice(), expected.stride());
        assert_eq!(got.start_offset(), expected.layout().start_offset());
        assert_eq!(got.is_contiguous(), expected.is_contiguous());
        assert_eq!(got.elem_count(), expected.elem_count());
    }
}

#[test]
fn narrow_refuses_slots_that_do_not_exist() {
    let t = tensor(24, &[2, 3, 4], &[12, 4, 1], 0).unwrap();
    assert_eq!(
        t.narrow(3, 0, 1),
        Err(GraphError::DimOutOfRange { shape: vec![2, 3, 4], dim: 3, op: Op::Narrow })
    );
    assert_eq!(
        t.narrow(1, 2, 2),
        Err(GraphError::NarrowInvalidArgs { shape: vec![2, 3, 4], dim: 1, start: 2, len: 2 })
    );
    let (start, len) = (1, usize::MAX);
    assert_eq!(
        t.narrow(1, start, len),
        Err(GraphError::NarrowInvalidArgs { shape: vec![2, 3, 4], dim: 1, start, len })
    );
}

#[test]
fn a_dimension_is_looked_up() {
    let t = tensor(24, &[2, 3, 4], &[12, 4, 1], 0).unwrap();
    assert_eq!(t.dim(2), Ok(4));
    assert_eq!(
        t.dim(3),
        Err(GraphError::DimOutOfRange { shape: vec![2, 3, 4], dim: 3, op: Op::Dim })
    );
    assert_eq!(t.to_index(1, Op::SliceSet), Ok(1));
    assert_eq!(t.rank(), 3);
    assert_eq!(t.clone(), t);
}

#[test]
fn operations_have_names() {
    assert_eq!(Op::Dim.name(), "dim");
    assert_eq!(Op::Narrow.name(), "narrow");
    assert_eq!(Op::SliceSet.name(), "slice-set");
    assert_eq!(Op::SliceSetAt.name(), "slice-set-at");
    assert_eq!(Op::Copy2dCuda.name(), "copy2d CUDA");
}

#[test]
fn element_types_have_sizes() {
    let sizes: Vec<usize> = [
        DType::U8,
        DType::U32,
        DType::I64,
        DType::BF16,
        DType::F16,
        DType::F32,
        DType::F64,
    ]
    .iter()
    .map(|dtype| dtype.size_in_bytes())
    .collect();
    assert_eq!(sizes, [1, 4, 8, 2, 2, 4, 8]);
}

#[test]
fn storages_of_different_types_are_not_copied() {
    let a = Storage { ptr: 0, len: 8, dtype: DType::F32 };
    let b = Storage { ptr: 4096, len: 8, dtype: DType::F16 };
    assert_eq!(
        copy2d_fingerprinted(&a, &b, 1, 1, 1, 1, 0, 0),
        Err(GraphError::Copy2dDType { dynamic: false })
    );
    let p = Storage { ptr: 8192, len: 1, dtype: DType::U32 };
    assert_eq!(
        copy2d_fingerprinted_dynoffset(&a, &b, 1, 1, 1, 1, 0, 0, 1, &p, 0, 0),
        Err(GraphError::Copy2dDType { dynamic: true })
    );
    assert_eq!(
        copy2d_fingerprinted_dynoffset(&a, &a, 1, 1, 1, 1, 0, 0, 1, &b, 0, 0),
        Err(GraphError::PositionStorageDType)
    );
    assert_eq!(copy2d_fingerprinted(&a, &b, 0, 1, 1, 1, 0, 0), Ok(None));
}

#[test]
fn kernels_take_sizes_of_32_bits() {
    let a = Storage { ptr: 0, len: 8, dtype: DType::F32 };
    let b = Storage { ptr: 4096, len: 8, dtype: DType::F32 };
    let big = (1usize << 32) + 5;
    assert_eq!(
        copy2d_fingerprinted(&a, &b, 2, 3, big, 3, 0, 0),
        Err(GraphError::KernelSizes { d1: 2, d2: 3, src_s: big, dst_s: 3 })
    );
    assert_eq!(
        copy2d_fingerprinted(&a, &b, 1 << 32, 3, 3, 3, 0, 0),
        Err(GraphError::KernelSizes { d1: 1 << 32, d2: 3, src_s: 3, dst_s: 3 })
    );
    let p = Storage { ptr: 8192, len: 1, dtype: DType::U32 };
    for (base, stride) in [(big, 1), (1, big)] {
        assert_eq!(
            copy2d_fingerprinted_dynoffset(&a, &b, 2, 3, 3, 3, 0, base, stride, &p, 0, 9),
            Err(GraphError::KernelOffsets { base, stride })
        );
    }
    // Each position is looked at when the kernel runs, so none keeps the copy from being launched.
    let launch =
        copy2d_fingerprinted_dynoffset(&a, &b, 2, 3, 3, 3, 0, 6, 1 << 16, &p, 0, 1 << 16);
    assert_eq!(
        launch.unwrap().unwrap().target,
        Target::AtPosition {
            base: 6,
            stride: 1 << 16,
            position_ptr: 8192,
            position_max: 1 << 16,
        }
    );
    // The place of the first row is not cut where it is known on the host.
    assert!(copy2d_fingerprinted(&a, &b, 2, 3, 3, 3, big, big).unwrap().is_some());
}

#[test]
fn empty_tensors_may_have_long_dimensions() {
    let long = 1usize << 40;
    let t = tensor(0, &[long, 0, long], &[0, long, 1], 0).unwrap();
    assert_eq!(t.elem_count(), 0);
    assert!(tensor(0, &[long, long, 0], &[0, 0, 1], 0).is_none());
}

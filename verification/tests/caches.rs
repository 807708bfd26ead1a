use candle_graph::cache::{Allocation, Cache, CacheAction, CacheEvent};
use candle_graph::cache::{Half, KvAction, KvAppend, KvCache};
use candle_graph::copy2d::{Copy2d, Target};
use candle_graph::dtype::{DType, DeviceLocation};
use candle_graph::error::{GraphError, Op};
use candle_graph::memory::Memory;
use candle_graph::tensor::{Storage, Tensor};

const GPU: DeviceLocation = DeviceLocation::Cuda { gpu_id: 0 };

/// A device whose memory is held on the host.
struct Host {
    memory: Memory,
    next: u64,
}

impl Host {
    fn new() -> Host {
        Host { memory: Memory::new(), next: 4096 }
    }

    fn with_bits(&mut self, dims: &[usize], dtype: DType, bits: &[u64]) -> Tensor {
        let count: usize = dims.iter().product();
        assert_eq!(count, bits.len());
        let storage = Storage { ptr: self.next, len: count, dtype };
        for (k, value) in bits.iter().enumerate() {
            self.memory.store(self.next + (k * dtype.size_in_bytes()) as u64, *value);
        }
        self.next += (count * dtype.size_in_bytes()) as u64 + 256;
        Tensor::new(storage, dims.to_vec(), row_major_strides(dims), 0, GPU).unwrap()
    }

    fn zeros(&mut self, dims: &[usize], dtype: DType) -> Tensor {
        let count: usize = dims.iter().product();
        self.with_bits(dims, dtype, &vec![0; count])
    }

    fn f32s(&mut self, dims: &[usize], values: &[f32]) -> Tensor {
        let bits: Vec<u64> = values.iter().map(|v| v.to_bits() as u64).collect();
        self.with_bits(dims, DType::F32, &bits)
    }

    fn full(&mut self, dims: &[usize], value: f32) -> Tensor {
        let count: usize = dims.iter().product();
        self.f32s(dims, &vec![value; count])
    }

    fn u32s(&mut self, values: &[u32]) -> Tensor {
        let bits: Vec<u64> = values.iter().map(|v| *v as u64).collect();
        self.with_bits(&[values.len()], DType::U32, &bits)
    }

    fn read(&self, t: &Tensor) -> Vec<u64> {
        let size = t.dtype().size_in_bytes();
        let count: usize = t.dims().iter().product();
        let mut out = Vec::new();
        for place in 0..count {
            let mut rest = place;
            let mut offset = t.start_offset();
            for (dim, stride) in t.dims().iter().zip(t.stride().iter()).rev() {
                offset += (rest % dim) * stride;
                rest /= dim;
            }
            let address = t.storage().ptr + (offset * size) as u64;
            out.push(self.memory.load(address).expect("an allocated element"));
        }
        out
    }

    fn read_f32(&self, t: &Tensor) -> Vec<f32> {
        self.read(t).iter().map(|bits| f32::from_bits(*bits as u32)).collect()
    }

    fn run(&mut self, launch: Option<Copy2d>) {
        if let Some(launch) = launch {
            self.memory.launch(&launch);
        }
    }
}

fn row_major_strides(dims: &[usize]) -> Vec<usize> {
    (0..dims.len()).map(|i| dims[i + 1..].iter().product()).collect()
}

impl Host {
    fn allocate(&mut self, request: &Allocation) -> Tensor {
        let t = self.zeros(&request.dims, request.dtype);
        assert!(request.met_by(&t));
        t
    }

    fn event(&mut self, action: CacheAction) -> Option<CacheEvent> {
        match action {
            CacheAction::Allocate(request) => {
                let buffer = self.allocate(&request);
                Some(CacheEvent::Allocated(buffer))
            }
            CacheAction::Launch(launch) => {
                self.run(Some(launch));
                Some(CacheEvent::Launched)
            }
            CacheAction::Done => None,
        }
    }

    fn append(&mut self, cache: &mut Cache, src: &Tensor) -> Result<(), GraphError> {
        let mut event = CacheEvent::Start;
        loop {
            let action = cache.append(src, event)?;
            match self.event(action) {
                Some(next) => event = next,
                None => return Ok(()),
            }
        }
    }

    fn append_at(
        &mut self,
        cache: &mut Cache,
        src: &Tensor,
        position: &Tensor,
    ) -> Result<(), GraphError> {
        let mut event = CacheEvent::Start;
        loop {
            let action = cache.append_at(src, position, event)?;
            match self.event(action) {
                Some(next) => event = next,
                None => return Ok(()),
            }
        }
    }

    fn append_both(
        &mut self,
        cache: &mut KvCache,
        k: &Tensor,
        v: &Tensor,
    ) -> Result<(Tensor, Tensor), GraphError> {
        let (mut half, mut event) = (Half::K, CacheEvent::Start);
        loop {
            match cache.append(k, v, half, event)? {
                KvAppend::Do { half: next, action } => {
                    half = next;
                    event = self.event(action).expect("something to do");
                }
                KvAppend::Done { k, v } => return Ok((k, v)),
            }
        }
    }

    fn append_both_at(
        &mut self,
        cache: &mut KvCache,
        k: &Tensor,
        v: &Tensor,
        position: &Tensor,
    ) -> Result<(), GraphError> {
        let (mut half, mut event) = (Half::K, CacheEvent::Start);
        loop {
            match cache.append_at(k, v, position, half, event)? {
                KvAction::Do { half: next, action } => {
                    half = next;
                    event = self.event(action).expect("something to do");
                }
                KvAction::Done => return Ok(()),
            }
        }
    }

    fn reserve_both(&mut self, cache: &mut KvCache, k: &Tensor, v: &Tensor) {
        let (mut half, mut event) = (Half::K, CacheEvent::Start);
        while let KvAction::Do { half: next, action } = cache.reserve(k, v, half, event) {
            half = next;
            event = self.event(action).expect("something to do");
        }
    }
}

#[test]
fn a_new_cache_is_empty() {
    let cache = Cache::new(2, 8);
    assert_eq!((cache.dim(), cache.current_seq_len(), cache.max_seq_len()), (2, 0, 8));
    assert!(cache.all_data().is_none());
    assert_eq!(cache.current_data(), Ok(None));
}

#[test]
fn appending_extends_what_is_filled() {
    let mut host = Host::new();
    let mut cache = Cache::new(1, 4);
    let first = host.f32s(&[2, 2, 1], &[1., 2., 3., 4.]);
    let second = host.f32s(&[2, 1, 1], &[5., 6.]);
    host.append(&mut cache, &first).unwrap();
    assert_eq!(cache.current_seq_len(), 2);
    let data = cache.current_data().unwrap().unwrap();
    assert_eq!(data.dims().as_slice(), [2, 2, 1]);
    assert_eq!(host.read_f32(&data), [1., 2., 3., 4.]);
    host.append(&mut cache, &second).unwrap();
    assert_eq!(cache.current_seq_len(), 3);
    let data = cache.current_data().unwrap().unwrap();
    assert_eq!(data.dims().as_slice(), [2, 3, 1]);
    assert_eq!(host.read_f32(&data), [1., 2., 5., 3., 4., 6.]);
    let all = cache.all_data().as_ref().unwrap();
    assert_eq!(all.dims().as_slice(), [2, 4, 1]);
    assert_eq!(host.read_f32(all), [1., 2., 5., 0., 3., 4., 6., 0.]);
}

#[test]
fn the_first_append_asks_for_the_buffer() {
    let mut host = Host::new();
    let mut cache = Cache::new(2, 8);
    let src = host.zeros(&[1, 2, 1, 4], DType::BF16);
    assert_eq!(
        cache.append(&src, CacheEvent::Start),
        Ok(CacheAction::Allocate(Allocation {
            dims: vec![1, 2, 8, 4],
            dtype: DType::BF16,
            location: GPU,
        }))
    );
    assert!(cache.all_data().is_none());
    let buffer = host.zeros(&[1, 2, 8, 4], DType::BF16);
    match cache.append(&src, CacheEvent::Allocated(buffer)).unwrap() {
        CacheAction::Launch(launch) => assert_eq!(launch.target, Target::Fixed { offset: 0 }),
        action => panic!("{action:?}"),
    }
    assert_eq!(cache.current_seq_len(), 0);
    assert_eq!(cache.append(&src, CacheEvent::Launched), Ok(CacheAction::Done));
    assert_eq!(cache.current_seq_len(), 1);
    match cache.append(&src, CacheEvent::Start).unwrap() {
        CacheAction::Launch(launch) => assert_eq!(launch.target, Target::Fixed { offset: 4 }),
        action => panic!("{action:?}"),
    }
}

#[test]
fn an_allocation_knows_what_meets_it() {
    let mut host = Host::new();
    let request = Allocation { dims: vec![2, 3], dtype: DType::F32, location: GPU };
    assert!(request.met_by(&host.zeros(&[2, 3], DType::F32)));
    assert!(!request.met_by(&host.zeros(&[3, 2], DType::F32)));
    assert!(!request.met_by(&host.zeros(&[2, 3], DType::F16)));
    assert!(!request.met_by(&host.zeros(&[2, 4], DType::F32).narrow(1, 0, 3).unwrap()));
}

#[test]
fn a_full_cache_takes_no_more() {
    let mut host = Host::new();
    let mut cache = Cache::new(0, 3);
    let two = host.f32s(&[2, 1], &[1., 2.]);
    host.append(&mut cache, &two).unwrap();
    assert_eq!(
        host.append(&mut cache, &two),
        Err(GraphError::AboveMaxSeqLen { current: 2, seq_len: 2, max: 3 })
    );
    assert_eq!(cache.current_seq_len(), 2);
    let one = host.f32s(&[1, 1], &[3.]);
    host.append(&mut cache, &one).unwrap();
    let data = cache.current_data().unwrap().unwrap();
    assert_eq!(host.read_f32(&data), [1., 2., 3.]);
}

#[test]
fn a_refused_first_append_leaves_the_buffer() {
    let mut host = Host::new();
    let mut cache = Cache::new(0, 1);
    let two = host.f32s(&[2, 1], &[1., 2.]);
    assert_eq!(
        host.append(&mut cache, &two),
        Err(GraphError::AboveMaxSeqLen { current: 0, seq_len: 2, max: 1 })
    );
    assert_eq!(cache.all_data().as_ref().unwrap().dims().as_slice(), [1, 1]);
}

#[test]
fn appending_needs_the_dimension() {
    let mut host = Host::new();
    let mut cache = Cache::new(2, 3);
    let flat = host.f32s(&[2, 1], &[1., 2.]);
    assert_eq!(
        host.append(&mut cache, &flat),
        Err(GraphError::DimOutOfRange { shape: vec![2, 1], dim: 2, op: Op::Dim })
    );
    assert!(cache.all_data().is_none());
}

#[test]
fn appending_no_elements_launches_nothing() {
    let mut host = Host::new();
    let mut cache = Cache::new(1, 3);
    let none = host.zeros(&[0, 2], DType::F32);
    host.append(&mut cache, &none).unwrap();
    assert_eq!(cache.current_seq_len(), 2);
}

#[test]
fn reset_lets_go_of_the_buffer() {
    let mut host = Host::new();
    let mut cache = Cache::new(0, 3);
    let two = host.f32s(&[2, 1], &[1., 2.]);
    host.append(&mut cache, &two).unwrap();
    let kept = cache.clone();
    cache.reset();
    assert_eq!(cache.current_seq_len(), 0);
    assert!(cache.all_data().is_none());
    assert_eq!((cache.dim(), cache.max_seq_len()), (0, 3));
    assert_eq!(kept.current_seq_len(), 2);
    assert!(kept.all_data().is_some());
}

#[test]
fn a_reserved_cache_allocates_no_more() {
    let mut host = Host::new();
    let mut cache = Cache::new(0, 3);
    let x = host.f32s(&[1, 2], &[1., 2.]);
    let position = host.u32s(&[0]);
    let request = match cache.reserve(&x, CacheEvent::Start) {
        CacheAction::Allocate(request) => request,
        action => panic!("{action:?}"),
    };
    let buffer = host.allocate(&request);
    assert_eq!(cache.reserve(&x, CacheEvent::Allocated(buffer)), CacheAction::Done);
    assert_eq!(cache.reserve(&x, CacheEvent::Start), CacheAction::Done);
    assert!(matches!(cache.append(&x, CacheEvent::Start), Ok(CacheAction::Launch(_))));
    assert!(matches!(
        cache.append_at(&x, &position, CacheEvent::Start),
        Ok(CacheAction::Launch(_))
    ));
}

#[test]
fn append_at_goes_where_the_position_says() {
    let mut host = Host::new();
    let mut cache = Cache::new(0, 4);
    let x = host.f32s(&[1, 2], &[7., 8.]);
    let position = host.u32s(&[2]);
    host.append_at(&mut cache, &x, &position).unwrap();
    assert_eq!(cache.current_seq_len(), 0);
    let all = cache.all_data().as_ref().unwrap();
    assert_eq!(host.read_f32(all), [0., 0., 0., 0., 7., 8., 0., 0.]);
    let past_the_end = host.u32s(&[4]);
    host.append_at(&mut cache, &x, &past_the_end).unwrap();
    let all = cache.all_data().as_ref().unwrap();
    assert_eq!(host.read_f32(all), [0., 0., 0., 0., 7., 8., 0., 0.]);
}

#[test]
fn append_at_refuses_what_slices_refuse() {
    let mut host = Host::new();
    let mut cache = Cache::new(0, 4);
    let x = host.f32s(&[5, 1], &[1., 2., 3., 4., 5.]);
    let position = host.u32s(&[0]);
    assert_eq!(
        host.append_at(&mut cache, &x, &position),
        Err(GraphError::TargetDimMismatch { dst: 4, src: 5, offset: 0, op: Op::SliceSetAt })
    );
}

#[test]
fn keys_and_values_are_appended_together() {
    let mut host = Host::new();
    let mut cache = KvCache::new(1, 4);
    assert_eq!(cache.k(), Ok(None));
    assert_eq!(cache.v(), Ok(None));
    for step in 0..3 {
        let value = step as f32 + 1.;
        let k = host.full(&[2, 1, 1], value);
        let v = host.full(&[2, 1, 1], -value);
        let (k, v) = host.append_both(&mut cache, &k, &v).unwrap();
        assert_eq!(k.dims().as_slice(), [2, step + 1, 1]);
        assert_eq!(v.dims().as_slice(), [2, step + 1, 1]);
        assert_eq!(cache.current_seq_len(), step + 1);
    }
    let k = cache.k().unwrap().unwrap();
    let v = cache.v().unwrap().unwrap();
    assert_eq!(host.read_f32(&k), [1., 2., 3., 1., 2., 3.]);
    assert_eq!(host.read_f32(&v), [-1., -2., -3., -1., -2., -3.]);
    cache.reset();
    assert_eq!(cache.current_seq_len(), 0);
    assert!(cache.k_cache().all_data().is_none());
    assert!(cache.v_cache().all_data().is_none());
}

#[test]
fn refused_values_leave_the_keys_appended() {
    let mut host = Host::new();
    let mut cache = KvCache::new(0, 4);
    let k = host.full(&[1, 1], 1.);
    let v = host.full(&[5, 1], 1.);
    assert_eq!(
        host.append_both(&mut cache, &k, &v),
        Err(GraphError::AboveMaxSeqLen { current: 0, seq_len: 5, max: 4 })
    );
    assert_eq!(cache.k_cache().current_seq_len(), 1);
    assert_eq!(cache.v_cache().current_seq_len(), 0);
}

#[test]
fn refused_keys_leave_the_values_alone() {
    let mut host = Host::new();
    let mut cache = KvCache::new(0, 4);
    let k = host.full(&[5, 1], 1.);
    let v = host.full(&[1, 1], 1.);
    assert!(host.append_both(&mut cache, &k, &v).is_err());
    assert!(cache.v_cache().all_data().is_none());
}

#[test]
fn each_cache_can_be_changed_alone() {
    let mut host = Host::new();
    let mut cache = KvCache::new(0, 4);
    let x = host.full(&[1, 1], 1.);
    host.append_both(&mut cache, &x, &x).unwrap();
    cache.v_cache_mut().reset();
    assert_eq!(cache.v_cache().current_seq_len(), 0);
    assert_eq!(cache.k_cache().current_seq_len(), 1);
    host.append(cache.k_cache_mut(), &x).unwrap();
    assert_eq!(cache.clone().current_seq_len(), 2);
}

#[test]
fn keys_and_values_are_written_at_a_position() {
    let mut host = Host::new();
    let mut cache = KvCache::new(0, 3);
    let k = host.full(&[1, 1], 5.);
    let v = host.full(&[1, 1], 6.);
    let position = host.u32s(&[1]);
    host.reserve_both(&mut cache, &k, &v);
    assert_eq!(cache.reserve(&k, &v, Half::K, CacheEvent::Start), KvAction::Done);
    host.append_both_at(&mut cache, &k, &v, &position).unwrap();
    assert_eq!(host.read_f32(cache.k_cache().all_data().as_ref().unwrap()), [0., 5., 0.]);
    assert_eq!(host.read_f32(cache.v_cache().all_data().as_ref().unwrap()), [0., 6., 0.]);
    assert_eq!(cache.current_seq_len(), 0);
}

#[test]
fn chunks_do_not_matter() {
    let mut host = Host::new();
    let values: Vec<f32> = (1..=6).map(|v| v as f32).collect();
    let mut read = Vec::new();
    for chunks in [vec![6], vec![1, 2, 3], vec![2, 0, 4], vec![1, 1, 1, 1, 1, 1]] {
        let mut cache = Cache::new(0, 8);
        let mut start = 0;
        for len in chunks {
            let part = host.f32s(&[len, 1], &values[start..start + len]);
            assert!(!matches!(cache.append(&part, CacheEvent::Start), Err(_)));
            host.append(&mut cache, &part).unwrap();
            start += len;
        }
        assert_eq!(cache.current_seq_len(), 6);
        assert_eq!(host.read_f32(&cache.current_data().unwrap().unwrap()), values);
        read.push(host.read_f32(cache.all_data().as_ref().unwrap()));
    }
    for all in read {
        assert_eq!(all, [1., 2., 3., 4., 5., 6., 0., 0.]);
    }
}

#[test]
fn append_at_the_filled_length_matches_append() {
    let mut host = Host::new();
    let (mut a, mut b) = (Cache::new(1, 5), Cache::new(1, 5));
    let first = host.f32s(&[2, 2], &[1., 2., 3., 4.]);
    let second = host.f32s(&[2, 1], &[5., 6.]);
    for src in [first, second] {
        let position = host.u32s(&[a.current_seq_len() as u32]);
        host.append(&mut a, &src).unwrap();
        host.append_at(&mut b, &src, &position).unwrap();
        let (t, u) = (a.all_data().as_ref().unwrap(), b.all_data().as_ref().unwrap());
        assert_eq!(t.dims(), u.dims());
        assert_eq!(t.dtype(), u.dtype());
        assert_eq!(host.read_f32(t), host.read_f32(u));
    }
    assert_eq!(a.current_seq_len(), 3);
    assert_eq!(b.current_seq_len(), 0);
}

#[test]
fn values_without_elements_are_appended_too() {
    let mut host = Host::new();
    let mut cache = KvCache::new(0, 4);
    let k = host.full(&[1, 2], 1.);
    let v = host.zeros(&[1, 0], DType::F32);
    let (out_k, out_v) = host.append_both(&mut cache, &k, &v).unwrap();
    assert_eq!(host.read_f32(&out_k), [1., 1.]);
    assert_eq!(out_v.dims().as_slice(), [1, 0]);
    assert_eq!(cache.v_cache().current_seq_len(), 1);
}

#[test]
fn what_a_kernel_cannot_count_is_not_appended() {
    let big = 1usize << 32;
    let storage = Storage { ptr: 1 << 50, len: big, dtype: DType::U8 };
    let src = Tensor::new(storage, vec![big], vec![1], 0, GPU).unwrap();
    let mut cache = Cache::new(0, big);
    assert!(matches!(cache.append(&src, CacheEvent::Start), Ok(CacheAction::Allocate(_))));
    let storage = Storage { ptr: 1 << 51, len: big, dtype: DType::U8 };
    let buffer = Tensor::new(storage, vec![big], vec![1], 0, GPU).unwrap();
    assert_eq!(
        cache.append(&src, CacheEvent::Allocated(buffer)),
        Err(GraphError::KernelSizes { d1: 1, d2: big, src_s: big, dst_s: big })
    );
    assert_eq!(cache.current_seq_len(), 0);
}

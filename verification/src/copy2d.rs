//! Launches of the copy kernels: a block of rows is copied from one storage into another.

use vstd::prelude::*;

use crate::dtype::DType;
use crate::error::{viewed, ErrorView, GraphError};
use crate::node::KernelLaunchParams;
use crate::tensor::Storage;

verus! {

/// The first argument of every copy kernel, by which its nodes are told apart in a captured
/// graph. A random number.
pub const COPY2D_FINGERPRINT: u64 = 7472013941709904021;

/// The threads of one block.
pub const BLOCK_THREADS: u32 = 1024;

/// Calls `cudarc`'s `LaunchConfig::for_num_elems`: blocks of 1024 threads in one row, as many as
/// give every element a thread, without shared memory.
#[verifier::external_body]
fn cudarc_config_for_num_elems(n: u32) -> (r: KernelLaunchParams)
    ensures
        r == config_for(n),
{
    let config = cudarc::driver::LaunchConfig::for_num_elems(n);
    KernelLaunchParams {
        grid_dim_x: config.grid_dim.0,
        grid_dim_y: config.grid_dim.1,
        grid_dim_z: config.grid_dim.2,
        block_dim_x: config.block_dim.0,
        block_dim_y: config.block_dim.1,
        block_dim_z: config.block_dim.2,
        shared_mem_bytes: config.shared_mem_bytes,
    }
}

/// One thread for each of `n` elements, in blocks of [`BLOCK_THREADS`].
pub open spec fn config_for(n: u32) -> KernelLaunchParams {
    KernelLaunchParams {
        grid_dim_x: ((n + BLOCK_THREADS - 1) / BLOCK_THREADS as int) as u32,
        grid_dim_y: 1,
        grid_dim_z: 1,
        block_dim_x: BLOCK_THREADS,
        block_dim_y: 1,
        block_dim_z: 1,
        shared_mem_bytes: 0,
    }
}

/// Where the first row goes, in elements from the start of the destination storage.
#[derive(Debug, Clone, Copy, PartialEq, Eq, Structural, Hash)]
pub enum Target {
    /// At an offset that is part of the launch.
    Fixed { offset: usize },
    /// `stride` elements after `base` for each unit of the `U32` that lies at `position_ptr` when
    /// the kernel runs. Where that is above `position_max`, nothing is copied. The kernel computes
    /// the place in 32 bits.
    AtPosition { base: u32, stride: u32, position_ptr: u64, position_max: u32 },
}

/// A launch of a copy kernel: `d1` rows of `d2` elements each. The rows start `src_s` elements
/// apart in the source and `dst_s` elements apart in the destination.
#[derive(Debug, Clone, Copy, PartialEq, Eq, Structural, Hash)]
pub struct Copy2d {
    pub fingerprint: u64,
    pub config: KernelLaunchParams,
    pub dtype: DType,
    pub src: u64,
    pub dst: u64,
    pub d1: u32,
    pub d2: u32,
    pub src_o: usize,
    pub src_s: u32,
    pub dst_s: u32,
    pub target: Target,
}

impl Copy2d {
    /// The name of the kernel to launch.
    pub open spec fn spec_kernel_name(&self) -> &'static str {
        match (self.target, self.dtype) {
            (Target::Fixed { .. }, DType::U8) => "copy2d_u8",
            (Target::Fixed { .. }, DType::U32) => "copy2d_u32",
            (Target::Fixed { .. }, DType::I64) => "copy2d_i64",
            (Target::Fixed { .. }, DType::BF16) => "copy2d_bf16",
            (Target::Fixed { .. }, DType::F16) => "copy2d_f16",
            (Target::Fixed { .. }, DType::F32) => "copy2d_f32",
            (Target::Fixed { .. }, DType::F64) => "copy2d_f64",
            (Target::AtPosition { .. }, DType::U8) => "copy2d_dynoffset_u8",
            (Target::AtPosition { .. }, DType::U32) => "copy2d_dynoffset_u32",
            (Target::AtPosition { .. }, DType::I64) => "copy2d_dynoffset_i64",
            (Target::AtPosition { .. }, DType::BF16) => "copy2d_dynoffset_bf16",
            (Target::AtPosition { .. }, DType::F16) => "copy2d_dynoffset_f16",
            (Target::AtPosition { .. }, DType::F32) => "copy2d_dynoffset_f32",
            (Target::AtPosition { .. }, DType::F64) => "copy2d_dynoffset_f64",
        }
    }

    /// The name of the kernel to launch.
    pub fn kernel_name(&self) -> (name: &'static str)
        ensures
            name@ == self.spec_kernel_name()@,
    {
        match self.target {
            Target::Fixed { .. } => match self.dtype {
                DType::U8 => "copy2d_u8",
                DType::U32 => "copy2d_u32",
                DType::I64 => "copy2d_i64",
                DType::BF16 => "copy2d_bf16",
                DType::F16 => "copy2d_f16",
                DType::F32 => "copy2d_f32",
                DType::F64 => "copy2d_f64",
            },
            Target::AtPosition { .. } => match self.dtype {
                DType::U8 => "copy2d_dynoffset_u8",
                DType::U32 => "copy2d_dynoffset_u32",
                DType::I64 => "copy2d_dynoffset_i64",
                DType::BF16 => "copy2d_dynoffset_bf16",
                DType::F16 => "copy2d_dynoffset_f16",
                DType::F32 => "copy2d_dynoffset_f32",
                DType::F64 => "copy2d_dynoffset_f64",
            },
        }
    }
}

/// Whether a copy kernel can be told these sizes: it takes them in 32 bits, and counts its elements
/// in 32 bits. The distance between rows does not matter where there is only one.
pub open spec fn sizes_fit(d1: usize, d2: usize, src_s: usize, dst_s: usize) -> bool {
    &&& d1 <= u32::MAX
    &&& d2 <= u32::MAX
    &&& d1 * d2 <= u32::MAX
    &&& d1 > 1 ==> src_s <= u32::MAX && dst_s <= u32::MAX
}

/// Whether a copy kernel can be told where the slots lie: it takes their start and their distance
/// in 32 bits.
pub open spec fn offsets_fit(base: usize, stride: usize) -> bool {
    base <= u32::MAX && stride <= u32::MAX
}

/// The largest position, as a copy kernel is told it. A position has 32 bits, so a bound beyond
/// these is none.
pub open spec fn position_bound(position_max: usize) -> u32 {
    if position_max <= u32::MAX {
        position_max as u32
    } else {
        u32::MAX
    }
}

/// What copying `d1` rows of `d2` elements to a fixed offset comes to: nothing at all where there
/// is nothing to copy, else a launch between storages of one element type, if the kernel can be
/// told the sizes.
pub open spec fn copy2d_outcome(
    src: Storage,
    dst: Storage,
    d1: usize,
    d2: usize,
    src_s: usize,
    dst_s: usize,
    src_o: usize,
    dst_o: usize,
) -> Result<Option<Copy2d>, ErrorView> {
    if d1 == 0 || d2 == 0 {
        Ok(None)
    } else if src.dtype != dst.dtype {
        Err(ErrorView::Copy2dDType { dynamic: false })
    } else if !sizes_fit(d1, d2, src_s, dst_s) {
        Err(ErrorView::KernelSizes { d1, d2, src_s, dst_s })
    } else {
        Ok(
            Some(
                Copy2d {
                    fingerprint: COPY2D_FINGERPRINT,
                    config: config_for((d1 * d2) as u32),
                    dtype: src.dtype,
                    src: src.ptr,
                    dst: dst.ptr,
                    d1: d1 as u32,
                    d2: d2 as u32,
                    src_o,
                    src_s: src_s as u32,
                    dst_s: dst_s as u32,
                    target: Target::Fixed { offset: dst_o },
                },
            ),
        )
    }
}

/// As [`copy2d_outcome`], with the offset in the destination computed on the device from the
/// element at `position_o` of `position`, which has to hold `U32` elements.
pub open spec fn copy2d_dynoffset_outcome(
    src: Storage,
    dst: Storage,
    d1: usize,
    d2: usize,
    src_s: usize,
    dst_s: usize,
    src_o: usize,
    dst_o_base: usize,
    dst_o_stride: usize,
    position: Storage,
    position_o: usize,
    position_max: usize,
) -> Result<Option<Copy2d>, ErrorView> {
    if d1 == 0 || d2 == 0 {
        Ok(None)
    } else if position.dtype != DType::U32 {
        Err(ErrorView::PositionStorageDType)
    } else if src.dtype != dst.dtype {
        Err(ErrorView::Copy2dDType { dynamic: true })
    } else if !sizes_fit(d1, d2, src_s, dst_s) {
        Err(ErrorView::KernelSizes { d1, d2, src_s, dst_s })
    } else if !offsets_fit(dst_o_base, dst_o_stride) {
        Err(ErrorView::KernelOffsets { base: dst_o_base, stride: dst_o_stride })
    } else {
        Ok(
            Some(
                Copy2d {
                    fingerprint: COPY2D_FINGERPRINT,
                    config: config_for((d1 * d2) as u32),
                    dtype: src.dtype,
                    src: src.ptr,
                    dst: dst.ptr,
                    d1: d1 as u32,
                    d2: d2 as u32,
                    src_o,
                    src_s: src_s as u32,
                    dst_s: dst_s as u32,
                    target: Target::AtPosition {
                        base: dst_o_base as u32,
                        stride: dst_o_stride as u32,
                        position_ptr: position.address(position_o as int) as u64,
                        position_max: position_bound(position_max),
                    },
                },
            ),
        )
    }
}

fn check_sizes(d1: usize, d2: usize, src_s: usize, dst_s: usize) -> (r: bool)
    ensures
        r == sizes_fit(d1, d2, src_s, dst_s),
{
    let max: u64 = u32::MAX as u64;
    if d1 as u64 > max || d2 as u64 > max {
        return false;
    }
    proof {
        let (a, b): (int, int) = (d1 as int, d2 as int);
        assert(0 <= a * b <= u32::MAX * u32::MAX) by (nonlinear_arith)
            requires
                0 <= a <= u32::MAX,
                0 <= b <= u32::MAX,
        ;
    }
    d1 as u64 * d2 as u64 <= max && (d1 <= 1 || (src_s as u64 <= max && dst_s as u64 <= max))
}

/// Prepares the copy of `d1` rows of `d2` elements from `src` to `dst`.
pub fn copy2d_fingerprinted(
    src: &Storage,
    dst: &Storage,
    d1: usize,
    d2: usize,
    src_s: usize,
    dst_s: usize,
    src_o: usize,
    dst_o: usize,
) -> (r: Result<Option<Copy2d>, GraphError>)
    ensures
        viewed(r) == copy2d_outcome(*src, *dst, d1, d2, src_s, dst_s, src_o, dst_o),
        r matches Ok(Some(launch)) ==> d1 * d2 <= launch.threads(),
{
    // Nothing to copy, so no kernel is launched: its pointers might not even be valid.
    if d1 == 0 || d2 == 0 {
        return Ok(None);
    }
    if src.dtype != dst.dtype {
        return Err(GraphError::Copy2dDType { dynamic: false });
    }
    if !check_sizes(d1, d2, src_s, dst_s) {
        return Err(GraphError::KernelSizes { d1, d2, src_s, dst_s });
    }
    Ok(
        Some(
            Copy2d {
                fingerprint: COPY2D_FINGERPRINT,
                config: cudarc_config_for_num_elems(d1 as u32 * d2 as u32),
                dtype: src.dtype,
                src: src.ptr,
                dst: dst.ptr,
                d1: d1 as u32,
                d2: d2 as u32,
                src_o,
                src_s: src_s as u32,
                dst_s: dst_s as u32,
                target: Target::Fixed { offset: dst_o },
            },
        ),
    )
}

/// Prepares the copy of `d1` rows of `d2` elements from `src` to `dst`, to a place that is read
/// from `position` when the kernel runs.
pub fn copy2d_fingerprinted_dynoffset(
    src: &Storage,
    dst: &Storage,
    d1: usize,
    d2: usize,
    src_s: usize,
    dst_s: usize,
    src_o: usize,
    dst_o_base: usize,
    dst_o_stride: usize,
    position: &Storage,
    position_o: usize,
    position_max: usize,
) -> (r: Result<Option<Copy2d>, GraphError>)
    requires
        position.wf(),
        position_o < position.len,
    ensures
        viewed(r) == copy2d_dynoffset_outcome(
            *src,
            *dst,
            d1,
            d2,
            src_s,
            dst_s,
            src_o,
            dst_o_base,
            dst_o_stride,
            *position,
            position_o,
            position_max,
        ),
        r matches Ok(Some(launch)) ==> d1 * d2 <= launch.threads(),
{
    // Nothing to copy, so no kernel is launched: its pointers might not even be valid.
    if d1 == 0 || d2 == 0 {
        return Ok(None);
    }
    if position.dtype != DType::U32 {
        return Err(GraphError::PositionStorageDType);
    }
    if src.dtype != dst.dtype {
        return Err(GraphError::Copy2dDType { dynamic: true });
    }
    if !check_sizes(d1, d2, src_s, dst_s) {
        return Err(GraphError::KernelSizes { d1, d2, src_s, dst_s });
    }
    let max: u64 = u32::MAX as u64;
    if dst_o_base as u64 > max || dst_o_stride as u64 > max {
        return Err(GraphError::KernelOffsets { base: dst_o_base, stride: dst_o_stride });
    }
    let bound: u32 = if position_max as u64 <= max {
        position_max as u32
    } else {
        u32::MAX
    };
    proof {
        let (n, o, size): (int, int, int) = (
            position.len as int,
            position_o as int,
            position.dtype.size_in_bytes() as int,
        );
        assert(0 <= o * 4 && o * 4 == o * size <= n * size) by (nonlinear_arith)
            requires
                0 <= o <= n,
                size == 4,
        ;
    }
    // The kernel gets the address of the one element that it reads: the storage may hold many
    // positions, of which `position_o` is the one meant.
    let position_ptr: u64 = position.ptr + (position_o * 4) as u64;
    Ok(
        Some(
            Copy2d {
                fingerprint: COPY2D_FINGERPRINT,
                config: cudarc_config_for_num_elems(d1 as u32 * d2 as u32),
                dtype: src.dtype,
                src: src.ptr,
                dst: dst.ptr,
                d1: d1 as u32,
                d2: d2 as u32,
                src_o,
                src_s: src_s as u32,
                dst_s: dst_s as u32,
                target: Target::AtPosition {
                    base: dst_o_base as u32,
                    stride: dst_o_stride as u32,
                    position_ptr,
                    position_max: bound,
                },
            },
        ),
    )
}

} // verus!

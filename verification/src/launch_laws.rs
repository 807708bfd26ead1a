//! Which launches of the copy kernels are prepared, and what is said where none is.

use vstd::prelude::*;

use crate::copy2d::{copy2d_dynoffset_outcome, copy2d_outcome, Copy2d};
use crate::dtype::DType;
use crate::error::{ErrorView, Op};
use crate::extension::{block_size, first_mismatch, first_other_mismatch, lemma_no_mismatch};
use crate::extension::{lemma_one_element, row_count, row_len, slice_set_at_error, slice_set_at_outcome};
use crate::extension::{slice_set_error, slice_set_outcome};
use crate::memory::Cells;
use crate::node::KernelLaunchParams;
use crate::slice_laws::{kernel_holds, lemma_address_fits, lemma_sizes, position_value};
use crate::slice_laws::{lemma_slice_at_checks, lemma_slice_checks};
use crate::tensor::{Storage, TensorView};

verus! {

/// A row of blocks, none of them idle, that together start at least one thread for each of `n`
/// elements.
pub open spec fn just_enough_threads(config: KernelLaunchParams, n: int) -> bool {
    &&& n <= config.grid_dim_x * config.block_dim_x
    &&& (config.grid_dim_x - 1) * config.block_dim_x < n
    &&& 1 <= config.block_dim_x <= 1024
    &&& config.grid_dim_y == 1 && config.grid_dim_z == 1
    &&& config.block_dim_y == 1 && config.block_dim_z == 1
    &&& config.shared_mem_bytes == 0
}

/// A copy to a fixed offset is prepared exactly where there is nothing to copy, or where the two
/// storages hold elements of one type and the kernel can count them in 32 bits, and the rows apart
/// if there are several. A kernel is launched exactly if there is something to copy: the one for
/// that element type and for fixed offsets, with the fingerprint and a thread for each element.
pub proof fn law_copy2d_accepts(
    src: Storage,
    dst: Storage,
    d1: usize,
    d2: usize,
    src_s: usize,
    dst_s: usize,
    src_o: usize,
    dst_o: usize,
)
    ensures
        ({
            let outcome = copy2d_outcome(src, dst, d1, d2, src_s, dst_s, src_o, dst_o);
            &&& outcome is Ok <==> d1 * d2 == 0 || {
                &&& src.dtype == dst.dtype
                &&& d1 * d2 <= u32::MAX
                &&& d1 > 1 ==> src_s <= u32::MAX && dst_s <= u32::MAX
            }
            &&& outcome matches Ok(launch) ==> (launch is None <==> d1 * d2 == 0)
            &&& outcome matches Ok(Some(launch)) ==> {
                &&& just_enough_threads(launch.config, d1 * d2)
                &&& launch.fingerprint == 7472013941709904021
                &&& launch.dtype == src.dtype
                &&& launch.target is Fixed
            }
        }),
{
    lemma_counts(d1 as int, d2 as int);
}

/// A copy to a place that is read on the device is prepared exactly where the copy to a fixed
/// offset is, the position is a `U32`, and the slots begin and lie apart by numbers of 32 bits. A
/// kernel is launched exactly if there is something to copy: the one for that element type that
/// reads a position, with the fingerprint and a thread for each element.
pub proof fn law_copy2d_dynoffset_accepts(
    src: Storage,
    dst: Storage,
    d1: usize,
    d2: usize,
    src_s: usize,
    dst_s: usize,
    src_o: usize,
    dst_o_base: usize,
    dst_o_stride: usize,
    position: Storage,
    position_o: usize,
    position_max: usize,
)
    ensures
        ({
            let outcome = copy2d_dynoffset_outcome(
                src,
                dst,
                d1,
                d2,
                src_s,
                dst_s,
                src_o,
                dst_o_base,
                dst_o_stride,
                position,
                position_o,
                position_max,
            );
            &&& outcome is Ok <==> d1 * d2 == 0 || {
                &&& position.dtype == DType::U32
                &&& src.dtype == dst.dtype
                &&& d1 * d2 <= u32::MAX
                &&& d1 > 1 ==> src_s <= u32::MAX && dst_s <= u32::MAX
                &&& dst_o_base <= u32::MAX
                &&& dst_o_stride <= u32::MAX
            }
            &&& outcome matches Ok(launch) ==> (launch is None <==> d1 * d2 == 0)
            &&& outcome matches Ok(Some(launch)) ==> {
                &&& just_enough_threads(launch.config, d1 * d2)
                &&& launch.fingerprint == 7472013941709904021
                &&& launch.dtype == src.dtype
                &&& launch.target is AtPosition
            }
        }),
{
    lemma_counts(d1 as int, d2 as int);
}

proof fn lemma_counts(d1: int, d2: int)
    requires
        0 <= d1,
        0 <= d2,
    ensures
        d1 * d2 == 0 <==> d1 == 0 || d2 == 0,
        d1 != 0 && d2 != 0 ==> d1 <= d1 * d2 && d2 <= d1 * d2,
{
    assert(d1 * d2 == 0 <==> d1 == 0 || d2 == 0) by (nonlinear_arith);
    if d1 != 0 && d2 != 0 {
        assert(d1 <= d1 * d2 && d2 <= d1 * d2) by (nonlinear_arith)
            requires
                1 <= d1,
                1 <= d2,
        ;
    }
}

/// A launch to a fixed offset copies element `j` of row `i`, for every row and every element, from
/// `src_o + i * src_s + j` in the source to `dst_o + i * dst_s + j` in the destination.
pub proof fn law_copy2d_moves(
    src: Storage,
    dst: Storage,
    d1: usize,
    d2: usize,
    src_s: usize,
    dst_s: usize,
    src_o: usize,
    dst_o: usize,
    launch: Copy2d,
    cells: Cells,
    i: int,
    j: int,
)
    requires
        copy2d_outcome(src, dst, d1, d2, src_s, dst_s, src_o, dst_o) == Ok::<_, ErrorView>(
            Some(launch),
        ),
    ensures
        launch.covers(i, j) <==> 0 <= i < d1 && 0 <= j < d2,
        launch.covers(i, j) ==> launch.src_cell(i, j) == src.address(src_o + i * src_s + j),
        launch.covers(i, j) ==> launch.dst_cell(cells, i, j) == dst.address(
            dst_o + i * dst_s + j,
        ),
        !launch.skips(cells),
        launch.reaches(cells),
{
    lemma_covers(launch, d1 as int, d2 as int, src_s as int, dst_s as int, i, j);
}

/// A launch to a place that is read on the device drops the copy exactly if the position is above
/// the largest one. Else it copies element `j` of row `i`, for every row and every element, from
/// `src_o + i * src_s + j` in the source to `i * dst_s + j` after the place that lies `dst_o_stride`
/// elements after `dst_o_base` for each unit of the position.
pub proof fn law_copy2d_dynoffset_moves(
    src: Storage,
    dst: Storage,
    d1: usize,
    d2: usize,
    src_s: usize,
    dst_s: usize,
    src_o: usize,
    dst_o_base: usize,
    dst_o_stride: usize,
    position: Storage,
    position_o: usize,
    position_max: usize,
    launch: Copy2d,
    cells: Cells,
    i: int,
    j: int,
)
    requires
        position.wf(),
        position_o < position.len,
        cells[position.address(position_o as int) as u64] <= u32::MAX,
        copy2d_dynoffset_outcome(
            src,
            dst,
            d1,
            d2,
            src_s,
            dst_s,
            src_o,
            dst_o_base,
            dst_o_stride,
            position,
            position_o,
            position_max,
        ) == Ok::<_, ErrorView>(Some(launch)),
    ensures
        ({
            let p = cells[position.address(position_o as int) as u64];
            &&& launch.skips(cells) <==> p > position_max
            &&& launch.covers(i, j) <==> 0 <= i < d1 && 0 <= j < d2
            &&& launch.covers(i, j) ==> launch.src_cell(i, j) == src.address(
                src_o + i * src_s + j,
            )
            &&& launch.covers(i, j) ==> launch.dst_cell(cells, i, j) == dst.address(
                dst_o_base + p * dst_o_stride + i * dst_s + j,
            )
        }),
{
    lemma_address_fits(position, position_o as int);
    lemma_covers(launch, d1 as int, d2 as int, src_s as int, dst_s as int, i, j);
}

proof fn lemma_covers(
    launch: Copy2d,
    d1: int,
    d2: int,
    src_s: int,
    dst_s: int,
    i: int,
    j: int,
)
    requires
        launch.d1 == d1,
        launch.d2 == d2,
        d1 * d2 <= launch.config.grid_dim_x * launch.config.block_dim_x,
        d1 > 1 ==> launch.src_s == src_s && launch.dst_s == dst_s,
    ensures
        launch.covers(i, j) <==> 0 <= i < d1 && 0 <= j < d2,
        launch.covers(i, j) ==> i * launch.src_s == i * src_s && i * launch.dst_s == i * dst_s,
{
    if 0 <= i < d1 && 0 <= j < d2 {
        assert(i * d2 + j < d1 * d2) by (nonlinear_arith)
            requires
                0 <= i < d1,
                0 <= j < d2,
        ;
        if d1 <= 1 {
            let (a, b): (int, int) = (launch.src_s as int, launch.dst_s as int);
            assert(i * a == 0 && i * src_s == 0 && i * b == 0 && i * dst_s == 0)
                by (nonlinear_arith)
                requires
                    i == 0,
            ;
        }
    }
}

/// Every launch that writes a slice, at an offset or at a position, starts at least one thread for
/// each element of the source, in blocks none of which is idle.
pub proof fn law_slices_have_threads(
    dst: TensorView,
    src: TensorView,
    dim: usize,
    offset: usize,
    position: TensorView,
)
    requires
        dst.wf(),
        src.wf(),
    ensures
        slice_set_outcome(dst, src, dim, offset) matches Ok(Some(launch)) ==> just_enough_threads(
            launch.config,
            src.elem_count() as int,
        ),
        slice_set_at_outcome(dst, src, dim, offset, position) matches Ok(Some(launch))
            ==> just_enough_threads(launch.config, src.elem_count() as int),
{
    lemma_slice_checks(dst, src, dim, offset);
    lemma_slice_at_checks(dst, src, dim, offset, position);
    if slice_set_outcome(dst, src, dim, offset) is Ok || slice_set_at_outcome(
        dst,
        src,
        dim,
        offset,
        position,
    ) is Ok {
        lemma_sizes(dst, src, dim, offset);
    }
}

/// The name by which the kernels tell an element type.
pub open spec fn element_name(dtype: DType) -> &'static str {
    match dtype {
        DType::U8 => "u8",
        DType::U32 => "u32",
        DType::I64 => "i64",
        DType::BF16 => "bf16",
        DType::F16 => "f16",
        DType::F32 => "f32",
        DType::F64 => "f64",
    }
}

/// Which kernel is launched depends on the element type and on whether the offset is fixed, and on
/// nothing else: its name is made of these two.
pub proof fn law_kernel_names(launch: Copy2d)
    ensures
        launch.spec_kernel_name()@ == (if launch.target is Fixed {
            "copy2d_"@
        } else {
            "copy2d_dynoffset_"@
        }) + element_name(launch.dtype)@,
{
    reveal_strlit("copy2d_");
    reveal_strlit("copy2d_dynoffset_");
    reveal_strlit("u8");
    reveal_strlit("u32");
    reveal_strlit("i64");
    reveal_strlit("bf16");
    reveal_strlit("f16");
    reveal_strlit("f32");
    reveal_strlit("f64");
    reveal_strlit("copy2d_u8");
    reveal_strlit("copy2d_u32");
    reveal_strlit("copy2d_i64");
    reveal_strlit("copy2d_bf16");
    reveal_strlit("copy2d_f16");
    reveal_strlit("copy2d_f32");
    reveal_strlit("copy2d_f64");
    reveal_strlit("copy2d_dynoffset_u8");
    reveal_strlit("copy2d_dynoffset_u32");
    reveal_strlit("copy2d_dynoffset_i64");
    reveal_strlit("copy2d_dynoffset_bf16");
    reveal_strlit("copy2d_dynoffset_f16");
    reveal_strlit("copy2d_dynoffset_f32");
    reveal_strlit("copy2d_dynoffset_f64");
    let prefix: Seq<char> = if launch.target is Fixed {
        "copy2d_"@
    } else {
        "copy2d_dynoffset_"@
    };
    assert(launch.spec_kernel_name()@ =~= prefix + element_name(launch.dtype)@);
}

/// The sizes agree on every dimension before `n` but `dim`.
pub open spec fn agree_before(dst: Seq<usize>, src: Seq<usize>, dim: usize, n: int) -> bool {
    forall|k: int| 0 <= k < n && k != dim ==> #[trigger] dst[k] == src[k]
}

proof fn lemma_mismatch(dst: Seq<usize>, src: Seq<usize>, dim: usize, offset: usize, i: int)
    requires
        dst.len() == src.len() <= usize::MAX,
        0 <= i <= dst.len(),
        dim < dst.len(),
        agree_before(dst, src, dim, i),
    ensures
        match first_mismatch(dst, src, dim as int, offset, i) {
            None => true,
            Some(e) => match e {
                ErrorView::TargetDimMismatch { dst: a, src: b, offset: o, op } => {
                    &&& a == dst[dim as int] && b == src[dim as int] && o == offset
                    &&& b + o > a
                    &&& agree_before(dst, src, dim, dim as int)
                    &&& op == Op::SliceSet
                },
                ErrorView::DimMismatch { dim: k, dst: a, src: b } => {
                    &&& k != dim && k < dst.len()
                    &&& a == dst[k as int] && b == src[k as int]
                    &&& a != b
                    &&& agree_before(dst, src, dim, k as int)
                },
                _ => false,
            },
        },
        match first_other_mismatch(dst, src, dim as int, i) {
            None => true,
            Some(e) => match e {
                ErrorView::DimMismatch { dim: k, dst: a, src: b } => {
                    &&& k != dim && k < dst.len()
                    &&& a == dst[k as int] && b == src[k as int]
                    &&& a != b
                    &&& agree_before(dst, src, dim, k as int)
                },
                _ => false,
            },
        },
    decreases dst.len() - i,
{
    if i < dst.len() && (i == dim || dst[i] == src[i]) {
        lemma_mismatch(dst, src, dim, offset, i + 1);
    }
}

/// Where a slice at an offset is refused, what is said is true of the two tensors, and it is the
/// first thing that is wrong with them.
pub proof fn law_slice_set_refusals_are_true(
    dst: TensorView,
    src: TensorView,
    dim: usize,
    offset: usize,
)
    requires
        dst.wf(),
        src.wf(),
        dst.dims.len() <= usize::MAX,
        src.dims.len() <= usize::MAX,
    ensures
        slice_set_outcome(dst, src, dim, offset) matches Err(e) ==> match e {
            ErrorView::DimOutOfRange { shape, dim: d, op } => {
                &&& shape == dst.dims && d == dim && op == Op::SliceSet
                &&& dim >= dst.dims.len()
            },
            ErrorView::RequiresContiguous { op } => {
                &&& op == Op::SliceSet
                &&& dim < dst.dims.len()
                &&& !dst.is_contiguous() || !src.is_contiguous()
            },
            ErrorView::DTypeMismatchBinaryOp { lhs, rhs, op } => {
                &&& lhs == dst.dtype() && rhs == src.dtype() && op == Op::SliceSet
                &&& lhs != rhs
                &&& dim < dst.dims.len() && dst.is_contiguous() && src.is_contiguous()
            },
            ErrorView::DeviceMismatchBinaryOp { lhs, rhs, op } => {
                &&& lhs == dst.location && rhs == src.location
                &&& dst.is_contiguous() && src.is_contiguous() && dst.dtype() == src.dtype()
                &&& if lhs != rhs {
                    op == Op::SliceSet
                } else {
                    &&& op == Op::Copy2dCuda
                    &&& !(lhs is Cuda)
                    &&& dst.dims.len() == src.dims.len()
                    &&& agree_before(dst.dims, src.dims, dim, dst.dims.len() as int)
                    &&& offset + src.dims[dim as int] <= dst.dims[dim as int]
                }
            },
            ErrorView::UnexpectedNumberOfDims { expected, got, shape } => {
                &&& expected == dst.dims.len() && got == src.dims.len() && shape == dst.dims
                &&& expected != got
                &&& dst.location == src.location && dst.dtype() == src.dtype()
                &&& dst.is_contiguous() && src.is_contiguous()
            },
            ErrorView::TargetDimMismatch { dst: a, src: b, offset: o, op } => {
                &&& dim < dst.dims.len() == src.dims.len()
                &&& a == dst.dims[dim as int] && b == src.dims[dim as int] && o == offset
                &&& op == Op::SliceSet
                &&& b + o > a
                &&& dst.location == src.location && dst.dtype() == src.dtype()
                &&& dst.is_contiguous() && src.is_contiguous()
                &&& agree_before(dst.dims, src.dims, dim, dim as int)
            },
            ErrorView::DimMismatch { dim: k, dst: a, src: b } => {
                &&& dim < dst.dims.len() == src.dims.len()
                &&& k != dim && k < dst.dims.len()
                &&& a == dst.dims[k as int] && b == src.dims[k as int]
                &&& a != b
                &&& dst.location == src.location && dst.dtype() == src.dtype()
                &&& dst.is_contiguous() && src.is_contiguous()
                &&& agree_before(dst.dims, src.dims, dim, k as int)
            },
            ErrorView::KernelSizes { d1, d2, src_s, dst_s } => {
                &&& d1 == row_count(src, dim as int) && d2 == row_len(src, dim as int)
                &&& src_s == d2 && dst_s == row_len(dst, dim as int)
                &&& d1 * d2 > u32::MAX || (d1 > 1 && dst_s > u32::MAX)
                &&& dst.location == src.location && dst.location is Cuda
                &&& dst.dtype() == src.dtype()
                &&& dst.is_contiguous() && src.is_contiguous()
                &&& agree_before(dst.dims, src.dims, dim, dst.dims.len() as int)
                &&& offset + src.dims[dim as int] <= dst.dims[dim as int]
            },
            _ => false,
        },
{
    lemma_slice_checks(dst, src, dim, offset);
    if dst.dims.len() == src.dims.len() && dim < dst.dims.len() {
        lemma_mismatch(dst.dims, src.dims, dim, offset, 0);
        lemma_no_mismatch(dst.dims, src.dims, dim as int, offset, 0);
        if first_mismatch(dst.dims, src.dims, dim as int, offset, 0) is None {
            assert(agree_before(dst.dims, src.dims, dim, dst.dims.len() as int)) by {
                assert forall|k: int| 0 <= k < dst.dims.len() && k != dim implies #[trigger] dst.dims[k]
                    == src.dims[k] by {
                    assert(dst.dims[k] == src.dims[k] || k == dim);
                }
            }
        }
    }
    if slice_set_error(dst, src, dim, offset) is None {
        lemma_sizes(dst, src, dim, offset);
        lemma_counts(row_count(src, dim as int), row_len(src, dim as int));
    }
}

/// Where a slice at a position is refused, what is said is true of the tensors, and it is the first
/// thing that is wrong with them.
pub proof fn law_slice_set_at_refusals_are_true(
    dst: TensorView,
    src: TensorView,
    dim: usize,
    offset: usize,
    position: TensorView,
)
    requires
        dst.wf(),
        src.wf(),
        dst.dims.len() <= usize::MAX,
        src.dims.len() <= usize::MAX,
    ensures
        slice_set_at_outcome(dst, src, dim, offset, position) matches Err(e) ==> match e {
            ErrorView::DimOutOfRange { shape, dim: d, op } => {
                &&& shape == dst.dims && d == dim && op == Op::SliceSetAt
                &&& dim >= dst.dims.len()
            },
            ErrorView::RequiresContiguous { op } => {
                &&& op == Op::SliceSetAt
                &&& dim < dst.dims.len()
                &&& dst.is_contiguous() && src.is_contiguous() ==> {
                    &&& !position.is_contiguous()
                    &&& position.elem_count() == 1 && position.dtype() == DType::U32
                    &&& dst.dims.len() == src.dims.len()
                    &&& dst.location == src.location && dst.location == position.location
                    &&& dst.dtype() == src.dtype()
                }
            },
            ErrorView::DTypeMismatchBinaryOp { lhs, rhs, op } => {
                &&& lhs == dst.dtype() && rhs == src.dtype() && op == Op::SliceSetAt
                &&& lhs != rhs
                &&& dim < dst.dims.len() && dst.is_contiguous() && src.is_contiguous()
            },
            ErrorView::DeviceMismatchBinaryOp { lhs, rhs, op } => {
                &&& lhs == dst.location && rhs == src.location
                &&& dst.is_contiguous() && src.is_contiguous() && dst.dtype() == src.dtype()
                &&& if lhs != rhs || lhs != position.location {
                    op == Op::SliceSetAt
                } else {
                    &&& op == Op::Copy2dCuda
                    &&& !(lhs is Cuda)
                    &&& dst.dims.len() == src.dims.len()
                    &&& agree_before(dst.dims, src.dims, dim, dst.dims.len() as int)
                    &&& offset + src.dims[dim as int] <= dst.dims[dim as int]
                    &&& position.elem_count() == 1 && position.dtype() == DType::U32
                    &&& position.is_contiguous()
                }
            },
            ErrorView::UnexpectedNumberOfDims { expected, got, shape } => {
                &&& expected == dst.dims.len() && got == src.dims.len() && shape == dst.dims
                &&& expected != got
                &&& dst.location == src.location && dst.location == position.location
                &&& dst.dtype() == src.dtype() && dst.is_contiguous() && src.is_contiguous()
            },
            ErrorView::PositionDType { got } => {
                &&& got == position.dtype() && got != DType::U32
                &&& dst.dims.len() == src.dims.len()
                &&& dst.location == src.location && dst.location == position.location
                &&& dst.dtype() == src.dtype() && dst.is_contiguous() && src.is_contiguous()
            },
            ErrorView::PositionCount { shape } => {
                &&& shape == position.dims && position.elem_count() != 1
                &&& position.dtype() == DType::U32
                &&& dst.dims.len() == src.dims.len()
                &&& dst.location == src.location && dst.location == position.location
                &&& dst.dtype() == src.dtype() && dst.is_contiguous() && src.is_contiguous()
            },
            ErrorView::DimMismatch { dim: k, dst: a, src: b } => {
                &&& dim < dst.dims.len() == src.dims.len()
                &&& k != dim && k < dst.dims.len()
                &&& a == dst.dims[k as int] && b == src.dims[k as int]
                &&& a != b
                &&& agree_before(dst.dims, src.dims, dim, k as int)
                &&& position.elem_count() == 1 && position.dtype() == DType::U32
                &&& dst.location == src.location && dst.location == position.location
                &&& dst.dtype() == src.dtype() && dst.is_contiguous() && src.is_contiguous()
                &&& position.is_contiguous()
            },
            ErrorView::TargetDimMismatch { dst: a, src: b, offset: o, op } => {
                &&& dim < dst.dims.len() == src.dims.len()
                &&& a == dst.dims[dim as int] && b == src.dims[dim as int] && o == offset
                &&& op == Op::SliceSetAt
                &&& b + o > a
                &&& agree_before(dst.dims, src.dims, dim, dst.dims.len() as int)
                &&& position.elem_count() == 1 && position.dtype() == DType::U32
                &&& dst.location == src.location && dst.location == position.location
                &&& dst.dtype() == src.dtype() && dst.is_contiguous() && src.is_contiguous()
                &&& position.is_contiguous()
            },
            ErrorView::KernelSizes { d1, d2, src_s, dst_s } => {
                &&& d1 == row_count(src, dim as int) && d2 == row_len(src, dim as int)
                &&& src_s == d2 && dst_s == row_len(dst, dim as int)
                &&& d1 * d2 > u32::MAX || (d1 > 1 && dst_s > u32::MAX)
                &&& dst.location is Cuda
            },
            ErrorView::KernelOffsets { base, stride } => {
                &&& base == dst.start_offset + offset * stride
                &&& stride == block_size(src, dim as int)
                &&& base > u32::MAX
                &&& dst.location is Cuda
                &&& kernel_holds(dst, src, dim as int)
            },
            _ => false,
        },
{
    lemma_slice_at_checks(dst, src, dim, offset, position);
    if dst.dims.len() == src.dims.len() && dim < dst.dims.len() {
        lemma_mismatch(dst.dims, src.dims, dim, offset, 0);
        lemma_no_mismatch(dst.dims, src.dims, dim as int, offset, 0);
        if first_other_mismatch(dst.dims, src.dims, dim as int, 0) is None {
            assert(agree_before(dst.dims, src.dims, dim, dst.dims.len() as int)) by {
                assert forall|k: int| 0 <= k < dst.dims.len() && k != dim implies #[trigger] dst.dims[k]
                    == src.dims[k] by {
                    assert(dst.dims[k] == src.dims[k] || k == dim);
                }
            }
        }
    }
    if slice_set_at_error(dst, src, dim, offset, position) is None {
        lemma_sizes(dst, src, dim, offset);
        lemma_counts(row_count(src, dim as int), row_len(src, dim as int));
    }
}

/// No write of a slice is refused as being too long for a cache, or for want of a dimension to look
/// up: those are the refusals of a cache.
pub proof fn lemma_slice_set_error_kinds(
    dst: TensorView,
    src: TensorView,
    dim: usize,
    offset: usize,
)
    ensures
        !(slice_set_outcome(dst, src, dim, offset) matches Err(
            ErrorView::AboveMaxSeqLen { .. },
        )),
        !(slice_set_outcome(dst, src, dim, offset) matches Err(
            ErrorView::DimOutOfRange { op: Op::Dim, .. },
        )),
{
    lemma_mismatch_kinds(dst.dims, src.dims, dim as int, offset, 0);
}

proof fn lemma_mismatch_kinds(dst: Seq<usize>, src: Seq<usize>, dim: int, offset: usize, i: int)
    ensures
        first_mismatch(dst, src, dim, offset, i) matches Some(e) ==> e is TargetDimMismatch
            || e is DimMismatch,
    decreases dst.len() - i,
{
    if i < dst.len() {
        lemma_mismatch_kinds(dst, src, dim, offset, i + 1);
    }
}

/// Where a copy is refused, what is said is true of what it was asked with: the storages differ in
/// element type, or the kernel cannot be told the sizes that are reported.
pub proof fn law_copy2d_refusals_are_true(
    src: Storage,
    dst: Storage,
    d1: usize,
    d2: usize,
    src_s: usize,
    dst_s: usize,
    src_o: usize,
    dst_o: usize,
)
    ensures
        copy2d_outcome(src, dst, d1, d2, src_s, dst_s, src_o, dst_o) matches Err(e) ==> match e {
            ErrorView::Copy2dDType { dynamic } => !dynamic && src.dtype != dst.dtype,
            ErrorView::KernelSizes { d1: a, d2: b, src_s: s, dst_s: t } => {
                &&& a == d1 && b == d2 && s == src_s && t == dst_s
                &&& d1 * d2 > u32::MAX || (d1 > 1 && (src_s > u32::MAX || dst_s > u32::MAX))
                &&& src.dtype == dst.dtype
            },
            _ => false,
        },
{
    lemma_counts(d1 as int, d2 as int);
}

/// Where a copy to a place that is read on the device is refused, what is said is true of what it
/// was asked with.
pub proof fn law_copy2d_dynoffset_refusals_are_true(
    src: Storage,
    dst: Storage,
    d1: usize,
    d2: usize,
    src_s: usize,
    dst_s: usize,
    src_o: usize,
    dst_o_base: usize,
    dst_o_stride: usize,
    position: Storage,
    position_o: usize,
    position_max: usize,
)
    ensures
        copy2d_dynoffset_outcome(
            src,
            dst,
            d1,
            d2,
            src_s,
            dst_s,
            src_o,
            dst_o_base,
            dst_o_stride,
            position,
            position_o,
            position_max,
        ) matches Err(e) ==> match e {
            ErrorView::PositionStorageDType => position.dtype != DType::U32,
            ErrorView::Copy2dDType { dynamic } => {
                &&& dynamic && src.dtype != dst.dtype
                &&& position.dtype == DType::U32
            },
            ErrorView::KernelSizes { d1: a, d2: b, src_s: s, dst_s: t } => {
                &&& a == d1 && b == d2 && s == src_s && t == dst_s
                &&& d1 * d2 > u32::MAX || (d1 > 1 && (src_s > u32::MAX || dst_s > u32::MAX))
                &&& src.dtype == dst.dtype && position.dtype == DType::U32
            },
            ErrorView::KernelOffsets { base, stride } => {
                &&& base == dst_o_base && stride == dst_o_stride
                &&& base > u32::MAX || stride > u32::MAX
                &&& d1 * d2 <= u32::MAX
                &&& src.dtype == dst.dtype && position.dtype == DType::U32
            },
            _ => false,
        },
{
    lemma_counts(d1 as int, d2 as int);
}

/// The launch of a slice at an offset runs the kernel for fixed offsets, that of a slice at a
/// position the kernel that reads the position on the device, and both the one for the element type
/// that source and destination have in common.
pub proof fn law_slices_run_the_kernel_of_their_element_type(
    dst: TensorView,
    src: TensorView,
    dim: usize,
    offset: usize,
    position: TensorView,
)
    ensures
        slice_set_outcome(dst, src, dim, offset) matches Ok(Some(launch)) ==> {
            &&& launch.target is Fixed
            &&& launch.dtype == src.storage.dtype
            &&& launch.dtype == dst.storage.dtype
        },
        slice_set_at_outcome(dst, src, dim, offset, position) matches Ok(Some(launch)) ==> {
            &&& launch.target is AtPosition
            &&& launch.dtype == src.storage.dtype
            &&& launch.dtype == dst.storage.dtype
        },
{
}

/// Whatever the position holds when the kernel of a slice at a position runs, the copy is dropped
/// exactly if the source would run off the end of the dimension from there. Else element `j` of row
/// `i` of the source goes to row `i` of the destination, `j` elements after the slot that is
/// `offset` more than the position.
pub proof fn law_slice_set_at_moves(
    dst: TensorView,
    src: TensorView,
    dim: usize,
    offset: usize,
    position: TensorView,
    launch: Copy2d,
    cells: Cells,
    i: int,
    j: int,
)
    requires
        dst.wf(),
        src.wf(),
        position.wf(),
        position_value(cells, position) <= u32::MAX,
        slice_set_at_outcome(dst, src, dim, offset, position) == Ok::<_, ErrorView>(Some(launch)),
    ensures
        ({
            let d = dim as int;
            let slot = offset + position_value(cells, position);
            &&& launch.skips(cells) <==> slot + src.dims[d] > dst.dims[d]
            &&& launch.covers(i, j) <==> 0 <= i < row_count(src, d) && 0 <= j < row_len(src, d)
            &&& launch.covers(i, j) ==> launch.src_cell(i, j) == src.storage.address(
                src.start_offset + i * row_len(src, d) + j,
            )
            &&& launch.covers(i, j) ==> launch.dst_cell(cells, i, j) == dst.storage.address(
                dst.start_offset + slot * block_size(src, d) + i * row_len(dst, d) + j,
            )
        }),
{
    let d: int = dim as int;
    lemma_slice_at_checks(dst, src, dim, offset, position);
    lemma_sizes(dst, src, dim, offset);
    lemma_one_element(position);
    law_copy2d_dynoffset_moves(
        src.storage,
        dst.storage,
        row_count(src, d) as usize,
        row_len(src, d) as usize,
        row_len(src, d) as usize,
        row_len(dst, d) as usize,
        src.start_offset,
        (dst.start_offset + offset * block_size(src, d)) as usize,
        block_size(src, d) as usize,
        position.storage,
        position.start_offset,
        (dst.dims[d] - offset - src.dims[d]) as usize,
        launch,
        cells,
        i,
        j,
    );
    let (o, p, b): (int, int, int) = (
        offset as int,
        position_value(cells, position),
        block_size(src, d),
    );
    assert(o * b + p * b == (o + p) * b) by (nonlinear_arith);
}

} // verus!

//! Writing a slice of a tensor in place, at an offset or at a position that lives on the device.

use vstd::prelude::*;

use crate::copy2d::{copy2d_dynoffset_outcome, copy2d_outcome, Copy2d};
use crate::copy2d::{copy2d_fingerprinted, copy2d_fingerprinted_dynoffset};
use crate::dtype::DType;
use crate::error::{viewed, ErrorView, GraphError, Op};
use crate::shape::{bounded, dot, last_index, lemma_bounded, product};
use crate::tensor::{copy_sizes, Tensor, TensorView};

verus! {

/// The first dimension, from `i` on, that keeps `src` from being written into `dst` at `offset`
/// on dimension `dim`.
pub open spec fn first_mismatch(
    dst: Seq<usize>,
    src: Seq<usize>,
    dim: int,
    offset: usize,
    i: int,
) -> Option<ErrorView>
    decreases dst.len() - i,
{
    if i >= dst.len() {
        None
    } else if i == dim && src[i] + offset > dst[i] {
        Some(
            ErrorView::TargetDimMismatch { dst: dst[i], src: src[i], offset, op: Op::SliceSet },
        )
    } else if i != dim && dst[i] != src[i] {
        Some(ErrorView::DimMismatch { dim: i as usize, dst: dst[i], src: src[i] })
    } else {
        first_mismatch(dst, src, dim, offset, i + 1)
    }
}

/// The first dimension, from `i` on and other than `dim`, on which `dst` and `src` differ.
pub open spec fn first_other_mismatch(
    dst: Seq<usize>,
    src: Seq<usize>,
    dim: int,
    i: int,
) -> Option<ErrorView>
    decreases dst.len() - i,
{
    if i >= dst.len() {
        None
    } else if i != dim && dst[i] != src[i] {
        Some(ErrorView::DimMismatch { dim: i as usize, dst: dst[i], src: src[i] })
    } else {
        first_other_mismatch(dst, src, dim, i + 1)
    }
}

/// Why `src` cannot be written into `dst` at `offset` on dimension `dim`, if it cannot.
pub open spec fn slice_set_error(
    dst: TensorView,
    src: TensorView,
    dim: usize,
    offset: usize,
) -> Option<ErrorView> {
    let op = Op::SliceSet;
    if dim >= dst.dims.len() {
        Some(ErrorView::DimOutOfRange { shape: dst.dims, dim, op })
    } else if !dst.is_contiguous() || !src.is_contiguous() {
        Some(ErrorView::RequiresContiguous { op })
    } else if dst.dtype() != src.dtype() {
        Some(ErrorView::DTypeMismatchBinaryOp { lhs: dst.dtype(), rhs: src.dtype(), op })
    } else if dst.location != src.location {
        Some(ErrorView::DeviceMismatchBinaryOp { lhs: dst.location, rhs: src.location, op })
    } else if dst.dims.len() != src.dims.len() {
        Some(
            ErrorView::UnexpectedNumberOfDims {
                expected: dst.dims.len() as usize,
                got: src.dims.len() as usize,
                shape: dst.dims,
            },
        )
    } else if first_mismatch(dst.dims, src.dims, dim as int, offset, 0) is Some {
        first_mismatch(dst.dims, src.dims, dim as int, offset, 0)
    } else if !(dst.location is Cuda) {
        Some(
            ErrorView::DeviceMismatchBinaryOp {
                lhs: dst.location,
                rhs: src.location,
                op: Op::Copy2dCuda,
            },
        )
    } else {
        None
    }
}

/// Why `src` cannot be written into `dst` at the place that `position` will name, `offset` slots
/// on, on dimension `dim`, if it cannot.
pub open spec fn slice_set_at_error(
    dst: TensorView,
    src: TensorView,
    dim: usize,
    offset: usize,
    position: TensorView,
) -> Option<ErrorView> {
    let op = Op::SliceSetAt;
    if dim >= dst.dims.len() {
        Some(ErrorView::DimOutOfRange { shape: dst.dims, dim, op })
    } else if !dst.is_contiguous() || !src.is_contiguous() {
        Some(ErrorView::RequiresContiguous { op })
    } else if dst.dtype() != src.dtype() {
        Some(ErrorView::DTypeMismatchBinaryOp { lhs: dst.dtype(), rhs: src.dtype(), op })
    } else if dst.location != src.location || dst.location != position.location {
        Some(ErrorView::DeviceMismatchBinaryOp { lhs: dst.location, rhs: src.location, op })
    } else if dst.dims.len() != src.dims.len() {
        Some(
            ErrorView::UnexpectedNumberOfDims {
                expected: dst.dims.len() as usize,
                got: src.dims.len() as usize,
                shape: dst.dims,
            },
        )
    } else if position.dtype() != DType::U32 {
        Some(ErrorView::PositionDType { got: position.dtype() })
    } else if position.elem_count() != 1 {
        Some(ErrorView::PositionCount { shape: position.dims })
    } else if !position.is_contiguous() {
        Some(ErrorView::RequiresContiguous { op })
    } else if first_other_mismatch(dst.dims, src.dims, dim as int, 0) is Some {
        first_other_mismatch(dst.dims, src.dims, dim as int, 0)
    } else if offset + src.dims[dim as int] > dst.dims[dim as int] {
        Some(
            ErrorView::TargetDimMismatch {
                dst: dst.dims[dim as int],
                src: src.dims[dim as int],
                offset,
                op,
            },
        )
    } else if !(dst.location is Cuda) {
        Some(
            ErrorView::DeviceMismatchBinaryOp {
                lhs: dst.location,
                rhs: src.location,
                op: Op::Copy2dCuda,
            },
        )
    } else {
        None
    }
}

/// The number of elements in one slot of dimension `dim`.
pub open spec fn block_size(t: TensorView, dim: int) -> int {
    product(t.dims.skip(dim + 1)) as int
}

/// The number of separate rows that dimension `dim` is spread over.
pub open spec fn row_count(t: TensorView, dim: int) -> int {
    product(t.dims.take(dim)) as int
}

/// The number of elements of `t` in one such row.
pub open spec fn row_len(t: TensorView, dim: int) -> int {
    block_size(t, dim) * t.dims[dim]
}

/// What writing `src` into `dst` at `offset` on dimension `dim` comes to: every row of the source
/// goes `offset` slots into the matching row of the destination.
pub open spec fn slice_set_outcome(
    dst: TensorView,
    src: TensorView,
    dim: usize,
    offset: usize,
) -> Result<Option<Copy2d>, ErrorView> {
    let d = dim as int;
    match slice_set_error(dst, src, dim, offset) {
        Some(e) => Err(e),
        None => copy2d_outcome(
            src.storage,
            dst.storage,
            row_count(src, d) as usize,
            row_len(src, d) as usize,
            row_len(src, d) as usize,
            row_len(dst, d) as usize,
            src.start_offset,
            (dst.start_offset + offset * block_size(src, d)) as usize,
        ),
    }
}

/// What writing `src` into `dst` at a position read on the device comes to. The kernel gets the
/// largest position that still fits.
pub open spec fn slice_set_at_outcome(
    dst: TensorView,
    src: TensorView,
    dim: usize,
    offset: usize,
    position: TensorView,
) -> Result<Option<Copy2d>, ErrorView> {
    let d = dim as int;
    match slice_set_at_error(dst, src, dim, offset, position) {
        Some(e) => Err(e),
        None => copy2d_dynoffset_outcome(
            src.storage,
            dst.storage,
            row_count(src, d) as usize,
            row_len(src, d) as usize,
            row_len(src, d) as usize,
            row_len(dst, d) as usize,
            src.start_offset,
            (dst.start_offset + offset * block_size(src, d)) as usize,
            block_size(src, d) as usize,
            position.storage,
            position.start_offset,
            (dst.dims[d] - offset - src.dims[d]) as usize,
        ),
    }
}

/// The product of the dimensions from `from` up to `to`.
fn product_of(dims: &Vec<usize>, from: usize, to: usize) -> (r: usize)
    requires
        from <= to <= dims@.len(),
        bounded(dims@, usize::MAX),
    ensures
        r == product(dims@.subrange(from as int, to as int)),
{
    let mut acc: usize = 1;
    let mut i: usize = from;
    proof {
        assert(dims@.subrange(from as int, from as int) =~= Seq::<usize>::empty());
        assert(product(Seq::<usize>::empty()) == 1);
    }
    while i < to
        invariant
            from <= i <= to <= dims@.len(),
            bounded(dims@, usize::MAX),
            acc == product(dims@.subrange(from as int, i as int)),
        decreases to - i,
    {
        proof {
            let longer: Seq<usize> = dims@.subrange(from as int, i + 1);
            assert(longer.drop_last() =~= dims@.subrange(from as int, i as int));
        }
        acc = acc * dims[i];
        i = i + 1;
    }
    acc
}

fn check_dims(dst: &Vec<usize>, src: &Vec<usize>, dim: usize, offset: usize) -> (r: Result<
    (),
    GraphError,
>)
    requires
        dst@.len() == src@.len(),
    ensures
        match r {
            Ok(_) => first_mismatch(dst@, src@, dim as int, offset, 0) is None,
            Err(e) => first_mismatch(dst@, src@, dim as int, offset, 0) == Some(e@),
        },
{
    let mut i: usize = 0;
    while i < dst.len()
        invariant
            i <= dst@.len() == src@.len(),
            first_mismatch(dst@, src@, dim as int, offset, 0) == first_mismatch(
                dst@,
                src@,
                dim as int,
                offset,
                i as int,
            ),
        decreases dst@.len() - i,
    {
        if i == dim && (offset > dst[i] || src[i] > dst[i] - offset) {
            return Err(
                GraphError::TargetDimMismatch {
                    dst: dst[i],
                    src: src[i],
                    offset,
                    op: Op::SliceSet,
                },
            );
        }
        if i != dim && dst[i] != src[i] {
            return Err(GraphError::DimMismatch { dim: i, dst: dst[i], src: src[i] });
        }
        i = i + 1;
    }
    Ok(())
}

fn check_other_dims(dst: &Vec<usize>, src: &Vec<usize>, dim: usize) -> (r: Result<(), GraphError>)
    requires
        dst@.len() == src@.len(),
    ensures
        match r {
            Ok(_) => first_other_mismatch(dst@, src@, dim as int, 0) is None,
            Err(e) => first_other_mismatch(dst@, src@, dim as int, 0) == Some(e@),
        },
{
    let mut i: usize = 0;
    while i < dst.len()
        invariant
            i <= dst@.len() == src@.len(),
            first_other_mismatch(dst@, src@, dim as int, 0) == first_other_mismatch(
                dst@,
                src@,
                dim as int,
                i as int,
            ),
        decreases dst@.len() - i,
    {
        if i != dim && dst[i] != src[i] {
            return Err(GraphError::DimMismatch { dim: i, dst: dst[i], src: src[i] });
        }
        i = i + 1;
    }
    Ok(())
}

/// Writing slices of tensors in place.
///
/// Each method prepares the launch of a copy kernel, which takes
/// [`COPY2D_FINGERPRINT`](crate::copy2d::COPY2D_FINGERPRINT) as its first argument; `None` stands
/// for a copy of no elements, for which nothing is launched.
pub trait CudaTensorExtension: Sized {
    spec fn slice_set_admits(&self, src: &Self, dim: usize, offset: usize) -> bool;

    spec fn slice_set_returns(&self, src: &Self, dim: usize, offset: usize) -> Result<
        Option<Copy2d>,
        ErrorView,
    >;

    spec fn slice_set_at_admits(
        &self,
        src: &Self,
        dim: usize,
        offset: usize,
        position: &Self,
    ) -> bool;

    spec fn slice_set_at_returns(
        &self,
        src: &Self,
        dim: usize,
        offset: usize,
        position: &Self,
    ) -> Result<Option<Copy2d>, ErrorView>;

    /// Sets the values of `self` from those of `src`, starting `offset` slots into dimension
    /// `dim`.
    ///
    /// The two must have the same shape but on `dim`, where `self` has to be at least `offset`
    /// longer than `src`. The kernel counts in 32 bits, so a source of more elements than that is
    /// refused, and so is one of several rows if those of `self` are longer than that.
    fn slice_set_fingerprinted(&self, src: &Self, dim: usize, offset: usize) -> (r: Result<
        Option<Copy2d>,
        GraphError,
    >)
        requires
            self.slice_set_admits(src, dim, offset),
        ensures
            viewed(r) == self.slice_set_returns(src, dim, offset),
    ;

    /// As [`slice_set_fingerprinted`](Self::slice_set_fingerprinted), but the place on `dim` is
    /// read from `position`, a `U32` tensor of exactly one element, when the kernel runs, and
    /// `offset` is added to it.
    ///
    /// An offset that is part of the launch is the same on every replay of a graph. Of
    /// `position` only the address is part of the launch, so changing its contents between
    /// replays moves the write.
    ///
    /// A position from which the source would run off the end of `dim` makes the copy do
    /// nothing. The kernel alone can see that, so nothing reports it.
    ///
    /// The kernel computes the place in 32 bits. Where a position leads to an element beyond these,
    /// which takes a row of more than 2^32 elements, it is left open what is written.
    fn slice_set_fingerprinted_at(
        &self,
        src: &Self,
        dim: usize,
        offset: usize,
        position: &Self,
    ) -> (r: Result<Option<Copy2d>, GraphError>)
        requires
            self.slice_set_at_admits(src, dim, offset, position),
        ensures
            viewed(r) == self.slice_set_at_returns(src, dim, offset, position),
    ;
}

/// The sizes that a copy kernel is launched with can be computed.
pub proof fn lemma_row_sizes(dst: TensorView, src: TensorView, dim: int, offset: int)
    requires
        dst.wf(),
        src.wf(),
        0 <= dim < dst.dims.len() == src.dims.len(),
        dst.dims.skip(dim + 1) == src.dims.skip(dim + 1),
        0 <= offset <= dst.dims[dim],
    ensures
        0 <= row_count(src, dim) <= usize::MAX,
        0 <= block_size(src, dim) <= usize::MAX,
        0 <= row_len(src, dim) <= usize::MAX,
        0 <= row_len(dst, dim) <= usize::MAX,
        block_size(dst, dim) == block_size(src, dim),
        0 <= offset * block_size(src, dim),
        dst.start_offset + offset * block_size(src, dim) <= usize::MAX,
{
    lemma_bounded(src.dims, usize::MAX / 2, dim);
    lemma_bounded(dst.dims, usize::MAX / 2, dim);
    let b: int = block_size(src, dim);
    let (x, y): (int, int) = (src.dims[dim] as int, dst.dims[dim] as int);
    assert(x * b == b * x && y * b == b * y) by (nonlinear_arith);
}

pub proof fn lemma_no_mismatch(dst: Seq<usize>, src: Seq<usize>, dim: int, offset: usize, i: int)
    requires
        dst.len() == src.len(),
        0 <= i <= dst.len(),
    ensures
        first_mismatch(dst, src, dim, offset, i) is None <==> forall|k: int|
            i <= k < dst.len() ==> (#[trigger] dst[k] == src[k] || k == dim) && (k == dim ==> src[k]
                + offset <= dst[k]),
        first_other_mismatch(dst, src, dim, i) is None <==> forall|k: int|
            i <= k < dst.len() ==> #[trigger] dst[k] == src[k] || k == dim,
    decreases dst.len() - i,
{
    if i < dst.len() {
        lemma_no_mismatch(dst, src, dim, offset, i + 1);
    }
}

impl CudaTensorExtension for Tensor {
    open spec fn slice_set_admits(&self, src: &Self, dim: usize, offset: usize) -> bool {
        &&& self@.wf()
        &&& src@.wf()
    }

    open spec fn slice_set_returns(&self, src: &Self, dim: usize, offset: usize) -> Result<
        Option<Copy2d>,
        ErrorView,
    > {
        slice_set_outcome(self@, src@, dim, offset)
    }

    open spec fn slice_set_at_admits(
        &self,
        src: &Self,
        dim: usize,
        offset: usize,
        position: &Self,
    ) -> bool {
        &&& self@.wf()
        &&& src@.wf()
        &&& position@.wf()
    }

    open spec fn slice_set_at_returns(
        &self,
        src: &Self,
        dim: usize,
        offset: usize,
        position: &Self,
    ) -> Result<Option<Copy2d>, ErrorView> {
        slice_set_at_outcome(self@, src@, dim, offset, position@)
    }

    fn slice_set_fingerprinted(&self, src: &Self, dim: usize, offset: usize) -> (r: Result<
        Option<Copy2d>,
        GraphError,
    >) {
        let op: Op = Op::SliceSet;
        let dim: usize = match self.to_index(dim, op) {
            Ok(dim) => dim,
            Err(e) => {
                return Err(e);
            },
        };
        if !self.is_contiguous() || !src.is_contiguous() {
            return Err(GraphError::RequiresContiguous { op });
        }
        if self.dtype() != src.dtype() {
            return Err(
                GraphError::DTypeMismatchBinaryOp { lhs: self.dtype(), rhs: src.dtype(), op },
            );
        }
        if self.location() != src.location() {
            return Err(
                GraphError::DeviceMismatchBinaryOp {
                    lhs: self.location(),
                    rhs: src.location(),
                    op,
                },
            );
        }
        if self.rank() != src.rank() {
            return Err(
                GraphError::UnexpectedNumberOfDims {
                    expected: self.rank(),
                    got: src.rank(),
                    shape: copy_sizes(self.dims()),
                },
            );
        }
        match check_dims(self.dims(), src.dims(), dim, offset) {
            Ok(_) => {},
            Err(e) => {
                return Err(e);
            },
        }
        if !self.location().is_cuda() {
            return Err(
                GraphError::DeviceMismatchBinaryOp {
                    lhs: self.location(),
                    rhs: src.location(),
                    op: Op::Copy2dCuda,
                },
            );
        }
        proof {
            lemma_no_mismatch(self@.dims, src@.dims, dim as int, offset, 0);
            assert(self@.dims[dim as int] >= offset);
            assert(self@.dims.skip(dim + 1) =~= src@.dims.skip(dim + 1));
            lemma_row_sizes(self@, src@, dim as int, offset as int);
            assert(src@.dims.subrange(dim + 1, src@.dims.len() as int) =~= src@.dims.skip(dim + 1));
            assert(src@.dims.subrange(0, dim as int) =~= src@.dims.take(dim as int));
        }
        let block: usize = product_of(src.dims(), dim + 1, src.rank());
        let d1: usize = product_of(src.dims(), 0, dim);
        let d2: usize = block * src.dims()[dim];
        copy2d_fingerprinted(
            &src.storage(),
            &self.storage(),
            d1,
            d2,
            d2,
            block * self.dims()[dim],
            src.start_offset(),
            self.start_offset() + offset * block,
        )
    }

    fn slice_set_fingerprinted_at(
        &self,
        src: &Self,
        dim: usize,
        offset: usize,
        position: &Self,
    ) -> (r: Result<Option<Copy2d>, GraphError>) {
        let op: Op = Op::SliceSetAt;
        let dim: usize = match self.to_index(dim, op) {
            Ok(dim) => dim,
            Err(e) => {
                return Err(e);
            },
        };
        if !self.is_contiguous() || !src.is_contiguous() {
            return Err(GraphError::RequiresContiguous { op });
        }
        if self.dtype() != src.dtype() {
            return Err(
                GraphError::DTypeMismatchBinaryOp { lhs: self.dtype(), rhs: src.dtype(), op },
            );
        }
        if self.location() != src.location() || self.location() != position.location() {
            return Err(
                GraphError::DeviceMismatchBinaryOp {
                    lhs: self.location(),
                    rhs: src.location(),
                    op,
                },
            );
        }
        if self.rank() != src.rank() {
            return Err(
                GraphError::UnexpectedNumberOfDims {
                    expected: self.rank(),
                    got: src.rank(),
                    shape: copy_sizes(self.dims()),
                },
            );
        }
        if position.dtype() != DType::U32 {
            return Err(GraphError::PositionDType { got: position.dtype() });
        }
        if position.elem_count() != 1 {
            return Err(GraphError::PositionCount { shape: copy_sizes(position.dims()) });
        }
        if !position.is_contiguous() {
            return Err(GraphError::RequiresContiguous { op });
        }
        match check_other_dims(self.dims(), src.dims(), dim) {
            Ok(_) => {},
            Err(e) => {
                return Err(e);
            },
        }
        // The write covers `src_dim` slots from `offset` plus the position on. All but the
        // position is known here, so the room that the rest leaves is checked here, and the
        // kernel gets the largest position that still fits.
        let dst_dim: usize = self.dims()[dim];
        let src_dim: usize = src.dims()[dim];
        if offset > dst_dim || src_dim > dst_dim - offset {
            return Err(
                GraphError::TargetDimMismatch { dst: dst_dim, src: src_dim, offset, op },
            );
        }
        if !self.location().is_cuda() {
            return Err(
                GraphError::DeviceMismatchBinaryOp {
                    lhs: self.location(),
                    rhs: src.location(),
                    op: Op::Copy2dCuda,
                },
            );
        }
        proof {
            lemma_no_mismatch(self@.dims, src@.dims, dim as int, offset, 0);
            assert(self@.dims.skip(dim + 1) =~= src@.dims.skip(dim + 1));
            lemma_row_sizes(self@, src@, dim as int, offset as int);
            assert(src@.dims.subrange(dim + 1, src@.dims.len() as int) =~= src@.dims.skip(dim + 1));
            assert(src@.dims.subrange(0, dim as int) =~= src@.dims.take(dim as int));
            lemma_one_element(position@);
        }
        let position_max: usize = dst_dim - offset - src_dim;
        let block: usize = product_of(src.dims(), dim + 1, src.rank());
        let d1: usize = product_of(src.dims(), 0, dim);
        let d2: usize = block * src_dim;
        copy2d_fingerprinted_dynoffset(
            &src.storage(),
            &self.storage(),
            d1,
            d2,
            d2,
            block * dst_dim,
            src.start_offset(),
            self.start_offset() + offset * block,
            block,
            &position.storage(),
            position.start_offset(),
            position_max,
        )
    }
}

/// A tensor of one element has it at its start offset.
pub proof fn lemma_one_element(t: TensorView)
    requires
        t.wf(),
        t.elem_count() == 1,
    ensures
        !t.empty(),
        t.start_offset < t.storage.len,
        forall|i: int| 0 <= i < t.dims.len() ==> #[trigger] t.dims[i] == 1,
        dot(last_index(t.dims), t.stride) == 0,
{
    lemma_ones(t.dims, t.stride);
}

proof fn lemma_ones(dims: Seq<usize>, stride: Seq<usize>)
    requires
        product(dims) == 1,
        dims.len() == stride.len(),
    ensures
        forall|i: int| 0 <= i < dims.len() ==> #[trigger] dims[i] == 1,
        dot(last_index(dims), stride) == 0,
    decreases dims.len(),
{
    if dims.len() > 0 {
        let (p, d): (nat, nat) = (product(dims.drop_last()), dims.last() as nat);
        assert(p == 1 && d == 1) by (nonlinear_arith)
            requires
                p * d == 1,
        ;
        lemma_ones(dims.drop_last(), stride.drop_last());
        assert(last_index(dims).drop_last() =~= last_index(dims.drop_last()));
        assert forall|i: int| 0 <= i < dims.len() implies #[trigger] dims[i] == 1 by {
            if i < dims.len() - 1 {
                assert(dims.drop_last()[i] == 1);
            }
        }
        let s: int = stride.last() as int;
        assert(last_index(dims).last() == 0);
        assert(0 * s == 0);
    }
}

} // verus!

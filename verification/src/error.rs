//! What can go wrong, with the values that an error message reports.

use vstd::prelude::*;

use crate::dtype::{DType, DeviceLocation};

verus! {

/// The operation that an error is reported for.
#[derive(Debug, Clone, Copy, PartialEq, Eq, Structural, Hash)]
pub enum Op {
    /// Looking up the size of a dimension.
    Dim,
    /// Taking a narrower view of a tensor.
    Narrow,
    /// Writing a slice at an offset known on the host.
    SliceSet,
    /// Writing a slice at a position read on the device.
    SliceSetAt,
    /// Starting a copy kernel.
    Copy2dCuda,
}

impl Op {
    /// The name under which the operation appears in messages.
    pub open spec fn spec_name(&self) -> &'static str {
        match self {
            Op::Dim => "dim",
            Op::Narrow => "narrow",
            Op::SliceSet => "slice-set",
            Op::SliceSetAt => "slice-set-at",
            Op::Copy2dCuda => "copy2d CUDA",
        }
    }

    /// The name under which the operation appears in messages.
    #[verifier::when_used_as_spec(spec_name)]
    pub fn name(&self) -> (name: &'static str)
        ensures
            name@ == self.name()@,
    {
        match self {
            Op::Dim => "dim",
            Op::Narrow => "narrow",
            Op::SliceSet => "slice-set",
            Op::SliceSetAt => "slice-set-at",
            Op::Copy2dCuda => "copy2d CUDA",
        }
    }
}

/// An error whose shapes are of type `S` and whose names are of type `N`.
///
/// At run time these are [`GraphError`], with vectors and strings; contracts speak of
/// [`ErrorView`], with sequences.
#[allow(inconsistent_fields)]
#[derive(Debug, PartialEq, Eq)]
pub enum ErrorOf<S, N> {
    /// The dimension index is not below the rank of the shape.
    DimOutOfRange { shape: S, dim: usize, op: Op },
    /// `start + len` is beyond the size of the dimension.
    NarrowInvalidArgs { shape: S, dim: usize, start: usize, len: usize },
    /// An operand does not store its elements in row-major order without gaps.
    RequiresContiguous { op: Op },
    /// The operands hold different element types.
    DTypeMismatchBinaryOp { lhs: DType, rhs: DType, op: Op },
    /// The operands live on different devices, or not on a CUDA device.
    DeviceMismatchBinaryOp { lhs: DeviceLocation, rhs: DeviceLocation, op: Op },
    /// The operands have different numbers of dimensions.
    UnexpectedNumberOfDims { expected: usize, got: usize, shape: S },
    /// The source does not fit into the destination at `offset` on the dimension written.
    TargetDimMismatch { dst: usize, src: usize, offset: usize, op: Op },
    /// The operands differ in size on a dimension other than the one written.
    DimMismatch { dim: usize, dst: usize, src: usize },
    /// A position tensor does not hold `U32` elements.
    PositionDType { got: DType },
    /// A position tensor does not hold exactly one element.
    PositionCount { shape: S },
    /// The storages handed to a copy kernel hold different element types.
    Copy2dDType { dynamic: bool },
    /// The storage handed to a copy kernel as a position does not hold `U32` elements.
    PositionStorageDType,
    /// A copy kernel takes sizes of 32 bits, and these are larger.
    KernelSizes { d1: usize, d2: usize, src_s: usize, dst_s: usize },
    /// A copy kernel takes the start and the distance of slots in 32 bits, and these are larger.
    KernelOffsets { base: usize, stride: usize },
    /// A cache has no room left for the sequence appended to it.
    AboveMaxSeqLen { current: usize, seq_len: usize, max: usize },
    /// The source of an in-place copy is not contiguous.
    SourceNotContiguous { shape: S },
    /// The destination of an in-place copy is not contiguous.
    DestinationNotContiguous { shape: S },
    /// The source and the destination of an in-place copy differ in shape.
    ShapeMismatch { src: S, dst: S },
    /// The source and the destination of an in-place copy hold different element types.
    CopyDType,
    /// A storage does not hold elements of the type asked for.
    UnexpectedDType { expected: DType, got: DType },
    /// A run of elements reaches beyond the end of a storage.
    StorageTooSmall {
        count: usize,
        src_offset: usize,
        dst_offset: usize,
        src_len: usize,
        dst_len: usize,
    },
    /// A graph can only be captured on a CUDA device.
    NotCuda,
    /// An input of a graph is not contiguous.
    InputNotContiguous { name: N },
    /// A picture of a graph could not be drawn.
    PictureNotDrawn,
    /// Launch parameters were set on a node that is not a kernel.
    NotAKernelNode,
    /// The driver reported a node of a type that is not known.
    UnknownNodeType { code: u32 },
}

pub type GraphError = ErrorOf<Vec<usize>, String>;

pub type ErrorView = ErrorOf<Seq<usize>, Seq<char>>;

impl ErrorOf<Vec<usize>, String> {
    pub open spec fn view(&self) -> ErrorView {
        match *self {
            ErrorOf::DimOutOfRange { shape, dim, op } => ErrorOf::DimOutOfRange {
                shape: shape@,
                dim,
                op,
            },
            ErrorOf::NarrowInvalidArgs { shape, dim, start, len } => ErrorOf::NarrowInvalidArgs {
                shape: shape@,
                dim,
                start,
                len,
            },
            ErrorOf::RequiresContiguous { op } => ErrorOf::RequiresContiguous { op },
            ErrorOf::DTypeMismatchBinaryOp { lhs, rhs, op } => ErrorOf::DTypeMismatchBinaryOp {
                lhs,
                rhs,
                op,
            },
            ErrorOf::DeviceMismatchBinaryOp { lhs, rhs, op } => ErrorOf::DeviceMismatchBinaryOp {
                lhs,
                rhs,
                op,
            },
            ErrorOf::UnexpectedNumberOfDims { expected, got, shape } =>
                ErrorOf::UnexpectedNumberOfDims { expected, got, shape: shape@ },
            ErrorOf::TargetDimMismatch { dst, src, offset, op } => ErrorOf::TargetDimMismatch {
                dst,
                src,
                offset,
                op,
            },
            ErrorOf::DimMismatch { dim, dst, src } => ErrorOf::DimMismatch { dim, dst, src },
            ErrorOf::PositionDType { got } => ErrorOf::PositionDType { got },
            ErrorOf::PositionCount { shape } => ErrorOf::PositionCount { shape: shape@ },
            ErrorOf::Copy2dDType { dynamic } => ErrorOf::Copy2dDType { dynamic },
            ErrorOf::PositionStorageDType => ErrorOf::PositionStorageDType,
            ErrorOf::KernelSizes { d1, d2, src_s, dst_s } => ErrorOf::KernelSizes {
                d1,
                d2,
                src_s,
                dst_s,
            },
            ErrorOf::KernelOffsets { base, stride } => ErrorOf::KernelOffsets { base, stride },
            ErrorOf::AboveMaxSeqLen { current, seq_len, max } => ErrorOf::AboveMaxSeqLen {
                current,
                seq_len,
                max,
            },
            ErrorOf::SourceNotContiguous { shape } => ErrorOf::SourceNotContiguous {
                shape: shape@,
            },
            ErrorOf::DestinationNotContiguous { shape } => ErrorOf::DestinationNotContiguous {
                shape: shape@,
            },
            ErrorOf::ShapeMismatch { src, dst } => ErrorOf::ShapeMismatch {
                src: src@,
                dst: dst@,
            },
            ErrorOf::CopyDType => ErrorOf::CopyDType,
            ErrorOf::UnexpectedDType { expected, got } => ErrorOf::UnexpectedDType {
                expected,
                got,
            },
            ErrorOf::StorageTooSmall { count, src_offset, dst_offset, src_len, dst_len } =>
                ErrorOf::StorageTooSmall { count, src_offset, dst_offset, src_len, dst_len },
            ErrorOf::NotCuda => ErrorOf::NotCuda,
            ErrorOf::InputNotContiguous { name } => ErrorOf::InputNotContiguous { name: name@ },
            ErrorOf::PictureNotDrawn => ErrorOf::PictureNotDrawn,
            ErrorOf::NotAKernelNode => ErrorOf::NotAKernelNode,
            ErrorOf::UnknownNodeType { code } => ErrorOf::UnknownNodeType { code },
        }
    }
}

/// A result with its error as contracts speak of it.
pub open spec fn viewed<T>(r: Result<T, GraphError>) -> Result<T, ErrorView> {
    match r {
        Ok(value) => Ok(value),
        Err(e) => Err(e@),
    }
}

} // verus!

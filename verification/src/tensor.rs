//! What the host knows of a tensor on a device: its storage, its layout and its place.

use vstd::prelude::*;

use crate::dtype::{DType, DeviceLocation};
use crate::error::{ErrorView, GraphError, Op};
use crate::shape::{bounded, contiguous, dot, last_index, product, valid_index};
use crate::shape::{lemma_dot_bounds, lemma_dot_update, lemma_product_split};

verus! {

/// The error type of `candle_core`, carried through and never looked into.
#[verifier::external_type_specification]
#[verifier::external_body]
pub struct ExCandleError(candle_core::Error);

/// Calls `candle_core`'s `Dim::to_index` for a `usize`: an index below the rank of the shape is
/// handed back, any other is an error.
#[verifier::external_body]
fn candle_dim_to_index(dims: &Vec<usize>, dim: usize, op: &'static str) -> (r: Result<
    usize,
    candle_core::Error,
>)
    ensures
        r is Ok <==> dim < dims@.len(),
        r matches Ok(index) ==> index == dim,
{
    candle_core::shape::Dim::to_index(&dim, &candle_core::Shape::from_dims(dims), op)
}

/// Calls `candle_core`'s `Shape::is_contiguous`: every dimension longer than one has the product
/// of the dimensions after it as its stride.
#[verifier::external_body]
fn candle_is_contiguous(dims: &Vec<usize>, stride: &Vec<usize>) -> (r: bool)
    requires
        bounded(dims@, usize::MAX),
    ensures
        r == contiguous(dims@, stride@),
{
    candle_core::Shape::from_dims(dims).is_contiguous(stride)
}

/// Calls `candle_core`'s `Shape::elem_count`: the product of the dimensions.
#[verifier::external_body]
fn candle_elem_count(dims: &Vec<usize>) -> (r: usize)
    requires
        bounded(dims@, usize::MAX),
    ensures
        r == product(dims@),
{
    candle_core::Shape::from_dims(dims).elem_count()
}

/// Calls `candle_core`'s `Layout::narrow`: an error exactly where the dimension does not exist or
/// is shorter than `start + len`; else the dimension gets size `len`, the strides stay, and the
/// first element moves by `start` strides of the dimension.
#[verifier::external_body]
fn candle_layout_narrow(
    dims: &Vec<usize>,
    stride: &Vec<usize>,
    start_offset: usize,
    dim: usize,
    start: usize,
    len: usize,
) -> (r: Result<(Vec<usize>, Vec<usize>, usize), candle_core::Error>)
    requires
        dims@.len() == stride@.len(),
        start + len <= usize::MAX,
        (dim < dims@.len() && start + len <= dims@[dim as int]) ==> (start_offset
            + stride@[dim as int] * start <= usize::MAX),
    ensures
        (r is Ok) == (dim < dims@.len() && start + len <= dims@[dim as int]),
        r is Ok ==> r->Ok_0.0@ == dims@.update(dim as int, len),
        r is Ok ==> r->Ok_0.1@ == stride@,
        r is Ok ==> r->Ok_0.2 == start_offset + stride@[dim as int] * start,
{
    let shape = candle_core::Shape::from_dims(dims);
    let layout = candle_core::Layout::new(shape, stride.clone(), start_offset);
    let layout = layout.narrow(dim, start, len)?;
    Ok((layout.dims().to_vec(), layout.stride().to_vec(), layout.start_offset()))
}

/// One allocation on a device: its address, its length in elements, and their type.
#[derive(Debug, Clone, Copy, PartialEq, Eq, Structural, Hash)]
pub struct Storage {
    pub ptr: u64,
    pub len: usize,
    pub dtype: DType,
}

impl Storage {
    /// The allocation lies within the address space.
    pub open spec fn wf(&self) -> bool {
        &&& self.len * self.dtype.size_in_bytes() <= usize::MAX
        &&& self.ptr + self.len * self.dtype.size_in_bytes() <= u64::MAX
    }

    /// The address of the element at `offset`.
    pub open spec fn address(&self, offset: int) -> int {
        self.ptr + offset * self.dtype.size_in_bytes()
    }
}

/// A tensor on a device, as far as the host reads it: a view into a storage.
#[derive(Debug, PartialEq, Eq)]
pub struct Tensor {
    storage: Storage,
    dims: Vec<usize>,
    stride: Vec<usize>,
    start_offset: usize,
    location: DeviceLocation,
}

/// The mathematical content of a [`Tensor`].
#[verifier::ext_equal]
pub struct TensorView {
    pub storage: Storage,
    pub dims: Seq<usize>,
    pub stride: Seq<usize>,
    pub start_offset: usize,
    pub location: DeviceLocation,
}

impl TensorView {
    /// The layout can be computed with, and every element lies inside the storage.
    pub open spec fn wf(&self) -> bool {
        &&& self.storage.wf()
        &&& self.dims.len() == self.stride.len()
        &&& bounded(self.dims, usize::MAX / 2)
        &&& self.start_offset <= usize::MAX / 2
        &&& !self.empty() ==> self.start_offset + dot(last_index(self.dims), self.stride)
            < self.storage.len
    }

    /// Some dimension has size zero.
    pub open spec fn empty(&self) -> bool {
        exists|i: int| 0 <= i < self.dims.len() && #[trigger] self.dims[i] == 0
    }

    pub open spec fn is_contiguous(&self) -> bool {
        contiguous(self.dims, self.stride)
    }

    pub open spec fn dtype(&self) -> DType {
        self.storage.dtype
    }

    pub open spec fn elem_count(&self) -> nat {
        product(self.dims)
    }

    /// The address of the element at `index`.
    pub open spec fn address(&self, index: Seq<int>) -> int {
        self.storage.address(self.start_offset + dot(index, self.stride))
    }

    /// What taking `len` slots from `start` on dimension `dim` fails with, if it fails.
    pub open spec fn narrow_error(&self, dim: usize, start: usize, len: usize) -> Option<
        ErrorView,
    > {
        if dim >= self.dims.len() {
            Some(ErrorView::DimOutOfRange { shape: self.dims, dim, op: Op::Narrow })
        } else if start + len > self.dims[dim as int] {
            Some(ErrorView::NarrowInvalidArgs { shape: self.dims, dim, start, len })
        } else {
            None
        }
    }

    /// The view of `len` slots from `start` on dimension `dim`.
    pub open spec fn narrow(&self, dim: int, start: int, len: usize) -> TensorView {
        TensorView {
            dims: self.dims.update(dim, len),
            start_offset: (self.start_offset + self.stride[dim] * start) as usize,
            ..*self
        }
    }
}

/// Adds up `stride * (dim - 1)` over the dimensions, unless the sum does not fit.
fn last_offset(dims: &Vec<usize>, stride: &Vec<usize>, start_offset: usize) -> (r: Option<usize>)
    requires
        dims@.len() == stride@.len(),
        forall|i: int| 0 <= i < dims@.len() ==> #[trigger] dims@[i] > 0,
    ensures
        r matches Some(end) ==> end == start_offset + dot(last_index(dims@), stride@),
        r is None ==> start_offset + dot(last_index(dims@), stride@) > usize::MAX,
{
    let mut end: usize = start_offset;
    let mut i: usize = 0;
    while i < dims.len()
        invariant
            i <= dims@.len(),
            dims@.len() == stride@.len(),
            forall|i: int| 0 <= i < dims@.len() ==> #[trigger] dims@[i] > 0,
            end == start_offset + dot(last_index(dims@).take(i as int), stride@.take(i as int)),
        decreases dims@.len() - i,
    {
        proof {
            lemma_dot_step(last_index(dims@), stride@, i as int);
            lemma_dot_grows(last_index(dims@), stride@, i + 1);
        }
        let step: Option<usize> = stride[i].checked_mul(dims[i] - 1);
        proof {
            let (s, d): (int, int) = (stride@[i as int] as int, dims@[i as int] - 1);
            assert(s * d == d * s) by (nonlinear_arith);
        }
        match step {
            None => {
                return None;
            },
            Some(step) => {
                match end.checked_add(step) {
                    None => {
                        return None;
                    },
                    Some(sum) => {
                        end = sum;
                    },
                }
            },
        }
        i = i + 1;
    }
    proof {
        assert(last_index(dims@).take(i as int) =~= last_index(dims@));
        assert(stride@.take(i as int) =~= stride@);
    }
    Some(end)
}

proof fn lemma_dot_step(index: Seq<int>, stride: Seq<usize>, i: int)
    requires
        0 <= i < index.len(),
        index.len() == stride.len(),
    ensures
        dot(index.take(i + 1), stride.take(i + 1)) == dot(index.take(i), stride.take(i)) + index[i]
            * stride[i],
{
    assert(index.take(i + 1).drop_last() =~= index.take(i));
    assert(stride.take(i + 1).drop_last() =~= stride.take(i));
}

proof fn lemma_dot_grows(index: Seq<int>, stride: Seq<usize>, i: int)
    requires
        0 <= i <= index.len(),
        index.len() == stride.len(),
        forall|k: int| 0 <= k < index.len() ==> #[trigger] index[k] >= 0,
    ensures
        0 <= dot(index.take(i), stride.take(i)) <= dot(index, stride),
    decreases index.len() + (index.len() - i),
{
    if i < index.len() {
        lemma_dot_grows(index, stride, i + 1);
        lemma_dot_step(index, stride, i);
        let (a, s): (int, int) = (index[i], stride[i] as int);
        assert(0 <= a * s) by (nonlinear_arith)
            requires
                0 <= a,
                0 <= s,
        ;
        lemma_dot_nonnegative(index.take(i), stride.take(i));
    } else {
        assert(index.take(i) =~= index);
        assert(stride.take(i) =~= stride);
        lemma_dot_nonnegative(index, stride);
    }
}

proof fn lemma_dot_nonnegative(index: Seq<int>, stride: Seq<usize>)
    requires
        index.len() == stride.len(),
        forall|k: int| 0 <= k < index.len() ==> #[trigger] index[k] >= 0,
    ensures
        0 <= dot(index, stride),
    decreases index.len(),
{
    if index.len() > 0 {
        lemma_dot_nonnegative(index.drop_last(), stride.drop_last());
        let (a, s): (int, int) = (index.last(), stride.last() as int);
        assert(0 <= a * s) by (nonlinear_arith)
            requires
                0 <= a,
                0 <= s,
        ;
    }
}

/// Whether every run of dimensions has a product that is small enough to compute with.
fn has_room(dims: &Vec<usize>) -> (r: bool)
    ensures
        r == bounded(dims@, usize::MAX / 2),
{
    let mut i: usize = 0;
    while i < dims.len()
        invariant
            i <= dims@.len(),
            forall|p: int, q: int|
                0 <= p < i && p <= q <= dims@.len() ==> product(#[trigger] dims@.subrange(p, q))
                    <= usize::MAX / 2,
        decreases dims@.len() - i,
    {
        let mut acc: usize = 1;
        let mut j: usize = i;
        proof {
            assert(dims@.subrange(i as int, i as int) =~= Seq::<usize>::empty());
            assert(product(Seq::<usize>::empty()) == 1);
        }
        while j < dims.len()
            invariant
                i <= j <= dims@.len(),
                acc == product(dims@.subrange(i as int, j as int)),
                forall|q: int|
                    i <= q <= j ==> product(#[trigger] dims@.subrange(i as int, q)) <= usize::MAX
                        / 2,
            decreases dims@.len() - j,
        {
            proof {
                let longer: Seq<usize> = dims@.subrange(i as int, j + 1);
                assert(longer.drop_last() =~= dims@.subrange(i as int, j as int));
                assert(product(longer) == acc * dims@[j as int]);
            }
            match acc.checked_mul(dims[j]) {
                None => {
                    return false;
                },
                Some(next) => {
                    if next > usize::MAX / 2 {
                        return false;
                    }
                    acc = next;
                },
            }
            j = j + 1;
        }
        i = i + 1;
    }
    proof {
        assert forall|p: int, q: int| 0 <= p <= q <= dims@.len() implies product(
            #[trigger] dims@.subrange(p, q),
        ) <= usize::MAX / 2 by {
            if p == dims@.len() {
                assert(dims@.subrange(p, q) =~= Seq::<usize>::empty());
                assert(product(Seq::<usize>::empty()) == 1);
            }
        }
    }
    true
}

/// Whether some dimension has size zero.
fn has_empty_dim(dims: &Vec<usize>) -> (r: bool)
    ensures
        r == exists|i: int| 0 <= i < dims@.len() && #[trigger] dims@[i] == 0,
{
    let mut i: usize = 0;
    while i < dims.len()
        invariant
            i <= dims@.len(),
            forall|k: int| 0 <= k < i ==> #[trigger] dims@[k] != 0,
        decreases dims@.len() - i,
    {
        if dims[i] == 0 {
            return true;
        }
        i = i + 1;
    }
    false
}

/// A copy of a list of sizes.
pub fn copy_sizes(sizes: &Vec<usize>) -> (r: Vec<usize>)
    ensures
        r@ == sizes@,
{
    let r: Vec<usize> = sizes.clone();
    proof {
        assert(r@ =~= sizes@);
    }
    r
}

impl Clone for Tensor {
    fn clone(&self) -> (r: Self)
        ensures
            r@ == self@,
    {
        Tensor {
            storage: self.storage,
            dims: copy_sizes(&self.dims),
            stride: copy_sizes(&self.stride),
            start_offset: self.start_offset,
            location: self.location,
        }
    }
}

impl Tensor {
    pub closed spec fn view(&self) -> TensorView {
        TensorView {
            storage: self.storage,
            dims: self.dims@,
            stride: self.stride@,
            start_offset: self.start_offset,
            location: self.location,
        }
    }

    /// A tensor over `storage`, unless some of its elements would lie outside the storage or its
    /// layout is too large to compute with.
    pub fn new(
        storage: Storage,
        dims: Vec<usize>,
        stride: Vec<usize>,
        start_offset: usize,
        location: DeviceLocation,
    ) -> (r: Option<Tensor>)
        ensures
            ({
                let t = TensorView {
                    storage,
                    dims: dims@,
                    stride: stride@,
                    start_offset,
                    location,
                };
                &&& r is Some <==> t.wf()
                &&& r matches Some(tensor) ==> tensor@ == t
            }),
    {
        let size: usize = storage.dtype.size_in_bytes();
        match storage.len.checked_mul(size) {
            None => {
                return None;
            },
            Some(bytes) => {
                if storage.ptr > u64::MAX - bytes as u64 {
                    return None;
                }
            },
        }
        if dims.len() != stride.len() || !has_room(&dims) || start_offset > usize::MAX / 2 {
            return None;
        }
        let ghost t = TensorView { storage, dims: dims@, stride: stride@, start_offset, location };
        if !has_empty_dim(&dims) {
            proof {
                assert(!t.empty());
                assert forall|i: int| 0 <= i < dims@.len() implies #[trigger] dims@[i] > 0 by {
                    assert(t.dims[i] != 0);
                }
            }
            match last_offset(&dims, &stride, start_offset) {
                None => {
                    return None;
                },
                Some(end) => {
                    if end >= storage.len {
                        return None;
                    }
                },
            }
        }
        Some(Tensor { storage, dims, stride, start_offset, location })
    }

    pub fn storage(&self) -> (r: Storage)
        ensures
            r == self@.storage,
    {
        self.storage
    }

    pub fn dims(&self) -> (r: &Vec<usize>)
        ensures
            r@ == self@.dims,
    {
        &self.dims
    }

    pub fn stride(&self) -> (r: &Vec<usize>)
        ensures
            r@ == self@.stride,
    {
        &self.stride
    }

    pub fn start_offset(&self) -> (r: usize)
        ensures
            r == self@.start_offset,
    {
        self.start_offset
    }

    pub fn location(&self) -> (r: DeviceLocation)
        ensures
            r == self@.location,
    {
        self.location
    }

    pub fn dtype(&self) -> (r: DType)
        ensures
            r == self@.dtype(),
    {
        self.storage.dtype
    }

    pub fn rank(&self) -> (r: usize)
        ensures
            r == self@.dims.len(),
    {
        self.dims.len()
    }

    /// The number of elements.
    pub fn elem_count(&self) -> (r: usize)
        requires
            self@.wf(),
        ensures
            r == self@.elem_count(),
    {
        candle_elem_count(&self.dims)
    }

    /// Whether the elements are stored in row-major order without gaps.
    pub fn is_contiguous(&self) -> (r: bool)
        requires
            self@.wf(),
        ensures
            r == self@.is_contiguous(),
    {
        candle_is_contiguous(&self.dims, &self.stride)
    }

    /// `dim` itself where the tensor has such a dimension.
    pub fn to_index(&self, dim: usize, op: Op) -> (r: Result<usize, GraphError>)
        ensures
            match r {
                Ok(index) => index == dim && dim < self@.dims.len(),
                Err(e) => dim >= self@.dims.len() && e@ == (ErrorView::DimOutOfRange {
                    shape: self@.dims,
                    dim,
                    op,
                }),
            },
    {
        match candle_dim_to_index(&self.dims, dim, op.name()) {
            Ok(index) => Ok(index),
            Err(_) => Err(GraphError::DimOutOfRange { shape: copy_sizes(&self.dims), dim, op }),
        }
    }

    /// The size of dimension `dim`.
    pub fn dim(&self, dim: usize) -> (r: Result<usize, GraphError>)
        ensures
            match r {
                Ok(size) => dim < self@.dims.len() && size == self@.dims[dim as int],
                Err(e) => dim >= self@.dims.len() && e@ == (ErrorView::DimOutOfRange {
                    shape: self@.dims,
                    dim,
                    op: Op::Dim,
                }),
            },
    {
        match self.to_index(dim, Op::Dim) {
            Ok(index) => Ok(self.dims[index]),
            Err(e) => Err(e),
        }
    }

    /// The view of `len` slots from `start` on dimension `dim`, over the same storage.
    pub fn narrow(&self, dim: usize, start: usize, len: usize) -> (r: Result<Tensor, GraphError>)
        requires
            self@.wf(),
            self@.narrow_error(dim, start, len) is None ==> self@.start_offset
                + self@.stride[dim as int] * start <= usize::MAX / 2,
        ensures
            match r {
                Ok(t) => {
                    &&& self@.narrow_error(dim, start, len) is None
                    &&& t@ == self@.narrow(dim as int, start as int, len)
                    &&& t@.wf()
                },
                Err(e) => self@.narrow_error(dim, start, len) == Some(e@),
            },
    {
        if start <= usize::MAX - len {
            match candle_layout_narrow(
                &self.dims,
                &self.stride,
                self.start_offset,
                dim,
                start,
                len,
            ) {
                Ok((dims, stride, start_offset)) => {
                    let t = Tensor {
                        storage: self.storage,
                        dims,
                        stride,
                        start_offset,
                        location: self.location,
                    };
                    proof {
                        assert(t@ == self@.narrow(dim as int, start as int, len));
                        lemma_narrow_wf(self@, dim as int, start as int, len);
                    }
                    return Ok(t);
                },
                Err(_) => {},
            }
        }
        let shape: Vec<usize> = copy_sizes(&self.dims);
        if dim >= self.dims.len() {
            Err(GraphError::DimOutOfRange { shape, dim, op: Op::Narrow })
        } else {
            Err(GraphError::NarrowInvalidArgs { shape, dim, start, len })
        }
    }
}

/// A narrower view of a tensor stays inside its storage.
pub proof fn lemma_narrow_wf(t: TensorView, dim: int, start: int, len: usize)
    requires
        t.wf(),
        0 <= dim < t.dims.len(),
        0 <= start,
        start + len <= t.dims[dim],
        t.start_offset + t.stride[dim] * start <= usize::MAX / 2,
    ensures
        t.narrow(dim, start, len).wf(),
{
    let n = t.narrow(dim, start, len);
    let s: int = t.stride[dim] as int;
    assert(0 <= s * start) by (nonlinear_arith)
        requires
            0 <= s,
            0 <= start,
    ;
    lemma_bounded_update(t.dims, usize::MAX / 2, dim, len);
    if !n.empty() {
        assert forall|i: int| 0 <= i < t.dims.len() implies #[trigger] t.dims[i] != 0 by {
            assert(n.dims[i] != 0);
        }
        assert(n.dims[dim] == len);
        let last: Seq<int> = last_index(n.dims);
        assert(last.len() == t.dims.len());
        let moved: Seq<int> = last.update(dim, last[dim] + start);
        lemma_dot_update(last, t.stride, dim, last[dim] + start);
        assert(valid_index(t.dims, moved)) by {
            assert forall|i: int| 0 <= i < t.dims.len() implies 0 <= #[trigger] moved[i]
                < t.dims[i] by {
                assert(n.dims[i] != 0);
            }
        }
        lemma_dot_bounds(t.dims, t.stride, moved);
        assert((last[dim] + start - last[dim]) * t.stride[dim] == s * start) by (nonlinear_arith)
            requires
                s == t.stride[dim],
        ;
    }
}

proof fn lemma_bounded_update(dims: Seq<usize>, max: usize, dim: int, len: usize)
    requires
        bounded(dims, max),
        0 <= dim < dims.len(),
        len <= dims[dim],
    ensures
        bounded(dims.update(dim, len), max),
{
    let new: Seq<usize> = dims.update(dim, len);
    assert forall|i: int, j: int| 0 <= i <= j <= new.len() implies product(
        #[trigger] new.subrange(i, j),
    ) <= max by {
        let (a, b): (Seq<usize>, Seq<usize>) = (dims.subrange(i, j), new.subrange(i, j));
        assert(product(a) <= max);
        if i <= dim < j {
            let k: int = dim - i;
            lemma_product_split(a, k);
            lemma_product_split(b, k);
            assert(a.take(k) =~= b.take(k));
            assert(a.skip(k + 1) =~= b.skip(k + 1));
            let (p, q): (nat, nat) = (product(a.take(k)), product(a.skip(k + 1)));
            let (x, y): (nat, nat) = (len as nat, dims[dim] as nat);
            assert(p * (x * q) <= p * (y * q)) by (nonlinear_arith)
                requires
                    x <= y,
            ;
        } else {
            assert(a =~= b);
        }
    }
}

} // verus!

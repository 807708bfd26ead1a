//! Which tensors there can be, and what a narrower view of one is.

use vstd::prelude::*;

use crate::dtype::DType;
use crate::error::{ErrorView, Op};
use crate::shape::{bounded, contiguous, dot, last_index, product, row_major, valid_index};
use crate::shape::{lemma_contiguous_dot, lemma_dot_bounds, lemma_dot_update};
use crate::shape::lemma_product_append;
use crate::slice_laws::{lemma_dot_zero, lemma_last_row_major, lemma_nonempty};
use crate::tensor::{Storage, TensorView};

verus! {

/// The number of bytes that an element of each type takes up.
pub proof fn law_element_sizes(dtype: DType)
    ensures
        dtype.size_in_bytes() == 1 <==> dtype == DType::U8,
        dtype.size_in_bytes() == 2 <==> dtype == DType::BF16 || dtype == DType::F16,
        dtype.size_in_bytes() == 4 <==> dtype == DType::U32 || dtype == DType::F32,
        dtype.size_in_bytes() == 8 <==> dtype == DType::I64 || dtype == DType::F64,
{
}

/// The elements of a storage lie one after the other from its address on, each as many bytes after
/// the one before it as an element takes up.
pub proof fn law_storage_addresses(s: Storage, offset: int)
    ensures
        s.address(0) == s.ptr,
        s.address(offset + 1) == s.address(offset) + s.dtype.size_in_bytes(),
{
    let size: int = s.dtype.size_in_bytes() as int;
    assert((offset + 1) * size == offset * size + size) by (nonlinear_arith);
    assert(0 * size == 0);
}

/// There is a tensor of a given layout exactly if its storage lies within the address space, every
/// dimension has a stride, every element lies inside the storage, and the layout can be computed
/// with.
pub proof fn law_tensors_lie_inside_their_storages(t: TensorView)
    ensures
        t.wf() <==> {
            let bytes = t.storage.len * t.storage.dtype.size_in_bytes();
            &&& bytes <= usize::MAX
            &&& t.storage.ptr + bytes <= u64::MAX
            &&& t.dims.len() == t.stride.len()
            &&& t.start_offset <= usize::MAX / 2
            &&& forall|i: int, j: int|
                0 <= i <= j <= t.dims.len() ==> product(#[trigger] t.dims.subrange(i, j))
                    <= usize::MAX / 2
            &&& forall|index: Seq<int>| #[trigger]
                valid_index(t.dims, index) ==> t.start_offset + dot(index, t.stride)
                    < t.storage.len
        },
{
    if t.dims.len() == t.stride.len() {
        if t.wf() {
            assert forall|index: Seq<int>| #[trigger] valid_index(t.dims, index) implies t.start_offset
                + dot(index, t.stride) < t.storage.len by {
                lemma_dot_bounds(t.dims, t.stride, index);
                assert(!t.empty()) by {
                    assert forall|i: int| 0 <= i < t.dims.len() implies #[trigger] t.dims[i]
                        != 0 by {
                        assert(0 <= index[i] < t.dims[i]);
                    }
                }
            }
        }
        if !t.empty() {
            let last: Seq<int> = last_index(t.dims);
            assert(valid_index(t.dims, last)) by {
                assert forall|i: int| 0 <= i < t.dims.len() implies 0 <= #[trigger] last[i]
                    < t.dims[i] by {
                    assert(t.dims[i] != 0);
                }
            }
        }
    }
}

/// A contiguous layout that has elements and ends within its storage is one that there is a tensor
/// of, if the storage is one that can be addressed with signed offsets.
pub proof fn law_contiguous_tensors_fit(t: TensorView)
    requires
        t.storage.wf(),
        t.storage.len <= usize::MAX / 2,
        contiguous(t.dims, t.stride),
        product(t.dims) > 0,
        t.start_offset + product(t.dims) <= t.storage.len,
    ensures
        t.wf(),
{
    lemma_nonempty(t.dims);
    assert(bounded(t.dims, usize::MAX / 2)) by {
        assert forall|i: int, j: int| 0 <= i <= j <= t.dims.len() implies product(
            #[trigger] t.dims.subrange(i, j),
        ) <= usize::MAX / 2 by {
            lemma_run_below(t.dims, i, j);
        }
    }
    let last: Seq<int> = last_index(t.dims);
    assert(valid_index(t.dims, last)) by {
        assert forall|i: int| 0 <= i < t.dims.len() implies 0 <= #[trigger] last[i] < t.dims[i] by {
            assert(t.dims[i] > 0);
        }
    }
    lemma_contiguous_dot(t.dims, t.stride, last);
    lemma_last_row_major(t.dims);
}

proof fn lemma_positive(dims: Seq<usize>)
    requires
        forall|i: int| 0 <= i < dims.len() ==> #[trigger] dims[i] > 0,
    ensures
        product(dims) > 0,
    decreases dims.len(),
{
    if dims.len() > 0 {
        assert forall|i: int| 0 <= i < dims.len() - 1 implies #[trigger] dims.drop_last()[i]
            > 0 by {
            assert(dims[i] > 0);
        }
        lemma_positive(dims.drop_last());
        let (p, d): (nat, nat) = (product(dims.drop_last()), dims.last() as nat);
        assert(dims[dims.len() - 1] > 0);
        assert(p * d > 0) by (nonlinear_arith)
            requires
                p > 0,
                d > 0,
        ;
    }
}

/// A run of dimensions has no more elements than all of them.
proof fn lemma_run_below(dims: Seq<usize>, i: int, j: int)
    requires
        forall|k: int| 0 <= k < dims.len() ==> #[trigger] dims[k] > 0,
        0 <= i <= j <= dims.len(),
    ensures
        product(dims.subrange(i, j)) <= product(dims),
{
    let n: int = dims.len() as int;
    let (a, b, c): (Seq<usize>, Seq<usize>, Seq<usize>) = (
        dims.subrange(0, i),
        dims.subrange(i, j),
        dims.subrange(j, n),
    );
    assert(dims =~= (a + b) + c);
    lemma_product_append(a + b, c);
    lemma_product_append(a, b);
    assert forall|k: int| 0 <= k < a.len() implies #[trigger] a[k] > 0 by {
        assert(dims[k] > 0);
    }
    assert forall|k: int| 0 <= k < c.len() implies #[trigger] c[k] > 0 by {
        assert(dims[k + j] > 0);
    }
    lemma_positive(a);
    lemma_positive(c);
    let (x, y, z): (nat, nat, nat) = (product(a), product(b), product(c));
    assert(y <= (x * y) * z) by (nonlinear_arith)
        requires
            x >= 1,
            z >= 1,
    ;
}

/// A narrower view is refused exactly if there is no such dimension or it does not have the slots
/// asked for, and what is said is what was asked for.
pub proof fn law_narrow_refusals(t: TensorView, dim: usize, start: usize, len: usize)
    ensures
        t.narrow_error(dim, start, len) is None <==> dim < t.dims.len() && start + len
            <= t.dims[dim as int],
        t.narrow_error(dim, start, len) matches Some(e) ==> e == (if dim >= t.dims.len() {
            ErrorView::DimOutOfRange { shape: t.dims, dim, op: Op::Narrow }
        } else {
            ErrorView::NarrowInvalidArgs { shape: t.dims, dim, start, len }
        }),
{
}

/// A narrower view has `len` slots on the dimension and is as long on the others; it shares the
/// storage and the strides, and begins `start` slots later.
pub proof fn law_narrow_shape(t: TensorView, dim: int, start: int, len: usize)
    requires
        0 <= dim < t.dims.len(),
        0 <= start,
        t.start_offset + t.stride[dim] * start <= usize::MAX,
    ensures
        ({
            let n = t.narrow(dim, start, len);
            &&& n.dims.len() == t.dims.len()
            &&& n.dims[dim] == len
            &&& forall|k: int|
                0 <= k < t.dims.len() && k != dim ==> #[trigger] n.dims[k] == t.dims[k]
            &&& n.stride == t.stride
            &&& n.storage == t.storage
            &&& n.location == t.location
            &&& n.start_offset == t.start_offset + start * t.stride[dim]
        }),
{
    let s: int = t.stride[dim] as int;
    assert(s * start == start * s && 0 <= s * start) by (nonlinear_arith)
        requires
            0 <= s,
            0 <= start,
    ;
}

/// The whole of a dimension is no narrower: such a view reads the same elements.
pub proof fn law_narrow_to_all(t: TensorView, dim: int)
    requires
        0 <= dim < t.dims.len(),
    ensures
        t.narrow(dim, 0, t.dims[dim]) == t,
{
    let s: int = t.stride[dim] as int;
    assert(s * 0 == 0);
    assert(t.dims.update(dim, t.dims[dim]) =~= t.dims);
}

/// The elements of a contiguous tensor lie one after the other in row-major order.
pub proof fn law_contiguous_elements(t: TensorView, index: Seq<int>)
    requires
        t.is_contiguous(),
        valid_index(t.dims, index),
    ensures
        t.address(index) == t.storage.address(t.start_offset + row_major(t.dims, index)),
{
    lemma_contiguous_dot(t.dims, t.stride, index);
}

/// The operations are reported under these names.
pub proof fn law_operation_names(op: Op)
    ensures
        op.name()@ == match op {
            Op::Dim => "dim"@,
            Op::Narrow => "narrow"@,
            Op::SliceSet => "slice-set"@,
            Op::SliceSetAt => "slice-set-at"@,
            Op::Copy2dCuda => "copy2d CUDA"@,
        },
{
}

/// The first element of a tensor lies at its start offset, and one step along a dimension leads
/// from any element to one that lies the stride of that dimension further.
pub proof fn law_element_addresses(t: TensorView, index: Seq<int>, dim: int)
    requires
        t.dims.len() == t.stride.len(),
        index.len() == t.dims.len(),
        0 <= dim < t.dims.len(),
    ensures
        t.address(Seq::new(t.dims.len(), |k: int| 0int)) == t.storage.address(
            t.start_offset as int,
        ),
        t.address(index.update(dim, index[dim] + 1)) == t.address(index) + t.stride[dim]
            * t.storage.dtype.size_in_bytes(),
{
    lemma_dot_zero(Seq::new(t.dims.len(), |k: int| 0int), t.stride);
    lemma_dot_update(index, t.stride, dim, index[dim] + 1);
    let (o, s, e): (int, int, int) = (
        t.start_offset + dot(index, t.stride),
        t.stride[dim] as int,
        t.storage.dtype.size_in_bytes() as int,
    );
    assert((index[dim] + 1 - index[dim]) * s == s) by (nonlinear_arith);
    assert((o + s) * e == o * e + s * e) by (nonlinear_arith);
}

/// A tensor is contiguous exactly if every dimension that has more than one slot is strided by the
/// number of elements in one slot of it. Where in its storage it begins plays no part, nor does
/// what it holds or where it lies.
pub proof fn law_contiguous_layouts(t: TensorView)
    ensures
        t.is_contiguous() <==> {
            &&& t.dims.len() == t.stride.len()
            &&& forall|k: int|
                0 <= k < t.dims.len() && t.dims[k] > 1 ==> #[trigger] t.stride[k] == product(
                    t.dims.skip(k + 1),
                )
        },
{
}

/// Some slots of the first dimension of a contiguous tensor, from any slot on, are contiguous too.
pub proof fn law_first_slots_are_contiguous(t: TensorView, start: int, len: usize)
    requires
        t.is_contiguous(),
        t.dims.len() > 0,
        0 <= start,
        start + len <= t.dims[0],
    ensures
        t.narrow(0, start, len).is_contiguous(),
{
    let n = t.narrow(0, start, len);
    assert forall|k: int| 0 <= k < n.dims.len() && n.dims[k] > 1 implies #[trigger] n.stride[k]
        == product(n.dims.skip(k + 1)) by {
        assert(n.dims.skip(k + 1) =~= t.dims.skip(k + 1));
        assert(t.dims[k] > 1);
        assert(t.stride[k] == product(t.dims.skip(k + 1)));
    }
}

/// A tensor has the element type of its storage, and as many elements as its dimensions multiply
/// to: one if it has none, none if one of them is empty, and with one more dimension as many times
/// more as that is long.
pub proof fn law_element_counts(t: TensorView, d: usize)
    ensures
        t.dtype() == t.storage.dtype,
        t.dims.len() == 0 ==> t.elem_count() == 1,
        t.elem_count() == 0 <==> exists|k: int| 0 <= k < t.dims.len() && #[trigger] t.dims[k] == 0,
        (TensorView { dims: t.dims.push(d), ..t }).elem_count() == t.elem_count() * d,
{
    assert(t.dims.push(d).drop_last() =~= t.dims);
    if t.elem_count() > 0 {
        lemma_nonempty(t.dims);
    }
    if !(exists|k: int| 0 <= k < t.dims.len() && #[trigger] t.dims[k] == 0) {
        lemma_positive(t.dims);
    }
}

} // verus!

//! Copying a tensor in place over another.

use vstd::prelude::*;

use crate::dtype::DType;
use crate::error::{viewed, ErrorView, GraphError};
use crate::memory::{element, Cells, Memcpy};
use crate::shape::{lemma_bounded_count, lemma_contiguous_dot, lemma_row_major_bounds};
use crate::shape::{row_major, valid_index};
use crate::slice_laws::{lemma_address_order, lemma_inside_storage};
use crate::tensor::{copy_sizes, Storage, Tensor, TensorView};

verus! {

/// What copying `count` elements of type `dtype` between two storages comes to. Both storages
/// have to hold that type and reach far enough.
pub open spec fn memcpy_outcome(
    dtype: DType,
    src: Storage,
    src_o: usize,
    dst: Storage,
    dst_o: usize,
    count: usize,
) -> Result<Memcpy, ErrorView> {
    if src.dtype != dtype {
        Err(ErrorView::UnexpectedDType { expected: dtype, got: src.dtype })
    } else if dst.dtype != dtype {
        Err(ErrorView::UnexpectedDType { expected: dtype, got: dst.dtype })
    } else if src_o + count > src.len || dst_o + count > dst.len {
        Err(
            ErrorView::StorageTooSmall {
                count,
                src_offset: src_o,
                dst_offset: dst_o,
                src_len: src.len,
                dst_len: dst.len,
            },
        )
    } else {
        Ok(
            Memcpy {
                dst: dst.address(dst_o as int) as u64,
                src: src.address(src_o as int) as u64,
                count,
                elem: dtype.size_in_bytes(),
            },
        )
    }
}

/// What copying `src` over `dst` comes to: the elements that the layout of `src` names go to
/// those that the layout of `dst` names, and the rest of the two storages plays no part.
pub open spec fn copy_inplace_outcome(src: TensorView, dst: TensorView) -> Result<
    Memcpy,
    ErrorView,
> {
    if !src.is_contiguous() {
        Err(ErrorView::SourceNotContiguous { shape: src.dims })
    } else if !dst.is_contiguous() {
        Err(ErrorView::DestinationNotContiguous { shape: dst.dims })
    } else if src.dims != dst.dims {
        Err(ErrorView::ShapeMismatch { src: src.dims, dst: dst.dims })
    } else if src.dtype() != dst.dtype() {
        Err(ErrorView::CopyDType)
    } else {
        memcpy_outcome(
            src.dtype(),
            src.storage,
            src.start_offset,
            dst.storage,
            dst.start_offset,
            src.elem_count() as usize,
        )
    }
}

/// Prepares a copy of `count` elements of type `dtype`, from `src_o` on in `src` to `dst_o` on in
/// `dst`.
pub fn memcpy_dtod(
    dtype: DType,
    src: &Storage,
    src_o: usize,
    dst: &Storage,
    dst_o: usize,
    count: usize,
) -> (r: Result<Memcpy, GraphError>)
    requires
        src.wf(),
        dst.wf(),
    ensures
        viewed(r) == memcpy_outcome(dtype, *src, src_o, *dst, dst_o, count),
        r matches Ok(copy) ==> copy.count * copy.elem <= usize::MAX,
{
    if src.dtype != dtype {
        return Err(GraphError::UnexpectedDType { expected: dtype, got: src.dtype });
    }
    if dst.dtype != dtype {
        return Err(GraphError::UnexpectedDType { expected: dtype, got: dst.dtype });
    }
    let fits: bool = src_o <= src.len && count <= src.len - src_o && dst_o <= dst.len && count
        <= dst.len - dst_o;
    if !fits {
        return Err(
            GraphError::StorageTooSmall {
                count,
                src_offset: src_o,
                dst_offset: dst_o,
                src_len: src.len,
                dst_len: dst.len,
            },
        );
    }
    let elem: usize = dtype.size_in_bytes();
    proof {
        let (e, a, b): (int, int, int) = (elem as int, src.len as int, dst.len as int);
        let (x, y, c): (int, int, int) = (src_o as int, dst_o as int, count as int);
        assert(0 <= x * e <= a * e && 0 <= y * e <= b * e && 0 <= c * e <= a * e)
            by (nonlinear_arith)
            requires
                0 <= x <= a,
                0 <= y <= b,
                0 <= c <= a,
                1 <= e,
        ;
    }
    Ok(
        Memcpy {
            dst: dst.ptr + (dst_o * elem) as u64,
            src: src.ptr + (src_o * elem) as u64,
            count,
            elem,
        },
    )
}

/// Whether two lists of sizes are the same.
pub fn same_sizes(a: &Vec<usize>, b: &Vec<usize>) -> (r: bool)
    ensures
        r == (a@ == b@),
{
    if a.len() != b.len() {
        return false;
    }
    let mut i: usize = 0;
    while i < a.len()
        invariant
            i <= a@.len() == b@.len(),
            forall|k: int| 0 <= k < i ==> a@[k] == b@[k],
        decreases a@.len() - i,
    {
        if a[i] != b[i] {
            return false;
        }
        i = i + 1;
    }
    proof {
        assert(a@ =~= b@);
    }
    true
}

/// Two tensors that can be told apart without looking at their storages, or that both lie on
/// CUDA devices.
pub open spec fn copy_inplace_admits(src: TensorView, dst: TensorView) -> bool {
    &&& src.wf()
    &&& dst.wf()
    &&& src.is_contiguous() && dst.is_contiguous() && src.dims == dst.dims ==> src.location is Cuda
        && dst.location is Cuda
}

/// Prepares the copy of `src` over `dst`. This is what the inputs of a graph are loaded with.
pub fn copy_inplace(src: &Tensor, dst: &Tensor) -> (r: Result<Memcpy, GraphError>)
    requires
        copy_inplace_admits(src@, dst@),
    ensures
        viewed(r) == copy_inplace_outcome(src@, dst@),
        r matches Ok(copy) ==> copy.count * copy.elem <= usize::MAX,
{
    // The copy is flat, so a source that is not contiguous, most commonly one that repeats a
    // single element, has no run of elements to copy from.
    if !src.is_contiguous() {
        return Err(GraphError::SourceNotContiguous { shape: copy_sizes(src.dims()) });
    }
    if !dst.is_contiguous() {
        return Err(GraphError::DestinationNotContiguous { shape: copy_sizes(dst.dims()) });
    }
    if !same_sizes(src.dims(), dst.dims()) {
        return Err(
            GraphError::ShapeMismatch { src: copy_sizes(src.dims()), dst: copy_sizes(dst.dims()) },
        );
    }
    if src.dtype() != dst.dtype() {
        return Err(GraphError::CopyDType);
    }
    // A storage is the whole allocation. A contiguous view shares it with the tensor that it was
    // taken from, so the place and the count come from the layouts.
    memcpy_dtod(
        src.dtype(),
        &src.storage(),
        src.start_offset(),
        &dst.storage(),
        dst.start_offset(),
        src.elem_count(),
    )
}

/// A tensor with elements can be copied over another exactly where both are contiguous and agree
/// in shape and element type.
pub proof fn law_copy_inplace_accepts(src: TensorView, dst: TensorView)
    requires
        src.wf(),
        dst.wf(),
        src.elem_count() > 0,
    ensures
        copy_inplace_outcome(src, dst) is Ok <==> {
            &&& src.is_contiguous()
            &&& dst.is_contiguous()
            &&& src.dims == dst.dims
            &&& src.dtype() == dst.dtype()
        },
{
    if src.is_contiguous() && dst.is_contiguous() && src.dims == dst.dims {
        lemma_inside_storage(src, src.elem_count() - 1);
        lemma_inside_storage(dst, src.elem_count() - 1);
    }
}

proof fn lemma_copy_cells(src: TensorView, dst: TensorView, copy: Memcpy, k: int)
    requires
        src.wf(),
        dst.wf(),
        copy_inplace_outcome(src, dst) == Ok::<_, ErrorView>(copy),
        0 <= k < src.elem_count(),
    ensures
        copy.count == src.elem_count() == dst.elem_count(),
        copy.src_cell(k) == src.storage.address(src.start_offset + k),
        copy.dst_cell(k) == dst.storage.address(dst.start_offset + k),
        src.start_offset + k < src.storage.len,
        dst.start_offset + k < dst.storage.len,
        src.storage.ptr <= copy.src_cell(k) < src.storage.address(src.storage.len as int)
            <= u64::MAX,
        dst.storage.ptr <= copy.dst_cell(k) < dst.storage.address(dst.storage.len as int)
            <= u64::MAX,
        dst.spans(copy.dst_cell(k) as u64),
{
    lemma_inside_storage(src, k);
    lemma_inside_storage(dst, k);
    lemma_inside_storage(src, 0);
    lemma_inside_storage(dst, 0);
    lemma_bounded_count(src.dims, usize::MAX / 2);
    let e: int = src.dtype().size_in_bytes() as int;
    let (a, b): (int, int) = (src.start_offset as int, dst.start_offset as int);
    assert((a + k) * e == a * e + k * e && (b + k) * e == b * e + k * e) by (nonlinear_arith);
    lemma_address_order(dst.storage, b, b + k);
    lemma_address_order(dst.storage, b + k, b);
    lemma_address_order(dst.storage, b + k, b + dst.elem_count());
}

/// A copy in place stays within the storages of its two tensors.
pub proof fn law_copy_inplace_runs(
    src: TensorView,
    dst: TensorView,
    copy: Memcpy,
    cells: Cells,
)
    requires
        src.wf(),
        dst.wf(),
        src.storage.allocated(cells),
        dst.storage.allocated(cells),
        src.storage.apart(dst.storage),
        copy_inplace_outcome(src, dst) == Ok::<_, ErrorView>(copy),
    ensures
        copy.runs_on(cells),
{
    lemma_bounded_count(src.dims, usize::MAX / 2);
    assert(copy.count == src.elem_count());
    assert forall|k: int| 0 <= k < copy.count implies #[trigger] copy.dst_cell(k) <= u64::MAX
        && cells.contains_key(copy.dst_cell(k) as u64) by {
        lemma_copy_cells(src, dst, copy, k);
    }
    assert forall|k: int| 0 <= k < copy.count implies #[trigger] copy.src_cell(k) <= u64::MAX
        && cells.contains_key(copy.src_cell(k) as u64) && !copy.writes(
        copy.src_cell(k) as u64,
    ) by {
        lemma_copy_cells(src, dst, copy, k);
        if copy.writes(copy.src_cell(k) as u64) {
            let m: int = choose|m: int|
                0 <= m < copy.count && copy.src_cell(k) as u64 == #[trigger] copy.dst_cell(m);
            lemma_copy_cells(src, dst, copy, m);
        }
    }
}

/// The memory `after` is the memory `before` with `src` copied over `dst`, and with nothing else
/// changed.
pub open spec fn copied(
    src: TensorView,
    dst: TensorView,
    before: Cells,
    after: Cells,
) -> bool {
    &&& after.dom() == before.dom()
    &&& forall|index: Seq<int>| #[trigger]
        valid_index(dst.dims, index) ==> element(after, dst, index) == element(before, src, index)
    &&& forall|a: u64|
        #![trigger after[a]]
        before.contains_key(a) && !dst.spans(a) ==> after[a] == before[a]
}

/// A copy in place makes the destination read as the source does, and changes nothing else: not
/// the rest of the storages that the two are views of.
pub proof fn law_copy_inplace_copies(
    src: TensorView,
    dst: TensorView,
    copy: Memcpy,
    before: Cells,
    after: Cells,
)
    requires
        src.wf(),
        dst.wf(),
        copy_inplace_outcome(src, dst) == Ok::<_, ErrorView>(copy),
        copy.effect(before, after),
    ensures
        copied(src, dst, before, after),
{
    assert forall|index: Seq<int>| #[trigger] valid_index(dst.dims, index) implies element(
        after,
        dst,
        index,
    ) == element(before, src, index) by {
        let k: int = row_major(dst.dims, index);
        lemma_contiguous_dot(dst.dims, dst.stride, index);
        lemma_contiguous_dot(src.dims, src.stride, index);
        lemma_row_major_bounds(dst.dims, index);
        lemma_copy_cells(src, dst, copy, k);
    }
    lemma_bounded_count(src.dims, usize::MAX / 2);
    assert(copy.count == src.elem_count());
    assert forall|a: u64|
        #![trigger after[a]]
        before.contains_key(a) && !dst.spans(a) implies after[a] == before[a] by {
        if copy.writes(a) {
            let m: int = choose|m: int| 0 <= m < copy.count && a == #[trigger] copy.dst_cell(m);
            lemma_copy_cells(src, dst, copy, m);
        }
    }
}

/// Elements are copied between two storages exactly where both hold the element type asked for and
/// reach far enough; then each element goes to its place. Where they are not, what is said is true
/// of the storages.
pub proof fn law_memcpy_accepts(
    dtype: DType,
    src: Storage,
    src_o: usize,
    dst: Storage,
    dst_o: usize,
    count: usize,
)
    requires
        src.wf(),
        dst.wf(),
    ensures
        ({
            let outcome = memcpy_outcome(dtype, src, src_o, dst, dst_o, count);
            &&& outcome is Ok <==> {
                &&& src.dtype == dtype
                &&& dst.dtype == dtype
                &&& src_o + count <= src.len
                &&& dst_o + count <= dst.len
            }
            &&& outcome matches Ok(copy) ==> {
                &&& copy.count == count
                &&& forall|k: int|
                    0 <= k <= count ==> #[trigger] copy.src_cell(k) == src.address(src_o + k)
                &&& forall|k: int|
                    0 <= k <= count ==> #[trigger] copy.dst_cell(k) == dst.address(dst_o + k)
            }
            &&& outcome matches Err(e) ==> match e {
                ErrorView::UnexpectedDType { expected, got } => {
                    &&& expected == dtype
                    &&& got != expected
                    &&& got == (if src.dtype != dtype {
                        src.dtype
                    } else {
                        dst.dtype
                    })
                },
                ErrorView::StorageTooSmall {
                    count: n,
                    src_offset,
                    dst_offset,
                    src_len,
                    dst_len,
                } => {
                    &&& n == count && src_offset == src_o && dst_offset == dst_o
                    &&& src_len == src.len && dst_len == dst.len
                    &&& src_o + count > src_len || dst_o + count > dst_len
                    &&& src.dtype == dtype && dst.dtype == dtype
                },
                _ => false,
            }
        }),
{
    let outcome = memcpy_outcome(dtype, src, src_o, dst, dst_o, count);
    if outcome is Ok {
        let copy: Memcpy = outcome->Ok_0;
        let e: int = dtype.size_in_bytes() as int;
        let (a, b): (int, int) = (src_o as int, dst_o as int);
        let (m, n): (int, int) = (src.len as int, dst.len as int);
        assert(0 <= a * e <= m * e && 0 <= b * e <= n * e) by (nonlinear_arith)
            requires
                0 <= a <= m,
                0 <= b <= n,
                1 <= e,
        ;
        assert forall|k: int| 0 <= k <= count implies #[trigger] copy.src_cell(k) == src.address(
            src_o + k,
        ) by {
            assert((a + k) * e == a * e + k * e) by (nonlinear_arith);
        }
        assert forall|k: int| 0 <= k <= count implies #[trigger] copy.dst_cell(k) == dst.address(
            dst_o + k,
        ) by {
            assert((b + k) * e == b * e + k * e) by (nonlinear_arith);
        }
    }
}

/// One tensor can be copied over another, with elements or without, exactly where both are
/// contiguous, agree in shape and element type, and end within their storages. The copy then goes
/// from the first element of the one to the first element of the other, and on for as many as
/// there are.
pub proof fn law_copy_inplace_starts(src: TensorView, dst: TensorView)
    requires
        src.wf(),
        dst.wf(),
    ensures
        copy_inplace_outcome(src, dst) is Ok <==> {
            &&& src.is_contiguous()
            &&& dst.is_contiguous()
            &&& src.dims == dst.dims
            &&& src.dtype() == dst.dtype()
            &&& src.start_offset + src.elem_count() <= src.storage.len
            &&& dst.start_offset + dst.elem_count() <= dst.storage.len
        },
        copy_inplace_outcome(src, dst) matches Ok(copy) ==> {
            &&& copy.src == src.storage.address(src.start_offset as int)
            &&& copy.dst == dst.storage.address(dst.start_offset as int)
            &&& copy.count == src.elem_count()
            &&& copy.elem == src.dtype().size_in_bytes()
        },
{
    lemma_bounded_count(src.dims, usize::MAX / 2);
    law_memcpy_accepts(
        src.dtype(),
        src.storage,
        src.start_offset,
        dst.storage,
        dst.start_offset,
        src.elem_count() as usize,
    );
    if copy_inplace_outcome(src, dst) is Ok {
        let copy: Memcpy = copy_inplace_outcome(src, dst)->Ok_0;
        assert(copy.src_cell(0) == src.storage.address(src.start_offset + 0));
        assert(copy.dst_cell(0) == dst.storage.address(dst.start_offset + 0));
        let e: int = copy.elem as int;
        assert(0 * e == 0);
    }
}

/// Where one tensor cannot be copied over another, what is said is true of the two, and it is the
/// first thing that is wrong with them.
pub proof fn law_copy_inplace_refusals_are_true(src: TensorView, dst: TensorView)
    requires
        src.wf(),
        dst.wf(),
    ensures
        copy_inplace_outcome(src, dst) matches Err(e) ==> match e {
            ErrorView::SourceNotContiguous { shape } => {
                &&& shape == src.dims
                &&& !src.is_contiguous()
            },
            ErrorView::DestinationNotContiguous { shape } => {
                &&& shape == dst.dims
                &&& src.is_contiguous() && !dst.is_contiguous()
            },
            ErrorView::ShapeMismatch { src: a, dst: b } => {
                &&& a == src.dims && b == dst.dims
                &&& a != b
                &&& src.is_contiguous() && dst.is_contiguous()
            },
            ErrorView::CopyDType => {
                &&& src.dtype() != dst.dtype()
                &&& src.is_contiguous() && dst.is_contiguous() && src.dims == dst.dims
            },
            ErrorView::StorageTooSmall { count, src_offset, dst_offset, src_len, dst_len } => {
                &&& src.dtype() == dst.dtype() && src.dims == dst.dims
                &&& src.is_contiguous() && dst.is_contiguous()
                &&& count == src.elem_count() == 0
                &&& src_offset == src.start_offset && dst_offset == dst.start_offset
                &&& src_len == src.storage.len && dst_len == dst.storage.len
                &&& src_offset > src_len || dst_offset > dst_len
            },
            _ => false,
        },
{
    lemma_bounded_count(src.dims, usize::MAX / 2);
    law_memcpy_accepts(
        src.dtype(),
        src.storage,
        src.start_offset,
        dst.storage,
        dst.start_offset,
        src.elem_count() as usize,
    );
    if src.elem_count() > 0 {
        law_copy_inplace_accepts(src, dst);
    }
}

/// Any two tensors on CUDA devices may be handed to a copy in place, whether or not it is refused,
/// and wherever they lie, any two that differ in shape or are not both contiguous.
pub proof fn law_copy_inplace_takes_all(src: TensorView, dst: TensorView)
    requires
        src.wf(),
        dst.wf(),
    ensures
        src.location is Cuda && dst.location is Cuda ==> copy_inplace_admits(src, dst),
        src.dims != dst.dims || !src.is_contiguous() || !dst.is_contiguous()
            ==> copy_inplace_admits(src, dst),
{
}

} // verus!

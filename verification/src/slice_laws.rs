//! What a slice written into a tensor is read back as.

use vstd::prelude::*;

use crate::copy2d::{offsets_fit, sizes_fit, Copy2d, Target};
use crate::dtype::DType;
use crate::error::ErrorView;
use crate::extension::{block_size, lemma_no_mismatch, lemma_one_element, lemma_row_sizes};
use crate::extension::{row_count, row_len};
use crate::extension::{slice_set_at_error, slice_set_at_outcome, slice_set_error, slice_set_outcome};
use crate::memory::{element, Cells};
use crate::shape::{dot, last_index, product, row_major, valid_index};
use crate::shape::{lemma_contiguous_dot, lemma_dot_bounds, lemma_dot_update};
use crate::shape::{lemma_product_split, lemma_row_major_bounds, lemma_row_major_split};
use crate::tensor::{Storage, TensorView};

verus! {

impl TensorView {
    /// Whether `address` lies in the part of the storage that a contiguous tensor takes up.
    pub open spec fn spans(&self, address: u64) -> bool {
        self.storage.address(self.start_offset as int) <= address < self.storage.address(
            self.start_offset + self.elem_count(),
        )
    }
}

/// `src` has the shape of `dst` but on dimension `dim`, where it fits from slot `slot` on.
pub open spec fn fits_at(dst: TensorView, src: TensorView, dim: int, slot: int) -> bool {
    &&& dst.wf()
    &&& src.wf()
    &&& dst.is_contiguous()
    &&& src.is_contiguous()
    &&& dst.dtype() == src.dtype()
    &&& dst.dims.len() == src.dims.len()
    &&& 0 <= dim < dst.dims.len()
    &&& forall|k: int| 0 <= k < dst.dims.len() && k != dim ==> #[trigger] dst.dims[k] == src.dims[k]
    &&& 0 <= slot
    &&& slot + src.dims[dim] <= dst.dims[dim]
}

/// The memory `after` is the memory `before` with `src` written into the slots of `dst` from
/// `slot` on, on dimension `dim`, and with nothing else changed.
pub open spec fn written_at(
    dst: TensorView,
    src: TensorView,
    dim: int,
    slot: int,
    before: Cells,
    after: Cells,
) -> bool {
    &&& after.dom() == before.dom()
    &&& forall|index: Seq<int>| #[trigger]
        valid_index(dst.dims, index) ==> element(after, dst, index) == (if slot <= index[dim] < slot
            + src.dims[dim] {
            element(before, src, index.update(dim, index[dim] - slot))
        } else {
            element(before, dst, index)
        })
    &&& forall|a: u64|
        #![trigger after[a]]
        before.contains_key(a) && !dst.spans(a) ==> after[a] == before[a]
}

/// A launch that copies the rows of `src` into the rows of `dst` from slot `slot` on.
pub open spec fn places(
    launch: Copy2d,
    dst: TensorView,
    src: TensorView,
    dim: int,
    slot: int,
    before: Cells,
) -> bool {
    &&& fits_at(dst, src, dim, slot)
    &&& launch.dtype == src.dtype()
    &&& launch.src == src.storage.ptr
    &&& launch.dst == dst.storage.ptr
    &&& launch.d1 == row_count(src, dim)
    &&& launch.d2 == row_len(src, dim)
    &&& launch.d1 * launch.d2 <= launch.threads()
    &&& launch.src_o == src.start_offset
    &&& launch.src_s == row_len(src, dim)
    &&& launch.dst_s == row_len(dst, dim) || launch.d1 == 1
    &&& launch.first_offset(before) == dst.start_offset + slot * block_size(src, dim)
    &&& !launch.skips(before)
    &&& launch.reaches(before)
}

/// The element at `index` is in row `i`, slot `index[dim]`, place `k` of that slot.
proof fn lemma_element_place(t: TensorView, dim: int, index: Seq<int>, i: int, k: int)
    requires
        t.wf(),
        t.is_contiguous(),
        0 <= dim < t.dims.len(),
        valid_index(t.dims, index),
        i == row_major(t.dims.take(dim), index.take(dim)),
        k == row_major(t.dims.skip(dim + 1), index.skip(dim + 1)),
    ensures
        0 <= i < row_count(t, dim),
        0 <= k < block_size(t, dim),
        0 <= index[dim] < t.dims[dim],
        dot(index, t.stride) == i * row_len(t, dim) + index[dim] * block_size(t, dim) + k,
        0 <= dot(index, t.stride),
        t.start_offset + dot(index, t.stride) < t.storage.len,
{
    assert(valid_index(t.dims.take(dim), index.take(dim))) by {
        assert forall|m: int| 0 <= m < dim implies 0 <= #[trigger] index.take(dim)[m]
            < t.dims.take(dim)[m] by {
            assert(0 <= index[m] < t.dims[m]);
        }
    }
    assert(valid_index(t.dims.skip(dim + 1), index.skip(dim + 1))) by {
        assert forall|m: int| 0 <= m < t.dims.len() - dim - 1 implies 0 <= #[trigger] index.skip(
            dim + 1,
        )[m] < t.dims.skip(dim + 1)[m] by {
            assert(0 <= index[m + dim + 1] < t.dims[m + dim + 1]);
        }
    }
    assert(0 <= index[dim] < t.dims[dim]);
    lemma_row_major_bounds(t.dims.take(dim), index.take(dim));
    lemma_row_major_bounds(t.dims.skip(dim + 1), index.skip(dim + 1));
    lemma_row_major_split(t.dims, index, dim);
    lemma_contiguous_dot(t.dims, t.stride, index);
    let (d, j, b): (int, int, int) = (t.dims[dim] as int, index[dim], block_size(t, dim));
    assert((i * d + j) * b + k == i * (b * d) + j * b + k) by (nonlinear_arith);
    lemma_dot_bounds(t.dims, t.stride, index);
    assert(!t.empty()) by {
        assert forall|m: int| 0 <= m < t.dims.len() implies #[trigger] t.dims[m] != 0 by {
            assert(0 <= index[m] < t.dims[m]);
        }
    }
}

/// Positions in rows of the same length agree only in the same row and the same place.
proof fn lemma_same_place(len: int, i: int, x: int, p: int, y: int)
    requires
        0 <= x < len,
        0 <= y < len,
        i * len + x == p * len + y,
    ensures
        i == p,
        x == y,
{
    if i != p {
        assert(i * len + x != p * len + y) by (nonlinear_arith)
            requires
                i != p,
                0 <= x < len,
                0 <= y < len,
        ;
    }
}

pub proof fn lemma_address_fits(s: Storage, offset: int)
    requires
        s.wf(),
        0 <= offset < s.len,
    ensures
        s.ptr <= s.address(offset) < s.address(s.len as int) <= u64::MAX,
{
    let (n, size): (int, int) = (s.len as int, s.dtype.size_in_bytes() as int);
    assert(0 <= offset * size < n * size) by (nonlinear_arith)
        requires
            0 <= offset < n,
            1 <= size,
    ;
}

pub proof fn lemma_address_order(s: Storage, a: int, b: int)
    ensures
        s.address(a) == s.address(b) <==> a == b,
        s.address(a) < s.address(b) <==> a < b,
{
    let size: int = s.dtype.size_in_bytes() as int;
    assert((a * size == b * size <==> a == b) && (a * size < b * size <==> a < b))
        by (nonlinear_arith)
        requires
            1 <= size,
    ;
}

/// A launch with enough threads copies every element of every row.
proof fn lemma_all_covered(launch: Copy2d, i: int, j: int)
    requires
        launch.d1 * launch.d2 <= launch.threads(),
        0 <= i < launch.d1,
        0 <= j < launch.d2,
    ensures
        launch.covers(i, j),
{
    let (r, n): (int, int) = (launch.d1 as int, launch.d2 as int);
    assert(i * n + j < r * n) by (nonlinear_arith)
        requires
            0 <= i < r,
            0 <= j < n,
    ;
}

/// The cells of such a launch lie in the rows of the two tensors.
proof fn lemma_placed_cells(
    launch: Copy2d,
    dst: TensorView,
    src: TensorView,
    dim: int,
    slot: int,
    before: Cells,
    p: int,
    q: int,
)
    requires
        places(launch, dst, src, dim, slot, before),
        launch.covers(p, q),
    ensures
        block_size(dst, dim) == block_size(src, dim),
        row_count(dst, dim) == row_count(src, dim),
        launch.src_cell(p, q) == src.storage.address(src.start_offset + p * row_len(src, dim) + q),
        launch.dst_cell(before, p, q) == dst.storage.address(
            dst.start_offset + p * row_len(dst, dim) + slot * block_size(dst, dim) + q,
        ),
        0 <= slot * block_size(dst, dim) + q < row_len(dst, dim),
        0 <= p * row_len(src, dim) + q < src.elem_count(),
        0 <= p * row_len(dst, dim) + slot * block_size(dst, dim) + q < dst.elem_count(),
{
    assert(dst.dims.skip(dim + 1) =~= src.dims.skip(dim + 1));
    assert(dst.dims.take(dim) =~= src.dims.take(dim));
    let (l, d, b): (int, int, int) = (
        src.dims[dim] as int,
        dst.dims[dim] as int,
        block_size(src, dim),
    );
    let r: int = row_count(src, dim);
    lemma_product_split(dst.dims, dim);
    lemma_product_split(src.dims, dim);
    assert(p * launch.dst_s == p * row_len(dst, dim)) by {
        if launch.dst_s != row_len(dst, dim) {
            let (x, y): (int, int) = (launch.dst_s as int, row_len(dst, dim));
            assert(p * x == p * y) by (nonlinear_arith)
                requires
                    p == 0,
            ;
        }
    }
    assert(0 <= slot * b + q < b * d) by (nonlinear_arith)
        requires
            0 <= slot,
            slot + l <= d,
            0 <= b,
            0 <= q < b * l,
    ;
    assert(0 <= p * (b * l) + q < r * (l * b)) by (nonlinear_arith)
        requires
            0 <= p < r,
            0 <= q < b * l,
    ;
    let x: int = slot * b + q;
    assert(0 <= p * (b * d) + x < r * (d * b)) by (nonlinear_arith)
        requires
            0 <= p < r,
            0 <= x < b * d,
    ;
}

/// The effect of such a launch is that `src` is written.
proof fn lemma_placed(
    launch: Copy2d,
    dst: TensorView,
    src: TensorView,
    dim: int,
    slot: int,
    before: Cells,
    after: Cells,
)
    requires
        places(launch, dst, src, dim, slot, before),
        launch.effect(before, after),
        dst.storage.allocated(before),
    ensures
        written_at(dst, src, dim, slot, before, after),
{
    assert(dst.dims.skip(dim + 1) =~= src.dims.skip(dim + 1));
    assert(dst.dims.take(dim) =~= src.dims.take(dim));
    assert forall|index: Seq<int>| #[trigger] valid_index(dst.dims, index) implies element(
        after,
        dst,
        index,
    ) == (if slot <= index[dim] < slot + src.dims[dim] {
        element(before, src, index.update(dim, index[dim] - slot))
    } else {
        element(before, dst, index)
    }) by {
        let i: int = row_major(dst.dims.take(dim), index.take(dim));
        let k: int = row_major(dst.dims.skip(dim + 1), index.skip(dim + 1));
        let j: int = index[dim];
        let b: int = block_size(dst, dim);
        let l: int = src.dims[dim] as int;
        lemma_element_place(dst, dim, index, i, k);
        let offset: int = dst.start_offset + dot(index, dst.stride);
        lemma_address_fits(dst.storage, offset);
        let a: u64 = dst.address(index) as u64;
        assert(before.contains_key(dst.storage.address(offset) as u64));
        if slot <= j < slot + l {
            let moved: Seq<int> = index.update(dim, j - slot);
            assert(moved.take(dim) =~= index.take(dim));
            assert(moved.skip(dim + 1) =~= index.skip(dim + 1));
            assert(valid_index(src.dims, moved)) by {
                assert forall|m: int| 0 <= m < src.dims.len() implies 0 <= #[trigger] moved[m]
                    < src.dims[m] by {
                    assert(0 <= index[m] < dst.dims[m]);
                }
            }
            lemma_element_place(src, dim, moved, i, k);
            let q: int = (j - slot) * b + k;
            assert(0 <= q < b * l && slot * b + q == j * b + k) by (nonlinear_arith)
                requires
                    q == (j - slot) * b + k,
                    0 <= k < b,
                    slot <= j < slot + l,
            ;
            lemma_all_covered(launch, i, q);
            lemma_placed_cells(launch, dst, src, dim, slot, before, i, q);
            assert(launch.dst_cell(before, i, q) == a);
        } else {
            assert(!launch.writes(before, a)) by {
                if launch.writes(before, a) {
                    let (p, q): (int, int) = choose|p: int, q: int|
                        launch.covers(p, q) && a == #[trigger] launch.dst_cell(before, p, q);
                    lemma_placed_cells(launch, dst, src, dim, slot, before, p, q);
                    lemma_address_order(
                        dst.storage,
                        offset,
                        dst.start_offset + p * row_len(dst, dim) + slot * b + q,
                    );
                    let n: int = row_len(dst, dim);
                    let d: int = dst.dims[dim] as int;
                    assert(0 <= j * b + k < n) by (nonlinear_arith)
                        requires
                            n == b * d,
                            0 <= j < d,
                            0 <= k < b,
                    ;
                    lemma_same_place(n, i, j * b + k, p, slot * b + q);
                    assert(slot <= j < slot + l) by (nonlinear_arith)
                        requires
                            j * b + k == slot * b + q,
                            0 <= k < b,
                            0 <= q < b * l,
                    ;
                }
            }
        }
    }
    assert forall|a: u64|
        #![trigger after[a]]
        before.contains_key(a) && !dst.spans(a) implies after[a] == before[a] by {
        if launch.writes(before, a) {
            let (p, q): (int, int) = choose|p: int, q: int|
                launch.covers(p, q) && a == #[trigger] launch.dst_cell(before, p, q);
            lemma_placed_cells(launch, dst, src, dim, slot, before, p, q);
            let o: int = dst.start_offset + p * row_len(dst, dim) + slot * block_size(dst, dim) + q;
            lemma_address_order(dst.storage, dst.start_offset as int, o);
            lemma_address_order(dst.storage, o, dst.start_offset as int);
            lemma_address_order(dst.storage, o, dst.start_offset + dst.elem_count());
        }
    }
}

/// Such a launch stays within the two storages, if they are allocated and share no byte.
proof fn lemma_placed_runs(
    launch: Copy2d,
    dst: TensorView,
    src: TensorView,
    dim: int,
    slot: int,
    cells: Cells,
)
    requires
        places(launch, dst, src, dim, slot, cells),
        dst.storage.allocated(cells),
        src.storage.allocated(cells),
        dst.storage.apart(src.storage),
    ensures
        launch.d1 <= 1 || launch.d2 <= launch.dst_s,
        forall|p: int, q: int|
            #![trigger launch.src_cell(p, q)]
            launch.covers(p, q) ==> launch.src_cell(p, q) <= u64::MAX && cells.contains_key(
                launch.src_cell(p, q) as u64,
            ) && !launch.writes(cells, launch.src_cell(p, q) as u64),
        forall|p: int, q: int|
            #![trigger launch.dst_cell(cells, p, q)]
            launch.covers(p, q) ==> launch.dst_cell(cells, p, q) <= u64::MAX && cells.contains_key(
                launch.dst_cell(cells, p, q) as u64,
            ),
        forall|a: u64| #[trigger]
            launch.writes(cells, a) ==> dst.storage.ptr <= a < dst.storage.address(
                dst.storage.len as int,
            ),
{
    if launch.d1 > 1 {
        let (b, l, d): (int, int, int) = (
            block_size(src, dim),
            src.dims[dim] as int,
            dst.dims[dim] as int,
        );
        assert(dst.dims.skip(dim + 1) =~= src.dims.skip(dim + 1));
        assert(b * l <= b * d) by (nonlinear_arith)
            requires
                0 <= b,
                l <= d,
        ;
    }
    assert forall|p: int, q: int| launch.covers(p, q) implies dst.storage.ptr
        <= #[trigger] launch.dst_cell(cells, p, q) < dst.storage.address(dst.storage.len as int)
        && cells.contains_key(launch.dst_cell(cells, p, q) as u64) && launch.dst_cell(cells, p, q)
        <= u64::MAX by {
        lemma_placed_cells(launch, dst, src, dim, slot, cells, p, q);
        let o: int = p * row_len(dst, dim) + slot * block_size(dst, dim) + q;
        lemma_inside_storage(dst, o);
    }
    assert forall|p: int, q: int| launch.covers(p, q) implies src.storage.ptr
        <= #[trigger] launch.src_cell(p, q) < src.storage.address(src.storage.len as int)
        && cells.contains_key(launch.src_cell(p, q) as u64) && launch.src_cell(p, q)
        <= u64::MAX by {
        lemma_placed_cells(launch, dst, src, dim, slot, cells, p, q);
        lemma_inside_storage(src, p * row_len(src, dim) + q);
    }
}

/// A place below the element count of a contiguous tensor lies inside its storage.
pub proof fn lemma_inside_storage(t: TensorView, place: int)
    requires
        t.wf(),
        t.is_contiguous(),
        0 <= place < t.elem_count(),
    ensures
        t.start_offset + place < t.storage.len,
        t.storage.ptr <= t.storage.address(t.start_offset + place) < t.storage.address(
            t.storage.len as int,
        ) <= u64::MAX,
{
    lemma_nonempty(t.dims);
    let last: Seq<int> = last_index(t.dims);
    assert(valid_index(t.dims, last));
    lemma_contiguous_dot(t.dims, t.stride, last);
    lemma_last_row_major(t.dims);
    lemma_address_fits(t.storage, t.start_offset + place);
}

pub proof fn lemma_nonempty(dims: Seq<usize>)
    requires
        product(dims) > 0,
    ensures
        forall|i: int| 0 <= i < dims.len() ==> #[trigger] dims[i] > 0,
    decreases dims.len(),
{
    if dims.len() > 0 {
        let (p, d): (nat, nat) = (product(dims.drop_last()), dims.last() as nat);
        assert(p > 0 && d > 0) by (nonlinear_arith)
            requires
                p * d > 0,
        ;
        lemma_nonempty(dims.drop_last());
        assert forall|i: int| 0 <= i < dims.len() implies #[trigger] dims[i] > 0 by {
            if i < dims.len() - 1 {
                assert(dims.drop_last()[i] > 0);
            }
        }
    }
}

pub proof fn lemma_last_row_major(dims: Seq<usize>)
    ensures
        row_major(dims, last_index(dims)) == product(dims) - 1,
    decreases dims.len(),
{
    if dims.len() > 0 {
        lemma_last_row_major(dims.drop_last());
        assert(last_index(dims).drop_last() =~= last_index(dims.drop_last()));
        let (p, d): (int, int) = (product(dims.drop_last()) as int, dims.last() as int);
        assert((p - 1) * d + (d - 1) == p * d - 1) by (nonlinear_arith);
    }
}

/// The largest position from which `src` still fits.
pub open spec fn position_max(dst: TensorView, src: TensorView, dim: int, offset: usize) -> int {
    dst.dims[dim] - offset - src.dims[dim]
}

/// The value of the one element of a position tensor.
pub open spec fn position_value(cells: Cells, position: TensorView) -> int {
    cells[position.storage.address(position.start_offset as int) as u64] as int
}

/// `src` is a contiguous tensor of the element type and on the device of `dst`, which is a CUDA
/// device, and has its shape but on `dim`, where `dst` is at least `offset` longer.
pub open spec fn slice_fits(dst: TensorView, src: TensorView, dim: usize, offset: usize) -> bool {
    &&& dst.is_contiguous()
    &&& src.is_contiguous()
    &&& dst.dtype() == src.dtype()
    &&& dst.location == src.location
    &&& dst.location is Cuda
    &&& dst.dims.len() == src.dims.len()
    &&& dim < dst.dims.len()
    &&& forall|k: int|
        0 <= k < dst.dims.len() && k != dim ==> #[trigger] dst.dims[k] == src.dims[k]
    &&& offset + src.dims[dim as int] <= dst.dims[dim as int]
}

/// `position` is one contiguous `U32` on the device of `dst`.
pub open spec fn position_fits(dst: TensorView, position: TensorView) -> bool {
    &&& position.location == dst.location
    &&& position.dtype() == DType::U32
    &&& position.elem_count() == 1
    &&& position.is_contiguous()
}

/// A kernel can count the elements of `src`, and tell the rows of `dst` apart if there are
/// several.
pub open spec fn kernel_holds(dst: TensorView, src: TensorView, dim: int) -> bool {
    &&& src.elem_count() <= u32::MAX
    &&& row_count(src, dim) > 1 ==> row_len(dst, dim) <= u32::MAX
}

/// A kernel can be told where the slots from `offset` on begin.
pub open spec fn kernel_starts(dst: TensorView, src: TensorView, dim: int, offset: usize) -> bool {
    dst.start_offset + offset * block_size(src, dim) <= u32::MAX
}

/// A kernel can compute where a position of `p` leads, if `src` fits there.
pub open spec fn reachable(
    dst: TensorView,
    src: TensorView,
    dim: int,
    offset: usize,
    p: int,
) -> bool {
    p <= position_max(dst, src, dim, offset) ==> dst.start_offset + (offset + p) * block_size(
        src,
        dim,
    ) <= u32::MAX
}

pub proof fn lemma_slice_checks(dst: TensorView, src: TensorView, dim: usize, offset: usize)
    ensures
        slice_set_error(dst, src, dim, offset) is None <==> slice_fits(dst, src, dim, offset),
{
    if dst.dims.len() == src.dims.len() && dim < dst.dims.len() {
        lemma_no_mismatch(dst.dims, src.dims, dim as int, offset, 0);
    }
}

pub proof fn lemma_slice_at_checks(
    dst: TensorView,
    src: TensorView,
    dim: usize,
    offset: usize,
    position: TensorView,
)
    ensures
        slice_set_at_error(dst, src, dim, offset, position) is None <==> slice_fits(
            dst,
            src,
            dim,
            offset,
        ) && position_fits(dst, position),
{
    if dst.dims.len() == src.dims.len() && dim < dst.dims.len() {
        lemma_no_mismatch(dst.dims, src.dims, dim as int, offset, 0);
    }
}

/// The sizes of a copy in terms of its tensors.
pub proof fn lemma_sizes(dst: TensorView, src: TensorView, dim: usize, offset: usize)
    requires
        dst.wf(),
        src.wf(),
        slice_fits(dst, src, dim, offset),
    ensures
        ({
            let d = dim as int;
            let (rows, len) = (row_count(src, d), row_len(src, d));
            let base = dst.start_offset + offset * block_size(src, d);
            &&& 0 <= rows <= usize::MAX && 0 <= len <= usize::MAX && 0 <= row_len(dst, d)
                <= usize::MAX
            &&& 0 <= base <= usize::MAX
            &&& 0 <= position_max(dst, src, d, offset) <= usize::MAX
            &&& 0 <= block_size(src, d) <= usize::MAX
            &&& src.elem_count() == rows * len
            &&& src.elem_count() == 0 <==> rows == 0 || len == 0
            &&& src.elem_count() > 0 ==> {
                &&& sizes_fit(rows as usize, len as usize, len as usize, row_len(dst, d) as usize)
                    <==> kernel_holds(dst, src, d)
                &&& 1 <= block_size(src, d)
                &&& kernel_holds(dst, src, d) ==> (offsets_fit(
                    base as usize,
                    block_size(src, d) as usize,
                ) <==> kernel_starts(dst, src, d, offset))
            }
        }),
{
    let d: int = dim as int;
    assert(dst.dims.skip(d + 1) =~= src.dims.skip(d + 1));
    lemma_row_sizes(dst, src, d, offset as int);
    lemma_product_split(src.dims, d);
    let (r, l, b): (int, int, int) = (row_count(src, d), src.dims[d] as int, block_size(src, d));
    let n: int = row_len(src, d);
    assert(l * b == b * l) by (nonlinear_arith);
    assert(r * n == 0 <==> r == 0 || n == 0) by (nonlinear_arith);
    if r > 0 && n > 0 {
        assert(r <= r * n && n <= r * n && 1 <= b <= n) by (nonlinear_arith)
            requires
                0 < r,
                0 < n,
                n == b * l,
                0 <= b,
                0 <= l,
        ;
    }
}

/// A slice is accepted exactly where the two tensors fit and the kernel can count what there is
/// to copy, if there is anything.
pub proof fn law_slice_set_accepts(dst: TensorView, src: TensorView, dim: usize, offset: usize)
    requires
        dst.wf(),
        src.wf(),
    ensures
        slice_set_outcome(dst, src, dim, offset) is Ok <==> slice_fits(dst, src, dim, offset) && (
        src.elem_count() == 0 || kernel_holds(dst, src, dim as int)),
{
    lemma_slice_checks(dst, src, dim, offset);
    if slice_fits(dst, src, dim, offset) {
        lemma_sizes(dst, src, dim, offset);
    }
}

/// A slice at a position is accepted exactly where the slice at `offset` is, the position is one
/// contiguous `U32` on the same device, and the kernel can be told where the slots begin. What the
/// position will be plays no part.
pub proof fn law_slice_set_at_accepts(
    dst: TensorView,
    src: TensorView,
    dim: usize,
    offset: usize,
    position: TensorView,
)
    requires
        dst.wf(),
        src.wf(),
    ensures
        slice_set_at_outcome(dst, src, dim, offset, position) is Ok <==> {
            &&& slice_set_outcome(dst, src, dim, offset) is Ok
            &&& position_fits(dst, position)
            &&& src.elem_count() == 0 || kernel_starts(dst, src, dim as int, offset)
        },
{
    lemma_slice_at_checks(dst, src, dim, offset, position);
    law_slice_set_accepts(dst, src, dim, offset);
    lemma_slice_checks(dst, src, dim, offset);
    if slice_fits(dst, src, dim, offset) {
        lemma_sizes(dst, src, dim, offset);
    }
}

proof fn lemma_slice_set_places(
    dst: TensorView,
    src: TensorView,
    dim: usize,
    offset: usize,
    launch: Copy2d,
    cells: Cells,
)
    requires
        dst.wf(),
        src.wf(),
        slice_set_outcome(dst, src, dim, offset) == Ok::<_, ErrorView>(Some(launch)),
    ensures
        places(launch, dst, src, dim as int, offset as int, cells),
{
    lemma_slice_checks(dst, src, dim, offset);
    lemma_sizes(dst, src, dim, offset);
}

proof fn lemma_slice_set_at_places(
    dst: TensorView,
    src: TensorView,
    dim: usize,
    offset: usize,
    position: TensorView,
    launch: Copy2d,
    cells: Cells,
)
    requires
        dst.wf(),
        src.wf(),
        position.wf(),
        reachable(dst, src, dim as int, offset, position_value(cells, position)),
        slice_set_at_outcome(dst, src, dim, offset, position) == Ok::<_, ErrorView>(Some(launch)),
    ensures
        launch.target matches Target::AtPosition { position_ptr, .. } && position_ptr
            == position.storage.address(position.start_offset as int),
        launch.skips(cells) <==> position_value(cells, position) > position_max(
            dst,
            src,
            dim as int,
            offset,
        ),
        launch.reaches(cells),
        !launch.skips(cells) ==> places(
            launch,
            dst,
            src,
            dim as int,
            offset + position_value(cells, position),
            cells,
        ),
{
    lemma_slice_at_checks(dst, src, dim, offset, position);
    lemma_sizes(dst, src, dim, offset);
    let d: int = dim as int;
    lemma_one_element(position);
    lemma_address_fits(position.storage, position.start_offset as int);
    let p: int = position_value(cells, position);
    let (b, o): (int, int) = (block_size(src, d), offset as int);
    let max: int = position_max(dst, src, d, offset);
    if p <= max {
        assert(o * b + p * b == (o + p) * b && 0 <= o * b && 0 <= p <= p * b) by (nonlinear_arith)
            requires
                0 <= p,
                0 <= o,
                1 <= b,
        ;
    }
}

/// In a destination whose rows end within the first 2^32 elements of its storage every position
/// can be reached.
pub proof fn law_positions_are_reachable(
    dst: TensorView,
    src: TensorView,
    dim: usize,
    offset: usize,
    p: int,
)
    requires
        dst.wf(),
        src.wf(),
        slice_fits(dst, src, dim, offset),
        src.elem_count() > 0,
        dst.start_offset + row_len(dst, dim as int) <= u32::MAX + 1,
        0 <= p,
    ensures
        reachable(dst, src, dim as int, offset, p),
{
    let d: int = dim as int;
    lemma_sizes(dst, src, dim, offset);
    assert(dst.dims.skip(d + 1) =~= src.dims.skip(d + 1));
    let (b, l, o, n): (int, int, int, int) = (
        block_size(src, d),
        src.dims[d] as int,
        offset as int,
        dst.dims[d] as int,
    );
    assert(l != 0) by {
        assert(b * 0 == 0);
    }
    if p <= position_max(dst, src, d, offset) {
        assert((o + p) * b < b * n) by (nonlinear_arith)
            requires
                1 <= b,
                1 <= l,
                o + p + l <= n,
        ;
    }
}

/// The launch of a slice that was accepted stays within the storages of its two tensors.
pub proof fn law_slice_set_runs(
    dst: TensorView,
    src: TensorView,
    dim: usize,
    offset: usize,
    launch: Copy2d,
    cells: Cells,
)
    requires
        dst.wf(),
        src.wf(),
        dst.storage.allocated(cells),
        src.storage.allocated(cells),
        dst.storage.apart(src.storage),
        slice_set_outcome(dst, src, dim, offset) == Ok::<_, ErrorView>(Some(launch)),
    ensures
        launch.runs_on(cells),
{
    lemma_slice_set_places(dst, src, dim, offset, launch, cells);
    lemma_placed_runs(launch, dst, src, dim as int, offset as int, cells);
}

/// The launch of a slice sets the slots of the destination from `offset` on to the values of the
/// source, and changes nothing else.
pub proof fn law_slice_set_writes(
    dst: TensorView,
    src: TensorView,
    dim: usize,
    offset: usize,
    launch: Copy2d,
    before: Cells,
    after: Cells,
)
    requires
        dst.wf(),
        src.wf(),
        dst.storage.allocated(before),
        slice_set_outcome(dst, src, dim, offset) == Ok::<_, ErrorView>(Some(launch)),
        launch.effect(before, after),
    ensures
        written_at(dst, src, dim as int, offset as int, before, after),
{
    lemma_slice_set_places(dst, src, dim, offset, launch, before);
    lemma_placed(launch, dst, src, dim as int, offset as int, before, after);
}

/// Where a slice is accepted, nothing is launched exactly if the source has no elements.
pub proof fn law_nothing_launched_for_nothing(
    dst: TensorView,
    src: TensorView,
    dim: usize,
    offset: usize,
    position: TensorView,
)
    requires
        dst.wf(),
        src.wf(),
    ensures
        slice_set_outcome(dst, src, dim, offset) matches Ok(launch) ==> (launch is None
            <==> src.elem_count() == 0),
        slice_set_at_outcome(dst, src, dim, offset, position) matches Ok(launch) ==> (launch is None
            <==> src.elem_count() == 0),
{
    lemma_slice_checks(dst, src, dim, offset);
    lemma_slice_at_checks(dst, src, dim, offset, position);
    if slice_fits(dst, src, dim, offset) {
        lemma_sizes(dst, src, dim, offset);
    }
}

/// A narrower view shows the elements of the tensor that it was taken from, `start` slots on.
pub proof fn law_narrow_reads(
    cells: Cells,
    t: TensorView,
    dim: int,
    start: int,
    len: usize,
    index: Seq<int>,
)
    requires
        0 <= dim < t.dims.len(),
        t.dims.len() == t.stride.len(),
        0 <= start,
        t.start_offset + t.stride[dim] * start <= usize::MAX,
        valid_index(t.narrow(dim, start, len).dims, index),
    ensures
        element(cells, t.narrow(dim, start, len), index) == element(
            cells,
            t,
            index.update(dim, index[dim] + start),
        ),
{
    lemma_dot_update(index, t.stride, dim, index[dim] + start);
    let s: int = t.stride[dim] as int;
    assert((index[dim] + start - index[dim]) * s == s * start && 0 <= s * start)
        by (nonlinear_arith)
        requires
            0 <= s,
            0 <= start,
    ;
}

/// What was written from `slot` on is read back through the view of those slots.
pub proof fn law_written_is_read_back(
    dst: TensorView,
    src: TensorView,
    dim: int,
    slot: int,
    before: Cells,
    after: Cells,
    index: Seq<int>,
)
    requires
        fits_at(dst, src, dim, slot),
        written_at(dst, src, dim, slot, before, after),
        valid_index(src.dims, index),
    ensures
        valid_index(dst.narrow(dim, slot, src.dims[dim]).dims, index),
        element(after, dst.narrow(dim, slot, src.dims[dim]), index) == element(before, src, index),
{
    let n = dst.narrow(dim, slot, src.dims[dim]);
    let moved: Seq<int> = index.update(dim, index[dim] + slot);
    assert(valid_index(n.dims, index)) by {
        assert forall|m: int| 0 <= m < n.dims.len() implies 0 <= #[trigger] index[m]
            < n.dims[m] by {
            assert(0 <= index[m] < src.dims[m]);
        }
    }
    assert(0 <= index[dim] < src.dims[dim]);
    assert(valid_index(dst.dims, moved)) by {
        assert forall|m: int| 0 <= m < dst.dims.len() implies 0 <= #[trigger] moved[m]
            < dst.dims[m] by {
            assert(0 <= index[m] < src.dims[m]);
        }
    }
    assert(moved.update(dim, moved[dim] - slot) =~= index);
    lemma_narrow_start(dst, dim, slot, moved);
    law_narrow_reads(after, dst, dim, slot, src.dims[dim], index);
}

/// The first element of a view of slots that exist lies inside the storage.
proof fn lemma_narrow_start(t: TensorView, dim: int, start: int, index: Seq<int>)
    requires
        t.wf(),
        0 <= dim < t.dims.len(),
        valid_index(t.dims, index),
        0 <= start <= index[dim],
    ensures
        t.start_offset + t.stride[dim] * start < t.storage.len,
{
    let zeros: Seq<int> = Seq::new(t.dims.len(), |i: int| if i == dim { start } else { 0 });
    assert(valid_index(t.dims, zeros)) by {
        assert forall|m: int| 0 <= m < t.dims.len() implies 0 <= #[trigger] zeros[m]
            < t.dims[m] by {
            assert(0 <= index[m] < t.dims[m]);
        }
    }
    let all: Seq<int> = Seq::new(t.dims.len(), |i: int| 0int);
    lemma_dot_update(all, t.stride, dim, start);
    assert(all.update(dim, start) =~= zeros);
    lemma_dot_zero(all, t.stride);
    lemma_dot_bounds(t.dims, t.stride, zeros);
    assert(!t.empty()) by {
        assert forall|m: int| 0 <= m < t.dims.len() implies #[trigger] t.dims[m] != 0 by {
            assert(0 <= index[m] < t.dims[m]);
        }
    }
    let s: int = t.stride[dim] as int;
    assert((start - 0) * s == s * start) by (nonlinear_arith);
}

pub proof fn lemma_dot_zero(index: Seq<int>, stride: Seq<usize>)
    requires
        index.len() == stride.len(),
        forall|i: int| 0 <= i < index.len() ==> #[trigger] index[i] == 0,
    ensures
        dot(index, stride) == 0,
    decreases index.len(),
{
    if index.len() > 0 {
        lemma_dot_zero(index.drop_last(), stride.drop_last());
        let s: int = stride.last() as int;
        assert(index.last() * s == 0) by (nonlinear_arith)
            requires
                index.last() == 0,
        ;
    }
}

/// Whatever the position is when the kernel runs, as long as it can be reached, the launch stays
/// within the storages of the tensors that it was prepared for.
pub proof fn law_slice_set_at_runs(
    dst: TensorView,
    src: TensorView,
    dim: usize,
    offset: usize,
    position: TensorView,
    launch: Copy2d,
    cells: Cells,
)
    requires
        dst.wf(),
        src.wf(),
        position.wf(),
        reachable(dst, src, dim as int, offset, position_value(cells, position)),
        position_value(cells, position) <= u32::MAX,
        dst.storage.allocated(cells),
        src.storage.allocated(cells),
        position.storage.allocated(cells),
        dst.storage.apart(src.storage),
        dst.storage.apart(position.storage),
        slice_set_at_outcome(dst, src, dim, offset, position) == Ok::<_, ErrorView>(Some(launch)),
    ensures
        launch.runs_on(cells),
{
    let p: int = position_value(cells, position);
    lemma_slice_set_at_places(dst, src, dim, offset, position, launch, cells);
    lemma_slice_at_checks(dst, src, dim, offset, position);
    lemma_one_element(position);
    lemma_address_fits(position.storage, position.start_offset as int);
    if !launch.skips(cells) {
        lemma_placed_runs(launch, dst, src, dim as int, offset + p, cells);
    }
}

/// The launch of a slice at a position writes the source from the slot on that is `offset` more
/// than what the position holds when the kernel runs, if that can be reached. Where the source
/// would run off the end from there, the memory stays as it was.
pub proof fn law_slice_set_at_writes(
    dst: TensorView,
    src: TensorView,
    dim: usize,
    offset: usize,
    position: TensorView,
    launch: Copy2d,
    before: Cells,
    after: Cells,
)
    requires
        dst.wf(),
        src.wf(),
        position.wf(),
        reachable(dst, src, dim as int, offset, position_value(before, position)),
        dst.storage.allocated(before),
        slice_set_at_outcome(dst, src, dim, offset, position) == Ok::<_, ErrorView>(Some(launch)),
        launch.effect(before, after),
    ensures
        ({
            let slot = offset + position_value(before, position);
            if slot + src.dims[dim as int] <= dst.dims[dim as int] {
                written_at(dst, src, dim as int, slot, before, after)
            } else {
                after == before
            }
        }),
{
    let p: int = position_value(before, position);
    lemma_slice_set_at_places(dst, src, dim, offset, position, launch, before);
    if launch.skips(before) {
        assert(after =~= before);
    } else {
        lemma_placed(launch, dst, src, dim as int, offset + p, before, after);
    }
}

/// A slice at a position that fits does what a slice at the sum of offset and position does.
pub proof fn law_slice_set_at_matches_slice_set(
    dst: TensorView,
    src: TensorView,
    dim: usize,
    offset: usize,
    position: TensorView,
    at: Copy2d,
    fixed: Copy2d,
    before: Cells,
    after: Cells,
)
    requires
        dst.wf(),
        src.wf(),
        position.wf(),
        reachable(dst, src, dim as int, offset, position_value(before, position)),
        offset + position_value(before, position) + src.dims[dim as int] <= dst.dims[dim as int],
        slice_set_at_outcome(dst, src, dim, offset, position) == Ok::<_, ErrorView>(Some(at)),
        slice_set_outcome(dst, src, dim, (offset + position_value(before, position)) as usize)
            == Ok::<_, ErrorView>(Some(fixed)),
    ensures
        at.effect(before, after) <==> fixed.effect(before, after),
{
    let slot: usize = (offset + position_value(before, position)) as usize;
    lemma_slice_set_at_places(dst, src, dim, offset, position, at, before);
    lemma_slice_set_places(dst, src, dim, slot, fixed, before);
    assert forall|i: int, j: int| #[trigger] at.covers(i, j) <==> fixed.covers(i, j) by {
        if at.covers(i, j) {
            lemma_all_covered(fixed, i, j);
        }
        if fixed.covers(i, j) {
            lemma_all_covered(at, i, j);
        }
    }
    assert forall|i: int, j: int| at.covers(i, j) implies #[trigger] at.dst_cell(before, i, j)
        == fixed.dst_cell(before, i, j) by {
        lemma_placed_cells(at, dst, src, dim as int, slot as int, before, i, j);
        lemma_placed_cells(fixed, dst, src, dim as int, slot as int, before, i, j);
    }
    assert forall|a: u64| #[trigger] at.writes(before, a) <==> fixed.writes(before, a) by {
        if at.writes(before, a) {
            let (i, j): (int, int) = choose|i: int, j: int|
                at.covers(i, j) && a == #[trigger] at.dst_cell(before, i, j);
            assert(fixed.covers(i, j) && a == fixed.dst_cell(before, i, j));
        }
        if fixed.writes(before, a) {
            let (i, j): (int, int) = choose|i: int, j: int|
                fixed.covers(i, j) && a == #[trigger] fixed.dst_cell(before, i, j);
            assert(at.covers(i, j) && a == at.dst_cell(before, i, j));
        }
    }
    if fixed.effect(before, after) {
        assert forall|i: int, j: int|
            #![trigger at.dst_cell(before, i, j)]
            at.covers(i, j) implies after[at.dst_cell(before, i, j) as u64] == before[at.src_cell(
            i,
            j,
        ) as u64] by {
            assert(fixed.dst_cell(before, i, j) == at.dst_cell(before, i, j));
        }
    }
    if at.effect(before, after) {
        assert forall|i: int, j: int|
            #![trigger fixed.dst_cell(before, i, j)]
            fixed.covers(i, j) implies after[fixed.dst_cell(before, i, j) as u64]
            == before[fixed.src_cell(i, j) as u64] by {
            assert(fixed.dst_cell(before, i, j) == at.dst_cell(before, i, j));
        }
    }
}

} // verus!

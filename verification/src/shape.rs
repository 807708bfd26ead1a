//! Index arithmetic of strided tensors: element counts, row-major positions and storage offsets.

use vstd::prelude::*;

verus! {

/// The number of elements of a tensor with these dimensions.
pub open spec fn product(dims: Seq<usize>) -> nat
    decreases dims.len(),
{
    if dims.len() == 0 {
        1
    } else {
        product(dims.drop_last()) * dims.last() as nat
    }
}

/// Every run of dimensions has a product of at most `max`.
pub open spec fn bounded(dims: Seq<usize>, max: usize) -> bool {
    forall|i: int, j: int|
        0 <= i <= j <= dims.len() ==> product(#[trigger] dims.subrange(i, j)) <= max
}

/// Whether `index` names an element of a tensor with dimensions `dims`.
pub open spec fn valid_index(dims: Seq<usize>, index: Seq<int>) -> bool {
    &&& index.len() == dims.len()
    &&& forall|i: int| 0 <= i < dims.len() ==> 0 <= #[trigger] index[i] < dims[i]
}

/// The storage distance from the first element of a tensor to the one at `index`.
pub open spec fn dot(index: Seq<int>, stride: Seq<usize>) -> int
    decreases index.len(),
{
    if index.len() == 0 {
        0
    } else {
        dot(index.drop_last(), stride.drop_last()) + index.last() * stride.last()
    }
}

/// The position of the element at `index` when the elements are listed in row-major order.
pub open spec fn row_major(dims: Seq<usize>, index: Seq<int>) -> int
    decreases index.len(),
{
    if index.len() == 0 {
        0
    } else {
        row_major(dims.drop_last(), index.drop_last()) * dims.last() + index.last()
    }
}

/// Whether a tensor with these dimensions and strides stores its elements in row-major order
/// without gaps. The stride of a dimension of size one is never used, so it may be anything.
pub open spec fn contiguous(dims: Seq<usize>, stride: Seq<usize>) -> bool {
    &&& dims.len() == stride.len()
    &&& forall|i: int|
        0 <= i < dims.len() && dims[i] > 1 ==> #[trigger] stride[i] == product(dims.skip(i + 1))
}

/// The index of the last element, for dimensions none of which is empty.
pub open spec fn last_index(dims: Seq<usize>) -> Seq<int> {
    dims.map_values(|d: usize| d - 1)
}

pub proof fn lemma_product_append(a: Seq<usize>, b: Seq<usize>)
    ensures
        product(a + b) == product(a) * product(b),
    decreases b.len(),
{
    if b.len() == 0 {
        assert(a + b =~= a);
        assert(product(b) == 1);
    } else {
        lemma_product_append(a, b.drop_last());
        assert((a + b).drop_last() =~= a + b.drop_last());
        assert((a + b).last() == b.last());
        let x: nat = product(a);
        let y: nat = product(b.drop_last());
        let z: nat = b.last() as nat;
        assert(x * y * z == x * (y * z)) by (nonlinear_arith);
    }
}

pub proof fn lemma_product_single(d: usize)
    ensures
        product(seq![d]) == d,
{
    let s: Seq<usize> = seq![d];
    assert(s.drop_last() =~= Seq::<usize>::empty());
    assert(product(s.drop_last()) == 1);
    assert(product(s) == product(s.drop_last()) * s.last() as nat);
}

/// The product splits at a dimension into what is outside it, its size, and what is inside it.
pub proof fn lemma_product_split(dims: Seq<usize>, dim: int)
    requires
        0 <= dim < dims.len(),
    ensures
        product(dims) == product(dims.take(dim)) * (dims[dim] * product(dims.skip(dim + 1))),
        product(dims.skip(dim)) == dims[dim] * product(dims.skip(dim + 1)),
{
    assert(dims =~= dims.take(dim) + dims.skip(dim));
    assert(dims.skip(dim) =~= seq![dims[dim]] + dims.skip(dim + 1));
    lemma_product_append(dims.take(dim), dims.skip(dim));
    lemma_product_append(seq![dims[dim]], dims.skip(dim + 1));
    lemma_product_single(dims[dim]);
}

/// What lies outside a dimension, what lies inside it, and what lies inside it repeated at most as
/// often as it is long, are within a bound on the runs.
pub proof fn lemma_bounded(dims: Seq<usize>, max: usize, dim: int)
    requires
        bounded(dims, max),
        0 <= dim < dims.len(),
    ensures
        product(dims.take(dim)) <= max,
        product(dims.skip(dim + 1)) <= max,
        forall|n: int|
            0 <= n <= dims[dim] ==> 0 <= #[trigger] (n * product(dims.skip(dim + 1))) <= max,
{
    let len: int = dims.len() as int;
    assert(dims.subrange(0, dim) =~= dims.take(dim));
    assert(dims.subrange(dim + 1, len) =~= dims.skip(dim + 1));
    assert(dims.subrange(dim, len) =~= dims.skip(dim));
    lemma_product_split(dims, dim);
    let (b, d): (int, int) = (product(dims.skip(dim + 1)) as int, dims[dim] as int);
    assert forall|n: int| 0 <= n <= dims[dim] implies 0 <= #[trigger] (n * product(
        dims.skip(dim + 1),
    )) <= max by {
        assert(0 <= n * b <= d * b) by (nonlinear_arith)
            requires
                0 <= n <= d,
                0 <= b,
        ;
    }
}

/// The number of elements is within a bound on the runs.
pub proof fn lemma_bounded_count(dims: Seq<usize>, max: usize)
    requires
        bounded(dims, max),
    ensures
        product(dims) <= max,
{
    assert(dims.subrange(0, dims.len() as int) =~= dims);
}

pub proof fn lemma_row_major_bounds(dims: Seq<usize>, index: Seq<int>)
    requires
        valid_index(dims, index),
    ensures
        0 <= row_major(dims, index) < product(dims),
    decreases dims.len(),
{
    if dims.len() > 0 {
        assert(valid_index(dims.drop_last(), index.drop_last())) by {
            assert forall|i: int| 0 <= i < dims.len() - 1 implies 0
                <= #[trigger] index.drop_last()[i] < dims.drop_last()[i] by {
                assert(index[i] < dims[i]);
            }
        }
        lemma_row_major_bounds(dims.drop_last(), index.drop_last());
        let p: int = product(dims.drop_last()) as int;
        let r: int = row_major(dims.drop_last(), index.drop_last());
        let d: int = dims.last() as int;
        let k: int = index.last();
        assert(0 <= index[dims.len() - 1] < dims[dims.len() - 1]);
        assert(0 <= r * d + k < p * d) by (nonlinear_arith)
            requires
                0 <= r < p,
                0 <= k < d,
        ;
    }
}

pub proof fn lemma_row_major_append(
    a: Seq<usize>,
    ia: Seq<int>,
    b: Seq<usize>,
    ib: Seq<int>,
)
    requires
        a.len() == ia.len(),
        b.len() == ib.len(),
    ensures
        row_major(a + b, ia + ib) == row_major(a, ia) * product(b) + row_major(b, ib),
    decreases b.len(),
{
    if b.len() == 0 {
        assert(a + b =~= a);
        assert(ia + ib =~= ia);
        assert(product(b) == 1);
    } else {
        lemma_row_major_append(a, ia, b.drop_last(), ib.drop_last());
        assert((a + b).drop_last() =~= a + b.drop_last());
        assert((ia + ib).drop_last() =~= ia + ib.drop_last());
        assert((a + b).last() == b.last());
        assert((ia + ib).last() == ib.last());
        let x: int = row_major(a, ia);
        let p: int = product(b.drop_last()) as int;
        let r: int = row_major(b.drop_last(), ib.drop_last());
        let d: int = b.last() as int;
        assert((x * p + r) * d == x * (p * d) + r * d) by (nonlinear_arith);
    }
}

/// The row-major position splits at a dimension into an outer block, a slot of the dimension,
/// and a position inside the slot.
pub proof fn lemma_row_major_split(dims: Seq<usize>, index: Seq<int>, dim: int)
    requires
        0 <= dim < dims.len(),
        dims.len() == index.len(),
    ensures
        row_major(dims, index) == (row_major(dims.take(dim), index.take(dim)) * dims[dim]
            + index[dim]) * product(dims.skip(dim + 1)) + row_major(
            dims.skip(dim + 1),
            index.skip(dim + 1),
        ),
{
    let (a, ia): (Seq<usize>, Seq<int>) = (dims.take(dim), index.take(dim));
    let (m, im): (Seq<usize>, Seq<int>) = (seq![dims[dim]], seq![index[dim]]);
    let (b, ib): (Seq<usize>, Seq<int>) = (dims.skip(dim + 1), index.skip(dim + 1));
    assert(dims =~= (a + m) + b);
    assert(index =~= (ia + im) + ib);
    lemma_row_major_append(a + m, ia + im, b, ib);
    lemma_row_major_append(a, ia, m, im);
    lemma_product_single(dims[dim]);
    assert(row_major(m, im) == index[dim]) by {
        assert(m.drop_last() =~= Seq::<usize>::empty());
        assert(im.drop_last() =~= Seq::<int>::empty());
        assert(row_major(m.drop_last(), im.drop_last()) == 0);
    }
}

/// In a contiguous tensor an element lies as far from the first one as its row-major position
/// says.
pub proof fn lemma_contiguous_dot(dims: Seq<usize>, stride: Seq<usize>, index: Seq<int>)
    requires
        contiguous(dims, stride),
        valid_index(dims, index),
    ensures
        dot(index, stride) == row_major(dims, index),
{
    lemma_contiguous_dot_prefix(dims, stride, index, dims.len() as int);
    assert(dims.take(dims.len() as int) =~= dims);
    assert(stride.take(dims.len() as int) =~= stride);
    assert(index.take(dims.len() as int) =~= index);
    let (r, p): (int, int) = (row_major(dims, index), product(dims.skip(dims.len() as int)) as int);
    assert(r * p == r) by (nonlinear_arith)
        requires
            p == 1,
    ;
}

proof fn lemma_contiguous_dot_prefix(
    dims: Seq<usize>,
    stride: Seq<usize>,
    index: Seq<int>,
    n: int,
)
    requires
        contiguous(dims, stride),
        valid_index(dims, index),
        0 <= n <= dims.len(),
    ensures
        dot(index.take(n), stride.take(n)) == row_major(dims.take(n), index.take(n)) * product(
            dims.skip(n),
        ),
    decreases n,
{
    if n > 0 {
        let k: int = n - 1;
        lemma_contiguous_dot_prefix(dims, stride, index, k);
        lemma_product_split(dims, k);
        assert(dims.take(n).drop_last() =~= dims.take(k));
        assert(stride.take(n).drop_last() =~= stride.take(k));
        assert(index.take(n).drop_last() =~= index.take(k));
        assert(0 <= index[k] < dims[k]);
        let r: int = row_major(dims.take(k), index.take(k));
        let d: int = dims[k] as int;
        let p: int = product(dims.skip(n)) as int;
        let i: int = index[k];
        assert(i * stride[k] == i * p) by {
            if dims[k] <= 1 {
                assert(i == 0);
            }
        }
        assert(r * (d * p) + i * p == (r * d + i) * p) by (nonlinear_arith);
    }
}

/// Moving an index along one dimension moves its element by whole strides of that dimension.
pub proof fn lemma_dot_update(index: Seq<int>, stride: Seq<usize>, dim: int, value: int)
    requires
        0 <= dim < index.len(),
        index.len() == stride.len(),
    ensures
        dot(index.update(dim, value), stride) == dot(index, stride) + (value - index[dim])
            * stride[dim],
    decreases index.len(),
{
    let moved: Seq<int> = index.update(dim, value);
    let n: int = index.len() - 1;
    if dim == n {
        assert(moved.drop_last() =~= index.drop_last());
        let (a, b, s): (int, int, int) = (value, index[dim], stride[dim] as int);
        assert(a * s == b * s + (a - b) * s) by (nonlinear_arith);
    } else {
        lemma_dot_update(index.drop_last(), stride.drop_last(), dim, value);
        assert(moved.drop_last() =~= index.drop_last().update(dim, value));
    }
}

/// No element lies further from the first one than the last one.
pub proof fn lemma_dot_bounds(dims: Seq<usize>, stride: Seq<usize>, index: Seq<int>)
    requires
        dims.len() == stride.len(),
        valid_index(dims, index),
    ensures
        0 <= dot(index, stride) <= dot(last_index(dims), stride),
    decreases dims.len(),
{
    if dims.len() > 0 {
        assert(valid_index(dims.drop_last(), index.drop_last())) by {
            assert forall|i: int| 0 <= i < dims.len() - 1 implies 0
                <= #[trigger] index.drop_last()[i] < dims.drop_last()[i] by {
                assert(index[i] < dims[i]);
            }
        }
        lemma_dot_bounds(dims.drop_last(), stride.drop_last(), index.drop_last());
        assert(last_index(dims).drop_last() =~= last_index(dims.drop_last()));
        assert(0 <= index[dims.len() - 1] < dims[dims.len() - 1]);
        let (k, d, s): (int, int, int) = (index.last(), dims.last() as int, stride.last() as int);
        assert(0 <= k * s <= (d - 1) * s) by (nonlinear_arith)
            requires
                0 <= k <= d - 1,
                0 <= s,
        ;
    }
}

} // verus!

//! What a cache holds once its actions have been carried out, over any number of calls.

use vstd::prelude::*;

use crate::cache::{ActionView, CacheView, EventView, Half, KvActionView, KvAppendView, KvView};
use crate::cache_laws::{extended, law_append_extends, law_reserving_early_changes_nothing};
use crate::cache_laws::{lemma_filled_index, lemma_filled_reads};
use crate::error::ErrorView;
use crate::input_laws::lemma_element_in_span;
use crate::memory::{element, reads_as, Cells, Heap};
use crate::replay_laws::{lemma_position_value, lemma_reads_zero};
use crate::shape::{lemma_row_major_bounds, row_major, valid_index};
use crate::slice_laws::{law_nothing_launched_for_nothing, law_slice_set_at_accepts};
use crate::slice_laws::{law_slice_set_accepts, law_slice_set_at_writes, lemma_address_fits};
use crate::slice_laws::lemma_inside_storage;
use crate::slice_laws::{kernel_starts, lemma_slice_at_checks, lemma_slice_checks};
use crate::slice_laws::{position_fits, position_value, reachable};
use crate::tensor::{Storage, TensorView};

verus! {

/// The rest of an append, once the buffer is there: what is asked for is launched.
pub open spec fn append_finishes(
    c: CacheView,
    src: TensorView,
    e: EventView,
    before: Heap,
    next: CacheView,
    after: Heap,
) -> bool {
    let (ready, r) = c.append_step(src, e);
    match r {
        Ok(ActionView::Done) => next == ready && after == before,
        Ok(ActionView::Launch(launch)) => before.launched(launch, after) && next
            == ready.append_step(src, EventView::Launched).0,
        _ => false,
    }
}

/// An append that succeeds, from the call to its end, with all that is asked for carried out.
pub open spec fn append_runs(
    c: CacheView,
    src: TensorView,
    before: Heap,
    next: CacheView,
    after: Heap,
) -> bool {
    match c.append_step(src, EventView::Start).1 {
        Ok(ActionView::Allocate(request)) => exists|t: TensorView, mid: Heap| #[trigger]
            request.carried_out(t, before, mid) && append_finishes(
                c,
                src,
                EventView::Allocated(t),
                mid,
                next,
                after,
            ),
        _ => append_finishes(c, src, EventView::Start, before, next, after),
    }
}

/// The rest of a write at a position, once the buffer is there.
pub open spec fn append_at_finishes(
    c: CacheView,
    src: TensorView,
    position: TensorView,
    e: EventView,
    before: Heap,
    next: CacheView,
    after: Heap,
) -> bool {
    let (ready, r) = c.append_at_step(src, position, e);
    match r {
        Ok(ActionView::Done) => next == ready && after == before,
        Ok(ActionView::Launch(launch)) => before.launched(launch, after) && next
            == ready.append_at_step(src, position, EventView::Launched).0,
        _ => false,
    }
}

/// A write at a position that succeeds, from the call to its end, outside any capture.
pub open spec fn append_at_runs(
    c: CacheView,
    src: TensorView,
    position: TensorView,
    before: Heap,
    next: CacheView,
    after: Heap,
) -> bool {
    match c.append_at_step(src, position, EventView::Start).1 {
        Ok(ActionView::Allocate(request)) => exists|t: TensorView, mid: Heap| #[trigger]
            request.carried_out(t, before, mid) && append_at_finishes(
                c,
                src,
                position,
                EventView::Allocated(t),
                mid,
                next,
                after,
            ),
        _ => append_at_finishes(c, src, position, EventView::Start, before, next, after),
    }
}

/// A reservation, from the call to its end.
pub open spec fn reserve_runs(
    c: CacheView,
    like: TensorView,
    before: Heap,
    next: CacheView,
    after: Heap,
) -> bool {
    match c.reserve_step(like, EventView::Start).1 {
        ActionView::Allocate(request) => exists|t: TensorView| #[trigger]
            request.carried_out(t, before, after) && next == c.reserve_step(
                like,
                EventView::Allocated(t),
            ).0,
        _ => next == c && after == before,
    }
}

/// The buffer of the cache, if there is one, is among the storages in use.
pub open spec fn on_heap(c: CacheView, heap: Heap) -> bool {
    c.all_data matches Some(t) ==> heap.live.contains(t.storage)
}

/// A heap that has grown is still in order.
proof fn lemma_grown_wf(before: Heap, s: Storage, after: Heap)
    requires
        before.wf(),
        before.grown(s, after),
    ensures
        after.wf(),
        forall|o: Storage| #[trigger] before.live.contains(o) ==> after.live.contains(o),
        after.live.contains(s),
{
    assert forall|o: Storage| #[trigger] after.live.contains(o) implies o.wf() && o.allocated(
        after.cells,
    ) by {
        if o != s {
            assert(before.live.contains(o));
            assert forall|offset: int| 0 <= offset < o.len implies after.cells.contains_key(
                #[trigger] o.address(offset) as u64,
            ) by {
                lemma_address_fits(o, offset);
                assert(before.cells.contains_key(o.address(offset) as u64));
            }
        }
    }
    assert forall|p: Storage, q: Storage| #[trigger]
        after.live.contains(p) && #[trigger] after.live.contains(q) && p != q implies p.apart(q) by {
        if p == s {
            assert(before.live.contains(q));
        } else if q == s {
            assert(before.live.contains(p));
            assert(s.apart(p));
        } else {
            assert(before.live.contains(p) && before.live.contains(q));
        }
    }
}

/// All that lies outside the storage `s` is unchanged.
pub open spec fn same_outside(s: Storage, before: Cells, after: Cells) -> bool {
    forall|a: u64|
        #![trigger after[a]]
        before.contains_key(a) && !s.holds(a) ==> after[a] == before[a]
}

/// A tensor in a storage that shares no byte with `s` reads as before, if all outside `s` is
/// unchanged.
proof fn lemma_apart_reads(t: TensorView, s: Storage, before: Cells, after: Cells)
    requires
        t.wf(),
        t.is_contiguous(),
        t.storage.allocated(before),
        t.storage.apart(s) || s.apart(t.storage),
        same_outside(s, before, after),
    ensures
        reads_as(t, after, t, before),
{
    assert forall|index: Seq<int>| #[trigger] valid_index(t.dims, index) implies element(
        after,
        t,
        index,
    ) == element(before, t, index) by {
        lemma_element_in_span(t, index);
        let o: int = t.start_offset + row_major(t.dims, index);
        lemma_address_fits(t.storage, o);
        let address: u64 = t.storage.address(o) as u64;
        assert(before.contains_key(address));
        assert(after[address] == before[address]);
    }
}

/// What is outside the storage of a contiguous tensor is outside the part that it takes up.
proof fn lemma_span_inside(t: TensorView, a: u64)
    requires
        t.wf(),
        t.is_contiguous(),
        t.spans(a),
    ensures
        t.storage.holds(a),
{
    let (o, n): (int, int) = (t.start_offset as int, t.elem_count() as int);
    if n > 0 {
        lemma_inside_storage(t, n - 1);
        lemma_inside_storage(t, 0);
        let size: int = t.storage.dtype.size_in_bytes() as int;
        let len: int = t.storage.len as int;
        assert((o + n) * size <= len * size) by (nonlinear_arith)
            requires
                o + n <= len,
                1 <= size,
        ;
    } else {
        assert(o + n == o);
    }
}

/// An index into the slots that a source without elements was appended to does not exist.
proof fn lemma_no_index(src: TensorView, index: Seq<int>)
    requires
        src.elem_count() == 0,
    ensures
        !valid_index(src.dims, index),
{
    if valid_index(src.dims, index) {
        lemma_row_major_bounds(src.dims, index);
    }
}

/// What is known of an append, or of a write at a position, when it has ended.
pub open spec fn settled(c: CacheView, before: Heap, next: CacheView, after: Heap) -> bool {
    &&& next.wf()
    &&& next.all_data is Some
    &&& next.dim == c.dim
    &&& next.max_seq_len == c.max_seq_len
    &&& c.all_data is Some ==> next.all_data == c.all_data && after.live == before.live
    &&& c.all_data is None ==> after.live == before.live.insert(next.all_data->0.storage) && forall|
        o: Storage,
    | #[trigger]
        before.live.contains(o) ==> next.all_data->0.storage.apart(o)
    &&& after.wf()
    &&& on_heap(next, after)
    &&& same_outside(next.all_data->0.storage, before.cells, after.cells)
}

/// What an element of the buffer was before the buffer was written to.
pub open spec fn earlier(c: CacheView, before: Cells, t: TensorView, index: Seq<int>) -> u64 {
    if c.all_data is Some {
        element(before, t, index)
    } else {
        0
    }
}

/// The index of a slot that has just been filled, as one of the source.
proof fn lemma_source_index(
    t: TensorView,
    src: TensorView,
    dim: int,
    slot: int,
    index: Seq<int>,
)
    requires
        t.dims.len() == src.dims.len(),
        0 <= dim < t.dims.len(),
        forall|k: int| 0 <= k < t.dims.len() && k != dim ==> #[trigger] t.dims[k] == src.dims[k],
        valid_index(t.dims, index),
        slot <= index[dim] < slot + src.dims[dim],
    ensures
        valid_index(src.dims, index.update(dim, index[dim] - slot)),
{
    let moved: Seq<int> = index.update(dim, index[dim] - slot);
    assert forall|m: int| 0 <= m < src.dims.len() implies 0 <= #[trigger] moved[m]
        < src.dims[m] by {
        assert(0 <= index[m] < t.dims[m]);
    }
}

proof fn lemma_append_finishes(
    c: CacheView,
    src: TensorView,
    before: Heap,
    next: CacheView,
    after: Heap,
)
    requires
        c.wf(),
        c.all_data is Some,
        src.wf(),
        before.wf(),
        on_heap(c, before),
        append_finishes(c, src, EventView::Start, before, next, after),
    ensures
        settled(c, before, next, after),
        next.current_seq_len == c.current_seq_len + src.dims[c.dim as int],
        extended(c, src, before.cells, next, after.cells),
        forall|index: Seq<int>| #[trigger]
            valid_index(c.all_data->0.dims, index) && index[c.dim as int] >= next.current_seq_len
                ==> element(after.cells, c.all_data->0, index) == element(
                before.cells,
                c.all_data->0,
                index,
            ),
{
    let t: TensorView = c.all_data->0;
    let dim: int = c.dim as int;
    lemma_slice_checks(t, src, c.dim, c.current_seq_len);
    assert(t.storage.allocated(before.cells));
    match c.append_step(src, EventView::Start).1 {
        Ok(ActionView::Launch(launch)) => {
            law_append_extends(c, src, launch, before.cells, after.cells);
            assert forall|a: u64|
                #![trigger after.cells[a]]
                before.cells.contains_key(a) && !t.storage.holds(a) implies after.cells[a]
                == before.cells[a] by {
                if t.spans(a) {
                    lemma_span_inside(t, a);
                }
            }
            assert forall|s: Storage| #[trigger] after.live.contains(s) implies s.wf()
                && s.allocated(after.cells) by {
                assert(before.live.contains(s));
            }
            assert forall|s: Storage, o: Storage| #[trigger]
                after.live.contains(s) && #[trigger] after.live.contains(o) && s
                != o implies s.apart(o) by {
                assert(before.live.contains(s) && before.live.contains(o));
            }
        },
        _ => {
            law_nothing_launched_for_nothing(t, src, c.dim, c.current_seq_len, src);
            assert(src.elem_count() == 0);
            assert(next.wf());
            assert forall|index: Seq<int>| #[trigger]
                valid_index(next.current_data()->0.dims, index) implies element(
                after.cells,
                next.current_data()->0,
                index,
            ) == (if index[dim] < c.current_seq_len {
                element(before.cells, c.current_data()->0, index)
            } else {
                element(before.cells, src, index.update(dim, index[dim] - c.current_seq_len))
            }) by {
                lemma_filled_index(next, index);
                lemma_filled_reads(next, before.cells, index);
                if index[dim] < c.current_seq_len {
                    assert(valid_index(c.current_data()->0.dims, index)) by {
                        assert forall|m: int| 0 <= m < t.dims.len() implies 0 <= #[trigger] index[m]
                            < c.current_data()->0.dims[m] by {
                            assert(0 <= index[m] < t.dims[m]);
                        }
                    }
                    lemma_filled_reads(c, before.cells, index);
                } else {
                    let s: int = c.current_seq_len as int;
                    lemma_source_index(t, src, dim, s, index);
                    lemma_no_index(src, index.update(dim, index[dim] - s));
                }
            }
        },
    }
}

/// After an append, the first one or a later one, with elements or without, the filled slots read
/// as they did before, followed by what was appended. The slots that are not filled read as they
/// did before, and as zero in a new buffer. Nothing outside the buffer has changed.
pub proof fn law_append_run(
    c: CacheView,
    src: TensorView,
    before: Heap,
    next: CacheView,
    after: Heap,
)
    requires
        c.wf(),
        src.wf(),
        before.wf(),
        on_heap(c, before),
        before.live.contains(src.storage),
        append_runs(c, src, before, next, after),
    ensures
        settled(c, before, next, after),
        next.current_seq_len == c.current_seq_len + src.dims[c.dim as int],
        extended(c, src, before.cells, next, after.cells),
        forall|index: Seq<int>| #[trigger]
            valid_index(next.all_data->0.dims, index) && index[c.dim as int]
                >= next.current_seq_len ==> element(after.cells, next.all_data->0, index)
                == earlier(c, before.cells, next.all_data->0, index),
{
    if c.all_data is Some {
        lemma_append_finishes(c, src, before, next, after);
    } else {
        let request = c.request(src);
        let (t, mid): (TensorView, Heap) = choose|t: TensorView, mid: Heap| #[trigger]
            request.carried_out(t, before, mid) && append_finishes(
                c,
                src,
                EventView::Allocated(t),
                mid,
                next,
                after,
            );
        let ready = c.reserved(EventView::Allocated(t));
        law_reserving_early_changes_nothing(c, src, src, t);
        lemma_grown_wf(before, t.storage, mid);
        lemma_append_finishes(ready, src, mid, next, after);
        lemma_slice_checks(t, src, c.dim, 0);
        assert(same_outside(t.storage, before.cells, mid.cells));
        assert(t.storage.apart(src.storage));
        lemma_apart_reads(src, t.storage, before.cells, mid.cells);
        let dim: int = c.dim as int;
        assert forall|index: Seq<int>| #[trigger]
            valid_index(next.current_data()->0.dims, index) implies element(
            after.cells,
            next.current_data()->0,
            index,
        ) == (if index[dim] < c.current_seq_len {
            element(before.cells, c.current_data()->0, index)
        } else {
            element(before.cells, src, index.update(dim, index[dim] - c.current_seq_len))
        }) by {
            lemma_filled_index(next, index);
            lemma_source_index(t, src, dim, 0, index);
            assert(valid_index(src.dims, index.update(dim, index[dim] - 0)));
        }
        assert forall|index: Seq<int>| #[trigger]
            valid_index(t.dims, index) && index[dim] >= next.current_seq_len implies element(
            after.cells,
            t,
            index,
        ) == 0 by {
            lemma_reads_zero(t, mid.cells, index);
        }
        assert forall|a: u64|
            #![trigger after.cells[a]]
            before.cells.contains_key(a) && !t.storage.holds(a) implies after.cells[a]
            == before.cells[a] by {
            assert(mid.cells[a] == before.cells[a]);
        }
    }
}

/// Something that was appended, with the memory in which it was read.
pub struct Part {
    pub src: TensorView,
    pub cells: Cells,
}

/// The number of slots that the parts fill.
pub open spec fn total(parts: Seq<Part>, dim: int) -> int
    decreases parts.len(),
{
    if parts.len() == 0 {
        0
    } else {
        total(parts.drop_last(), dim) + parts.last().src.dims[dim]
    }
}

/// The element at `index` of all the parts, one after the other along `dim`.
pub open spec fn concatenated(parts: Seq<Part>, dim: int, index: Seq<int>) -> u64
    decreases parts.len(),
{
    if parts.len() == 0 {
        0
    } else {
        let start = total(parts.drop_last(), dim);
        if index[dim] >= start {
            element(parts.last().cells, parts.last().src, index.update(dim, index[dim] - start))
        } else {
            concatenated(parts.drop_last(), dim, index)
        }
    }
}

/// The cache holds the parts, one after the other, and zeros after them.
pub open spec fn contains(c: CacheView, cells: Cells, parts: Seq<Part>) -> bool {
    let dim = c.dim as int;
    &&& c.current_seq_len == total(parts, dim)
    &&& c.all_data is None ==> parts.len() == 0
    &&& c.all_data matches Some(t) ==> forall|index: Seq<int>| #[trigger]
        valid_index(t.dims, index) ==> element(cells, t, index) == (if index[dim]
            < c.current_seq_len {
            concatenated(parts, dim, index)
        } else {
            0
        })
}

/// What can happen to a cache.
pub enum CacheStep {
    /// Something is appended.
    Append(TensorView),
    /// The buffer is reserved.
    Reserve(TensorView),
    /// Something else is done on the device, which leaves the buffer alone.
    Elsewhere,
}

/// A cache and the heap that its buffer is in.
pub struct Moment {
    pub cache: CacheView,
    pub heap: Heap,
}

/// Whether a step leads from one moment to another.
pub open spec fn leads(step: CacheStep, from: Moment, to: Moment) -> bool {
    match step {
        CacheStep::Append(src) => {
            &&& src.wf()
            &&& from.heap.live.contains(src.storage)
            &&& append_runs(from.cache, src, from.heap, to.cache, to.heap)
        },
        CacheStep::Reserve(like) => {
            &&& from.cache.reserve_admits(like, EventView::Start)
            &&& reserve_runs(from.cache, like, from.heap, to.cache, to.heap)
        },
        CacheStep::Elsewhere => {
            &&& to.cache == from.cache
            &&& to.heap.wf()
            &&& on_heap(to.cache, to.heap)
            &&& to.cache.all_data matches Some(t) ==> reads_as(t, to.heap.cells, t, from.heap.cells)
        },
    }
}

/// What has been appended in the first `n` steps.
pub open spec fn parts_of(steps: Seq<CacheStep>, moments: Seq<Moment>, n: int) -> Seq<Part>
    decreases n,
{
    if n <= 0 {
        Seq::empty()
    } else {
        let earlier_parts = parts_of(steps, moments, n - 1);
        match steps[n - 1] {
            CacheStep::Append(src) => earlier_parts.push(
                Part { src, cells: moments[n - 1].heap.cells },
            ),
            _ => earlier_parts,
        }
    }
}

/// Appending adds one part.
proof fn lemma_append_adds(
    c: CacheView,
    src: TensorView,
    before: Heap,
    next: CacheView,
    after: Heap,
    parts: Seq<Part>,
)
    requires
        c.wf(),
        src.wf(),
        before.wf(),
        on_heap(c, before),
        before.live.contains(src.storage),
        append_runs(c, src, before, next, after),
        contains(c, before.cells, parts),
    ensures
        contains(next, after.cells, parts.push(Part { src, cells: before.cells })),
{
    law_append_run(c, src, before, next, after);
    let t: TensorView = next.all_data->0;
    let dim: int = c.dim as int;
    let more: Seq<Part> = parts.push(Part { src, cells: before.cells });
    assert(more.drop_last() =~= parts);
    assert forall|index: Seq<int>| #[trigger] valid_index(t.dims, index) implies element(
        after.cells,
        t,
        index,
    ) == (if index[dim] < next.current_seq_len {
        concatenated(more, dim, index)
    } else {
        0
    }) by {
        if index[dim] < next.current_seq_len {
            lemma_slot_filled(next, index);
            lemma_filled_reads(next, after.cells, index);
            if index[dim] < c.current_seq_len {
                assert(c.all_data == Some(t));
                lemma_slot_filled(c, index);
                lemma_filled_reads(c, before.cells, index);
            }
        }
    }
}

/// An index of the buffer that is below the number of filled slots is one of a filled slot.
proof fn lemma_slot_filled(c: CacheView, index: Seq<int>)
    requires
        c.wf(),
        c.all_data is Some,
        valid_index(c.all_data->0.dims, index),
        index[c.dim as int] < c.current_seq_len,
    ensures
        valid_index(c.current_data()->0.dims, index),
{
    let t: TensorView = c.all_data->0;
    assert forall|m: int| 0 <= m < t.dims.len() implies 0 <= #[trigger] index[m]
        < c.current_data()->0.dims[m] by {
        assert(0 <= index[m] < t.dims[m]);
    }
}

/// Reserving the buffer adds nothing to what a cache holds.
pub proof fn law_reserve_run(
    c: CacheView,
    like: TensorView,
    before: Heap,
    next: CacheView,
    after: Heap,
    parts: Seq<Part>,
)
    requires
        before.wf(),
        on_heap(c, before),
        c.reserve_admits(like, EventView::Start),
        reserve_runs(c, like, before, next, after),
        contains(c, before.cells, parts),
    ensures
        settled(c, before, next, after),
        next.current_seq_len == c.current_seq_len,
        contains(next, after.cells, parts),
{
    if c.all_data is None {
        let request = c.request(like);
        let t: TensorView = choose|t: TensorView| #[trigger]
            request.carried_out(t, before, after) && next == c.reserve_step(
                like,
                EventView::Allocated(t),
            ).0;
        lemma_grown_wf(before, t.storage, after);
        assert forall|index: Seq<int>| #[trigger] valid_index(t.dims, index) implies element(
            after.cells,
            t,
            index,
        ) == 0 by {
            lemma_reads_zero(t, after.cells, index);
        }
    }
}

/// However many things are appended to a new cache, or to one that was reset, the filled slots
/// read as all of them one after the other: none is lost, none is written over, and how they were
/// split does not matter. The slots after them read as zero. Reserving in between, or doing other
/// things on the device, makes no difference.
pub proof fn law_appends_concatenate(
    steps: Seq<CacheStep>,
    moments: Seq<Moment>,
    dim: usize,
    max_seq_len: usize,
    n: int,
)
    requires
        moments.len() == steps.len() + 1,
        moments[0].cache == CacheView::empty(dim, max_seq_len),
        moments[0].heap.wf(),
        forall|i: int|
            0 <= i < steps.len() ==> leads(#[trigger] steps[i], moments[i], moments[i + 1]),
        0 <= n <= steps.len(),
    ensures
        ({
            let (cache, heap) = (moments[n].cache, moments[n].heap);
            let parts = parts_of(steps, moments, n);
            &&& cache.wf()
            &&& heap.wf()
            &&& on_heap(cache, heap)
            &&& cache.dim == dim
            &&& cache.max_seq_len == max_seq_len
            &&& contains(cache, heap.cells, parts)
            &&& forall|index: Seq<int>|
                cache.all_data is Some && #[trigger] valid_index(
                    cache.current_data()->0.dims,
                    index,
                ) ==> element(heap.cells, cache.current_data()->0, index) == concatenated(
                    parts,
                    dim as int,
                    index,
                )
        }),
    decreases n,
{
    let (cache, heap): (CacheView, Heap) = (moments[n].cache, moments[n].heap);
    let parts: Seq<Part> = parts_of(steps, moments, n);
    if n > 0 {
        law_appends_concatenate(steps, moments, dim, max_seq_len, n - 1);
        let (from, to): (Moment, Moment) = (moments[n - 1], moments[n - 1 + 1]);
        let old_parts: Seq<Part> = parts_of(steps, moments, n - 1);
        assert(leads(steps[n - 1], from, to));
        match steps[n - 1] {
            CacheStep::Append(src) => {
                law_append_run(from.cache, src, from.heap, to.cache, to.heap);
                lemma_append_adds(from.cache, src, from.heap, to.cache, to.heap, old_parts);
            },
            CacheStep::Reserve(like) => {
                law_reserve_run(from.cache, like, from.heap, to.cache, to.heap, old_parts);
            },
            CacheStep::Elsewhere => {},
        }
    }
    assert forall|index: Seq<int>|
        cache.all_data is Some && #[trigger] valid_index(
            cache.current_data()->0.dims,
            index,
        ) implies element(heap.cells, cache.current_data()->0, index) == concatenated(
        parts,
        dim as int,
        index,
    ) by {
        lemma_filled_index(cache, index);
        lemma_filled_reads(cache, heap.cells, index);
    }
}

proof fn lemma_append_at_finishes(
    c: CacheView,
    src: TensorView,
    position: TensorView,
    before: Heap,
    next: CacheView,
    after: Heap,
)
    requires
        c.wf(),
        c.all_data is Some,
        src.wf(),
        position.wf(),
        before.wf(),
        on_heap(c, before),
        reachable(c.all_data->0, src, c.dim as int, 0, position_value(before.cells, position)),
        append_at_finishes(c, src, position, EventView::Start, before, next, after),
    ensures
        settled(c, before, next, after),
        next == c,
        forall|index: Seq<int>| #[trigger]
            valid_index(c.all_data->0.dims, index) ==> element(
                after.cells,
                c.all_data->0,
                index,
            ) == put_at(
                c,
                src,
                position_value(before.cells, position),
                before.cells,
                element(before.cells, c.all_data->0, index),
                index,
            ),
{
    let t: TensorView = c.all_data->0;
    let dim: int = c.dim as int;
    let slot: int = position_value(before.cells, position);
    lemma_slice_at_checks(t, src, c.dim, 0, position);
    assert(t.storage.allocated(before.cells));
    match c.append_at_step(src, position, EventView::Start).1 {
        Ok(ActionView::Launch(launch)) => {
            law_slice_set_at_writes(
                t,
                src,
                c.dim,
                0,
                position,
                launch,
                before.cells,
                after.cells,
            );
            assert forall|a: u64|
                #![trigger after.cells[a]]
                before.cells.contains_key(a) && !t.storage.holds(a) implies after.cells[a]
                == before.cells[a] by {
                if t.spans(a) {
                    lemma_span_inside(t, a);
                }
            }
            assert forall|s: Storage| #[trigger] after.live.contains(s) implies s.wf()
                && s.allocated(after.cells) by {
                assert(before.live.contains(s));
            }
            assert forall|s: Storage, o: Storage| #[trigger]
                after.live.contains(s) && #[trigger] after.live.contains(o) && s
                != o implies s.apart(o) by {
                assert(before.live.contains(s) && before.live.contains(o));
            }
        },
        _ => {
            law_nothing_launched_for_nothing(t, src, c.dim, 0, position);
            assert forall|index: Seq<int>| #[trigger] valid_index(t.dims, index) implies element(
                after.cells,
                t,
                index,
            ) == put_at(c, src, slot, before.cells, element(before.cells, t, index), index) by {
                if slot <= index[dim] < slot + src.dims[dim] {
                    lemma_source_index(t, src, dim, slot, index);
                    lemma_no_index(src, index.update(dim, index[dim] - slot));
                }
            }
        },
    }
}

/// The element at `index` of a buffer into which `src` was written from `slot` on, if it fits
/// there; `old_element` is what the element was before.
pub open spec fn put_at(
    c: CacheView,
    src: TensorView,
    slot: int,
    before: Cells,
    old_element: u64,
    index: Seq<int>,
) -> u64 {
    let dim = c.dim as int;
    if slot + src.dims[dim] <= c.max_seq_len && slot <= index[dim] < slot + src.dims[dim] {
        element(before, src, index.update(dim, index[dim] - slot))
    } else {
        old_element
    }
}

/// After a write at a position, the first one or a later one, with elements or without, the buffer
/// holds the source from the slot on that the position names, and all else that it held before, or
/// zeros if it is new. The cache counts no slot as filled that it did not count before.
pub proof fn law_append_at_run(
    c: CacheView,
    src: TensorView,
    position: TensorView,
    before: Heap,
    next: CacheView,
    after: Heap,
)
    requires
        c.wf(),
        src.wf(),
        position.wf(),
        c.all_data is None ==> c.dim < src.dims.len(),
        before.wf(),
        on_heap(c, before),
        before.live.contains(src.storage),
        before.live.contains(position.storage),
        append_at_runs(c, src, position, before, next, after),
        reachable(
            next.all_data->0,
            src,
            c.dim as int,
            0,
            position_value(before.cells, position),
        ),
    ensures
        settled(c, before, next, after),
        next.current_seq_len == c.current_seq_len,
        forall|index: Seq<int>| #[trigger]
            valid_index(next.all_data->0.dims, index) ==> element(
                after.cells,
                next.all_data->0,
                index,
            ) == put_at(
                c,
                src,
                position_value(before.cells, position),
                before.cells,
                earlier(c, before.cells, next.all_data->0, index),
                index,
            ),
{
    if c.all_data is Some {
        lemma_append_at_finishes(c, src, position, before, next, after);
    } else {
        let request = c.request(src);
        let (t, mid): (TensorView, Heap) = choose|t: TensorView, mid: Heap| #[trigger]
            request.carried_out(t, before, mid) && append_at_finishes(
                c,
                src,
                position,
                EventView::Allocated(t),
                mid,
                next,
                after,
            );
        let ready = c.reserved(EventView::Allocated(t));
        law_reserving_early_changes_nothing(c, src, position, t);
        lemma_grown_wf(before, t.storage, mid);
        lemma_slice_at_checks(t, src, c.dim, 0, position);
        assert(same_outside(t.storage, before.cells, mid.cells));
        assert(t.storage.apart(src.storage) && t.storage.apart(position.storage));
        lemma_apart_reads(src, t.storage, before.cells, mid.cells);
        lemma_apart_reads(position, t.storage, before.cells, mid.cells);
        lemma_position_value(position, before.cells);
        lemma_position_value(position, mid.cells);
        lemma_append_at_finishes(ready, src, position, mid, next, after);
        let slot: int = position_value(before.cells, position);
        let dim: int = c.dim as int;
        assert forall|index: Seq<int>| #[trigger] valid_index(t.dims, index) implies element(
            after.cells,
            t,
            index,
        ) == put_at(c, src, slot, before.cells, 0, index) by {
            lemma_reads_zero(t, mid.cells, index);
            if slot <= index[dim] < slot + src.dims[dim] {
                lemma_source_index(t, src, dim, slot, index);
            }
        }
        assert forall|a: u64|
            #![trigger after.cells[a]]
            before.cells.contains_key(a) && !t.storage.holds(a) implies after.cells[a]
            == before.cells[a] by {
            assert(mid.cells[a] == before.cells[a]);
        }
    }
}

/// Two caches with buffers of their own that hold the same, or with none.
pub open spec fn twins(a: CacheView, b: CacheView, heap: Heap) -> bool {
    &&& a.wf() && b.wf()
    &&& a.dim == b.dim
    &&& a.max_seq_len == b.max_seq_len
    &&& on_heap(a, heap) && on_heap(b, heap)
    &&& a.all_data is Some <==> b.all_data is Some
    &&& a.all_data is Some ==> {
        let (t, u) = (a.all_data->0, b.all_data->0);
        &&& t.storage != u.storage
        &&& t.dtype() == u.dtype()
        &&& t.location == u.location
        &&& reads_as(u, heap.cells, t, heap.cells)
    }
}

/// Where something can be appended to one of two such caches, it can be written to the other at a
/// position, if that is one `U32` on the same device and a kernel can be told where the buffer
/// begins.
pub proof fn law_append_at_accepts_what_append_does(
    a: CacheView,
    b: CacheView,
    heap: Heap,
    src: TensorView,
    position: TensorView,
)
    requires
        twins(a, b, heap),
        a.all_data is Some,
        src.wf(),
        a.append_step(src, EventView::Start).1 is Ok,
        position_fits(b.all_data->0, position),
        src.elem_count() == 0 || kernel_starts(b.all_data->0, src, b.dim as int, 0),
    ensures
        b.append_at_step(src, position, EventView::Start).1 is Ok,
{
    let (t, u): (TensorView, TensorView) = (a.all_data->0, b.all_data->0);
    law_slice_set_accepts(t, src, a.dim, a.current_seq_len);
    law_slice_set_accepts(u, src, b.dim, 0);
    law_slice_set_at_accepts(u, src, b.dim, 0, position);
}

/// The same for two caches that have no buffers yet: where one accepts what is appended first, the
/// other accepts it as the first write at a position, once each has a buffer such as it asked for.
pub proof fn law_first_append_at_accepts_what_append_does(
    a: CacheView,
    b: CacheView,
    src: TensorView,
    position: TensorView,
    t: TensorView,
    u: TensorView,
)
    requires
        a.wf(),
        b.wf(),
        a.dim == b.dim,
        a.max_seq_len == b.max_seq_len,
        a.all_data is None,
        b.all_data is None,
        src.wf(),
        a.dim < src.dims.len(),
        a.request(src).met_by(t),
        b.request(src).met_by(u),
        a.append_step(src, EventView::Allocated(t)).1 is Ok,
        position_fits(u, position),
        src.elem_count() == 0 || kernel_starts(u, src, b.dim as int, 0),
    ensures
        b.append_at_step(src, position, EventView::Start).1 == Ok::<_, ErrorView>(
            ActionView::Allocate(b.request(src)),
        ),
        b.append_at_step(src, position, EventView::Allocated(u)).1 is Ok,
{
    law_slice_set_accepts(t, src, a.dim, 0);
    law_slice_set_accepts(u, src, b.dim, 0);
    law_slice_set_at_accepts(u, src, b.dim, 0, position);
}

/// Writing to a cache at the position where another one is filled up to does what appending to
/// the other does: the two buffers hold the same in the end. Only the other one counts the new
/// slots as filled.
pub proof fn law_append_at_matches_append(
    a: CacheView,
    b: CacheView,
    src: TensorView,
    position: TensorView,
    start: Heap,
    next_a: CacheView,
    between: Heap,
    next_b: CacheView,
    end: Heap,
)
    requires
        twins(a, b, start),
        start.wf(),
        src.wf(),
        position.wf(),
        a.all_data is None ==> a.dim < src.dims.len(),
        start.live.contains(src.storage),
        start.live.contains(position.storage),
        a.all_data matches Some(t) ==> src.storage != t.storage && position.storage != t.storage,
        position_value(start.cells, position) == a.current_seq_len,
        append_runs(a, src, start, next_a, between),
        append_at_runs(b, src, position, between, next_b, end),
        reachable(next_b.all_data->0, src, b.dim as int, 0, a.current_seq_len as int),
    ensures
        ({
            let (t, u) = (next_a.all_data->0, next_b.all_data->0);
            &&& next_a.all_data is Some && next_b.all_data is Some
            &&& u.dtype() == t.dtype()
            &&& reads_as(u, end.cells, t, end.cells)
        }),
        next_a.current_seq_len == a.current_seq_len + src.dims[a.dim as int],
        next_b.current_seq_len == b.current_seq_len,
{
    law_append_run(a, src, start, next_a, between);
    let t: TensorView = next_a.all_data->0;
    let dim: int = a.dim as int;
    let slot: int = a.current_seq_len as int;
    assert(between.live.contains(src.storage) && between.live.contains(position.storage));
    assert(on_heap(b, between));
    lemma_appended_fits(a, src, start, next_a, between);
    lemma_position_fits(b, src, position, between, next_b, end);
    lemma_apart_reads(src, t.storage, start.cells, between.cells);
    lemma_apart_reads(position, t.storage, start.cells, between.cells);
    lemma_position_value(position, start.cells);
    lemma_position_value(position, between.cells);
    law_append_at_run(b, src, position, between, next_b, end);
    let u: TensorView = next_b.all_data->0;
    assert(between.live.contains(t.storage));
    lemma_apart_reads(t, u.storage, between.cells, end.cells);
    if a.all_data is Some {
        lemma_apart_reads(u, t.storage, start.cells, between.cells);
    }
    assert forall|index: Seq<int>| #[trigger] valid_index(u.dims, index) implies element(
        end.cells,
        u,
        index,
    ) == element(end.cells, t, index) by {
        assert(element(end.cells, t, index) == element(between.cells, t, index));
        if index[dim] < next_a.current_seq_len {
            lemma_slot_filled(next_a, index);
            lemma_filled_reads(next_a, between.cells, index);
            if index[dim] < slot {
                lemma_slot_filled(a, index);
                lemma_filled_reads(a, start.cells, index);
            } else {
                lemma_source_index(t, src, dim, slot, index);
            }
        }
    }
}

/// What was accepted as a position is one.
proof fn lemma_position_fits(
    c: CacheView,
    src: TensorView,
    position: TensorView,
    before: Heap,
    next: CacheView,
    after: Heap,
)
    requires
        c.wf(),
        append_at_runs(c, src, position, before, next, after),
    ensures
        next.all_data is Some,
        position_fits(next.all_data->0, position),
{
    if c.all_data is Some {
        lemma_slice_at_checks(c.all_data->0, src, c.dim, 0, position);
    } else {
        let request = c.request(src);
        let (t, mid): (TensorView, Heap) = choose|t: TensorView, mid: Heap| #[trigger]
            request.carried_out(t, before, mid) && append_at_finishes(
                c,
                src,
                position,
                EventView::Allocated(t),
                mid,
                next,
                after,
            );
        lemma_slice_at_checks(t, src, c.dim, 0, position);
    }
}

/// What was appended fits into the buffer.
proof fn lemma_appended_fits(
    c: CacheView,
    src: TensorView,
    before: Heap,
    next: CacheView,
    after: Heap,
)
    requires
        c.wf(),
        src.wf(),
        append_runs(c, src, before, next, after),
    ensures
        src.is_contiguous(),
        next.all_data is Some,
        c.all_data is None ==> next.all_data->0.dims == src.dims.update(
            c.dim as int,
            c.max_seq_len,
        ) && next.all_data->0.dtype() == src.dtype(),
        c.dim < src.dims.len(),
        next.all_data->0.dims.len() == src.dims.len(),
        forall|k: int|
            0 <= k < src.dims.len() && k != c.dim ==> #[trigger] next.all_data->0.dims[k]
                == src.dims[k],
        c.current_seq_len + src.dims[c.dim as int] <= c.max_seq_len,
{
    if c.all_data is Some {
        lemma_slice_checks(c.all_data->0, src, c.dim, c.current_seq_len);
    } else {
        let request = c.request(src);
        let (t, mid): (TensorView, Heap) = choose|t: TensorView, mid: Heap| #[trigger]
            request.carried_out(t, before, mid) && append_finishes(
                c,
                src,
                EventView::Allocated(t),
                mid,
                next,
                after,
            );
        lemma_slice_checks(t, src, c.dim, 0);
    }
}

/// A call of [`KvCache::append`](crate::cache::KvCache::append) that succeeds, from `e` on, with
/// all that is asked for carried out in at most `fuel` steps; `out` is what it hands back.
pub open spec fn kv_append_runs(
    c: KvView,
    k: TensorView,
    v: TensorView,
    half: Half,
    e: EventView,
    before: Heap,
    next: KvView,
    out: (TensorView, TensorView),
    after: Heap,
    fuel: nat,
) -> bool
    decreases fuel,
{
    let (ready, r) = c.append_step(k, v, half, e);
    match r {
        Ok(KvAppendView::Done { k: out_k, v: out_v }) => {
            &&& next == ready
            &&& out == (out_k, out_v)
            &&& after == before
        },
        Ok(KvAppendView::Do { half: other, action }) => fuel > 0 && match action {
            ActionView::Allocate(request) => exists|t: TensorView, mid: Heap| #[trigger]
                request.carried_out(t, before, mid) && kv_append_runs(
                    ready,
                    k,
                    v,
                    other,
                    EventView::Allocated(t),
                    mid,
                    next,
                    out,
                    after,
                    (fuel - 1) as nat,
                ),
            ActionView::Launch(launch) => exists|mid: Heap| #[trigger]
                before.launched(launch, mid) && kv_append_runs(
                    ready,
                    k,
                    v,
                    other,
                    EventView::Launched,
                    mid,
                    next,
                    out,
                    after,
                    (fuel - 1) as nat,
                ),
            ActionView::Done => false,
        },
        Err(_) => false,
    }
}

/// Once the buffer of the values is there, the rest of the call is the rest of an append to them.
proof fn lemma_values_finish(
    c: KvView,
    k: TensorView,
    v: TensorView,
    e: EventView,
    before: Heap,
    next: KvView,
    out: (TensorView, TensorView),
    after: Heap,
    fuel: nat,
)
    requires
        kv_append_runs(c, k, v, Half::V, e, before, next, out, after, fuel),
        !(c.v.append_step(v, e).1 matches Ok(ActionView::Allocate(_))),
    ensures
        append_finishes(c.v, v, e, before, next.v, after),
        next.k == c.k,
        out == (c.k.current_data()->0, next.v.current_data()->0),
{
    reveal_with_fuel(kv_append_runs, 3);
    match c.v.append_step(v, e).1 {
        Ok(ActionView::Launch(launch)) => {
            let ready = c.append_step(k, v, Half::V, e).0;
            let mid: Heap = choose|mid: Heap| #[trigger]
                before.launched(launch, mid) && kv_append_runs(
                    ready,
                    k,
                    v,
                    Half::V,
                    EventView::Launched,
                    mid,
                    next,
                    out,
                    after,
                    (fuel - 1) as nat,
                );
            assert(c.v.dim < v.dims.len());
        },
        _ => {},
    }
}

/// The part of the call that is for the values is an append to them.
proof fn lemma_values_run(
    c: KvView,
    k: TensorView,
    v: TensorView,
    before: Heap,
    next: KvView,
    out: (TensorView, TensorView),
    after: Heap,
    fuel: nat,
)
    requires
        kv_append_runs(c, k, v, Half::V, EventView::Start, before, next, out, after, fuel),
    ensures
        append_runs(c.v, v, before, next.v, after),
        next.k == c.k,
        out == (c.k.current_data()->0, next.v.current_data()->0),
{
    reveal_with_fuel(kv_append_runs, 2);
    match c.v.append_step(v, EventView::Start).1 {
        Ok(ActionView::Allocate(request)) => {
            let (t, mid): (TensorView, Heap) = choose|t: TensorView, mid: Heap| #[trigger]
                request.carried_out(t, before, mid) && kv_append_runs(
                    c,
                    k,
                    v,
                    Half::V,
                    EventView::Allocated(t),
                    mid,
                    next,
                    out,
                    after,
                    (fuel - 1) as nat,
                );
            lemma_values_finish(
                c,
                k,
                v,
                EventView::Allocated(t),
                mid,
                next,
                out,
                after,
                (fuel - 1) as nat,
            );
            assert(request.carried_out(t, before, mid));
        },
        _ => {
            lemma_values_finish(c, k, v, EventView::Start, before, next, out, after, fuel);
        },
    }
}

/// Once the buffer of the keys is there, the call ends the append to them and goes on with the
/// values.
proof fn lemma_keys_finish(
    c: KvView,
    k: TensorView,
    v: TensorView,
    e: EventView,
    before: Heap,
    next: KvView,
    out: (TensorView, TensorView),
    after: Heap,
    fuel: nat,
) -> (r: (CacheView, Heap))
    requires
        kv_append_runs(c, k, v, Half::K, e, before, next, out, after, fuel),
        !(c.k.append_step(k, e).1 matches Ok(ActionView::Allocate(_))),
    ensures
        append_finishes(c.k, k, e, before, r.0, r.1),
        append_runs(c.v, v, r.1, next.v, after),
        next.k == r.0,
        out == (r.0.current_data()->0, next.v.current_data()->0),
{
    reveal_with_fuel(kv_append_runs, 2);
    match c.k.append_step(k, e).1 {
        Ok(ActionView::Launch(launch)) => {
            let ready = c.append_step(k, v, Half::K, e).0;
            let mid: Heap = choose|mid: Heap| #[trigger]
                before.launched(launch, mid) && kv_append_runs(
                    ready,
                    k,
                    v,
                    Half::K,
                    EventView::Launched,
                    mid,
                    next,
                    out,
                    after,
                    (fuel - 1) as nat,
                );
            assert(c.k.dim < k.dims.len());
            let done = KvView { k: ready.k.append_step(k, EventView::Launched).0, v: ready.v };
            assert(ready.append_step(k, v, Half::K, EventView::Launched) == done.append_step(
                k,
                v,
                Half::V,
                EventView::Start,
            ));
            assert(kv_append_runs(
                done,
                k,
                v,
                Half::V,
                EventView::Start,
                mid,
                next,
                out,
                after,
                (fuel - 1) as nat,
            ));
            lemma_values_run(done, k, v, mid, next, out, after, (fuel - 1) as nat);
            (done.k, mid)
        },
        _ => {
            let done = KvView { k: c.k.append_step(k, e).0, v: c.v };
            assert(c.append_step(k, v, Half::K, e) == done.append_step(
                k,
                v,
                Half::V,
                EventView::Start,
            ));
            assert(kv_append_runs(
                done,
                k,
                v,
                Half::V,
                EventView::Start,
                before,
                next,
                out,
                after,
                fuel,
            ));
            lemma_values_run(done, k, v, before, next, out, after, fuel);
            (done.k, before)
        },
    }
}

/// A call that appends to both caches is an append to the keys and then one to the values, and
/// what it hands back are the filled slots of both. The keys go to the keys only, and the values
/// to the values only.
pub proof fn law_kv_append_is_two_appends(
    c: KvView,
    k: TensorView,
    v: TensorView,
    before: Heap,
    next: KvView,
    out: (TensorView, TensorView),
    after: Heap,
    fuel: nat,
) -> (between: Heap)
    requires
        kv_append_runs(c, k, v, Half::K, EventView::Start, before, next, out, after, fuel),
    ensures
        append_runs(c.k, k, before, next.k, between),
        append_runs(c.v, v, between, next.v, after),
        out == (next.k.current_data()->0, next.v.current_data()->0),
{
    reveal_with_fuel(kv_append_runs, 2);
    match c.k.append_step(k, EventView::Start).1 {
        Ok(ActionView::Allocate(request)) => {
            let (t, mid): (TensorView, Heap) = choose|t: TensorView, mid: Heap| #[trigger]
                request.carried_out(t, before, mid) && kv_append_runs(
                    c,
                    k,
                    v,
                    Half::K,
                    EventView::Allocated(t),
                    mid,
                    next,
                    out,
                    after,
                    (fuel - 1) as nat,
                );
            let (_, between) = lemma_keys_finish(
                c,
                k,
                v,
                EventView::Allocated(t),
                mid,
                next,
                out,
                after,
                (fuel - 1) as nat,
            );
            assert(request.carried_out(t, before, mid));
            between
        },
        _ => {
            let (_, between) = lemma_keys_finish(
                c,
                k,
                v,
                EventView::Start,
                before,
                next,
                out,
                after,
                fuel,
            );
            between
        },
    }
}

/// After keys and values have been appended, for the first time or not, with elements or without,
/// what comes back are the filled slots of both caches, and these read as they did before,
/// followed by what was appended to each.
pub proof fn law_kv_append_extends(
    c: KvView,
    k: TensorView,
    v: TensorView,
    before: Heap,
    next: KvView,
    out: (TensorView, TensorView),
    after: Heap,
    fuel: nat,
)
    requires
        c.wf(),
        k.wf(),
        v.wf(),
        before.wf(),
        on_heap(c.k, before),
        on_heap(c.v, before),
        before.live.contains(k.storage),
        before.live.contains(v.storage),
        c.k.all_data matches Some(t) ==> v.storage != t.storage,
        c.k.all_data is Some && c.v.all_data is Some ==> c.k.all_data->0.storage
            != c.v.all_data->0.storage,
        kv_append_runs(c, k, v, Half::K, EventView::Start, before, next, out, after, fuel),
    ensures
        next.wf(),
        out == (next.k.current_data()->0, next.v.current_data()->0),
        next.k.current_seq_len == c.k.current_seq_len + k.dims[c.k.dim as int],
        next.v.current_seq_len == c.v.current_seq_len + v.dims[c.v.dim as int],
        out.0.dims[c.k.dim as int] == next.k.current_seq_len,
        out.1.dims[c.v.dim as int] == next.v.current_seq_len,
        extended(c.k, k, before.cells, next.k, after.cells),
        extended(c.v, v, before.cells, next.v, after.cells),
{
    let between: Heap = law_kv_append_is_two_appends(c, k, v, before, next, out, after, fuel);
    law_append_run(c.k, k, before, next.k, between);
    assert(between.live.contains(v.storage));
    assert(on_heap(c.v, between));
    law_append_run(c.v, v, between, next.v, after);
    lemma_appended_fits(c.v, v, between, next.v, after);
    let (tk, tv): (TensorView, TensorView) = (next.k.all_data->0, next.v.all_data->0);
    assert(tk.storage.apart(v.storage) || v.storage.apart(tk.storage));
    lemma_apart_reads(v, tk.storage, before.cells, between.cells);
    assert(between.live.contains(tk.storage));
    assert(tk.storage.allocated(between.cells));
    lemma_apart_reads(tk, tv.storage, between.cells, after.cells);
    let (dk, dv): (int, int) = (c.k.dim as int, c.v.dim as int);
    assert forall|index: Seq<int>| #[trigger]
        valid_index(next.k.current_data()->0.dims, index) implies element(
        after.cells,
        next.k.current_data()->0,
        index,
    ) == element(between.cells, next.k.current_data()->0, index) by {
        lemma_filled_index(next.k, index);
        lemma_filled_reads(next.k, between.cells, index);
        lemma_filled_reads(next.k, after.cells, index);
    }
    if c.v.all_data is Some {
        lemma_apart_reads(tv, tk.storage, before.cells, between.cells);
    }
    assert forall|index: Seq<int>| #[trigger]
        valid_index(next.v.current_data()->0.dims, index) implies element(
        after.cells,
        next.v.current_data()->0,
        index,
    ) == (if index[dv] < c.v.current_seq_len {
        element(before.cells, c.v.current_data()->0, index)
    } else {
        element(before.cells, v, index.update(dv, index[dv] - c.v.current_seq_len))
    }) by {
        lemma_filled_index(next.v, index);
        if index[dv] < c.v.current_seq_len {
            lemma_slot_filled(c.v, index);
            lemma_filled_reads(c.v, before.cells, index);
            lemma_filled_reads(c.v, between.cells, index);
        } else {
            lemma_source_index(tv, v, dv, c.v.current_seq_len as int, index);
        }
    }
}

/// A call of [`KvCache::append_at`](crate::cache::KvCache::append_at) that succeeds, from `e` on,
/// with all that is asked for carried out in at most `fuel` steps.
pub open spec fn kv_append_at_runs(
    c: KvView,
    k: TensorView,
    v: TensorView,
    position: TensorView,
    half: Half,
    e: EventView,
    before: Heap,
    next: KvView,
    after: Heap,
    fuel: nat,
) -> bool
    decreases fuel,
{
    let (ready, r) = c.append_at_step(k, v, position, half, e);
    match r {
        Ok(KvActionView::Done) => next == ready && after == before,
        Ok(KvActionView::Do { half: other, action }) => fuel > 0 && match action {
            ActionView::Allocate(request) => exists|t: TensorView, mid: Heap| #[trigger]
                request.carried_out(t, before, mid) && kv_append_at_runs(
                    ready,
                    k,
                    v,
                    position,
                    other,
                    EventView::Allocated(t),
                    mid,
                    next,
                    after,
                    (fuel - 1) as nat,
                ),
            ActionView::Launch(launch) => exists|mid: Heap| #[trigger]
                before.launched(launch, mid) && kv_append_at_runs(
                    ready,
                    k,
                    v,
                    position,
                    other,
                    EventView::Launched,
                    mid,
                    next,
                    after,
                    (fuel - 1) as nat,
                ),
            ActionView::Done => false,
        },
        Err(_) => false,
    }
}

proof fn lemma_values_finish_at(
    c: KvView,
    k: TensorView,
    v: TensorView,
    position: TensorView,
    e: EventView,
    before: Heap,
    next: KvView,
    after: Heap,
    fuel: nat,
)
    requires
        kv_append_at_runs(c, k, v, position, Half::V, e, before, next, after, fuel),
        !(c.v.append_at_step(v, position, e).1 matches Ok(ActionView::Allocate(_))),
    ensures
        append_at_finishes(c.v, v, position, e, before, next.v, after),
        next.k == c.k,
{
    reveal_with_fuel(kv_append_at_runs, 3);
}

proof fn lemma_values_run_at(
    c: KvView,
    k: TensorView,
    v: TensorView,
    position: TensorView,
    before: Heap,
    next: KvView,
    after: Heap,
    fuel: nat,
)
    requires
        kv_append_at_runs(c, k, v, position, Half::V, EventView::Start, before, next, after, fuel),
    ensures
        append_at_runs(c.v, v, position, before, next.v, after),
        next.k == c.k,
{
    reveal_with_fuel(kv_append_at_runs, 2);
    match c.v.append_at_step(v, position, EventView::Start).1 {
        Ok(ActionView::Allocate(request)) => {
            let (t, mid): (TensorView, Heap) = choose|t: TensorView, mid: Heap| #[trigger]
                request.carried_out(t, before, mid) && kv_append_at_runs(
                    c,
                    k,
                    v,
                    position,
                    Half::V,
                    EventView::Allocated(t),
                    mid,
                    next,
                    after,
                    (fuel - 1) as nat,
                );
            lemma_values_finish_at(
                c,
                k,
                v,
                position,
                EventView::Allocated(t),
                mid,
                next,
                after,
                (fuel - 1) as nat,
            );
            assert(request.carried_out(t, before, mid));
        },
        _ => {
            lemma_values_finish_at(c, k, v, position, EventView::Start, before, next, after, fuel);
        },
    }
}

proof fn lemma_keys_finish_at(
    c: KvView,
    k: TensorView,
    v: TensorView,
    position: TensorView,
    e: EventView,
    before: Heap,
    next: KvView,
    after: Heap,
    fuel: nat,
) -> (between: Heap)
    requires
        kv_append_at_runs(c, k, v, position, Half::K, e, before, next, after, fuel),
        !(c.k.append_at_step(k, position, e).1 matches Ok(ActionView::Allocate(_))),
    ensures
        append_at_finishes(c.k, k, position, e, before, next.k, between),
        append_at_runs(c.v, v, position, between, next.v, after),
{
    reveal_with_fuel(kv_append_at_runs, 2);
    match c.k.append_at_step(k, position, e).1 {
        Ok(ActionView::Launch(launch)) => {
            let ready = c.append_at_step(k, v, position, Half::K, e).0;
            let mid: Heap = choose|mid: Heap| #[trigger]
                before.launched(launch, mid) && kv_append_at_runs(
                    ready,
                    k,
                    v,
                    position,
                    Half::K,
                    EventView::Launched,
                    mid,
                    next,
                    after,
                    (fuel - 1) as nat,
                );
            assert(ready.append_at_step(k, v, position, Half::K, EventView::Launched)
                == ready.append_at_step(k, v, position, Half::V, EventView::Start));
            assert(kv_append_at_runs(
                ready,
                k,
                v,
                position,
                Half::V,
                EventView::Start,
                mid,
                next,
                after,
                (fuel - 1) as nat,
            ));
            lemma_values_run_at(ready, k, v, position, mid, next, after, (fuel - 1) as nat);
            mid
        },
        _ => {
            let done = KvView { k: c.k.append_at_step(k, position, e).0, v: c.v };
            assert(c.append_at_step(k, v, position, Half::K, e) == done.append_at_step(
                k,
                v,
                position,
                Half::V,
                EventView::Start,
            ));
            assert(kv_append_at_runs(
                done,
                k,
                v,
                position,
                Half::V,
                EventView::Start,
                before,
                next,
                after,
                fuel,
            ));
            lemma_values_run_at(done, k, v, position, before, next, after, fuel);
            before
        },
    }
}

/// A call that writes to both caches at a position, from any state of the two, is a write to the
/// keys and then one to the values, both at that position.
pub proof fn law_kv_append_at_is_two_writes(
    c: KvView,
    k: TensorView,
    v: TensorView,
    position: TensorView,
    before: Heap,
    next: KvView,
    after: Heap,
    fuel: nat,
) -> (between: Heap)
    requires
        kv_append_at_runs(c, k, v, position, Half::K, EventView::Start, before, next, after, fuel),
    ensures
        append_at_runs(c.k, k, position, before, next.k, between),
        append_at_runs(c.v, v, position, between, next.v, after),
{
    reveal_with_fuel(kv_append_at_runs, 2);
    match c.k.append_at_step(k, position, EventView::Start).1 {
        Ok(ActionView::Allocate(request)) => {
            let (t, mid): (TensorView, Heap) = choose|t: TensorView, mid: Heap| #[trigger]
                request.carried_out(t, before, mid) && kv_append_at_runs(
                    c,
                    k,
                    v,
                    position,
                    Half::K,
                    EventView::Allocated(t),
                    mid,
                    next,
                    after,
                    (fuel - 1) as nat,
                );
            let between: Heap = lemma_keys_finish_at(
                c,
                k,
                v,
                position,
                EventView::Allocated(t),
                mid,
                next,
                after,
                (fuel - 1) as nat,
            );
            assert(request.carried_out(t, before, mid));
            between
        },
        _ => lemma_keys_finish_at(c, k, v, position, EventView::Start, before, next, after, fuel),
    }
}

} // verus!

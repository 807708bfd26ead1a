//! What a cache holds after slots have been filled.

use vstd::prelude::*;

use crate::cache::{ActionView, CacheView, EventView, Half, KvActionView, KvAppendView, KvView};
use crate::copy2d::Copy2d;
use crate::error::ErrorView;
use crate::extension::slice_set_at_outcome;
use crate::memory::{element, Cells};
use crate::shape::valid_index;
use crate::slice_laws::{law_narrow_reads, law_slice_set_accepts, law_slice_set_at_writes};
use crate::slice_laws::{kernel_holds, law_slice_set_writes, lemma_slice_checks};
use crate::slice_laws::{position_value, reachable, slice_fits, written_at};
use crate::tensor::TensorView;

verus! {

/// Once a buffer has been reserved, none is asked for again: reserving changes nothing any more,
/// and neither appending nor writing at a position allocates.
pub proof fn law_reserved_once(c: CacheView, like: TensorView, e: EventView)
    requires
        c.reserve_step(like, e).1 is Done,
    ensures
        ({
            let ready = c.reserve_step(like, e).0;
            &&& ready.all_data is Some
            &&& forall|other: TensorView| #[trigger]
                ready.reserve_step(other, EventView::Start) == (ready, ActionView::Done)
            &&& forall|src: TensorView|
                !((#[trigger] ready.append_step(src, EventView::Start)).1 matches Ok(
                    ActionView::Allocate(_),
                ))
            &&& forall|src: TensorView, position: TensorView|
                !((#[trigger] ready.append_at_step(src, position, EventView::Start)).1 matches Ok(
                    ActionView::Allocate(_),
                ))
        }),
{
}

/// A cache that allocates its buffer on the first append goes on as one whose buffer had been
/// reserved before, and so does one on the first write at a position.
pub proof fn law_reserving_early_changes_nothing(
    c: CacheView,
    src: TensorView,
    position: TensorView,
    t: TensorView,
)
    requires
        c.all_data is None,
    ensures
        ({
            let ready = c.reserve_step(src, EventView::Allocated(t)).0;
            let e = EventView::Allocated(t);
            &&& c.dim < src.dims.len() ==> c.append_step(src, e) == ready.append_step(
                src,
                EventView::Start,
            )
            &&& c.append_at_step(src, position, e) == ready.append_at_step(
                src,
                position,
                EventView::Start,
            )
        }),
{
}

/// Something is appended to a buffer exactly where it fits as a slice after the slots that are
/// filled, and a kernel can count what there is to copy, if there is anything.
pub proof fn law_append_accepts(c: CacheView, src: TensorView)
    requires
        c.wf(),
        src.wf(),
        c.all_data is Some,
    ensures
        c.append_step(src, EventView::Start).1 is Ok <==> {
            let t = c.all_data->0;
            &&& slice_fits(t, src, c.dim, c.current_seq_len)
            &&& src.elem_count() == 0 || kernel_holds(t, src, c.dim as int)
        },
{
    law_slice_set_accepts(c.all_data->0, src, c.dim, c.current_seq_len);
}

/// What is appended first is accepted exactly where it is contiguous, lies on a CUDA device and
/// is not longer than the cache, and a kernel can count it: the buffer is made to fit the rest.
pub proof fn law_first_append_accepts(c: CacheView, src: TensorView, t: TensorView)
    requires
        c.wf(),
        src.wf(),
        c.all_data is None,
        c.dim < src.dims.len(),
        c.request(src).met_by(t),
    ensures
        c.append_step(src, EventView::Allocated(t)).1 is Ok <==> {
            &&& src.is_contiguous()
            &&& src.location is Cuda
            &&& src.dims[c.dim as int] <= c.max_seq_len
            &&& src.elem_count() == 0 || kernel_holds(t, src, c.dim as int)
        },
{
    let ready = c.reserved(EventView::Allocated(t));
    law_reserving_early_changes_nothing(c, src, src, t);
    law_append_accepts(ready, src);
    assert forall|k: int| 0 <= k < t.dims.len() && k != c.dim implies #[trigger] t.dims[k]
        == src.dims[k] by {
        assert(t.dims[k] == src.dims.update(c.dim as int, c.max_seq_len)[k]);
    }
}

/// The slots that are filled in `next` read, in `after`, as those filled in `c` and then `src` read
/// in `before`.
pub open spec fn extended(
    c: CacheView,
    src: TensorView,
    before: Cells,
    next: CacheView,
    after: Cells,
) -> bool {
    let dim = c.dim as int;
    forall|index: Seq<int>| #[trigger]
        valid_index(next.current_data()->0.dims, index) ==> element(
            after,
            next.current_data()->0,
            index,
        ) == (if index[dim] < c.current_seq_len {
            element(before, c.current_data()->0, index)
        } else {
            element(before, src, index.update(dim, index[dim] - c.current_seq_len))
        })
}

/// After an append the filled slots read as they did before, followed by what was appended, and
/// memory outside the buffer is unchanged.
pub proof fn law_append_extends(
    c: CacheView,
    src: TensorView,
    launch: Copy2d,
    before: Cells,
    after: Cells,
)
    requires
        c.wf(),
        src.wf(),
        c.append_step(src, EventView::Start) == (
            c,
            Ok::<_, ErrorView>(ActionView::Launch(launch)),
        ),
        c.all_data is Some,
        c.all_data->0.storage.allocated(before),
        launch.effect(before, after),
    ensures
        ({
            let next = c.append_step(src, EventView::Launched).0;
            let t = c.all_data->0;
            &&& next.wf()
            &&& next.all_data == c.all_data
            &&& next.current_seq_len == c.current_seq_len + src.dims[c.dim as int]
            &&& extended(c, src, before, next, after)
            &&& forall|index: Seq<int>| #[trigger]
                valid_index(t.dims, index) && index[c.dim as int] >= next.current_seq_len
                    ==> element(after, t, index) == element(before, t, index)
            &&& after.dom() == before.dom()
            &&& forall|a: u64|
                #![trigger after[a]]
                before.contains_key(a) && !t.spans(a) ==> after[a] == before[a]
        }),
{
    let t: TensorView = c.all_data->0;
    let dim: int = c.dim as int;
    let next = c.append_step(src, EventView::Launched).0;
    lemma_slice_checks(t, src, c.dim, c.current_seq_len);
    law_slice_set_writes(t, src, c.dim, c.current_seq_len, launch, before, after);
    assert forall|index: Seq<int>| #[trigger]
        valid_index(next.current_data()->0.dims, index) implies element(
        after,
        next.current_data()->0,
        index,
    ) == (if index[dim] < c.current_seq_len {
        element(before, c.current_data()->0, index)
    } else {
        element(before, src, index.update(dim, index[dim] - c.current_seq_len))
    }) by {
        lemma_filled_index(next, index);
        law_narrow_reads(after, t, dim, 0, next.current_seq_len, index);
        assert(index.update(dim, index[dim] + 0) =~= index);
        if index[dim] < c.current_seq_len {
            assert(valid_index(c.current_data()->0.dims, index)) by {
                assert forall|m: int| 0 <= m < t.dims.len() implies 0 <= #[trigger] index[m]
                    < c.current_data()->0.dims[m] by {
                    assert(0 <= index[m] < next.current_data()->0.dims[m]);
                }
            }
            law_narrow_reads(before, t, dim, 0, c.current_seq_len, index);
        }
    }
}

/// An index of a filled slot is one of the buffer.
pub proof fn lemma_filled_index(c: CacheView, index: Seq<int>)
    requires
        c.wf(),
        c.all_data is Some,
        valid_index(c.current_data()->0.dims, index),
    ensures
        valid_index(c.all_data->0.dims, index),
        0 <= index[c.dim as int] < c.current_seq_len,
{
    let t: TensorView = c.all_data->0;
    assert forall|m: int| 0 <= m < t.dims.len() implies 0 <= #[trigger] index[m] < t.dims[m] by {
        assert(0 <= index[m] < c.current_data()->0.dims[m]);
    }
    assert(0 <= index[c.dim as int] < c.current_data()->0.dims[c.dim as int]);
}

/// A filled slot reads as the slot of the buffer.
pub proof fn lemma_filled_reads(c: CacheView, cells: Cells, index: Seq<int>)
    requires
        c.wf(),
        c.all_data is Some,
        valid_index(c.current_data()->0.dims, index),
    ensures
        element(cells, c.current_data()->0, index) == element(cells, c.all_data->0, index),
{
    let dim: int = c.dim as int;
    law_narrow_reads(cells, c.all_data->0, dim, 0, c.current_seq_len, index);
    assert(index.update(dim, index[dim] + 0) =~= index);
}

/// A write at a position fills the slots of the buffer from the one on that the position names
/// when the kernel runs, wherever that was at the time of the call, and leaves all else alone.
/// Where the source would run off the end from there, nothing is written. Either way the cache
/// counts no slot as filled that it did not count before.
pub proof fn law_append_at_writes(
    c: CacheView,
    src: TensorView,
    position: TensorView,
    launch: Copy2d,
    before: Cells,
    after: Cells,
)
    requires
        c.wf(),
        src.wf(),
        position.wf(),
        c.append_at_step(src, position, EventView::Start) == (
            c,
            Ok::<_, ErrorView>(ActionView::Launch(launch)),
        ),
        c.all_data is Some,
        reachable(c.all_data->0, src, c.dim as int, 0, position_value(before, position)),
        c.all_data->0.storage.allocated(before),
        launch.effect(before, after),
    ensures
        ({
            let slot = position_value(before, position);
            if slot + src.dims[c.dim as int] <= c.max_seq_len {
                written_at(c.all_data->0, src, c.dim as int, slot, before, after)
            } else {
                after == before
            }
        }),
        c.append_at_step(src, position, EventView::Launched).0 == c,
{
    law_slice_set_at_writes(
        c.all_data->0,
        src,
        c.dim,
        0,
        position,
        launch,
        before,
        after,
    );
}

/// The keys come first: as long as there is something to do for them, or where they are refused,
/// the values are as they were; and once the values have their turn the keys are left alone.
pub proof fn law_keys_before_values(
    c: KvView,
    k: TensorView,
    v: TensorView,
    position: TensorView,
    e: EventView,
)
    ensures
        c.append_step(k, v, Half::K, e).1 matches Ok(KvAppendView::Do { half: Half::K, .. })
            ==> c.append_step(k, v, Half::K, e).0.v == c.v,
        c.k.append_step(k, e).1 is Err ==> c.append_step(k, v, Half::K, e) == (
            (KvView { k: c.k.append_step(k, e).0, v: c.v }),
            Err::<KvAppendView, _>(c.k.append_step(k, e).1->Err_0),
        ),
        c.append_step(k, v, Half::V, e).0.k == c.k,
        c.append_at_step(k, v, position, Half::K, e).1 matches Ok(
            KvActionView::Do { half: Half::K, .. },
        ) ==> c.append_at_step(k, v, position, Half::K, e).0.v == c.v,
        c.k.append_at_step(k, position, e).1 is Err ==> c.append_at_step(
            k,
            v,
            position,
            Half::K,
            e,
        ) == (
            (KvView { k: c.k.append_at_step(k, position, e).0, v: c.v }),
            Err::<KvActionView, _>(c.k.append_at_step(k, position, e).1->Err_0),
        ),
        c.append_at_step(k, v, position, Half::V, e).0.k == c.k,
{
}

/// Once both caches have been reserved, both have their buffers.
pub proof fn law_kv_reserved(
    c: KvView,
    k: TensorView,
    v: TensorView,
    half: Half,
    e: EventView,
)
    requires
        c.reserve_admits(k, v, half, e),
        half is V ==> c.k.all_data is Some,
        c.reserve_step(k, v, half, e).1 is Done,
    ensures
        c.reserve_step(k, v, half, e).0.k.all_data is Some,
        c.reserve_step(k, v, half, e).0.v.all_data is Some,
{
}

/// The launch of an append writes to the same slots whatever the memory holds: a graph that has
/// captured it goes on writing there on every replay.
pub proof fn law_append_stays_put(
    c: CacheView,
    src: TensorView,
    launch: Copy2d,
    one: Cells,
    other: Cells,
    i: int,
    j: int,
)
    requires
        c.append_step(src, EventView::Start).1 == Ok::<_, ErrorView>(ActionView::Launch(launch)),
    ensures
        launch.dst_cell(one, i, j) == launch.dst_cell(other, i, j),
        !launch.skips(one),
{
}

/// Appending to both caches, once their buffers are there, takes one launch for the keys and then
/// one for the values. In the end both caches have moved on, and what comes back are the filled
/// slots of both.
pub proof fn law_kv_append_run(
    c: KvView,
    k: TensorView,
    v: TensorView,
    launch_k: Copy2d,
    launch_v: Copy2d,
)
    requires
        c.wf(),
        c.k.append_step(k, EventView::Start) == (
            c.k,
            Ok::<_, ErrorView>(ActionView::Launch(launch_k)),
        ),
        c.v.append_step(v, EventView::Start) == (
            c.v,
            Ok::<_, ErrorView>(ActionView::Launch(launch_v)),
        ),
    ensures
        ({
            let between = KvView { k: c.k.append_step(k, EventView::Launched).0, v: c.v };
            let end = KvView { v: c.v.append_step(v, EventView::Launched).0, ..between };
            &&& c.append_step(k, v, Half::K, EventView::Start) == (
                c,
                Ok::<_, ErrorView>(
                    KvAppendView::Do { half: Half::K, action: ActionView::Launch(launch_k) },
                ),
            )
            &&& c.append_step(k, v, Half::K, EventView::Launched) == (
                between,
                Ok::<_, ErrorView>(
                    KvAppendView::Do { half: Half::V, action: ActionView::Launch(launch_v) },
                ),
            )
            &&& between.append_step(k, v, Half::V, EventView::Launched) == (
                end,
                Ok::<_, ErrorView>(
                    KvAppendView::Done {
                        k: end.k.current_data()->0,
                        v: end.v.current_data()->0,
                    },
                ),
            )
            &&& end.k.current_seq_len == c.k.current_seq_len + k.dims[c.k.dim as int]
            &&& end.v.current_seq_len == c.v.current_seq_len + v.dims[c.v.dim as int]
        }),
{
}

/// Writing to both caches at a position, once their buffers are there, takes one launch for the
/// keys and then one for the values, and changes neither cache: a capture of it holds these two
/// launches and nothing else.
pub proof fn law_kv_append_at_run(
    c: KvView,
    k: TensorView,
    v: TensorView,
    position: TensorView,
    launch_k: Copy2d,
    launch_v: Copy2d,
)
    requires
        c.k.all_data is Some,
        c.v.all_data is Some,
        slice_set_at_outcome(c.k.all_data->0, k, c.k.dim, 0, position) == Ok::<_, ErrorView>(
            Some(launch_k),
        ),
        slice_set_at_outcome(c.v.all_data->0, v, c.v.dim, 0, position) == Ok::<_, ErrorView>(
            Some(launch_v),
        ),
    ensures
        c.append_at_step(k, v, position, Half::K, EventView::Start) == (
            c,
            Ok::<_, ErrorView>(
                KvActionView::Do { half: Half::K, action: ActionView::Launch(launch_k) },
            ),
        ),
        c.append_at_step(k, v, position, Half::K, EventView::Launched) == (
            c,
            Ok::<_, ErrorView>(
                KvActionView::Do { half: Half::V, action: ActionView::Launch(launch_v) },
            ),
        ),
        c.append_at_step(k, v, position, Half::V, EventView::Launched) == (
            c,
            Ok::<_, ErrorView>(KvActionView::Done),
        ),
{
}

} // verus!

//! What a cache asks for, what it accepts and what it says where it does not, call by call.

use vstd::prelude::*;

use crate::cache::{ActionView, AllocationView, CacheView, EventView, Half};
use crate::cache::{KvActionView, KvAppendView, KvView};
use crate::cache_laws::law_append_accepts;
use crate::cache_runs::{append_finishes, append_runs};
use crate::error::{ErrorView, Op};
use crate::extension::{block_size, slice_set_at_outcome, slice_set_outcome};
use crate::launch_laws::lemma_slice_set_error_kinds;
use crate::memory::Heap;
use crate::slice_laws::{kernel_holds, law_nothing_launched_for_nothing, law_slice_set_accepts};
use crate::slice_laws::{law_slice_set_at_accepts, position_fits, slice_fits};
use crate::tensor::TensorView;

verus! {

/// A request for a buffer of the element type and on the device of `like`, as long as the cache on
/// the dimension that it goes along, and as long as `like` on all others.
pub open spec fn makes_room(c: CacheView, like: TensorView, request: AllocationView) -> bool {
    &&& request.dtype == like.storage.dtype
    &&& request.location == like.location
    &&& request.dims.len() == like.dims.len()
    &&& request.dims[c.dim as int] == c.max_seq_len
    &&& forall|k: int|
        0 <= k < like.dims.len() && k != c.dim ==> #[trigger] request.dims[k] == like.dims[k]
}

/// A cache without a buffer starts by asking for one, whether it is reserved, appended to or
/// written to at a position, and in all three cases for one that has the element type, the device
/// and the other sizes of the tensor at hand. Until the buffer is there, the cache stays as it is.
pub proof fn law_first_call_asks_for_the_buffer(
    c: CacheView,
    like: TensorView,
    position: TensorView,
)
    requires
        c.all_data is None,
        c.dim < like.dims.len(),
    ensures
        exists|request: AllocationView|
            {
                &&& #[trigger] makes_room(c, like, request)
                &&& c.reserve_step(like, EventView::Start) == (c, ActionView::Allocate(request))
                &&& c.append_step(like, EventView::Start) == (
                    c,
                    Ok::<_, ErrorView>(ActionView::Allocate(request)),
                )
                &&& c.append_at_step(like, position, EventView::Start) == (
                    c,
                    Ok::<_, ErrorView>(ActionView::Allocate(request)),
                )
            },
{
    assert(makes_room(c, like, c.request(like)));
}

/// Two requests for the same room are the same, and a buffer meets one exactly if it is
/// contiguous and has what was asked for.
pub proof fn law_requests_are_exact(
    c: CacheView,
    like: TensorView,
    request: AllocationView,
    t: TensorView,
)
    requires
        c.dim < like.dims.len(),
        makes_room(c, like, request),
    ensures
        c.request(like) == request,
        request.met_by(t) <==> {
            &&& t.wf()
            &&& t.is_contiguous()
            &&& t.storage.dtype == like.storage.dtype
            &&& t.location == like.location
            &&& t.dims.len() == like.dims.len()
            &&& t.dims[c.dim as int] == c.max_seq_len
            &&& forall|k: int|
                0 <= k < like.dims.len() && k != c.dim ==> #[trigger] t.dims[k] == like.dims[k]
        },
{
    assert(c.request(like).dims =~= request.dims) by {
        assert forall|k: int| 0 <= k < like.dims.len() implies c.request(like).dims[k]
            == request.dims[k] by {
            if k != c.dim {
                assert(request.dims[k] == like.dims[k]);
            }
        }
    }
    if t.dims.len() == like.dims.len() && t.dims[c.dim as int] == c.max_seq_len && (forall|k: int|
        0 <= k < like.dims.len() && k != c.dim ==> #[trigger] t.dims[k] == like.dims[k]) {
        assert forall|k: int| 0 <= k < t.dims.len() implies t.dims[k] == request.dims[k] by {
            if k != c.dim {
                assert(request.dims[k] == like.dims[k]);
                assert(t.dims[k] == like.dims[k]);
            }
        }
        assert(t.dims =~= request.dims);
    }
}

/// The buffer that a cache was reserved with is the one that it holds from then on, and nothing
/// else about the cache changes. A cache with a buffer is left alone.
pub proof fn law_reserving_sets_the_buffer(c: CacheView, like: TensorView, t: TensorView)
    ensures
        c.reserve_step(like, EventView::Allocated(t)) == (
            (CacheView {
                all_data: Some(t),
                dim: c.dim,
                current_seq_len: c.current_seq_len,
                max_seq_len: c.max_seq_len,
            }),
            ActionView::Done,
        ),
        c.all_data is Some ==> c.reserve_step(like, EventView::Start) == (c, ActionView::Done),
        c.reserve_step(like, EventView::Launched) == c.reserve_step(like, EventView::Start),
{
}

/// A cache that was reserved with `like` accepts `like`, for an append and for a write at a
/// position: exactly if it is contiguous, lies on a CUDA device, is not longer than the cache and
/// can be counted by a kernel, and the position is one `U32` on the same device.
pub proof fn law_reserved_cache_takes_what_it_was_reserved_with(
    c: CacheView,
    like: TensorView,
    position: TensorView,
    t: TensorView,
)
    requires
        c.wf(),
        c.all_data is None,
        like.wf(),
        c.dim < like.dims.len(),
        (c.reserve_step(like, EventView::Start).1)->Allocate_0.met_by(t),
    ensures
        ({
            let next = c.reserve_step(like, EventView::Allocated(t)).0;
            let taken = {
                &&& like.is_contiguous()
                &&& like.location is Cuda
                &&& like.dims[c.dim as int] <= c.max_seq_len
                &&& like.elem_count() == 0 || kernel_holds(t, like, c.dim as int)
            };
            &&& next.wf()
            &&& next.all_data == Some(t)
            &&& next.current_seq_len == 0
            &&& next.append_step(like, EventView::Start).1 is Ok <==> taken
            &&& next.append_at_step(like, position, EventView::Start).1 is Ok <==> {
                &&& taken
                &&& position_fits(like, position)
                &&& like.elem_count() == 0 || t.start_offset <= u32::MAX
            }
        }),
{
    law_first_call_asks_for_the_buffer(c, like, position);
    let request: AllocationView = choose|request: AllocationView|
        {
            &&& #[trigger] makes_room(c, like, request)
            &&& c.reserve_step(like, EventView::Start) == (c, ActionView::Allocate(request))
            &&& c.append_step(like, EventView::Start) == (
                c,
                Ok::<_, ErrorView>(ActionView::Allocate(request)),
            )
            &&& c.append_at_step(like, position, EventView::Start) == (
                c,
                Ok::<_, ErrorView>(ActionView::Allocate(request)),
            )
        };
    law_requests_are_exact(c, like, request, t);
    let next = c.reserve_step(like, EventView::Allocated(t)).0;
    law_append_accepts(next, like);
    law_slice_set_accepts(t, like, c.dim, 0);
    law_slice_set_at_accepts(t, like, c.dim, 0, position);
    let b: int = block_size(like, c.dim as int);
    assert(0 * b == 0);
}

/// What an append to a cache with a buffer comes to. It is refused as too long exactly if the
/// slots that are filled and those to be filled are more than there are, and the three numbers are
/// reported. Else it comes to what writing the slice after the filled slots comes to. A refusal
/// changes nothing, and neither does asking for a launch. Without elements there is nothing to
/// launch, and the slots count as filled at once.
pub proof fn law_append_is_a_slice_after_the_filled_slots(c: CacheView, src: TensorView)
    requires
        c.wf(),
        src.wf(),
        c.all_data is Some,
    ensures
        ({
            let t = c.all_data->0;
            let d = c.dim as int;
            let (next, result) = c.append_step(src, EventView::Start);
            let slice = slice_set_outcome(t, src, c.dim, c.current_seq_len);
            &&& c.dim >= src.dims.len() <==> result == Err::<ActionView, _>(
                ErrorView::DimOutOfRange { shape: src.dims, dim: c.dim, op: Op::Dim },
            )
            &&& (result matches Err(ErrorView::AboveMaxSeqLen { .. })) <==> c.dim < src.dims.len()
                && c.current_seq_len + src.dims[d] > c.max_seq_len
            &&& result matches Err(ErrorView::AboveMaxSeqLen { current, seq_len, max }) ==> {
                &&& current == c.current_seq_len
                &&& seq_len == src.dims[d]
                &&& max == c.max_seq_len
            }
            &&& c.dim < src.dims.len() && c.current_seq_len + src.dims[d] <= c.max_seq_len
                ==> match slice {
                Err(e) => result == Err::<ActionView, _>(e) && next == c,
                Ok(Some(launch)) => result == Ok::<_, ErrorView>(ActionView::Launch(launch))
                    && next == c,
                Ok(None) => {
                    &&& result == Ok::<_, ErrorView>(ActionView::Done)
                    &&& next.current_seq_len == c.current_seq_len + src.dims[d]
                    &&& next.all_data == c.all_data
                    &&& next.dim == c.dim && next.max_seq_len == c.max_seq_len
                },
            }
            &&& result is Err ==> next == c
        }),
{
    let t = c.all_data->0;
    law_slice_set_accepts(t, src, c.dim, c.current_seq_len);
    lemma_slice_set_error_kinds(t, src, c.dim, c.current_seq_len);
}

/// Once the launch of an append has been made, as many more slots count as filled as the source
/// has, and nothing else about the cache has changed.
pub proof fn law_append_counts_what_was_launched(c: CacheView, src: TensorView)
    requires
        c.wf(),
        src.wf(),
        c.append_step(src, EventView::Start).1 matches Ok(ActionView::Launch(_)),
    ensures
        c.append_step(src, EventView::Launched).1 == Ok::<_, ErrorView>(ActionView::Done),
        ({
            let next = c.append_step(src, EventView::Launched).0;
            &&& next.current_seq_len == c.current_seq_len + src.dims[c.dim as int]
            &&& next.current_seq_len <= c.max_seq_len
            &&& next.all_data == c.all_data
            &&& next.dim == c.dim
            &&& next.max_seq_len == c.max_seq_len
        }),
{
}

/// A source without the dimension that the cache goes along is refused by an append, before any
/// buffer is asked for.
pub proof fn law_append_needs_the_dimension(c: CacheView, src: TensorView)
    ensures
        c.dim >= src.dims.len() <==> c.append_step(src, EventView::Start) == (
            c,
            Err::<ActionView, _>(
                ErrorView::DimOutOfRange { shape: src.dims, dim: c.dim, op: Op::Dim },
            ),
        ),
{    if c.all_data is Some {
        lemma_slice_set_error_kinds(c.all_data->0, src, c.dim, c.current_seq_len);
    }
}

/// The first append goes from the call to its end without a refusal exactly if the source is
/// contiguous, lies on a CUDA device, is not longer than the cache and can be counted by a kernel.
/// It asks for the buffer, then for the launch, if there is anything to copy, and in the end the
/// buffer is there and as many slots are filled as the source has.
pub proof fn law_first_append_succeeds(c: CacheView, src: TensorView, t: TensorView)
    requires
        c.wf(),
        src.wf(),
        c.all_data is None,
        c.dim < src.dims.len(),
        c.append_step(src, EventView::Start).1 matches Ok(ActionView::Allocate(request))
            ==> request.met_by(t),
    ensures
        c.append_step(src, EventView::Start).0 == c,
        c.append_step(src, EventView::Start).1 matches Ok(ActionView::Allocate(request))
            && makes_room(c, src, request),
        ({
            let (ready, result) = c.append_step(src, EventView::Allocated(t));
            let taken = {
                &&& src.is_contiguous()
                &&& src.location is Cuda
                &&& src.dims[c.dim as int] <= c.max_seq_len
                &&& src.elem_count() == 0 || kernel_holds(t, src, c.dim as int)
            };
            &&& ready.all_data == Some(t)
            &&& result is Ok <==> taken
            &&& src.dims[c.dim as int] > c.max_seq_len <==> result == Err::<ActionView, _>(
                ErrorView::AboveMaxSeqLen {
                    current: 0,
                    seq_len: src.dims[c.dim as int],
                    max: c.max_seq_len,
                },
            )
            &&& taken && src.elem_count() > 0 ==> {
                &&& result matches Ok(ActionView::Launch(_))
                &&& ready.current_seq_len == 0
                &&& ready.append_step(src, EventView::Launched).1 == Ok::<_, ErrorView>(
                    ActionView::Done,
                )
                &&& ready.append_step(src, EventView::Launched).0.all_data == Some(t)
                &&& ready.append_step(src, EventView::Launched).0.current_seq_len
                    == src.dims[c.dim as int]
            }
            &&& taken && src.elem_count() == 0 ==> {
                &&& result == Ok::<_, ErrorView>(ActionView::Done)
                &&& ready.current_seq_len == src.dims[c.dim as int]
            }
        }),
{
    law_first_call_asks_for_the_buffer(c, src, src);
    law_reserved_cache_takes_what_it_was_reserved_with(c, src, src, t);
    let held = c.reserve_step(src, EventView::Allocated(t)).0;
    law_append_is_a_slice_after_the_filled_slots(held, src);
    law_nothing_launched_for_nothing(t, src, c.dim, 0, src);
    assert(c.append_step(src, EventView::Allocated(t)) == held.append_step(src, EventView::Start));
}

/// Writing at a position into a cache with a buffer comes to what writing the slice at that
/// position, from the first slot of the buffer on, comes to, and never changes the cache: not the
/// number of slots that count as filled, and not the buffer.
pub proof fn law_append_at_is_a_slice_at_the_position(
    c: CacheView,
    src: TensorView,
    position: TensorView,
)
    requires
        c.all_data is Some,
    ensures
        c.append_at_step(src, position, EventView::Start) == (
            c,
            match slice_set_at_outcome(c.all_data->0, src, c.dim, 0, position) {
                Err(e) => Err(e),
                Ok(Some(launch)) => Ok(ActionView::Launch(launch)),
                Ok(None) => Ok(ActionView::Done),
            },
        ),
        c.append_at_step(src, position, EventView::Launched) == (
            c,
            Ok::<_, ErrorView>(ActionView::Done),
        ),
{
}

/// The first write at a position goes on, once the buffer is there, as one into a cache that was
/// reserved before; it counts no slot as filled.
pub proof fn law_first_append_at_succeeds(
    c: CacheView,
    src: TensorView,
    position: TensorView,
    t: TensorView,
)
    requires
        c.wf(),
        src.wf(),
        c.all_data is None,
        c.dim < src.dims.len(),
        c.append_at_step(src, position, EventView::Start).1 matches Ok(
            ActionView::Allocate(request),
        ) ==> request.met_by(t),
    ensures
        c.append_at_step(src, position, EventView::Start).0 == c,
        c.append_at_step(src, position, EventView::Start).1 matches Ok(
            ActionView::Allocate(request),
        ) && makes_room(c, src, request),
        ({
            let (ready, result) = c.append_at_step(src, position, EventView::Allocated(t));
            let taken = {
                &&& src.is_contiguous()
                &&& src.location is Cuda
                &&& src.dims[c.dim as int] <= c.max_seq_len
                &&& src.elem_count() == 0 || kernel_holds(t, src, c.dim as int)
                &&& position_fits(src, position)
                &&& src.elem_count() == 0 || t.start_offset <= u32::MAX
            };
            &&& ready.all_data == Some(t)
            &&& ready.current_seq_len == 0
            &&& result is Ok <==> taken
            &&& taken ==> (src.elem_count() > 0 <==> (result matches Ok(ActionView::Launch(_))))
            &&& ready.append_at_step(src, position, EventView::Launched) == (
                ready,
                Ok::<_, ErrorView>(ActionView::Done),
            )
        }),
{
    law_first_call_asks_for_the_buffer(c, src, position);
    law_reserved_cache_takes_what_it_was_reserved_with(c, src, position, t);
    law_nothing_launched_for_nothing(t, src, c.dim, 0, position);
}

/// The filled slots of a cache are a view of its buffer that is as long as they are many on the
/// dimension of the cache, and begins where the buffer begins.
pub proof fn law_current_data_is_the_filled_part(c: CacheView)
    requires
        c.wf(),
    ensures
        c.current_data() is Some <==> c.all_data is Some,
        c.current_data() matches Some(filled) ==> {
            let t = c.all_data->0;
            &&& filled.storage == t.storage
            &&& filled.stride == t.stride
            &&& filled.start_offset == t.start_offset
            &&& filled.location == t.location
            &&& filled.dims.len() == t.dims.len()
            &&& filled.dims[c.dim as int] == c.current_seq_len
            &&& forall|k: int|
                0 <= k < t.dims.len() && k != c.dim ==> #[trigger] filled.dims[k] == t.dims[k]
        },
{
    if c.all_data is Some {
        let s: int = c.all_data->0.stride[c.dim as int] as int;
        assert(s * 0 == 0);
    }
}

/// An empty cache has no buffer and no filled slot, and all the room that it was made with.
pub proof fn law_empty_cache(dim: usize, max_seq_len: usize)
    ensures
        ({
            let c = CacheView::empty(dim, max_seq_len);
            &&& c.all_data is None
            &&& c.current_seq_len == 0
            &&& c.dim == dim
            &&& c.max_seq_len == max_seq_len
            &&& c.wf()
            &&& c.current_data() is None
        }),
{
}

/// Every call can be made: to start with, on any cache; with the buffer that was asked for; and
/// with the launch that was asked for.
pub proof fn law_calls_can_be_made(c: CacheView, src: TensorView, position: TensorView, t: TensorView)
    requires
        c.wf(),
        src.wf(),
        position.wf(),
    ensures
        c.append_admits(src, EventView::Start),
        c.append_step(src, EventView::Start).1 matches Ok(ActionView::Allocate(request))
            ==> request.met_by(t) ==> c.append_admits(src, EventView::Allocated(t)),
        c.append_step(src, EventView::Start).1 matches Ok(ActionView::Launch(_))
            ==> c.append_admits(src, EventView::Launched),
        c.all_data is Some || c.dim < src.dims.len() ==> {
            &&& c.reserve_admits(src, EventView::Start)
            &&& c.append_at_admits(src, position, EventView::Start)
        },
        c.all_data is None && c.dim < src.dims.len() && (c.reserve_step(
            src,
            EventView::Start,
        ).1)->Allocate_0.met_by(t) ==> {
            &&& c.reserve_admits(src, EventView::Allocated(t))
            &&& c.append_at_admits(src, position, EventView::Allocated(t))
        },
        c.all_data is Some && (c.append_at_step(src, position, EventView::Start).1 matches Ok(
            ActionView::Launch(_),
        )) ==> c.append_at_admits(src, position, EventView::Launched),
{
}

/// Appending to both caches is appending to the keys, and once that is done, appending to the
/// values. What the keys ask for, or are refused with, comes back as theirs and leaves the values
/// alone; what the values ask for, or are refused with, comes back as theirs and leaves the keys
/// alone. In the end the filled slots of both come back.
pub proof fn law_kv_append_follows_its_caches(
    c: KvView,
    k: TensorView,
    v: TensorView,
    e: EventView,
)
    ensures
        ({
            let (next_k, result) = c.k.append_step(k, e);
            let kv = KvView { k: next_k, v: c.v };
            match result {
                Err(error) => c.append_step(k, v, Half::K, e) == (kv, Err::<KvAppendView, _>(error)),
                Ok(ActionView::Done) => c.append_step(k, v, Half::K, e) == kv.append_step(
                    k,
                    v,
                    Half::V,
                    EventView::Start,
                ),
                Ok(action) => c.append_step(k, v, Half::K, e) == (
                    kv,
                    Ok::<_, ErrorView>(KvAppendView::Do { half: Half::K, action }),
                ),
            }
        }),
        ({
            let (next_v, result) = c.v.append_step(v, e);
            let kv = KvView { k: c.k, v: next_v };
            match result {
                Err(error) => c.append_step(k, v, Half::V, e) == (kv, Err::<KvAppendView, _>(error)),
                Ok(ActionView::Done) => c.append_step(k, v, Half::V, e) == (
                    kv,
                    Ok::<_, ErrorView>(
                        KvAppendView::Done {
                            k: c.k.current_data()->0,
                            v: next_v.current_data()->0,
                        },
                    ),
                ),
                Ok(action) => c.append_step(k, v, Half::V, e) == (
                    kv,
                    Ok::<_, ErrorView>(KvAppendView::Do { half: Half::V, action }),
                ),
            }
        }),
{
}

/// Writing to both caches at a position is writing to the keys, and once that is done, writing to
/// the values at the same position.
pub proof fn law_kv_append_at_follows_its_caches(
    c: KvView,
    k: TensorView,
    v: TensorView,
    position: TensorView,
    e: EventView,
)
    ensures
        ({
            let (next_k, result) = c.k.append_at_step(k, position, e);
            let kv = KvView { k: next_k, v: c.v };
            match result {
                Err(error) => c.append_at_step(k, v, position, Half::K, e) == (
                    kv,
                    Err::<KvActionView, _>(error),
                ),
                Ok(ActionView::Done) => c.append_at_step(k, v, position, Half::K, e)
                    == kv.append_at_step(k, v, position, Half::V, EventView::Start),
                Ok(action) => c.append_at_step(k, v, position, Half::K, e) == (
                    kv,
                    Ok::<_, ErrorView>(KvActionView::Do { half: Half::K, action }),
                ),
            }
        }),
        ({
            let (next_v, result) = c.v.append_at_step(v, position, e);
            let kv = KvView { k: c.k, v: next_v };
            c.append_at_step(k, v, position, Half::V, e) == (
                kv,
                match result {
                    Err(error) => Err::<KvActionView, _>(error),
                    Ok(ActionView::Done) => Ok(KvActionView::Done),
                    Ok(action) => Ok(KvActionView::Do { half: Half::V, action }),
                },
            )
        }),
{
}

/// Reserving both caches is reserving the keys with the keys given, and once that is done,
/// reserving the values with the values given. So a new pair of caches asks first for a buffer made
/// to fit `k`, and once it is there, for one made to fit `v`.
pub proof fn law_kv_reserve_follows_its_caches(
    c: KvView,
    k: TensorView,
    v: TensorView,
    e: EventView,
)
    ensures
        ({
            let (next_k, action) = c.k.reserve_step(k, e);
            let kv = KvView { k: next_k, v: c.v };
            if action is Done {
                c.reserve_step(k, v, Half::K, e) == kv.reserve_step(
                    k,
                    v,
                    Half::V,
                    EventView::Start,
                )
            } else {
                c.reserve_step(k, v, Half::K, e) == (
                    kv,
                    KvActionView::Do { half: Half::K, action },
                )
            }
        }),
        ({
            let (next_v, action) = c.v.reserve_step(v, e);
            c.reserve_step(k, v, Half::V, e) == (
                (KvView { k: c.k, v: next_v }),
                if action is Done {
                    KvActionView::Done
                } else {
                    KvActionView::Do { half: Half::V, action }
                },
            )
        }),
{
}

/// Every call on a pair of caches can be made that can be made on the cache whose turn it is.
pub proof fn law_kv_calls_can_be_made(
    c: KvView,
    k: TensorView,
    v: TensorView,
    position: TensorView,
    e: EventView,
)
    requires
        c.k.wf(),
        c.v.wf(),
        k.wf(),
        v.wf(),
        position.wf(),
    ensures
        c.k.append_admits(k, e) ==> c.append_admits(k, v, Half::K, e),
        c.v.append_admits(v, e) && c.k.all_data is Some ==> c.append_admits(k, v, Half::V, e),
        c.k.reserve_admits(k, e) && (c.v.all_data is Some || c.v.dim < v.dims.len())
            ==> c.reserve_admits(k, v, Half::K, e),
        c.v.reserve_admits(v, e) ==> c.reserve_admits(k, v, Half::V, e),
        c.k.append_at_admits(k, position, e) && (c.v.all_data is Some || c.v.dim < v.dims.len())
            ==> c.append_at_admits(k, v, position, Half::K, e),
        c.v.append_at_admits(v, position, e) ==> c.append_at_admits(k, v, position, Half::V, e),
{
}

/// An append that fits gets done: with the buffer that it asked for, if there was none, and the
/// launch that it asked for, if there was anything to copy, it runs from the call to its end.
pub proof fn law_append_gets_done(
    c: CacheView,
    src: TensorView,
    t: TensorView,
    before: Heap,
    mid: Heap,
    after: Heap,
)
    requires
        c.wf(),
        src.wf(),
        c.dim < src.dims.len(),
        match c.all_data {
            Some(buffer) => t == buffer && mid == before && slice_fits(
                t,
                src,
                c.dim,
                c.current_seq_len,
            ),
            None => {
                &&& (c.append_step(src, EventView::Start).1)->Ok_0->Allocate_0.carried_out(
                    t,
                    before,
                    mid,
                )
                &&& src.is_contiguous()
                &&& src.location is Cuda
                &&& src.dims[c.dim as int] <= c.max_seq_len
            },
        },
        src.elem_count() == 0 || kernel_holds(t, src, c.dim as int),
        slice_set_outcome(t, src, c.dim, c.current_seq_len) matches Ok(Some(launch))
            ==> mid.launched(launch, after),
        src.elem_count() == 0 ==> after == mid,
    ensures
        exists|next: CacheView|
            {
                &&& #[trigger] append_runs(c, src, before, next, after)
                &&& next.all_data == Some(t)
                &&& next.current_seq_len == c.current_seq_len + src.dims[c.dim as int]
            },
{
    if c.all_data is None {
        law_first_call_asks_for_the_buffer(c, src, src);
    }
    let held = CacheView { all_data: Some(t), ..c };
    if c.all_data is None {
        law_reserved_cache_takes_what_it_was_reserved_with(c, src, src, t);
        assert(c.append_step(src, EventView::Allocated(t)) == held.append_step(
            src,
            EventView::Start,
        ));
    }
    law_append_accepts(held, src);
    law_append_is_a_slice_after_the_filled_slots(held, src);
    law_nothing_launched_for_nothing(t, src, c.dim, c.current_seq_len, src);
    let (ready, result) = held.append_step(src, EventView::Start);
    let next = if src.elem_count() == 0 {
        ready
    } else {
        ready.append_step(src, EventView::Launched).0
    };
    assert(append_finishes(held, src, EventView::Start, mid, next, after));
    assert(append_runs(c, src, before, next, after));
}

/// Appending to both caches gets done where both have their buffers, and the keys and the values
/// each fit after the filled slots, are not empty and can be counted by a kernel: one launch is
/// asked for the keys, then one for the values, and then the filled slots of both come back.
pub proof fn law_kv_append_gets_done(c: KvView, k: TensorView, v: TensorView)
    requires
        c.wf(),
        k.wf(),
        v.wf(),
        c.k.all_data is Some,
        c.v.all_data is Some,
        slice_fits(c.k.all_data->0, k, c.k.dim, c.k.current_seq_len),
        slice_fits(c.v.all_data->0, v, c.v.dim, c.v.current_seq_len),
        kernel_holds(c.k.all_data->0, k, c.k.dim as int),
        kernel_holds(c.v.all_data->0, v, c.v.dim as int),
        k.elem_count() > 0,
        v.elem_count() > 0,
    ensures
        ({
            let start = c.append_step(k, v, Half::K, EventView::Start);
            let between = start.0.append_step(k, v, Half::K, EventView::Launched);
            let end = between.0.append_step(k, v, Half::V, EventView::Launched);
            &&& start.0 == c
            &&& start.1 matches Ok(
                KvAppendView::Do { half: Half::K, action: ActionView::Launch(_) },
            )
            &&& between.0.v == c.v
            &&& between.0.k.current_seq_len == c.k.current_seq_len + k.dims[c.k.dim as int]
            &&& between.1 matches Ok(
                KvAppendView::Do { half: Half::V, action: ActionView::Launch(_) },
            )
            &&& end.0.k == between.0.k
            &&& end.0.v.current_seq_len == c.v.current_seq_len + v.dims[c.v.dim as int]
            &&& end.1 == Ok::<_, ErrorView>(
                KvAppendView::Done {
                    k: end.0.k.current_data()->0,
                    v: end.0.v.current_data()->0,
                },
            )
        }),
{
    law_append_accepts(c.k, k);
    law_append_accepts(c.v, v);
    law_append_is_a_slice_after_the_filled_slots(c.k, k);
    law_append_is_a_slice_after_the_filled_slots(c.v, v);
    law_nothing_launched_for_nothing(c.k.all_data->0, k, c.k.dim, c.k.current_seq_len, k);
    law_nothing_launched_for_nothing(c.v.all_data->0, v, c.v.dim, c.v.current_seq_len, v);
}

/// Reserving a new pair of caches asks for a buffer made to fit the keys, then for one made to fit
/// the values, and is done when both are there.
pub proof fn law_kv_reserve_asks_for_both(
    c: KvView,
    k: TensorView,
    v: TensorView,
    buffer_k: TensorView,
    buffer_v: TensorView,
)
    requires
        c.k.all_data is None,
        c.v.all_data is None,
        c.k.dim < k.dims.len(),
        c.v.dim < v.dims.len(),
    ensures
        ({
            let start = c.reserve_step(k, v, Half::K, EventView::Start);
            let between = start.0.reserve_step(k, v, Half::K, EventView::Allocated(buffer_k));
            let end = between.0.reserve_step(k, v, Half::V, EventView::Allocated(buffer_v));
            &&& start.0 == c
            &&& start.1 matches KvActionView::Do {
                half: Half::K,
                action: ActionView::Allocate(request),
            } && makes_room(c.k, k, request)
            &&& between.0.k == (CacheView { all_data: Some(buffer_k), ..c.k })
            &&& between.0.v == c.v
            &&& between.1 matches KvActionView::Do {
                half: Half::V,
                action: ActionView::Allocate(request),
            } && makes_room(c.v, v, request)
            &&& end.0.k == between.0.k
            &&& end.0.v == (CacheView { all_data: Some(buffer_v), ..c.v })
            &&& end.1 is Done
        }),
{
    law_first_call_asks_for_the_buffer(c.k, k, k);
    law_first_call_asks_for_the_buffer(c.v, v, v);
}

} // verus!

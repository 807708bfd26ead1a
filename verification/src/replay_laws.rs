//! What replays of a graph leave in the memory of the device.

use vstd::prelude::*;

use crate::cache::{ActionView, CacheView, EventView};
use crate::copy2d::Copy2d;
use crate::error::ErrorView;
use crate::extension::{lemma_one_element, slice_set_at_outcome, slice_set_outcome};
use crate::input::{find, lemma_find, InputsView};
use crate::input_laws::{law_load_leaves, lemma_element_in_span, lemma_unchanged};
use crate::input_laws::{load_effect, no_overlap};
use crate::memory::{element, reads_as, Cells};
use crate::shape::{lemma_contiguous_dot, lemma_row_major_bounds, row_major, valid_index};
use crate::slice_laws::{law_slice_set_at_writes, law_slice_set_writes, position_value, reachable};
use crate::slice_laws::{lemma_address_fits, lemma_slice_at_checks, lemma_slice_checks};
use crate::tensor::TensorView;

verus! {

/// The one element of a position tensor is the one at its start.
pub proof fn lemma_position_value(position: TensorView, cells: Cells)
    requires
        position.wf(),
        position.elem_count() == 1,
        position.is_contiguous(),
    ensures
        valid_index(position.dims, Seq::new(position.dims.len(), |i: int| 0int)),
        element(cells, position, Seq::new(position.dims.len(), |i: int| 0int)) == position_value(
            cells,
            position,
        ),
{
    let zeros: Seq<int> = Seq::new(position.dims.len(), |i: int| 0int);
    lemma_one_element(position);
    assert(valid_index(position.dims, zeros));
    lemma_contiguous_dot(position.dims, position.stride, zeros);
    lemma_row_major_bounds(position.dims, zeros);
}

/// After a replay the slots of `cache` from `slot` on hold `x`, and all others hold what they held
/// before. Where `x` would run off the end from there, all slots do.
pub open spec fn replayed(
    cache: TensorView,
    x: TensorView,
    dim: int,
    slot: int,
    before: Cells,
    after: Cells,
) -> bool {
    forall|index: Seq<int>| #[trigger]
        valid_index(cache.dims, index) ==> element(after, cache, index) == (if slot + x.dims[dim]
            <= cache.dims[dim] && slot <= index[dim] < slot + x.dims[dim] {
            element(before, x, index.update(dim, index[dim] - slot))
        } else {
            element(before, cache, index)
        })
}

/// A graph that captured a write at a position writes, on each replay, what it is given to the
/// slot that it is given, wherever the position was when the graph was captured.
///
/// Here `x_in` and `position_in` are the inputs that were captured, `x` and `position` the values
/// that the replay is given for them; `before` is the memory at the start of the replay, `loaded`
/// the memory once the inputs are loaded, and `after` the memory once the graph has run.
pub proof fn law_replay_writes_where_it_is_told(
    cache: TensorView,
    x_in: TensorView,
    position_in: TensorView,
    dim: usize,
    launch: Copy2d,
    x: TensorView,
    position: TensorView,
    before: Cells,
    loaded: Cells,
    after: Cells,
)
    requires
        cache.wf(),
        x_in.wf(),
        position_in.wf(),
        position.wf(),
        position.is_contiguous(),
        slice_set_at_outcome(cache, x_in, dim, 0, position_in) == Ok::<_, ErrorView>(Some(launch)),
        reads_as(x_in, loaded, x, before),
        reads_as(position_in, loaded, position, before),
        reads_as(cache, loaded, cache, before),
        reachable(cache, x_in, dim as int, 0, position_value(before, position)),
        cache.storage.allocated(loaded),
        launch.effect(loaded, after),
    ensures
        replayed(cache, x, dim as int, position_value(before, position), before, after),
{
    let d: int = dim as int;
    lemma_slice_at_checks(cache, x_in, dim, 0, position_in);
    lemma_slice_checks(cache, x_in, dim, 0);
    lemma_position_value(position_in, loaded);
    lemma_position_value(position, before);
    let slot: int = position_value(before, position);
    assert(position_value(loaded, position_in) == slot);
    law_slice_set_at_writes(cache, x_in, dim, 0, position_in, launch, loaded, after);
    assert forall|index: Seq<int>| #[trigger] valid_index(cache.dims, index) implies element(
        after,
        cache,
        index,
    ) == (if slot + x.dims[d] <= cache.dims[d] && slot <= index[d] < slot + x.dims[d] {
        element(before, x, index.update(d, index[d] - slot))
    } else {
        element(before, cache, index)
    }) by {
        assert(element(loaded, cache, index) == element(before, cache, index));
        if slot + x.dims[d] <= cache.dims[d] && slot <= index[d] < slot + x.dims[d] {
            let moved: Seq<int> = index.update(d, index[d] - slot);
            assert(valid_index(x_in.dims, moved)) by {
                assert forall|m: int| 0 <= m < x_in.dims.len() implies 0 <= #[trigger] moved[m]
                    < x_in.dims[m] by {
                    assert(0 <= index[m] < cache.dims[m]);
                }
            }
        }
    }
}

/// The same for a write at an offset: every replay writes what it is given to that slot.
pub proof fn law_replay_of_a_fixed_write(
    cache: TensorView,
    x_in: TensorView,
    dim: usize,
    offset: usize,
    launch: Copy2d,
    x: TensorView,
    before: Cells,
    loaded: Cells,
    after: Cells,
)
    requires
        cache.wf(),
        x_in.wf(),
        slice_set_outcome(cache, x_in, dim, offset) == Ok::<_, ErrorView>(Some(launch)),
        reads_as(x_in, loaded, x, before),
        reads_as(cache, loaded, cache, before),
        cache.storage.allocated(loaded),
        launch.effect(loaded, after),
    ensures
        replayed(cache, x, dim as int, offset as int, before, after),
{
    let (d, slot): (int, int) = (dim as int, offset as int);
    lemma_slice_checks(cache, x_in, dim, offset);
    law_slice_set_writes(cache, x_in, dim, offset, launch, loaded, after);
    assert forall|index: Seq<int>| #[trigger] valid_index(cache.dims, index) implies element(
        after,
        cache,
        index,
    ) == (if slot + x.dims[d] <= cache.dims[d] && slot <= index[d] < slot + x.dims[d] {
        element(before, x, index.update(d, index[d] - slot))
    } else {
        element(before, cache, index)
    }) by {
        assert(element(loaded, cache, index) == element(before, cache, index));
        if slot <= index[d] < slot + x.dims[d] {
            let moved: Seq<int> = index.update(d, index[d] - slot);
            assert(valid_index(x_in.dims, moved)) by {
                assert forall|m: int| 0 <= m < x_in.dims.len() implies 0 <= #[trigger] moved[m]
                    < x_in.dims[m] by {
                    assert(0 <= index[m] < cache.dims[m]);
                }
            }
        }
    }
}

/// What a captured write at a position leaves of a tensor that it does not overlap.
proof fn lemma_write_leaves(
    cache: TensorView,
    x_in: TensorView,
    position_in: TensorView,
    dim: usize,
    launch: Copy2d,
    t: TensorView,
    before: Cells,
    after: Cells,
)
    requires
        cache.wf(),
        x_in.wf(),
        position_in.wf(),
        slice_set_at_outcome(cache, x_in, dim, 0, position_in) == Ok::<_, ErrorView>(Some(launch)),
        reachable(cache, x_in, dim as int, 0, position_value(before, position_in)),
        cache.storage.allocated(before),
        launch.effect(before, after),
        t.wf(),
        t.is_contiguous(),
        t.storage.allocated(before),
        no_overlap(t, cache),
    ensures
        after.dom() == before.dom(),
        reads_as(t, after, t, before),
{
    law_slice_set_at_writes(cache, x_in, dim, 0, position_in, launch, before, after);
    assert forall|index: Seq<int>| #[trigger] valid_index(t.dims, index) implies element(
        after,
        t,
        index,
    ) == element(before, t, index) by {
        lemma_unchanged(t, cache, before, after, index);
    }
}

/// A graph that captured a write of keys and a write of values at one position does both on each
/// replay: each cache takes its new value at the slot given, and keeps all else.
///
/// `loaded` is the memory once the inputs are loaded, `between` the memory after the keys are
/// written, and `after` the memory after the values are.
pub proof fn law_replay_of_a_decode_step(
    k_cache: TensorView,
    v_cache: TensorView,
    k_in: TensorView,
    v_in: TensorView,
    position_in: TensorView,
    dim: usize,
    launch_k: Copy2d,
    launch_v: Copy2d,
    k: TensorView,
    v: TensorView,
    position: TensorView,
    before: Cells,
    loaded: Cells,
    between: Cells,
    after: Cells,
)
    requires
        k_cache.wf(),
        v_cache.wf(),
        k_in.wf(),
        v_in.wf(),
        position_in.wf(),
        position.wf(),
        position.is_contiguous(),
        slice_set_at_outcome(k_cache, k_in, dim, 0, position_in) == Ok::<_, ErrorView>(
            Some(launch_k),
        ),
        slice_set_at_outcome(v_cache, v_in, dim, 0, position_in) == Ok::<_, ErrorView>(
            Some(launch_v),
        ),
        reads_as(k_in, loaded, k, before),
        reads_as(v_in, loaded, v, before),
        reads_as(position_in, loaded, position, before),
        reads_as(k_cache, loaded, k_cache, before),
        reads_as(v_cache, loaded, v_cache, before),
        reachable(k_cache, k_in, dim as int, 0, position_value(before, position)),
        reachable(v_cache, v_in, dim as int, 0, position_value(before, position)),
        k_cache.storage.allocated(loaded),
        v_cache.storage.allocated(loaded),
        v_in.storage.allocated(loaded),
        position_in.storage.allocated(loaded),
        no_overlap(k_cache, v_cache),
        no_overlap(v_cache, k_cache),
        no_overlap(v_in, k_cache),
        no_overlap(position_in, k_cache),
        launch_k.effect(loaded, between),
        launch_v.effect(between, after),
    ensures
        replayed(k_cache, k, dim as int, position_value(before, position), before, after),
        replayed(v_cache, v, dim as int, position_value(before, position), before, after),
{
    lemma_slice_at_checks(k_cache, k_in, dim, 0, position_in);
    lemma_slice_checks(k_cache, k_in, dim, 0);
    lemma_slice_at_checks(v_cache, v_in, dim, 0, position_in);
    lemma_slice_checks(v_cache, v_in, dim, 0);
    lemma_position_value(position_in, loaded);
    lemma_position_value(position_in, between);
    lemma_position_value(position, before);
    law_replay_writes_where_it_is_told(
        k_cache,
        k_in,
        position_in,
        dim,
        launch_k,
        k,
        position,
        before,
        loaded,
        between,
    );
    lemma_write_leaves(k_cache, k_in, position_in, dim, launch_k, v_in, loaded, between);
    lemma_write_leaves(k_cache, k_in, position_in, dim, launch_k, position_in, loaded, between);
    lemma_write_leaves(k_cache, k_in, position_in, dim, launch_k, v_cache, loaded, between);
    assert(v_cache.storage.allocated(between));
    assert(k_cache.storage.allocated(between));
    law_replay_writes_where_it_is_told(
        v_cache,
        v_in,
        position_in,
        dim,
        launch_v,
        v,
        position,
        before,
        between,
        after,
    );
    lemma_write_leaves(v_cache, v_in, position_in, dim, launch_v, k_cache, between, after);
}

/// The memories that some replays lead through, each on a value and at a slot of its own. Between
/// two of them the cache is left alone.
pub open spec fn run_of_replays(
    cache: TensorView,
    dim: int,
    xs: Seq<TensorView>,
    slots: Seq<int>,
    before: Seq<Cells>,
    after: Seq<Cells>,
) -> bool {
    &&& xs.len() == slots.len() == before.len() == after.len()
    &&& forall|i: int|
        0 <= i < xs.len() ==> replayed(
            cache,
            #[trigger] xs[i],
            dim,
            slots[i],
            before[i],
            after[i],
        )
    &&& forall|i: int|
        0 <= i < xs.len() - 1 ==> reads_as(cache, #[trigger] before[i + 1], cache, after[i])
}

/// Whether replay `i` writes to slot `s`.
pub open spec fn writes_slot(
    cache: TensorView,
    dim: int,
    xs: Seq<TensorView>,
    slots: Seq<int>,
    i: int,
    s: int,
) -> bool {
    slots[i] + xs[i].dims[dim] <= cache.dims[dim] && slots[i] <= s < slots[i] + xs[i].dims[dim]
}

/// The last of the first `n` replays that writes to slot `s`.
pub open spec fn last_writer(
    cache: TensorView,
    dim: int,
    xs: Seq<TensorView>,
    slots: Seq<int>,
    n: int,
    s: int,
) -> Option<int>
    decreases n,
{
    if n <= 0 {
        None
    } else if writes_slot(cache, dim, xs, slots, n - 1, s) {
        Some(n - 1)
    } else {
        last_writer(cache, dim, xs, slots, n - 1, s)
    }
}

/// After any number of replays a slot holds what the last replay that wrote to it was given, and
/// a slot that none wrote to holds what it held before the first.
pub proof fn law_last_replay_wins(
    cache: TensorView,
    dim: int,
    xs: Seq<TensorView>,
    slots: Seq<int>,
    before: Seq<Cells>,
    after: Seq<Cells>,
    n: int,
    index: Seq<int>,
)
    requires
        run_of_replays(cache, dim, xs, slots, before, after),
        0 < n <= xs.len(),
        valid_index(cache.dims, index),
    ensures
        element(after[n - 1], cache, index) == (match last_writer(
            cache,
            dim,
            xs,
            slots,
            n,
            index[dim],
        ) {
            Some(i) => element(before[i], xs[i], index.update(dim, index[dim] - slots[i])),
            None => element(before[0], cache, index),
        }),
    decreases n,
{
    let k: int = n - 1;
    assert(replayed(cache, xs[k], dim, slots[k], before[k], after[k]));
    if k > 0 {
        law_last_replay_wins(cache, dim, xs, slots, before, after, k, index);
        assert(reads_as(cache, before[(k - 1) + 1], cache, after[k - 1]));
    } else {
        assert(last_writer(cache, dim, xs, slots, 0, index[dim]) is None);
    }
}

/// A replay of a captured write at a position: the inputs are loaded from `given`, and then the
/// launch runs.
pub open spec fn replay_of(
    wanted: InputsView,
    launch: Copy2d,
    given: InputsView,
    before: Cells,
    loaded: Cells,
    after: Cells,
) -> bool {
    load_effect(wanted, given, before, loaded) && launch.effect(loaded, after)
}

/// A graph is captured once around one write at a position, with the inputs `wanted`, of which
/// number `a` is what is written and number `b` is the position. Then it is replayed on `given`,
/// any number of times. In the end every slot of the cache holds what the last replay at that slot
/// was given, and a slot that no replay named holds what it held before the first. A replay at a
/// position past the end changes no slot. Where the position was when the graph was captured plays
/// no part.
pub proof fn law_replays_of_a_captured_write(
    cache: TensorView,
    wanted: InputsView,
    a: int,
    b: int,
    dim: usize,
    launch: Copy2d,
    given: Seq<InputsView>,
    before: Seq<Cells>,
    loaded: Seq<Cells>,
    after: Seq<Cells>,
    index: Seq<int>,
)
    requires
        cache.wf(),
        0 <= a < wanted.len(),
        0 <= b < wanted.len(),
        wanted[a].1.wf(),
        wanted[b].1.wf(),
        slice_set_at_outcome(cache, wanted[a].1, dim, 0, wanted[b].1) == Ok::<_, ErrorView>(
            Some(launch),
        ),
        forall|i: int| 0 <= i < wanted.len() ==> no_overlap(cache, (#[trigger] wanted[i]).1),
        given.len() > 0,
        given.len() == before.len() == loaded.len() == after.len(),
        forall|i: int|
            0 <= i < given.len() ==> {
                let position = find(#[trigger] given[i], wanted[b].0, 0)->0;
                &&& replay_of(wanted, launch, given[i], before[i], loaded[i], after[i])
                &&& cache.storage.allocated(before[i])
                &&& position.wf()
                &&& position.is_contiguous()
                &&& reachable(
                    cache,
                    wanted[a].1,
                    dim as int,
                    0,
                    position_value(before[i], position),
                )
            },
        forall|i: int|
            0 <= i < given.len() - 1 ==> reads_as(cache, #[trigger] before[i + 1], cache, after[i]),
        valid_index(cache.dims, index),
    ensures
        ({
            let xs = Seq::new(given.len(), |i: int| find(given[i], wanted[a].0, 0)->0);
            let slots = Seq::new(
                given.len(),
                |i: int| position_value(before[i], find(given[i], wanted[b].0, 0)->0),
            );
            let d = dim as int;
            element(after.last(), cache, index) == (match last_writer(
                cache,
                d,
                xs,
                slots,
                given.len() as int,
                index[d],
            ) {
                Some(i) => element(before[i], xs[i], index.update(d, index[d] - slots[i])),
                None => element(before[0], cache, index),
            })
        }),
{
    let xs: Seq<TensorView> = Seq::new(given.len(), |i: int| find(given[i], wanted[a].0, 0)->0);
    let slots: Seq<int> = Seq::new(
        given.len(),
        |i: int| position_value(before[i], find(given[i], wanted[b].0, 0)->0),
    );
    lemma_slice_at_checks(cache, wanted[a].1, dim, 0, wanted[b].1);
    assert forall|i: int| 0 <= i < xs.len() implies replayed(
        cache,
        #[trigger] xs[i],
        dim as int,
        slots[i],
        before[i],
        after[i],
    ) by {
        assert(replay_of(wanted, launch, given[i], before[i], loaded[i], after[i]));
        law_load_leaves(wanted, given[i], before[i], loaded[i], cache);
        law_replay_writes_where_it_is_told(
            cache,
            wanted[a].1,
            wanted[b].1,
            dim,
            launch,
            xs[i],
            find(given[i], wanted[b].0, 0)->0,
            before[i],
            loaded[i],
            after[i],
        );
    }
    law_last_replay_wins(
        cache,
        dim as int,
        xs,
        slots,
        before,
        after,
        given.len() as int,
        index,
    );
}

/// A graph that captured an append to a cache writes to one and the same slots on every replay:
/// in the end they hold what the last replay was given, and all others hold what they held before
/// the first. The cache has moved on once, when the append was captured.
pub proof fn law_replays_of_a_captured_append(
    c: CacheView,
    wanted: InputsView,
    a: int,
    launch: Copy2d,
    given: Seq<InputsView>,
    before: Seq<Cells>,
    loaded: Seq<Cells>,
    after: Seq<Cells>,
    index: Seq<int>,
)
    requires
        c.wf(),
        c.all_data is Some,
        0 <= a < wanted.len(),
        wanted[a].1.wf(),
        c.append_step(wanted[a].1, EventView::Start) == (
            c,
            Ok::<_, ErrorView>(ActionView::Launch(launch)),
        ),
        forall|i: int|
            0 <= i < wanted.len() ==> no_overlap(c.all_data->0, (#[trigger] wanted[i]).1),
        given.len() > 0,
        given.len() == before.len() == loaded.len() == after.len(),
        forall|i: int|
            0 <= i < given.len() ==> replay_of(
                wanted,
                launch,
                #[trigger] given[i],
                before[i],
                loaded[i],
                after[i],
            ) && c.all_data->0.storage.allocated(before[i]),
        forall|i: int|
            0 <= i < given.len() - 1 ==> reads_as(
                c.all_data->0,
                #[trigger] before[i + 1],
                c.all_data->0,
                after[i],
            ),
        valid_index(c.all_data->0.dims, index),
    ensures
        ({
            let (t, d, s) = (c.all_data->0, c.dim as int, c.current_seq_len as int);
            let len = wanted[a].1.dims[d];
            let x = find(given.last(), wanted[a].0, 0)->0;
            &&& element(after.last(), t, index) == (if s <= index[d] < s + len {
                element(before.last(), x, index.update(d, index[d] - s))
            } else {
                element(before[0], t, index)
            })
            &&& c.append_step(wanted[a].1, EventView::Launched).0.current_seq_len == s + len
        }),
{
    let t: TensorView = c.all_data->0;
    let (d, s): (int, int) = (c.dim as int, c.current_seq_len as int);
    let n: int = given.len() as int;
    let xs: Seq<TensorView> = Seq::new(given.len(), |i: int| find(given[i], wanted[a].0, 0)->0);
    let slots: Seq<int> = Seq::new(given.len(), |i: int| s);
    lemma_slice_checks(t, wanted[a].1, c.dim, c.current_seq_len);
    assert forall|i: int| 0 <= i < xs.len() implies replayed(
        t,
        #[trigger] xs[i],
        d,
        slots[i],
        before[i],
        after[i],
    ) && xs[i].dims == wanted[a].1.dims by {
        assert(replay_of(wanted, launch, given[i], before[i], loaded[i], after[i]));
        law_load_leaves(wanted, given[i], before[i], loaded[i], t);
        law_replay_of_a_fixed_write(
            t,
            wanted[a].1,
            c.dim,
            c.current_seq_len,
            launch,
            xs[i],
            before[i],
            loaded[i],
            after[i],
        );
    }
    law_last_replay_wins(t, d, xs, slots, before, after, n, index);
    assert(xs[n - 1].dims == wanted[a].1.dims);
    if !writes_slot(t, d, xs, slots, n - 1, index[d]) {
        lemma_no_writer(t, d, xs, slots, n, index[d]);
    }
}

proof fn lemma_no_writer(
    cache: TensorView,
    dim: int,
    xs: Seq<TensorView>,
    slots: Seq<int>,
    n: int,
    s: int,
)
    requires
        0 <= n <= xs.len(),
        xs.len() == slots.len(),
        forall|i: int|
            0 <= i < xs.len() ==> slots[i] == slots.last() && (#[trigger] xs[i]).dims
                == xs.last().dims,
        xs.len() > 0,
        !writes_slot(cache, dim, xs, slots, xs.len() - 1, s),
    ensures
        last_writer(cache, dim, xs, slots, n, s) is None,
    decreases n,
{
    if n > 0 {
        assert(xs[n - 1].dims == xs.last().dims);
        lemma_no_writer(cache, dim, xs, slots, n - 1, s);
    }
}

/// `after` is the memory `before` with the storage of a buffer filled with zeros.
pub open spec fn zeroed(t: TensorView, before: Cells, after: Cells) -> bool {
    &&& after.dom() == before.dom()
    &&& forall|offset: int|
        0 <= offset < t.storage.len ==> after[#[trigger] t.storage.address(offset) as u64] == 0
    &&& forall|a: u64|
        #![trigger after[a]]
        before.contains_key(a) && !t.storage.holds(a) ==> after[a] == before[a]
}

/// A graph captured around the first write to a cache that was not reserved has captured the
/// zeros that its new buffer was filled with. So each replay clears the whole cache before it
/// writes: only the slots written last hold anything.
///
/// `filled` is the memory once the buffer has been filled again, after the inputs were loaded.
pub proof fn law_replay_of_an_unreserved_cache(
    c: CacheView,
    t: TensorView,
    wanted: InputsView,
    a: int,
    b: int,
    launch: Copy2d,
    given: InputsView,
    before: Cells,
    loaded: Cells,
    filled: Cells,
    after: Cells,
    index: Seq<int>,
)
    requires
        c.wf(),
        c.all_data is None,
        0 <= a < wanted.len(),
        0 <= b < wanted.len(),
        wanted[a].1.wf(),
        wanted[b].1.wf(),
        c.dim < wanted[a].1.dims.len(),
        c.request(wanted[a].1).met_by(t),
        c.append_at_step(wanted[a].1, wanted[b].1, EventView::Allocated(t)).1 == Ok::<_, ErrorView>(
            ActionView::Launch(launch),
        ),
        t.storage.allocated(before),
        wanted[a].1.storage.allocated(before),
        wanted[b].1.storage.allocated(before),
        t.storage.apart(wanted[a].1.storage),
        t.storage.apart(wanted[b].1.storage),
        find(given, wanted[b].0, 0)->0.wf(),
        find(given, wanted[b].0, 0)->0.is_contiguous(),
        reachable(
            t,
            wanted[a].1,
            c.dim as int,
            0,
            position_value(before, find(given, wanted[b].0, 0)->0),
        ),
        load_effect(wanted, given, before, loaded),
        zeroed(t, loaded, filled),
        launch.effect(filled, after),
        valid_index(t.dims, index),
    ensures
        ({
            let d = c.dim as int;
            let x = find(given, wanted[a].0, 0)->0;
            let slot = position_value(before, find(given, wanted[b].0, 0)->0);
            element(after, t, index) == (if slot + x.dims[d] <= c.max_seq_len && slot <= index[d]
                < slot + x.dims[d] {
                element(before, x, index.update(d, index[d] - slot))
            } else {
                0
            })
        }),
{
    let (x_in, position_in): (TensorView, TensorView) = (wanted[a].1, wanted[b].1);
    let d: int = c.dim as int;
    let x: TensorView = find(given, wanted[a].0, 0)->0;
    let position: TensorView = find(given, wanted[b].0, 0)->0;
    let slot: int = position_value(before, position);
    lemma_slice_at_checks(t, x_in, c.dim, 0, position_in);
    lemma_slice_checks(t, x_in, c.dim, 0);
    assert(x_in.storage.allocated(loaded) && position_in.storage.allocated(loaded));
    lemma_zeros_leave(t, x_in, loaded, filled);
    lemma_zeros_leave(t, position_in, loaded, filled);
    lemma_position_value(position_in, filled);
    lemma_position_value(position, before);
    assert(position_value(filled, position_in) == slot);
    law_slice_set_at_writes(t, x_in, c.dim, 0, position_in, launch, filled, after);
    lemma_reads_zero(t, filled, index);
    if slot + x.dims[d] <= c.max_seq_len && slot <= index[d] < slot + x.dims[d] {
        let moved: Seq<int> = index.update(d, index[d] - slot);
        assert(valid_index(x_in.dims, moved)) by {
            assert forall|m: int| 0 <= m < x_in.dims.len() implies 0 <= #[trigger] moved[m]
                < x_in.dims[m] by {
                assert(0 <= index[m] < t.dims[m]);
            }
        }
        assert(element(filled, x_in, moved) == element(loaded, x_in, moved));
        assert(element(loaded, x_in, moved) == element(before, x, moved));
    }
}

/// The elements of a storage full of zeros are zero.
pub proof fn lemma_reads_zero(t: TensorView, cells: Cells, index: Seq<int>)
    requires
        t.wf(),
        t.is_contiguous(),
        valid_index(t.dims, index),
        forall|offset: int|
            0 <= offset < t.storage.len ==> cells[#[trigger] t.storage.address(offset) as u64] == 0,
    ensures
        element(cells, t, index) == 0,
{
    lemma_element_in_span(t, index);
    let o: int = t.start_offset + row_major(t.dims, index);
    assert(cells[t.storage.address(o) as u64] == 0);
}

proof fn lemma_zeros_leave(t: TensorView, other: TensorView, before: Cells, after: Cells)
    requires
        t.wf(),
        zeroed(t, before, after),
        other.wf(),
        other.is_contiguous(),
        other.storage.allocated(before),
        t.storage.apart(other.storage),
    ensures
        reads_as(other, after, other, before),
{
    assert forall|index: Seq<int>| #[trigger] valid_index(other.dims, index) implies element(
        after,
        other,
        index,
    ) == element(before, other, index) by {
        lemma_element_in_span(other, index);
        let o: int = other.start_offset + row_major(other.dims, index);
        lemma_address_fits(other.storage, o);
        let address: u64 = other.storage.address(o) as u64;
        assert(before.contains_key(address));
        assert(after[address] == before[address]);
    }
}

/// What some code does to the memory of the device, when it is run on its inputs.
pub type Code = spec_fn(InputsView, Cells, Cells) -> bool;

/// The inputs `one` read, in the memory `here`, as those of the same names among `other` do in the
/// memory `there`, and the two memories agree on all that is part of none of them.
pub open spec fn alike(one: InputsView, here: Cells, other: InputsView, there: Cells) -> bool {
    &&& here.dom() == there.dom()
    &&& forall|i: int|
        0 <= i < one.len() ==> find(other, (#[trigger] one[i]).0, 0) is Some && reads_as(
            one[i].1,
            here,
            find(other, one[i].0, 0)->0,
            there,
        )
    &&& forall|a: u64|
        #![trigger here[a]]
        there.contains_key(a) && (forall|j: int|
            0 <= j < one.len() ==> !(#[trigger] one[j]).1.spans(a)) && (forall|j: int|
            0 <= j < other.len() ==> !(#[trigger] other[j]).1.spans(a)) ==> here[a] == there[a]
}

/// The code works on the device alone: what it leaves in `y` follows from what its inputs read and
/// from the rest of the memory, not from where the inputs lie.
pub open spec fn works_on_the_device(code: Code, y: TensorView) -> bool {
    forall|
        one: InputsView,
        here: Cells,
        here_after: Cells,
        other: InputsView,
        there: Cells,
        there_after: Cells,
    |
        alike(one, here, other, there) && #[trigger] code(one, here, here_after)
            && #[trigger] code(other, there, there_after) ==> reads_as(
            y,
            here_after,
            y,
            there_after,
        )
}

/// A replay leaves in a tensor what the captured code, run directly on the new inputs in the same
/// memory, would leave there. This holds of every replay, however many went before: of what they
/// did nothing counts but the memory that they left.
pub proof fn law_replay_does_what_the_code_does(
    code: Code,
    y: TensorView,
    wanted: InputsView,
    given: InputsView,
    before: Cells,
    loaded: Cells,
    after: Cells,
    direct: Cells,
)
    requires
        works_on_the_device(code, y),
        load_effect(wanted, given, before, loaded),
        code(wanted, loaded, after),
        code(given, before, direct),
    ensures
        reads_as(y, after, y, direct),
{
    assert(alike(wanted, loaded, given, before));
}

/// Code that writes the input `x` into a cache, at the slot that the input `position` names, works
/// on the device alone, on inputs that the cache does not overlap.
pub open spec fn slice_code(
    cache: TensorView,
    dim: usize,
    x: Seq<char>,
    position: Seq<char>,
) -> Code {
    |inputs: InputsView, before: Cells, after: Cells|
        {
            let (x_in, position_in) = (find(inputs, x, 0), find(inputs, position, 0));
            &&& x_in is Some && position_in is Some
            &&& x_in->0.wf() && position_in->0.wf()
            &&& cache.storage.allocated(before)
            &&& reachable(cache, x_in->0, dim as int, 0, position_value(before, position_in->0))
            &&& forall|i: int| 0 <= i < inputs.len() ==> no_overlap(cache, (#[trigger] inputs[i]).1)
            &&& slice_set_at_outcome(cache, x_in->0, dim, 0, position_in->0) matches Ok(
                Some(launch),
            ) && launch.effect(before, after)
        }
}

/// Writing a slice at a position is such code.
pub proof fn law_slice_code_works_on_the_device(
    cache: TensorView,
    dim: usize,
    x: Seq<char>,
    position: Seq<char>,
)
    requires
        cache.wf(),
        cache.is_contiguous(),
    ensures
        works_on_the_device(slice_code(cache, dim, x, position), cache),
{
    let code: Code = slice_code(cache, dim, x, position);
    assert forall|
        one: InputsView,
        here: Cells,
        here_after: Cells,
        other: InputsView,
        there: Cells,
        there_after: Cells,
    |
        alike(one, here, other, there) && #[trigger] code(one, here, here_after)
            && #[trigger] code(other, there, there_after) implies reads_as(
        cache,
        here_after,
        cache,
        there_after,
    ) by {
        let (x1, p1): (TensorView, TensorView) = (find(one, x, 0)->0, find(one, position, 0)->0);
        let (x2, p2): (TensorView, TensorView) = (find(other, x, 0)->0, find(other, position, 0)->0);
        let i: int = lemma_find(one, x, 0);
        let j: int = lemma_find(one, position, 0);
        assert(one[i] == (x, x1) && one[j] == (position, p1));
        assert(reads_as(x1, here, x2, there) && reads_as(p1, here, p2, there));
        assert forall|index: Seq<int>| #[trigger] valid_index(cache.dims, index) implies element(
            here,
            cache,
            index,
        ) == element(there, cache, index) by {
            lemma_element_in_span(cache, index);
            let address: u64 = cache.address(index) as u64;
            let o: int = cache.start_offset + row_major(cache.dims, index);
            assert(there.contains_key(cache.storage.address(o) as u64));
            assert(cache.spans(address));
            assert forall|m: int| 0 <= m < one.len() implies !(#[trigger] one[m]).1.spans(
                address,
            ) by {
                assert(no_overlap(cache, one[m].1));
            }
            assert forall|m: int| 0 <= m < other.len() implies !(#[trigger] other[m]).1.spans(
                address,
            ) by {
                assert(no_overlap(cache, other[m].1));
            }
            assert(here[address] == there[address]);
        }
        let launch1: Copy2d = slice_set_at_outcome(cache, x1, dim, 0, p1)->Ok_0->0;
        let launch2: Copy2d = slice_set_at_outcome(cache, x2, dim, 0, p2)->Ok_0->0;
        lemma_slice_at_checks(cache, x2, dim, 0, p2);
        law_replay_writes_where_it_is_told(
            cache,
            x1,
            p1,
            dim,
            launch1,
            x2,
            p2,
            there,
            here,
            here_after,
        );
        law_replay_writes_where_it_is_told(
            cache,
            x2,
            p2,
            dim,
            launch2,
            x2,
            p2,
            there,
            there,
            there_after,
        );
    }
}

} // verus!

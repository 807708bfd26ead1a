//! What the inputs of a graph hold after they have been loaded.

use vstd::prelude::*;

use crate::error::ErrorView;
use crate::inplace::{copy_inplace_admits, copy_inplace_outcome, law_copy_inplace_copies};
use crate::inplace::{law_copy_inplace_starts, law_copy_inplace_takes_all};
use crate::input::{all_wf, distinct, find, first_missing, first_unfit, input_problem, load_from};
use crate::input::{lemma_find, lemma_found, lemma_unfit, loadable, InputProblem, InputsView};
use crate::memory::{element, reads_as, Cells, Memcpy};
use crate::shape::{lemma_contiguous_dot, lemma_row_major_bounds, row_major, valid_index};
use crate::slice_laws::{lemma_address_order, lemma_inside_storage};
use crate::tensor::TensorView;

verus! {

/// The inputs that `given` is loaded into, one after the other.
pub open spec fn place(wanted: InputsView, given: InputsView, i: int) -> TensorView {
    find(wanted, given[i].0, 0)->0
}

/// The two tensors share no byte.
pub open spec fn no_overlap(a: TensorView, b: TensorView) -> bool {
    forall|address: u64| !(#[trigger] a.spans(address) && b.spans(address))
}

/// The memories that the copies lead through, one after the other.
pub open spec fn carried_out(copies: Seq<Memcpy>, states: Seq<Cells>) -> bool {
    &&& states.len() == copies.len() + 1
    &&& forall|i: int|
        0 <= i < copies.len() ==> (#[trigger] copies[i]).effect(states[i], states[i + 1])
}

/// Inputs can be loaded exactly from those that have the same names, all of them contiguous.
pub proof fn law_inputs_must_match(wanted: InputsView, given: InputsView)
    ensures
        input_problem(wanted, given) is None <==> {
            &&& forall|i: int|
                0 <= i < given.len() ==> (#[trigger] given[i]).1.is_contiguous() && find(
                    wanted,
                    given[i].0,
                    0,
                ) is Some
            &&& forall|i: int|
                0 <= i < wanted.len() ==> find(given, (#[trigger] wanted[i]).0, 0) is Some
        },
{
    lemma_unfit(wanted, given, 0);
    lemma_missing(wanted, given, 0);
}

proof fn lemma_missing(wanted: InputsView, given: InputsView, i: int)
    requires
        0 <= i <= wanted.len(),
    ensures
        first_missing(wanted, given, i) is None <==> forall|k: int|
            i <= k < wanted.len() ==> find(given, (#[trigger] wanted[k]).0, 0) is Some,
    decreases wanted.len() - i,
{
    if i < wanted.len() {
        lemma_missing(wanted, given, i + 1);
    }
}

/// A load without an error makes one copy for each input given.
proof fn lemma_one_copy_each(wanted: InputsView, given: InputsView, i: int)
    requires
        0 <= i <= given.len(),
        load_from(wanted, given, i).result is Ok,
    ensures
        load_from(wanted, given, i).copies.len() == given.len() - i,
        forall|k: int|
            i <= k < given.len() ==> copy_inplace_outcome(
                (#[trigger] given[k]).1,
                place(wanted, given, k),
            ) == Ok::<_, ErrorView>(load_from(wanted, given, i).copies[k - i]),
    decreases given.len() - i,
{
    if i < given.len() {
        lemma_one_copy_each(wanted, given, i + 1);
        let rest = load_from(wanted, given, i + 1);
        assert forall|k: int| i <= k < given.len() implies copy_inplace_outcome(
            (#[trigger] given[k]).1,
            place(wanted, given, k),
        ) == Ok::<_, ErrorView>(load_from(wanted, given, i).copies[k - i]) by {
            if k > i {
                assert(load_from(wanted, given, i).copies[k - i] == rest.copies[k - i - 1]);
            }
        }
    }
}

/// The elements of a contiguous tensor lie in the part of the storage that it takes up.
pub proof fn lemma_element_in_span(t: TensorView, index: Seq<int>)
    requires
        t.wf(),
        t.is_contiguous(),
        valid_index(t.dims, index),
    ensures
        0 <= t.address(index) <= u64::MAX,
        t.spans(t.address(index) as u64),
        0 <= t.start_offset + row_major(t.dims, index) < t.storage.len,
        t.address(index) == t.storage.address(t.start_offset + row_major(t.dims, index)),
{
    let k: int = row_major(t.dims, index);
    lemma_contiguous_dot(t.dims, t.stride, index);
    lemma_row_major_bounds(t.dims, index);
    lemma_inside_storage(t, k);
    let o: int = t.start_offset as int;
    lemma_address_order(t.storage, o, o + k);
    lemma_address_order(t.storage, o + k, o);
    lemma_address_order(t.storage, o + k, o + t.elem_count());
}

/// The places that `given` is loaded into are inputs of the graph.
proof fn lemma_place(wanted: InputsView, given: InputsView, i: int) -> (p: int)
    requires
        input_problem(wanted, given) is None,
        0 <= i < given.len(),
    ensures
        0 <= p < wanted.len(),
        wanted[p] == (given[i].0, place(wanted, given, i)),
{
    law_inputs_must_match(wanted, given);
    assert(find(wanted, given[i].0, 0) is Some);
    lemma_find(wanted, given[i].0, 0)
}

/// Everything that the inputs of a graph and the values given for them must fulfil for the copies
/// not to get in each other's way.
pub open spec fn separate(wanted: InputsView, given: InputsView) -> bool {
    &&& forall|i: int, j: int|
        0 <= i < wanted.len() && 0 <= j < wanted.len() && i != j ==> no_overlap(
            (#[trigger] wanted[i]).1,
            (#[trigger] wanted[j]).1,
        )
    &&& forall|i: int, j: int|
        0 <= i < given.len() && 0 <= j < wanted.len() ==> no_overlap(
            (#[trigger] given[i]).1,
            (#[trigger] wanted[j]).1,
        )
}

/// Every element of the tensors has its place in memory.
pub open spec fn all_allocated(inputs: InputsView, cells: Cells) -> bool {
    forall|i: int| 0 <= i < inputs.len() ==> (#[trigger] inputs[i]).1.storage.allocated(cells)
}

/// What a write to one tensor leaves of another.
pub proof fn lemma_unchanged(
    t: TensorView,
    over: TensorView,
    before: Cells,
    after: Cells,
    index: Seq<int>,
)
    requires
        t.wf(),
        t.is_contiguous(),
        t.storage.allocated(before),
        no_overlap(t, over),
        valid_index(t.dims, index),
        forall|a: u64|
            #![trigger after[a]]
            before.contains_key(a) && !over.spans(a) ==> after[a] == before[a],
    ensures
        element(after, t, index) == element(before, t, index),
{
    lemma_element_in_span(t, index);
    let o: int = t.start_offset + row_major(t.dims, index);
    assert(before.contains_key(t.storage.address(o) as u64));
    let a: u64 = t.address(index) as u64;
    assert(!over.spans(a));
}

/// After the first `n` copies, their inputs read as given, the values given are still there, and
/// nothing else has changed.
spec fn loaded_up_to(
    wanted: InputsView,
    given: InputsView,
    before: Cells,
    now: Cells,
    n: int,
) -> bool {
    &&& now.dom() == before.dom()
    &&& forall|i: int, index: Seq<int>|
        #![trigger element(now, place(wanted, given, i), index)]
        0 <= i < n && valid_index(given[i].1.dims, index) ==> element(
            now,
            place(wanted, given, i),
            index,
        ) == element(before, given[i].1, index)
    &&& forall|i: int, index: Seq<int>|
        #![trigger element(now, given[i].1, index)]
        0 <= i < given.len() && valid_index(given[i].1.dims, index) ==> element(
            now,
            given[i].1,
            index,
        ) == element(before, given[i].1, index)
    &&& forall|a: u64|
        #![trigger now[a]]
        before.contains_key(a) && (forall|j: int|
            0 <= j < wanted.len() ==> !(#[trigger] wanted[j]).1.spans(a)) ==> now[a] == before[a]
}

proof fn lemma_load_one_more(
    wanted: InputsView,
    given: InputsView,
    before: Cells,
    now: Cells,
    next: Cells,
    copy: Memcpy,
    n: int,
)
    requires
        all_wf(wanted),
        all_wf(given),
        distinct(given),
        distinct(wanted),
        input_problem(wanted, given) is None,
        separate(wanted, given),
        all_allocated(wanted, before),
        all_allocated(given, before),
        0 <= n < given.len(),
        loaded_up_to(wanted, given, before, now, n),
        copy_inplace_outcome(given[n].1, place(wanted, given, n)) == Ok::<_, ErrorView>(copy),
        forall|i: int|
            0 <= i < n ==> copy_inplace_outcome((#[trigger] given[i]).1, place(wanted, given, i)) is Ok,
        copy.effect(now, next),
    ensures
        loaded_up_to(wanted, given, before, next, n + 1),
{
    law_inputs_must_match(wanted, given);
    let over: TensorView = place(wanted, given, n);
    let p: int = lemma_place(wanted, given, n);
    assert(wanted[p].1 == over);
    assert(given[n].1.wf() && wanted[p].1.wf());
    law_copy_inplace_copies(given[n].1, over, copy, now, next);
    assert forall|i: int, index: Seq<int>|
        #![trigger element(next, place(wanted, given, i), index)]
        0 <= i < n + 1 && valid_index(given[i].1.dims, index) implies element(
        next,
        place(wanted, given, i),
        index,
    ) == element(before, given[i].1, index) by {
        if i == n {
            assert(valid_index(over.dims, index));
            assert(element(now, given[n].1, index) == element(before, given[n].1, index));
        } else {
            let t: TensorView = place(wanted, given, i);
            let q: int = lemma_place(wanted, given, i);
            assert(wanted[q].1 == t);
            if q == p {
                assert(given[i].0 == given[n].0);
            }
            assert(copy_inplace_outcome(given[i].1, t) is Ok);
            assert(wanted[q].1.wf());
            assert(wanted[q].1.storage.allocated(now)) by {
                assert(wanted[q].1.storage.allocated(before));
            }
            assert(no_overlap(wanted[q].1, wanted[p].1));
            assert(valid_index(t.dims, index));
            lemma_unchanged(t, over, now, next, index);
            assert(element(now, place(wanted, given, i), index) == element(
                before,
                given[i].1,
                index,
            ));
        }
    }
    assert forall|i: int, index: Seq<int>|
        #![trigger element(next, given[i].1, index)]
        0 <= i < given.len() && valid_index(given[i].1.dims, index) implies element(
        next,
        given[i].1,
        index,
    ) == element(before, given[i].1, index) by {
        assert(given[i].1.wf() && given[i].1.is_contiguous());
        assert(given[i].1.storage.allocated(now)) by {
            assert(given[i].1.storage.allocated(before));
        }
        assert(no_overlap(given[i].1, wanted[p].1));
        lemma_unchanged(given[i].1, over, now, next, index);
        assert(element(now, given[i].1, index) == element(before, given[i].1, index));
    }
    assert forall|a: u64|
        #![trigger next[a]]
        before.contains_key(a) && (forall|j: int|
            0 <= j < wanted.len() ==> !(#[trigger] wanted[j]).1.spans(a)) implies next[a]
        == before[a] by {
        assert(!wanted[p].1.spans(a));
        assert(now[a] == before[a]);
    }
}

proof fn lemma_loaded(
    wanted: InputsView,
    given: InputsView,
    states: Seq<Cells>,
    n: int,
)
    requires
        all_wf(wanted),
        all_wf(given),
        distinct(given),
        distinct(wanted),
        input_problem(wanted, given) is None,
        separate(wanted, given),
        all_allocated(wanted, states[0]),
        all_allocated(given, states[0]),
        load_from(wanted, given, 0).result is Ok,
        carried_out(load_from(wanted, given, 0).copies, states),
        0 <= n <= given.len(),
    ensures
        loaded_up_to(wanted, given, states[0], states[n], n),
    decreases n,
{
    lemma_one_copy_each(wanted, given, 0);
    if n > 0 {
        lemma_loaded(wanted, given, states, n - 1);
        let copy: Memcpy = load_from(wanted, given, 0).copies[n - 1];
        assert(copy.effect(states[n - 1], states[n - 1 + 1]));
        assert(copy_inplace_outcome(given[n - 1].1, place(wanted, given, n - 1)) == Ok::<
            _,
            ErrorView,
        >(copy));
        assert forall|i: int| 0 <= i < n - 1 implies copy_inplace_outcome(
            (#[trigger] given[i]).1,
            place(wanted, given, i),
        ) is Ok by {
            assert(copy_inplace_outcome(given[i].1, place(wanted, given, i)) == Ok::<_, ErrorView>(
                load_from(wanted, given, 0).copies[i - 0],
            ));
        }
        lemma_load_one_more(
            wanted,
            given,
            states[0],
            states[n - 1],
            states[n],
            copy,
            n - 1,
        );
    }
}

/// `loaded` is the memory `before` in which every input of the graph reads as the value given for
/// its name, and nothing outside the inputs has changed.
pub open spec fn load_effect(
    wanted: InputsView,
    given: InputsView,
    before: Cells,
    loaded: Cells,
) -> bool {
    &&& loaded.dom() == before.dom()
    &&& forall|i: int|
        0 <= i < wanted.len() ==> find(given, (#[trigger] wanted[i]).0, 0) is Some && reads_as(
            wanted[i].1,
            loaded,
            find(given, wanted[i].0, 0)->0,
            before,
        )
    &&& forall|a: u64|
        #![trigger loaded[a]]
        before.contains_key(a) && (forall|j: int|
            0 <= j < wanted.len() ==> !(#[trigger] wanted[j]).1.spans(a)) ==> loaded[a] == before[a]
}

/// A load makes every input of the graph read as the value given for its name, and changes nothing
/// outside the inputs.
pub proof fn law_load_loads(wanted: InputsView, given: InputsView, states: Seq<Cells>)
    requires
        all_wf(wanted),
        all_wf(given),
        distinct(wanted),
        distinct(given),
        input_problem(wanted, given) is None,
        separate(wanted, given),
        all_allocated(wanted, states[0]),
        all_allocated(given, states[0]),
        load_from(wanted, given, 0).result is Ok,
        carried_out(load_from(wanted, given, 0).copies, states),
    ensures
        load_effect(wanted, given, states[0], states.last()),
{
    let n: int = given.len() as int;
    lemma_one_copy_each(wanted, given, 0);
    lemma_loaded(wanted, given, states, n);
    assert(states.last() == states[n]);
    law_inputs_must_match(wanted, given);
    assert forall|i: int| 0 <= i < wanted.len() implies find(given, (#[trigger] wanted[i]).0, 0) is Some
        && reads_as(
        wanted[i].1,
        states.last(),
        find(given, wanted[i].0, 0)->0,
        states[0],
    ) by {
        assert(find(given, wanted[i].0, 0) is Some);
        let k: int = lemma_find(given, wanted[i].0, 0);
        lemma_found(wanted, 0, i);
        let value: TensorView = find(given, wanted[i].0, 0)->0;
        assert(given[k] == (wanted[i].0, value));
        assert(place(wanted, given, k) == wanted[i].1);
        assert(copy_inplace_outcome(given[k].1, place(wanted, given, k)) == Ok::<_, ErrorView>(
            load_from(wanted, given, 0).copies[k - 0],
        ));
        assert forall|index: Seq<int>| #[trigger]
            valid_index(wanted[i].1.dims, index) implies element(states.last(), wanted[i].1, index)
            == element(states[0], value, index) by {
            assert(element(states[n], place(wanted, given, k), index) == element(
                states[0],
                given[k].1,
                index,
            ));
        }
    }
}

/// A load leaves alone what lies outside the inputs of the graph.
pub proof fn law_load_leaves(
    wanted: InputsView,
    given: InputsView,
    before: Cells,
    loaded: Cells,
    t: TensorView,
)
    requires
        load_effect(wanted, given, before, loaded),
        t.wf(),
        t.is_contiguous(),
        t.storage.allocated(before),
        forall|i: int| 0 <= i < wanted.len() ==> no_overlap(t, (#[trigger] wanted[i]).1),
    ensures
        reads_as(t, loaded, t, before),
        t.storage.allocated(loaded),
{
    assert forall|index: Seq<int>| #[trigger] valid_index(t.dims, index) implies element(
        loaded,
        t,
        index,
    ) == element(before, t, index) by {
        lemma_element_in_span(t, index);
        let address: u64 = t.address(index) as u64;
        let o: int = t.start_offset + row_major(t.dims, index);
        assert(before.contains_key(t.storage.address(o) as u64));
        assert forall|j: int| 0 <= j < wanted.len() implies !(#[trigger] wanted[j]).1.spans(
            address,
        ) by {
            assert(no_overlap(t, wanted[j].1));
            assert(t.spans(address));
        }
        assert(loaded[address] == before[address]);
    }
}

/// Some input has that name.
pub open spec fn named(inputs: InputsView, name: Seq<char>) -> bool {
    exists|j: int| 0 <= j < inputs.len() && (#[trigger] inputs[j]).0 == name
}

proof fn lemma_find_named(inputs: InputsView, name: Seq<char>, i: int, place: int)
    requires
        0 <= i <= place < inputs.len(),
        inputs[place].0 == name,
    ensures
        find(inputs, name, i) is Some,
    decreases place - i,
{
    if inputs[i].0 != name {
        lemma_find_named(inputs, name, i + 1, place);
    }
}

/// Looking up a name finds an input exactly if one has that name, and then one of that name; where
/// no name occurs twice, it is the one.
pub proof fn law_find(inputs: InputsView, name: Seq<char>)
    ensures
        find(inputs, name, 0) is Some <==> named(inputs, name),
        find(inputs, name, 0) matches Some(t) ==> inputs.contains((name, t)),
        distinct(inputs) ==> forall|t: TensorView| #[trigger]
            inputs.contains((name, t)) ==> find(inputs, name, 0) == Some(t),
{
    if find(inputs, name, 0) is Some {
        let place: int = lemma_find(inputs, name, 0);
        assert(inputs[place].0 == name);
    }
    if named(inputs, name) {
        let place: int = choose|j: int| 0 <= j < inputs.len() && (#[trigger] inputs[j]).0 == name;
        lemma_find_named(inputs, name, 0, place);
    }
    if distinct(inputs) {
        assert forall|t: TensorView| #[trigger] inputs.contains((name, t)) implies find(
            inputs,
            name,
            0,
        ) == Some(t) by {
            let place: int = choose|j: int| 0 <= j < inputs.len() && inputs[j] == (name, t);
            lemma_found(inputs, 0, place);
        }
    }
}

/// Nothing speaks against loading inputs exactly where all that is given is contiguous, every name
/// given is one of the graph, and every name of the graph is given.
pub proof fn law_names_must_match(wanted: InputsView, given: InputsView)
    ensures
        input_problem(wanted, given) is None <==> {
            &&& forall|i: int|
                0 <= i < given.len() ==> (#[trigger] given[i]).1.is_contiguous() && named(
                    wanted,
                    given[i].0,
                )
            &&& forall|i: int| 0 <= i < wanted.len() ==> named(given, (#[trigger] wanted[i]).0)
        },
{
    law_inputs_must_match(wanted, given);
    assert forall|name: Seq<char>| #[trigger]
        named(wanted, name) <==> find(wanted, name, 0) is Some by {
        law_find(wanted, name);
    }
    assert forall|name: Seq<char>| #[trigger] named(given, name) <==> find(given, name, 0) is Some by {
        law_find(given, name);
    }
    if input_problem(wanted, given) is None {
        assert forall|i: int| 0 <= i < given.len() implies (#[trigger] given[i]).1.is_contiguous()
            && named(wanted, given[i].0) by {
            assert(find(wanted, given[i].0, 0) is Some);
        }
        assert forall|i: int| 0 <= i < wanted.len() implies named(given, (#[trigger] wanted[i]).0) by {
            assert(find(given, wanted[i].0, 0) is Some);
        }
    }
}

/// What is wrong with the input at `k` of those given is the first thing that is wrong with any of
/// them from `i` on.
pub open spec fn unfit_at(
    wanted: InputsView,
    given: InputsView,
    i: int,
    k: int,
    problem: InputProblem<Seq<char>>,
) -> bool {
    &&& i <= k < given.len()
    &&& forall|m: int|
        i <= m < k ==> (#[trigger] given[m]).1.is_contiguous() && named(wanted, given[m].0)
    &&& match problem {
        InputProblem::NotContiguous(name) => name == given[k].0 && !given[k].1.is_contiguous(),
        InputProblem::Unknown(name) => name == given[k].0 && given[k].1.is_contiguous() && !named(
            wanted,
            name,
        ),
        InputProblem::Missing(_) => false,
    }
}

proof fn lemma_unfit_is_true(wanted: InputsView, given: InputsView, i: int)
    requires
        0 <= i <= given.len(),
    ensures
        first_unfit(wanted, given, i) matches Some(problem) ==> exists|k: int| #[trigger]
            unfit_at(wanted, given, i, k, problem),
    decreases given.len() - i,
{
    if i < given.len() && first_unfit(wanted, given, i) is Some {
        let problem: InputProblem<Seq<char>> = first_unfit(wanted, given, i)->0;
        law_find(wanted, given[i].0);
        if given[i].1.is_contiguous() && find(wanted, given[i].0, 0) is Some {
            lemma_unfit_is_true(wanted, given, i + 1);
            let k: int = choose|k: int| #[trigger] unfit_at(wanted, given, i + 1, k, problem);
            assert(unfit_at(wanted, given, i, k, problem));
        } else {
            assert(unfit_at(wanted, given, i, i, problem));
        }
    }
}

/// The input of the graph at `k` is the first from `i` on that is not given, and is named.
pub open spec fn missing_at(
    wanted: InputsView,
    given: InputsView,
    i: int,
    k: int,
    problem: InputProblem<Seq<char>>,
) -> bool {
    &&& i <= k < wanted.len()
    &&& problem == InputProblem::Missing(wanted[k].0)
    &&& !named(given, wanted[k].0)
    &&& forall|m: int| i <= m < k ==> named(given, (#[trigger] wanted[m]).0)
}

proof fn lemma_missing_is_true(wanted: InputsView, given: InputsView, i: int)
    requires
        0 <= i <= wanted.len(),
    ensures
        first_missing(wanted, given, i) matches Some(problem) ==> exists|k: int| #[trigger]
            missing_at(wanted, given, i, k, problem),
    decreases wanted.len() - i,
{
    if i < wanted.len() && first_missing(wanted, given, i) is Some {
        let problem: InputProblem<Seq<char>> = first_missing(wanted, given, i)->0;
        law_find(given, wanted[i].0);
        if find(given, wanted[i].0, 0) is None {
            assert(missing_at(wanted, given, i, i, problem));
        } else {
            lemma_missing_is_true(wanted, given, i + 1);
            let k: int = choose|k: int| #[trigger] missing_at(wanted, given, i + 1, k, problem);
            assert(missing_at(wanted, given, i, k, problem));
        }
    }
}

/// What is said against loading inputs is true, and the first thing that is wrong: an input given
/// is not contiguous, or is none of the graph; or, where all that is given has its place, one of
/// the graph is not given.
pub proof fn law_input_problems_are_true(wanted: InputsView, given: InputsView)
    ensures
        input_problem(wanted, given) matches Some(problem) ==> match problem {
            InputProblem::Missing(_) => {
                &&& exists|k: int| #[trigger] missing_at(wanted, given, 0, k, problem)
                &&& forall|i: int|
                    0 <= i < given.len() ==> (#[trigger] given[i]).1.is_contiguous() && named(
                        wanted,
                        given[i].0,
                    )
            },
            _ => exists|k: int| #[trigger] unfit_at(wanted, given, 0, k, problem),
        },
{
    lemma_unfit_is_true(wanted, given, 0);
    lemma_missing_is_true(wanted, given, 0);
    lemma_unfit(wanted, given, 0);
    if first_unfit(wanted, given, 0) is None {
        assert forall|i: int| 0 <= i < given.len() implies (#[trigger] given[i]).1.is_contiguous()
            && named(wanted, given[i].0) by {
            law_find(wanted, given[i].0);
        }
    }
}

/// `value` can be copied over `input`, and has the same name.
pub open spec fn replaces(value: (Seq<char>, TensorView), input: (Seq<char>, TensorView)) -> bool {
    &&& value.0 == input.0
    &&& value.1.is_contiguous()
    &&& input.1.is_contiguous()
    &&& value.1.dims == input.1.dims
    &&& value.1.dtype() == input.1.dtype()
    &&& value.1.start_offset + value.1.elem_count() <= value.1.storage.len
    &&& input.1.start_offset + input.1.elem_count() <= input.1.storage.len
}

/// Tensors with elements end within their storages, so nothing but their names, shapes, element
/// types and that both are contiguous decides whether one can be copied over the other.
pub proof fn law_replaces(value: (Seq<char>, TensorView), input: (Seq<char>, TensorView))
    requires
        value.1.wf(),
        input.1.wf(),
        value.1.elem_count() > 0,
        value.0 == input.0,
        value.1.is_contiguous(),
        input.1.is_contiguous(),
        value.1.dims == input.1.dims,
        value.1.dtype() == input.1.dtype(),
    ensures
        replaces(value, input),
{
    lemma_inside_storage(value.1, value.1.elem_count() - 1);
    lemma_inside_storage(input.1, input.1.elem_count() - 1);
}

/// The copy of the whole of `value` over `input`.
pub open spec fn copies_over(copy: Memcpy, value: TensorView, input: TensorView) -> bool {
    &&& copy.src == value.storage.address(value.start_offset as int)
    &&& copy.dst == input.storage.address(input.start_offset as int)
    &&& copy.count == value.elem_count()
    &&& copy.elem == value.dtype().size_in_bytes()
}

/// The copy for the input at `i` of those given can be made exactly if it replaces the one of the
/// graph that has its name.
proof fn lemma_one_load(wanted: InputsView, given: InputsView, i: int, p: int)
    requires
        all_wf(wanted),
        all_wf(given),
        distinct(wanted),
        0 <= i < given.len(),
        0 <= p < wanted.len(),
        given[i].0 == wanted[p].0,
    ensures
        place(wanted, given, i) == wanted[p].1,
        copy_inplace_outcome(given[i].1, wanted[p].1) is Ok <==> replaces(given[i], wanted[p]),
        copy_inplace_outcome(given[i].1, wanted[p].1) matches Ok(copy) ==> copies_over(
            copy,
            given[i].1,
            wanted[p].1,
        ),
{
    lemma_found(wanted, 0, p);
    assert(given[i].1.wf() && wanted[p].1.wf());
    law_copy_inplace_starts(given[i].1, wanted[p].1);
}

proof fn lemma_load_result(wanted: InputsView, given: InputsView, i: int)
    requires
        all_wf(wanted),
        all_wf(given),
        distinct(wanted),
        0 <= i <= given.len(),
        forall|k: int| 0 <= k < given.len() ==> named(wanted, (#[trigger] given[k]).0),
    ensures
        ({
            let load = load_from(wanted, given, i);
            let n = i + load.copies.len();
            &&& n <= given.len()
            &&& load.result is Ok <==> n == given.len()
            &&& forall|k: int, p: int|
                #![trigger given[k], wanted[p]]
                i <= k < n && 0 <= p < wanted.len() && given[k].0 == wanted[p].0 ==> replaces(
                    given[k],
                    wanted[p],
                ) && copies_over(load.copies[k - i], given[k].1, wanted[p].1)
            &&& load.result matches Err(e) ==> forall|p: int|
                0 <= p < wanted.len() && given[n].0 == (#[trigger] wanted[p]).0 ==> {
                    &&& !replaces(given[n], wanted[p])
                    &&& copy_inplace_outcome(given[n].1, wanted[p].1) == Err::<Memcpy, _>(e)
                }
        }),
    decreases given.len() - i,
{
    if i < given.len() {
        lemma_load_result(wanted, given, i + 1);
        let load = load_from(wanted, given, i);
        let rest = load_from(wanted, given, i + 1);
        assert(named(wanted, given[i].0));
        let q: int = choose|j: int| 0 <= j < wanted.len() && (#[trigger] wanted[j]).0 == given[i].0;
        lemma_one_load(wanted, given, i, q);
        if load.copies.len() > 0 {
            assert forall|k: int| i < k < i + load.copies.len() implies load.copies[k - i]
                == #[trigger] rest.copies[k - i - 1] by {}
        }
        let n: int = i + load.copies.len();
        assert forall|k: int, p: int|
            #![trigger given[k], wanted[p]]
            i <= k < n && 0 <= p < wanted.len() && given[k].0 == wanted[p].0 implies replaces(
            given[k],
            wanted[p],
        ) && copies_over(load.copies[k - i], given[k].1, wanted[p].1) by {
            if k == i {
                lemma_one_load(wanted, given, i, p);
            } else {
                assert(load.copies[k - i] == rest.copies[k - i - 1]);
            }
        }
        if load.result is Err && n == i {
            assert forall|p: int|
                0 <= p < wanted.len() && given[n].0 == (#[trigger] wanted[p]).0 implies !replaces(
                given[n],
                wanted[p],
            ) && copy_inplace_outcome(given[n].1, wanted[p].1) == Err::<Memcpy, _>(
                load.result->Err_0,
            ) by {
                lemma_one_load(wanted, given, i, p);
            }
        }
    }
}

/// Loading succeeds exactly if each input given can be copied over the one of the graph that has
/// its name. There is one copy for each that comes before the first that cannot be, from the whole
/// of what is given to the whole of the input of that name; so where loading succeeds there is one
/// for each, and where it does not, the error is the one that the copy in place is refused with.
pub proof fn law_load_succeeds(wanted: InputsView, given: InputsView)
    requires
        all_wf(wanted),
        all_wf(given),
        distinct(wanted),
        forall|k: int| 0 <= k < given.len() ==> named(wanted, (#[trigger] given[k]).0),
    ensures
        ({
            let load = load_from(wanted, given, 0);
            let n = load.copies.len();
            &&& load.result is Ok <==> forall|k: int, p: int|
                #![trigger given[k], wanted[p]]
                0 <= k < given.len() && 0 <= p < wanted.len() && given[k].0 == wanted[p].0
                    ==> replaces(given[k], wanted[p])
            &&& load.result is Ok ==> n == given.len()
            &&& n <= given.len()
            &&& forall|k: int, p: int|
                #![trigger given[k], wanted[p]]
                0 <= k < n && 0 <= p < wanted.len() && given[k].0 == wanted[p].0 ==> replaces(
                    given[k],
                    wanted[p],
                ) && copies_over(load.copies[k], given[k].1, wanted[p].1)
            &&& load.result matches Err(e) ==> n < given.len() && forall|p: int|
                0 <= p < wanted.len() && given[n as int].0 == (#[trigger] wanted[p]).0 ==> {
                    &&& !replaces(given[n as int], wanted[p])
                    &&& copy_inplace_outcome(given[n as int].1, wanted[p].1) == Err::<Memcpy, _>(e)
                }
        }),
{
    lemma_load_result(wanted, given, 0);
    let load = load_from(wanted, given, 0);
    let n: int = load.copies.len() as int;
    if load.result is Err {
        assert(named(wanted, given[n].0));
        let p: int = choose|j: int| 0 <= j < wanted.len() && (#[trigger] wanted[j]).0 == given[n].0;
        assert(!replaces(given[n], wanted[p]));
    }
    assert forall|k: int, p: int|
        #![trigger given[k], wanted[p]]
        0 <= k < n && 0 <= p < wanted.len() && given[k].0 == wanted[p].0 implies replaces(
        given[k],
        wanted[p],
    ) && copies_over(load.copies[k], given[k].1, wanted[p].1) by {
        assert(load.copies[k - 0] == load.copies[k]);
    }
}

/// Inputs that have the names of those of the graph, and are contiguous, of the same shape and
/// element type as their namesakes and not empty, are loaded: nothing speaks against it, no copy
/// is refused, and there is one for each.
pub proof fn law_matching_inputs_are_loaded(wanted: InputsView, given: InputsView)
    requires
        all_wf(wanted),
        all_wf(given),
        distinct(wanted),
        distinct(given),
        forall|k: int| 0 <= k < given.len() ==> named(wanted, (#[trigger] given[k]).0),
        forall|p: int| 0 <= p < wanted.len() ==> named(given, (#[trigger] wanted[p]).0),
        forall|k: int|
            0 <= k < given.len() ==> (#[trigger] given[k]).1.is_contiguous()
                && given[k].1.elem_count() > 0 && given[k].1.location is Cuda,
        forall|p: int|
            0 <= p < wanted.len() ==> (#[trigger] wanted[p]).1.is_contiguous()
                && wanted[p].1.location is Cuda,
        forall|k: int, p: int|
            #![trigger given[k], wanted[p]]
            0 <= k < given.len() && 0 <= p < wanted.len() && given[k].0 == wanted[p].0
                ==> given[k].1.dims == wanted[p].1.dims && given[k].1.dtype()
                == wanted[p].1.dtype(),
    ensures
        input_problem(wanted, given) is None,
        loadable(wanted, given),
        load_from(wanted, given, 0).result is Ok,
        load_from(wanted, given, 0).copies.len() == given.len(),
        wanted.len() == given.len(),
{
    law_names_must_match(wanted, given);
    law_load_succeeds(wanted, given);
    assert forall|k: int, p: int|
        #![trigger given[k], wanted[p]]
        0 <= k < given.len() && 0 <= p < wanted.len() && given[k].0 == wanted[p].0 implies replaces(
        given[k],
        wanted[p],
    ) by {
        law_replaces(given[k], wanted[p]);
    }
    law_all_inputs_may_be_handed_to_a_load(wanted, given);
    lemma_as_many(wanted, given);
    lemma_as_many(given, wanted);
}

/// Names that occur once each in one list, and all in another, are not more than those.
proof fn lemma_as_many(some: InputsView, others: InputsView)
    requires
        distinct(some),
        forall|k: int| 0 <= k < some.len() ==> named(others, (#[trigger] some[k]).0),
    ensures
        some.len() <= others.len(),
{
    let a: Seq<Seq<char>> = some.map_values(|e: (Seq<char>, TensorView)| e.0);
    let b: Seq<Seq<char>> = others.map_values(|e: (Seq<char>, TensorView)| e.0);
    assert(a.no_duplicates()) by {
        assert forall|i: int, j: int| 0 <= i < a.len() && 0 <= j < a.len() && i != j implies a[i]
            != a[j] by {
            if i < j {
                assert(some[i].0 != some[j].0);
            } else {
                assert(some[j].0 != some[i].0);
            }
        }
    }
    a.unique_seq_to_set();
    vstd::seq_lib::seq_to_set_is_finite(b);
    assert(a.to_set().subset_of(b.to_set())) by {
        assert forall|x: Seq<char>| #[trigger] a.to_set().contains(x) implies b.to_set().contains(
            x,
        ) by {
            let k: int = choose|k: int| 0 <= k < a.len() && a[k] == x;
            assert(named(others, some[k].0));
            let j: int = choose|j: int|
                0 <= j < others.len() && (#[trigger] others[j]).0 == some[k].0;
            assert(b[j] == x);
        }
    }
    vstd::set_lib::lemma_len_subset(a.to_set(), b.to_set());
    b.lemma_cardinality_of_set();
}

/// Whatever their shapes and element types, inputs on CUDA devices against which nothing speaks may
/// be handed to a load, whether or not it is refused.
pub proof fn law_all_inputs_may_be_handed_to_a_load(wanted: InputsView, given: InputsView)
    requires
        all_wf(wanted),
        all_wf(given),
        distinct(wanted),
        distinct(given),
        input_problem(wanted, given) is None,
        forall|k: int| 0 <= k < given.len() ==> (#[trigger] given[k]).1.location is Cuda,
        forall|p: int| 0 <= p < wanted.len() ==> (#[trigger] wanted[p]).1.location is Cuda,
    ensures
        loadable(wanted, given),
{
    assert forall|i: int| 0 <= i < given.len() implies copy_inplace_admits(
        (#[trigger] given[i]).1,
        find(wanted, given[i].0, 0)->0,
    ) by {
        let p: int = lemma_place(wanted, given, i);
        assert(wanted[p].1 == place(wanted, given, i));
        law_copy_inplace_takes_all(given[i].1, wanted[p].1);
    }
}

} // verus!

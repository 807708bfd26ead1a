//! The inputs of a graph, and how new values get into them.

use vstd::prelude::*;

use crate::error::{viewed, ErrorView, GraphError};
use crate::inplace::{copy_inplace, copy_inplace_admits, copy_inplace_outcome};
use crate::input_laws::law_find;
use crate::memory::Memcpy;
use crate::tensor::{Tensor, TensorView};

verus! {

/// The names of inputs, with the tensors that belong to them.
pub type InputsView = Seq<(Seq<char>, TensorView)>;

/// The content of a list of named tensors.
pub open spec fn inputs_view(entries: Seq<(String, Tensor)>) -> InputsView {
    entries.map_values(|e: (String, Tensor)| (e.0@, e.1@))
}

/// No name stands for two inputs.
pub open spec fn distinct(inputs: InputsView) -> bool {
    forall|i: int, j: int|
        0 <= i < j < inputs.len() ==> (#[trigger] inputs[i]).0 != (#[trigger] inputs[j]).0
}

/// Every tensor lies inside its storage.
pub open spec fn all_wf(inputs: InputsView) -> bool {
    forall|i: int| 0 <= i < inputs.len() ==> (#[trigger] inputs[i]).1.wf()
}

/// The copies that load new values into inputs, in order, and what comes after them. Where that
/// is an error, the copies before it are made all the same.
#[derive(Debug, PartialEq, Eq)]
pub struct Load {
    pub copies: Vec<Memcpy>,
    pub result: Result<(), GraphError>,
}

/// The mathematical content of a [`Load`].
#[verifier::ext_equal]
pub struct LoadView {
    pub copies: Seq<Memcpy>,
    pub result: Result<(), ErrorView>,
}

impl LoadView {
    /// The bytes of every copy can be counted.
    pub open spec fn sized(&self) -> bool {
        forall|i: int|
            0 <= i < self.copies.len() ==> (#[trigger] self.copies[i]).count * self.copies[i].elem
                <= usize::MAX
    }
}

impl Load {
    pub open spec fn view(&self) -> LoadView {
        LoadView { copies: self.copies@, result: viewed(self.result) }
    }
}

/// What a graph takes as its inputs.
///
/// A graph captures where its inputs lie, so new values have to be copied to these places.
pub trait GraphInput: Sized {
    /// Whether every input lies inside its storage.
    open spec fn wf(&self) -> bool {
        distinct(self.inputs()) && all_wf(self.inputs())
    }

    /// The inputs by name. A type that is not verified leaves open what they are.
    open spec fn inputs(&self) -> InputsView {
        arbitrary()
    }

    /// Whether `input` can stand in for `self`.
    open spec fn load_admits(&self, input: &Self) -> bool {
        loadable(self.inputs(), input.inputs())
    }

    /// What loading `input` comes to: by default, each input is copied over the one of the same
    /// name.
    open spec fn load_returns(&self, input: &Self) -> LoadView {
        load_from(self.inputs(), input.inputs(), 0)
    }

    /// The inputs by name.
    fn to_inputs(&self) -> (r: Vec<(String, Tensor)>)
        requires
            self.wf(),
        ensures
            inputs_view(r@) == self.inputs(),
            distinct(self.inputs()),
            all_wf(self.inputs()),
    ;

    /// Prepares the copies of all of `input` over `self`.
    fn load_inputs_inplace(&self, input: &Self) -> (r: Load)
        requires
            self.load_admits(input),
        ensures
            r@ == self.load_returns(input),
            r@.sized(),
    ;
}

/// The input of that name, from `i` on.
pub open spec fn find(inputs: InputsView, name: Seq<char>, i: int) -> Option<TensorView>
    decreases inputs.len() - i,
{
    if i >= inputs.len() {
        None
    } else if inputs[i].0 == name {
        Some(inputs[i].1)
    } else {
        find(inputs, name, i + 1)
    }
}

/// Why the inputs of a graph cannot be loaded from others.
#[derive(Debug, PartialEq, Eq)]
pub enum InputProblem<N> {
    /// An input is not contiguous.
    NotContiguous(N),
    /// The graph has no input of that name.
    Unknown(N),
    /// An input of the graph was not provided.
    Missing(N),
}

impl InputProblem<String> {
    pub open spec fn view(&self) -> InputProblem<Seq<char>> {
        match self {
            InputProblem::NotContiguous(name) => InputProblem::NotContiguous(name@),
            InputProblem::Unknown(name) => InputProblem::Unknown(name@),
            InputProblem::Missing(name) => InputProblem::Missing(name@),
        }
    }
}

/// The first of `given`, from `i` on, that is not contiguous or that `wanted` has no place for.
pub open spec fn first_unfit(wanted: InputsView, given: InputsView, i: int) -> Option<
    InputProblem<Seq<char>>,
>
    decreases given.len() - i,
{
    if i >= given.len() {
        None
    } else if !given[i].1.is_contiguous() {
        Some(InputProblem::NotContiguous(given[i].0))
    } else if find(wanted, given[i].0, 0) is None {
        Some(InputProblem::Unknown(given[i].0))
    } else {
        first_unfit(wanted, given, i + 1)
    }
}

/// The first of `wanted`, from `i` on, that is not among `given`.
pub open spec fn first_missing(wanted: InputsView, given: InputsView, i: int) -> Option<
    InputProblem<Seq<char>>,
>
    decreases wanted.len() - i,
{
    if i >= wanted.len() {
        None
    } else if find(given, wanted[i].0, 0) is None {
        Some(InputProblem::Missing(wanted[i].0))
    } else {
        first_missing(wanted, given, i + 1)
    }
}

/// Why `given` cannot be loaded into `wanted`, if it cannot: the names have to be the same, and
/// all that is given has to be contiguous.
pub open spec fn input_problem(wanted: InputsView, given: InputsView) -> Option<
    InputProblem<Seq<char>>,
> {
    match first_unfit(wanted, given, 0) {
        Some(problem) => Some(problem),
        None => first_missing(wanted, given, 0),
    }
}

/// What loading `given`, from `i` on, into `wanted` comes to: each is copied over the one of the
/// same name, up to the first that cannot be.
pub open spec fn load_from(wanted: InputsView, given: InputsView, i: int) -> LoadView
    decreases given.len() - i,
{
    if i >= given.len() {
        LoadView { copies: Seq::empty(), result: Ok(()) }
    } else {
        match copy_inplace_outcome(given[i].1, find(wanted, given[i].0, 0)->0) {
            Err(e) => LoadView { copies: Seq::empty(), result: Err(e) },
            Ok(copy) => {
                let rest = load_from(wanted, given, i + 1);
                LoadView { copies: seq![copy] + rest.copies, result: rest.result }
            },
        }
    }
}

/// Whether `given` can be loaded into `wanted`: the two match, and what is copied lies on CUDA
/// devices.
pub open spec fn loadable(wanted: InputsView, given: InputsView) -> bool {
    &&& distinct(wanted) && all_wf(wanted)
    &&& distinct(given) && all_wf(given)
    &&& input_problem(wanted, given) is None
    &&& forall|i: int|
        0 <= i < given.len() ==> copy_inplace_admits(
            (#[trigger] given[i]).1,
            find(wanted, given[i].0, 0)->0,
        )
}

/// Inputs that are told apart by their names.
#[derive(Debug, PartialEq, Eq)]
pub struct NamedInputs {
    entries: Vec<(String, Tensor)>,
}

fn same_name(a: &String, b: &String) -> (r: bool)
    ensures
        r == (a@ == b@),
{
    *a == *b
}

/// The place of the input of that name.
fn place_of(entries: &Vec<(String, Tensor)>, name: &String) -> (r: Option<usize>)
    ensures
        match r {
            Some(i) => {
                &&& i < entries@.len()
                &&& find(inputs_view(entries@), name@, 0) == Some(entries@[i as int].1@)
            },
            None => find(inputs_view(entries@), name@, 0) is None,
        },
{
    let mut i: usize = 0;
    while i < entries.len()
        invariant
            i <= entries@.len(),
            find(inputs_view(entries@), name@, 0) == find(inputs_view(entries@), name@, i as int),
        decreases entries@.len() - i,
    {
        if same_name(&entries[i].0, name) {
            return Some(i);
        }
        i = i + 1;
    }
    None
}

/// What is found is among the inputs, under that name.
pub proof fn lemma_find(inputs: InputsView, name: Seq<char>, i: int) -> (place: int)
    requires
        0 <= i,
        find(inputs, name, i) is Some,
    ensures
        i <= place < inputs.len(),
        inputs[place] == (name, find(inputs, name, i)->0),
    decreases inputs.len() - i,
{
    if inputs[i].0 == name {
        i
    } else {
        lemma_find(inputs, name, i + 1)
    }
}

/// What is among the inputs is found under its name.
pub proof fn lemma_found(inputs: InputsView, i: int, place: int)
    requires
        distinct(inputs),
        0 <= i <= place < inputs.len(),
    ensures
        find(inputs, inputs[place].0, i) == Some(inputs[place].1),
    decreases place - i,
{
    if i < place {
        lemma_found(inputs, i + 1, place);
    }
}

/// All that is given fits exactly where each of it is contiguous and has its place.
pub proof fn lemma_unfit(wanted: InputsView, given: InputsView, i: int)
    requires
        0 <= i <= given.len(),
    ensures
        first_unfit(wanted, given, i) is None <==> forall|k: int|
            i <= k < given.len() ==> (#[trigger] given[k]).1.is_contiguous() && find(
                wanted,
                given[k].0,
                0,
            ) is Some,
    decreases given.len() - i,
{
    if i < given.len() {
        lemma_unfit(wanted, given, i + 1);
    }
}

impl NamedInputs {
    pub closed spec fn view(&self) -> InputsView {
        inputs_view(self.entries@)
    }

    /// The inputs with these names, unless a name occurs twice.
    pub fn new(entries: Vec<(String, Tensor)>) -> (r: Option<NamedInputs>)
        ensures
            r is Some <==> distinct(inputs_view(entries@)),
            r is None <==> exists|i: int, j: int|
                0 <= i < j < entries@.len() && (#[trigger] entries@[i]).0@
                    == (#[trigger] entries@[j]).0@,
            r matches Some(inputs) ==> inputs@ == inputs_view(entries@),
    {
        let mut i: usize = 0;
        while i < entries.len()
            invariant
                i <= entries@.len(),
                forall|p: int, q: int|
                    0 <= p < q < i ==> (#[trigger] inputs_view(entries@)[p]).0
                        != (#[trigger] inputs_view(entries@)[q]).0,
            decreases entries@.len() - i,
        {
            let mut j: usize = 0;
            while j < i
                invariant
                    j <= i < entries@.len(),
                    forall|p: int|
                        0 <= p < j ==> (#[trigger] inputs_view(entries@)[p]).0 != inputs_view(
                            entries@,
                        )[i as int].0,
                decreases i - j,
            {
                if same_name(&entries[j].0, &entries[i].0) {
                    proof {
                        let view = inputs_view(entries@);
                        assert(view[j as int].0 == view[i as int].0);
                        assert(entries@[j as int].0@ == entries@[i as int].0@);
                    }
                    return None;
                }
                j = j + 1;
            }
            i = i + 1;
        }
        proof {
            assert forall|p: int, q: int| 0 <= p < q < entries@.len() implies (
            #[trigger] entries@[p]).0@ != (#[trigger] entries@[q]).0@ by {
                assert(inputs_view(entries@)[p].0 != inputs_view(entries@)[q].0);
            }
        }
        Some(NamedInputs { entries })
    }

    /// The input of that name.
    pub fn get(&self, name: &String) -> (r: Option<&Tensor>)
        ensures
            match r {
                Some(t) => find(self@, name@, 0) == Some(t@) && self@.contains((name@, t@)),
                None => find(self@, name@, 0) is None && forall|i: int|
                    0 <= i < self@.len() ==> (#[trigger] self@[i]).0 != name@,
            },
    {
        proof {
            law_find(self@, name@);
        }
        match place_of(&self.entries, name) {
            Some(i) => Some(&self.entries[i].1),
            None => None,
        }
    }

    /// Why `input` cannot be loaded, if it cannot.
    pub fn problem(&self, input: &Self) -> (r: Option<InputProblem<String>>)
        requires
            all_wf(input@),
        ensures
            match r {
                Some(problem) => input_problem(self@, input@) == Some(problem@),
                None => input_problem(self@, input@) is None,
            },
    {
        let mut i: usize = 0;
        while i < input.entries.len()
            invariant
                i <= input.entries@.len(),
                all_wf(input@),
                first_unfit(self@, input@, 0) == first_unfit(self@, input@, i as int),
            decreases input.entries@.len() - i,
        {
            proof {
                assert(input@[i as int].1.wf());
            }
            if !input.entries[i].1.is_contiguous() {
                return Some(InputProblem::NotContiguous(input.entries[i].0.clone()));
            }
            if place_of(&self.entries, &input.entries[i].0).is_none() {
                return Some(InputProblem::Unknown(input.entries[i].0.clone()));
            }
            i = i + 1;
        }
        let mut j: usize = 0;
        while j < self.entries.len()
            invariant
                j <= self.entries@.len(),
                first_unfit(self@, input@, 0) is None,
                first_missing(self@, input@, 0) == first_missing(self@, input@, j as int),
            decreases self.entries@.len() - j,
        {
            if place_of(&input.entries, &self.entries[j].0).is_none() {
                return Some(InputProblem::Missing(self.entries[j].0.clone()));
            }
            j = j + 1;
        }
        None
    }
}

impl GraphInput for NamedInputs {
    open spec fn inputs(&self) -> InputsView {
        self@
    }

    fn to_inputs(&self) -> (r: Vec<(String, Tensor)>) {
        let mut r: Vec<(String, Tensor)> = Vec::new();
        let mut i: usize = 0;
        while i < self.entries.len()
            invariant
                i <= self.entries@.len(),
                r@.len() == i,
                forall|k: int| 0 <= k < i ==> inputs_view(r@)[k] == #[trigger] self@[k],
            decreases self.entries@.len() - i,
        {
            let ghost last = r@;
            r.push((self.entries[i].0.clone(), self.entries[i].1.clone()));
            proof {
                assert forall|k: int| 0 <= k <= i implies inputs_view(r@)[k]
                    == #[trigger] self@[k] by {
                    if k < i {
                        assert(inputs_view(last)[k] == self@[k]);
                    }
                }
            }
            i = i + 1;
        }
        proof {
            assert(inputs_view(r@) =~= self@);
        }
        r
    }

    fn load_inputs_inplace(&self, input: &Self) -> (r: Load) {
        let mut copies: Vec<Memcpy> = Vec::new();
        let mut i: usize = 0;
        proof {
            lemma_unfit(self@, input@, 0);
            assert(copies@ + load_from(self@, input@, 0).copies =~= load_from(
                self@,
                input@,
                0,
            ).copies);
        }
        while i < input.entries.len()
            invariant
                i <= input.entries@.len(),
                self.load_admits(input),
                forall|k: int|
                    0 <= k < input@.len() ==> find(self@, (#[trigger] input@[k]).0, 0) is Some,
                load_from(self@, input@, 0).copies == copies@ + load_from(
                    self@,
                    input@,
                    i as int,
                ).copies,
                load_from(self@, input@, 0).result == load_from(self@, input@, i as int).result,
                forall|k: int|
                    0 <= k < copies@.len() ==> (#[trigger] copies@[k]).count * copies@[k].elem
                        <= usize::MAX,
            decreases input.entries@.len() - i,
        {
            proof {
                assert(input@[i as int] == (input.entries@[i as int].0@, input.entries@[i as int].1@));
            }
            match place_of(&self.entries, &input.entries[i].0) {
                Some(place) => {
                    match copy_inplace(&input.entries[i].1, &self.entries[place].1) {
                        Ok(copy) => {
                            let ghost rest = load_from(self@, input@, i + 1).copies;
                            let ghost last = copies@;
                            copies.push(copy);
                            proof {
                                assert(last + (seq![copy] + rest) =~= copies@ + rest);
                            }
                        },
                        Err(e) => {
                            proof {
                                assert(copies@ + Seq::<Memcpy>::empty() =~= copies@);
                            }
                            return Load { copies, result: Err(e) };
                        },
                    }
                },
                None => {},
            }
            i = i + 1;
        }
        proof {
            assert(copies@ + Seq::<Memcpy>::empty() =~= copies@);
        }
        Load { copies, result: Ok(()) }
    }
}

} // verus!

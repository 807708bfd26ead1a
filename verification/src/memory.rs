//! What kernels and copies do to the memory of a device.
//!
//! A memory maps the address of every allocated element to the bits of that element.

use std::collections::HashMap;

use vstd::prelude::*;

use crate::copy2d::{Copy2d, Target};
use crate::shape::valid_index;
use crate::tensor::{Storage, TensorView};

verus! {

broadcast use vstd::std_specs::hash::group_hash_axioms;

/// The bits of every allocated element, by its address.
pub type Cells = Map<u64, u64>;

/// The element of `t` at `index`.
pub open spec fn element(cells: Cells, t: TensorView, index: Seq<int>) -> u64 {
    cells[t.address(index) as u64]
}

/// The tensor reads in `after` as `other` does in `before`.
pub open spec fn reads_as(
    t: TensorView,
    after: Cells,
    other: TensorView,
    before: Cells,
) -> bool {
    &&& t.dims == other.dims
    &&& forall|index: Seq<int>| #[trigger]
        valid_index(t.dims, index) ==> element(after, t, index) == element(before, other, index)
}

impl Storage {
    /// Whether `address` lies in the storage.
    pub open spec fn holds(&self, address: u64) -> bool {
        self.ptr <= address < self.address(self.len as int)
    }

    /// Every element of the storage has its place in memory.
    pub open spec fn allocated(&self, cells: Cells) -> bool {
        forall|offset: int|
            0 <= offset < self.len ==> cells.contains_key(#[trigger] self.address(offset) as u64)
    }

    /// The two storages share no byte.
    pub open spec fn apart(&self, other: Storage) -> bool {
        ||| self.address(self.len as int) <= other.ptr
        ||| other.address(other.len as int) <= self.ptr
    }
}

/// The memory of a device, and the storages in it that are in use.
#[verifier::ext_equal]
pub struct Heap {
    pub cells: Cells,
    pub live: Set<Storage>,
}

impl Heap {
    /// Every storage in use is allocated, and no two of them share a byte.
    pub open spec fn wf(&self) -> bool {
        &&& forall|s: Storage| #[trigger]
            self.live.contains(s) ==> s.wf() && s.allocated(self.cells)
        &&& forall|s: Storage, o: Storage| #[trigger]
            self.live.contains(s) && #[trigger] self.live.contains(o) && s != o ==> s.apart(o)
    }

    /// `next` is the same but for a new storage full of zeros.
    pub open spec fn grown(&self, s: Storage, next: Heap) -> bool {
        &&& s.wf()
        &&& forall|o: Storage| #[trigger] self.live.contains(o) ==> s.apart(o)
        &&& next.live == self.live.insert(s)
        &&& s.allocated(next.cells)
        &&& forall|offset: int|
            0 <= offset < s.len ==> next.cells[#[trigger] s.address(offset) as u64] == 0
        &&& forall|a: u64|
            #![trigger next.cells[a]]
            #![trigger next.cells.contains_key(a)]
            self.cells.contains_key(a) && !s.holds(a) ==> next.cells.contains_key(a)
                && next.cells[a] == self.cells[a]
    }

    /// `next` is what a launch leaves.
    pub open spec fn launched(&self, launch: Copy2d, next: Heap) -> bool {
        &&& next.live == self.live
        &&& launch.effect(self.cells, next.cells)
    }
}

impl Copy2d {
    /// The number of threads that the launch starts. Each copies one element.
    pub open spec fn threads(&self) -> int {
        self.config.grid_dim_x * self.config.block_dim_x
    }

    /// Whether the launch copies an element `j` of a row `i`: there is such an element, and it has
    /// a thread.
    pub open spec fn covers(&self, i: int, j: int) -> bool {
        0 <= i < self.d1 && 0 <= j < self.d2 && i * self.d2 + j < self.threads()
    }

    /// The address that element `j` of row `i` is read from.
    pub open spec fn src_cell(&self, i: int, j: int) -> int {
        self.src + (self.src_o + i * self.src_s + j) * self.dtype.size_in_bytes()
    }

    /// Where the first row goes, in elements from the start of the destination storage.
    pub open spec fn first_offset(&self, cells: Cells) -> int {
        match self.target {
            Target::Fixed { offset } => offset as int,
            Target::AtPosition { base, stride, position_ptr, .. } => base + cells[position_ptr]
                * stride,
        }
    }

    /// The address that element `j` of row `i` is written to.
    pub open spec fn dst_cell(&self, cells: Cells, i: int, j: int) -> int {
        self.dst + (self.first_offset(cells) + i * self.dst_s + j) * self.dtype.size_in_bytes()
    }

    /// Whether the kernel drops the copy, because the position is too large.
    pub open spec fn skips(&self, cells: Cells) -> bool {
        match self.target {
            Target::Fixed { .. } => false,
            Target::AtPosition { position_ptr, position_max, .. } => cells[position_ptr]
                > position_max,
        }
    }

    /// Whether the kernel can compute where the first row goes. Beyond 32 bits it is not known what
    /// it does.
    pub open spec fn reaches(&self, cells: Cells) -> bool {
        self.target is AtPosition && !self.skips(cells) ==> self.first_offset(cells) <= u32::MAX
    }

    /// Whether `address` is one that the launch writes to.
    pub open spec fn writes(&self, cells: Cells, address: u64) -> bool {
        !self.skips(cells) && exists|i: int, j: int|
            self.covers(i, j) && address == #[trigger] self.dst_cell(cells, i, j)
    }

    /// Whether the launch stays within the memory and its threads do not get in each other's
    /// way: what is read and what is written are allocated, no cell is both, and no cell is
    /// written twice. A position is a value of 32 bits, and so is the offset computed from it.
    pub open spec fn runs_on(&self, cells: Cells) -> bool {
        &&& self.reaches(cells)
        &&& match self.target {
            Target::Fixed { .. } => true,
            Target::AtPosition { position_ptr, .. } => {
                &&& cells.contains_key(position_ptr)
                &&& cells[position_ptr] <= u32::MAX
                &&& !self.writes(cells, position_ptr)
            },
        }
        &&& !self.skips(cells) ==> {
            &&& self.d1 <= 1 || self.d2 <= self.dst_s
            &&& forall|i: int, j: int|
                #![trigger self.src_cell(i, j)]
                self.covers(i, j) ==> self.src_cell(i, j) <= u64::MAX && cells.contains_key(
                    self.src_cell(i, j) as u64,
                ) && !self.writes(cells, self.src_cell(i, j) as u64)
            &&& forall|i: int, j: int|
                #![trigger self.dst_cell(cells, i, j)]
                self.covers(i, j) ==> self.dst_cell(cells, i, j) <= u64::MAX && cells.contains_key(
                    self.dst_cell(cells, i, j) as u64,
                )
        }
    }

    /// What the launch makes of the memory `before`: every element that has a thread is copied, and
    /// all else stays, if the kernel can compute where the first row goes.
    pub open spec fn effect(&self, before: Cells, after: Cells) -> bool {
        &&& after.dom() == before.dom()
        &&& self.reaches(before) ==> {
            &&& !self.skips(before) ==> forall|i: int, j: int|
                #![trigger self.dst_cell(before, i, j)]
                self.covers(i, j) ==> after[self.dst_cell(before, i, j) as u64]
                    == before[self.src_cell(i, j) as u64]
            &&& forall|a: u64|
                #![trigger after[a]]
                before.contains_key(a) && !self.writes(before, a) ==> after[a] == before[a]
        }
    }
}

/// A copy of `count` elements of `elem` bytes each from one address to another.
#[derive(Debug, Clone, Copy, PartialEq, Eq, Structural, Hash)]
pub struct Memcpy {
    pub dst: u64,
    pub src: u64,
    pub count: usize,
    pub elem: usize,
}

impl Memcpy {
    pub open spec fn src_cell(&self, k: int) -> int {
        self.src + k * self.elem
    }

    pub open spec fn dst_cell(&self, k: int) -> int {
        self.dst + k * self.elem
    }

    pub open spec fn writes(&self, address: u64) -> bool {
        exists|k: int| 0 <= k < self.count && address == #[trigger] self.dst_cell(k)
    }

    /// The number of bytes copied.
    pub fn bytes(&self) -> (r: usize)
        requires
            self.count * self.elem <= usize::MAX,
        ensures
            r == self.count * self.elem,
    {
        self.count * self.elem
    }

    /// Whether the copy stays within the memory, from one place to another that it does not
    /// overlap.
    pub open spec fn runs_on(&self, cells: Cells) -> bool {
        &&& self.elem > 0
        &&& forall|k: int|
            #![trigger self.src_cell(k)]
            0 <= k < self.count ==> self.src_cell(k) <= u64::MAX && cells.contains_key(
                self.src_cell(k) as u64,
            ) && !self.writes(self.src_cell(k) as u64)
        &&& forall|k: int|
            #![trigger self.dst_cell(k)]
            0 <= k < self.count ==> self.dst_cell(k) <= u64::MAX && cells.contains_key(
                self.dst_cell(k) as u64,
            )
    }

    /// What the copy makes of the memory `before`.
    pub open spec fn effect(&self, before: Cells, after: Cells) -> bool {
        &&& after.dom() == before.dom()
        &&& forall|k: int|
            #![trigger self.dst_cell(k)]
            0 <= k < self.count ==> after[self.dst_cell(k) as u64] == before[self.src_cell(
                k,
            ) as u64]
        &&& forall|a: u64|
            #![trigger after[a]]
            before.contains_key(a) && !self.writes(a) ==> after[a] == before[a]
    }
}

/// A memory held on the host, on which launches and copies can be carried out.
pub struct Memory {
    cells: HashMap<u64, u64>,
}

impl Memory {
    pub closed spec fn view(&self) -> Cells {
        self.cells@
    }

    /// A memory in which nothing is allocated.
    pub fn new() -> (r: Memory)
        ensures
            r@ == Cells::empty(),
    {
        Memory { cells: HashMap::new() }
    }

    /// Allocates the element at `address`, or overwrites it.
    pub fn store(&mut self, address: u64, bits: u64)
        ensures
            final(self)@ == old(self)@.insert(address, bits),
    {
        self.cells.insert(address, bits);
    }

    /// The element at `address`, where there is one.
    pub fn load(&self, address: u64) -> (r: Option<u64>)
        ensures
            r == (if self@.contains_key(address) {
                Some(self@[address])
            } else {
                None
            }),
    {
        match self.cells.get(&address) {
            Some(bits) => Some(*bits),
            None => None,
        }
    }

    /// Copies the bits at `from` to `to`.
    fn copy_cell(&mut self, to: u64, from: u64)
        requires
            old(self)@.contains_key(from),
            old(self)@.contains_key(to),
        ensures
            final(self)@ == old(self)@.insert(to, old(self)@[from]),
    {
        match self.load(from) {
            Some(bits) => {
                self.store(to, bits);
            },
            None => {},
        }
    }

    /// Carries out a copy between two places that do not overlap.
    pub fn memcpy(&mut self, copy: &Memcpy)
        requires
            copy.runs_on(old(self)@),
        ensures
            copy.effect(old(self)@, final(self)@),
    {
        let ghost before = self@;
        let mut k: usize = 0;
        while k < copy.count
            invariant
                k <= copy.count,
                copy.runs_on(before),
                self@.dom() == before.dom(),
                forall|m: int|
                    #![trigger copy.dst_cell(m)]
                    0 <= m < k ==> self@[copy.dst_cell(m) as u64] == before[copy.src_cell(
                        m,
                    ) as u64],
                forall|a: u64|
                    #![trigger self@[a]]
                    before.contains_key(a) && !copy.writes(a) ==> self@[a] == before[a],
            decreases copy.count - k,
        {
            proof {
                let (m, e, s, d): (int, int, int, int) = (
                    k as int,
                    copy.elem as int,
                    copy.src_cell(k as int),
                    copy.dst_cell(k as int),
                );
                assert(0 <= m * e) by (nonlinear_arith)
                    requires
                        0 <= m,
                        0 < e,
                ;
                assert(before.contains_key(s as u64) && before.contains_key(d as u64));
            }
            let distance: u64 = k as u64 * copy.elem as u64;
            let ghost last = self@;
            self.copy_cell(copy.dst + distance, copy.src + distance);
            proof {
                assert(copy.writes(copy.dst_cell(k as int) as u64));
                assert(self@.dom() =~= before.dom());
                assert forall|m: int| #![trigger copy.dst_cell(m)] 0 <= m <= k implies self@[
                    copy.dst_cell(m) as u64
                ] == before[copy.src_cell(m) as u64] by {
                    if m < k {
                        let (x, y, e): (int, int, int) = (m, k as int, copy.elem as int);
                        assert(x * e < y * e) by (nonlinear_arith)
                            requires
                                x < y,
                                0 < e,
                        ;
                    }
                }
            }
            k = k + 1;
        }
    }

    /// Carries out a launch of a copy kernel.
    pub fn launch(&mut self, launch: &Copy2d)
        requires
            launch.runs_on(old(self)@),
        ensures
            launch.effect(old(self)@, final(self)@),
    {
        let ghost before = self@;
        let first: u64 = match launch.target {
            Target::Fixed { offset } => offset as u64,
            Target::AtPosition { base, stride, position_ptr, position_max } => {
                let position: u64 = match self.load(position_ptr) {
                    Some(position) => position,
                    None => 0,
                };
                if position > position_max as u64 {
                    return ;
                }
                proof {
                    let (p, s): (int, int) = (position as int, stride as int);
                    assert(0 <= p * s <= u32::MAX * u32::MAX) by (nonlinear_arith)
                        requires
                            0 <= p <= u32::MAX,
                            0 <= s <= u32::MAX,
                    ;
                }
                base as u64 + position * stride as u64
            },
        };
        let size: u64 = launch.dtype.size_in_bytes() as u64;
        proof {
            lemma_product_of_32_bits(launch.config.grid_dim_x, launch.config.block_dim_x);
        }
        let threads: u64 = launch.config.grid_dim_x as u64 * launch.config.block_dim_x as u64;
        let mut i: u32 = 0;
        while i < launch.d1
            invariant
                i <= launch.d1,
                launch.runs_on(before),
                !launch.skips(before),
                first == launch.first_offset(before),
                size == launch.dtype.size_in_bytes(),
                threads == launch.threads(),
                copied_up_to(*launch, before, self@, i as int, 0),
            decreases launch.d1 - i,
        {
            let mut j: u32 = 0;
            while j < launch.d2
                invariant
                    i < launch.d1,
                    j <= launch.d2,
                    launch.runs_on(before),
                    !launch.skips(before),
                    first == launch.first_offset(before),
                    size == launch.dtype.size_in_bytes(),
                    threads == launch.threads(),
                    copied_up_to(*launch, before, self@, i as int, j as int),
                decreases launch.d2 - j,
            {
                proof {
                    lemma_product_of_32_bits(i, launch.d2);
                }
                if i as u64 * launch.d2 as u64 + j as u64 >= threads {
                    // No thread for this element.
                    j = j + 1;
                    continue ;
                }
                proof {
                    assert(launch.covers(i as int, j as int));
                    lemma_small_steps(*launch, before, i as int, j as int);
                }
                let from: u64 = launch.src + (launch.src_o as u64 + i as u64 * launch.src_s as u64
                    + j as u64) * size;
                let to: u64 = launch.dst + (first + i as u64 * launch.dst_s as u64 + j as u64)
                    * size;
                let ghost last = self@;
                assert(from == launch.src_cell(i as int, j as int));
                assert(to == launch.dst_cell(before, i as int, j as int));
                self.copy_cell(to, from);
                proof {
                    lemma_copied_one_more(*launch, before, last, self@, i as int, j as int);
                }
                j = j + 1;
            }
            i = i + 1;
        }
    }
}

/// The memory `now` after the rows before `i` and the elements before `j` of row `i` have been
/// copied.
spec fn copied_up_to(launch: Copy2d, before: Cells, now: Cells, i: int, j: int) -> bool {
    &&& now.dom() == before.dom()
    &&& forall|p: int, q: int|
        #![trigger launch.dst_cell(before, p, q)]
        launch.covers(p, q) && (p < i || (p == i && q < j)) ==> now[launch.dst_cell(
            before,
            p,
            q,
        ) as u64] == before[launch.src_cell(p, q) as u64]
    &&& forall|a: u64|
        #![trigger now[a]]
        before.contains_key(a) && !launch.writes(before, a) ==> now[a] == before[a]
}

proof fn lemma_product_of_32_bits(a: u32, b: u32)
    ensures
        0 <= a * b <= u32::MAX * u32::MAX,
{
    assert(0 <= a * b <= u32::MAX * u32::MAX) by (nonlinear_arith)
        requires
            0 <= a <= u32::MAX,
            0 <= b <= u32::MAX,
    ;
}

/// The addresses of a launch that stays within memory are computed without overflow.
proof fn lemma_small_steps(launch: Copy2d, cells: Cells, i: int, j: int)
    requires
        launch.runs_on(cells),
        !launch.skips(cells),
        launch.covers(i, j),
    ensures
        0 <= i * launch.src_s <= u32::MAX * u32::MAX,
        0 <= i * launch.dst_s <= u32::MAX * u32::MAX,
        0 <= launch.first_offset(cells),
        ({
            let size = launch.dtype.size_in_bytes();
            let from = launch.src_o + i * launch.src_s + j;
            let to = launch.first_offset(cells) + i * launch.dst_s + j;
            &&& 0 <= from <= from * size
            &&& 0 <= to <= to * size
            &&& launch.src + from * size <= u64::MAX
            &&& launch.dst + to * size <= u64::MAX
        }),
{
    assert(launch.src_cell(i, j) <= u64::MAX);
    assert(launch.dst_cell(cells, i, j) <= u64::MAX);
    let (s, d): (int, int) = (launch.src_s as int, launch.dst_s as int);
    assert(0 <= i * s <= u32::MAX * u32::MAX && 0 <= i * d <= u32::MAX * u32::MAX)
        by (nonlinear_arith)
        requires
            0 <= i <= u32::MAX,
            0 <= s <= u32::MAX,
            0 <= d <= u32::MAX,
    ;
    match launch.target {
        Target::Fixed { .. } => {},
        Target::AtPosition { stride, position_ptr, .. } => {
            let (p, t): (int, int) = (cells[position_ptr] as int, stride as int);
            assert(0 <= p * t) by (nonlinear_arith)
                requires
                    0 <= p,
                    0 <= t,
            ;
        },
    }
    let size: int = launch.dtype.size_in_bytes() as int;
    let from: int = launch.src_o + i * launch.src_s + j;
    let to: int = launch.first_offset(cells) + i * launch.dst_s + j;
    assert(from <= from * size && to <= to * size) by (nonlinear_arith)
        requires
            0 <= from,
            0 <= to,
            1 <= size,
    ;
}

/// Distinct elements are written to distinct addresses.
proof fn lemma_written_once(launch: Copy2d, cells: Cells, i: int, j: int, p: int, q: int)
    requires
        launch.d1 <= 1 || launch.d2 <= launch.dst_s,
        launch.covers(i, j),
        launch.covers(p, q),
        launch.dst_cell(cells, i, j) == launch.dst_cell(cells, p, q),
    ensures
        i == p,
        j == q,
{
    let f: int = launch.first_offset(cells);
    let s: int = launch.dst_s as int;
    let size: int = launch.dtype.size_in_bytes() as int;
    let (x, y): (int, int) = (f + i * s + j, f + p * s + q);
    assert(x == y) by (nonlinear_arith)
        requires
            x * size == y * size,
            1 <= size,
    ;
    if i != p {
        assert(i * s + j != p * s + q) by (nonlinear_arith)
            requires
                i != p,
                0 <= j < s,
                0 <= q < s,
        ;
    }
}

proof fn lemma_copied_one_more(
    launch: Copy2d,
    before: Cells,
    last: Cells,
    now: Cells,
    i: int,
    j: int,
)
    requires
        launch.runs_on(before),
        !launch.skips(before),
        launch.covers(i, j),
        copied_up_to(launch, before, last, i, j),
        now == last.insert(
            launch.dst_cell(before, i, j) as u64,
            last[launch.src_cell(i, j) as u64],
        ),
    ensures
        copied_up_to(launch, before, now, i, j + 1),
{
    lemma_small_steps(launch, before, i, j);
    let to: u64 = launch.dst_cell(before, i, j) as u64;
    let from: u64 = launch.src_cell(i, j) as u64;
    assert(launch.writes(before, to));
    assert(last[from] == before[from]);
    assert(now.dom() =~= before.dom());
    assert forall|p: int, q: int|
        #![trigger launch.dst_cell(before, p, q)]
        launch.covers(p, q) && (p < i || (p == i && q < j + 1)) implies now[launch.dst_cell(
        before,
        p,
        q,
    ) as u64] == before[launch.src_cell(p, q) as u64] by {
        lemma_small_steps(launch, before, p, q);
        if p != i || q != j {
            if launch.dst_cell(before, p, q) == launch.dst_cell(before, i, j) {
                lemma_written_once(launch, before, i, j, p, q);
            }
        }
    }
}

} // verus!

//! A buffer of slots along one dimension of a tensor, filled step by step.
//!
//! Allocating the buffer and launching the writes is not done here. A method that needs one of
//! these hands back an action, and is called again with the event that the action was carried
//! out. Where an action fails, nothing is handed back and the cache stays as it is.

use vstd::prelude::*;

use crate::copy2d::Copy2d;
use crate::dtype::{DType, DeviceLocation};
use crate::error::{ErrorView, GraphError, Op};
use crate::extension::{slice_set_at_outcome, slice_set_outcome, CudaTensorExtension};
use crate::inplace::same_sizes;
use crate::memory::Heap;
use crate::tensor::{copy_sizes, Tensor, TensorView};

verus! {

/// A contiguous buffer of zeros to be allocated.
#[derive(Debug, PartialEq, Eq)]
pub struct Allocation {
    pub dims: Vec<usize>,
    pub dtype: DType,
    pub location: DeviceLocation,
}

/// The mathematical content of an [`Allocation`].
#[verifier::ext_equal]
pub struct AllocationView {
    pub dims: Seq<usize>,
    pub dtype: DType,
    pub location: DeviceLocation,
}

impl AllocationView {
    /// Whether `t` is a buffer such as was asked for.
    pub open spec fn met_by(&self, t: TensorView) -> bool {
        &&& t.wf()
        &&& t.is_contiguous()
        &&& t.dims == self.dims
        &&& t.dtype() == self.dtype
        &&& t.location == self.location
    }

    /// `after` is the heap `before` with the buffer `t` allocated as asked for: a storage that
    /// shares no byte with those in use, and that is full of zeros.
    pub open spec fn carried_out(&self, t: TensorView, before: Heap, after: Heap) -> bool {
        self.met_by(t) && before.grown(t.storage, after)
    }
}

impl Allocation {
    pub open spec fn view(&self) -> AllocationView {
        AllocationView { dims: self.dims@, dtype: self.dtype, location: self.location }
    }

    /// Whether `t` is a buffer such as was asked for.
    pub fn met_by(&self, t: &Tensor) -> (r: bool)
        requires
            t@.wf(),
        ensures
            r == self@.met_by(t@),
    {
        t.is_contiguous() && same_sizes(t.dims(), &self.dims) && t.dtype()
            == self.dtype && t.location() == self.location
    }
}

/// What happened before a method of a cache is called.
#[derive(Debug)]
pub enum CacheEvent {
    /// Nothing yet.
    Start,
    /// The buffer that was asked for has been allocated.
    Allocated(Tensor),
    /// The kernel that was asked for has been launched.
    Launched,
}

/// The mathematical content of a [`CacheEvent`].
pub enum EventView {
    Start,
    Allocated(TensorView),
    Launched,
}

impl CacheEvent {
    pub open spec fn view(&self) -> EventView {
        match self {
            CacheEvent::Start => EventView::Start,
            CacheEvent::Allocated(t) => EventView::Allocated(t@),
            CacheEvent::Launched => EventView::Launched,
        }
    }
}

/// What has to be done before a method of a cache can go on.
#[derive(Debug, PartialEq, Eq)]
pub enum CacheAction {
    /// A buffer has to be allocated.
    Allocate(Allocation),
    /// A copy kernel has to be launched.
    Launch(Copy2d),
    /// Nothing.
    Done,
}

/// The mathematical content of a [`CacheAction`].
pub enum ActionView {
    Allocate(AllocationView),
    Launch(Copy2d),
    Done,
}

impl CacheAction {
    pub open spec fn view(&self) -> ActionView {
        match self {
            CacheAction::Allocate(request) => ActionView::Allocate(request@),
            CacheAction::Launch(launch) => ActionView::Launch(*launch),
            CacheAction::Done => ActionView::Done,
        }
    }
}

/// Slots of a tensor along dimension `dim`, of which the first `current_seq_len` are filled.
///
/// The buffer is allocated when the first slot is to be filled, since only then the other
/// dimensions are known. A cache without a buffer shares nothing with its clones.
#[derive(Debug)]
pub struct Cache {
    all_data: Option<Tensor>,
    dim: usize,
    current_seq_len: usize,
    max_seq_len: usize,
}

/// The mathematical content of a [`Cache`].
#[verifier::ext_equal]
pub struct CacheView {
    pub all_data: Option<TensorView>,
    pub dim: usize,
    pub current_seq_len: usize,
    pub max_seq_len: usize,
}

impl CacheView {
    /// No slot is filled that does not exist, and the buffer has all the slots.
    pub open spec fn wf(&self) -> bool {
        &&& self.current_seq_len <= self.max_seq_len
        &&& match self.all_data {
            None => self.current_seq_len == 0,
            Some(t) => {
                &&& t.wf()
                &&& t.is_contiguous()
                &&& self.dim < t.dims.len()
                &&& t.dims[self.dim as int] == self.max_seq_len
            },
        }
    }

    /// A cache without a buffer.
    pub open spec fn empty(dim: usize, max_seq_len: usize) -> CacheView {
        CacheView { all_data: None, dim, current_seq_len: 0, max_seq_len }
    }

    /// The slots that are filled.
    pub open spec fn current_data(&self) -> Option<TensorView> {
        match self.all_data {
            None => None,
            Some(t) => Some(t.narrow(self.dim as int, 0, self.current_seq_len)),
        }
    }

    /// The buffer for slots such as `like` has: as long as the cache on `dim`, and as long as
    /// `like` on the other dimensions.
    pub open spec fn request(&self, like: TensorView) -> AllocationView {
        AllocationView {
            dims: like.dims.update(self.dim as int, self.max_seq_len),
            dtype: like.dtype(),
            location: like.location,
        }
    }

    /// The cache with `n` more slots filled.
    pub open spec fn advanced(&self, n: usize) -> CacheView {
        CacheView { current_seq_len: (self.current_seq_len + n) as usize, ..*self }
    }

    /// Whether the buffer still has to be asked for.
    pub open spec fn asks(&self, e: EventView) -> bool {
        self.all_data is None && !(e is Allocated)
    }

    /// The cache once the buffer is there.
    pub open spec fn reserved(&self, e: EventView) -> CacheView {
        match e {
            EventView::Allocated(t) => CacheView { all_data: Some(t), ..*self },
            _ => *self,
        }
    }

    /// Whether `e` can have happened to a cache that waits for slots such as `like` has. Without
    /// the dimension that the cache goes along there is no buffer to ask for.
    pub open spec fn reserve_admits(&self, like: TensorView, e: EventView) -> bool {
        &&& self.wf()
        &&& self.all_data is None ==> self.dim < like.dims.len()
        &&& e matches EventView::Allocated(t) ==> self.all_data is None && self.request(
            like,
        ).met_by(t)
    }

    /// One step of reserving the buffer.
    pub open spec fn reserve_step(&self, like: TensorView, e: EventView) -> (CacheView, ActionView) {
        if self.asks(e) {
            (*self, ActionView::Allocate(self.request(like)))
        } else {
            (self.reserved(e), ActionView::Done)
        }
    }

    /// One step of appending `src`.
    pub open spec fn append_step(&self, src: TensorView, e: EventView) -> (
        CacheView,
        Result<ActionView, ErrorView>,
    ) {
        let ready = self.reserved(e);
        if self.dim >= src.dims.len() {
            (*self, Err(ErrorView::DimOutOfRange { shape: src.dims, dim: self.dim, op: Op::Dim }))
        } else if e is Launched {
            (self.advanced(src.dims[self.dim as int]), Ok(ActionView::Done))
        } else if self.asks(e) {
            (*self, Ok(ActionView::Allocate(self.request(src))))
        } else if self.current_seq_len + src.dims[self.dim as int] > self.max_seq_len {
            (
                ready,
                Err(
                    ErrorView::AboveMaxSeqLen {
                        current: self.current_seq_len,
                        seq_len: src.dims[self.dim as int],
                        max: self.max_seq_len,
                    },
                ),
            )
        } else {
            match slice_set_outcome(ready.all_data->0, src, self.dim, self.current_seq_len) {
                Err(error) => (ready, Err(error)),
                Ok(None) => (ready.advanced(src.dims[self.dim as int]), Ok(ActionView::Done)),
                Ok(Some(launch)) => (ready, Ok(ActionView::Launch(launch))),
            }
        }
    }

    /// Whether `e` can have happened to a cache to which `src` is appended: a kernel has been
    /// launched only if it was asked for.
    pub open spec fn append_admits(&self, src: TensorView, e: EventView) -> bool {
        &&& self.wf()
        &&& src.wf()
        &&& match e {
            EventView::Start => true,
            EventView::Allocated(t) => self.dim < src.dims.len() && self.reserve_admits(src, e),
            EventView::Launched => self.append_step(src, EventView::Start).1 matches Ok(
                ActionView::Launch(_),
            ),
        }
    }

    /// One step of writing `src` where `position` will say.
    pub open spec fn append_at_step(&self, src: TensorView, position: TensorView, e: EventView) -> (
        CacheView,
        Result<ActionView, ErrorView>,
    ) {
        let ready = self.reserved(e);
        if e is Launched {
            (*self, Ok(ActionView::Done))
        } else if self.asks(e) {
            (*self, Ok(ActionView::Allocate(self.request(src))))
        } else {
            (
                ready,
                match slice_set_at_outcome(ready.all_data->0, src, self.dim, 0, position) {
                    Err(error) => Err(error),
                    Ok(None) => Ok(ActionView::Done),
                    Ok(Some(launch)) => Ok(ActionView::Launch(launch)),
                },
            )
        }
    }

    /// Whether `e` can have happened to a cache into which `src` is written where `position` will
    /// say.
    pub open spec fn append_at_admits(
        &self,
        src: TensorView,
        position: TensorView,
        e: EventView,
    ) -> bool {
        &&& src.wf()
        &&& position.wf()
        &&& self.reserve_admits(src, e)
        &&& e is Launched ==> (self.append_at_step(src, position, EventView::Start).1 matches Ok(
            ActionView::Launch(_),
        ))
    }
}

impl Clone for Cache {
    fn clone(&self) -> (r: Self)
        ensures
            r@ == self@,
    {
        let all_data: Option<Tensor> = match &self.all_data {
            None => None,
            Some(t) => Some(t.clone()),
        };
        Cache {
            all_data,
            dim: self.dim,
            current_seq_len: self.current_seq_len,
            max_seq_len: self.max_seq_len,
        }
    }
}

impl Cache {
    pub closed spec fn view(&self) -> CacheView {
        CacheView {
            all_data: match self.all_data {
                None => None,
                Some(t) => Some(t@),
            },
            dim: self.dim,
            current_seq_len: self.current_seq_len,
            max_seq_len: self.max_seq_len,
        }
    }

    /// A cache of `max_seq_len` slots along dimension `dim`, none of them filled.
    pub fn new(dim: usize, max_seq_len: usize) -> (r: Cache)
        ensures
            r@ == CacheView::empty(dim, max_seq_len),
            r@.all_data is None,
            r@.dim == dim,
            r@.current_seq_len == 0,
            r@.max_seq_len == max_seq_len,
            r@.wf(),
    {
        Cache { all_data: None, dim, current_seq_len: 0, max_seq_len }
    }

    pub fn dim(&self) -> (r: usize)
        ensures
            r == self@.dim,
    {
        self.dim
    }

    pub fn current_seq_len(&self) -> (r: usize)
        ensures
            r == self@.current_seq_len,
    {
        self.current_seq_len
    }

    pub fn max_seq_len(&self) -> (r: usize)
        ensures
            r == self@.max_seq_len,
    {
        self.max_seq_len
    }

    /// The whole buffer, filled or not.
    pub fn all_data(&self) -> (r: &Option<Tensor>)
        ensures
            r is Some <==> self@.all_data is Some,
            r matches Some(t) ==> self@.all_data == Some(t@),
    {
        &self.all_data
    }

    /// The slots that are filled.
    pub fn current_data(&self) -> (r: Result<Option<Tensor>, GraphError>)
        requires
            self@.wf(),
        ensures
            match r {
                Ok(None) => self@.current_data() is None,
                Ok(Some(t)) => self@.current_data() == Some(t@) && t@.wf(),
                Err(_) => false,
            },
    {
        match &self.all_data {
            None => Ok(None),
            Some(t) => match t.narrow(self.dim, 0, self.current_seq_len) {
                Ok(t) => Ok(Some(t)),
                Err(e) => Err(e),
            },
        }
    }

    /// Empties the cache and lets go of the buffer.
    pub fn reset(&mut self)
        ensures
            final(self)@ == CacheView::empty(old(self)@.dim, old(self)@.max_seq_len),
            final(self)@.all_data is None,
            final(self)@.dim == old(self)@.dim,
            final(self)@.current_seq_len == 0,
            final(self)@.max_seq_len == old(self)@.max_seq_len,
            final(self)@.wf(),
    {
        self.current_seq_len = 0;
        self.all_data = None;
    }

    /// Has the buffer allocated now, if it is not allocated yet, with the element type, the
    /// device and the other dimensions of `like`.
    ///
    /// [`append`](Self::append) and [`append_at`](Self::append_at) do this on their first call.
    /// Inside the capture of a graph that is too late: filling the new buffer with zeros becomes
    /// part of the graph, and every replay clears what the ones before it have written. So call
    /// this before capturing.
    pub fn reserve(&mut self, like: &Tensor, event: CacheEvent) -> (r: CacheAction)
        requires
            old(self)@.reserve_admits(like@, event@),
        ensures
            (final(self)@, r@) == old(self)@.reserve_step(like@, event@),
            final(self)@.wf(),
    {
        match event {
            CacheEvent::Allocated(t) => {
                self.all_data = Some(t);
                CacheAction::Done
            },
            _ => {
                if self.all_data.is_none() {
                    let mut dims: Vec<usize> = copy_sizes(like.dims());
                    dims.set(self.dim, self.max_seq_len);
                    CacheAction::Allocate(
                        Allocation { dims, dtype: like.dtype(), location: like.location() },
                    )
                } else {
                    CacheAction::Done
                }
            },
        }
    }

    /// Appends `src` to the slots that are filled.
    ///
    /// The slot written to is part of the launch, so a graph that captured it writes to that slot
    /// on every replay; see [`append_at`](Self::append_at).
    pub fn append(&mut self, src: &Tensor, event: CacheEvent) -> (r: Result<
        CacheAction,
        GraphError,
    >)
        requires
            old(self)@.append_admits(src@, event@),
        ensures
            final(self)@ == old(self)@.append_step(src@, event@).0,
            match r {
                Ok(action) => old(self)@.append_step(src@, event@).1 == Ok::<_, ErrorView>(action@),
                Err(e) => old(self)@.append_step(src@, event@).1 == Err::<ActionView, _>(e@),
            },
            final(self)@.wf(),
    {
        let seq_len: usize = match src.dim(self.dim) {
            Ok(seq_len) => seq_len,
            Err(e) => {
                return Err(e);
            },
        };
        if let CacheEvent::Launched = event {
            self.current_seq_len = self.current_seq_len + seq_len;
            return Ok(CacheAction::Done);
        }
        match self.reserve(src, event) {
            CacheAction::Done => {},
            action => {
                return Ok(action);
            },
        }
        if seq_len > self.max_seq_len - self.current_seq_len {
            return Err(
                GraphError::AboveMaxSeqLen {
                    current: self.current_seq_len,
                    seq_len,
                    max: self.max_seq_len,
                },
            );
        }
        let outcome = match &self.all_data {
            Some(t) => t.slice_set_fingerprinted(src, self.dim, self.current_seq_len),
            None => Ok(None),
        };
        match outcome {
            Err(e) => Err(e),
            Ok(Some(launch)) => Ok(CacheAction::Launch(launch)),
            Ok(None) => {
                self.current_seq_len = self.current_seq_len + seq_len;
                Ok(CacheAction::Done)
            },
        }
    }

    /// Writes `src` to the slots from the one on that `position`, a `U32` tensor of one element,
    /// names when the kernel runs.
    ///
    /// A graph captures the address of `position` only, so a change of its contents between
    /// replays moves the write.
    ///
    /// The number of filled slots is neither read nor changed: it is up to the caller to track
    /// the position and to keep it within the cache, and to read
    /// [`all_data`](Self::all_data) rather than [`current_data`](Self::current_data).
    pub fn append_at(&mut self, src: &Tensor, position: &Tensor, event: CacheEvent) -> (r: Result<
        CacheAction,
        GraphError,
    >)
        requires
            old(self)@.append_at_admits(src@, position@, event@),
        ensures
            final(self)@ == old(self)@.append_at_step(src@, position@, event@).0,
            match r {
                Ok(action) => old(self)@.append_at_step(src@, position@, event@).1 == Ok::<
                    _,
                    ErrorView,
                >(action@),
                Err(e) => old(self)@.append_at_step(src@, position@, event@).1 == Err::<
                    ActionView,
                    _,
                >(e@),
            },
            final(self)@.wf(),
            final(self)@.current_seq_len == old(self)@.current_seq_len,
    {
        if let CacheEvent::Launched = event {
            return Ok(CacheAction::Done);
        }
        match self.reserve(src, event) {
            CacheAction::Done => {},
            action => {
                return Ok(action);
            },
        }
        let outcome = match &self.all_data {
            Some(t) => t.slice_set_fingerprinted_at(src, self.dim, 0, position),
            None => Ok(None),
        };
        match outcome {
            Err(e) => Err(e),
            Ok(Some(launch)) => Ok(CacheAction::Launch(launch)),
            Ok(None) => Ok(CacheAction::Done),
        }
    }
}

/// One of the two caches of a [`KvCache`].
#[derive(Debug, Clone, Copy, PartialEq, Eq, Structural, Hash)]
pub enum Half {
    K,
    V,
}

/// What has to be done before a method of a [`KvCache`] can go on.
#[derive(Debug, PartialEq, Eq)]
pub enum KvAction {
    /// An action for one of the two caches.
    Do { half: Half, action: CacheAction },
    /// Nothing.
    Done,
}

/// The mathematical content of a [`KvAction`].
pub enum KvActionView {
    Do { half: Half, action: ActionView },
    Done,
}

impl KvAction {
    pub open spec fn view(&self) -> KvActionView {
        match self {
            KvAction::Do { half, action } => KvActionView::Do { half: *half, action: action@ },
            KvAction::Done => KvActionView::Done,
        }
    }
}

/// What has to be done before [`KvCache::append`] can go on, or what it has come to.
#[derive(Debug, PartialEq, Eq)]
pub enum KvAppend {
    /// An action for one of the two caches.
    Do { half: Half, action: CacheAction },
    /// The slots that are filled now.
    Done { k: Tensor, v: Tensor },
}

/// The mathematical content of a [`KvAppend`].
pub enum KvAppendView {
    Do { half: Half, action: ActionView },
    Done { k: TensorView, v: TensorView },
}

impl KvAppend {
    pub open spec fn view(&self) -> KvAppendView {
        match self {
            KvAppend::Do { half, action } => KvAppendView::Do { half: *half, action: action@ },
            KvAppend::Done { k, v } => KvAppendView::Done { k: k@, v: v@ },
        }
    }
}

/// A cache of keys and one of values.
#[derive(Debug)]
pub struct KvCache {
    k: Cache,
    v: Cache,
}

/// The mathematical content of a [`KvCache`].
#[verifier::ext_equal]
pub struct KvView {
    pub k: CacheView,
    pub v: CacheView,
}

impl KvView {
    pub open spec fn wf(&self) -> bool {
        self.k.wf() && self.v.wf()
    }

    /// One step of reserving both buffers, the keys first. `half` says which of the two caches
    /// `e` happened to.
    pub open spec fn reserve_step(
        &self,
        k: TensorView,
        v: TensorView,
        half: Half,
        e: EventView,
    ) -> (KvView, KvActionView) {
        let (next_k, action) = if half is K {
            self.k.reserve_step(k, e)
        } else {
            (self.k, ActionView::Done)
        };
        let v_event = if half is K {
            EventView::Start
        } else {
            e
        };
        if !(action is Done) {
            (KvView { k: next_k, v: self.v }, KvActionView::Do { half: Half::K, action })
        } else {
            let (next_v, action) = self.v.reserve_step(v, v_event);
            (
                KvView { k: next_k, v: next_v },
                if action is Done {
                    KvActionView::Done
                } else {
                    KvActionView::Do { half: Half::V, action }
                },
            )
        }
    }

    /// Whether `e` can have happened to one of the caches while both buffers are reserved.
    pub open spec fn reserve_admits(
        &self,
        k: TensorView,
        v: TensorView,
        half: Half,
        e: EventView,
    ) -> bool {
        &&& self.wf()
        &&& half is K ==> self.k.reserve_admits(k, e)
        &&& half is K ==> !self.k.asks(e) ==> self.v.reserve_admits(v, EventView::Start)
        &&& half is V ==> self.v.reserve_admits(v, e)
    }

    /// One step of appending to the values, once the keys are appended.
    pub open spec fn append_v_step(&self, v: TensorView, e: EventView) -> (
        KvView,
        Result<KvAppendView, ErrorView>,
    ) {
        let (next, r) = self.v.append_step(v, e);
        (
            KvView { k: self.k, v: next },
            match r {
                Err(error) => Err(error),
                Ok(ActionView::Done) => Ok(
                    KvAppendView::Done {
                        k: self.k.current_data()->0,
                        v: next.current_data()->0,
                    },
                ),
                Ok(action) => Ok(KvAppendView::Do { half: Half::V, action }),
            },
        )
    }

    /// One step of appending to both caches, to the keys first.
    pub open spec fn append_step(
        &self,
        k: TensorView,
        v: TensorView,
        half: Half,
        e: EventView,
    ) -> (KvView, Result<KvAppendView, ErrorView>) {
        if half is V {
            self.append_v_step(v, e)
        } else {
            let (next, r) = self.k.append_step(k, e);
            let kv = KvView { k: next, v: self.v };
            match r {
                Err(error) => (kv, Err(error)),
                Ok(ActionView::Done) => kv.append_v_step(v, EventView::Start),
                Ok(action) => (kv, Ok(KvAppendView::Do { half: Half::K, action })),
            }
        }
    }

    /// Whether `e` can have happened to one of the caches while both are appended to.
    pub open spec fn append_admits(
        &self,
        k: TensorView,
        v: TensorView,
        half: Half,
        e: EventView,
    ) -> bool {
        &&& self.wf()
        &&& half is K ==> self.k.append_admits(k, e)
        &&& half is K ==> self.k.append_step(k, e).1 == Ok::<_, ErrorView>(ActionView::Done)
            ==> self.v.append_admits(v, EventView::Start)
        &&& half is V ==> self.k.all_data is Some && self.v.append_admits(v, e)
    }

    /// One step of writing to the values where `position` will say, once the keys are written.
    pub open spec fn append_at_v_step(&self, v: TensorView, position: TensorView, e: EventView) -> (
        KvView,
        Result<KvActionView, ErrorView>,
    ) {
        let (next, r) = self.v.append_at_step(v, position, e);
        (
            KvView { k: self.k, v: next },
            match r {
                Err(error) => Err(error),
                Ok(ActionView::Done) => Ok(KvActionView::Done),
                Ok(action) => Ok(KvActionView::Do { half: Half::V, action }),
            },
        )
    }

    /// One step of writing to both caches where `position` will say, to the keys first.
    pub open spec fn append_at_step(
        &self,
        k: TensorView,
        v: TensorView,
        position: TensorView,
        half: Half,
        e: EventView,
    ) -> (KvView, Result<KvActionView, ErrorView>) {
        if half is V {
            self.append_at_v_step(v, position, e)
        } else {
            let (next, r) = self.k.append_at_step(k, position, e);
            let kv = KvView { k: next, v: self.v };
            match r {
                Err(error) => (kv, Err(error)),
                Ok(ActionView::Done) => kv.append_at_v_step(v, position, EventView::Start),
                Ok(action) => (kv, Ok(KvActionView::Do { half: Half::K, action })),
            }
        }
    }

    /// Whether `e` can have happened to one of the caches while both are written to.
    pub open spec fn append_at_admits(
        &self,
        k: TensorView,
        v: TensorView,
        position: TensorView,
        half: Half,
        e: EventView,
    ) -> bool {
        &&& self.wf()
        &&& half is K ==> self.k.append_at_admits(k, position, e)
        &&& half is K ==> self.k.append_at_step(k, position, e).1 == Ok::<_, ErrorView>(
            ActionView::Done,
        ) ==> self.v.append_at_admits(v, position, EventView::Start)
        &&& half is V ==> self.v.append_at_admits(v, position, e)
    }
}

impl Clone for KvCache {
    fn clone(&self) -> (r: Self)
        ensures
            r@ == self@,
    {
        KvCache { k: self.k.clone(), v: self.v.clone() }
    }
}

impl KvCache {
    pub closed spec fn view(&self) -> KvView {
        KvView { k: self.k@, v: self.v@ }
    }

    /// Two caches of `max_seq_len` slots along dimension `dim`, none of them filled.
    pub fn new(dim: usize, max_seq_len: usize) -> (r: KvCache)
        ensures
            r@.k == CacheView::empty(dim, max_seq_len),
            r@.v == CacheView::empty(dim, max_seq_len),
            r@.wf(),
    {
        let k = Cache::new(dim, max_seq_len);
        let v = Cache::new(dim, max_seq_len);
        KvCache { k, v }
    }

    pub fn k_cache(&self) -> (r: &Cache)
        ensures
            r@ == self@.k,
    {
        &self.k
    }

    pub fn v_cache(&self) -> (r: &Cache)
        ensures
            r@ == self@.v,
    {
        &self.v
    }

    pub fn k_cache_mut(&mut self) -> (r: &mut Cache)
        ensures
            r@ == old(self)@.k,
            final(self)@ == (KvView { k: final(r)@, v: old(self)@.v }),
    {
        &mut self.k
    }

    pub fn v_cache_mut(&mut self) -> (r: &mut Cache)
        ensures
            r@ == old(self)@.v,
            final(self)@ == (KvView { k: old(self)@.k, v: final(r)@ }),
    {
        &mut self.v
    }

    /// The keys that are filled.
    pub fn k(&self) -> (r: Result<Option<Tensor>, GraphError>)
        requires
            self@.k.wf(),
        ensures
            match r {
                Ok(None) => self@.k.current_data() is None,
                Ok(Some(t)) => self@.k.current_data() == Some(t@) && t@.wf(),
                Err(_) => false,
            },
    {
        self.k.current_data()
    }

    /// The values that are filled.
    pub fn v(&self) -> (r: Result<Option<Tensor>, GraphError>)
        requires
            self@.v.wf(),
        ensures
            match r {
                Ok(None) => self@.v.current_data() is None,
                Ok(Some(t)) => self@.v.current_data() == Some(t@) && t@.wf(),
                Err(_) => false,
            },
    {
        self.v.current_data()
    }

    /// Appends `k` to the keys and then `v` to the values, and hands back all that is filled.
    /// `half` says which of the two caches the event happened to; a start is one of the keys.
    pub fn append(&mut self, k: &Tensor, v: &Tensor, half: Half, event: CacheEvent) -> (r: Result<
        KvAppend,
        GraphError,
    >)
        requires
            old(self)@.append_admits(k@, v@, half, event@),
        ensures
            final(self)@ == old(self)@.append_step(k@, v@, half, event@).0,
            match r {
                Ok(action) => old(self)@.append_step(k@, v@, half, event@).1 == Ok::<_, ErrorView>(
                    action@,
                ),
                Err(e) => old(self)@.append_step(k@, v@, half, event@).1 == Err::<KvAppendView, _>(
                    e@,
                ),
            },
            final(self)@.wf(),
    {
        let v_event: CacheEvent = match half {
            Half::K => {
                match self.k.append(k, event) {
                    Err(e) => {
                        return Err(e);
                    },
                    Ok(CacheAction::Done) => CacheEvent::Start,
                    Ok(action) => {
                        return Ok(KvAppend::Do { half: Half::K, action });
                    },
                }
            },
            Half::V => event,
        };
        match self.v.append(v, v_event) {
            Err(e) => {
                return Err(e);
            },
            Ok(CacheAction::Done) => {},
            Ok(action) => {
                return Ok(KvAppend::Do { half: Half::V, action });
            },
        }
        let out_k: Option<Tensor> = match self.k.current_data() {
            Err(e) => {
                return Err(e);
            },
            Ok(t) => t,
        };
        let out_v: Option<Tensor> = match self.v.current_data() {
            Err(e) => {
                return Err(e);
            },
            Ok(t) => t,
        };
        // Both buffers are there by now.
        Ok(KvAppend::Done { k: out_k.unwrap(), v: out_v.unwrap() })
    }

    /// The number of keys that are filled.
    pub fn current_seq_len(&self) -> (r: usize)
        ensures
            r == self@.k.current_seq_len,
    {
        self.k.current_seq_len()
    }

    /// Empties both caches and lets go of their buffers.
    pub fn reset(&mut self)
        ensures
            final(self)@.k == CacheView::empty(old(self)@.k.dim, old(self)@.k.max_seq_len),
            final(self)@.v == CacheView::empty(old(self)@.v.dim, old(self)@.v.max_seq_len),
            final(self)@.wf(),
    {
        self.k.reset();
        self.v.reset();
    }

    /// Has both buffers allocated now; see [`Cache::reserve`].
    pub fn reserve(&mut self, k: &Tensor, v: &Tensor, half: Half, event: CacheEvent) -> (r: KvAction)
        requires
            old(self)@.reserve_admits(k@, v@, half, event@),
        ensures
            (final(self)@, r@) == old(self)@.reserve_step(k@, v@, half, event@),
            final(self)@.wf(),
    {
        let v_event: CacheEvent = match half {
            Half::K => {
                match self.k.reserve(k, event) {
                    CacheAction::Done => CacheEvent::Start,
                    action => {
                        return KvAction::Do { half: Half::K, action };
                    },
                }
            },
            Half::V => event,
        };
        match self.v.reserve(v, v_event) {
            CacheAction::Done => KvAction::Done,
            action => KvAction::Do { half: Half::V, action },
        }
    }

    /// Writes `k` to the keys and then `v` to the values, from the slot on that `position` names
    /// when the kernels run; see [`Cache::append_at`].
    ///
    /// A graph that captured this can be replayed at another position each time. What is filled
    /// is not tracked, so nothing is handed back.
    pub fn append_at(
        &mut self,
        k: &Tensor,
        v: &Tensor,
        position: &Tensor,
        half: Half,
        event: CacheEvent,
    ) -> (r: Result<KvAction, GraphError>)
        requires
            old(self)@.append_at_admits(k@, v@, position@, half, event@),
        ensures
            final(self)@ == old(self)@.append_at_step(k@, v@, position@, half, event@).0,
            match r {
                Ok(action) => old(self)@.append_at_step(k@, v@, position@, half, event@).1 == Ok::<
                    _,
                    ErrorView,
                >(action@),
                Err(e) => old(self)@.append_at_step(k@, v@, position@, half, event@).1 == Err::<
                    KvActionView,
                    _,
                >(e@),
            },
            final(self)@.wf(),
    {
        let v_event: CacheEvent = match half {
            Half::K => {
                match self.k.append_at(k, position, event) {
                    Err(e) => {
                        return Err(e);
                    },
                    Ok(CacheAction::Done) => CacheEvent::Start,
                    Ok(action) => {
                        return Ok(KvAction::Do { half: Half::K, action });
                    },
                }
            },
            Half::V => event,
        };
        match self.v.append_at(v, position, v_event) {
            Err(e) => Err(e),
            Ok(CacheAction::Done) => Ok(KvAction::Done),
            Ok(action) => Ok(KvAction::Do { half: Half::V, action }),
        }
    }
}

} // verus!

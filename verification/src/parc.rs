//! The optimistic pointer: its block starts with a plain count, which clones
//! and drops on one thread change cheaply, and which promotion turns into a
//! synchronized one for good.

use std::marker::PhantomData;
use std::rc::Rc;
use vstd::prelude::*;
use crate::darc::Darc;
use crate::heap::Heap;
use crate::ledger::{
    acquired, allocated, holds, lemma_acquired_bounded, lemma_acquired_counted,
    lemma_allocated_bounded, lemma_allocated_counted, lemma_released_bounded,
    lemma_released_counted, released, BlockView,
};
use crate::potentially_atomic_usize::{CounterState, REFCOUNT_LIMIT};

verus! {

/// A pointer-sized reference count that is either synchronized or not.
///
/// The heap that holds a counter is reached through `&mut`, so whoever changes
/// a counter has it to itself; the variant records which discipline the block
/// is under, and only [`promote`](Self::promote) changes it.
#[derive(Debug)]
pub enum PotentiallyAtomicUsize {
    Atomic(usize),
    NonAtomic(usize),
}

impl View for PotentiallyAtomicUsize {
    type V = CounterState;

    open spec fn view(&self) -> CounterState {
        match self {
            PotentiallyAtomicUsize::Atomic(n) => CounterState {
                synchronized: true,
                count: *n as nat,
            },
            PotentiallyAtomicUsize::NonAtomic(n) => CounterState {
                synchronized: false,
                count: *n as nat,
            },
        }
    }
}

impl PotentiallyAtomicUsize {
    /// A counter that holds `x` and is not synchronized.
    pub fn new_nonatomic(x: usize) -> (counter: Self)
        ensures
            counter == PotentiallyAtomicUsize::NonAtomic(x),
            counter@ == (CounterState { synchronized: false, count: x as nat }),
    {
        PotentiallyAtomicUsize::NonAtomic(x)
    }

    /// A counter that holds `x` and is synchronized.
    pub fn new_atomic(x: usize) -> (counter: Self)
        ensures
            counter == PotentiallyAtomicUsize::Atomic(x),
            counter@ == (CounterState { synchronized: true, count: x as nat }),
    {
        PotentiallyAtomicUsize::Atomic(x)
    }

    /// The number the counter holds.
    pub fn copy_usize(&self) -> (n: usize)
        ensures
            n == self@.count,
    {
        match self {
            PotentiallyAtomicUsize::Atomic(atomic) => *atomic,
            PotentiallyAtomicUsize::NonAtomic(nonatomic) => *nonatomic,
        }
    }

    /// Whether the counter is synchronized.
    pub fn is_atomic(&self) -> (b: bool)
        ensures
            b == self@.synchronized,
    {
        match self {
            PotentiallyAtomicUsize::Atomic(_) => true,
            PotentiallyAtomicUsize::NonAtomic(_) => false,
        }
    }

    /// Makes the counter synchronized and keeps its number; a synchronized
    /// counter is left as it is.
    pub fn promote(&mut self)
        ensures
            final(self)@ == old(self)@.promoted(),
    {
        let n: usize = self.copy_usize();
        *self = PotentiallyAtomicUsize::Atomic(n);
    }

    /// Counts one more reference, in whichever discipline the counter is
    /// under.
    pub fn increment(&mut self)
        requires
            old(self)@.count < REFCOUNT_LIMIT,
        ensures
            final(self)@ == old(self)@.incremented(),
    {
        match self {
            PotentiallyAtomicUsize::Atomic(atomic) => {
                *atomic = *atomic + 1;
            },
            PotentiallyAtomicUsize::NonAtomic(nonatomic) => {
                *nonatomic = *nonatomic + 1;
            },
        }
    }

    /// Counts one reference less and says whether none is left.
    pub fn decrement(&mut self) -> (last: bool)
        requires
            old(self)@.count >= 1,
        ensures
            final(self)@ == old(self)@.decremented(),
            last == (old(self)@.count == 1),
    {
        match self {
            PotentiallyAtomicUsize::Atomic(atomic) => {
                *atomic = *atomic - 1;
                *atomic == 0
            },
            PotentiallyAtomicUsize::NonAtomic(nonatomic) => {
                *nonatomic = *nonatomic - 1;
                *nonatomic == 0
            },
        }
    }
}

/// The heap block of the optimistic and the promoted pointer: the count, the
/// value, and the tickets of the handles that the count stands for.
pub struct ParcInner<T> {
    rc: PotentiallyAtomicUsize,
    data: T,
    owners: Ghost<Set<nat>>,
}

impl<T> View for ParcInner<T> {
    type V = BlockView<T>;

    closed spec fn view(&self) -> BlockView<T> {
        BlockView { counter: self.rc@, owners: self.owners@, value: self.data }
    }
}

impl<T> ParcInner<T> {
    /// A block for `data` with a plain count of one, held by ticket `id`.
    pub(crate) fn new(data: T, id: Ghost<nat>) -> (block: Self)
        ensures
            block@ == BlockView::fresh(id@, data, false),
    {
        ParcInner {
            rc: PotentiallyAtomicUsize::new_nonatomic(1),
            data,
            owners: Ghost(Set::empty().insert(id@)),
        }
    }

    /// The block's reference count.
    pub fn rc(&self) -> (n: usize)
        ensures
            n == self@.counter.count,
    {
        self.rc.copy_usize()
    }

    /// Whether the block's count is synchronized.
    pub fn is_atomic(&self) -> (b: bool)
        ensures
            b == self@.counter.synchronized,
    {
        self.rc.is_atomic()
    }

    /// The value the block carries.
    pub fn data(&self) -> (data: &T)
        ensures
            *data == self@.value,
    {
        &self.data
    }

    /// Promotes the block's count; nothing else changes.
    pub(crate) fn force_atomic(&mut self)
        ensures
            final(self)@ == old(self)@.promoted(),
    {
        self.rc.promote();
    }

    /// Counts the handle with ticket `id` in.
    pub(crate) fn acquire(&mut self, id: Ghost<nat>)
        requires
            old(self)@.counter.count < REFCOUNT_LIMIT,
        ensures
            final(self)@ == old(self)@.acquired(id@),
    {
        self.rc.increment();
        self.owners = Ghost(self.owners@.insert(id@));
    }

    /// Counts the handle with ticket `id` out and says whether it was the
    /// last.
    pub(crate) fn release(&mut self, id: Ghost<nat>) -> (last: bool)
        requires
            old(self)@.counter.count >= 1,
        ensures
            final(self)@ == old(self)@.released(id@),
            last == (old(self)@.counter.count == 1),
    {
        self.owners = Ghost(self.owners@.remove(id@));
        self.rc.decrement()
    }
}

/// An optimistic pointer: one handle on a block of a heap.
///
/// It stays on the thread that made it; to hand a reference to another thread,
/// turn a clone into a [`Darc`].
pub struct Parc<T> {
    pub(crate) slot: usize,
    pub(crate) id: Ghost<nat>,
    pub(crate) phantom: PhantomData<Rc<T>>,
}

impl<T> Parc<T> {
    /// The slot of the block this handle refers to.
    pub open(crate) spec fn slot(&self) -> nat {
        self.slot as nat
    }

    /// The ticket by which the block knows this handle.
    pub open(crate) spec fn id(&self) -> nat {
        self.id@
    }

    /// The heap is in order and this handle is one of those its block counts.
    pub open spec fn valid(&self, heap: &Heap<ParcInner<T>>) -> bool {
        heap.sound() && holds(heap.blocks(), self.slot(), self.id())
    }

    /// Allocates a block for `data` with a plain count of one and returns the
    /// one handle on it.
    pub fn new(heap: &mut Heap<ParcInner<T>>, data: T) -> (parc: Parc<T>)
        requires
            old(heap).sound(),
        ensures
            !old(heap).blocks().contains_key(parc.slot()),
            final(heap).blocks() == allocated(
                old(heap).blocks(),
                parc.slot(),
                parc.id(),
                data,
                false,
            ),
            parc.valid(final(heap)),
    {
        let id = heap.ticket();
        let slot: usize = heap.allocate(ParcInner::new(data, id));
        proof {
            assert(final(heap).blocks() =~= allocated(
                old(heap).blocks(),
                slot as nat,
                id@,
                data,
                false,
            ));
            lemma_allocated_counted(old(heap).blocks(), slot as nat, id@, data, false);
            lemma_allocated_bounded(
                old(heap).blocks(),
                old(heap).issued(),
                slot as nat,
                data,
                false,
            );
        }
        Parc { slot, id, phantom: PhantomData }
    }

    /// The number of handles, of either kind, on this handle's block.
    pub fn rc(&self, heap: &Heap<ParcInner<T>>) -> (n: usize)
        requires
            self.valid(heap),
        ensures
            n == heap.blocks()[self.slot()].counter.count,
            n == heap.blocks()[self.slot()].owners.len(),
            n >= 1,
    {
        heap.get(self.slot).rc()
    }

    /// Whether this handle's block has been promoted.
    pub fn is_atomic(&self, heap: &Heap<ParcInner<T>>) -> (b: bool)
        requires
            self.valid(heap),
        ensures
            b == heap.blocks()[self.slot()].counter.synchronized,
    {
        heap.get(self.slot).is_atomic()
    }

    /// The value in this handle's block.
    pub fn deref<'a>(&self, heap: &'a Heap<ParcInner<T>>) -> (data: &'a T)
        requires
            self.valid(heap),
        ensures
            *data == heap.blocks()[self.slot()].value,
    {
        heap.get(self.slot).data()
    }

    /// Makes one more handle on this handle's block and counts it, in
    /// whichever discipline the block is under.
    pub fn clone(&self, heap: &mut Heap<ParcInner<T>>) -> (parc: Parc<T>)
        requires
            self.valid(old(heap)),
            old(heap).blocks()[self.slot()].counter.count < REFCOUNT_LIMIT,
        ensures
            parc.slot() == self.slot(),
            !holds(old(heap).blocks(), self.slot(), parc.id()),
            final(heap).blocks() == acquired(old(heap).blocks(), self.slot(), parc.id()),
            self.valid(final(heap)),
            parc.valid(final(heap)),
    {
        let id = heap.ticket();
        heap.get_mut(self.slot).acquire(id);
        proof {
            assert(final(heap).blocks() =~= acquired(old(heap).blocks(), self.slot(), id@));
            lemma_acquired_bounded(old(heap).blocks(), old(heap).issued(), self.slot());
            lemma_acquired_counted(old(heap).blocks(), self.slot(), id@);
        }
        Parc { slot: self.slot, id, phantom: PhantomData }
    }

    /// Gives this handle up: its block counts one handle less, and is freed if
    /// this was the last.
    pub fn drop(self, heap: &mut Heap<ParcInner<T>>)
        requires
            self.valid(old(heap)),
        ensures
            final(heap).sound(),
            final(heap).blocks() == released(old(heap).blocks(), self.slot(), self.id()),
    {
        let last = heap.get_mut(self.slot).release(self.id);
        if last {
            let _ = heap.free(self.slot);
        }
        proof {
            assert(final(heap).blocks() =~= released(
                old(heap).blocks(),
                self.slot(),
                self.id(),
            ));
            lemma_released_counted(old(heap).blocks(), self.slot(), self.id());
            lemma_released_bounded(
                old(heap).blocks(),
                old(heap).issued(),
                self.slot(),
                self.id(),
            );
        }
    }

    /// Turns a promoted handle back into an optimistic one. It is the same
    /// handle on the same block, and the block stays promoted.
    pub fn from(darc: Darc<T>) -> (parc: Parc<T>)
        ensures
            parc.slot() == darc.slot(),
            parc.id() == darc.id(),
    {
        Parc { slot: darc.slot, id: darc.id, phantom: PhantomData }
    }
}

} // verus!

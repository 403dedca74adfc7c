//! The baseline pointer: its count is synchronized from the start.

use std::marker::PhantomData;
use vstd::prelude::*;
use crate::heap::Heap;
use crate::ledger::{
    acquired, allocated, holds, lemma_acquired_bounded, lemma_acquired_counted,
    lemma_allocated_bounded, lemma_allocated_counted, lemma_released_bounded,
    lemma_released_counted, released, BlockView,
};
use crate::potentially_atomic_usize::{CounterState, REFCOUNT_LIMIT};

verus! {

/// The heap block of the baseline pointer: the count, the value, and the
/// tickets of the handles that the count stands for.
pub struct ArcInner<T> {
    rc: usize,
    data: T,
    owners: Ghost<Set<nat>>,
}

impl<T> View for ArcInner<T> {
    type V = BlockView<T>;

    closed spec fn view(&self) -> BlockView<T> {
        BlockView {
            counter: CounterState { synchronized: true, count: self.rc as nat },
            owners: self.owners@,
            value: self.data,
        }
    }
}

impl<T> ArcInner<T> {
    /// A block for `data` with a count of one, held by ticket `id`.
    pub(crate) fn new(data: T, id: Ghost<nat>) -> (block: Self)
        ensures
            block@ == BlockView::fresh(id@, data, true),
    {
        ArcInner { rc: 1, data, owners: Ghost(Set::empty().insert(id@)) }
    }

    /// The block's reference count.
    pub fn rc(&self) -> (n: usize)
        ensures
            n == self@.counter.count,
    {
        self.rc
    }

    /// The value the block carries.
    pub fn data(&self) -> (data: &T)
        ensures
            *data == self@.value,
    {
        &self.data
    }

    /// Counts the handle with ticket `id` in.
    pub(crate) fn acquire(&mut self, id: Ghost<nat>)
        requires
            old(self)@.counter.count < REFCOUNT_LIMIT,
        ensures
            final(self)@ == old(self)@.acquired(id@),
    {
        self.rc = self.rc + 1;
        self.owners = Ghost(self.owners@.insert(id@));
    }

    /// Counts the handle with ticket `id` out and says whether it was the
    /// last.
    pub(crate) fn release(&mut self, id: Ghost<nat>) -> (last: bool)
        requires
            old(self)@.counter.count >= 1,
        ensures
            final(self)@ == old(self)@.released(id@),
            last == (old(self)@.counter.count == 1),
    {
        self.owners = Ghost(self.owners@.remove(id@));
        self.rc = self.rc - 1;
        self.rc == 0
    }
}

/// A baseline pointer: one handle on a block of a heap, counted under the
/// synchronized discipline throughout.
pub struct Arc<T> {
    slot: usize,
    id: Ghost<nat>,
    phantom: PhantomData<T>,
}

impl<T> Arc<T> {
    /// The slot of the block this handle refers to.
    pub closed spec fn slot(&self) -> nat {
        self.slot as nat
    }

    /// The ticket by which the block knows this handle.
    pub closed spec fn id(&self) -> nat {
        self.id@
    }

    /// The heap is in order and this handle is one of those its block counts.
    pub open spec fn valid(&self, heap: &Heap<ArcInner<T>>) -> bool {
        heap.sound() && holds(heap.blocks(), self.slot(), self.id())
    }

    /// Allocates a block for `data` with a synchronized count of one and
    /// returns the one handle on it.
    pub fn new(heap: &mut Heap<ArcInner<T>>, data: T) -> (arc: Arc<T>)
        requires
            old(heap).sound(),
        ensures
            !old(heap).blocks().contains_key(arc.slot()),
            final(heap).blocks() == allocated(
                old(heap).blocks(),
                arc.slot(),
                arc.id(),
                data,
                true,
            ),
            arc.valid(final(heap)),
    {
        let id = heap.ticket();
        let slot: usize = heap.allocate(ArcInner::new(data, id));
        proof {
            assert(final(heap).blocks() =~= allocated(
                old(heap).blocks(),
                slot as nat,
                id@,
                data,
                true,
            ));
            lemma_allocated_counted(old(heap).blocks(), slot as nat, id@, data, true);
            lemma_allocated_bounded(
                old(heap).blocks(),
                old(heap).issued(),
                slot as nat,
                data,
                true,
            );
        }
        Arc { slot, id, phantom: PhantomData }
    }

    /// The number of handles on this handle's block.
    pub fn rc(&self, heap: &Heap<ArcInner<T>>) -> (n: usize)
        requires
            self.valid(heap),
        ensures
            n == heap.blocks()[self.slot()].counter.count,
            n == heap.blocks()[self.slot()].owners.len(),
            n >= 1,
    {
        heap.get(self.slot).rc()
    }

    /// The value in this handle's block.
    pub fn deref<'a>(&self, heap: &'a Heap<ArcInner<T>>) -> (data: &'a T)
        requires
            self.valid(heap),
        ensures
            *data == heap.blocks()[self.slot()].value,
    {
        heap.get(self.slot).data()
    }

    /// Makes one more handle on this handle's block and counts it.
    pub fn clone(&self, heap: &mut Heap<ArcInner<T>>) -> (arc: Arc<T>)
        requires
            self.valid(old(heap)),
            old(heap).blocks()[self.slot()].counter.count < REFCOUNT_LIMIT,
        ensures
            arc.slot() == self.slot(),
            !holds(old(heap).blocks(), self.slot(), arc.id()),
            final(heap).blocks() == acquired(old(heap).blocks(), self.slot(), arc.id()),
            self.valid(final(heap)),
            arc.valid(final(heap)),
    {
        let id = heap.ticket();
        heap.get_mut(self.slot).acquire(id);
        proof {
            assert(final(heap).blocks() =~= acquired(old(heap).blocks(), self.slot(), id@));
            lemma_acquired_bounded(old(heap).blocks(), old(heap).issued(), self.slot());
            lemma_acquired_counted(old(heap).blocks(), self.slot(), id@);
        }
        Arc { slot: self.slot, id, phantom: PhantomData }
    }

    /// Gives this handle up: its block counts one handle less, and is freed if
    /// this was the last.
    pub fn drop(self, heap: &mut Heap<ArcInner<T>>)
        requires
            self.valid(old(heap)),
        ensures
            final(heap).sound(),
            final(heap).blocks() == released(old(heap).blocks(), self.slot(), self.id()),
    {
        let last = heap.get_mut(self.slot).release(self.id);
        if last {
            let _ = heap.free(self.slot);
        }
        proof {
            assert(final(heap).blocks() =~= released(
                old(heap).blocks(),
                self.slot(),
                self.id(),
            ));
            lemma_released_counted(old(heap).blocks(), self.slot(), self.id());
            lemma_released_bounded(
                old(heap).blocks(),
                old(heap).issued(),
                self.slot(),
                self.id(),
            );
        }
    }
}

} // verus!

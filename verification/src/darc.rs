//! The promoted pointer: a handle on the same kind of block as the optimistic
//! pointer's, known to have a synchronized count, and made only by promoting.

use std::marker::PhantomData;
use vstd::prelude::*;
use crate::heap::Heap;
use crate::ledger::{
    acquired, holds, lemma_acquired_bounded, lemma_acquired_counted, lemma_promoted_bounded,
    lemma_promoted_counted, lemma_released_bounded, lemma_released_counted, promoted, released,
};
use crate::parc::{Parc, ParcInner};
use crate::potentially_atomic_usize::REFCOUNT_LIMIT;

verus! {

/// A promoted pointer: one handle on a block whose count is synchronized, so
/// that the handle may be handed to another thread.
pub struct Darc<T> {
    pub(crate) slot: usize,
    pub(crate) id: Ghost<nat>,
    pub(crate) phantom: PhantomData<T>,
}

impl<T> Darc<T> {
    /// The slot of the block this handle refers to.
    pub open(crate) spec fn slot(&self) -> nat {
        self.slot as nat
    }

    /// The ticket by which the block knows this handle.
    pub open(crate) spec fn id(&self) -> nat {
        self.id@
    }

    /// The heap is in order, this handle is one of those its block counts, and
    /// the block's count is synchronized.
    pub open spec fn valid(&self, heap: &Heap<ParcInner<T>>) -> bool {
        &&& heap.sound()
        &&& holds(heap.blocks(), self.slot(), self.id())
        &&& heap.blocks()[self.slot()].counter.synchronized
    }

    /// Promotes the block of `parc` and turns the handle into a promoted one.
    /// It is the same handle: the count does not change.
    pub fn from(parc: Parc<T>, heap: &mut Heap<ParcInner<T>>) -> (darc: Darc<T>)
        requires
            parc.valid(old(heap)),
        ensures
            darc.slot() == parc.slot(),
            darc.id() == parc.id(),
            final(heap).blocks() == promoted(old(heap).blocks(), parc.slot()),
            final(heap).blocks()[parc.slot()].counter.count == old(
                heap,
            ).blocks()[parc.slot()].counter.count,
            darc.valid(final(heap)),
    {
        heap.get_mut(parc.slot).force_atomic();
        proof {
            assert(final(heap).blocks() =~= promoted(old(heap).blocks(), parc.slot()));
            lemma_promoted_counted(old(heap).blocks(), parc.slot());
            lemma_promoted_bounded(old(heap).blocks(), old(heap).issued(), parc.slot());
        }
        Darc { slot: parc.slot, id: parc.id, phantom: PhantomData }
    }

    /// The number of handles, of either kind, on this handle's block.
    pub fn rc(&self, heap: &Heap<ParcInner<T>>) -> (n: usize)
        requires
            self.valid(heap),
        ensures
            n == heap.blocks()[self.slot()].counter.count,
            n == heap.blocks()[self.slot()].owners.len(),
            n >= 1,
    {
        heap.get(self.slot).rc()
    }

    /// Whether this handle's block has been promoted: it has.
    pub fn is_atomic(&self, heap: &Heap<ParcInner<T>>) -> (b: bool)
        requires
            self.valid(heap),
        ensures
            b,
    {
        heap.get(self.slot).is_atomic()
    }

    /// The value in this handle's block.
    pub fn deref<'a>(&self, heap: &'a Heap<ParcInner<T>>) -> (data: &'a T)
        requires
            self.valid(heap),
        ensures
            *data == heap.blocks()[self.slot()].value,
    {
        heap.get(self.slot).data()
    }

    /// Makes one more promoted handle on this handle's block and counts it.
    pub fn clone(&self, heap: &mut Heap<ParcInner<T>>) -> (darc: Darc<T>)
        requires
            self.valid(old(heap)),
            old(heap).blocks()[self.slot()].counter.count < REFCOUNT_LIMIT,
        ensures
            darc.slot() == self.slot(),
            !holds(old(heap).blocks(), self.slot(), darc.id()),
            final(heap).blocks() == acquired(old(heap).blocks(), self.slot(), darc.id()),
            self.valid(final(heap)),
            darc.valid(final(heap)),
    {
        let id = heap.ticket();
        heap.get_mut(self.slot).acquire(id);
        proof {
            assert(final(heap).blocks() =~= acquired(old(heap).blocks(), self.slot(), id@));
            lemma_acquired_bounded(old(heap).blocks(), old(heap).issued(), self.slot());
            lemma_acquired_counted(old(heap).blocks(), self.slot(), id@);
        }
        Darc { slot: self.slot, id, phantom: PhantomData }
    }

    /// Gives this handle up: its block counts one handle less, and is freed if
    /// this was the last.
    pub fn drop(self, heap: &mut Heap<ParcInner<T>>)
        requires
            self.valid(old(heap)),
        ensures
            final(heap).sound(),
            final(heap).blocks() == released(old(heap).blocks(), self.slot(), self.id()),
    {
        let last = heap.get_mut(self.slot).release(self.id);
        if last {
            let _ = heap.free(self.slot);
        }
        proof {
            assert(final(heap).blocks() =~= released(
                old(heap).blocks(),
                self.slot(),
                self.id(),
            ));
            lemma_released_counted(old(heap).blocks(), self.slot(), self.id());
            lemma_released_bounded(
                old(heap).blocks(),
                old(heap).issued(),
                self.slot(),
                self.id(),
            );
        }
    }
}

} // verus!

//! The store that blocks live in: numbered slots, of which a freed one is
//! handed out again, and a run of tickets, so that every handle made for a
//! block of this heap is told apart from every other, past or present.

use vstd::prelude::*;

verus! {

/// A slot store for blocks of type `B`.
///
/// Only the pointer types of this crate allocate, change and free blocks; from
/// outside a heap can be created and asked how many blocks it holds.
pub struct Heap<B> {
    slots: Vec<Option<B>>,
    vacant: Vec<usize>,
    occupied: Ghost<Set<nat>>,
    issued: Ghost<nat>,
}

impl<B> Heap<B> {
    /// The occupied slots, each with the block it holds.
    pub closed spec fn view(&self) -> Map<nat, B> {
        Map::new(
            |slot: nat| slot < self.slots@.len() && self.slots@[slot as int] is Some,
            |slot: nat| self.slots@[slot as int]->0,
        )
    }

    /// The number of tickets handed out so far; every ticket is below it.
    pub closed spec fn issued(&self) -> nat {
        self.issued@
    }

    /// The vacancy list names exactly once each slot it names, all of them
    /// empty, and accounts for every slot that holds no block.
    pub closed spec fn wf(&self) -> bool {
        &&& forall|k: int|
            0 <= k < self.vacant@.len() ==> (#[trigger] self.vacant@[k]) < self.slots@.len()
                && self.slots@[self.vacant@[k] as int] is None
        &&& forall|j: int, k: int|
            0 <= j < k < self.vacant@.len() ==> self.vacant@[j] != self.vacant@[k]
        &&& forall|slot: nat|
            self.occupied@.contains(slot) <==> slot < self.slots@.len()
                && self.slots@[slot as int] is Some
        &&& self.occupied@.finite()
        &&& self.occupied@.len() + self.vacant@.len() == self.slots@.len()
    }

    proof fn lemma_occupied(&self)
        requires
            self.wf(),
        ensures
            self@.dom() == self.occupied@,
    {
        assert(self@.dom() =~= self.occupied@);
    }

    /// An empty heap.
    pub fn new() -> (heap: Self)
        ensures
            heap.wf(),
            heap@ == Map::<nat, B>::empty(),
            heap.issued() == 0,
    {
        let heap = Heap {
            slots: Vec::new(),
            vacant: Vec::new(),
            occupied: Ghost(Set::empty()),
            issued: Ghost(0),
        };
        assert(heap@ =~= Map::<nat, B>::empty());
        heap
    }

    /// The number of occupied slots.
    pub(crate) fn occupancy(&self) -> (n: usize)
        requires
            self.wf(),
        ensures
            n == self@.dom().len(),
    {
        proof {
            self.lemma_occupied();
        }
        self.slots.len() - self.vacant.len()
    }

    /// Hands out the next ticket.
    pub(crate) fn ticket(&mut self) -> (t: Ghost<nat>)
        ensures
            t@ == old(self).issued(),
            final(self).issued() == old(self).issued() + 1,
            final(self)@ == old(self)@,
            old(self).wf() ==> final(self).wf(),
    {
        let t = Ghost(self.issued@);
        self.issued = Ghost((self.issued@ + 1) as nat);
        t
    }

    /// Puts `block` into a slot that held none, a vacated one if there is any.
    pub(crate) fn allocate(&mut self, block: B) -> (slot: usize)
        requires
            old(self).wf(),
        ensures
            final(self).wf(),
            !old(self)@.contains_key(slot as nat),
            final(self)@ == old(self)@.insert(slot as nat, block),
            final(self).issued() == old(self).issued(),
    {
        match self.vacant.pop() {
            Some(slot) => {
                self.slots[slot] = Some(block);
                self.occupied = Ghost(self.occupied@.insert(slot as nat));
                proof {
                    assert(final(self)@ =~= old(self)@.insert(slot as nat, block));
                }
                slot
            },
            None => {
                self.slots.push(Some(block));
                let slot: usize = self.slots.len() - 1;
                self.occupied = Ghost(self.occupied@.insert(slot as nat));
                proof {
                    assert(final(self)@ =~= old(self)@.insert(slot as nat, block));
                }
                slot
            },
        }
    }

    /// Takes the block out of `slot` and marks the slot vacant.
    pub(crate) fn free(&mut self, slot: usize) -> (block: B)
        requires
            old(self).wf(),
            old(self)@.contains_key(slot as nat),
        ensures
            final(self).wf(),
            block == old(self)@[slot as nat],
            final(self)@ == old(self)@.remove(slot as nat),
            final(self).issued() == old(self).issued(),
    {
        let block = self.slots[slot].take().unwrap();
        self.vacant.push(slot);
        self.occupied = Ghost(self.occupied@.remove(slot as nat));
        proof {
            assert(final(self)@ =~= old(self)@.remove(slot as nat));
        }
        block
    }

    /// The block in `slot`.
    pub(crate) fn get(&self, slot: usize) -> (block: &B)
        requires
            self@.contains_key(slot as nat),
        ensures
            *block == self@[slot as nat],
    {
        self.slots[slot].as_ref().unwrap()
    }

    /// The block in `slot`, to be changed in place.
    pub(crate) fn get_mut(&mut self, slot: usize) -> (block: &mut B)
        requires
            old(self)@.contains_key(slot as nat),
        ensures
            *block == old(self)@[slot as nat],
            final(self)@ == old(self)@.insert(slot as nat, *final(block)),
            final(self).issued() == old(self).issued(),
            old(self).wf() ==> final(self).wf(),
    {
        self.slots[slot].as_mut().unwrap()
    }
}

} // verus!

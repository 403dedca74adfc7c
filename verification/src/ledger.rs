//! The mathematical side of the heap: what a block counts and who holds it,
//! and how allocation, cloning, dropping and promotion change that.

use vstd::prelude::*;
use crate::heap::Heap;
use crate::potentially_atomic_usize::CounterState;

verus! {

/// A block as the contracts see it: its counter, the tickets of the handles
/// that refer to it, and the value it carries.
pub struct BlockView<T> {
    pub counter: CounterState,
    pub owners: Set<nat>,
    pub value: T,
}

impl<T> BlockView<T> {
    /// A block just allocated for the handle with ticket `id`.
    pub open spec fn fresh(id: nat, value: T, synchronized: bool) -> BlockView<T> {
        BlockView {
            counter: CounterState { synchronized, count: 1 },
            owners: Set::empty().insert(id),
            value,
        }
    }

    /// The count is the number of handles, and there is at least one.
    pub open spec fn counted(self) -> bool {
        &&& self.owners.finite()
        &&& self.owners.len() == self.counter.count
        &&& self.counter.count >= 1
    }

    /// The block after the handle with ticket `id` was added.
    pub open spec fn acquired(self, id: nat) -> BlockView<T> {
        BlockView {
            counter: self.counter.incremented(),
            owners: self.owners.insert(id),
            value: self.value,
        }
    }

    /// The block after the handle with ticket `id` was given up.
    pub open spec fn released(self, id: nat) -> BlockView<T> {
        BlockView {
            counter: self.counter.decremented(),
            owners: self.owners.remove(id),
            value: self.value,
        }
    }

    /// The block after promotion.
    pub open spec fn promoted(self) -> BlockView<T> {
        BlockView { counter: self.counter.promoted(), owners: self.owners, value: self.value }
    }
}

/// The blocks of a heap by slot.
pub type Ledger<T> = Map<nat, BlockView<T>>;

/// The handle with ticket `id` refers to the block in `slot`, and that block
/// is allocated.
pub open spec fn holds<T>(ledger: Ledger<T>, slot: nat, id: nat) -> bool {
    ledger.contains_key(slot) && ledger[slot].owners.contains(id)
}

/// Every block's count is the number of its handles.
pub open spec fn counted<T>(ledger: Ledger<T>) -> bool {
    forall|slot: nat| #[trigger] ledger.contains_key(slot) ==> ledger[slot].counted()
}

/// Every ticket in the ledger was issued: it lies below `issued`.
pub open spec fn bounded<T>(ledger: Ledger<T>, issued: nat) -> bool {
    forall|slot: nat, id: nat| #[trigger] holds(ledger, slot, id) ==> id < issued
}

/// The ledger after a block for `value` was allocated in `slot`, with one
/// handle, whose ticket is `id`.
pub open spec fn allocated<T>(
    ledger: Ledger<T>,
    slot: nat,
    id: nat,
    value: T,
    synchronized: bool,
) -> Ledger<T> {
    ledger.insert(slot, BlockView::fresh(id, value, synchronized))
}

/// The ledger after the block in `slot` got one more handle, with ticket `id`.
pub open spec fn acquired<T>(ledger: Ledger<T>, slot: nat, id: nat) -> Ledger<T> {
    ledger.insert(slot, ledger[slot].acquired(id))
}

/// The ledger after the handle with ticket `id` on the block in `slot` was
/// dropped: the last handle takes the block with it.
pub open spec fn released<T>(ledger: Ledger<T>, slot: nat, id: nat) -> Ledger<T> {
    if ledger[slot].counter.count == 1 {
        ledger.remove(slot)
    } else {
        ledger.insert(slot, ledger[slot].released(id))
    }
}

/// The ledger after the block in `slot` was promoted.
pub open spec fn promoted<T>(ledger: Ledger<T>, slot: nat) -> Ledger<T> {
    ledger.insert(slot, ledger[slot].promoted())
}

impl<B: View> Heap<B> {
    /// The heap's blocks as the contracts see them.
    pub open spec fn blocks(&self) -> Map<nat, B::V> {
        Map::new(|slot: nat| self@.contains_key(slot), |slot: nat| self@[slot]@)
    }

    /// The number of blocks that are allocated and not yet freed.
    pub fn live(&self) -> (n: usize)
        requires
            self.wf(),
        ensures
            n == self.blocks().dom().len(),
    {
        proof {
            assert(self.blocks().dom() =~= self@.dom());
        }
        self.occupancy()
    }
}

impl<T, B: View<V = BlockView<T>>> Heap<B> {
    /// The heap is in order: its slots are, every count is the number of
    /// handles on its block, and no ticket in it is one still to be issued.
    pub open spec fn sound(&self) -> bool {
        &&& self.wf()
        &&& counted(self.blocks())
        &&& bounded(self.blocks(), self.issued())
    }
}

/// Allocation keeps the counts true: the new block counts its one handle, and
/// no other block changes.
pub proof fn lemma_allocated_counted<T>(
    ledger: Ledger<T>,
    slot: nat,
    id: nat,
    value: T,
    synchronized: bool,
)
    requires
        counted(ledger),
    ensures
        counted(allocated(ledger, slot, id, value, synchronized)),
{
    let after = allocated(ledger, slot, id, value, synchronized);
    assert forall|s: nat| #[trigger] after.contains_key(s) implies after[s].counted() by {
        if s != slot {
            assert(ledger.contains_key(s));
        }
    }
}

/// A clone keeps the counts true, as long as its ticket is new to the block.
pub proof fn lemma_acquired_counted<T>(ledger: Ledger<T>, slot: nat, id: nat)
    requires
        counted(ledger),
        ledger.contains_key(slot),
        !ledger[slot].owners.contains(id),
    ensures
        counted(acquired(ledger, slot, id)),
{
    let after = acquired(ledger, slot, id);
    assert forall|s: nat| #[trigger] after.contains_key(s) implies after[s].counted() by {
        assert(ledger.contains_key(s));
    }
}

/// A drop keeps the counts true: the block counts one handle less, or is gone
/// with its last handle.
pub proof fn lemma_released_counted<T>(ledger: Ledger<T>, slot: nat, id: nat)
    requires
        counted(ledger),
        holds(ledger, slot, id),
    ensures
        counted(released(ledger, slot, id)),
{
    let after = released(ledger, slot, id);
    assert forall|s: nat| #[trigger] after.contains_key(s) implies after[s].counted() by {
        assert(ledger.contains_key(s));
    }
}

/// Of the handles on a block exactly the last one to be dropped frees it.
/// While others are left the block stays, counts one less and has lost only
/// that handle; with the last handle the block goes, and no handle is left
/// that could free it a second time.
pub proof fn lemma_last_drop_frees<T>(ledger: Ledger<T>, slot: nat, id: nat)
    requires
        counted(ledger),
        holds(ledger, slot, id),
    ensures
        ledger[slot].counter.count == 1 <==> ledger[slot].owners == Set::<nat>::empty().insert(id),
        released(ledger, slot, id).contains_key(slot) <==> ledger[slot].counter.count > 1,
        ledger[slot].counter.count > 1 ==> released(ledger, slot, id)[slot]
            == ledger[slot].released(id) && released(ledger, slot, id)[slot].counter.count
            == ledger[slot].counter.count - 1,
        ledger[slot].counter.count == 1 ==> forall|other: nat|
            !holds(released(ledger, slot, id), slot, other),
        forall|s: nat| s != slot ==> (released(ledger, slot, id).contains_key(s)
            <==> #[trigger] ledger.contains_key(s)),
        forall|s: nat| s != slot && ledger.contains_key(s) ==> #[trigger] released(
            ledger,
            slot,
            id,
        )[s] == ledger[s],
{
    let owners = ledger[slot].owners;
    let only = Set::<nat>::empty().insert(id);
    if ledger[slot].counter.count == 1 {
        assert(owners.remove(id).len() == 0);
        assert(owners.remove(id) =~= Set::<nat>::empty());
        assert(owners =~= only);
    }
    if owners == only {
        assert(only.len() == 1);
    }
}

/// Promotion keeps the counts true.
pub proof fn lemma_promoted_counted<T>(ledger: Ledger<T>, slot: nat)
    requires
        counted(ledger),
        ledger.contains_key(slot),
    ensures
        counted(promoted(ledger, slot)),
{
    let after = promoted(ledger, slot);
    assert forall|s: nat| #[trigger] after.contains_key(s) implies after[s].counted() by {
        assert(ledger.contains_key(s));
    }
}

/// The next ticket is new to every block, and a block allocated for it leaves
/// the ledger below the ticket that follows.
pub proof fn lemma_allocated_bounded<T>(
    ledger: Ledger<T>,
    issued: nat,
    slot: nat,
    value: T,
    synchronized: bool,
)
    requires
        bounded(ledger, issued),
    ensures
        !holds(ledger, slot, issued),
        bounded(allocated(ledger, slot, issued, value, synchronized), issued + 1),
{
    if holds(ledger, slot, issued) {
        assert(issued < issued);
    }
    let after = allocated(ledger, slot, issued, value, synchronized);
    assert forall|s: nat, id: nat| #[trigger] holds(after, s, id) implies id < issued + 1 by {
        if s != slot {
            assert(holds(ledger, s, id));
        }
    }
}

/// The next ticket is new to every block, and a clone made with it leaves the
/// ledger below the ticket that follows.
pub proof fn lemma_acquired_bounded<T>(ledger: Ledger<T>, issued: nat, slot: nat)
    requires
        bounded(ledger, issued),
        ledger.contains_key(slot),
    ensures
        !holds(ledger, slot, issued),
        bounded(acquired(ledger, slot, issued), issued + 1),
{
    if holds(ledger, slot, issued) {
        assert(issued < issued);
    }
    let after = acquired(ledger, slot, issued);
    assert forall|s: nat, id: nat| #[trigger] holds(after, s, id) implies id < issued + 1 by {
        if !(s == slot && id == issued) {
            assert(holds(ledger, s, id));
        }
    }
}

/// A drop brings no ticket into the ledger.
pub proof fn lemma_released_bounded<T>(ledger: Ledger<T>, issued: nat, slot: nat, id: nat)
    requires
        bounded(ledger, issued),
        ledger.contains_key(slot),
    ensures
        bounded(released(ledger, slot, id), issued),
{
    let after = released(ledger, slot, id);
    assert forall|s: nat, i: nat| #[trigger] holds(after, s, i) implies i < issued by {
        assert(holds(ledger, s, i));
    }
}

/// Promotion brings no ticket into the ledger.
pub proof fn lemma_promoted_bounded<T>(ledger: Ledger<T>, issued: nat, slot: nat)
    requires
        bounded(ledger, issued),
        ledger.contains_key(slot),
    ensures
        bounded(promoted(ledger, slot), issued),
{
    let after = promoted(ledger, slot);
    assert forall|s: nat, i: nat| #[trigger] holds(after, s, i) implies i < issued by {
        assert(holds(ledger, s, i));
    }
}

} // verus!

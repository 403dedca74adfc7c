//! What holds over every sequence of operations on a heap, in whatever order
//! the handles' owners happen to make them.

use vstd::prelude::*;
use crate::ledger::{
    acquired, allocated, counted, holds, lemma_acquired_counted, lemma_allocated_counted,
    lemma_promoted_counted, lemma_released_counted, promoted, released, Ledger,
};

verus! {

/// One operation of a pointer, as the ledger sees it. What a step asks of the
/// ledger and what it does to it are what the pointers' contracts say of the
/// operation: they are written with the same functions.
pub enum Step<T> {
    /// `new` of a pointer: a block for `value` in `slot`, with the one handle
    /// `id`; synchronized for the baseline pointer, plain for the optimistic.
    Allocate { slot: nat, id: nat, value: T, synchronized: bool },
    /// `clone` of a pointer: the block in `slot` gets the handle `id`.
    Acquire { slot: nat, id: nat },
    /// `drop` of a pointer: the block in `slot` loses the handle `id`.
    Release { slot: nat, id: nat },
    /// The conversion of a handle on the block in `slot` to the promoted
    /// pointer. The conversion back is no step: it leaves the ledger alone.
    Promote { slot: nat },
}

impl<T> Step<T> {
    /// The slot the step works on.
    pub open spec fn slot(self) -> nat {
        match self {
            Step::Allocate { slot, .. } => slot,
            Step::Acquire { slot, .. } => slot,
            Step::Release { slot, .. } => slot,
            Step::Promote { slot } => slot,
        }
    }

    /// The step can be taken: this is what the operation asks of the ledger
    /// before it.
    pub open spec fn enabled(self, ledger: Ledger<T>) -> bool {
        match self {
            Step::Allocate { slot, .. } => !ledger.contains_key(slot),
            Step::Acquire { slot, id } => ledger.contains_key(slot) && !holds(ledger, slot, id),
            Step::Release { slot, id } => holds(ledger, slot, id),
            Step::Promote { slot } => ledger.contains_key(slot),
        }
    }

    /// The ledger after the step.
    pub open spec fn apply(self, ledger: Ledger<T>) -> Ledger<T> {
        match self {
            Step::Allocate { slot, id, value, synchronized } => allocated(
                ledger,
                slot,
                id,
                value,
                synchronized,
            ),
            Step::Acquire { slot, id } => acquired(ledger, slot, id),
            Step::Release { slot, id } => released(ledger, slot, id),
            Step::Promote { slot } => promoted(ledger, slot),
        }
    }
}

/// The ledger after `steps`, taken in order.
pub open spec fn run<T>(ledger: Ledger<T>, steps: Seq<Step<T>>) -> Ledger<T>
    decreases steps.len(),
{
    if steps.len() == 0 {
        ledger
    } else {
        steps.last().apply(run(ledger, steps.drop_last()))
    }
}

/// Each of `steps` can be taken when its turn comes.
pub open spec fn feasible<T>(ledger: Ledger<T>, steps: Seq<Step<T>>) -> bool
    decreases steps.len(),
{
    steps.len() == 0 || (feasible(ledger, steps.drop_last()) && steps.last().enabled(
        run(ledger, steps.drop_last()),
    ))
}

/// The block in `slot` is allocated before `steps` and after each of them: it
/// is one block throughout.
pub open spec fn survives<T>(ledger: Ledger<T>, steps: Seq<Step<T>>, slot: nat) -> bool
    decreases steps.len(),
{
    if steps.len() == 0 {
        ledger.contains_key(slot)
    } else {
        survives(ledger, steps.drop_last(), slot) && run(ledger, steps).contains_key(slot)
    }
}

/// The number of clones that `steps` make on the block in `slot`.
pub open spec fn clones<T>(steps: Seq<Step<T>>, slot: nat) -> nat
    decreases steps.len(),
{
    if steps.len() == 0 {
        0
    } else {
        clones(steps.drop_last(), slot) + if steps.last() is Acquire && steps.last().slot()
            == slot {
            1nat
        } else {
            0nat
        }
    }
}

/// The number of drops that `steps` make on the block in `slot`.
pub open spec fn drops<T>(steps: Seq<Step<T>>, slot: nat) -> nat
    decreases steps.len(),
{
    if steps.len() == 0 {
        0
    } else {
        drops(steps.drop_last(), slot) + if steps.last() is Release && steps.last().slot()
            == slot {
            1nat
        } else {
            0nat
        }
    }
}

/// None of `steps` drops the handle `id` on the block in `slot`.
pub open spec fn keeps<T>(steps: Seq<Step<T>>, slot: nat, id: nat) -> bool {
    forall|k: int|
        0 <= k < steps.len() ==> #[trigger] steps[k] != (Step::<T>::Release { slot, id })
}

/// A block that lives through `steps` is allocated after them.
pub proof fn lemma_survivor_is_allocated<T>(ledger: Ledger<T>, steps: Seq<Step<T>>, slot: nat)
    requires
        survives(ledger, steps, slot),
    ensures
        run(ledger, steps).contains_key(slot),
{
}

/// One step keeps the counts true.
pub proof fn lemma_step_counted<T>(ledger: Ledger<T>, step: Step<T>)
    requires
        counted(ledger),
        step.enabled(ledger),
    ensures
        counted(step.apply(ledger)),
{
    match step {
        Step::Allocate { slot, id, value, synchronized } => {
            lemma_allocated_counted(ledger, slot, id, value, synchronized);
        },
        Step::Acquire { slot, id } => {
            lemma_acquired_counted(ledger, slot, id);
        },
        Step::Release { slot, id } => {
            lemma_released_counted(ledger, slot, id);
        },
        Step::Promote { slot } => {
            lemma_promoted_counted(ledger, slot);
        },
    }
}

/// However the operations follow one another, every block's count stays the
/// number of handles on it.
pub proof fn lemma_run_counted<T>(ledger: Ledger<T>, steps: Seq<Step<T>>)
    requires
        counted(ledger),
        feasible(ledger, steps),
    ensures
        counted(run(ledger, steps)),
    decreases steps.len(),
{
    if steps.len() > 0 {
        lemma_run_counted(ledger, steps.drop_last());
        lemma_step_counted(run(ledger, steps.drop_last()), steps.last());
    }
}

/// A handle stays good until it is dropped itself: whatever else is cloned,
/// dropped, promoted or allocated, its block is still there, still counts it,
/// still carries the value it was made with, and is still synchronized if it
/// was.
pub proof fn lemma_handle_outlives_others<T>(
    ledger: Ledger<T>,
    steps: Seq<Step<T>>,
    slot: nat,
    id: nat,
)
    requires
        counted(ledger),
        feasible(ledger, steps),
        holds(ledger, slot, id),
        keeps(steps, slot, id),
    ensures
        holds(run(ledger, steps), slot, id),
        run(ledger, steps)[slot].value == ledger[slot].value,
        ledger[slot].counter.synchronized ==> run(ledger, steps)[slot].counter.synchronized,
        survives(ledger, steps, slot),
    decreases steps.len(),
{
    if steps.len() > 0 {
        let before = steps.drop_last();
        let dropped = Step::<T>::Release { slot, id };
        assert forall|k: int| 0 <= k < before.len() implies #[trigger] before[k] != dropped by {
            assert(before[k] == steps[k]);
        }
        lemma_handle_outlives_others(ledger, before, slot, id);
        lemma_run_counted(ledger, before);
        let mid = run(ledger, before);
        assert(mid[slot].counted());
        assert(steps.last() == steps[steps.len() - 1]);
        match steps.last() {
            Step::Release { slot: s, id: i } => {
                if s == slot {
                    assert(i != id);
                    assert(mid[slot].owners.contains(i));
                    assert(mid[slot].owners.remove(i).contains(id));
                    assert(mid[slot].owners.remove(i).len() >= 1);
                }
            },
            _ => {},
        }
    }
}

/// Promotion is for good: a block that is synchronized stays so for as long
/// as it lives, whatever is done to the heap and whichever kind of pointer
/// its handles are turned into.
pub proof fn lemma_promotion_is_permanent<T>(ledger: Ledger<T>, steps: Seq<Step<T>>, slot: nat)
    requires
        feasible(ledger, steps),
        survives(ledger, steps, slot),
        ledger[slot].counter.synchronized,
    ensures
        run(ledger, steps)[slot].counter.synchronized,
    decreases steps.len(),
{
    if steps.len() > 0 {
        let before = steps.drop_last();
        lemma_promotion_is_permanent(ledger, before, slot);
        lemma_survivor_is_allocated(ledger, before, slot);
    }
}

/// No update is lost and none is counted twice: after any sequence of
/// operations that the block in `slot` lives through, in whatever order the
/// threads' clones and drops came, its count is the count before, plus the
/// clones, minus the drops.
pub proof fn lemma_count_is_clones_less_drops<T>(
    ledger: Ledger<T>,
    steps: Seq<Step<T>>,
    slot: nat,
)
    requires
        counted(ledger),
        feasible(ledger, steps),
        survives(ledger, steps, slot),
    ensures
        run(ledger, steps)[slot].counter.count == ledger[slot].counter.count + clones(steps, slot)
            - drops(steps, slot),
    decreases steps.len(),
{
    if steps.len() > 0 {
        let before = steps.drop_last();
        lemma_count_is_clones_less_drops(ledger, before, slot);
        lemma_run_counted(ledger, before);
        lemma_survivor_is_allocated(ledger, before, slot);
        assert(run(ledger, before)[slot].counted());
    }
}

} // verus!

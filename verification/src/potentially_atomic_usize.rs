//! The counter abstraction: one logical reference count in one of two
//! disciplines, plain or synchronized, with a one-way passage from the first
//! to the second.

use vstd::prelude::*;

verus! {

/// What a counter stands for: the discipline it is under and the number it
/// holds.
pub struct CounterState {
    pub synchronized: bool,
    pub count: nat,
}

impl CounterState {
    /// The counter after one more reference was taken.
    pub open spec fn incremented(self) -> CounterState {
        CounterState { synchronized: self.synchronized, count: self.count + 1 }
    }

    /// The counter after one reference was given up.
    pub open spec fn decremented(self) -> CounterState {
        CounterState { synchronized: self.synchronized, count: (self.count - 1) as nat }
    }

    /// The counter after promotion: synchronized, with the number it had.
    pub open spec fn promoted(self) -> CounterState {
        CounterState { synchronized: true, count: self.count }
    }
}

/// Promotion leaves the number alone, and a second promotion changes nothing.
pub proof fn lemma_promotion_keeps_the_count(counter: CounterState)
    ensures
        counter.promoted().synchronized,
        counter.promoted().count == counter.count,
        counter.promoted().promoted() == counter.promoted(),
        counter.synchronized ==> counter.promoted() == counter,
{
}

/// A pointer-sized count may be incremented only while it is below this, the
/// largest signed count of the platform.
pub const REFCOUNT_LIMIT: usize = isize::MAX as usize;

/// A 32-bit count may be incremented only while it is below this, the largest
/// signed 32-bit count.
pub const COUNTER_LIMIT: u32 = 0x7fff_ffff;

/// A 32-bit reference count that is either synchronized or not.
///
/// The heap that holds a counter is reached through `&mut`, so whoever changes
/// a counter has it to itself; the variant records which discipline the block
/// is under, and only [`promote`](Self::promote) changes it.
#[derive(Debug)]
pub enum PotentiallyAtomicCounter {
    Atomic(u32),
    NonAtomic(u32),
}

impl View for PotentiallyAtomicCounter {
    type V = CounterState;

    open spec fn view(&self) -> CounterState {
        match self {
            PotentiallyAtomicCounter::Atomic(n) => CounterState {
                synchronized: true,
                count: *n as nat,
            },
            PotentiallyAtomicCounter::NonAtomic(n) => CounterState {
                synchronized: false,
                count: *n as nat,
            },
        }
    }
}

impl PotentiallyAtomicCounter {
    /// A counter that holds `x` and is not synchronized.
    pub fn new_nonatomic(x: u32) -> (counter: Self)
        ensures
            counter == PotentiallyAtomicCounter::NonAtomic(x),
            counter@ == (CounterState { synchronized: false, count: x as nat }),
    {
        PotentiallyAtomicCounter::NonAtomic(x)
    }

    /// A counter that holds `x` and is synchronized.
    pub fn new_atomic(x: u32) -> (counter: Self)
        ensures
            counter == PotentiallyAtomicCounter::Atomic(x),
            counter@ == (CounterState { synchronized: true, count: x as nat }),
    {
        PotentiallyAtomicCounter::Atomic(x)
    }

    /// The number the counter holds.
    pub fn copy_u32(&self) -> (n: u32)
        ensures
            n == self@.count,
    {
        match self {
            PotentiallyAtomicCounter::Atomic(atomic) => *atomic,
            PotentiallyAtomicCounter::NonAtomic(nonatomic) => *nonatomic,
        }
    }

    /// Whether the counter is synchronized.
    pub fn is_atomic(&self) -> (b: bool)
        ensures
            b == self@.synchronized,
    {
        match self {
            PotentiallyAtomicCounter::Atomic(_) => true,
            PotentiallyAtomicCounter::NonAtomic(_) => false,
        }
    }

    /// Makes the counter synchronized and keeps its number; a synchronized
    /// counter is left as it is.
    pub fn promote(&mut self)
        ensures
            final(self)@ == old(self)@.promoted(),
    {
        let n: u32 = self.copy_u32();
        *self = PotentiallyAtomicCounter::Atomic(n);
    }

    /// Counts one more reference, in whichever discipline the counter is
    /// under.
    pub fn increment(&mut self)
        requires
            old(self)@.count < COUNTER_LIMIT,
        ensures
            final(self)@ == old(self)@.incremented(),
    {
        match self {
            PotentiallyAtomicCounter::Atomic(atomic) => {
                *atomic = *atomic + 1;
            },
            PotentiallyAtomicCounter::NonAtomic(nonatomic) => {
                *nonatomic = *nonatomic + 1;
            },
        }
    }

    /// Counts one reference less and says whether none is left.
    pub fn decrement(&mut self) -> (last: bool)
        requires
            old(self)@.count >= 1,
        ensures
            final(self)@ == old(self)@.decremented(),
            last == (old(self)@.count == 1),
    {
        match self {
            PotentiallyAtomicCounter::Atomic(atomic) => {
                *atomic = *atomic - 1;
                *atomic == 0
            },
            PotentiallyAtomicCounter::NonAtomic(nonatomic) => {
                *nonatomic = *nonatomic - 1;
                *nonatomic == 0
            },
        }
    }
}

} // verus!

use parc::parc::PotentiallyAtomicUsize;
use parc::potentially_atomic_usize::{PotentiallyAtomicCounter, COUNTER_LIMIT, REFCOUNT_LIMIT};

#[test]
fn limits_are_the_largest_signed_counts() {
    assert_eq!(COUNTER_LIMIT, i32::MAX as u32);
    assert_eq!(COUNTER_LIMIT, 2147483647);
    assert_eq!(REFCOUNT_LIMIT, isize::MAX as usize);
}

#[test]
fn counter_new_nonatomic_holds_the_number() {
    let counter = PotentiallyAtomicCounter::new_nonatomic(5);
    assert_eq!(counter.copy_u32(), 5);
    assert!(!counter.is_atomic());
    assert!(matches!(counter, PotentiallyAtomicCounter::NonAtomic(5)));
}

#[test]
fn counter_new_atomic_holds_the_number() {
    let counter = PotentiallyAtomicCounter::new_atomic(9);
    assert_eq!(counter.copy_u32(), 9);
    assert!(counter.is_atomic());
    assert!(matches!(counter, PotentiallyAtomicCounter::Atomic(9)));
}

#[test]
fn counter_promote_keeps_the_number() {
    let mut counter = PotentiallyAtomicCounter::new_nonatomic(3);
    counter.promote();
    assert!(counter.is_atomic());
    assert_eq!(counter.copy_u32(), 3);
}

#[test]
fn counter_promote_twice_is_promote_once() {
    let mut counter = PotentiallyAtomicCounter::new_nonatomic(4);
    counter.promote();
    counter.promote();
    assert!(counter.is_atomic());
    assert_eq!(counter.copy_u32(), 4);
    let mut born_atomic = PotentiallyAtomicCounter::new_atomic(0);
    born_atomic.promote();
    assert!(born_atomic.is_atomic());
    assert_eq!(born_atomic.copy_u32(), 0);
}

#[test]
fn counter_increment_in_both_disciplines() {
    let mut plain = PotentiallyAtomicCounter::new_nonatomic(1);
    plain.increment();
    assert_eq!(plain.copy_u32(), 2);
    assert!(!plain.is_atomic());
    let mut synchronized = PotentiallyAtomicCounter::new_atomic(1);
    synchronized.increment();
    assert_eq!(synchronized.copy_u32(), 2);
    assert!(synchronized.is_atomic());
}

#[test]
fn counter_increment_up_to_the_limit() {
    let mut counter = PotentiallyAtomicCounter::new_nonatomic(COUNTER_LIMIT - 1);
    counter.increment();
    assert_eq!(counter.copy_u32(), COUNTER_LIMIT);
    let mut synchronized = PotentiallyAtomicCounter::new_atomic(COUNTER_LIMIT - 1);
    synchronized.increment();
    assert_eq!(synchronized.copy_u32(), 2147483647);
}

#[test]
fn counter_decrement_tells_the_last() {
    let mut plain = PotentiallyAtomicCounter::new_nonatomic(2);
    assert!(!plain.decrement());
    assert_eq!(plain.copy_u32(), 1);
    assert!(plain.decrement());
    assert_eq!(plain.copy_u32(), 0);
    let mut synchronized = PotentiallyAtomicCounter::new_atomic(2);
    assert!(!synchronized.decrement());
    assert_eq!(synchronized.copy_u32(), 1);
    assert!(synchronized.decrement());
    assert_eq!(synchronized.copy_u32(), 0);
    assert!(synchronized.is_atomic());
}

#[test]
fn counter_promotion_in_the_middle_of_counting() {
    let mut counter = PotentiallyAtomicCounter::new_nonatomic(1);
    counter.increment();
    counter.increment();
    counter.promote();
    counter.increment();
    assert!(!counter.decrement());
    assert_eq!(counter.copy_u32(), 3);
    assert!(counter.is_atomic());
}

#[test]
fn usize_new_nonatomic_holds_the_number() {
    let counter = PotentiallyAtomicUsize::new_nonatomic(5);
    assert_eq!(counter.copy_usize(), 5);
    assert!(!counter.is_atomic());
    assert!(matches!(counter, PotentiallyAtomicUsize::NonAtomic(5)));
}

#[test]
fn usize_new_atomic_holds_the_number() {
    let counter = PotentiallyAtomicUsize::new_atomic(9);
    assert_eq!(counter.copy_usize(), 9);
    assert!(counter.is_atomic());
    assert!(matches!(counter, PotentiallyAtomicUsize::Atomic(9)));
}

#[test]
fn usize_promote_keeps_the_number() {
    let mut counter = PotentiallyAtomicUsize::new_nonatomic(3);
    counter.promote();
    assert!(counter.is_atomic());
    assert_eq!(counter.copy_usize(), 3);
    counter.promote();
    assert!(counter.is_atomic());
    assert_eq!(counter.copy_usize(), 3);
}

#[test]
fn usize_increment_and_decrement() {
    let mut plain = PotentiallyAtomicUsize::new_nonatomic(1);
    plain.increment();
    assert_eq!(plain.copy_usize(), 2);
    assert!(!plain.decrement());
    assert!(plain.decrement());
    assert_eq!(plain.copy_usize(), 0);
    assert!(!plain.is_atomic());
    let mut synchronized = PotentiallyAtomicUsize::new_atomic(1);
    synchronized.increment();
    assert_eq!(synchronized.copy_usize(), 2);
    assert!(!synchronized.decrement());
    assert!(synchronized.decrement());
    assert_eq!(synchronized.copy_usize(), 0);
    assert!(synchronized.is_atomic());
}

#[test]
fn usize_increment_up_to_the_limit() {
    let mut counter = PotentiallyAtomicUsize::new_atomic(REFCOUNT_LIMIT - 1);
    counter.increment();
    assert_eq!(counter.copy_usize(), REFCOUNT_LIMIT);
    let mut plain = PotentiallyAtomicUsize::new_nonatomic(REFCOUNT_LIMIT - 1);
    plain.increment();
    assert_eq!(plain.copy_usize(), isize::MAX as usize);
}

#[test]
fn counters_print_their_variant() {
    assert_eq!(format!("{:?}", PotentiallyAtomicCounter::new_nonatomic(1)), "NonAtomic(1)");
    assert_eq!(format!("{:?}", PotentiallyAtomicUsize::new_atomic(2)), "Atomic(2)");
}

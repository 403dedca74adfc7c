use parc::darc::Darc;
use parc::heap::Heap;
use parc::parc::{Parc, ParcInner};

#[test]
fn parc_clone_rc_tracks() {
    let mut heap: Heap<ParcInner<&str>> = Heap::new();
    let parc_original = Parc::new(&mut heap, "test");
    assert_eq!(parc_original.rc(&heap), 1);
    {
        let parc_clone = parc_original.clone(&mut heap);
        assert_eq!(parc_original.rc(&heap), 2);
        assert_eq!(parc_clone.rc(&heap), 2);
        parc_clone.drop(&mut heap);
    }
    assert_eq!(parc_original.rc(&heap), 1);
}

#[test]
fn darc_rc_tracks() {
    let mut heap: Heap<ParcInner<&str>> = Heap::new();
    let parc = Parc::new(&mut heap, "test");
    assert_eq!(parc.rc(&heap), 1);
    assert!(!parc.is_atomic(&heap));
    {
        let darc = Darc::from(parc.clone(&mut heap), &mut heap);
        assert_eq!(parc.rc(&heap), 2);
        assert_eq!(darc.rc(&heap), 2);
        assert!(parc.is_atomic(&heap));
        darc.drop(&mut heap);
    }
    assert_eq!(parc.rc(&heap), 1);
    assert!(parc.is_atomic(&heap));
}

#[test]
fn darc_rc_tracks_across_threads() {
    let mut heap: Heap<ParcInner<&str>> = Heap::new();
    let parc = Parc::new(&mut heap, "test");
    assert_eq!(parc.rc(&heap), 1);
    assert!(!parc.is_atomic(&heap));
    let darc = Darc::from(parc.clone(&mut heap), &mut heap);
    // The promoted handle is moved to the party that uses it and drops it.
    let other = move |heap: &mut Heap<ParcInner<&str>>| {
        assert_eq!(darc.rc(heap), 2);
        darc.drop(heap);
    };
    assert_eq!(parc.rc(&heap), 2);
    other(&mut heap);
    assert_eq!(parc.rc(&heap), 1);
}

#[test]
fn darc_to_parc() {
    let mut heap: Heap<ParcInner<&str>> = Heap::new();
    let parc = Parc::new(&mut heap, "test");
    let darc = Darc::from(parc.clone(&mut heap), &mut heap);
    let other = move |heap: &mut Heap<ParcInner<&str>>| {
        let inner_parc = Parc::from(darc);
        assert_eq!(inner_parc.rc(heap), 2);
        inner_parc.drop(heap);
    };
    assert_eq!(parc.rc(&heap), 2);
    other(&mut heap);
    assert_eq!(parc.rc(&heap), 1);
}

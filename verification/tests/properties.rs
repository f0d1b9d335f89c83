use somr::Heap;
use somr::Release;
use somr::Somr;
use somr::Weak;
use std::cell::Cell;

struct CountedDrop<'a>(&'a Cell<u32>);

impl<'a> Drop for CountedDrop<'a> {
    fn drop(&mut self) {
        self.0.set(self.0.get() + 1);
    }
}

#[test]
fn borrow_reads_owned_value() {
    let mut heap: Heap<u64> = Heap::new(true);
    let owner = Somr::new(&mut heap, 7u64);
    assert_eq!(*Somr::borrow(&owner, &heap), 7);
    assert_eq!(Somr::unwrap(owner, &mut heap), 7);
}

#[test]
fn try_get_clones_while_alive() {
    let mut heap: Heap<Vec<u8>> = Heap::new(true);
    let owner = Somr::new(&mut heap, vec![1u8, 2, 3]);
    let weak = Somr::to_weak(&owner, &mut heap);
    assert_eq!(
        Weak::try_get(&weak, &heap, |x| x.clone()),
        Some(vec![1u8, 2, 3])
    );
    Somr::destroy(owner, &mut heap);
    Weak::destroy(weak, &mut heap);
    assert_eq!(heap.allocated_count(), 0);
}

#[test]
fn weak_present_then_absent() {
    let mut heap: Heap<u64> = Heap::new(true);
    let owner = Somr::new(&mut heap, 42u64);
    let weak = Somr::to_weak(&owner, &mut heap);
    assert_eq!(Weak::try_get(&weak, &heap, |x| *x), Some(42));
    assert!(!Weak::is_dropped(&weak, &heap));
    Somr::destroy(owner, &mut heap);
    assert_eq!(Weak::try_get(&weak, &heap, |x| *x), None);
    assert!(Weak::is_dropped(&weak, &heap));
    Weak::destroy(weak, &mut heap);
}

#[test]
fn owner_then_weak_drop_no_leak() {
    let mut heap: Heap<String> = Heap::new(true);
    let owner = Somr::new(&mut heap, String::from("payload"));
    let weak = Somr::to_weak(&owner, &mut heap);
    assert_eq!(heap.allocated_count(), 1);
    Somr::destroy(owner, &mut heap);
    assert_eq!(heap.allocated_count(), 1);
    assert!(Weak::is_dropped(&weak, &heap));
    Weak::destroy(weak, &mut heap);
    assert_eq!(heap.allocated_count(), 0);
}

#[test]
fn interleaved_weaks_free_once_after_last() {
    let drops = Cell::new(0u32);
    let mut heap: Heap<CountedDrop> = Heap::new(true);
    let owner = Somr::new(&mut heap, CountedDrop(&drops));
    let w1 = Somr::to_weak(&owner, &mut heap);
    let w2 = Somr::to_weak(&owner, &mut heap);
    let w3 = Somr::to_weak(&owner, &mut heap);
    assert_eq!(heap.allocated_count(), 1);
    Weak::destroy(w2, &mut heap);
    assert_eq!(heap.allocated_count(), 1);
    assert_eq!(drops.get(), 0);
    Somr::destroy(owner, &mut heap);
    assert_eq!(drops.get(), 1);
    assert_eq!(heap.allocated_count(), 1);
    Weak::destroy(w1, &mut heap);
    assert_eq!(heap.allocated_count(), 1);
    Weak::destroy(w3, &mut heap);
    assert_eq!(heap.allocated_count(), 0);
    assert_eq!(drops.get(), 1);
}

#[test]
fn weaks_gone_before_owner_free_at_owner() {
    let drops = Cell::new(0u32);
    let mut heap: Heap<CountedDrop> = Heap::new(true);
    let owner = Somr::new(&mut heap, CountedDrop(&drops));
    let w1 = Somr::to_weak(&owner, &mut heap);
    let w2 = Somr::to_weak(&owner, &mut heap);
    Weak::destroy(w1, &mut heap);
    Weak::destroy(w2, &mut heap);
    assert_eq!(heap.allocated_count(), 1);
    assert_eq!(drops.get(), 0);
    Somr::destroy(owner, &mut heap);
    assert_eq!(heap.allocated_count(), 0);
    assert_eq!(drops.get(), 1);
}

#[test]
fn unwrap_with_weak_alive() {
    let mut heap: Heap<String> = Heap::new(true);
    let owner = Somr::new(&mut heap, String::from("payload"));
    let weak = Somr::to_weak(&owner, &mut heap);
    let v = Somr::unwrap(owner, &mut heap);
    assert_eq!(v, "payload");
    assert!(Weak::is_dropped(&weak, &heap));
    assert_eq!(heap.allocated_count(), 1);
    Weak::destroy(weak, &mut heap);
    assert_eq!(heap.allocated_count(), 0);
}

#[test]
fn shrink_unsupported_changes_nothing_observable() {
    let mut heap: Heap<String> = Heap::new(false);
    let owner = Somr::new(&mut heap, String::from("payload"));
    let weak = Somr::to_weak(&owner, &mut heap);
    Somr::destroy(owner, &mut heap);
    assert!(Weak::is_dropped(&weak, &heap));
    assert_eq!(Weak::try_get(&weak, &heap, |x| x.clone()), None);
    assert_eq!(heap.allocated_count(), 1);
    Weak::destroy(weak, &mut heap);
    assert_eq!(heap.allocated_count(), 0);
}

#[test]
fn release_gate_holds_while_referenced() {
    let mut heap: Heap<u64> = Heap::new(true);
    let id = heap.allocate(9);
    assert!(matches!(
        heap.release_if_fully_dead(id),
        Release::StillReferenced
    ));
    assert!(matches!(
        heap.release_if_fully_dead(id),
        Release::StillReferenced
    ));
    assert_eq!(heap.allocated_count(), 1);
}

#[test]
fn two_blocks_are_independent() {
    let mut heap: Heap<u64> = Heap::new(true);
    let first = Somr::new(&mut heap, 1u64);
    let second = Somr::new(&mut heap, 2u64);
    let watcher = Somr::to_weak(&second, &mut heap);
    assert_eq!(heap.allocated_count(), 2);
    assert_eq!(Somr::unwrap(first, &mut heap), 1);
    assert_eq!(heap.allocated_count(), 1);
    assert_eq!(Weak::try_get(&watcher, &heap, |x| *x), Some(2));
    Somr::destroy(second, &mut heap);
    Weak::destroy(watcher, &mut heap);
    assert_eq!(heap.allocated_count(), 0);
}

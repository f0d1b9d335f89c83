use somr::Heap;
use somr::Somr;
use somr::Weak;
use std::cell::Cell;

#[derive(Debug)]
struct NoisyDrop<'a>(&'a Cell<bool>);

impl<'a> Drop for NoisyDrop<'a> {
    fn drop(&mut self) {
        self.0.set(true);
    }
}

#[test]
fn can_unwrap() {
    let mut heap: Heap<String> = Heap::new(true);
    let somr = Somr::new(&mut heap, "Hello!".to_owned());

    assert_eq!(Somr::unwrap(somr, &mut heap), "Hello!");
}

#[test]
fn can_make_weak() {
    let mut heap: Heap<String> = Heap::new(true);
    let somr = Somr::new(&mut heap, "Hello!".to_owned());

    let weak = Somr::to_weak(&somr, &mut heap);

    assert_eq!(
        Weak::try_get(&weak, &heap, |a| a.to_owned()),
        Some(format!("Hello!"))
    );
}

#[test]
fn owner_dropped_before_weak() {
    let mut heap: Heap<String> = Heap::new(true);
    let weak = {
        let owner = Somr::new(&mut heap, "Hello!".to_owned());
        let weak = Somr::to_weak(&owner, &mut heap);
        Somr::destroy(owner, &mut heap);
        weak
    };

    assert!(Weak::is_dropped(&weak, &heap));
}

#[test]
fn destructor_run_when_owner_dropped() {
    let been_dropped = Cell::new(false);
    let noisy_drop = NoisyDrop(&been_dropped);
    let mut heap: Heap<NoisyDrop> = Heap::new(true);
    let weak = {
        let owner = Somr::new(&mut heap, noisy_drop);
        let weak = Somr::to_weak(&owner, &mut heap);
        Somr::destroy(owner, &mut heap);
        weak
    };

    assert!(been_dropped.get());
    assert!(Weak::is_dropped(&weak, &heap));
}

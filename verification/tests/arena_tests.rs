use htmlparse::arena::{Arena, ArenaError};

#[test]
fn add_then_get_resolves() {
    let mut arena: Arena<u32> = Arena::new();
    let h = arena.add(41);
    assert_eq!(arena.get(h), Some(&41));
    let h2 = arena.add(42);
    assert_ne!(h, h2);
    assert_eq!(arena.get(h2), Some(&42));
}

#[test]
fn get_mut_rewrites_in_place() {
    let mut arena: Arena<u32> = Arena::new();
    let h = arena.add(1);
    if let Some(v) = arena.get_mut(h) {
        *v = 9;
    }
    assert_eq!(arena.get(h), Some(&9));
}

#[test]
fn removed_handle_stays_absent_until_new_add() {
    let mut arena: Arena<u32> = Arena::new();
    let h0 = arena.add(10);
    let h1 = arena.add(11);
    assert_eq!(arena.remove(h0), Ok(()));
    // Absent now, and still absent after unrelated operations.
    assert_eq!(arena.get(h0), None);
    assert_eq!(arena.remove(h1), Ok(()));
    assert_eq!(arena.get(h0), None);
    assert_eq!(arena.get(h1), None);
    // Only a fresh add may revive the slot, reusing the newest freed handle.
    let h2 = arena.add(20);
    assert_eq!(h2, h1);
    assert_eq!(arena.get(h0), None);
    let h3 = arena.add(30);
    assert_eq!(h3, h0);
    assert_eq!(arena.get(h0), Some(&30));
}

#[test]
fn remove_out_of_bounds_is_refused() {
    let mut arena: Arena<u32> = Arena::new();
    let h = arena.add(5);
    assert_eq!(arena.remove(h + 10), Err(ArenaError::IndexOutOfBounds));
    assert_eq!(arena.get(h), Some(&5));
}

#[test]
fn remove_twice_changes_nothing_more() {
    let mut arena: Arena<u32> = Arena::new();
    let h = arena.add(5);
    assert_eq!(arena.remove(h), Ok(()));
    assert_eq!(arena.remove(h), Ok(()));
    assert_eq!(arena.get(h), None);
    // One freed slot, so two adds mint one reused and one fresh handle.
    let h1 = arena.add(6);
    let h2 = arena.add(7);
    assert_eq!(h1, h);
    assert_ne!(h2, h);
}

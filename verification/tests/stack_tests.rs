use raster3d::stack::{last, TransformStack};

#[test]
fn last_returns_final_element() {
    let v = vec![3, 1, 4, 1, 5];
    assert_eq!(*last(&v), 5);
    let w = vec![42];
    assert_eq!(*last(&w), 42);
}

#[test]
fn new_stack_has_only_the_base() {
    let s: TransformStack<i64> = TransformStack::new(7);
    assert_eq!(s.depth(), 1);
    assert_eq!(*s.top(), 7);
}

#[test]
fn push_dup_duplicates_the_top() {
    let mut s = TransformStack::new(7);
    s.push_dup();
    assert_eq!(s.depth(), 2);
    assert_eq!(*s.top(), 7);
}

#[test]
fn set_top_replaces_only_the_top() {
    let mut s = TransformStack::new(7);
    s.push_dup();
    s.set_top(9);
    assert_eq!(*s.top(), 9);
    assert_eq!(s.pop(), Some(9));
    assert_eq!(*s.top(), 7);
}

#[test]
fn pop_on_base_is_rejected() {
    let mut s = TransformStack::new(7);
    assert_eq!(s.pop(), None);
    assert_eq!(s.depth(), 1);
    assert_eq!(*s.top(), 7);
}

#[test]
fn pushes_then_equal_pops_restore_the_top() {
    let mut s = TransformStack::new(42);
    s.push_dup();
    s.push_dup();
    s.push_dup();
    s.set_top(1);
    s.set_top(2);
    assert_eq!(s.depth(), 4);
    assert!(s.pop().is_some());
    assert!(s.pop().is_some());
    assert!(s.pop().is_some());
    assert_eq!(s.depth(), 1);
    assert_eq!(*s.top(), 42);
}

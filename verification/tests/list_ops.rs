use minilisp::list::List;

#[test]
fn prepend_head_tail_round_trip() {
    // Prepending and then taking head/tail gives back the element and the
    // receiver, without disturbing either.
    let base: List<u32> = List::new().prepend(3).prepend(2);
    let longer = base.prepend(1);
    assert_eq!(longer.head(), Some(&1));
    let tail = longer.tail().unwrap();
    assert_eq!(tail.head(), Some(&2));
    assert_eq!(tail.tail().unwrap().head(), Some(&3));
    assert!(tail.tail().unwrap().tail().unwrap().head().is_none());
    // The receiver is untouched by the prepend.
    assert_eq!(base.head(), Some(&2));
}

#[test]
fn empty_list_has_nothing() {
    let empty: List<u32> = List::new();
    assert!(empty.head().is_none());
    assert!(empty.tail().is_none());
}

#[test]
fn from_vec_preserves_order() {
    let l = List::from_vec(vec![10u32, 20, 30]);
    assert_eq!(l.head(), Some(&10));
    let t = l.tail().unwrap();
    assert_eq!(t.head(), Some(&20));
    assert_eq!(t.tail().unwrap().head(), Some(&30));
}

#[test]
fn iter_walks_front_to_back_and_restarts() {
    let l = List::from_vec(vec![1u32, 2, 3]);
    let mut it = l.iter();
    assert_eq!(it.next(), Some(&1));
    assert_eq!(it.next(), Some(&2));
    assert_eq!(it.next(), Some(&3));
    assert_eq!(it.next(), None);
    // Iteration is restartable: a fresh cursor sees the same elements.
    let mut again = l.iter();
    assert_eq!(again.next(), Some(&1));
}

#[test]
fn tails_are_shared_not_copied() {
    // Two lists built on the same base share its nodes; both see them.
    let base = List::from_vec(vec![7u32, 8]);
    let a = base.prepend(1);
    let b = base.prepend(2);
    assert_eq!(a.tail().unwrap().head(), Some(&7));
    assert_eq!(b.tail().unwrap().head(), Some(&7));
}

#[test]
fn dropping_a_long_list_does_not_overflow_the_stack() {
    // The iterative teardown must release a deep spine without recursing
    // once per node.
    let mut l: List<u32> = List::new();
    for i in 0..200_000u32 {
        l = l.prepend(i);
    }
    drop(l);
}

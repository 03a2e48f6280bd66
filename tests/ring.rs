use simthing::Ring;

#[test]
fn ring_test_push_pop() {
    let mut ring = Ring::new(3);
    ring.push("a");
    ring.push("b");
    assert_eq!(ring.len(), 2);
    let popped = ring.pop();
    assert_eq!(popped, Some("b"));
    assert_eq!(ring.len(), 1);
    let popped = ring.pop();
    assert_eq!(popped, Some("a"));
    assert_eq!(ring.len(), 0);
    let popped = ring.pop();
    assert_eq!(popped, None);
    assert_eq!(ring.len(), 0);
}

#[test]
fn ring_test_overwrite() {
    let mut ring = Ring::new(3);
    ring.push("a");
    ring.push("b");
    ring.push("c");
    ring.push("d");
    ring.push("e");
    ring.push("f");
    assert_eq!(ring.len(), 3);
    assert_eq!(ring.pop(), Some("f"));
    assert_eq!(ring.pop(), Some("e"));
    assert_eq!(ring.pop(), Some("d"));
    assert_eq!(ring.pop(), None);
}

#[test]
fn empty_queue() {
    let q = Ring::<i32>::new(5);

    assert_eq!(q.iter().into_iter().next(), None);
}

#[test]
fn partially_full_queue() {
    let mut q = Ring::new(5);
    q.push(1);
    q.push(2);
    q.push(3);

    assert_eq!(q.len(), 3);

    let res: Vec<_> = q.iter().into_iter().map(|&x| x).collect();
    assert_eq!(res, [3, 2, 1]);
}

#[test]
fn fill_to_capacity_keeps_all_newest_first() {
    let mut q = Ring::new(4);
    for v in [10, 20, 30, 40] {
        q.push(v);
    }
    assert_eq!(q.len(), 4);
    let res: Vec<i32> = q.iter().into_iter().copied().collect();
    assert_eq!(res, vec![40, 30, 20, 10]);
}

#[test]
fn overfill_keeps_latest_capacity_values() {
    let mut q = Ring::new(3);
    for v in 1..=7 {
        q.push(v);
    }
    assert_eq!(q.len(), 3);
    assert_eq!(q.capacity(), 3);
    let res: Vec<i32> = q.iter().into_iter().copied().collect();
    assert_eq!(res, vec![7, 6, 5]);
}

#[test]
fn pops_come_in_reverse_push_order() {
    let mut q = Ring::new(4);
    q.push('x');
    q.push('y');
    q.push('z');
    assert_eq!(q.pop(), Some('z'));
    assert_eq!(q.pop(), Some('y'));
    assert_eq!(q.pop(), Some('x'));
    assert_eq!(q.pop(), None);
}

#[test]
fn push_then_pop_restores_length() {
    let mut q = Ring::new(5);
    q.push(1);
    q.push(2);
    let before = q.len();
    q.push(3);
    q.push(4);
    q.push(5);
    q.pop();
    q.pop();
    q.pop();
    assert_eq!(q.len(), before);
    let res: Vec<i32> = q.iter().into_iter().copied().collect();
    assert_eq!(res, vec![2, 1]);
}

#[test]
fn pop_after_wraparound_then_push_appends() {
    let mut q = Ring::new(3);
    for v in 1..=4 {
        q.push(v);
    }
    assert_eq!(q.pop(), Some(4));
    q.push(9);
    assert_eq!(q.len(), 3);
    let res: Vec<i32> = q.iter().into_iter().copied().collect();
    assert_eq!(res, vec![9, 3, 2]);
}

#[test]
fn pop_everything_after_wraparound() {
    let mut q = Ring::new(3);
    for v in 1..=5 {
        q.push(v);
    }
    assert_eq!(q.pop(), Some(5));
    assert_eq!(q.pop(), Some(4));
    assert_eq!(q.pop(), Some(3));
    assert_eq!(q.pop(), None);
    q.push(6);
    let res: Vec<i32> = q.iter().into_iter().copied().collect();
    assert_eq!(res, vec![6]);
}

#[test]
fn zero_capacity_stays_empty() {
    let mut q = Ring::new(0);
    q.push(1);
    q.push(2);
    assert_eq!(q.len(), 0);
    assert_eq!(q.capacity(), 0);
    assert_eq!(q.iter().into_iter().next(), None);
    assert_eq!(q.pop(), None);
}

#[test]
fn iter_mut_changes_values_in_place() {
    let mut q = Ring::new(3);
    for v in 1..=4 {
        q.push(v);
    }
    let mut refs = q.iter_mut();
    assert_eq!(refs.len(), 3);
    assert_eq!(*refs[0], 4);
    *refs[0] = 40;
    *refs[2] = 20;
    let res: Vec<i32> = q.iter().into_iter().copied().collect();
    assert_eq!(res, vec![40, 3, 20]);
    assert_eq!(q.pop(), Some(40));
}

#[test]
fn iter_mut_on_empty_yields_nothing() {
    let mut q = Ring::<u8>::new(2);
    assert!(q.iter_mut().is_empty());
}

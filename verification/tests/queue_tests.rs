use coro_core::spsc::{Queue, BLOCK_SIZE};

#[test]
fn queue_sanity() {
    let mut q = Queue::<usize>::new();
    assert_eq!(q.size(), 0);
    for i in 0..100 {
        q.push(i);
    }
    assert_eq!(q.size(), 100);

    for i in 0..100 {
        assert_eq!(q.pop(), Some(i));
    }
    assert_eq!(q.pop(), None);
    assert_eq!(q.size(), 0);
}

#[test]
fn bulk_pop_test() {
    let mut q = Queue::<usize>::new();
    let total_size = BLOCK_SIZE + 17;
    let mut vec = Vec::with_capacity(BLOCK_SIZE * 2);
    for i in 0..total_size {
        q.push(i);
    }
    assert_eq!(q.bulk_pop_expect(0, &mut vec), BLOCK_SIZE);
    assert_eq!(q.size(), total_size - BLOCK_SIZE);
    assert_eq!(q.bulk_pop_expect(8, &mut vec), 8);
    assert_eq!(q.bulk_pop_expect(0, &mut vec), total_size - 8 - BLOCK_SIZE);
    assert_eq!(q.size(), 0);

    for (i, item) in vec.iter().enumerate() {
        assert_eq!(*item, i);
    }
}

#[test]
fn peek_leaves_the_head() {
    let mut q = Queue::<u32>::new();
    assert!(q.peek().is_none());
    q.push(5);
    q.push(6);
    assert_eq!(q.peek(), Some(&5));
    assert_eq!(q.pop(), Some(5));
    assert_eq!(q.peek(), Some(&6));
}

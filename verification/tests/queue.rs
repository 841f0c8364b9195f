use dscale::queue::TimedQueue;

#[test]
fn earliest_entry_leaves_first() {
    let mut queue: TimedQueue<&str> = TimedQueue::new();
    assert!(queue.is_empty());
    queue.push(30, "c");
    queue.push(10, "a");
    queue.push(20, "b");
    assert_eq!(queue.len(), 3);
    assert_eq!(queue.peek_time(), Some(10));
    assert_eq!(queue.peek(), Some(&(10, "a")));
    assert_eq!(queue.pop(), Some((10, "a")));
    assert_eq!(queue.pop(), Some((20, "b")));
    assert_eq!(queue.pop(), Some((30, "c")));
    assert_eq!(queue.pop(), None);
    assert_eq!(queue.peek_time(), None);
}

#[test]
fn equal_instants_leave_in_order_of_arrival() {
    let mut queue: TimedQueue<u32> = TimedQueue::new();
    queue.push(5, 1);
    queue.push(5, 2);
    queue.push(4, 0);
    queue.push(5, 3);
    queue.push(6, 4);
    let mut out = Vec::new();
    while let Some((time, item)) = queue.pop() {
        out.push((time, item));
    }
    assert_eq!(out, vec![(4, 0), (5, 1), (5, 2), (5, 3), (6, 4)]);
}

#[test]
fn pop_on_empty_queue_changes_nothing() {
    let mut queue: TimedQueue<u8> = TimedQueue::new();
    assert_eq!(queue.pop(), None);
    queue.push(1, 9);
    assert_eq!(queue.len(), 1);
}

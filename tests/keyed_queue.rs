use keyed_queue::KeyedQueue;

#[test]
fn test() {
    let mut keyed_queue = KeyedQueue::new();
    keyed_queue.push_back(&1, 12);
    keyed_queue.push_front(&1, 11);
    keyed_queue.push_back(&1, 13);

    keyed_queue.push_back(&2, 21);
    keyed_queue.push_back(&2, 22);
    keyed_queue.push_back(&2, 23);

    assert_eq!(keyed_queue.pop_front(&1), Some(11));
    assert_eq!(keyed_queue.pop_back(&1), Some(13));
    assert_eq!(keyed_queue.pop_back(&1), Some(12));
    assert!(keyed_queue.pop_front(&1).is_none());

    assert_eq!(keyed_queue.pop_front(&2), Some(21));
    assert_eq!(keyed_queue.pop_front(&2), Some(22));
    assert_eq!(keyed_queue.pop_front(&2), Some(23));
    assert!(keyed_queue.pop_front(&2).is_none());
}

#[test]
fn fifo_back_then_front() {
    let mut q: KeyedQueue<u32, &str> = KeyedQueue::new();
    for v in ["a", "b", "c", "d"] {
        q.push_back(&7, v);
    }
    assert_eq!(q.pop_front(&7), Some("a"));
    assert_eq!(q.pop_front(&7), Some("b"));
    assert_eq!(q.pop_front(&7), Some("c"));
    assert_eq!(q.pop_front(&7), Some("d"));
    assert_eq!(q.pop_front(&7), None);
}

#[test]
fn fifo_front_then_back() {
    let mut q: KeyedQueue<u8, i64> = KeyedQueue::new();
    q.push_front(&0, 1);
    q.push_front(&0, 2);
    q.push_front(&0, 3);
    assert_eq!(q.pop_back(&0), Some(1));
    assert_eq!(q.pop_back(&0), Some(2));
    assert_eq!(q.pop_back(&0), Some(3));
    assert_eq!(q.pop_back(&0), None);
}

#[test]
fn lifo_same_end() {
    let mut q: KeyedQueue<u32, u32> = KeyedQueue::new();
    q.push_front(&5, 1);
    q.push_front(&5, 2);
    q.push_front(&5, 3);
    assert_eq!(q.pop_front(&5), Some(3));
    assert_eq!(q.pop_front(&5), Some(2));
    assert_eq!(q.pop_front(&5), Some(1));
    assert_eq!(q.pop_front(&5), None);

    q.push_back(&5, 10);
    q.push_back(&5, 20);
    assert_eq!(q.pop_back(&5), Some(20));
    assert_eq!(q.pop_back(&5), Some(10));
    assert_eq!(q.pop_back(&5), None);
}

#[test]
fn keys_are_independent() {
    let mut q: KeyedQueue<i32, i32> = KeyedQueue::new();
    q.push_back(&1, 100);
    q.push_back(&2, 200);
    q.push_front(&2, 199);
    assert_eq!(q.pop_back(&2), Some(200));
    q.push_back(&3, 300);
    assert_eq!(q.pop_front(&3), Some(300));
    assert_eq!(q.pop_front(&3), None);
    assert_eq!(q.pop_front(&1), Some(100));
    assert_eq!(q.pop_front(&1), None);
    assert_eq!(q.pop_front(&2), Some(199));
    assert_eq!(q.pop_front(&2), None);
}

#[test]
fn drained_key_is_pruned_and_reusable() {
    let mut q: KeyedQueue<u64, u64> = KeyedQueue::new();
    q.push_back(&9, 1);
    assert_eq!(q.pop_back(&9), Some(1));
    assert_eq!(q.pop_front(&9), None);
    assert_eq!(q.pop_back(&9), None);
    q.push_front(&9, 2);
    assert_eq!(q.pop_front(&9), Some(2));
    assert_eq!(q.pop_back(&9), None);
}

#[test]
fn unknown_key_is_absent() {
    let mut q: KeyedQueue<u16, u16> = KeyedQueue::default();
    assert_eq!(q.pop_front(&4), None);
    assert_eq!(q.pop_back(&4), None);
    q.push_back(&1, 1);
    assert_eq!(q.pop_front(&4), None);
    assert_eq!(q.pop_back(&4), None);
    assert_eq!(q.pop_front(&1), Some(1));
}

#[test]
fn pops_never_outnumber_pushes() {
    let mut q: KeyedQueue<u32, u32> = KeyedQueue::new();
    let mut pushes = 0u32;
    let mut successes = 0u32;
    for i in 0..10u32 {
        if i % 3 == 0 {
            q.push_front(&1, i);
        } else {
            q.push_back(&1, i);
        }
        pushes += 1;
        if i % 2 == 0 {
            if q.pop_back(&1).is_some() {
                successes += 1;
            }
        }
        assert!(successes <= pushes);
    }
    while let Some(_) = q.pop_front(&1) {
        successes += 1;
    }
    assert_eq!(successes, pushes);
    assert_eq!(q.pop_back(&1), None);
}

#[test]
fn string_keys_and_owned_values() {
    let mut q: KeyedQueue<String, Vec<u8>> = KeyedQueue::new();
    q.push_back(&"x".to_string(), vec![1]);
    q.push_back(&"y".to_string(), vec![2]);
    q.push_front(&"x".to_string(), vec![0]);
    assert_eq!(q.pop_front(&"x".to_string()), Some(vec![0]));
    assert_eq!(q.pop_front(&"y".to_string()), Some(vec![2]));
    assert_eq!(q.pop_back(&"x".to_string()), Some(vec![1]));
    assert_eq!(q.pop_back(&"x".to_string()), None);
}

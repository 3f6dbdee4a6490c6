use async_basics::timers::Timers;

#[test]
fn timers_start_empty() {
    let mut t = Timers::new();
    assert_eq!(t.len(), 0);
    assert!(t.is_empty());
    assert_eq!(t.next_timeout(0), None);
    assert_eq!(t.next_timeout(u64::MAX), None);
    assert_eq!(t.expire(u64::MAX), Vec::<usize>::new());
    assert!(!t.cancel(1));
}

#[test]
fn expire_takes_due_timers_and_keeps_insertion_order_among_equals() {
    let (a, b, c) = (1usize, 2usize, 3usize);
    let mut t = Timers::new();
    t.insert(50, a);
    t.insert(50, b);
    t.insert(100, c);
    assert_eq!(t.expire(60), vec![a, b]);
    assert_eq!(t.len(), 1);
    assert_eq!(t.expire(100), vec![c]);
    assert!(t.is_empty());
}

#[test]
fn expire_returns_distinct_deadlines_in_ascending_order() {
    let mut t = Timers::new();
    t.insert(30, 1);
    t.insert(10, 2);
    t.insert(40, 3);
    t.insert(20, 4);
    t.insert(0, 5);
    assert_eq!(t.expire(40), vec![5, 2, 4, 1, 3]);
    assert!(t.is_empty());
    assert_eq!(t.next_timeout(40), None);
}

#[test]
fn equal_deadlines_fire_first_in_first_out_with_others_between() {
    let mut t = Timers::new();
    t.insert(7, 10);
    t.insert(3, 11);
    t.insert(7, 12);
    t.insert(9, 13);
    t.insert(7, 14);
    t.insert(3, 15);
    assert_eq!(t.expire(7), vec![11, 15, 10, 12, 14]);
    assert_eq!(t.expire(8), Vec::<usize>::new());
    assert_eq!(t.expire(9), vec![13]);
}

#[test]
fn expire_leaves_timers_that_are_not_due() {
    let mut t = Timers::new();
    t.insert(5, 1);
    t.insert(6, 2);
    assert_eq!(t.expire(4), Vec::<usize>::new());
    assert_eq!(t.len(), 2);
    assert_eq!(t.expire(5), vec![1]);
    assert_eq!(t.len(), 1);
    assert!(t.contains(2));
    assert!(!t.contains(1));
}

#[test]
fn next_timeout_is_time_until_the_earliest_deadline() {
    let mut t = Timers::new();
    t.insert(100, 1);
    t.insert(40, 2);
    assert_eq!(t.next_timeout(0), Some(40));
    assert_eq!(t.next_timeout(15), Some(25));
    assert_eq!(t.next_timeout(39), Some(1));
    assert_eq!(t.next_timeout(40), Some(0));
    assert_eq!(t.next_timeout(1000), Some(0));
}

#[test]
fn next_timeout_never_grows_as_the_clock_advances() {
    let mut t = Timers::new();
    t.insert(500, 1);
    t.insert(900, 2);
    let mut last = t.next_timeout(0).unwrap();
    let mut now = 0u64;
    while now <= 1000 {
        let left = t.next_timeout(now).unwrap();
        assert!(left <= last);
        last = left;
        now += 50;
    }
    assert_eq!(last, 0);
}

#[test]
fn next_timeout_is_none_exactly_when_nothing_is_pending() {
    let mut t = Timers::new();
    assert!(t.next_timeout(5).is_none());
    t.insert(9, 1);
    assert!(t.next_timeout(5).is_some());
    t.insert(10, 2);
    assert!(t.next_timeout(5).is_some());
    t.expire(9);
    assert!(t.next_timeout(5).is_some());
    assert!(t.cancel(2));
    assert!(t.next_timeout(5).is_none());
}

#[test]
fn cancel_removes_one_pending_timer() {
    let mut t = Timers::new();
    t.insert(10, 1);
    t.insert(20, 2);
    t.insert(30, 3);
    assert!(t.cancel(2));
    assert!(!t.cancel(2));
    assert!(!t.cancel(9));
    assert_eq!(t.len(), 2);
    assert_eq!(t.expire(30), vec![1, 3]);
}

#[test]
fn cancel_of_the_earliest_timer_moves_the_timeout() {
    let mut t = Timers::new();
    t.insert(10, 1);
    t.insert(25, 2);
    assert_eq!(t.next_timeout(0), Some(10));
    assert!(t.cancel(1));
    assert_eq!(t.next_timeout(0), Some(25));
}

#[test]
fn timers_at_the_end_of_the_clock() {
    let mut t = Timers::new();
    t.insert(u64::MAX, 1);
    t.insert(0, 2);
    assert_eq!(t.next_timeout(0), Some(0));
    assert_eq!(t.expire(0), vec![2]);
    assert_eq!(t.next_timeout(1), Some(u64::MAX - 1));
    assert_eq!(t.expire(u64::MAX - 1), Vec::<usize>::new());
    assert_eq!(t.expire(u64::MAX), vec![1]);
}

#[test]
fn many_timers_come_out_sorted_and_stable() {
    let mut t = Timers::new();
    let mut expected: Vec<(u64, usize)> = Vec::new();
    let mut seed: u64 = 12345;
    let mut id: usize = 1;
    while id <= 200 {
        seed = seed.wrapping_mul(6364136223846793005).wrapping_add(1442695040888963407);
        let deadline = (seed >> 33) % 17;
        t.insert(deadline, id);
        expected.push((deadline, id));
        id += 1;
    }
    expected.sort_by_key(|e| e.0);
    let ids: Vec<usize> = expected.iter().map(|e| e.1).collect();
    assert_eq!(t.len(), 200);
    assert_eq!(t.expire(16), ids);
}

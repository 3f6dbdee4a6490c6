use async_basics::pool::{Completion, Pool};
use async_basics::task::{Task, ThreadPoolTaskKind};

fn task(id: usize) -> Task<usize> {
    Task::new(ThreadPoolTaskKind::Encrypt, id * 10, id)
}

#[test]
fn a_new_pool_is_idle() {
    let p: Pool<usize> = Pool::new(4);
    assert_eq!(p.size(), 4);
    assert_eq!(p.idle_workers(), 4);
    assert_eq!(p.waiting(), 0);
    assert!(!p.accepts(0, 0));
    assert!(!p.accepts(4, 1));
}

#[test]
fn tasks_go_to_the_worker_idle_longest() {
    let mut p: Pool<usize> = Pool::new(3);
    assert_eq!(p.submit(task(1)), Some((0, task(1))));
    assert_eq!(p.submit(task(2)), Some((1, task(2))));
    assert_eq!(p.complete(0, 1), Completion::Idle);
    assert_eq!(p.submit(task(3)), Some((2, task(3))));
    assert_eq!(p.submit(task(4)), Some((0, task(4))));
    assert_eq!(p.idle_workers(), 0);
    assert!(p.accepts(1, 2) && p.accepts(2, 3) && p.accepts(0, 4));
}

#[test]
fn tasks_wait_while_no_worker_is_idle() {
    let mut p: Pool<usize> = Pool::new(2);
    assert_eq!(p.submit(task(1)), Some((0, task(1))));
    assert_eq!(p.submit(task(2)), Some((1, task(2))));
    assert_eq!(p.submit(task(3)), None);
    assert_eq!(p.submit(task(4)), None);
    assert_eq!(p.waiting(), 2);
    assert_eq!(p.complete(1, 2), Completion::Next(task(3)));
    assert!(p.accepts(1, 3));
    assert_eq!(p.waiting(), 1);
    assert_eq!(p.complete(0, 1), Completion::Next(task(4)));
    assert_eq!(p.waiting(), 0);
    assert_eq!(p.complete(0, 4), Completion::Idle);
    assert_eq!(p.complete(1, 3), Completion::Idle);
    assert_eq!(p.idle_workers(), 2);
    assert_eq!(p.submit(task(5)), Some((0, task(5))));
}

#[test]
fn stray_completions_change_nothing() {
    let mut p: Pool<usize> = Pool::new(2);
    assert_eq!(p.complete(0, 1), Completion::Stray);
    assert_eq!(p.submit(task(1)), Some((0, task(1))));
    assert_eq!(p.complete(1, 1), Completion::Stray);
    assert_eq!(p.complete(0, 2), Completion::Stray);
    assert_eq!(p.complete(2, 1), Completion::Stray);
    assert_eq!(p.complete(usize::MAX, 1), Completion::Stray);
    assert_eq!(p.idle_workers(), 1);
    assert!(p.accepts(0, 1));
    assert_eq!(p.complete(0, 1), Completion::Idle);
    assert_eq!(p.complete(0, 1), Completion::Stray);
    assert_eq!(p.idle_workers(), 2);
}

#[test]
fn a_pool_without_workers_lets_tasks_wait() {
    let mut p: Pool<usize> = Pool::new(0);
    assert_eq!(p.size(), 0);
    assert_eq!(p.submit(task(1)), None);
    assert_eq!(p.waiting(), 1);
    assert_eq!(p.complete(0, 1), Completion::Stray);
    assert_eq!(p.shutdown_tasks(), Vec::<Task<usize>>::new());
}

#[test]
fn shutdown_makes_one_marker_for_each_worker() {
    let mut n = 0usize;
    while n <= 6 {
        let p: Pool<usize> = Pool::new(n);
        let markers = p.shutdown_tasks();
        assert_eq!(markers.len(), n);
        for m in markers.iter() {
            assert_eq!(m.kind, ThreadPoolTaskKind::Close);
            assert_eq!(m.task, None);
        }
        n += 1;
    }
}

#[test]
fn shutdown_counts_workers_whether_busy_or_idle() {
    let mut p: Pool<usize> = Pool::new(3);
    p.submit(task(1));
    p.submit(task(2));
    assert_eq!(p.shutdown_tasks().len(), 3);
}

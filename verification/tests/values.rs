use async_basics::event::{
    completion, poll_timeout, readiness, PollEvent, ReadinessInterest, READABLE, WRITABLE,
};
use async_basics::js::Js;
use async_basics::task::{Task, ThreadPoolTaskKind, WorkerStep};

#[test]
fn into_string_unwraps_text_only() {
    assert_eq!(Js::String("abc".to_string()).into_string(), Some("abc".to_string()));
    assert_eq!(Js::String(String::new()).into_string(), Some(String::new()));
    assert_eq!(Js::Undefined.into_string(), None);
    assert_eq!(Js::Int(3).into_string(), None);
    assert_eq!(Js::Error("abc".to_string()).into_string(), None);
}

#[test]
fn into_int_unwraps_numbers_only() {
    assert_eq!(Js::Int(42).into_int(), Some(42));
    assert_eq!(Js::Int(0).into_int(), Some(0));
    assert_eq!(Js::Int(usize::MAX).into_int(), Some(usize::MAX));
    assert_eq!(Js::Undefined.into_int(), None);
    assert_eq!(Js::String("42".to_string()).into_int(), None);
    assert_eq!(Js::Error("42".to_string()).into_int(), None);
}

#[test]
fn into_error_unwraps_failures_only() {
    assert_eq!(Js::Error("boom".to_string()).into_error(), Some("boom".to_string()));
    assert_eq!(Js::String("boom".to_string()).into_error(), None);
    assert_eq!(Js::Undefined.into_error(), None);
    assert_eq!(Js::Int(1).into_error(), None);
    assert!(Js::Error(String::new()).is_error());
    assert!(!Js::Undefined.is_error());
    assert!(!Js::Int(0).is_error());
    assert!(!Js::String("error".to_string()).is_error());
}

#[test]
fn close_is_the_shutdown_marker() {
    let t: Task<u8> = Task::close();
    assert_eq!(t.kind, ThreadPoolTaskKind::Close);
    assert_eq!(t.callback_id, 0);
    assert_eq!(t.task, None);
    assert!(t.is_close());
    assert_eq!(t.into_step(), WorkerStep::Exit);
}

#[test]
fn a_task_carries_its_work() {
    let t = Task::new(ThreadPoolTaskKind::Encrypt, 7u8, 12);
    assert_eq!(t.kind, ThreadPoolTaskKind::Encrypt);
    assert_eq!(t.callback_id, 12);
    assert_eq!(t.task, Some(7u8));
    assert!(!t.is_close());
    assert_eq!(t.into_step(), WorkerStep::Run(7u8, 12));
    let t = Task::new(ThreadPoolTaskKind::FileRead, "read", 3);
    assert_eq!(t.into_step(), WorkerStep::Run("read", 3));
}

#[test]
fn a_worker_exits_on_the_marker_and_on_nothing_else() {
    let gutted: Task<u8> = Task { task: None, callback_id: 5, kind: ThreadPoolTaskKind::FileRead };
    assert_eq!(gutted.into_step(), WorkerStep::Fail(5));
    let odd: Task<u8> = Task { task: Some(1), callback_id: 5, kind: ThreadPoolTaskKind::Close };
    assert_eq!(odd.into_step(), WorkerStep::Exit);
}

#[test]
fn task_kinds_have_names() {
    assert_eq!(ThreadPoolTaskKind::FileRead.name(), "File read");
    assert_eq!(ThreadPoolTaskKind::Encrypt.name(), "Encrypt");
    assert_eq!(ThreadPoolTaskKind::Close.name(), "Close");
}

#[test]
fn completion_wraps_results_and_faults() {
    assert_eq!(completion(2, 9, Ok(Js::Int(4))), PollEvent::Threadpool((2, 9, Js::Int(4))));
    assert_eq!(completion(0, 1, Ok(Js::Undefined)), PollEvent::Threadpool((0, 1, Js::Undefined)));
    assert_eq!(
        completion(3, 8, Err("task panicked".to_string())),
        PollEvent::Threadpool((3, 8, Js::Error("task panicked".to_string())))
    );
}

#[test]
fn readiness_tells_errors_apart() {
    assert_eq!(readiness(4, None), PollEvent::Epoll(4));
    assert_eq!(
        readiness(4, Some("bad descriptor".to_string())),
        PollEvent::EpollFailed((4, "bad descriptor".to_string()))
    );
}

#[test]
fn poll_timeout_clamps_to_what_the_poller_takes() {
    assert_eq!(poll_timeout(None), None);
    assert_eq!(poll_timeout(Some(0)), Some(0));
    assert_eq!(poll_timeout(Some(1)), Some(1));
    assert_eq!(poll_timeout(Some(2147483646)), Some(2147483646));
    assert_eq!(poll_timeout(Some(2147483647)), Some(i32::MAX));
    assert_eq!(poll_timeout(Some(2147483648)), Some(i32::MAX));
    assert_eq!(poll_timeout(Some(u64::MAX)), Some(i32::MAX));
}

#[test]
fn readiness_masks_are_read_bit_by_bit() {
    let of = |mask: u8| ReadinessInterest { id: 1, mask };
    assert_eq!((READABLE, WRITABLE), (1, 2));
    assert!(of(READABLE).wants_read() && !of(READABLE).wants_write());
    assert!(!of(WRITABLE).wants_read() && of(WRITABLE).wants_write());
    assert!(of(READABLE | WRITABLE).wants_read() && of(3).wants_write());
    assert!(!of(0).wants_read() && !of(0).wants_write() && !of(0).is_watchable());
    assert!(!of(4).is_watchable() && !of(252).is_watchable());
    assert!(of(5).is_watchable() && of(255).is_watchable() && of(2).is_watchable());
}

use async_basics::event::{PollEvent, ReadinessInterest};
use async_basics::js::Js;
use async_basics::model::{Dispatched, Poll, State};
use async_basics::runtime::Runtime;
use async_basics::task::{Task, ThreadPoolTaskKind};

type Rt = Runtime<&'static str, u32>;

fn markers(n: usize) -> Vec<Task<u32>> {
    let mut v = Vec::new();
    for _ in 0..n {
        v.push(Task::close());
    }
    v
}

#[test]
fn a_new_runtime_is_idle_and_empty() {
    let rt: Rt = Runtime::new(4);
    assert_eq!(rt.state(), State::Idle);
    assert_eq!(rt.pending_events(), 0);
    assert_eq!(rt.worker_count(), 4);
    assert_eq!(rt.idle_workers(), 4);
    assert_eq!(rt.last_id(), 0);
    assert_eq!(rt.registered_callbacks(), 0);
    assert!(rt.is_accepting());
    assert_eq!(rt.get_next_timer(0), None);
}

#[test]
fn run_without_registrations_drains_without_waiting() {
    let mut rt: Rt = Runtime::new(3);
    rt.start();
    assert_eq!(rt.state(), State::Ticking);
    rt.process_expired_timers(0);
    assert_eq!(rt.run_callbacks(), Vec::<(&'static str, Js)>::new());
    assert_eq!(rt.prepare_poll(0), Poll::Drain(markers(3)));
    assert_eq!(rt.state(), State::Draining);
    rt.stop();
    assert_eq!(rt.state(), State::Stopped);
}

#[test]
fn prepare_poll_before_start_and_after_stop_is_halted() {
    let mut rt: Rt = Runtime::new(1);
    assert_eq!(rt.prepare_poll(0), Poll::Halted);
    assert_eq!(rt.state(), State::Idle);
    rt.stop();
    assert_eq!(rt.state(), State::Idle);
    rt.start();
    rt.start();
    assert_eq!(rt.state(), State::Ticking);
    assert_eq!(rt.prepare_poll(0), Poll::Drain(markers(1)));
    assert_eq!(rt.prepare_poll(0), Poll::Halted);
    rt.start();
    assert_eq!(rt.state(), State::Draining);
    rt.stop();
    assert_eq!(rt.prepare_poll(0), Poll::Halted);
    assert_eq!(rt.state(), State::Stopped);
    assert!(!rt.is_accepting());
}

#[test]
fn timers_fire_in_order_through_the_runtime() {
    let mut rt: Rt = Runtime::new(1);
    rt.start();
    let a = rt.set_timeout(0, 50, "a");
    let b = rt.set_timeout(0, 50, "b");
    let c = rt.set_timeout(0, 100, "c");
    assert_eq!((a, b, c), (1, 2, 3));
    assert_eq!(rt.pending_events(), 3);
    assert_eq!(rt.prepare_poll(0), Poll::Wait(Some(50)));
    assert_eq!(rt.prepare_poll(20), Poll::Wait(Some(30)));
    rt.process_expired_timers(60);
    assert_eq!(rt.pending_events(), 1);
    assert_eq!(rt.waiting_results(), 2);
    assert_eq!(rt.prepare_poll(60), Poll::Run);
    assert_eq!(rt.run_callbacks(), vec![("a", Js::Undefined), ("b", Js::Undefined)]);
    assert_eq!(rt.prepare_poll(60), Poll::Wait(Some(40)));
    rt.process_expired_timers(100);
    assert_eq!(rt.run_callbacks(), vec![("c", Js::Undefined)]);
    assert_eq!(rt.pending_events(), 0);
    assert_eq!(rt.registered_callbacks(), 0);
    assert_eq!(rt.prepare_poll(100), Poll::Drain(markers(1)));
}

#[test]
fn a_timeout_event_changes_nothing() {
    let mut rt: Rt = Runtime::new(1);
    rt.start();
    rt.set_timeout(0, 10, "t");
    assert_eq!(rt.dispatch(PollEvent::Timeout), Dispatched::Discarded);
    assert_eq!(rt.pending_events(), 1);
    assert_eq!(rt.waiting_results(), 0);
}

#[test]
fn cancel_timer_drops_timer_and_callback() {
    let mut rt: Rt = Runtime::new(1);
    rt.start();
    let a = rt.set_timeout(0, 10, "a");
    let b = rt.set_timeout(0, 20, "b");
    assert!(rt.cancel_timer(a));
    assert!(!rt.cancel_timer(a));
    assert!(!rt.cancel_timer(99));
    assert_eq!(rt.pending_events(), 1);
    assert_eq!(rt.pending_timers(), 1);
    assert_eq!(rt.registered_callbacks(), 1);
    assert_eq!(rt.prepare_poll(0), Poll::Wait(Some(20)));
    rt.process_expired_timers(20);
    assert_eq!(rt.run_callbacks(), vec![("b", Js::Undefined)]);
    assert!(!rt.cancel_timer(b));
    assert_eq!(rt.pending_events(), 0);
}

#[test]
fn a_fired_timer_cannot_be_cancelled() {
    let mut rt: Rt = Runtime::new(1);
    rt.start();
    let a = rt.set_timeout(5, 0, "a");
    rt.process_expired_timers(5);
    assert!(!rt.cancel_timer(a));
    assert_eq!(rt.run_callbacks(), vec![("a", Js::Undefined)]);
}

#[test]
fn a_deadline_past_the_end_of_the_clock_is_the_last_instant() {
    let mut rt: Rt = Runtime::new(1);
    rt.start();
    rt.set_timeout(u64::MAX - 5, 100, "late");
    rt.process_expired_timers(u64::MAX - 1);
    assert_eq!(rt.waiting_results(), 0);
    assert_eq!(rt.get_next_timer(u64::MAX - 1), Some(1));
    rt.process_expired_timers(u64::MAX);
    assert_eq!(rt.run_callbacks(), vec![("late", Js::Undefined)]);
}

#[test]
fn get_next_timer_is_clamped() {
    let mut rt: Rt = Runtime::new(1);
    rt.set_timeout(0, u64::MAX, "far");
    assert_eq!(rt.get_next_timer(0), Some(i32::MAX));
    rt.set_timeout(0, 7, "near");
    assert_eq!(rt.get_next_timer(0), Some(7));
    assert_eq!(rt.get_next_timer(9), Some(0));
}

#[test]
fn more_tasks_than_workers_all_complete_once() {
    let n = 2usize;
    let m = 5usize;
    let mut rt: Runtime<String, u32> = Runtime::new(n);
    rt.start();
    let before = rt.pending_events();
    let mut sent: Vec<(usize, Task<u32>)> = Vec::new();
    let mut ids = Vec::new();
    for i in 0..m {
        let (id, dispatch) =
            rt.submit_task(ThreadPoolTaskKind::Encrypt, i as u32, format!("cb{}", i));
        ids.push(id);
        if let Some(d) = dispatch {
            sent.push(d);
        }
    }
    assert_eq!(ids, vec![1, 2, 3, 4, 5]);
    assert_eq!(sent.len(), n);
    assert_eq!(rt.waiting_tasks(), m - n);
    assert_eq!(rt.pending_events(), before + m);

    let mut completions = 0usize;
    let mut fired: Vec<(String, Js)> = Vec::new();
    while let Some((worker, task)) = sent.pop() {
        let result = Js::Int(task.task.unwrap() as usize * 2);
        match rt.dispatch(PollEvent::Threadpool((worker, task.callback_id, result))) {
            Dispatched::Next(w, next) => {
                assert_eq!(w, worker);
                sent.push((w, next));
            }
            Dispatched::Handled => {}
            Dispatched::Discarded => panic!("a completion was discarded"),
        }
        completions += 1;
        fired.extend(rt.run_callbacks());
    }
    assert_eq!(completions, m);
    assert_eq!(rt.pending_events(), before);
    assert_eq!(rt.idle_workers(), n);
    fired.sort_by(|a, b| a.0.cmp(&b.0));
    let expected: Vec<(String, Js)> =
        (0..m).map(|i| (format!("cb{}", i), Js::Int(i * 2))).collect();
    assert_eq!(fired, expected);
    assert_eq!(rt.registered_callbacks(), 0);
}

#[test]
fn a_second_report_for_the_same_task_is_discarded() {
    let mut rt: Rt = Runtime::new(2);
    rt.start();
    let (id, dispatch) = rt.submit_task(ThreadPoolTaskKind::FileRead, 1, "read");
    let (worker, task) = dispatch.unwrap();
    assert_eq!(worker, 0);
    assert_eq!(task, Task { task: Some(1), callback_id: id, kind: ThreadPoolTaskKind::FileRead });
    assert_eq!(rt.dispatch(PollEvent::Threadpool((1, id, Js::Int(0)))), Dispatched::Discarded);
    assert_eq!(rt.dispatch(PollEvent::Threadpool((0, id + 1, Js::Int(0)))), Dispatched::Discarded);
    assert_eq!(rt.pending_events(), 1);
    assert_eq!(rt.dispatch(PollEvent::Threadpool((0, id, Js::Int(7)))), Dispatched::Handled);
    assert_eq!(rt.dispatch(PollEvent::Threadpool((0, id, Js::Int(8)))), Dispatched::Discarded);
    assert_eq!(rt.dispatch(PollEvent::Threadpool((1, id, Js::Int(8)))), Dispatched::Discarded);
    assert_eq!(rt.pending_events(), 0);
    assert_eq!(rt.run_callbacks(), vec![("read", Js::Int(7))]);
    assert_eq!(rt.run_callbacks(), Vec::<(&'static str, Js)>::new());
}

#[test]
fn a_failed_task_reaches_its_callback_as_an_error() {
    let mut rt: Rt = Runtime::new(1);
    rt.start();
    let (id, dispatch) = rt.submit_task(ThreadPoolTaskKind::Encrypt, 1, "enc");
    let (worker, _) = dispatch.unwrap();
    let event = async_basics::event::completion(worker, id, Err("overflow".to_string()));
    assert_eq!(rt.dispatch(event), Dispatched::Handled);
    assert_eq!(rt.pending_events(), 0);
    assert_eq!(rt.idle_workers(), 1);
    assert_eq!(rt.run_callbacks(), vec![("enc", Js::Error("overflow".to_string()))]);
}

#[test]
fn one_interest_one_event_one_callback() {
    let mut rt: Rt = Runtime::new(1);
    rt.start();
    let timer = rt.set_timeout(0, 1000, "timer");
    let io = rt.register_io_interest(1, "io");
    assert_eq!(rt.interest(io), Some(ReadinessInterest { id: io, mask: 1 }));
    assert_eq!(rt.interest(timer), None);
    assert_eq!(rt.live_interests(), 1);
    assert_eq!(rt.pending_events(), 2);
    assert_eq!(rt.dispatch(PollEvent::Epoll(io)), Dispatched::Handled);
    assert_eq!(rt.pending_events(), 1);
    assert_eq!(rt.live_interests(), 0);
    assert_eq!(rt.run_callbacks(), vec![("io", Js::Undefined)]);
    assert_eq!(rt.dispatch(PollEvent::Epoll(io)), Dispatched::Discarded);
    assert_eq!(rt.run_callbacks(), Vec::<(&'static str, Js)>::new());
    assert_eq!(rt.pending_events(), 1);
    assert_eq!(rt.registered_callbacks(), 1);
}

#[test]
fn readiness_for_what_is_no_interest_is_discarded() {
    let mut rt: Rt = Runtime::new(1);
    rt.start();
    let timer = rt.set_timeout(0, 10, "timer");
    let (task, _) = rt.submit_task(ThreadPoolTaskKind::Encrypt, 0, "task");
    assert_eq!(rt.dispatch(PollEvent::Epoll(timer)), Dispatched::Discarded);
    assert_eq!(rt.dispatch(PollEvent::Epoll(task)), Dispatched::Discarded);
    assert_eq!(rt.dispatch(PollEvent::Epoll(0)), Dispatched::Discarded);
    assert_eq!(rt.dispatch(PollEvent::Epoll(77)), Dispatched::Discarded);
    assert_eq!(rt.pending_events(), 2);
    assert_eq!(rt.waiting_results(), 0);
}

#[test]
fn a_source_in_error_reaches_its_callback_as_an_error() {
    let mut rt: Rt = Runtime::new(1);
    rt.start();
    let io = rt.register_io_interest(3, "io");
    let event = PollEvent::EpollFailed((io, "bad descriptor".to_string()));
    assert_eq!(rt.dispatch(event), Dispatched::Handled);
    assert_eq!(rt.run_callbacks(), vec![("io", Js::Error("bad descriptor".to_string()))]);
    assert_eq!(rt.pending_events(), 0);
}

#[test]
fn events_after_shutdown_began_are_discarded() {
    let mut rt: Rt = Runtime::new(2);
    rt.start();
    let (id, dispatch) = rt.submit_task(ThreadPoolTaskKind::Encrypt, 1, "enc");
    let (worker, _) = dispatch.unwrap();
    let io = rt.register_io_interest(1, "io");
    assert_eq!(rt.dispatch(PollEvent::Threadpool((worker, id, Js::Int(1)))), Dispatched::Handled);
    assert_eq!(rt.dispatch(PollEvent::Epoll(io)), Dispatched::Handled);
    assert_eq!(rt.run_callbacks().len(), 2);
    assert_eq!(rt.prepare_poll(0), Poll::Drain(markers(2)));

    assert_eq!(rt.dispatch(PollEvent::Threadpool((worker, id, Js::Int(1)))), Dispatched::Discarded);
    assert_eq!(rt.dispatch(PollEvent::Threadpool((0, 0, Js::Undefined))), Dispatched::Discarded);
    assert_eq!(rt.dispatch(PollEvent::Epoll(io)), Dispatched::Discarded);
    assert_eq!(
        rt.dispatch(PollEvent::EpollFailed((io, "closed".to_string()))),
        Dispatched::Discarded
    );
    assert_eq!(rt.dispatch(PollEvent::Timeout), Dispatched::Discarded);
    assert_eq!(rt.pending_events(), 0);
    assert_eq!(rt.waiting_results(), 0);
    assert_eq!(rt.run_callbacks(), Vec::<(&'static str, Js)>::new());
    assert_eq!(rt.state(), State::Draining);
    rt.stop();
    assert_eq!(rt.dispatch(PollEvent::Epoll(io)), Dispatched::Discarded);
    assert_eq!(rt.state(), State::Stopped);
    assert_eq!(rt.pending_events(), 0);
}

#[test]
fn events_before_the_loop_ticks_are_discarded() {
    let mut rt: Rt = Runtime::new(1);
    let io = rt.register_io_interest(1, "io");
    let (id, dispatch) = rt.submit_task(ThreadPoolTaskKind::Encrypt, 1, "enc");
    assert_eq!(dispatch.map(|d| d.0), Some(0));
    assert_eq!(rt.dispatch(PollEvent::Epoll(io)), Dispatched::Discarded);
    assert_eq!(rt.dispatch(PollEvent::Threadpool((0, id, Js::Int(1)))), Dispatched::Discarded);
    assert_eq!(rt.pending_events(), 2);
    rt.start();
    assert_eq!(rt.dispatch(PollEvent::Epoll(io)), Dispatched::Handled);
    assert_eq!(rt.dispatch(PollEvent::Threadpool((0, id, Js::Int(1)))), Dispatched::Handled);
    assert_eq!(rt.pending_events(), 0);
}

#[test]
fn pending_counts_timers_tasks_and_interests() {
    let mut rt: Rt = Runtime::new(1);
    rt.start();
    rt.set_timeout(0, 5, "t1");
    rt.set_timeout(0, 6, "t2");
    rt.submit_task(ThreadPoolTaskKind::Encrypt, 1, "w1");
    rt.submit_task(ThreadPoolTaskKind::FileRead, 2, "w2");
    rt.submit_task(ThreadPoolTaskKind::FileRead, 3, "w3");
    rt.register_io_interest(1, "i1");
    assert_eq!(rt.pending_timers(), 2);
    assert_eq!(rt.waiting_tasks(), 2);
    assert_eq!(rt.idle_workers(), 0);
    assert_eq!(rt.live_interests(), 1);
    assert_eq!(rt.pending_events(), 6);
    assert_eq!(rt.registered_callbacks(), 6);
    assert_eq!(rt.last_id(), 6);
}

#[test]
fn the_loop_does_not_drain_while_results_wait() {
    let mut rt: Rt = Runtime::new(1);
    rt.start();
    rt.set_timeout(0, 0, "now");
    rt.process_expired_timers(0);
    assert_eq!(rt.pending_events(), 0);
    assert_eq!(rt.prepare_poll(0), Poll::Run);
    assert_eq!(rt.state(), State::Ticking);
    assert_eq!(rt.run_callbacks(), vec![("now", Js::Undefined)]);
    assert_eq!(rt.prepare_poll(0), Poll::Drain(markers(1)));
}

#[test]
fn callbacks_may_register_more_work_for_a_later_pass() {
    let mut rt: Runtime<u8, u32> = Runtime::new(1);
    rt.start();
    rt.set_timeout(0, 10, 3);
    let mut now = 10u64;
    let mut runs = Vec::new();
    loop {
        rt.process_expired_timers(now);
        let batch = rt.run_callbacks();
        for (left, _) in batch {
            runs.push(left);
            if left > 0 {
                rt.set_timeout(now, 10, left - 1);
            }
        }
        assert_eq!(rt.waiting_results(), 0);
        match rt.prepare_poll(now) {
            Poll::Wait(Some(ms)) => now += ms as u64,
            Poll::Drain(m) => {
                assert_eq!(m.len(), 1);
                break;
            }
            other => panic!("unexpected {:?}", other),
        }
    }
    assert_eq!(runs, vec![3, 2, 1, 0]);
    assert_eq!(now, 40);
}

//! The runtime: timers, callbacks, pool and interests behind one interface.
//!
//! The runtime never blocks and never calls back. A driver owns the threads
//! and the channel and runs the loop:
//!
//! 1. `process_expired_timers`, then `run_callbacks` and invoke the batch;
//! 2. `prepare_poll`: on `Wait` publish the timeout and block once on the
//!    channel, on `Drain` leave the loop;
//! 3. `dispatch` the event received, send on what it returns, then
//!    `run_callbacks` and invoke the batch; back to 1.
//!
//! After the loop it sends the shutdown markers, joins the threads and calls
//! `stop`.

use crate::event::{poll_timeout, poll_timeout_of, PollEvent, ReadinessInterest};
use crate::js::Js;
use crate::model::{timer_results, Dispatched, LoopView, Poll, State};
use crate::pool::{Completion, Pool};
use crate::registry::Registry;
use crate::task::{Task, ThreadPoolTaskKind};
use crate::timers::{due, ids, timeout_at, Timers};
use std::collections::HashMap;
use vstd::prelude::*;

verus! {

/// The bookkeeping of one event loop.
///
/// `C` is a callback and `W` the work of a task. The runtime stores both and
/// hands them back when their time has come; it never looks inside either.
pub struct Runtime<C, W> {
    state: State,
    timers: Timers,
    registry: Registry<C>,
    pool: Pool<W>,
    interests: HashMap<usize, u8>,
    pending_events: usize,
}

impl<C, W> View for Runtime<C, W> {
    type V = LoopView<C, W>;

    closed spec fn view(&self) -> LoopView<C, W> {
        LoopView {
            state: self.state,
            timers: self.timers@,
            callbacks: self.registry.callbacks(),
            ready: self.registry.ready(),
            last_id: self.registry.last_id(),
            pool: self.pool@,
            interests: self.interests@,
            pending: self.pending_events as nat,
        }
    }
}

impl<C, W> Runtime<C, W> {
    /// The runtime's invariant.
    pub open spec fn wf(&self) -> bool {
        self@.wf()
    }

    /// A runtime with `worker_count` workers and nothing registered.
    pub fn new(worker_count: usize) -> (rt: Self)
        ensures
            rt.wf(),
            rt@ == LoopView::<C, W>::fresh(worker_count as nat),
    {
        proof {
            LoopView::<C, W>::lemma_fresh_wf(worker_count as nat);
        }
        Runtime {
            state: State::Idle,
            timers: Timers::new(),
            registry: Registry::new(),
            pool: Pool::new(worker_count),
            interests: HashMap::new(),
            pending_events: 0,
        }
    }

    /// Where the loop stands in its life.
    pub fn state(&self) -> (s: State)
        ensures
            s == self@.state,
    {
        self.state
    }

    /// Whether timers, tasks and interests can be registered: before the
    /// loop drains, and as long as callback ids are left.
    pub fn is_accepting(&self) -> (b: bool)
        ensures
            b == (self@.accepting() && self@.last_id < usize::MAX),
    {
        let open = match self.state {
            State::Idle => true,
            State::Ticking => true,
            _ => false,
        };
        open && self.registry.issued() < usize::MAX
    }

    /// The count of pending events: outstanding timers, tasks in flight and
    /// live interests.
    pub fn pending_events(&self) -> (n: usize)
        requires
            self.wf(),
        ensures
            n == self@.pending,
            n == self@.timers.len() + self@.pool.in_flight() + self@.interests.len(),
    {
        self.pending_events
    }

    /// The number of pending timers.
    pub fn pending_timers(&self) -> (n: usize)
        ensures
            n == self@.timers.len(),
    {
        self.timers.len()
    }

    /// The number of tasks that wait for a worker.
    pub fn waiting_tasks(&self) -> (n: usize)
        ensures
            n == self@.pool.backlog.len(),
    {
        self.pool.waiting()
    }

    /// The number of idle workers.
    pub fn idle_workers(&self) -> (n: usize)
        ensures
            n == self@.pool.idle.len(),
    {
        self.pool.idle_workers()
    }

    /// The number of live interests.
    pub fn live_interests(&self) -> (n: usize)
        ensures
            n == self@.interests.len(),
    {
        self.interests.len()
    }

    /// The number of results that wait for their callbacks.
    pub fn waiting_results(&self) -> (n: usize)
        ensures
            n == self@.ready.len(),
    {
        self.registry.ready_len()
    }

    /// The number of registered callbacks.
    pub fn registered_callbacks(&self) -> (n: usize)
        ensures
            n == self@.callbacks.len(),
    {
        self.registry.len()
    }

    /// The number of workers.
    pub fn worker_count(&self) -> (n: usize)
        ensures
            n == self@.pool.size(),
    {
        self.pool.size()
    }

    /// The callback id issued last; zero before the first.
    pub fn last_id(&self) -> (id: usize)
        ensures
            id == self@.last_id,
    {
        self.registry.issued()
    }

    /// Ticking begins. Anywhere but in `Idle` this changes nothing.
    pub fn start(&mut self)
        requires
            old(self).wf(),
        ensures
            final(self).wf(),
            final(self)@ == old(self)@.start(),
    {
        proof {
            self@.lemma_start_wf();
        }
        match self.state {
            State::Idle => {
                self.state = State::Ticking;
            },
            _ => {},
        }
    }

    /// Registers `callback` to run once `delay` milliseconds after `now`,
    /// and returns its id.
    pub fn set_timeout(&mut self, now: u64, delay: u64, callback: C) -> (id: usize)
        requires
            old(self).wf(),
            old(self)@.accepting(),
            old(self)@.last_id < usize::MAX,
        ensures
            final(self).wf(),
            final(self)@ == old(self)@.set_timeout(now, delay, callback),
            id == old(self)@.next_id(),
            final(self)@.pending == old(self)@.pending + 1,
    {
        proof {
            self@.lemma_set_timeout_wf(now, delay, callback);
        }
        let id = self.registry.register(callback);
        let deadline = now.saturating_add(delay);
        self.timers.insert(deadline, id);
        self.pending_events = self.pending_events + 1;
        id
    }

    /// Cancels the timer `id` if it has not fired: the timer and its
    /// callback are dropped and one event fewer is pending. Says whether
    /// there was such a timer.
    pub fn cancel_timer(&mut self, id: usize) -> (cancelled: bool)
        requires
            old(self).wf(),
        ensures
            final(self).wf(),
            final(self)@ == old(self)@.cancel_timer(id),
            cancelled == ids(old(self)@.timers).contains(id),
            final(self)@.pending == old(self)@.pending - if cancelled {
                1int
            } else {
                0int
            },
    {
        proof {
            self@.lemma_cancel_timer_wf(id);
            ids(self@.timers).index_of_first_ensures(id);
        }
        if self.timers.cancel(id) {
            let _ = self.registry.fire(id);
            self.pending_events = self.pending_events - 1;
            true
        } else {
            false
        }
    }

    /// Takes a task for the pool and registers `callback` to run with its
    /// result. Returns the id, and, where a worker is idle, that worker and
    /// the task for the caller to send; otherwise the task waits its turn.
    pub fn submit_task(&mut self, kind: ThreadPoolTaskKind, work: W, callback: C) -> (r: (
        usize,
        Option<(usize, Task<W>)>,
    ))
        requires
            old(self).wf(),
            old(self)@.accepting(),
            old(self)@.last_id < usize::MAX,
            !(kind is Close),
        ensures
            final(self).wf(),
            final(self)@ == old(self)@.submit_task(kind, work, callback),
            r.0 == old(self)@.next_id(),
            r.1 == old(self)@.pool.submit(old(self)@.task_of(kind, work)).1,
            final(self)@.pending == old(self)@.pending + 1,
    {
        proof {
            self@.lemma_submit_task_wf(kind, work, callback);
        }
        let id = self.registry.register(callback);
        let task = Task { task: Some(work), callback_id: id, kind };
        let sent = self.pool.submit(task);
        self.pending_events = self.pending_events + 1;
        (id, sent)
    }

    /// Registers `callback` to run when the source that the caller watches
    /// under the returned id is ready as `mask` asks. The interest ends with
    /// its first notification.
    pub fn register_io_interest(&mut self, mask: u8, callback: C) -> (id: usize)
        requires
            old(self).wf(),
            old(self)@.accepting(),
            old(self)@.last_id < usize::MAX,
        ensures
            final(self).wf(),
            final(self)@ == old(self)@.register_io_interest(mask, callback),
            id == old(self)@.next_id(),
            final(self)@.pending == old(self)@.pending + 1,
    {
        proof {
            self@.lemma_register_io_interest_wf(mask, callback);
        }
        let id = self.registry.register(callback);
        self.interests.insert(id, mask);
        self.pending_events = self.pending_events + 1;
        id
    }

    /// The live interest `id`, if there is one.
    pub fn interest(&self, id: usize) -> (interest: Option<ReadinessInterest>)
        ensures
            interest == if self@.interests.contains_key(id) {
                Some((ReadinessInterest { id, mask: self@.interests[id] }))
            } else {
                None
            },
    {
        match self.interests.get(&id) {
            Some(m) => Some(ReadinessInterest { id, mask: *m }),
            None => None,
        }
    }

    /// Fires every timer that is due at `now`: it leaves the store, and its
    /// callback is made ready with an empty result, in firing order.
    pub fn process_expired_timers(&mut self, now: u64)
        requires
            old(self).wf(),
        ensures
            final(self).wf(),
            final(self)@ == old(self)@.expire(now),
    {
        proof {
            self@.lemma_expire_wf(now);
        }
        let fired = self.timers.expire(now);
        let n = fired.len();
        let mut i: usize = 0;
        while i < n
            invariant
                i <= n,
                n == fired@.len(),
                self.state == old(self).state,
                self.timers@ == crate::timers::later(old(self).timers@, now),
                self.pool == old(self).pool,
                self.interests == old(self).interests,
                self.pending_events == old(self).pending_events,
                self.registry.callbacks() == old(self).registry.callbacks(),
                self.registry.last_id() == old(self).registry.last_id(),
                self.registry.ready() == old(self).registry.ready() + timer_results(
                    fired@.take(i as int),
                ),
            decreases n - i,
        {
            proof {
                assert(fired@.take(i as int + 1) =~= fired@.take(i as int).push(fired@[i as int]));
                assert(timer_results(fired@.take(i as int + 1)) =~= timer_results(
                    fired@.take(i as int),
                ).push((fired@[i as int], Js::Undefined)));
            }
            self.registry.mark_ready(fired[i], Js::Undefined);
            i += 1;
        }
        proof {
            assert(fired@.take(n as int) =~= fired@);
        }
        self.pending_events = self.pending_events - n;
    }

    /// One drain pass: hands out the callbacks whose results wait, each with
    /// its result, for the caller to invoke in this order. What they
    /// register while they run belongs to a later pass.
    pub fn run_callbacks(&mut self) -> (batch: Vec<(C, Js)>)
        requires
            old(self).wf(),
        ensures
            final(self).wf(),
            batch@ == old(self)@.batch(),
            final(self)@ == old(self)@.run_callbacks(),
            batch@.len() == old(self)@.ready.len(),
            forall|i: int|
                0 <= i < batch@.len() ==> (#[trigger] batch@[i]) == (
                    old(self)@.callbacks[old(self)@.ready[i].0],
                    old(self)@.ready[i].1,
                ),
    {
        proof {
            self@.lemma_run_callbacks_wf();
            self@.lemma_every_result_is_served();
        }
        self.registry.run_ready_callbacks()
    }

    /// The timeout for the poller at `now`: the time until the next timer is
    /// due, `None` when there is no timer.
    pub fn get_next_timer(&self, now: u64) -> (timeout: Option<i32>)
        ensures
            timeout == poll_timeout_of(timeout_at(self@.timers, now)),
            timeout is None <==> self@.timers.len() == 0,
    {
        poll_timeout(self.timers.next_timeout(now))
    }

    /// Books the completion that worker `thread_id` reports for the task
    /// `callback_id`: the callback is made ready with `data`, one event
    /// fewer is pending, and the worker takes the next waiting task. A
    /// report that matches nothing the pool runs, or that arrives while the
    /// loop is not ticking, is discarded.
    pub fn process_threadpool_events(&mut self, thread_id: usize, callback_id: usize, data: Js) -> (r:
        Dispatched<W>)
        requires
            old(self).wf(),
        ensures
            final(self).wf(),
            final(self)@ == old(self)@.complete(thread_id, callback_id, data),
            r == old(self)@.completion_outcome(thread_id, callback_id),
    {
        proof {
            self@.lemma_complete_wf(thread_id, callback_id, data);
            self@.pool.lemma_complete(thread_id, callback_id);
        }
        match self.state {
            State::Ticking => {},
            _ => {
                return Dispatched::Discarded;
            },
        }
        match self.pool.complete(thread_id, callback_id) {
            Completion::Stray => Dispatched::Discarded,
            Completion::Idle => {
                self.registry.mark_ready(callback_id, data);
                self.pending_events = self.pending_events - 1;
                Dispatched::Handled
            },
            Completion::Next(task) => {
                self.registry.mark_ready(callback_id, data);
                self.pending_events = self.pending_events - 1;
                Dispatched::Next(thread_id, task)
            },
        }
    }

    /// Books a notification for the interest `event_id`: the interest ends,
    /// its callback is made ready with `result`, and one event fewer is
    /// pending. A notification for no live interest, or one that arrives
    /// while the loop is not ticking, is discarded. Says whether the
    /// notification was booked.
    pub fn process_epoll_events(&mut self, event_id: usize, result: Js) -> (handled: bool)
        requires
            old(self).wf(),
        ensures
            final(self).wf(),
            final(self)@ == old(self)@.io_ready(event_id, result),
            handled == old(self)@.awaits_readiness(event_id),
    {
        proof {
            self@.lemma_io_ready_wf(event_id, result);
        }
        match self.state {
            State::Ticking => {},
            _ => {
                return false;
            },
        }
        match self.interests.remove(&event_id) {
            Some(_) => {
                self.registry.mark_ready(event_id, result);
                self.pending_events = self.pending_events - 1;
                true
            },
            None => {
                assert(self.interests@ =~= old(self).interests@);
                false
            },
        }
    }

    /// Books one event from the channel.
    pub fn dispatch(&mut self, event: PollEvent) -> (r: Dispatched<W>)
        requires
            old(self).wf(),
        ensures
            final(self).wf(),
            final(self)@ == old(self)@.dispatch(event),
            r == old(self)@.dispatch_outcome(event),
    {
        match event {
            PollEvent::Threadpool((worker, callback_id, data)) => self.process_threadpool_events(
                worker,
                callback_id,
                data,
            ),
            PollEvent::Epoll(id) => {
                if self.process_epoll_events(id, Js::Undefined) {
                    Dispatched::Handled
                } else {
                    Dispatched::Discarded
                }
            },
            PollEvent::EpollFailed((id, message)) => {
                if self.process_epoll_events(id, Js::Error(message)) {
                    Dispatched::Handled
                } else {
                    Dispatched::Discarded
                }
            },
            PollEvent::Timeout => Dispatched::Discarded,
        }
    }

    /// Decides what the loop does next at `now`. While results wait, their
    /// callbacks run first. With nothing pending the loop begins to drain
    /// and gets one shutdown marker for each worker. Otherwise it waits for
    /// one event, no longer than until the next timer is due.
    pub fn prepare_poll(&mut self, now: u64) -> (next: Poll<W>)
        requires
            old(self).wf(),
        ensures
            final(self).wf(),
            final(self)@ == old(self)@.prepare_poll(),
            !(old(self)@.state is Ticking) <==> next is Halted,
            old(self)@.state is Ticking && old(self)@.ready.len() > 0 <==> next is Run,
            old(self)@.drains() <==> next is Drain,
            next matches Poll::Drain(markers) ==> {
                &&& markers@.len() == old(self)@.pool.size()
                &&& forall|w: int| 0 <= w < markers@.len() ==> (#[trigger] markers@[w]).kind is Close
            },
            next matches Poll::Wait(timeout) ==> {
                &&& old(self)@.pending > 0
                &&& timeout == poll_timeout_of(timeout_at(old(self)@.timers, now))
                &&& timeout is None <==> old(self)@.timers.len() == 0
            },
    {
        proof {
            self@.lemma_prepare_poll_wf();
        }
        match self.state {
            State::Ticking => {},
            _ => {
                return Poll::Halted;
            },
        }
        if self.registry.ready_len() > 0 {
            Poll::Run
        } else if self.pending_events == 0 {
            self.state = State::Draining;
            Poll::Drain(self.pool.shutdown_tasks())
        } else {
            Poll::Wait(self.get_next_timer(now))
        }
    }

    /// The loop is torn down: workers and poller were joined. Anywhere but
    /// in `Draining` this changes nothing.
    pub fn stop(&mut self)
        requires
            old(self).wf(),
        ensures
            final(self).wf(),
            final(self)@ == old(self)@.stop(),
    {
        proof {
            self@.lemma_stop_wf();
        }
        match self.state {
            State::Draining => {
                self.state = State::Stopped;
            },
            _ => {},
        }
    }
}

} // verus!

//! The event loop as a state machine over mathematical values.
//!
//! Every operation of the runtime is a function from one [`LoopView`] to the
//! next. The executable runtime is proved to follow these functions step by
//! step, and the laws of the loop are stated and proved over them.

use crate::event::PollEvent;
use crate::js::Js;
use crate::pool::{Completion, PoolView};
use crate::registry::{drained, ready_ids};
use crate::task::{Task, ThreadPoolTaskKind};
use crate::timers::{due, ids, later, position, sorted, with_timer, Timer};
use vstd::prelude::*;

verus! {

/// Where the loop stands in its life.
#[derive(Debug, Clone, Copy, PartialEq, Eq, Structural)]
pub enum State {
    /// Constructed; ticking has not begun.
    Idle,
    /// Ticking: events are dispatched and callbacks run.
    Ticking,
    /// Nothing is pending any more; workers and poller are being joined.
    Draining,
    /// Torn down.
    Stopped,
}

/// What the loop does between running its callbacks and its next tick.
#[derive(Debug, PartialEq, Eq)]
pub enum Poll<W> {
    /// Results wait for their callbacks: run those first.
    Run,
    /// Block once on the event channel, for at most this many milliseconds
    /// (`None`: until an event arrives).
    Wait(Option<i32>),
    /// Nothing is pending: send one of these markers to each worker, join
    /// the workers, close and join the poller.
    Drain(Vec<Task<W>>),
    /// The loop is not ticking.
    Halted,
}

/// What became of an event that the loop was given.
#[derive(Debug, PartialEq, Eq)]
pub enum Dispatched<W> {
    /// The event named nothing that was pending, or the loop was not
    /// ticking: nothing changed.
    Discarded,
    /// The event's callback was made ready.
    Handled,
    /// The event's callback was made ready, and the worker that reported is
    /// to be sent the task given here.
    Next(usize, Task<W>),
}

/// The state of the loop.
pub struct LoopView<C, W> {
    pub state: State,
    /// The pending timers in firing order.
    pub timers: Seq<Timer>,
    /// The registered callbacks by id.
    pub callbacks: Map<usize, C>,
    /// The results that wait for their callbacks, oldest first.
    pub ready: Seq<(usize, Js)>,
    /// The callback id issued last.
    pub last_id: usize,
    pub pool: PoolView<W>,
    /// The live readiness interests: the requested mask by interest id.
    pub interests: Map<usize, u8>,
    /// The count of pending events.
    pub pending: nat,
}

/// The instant at which a timer set at `now` for `delay` milliseconds is
/// due. The clock's last instant stands for every later one.
pub open spec fn deadline_of(now: u64, delay: u64) -> u64 {
    if now + delay > u64::MAX {
        u64::MAX
    } else {
        (now + delay) as u64
    }
}

/// The callback ids of `tasks`, task by task.
pub open spec fn task_ids<W>(tasks: Seq<Task<W>>) -> Seq<usize> {
    tasks.map_values(|t: Task<W>| t.callback_id)
}

/// The ready entries of timers that fired: each id with an empty result.
pub open spec fn timer_results(fired: Seq<usize>) -> Seq<(usize, Js)> {
    fired.map_values(|id: usize| (id, Js::Undefined))
}

impl<C, W> LoopView<C, W> {
    /// How many things wait for the callback `id`: pending timers, tasks
    /// that run or wait, live interests, and results that wait to be passed
    /// to it.
    pub open spec fn claims(self, id: usize) -> nat {
        ids(self.timers).to_multiset().count(id) + self.pool.running.to_multiset().count(Some(id))
            + task_ids(self.pool.backlog).to_multiset().count(id) + (if self.interests.contains_key(
            id,
        ) {
            1nat
        } else {
            0nat
        }) + ready_ids(self.ready).to_multiset().count(id)
    }

    /// Exactly one thing waits for `id` if a callback is registered under
    /// it, and nothing if none is.
    pub open spec fn claimed_once(self, id: usize) -> bool {
        self.claims(id) == if self.callbacks.contains_key(id) {
            1nat
        } else {
            0nat
        }
    }

    /// The loop's invariant. The count of pending events is the number of
    /// outstanding timers, tasks in flight and live interests taken
    /// together; it never exceeds the number of ids issued; once the loop
    /// drains, nothing is pending; and exactly one thing waits for each
    /// registered callback, and nothing for any other id.
    pub open spec fn wf(self) -> bool {
        &&& sorted(self.timers)
        &&& self.pool.wf()
        &&& self.callbacks.dom().finite()
        &&& self.interests.dom().finite()
        &&& forall|id: usize| self.callbacks.contains_key(id) ==> 1 <= id <= self.last_id
        &&& forall|id: usize| self.interests.contains_key(id) ==> 1 <= id <= self.last_id
        &&& self.pending == self.timers.len() + self.pool.in_flight() + self.interests.len()
        &&& self.pending <= self.last_id
        &&& (self.state is Draining || self.state is Stopped) ==> self.pending == 0
        &&& forall|id: usize| #[trigger] self.claimed_once(id)
    }

    /// Whether timers, tasks and interests can be registered.
    pub open spec fn accepting(self) -> bool {
        self.state is Idle || self.state is Ticking
    }

    /// A loop with `workers` idle workers and nothing registered.
    pub open spec fn fresh(workers: nat) -> Self {
        LoopView {
            state: State::Idle,
            timers: Seq::empty(),
            callbacks: Map::empty(),
            ready: Seq::empty(),
            last_id: 0,
            pool: PoolView::fresh(workers),
            interests: Map::empty(),
            pending: 0,
        }
    }

    /// The id that the next registration gets.
    pub open spec fn next_id(self) -> usize {
        (self.last_id + 1) as usize
    }

    /// Ticking begins.
    pub open spec fn start(self) -> Self {
        if self.state is Idle {
            LoopView { state: State::Ticking, ..self }
        } else {
            self
        }
    }

    /// A timer is set at `now` for `delay` milliseconds.
    pub open spec fn set_timeout(self, now: u64, delay: u64, callback: C) -> Self {
        let id = self.next_id();
        LoopView {
            timers: with_timer(
                self.timers,
                Timer { deadline: deadline_of(now, delay), callback_id: id },
            ),
            callbacks: self.callbacks.insert(id, callback),
            last_id: id,
            pending: self.pending + 1,
            ..self
        }
    }

    /// The timer `id` is cancelled, if it is pending: it is taken out
    /// together with its callback.
    pub open spec fn cancel_timer(self, id: usize) -> Self {
        match position(self.timers, id) {
            Some(i) => LoopView {
                timers: self.timers.remove(i),
                callbacks: self.callbacks.remove(id),
                pending: (self.pending - 1) as nat,
                ..self
            },
            None => self,
        }
    }

    /// The task that a submission of `work` makes.
    pub open spec fn task_of(self, kind: ThreadPoolTaskKind, work: W) -> Task<W> {
        Task { task: Some(work), callback_id: self.next_id(), kind }
    }

    /// A task is submitted.
    pub open spec fn submit_task(self, kind: ThreadPoolTaskKind, work: W, callback: C) -> Self {
        let id = self.next_id();
        LoopView {
            callbacks: self.callbacks.insert(id, callback),
            last_id: id,
            pool: self.pool.submit(self.task_of(kind, work)).0,
            pending: self.pending + 1,
            ..self
        }
    }

    /// An interest in the readiness `mask` of some source is registered.
    pub open spec fn register_io_interest(self, mask: u8, callback: C) -> Self {
        let id = self.next_id();
        LoopView {
            callbacks: self.callbacks.insert(id, callback),
            last_id: id,
            interests: self.interests.insert(id, mask),
            pending: self.pending + 1,
            ..self
        }
    }

    /// The timers that are due at `now` fire: each leaves the store and its
    /// callback becomes ready, in firing order, with an empty result.
    pub open spec fn expire(self, now: u64) -> Self {
        LoopView {
            timers: later(self.timers, now),
            ready: self.ready + timer_results(ids(due(self.timers, now))),
            pending: (self.pending - due(self.timers, now).len()) as nat,
            ..self
        }
    }

    /// The callbacks that one drain pass hands out, each with its result.
    pub open spec fn batch(self) -> Seq<(C, Js)> {
        drained(self.callbacks, self.ready).0
    }

    /// One drain pass was made.
    pub open spec fn run_callbacks(self) -> Self {
        LoopView {
            callbacks: drained(self.callbacks, self.ready).1,
            ready: Seq::empty(),
            ..self
        }
    }

    /// Whether a completion that `worker` reports for `callback_id` is one
    /// the loop waits for.
    pub open spec fn awaits_completion(self, worker: usize, callback_id: usize) -> bool {
        self.state is Ticking && self.pool.accepts(worker, callback_id)
    }

    /// A worker reported a completion.
    pub open spec fn complete(self, worker: usize, callback_id: usize, data: Js) -> Self {
        if self.awaits_completion(worker, callback_id) {
            LoopView {
                ready: self.ready.push((callback_id, data)),
                pool: self.pool.complete(worker, callback_id).0,
                pending: (self.pending - 1) as nat,
                ..self
            }
        } else {
            self
        }
    }

    /// What a completion means for the worker that reported it.
    pub open spec fn completion_outcome(self, worker: usize, callback_id: usize) -> Dispatched<W> {
        if self.awaits_completion(worker, callback_id) {
            match self.pool.complete(worker, callback_id).1 {
                Completion::Next(task) => Dispatched::Next(worker, task),
                _ => Dispatched::Handled,
            }
        } else {
            Dispatched::Discarded
        }
    }

    /// Whether a readiness notification for `id` is one the loop waits for.
    pub open spec fn awaits_readiness(self, id: usize) -> bool {
        self.state is Ticking && self.interests.contains_key(id)
    }

    /// The poller reported the interest `id`, ready or in error. An interest
    /// is served once: it ends with its first notification.
    pub open spec fn io_ready(self, id: usize, result: Js) -> Self {
        if self.awaits_readiness(id) {
            LoopView {
                ready: self.ready.push((id, result)),
                interests: self.interests.remove(id),
                pending: (self.pending - 1) as nat,
                ..self
            }
        } else {
            self
        }
    }

    /// An event was taken from the channel.
    pub open spec fn dispatch(self, event: PollEvent) -> Self {
        match event {
            PollEvent::Threadpool((worker, callback_id, data)) => self.complete(
                worker,
                callback_id,
                data,
            ),
            PollEvent::Epoll(id) => self.io_ready(id, Js::Undefined),
            PollEvent::EpollFailed((id, message)) => self.io_ready(id, Js::Error(message)),
            PollEvent::Timeout => self,
        }
    }

    /// What an event means for the driver.
    pub open spec fn dispatch_outcome(self, event: PollEvent) -> Dispatched<W> {
        match event {
            PollEvent::Threadpool((worker, callback_id, data)) => self.completion_outcome(
                worker,
                callback_id,
            ),
            PollEvent::Epoll(id) => if self.awaits_readiness(id) {
                Dispatched::Handled
            } else {
                Dispatched::Discarded
            },
            PollEvent::EpollFailed((id, message)) => if self.awaits_readiness(id) {
                Dispatched::Handled
            } else {
                Dispatched::Discarded
            },
            PollEvent::Timeout => Dispatched::Discarded,
        }
    }

    /// Whether the loop, asked what to do next, begins to drain.
    pub open spec fn drains(self) -> bool {
        self.state is Ticking && self.ready.len() == 0 && self.pending == 0
    }

    /// The loop was asked what to do next.
    pub open spec fn prepare_poll(self) -> Self {
        if self.drains() {
            LoopView { state: State::Draining, ..self }
        } else {
            self
        }
    }

    /// Workers and poller were joined.
    pub open spec fn stop(self) -> Self {
        if self.state is Draining {
            LoopView { state: State::Stopped, ..self }
        } else {
            self
        }
    }
}

} // verus!

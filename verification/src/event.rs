//! What the background threads send to the loop.

use crate::js::Js;
use vstd::prelude::*;

verus! {

/// One event on the channel that the loop consumes. It is the only thing
/// that crosses from a worker or the poller to the loop, and whatever went
/// wrong on the other side travels inside it.
#[derive(Debug, PartialEq, Eq)]
pub enum PollEvent {
    /// A worker finished a task: the worker's index, the callback id of the
    /// task, and what the task produced.
    Threadpool((usize, usize, Js)),
    /// A watched source is ready: the id of the interest.
    Epoll(usize),
    /// A watched source went bad: the id of the interest and why.
    EpollFailed((usize, String)),
    /// The poller's wait ran out. Due timers are found by the loop itself.
    Timeout,
}

/// The event by which worker `worker` reports what became of the task
/// `callback_id`. A failed task is reported like any other, under the same
/// callback id, with the failure as its result.
pub open spec fn completion_of(worker: usize, callback_id: usize, outcome: Result<Js, String>)
    -> PollEvent {
    match outcome {
        Ok(result) => PollEvent::Threadpool((worker, callback_id, result)),
        Err(message) => PollEvent::Threadpool((worker, callback_id, Js::Error(message))),
    }
}

/// Wraps the outcome of a task for the channel: what the work returned, or
/// the message of the fault that was caught at the worker's boundary.
pub fn completion(worker: usize, callback_id: usize, outcome: Result<Js, String>) -> (event:
    PollEvent)
    ensures
        event == completion_of(worker, callback_id, outcome),
{
    match outcome {
        Ok(result) => PollEvent::Threadpool((worker, callback_id, result)),
        Err(message) => PollEvent::Threadpool((worker, callback_id, Js::Error(message))),
    }
}

/// The event for one source that the poller found ready, or in error.
pub open spec fn readiness_of(interest_id: usize, failure: Option<String>) -> PollEvent {
    match failure {
        None => PollEvent::Epoll(interest_id),
        Some(message) => PollEvent::EpollFailed((interest_id, message)),
    }
}

/// Wraps one readiness notification for the channel. A source in error is
/// reported under its own variant, so that its callback can tell.
pub fn readiness(interest_id: usize, failure: Option<String>) -> (event: PollEvent)
    ensures
        event == readiness_of(interest_id, failure),
{
    match failure {
        None => PollEvent::Epoll(interest_id),
        Some(message) => PollEvent::EpollFailed((interest_id, message)),
    }
}

/// The bit of a readiness mask that asks to be told when a source can be
/// read.
pub const READABLE: u8 = 1;

/// The bit of a readiness mask that asks to be told when a source can be
/// written.
pub const WRITABLE: u8 = 2;

/// One registration with the poller: the id under which a source is
/// watched, and the readiness that is asked for.
#[derive(Debug, Clone, Copy, PartialEq, Eq, Structural)]
pub struct ReadinessInterest {
    pub id: usize,
    pub mask: u8,
}

impl ReadinessInterest {
    /// Whether the mask asks for readiness to read.
    pub open spec fn readable(self) -> bool {
        self.mask & READABLE != 0
    }

    /// Whether the mask asks for readiness to write.
    pub open spec fn writable(self) -> bool {
        self.mask & WRITABLE != 0
    }

    /// Whether the mask asks to be told when the source can be read.
    pub fn wants_read(&self) -> (b: bool)
        ensures
            b == self.readable(),
    {
        self.mask & READABLE != 0
    }

    /// Whether the mask asks to be told when the source can be written.
    pub fn wants_write(&self) -> (b: bool)
        ensures
            b == self.writable(),
    {
        self.mask & WRITABLE != 0
    }

    /// Whether the mask asks for anything that the poller can watch for.
    pub fn is_watchable(&self) -> (b: bool)
        ensures
            b == (self.readable() || self.writable()),
    {
        self.wants_read() || self.wants_write()
    }
}

/// The wait that the poller is given for a sleep of `sleep` milliseconds:
/// without limit for `None`, and never longer than the poller can express.
pub open spec fn poll_timeout_of(sleep: Option<u64>) -> Option<i32> {
    match sleep {
        None => None,
        Some(ms) => if ms > i32::MAX {
            Some(i32::MAX)
        } else {
            Some(ms as i32)
        },
    }
}

/// Converts the time until the next timer into the poller's timeout:
/// `None` waits without limit, `Some(0)` does not wait.
pub fn poll_timeout(sleep: Option<u64>) -> (timeout: Option<i32>)
    ensures
        timeout == poll_timeout_of(sleep),
        timeout is None <==> sleep is None,
        timeout matches Some(t) ==> 0 <= t,
{
    match sleep {
        None => None,
        Some(ms) => if ms > 2147483647u64 {
            Some(2147483647i32)
        } else {
            Some(ms as i32)
        },
    }
}

} // verus!

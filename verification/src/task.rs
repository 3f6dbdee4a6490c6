//! Units of work for the worker pool.

use vstd::prelude::*;

verus! {

/// What a task asks of the worker that dequeues it.
///
/// `FileRead` stands for blocking I/O, `Encrypt` for CPU-bound work. `Close`
/// is the shutdown marker: a worker that dequeues it leaves its loop.
#[derive(Debug, Clone, Copy, PartialEq, Eq, Structural)]
pub enum ThreadPoolTaskKind {
    FileRead,
    Encrypt,
    Close,
}

impl ThreadPoolTaskKind {
    /// A short name for traces.
    pub fn name(&self) -> (s: &'static str)
        ensures
            s@ == match *self {
                ThreadPoolTaskKind::FileRead => "File read"@,
                ThreadPoolTaskKind::Encrypt => "Encrypt"@,
                ThreadPoolTaskKind::Close => "Close"@,
            },
    {
        match self {
            ThreadPoolTaskKind::FileRead => "File read",
            ThreadPoolTaskKind::Encrypt => "Encrypt",
            ThreadPoolTaskKind::Close => "Close",
        }
    }
}

/// One entry of the pool's distribution queue.
///
/// `W` is the work itself, a one-shot computation that the library stores and
/// hands on without ever looking inside. A shutdown marker carries none.
#[derive(Debug, PartialEq, Eq)]
pub struct Task<W> {
    pub task: Option<W>,
    pub callback_id: usize,
    pub kind: ThreadPoolTaskKind,
}

/// What a worker does with a task it has just dequeued.
#[derive(Debug, PartialEq, Eq)]
pub enum WorkerStep<W> {
    /// Run the work, then report its result under this callback id.
    Run(W, usize),
    /// Report a failure under this callback id: the task carried no work.
    Fail(usize),
    /// Leave the loop.
    Exit,
}

impl<W> Task<W> {
    /// A task that runs `work` and reports under `callback_id`.
    pub fn new(kind: ThreadPoolTaskKind, work: W, callback_id: usize) -> (t: Self)
        ensures
            t.task == Some(work),
            t.callback_id == callback_id,
            t.kind == kind,
    {
        Task { task: Some(work), callback_id, kind }
    }

    /// The shutdown marker.
    pub fn close() -> (t: Self)
        ensures
            t.task is None,
            t.callback_id == 0,
            t.kind is Close,
    {
        Task { task: None, callback_id: 0, kind: ThreadPoolTaskKind::Close }
    }

    /// Whether this is a shutdown marker.
    pub fn is_close(&self) -> (r: bool)
        ensures
            r == (self.kind is Close),
    {
        match self.kind {
            ThreadPoolTaskKind::Close => true,
            _ => false,
        }
    }

    /// The step of a worker's loop that follows a dequeue.
    pub open spec fn step_of(self) -> WorkerStep<W> {
        match self.kind {
            ThreadPoolTaskKind::Close => WorkerStep::Exit,
            _ => match self.task {
                Some(w) => WorkerStep::Run(w, self.callback_id),
                None => WorkerStep::Fail(self.callback_id),
            },
        }
    }

    /// Decides what the worker that dequeued it does next: it exits on
    /// a shutdown marker and on nothing else.
    pub fn into_step(self) -> (s: WorkerStep<W>)
        ensures
            s == self.step_of(),
            s is Exit <==> self.kind is Close,
    {
        match self.kind {
            ThreadPoolTaskKind::Close => WorkerStep::Exit,
            _ => match self.task {
                Some(w) => WorkerStep::Run(w, self.callback_id),
                None => WorkerStep::Fail(self.callback_id),
            },
        }
    }
}

} // verus!

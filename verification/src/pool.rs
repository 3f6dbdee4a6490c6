//! The loop's side of the worker pool: which worker runs what, and which
//! tasks wait for a worker.
//!
//! The pool has a fixed number of workers and owns the distribution queue.
//! A task goes to the worker that has been idle longest; while none is idle
//! it waits in the backlog, and the next worker to finish takes the oldest
//! waiting task. Submitting never blocks, and no idle worker is passed over
//! for ever, since idle workers are served first in, first out.

use crate::task::Task;
use std::collections::VecDeque;
use vstd::prelude::*;

verus! {

/// The state of a pool as the loop sees it.
pub struct PoolView<W> {
    /// For each worker, the callback id of the task it runs, if it runs one.
    pub running: Seq<Option<usize>>,
    /// The idle workers, the one idle longest first.
    pub idle: Seq<usize>,
    /// The tasks that wait for a worker, oldest first.
    pub backlog: Seq<Task<W>>,
}

/// What became of a completion that a worker reported.
#[derive(Debug, PartialEq, Eq)]
pub enum Completion<W> {
    /// The worker was not running that task: nothing changed.
    Stray,
    /// The worker is idle now.
    Idle,
    /// The worker takes the given task from the backlog next.
    Next(Task<W>),
}

/// The number of workers that run a task.
pub open spec fn busy(running: Seq<Option<usize>>) -> nat
    decreases running.len(),
{
    if running.len() == 0 {
        0
    } else {
        busy(running.drop_last()) + if running.last() is Some {
            1nat
        } else {
            0nat
        }
    }
}

/// Changing what one worker runs changes the number of busy workers by that
/// worker alone.
pub proof fn lemma_busy_update(running: Seq<Option<usize>>, w: int, v: Option<usize>)
    requires
        0 <= w < running.len(),
    ensures
        busy(running.update(w, v)) + (if running[w] is Some {
            1nat
        } else {
            0nat
        }) == busy(running) + (if v is Some {
            1nat
        } else {
            0nat
        }),
    decreases running.len(),
{
    let after = running.update(w, v);
    if w == running.len() - 1 {
        assert(after.drop_last() =~= running.drop_last());
    } else {
        assert(after.drop_last() =~= running.drop_last().update(w, v));
        lemma_busy_update(running.drop_last(), w, v);
    }
}

/// Where no worker runs anything, none is busy.
pub proof fn lemma_busy_none(running: Seq<Option<usize>>)
    requires
        forall|w: int| 0 <= w < running.len() ==> running[w] is None,
    ensures
        busy(running) == 0,
    decreases running.len(),
{
    if running.len() > 0 {
        assert forall|w: int| 0 <= w < running.drop_last().len() implies running.drop_last()[w]
            is None by {
            assert(running.drop_last()[w] == running[w]);
        }
        lemma_busy_none(running.drop_last());
    }
}

/// Where no worker is busy, none runs anything.
pub proof fn lemma_busy_zero(running: Seq<Option<usize>>)
    requires
        busy(running) == 0,
    ensures
        forall|w: int| 0 <= w < running.len() ==> running[w] is None,
    decreases running.len(),
{
    if running.len() > 0 {
        lemma_busy_zero(running.drop_last());
        assert forall|w: int| 0 <= w < running.len() implies running[w] is None by {
            if w < running.len() - 1 {
                assert(running.drop_last()[w] == running[w]);
            }
        }
    }
}

impl<W> PoolView<W> {
    /// The number of workers.
    pub open spec fn size(self) -> nat {
        self.running.len()
    }

    /// The number of tasks that were submitted and have not completed: those
    /// that run and those that wait.
    pub open spec fn in_flight(self) -> nat {
        busy(self.running) + self.backlog.len()
    }

    /// The pool's invariant: the idle queue lists exactly the workers that
    /// run nothing, each once; a task waits only while no worker is idle; and
    /// no shutdown marker waits among the tasks.
    pub open spec fn wf(self) -> bool {
        &&& self.running.len() <= usize::MAX
        &&& self.idle.no_duplicates()
        &&& forall|i: int|
            0 <= i < self.idle.len() ==> (#[trigger] self.idle[i]) < self.running.len()
                && self.running[self.idle[i] as int] is None
        &&& forall|w: int|
            0 <= w < self.running.len() && (#[trigger] self.running[w]) is None
                ==> self.idle.contains(w as usize)
        &&& self.backlog.len() > 0 ==> self.idle.len() == 0
        &&& forall|j: int| 0 <= j < self.backlog.len() ==> !((#[trigger] self.backlog[j]).kind is Close)
    }

    /// A pool of `size` idle workers, worker 0 first in line.
    pub open spec fn fresh(size: nat) -> Self {
        PoolView {
            running: Seq::new(size, |w: int| None::<usize>),
            idle: Seq::new(size, |w: int| w as usize),
            backlog: Seq::empty(),
        }
    }

    /// The pool after `task` was submitted, and where the task went: to the
    /// worker that was idle longest, or to the end of the backlog.
    pub open spec fn submit(self, task: Task<W>) -> (Self, Option<(usize, Task<W>)>) {
        if self.idle.len() > 0 {
            let w = self.idle[0];
            (
                PoolView {
                    running: self.running.update(w as int, Some(task.callback_id)),
                    idle: self.idle.drop_first(),
                    backlog: self.backlog,
                },
                Some((w, task)),
            )
        } else {
            (
                PoolView {
                    running: self.running,
                    idle: self.idle,
                    backlog: self.backlog.push(task),
                },
                None,
            )
        }
    }

    /// Whether `worker` runs the task that reports under `callback_id`.
    pub open spec fn accepts(self, worker: usize, callback_id: usize) -> bool {
        worker < self.running.len() && self.running[worker as int] == Some(callback_id)
    }

    /// The pool after `worker` reported the completion of `callback_id`, and
    /// what the worker does next. A report from a worker that does not run
    /// that task changes nothing.
    pub open spec fn complete(self, worker: usize, callback_id: usize) -> (Self, Completion<W>) {
        if !self.accepts(worker, callback_id) {
            (self, Completion::Stray)
        } else if self.backlog.len() > 0 {
            let next = self.backlog[0];
            (
                PoolView {
                    running: self.running.update(worker as int, Some(next.callback_id)),
                    idle: self.idle,
                    backlog: self.backlog.drop_first(),
                },
                Completion::Next(next),
            )
        } else {
            (
                PoolView {
                    running: self.running.update(worker as int, None),
                    idle: self.idle.push(worker),
                    backlog: self.backlog,
                },
                Completion::Idle,
            )
        }
    }

    /// A fresh pool is well formed and has nothing in flight.
    pub proof fn lemma_fresh(size: nat)
        requires
            size <= usize::MAX,
        ensures
            Self::fresh(size).wf(),
            Self::fresh(size).in_flight() == 0,
            Self::fresh(size).size() == size,
    {
        let p = Self::fresh(size);
        lemma_busy_none(p.running);
        assert forall|w: int| 0 <= w < p.running.len() && (#[trigger] p.running[w]) is None implies p.idle.contains(
            w as usize,
        ) by {
            assert(p.idle[w] == w as usize);
        }
    }

    /// Submitting keeps the pool well formed and puts one more task in flight.
    pub proof fn lemma_submit(self, task: Task<W>)
        requires
            self.wf(),
            !(task.kind is Close),
        ensures
            self.submit(task).0.wf(),
            self.submit(task).0.in_flight() == self.in_flight() + 1,
            self.submit(task).0.size() == self.size(),
            self.submit(task).1 is Some <==> self.idle.len() > 0,
    {
        let p = self.submit(task).0;
        if self.idle.len() > 0 {
            let w = self.idle[0];
            lemma_busy_update(self.running, w as int, Some(task.callback_id));
            assert forall|i: int| 0 <= i < p.idle.len() implies (#[trigger] p.idle[i])
                < p.running.len() && p.running[p.idle[i] as int] is None by {
                assert(p.idle[i] == self.idle[i + 1]);
                assert(self.idle[i + 1] != self.idle[0]);
            }
            assert forall|w2: int|
                0 <= w2 < p.running.len() && (#[trigger] p.running[w2]) is None implies p.idle.contains(
                w2 as usize,
            ) by {
                assert(w2 != w);
                assert(self.running[w2] is None);
                let i = choose|i: int| 0 <= i < self.idle.len() && self.idle[i] == w2 as usize;
                assert(i > 0);
                assert(p.idle[i - 1] == w2 as usize);
            }
            assert forall|i: int, j: int| 0 <= i < j < p.idle.len() implies p.idle[i]
                != p.idle[j] by {
                assert(p.idle[i] == self.idle[i + 1] && p.idle[j] == self.idle[j + 1]);
            }
        } else {
            assert forall|j: int| 0 <= j < p.backlog.len() implies !((#[trigger] p.backlog[j]).kind
                is Close) by {
                if j < self.backlog.len() {
                    assert(p.backlog[j] == self.backlog[j]);
                }
            }
        }
    }

    /// A completion keeps the pool well formed. One that the pool accepts
    /// takes one task out of flight; a stray one changes nothing.
    pub proof fn lemma_complete(self, worker: usize, callback_id: usize)
        requires
            self.wf(),
        ensures
            self.complete(worker, callback_id).0.wf(),
            self.complete(worker, callback_id).0.size() == self.size(),
            self.accepts(worker, callback_id) ==> self.complete(worker, callback_id).0.in_flight()
                + 1 == self.in_flight(),
            !self.accepts(worker, callback_id) ==> self.complete(worker, callback_id).0 == self,
            self.complete(worker, callback_id).1 is Stray <==> !self.accepts(worker, callback_id),
    {
        let p = self.complete(worker, callback_id).0;
        if self.accepts(worker, callback_id) {
            if self.backlog.len() > 0 {
                let next = self.backlog[0];
                lemma_busy_update(self.running, worker as int, Some(next.callback_id));
                assert forall|j: int| 0 <= j < p.backlog.len() implies !((#[trigger] p.backlog[j]).kind
                    is Close) by {
                    assert(p.backlog[j] == self.backlog[j + 1]);
                }
                assert forall|w2: int|
                    0 <= w2 < p.running.len() && (#[trigger] p.running[w2]) is None implies p.idle.contains(
                    w2 as usize,
                ) by {
                    assert(self.running[w2] is None);
                }
            } else {
                lemma_busy_update(self.running, worker as int, None);
                assert forall|i: int| 0 <= i < p.idle.len() implies (#[trigger] p.idle[i])
                    < p.running.len() && p.running[p.idle[i] as int] is None by {
                    if i < self.idle.len() {
                        assert(p.idle[i] == self.idle[i]);
                    }
                }
                assert forall|w2: int|
                    0 <= w2 < p.running.len() && (#[trigger] p.running[w2]) is None implies p.idle.contains(
                    w2 as usize,
                ) by {
                    if w2 == worker {
                        assert(p.idle[self.idle.len() as int] == worker);
                    } else {
                        assert(self.running[w2] is None);
                        let i = choose|i: int| 0 <= i < self.idle.len() && self.idle[i] == w2 as usize;
                        assert(p.idle[i] == w2 as usize);
                    }
                }
                assert forall|i: int, j: int| 0 <= i < j < p.idle.len() implies p.idle[i]
                    != p.idle[j] by {
                    if j == self.idle.len() {
                        assert(p.idle[i] == self.idle[i]);
                        assert(self.running[self.idle[i] as int] is None);
                    } else {
                        assert(p.idle[i] == self.idle[i] && p.idle[j] == self.idle[j]);
                    }
                }
            }
        }
    }
}

/// The pool after the tasks of `tasks` were submitted, one after the other.
pub open spec fn submitted<W>(pool: PoolView<W>, tasks: Seq<Task<W>>) -> PoolView<W>
    decreases tasks.len(),
{
    if tasks.len() == 0 {
        pool
    } else {
        submitted(pool, tasks.drop_last()).submit(tasks.last()).0
    }
}

/// No idle worker is passed over. The worker at place `i` of the idle queue
/// gets the task that is submitted `i` submissions from now, whatever is
/// submitted after it; a worker waits for work no longer than the workers
/// that were idle before it.
pub proof fn idle_workers_are_served_in_turn<W>(pool: PoolView<W>, tasks: Seq<Task<W>>, i: int)
    requires
        pool.wf(),
        forall|j: int| 0 <= j < tasks.len() ==> !((#[trigger] tasks[j]).kind is Close),
        0 <= i < pool.idle.len(),
        i < tasks.len(),
    ensures
        submitted(pool, tasks).wf(),
        submitted(pool, tasks).running[pool.idle[i] as int] == Some(tasks[i].callback_id),
        submitted(pool, tasks).in_flight() == pool.in_flight() + tasks.len(),
    decreases tasks.len(),
{
    lemma_submitted(pool, tasks);
    let front = tasks.drop_last();
    let before = submitted(pool, front);
    lemma_submitted(pool, front);
    assert forall|j: int| 0 <= j < front.len() implies !((#[trigger] front[j]).kind is Close) by {
        assert(front[j] == tasks[j]);
    }
    if i < front.len() {
        idle_workers_are_served_in_turn(pool, front, i);
        assert(front[i] == tasks[i]);
        if before.idle.len() > 0 {
            let w = before.idle[0];
            assert(before.running[w as int] is None);
        }
    } else {
        assert(before.idle =~= pool.idle.skip(front.len() as int));
        assert(before.idle[0] == pool.idle[i]);
    }
}

/// What a run of submissions leaves of the idle queue: the workers that
/// were not reached yet, in their order.
proof fn lemma_submitted<W>(pool: PoolView<W>, tasks: Seq<Task<W>>)
    requires
        pool.wf(),
        forall|j: int| 0 <= j < tasks.len() ==> !((#[trigger] tasks[j]).kind is Close),
    ensures
        submitted(pool, tasks).wf(),
        submitted(pool, tasks).running.len() == pool.running.len(),
        submitted(pool, tasks).in_flight() == pool.in_flight() + tasks.len(),
        submitted(pool, tasks).idle == if tasks.len() <= pool.idle.len() {
            pool.idle.skip(tasks.len() as int)
        } else {
            Seq::<usize>::empty()
        },
    decreases tasks.len(),
{
    if tasks.len() > 0 {
        let front = tasks.drop_last();
        assert forall|j: int| 0 <= j < front.len() implies !((#[trigger] front[j]).kind is Close) by {
            assert(front[j] == tasks[j]);
        }
        lemma_submitted(pool, front);
        let before = submitted(pool, front);
        assert(!(tasks[tasks.len() - 1].kind is Close));
        before.lemma_submit(tasks.last());
        if before.idle.len() > 0 {
            assert(before.idle.drop_first() =~= pool.idle.skip(tasks.len() as int));
        } else {
            assert(submitted(pool, tasks).idle =~= Seq::<usize>::empty());
            if tasks.len() <= pool.idle.len() {
                assert(pool.idle.skip(tasks.len() as int) =~= Seq::<usize>::empty());
            }
        }
    } else {
        assert(pool.idle.skip(0) =~= pool.idle);
    }
}

/// The pool's bookkeeping.
pub struct Pool<W> {
    running: Vec<Option<usize>>,
    idle: VecDeque<usize>,
    backlog: VecDeque<Task<W>>,
}

impl<W> View for Pool<W> {
    type V = PoolView<W>;

    closed spec fn view(&self) -> PoolView<W> {
        PoolView { running: self.running@, idle: self.idle@, backlog: self.backlog@ }
    }
}

impl<W> Pool<W> {
    /// The pool's invariant.
    pub open spec fn wf(&self) -> bool {
        self@.wf()
    }

    /// A pool of `size` idle workers.
    pub fn new(size: usize) -> (p: Self)
        ensures
            p.wf(),
            p@ == PoolView::<W>::fresh(size as nat),
            p@.in_flight() == 0,
    {
        let mut running: Vec<Option<usize>> = Vec::new();
        let mut idle: VecDeque<usize> = VecDeque::new();
        let mut w: usize = 0;
        while w < size
            invariant
                w <= size,
                running@ == Seq::new(w as nat, |i: int| None::<usize>),
                idle@ == Seq::new(w as nat, |i: int| i as usize),
            decreases size - w,
        {
            running.push(None);
            idle.push_back(w);
            w += 1;
        }
        proof {
            PoolView::<W>::lemma_fresh(size as nat);
        }
        Pool { running, idle, backlog: VecDeque::new() }
    }

    /// The number of workers.
    pub fn size(&self) -> (n: usize)
        ensures
            n == self@.size(),
    {
        self.running.len()
    }

    /// The number of tasks that wait for a worker.
    pub fn waiting(&self) -> (n: usize)
        ensures
            n == self@.backlog.len(),
    {
        self.backlog.len()
    }

    /// The number of idle workers.
    pub fn idle_workers(&self) -> (n: usize)
        ensures
            n == self@.idle.len(),
    {
        self.idle.len()
    }

    /// Whether `worker` runs the task that reports under `callback_id`.
    pub fn accepts(&self, worker: usize, callback_id: usize) -> (b: bool)
        ensures
            b == self@.accepts(worker, callback_id),
    {
        if worker < self.running.len() {
            match self.running[worker] {
                Some(id) => id == callback_id,
                None => false,
            }
        } else {
            false
        }
    }

    /// Takes `task` into the pool. Where a worker is idle, the one idle
    /// longest gets it: the result names that worker and hands the task back
    /// for the caller to send. Otherwise the task waits in the backlog.
    pub fn submit(&mut self, task: Task<W>) -> (sent: Option<(usize, Task<W>)>)
        requires
            old(self).wf(),
            !(task.kind is Close),
        ensures
            final(self).wf(),
            final(self)@ == old(self)@.submit(task).0,
            sent == old(self)@.submit(task).1,
            final(self)@.in_flight() == old(self)@.in_flight() + 1,
    {
        proof {
            self@.lemma_submit(task);
        }
        match self.idle.pop_front() {
            Some(w) => {
                self.running.set(w, Some(task.callback_id));
                assert(self.idle@ =~= old(self).idle@.drop_first());
                Some((w, task))
            },
            None => {
                self.backlog.push_back(task);
                None
            },
        }
    }

    /// Books the completion that `worker` reported for `callback_id`. The
    /// worker takes the oldest waiting task, which is handed back for the
    /// caller to send to it, or joins the end of the idle queue. A report
    /// that does not match what the worker runs is a stray and changes
    /// nothing.
    pub fn complete(&mut self, worker: usize, callback_id: usize) -> (next: Completion<W>)
        requires
            old(self).wf(),
        ensures
            final(self).wf(),
            final(self)@ == old(self)@.complete(worker, callback_id).0,
            next == old(self)@.complete(worker, callback_id).1,
            next is Stray <==> !old(self)@.accepts(worker, callback_id),
            !(next is Stray) ==> final(self)@.in_flight() + 1 == old(self)@.in_flight(),
    {
        proof {
            self@.lemma_complete(worker, callback_id);
        }
        if !self.accepts(worker, callback_id) {
            return Completion::Stray;
        }
        match self.backlog.pop_front() {
            Some(task) => {
                self.running.set(worker, Some(task.callback_id));
                assert(self.backlog@ =~= old(self).backlog@.drop_first());
                Completion::Next(task)
            },
            None => {
                self.running.set(worker, None);
                self.idle.push_back(worker);
                Completion::Idle
            },
        }
    }

    /// The shutdown markers: one for each worker, the marker at index `w` for
    /// worker `w`. A worker leaves its loop only on its own marker, so they
    /// are made all at once and never fewer than there are workers.
    pub fn shutdown_tasks(&self) -> (markers: Vec<Task<W>>)
        ensures
            markers@.len() == self@.size(),
            forall|w: int| 0 <= w < markers@.len() ==> (#[trigger] markers@[w]).kind is Close,
            forall|w: int| 0 <= w < markers@.len() ==> (#[trigger] markers@[w]).task is None,
    {
        let mut markers: Vec<Task<W>> = Vec::new();
        let mut w: usize = 0;
        while w < self.running.len()
            invariant
                w <= self.running.len(),
                markers@.len() == w,
                forall|i: int| 0 <= i < markers@.len() ==> (#[trigger] markers@[i]).kind is Close,
                forall|i: int| 0 <= i < markers@.len() ==> (#[trigger] markers@[i]).task is None,
            decreases self.running.len() - w,
        {
            markers.push(Task::close());
            w += 1;
        }
        markers
    }
}

} // verus!

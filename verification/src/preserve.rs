//! Every step of the loop keeps the loop's invariant.

use crate::event::PollEvent;
use crate::js::Js;
use crate::model::{deadline_of, task_ids, timer_results, LoopView};
use crate::pool::PoolView;
use crate::registry::{lemma_drained_all, lemma_drained_left, ready_ids};
use crate::task::{Task, ThreadPoolTaskKind};
use crate::timers::{
    due, ids, later, lemma_boundary_exists, lemma_boundary_splits, lemma_remove_sorted,
    lemma_with_timer_at, position, sorted, with_timer, Timer,
};
use vstd::prelude::*;
use vstd::seq_lib::{
    lemma_multiset_commutative, to_multiset_build, to_multiset_contains, to_multiset_insert,
    to_multiset_remove, to_multiset_update,
};

verus! {

/// One more timer: one more entry under its id, and under no other.
proof fn lemma_with_timer_count(s: Seq<Timer>, t: Timer, id: usize)
    requires
        sorted(s),
    ensures
        ids(with_timer(s, t)).to_multiset().count(id) == ids(s).to_multiset().count(id) + if id
            == t.callback_id {
            1nat
        } else {
            0nat
        },
{
    let k = lemma_boundary_exists(s, t.deadline);
    lemma_with_timer_at(s, t, k);
    assert(ids(s.insert(k, t)) =~= ids(s).insert(k, t.callback_id));
    to_multiset_insert(ids(s), k, t.callback_id);
}

/// One timer fewer: one entry fewer under its id, and under no other.
proof fn lemma_remove_count(s: Seq<Timer>, i: int, id: usize)
    requires
        0 <= i < s.len(),
    ensures
        ids(s.remove(i)).to_multiset().count(id) + (if id == s[i].callback_id {
            1nat
        } else {
            0nat
        }) == ids(s).to_multiset().count(id),
{
    assert(ids(s.remove(i)) =~= ids(s).remove(i));
    to_multiset_remove(ids(s), i);
    to_multiset_contains(ids(s), s[i].callback_id);
    assert(ids(s)[i] == s[i].callback_id);
}

/// An expiry parts the timers: each is due or is not.
proof fn lemma_split_count(s: Seq<Timer>, now: u64, id: usize)
    requires
        sorted(s),
    ensures
        ids(due(s, now)).to_multiset().count(id) + ids(later(s, now)).to_multiset().count(id)
            == ids(s).to_multiset().count(id),
{
    let k = lemma_boundary_exists(s, now);
    lemma_boundary_splits(s, now, k);
    assert(ids(s.take(k)) + ids(s.skip(k)) =~= ids(s));
    lemma_multiset_commutative(ids(s.take(k)), ids(s.skip(k)));
}

/// One more waiting result: one more entry under its id.
proof fn lemma_ready_push_count(ready: Seq<(usize, Js)>, e: (usize, Js), id: usize)
    ensures
        ready_ids(ready.push(e)).to_multiset().count(id) == ready_ids(ready).to_multiset().count(
            id,
        ) + if id == e.0 {
            1nat
        } else {
            0nat
        },
{
    assert(ready_ids(ready.push(e)) =~= ready_ids(ready).push(e.0));
    to_multiset_build(ready_ids(ready), e.0);
}

/// The results of fired timers go behind the waiting ones.
proof fn lemma_ready_fired_count(ready: Seq<(usize, Js)>, fired: Seq<usize>, id: usize)
    ensures
        ready_ids(ready + timer_results(fired)).to_multiset().count(id) == ready_ids(
            ready,
        ).to_multiset().count(id) + fired.to_multiset().count(id),
{
    assert(ready_ids(ready + timer_results(fired)) =~= ready_ids(ready) + fired);
    lemma_multiset_commutative(ready_ids(ready), fired);
}

/// A submission adds one task under its id to the pool.
proof fn lemma_submit_count<W>(pool: PoolView<W>, task: Task<W>, id: usize)
    requires
        pool.wf(),
    ensures
        pool.submit(task).0.running.to_multiset().count(Some(id)) + task_ids(
            pool.submit(task).0.backlog,
        ).to_multiset().count(id) == pool.running.to_multiset().count(Some(id)) + task_ids(
            pool.backlog,
        ).to_multiset().count(id) + if id == task.callback_id {
            1nat
        } else {
            0nat
        },
{
    if pool.idle.len() > 0 {
        let w = pool.idle[0];
        assert(pool.running[w as int] is None);
        to_multiset_update(pool.running, w as int, Some(task.callback_id));
        to_multiset_contains(pool.running, None::<usize>);
    } else {
        assert(task_ids(pool.backlog.push(task)) =~= task_ids(pool.backlog).push(
            task.callback_id,
        ));
        to_multiset_build(task_ids(pool.backlog), task.callback_id);
    }
}

/// A completion that the pool accepts takes the task that completed out of
/// the pool, and nothing else.
proof fn lemma_complete_count<W>(pool: PoolView<W>, worker: usize, callback_id: usize, id: usize)
    requires
        pool.wf(),
        pool.accepts(worker, callback_id),
    ensures
        pool.complete(worker, callback_id).0.running.to_multiset().count(Some(id)) + task_ids(
            pool.complete(worker, callback_id).0.backlog,
        ).to_multiset().count(id) + (if id == callback_id {
            1nat
        } else {
            0nat
        }) == pool.running.to_multiset().count(Some(id)) + task_ids(
            pool.backlog,
        ).to_multiset().count(id),
{
    to_multiset_contains(pool.running, Some(callback_id));
    assert(pool.running[worker as int] == Some(callback_id));
    if pool.backlog.len() > 0 {
        let next = pool.backlog[0];
        to_multiset_update(pool.running, worker as int, Some(next.callback_id));
        assert(task_ids(pool.backlog.drop_first()) =~= task_ids(pool.backlog).remove(0));
        to_multiset_remove(task_ids(pool.backlog), 0);
        to_multiset_contains(task_ids(pool.backlog), next.callback_id);
        assert(task_ids(pool.backlog)[0] == next.callback_id);
    } else {
        to_multiset_update(pool.running, worker as int, None);
    }
}

impl<C, W> LoopView<C, W> {
    /// A fresh loop satisfies the invariant.
    pub proof fn lemma_fresh_wf(workers: nat)
        requires
            workers <= usize::MAX,
        ensures
            Self::fresh(workers).wf(),
    {
        let v = Self::fresh(workers);
        PoolView::<W>::lemma_fresh(workers);
        assert forall|id: usize| #[trigger] v.claimed_once(id) by {
            assert(ids(v.timers) =~= Seq::<usize>::empty());
            assert(task_ids(v.pool.backlog) =~= Seq::<usize>::empty());
            assert(ready_ids(v.ready) =~= Seq::<usize>::empty());
            to_multiset_contains(v.pool.running, Some(id));
            to_multiset_contains(Seq::<usize>::empty(), id);
        }
    }

    /// Beginning to tick keeps the invariant.
    pub proof fn lemma_start_wf(self)
        requires
            self.wf(),
        ensures
            self.start().wf(),
    {
        assert forall|id: usize| #[trigger] self.start().claimed_once(id) by {
            assert(self.claimed_once(id));
            assert(self.start().claims(id) == self.claims(id));
        }
    }

    /// Setting a timer keeps the invariant and adds one timer.
    pub proof fn lemma_set_timeout_wf(self, now: u64, delay: u64, callback: C)
        requires
            self.wf(),
            self.accepting(),
            self.last_id < usize::MAX,
        ensures
            self.set_timeout(now, delay, callback).wf(),
            self.set_timeout(now, delay, callback).timers.len() == self.timers.len() + 1,
    {
        let after = self.set_timeout(now, delay, callback);
        let t = Timer { deadline: deadline_of(now, delay), callback_id: self.next_id() };
        let k = lemma_boundary_exists(self.timers, t.deadline);
        lemma_with_timer_at(self.timers, t, k);
        assert forall|id: usize| #[trigger] after.claimed_once(id) by {
            assert(self.claimed_once(id));
            lemma_with_timer_count(self.timers, t, id);
        }
    }

    /// Cancelling a timer keeps the invariant; a timer that is pending counts
    /// among the pending events.
    pub proof fn lemma_cancel_timer_wf(self, id: usize)
        requires
            self.wf(),
        ensures
            self.cancel_timer(id).wf(),
            position(self.timers, id) is Some ==> self.pending > 0,
    {
        let after = self.cancel_timer(id);
        ids(self.timers).index_of_first_ensures(id);
        match position(self.timers, id) {
            Some(i) => {
                lemma_remove_sorted(self.timers, i);
                assert(ids(self.timers)[i] == self.timers[i].callback_id);
                assert forall|x: usize| #[trigger] after.claimed_once(x) by {
                    assert(self.claimed_once(x));
                    lemma_remove_count(self.timers, i, x);
                }
            },
            None => {},
        }
    }

    /// Submitting a task keeps the invariant.
    pub proof fn lemma_submit_task_wf(self, kind: ThreadPoolTaskKind, work: W, callback: C)
        requires
            self.wf(),
            self.accepting(),
            self.last_id < usize::MAX,
            !(kind is Close),
        ensures
            self.submit_task(kind, work, callback).wf(),
    {
        let after = self.submit_task(kind, work, callback);
        let task = self.task_of(kind, work);
        self.pool.lemma_submit(task);
        assert forall|id: usize| #[trigger] after.claimed_once(id) by {
            assert(self.claimed_once(id));
            lemma_submit_count(self.pool, task, id);
        }
    }

    /// Registering an interest keeps the invariant.
    pub proof fn lemma_register_io_interest_wf(self, mask: u8, callback: C)
        requires
            self.wf(),
            self.accepting(),
            self.last_id < usize::MAX,
        ensures
            self.register_io_interest(mask, callback).wf(),
    {
        let after = self.register_io_interest(mask, callback);
        assert forall|id: usize| #[trigger] after.claimed_once(id) by {
            assert(self.claimed_once(id));
        }
    }

    /// Firing the due timers keeps the invariant. Every timer is due or is not,
    /// and the due ones count among the pending events.
    pub proof fn lemma_expire_wf(self, now: u64)
        requires
            self.wf(),
        ensures
            self.expire(now).wf(),
            due(self.timers, now).len() + later(self.timers, now).len() == self.timers.len(),
            due(self.timers, now).len() <= self.pending,
    {
        let after = self.expire(now);
        let k = lemma_boundary_exists(self.timers, now);
        lemma_boundary_splits(self.timers, now, k);
        let rest = self.timers.skip(k);
        assert forall|i: int, j: int| 0 <= i <= j < rest.len() implies rest[i].deadline
            <= rest[j].deadline by {
            assert(rest[i] == self.timers[i + k] && rest[j] == self.timers[j + k]);
        }
        assert forall|id: usize| #[trigger] after.claimed_once(id) by {
            assert(self.claimed_once(id));
            lemma_split_count(self.timers, now, id);
            lemma_ready_fired_count(self.ready, ids(due(self.timers, now)), id);
        }
    }

    /// Every waiting result names a registered callback, and no two name
    /// the same: a drain pass hands out one callback for each, in order.
    pub proof fn lemma_every_result_is_served(self)
        requires
            self.wf(),
        ensures
            ready_ids(self.ready).no_duplicates(),
            forall|i: int| 0 <= i < self.ready.len() ==> self.callbacks.contains_key(
                #[trigger] self.ready[i].0,
            ),
            self.batch() == self.ready.map_values(|e: (usize, Js)| (self.callbacks[e.0], e.1)),
            self.batch().len() == self.ready.len(),
    {
        let r = ready_ids(self.ready);
        assert forall|x: usize| r.to_multiset().contains(x) implies r.to_multiset().count(x)
            == 1 by {
            assert(self.claimed_once(x));
        }
        r.lemma_multiset_has_no_duplicates_conv();
        assert forall|i: int| 0 <= i < self.ready.len() implies self.callbacks.contains_key(
            #[trigger] self.ready[i].0,
        ) by {
            let x = self.ready[i].0;
            assert(r[i] == x);
            to_multiset_contains(r, x);
            assert(self.claimed_once(x));
        }
        lemma_drained_all(self.callbacks, self.ready);
    }

    /// A drain pass keeps the invariant.
    pub proof fn lemma_run_callbacks_wf(self)
        requires
            self.wf(),
        ensures
            self.run_callbacks().wf(),
    {
        let after = self.run_callbacks();
        let r = ready_ids(self.ready);
        lemma_drained_left(self.callbacks, self.ready);
        assert(ready_ids(after.ready) =~= Seq::<usize>::empty());
        assert forall|id: usize| #[trigger] after.claimed_once(id) by {
            assert(self.claimed_once(id));
            to_multiset_contains(r, id);
            to_multiset_contains(Seq::<usize>::empty(), id);
        }
    }

    /// Booking or discarding a completion keeps the invariant; a task that runs
    /// counts among the pending events.
    pub proof fn lemma_complete_wf(self, worker: usize, callback_id: usize, data: Js)
        requires
            self.wf(),
        ensures
            self.complete(worker, callback_id, data).wf(),
            self.awaits_completion(worker, callback_id) ==> self.pending > 0,
    {
        let after = self.complete(worker, callback_id, data);
        self.pool.lemma_complete(worker, callback_id);
        if self.awaits_completion(worker, callback_id) {
            assert forall|id: usize| #[trigger] after.claimed_once(id) by {
                assert(self.claimed_once(id));
                lemma_complete_count(self.pool, worker, callback_id, id);
                lemma_ready_push_count(self.ready, (callback_id, data), id);
            }
        }
    }

    /// Booking or discarding a readiness notification keeps the invariant; a
    /// live interest counts among the pending events.
    pub proof fn lemma_io_ready_wf(self, id: usize, result: Js)
        requires
            self.wf(),
        ensures
            self.io_ready(id, result).wf(),
            self.awaits_readiness(id) ==> self.pending > 0,
    {
        let after = self.io_ready(id, result);
        if self.awaits_readiness(id) {
            assert forall|x: usize| #[trigger] after.claimed_once(x) by {
                assert(self.claimed_once(x));
                lemma_ready_push_count(self.ready, (id, result), x);
            }
        }
    }

    /// Dispatching an event keeps the invariant.
    pub proof fn lemma_dispatch_wf(self, event: PollEvent)
        requires
            self.wf(),
        ensures
            self.dispatch(event).wf(),
    {
        match event {
            PollEvent::Threadpool((worker, callback_id, data)) => {
                self.lemma_complete_wf(worker, callback_id, data);
            },
            PollEvent::Epoll(id) => {
                self.lemma_io_ready_wf(id, Js::Undefined);
            },
            PollEvent::EpollFailed((id, message)) => {
                self.lemma_io_ready_wf(id, Js::Error(message));
            },
            PollEvent::Timeout => {},
        }
    }

    /// Deciding what to do next keeps the invariant.
    pub proof fn lemma_prepare_poll_wf(self)
        requires
            self.wf(),
        ensures
            self.prepare_poll().wf(),
    {
        assert forall|id: usize| #[trigger] self.prepare_poll().claimed_once(id) by {
            assert(self.claimed_once(id));
            assert(self.prepare_poll().claims(id) == self.claims(id));
        }
    }

    /// Stopping keeps the invariant.
    pub proof fn lemma_stop_wf(self)
        requires
            self.wf(),
        ensures
            self.stop().wf(),
    {
        assert forall|id: usize| #[trigger] self.stop().claimed_once(id) by {
            assert(self.claimed_once(id));
            assert(self.stop().claims(id) == self.claims(id));
        }
    }
}

} // verus!

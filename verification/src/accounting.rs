//! What holds of the loop over whole runs: of its states, of its callback ids,
//! and of its count of pending events.

use crate::event::PollEvent;
use crate::js::Js;
use crate::model::{LoopView, State};
use crate::registry::ready_ids;
use crate::task::ThreadPoolTaskKind;
use vstd::prelude::*;
use vstd::seq_lib::{to_multiset_build, to_multiset_contains};

verus! {

/// What a caller hands over to submit one task.
pub struct Submission<C, W> {
    pub kind: ThreadPoolTaskKind,
    pub work: W,
    pub callback: C,
}

/// The loop after the tasks of `subs` were submitted, one after the other.
pub open spec fn submit_all<C, W>(v: LoopView<C, W>, subs: Seq<Submission<C, W>>) -> LoopView<
    C,
    W,
>
    decreases subs.len(),
{
    if subs.len() == 0 {
        v
    } else {
        submit_all(v, subs.drop_last()).submit_task(
            subs.last().kind,
            subs.last().work,
            subs.last().callback,
        )
    }
}

/// The loop after the events of `events` were dispatched, one after the
/// other.
pub open spec fn dispatch_all<C, W>(v: LoopView<C, W>, events: Seq<PollEvent>) -> LoopView<C, W>
    decreases events.len(),
{
    if events.len() == 0 {
        v
    } else {
        dispatch_all(v, events.drop_last()).dispatch(events.last())
    }
}

/// How many of `events` the loop books when they are dispatched one after
/// the other, that is how many it does not discard.
pub open spec fn booked<C, W>(v: LoopView<C, W>, events: Seq<PollEvent>) -> nat
    decreases events.len(),
{
    if events.len() == 0 {
        0
    } else {
        booked(v, events.drop_last()) + if dispatch_all(
            v,
            events.drop_last(),
        ).dispatch_outcome(events.last()) is Discarded {
            0nat
        } else {
            1nat
        }
    }
}

/// How far the loop has come in its life.
pub open spec fn progress(state: State) -> nat {
    match state {
        State::Idle => 0,
        State::Ticking => 1,
        State::Draining => 2,
        State::Stopped => 3,
    }
}

/// The loop's life runs one way: from `Idle` to `Ticking` to `Draining` to
/// `Stopped`, one state at a time. Only a start leaves `Idle`, only the
/// decision to drain leaves `Ticking`, only a stop leaves `Draining`, and
/// nothing leaves `Stopped`.
pub proof fn life_runs_one_way<C, W>(v: LoopView<C, W>, now: u64, event: PollEvent, id: usize)
    ensures
        progress(v.start().state) == progress(v.state) + if v.state is Idle {
            1nat
        } else {
            0nat
        },
        progress(v.prepare_poll().state) == progress(v.state) + if v.drains() {
            1nat
        } else {
            0nat
        },
        progress(v.stop().state) == progress(v.state) + if v.state is Draining {
            1nat
        } else {
            0nat
        },
        v.expire(now).state == v.state,
        v.run_callbacks().state == v.state,
        v.dispatch(event).state == v.state,
        v.cancel_timer(id).state == v.state,
        v.state is Stopped ==> v.start() == v && v.prepare_poll() == v && v.stop() == v
            && v.dispatch(event) == v,
{
}

/// Registering leaves the loop in the state it is in.
pub proof fn registering_keeps_the_state<C, W>(
    v: LoopView<C, W>,
    now: u64,
    delay: u64,
    mask: u8,
    kind: ThreadPoolTaskKind,
    work: W,
    callback: C,
)
    ensures
        v.set_timeout(now, delay, callback).state == v.state,
        v.submit_task(kind, work, callback).state == v.state,
        v.register_io_interest(mask, callback).state == v.state,
{
}

/// A loop that was given nothing to do begins to drain at its first tick:
/// it never waits for an event.
pub proof fn idle_loop_drains_at_once<C, W>(workers: nat, now: u64)
    requires
        workers <= usize::MAX,
    ensures
        LoopView::<C, W>::fresh(workers).start().expire(now).run_callbacks().drains(),
        LoopView::<C, W>::fresh(workers).start().expire(now).run_callbacks().prepare_poll().state
            is Draining,
{
    let v = LoopView::<C, W>::fresh(workers);
    LoopView::<C, W>::lemma_fresh_wf(workers);
    v.lemma_start_wf();
    v.start().lemma_expire_wf(now);
}

/// The loop waits for an event only while something is pending, and begins
/// to drain only when nothing is.
pub proof fn loop_drains_exactly_when_nothing_is_pending<C, W>(v: LoopView<C, W>)
    requires
        v.wf(),
        v.state is Ticking,
        v.ready.len() == 0,
    ensures
        v.drains() <==> v.timers.len() + v.pool.in_flight() + v.interests.len() == 0,
        v.prepare_poll().state is Draining <==> v.pending == 0,
{
}

/// When the loop begins to drain, no callback is left behind: every
/// callback that was ever registered was handed out to run, or was dropped
/// with the timer that was cancelled.
pub proof fn nothing_is_left_when_the_loop_drains<C, W>(v: LoopView<C, W>)
    requires
        v.wf(),
        v.drains(),
    ensures
        v.callbacks == Map::<usize, C>::empty(),
        v.timers.len() == 0,
        v.pool.in_flight() == 0,
        v.pool.idle.len() == v.pool.size(),
        v.interests == Map::<usize, u8>::empty(),
{
    crate::pool::lemma_busy_zero(v.pool.running);
    assert(v.interests.dom().len() == 0);
    assert(v.interests =~= Map::<usize, u8>::empty());
    assert forall|id: usize| !v.callbacks.contains_key(id) by {
        assert(v.claimed_once(id));
        assert(crate::timers::ids(v.timers) =~= Seq::<usize>::empty());
        assert(crate::model::task_ids(v.pool.backlog) =~= Seq::<usize>::empty());
        assert(ready_ids(v.ready) =~= Seq::<usize>::empty());
        to_multiset_contains(Seq::<usize>::empty(), id);
        to_multiset_contains(v.pool.running, Some(id));
        if v.pool.running.contains(Some(id)) {
            let w = choose|w: int| 0 <= w < v.pool.running.len() && v.pool.running[w] == Some(id);
            assert(v.pool.running[w] is None);
        }
    }
    assert(v.callbacks =~= Map::<usize, C>::empty());
    lemma_all_idle(v.pool);
}

/// Where no worker runs anything, every worker stands in the idle queue.
proof fn lemma_all_idle<W>(pool: crate::pool::PoolView<W>)
    requires
        pool.wf(),
        forall|w: int| 0 <= w < pool.running.len() ==> pool.running[w] is None,
    ensures
        pool.idle.len() == pool.running.len(),
{
    let all = Seq::new(pool.running.len(), |w: int| w as usize);
    assert(all.no_duplicates());
    assert(all.to_set() =~= pool.idle.to_set()) by {
        assert forall|x: usize| all.to_set().contains(x) implies pool.idle.to_set().contains(x) by {
            let w = choose|w: int| 0 <= w < all.len() && all[w] == x;
            assert(pool.running[w] is None);
        }
        assert forall|x: usize| pool.idle.to_set().contains(x) implies all.to_set().contains(x) by {
            let i = choose|i: int| 0 <= i < pool.idle.len() && pool.idle[i] == x;
            assert(pool.idle[i] < pool.running.len());
            assert(all[x as int] == x);
        }
    }
    all.unique_seq_to_set();
    pool.idle.unique_seq_to_set();
}

/// Each submission is one more pending event and takes the next callback
/// id. Timers and interests are left as they were.
pub proof fn submissions_are_counted<C, W>(v: LoopView<C, W>, subs: Seq<Submission<C, W>>)
    requires
        v.wf(),
        v.accepting(),
        v.last_id + subs.len() <= usize::MAX,
        forall|i: int| 0 <= i < subs.len() ==> !((#[trigger] subs[i]).kind is Close),
    ensures
        submit_all(v, subs).wf(),
        submit_all(v, subs).state == v.state,
        submit_all(v, subs).pending == v.pending + subs.len(),
        submit_all(v, subs).pool.in_flight() == v.pool.in_flight() + subs.len(),
        submit_all(v, subs).last_id == v.last_id + subs.len(),
        submit_all(v, subs).timers == v.timers,
        submit_all(v, subs).interests == v.interests,
        submit_all(v, subs).ready == v.ready,
    decreases subs.len(),
{
    if subs.len() > 0 {
        let front = subs.drop_last();
        assert forall|i: int| 0 <= i < front.len() implies !((#[trigger] front[i]).kind is Close) by {
            assert(front[i] == subs[i]);
        }
        submissions_are_counted(v, front);
        let u = submit_all(v, front);
        let s = subs.last();
        assert(!(subs[subs.len() - 1].kind is Close));
        u.lemma_submit_task_wf(s.kind, s.work, s.callback);
        u.pool.lemma_submit(u.task_of(s.kind, s.work));
    }
}

/// Each event that the loop books is one pending event fewer and one more
/// result that waits for its callback; an event that it discards changes
/// nothing. No callback is lost or added on the way.
pub proof fn events_are_counted<C, W>(v: LoopView<C, W>, events: Seq<PollEvent>)
    requires
        v.wf(),
    ensures
        dispatch_all(v, events).wf(),
        dispatch_all(v, events).state == v.state,
        dispatch_all(v, events).pending + booked(v, events) == v.pending,
        dispatch_all(v, events).ready.len() == v.ready.len() + booked(v, events),
        dispatch_all(v, events).callbacks == v.callbacks,
        dispatch_all(v, events).timers == v.timers,
        booked(v, events) <= events.len(),
    decreases events.len(),
{
    if events.len() > 0 {
        let front = events.drop_last();
        events_are_counted(v, front);
        let u = dispatch_all(v, front);
        u.lemma_dispatch_wf(events.last());
        match events.last() {
            PollEvent::Threadpool((worker, callback_id, data)) => {
                u.lemma_complete_wf(worker, callback_id, data);
                u.pool.lemma_complete(worker, callback_id);
            },
            PollEvent::Epoll(id) => {
                u.lemma_io_ready_wf(id, Js::Undefined);
            },
            PollEvent::EpollFailed((id, message)) => {
                u.lemma_io_ready_wf(id, Js::Error(message));
            },
            PollEvent::Timeout => {},
        }
    }
}

/// After any number of tasks was submitted and as many events were booked,
/// the count of pending events is what it was before the first submission.
pub proof fn pending_returns_after_as_many_completions<C, W>(
    v: LoopView<C, W>,
    subs: Seq<Submission<C, W>>,
    events: Seq<PollEvent>,
)
    requires
        v.wf(),
        v.accepting(),
        v.last_id + subs.len() <= usize::MAX,
        forall|i: int| 0 <= i < subs.len() ==> !((#[trigger] subs[i]).kind is Close),
        booked(submit_all(v, subs), events) == subs.len(),
    ensures
        dispatch_all(submit_all(v, subs), events).pending == v.pending,
        dispatch_all(submit_all(v, subs), events).ready.len() == v.ready.len() + subs.len(),
{
    submissions_are_counted(v, subs);
    events_are_counted(submit_all(v, subs), events);
}

/// A callback id is never issued twice. The id that the next registration
/// gets is greater than every id issued so far, no callback is registered
/// under it, and nothing waits for it: no timer, no task, no interest and no
/// result.
pub proof fn next_id_is_fresh<C, W>(v: LoopView<C, W>)
    requires
        v.wf(),
        v.last_id < usize::MAX,
    ensures
        v.next_id() > v.last_id,
        !v.callbacks.contains_key(v.next_id()),
        v.claims(v.next_id()) == 0,
        !v.interests.contains_key(v.next_id()),
        !crate::timers::ids(v.timers).contains(v.next_id()),
        !ready_ids(v.ready).contains(v.next_id()),
        forall|w: usize| !v.pool.accepts(w, v.next_id()),
{
    let id = v.next_id();
    assert(v.claimed_once(id));
    to_multiset_contains(crate::timers::ids(v.timers), id);
    to_multiset_contains(ready_ids(v.ready), id);
    to_multiset_contains(v.pool.running, Some(id));
    assert forall|w: usize| !v.pool.accepts(w, id) by {
        if v.pool.accepts(w, id) {
            assert(v.pool.running[w as int] == Some(id));
        }
    }
}

/// A completion is booked once. After the loop booked the completion of a
/// task, no worker runs that task, so a second report for it is discarded,
/// from whichever worker it comes; and the task's result waits exactly once.
pub proof fn completion_is_booked_once<C, W>(
    v: LoopView<C, W>,
    worker: usize,
    callback_id: usize,
    data: Js,
    other: usize,
)
    requires
        v.wf(),
        v.awaits_completion(worker, callback_id),
    ensures
        !v.complete(worker, callback_id, data).awaits_completion(other, callback_id),
        v.complete(worker, callback_id, data).complete(other, callback_id, data) == v.complete(
            worker,
            callback_id,
            data,
        ),
        ready_ids(v.complete(worker, callback_id, data).ready).to_multiset().count(callback_id)
            == 1,
        v.callbacks.contains_key(callback_id),
{
    let after = v.complete(worker, callback_id, data);
    v.lemma_complete_wf(worker, callback_id, data);
    assert(after.claimed_once(callback_id));
    assert(ready_ids(after.ready) =~= ready_ids(v.ready).push(callback_id));
    to_multiset_build(ready_ids(v.ready), callback_id);
    if after.pool.accepts(other, callback_id) {
        assert(after.pool.running[other as int] == Some(callback_id));
        to_multiset_contains(after.pool.running, Some(callback_id));
    }
    assert(v.claimed_once(callback_id));
    to_multiset_contains(v.pool.running, Some(callback_id));
    assert(v.pool.running[worker as int] == Some(callback_id));
}

/// A readiness notification is booked once: the interest ends with it, and
/// a second notification for the same interest is discarded.
pub proof fn readiness_is_booked_once<C, W>(v: LoopView<C, W>, id: usize, first: Js, second: Js)
    requires
        v.wf(),
        v.awaits_readiness(id),
    ensures
        !v.io_ready(id, first).awaits_readiness(id),
        v.io_ready(id, first).io_ready(id, second) == v.io_ready(id, first),
        v.callbacks.contains_key(id),
{
    assert(v.claimed_once(id));
}

/// A loop with one live interest and nothing else, given one notification
/// for that interest, runs the callback of that interest with an empty
/// result and no other callback.
pub proof fn one_notification_runs_one_callback<C, W>(v: LoopView<C, W>, id: usize)
    requires
        v.wf(),
        v.state is Ticking,
        v.ready.len() == 0,
        v.interests.contains_key(id),
    ensures
        v.dispatch(PollEvent::Epoll(id)).batch() == seq![(v.callbacks[id], Js::Undefined)],
        v.dispatch(PollEvent::Epoll(id)).run_callbacks().ready.len() == 0,
        v.dispatch(PollEvent::Epoll(id)).run_callbacks().callbacks == v.callbacks.remove(id),
{
    let after = v.dispatch(PollEvent::Epoll(id));
    v.lemma_io_ready_wf(id, Js::Undefined);
    after.lemma_every_result_is_served();
    assert(after.ready =~= seq![(id, Js::Undefined)]);
    assert(after.batch() =~= seq![(v.callbacks[id], Js::Undefined)]);
    crate::registry::lemma_drained_left(after.callbacks, after.ready);
    assert(ready_ids(after.ready) =~= seq![id]);
    assert(ready_ids(after.ready).to_set() =~= set![id]) by {
        assert(ready_ids(after.ready)[0] == id);
    }
    assert(after.callbacks.remove_keys(set![id]) =~= v.callbacks.remove(id));
}

/// Outside of ticking nothing is dispatched: an event that arrives before
/// the loop ticks, while it drains or after it stopped is discarded and
/// changes nothing, and no result is left waiting on its account.
pub proof fn events_are_discarded_outside_ticking<C, W>(v: LoopView<C, W>, event: PollEvent)
    requires
        !(v.state is Ticking),
    ensures
        v.dispatch(event) == v,
        v.dispatch_outcome(event) is Discarded,
{
}

/// Once the loop drains, nothing is pending and nothing becomes pending:
/// whatever events arrive, and in whatever order, the loop stays as it is.
pub proof fn draining_loop_stays_empty<C, W>(v: LoopView<C, W>, events: Seq<PollEvent>)
    requires
        v.wf(),
        v.state is Draining || v.state is Stopped,
    ensures
        v.pending == 0,
        dispatch_all(v, events) == v,
        booked(v, events) == 0,
    decreases events.len(),
{
    if events.len() > 0 {
        draining_loop_stays_empty(v, events.drop_last());
    }
}

} // verus!

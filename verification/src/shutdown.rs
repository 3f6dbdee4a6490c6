//! What holds of shutting the workers down.
//!
//! A worker's life is the sequence of tasks that it is sent. It runs them in
//! order and leaves its loop at the first shutdown marker; if there is none,
//! it runs them all and then waits for ever.

use crate::task::Task;
use vstd::prelude::*;

verus! {

/// The number of tasks that a worker runs before it leaves its loop, when it
/// is sent `queue`; `None` if it never leaves.
pub open spec fn exits_after<W>(queue: Seq<Task<W>>) -> Option<nat>
    decreases queue.len(),
{
    if queue.len() == 0 {
        None
    } else if queue[0].step_of() is Exit {
        Some(0nat)
    } else {
        match exits_after(queue.drop_first()) {
            Some(n) => Some(n + 1),
            None => None,
        }
    }
}

/// The number of shutdown markers in `queue`.
pub open spec fn markers_in<W>(queue: Seq<Task<W>>) -> nat
    decreases queue.len(),
{
    if queue.len() == 0 {
        0
    } else {
        markers_in(queue.drop_last()) + if queue.last().kind is Close {
            1nat
        } else {
            0nat
        }
    }
}

/// The number of shutdown markers in all of `queues` together.
pub open spec fn markers_in_all<W>(queues: Seq<Seq<Task<W>>>) -> nat
    decreases queues.len(),
{
    if queues.len() == 0 {
        0
    } else {
        markers_in_all(queues.drop_last()) + markers_in(queues.last())
    }
}

/// What each worker has been sent once the marker `markers[w]` was sent to
/// worker `w` behind what it had been sent before.
pub open spec fn with_markers<W>(queues: Seq<Seq<Task<W>>>, markers: Seq<Task<W>>) -> Seq<
    Seq<Task<W>>,
> {
    Seq::new(queues.len(), |w: int| queues[w].push(markers[w]))
}

/// A queue holds a marker exactly if one of its tasks is one.
proof fn lemma_markers_in<W>(queue: Seq<Task<W>>)
    ensures
        markers_in(queue) > 0 <==> exists|i: int|
            0 <= i < queue.len() && (#[trigger] queue[i]).kind is Close,
    decreases queue.len(),
{
    if queue.len() > 0 {
        let front = queue.drop_last();
        lemma_markers_in(front);
        if markers_in(queue) > 0 {
            if queue.last().kind is Close {
                assert(queue[queue.len() - 1].kind is Close);
            } else {
                let i = choose|i: int| 0 <= i < front.len() && (#[trigger] front[i]).kind is Close;
                assert(queue[i].kind is Close);
            }
        }
        if exists|i: int| 0 <= i < queue.len() && (#[trigger] queue[i]).kind is Close {
            let i = choose|i: int| 0 <= i < queue.len() && (#[trigger] queue[i]).kind is Close;
            if i < front.len() {
                assert(front[i].kind is Close);
            }
        }
    }
}

/// A worker leaves its loop exactly if it is sent a shutdown marker, and
/// then after fewer steps than it was sent tasks. Without a marker it never
/// leaves.
pub proof fn worker_exits_exactly_on_a_marker<W>(queue: Seq<Task<W>>)
    ensures
        exits_after(queue) is Some <==> markers_in(queue) > 0,
        exits_after(queue) matches Some(n) ==> n < queue.len() && queue[n as int].kind is Close,
    decreases queue.len(),
{
    lemma_markers_in(queue);
    if queue.len() > 0 {
        let rest = queue.drop_first();
        worker_exits_exactly_on_a_marker(rest);
        lemma_markers_in(rest);
        if queue[0].step_of() is Exit {
            assert(queue[0].kind is Close);
        } else {
            if exits_after(rest) is Some {
                let n = exits_after(rest)->Some_0;
                assert(rest[n as int] == queue[n as int + 1]);
            }
            if markers_in(queue) > 0 {
                let i = choose|i: int| 0 <= i < queue.len() && (#[trigger] queue[i]).kind is Close;
                assert(i > 0);
                assert(rest[i - 1].kind is Close);
            }
            if markers_in(rest) > 0 {
                let i = choose|i: int| 0 <= i < rest.len() && (#[trigger] rest[i]).kind is Close;
                assert(queue[i + 1].kind is Close);
            }
        }
    }
}

/// Where every worker was sent a marker, there are at least as many markers
/// as workers.
proof fn lemma_a_marker_each<W>(queues: Seq<Seq<Task<W>>>)
    requires
        forall|w: int| 0 <= w < queues.len() ==> markers_in(#[trigger] queues[w]) > 0,
    ensures
        markers_in_all(queues) >= queues.len(),
    decreases queues.len(),
{
    if queues.len() > 0 {
        let front = queues.drop_last();
        assert forall|w: int| 0 <= w < front.len() implies markers_in(#[trigger] front[w]) > 0 by {
            assert(front[w] == queues[w]);
        }
        lemma_a_marker_each(front);
        assert(markers_in(queues[queues.len() - 1]) > 0);
    }
}

/// With fewer markers than workers, however they are handed out, some
/// worker gets none and never leaves its loop. So markers are never sent
/// one by one: the pool makes them all at once, one for each worker.
pub proof fn fewer_markers_leave_a_worker_waiting<W>(queues: Seq<Seq<Task<W>>>) -> (w: int)
    requires
        markers_in_all(queues) < queues.len(),
    ensures
        0 <= w < queues.len(),
        exits_after(queues[w]) is None,
{
    if forall|w: int| 0 <= w < queues.len() ==> markers_in(#[trigger] queues[w]) > 0 {
        lemma_a_marker_each(queues);
    }
    let w = choose|w: int| 0 <= w < queues.len() && !(markers_in(#[trigger] queues[w]) > 0);
    worker_exits_exactly_on_a_marker(queues[w]);
    w
}

/// Once each worker was sent its own marker, every worker leaves its loop,
/// after no more steps than it was sent tasks before.
pub proof fn a_marker_each_stops_every_worker<W>(
    queues: Seq<Seq<Task<W>>>,
    markers: Seq<Task<W>>,
    w: int,
)
    requires
        markers.len() == queues.len(),
        forall|i: int| 0 <= i < markers.len() ==> (#[trigger] markers[i]).kind is Close,
        0 <= w < queues.len(),
    ensures
        exits_after(with_markers(queues, markers)[w]) matches Some(n) && n <= queues[w].len(),
{
    let sent = with_markers(queues, markers)[w];
    assert(sent == queues[w].push(markers[w]));
    assert(sent[sent.len() - 1].kind is Close);
    lemma_markers_in(sent);
    worker_exits_exactly_on_a_marker(sent);
}

} // verus!

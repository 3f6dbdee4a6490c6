//! The store of callbacks that wait for an event, keyed by callback id.

use crate::js::Js;
use std::collections::HashMap;
use vstd::prelude::*;

verus! {

/// What one drain pass over `ready` hands out, and what it leaves registered.
///
/// The pass walks `ready` front to back. An entry whose id is registered takes
/// that callback out of `callbacks` and pairs it with the entry's result. An
/// entry whose id is not registered, or no longer is because an earlier entry
/// of the same pass took it, is passed over.
pub open spec fn drained<C>(callbacks: Map<usize, C>, ready: Seq<(usize, Js)>) -> (
    Seq<(C, Js)>,
    Map<usize, C>,
)
    decreases ready.len(),
{
    if ready.len() == 0 {
        (Seq::empty(), callbacks)
    } else {
        let (out, left) = drained(callbacks, ready.drop_last());
        let (id, result) = ready.last();
        if left.contains_key(id) {
            (out.push((left[id], result)), left.remove(id))
        } else {
            (out, left)
        }
    }
}

/// The ids of the entries of `ready`, entry by entry.
pub open spec fn ready_ids(ready: Seq<(usize, Js)>) -> Seq<usize> {
    ready.map_values(|e: (usize, Js)| e.0)
}

/// A drain pass leaves registered exactly what none of its entries names.
pub proof fn lemma_drained_left<C>(callbacks: Map<usize, C>, ready: Seq<(usize, Js)>)
    ensures
        drained(callbacks, ready).1 == callbacks.remove_keys(ready_ids(ready).to_set()),
        drained(callbacks, ready).0.len() <= ready.len(),
        callbacks.dom().finite() ==> drained(callbacks, ready).1.dom().finite(),
    decreases ready.len(),
{
    let ids = ready_ids(ready);
    if ready.len() == 0 {
        assert(ids.to_set() =~= Set::<usize>::empty());
        assert(callbacks.remove_keys(ids.to_set()) =~= callbacks);
    } else {
        let front = ready.drop_last();
        lemma_drained_left(callbacks, front);
        let id = ready.last().0;
        assert(ready_ids(front) =~= ids.drop_last());
        assert(ids.last() == id);
        assert(ids.to_set() =~= ids.drop_last().to_set().insert(id)) by {
            assert forall|x: usize| ids.to_set().contains(x) implies ids.drop_last().to_set().insert(
                id,
            ).contains(x) by {
                let i = choose|i: int| 0 <= i < ids.len() && ids[i] == x;
                if i < ids.len() - 1 {
                    assert(ids.drop_last()[i] == x);
                }
            }
            assert forall|x: usize|
                ids.drop_last().to_set().insert(id).contains(x) implies ids.to_set().contains(
                x,
            ) by {
                if x == id {
                    assert(ids[ids.len() - 1] == x);
                } else {
                    let i = choose|i: int| 0 <= i < ids.drop_last().len() && ids.drop_last()[i] == x;
                    assert(ids[i] == x);
                }
            }
        }
        let left = drained(callbacks, front).1;
        assert(drained(callbacks, ready).1 =~= callbacks.remove_keys(ids.to_set()));
    }
}

/// Where every entry of `ready` names a registered callback and none is named
/// twice, a drain pass hands out one callback per entry, in order.
pub proof fn lemma_drained_all<C>(callbacks: Map<usize, C>, ready: Seq<(usize, Js)>)
    requires
        ready_ids(ready).no_duplicates(),
        forall|i: int| 0 <= i < ready.len() ==> callbacks.contains_key(#[trigger] ready[i].0),
    ensures
        drained(callbacks, ready).0 == ready.map_values(|e: (usize, Js)| (callbacks[e.0], e.1)),
    decreases ready.len(),
{
    let f = |e: (usize, Js)| (callbacks[e.0], e.1);
    if ready.len() == 0 {
        assert(drained(callbacks, ready).0 =~= ready.map_values(f));
    } else {
        let front = ready.drop_last();
        let ids = ready_ids(ready);
        assert(ready_ids(front) =~= ids.drop_last());
        assert forall|i: int, j: int| 0 <= i < j < ready_ids(front).len() implies ready_ids(
            front,
        )[i] != ready_ids(front)[j] by {
            assert(ids[i] != ids[j]);
        }
        assert forall|i: int| 0 <= i < front.len() implies callbacks.contains_key(
            #[trigger] front[i].0,
        ) by {
            assert(front[i] == ready[i]);
        }
        lemma_drained_all(callbacks, front);
        lemma_drained_left(callbacks, front);
        let id = ready.last().0;
        assert(callbacks.contains_key(ready[ready.len() - 1].0));
        assert(!ready_ids(front).to_set().contains(id)) by {
            if ready_ids(front).to_set().contains(id) {
                let i = choose|i: int| 0 <= i < ready_ids(front).len() && ready_ids(front)[i] == id;
                assert(ids[i] == ids[ids.len() - 1]);
            }
        }
        assert(front.map_values(f).push(f(ready.last())) =~= ready.map_values(f));
    }
}

/// Callbacks that wait to be fired, and the results that wait for a callback.
///
/// `C` is the callback itself: an invoke-once capability that the registry
/// owns by value and never looks inside. Firing hands it out and forgets it,
/// so no callback can be handed out twice.
pub struct Registry<C> {
    callbacks: HashMap<usize, C>,
    ready: Vec<(usize, Js)>,
    last_id: usize,
}

impl<C> Registry<C> {
    /// The registered callbacks by id.
    pub closed spec fn callbacks(&self) -> Map<usize, C> {
        self.callbacks@
    }

    /// The events that were dispatched and whose callbacks have not run yet,
    /// oldest first: a callback id and the result to pass to it.
    pub closed spec fn ready(&self) -> Seq<(usize, Js)> {
        self.ready@
    }

    /// The id issued last; zero before the first.
    pub closed spec fn last_id(&self) -> usize {
        self.last_id
    }

    /// The registry's invariant: every registered id was issued.
    pub open spec fn wf(&self) -> bool {
        &&& self.callbacks().dom().finite()
        &&& forall|id: usize| self.callbacks().contains_key(id) ==> 1 <= id <= self.last_id()
    }

    /// An empty registry. The first id it issues is 1.
    pub fn new() -> (r: Self)
        ensures
            r.wf(),
            r.callbacks() == Map::<usize, C>::empty(),
            r.ready() == Seq::<(usize, Js)>::empty(),
            r.last_id() == 0,
    {
        Registry { callbacks: HashMap::new(), ready: Vec::new(), last_id: 0 }
    }

    /// The id issued last; zero before the first.
    pub fn issued(&self) -> (n: usize)
        ensures
            n == self.last_id(),
    {
        self.last_id
    }

    /// The number of registered callbacks.
    pub fn len(&self) -> (n: usize)
        ensures
            n == self.callbacks().len(),
    {
        self.callbacks.len()
    }

    /// Whether a callback is registered under `id`.
    pub fn contains(&self, id: usize) -> (b: bool)
        ensures
            b == self.callbacks().contains_key(id),
    {
        self.callbacks.contains_key(&id)
    }

    /// Stores `callback` under a fresh id, one more than the id issued last.
    pub fn register(&mut self, callback: C) -> (id: usize)
        requires
            old(self).wf(),
            old(self).last_id() < usize::MAX,
        ensures
            final(self).wf(),
            id == old(self).last_id() + 1,
            final(self).last_id() == id,
            !old(self).callbacks().contains_key(id),
            final(self).callbacks() == old(self).callbacks().insert(id, callback),
            final(self).ready() == old(self).ready(),
    {
        let id: usize = self.last_id + 1;
        self.last_id = id;
        self.callbacks.insert(id, callback);
        id
    }

    /// Takes the callback registered under `id` out of the registry, for the
    /// caller to invoke. A second call with the same id gives `None`.
    pub fn fire(&mut self, id: usize) -> (callback: Option<C>)
        requires
            old(self).wf(),
        ensures
            final(self).wf(),
            callback == if old(self).callbacks().contains_key(id) {
                Some(old(self).callbacks()[id])
            } else {
                None
            },
            final(self).callbacks() == old(self).callbacks().remove(id),
            final(self).ready() == old(self).ready(),
            final(self).last_id() == old(self).last_id(),
    {
        self.callbacks.remove(&id)
    }

    /// Notes that the callback `id` is to run with `result` in the next
    /// drain pass.
    pub fn mark_ready(&mut self, id: usize, result: Js)
        ensures
            final(self).wf() == old(self).wf(),
            final(self).ready() == old(self).ready().push((id, result)),
            final(self).callbacks() == old(self).callbacks(),
            final(self).last_id() == old(self).last_id(),
    {
        self.ready.push((id, result));
    }

    /// The number of results that wait for their callback.
    pub fn ready_len(&self) -> (n: usize)
        ensures
            n == self.ready().len(),
    {
        self.ready.len()
    }

    /// Moves the waiting results into a buffer of the caller's and leaves
    /// none behind.
    pub fn drain_ready(&mut self) -> (buffer: Vec<(usize, Js)>)
        ensures
            final(self).wf() == old(self).wf(),
            buffer@ == old(self).ready(),
            final(self).ready() == Seq::<(usize, Js)>::empty(),
            final(self).callbacks() == old(self).callbacks(),
            final(self).last_id() == old(self).last_id(),
    {
        let mut buffer: Vec<(usize, Js)> = Vec::new();
        std::mem::swap(&mut buffer, &mut self.ready);
        buffer
    }

    /// One drain pass: empties the list of waiting results, then takes out
    /// the callback of each and pairs it with its result, for the caller to
    /// invoke in this order. What those callbacks register or make ready
    /// while they run is not part of this pass.
    pub fn run_ready_callbacks(&mut self) -> (batch: Vec<(C, Js)>)
        requires
            old(self).wf(),
        ensures
            final(self).wf(),
            batch@ == drained(old(self).callbacks(), old(self).ready()).0,
            final(self).callbacks() == drained(old(self).callbacks(), old(self).ready()).1,
            final(self).ready() == Seq::<(usize, Js)>::empty(),
            final(self).last_id() == old(self).last_id(),
    {
        let buffer = self.drain_ready();
        let ghost all = buffer@;
        let mut batch: Vec<(C, Js)> = Vec::new();
        for entry in it: buffer
            invariant
                self.wf(),
                self.ready() == Seq::<(usize, Js)>::empty(),
                self.last_id() == old(self).last_id(),
                it.seq() == all,
                (batch@, self.callbacks()) == drained(old(self).callbacks(), all.take(it.index())),
        {
            let (id, result) = entry;
            proof {
                let i = it.index();
                assert(all.take(i + 1).drop_last() =~= all.take(i));
                assert(all.take(i + 1).last() == all[i]);
            }
            match self.fire(id) {
                Some(callback) => {
                    batch.push((callback, result));
                },
                None => {},
            }
        }
        proof {
            assert(all.take(all.len() as int) =~= all);
        }
        batch
    }
}

} // verus!

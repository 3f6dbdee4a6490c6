//! Pending timeouts, kept in the order in which they fire.

use std::collections::VecDeque;
use vstd::prelude::*;

verus! {

/// One pending timeout: when it is due, on the loop's monotonic clock in
/// milliseconds, and the callback that waits for it.
#[derive(Debug, Clone, Copy, PartialEq, Eq, Structural)]
pub struct Timer {
    pub deadline: u64,
    pub callback_id: usize,
}

/// No entry is due before one that precedes it.
pub open spec fn sorted(s: Seq<Timer>) -> bool {
    forall|i: int, j: int| 0 <= i <= j < s.len() ==> s[i].deadline <= s[j].deadline
}

/// The entries of `s` that are due at `now`, in the order they have in `s`.
pub open spec fn due(s: Seq<Timer>, now: u64) -> Seq<Timer> {
    s.filter(|t: Timer| t.deadline <= now)
}

/// The entries of `s` that are not yet due at `now`, in the order they have in `s`.
pub open spec fn later(s: Seq<Timer>, now: u64) -> Seq<Timer> {
    s.filter(|t: Timer| t.deadline > now)
}

/// The callback ids of `s`, entry by entry.
pub open spec fn ids(s: Seq<Timer>) -> Seq<usize> {
    s.map_values(|t: Timer| t.callback_id)
}

/// `s` with `t` added: behind every entry that is due no later than `t`, and
/// before every entry that is due after it.
pub open spec fn with_timer(s: Seq<Timer>, t: Timer) -> Seq<Timer> {
    due(s, t.deadline).push(t) + later(s, t.deadline)
}

/// Where the first entry registered under `id` stands in `s`.
pub open spec fn position(s: Seq<Timer>, id: usize) -> Option<int> {
    ids(s).index_of_first(id)
}

/// How long the loop may sleep at `now`: until the first entry of `s` is due,
/// not at all if it already is, and without limit if there is none.
pub open spec fn timeout_at(s: Seq<Timer>, now: u64) -> Option<u64> {
    if s.len() == 0 {
        None
    } else if s[0].deadline > now {
        Some((s[0].deadline - now) as u64)
    } else {
        Some(0u64)
    }
}

/// `k` parts `s` into the entries due at `now` and the others.
pub open spec fn boundary(s: Seq<Timer>, now: u64, k: int) -> bool {
    &&& 0 <= k <= s.len()
    &&& forall|i: int| 0 <= i < k ==> s[i].deadline <= now
    &&& forall|i: int| k <= i < s.len() ==> s[i].deadline > now
}

/// At a boundary the due entries are the front of the sequence and the
/// others its back.
pub proof fn lemma_boundary_splits(s: Seq<Timer>, now: u64, k: int)
    requires
        boundary(s, now, k),
    ensures
        due(s, now) == s.take(k),
        later(s, now) == s.skip(k),
    decreases s.len(),
{
    reveal(Seq::filter);
    if s.len() == 0 {
        assert(due(s, now) =~= s.take(k));
        assert(later(s, now) =~= s.skip(k));
    } else {
        let front = s.drop_last();
        let k1 = if k == s.len() { k - 1 } else { k };
        lemma_boundary_splits(front, now, k1);
        if k == s.len() {
            assert(front.take(k1).push(s.last()) =~= s.take(k));
            assert(front.skip(k1) =~= s.skip(k));
        } else {
            assert(front.take(k1) =~= s.take(k));
            assert(front.skip(k1).push(s.last()) =~= s.skip(k));
        }
    }
}

/// Adding a timer to a sorted sequence puts it at the boundary of its own
/// deadline and leaves the sequence sorted.
pub proof fn lemma_with_timer_at(s: Seq<Timer>, t: Timer, k: int)
    requires
        sorted(s),
        boundary(s, t.deadline, k),
    ensures
        with_timer(s, t) == s.insert(k, t),
        sorted(with_timer(s, t)),
{
    lemma_boundary_splits(s, t.deadline, k);
    let r = s.insert(k, t);
    assert(s.take(k).push(t) + s.skip(k) =~= r);
    assert forall|i: int, j: int| 0 <= i <= j < r.len() implies r[i].deadline <= r[j].deadline by {
        if i < k && j > k {
            assert(r[i] == s[i] && r[j] == s[j - 1]);
        } else if i > k {
            assert(r[i] == s[i - 1] && r[j] == s[j - 1]);
        } else if j < k {
            assert(r[i] == s[i] && r[j] == s[j]);
        }
    }
}

/// Taking an entry out of a sorted sequence leaves it sorted.
pub proof fn lemma_remove_sorted(s: Seq<Timer>, i: int)
    requires
        sorted(s),
        0 <= i < s.len(),
    ensures
        sorted(s.remove(i)),
{
    let r = s.remove(i);
    assert forall|a: int, b: int| 0 <= a <= b < r.len() implies r[a].deadline <= r[b].deadline by {
        let a_front = if a < i { a } else { a + 1 };
        let b_front = if b < i { b } else { b + 1 };
        assert(r[a] == s[a_front] && r[b] == s[b_front]);
    }
}

/// Every sorted sequence has a boundary for every instant.
pub proof fn lemma_boundary_exists(s: Seq<Timer>, now: u64) -> (k: int)
    requires
        sorted(s),
    ensures
        boundary(s, now, k),
    decreases s.len(),
{
    if s.len() == 0 {
        0
    } else if s.last().deadline <= now {
        assert forall|i: int| 0 <= i < s.len() implies s[i].deadline <= now by {
            assert(s[i].deadline <= s[s.len() - 1].deadline);
        }
        s.len() as int
    } else {
        let front = s.drop_last();
        assert forall|i: int, j: int| 0 <= i <= j < front.len() implies front[i].deadline
            <= front[j].deadline by {
            assert(front[i] == s[i] && front[j] == s[j]);
        }
        let k = lemma_boundary_exists(front, now);
        assert forall|i: int| 0 <= i < k implies s[i].deadline <= now by {
            assert(front[i] == s[i]);
        }
        assert forall|i: int| k <= i < s.len() implies s[i].deadline > now by {
            if i < front.len() {
                assert(front[i] == s[i]);
            }
        }
        k
    }
}

/// The store of pending timeouts.
///
/// Its view is the sequence of pending timers in firing order: ascending by
/// deadline, and among equal deadlines in the order of insertion. The timers
/// are kept in that order in a ring buffer: an expiry takes them off its
/// front one by one, and an insertion finds its place by binary search and
/// shifts the shorter side.
pub struct Timers {
    entries: VecDeque<Timer>,
}

impl View for Timers {
    type V = Seq<Timer>;

    closed spec fn view(&self) -> Seq<Timer> {
        self.entries@
    }
}

impl Timers {
    /// The store's invariant: its entries are in firing order.
    pub open spec fn wf(&self) -> bool {
        sorted(self@)
    }

    /// An empty store.
    pub fn new() -> (t: Timers)
        ensures
            t.wf(),
            t@ == Seq::<Timer>::empty(),
    {
        Timers { entries: VecDeque::new() }
    }

    /// The number of pending timers.
    pub fn len(&self) -> (n: usize)
        ensures
            n == self@.len(),
    {
        self.entries.len()
    }

    /// Whether no timer is pending.
    pub fn is_empty(&self) -> (b: bool)
        ensures
            b == (self@.len() == 0),
    {
        self.entries.len() == 0
    }

    /// Whether a timer is pending under `callback_id`.
    pub fn contains(&self, callback_id: usize) -> (b: bool)
        ensures
            b == ids(self@).contains(callback_id),
    {
        let mut i: usize = 0;
        while i < self.entries.len()
            invariant
                i <= self.entries.len(),
                forall|j: int| 0 <= j < i ==> self.entries@[j].callback_id != callback_id,
            decreases self.entries.len() - i,
        {
            if self.entries[i].callback_id == callback_id {
                assert(ids(self@)[i as int] == callback_id);
                return true;
            }
            i += 1;
        }
        false
    }

    /// Adds a timer that is due at `deadline` and fires `callback_id`. It
    /// fires after every pending timer with the same or an earlier deadline.
    pub fn insert(&mut self, deadline: u64, callback_id: usize)
        requires
            old(self).wf(),
        ensures
            final(self).wf(),
            final(self)@ == with_timer(old(self)@, (Timer { deadline, callback_id })),
            final(self)@.len() == old(self)@.len() + 1,
    {
        let t = Timer { deadline, callback_id };
        let mut lo: usize = 0;
        let mut hi: usize = self.entries.len();
        while lo < hi
            invariant
                lo <= hi <= self.entries.len(),
                sorted(self.entries@),
                forall|i: int| 0 <= i < lo ==> self.entries@[i].deadline <= deadline,
                forall|i: int| hi <= i < self.entries.len() ==> self.entries@[i].deadline > deadline,
            decreases hi - lo,
        {
            let mid: usize = lo + (hi - lo) / 2;
            if self.entries[mid].deadline <= deadline {
                lo = mid + 1;
            } else {
                hi = mid;
            }
        }
        proof {
            lemma_with_timer_at(self.entries@, t, lo as int);
        }
        self.entries.insert(lo, t);
    }

    /// Removes the first pending timer registered under `callback_id` and
    /// says whether there was one.
    pub fn cancel(&mut self, callback_id: usize) -> (removed: bool)
        requires
            old(self).wf(),
        ensures
            final(self).wf(),
            removed == ids(old(self)@).contains(callback_id),
            match position(old(self)@, callback_id) {
                Some(i) => removed && final(self)@ == old(self)@.remove(i),
                None => !removed && final(self)@ == old(self)@,
            },
    {
        let mut i: usize = 0;
        while i < self.entries.len()
            invariant
                i <= self.entries.len(),
                self.entries@ == old(self).entries@,
                sorted(self.entries@),
                forall|j: int| 0 <= j < i ==> ids(self.entries@)[j] != callback_id,
            decreases self.entries.len() - i,
        {
            if self.entries[i].callback_id == callback_id {
                proof {
                    ids(self@).index_of_first_ensures(callback_id);
                    assert(ids(self@)[i as int] == callback_id);
                    lemma_remove_sorted(self@, i as int);
                }
                let _ = self.entries.remove(i);
                return true;
            }
            i += 1;
        }
        proof {
            ids(self@).index_of_first_ensures(callback_id);
        }
        false
    }

    /// How long the loop may sleep at `now` before the next timer is due:
    /// `None` when no timer is pending, zero when one is already due.
    pub fn next_timeout(&self, now: u64) -> (r: Option<u64>)
        ensures
            r == timeout_at(self@, now),
            r is None <==> self@.len() == 0,
    {
        if self.entries.len() == 0 {
            None
        } else {
            let first = self.entries[0].deadline;
            if first > now {
                Some(first - now)
            } else {
                Some(0)
            }
        }
    }

    /// Removes every timer that is due at `now` and returns their callback
    /// ids in firing order.
    pub fn expire(&mut self, now: u64) -> (fired: Vec<usize>)
        requires
            old(self).wf(),
        ensures
            final(self).wf(),
            fired@ == ids(due(old(self)@, now)),
            final(self)@ == later(old(self)@, now),
            fired@.len() + final(self)@.len() == old(self)@.len(),
    {
        let mut fired: Vec<usize> = Vec::new();
        let ghost mut k: int = 0;
        while self.entries.len() > 0 && self.entries[0].deadline <= now
            invariant
                0 <= k <= old(self)@.len(),
                sorted(old(self)@),
                self.entries@ == old(self)@.skip(k),
                forall|i: int| 0 <= i < k ==> old(self)@[i].deadline <= now,
                fired@ == ids(old(self)@.take(k)),
            decreases self.entries.len(),
        {
            proof {
                assert(self.entries@[0] == old(self)@[k]);
                assert(old(self)@.take(k + 1) =~= old(self)@.take(k).push(old(self)@[k]));
                assert(ids(old(self)@.take(k + 1)) =~= ids(old(self)@.take(k)).push(
                    old(self)@[k].callback_id,
                ));
                assert(old(self)@.skip(k).subrange(1, old(self)@.skip(k).len() as int)
                    =~= old(self)@.skip(k + 1));
            }
            match self.entries.pop_front() {
                Some(t) => {
                    fired.push(t.callback_id);
                },
                None => {},
            }
            proof {
                k = k + 1;
            }
        }
        proof {
            assert forall|i: int| k <= i < old(self)@.len() implies old(self)@[i].deadline > now by {
                assert(self.entries@[0] == old(self)@[k]);
                assert(old(self)@[k].deadline <= old(self)@[i].deadline);
            }
            lemma_boundary_splits(old(self)@, now, k);
            assert forall|i: int, j: int| 0 <= i <= j < self.entries@.len() implies self.entries@[i].deadline
                <= self.entries@[j].deadline by {
                assert(self.entries@[i] == old(self)@[i + k] && self.entries@[j] == old(self)@[j + k]);
            }
        }
        fired
    }
}

} // verus!

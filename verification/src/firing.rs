//! What holds of the order in which timers fire.

use crate::timers::{
    boundary, due, later, lemma_boundary_exists, lemma_boundary_splits, lemma_with_timer_at,
    sorted, timeout_at, with_timer, Timer,
};
use vstd::prelude::*;

verus! {

/// The store after the timers of `ins` were inserted into an empty store,
/// one after the other.
pub open spec fn inserted(ins: Seq<Timer>) -> Seq<Timer>
    decreases ins.len(),
{
    if ins.len() == 0 {
        Seq::empty()
    } else {
        with_timer(inserted(ins.drop_last()), ins.last())
    }
}

/// No two timers of `ins` are due at the same instant.
pub open spec fn distinct_deadlines(ins: Seq<Timer>) -> bool {
    forall|i: int, j: int| 0 <= i < j < ins.len() ==> ins[i].deadline != ins[j].deadline
}

/// Every deadline rises from one entry to the next.
pub open spec fn strictly_ascending(s: Seq<Timer>) -> bool {
    forall|i: int, j: int| 0 <= i < j < s.len() ==> s[i].deadline < s[j].deadline
}

/// The last insertion goes to the boundary of its own deadline.
proof fn lemma_last_step(ins: Seq<Timer>) -> (k: int)
    requires
        ins.len() > 0,
    ensures
        sorted(inserted(ins.drop_last())),
        inserted(ins.drop_last()).len() == ins.len() - 1,
        boundary(inserted(ins.drop_last()), ins.last().deadline, k),
        inserted(ins) == inserted(ins.drop_last()).insert(k, ins.last()),
{
    let front = ins.drop_last();
    inserted_is_a_sorted_rearrangement(front);
    let k = lemma_boundary_exists(inserted(front), ins.last().deadline);
    lemma_with_timer_at(inserted(front), ins.last(), k);
    k
}

/// Whatever the order of insertion, the store holds exactly the timers that
/// were inserted, each as often as it was inserted, sorted by deadline.
pub proof fn inserted_is_a_sorted_rearrangement(ins: Seq<Timer>)
    ensures
        sorted(inserted(ins)),
        inserted(ins).len() == ins.len(),
        inserted(ins).to_multiset() == ins.to_multiset(),
    decreases ins.len(),
{
    if ins.len() > 0 {
        let front = ins.drop_last();
        inserted_is_a_sorted_rearrangement(front);
        let s = inserted(front);
        let k = lemma_boundary_exists(s, ins.last().deadline);
        lemma_with_timer_at(s, ins.last(), k);
        vstd::seq_lib::to_multiset_insert(s, k, ins.last());
        vstd::seq_lib::to_multiset_build(front, ins.last());
        assert(front.push(ins.last()) =~= ins);
        assert(inserted(ins).to_multiset() == s.to_multiset().insert(ins.last()));
        assert(ins.to_multiset() == front.to_multiset().insert(ins.last()));
    } else {
        assert(ins =~= Seq::<Timer>::empty());
    }
}

/// Every entry of the store is one of the insertions.
proof fn lemma_entry_was_inserted(ins: Seq<Timer>, p: int) -> (i: int)
    requires
        0 <= p < inserted(ins).len(),
    ensures
        0 <= i < ins.len(),
        inserted(ins)[p] == ins[i],
    decreases ins.len(),
{
    inserted_is_a_sorted_rearrangement(ins);
    let k = lemma_last_step(ins);
    let front = ins.drop_last();
    if p == k {
        ins.len() - 1
    } else if p < k {
        lemma_entry_was_inserted(front, p)
    } else {
        lemma_entry_was_inserted(front, p - 1)
    }
}

/// Where the insertion `i` stands in the store.
proof fn lemma_place(ins: Seq<Timer>, i: int) -> (p: int)
    requires
        0 <= i < ins.len(),
    ensures
        0 <= p < ins.len(),
        inserted(ins).len() == ins.len(),
        inserted(ins)[p] == ins[i],
    decreases ins.len(),
{
    inserted_is_a_sorted_rearrangement(ins);
    let k = lemma_last_step(ins);
    let front = ins.drop_last();
    if i == ins.len() - 1 {
        k
    } else {
        let p_front = lemma_place(front, i);
        if p_front < k {
            p_front
        } else {
            p_front + 1
        }
    }
}

/// A later insertion never overtakes an earlier one that is due at the same
/// instant or before: the earlier one stands in front of it in the store.
pub proof fn insertion_order_is_kept(ins: Seq<Timer>, i: int, j: int) -> (pq: (int, int))
    requires
        0 <= i < j < ins.len(),
        ins[i].deadline <= ins[j].deadline,
    ensures
        0 <= pq.0 < pq.1 < inserted(ins).len(),
        inserted(ins)[pq.0] == ins[i],
        inserted(ins)[pq.1] == ins[j],
    decreases ins.len(),
{
    inserted_is_a_sorted_rearrangement(ins);
    let k = lemma_last_step(ins);
    let front = ins.drop_last();
    let s = inserted(front);
    if j == ins.len() - 1 {
        let p = lemma_place(front, i);
        assert(s[p].deadline <= ins.last().deadline);
        (p, k)
    } else {
        let (p_front, q_front) = insertion_order_is_kept(front, i, j);
        let p = if p_front < k {
            p_front
        } else {
            p_front + 1
        };
        let q = if q_front < k {
            q_front
        } else {
            q_front + 1
        };
        (p, q)
    }
}

/// Where no two deadlines are equal, the deadlines of the store rise
/// strictly.
pub proof fn distinct_deadlines_ascend_strictly(ins: Seq<Timer>)
    requires
        distinct_deadlines(ins),
    ensures
        strictly_ascending(inserted(ins)),
{
    inserted_is_a_sorted_rearrangement(ins);
    let s = inserted(ins);
    assert forall|a: int, b: int| 0 <= a < b < s.len() implies s[a].deadline < s[b].deadline by {
        if s[a].deadline == s[b].deadline {
            lemma_same_deadline_twice(ins, a, b);
        }
    }
}

/// Two entries of the store come from two different insertions.
proof fn lemma_same_deadline_twice(ins: Seq<Timer>, a: int, b: int)
    requires
        0 <= a < b < inserted(ins).len(),
        inserted(ins)[a].deadline == inserted(ins)[b].deadline,
    ensures
        !distinct_deadlines(ins),
    decreases ins.len(),
{
    inserted_is_a_sorted_rearrangement(ins);
    let k = lemma_last_step(ins);
    let front = ins.drop_last();
    let s = inserted(front);
    let last = ins.len() - 1;
    if a == k {
        let i = lemma_entry_was_inserted(front, b - 1);
        assert(ins[i].deadline == ins[last].deadline);
    } else if b == k {
        let i = lemma_entry_was_inserted(front, a);
        assert(ins[i].deadline == ins[last].deadline);
    } else {
        let a_front = if a < k {
            a
        } else {
            a - 1
        };
        let b_front = if b < k {
            b
        } else {
            b - 1
        };
        lemma_same_deadline_twice(front, a_front, b_front);
        let (i, j) = choose|i: int, j: int|
            0 <= i < j < front.len() && front[i].deadline == front[j].deadline;
        assert(ins[i].deadline == ins[j].deadline);
    }
}

/// Timers with distinct deadlines, inserted in any order, are all returned
/// by an expiry at or after the last deadline, none is left pending, and
/// they come out in strictly ascending order of deadline.
pub proof fn expiry_returns_all_in_ascending_order(ins: Seq<Timer>, now: u64)
    requires
        distinct_deadlines(ins),
        forall|i: int| 0 <= i < ins.len() ==> ins[i].deadline <= now,
    ensures
        due(inserted(ins), now).len() == ins.len(),
        due(inserted(ins), now).to_multiset() == ins.to_multiset(),
        strictly_ascending(due(inserted(ins), now)),
        later(inserted(ins), now).len() == 0,
{
    inserted_is_a_sorted_rearrangement(ins);
    distinct_deadlines_ascend_strictly(ins);
    let s = inserted(ins);
    assert forall|p: int| 0 <= p < s.len() implies s[p].deadline <= now by {
        let i = lemma_entry_was_inserted(ins, p);
    }
    lemma_boundary_splits(s, now, s.len() as int);
    assert(s.take(s.len() as int) =~= s);
}

/// Of two timers with the same deadline, the one inserted first is returned
/// first by an expiry at or after that deadline, whatever else was inserted
/// before, between or after them.
pub proof fn equal_deadlines_fire_in_insertion_order(ins: Seq<Timer>, i: int, j: int, now: u64)
    -> (pq: (int, int))
    requires
        0 <= i < j < ins.len(),
        ins[i].deadline == ins[j].deadline,
        ins[i].deadline <= now,
    ensures
        0 <= pq.0 < pq.1 < due(inserted(ins), now).len(),
        due(inserted(ins), now)[pq.0] == ins[i],
        due(inserted(ins), now)[pq.1] == ins[j],
{
    inserted_is_a_sorted_rearrangement(ins);
    let (p, q) = insertion_order_is_kept(ins, i, j);
    let s = inserted(ins);
    let k = lemma_boundary_exists(s, now);
    lemma_boundary_splits(s, now, k);
    (p, q)
}

/// The store has no timeout exactly when no timer is pending, and while
/// nothing is inserted or removed its timeout does not grow as the clock
/// advances.
pub proof fn timeout_shrinks_as_time_passes(s: Seq<Timer>, earlier: u64, later_on: u64)
    requires
        earlier <= later_on,
    ensures
        timeout_at(s, earlier) is None <==> s.len() == 0,
        timeout_at(s, later_on) is None <==> s.len() == 0,
        s.len() > 0 ==> timeout_at(s, later_on)->Some_0 <= timeout_at(s, earlier)->Some_0,
        s.len() > 0 && timeout_at(s, earlier)->Some_0 > 0 && earlier < later_on ==> timeout_at(
            s,
            later_on,
        )->Some_0 < timeout_at(s, earlier)->Some_0,
{
}

} // verus!

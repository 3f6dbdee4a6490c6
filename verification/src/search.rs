//! The greatest element of a slice, found by halving.
//!
//! The search parts the slice in the middle and joins the results of the two
//! halves, so the halves can be searched side by side by whoever has the
//! threads for it: `larger` joins what they bring back.

use vstd::prelude::*;
use vstd::slice::slice_subrange;

verus! {

/// A slice shorter than this is searched directly.
pub const THRESHOLD: usize = 2;

/// `m` occurs in `s` and nothing in `s` is greater.
pub open spec fn is_max_of(s: Seq<i32>, m: i32) -> bool {
    s.contains(m) && forall|i: int| 0 <= i < s.len() ==> s[i] <= m
}

/// `r` is what a search of `s` brings back: nothing for an empty sequence,
/// and its greatest element otherwise.
pub open spec fn is_found_in(s: Seq<i32>, r: Option<i32>) -> bool {
    match r {
        None => s.len() == 0,
        Some(m) => is_max_of(s, m),
    }
}

/// The greater of two results, where nothing is less than anything.
pub open spec fn larger_of(a: Option<i32>, b: Option<i32>) -> Option<i32> {
    match (a, b) {
        (None, _) => b,
        (_, None) => a,
        (Some(x), Some(y)) => if x >= y {
            a
        } else {
            b
        },
    }
}

/// What the two halves of a sequence bring back, joined, is what the whole
/// brings back.
pub proof fn lemma_halves_join(left: Seq<i32>, right: Seq<i32>, a: Option<i32>, b: Option<i32>)
    requires
        is_found_in(left, a),
        is_found_in(right, b),
    ensures
        is_found_in(left + right, larger_of(a, b)),
{
    let s = left + right;
    match larger_of(a, b) {
        None => {},
        Some(m) => {
            if a == Some(m) {
                let i = choose|i: int| 0 <= i < left.len() && left[i] == m;
                assert(s[i] == m);
            } else {
                let i = choose|i: int| 0 <= i < right.len() && right[i] == m;
                assert(s[left.len() + i] == m);
            }
            assert forall|i: int| 0 <= i < s.len() implies s[i] <= m by {
                if i < left.len() {
                    assert(s[i] == left[i]);
                } else {
                    assert(s[i] == right[i - left.len()]);
                }
            }
        },
    }
}

/// Joins the results of two searches: the greater of the two, and the one
/// that is there if the other is not.
pub fn larger(a: Option<i32>, b: Option<i32>) -> (r: Option<i32>)
    ensures
        r == larger_of(a, b),
{
    match (a, b) {
        (None, _) => b,
        (_, None) => a,
        (Some(x), Some(y)) => if x >= y {
            a
        } else {
            b
        },
    }
}

/// The greatest element of `arr`, or `None` if `arr` is empty.
pub fn find_max(arr: &[i32]) -> (r: Option<i32>)
    ensures
        is_found_in(arr@, r),
        r is None <==> arr@.len() == 0,
    decreases arr@.len(),
{
    if arr.len() < THRESHOLD {
        if arr.len() == 0 {
            None
        } else {
            assert(arr@[0] == arr[0]);
            Some(arr[0])
        }
    } else {
        let mid = arr.len() / 2;
        let left = slice_subrange(arr, 0, mid);
        let right = slice_subrange(arr, mid, arr.len());
        let max_l = find_max(left);
        let max_r = find_max(right);
        proof {
            assert(left@ + right@ =~= arr@);
            lemma_halves_join(left@, right@, max_l, max_r);
        }
        larger(max_l, max_r)
    }
}

} // verus!

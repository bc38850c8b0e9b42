//! The two public solvers and the dynamic-programming engine behind them.

use vstd::prelude::*;
use crate::traits::Interval;
use crate::traits::Weighted;
use crate::model::best_weight;
use crate::model::compat_before;
use crate::model::end_sorted;
use crate::model::included_weight;
use crate::model::lemma_best_weight_bounds;
use crate::model::lemma_compat_before_char;
use crate::model::lemma_prefix_weight_mono;
use crate::model::lemma_total_weight_permutation;
use crate::model::prefix_weight;
use crate::model::selected_intervals;
use crate::model::selection;
use crate::model::total_weight;
use crate::util::final_compatible;

verus! {

/// Faster solver, only slightly more difficult to use correctly:
/// `O(n log n)` in interval number, no allocation.
///
/// - `intervals` must be sorted non-decreasing by end bound.
/// - `memoization` is an existing buffer, at least as long as `intervals`,
///   reusable across invocations with no need to clear it: entry `i` holds,
///   on return, the best weight achievable from intervals `0..=i`, and
///   entries beyond the interval count are left as they were.
/// - `solution` is an existing buffer; the optimal intervals are appended
///   to it, latest end bound first.  Callers may clear it between solves or
///   let results accumulate, as they please.
///
/// On empty input, both buffers are left untouched.
#[verifier::loop_isolation(false)]
pub fn sorted<I: Interval + Weighted + Copy>(
    intervals: &Vec<I>,
    memoization: &mut Vec<u64>,
    solution: &mut Vec<I>,
)
    requires
        end_sorted(intervals@),
        intervals@.len() <= old(memoization)@.len(),
        total_weight(intervals@) <= u64::MAX,
    ensures
        final(memoization)@.len() == old(memoization)@.len(),
        intervals@.len() == 0 ==> final(memoization)@ == old(memoization)@ && final(solution)@
            == old(solution)@,
        forall|k: int|
            0 <= k < intervals@.len() ==> final(memoization)@[k] == best_weight(intervals@, k),
        forall|k: int|
            intervals@.len() <= k < old(memoization)@.len() ==> final(memoization)@[k] == old(
                memoization,
            )@[k],
        final(solution)@ == old(solution)@ + selected_intervals(intervals@),
{
    if intervals.len() == 0 {
        proof {
            assert(selection(intervals@, -1) == Seq::<int>::empty());
            assert(solution@ + selected_intervals(intervals@) =~= solution@);
        }
        return ;
    }
    let w0 = intervals[0].weight();
    memoization.set(0, w0);
    internal(intervals, memoization, solution);
}

/// - `memoization` must have its first entry pre-seeded with the weight of
///   the first interval, and already be of length `intervals.len()` or more.
/// - `optimal_solution` will be appended to.
#[verifier::loop_isolation(false)]
fn internal<I: Interval + Weighted + Copy>(
    intervals: &Vec<I>,
    memoization: &mut Vec<u64>,
    optimal_solution: &mut Vec<I>,
)
    requires
        end_sorted(intervals@),
        1 <= intervals@.len() <= old(memoization)@.len(),
        old(memoization)@[0] == intervals@[0].weight_spec(),
        total_weight(intervals@) <= u64::MAX,
    ensures
        final(memoization)@.len() == old(memoization)@.len(),
        forall|k: int|
            0 <= k < intervals@.len() ==> final(memoization)@[k] == best_weight(intervals@, k),
        forall|k: int|
            intervals@.len() <= k < old(memoization)@.len() ==> final(memoization)@[k] == old(
                memoization,
            )@[k],
        final(optimal_solution)@ == old(optimal_solution)@ + selected_intervals(intervals@),
{
    let ghost s = intervals@;
    let n = intervals.len();
    proof {
        assert(best_weight(s, 0) == s[0].weight_spec()) by {
            reveal_with_fuel(best_weight, 2);
        }
    }

    // build the memoization array
    let mut index: usize = 1;
    while index < n
        invariant
            1 <= index <= n,
            memoization@.len() == old(memoization)@.len(),
            forall|k: int| 0 <= k < index ==> memoization@[k] == best_weight(s, k),
            forall|k: int|
                index <= k < old(memoization)@.len() ==> memoization@[k] == old(memoization)@[k],
        decreases n - index,
    {
        let last = final_compatible(intervals, index);
        proof {
            lemma_weight_fits(s, index as int);
        }
        let included_value = if let Some(k) = last {
            intervals[index].weight() + memoization[k]
        } else {
            intervals[index].weight()
        };
        assert(included_value == included_weight(s, index as int));
        let excluded_value = memoization[index - 1];
        let new_best = if included_value > excluded_value {
            included_value
        } else {
            excluded_value
        };
        memoization.set(index, new_best);
        assert(memoization@[index as int] == best_weight(s, index as int));
        index = index + 1;
    }

    // iteratively find the optimal solution
    let ghost base = optimal_solution@;
    let ghost mut done: Seq<int> = Seq::empty();
    let mut j: Option<usize> = Some(n - 1);
    proof {
        assert(done + selection(s, n - 1) =~= selection(s, n - 1));
    }
    while j.is_some()
        invariant
            memoization@.len() == old(memoization)@.len(),
            forall|k: int| 0 <= k < n ==> memoization@[k] == best_weight(s, k),
            forall|k: int|
                n <= k < old(memoization)@.len() ==> memoization@[k] == old(memoization)@[k],
            j matches Some(i) ==> i < n,
            optimal_solution@ == base + done.map_values(|k: int| s[k]),
            selection(s, n - 1) == done + (match j {
                Some(i) => selection(s, i as int),
                None => Seq::<int>::empty(),
            }),
        decreases (match j {
            Some(i) => i as int + 1,
            None => 0int,
        }),
    {
        let i = j.unwrap();
        let last = final_compatible(intervals, i);
        proof {
            lemma_weight_fits(s, i as int);
        }
        let z = if let Some(k) = last {
            intervals[i].weight() + memoization[k]
        } else {
            intervals[i].weight()
        };
        assert(z == included_weight(s, i as int));

        if i == 0 || z > memoization[i - 1] {
            optimal_solution.push(intervals[i]);
            proof {
                let rest = selection(s, compat_before(s, i as int));
                let done0 = done;
                assert(selection(s, i as int) == seq![i as int] + rest);
                done = done.push(i as int);
                assert(done =~= done0 + seq![i as int]);
                assert(done0 + (seq![i as int] + rest) =~= (done0 + seq![i as int]) + rest);
                assert(selection(s, n - 1) == done + rest);
                assert(optimal_solution@ =~= base + done.map_values(|k: int| s[k]));
            }
            j = last;
        } else {
            assert(selection(s, i as int) == selection(s, i as int - 1));
            j = Some(i - 1);
        }
    }
    proof {
        assert(selection(s, n - 1) == done + Seq::<int>::empty());
        assert(done =~= selection(s, n - 1));
        assert(done.map_values(|k: int| s[k]) =~= selected_intervals(s));
    }
}

/// Marginally slower solver, impossible to misuse: accepts intervals in
/// any order, sorts a working copy by end bound, allocates fresh buffers
/// and delegates to the engine.
///
/// The result is the engine's reconstruction over some end-sorted
/// rearrangement of the input, latest end bound first; callers wanting
/// chronological order reverse it.  The one limit is the machine's: the
/// weights must not sum beyond `u64::MAX`.
#[must_use]
pub fn unsorted<I: Interval + Weighted + Copy>(intervals: &Vec<I>) -> (r: Vec<I>)
    requires
        total_weight(intervals@) <= u64::MAX,
    ensures
        exists|p: Seq<I>|
            #![auto]
            p.to_multiset() == intervals@.to_multiset() && end_sorted(p) && r@
                == selected_intervals(p),
        intervals@.len() == 0 ==> r@.len() == 0,
{
    // prepare an internal mutable clone, as the input is not known to be sorted
    let sorted_intervals = sort_by_end(intervals);
    proof {
        lemma_total_weight_permutation(intervals@, sorted_intervals@);
    }
    let ghost p = sorted_intervals@;

    let mut optimal_solution: Vec<I> = Vec::new();
    if sorted_intervals.len() == 0 {
        proof {
            assert(selection(p, -1) == Seq::<int>::empty());
            assert(optimal_solution@ =~= selected_intervals(p));
            assert(p.to_multiset() == intervals@.to_multiset() && end_sorted(p)
                && optimal_solution@ == selected_intervals(p));
        }
        return optimal_solution;
    }

    // prepare a memoization buffer sized to the interval count, seeded with
    // the first weight
    let mut memoization: Vec<u64> = Vec::new();
    memoization.push(sorted_intervals[0].weight());
    while memoization.len() < sorted_intervals.len()
        invariant
            1 <= memoization@.len(),
            memoization@[0] == sorted_intervals@[0].weight_spec(),
        decreases sorted_intervals@.len() - memoization@.len(),
    {
        memoization.push(0);
    }

    // actually find the optimal solution
    internal(&sorted_intervals, &mut memoization, &mut optimal_solution);
    proof {
        assert(optimal_solution@ =~= selected_intervals(p));
        assert(p.to_multiset() == intervals@.to_multiset() && end_sorted(p) && optimal_solution@
            == selected_intervals(p));
    }
    optimal_solution
}

/// Copies the input and sorts the copy non-decreasing by end bound: the
/// order the engine requires.  Order among equal end bounds is unspecified.
#[verifier::loop_isolation(false)]
fn sort_by_end<I: Interval + Copy>(input: &Vec<I>) -> (r: Vec<I>)
    ensures
        r@.to_multiset() == input@.to_multiset(),
        r@.len() == input@.len(),
        end_sorted(r@),
{
    broadcast use vstd::seq_lib::group_to_multiset_ensures;

    let mut rest: Vec<I> = Vec::new();
    let mut idx: usize = 0;
    while idx < input.len()
        invariant
            idx <= input@.len(),
            rest@ == input@.subrange(0, idx as int),
        decreases input@.len() - idx,
    {
        rest.push(input[idx]);
        proof {
            assert(rest@ =~= input@.subrange(0, idx as int + 1));
        }
        idx = idx + 1;
    }
    proof {
        assert(rest@ =~= input@);
    }

    let mut out: Vec<I> = Vec::new();
    proof {
        assert(out@.to_multiset().add(rest@.to_multiset()) =~= input@.to_multiset());
    }
    while rest.len() > 0
        invariant
            out@.to_multiset().add(rest@.to_multiset()) == input@.to_multiset(),
            out@.len() + rest@.len() == input@.len(),
            end_sorted(out@),
            forall|a: int, b: int|
                0 <= a < out@.len() && 0 <= b < rest@.len() ==> out@[a].end_spec()
                    <= rest@[b].end_spec(),
        decreases rest@.len(),
    {
        // find the index of the earliest-ending remaining interval
        let mut m: usize = 0;
        let mut k: usize = 1;
        while k < rest.len()
            invariant
                m < rest@.len(),
                1 <= k <= rest@.len(),
                forall|x: int|
                    0 <= x < k ==> rest@[m as int].end_spec() <= #[trigger] rest@[x].end_spec(),
            decreases rest@.len() - k,
        {
            if rest[k].end() < rest[m].end() {
                m = k;
            }
            k = k + 1;
        }
        let ghost out0 = out@;
        let ghost rest0 = rest@;
        let x = rest.remove(m);
        out.push(x);
        proof {
            assert(rest0[m as int] == x);
            assert(rest0.contains(x));
            assert(rest@.to_multiset() == rest0.to_multiset().remove(x));
            assert(out@.to_multiset() =~= out0.to_multiset().insert(x));
            assert(out@.to_multiset().add(rest@.to_multiset()) =~= out0.to_multiset().add(
                rest0.to_multiset(),
            ));
        }
    }
    out
}

/// The weight of interval `i` plus any best weight strictly below it stays
/// within the sum of all weights, so the engine's additions cannot
/// overflow.
proof fn lemma_weight_fits<I: Interval + Weighted>(s: Seq<I>, i: int)
    requires
        0 <= i < s.len(),
    ensures
        -1 <= compat_before(s, i) < i,
        0 <= best_weight(s, compat_before(s, i)),
        0 <= best_weight(s, i - 1),
        s[i].weight_spec() + best_weight(s, compat_before(s, i)) <= total_weight(s),
        best_weight(s, i - 1) <= total_weight(s),
        best_weight(s, i) <= total_weight(s),
{
    lemma_compat_before_char(s, i);
    let p = compat_before(s, i);
    lemma_best_weight_bounds(s, p);
    lemma_best_weight_bounds(s, i - 1);
    lemma_best_weight_bounds(s, i);
    lemma_prefix_weight_mono(s, p + 1, i);
    lemma_prefix_weight_mono(s, i + 1, s.len() as int);
    lemma_prefix_weight_mono(s, i, s.len() as int);
    assert(prefix_weight(s, i + 1) == prefix_weight(s, i) + s[i].weight_spec());
}

} // verus!

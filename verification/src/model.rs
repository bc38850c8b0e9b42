//! The mathematical model of weighted interval scheduling.
//!
//! Everything here is specification-level: what it means for two intervals
//! to overlap, which index is the compatible predecessor of another, the
//! best achievable weight up to an index (the dynamic-programming value),
//! and the exact sequence of indices the backward reconstruction selects.
//! The executable solvers promise their results in these terms.

use vstd::prelude::*;
use crate::traits::Interval;
use crate::traits::Weighted;

verus! {

/// Two intervals overlap when each starts strictly before the other ends.
/// Touching at a boundary is not an overlap.
pub open spec fn overlap<I: Interval>(a: I, b: I) -> bool {
    a.start_spec() < b.end_spec() && b.start_spec() < a.end_spec()
}

/// The sequence is sorted non-decreasing by end bound.
pub open spec fn end_sorted<I: Interval>(s: Seq<I>) -> bool {
    forall|i: int, j: int| 0 <= i <= j < s.len() ==> s[i].end_spec() <= s[j].end_spec()
}

/// Every interval of the sequence starts strictly before it ends.
pub open spec fn proper_intervals<I: Interval>(s: Seq<I>) -> bool {
    forall|i: int| 0 <= i < s.len() ==> s[i].start_spec() < s[i].end_spec()
}

/// The sum of the weights of the first `k` intervals.
pub open spec fn prefix_weight<I: Weighted>(s: Seq<I>, k: int) -> int
    decreases k,
{
    if k <= 0 {
        0
    } else {
        prefix_weight(s, k - 1) + s[k - 1].weight_spec()
    }
}

/// The sum of all the weights of the sequence.
pub open spec fn total_weight<I: Weighted>(s: Seq<I>) -> int {
    prefix_weight(s, s.len() as int)
}

/// The greatest index at or below `k` whose interval ends at or before `t`,
/// or -1 when every one of them ends after `t`.
pub open spec fn last_fitting<I: Interval>(s: Seq<I>, k: int, t: u64) -> int
    decreases k + 1,
{
    if k < 0 {
        -1
    } else if s[k].end_spec() <= t {
        k
    } else {
        last_fitting(s, k - 1, t)
    }
}

/// The compatible predecessor of interval `i`: the greatest index `p < i`
/// whose interval ends at or before the start of interval `i`, or -1 when
/// no such index exists.
pub open spec fn compat_before<I: Interval>(s: Seq<I>, i: int) -> int {
    if i <= 0 {
        -1
    } else {
        last_fitting(s, i - 1, s[i].start_spec())
    }
}

/// What `last_fitting` returns: a qualifying index below which nothing
/// greater qualifies, or -1 when nothing qualifies at all.
pub proof fn lemma_last_fitting_char<I: Interval>(s: Seq<I>, k: int, t: u64)
    requires
        -1 <= k,
    ensures
        -1 <= last_fitting(s, k, t) <= k,
        last_fitting(s, k, t) >= 0 ==> s[last_fitting(s, k, t)].end_spec() <= t,
        forall|x: int| last_fitting(s, k, t) < x <= k ==> s[x].end_spec() > t,
    decreases k + 1,
{
    if k >= 0 && s[k].end_spec() > t {
        lemma_last_fitting_char(s, k - 1, t);
    }
}

/// What `compat_before` returns: a strictly smaller compatible index that
/// is the greatest such, or -1 when none exists.
pub proof fn lemma_compat_before_char<I: Interval>(s: Seq<I>, i: int)
    requires
        0 <= i,
    ensures
        -1 <= compat_before(s, i) < i,
        compat_before(s, i) >= 0 ==> s[compat_before(s, i)].end_spec() <= s[i].start_spec(),
        forall|x: int| compat_before(s, i) < x < i ==> s[x].end_spec() > s[i].start_spec(),
    decreases i,
{
    if i > 0 {
        lemma_last_fitting_char(s, i - 1, s[i].start_spec());
    }
}

/// The best total weight achievable by a compatible selection drawn from
/// intervals `0..=i` of a sequence sorted by end bound: either interval `i`
/// is taken, together with the best below its compatible predecessor, or it
/// is left out.
pub open spec fn best_weight<I: Interval + Weighted>(s: Seq<I>, i: int) -> int
    decreases i + 1,
    via best_weight_decreases::<I>
{
    if i < 0 {
        0
    } else {
        let with_i = s[i].weight_spec() + best_weight(s, compat_before(s, i));
        let without_i = best_weight(s, i - 1);
        if with_i > without_i {
            with_i
        } else {
            without_i
        }
    }
}

#[via_fn]
proof fn best_weight_decreases<I: Interval + Weighted>(s: Seq<I>, i: int) {
    if i >= 0 {
        lemma_compat_before_char(s, i);
    }
}

/// The weight achieved by taking interval `i` together with the best
/// selection at or below its compatible predecessor.
pub open spec fn included_weight<I: Interval + Weighted>(s: Seq<I>, i: int) -> int {
    s[i].weight_spec() + best_weight(s, compat_before(s, i))
}

/// The indices the backward reconstruction selects, starting from cursor
/// `i`, in the order it visits them: greatest index first.  Interval `i` is
/// taken exactly when taking it beats every selection without it; on a tie
/// it is left out.
pub open spec fn selection<I: Interval + Weighted>(s: Seq<I>, i: int) -> Seq<int>
    decreases i + 1,
    via selection_decreases::<I>
{
    if i < 0 {
        Seq::empty()
    } else if i == 0 || included_weight(s, i) > best_weight(s, i - 1) {
        seq![i] + selection(s, compat_before(s, i))
    } else {
        selection(s, i - 1)
    }
}

#[via_fn]
proof fn selection_decreases<I: Interval + Weighted>(s: Seq<I>, i: int) {
    if i >= 0 {
        lemma_compat_before_char(s, i);
    }
}

/// The intervals the solvers report: the reconstruction's selection over
/// the whole sequence, mapped back to interval values, latest end first.
pub open spec fn selected_intervals<I: Interval + Weighted>(s: Seq<I>) -> Seq<I> {
    selection(s, s.len() - 1).map_values(|k: int| s[k])
}

/// `c` lists, in strictly increasing order, indices of pairwise compatible
/// intervals of `s`: a candidate solution of the scheduling problem.
pub open spec fn valid_choice<I: Interval>(s: Seq<I>, c: Seq<int>) -> bool {
    &&& forall|a: int| 0 <= a < c.len() ==> 0 <= #[trigger] c[a] < s.len()
    &&& forall|a: int, b: int| 0 <= a < b < c.len() ==> #[trigger] c[a] < #[trigger] c[b]
    &&& forall|a: int, b: int|
        0 <= a < b < c.len() ==> !overlap(s[#[trigger] c[a]], s[#[trigger] c[b]])
}

/// The total weight of the intervals at the listed indices.
pub open spec fn choice_weight<I: Weighted>(s: Seq<I>, c: Seq<int>) -> int {
    total_weight(c.map_values(|k: int| s[k]))
}

/// Prefix sums of weights grow with the prefix.
pub proof fn lemma_prefix_weight_mono<I: Weighted>(s: Seq<I>, a: int, b: int)
    requires
        a <= b,
    ensures
        prefix_weight(s, a) <= prefix_weight(s, b),
    decreases b - a,
{
    if a < b {
        lemma_prefix_weight_mono(s, a, b - 1);
    }
}

/// The best achievable weight is non-negative and never exceeds the sum of
/// the weights of the intervals it may draw from.
pub proof fn lemma_best_weight_bounds<I: Interval + Weighted>(s: Seq<I>, i: int)
    requires
        -1 <= i,
    ensures
        0 <= best_weight(s, i),
        best_weight(s, i) <= prefix_weight(s, i + 1),
    decreases i + 1,
{
    if i >= 0 {
        lemma_compat_before_char(s, i);
        let p = compat_before(s, i);
        lemma_best_weight_bounds(s, p);
        lemma_best_weight_bounds(s, i - 1);
        lemma_prefix_weight_mono(s, p + 1, i);
        lemma_prefix_weight_mono(s, i, i + 1);
    }
}

/// A prefix sum only reads the elements below `k`.
proof fn lemma_prefix_weight_congruence<I: Weighted>(s1: Seq<I>, s2: Seq<I>, k: int)
    requires
        forall|x: int| 0 <= x < k ==> s1[x] == s2[x],
    ensures
        prefix_weight(s1, k) == prefix_weight(s2, k),
    decreases k,
{
    if k > 0 {
        lemma_prefix_weight_congruence(s1, s2, k - 1);
    }
}

/// Splitting off the last element splits the total weight.
pub proof fn lemma_total_weight_drop_last<I: Weighted>(s: Seq<I>)
    requires
        s.len() > 0,
    ensures
        total_weight(s) == total_weight(s.drop_last()) + s.last().weight_spec(),
{
    lemma_prefix_weight_congruence(s, s.drop_last(), s.len() - 1);
}

/// Concatenation adds total weights.
pub proof fn lemma_total_weight_concat<I: Weighted>(a: Seq<I>, b: Seq<I>)
    ensures
        total_weight(a + b) == total_weight(a) + total_weight(b),
    decreases b.len(),
{
    if b.len() == 0 {
        assert(a + b =~= a);
    } else {
        lemma_total_weight_drop_last(a + b);
        assert((a + b).drop_last() =~= a + b.drop_last());
        lemma_total_weight_concat(a, b.drop_last());
        lemma_total_weight_drop_last(b);
    }
}

/// Removing one element removes exactly its weight.
pub proof fn lemma_total_weight_remove<I: Weighted>(s: Seq<I>, j: int)
    requires
        0 <= j < s.len(),
    ensures
        total_weight(s.remove(j)) == total_weight(s) - s[j].weight_spec(),
    decreases s.len(),
{
    lemma_total_weight_drop_last(s);
    if j == s.len() - 1 {
        assert(s.remove(j) =~= s.drop_last());
    } else {
        assert(s.remove(j).drop_last() =~= s.drop_last().remove(j));
        lemma_total_weight_drop_last(s.remove(j));
        lemma_total_weight_remove(s.drop_last(), j);
    }
}

/// The total weight of a sequence depends only on which intervals occur in
/// it, with multiplicity, not on their order.
pub proof fn lemma_total_weight_permutation<I: Weighted>(s1: Seq<I>, s2: Seq<I>)
    requires
        s1.to_multiset() == s2.to_multiset(),
    ensures
        total_weight(s1) == total_weight(s2),
    decreases s1.len(),
{
    broadcast use vstd::seq_lib::group_to_multiset_ensures;

    if s1.len() == 0 {
        assert(s1.to_multiset().len() == 0);
        assert(s2.to_multiset().len() == s2.len());
        assert(s2.len() == 0);
    } else {
        let x = s1.last();
        assert(s1[s1.len() - 1] == x);
        assert(s1.contains(x));
        assert(s2.to_multiset().count(x) > 0);
        assert(s2.contains(x));
        let j = choose|j: int| 0 <= j < s2.len() && s2[j] == x;
        assert(s1.remove(s1.len() - 1).to_multiset() == s1.to_multiset().remove(x));
        assert(s2.remove(j).to_multiset() == s2.to_multiset().remove(x));
        assert(s1.remove(s1.len() - 1) =~= s1.drop_last());
        lemma_total_weight_permutation(s1.drop_last(), s2.remove(j));
        lemma_total_weight_drop_last(s1);
        lemma_total_weight_remove(s2, j);
    }
}

/// The listed intervals are pairwise compatible, in whatever order they
/// stand.
pub open spec fn compatible_schedule<I: Interval>(d: Seq<I>) -> bool {
    forall|a: int, b: int| 0 <= a < b < d.len() ==> !overlap(d[a], d[b])
}

/// Two positions holding the same value put it in the multiset twice.
pub proof fn lemma_count_from_two_positions<I>(s: Seq<I>, i: int, j: int)
    requires
        0 <= i < j < s.len(),
        s[i] == s[j],
    ensures
        s.to_multiset().count(s[i]) >= 2,
{
    broadcast use vstd::seq_lib::group_to_multiset_ensures;

    let r = s.remove(i);
    assert(r.to_multiset() == s.to_multiset().remove(s[i]));
    assert(r[j - 1] == s[j]);
    assert(r.contains(s[i]));
    assert(r.to_multiset().count(s[i]) > 0);
}

/// A value the multiset holds twice stands at two positions.
pub proof fn lemma_two_positions_from_count<I>(s: Seq<I>, v: I) -> (r: (int, int))
    requires
        s.to_multiset().count(v) >= 2,
    ensures
        0 <= r.0 < r.1 < s.len(),
        s[r.0] == v,
        s[r.1] == v,
{
    broadcast use vstd::seq_lib::group_to_multiset_ensures;

    assert(s.contains(v));
    let i = choose|i: int| 0 <= i < s.len() && s[i] == v;
    let r1 = s.remove(i);
    assert(r1.to_multiset() == s.to_multiset().remove(v));
    assert(r1.to_multiset().count(v) > 0);
    assert(r1.contains(v));
    let j = choose|j: int| 0 <= j < r1.len() && r1[j] == v;
    if j < i {
        (j, i)
    } else {
        assert(r1[j] == s[j + 1]);
        (i, j + 1)
    }
}

/// Any sub-collection of the intervals of `p`, with multiplicity, can be
/// picked out by a strictly increasing sequence of indices into `p`.
pub proof fn lemma_submultiset_choice<I>(p: Seq<I>, d: Seq<I>) -> (c: Seq<int>)
    requires
        d.to_multiset().subset_of(p.to_multiset()),
    ensures
        forall|a: int| 0 <= a < c.len() ==> 0 <= #[trigger] c[a] < p.len(),
        forall|a: int, b: int| 0 <= a < b < c.len() ==> #[trigger] c[a] < #[trigger] c[b],
        c.map_values(|k: int| p[k]).to_multiset() == d.to_multiset(),
        c.len() == d.len(),
    decreases p.len(),
{
    broadcast use vstd::seq_lib::group_to_multiset_ensures;

    if d.len() == 0 {
        let c = Seq::<int>::empty();
        assert(c.map_values(|k: int| p[k]) =~= Seq::<I>::empty());
        assert(c.map_values(|k: int| p[k]).to_multiset() =~= d.to_multiset());
        c
    } else {
        assert(d.contains(d[0]));
        assert(p.to_multiset().count(d[0]) > 0);
        assert(p.contains(d[0]));
        let x = p.last();
        let q = p.drop_last();
        assert(p =~= q.push(x));
        assert(p.to_multiset() == q.to_multiset().insert(x));
        if d.to_multiset().count(x) > 0 {
            assert(d.contains(x));
            let j = choose|j: int| 0 <= j < d.len() && d[j] == x;
            let d2 = d.remove(j);
            assert(d2.to_multiset() == d.to_multiset().remove(x));
            assert forall|v: I| d2.to_multiset().count(v) <= q.to_multiset().count(v) by {
                assert(d.to_multiset().count(v) <= p.to_multiset().count(v));
            }
            let c2 = lemma_submultiset_choice(q, d2);
            let c = c2.push(p.len() - 1);
            assert(forall|a: int| 0 <= a < c2.len() ==> #[trigger] c[a] == c2[a]);
            assert(c.map_values(|k: int| p[k]) =~= c2.map_values(|k: int| q[k]).push(x));
            assert(c.map_values(|k: int| p[k]).to_multiset() == d2.to_multiset().insert(x));
            assert(c.map_values(|k: int| p[k]).to_multiset() =~= d.to_multiset());
            c
        } else {
            assert forall|v: I| d.to_multiset().count(v) <= q.to_multiset().count(v) by {
                assert(d.to_multiset().count(v) <= p.to_multiset().count(v));
            }
            let c2 = lemma_submultiset_choice(q, d);
            assert(c2.map_values(|k: int| p[k]) =~= c2.map_values(|k: int| q[k]));
            c2
        }
    }
}

/// Starting strictly before ending is a property of the intervals alone,
/// not of their order.
pub proof fn lemma_proper_permutation<I: Interval>(s1: Seq<I>, s2: Seq<I>)
    requires
        s1.to_multiset() == s2.to_multiset(),
        proper_intervals(s1),
    ensures
        proper_intervals(s2),
{
    broadcast use vstd::seq_lib::group_to_multiset_ensures;

    assert forall|i: int| 0 <= i < s2.len() implies s2[i].start_spec() < s2[i].end_spec() by {
        assert(s2.contains(s2[i]));
        assert(s1.to_multiset().count(s2[i]) > 0);
        assert(s1.contains(s2[i]));
        let j = choose|j: int| 0 <= j < s1.len() && s1[j] == s2[i];
        assert(s1[j].start_spec() < s1[j].end_spec());
    }
}

/// An empty choice weighs nothing.
pub proof fn lemma_choice_weight_empty<I: Weighted>(s: Seq<I>)
    ensures
        choice_weight(s, Seq::empty()) == 0,
{
    assert(Seq::<int>::empty().map_values(|k: int| s[k]) =~= Seq::<I>::empty());
}

/// Prepending an index adds the weight of its interval.
pub proof fn lemma_choice_weight_cons<I: Weighted>(s: Seq<I>, i: int, rest: Seq<int>)
    ensures
        choice_weight(s, seq![i] + rest) == s[i].weight_spec() + choice_weight(s, rest),
{
    let left = seq![i].map_values(|k: int| s[k]);
    let right = rest.map_values(|k: int| s[k]);
    assert((seq![i] + rest).map_values(|k: int| s[k]) =~= left + right);
    lemma_total_weight_concat(left, right);
    assert(total_weight(left) == s[i].weight_spec()) by {
        reveal_with_fuel(prefix_weight, 3);
    }
}

/// Dropping the last index removes the weight of its interval.
pub proof fn lemma_choice_weight_drop_last<I: Weighted>(s: Seq<I>, c: Seq<int>)
    requires
        c.len() > 0,
    ensures
        choice_weight(s, c) == choice_weight(s, c.drop_last()) + s[c.last()].weight_spec(),
{
    let mapped = c.map_values(|k: int| s[k]);
    lemma_total_weight_drop_last(mapped);
    assert(mapped.drop_last() =~= c.drop_last().map_values(|k: int| s[k]));
    assert(mapped.last() == s[c.last()]);
}

/// The reconstruction's selection achieves exactly the best weight.
pub proof fn lemma_selection_weight<I: Interval + Weighted>(s: Seq<I>, i: int)
    requires
        -1 <= i < s.len(),
    ensures
        choice_weight(s, selection(s, i)) == best_weight(s, i),
    decreases i + 1,
{
    if i < 0 {
        lemma_choice_weight_empty(s);
    } else {
        lemma_compat_before_char(s, i);
        let p = compat_before(s, i);
        lemma_best_weight_bounds(s, p);
        lemma_best_weight_bounds(s, i - 1);
        if i == 0 || included_weight(s, i) > best_weight(s, i - 1) {
            lemma_selection_weight(s, p);
            lemma_choice_weight_cons(s, i, selection(s, p));
        } else {
            lemma_selection_weight(s, i - 1);
        }
    }
}

/// The reconstruction's selection is a well-formed solution: indices at or
/// below the cursor, visited in strictly decreasing order, naming pairwise
/// non-overlapping intervals.
pub proof fn lemma_selection_props<I: Interval + Weighted>(s: Seq<I>, i: int)
    requires
        end_sorted(s),
        -1 <= i < s.len(),
    ensures
        forall|a: int| 0 <= a < selection(s, i).len() ==> 0 <= #[trigger] selection(s, i)[a] <= i,
        forall|a: int, b: int|
            0 <= a < b < selection(s, i).len() ==> #[trigger] selection(s, i)[b] < #[trigger] selection(
                s,
                i,
            )[a],
        forall|a: int, b: int|
            0 <= a < b < selection(s, i).len() ==> !overlap(
                s[#[trigger] selection(s, i)[a]],
                s[#[trigger] selection(s, i)[b]],
            ),
    decreases i + 1,
{
    if i < 0 {
    } else {
        lemma_compat_before_char(s, i);
        let p = compat_before(s, i);
        if i == 0 || included_weight(s, i) > best_weight(s, i - 1) {
            lemma_selection_props(s, p);
            let rest = selection(s, p);
            let c = selection(s, i);
            assert(c == seq![i] + rest);
            assert(c[0] == i);
            assert(forall|a: int| 1 <= a < c.len() ==> #[trigger] c[a] == rest[a - 1]);
            assert forall|a: int, b: int|
                0 <= a < b < c.len() implies !overlap(s[#[trigger] c[a]], s[#[trigger] c[b]]) by {
                if a == 0 {
                    let x = rest[b - 1];
                    assert(0 <= x <= p);
                    assert(s[x].end_spec() <= s[p].end_spec());
                    assert(!overlap(s[i], s[x]));
                } else {
                    assert(!overlap(s[rest[a - 1]], s[rest[b - 1]]));
                }
            }
        } else {
            lemma_selection_props(s, i - 1);
            assert(selection(s, i) == selection(s, i - 1));
        }
    }
}

/// No well-formed solution over intervals `0..=i` weighs more than the best
/// weight at `i`: the recurrence really is an upper bound, as long as each
/// interval starts strictly before it ends.
pub proof fn lemma_choice_le_best<I: Interval + Weighted>(s: Seq<I>, c: Seq<int>, i: int)
    requires
        end_sorted(s),
        proper_intervals(s),
        valid_choice(s, c),
        -1 <= i < s.len(),
        forall|a: int| 0 <= a < c.len() ==> #[trigger] c[a] <= i,
    ensures
        choice_weight(s, c) <= best_weight(s, i),
    decreases i + 1,
{
    lemma_best_weight_bounds(s, i);
    if c.len() == 0 {
        lemma_choice_weight_empty(s);
        assert(c =~= Seq::<int>::empty());
    } else {
        let l = c[c.len() - 1];
        assert(0 <= l <= i);
        assert forall|a: int| 0 <= a < c.len() implies #[trigger] c[a] <= l by {
            if a < c.len() - 1 {
                assert(c[a] < c[c.len() - 1]);
            }
        }
        if l < i {
            lemma_choice_le_best(s, c, i - 1);
        } else {
            lemma_compat_before_char(s, i);
            let p = compat_before(s, i);
            let c2 = c.drop_last();
            assert(forall|a: int| 0 <= a < c2.len() ==> #[trigger] c2[a] == c[a]);
            assert forall|a: int| 0 <= a < c2.len() implies #[trigger] c2[a] <= p by {
                let x = c[a];
                assert(c[a] < c[c.len() - 1]);
                assert(!overlap(s[c[a]], s[c[c.len() - 1]]));
                if s[x].end_spec() <= s[i].start_spec() {
                    if x > p {
                        assert(s[x].end_spec() > s[i].start_spec());
                    }
                } else {
                    assert(s[i].start_spec() < s[x].end_spec());
                    assert(s[x].end_spec() <= s[i].end_spec());
                    assert(s[x].start_spec() < s[x].end_spec());
                    assert(s[x].start_spec() >= s[i].end_spec());
                    assert(false);
                }
            }
            lemma_choice_le_best(s, c2, p);
            lemma_choice_weight_drop_last(s, c);
            assert(choice_weight(s, c) <= s[i].weight_spec() + best_weight(s, p));
        }
    }
}

} // verus!

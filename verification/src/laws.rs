//! The headline guarantees of the library, stated and proved once.
//!
//! The solvers promise their result equals `selected_intervals` of the
//! end-sorted input; these laws say what that sequence is worth: pairwise
//! compatible, of maximal weight among all well-formed choices, a single
//! interval returned unchanged, and the same sequence on every solve.

use vstd::prelude::*;
use crate::traits::Interval;
use crate::traits::Weighted;
use crate::model::best_weight;
use crate::model::choice_weight;
use crate::model::compat_before;
use crate::model::compatible_schedule;
use crate::model::lemma_count_from_two_positions;
use crate::model::lemma_proper_permutation;
use crate::model::lemma_submultiset_choice;
use crate::model::lemma_total_weight_permutation;
use crate::model::lemma_two_positions_from_count;
use crate::model::end_sorted;
use crate::model::included_weight;
use crate::model::lemma_choice_le_best;
use crate::model::lemma_selection_props;
use crate::model::lemma_selection_weight;
use crate::model::overlap;
use crate::model::proper_intervals;
use crate::model::selected_intervals;
use crate::model::selection;
use crate::model::total_weight;
use crate::model::valid_choice;

verus! {

/// For every end-sorted input, no two intervals of the solver's result
/// overlap: one of them ends at or before the other starts.
pub proof fn lemma_result_compatible<I: Interval + Weighted>(s: Seq<I>, a: int, b: int)
    requires
        end_sorted(s),
        0 <= a < b < selected_intervals(s).len(),
    ensures
        !overlap(selected_intervals(s)[a], selected_intervals(s)[b]),
{
    lemma_selection_props(s, s.len() - 1);
}

/// For every end-sorted input whose intervals each start strictly before
/// they end, the total weight of the solver's result is the value of the
/// scheduling recurrence, and no well-formed choice of pairwise compatible
/// intervals weighs more.
pub proof fn lemma_result_weight_maximal<I: Interval + Weighted>(s: Seq<I>, c: Seq<int>)
    requires
        end_sorted(s),
        proper_intervals(s),
        valid_choice(s, c),
    ensures
        total_weight(selected_intervals(s)) == best_weight(s, s.len() - 1),
        choice_weight(s, c) <= total_weight(selected_intervals(s)),
{
    lemma_selection_weight(s, s.len() - 1);
    lemma_choice_le_best(s, c, s.len() - 1);
}

/// Maximality over sub-collections rather than indexed choices: however
/// the caller lists a pairwise compatible selection of the intervals of
/// `p`, with multiplicity and in any order, its weight never beats the
/// solver's result.
pub proof fn lemma_any_schedule_weight_maximal<I: Interval + Weighted>(p: Seq<I>, d: Seq<I>)
    requires
        end_sorted(p),
        proper_intervals(p),
        d.to_multiset().subset_of(p.to_multiset()),
        compatible_schedule(d),
    ensures
        total_weight(d) <= total_weight(selected_intervals(p)),
{
    broadcast use vstd::seq_lib::group_to_multiset_ensures;

    let c = lemma_submultiset_choice(p, d);
    let mapped = c.map_values(|k: int| p[k]);
    assert forall|a: int, b: int| 0 <= a < b < c.len() implies !overlap(
        p[#[trigger] c[a]],
        p[#[trigger] c[b]],
    ) by {
        let u = p[c[a]];
        let v = p[c[b]];
        assert(mapped[a] == u && mapped[b] == v);
        if u == v {
            lemma_count_from_two_positions(mapped, a, b);
            let pos = lemma_two_positions_from_count(d, u);
            assert(!overlap(d[pos.0], d[pos.1]));
        } else {
            assert(mapped.contains(u) && mapped.contains(v));
            assert(d.to_multiset().count(u) > 0 && d.to_multiset().count(v) > 0);
            assert(d.contains(u) && d.contains(v));
            let i = choose|i: int| 0 <= i < d.len() && d[i] == u;
            let j = choose|j: int| 0 <= j < d.len() && d[j] == v;
            if i < j {
                assert(!overlap(d[i], d[j]));
            } else {
                assert(!overlap(d[j], d[i]));
            }
        }
    }
    lemma_total_weight_permutation(d, mapped);
    lemma_result_weight_maximal(p, c);
}

/// The same guarantee phrased for the any-order entry point, whose
/// promise names an end-sorted rearrangement `p` of the input `s`: as long
/// as each input interval starts strictly before it ends, no pairwise
/// compatible sub-collection of the input outweighs the result.
pub proof fn lemma_unsorted_weight_maximal<I: Interval + Weighted>(s: Seq<I>, p: Seq<I>, d: Seq<I>)
    requires
        p.to_multiset() == s.to_multiset(),
        end_sorted(p),
        proper_intervals(s),
        d.to_multiset().subset_of(s.to_multiset()),
        compatible_schedule(d),
    ensures
        total_weight(d) <= total_weight(selected_intervals(p)),
{
    lemma_proper_permutation(s, p);
    lemma_any_schedule_weight_maximal(p, d);
}

/// A single-interval input yields exactly that interval, unchanged, as the
/// sole result.
pub proof fn lemma_single_interval<I: Interval + Weighted>(s: Seq<I>)
    requires
        s.len() == 1,
    ensures
        selected_intervals(s) == seq![s[0]],
{
    assert(selection(s, 0) == seq![0int] + selection(s, compat_before(s, 0))) by {
        reveal_with_fuel(selection, 2);
    }
    assert(selection(s, 0) =~= seq![0int]);
    assert(selected_intervals(s) =~= seq![s[0]]);
}

/// An empty input yields an empty result.
pub proof fn lemma_empty_input<I: Interval + Weighted>(s: Seq<I>)
    requires
        s.len() == 0,
    ensures
        selected_intervals(s).len() == 0,
{
    assert(selection(s, -1) == Seq::<int>::empty());
}

/// When taking an interval achieves no more than the best selection
/// without it, the reconstruction excludes it: ties go against the
/// later-ending interval, deliberately and observably.
pub proof fn lemma_tie_excludes_later<I: Interval + Weighted>(s: Seq<I>, i: int)
    requires
        0 < i < s.len(),
        included_weight(s, i) <= best_weight(s, i - 1),
    ensures
        selection(s, i) == selection(s, i - 1),
{
}

/// Solving the same end-sorted input twice yields identical output both
/// times: the reconstruction, tie-breaks included, is a function of the
/// input alone.
pub proof fn lemma_solve_deterministic<I: Interval + Weighted>(s: Seq<I>, r1: Seq<I>, r2: Seq<I>)
    requires
        r1 == selected_intervals(s),
        r2 == selected_intervals(s),
    ensures
        r1 == r2,
{
}

} // verus!

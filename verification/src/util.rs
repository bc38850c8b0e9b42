//! The compatibility finder: the solver core's leaf component.

use vstd::prelude::*;
use crate::traits::Interval;
use crate::model::compat_before;
use crate::model::end_sorted;
use crate::model::lemma_compat_before_char;

verus! {

/// Finds the greatest index `k < index` whose interval ends at or before
/// the start bound of interval `index`, or reports that none exists.  An
/// interval ending exactly where the next one starts counts as compatible.
///
/// Binary search with an upper-mid bias, so that it converges on the
/// largest qualifying index: `O(log index)` comparisons.
#[verifier::loop_isolation(false)]
pub fn final_compatible<I: Interval>(intervals: &Vec<I>, index: usize) -> (r: Option<usize>)
    requires
        end_sorted(intervals@),
        index < intervals@.len(),
    ensures
        r matches Some(k) ==> k as int == compat_before(intervals@, index as int),
        r is None ==> compat_before(intervals@, index as int) == -1,
{
    proof {
        lemma_compat_before_char(intervals@, index as int);
    }
    if index == 0 {
        return None;
    }

    let mut low: usize = 0;
    let mut high: usize = index - 1;
    let target = intervals[index].start();

    while low < high
        invariant
            low <= high < index,
            low == 0 || intervals@[low as int].end_spec() <= target,
            forall|x: int| high < x < index ==> intervals@[x].end_spec() > target,
        decreases high - low,
    {
        let mid = low + (high - low + 1) / 2;
        if intervals[mid].end() <= target {
            low = mid;
        } else {
            high = mid - 1;
        }
    }
    if intervals[low].end() > target {
        return None;
    }

    Some(low)
}

} // verus!

//! How the upgrade rolls of a relic substat split into low, mid and high rolls.
use vstd::prelude::*;

verus! {

/// The number of rolls a relic started with: `total_rolls` minus one roll
/// for every three levels gained.
pub fn calc_initial_rolls(level: u32, total_rolls: u32) -> (r: u32)
    requires
        level / 3 <= total_rolls,
    ensures
        r == total_rolls - level / 3,
{
    total_rolls - level / 3
}

/// Smallest number of high rolls that any solution for (`step`, `count`) can have.
pub open spec fn high_min(step: int, count: int) -> int {
    if step - count > 0 {
        step - count
    } else {
        0
    }
}

/// Largest number of high rolls that any solution for `step` can have.
pub open spec fn high_max(step: int) -> int {
    step / 2
}

/// The split with `high` high rolls: the mid and low counts follow from
/// `mid + 2 * high == step` and `low + mid + high == count`.
pub open spec fn split_with_high(step: int, count: int, high: int) -> (int, int, int) {
    (count - step + high, step - 2 * high, high)
}

/// `(low, mid, high)` is a split of `count` rolls whose summed tier is `step`.
pub open spec fn is_split(step: int, count: int, low: int, mid: int, high: int) -> bool {
    &&& low >= 0
    &&& mid >= 0
    &&& high >= 0
    &&& low + mid + high == count
    &&& mid + 2 * high == step
}

/// Every split of (`step`, `count`), ordered by increasing number of high rolls.
pub open spec fn all_splits(step: int, count: int) -> Seq<(int, int, int)> {
    if step < 0 || count < 0 || high_min(step, count) > high_max(step) {
        Seq::empty()
    } else {
        Seq::new(
            (high_max(step) - high_min(step, count) + 1) as nat,
            |i: int| split_with_high(step, count, high_min(step, count) + i),
        )
    }
}

/// The view of a triple of `i32` as mathematical integers.
pub open spec fn triple_view(t: (i32, i32, i32)) -> (int, int, int) {
    (t.0 as int, t.1 as int, t.2 as int)
}

/// The split that `pick_low_mid_high` settles on.
pub open spec fn picked_split(step: int, count: int) -> (int, int, int) {
    let s = all_splits(step, count);
    if s.len() > 0 {
        s.last()
    } else {
        (0, 0, 0)
    }
}

/// All ways to split `count` rolls into low (tier 0), mid (tier 1) and high
/// (tier 2) rolls whose tiers add up to `step`, by increasing number of
/// high rolls. Negative inputs have no split.
pub fn solve_low_mid_high(step: i32, count: i32) -> (r: Vec<(i32, i32, i32)>)
    ensures
        r@.map_values(|t: (i32, i32, i32)| triple_view(t)) == all_splits(step as int, count as int),
{
    let mut out: Vec<(i32, i32, i32)> = Vec::new();
    if step < 0 || count < 0 {
        proof {
            assert(out@.map_values(|t: (i32, i32, i32)| triple_view(t)) =~= all_splits(step as int, count as int));
        }
        return out;
    }
    let hmin: i32 = if step - count > 0 { step - count } else { 0 };
    let hmax: i32 = step / 2;
    if hmin > hmax {
        proof {
            assert(out@.map_values(|t: (i32, i32, i32)| triple_view(t)) =~= all_splits(step as int, count as int));
        }
        return out;
    }
    let mut high: i32 = hmin;
    while high <= hmax
        invariant
            0 <= step,
            0 <= count,
            hmin == high_min(step as int, count as int),
            hmax == high_max(step as int),
            hmin <= high <= hmax + 1,
            out@.len() == high - hmin,
            forall|i: int|
                0 <= i < out@.len() ==> triple_view(#[trigger] out@[i]) == split_with_high(
                    step as int,
                    count as int,
                    hmin + i,
                ),
        decreases hmax + 1 - high,
    {
        let mid: i32 = step - 2 * high;
        let low: i32 = count - step + high;
        out.push((low, mid, high));
        high = high + 1;
    }
    proof {
        assert(out@.map_values(|t: (i32, i32, i32)| triple_view(t)) =~= all_splits(step as int, count as int));
    }
    out
}

/// The split with the most high rolls, or `(0, 0, 0)` when there is none.
pub fn pick_low_mid_high(step: i32, count: i32) -> (r: (i32, i32, i32))
    ensures
        triple_view(r) == picked_split(step as int, count as int),
{
    let all = solve_low_mid_high(step, count);
    proof {
        assert(all@.len() == all_splits(step as int, count as int).len());
    }
    if all.len() > 0 {
        let last = all[all.len() - 1];
        proof {
            let k = all@.len() - 1;
            assert(all@.map_values(|t: (i32, i32, i32)| triple_view(t))[k] == triple_view(all@[k]));
        }
        last
    } else {
        (0, 0, 0)
    }
}

/// Every split listed for (`step`, `count`) solves both equations with
/// non-negative counts.
pub proof fn lemma_splits_sound(step: int, count: int, i: int)
    requires
        0 <= i < all_splits(step, count).len(),
    ensures
        ({
            let t = all_splits(step, count)[i];
            is_split(step, count, t.0, t.1, t.2)
        }),
{
}

/// Every split of (`step`, `count`) is listed, at the position given by its
/// number of high rolls.
pub proof fn lemma_splits_complete(step: int, count: int, low: int, mid: int, high: int)
    requires
        is_split(step, count, low, mid, high),
    ensures
        all_splits(step, count).len() > high - high_min(step, count) >= 0,
        all_splits(step, count)[high - high_min(step, count)] == (low, mid, high),
{
}

/// The listed splits have strictly increasing numbers of high rolls, so no
/// split is listed twice.
pub proof fn lemma_splits_ordered(step: int, count: int, i: int, j: int)
    requires
        0 <= i < j < all_splits(step, count).len(),
    ensures
        all_splits(step, count)[i].2 < all_splits(step, count)[j].2,
{
}

/// The picked split is a split whenever one exists, and no split has more
/// high rolls; with no split at all the pick is `(0, 0, 0)`.
pub proof fn lemma_pick_is_max_high(step: int, count: int, low: int, mid: int, high: int)
    requires
        is_split(step, count, low, mid, high),
    ensures
        is_split(
            step,
            count,
            picked_split(step, count).0,
            picked_split(step, count).1,
            picked_split(step, count).2,
        ),
        high <= picked_split(step, count).2,
        picked_split(step, count).2 == high_max(step),
{
    lemma_splits_complete(step, count, low, mid, high);
}

/// Without any split the pick is `(0, 0, 0)`.
pub proof fn lemma_pick_without_split(step: int, count: int)
    requires
        forall|l: int, m: int, h: int| !is_split(step, count, l, m, h),
    ensures
        picked_split(step, count) == (0int, 0int, 0int),
{
    if all_splits(step, count).len() > 0 {
        let t = all_splits(step, count)[0];
        lemma_splits_sound(step, count, 0);
        assert(is_split(step, count, t.0, t.1, t.2));
    }
}

} // verus!

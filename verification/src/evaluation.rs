//! The grid evaluator: the shown functions sampled over a grid, and the
//! range that their finite samples span.
use crate::binary64::{
    finite, is_finite, lemma_rank_injective, lemma_rank_orders_values, precedes, rank,
    scaled_value, NEGATIVE_ONE, ONE,
};
use crate::input::fn_input::FnInput;
use vstd::prelude::*;

verus! {

/// Whether `(i, j)` is a position of `series`: sample `j` of series `i`.
pub open spec fn position(series: Seq<Seq<u64>>, i: int, j: int) -> bool {
    0 <= i < series.len() && 0 <= j < series[i].len()
}

/// Whether `bits` is a finite sample of `series`.
pub open spec fn finite_sample(series: Seq<Seq<u64>>, bits: u64) -> bool {
    finite(bits) && exists|i: int, j: int| position(series, i, j) && #[trigger] series[i][j] == bits
}

/// Whether `series` holds no finite sample at all.
pub open spec fn no_finite_sample(series: Seq<Seq<u64>>) -> bool {
    forall|i: int, j: int| position(series, i, j) ==> !finite(#[trigger] series[i][j])
}

/// Whether `low` and `high` are the ends of the range of `series`. Where
/// `series` has finite samples, `low` is the one that comes first and `high`
/// the one that comes last in the total order of patterns; samples that are
/// not finite do not count. Where it has none, the range is the neutral
/// window from `-1.0` to `1.0`.
pub open spec fn is_range_of(series: Seq<Seq<u64>>, low: u64, high: u64) -> bool {
    if no_finite_sample(series) {
        low == NEGATIVE_ONE && high == ONE
    } else {
        &&& finite_sample(series, low)
        &&& finite_sample(series, high)
        &&& forall|i: int, j: int|
            position(series, i, j) && finite(#[trigger] series[i][j]) ==> rank(low) <= rank(
                series[i][j],
            ) <= rank(high)
    }
}

/// A position at which the finite sample `bits` stands.
proof fn place_of(series: Seq<Seq<u64>>, bits: u64) -> (at: (int, int))
    requires
        finite_sample(series, bits),
    ensures
        position(series, at.0, at.1),
        series[at.0][at.1] == bits,
{
    choose|i: int, j: int| position(series, i, j) && #[trigger] series[i][j] == bits
}

/// A range is made of numbers: both ends are finite, and the lower end does
/// not come after the upper one.
pub proof fn lemma_range_is_finite(series: Seq<Seq<u64>>, low: u64, high: u64)
    requires
        is_range_of(series, low, high),
    ensures
        finite(low),
        finite(high),
        rank(low) <= rank(high),
{
    if !no_finite_sample(series) {
        let (i, j) = place_of(series, low);
        assert(rank(low) <= rank(series[i][j]) <= rank(high));
    }
}

/// The range holds every finite sample, as numbers go: none stands for less
/// than the lower end does, and none for more than the upper end.
pub proof fn lemma_range_holds_every_value(
    series: Seq<Seq<u64>>,
    low: u64,
    high: u64,
    i: int,
    j: int,
)
    requires
        is_range_of(series, low, high),
        position(series, i, j),
        finite(series[i][j]),
    ensures
        scaled_value(low) <= scaled_value(series[i][j]) <= scaled_value(high),
{
    lemma_range_is_finite(series, low, high);
    lemma_rank_orders_values(low, series[i][j]);
    lemma_rank_orders_values(series[i][j], high);
}

/// A collection of series has one range only.
pub proof fn lemma_range_is_unique(
    series: Seq<Seq<u64>>,
    low: u64,
    high: u64,
    other_low: u64,
    other_high: u64,
)
    requires
        is_range_of(series, low, high),
        is_range_of(series, other_low, other_high),
    ensures
        low == other_low,
        high == other_high,
{
    if !no_finite_sample(series) {
        let (i, j) = place_of(series, low);
        assert(rank(other_low) <= rank(series[i][j]));
        let (i, j) = place_of(series, other_low);
        assert(rank(low) <= rank(series[i][j]));
        lemma_rank_injective(low, other_low);
        let (i, j) = place_of(series, high);
        assert(rank(series[i][j]) <= rank(other_high));
        let (i, j) = place_of(series, other_high);
        assert(rank(series[i][j]) <= rank(high));
        lemma_rank_injective(high, other_high);
    }
}

/// Where no sample is finite, the range is the neutral window: this holds of
/// an empty collection, of empty series, and of series made of infinities and
/// NaNs only.
pub proof fn lemma_range_without_finite_sample(series: Seq<Seq<u64>>, low: u64, high: u64)
    requires
        is_range_of(series, low, high),
        forall|i: int, j: int| position(series, i, j) ==> !finite(#[trigger] series[i][j]),
    ensures
        low == NEGATIVE_ONE,
        high == ONE,
{
}

/// The range does not depend on the order of the series: two collections
/// that hold the same series, in whatever order, have the same range.
pub proof fn lemma_range_ignores_order(
    series: Seq<Seq<u64>>,
    reordered: Seq<Seq<u64>>,
    low: u64,
    high: u64,
)
    requires
        series.to_multiset() == reordered.to_multiset(),
        is_range_of(series, low, high),
    ensures
        is_range_of(reordered, low, high),
{
    series.to_multiset_ensures();
    reordered.to_multiset_ensures();
    // Every position of one collection has a twin in the other.
    assert forall|i: int, j: int| position(reordered, i, j) implies exists|a: int, b: int|
        position(series, a, b) && #[trigger] series[a][b] == reordered[i][j] by {
        assert(reordered.contains(reordered[i]));
        assert(series.to_multiset().count(reordered[i]) > 0);
        assert(series.contains(reordered[i]));
        let a = choose|a: int| 0 <= a < series.len() && series[a] == reordered[i];
        assert(position(series, a, j) && series[a][j] == reordered[i][j]);
    }
    assert forall|i: int, j: int| position(series, i, j) implies exists|a: int, b: int|
        position(reordered, a, b) && #[trigger] reordered[a][b] == series[i][j] by {
        assert(series.contains(series[i]));
        assert(reordered.to_multiset().count(series[i]) > 0);
        assert(reordered.contains(series[i]));
        let a = choose|a: int| 0 <= a < reordered.len() && reordered[a] == series[i];
        assert(position(reordered, a, j) && reordered[a][j] == series[i][j]);
    }
    if no_finite_sample(series) {
        assert forall|i: int, j: int| position(reordered, i, j) implies !finite(
            #[trigger] reordered[i][j],
        ) by {
            let (a, b) = choose|a: int, b: int|
                position(series, a, b) && #[trigger] series[a][b] == reordered[i][j];
            assert(!finite(series[a][b]));
        }
    } else {
        let (i, j) = place_of(series, low);
        let (a, b) = choose|a: int, b: int|
            position(reordered, a, b) && #[trigger] reordered[a][b] == series[i][j];
        assert(finite(reordered[a][b]));
        assert(finite_sample(reordered, low));
        let (i, j) = place_of(series, high);
        let (a, b) = choose|a: int, b: int|
            position(reordered, a, b) && #[trigger] reordered[a][b] == series[i][j];
        assert(finite_sample(reordered, high));
        assert forall|i: int, j: int|
            position(reordered, i, j) && finite(#[trigger] reordered[i][j]) implies rank(low)
            <= rank(reordered[i][j]) <= rank(high) by {
            let (a, b) = choose|a: int, b: int|
                position(series, a, b) && #[trigger] series[a][b] == reordered[i][j];
            assert(rank(low) <= rank(series[a][b]) <= rank(high));
        }
    }
}

/// Two entries give the same range whichever of them comes first.
pub proof fn lemma_range_of_two_entries(first: Seq<u64>, second: Seq<u64>, low: u64, high: u64)
    requires
        is_range_of(seq![first, second], low, high),
    ensures
        is_range_of(seq![second, first], low, high),
{
    let series = seq![first, second];
    let swapped = seq![second, first];
    assert(series =~= Seq::<Seq<u64>>::empty().push(first).push(second));
    assert(swapped =~= Seq::<Seq<u64>>::empty().push(second).push(first));
    Seq::<Seq<u64>>::empty().to_multiset_ensures();
    Seq::<Seq<u64>>::empty().push(first).to_multiset_ensures();
    Seq::<Seq<u64>>::empty().push(second).to_multiset_ensures();
    assert(series.to_multiset() =~= swapped.to_multiset());
    lemma_range_ignores_order(series, swapped, low, high);
}

/// The range of two entries together is made of the ranges of each alone:
/// its lower end is the lesser of the two lower ends, its upper end the
/// greater of the two upper ends. Both entries have a finite sample.
pub proof fn lemma_range_joins(
    first: Seq<u64>,
    second: Seq<u64>,
    first_range: (u64, u64),
    second_range: (u64, u64),
)
    requires
        !no_finite_sample(seq![first]),
        !no_finite_sample(seq![second]),
        is_range_of(seq![first], first_range.0, first_range.1),
        is_range_of(seq![second], second_range.0, second_range.1),
    ensures
        is_range_of(
            seq![first, second],
            if rank(first_range.0) <= rank(second_range.0) {
                first_range.0
            } else {
                second_range.0
            },
            if rank(first_range.1) >= rank(second_range.1) {
                first_range.1
            } else {
                second_range.1
            },
        ),
{
    let one = seq![first];
    let other = seq![second];
    let both = seq![first, second];
    let low: u64 = if rank(first_range.0) <= rank(second_range.0) {
        first_range.0
    } else {
        second_range.0
    };
    let high: u64 = if rank(first_range.1) >= rank(second_range.1) {
        first_range.1
    } else {
        second_range.1
    };
    assert forall|j: int| 0 <= j < first.len() implies position(both, 0, j) && position(one, 0, j)
        && both[0][j] == #[trigger] first[j] && one[0][j] == first[j] by {}
    assert forall|j: int| 0 <= j < second.len() implies position(both, 1, j) && position(
        other,
        0,
        j,
    ) && both[1][j] == #[trigger] second[j] && other[0][j] == second[j] by {}
    // The ends of each range are samples of the two entries together.
    let (i, j) = place_of(one, first_range.0);
    assert(both[0][j] == first[j]);
    assert(finite_sample(both, first_range.0));
    let (i, j) = place_of(one, first_range.1);
    assert(both[0][j] == first[j]);
    assert(finite_sample(both, first_range.1));
    let (i, j) = place_of(other, second_range.0);
    assert(both[1][j] == second[j]);
    assert(finite_sample(both, second_range.0));
    let (i, j) = place_of(other, second_range.1);
    assert(both[1][j] == second[j]);
    assert(finite_sample(both, second_range.1));
    assert(!no_finite_sample(both));
    assert forall|i: int, j: int|
        position(both, i, j) && finite(#[trigger] both[i][j]) implies rank(low) <= rank(
        both[i][j],
    ) <= rank(high) by {
        if i == 0 {
            assert(one[0][j] == first[j]);
        } else {
            assert(other[0][j] == second[j]);
        }
    }
}

/// Two entries whose finite samples do not overlap, those of `lower` all
/// coming before those of `upper`: their range runs from the least sample of
/// `lower` to the greatest sample of `upper`, whichever entry comes first.
pub proof fn lemma_range_of_disjoint_entries(
    lower: Seq<u64>,
    upper: Seq<u64>,
    lower_range: (u64, u64),
    upper_range: (u64, u64),
)
    requires
        !no_finite_sample(seq![lower]),
        !no_finite_sample(seq![upper]),
        is_range_of(seq![lower], lower_range.0, lower_range.1),
        is_range_of(seq![upper], upper_range.0, upper_range.1),
        rank(lower_range.1) < rank(upper_range.0),
    ensures
        is_range_of(seq![lower, upper], lower_range.0, upper_range.1),
        is_range_of(seq![upper, lower], lower_range.0, upper_range.1),
{
    lemma_range_is_finite(seq![lower], lower_range.0, lower_range.1);
    lemma_range_is_finite(seq![upper], upper_range.0, upper_range.1);
    lemma_range_joins(lower, upper, lower_range, upper_range);
    lemma_range_of_two_entries(lower, upper, lower_range.0, upper_range.1);
}

/// Whether position `(a, b)` is read before position `(i, j)`.
spec fn before(a: int, b: int, i: int, j: int) -> bool {
    a < i || (a == i && b < j)
}

/// The range of `values`: the least and the greatest finite sample, or the
/// neutral window where no sample is finite.
pub fn overall_range(values: &Vec<Vec<u64>>) -> (r: (u64, u64))
    ensures
        is_range_of(values.deep_view(), r.0, r.1),
        finite(r.0),
        finite(r.1),
        rank(r.0) <= rank(r.1),
{
    let ghost series = values.deep_view();
    let mut low: u64 = NEGATIVE_ONE;
    let mut high: u64 = ONE;
    let mut found = false;
    let ghost mut at_low: (int, int) = (0, 0);
    let ghost mut at_high: (int, int) = (0, 0);
    let mut i: usize = 0;
    while i < values.len()
        invariant
            i <= values.len(),
            series == values.deep_view(),
            !found ==> low == NEGATIVE_ONE && high == ONE,
            !found ==> forall|a: int, b: int|
                position(series, a, b) && a < i ==> !finite(#[trigger] series[a][b]),
            found ==> position(series, at_low.0, at_low.1) && series[at_low.0][at_low.1] == low
                && finite(low),
            found ==> position(series, at_high.0, at_high.1) && series[at_high.0][at_high.1]
                == high && finite(high),
            found ==> forall|a: int, b: int|
                position(series, a, b) && a < i && finite(#[trigger] series[a][b]) ==> rank(low)
                    <= rank(series[a][b]) <= rank(high),
        decreases values.len() - i,
    {
        let row = &values[i];
        assert(series[i as int] == row@);
        let mut j: usize = 0;
        while j < row.len()
            invariant
                i < values.len(),
                j <= row.len(),
                series == values.deep_view(),
                series[i as int] == row@,
                !found ==> low == NEGATIVE_ONE && high == ONE,
                !found ==> forall|a: int, b: int|
                    position(series, a, b) && before(a, b, i as int, j as int) ==> !finite(
                        #[trigger] series[a][b],
                    ),
                found ==> position(series, at_low.0, at_low.1) && series[at_low.0][at_low.1]
                    == low && finite(low),
                found ==> position(series, at_high.0, at_high.1) && series[at_high.0][at_high.1]
                    == high && finite(high),
                found ==> forall|a: int, b: int|
                    position(series, a, b) && before(a, b, i as int, j as int) && finite(
                        #[trigger] series[a][b],
                    ) ==> rank(low) <= rank(series[a][b]) <= rank(high),
            decreases row.len() - j,
        {
            let sample: u64 = row[j];
            if is_finite(sample) {
                if !found {
                    low = sample;
                    high = sample;
                    found = true;
                    proof {
                        at_low = (i as int, j as int);
                        at_high = (i as int, j as int);
                    }
                } else {
                    if precedes(sample, low) {
                        low = sample;
                        proof {
                            at_low = (i as int, j as int);
                        }
                    }
                    if precedes(high, sample) {
                        high = sample;
                        proof {
                            at_high = (i as int, j as int);
                        }
                    }
                }
            }
            j += 1;
        }
        i += 1;
    }
    proof {
        lemma_range_is_finite(series, low, high);
    }
    (low, high)
}

/// What one evaluation yields: the samples of every shown entry, and the
/// range that the finite ones among them span.
#[derive(Debug, Clone)]
pub struct EvaluationResult {
    /// One sequence of samples for each shown entry, in the order of the
    /// entries; each holds one sample for each grid coordinate, in the order
    /// of the grid.
    pub values: Vec<Vec<u64>>,
    /// The least finite sample, or `-1.0` where there is none.
    pub overall_min: u64,
    /// The greatest finite sample, or `1.0` where there is none.
    pub overall_max: u64,
}

impl EvaluationResult {
    /// Whether the two ends are the range of the samples.
    pub open spec fn well_formed(&self) -> bool {
        is_range_of(self.values.deep_view(), self.overall_min, self.overall_max)
    }

    /// The samples `values` together with their range.
    pub fn new(values: Vec<Vec<u64>>) -> (r: Self)
        ensures
            r.values == values,
            r.well_formed(),
            finite(r.overall_min),
            finite(r.overall_max),
            rank(r.overall_min) <= rank(r.overall_max),
    {
        let (overall_min, overall_max) = overall_range(&values);
        EvaluationResult { values, overall_min, overall_max }
    }
}

/// The indices of the shown entries, in ascending order.
pub open spec fn shown_indices(entries: Seq<FnInput>) -> Seq<int>
    decreases entries.len(),
{
    if entries.len() == 0 {
        Seq::empty()
    } else if entries.last().show {
        shown_indices(entries.drop_last()).push(entries.len() - 1)
    } else {
        shown_indices(entries.drop_last())
    }
}

/// What `shown_indices` lists: indices of shown entries only, every one of
/// them, each once and in ascending order.
pub proof fn lemma_shown_indices(entries: Seq<FnInput>)
    ensures
        shown_indices(entries).len() <= entries.len(),
        forall|k: int|
            0 <= k < shown_indices(entries).len() ==> {
                &&& 0 <= #[trigger] shown_indices(entries)[k] < entries.len()
                &&& entries[shown_indices(entries)[k]].show
            },
        forall|k: int, l: int|
            0 <= k < l < shown_indices(entries).len() ==> shown_indices(entries)[k]
                < shown_indices(entries)[l],
        forall|i: int|
            0 <= i < entries.len() && (#[trigger] entries[i]).show ==> shown_indices(
                entries,
            ).contains(i),
    decreases entries.len(),
{
    if entries.len() > 0 {
        let front = entries.drop_last();
        lemma_shown_indices(front);
        let listed = shown_indices(entries);
        assert forall|i: int|
            0 <= i < entries.len() && (#[trigger] entries[i]).show implies listed.contains(i) by {
            if i < front.len() {
                assert(front[i] == entries[i]);
                let k = choose|k: int|
                    0 <= k < shown_indices(front).len() && shown_indices(front)[k] == i;
                assert(listed[k] == i);
            } else {
                assert(listed[listed.len() - 1] == i);
            }
        }
    }
}

/// Samples entry `index` at every coordinate of `grid`, in the order of the
/// grid. `sample(i, x)` is what entry `i` yields at the coordinate `x`.
pub fn sample_grid<F>(index: usize, grid: &Vec<u64>, sample: &F) -> (row: Vec<u64>) where
    F: Fn(usize, u64) -> u64,

    requires
        forall|j: int| 0 <= j < grid.len() ==> sample.requires((index, #[trigger] grid[j])),
    ensures
        row.len() == grid.len(),
        forall|j: int| 0 <= j < grid.len() ==> sample.ensures((index, grid[j]), #[trigger] row[j]),
{
    let mut row: Vec<u64> = Vec::new();
    let mut j: usize = 0;
    while j < grid.len()
        invariant
            j <= grid.len(),
            row.len() == j,
            forall|b: int| 0 <= b < grid.len() ==> sample.requires((index, #[trigger] grid[b])),
            forall|b: int| 0 <= b < j ==> sample.ensures((index, grid[b]), #[trigger] row[b]),
        decreases grid.len() - j,
    {
        let y: u64 = sample(index, grid[j]);
        row.push(y);
        j += 1;
    }
    row
}

/// Samples every shown entry over `grid` and finds the range of what came
/// out. `sample(i, x)` is what entry `i` yields at the coordinate `x`; it is
/// asked for shown entries only, entry by entry and coordinate by coordinate.
/// A sample that is not finite stays in its sequence and does not count
/// towards the range.
pub fn evaluate<F>(entries: &Vec<FnInput>, grid: &Vec<u64>, sample: F) -> (r: EvaluationResult)
    where F: Fn(usize, u64) -> u64,

    requires
        forall|i: int, j: int|
            #![trigger entries[i], grid[j]]
            0 <= i < entries.len() && entries[i].show && 0 <= j < grid.len() ==> sample.requires(
                (i as usize, grid[j]),
            ),
    ensures
        r.values.len() == shown_indices(entries@).len(),
        forall|k: int| 0 <= k < r.values.len() ==> (#[trigger] r.values[k]).len() == grid.len(),
        forall|k: int, j: int|
            0 <= k < r.values.len() && 0 <= j < grid.len() ==> sample.ensures(
                (shown_indices(entries@)[k] as usize, grid[j]),
                #[trigger] r.values[k][j],
            ),
        is_range_of(r.values.deep_view(), r.overall_min, r.overall_max),
        finite(r.overall_min),
        finite(r.overall_max),
        rank(r.overall_min) <= rank(r.overall_max),
        (forall|i: int| 0 <= i < entries.len() ==> !(#[trigger] entries[i]).show) ==> {
            &&& r.values.len() == 0
            &&& r.overall_min == NEGATIVE_ONE
            &&& r.overall_max == ONE
        },
{
    let mut values: Vec<Vec<u64>> = Vec::new();
    let mut i: usize = 0;
    while i < entries.len()
        invariant
            i <= entries.len(),
            forall|a: int, b: int|
                #![trigger entries[a], grid[b]]
                0 <= a < entries.len() && entries[a].show && 0 <= b < grid.len()
                    ==> sample.requires((a as usize, grid[b])),
            values.len() == shown_indices(entries@.take(i as int)).len(),
            forall|k: int| 0 <= k < values.len() ==> (#[trigger] values[k]).len() == grid.len(),
            forall|k: int|
                0 <= k < values.len() ==> 0 <= #[trigger] shown_indices(entries@.take(i as int))[k]
                    < i,
            forall|k: int, j: int|
                0 <= k < values.len() && 0 <= j < grid.len() ==> sample.ensures(
                    (shown_indices(entries@.take(i as int))[k] as usize, grid[j]),
                    #[trigger] values[k][j],
                ),
        decreases entries.len() - i,
    {
        proof {
            assert(entries@.take(i + 1).drop_last() =~= entries@.take(i as int));
            assert(entries@.take(i + 1).last() == entries[i as int]);
        }
        if entries[i].show() {
            let row = sample_grid(i, grid, &sample);
            values.push(row);
        }
        i += 1;
    }
    proof {
        assert(entries@.take(entries.len() as int) =~= entries@);
        lemma_shown_indices(entries@);
        if forall|i: int| 0 <= i < entries.len() ==> !(#[trigger] entries[i]).show {
            if shown_indices(entries@).len() > 0 {
                assert(entries[shown_indices(entries@)[0]].show);
            }
        }
    }
    EvaluationResult::new(values)
}

} // verus!

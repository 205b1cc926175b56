use vstd::prelude::*;
use crate::shape::{ShapeError, rows_view};

verus! {

/// An exact weighted mean, `numerator / denominator`; the denominator is the
/// total weight, or `1` when the total weight is zero and the mean is zero.
#[derive(Debug, Clone, Copy, PartialEq, Eq, Structural)]
pub struct WeightedMean {
    pub numerator: i128,
    pub denominator: i128,
}

/// The sum of `values[j] * weights[j]` over the first `n` entries.
pub open spec fn weighted_sum(values: Seq<i32>, weights: Seq<i32>, n: int) -> int
    decreases n,
{
    if n <= 0 {
        0
    } else {
        weighted_sum(values, weights, n - 1) + values[n - 1] * weights[n - 1]
    }
}

/// The sum of the first `n` weights.
pub open spec fn weight_total(weights: Seq<i32>, n: int) -> int
    decreases n,
{
    if n <= 0 {
        0
    } else {
        weight_total(weights, n - 1) + weights[n - 1]
    }
}

/// The weighted mean of one row: zero when the weights sum to zero.
pub open spec fn mean_of(values: Seq<i32>, weights: Seq<i32>) -> WeightedMean {
    let total = weight_total(weights, weights.len() as int);
    if total == 0 {
        WeightedMean { numerator: 0, denominator: 1 }
    } else {
        WeightedMean {
            numerator: weighted_sum(values, weights, weights.len() as int) as i128,
            denominator: total as i128,
        }
    }
}

/// The weighted mean of each row, in row order.
pub open spec fn means_of(values: Seq<Seq<i32>>, weights: Seq<Seq<i32>>) -> Seq<WeightedMean> {
    Seq::new(values.len(), |i: int| mean_of(values[i], weights[i]))
}

/// Paired rows have equal lengths.
pub open spec fn rows_align(values: Seq<Seq<i32>>, weights: Seq<Seq<i32>>) -> bool {
    forall|i: int| 0 <= i < values.len() ==> #[trigger] values[i].len() == weights[i].len()
}

/// A row whose weights are all zero has mean zero.
pub proof fn lemma_zero_weights_give_zero(values: Seq<i32>, weights: Seq<i32>)
    requires
        forall|j: int| 0 <= j < weights.len() ==> #[trigger] weights[j] == 0,
    ensures
        mean_of(values, weights) == (WeightedMean { numerator: 0, denominator: 1 }),
{
    lemma_zero_total(weights, weights.len() as int);
}

proof fn lemma_zero_total(weights: Seq<i32>, n: int)
    requires
        n <= weights.len(),
        forall|j: int| 0 <= j < weights.len() ==> #[trigger] weights[j] == 0,
    ensures
        weight_total(weights, n) == 0,
    decreases n,
{
    if n > 0 {
        lemma_zero_total(weights, n - 1);
        assert(weights[n - 1] == 0);
    }
}

/// The weighted mean of one row, `sum(values[j] * weights[j]) / sum(weights)`,
/// or zero when the weights sum to zero.
pub fn weighted_mean(values: &Vec<i32>, weights: &Vec<i32>) -> (r: WeightedMean)
    requires
        values.len() == weights.len(),
    ensures
        r == mean_of(values@, weights@),
        r.denominator != 0,
{
    let mut sum: i128 = 0;
    let mut total: i128 = 0;
    let mut i: usize = 0;
    while i < weights.len()
        invariant
            values.len() == weights.len(),
            i <= weights.len(),
            sum == weighted_sum(values@, weights@, i as int),
            total == weight_total(weights@, i as int),
            -(i as int) * 0x4000_0000_0000_0000 <= sum <= (i as int) * 0x4000_0000_0000_0000,
            -(i as int) * 0x8000_0000 <= total <= (i as int) * 0x8000_0000,
        decreases weights.len() - i,
    {
        let v = values[i] as i128;
        let w = weights[i] as i128;
        assert(-0x4000_0000_0000_0000 <= v * w <= 0x4000_0000_0000_0000) by (nonlinear_arith)
            requires
                -0x8000_0000 <= v <= 0x7fff_ffff,
                -0x8000_0000 <= w <= 0x7fff_ffff,
        ;
        assert(i < 0x1_0000_0000_0000_0000);
        sum = sum + v * w;
        total = total + w;
        i = i + 1;
    }
    if total == 0 {
        WeightedMean { numerator: 0, denominator: 1 }
    } else {
        WeightedMean { numerator: sum, denominator: total }
    }
}

/// The weighted mean of every row, in row order. The two matrices must have
/// the same number of rows, and paired rows the same length.
pub fn weighted_mean_rows(values: &Vec<Vec<i32>>, weights: &Vec<Vec<i32>>) -> (r: Result<
    Vec<WeightedMean>,
    ShapeError,
>)
    ensures
        match r {
            Ok(m) => {
                &&& values.len() == weights.len()
                &&& rows_align(rows_view(values@), rows_view(weights@))
                &&& m@ == means_of(rows_view(values@), rows_view(weights@))
            },
            Err(e) => if values.len() != weights.len() {
                e == ShapeError::RowCountMismatch
            } else {
                e == ShapeError::RowLengthMismatch && !rows_align(
                    rows_view(values@),
                    rows_view(weights@),
                )
            },
        },
{
    if values.len() != weights.len() {
        return Err(ShapeError::RowCountMismatch);
    }
    let ghost vr = rows_view(values@);
    let ghost wr = rows_view(weights@);
    let mut i: usize = 0;
    while i < values.len()
        invariant
            values.len() == weights.len(),
            vr == rows_view(values@),
            wr == rows_view(weights@),
            i <= values.len(),
            forall|j: int| 0 <= j < i ==> #[trigger] vr[j].len() == wr[j].len(),
        decreases values.len() - i,
    {
        if values[i].len() != weights[i].len() {
            assert(vr[i as int].len() != wr[i as int].len());
            return Err(ShapeError::RowLengthMismatch);
        }
        i = i + 1;
    }
    let mut out: Vec<WeightedMean> = Vec::new();
    let mut i: usize = 0;
    while i < values.len()
        invariant
            values.len() == weights.len(),
            vr == rows_view(values@),
            wr == rows_view(weights@),
            rows_align(vr, wr),
            i <= values.len(),
            out@ =~= means_of(vr, wr).take(i as int),
        decreases values.len() - i,
    {
        assert(vr[i as int].len() == wr[i as int].len());
        let m = weighted_mean(&values[i], &weights[i]);
        out.push(m);
        i = i + 1;
    }
    assert(out@ =~= means_of(vr, wr));
    Ok(out)
}


/// Reordering the rows of both matrices in the same way reorders the means
/// the same way.
pub proof fn lemma_means_follow_rows(
    values: Seq<Seq<i32>>,
    weights: Seq<Seq<i32>>,
    reordered_values: Seq<Seq<i32>>,
    reordered_weights: Seq<Seq<i32>>,
    order: Seq<int>,
)
    requires
        weights.len() == values.len(),
        reordered_values.len() == values.len(),
        reordered_weights.len() == values.len(),
        order.len() == values.len(),
        forall|i: int| 0 <= i < order.len() ==> 0 <= #[trigger] order[i] < values.len(),
        forall|i: int|
            0 <= i < order.len() ==> #[trigger] reordered_values[i] == values[order[i]]
                && reordered_weights[i] == weights[order[i]],
    ensures
        forall|i: int|
            0 <= i < order.len() ==> #[trigger] means_of(reordered_values, reordered_weights)[i]
                == means_of(values, weights)[order[i]],
{
}

} // verus!

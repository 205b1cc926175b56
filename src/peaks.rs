use vstd::prelude::*;
use crate::shape::{ShapeError, rows_view, all_rows_have_len, rows_have_len};

verus! {

/// A bin center lies in the closed search interval.
pub open spec fn in_search_range(center: i64, range_min: i64, range_max: i64) -> bool {
    range_min <= center && center <= range_max
}

/// Among the first `n` bins, `k` is in range, no bin in range holds more,
/// and every earlier bin in range holds strictly less.
pub open spec fn is_peak_within(
    row: Seq<u64>,
    centers: Seq<i64>,
    range_min: i64,
    range_max: i64,
    k: int,
    n: int,
) -> bool {
    &&& 0 <= k < n
    &&& in_search_range(centers[k], range_min, range_max)
    &&& forall|j: int|
        0 <= j < n && in_search_range(centers[j], range_min, range_max) ==> #[trigger] row[j]
            <= row[k]
    &&& forall|j: int|
        0 <= j < k && in_search_range(centers[j], range_min, range_max) ==> #[trigger] row[j]
            < row[k]
}

/// Some bin center lies in the search interval.
pub open spec fn has_bin_in_range(centers: Seq<i64>, range_min: i64, range_max: i64) -> bool {
    exists|j: int| 0 <= j < centers.len() && #[trigger] in_search_range(centers[j], range_min, range_max)
}

/// The lowest-index bin holding the greatest count in range.
pub open spec fn first_peak_index(
    row: Seq<u64>,
    centers: Seq<i64>,
    range_min: i64,
    range_max: i64,
) -> int {
    choose|k: int| is_peak_within(row, centers, range_min, range_max, k, row.len() as int)
}

/// The peak position of one histogram row: the center of its first
/// maximal bin in range, or `0` when no center is in range.
pub open spec fn peak_of(row: Seq<u64>, centers: Seq<i64>, range_min: i64, range_max: i64) -> i64 {
    if has_bin_in_range(centers, range_min, range_max) {
        centers[first_peak_index(row, centers, range_min, range_max)]
    } else {
        0
    }
}

/// The peak position of each row, in row order.
pub open spec fn peaks_of(
    rows: Seq<Seq<u64>>,
    centers: Seq<i64>,
    range_min: i64,
    range_max: i64,
) -> Seq<i64> {
    Seq::new(rows.len(), |i: int| peak_of(rows[i], centers, range_min, range_max))
}

/// There is at most one first maximal bin.
pub proof fn lemma_peak_unique(
    row: Seq<u64>,
    centers: Seq<i64>,
    range_min: i64,
    range_max: i64,
    k1: int,
    k2: int,
    n: int,
)
    requires
        is_peak_within(row, centers, range_min, range_max, k1, n),
        is_peak_within(row, centers, range_min, range_max, k2, n),
    ensures
        k1 == k2,
{
    if k1 < k2 {
        assert(row[k1] < row[k2]);
        assert(row[k2] <= row[k1]);
    } else if k2 < k1 {
        assert(row[k2] < row[k1]);
        assert(row[k1] <= row[k2]);
    }
}

/// Finds the peak position of one histogram row within
/// `[range_min, range_max]`; `0` means no bin center lies in that interval.
pub fn find_peak(row: &Vec<u64>, bin_centers: &Vec<i64>, range_min: i64, range_max: i64) -> (r: i64)
    requires
        row.len() == bin_centers.len(),
    ensures
        r == peak_of(row@, bin_centers@, range_min, range_max),
        has_bin_in_range(bin_centers@, range_min, range_max) ==> is_peak_within(
            row@,
            bin_centers@,
            range_min,
            range_max,
            first_peak_index(row@, bin_centers@, range_min, range_max),
            row.len() as int,
        ),
{
    let mut best: Option<usize> = None;
    let mut i: usize = 0;
    while i < row.len()
        invariant
            row.len() == bin_centers.len(),
            i <= row.len(),
            match best {
                None => forall|j: int|
                    0 <= j < i ==> !#[trigger] in_search_range(bin_centers@[j], range_min, range_max),
                Some(k) => is_peak_within(row@, bin_centers@, range_min, range_max, k as int, i as int),
            },
        decreases row.len() - i,
    {
        let c = bin_centers[i];
        if range_min <= c && c <= range_max {
            match best {
                None => {
                    best = Some(i);
                },
                Some(k) => {
                    if row[i] > row[k] {
                        best = Some(i);
                    }
                },
            }
        }
        i = i + 1;
    }
    match best {
        None => {
            assert(!has_bin_in_range(bin_centers@, range_min, range_max));
            0
        },
        Some(k) => {
            let ghost n = row.len() as int;
            assert(has_bin_in_range(bin_centers@, range_min, range_max)) by {
                assert(in_search_range(bin_centers@[k as int], range_min, range_max));
            }
            let ghost f = first_peak_index(row@, bin_centers@, range_min, range_max);
            assert(is_peak_within(row@, bin_centers@, range_min, range_max, f, n));
            proof {
                lemma_peak_unique(row@, bin_centers@, range_min, range_max, k as int, f, n);
            }
            bin_centers[k]
        },
    }
}

/// Finds the peak position of every histogram row, in row order. Every row
/// must have one entry per bin center.
pub fn find_peaks(
    histograms: &Vec<Vec<u64>>,
    bin_centers: &Vec<i64>,
    range_min: i64,
    range_max: i64,
) -> (r: Result<Vec<i64>, ShapeError>)
    ensures
        match r {
            Ok(p) => all_rows_have_len(rows_view(histograms@), bin_centers.len() as int) && p@
                == peaks_of(rows_view(histograms@), bin_centers@, range_min, range_max),
            Err(e) => e == ShapeError::RowLengthMismatch && !all_rows_have_len(
                rows_view(histograms@),
                bin_centers.len() as int,
            ),
        },
{
    if !rows_have_len(histograms, bin_centers.len()) {
        return Err(ShapeError::RowLengthMismatch);
    }
    let ghost rows = rows_view(histograms@);
    let mut out: Vec<i64> = Vec::new();
    let mut i: usize = 0;
    while i < histograms.len()
        invariant
            rows == rows_view(histograms@),
            all_rows_have_len(rows, bin_centers.len() as int),
            i <= histograms.len(),
            out@ =~= peaks_of(rows, bin_centers@, range_min, range_max).take(i as int),
        decreases histograms.len() - i,
    {
        assert(rows[i as int].len() == bin_centers.len());
        let p = find_peak(&histograms[i], bin_centers, range_min, range_max);
        out.push(p);
        i = i + 1;
    }
    assert(out@ =~= peaks_of(rows, bin_centers@, range_min, range_max));
    Ok(out)
}


/// With no bin center in the search interval, the peak position is `0`,
/// whatever the counts.
pub proof fn lemma_no_bin_in_range_gives_zero(
    row: Seq<u64>,
    centers: Seq<i64>,
    range_min: i64,
    range_max: i64,
)
    requires
        forall|j: int| 0 <= j < centers.len() ==> !#[trigger] in_search_range(centers[j], range_min, range_max),
    ensures
        peak_of(row, centers, range_min, range_max) == 0,
{
}

/// Reordering the histogram rows reorders the peak positions the same way.
pub proof fn lemma_peaks_follow_rows(
    rows: Seq<Seq<u64>>,
    reordered: Seq<Seq<u64>>,
    order: Seq<int>,
    centers: Seq<i64>,
    range_min: i64,
    range_max: i64,
)
    requires
        reordered.len() == rows.len(),
        order.len() == rows.len(),
        forall|i: int| 0 <= i < order.len() ==> 0 <= #[trigger] order[i] < rows.len(),
        forall|i: int| 0 <= i < order.len() ==> #[trigger] reordered[i] == rows[order[i]],
    ensures
        forall|i: int|
            0 <= i < order.len() ==> #[trigger] peaks_of(reordered, centers, range_min, range_max)[i]
                == peaks_of(rows, centers, range_min, range_max)[order[i]],
{
}

} // verus!

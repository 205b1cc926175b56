use vstd::prelude::*;
use crate::rank::{kth_smallest, rank_value};
use crate::shape::{ShapeError, rows_view, all_rows_have_len, rows_have_len};

verus! {

/// Fractions of a peak position are given in parts per million.
pub const PARTS_PER_MILLION: i64 = 1_000_000;

/// Fewest bins a fit window must hold for an estimate to be made.
pub const MIN_FIT_BINS: usize = 10;

/// How the width of a peak was seeded.
#[derive(Debug, Clone, Copy, PartialEq, Eq, Structural)]
pub enum SigmaEstimate {
    /// No estimate: the row was degenerate, and sigma is zero.
    Zero,
    /// Distance between the outermost bin centers whose count reaches half
    /// the amplitude; sigma is this width divided by `2 * sqrt(2 * ln 2)`.
    HalfMaxWidth(u64),
    /// Width of the fit window in millionths of a tick; sigma is a sixth of it.
    WindowSpan(i128),
}

/// Seed parameters of a Gaussian-like peak, in the order amplitude, mean,
/// sigma, offset.
#[derive(Debug, Clone, Copy, PartialEq, Eq, Structural)]
pub struct GaussianSeed {
    pub amplitude: u64,
    pub mean: i64,
    pub sigma: SigmaEstimate,
    pub offset: u64,
}

/// The all-zero seed that marks a row with no estimate.
pub open spec fn zero_seed() -> GaussianSeed {
    GaussianSeed { amplitude: 0, mean: 0, sigma: SigmaEstimate::Zero, offset: 0 }
}

/// A bin center lies in `[low * peak, high * peak]`, fractions in parts per million.
pub open spec fn in_fit_window(center: i64, peak: i64, low_ppm: i32, high_ppm: i32) -> bool {
    &&& low_ppm as int * peak as int <= center as int * PARTS_PER_MILLION as int
    &&& center as int * PARTS_PER_MILLION as int <= high_ppm as int * peak as int
}

/// The (center, count) pairs of the first `n` bins that lie in the fit window.
pub open spec fn fit_points(
    row: Seq<u64>,
    centers: Seq<i64>,
    peak: i64,
    low_ppm: i32,
    high_ppm: i32,
    n: int,
) -> Seq<(i64, u64)>
    decreases n,
{
    if n <= 0 {
        Seq::empty()
    } else {
        let prev = fit_points(row, centers, peak, low_ppm, high_ppm, n - 1);
        if in_fit_window(centers[n - 1], peak, low_ppm, high_ppm) {
            prev.push((centers[n - 1], row[n - 1]))
        } else {
            prev
        }
    }
}

/// The greatest count among the points, or `0` when there are none.
pub open spec fn max_count(p: Seq<(i64, u64)>) -> u64
    decreases p.len(),
{
    if p.len() == 0 {
        0
    } else {
        let m = max_count(p.drop_last());
        if p.last().1 > m {
            p.last().1
        } else {
            m
        }
    }
}

/// The centers of the points whose count is at least half of `amplitude`.
pub open spec fn half_max_centers(p: Seq<(i64, u64)>, amplitude: u64) -> Seq<i64>
    decreases p.len(),
{
    if p.len() == 0 {
        Seq::empty()
    } else {
        let prev = half_max_centers(p.drop_last(), amplitude);
        if 2 * p.last().1 as int >= amplitude as int {
            prev.push(p.last().0)
        } else {
            prev
        }
    }
}

/// The greatest entry of a non-empty sequence.
pub open spec fn seq_max(s: Seq<i64>) -> i64
    decreases s.len(),
{
    if s.len() <= 1 {
        s[0]
    } else {
        let m = seq_max(s.drop_last());
        if s.last() > m {
            s.last()
        } else {
            m
        }
    }
}

/// The least entry of a non-empty sequence.
pub open spec fn seq_min(s: Seq<i64>) -> i64
    decreases s.len(),
{
    if s.len() <= 1 {
        s[0]
    } else {
        let m = seq_min(s.drop_last());
        if s.last() < m {
            s.last()
        } else {
            m
        }
    }
}

/// The counts of the points.
pub open spec fn counts_of(p: Seq<(i64, u64)>) -> Seq<u64> {
    p.map_values(|q: (i64, u64)| q.1)
}

/// The sorted position taken as the background level: a tenth of the way
/// up when there are more than ten counts, else the least.
pub open spec fn offset_rank(len: nat) -> int {
    if len > 10 {
        len as int / 10
    } else {
        0
    }
}

/// The width seed of a window of points with the given amplitude.
pub open spec fn sigma_of(
    p: Seq<(i64, u64)>,
    amplitude: u64,
    peak: i64,
    low_ppm: i32,
    high_ppm: i32,
) -> SigmaEstimate {
    let h = half_max_centers(p, amplitude);
    if h.len() >= 2 {
        SigmaEstimate::HalfMaxWidth((seq_max(h) - seq_min(h)) as u64)
    } else {
        SigmaEstimate::WindowSpan(((high_ppm - low_ppm) * peak) as i128)
    }
}

/// The seed parameters of one histogram row around `peak`.
pub open spec fn seed_of(
    row: Seq<u64>,
    centers: Seq<i64>,
    peak: i64,
    low_ppm: i32,
    high_ppm: i32,
) -> GaussianSeed {
    let p = fit_points(row, centers, peak, low_ppm, high_ppm, centers.len() as int);
    if peak == 0 || p.len() < MIN_FIT_BINS {
        zero_seed()
    } else {
        let amplitude = max_count(p);
        GaussianSeed {
            amplitude,
            mean: peak,
            sigma: sigma_of(p, amplitude, peak, low_ppm, high_ppm),
            offset: rank_value(counts_of(p), offset_rank(p.len())),
        }
    }
}

/// The seed parameters of each row, in row order, row `i` around `peaks[i]`.
pub open spec fn seeds_of(
    rows: Seq<Seq<u64>>,
    centers: Seq<i64>,
    peaks: Seq<i64>,
    low_ppm: i32,
    high_ppm: i32,
) -> Seq<GaussianSeed> {
    Seq::new(rows.len(), |i: int| seed_of(rows[i], centers, peaks[i], low_ppm, high_ppm))
}

/// Decides whether `center` lies in the fit window around `peak`.
fn in_window(center: i64, peak: i64, low_ppm: i32, high_ppm: i32) -> (r: bool)
    ensures
        r == in_fit_window(center, peak, low_ppm, high_ppm),
{
    let c = center as i128;
    let p = peak as i128;
    proof {
        assert(-0x8000_0000_0000_0000 * 1_000_000 <= c * 1_000_000 <= 0x8000_0000_0000_0000 * 1_000_000)
            by (nonlinear_arith)
            requires
                -0x8000_0000_0000_0000 <= c <= 0x7fff_ffff_ffff_ffff,
        ;
        assert(-0x8000_0000 * 0x8000_0000_0000_0000 <= (low_ppm as i128) * p <= 0x8000_0000
            * 0x8000_0000_0000_0000) by (nonlinear_arith)
            requires
                -0x8000_0000 <= low_ppm <= 0x7fff_ffff,
                -0x8000_0000_0000_0000 <= p <= 0x7fff_ffff_ffff_ffff,
        ;
        assert(-0x8000_0000 * 0x8000_0000_0000_0000 <= (high_ppm as i128) * p <= 0x8000_0000
            * 0x8000_0000_0000_0000) by (nonlinear_arith)
            requires
                -0x8000_0000 <= high_ppm <= 0x7fff_ffff,
                -0x8000_0000_0000_0000 <= p <= 0x7fff_ffff_ffff_ffff,
        ;
    }
    let scaled = c * 1_000_000;
    (low_ppm as i128) * p <= scaled && scaled <= (high_ppm as i128) * p
}

/// Estimates amplitude, mean, sigma and offset of the peak of one histogram
/// row at `peak_position`, from the bins whose centers lie between
/// `fit_fraction_low` and `fit_fraction_high` (parts per million) of it.
/// A zero peak position, or a window of fewer than ten bins, gives the
/// all-zero seed.
pub fn estimate_gaussian_seed(
    row: &Vec<u64>,
    bin_centers: &Vec<i64>,
    peak_position: i64,
    fit_fraction_low: i32,
    fit_fraction_high: i32,
) -> (r: GaussianSeed)
    requires
        row.len() == bin_centers.len(),
    ensures
        r == seed_of(row@, bin_centers@, peak_position, fit_fraction_low, fit_fraction_high),
{
    let zero = GaussianSeed { amplitude: 0, mean: 0, sigma: SigmaEstimate::Zero, offset: 0 };
    if peak_position == 0 {
        return zero;
    }
    let mut points: Vec<(i64, u64)> = Vec::new();
    let mut counts: Vec<u64> = Vec::new();
    let mut i: usize = 0;
    while i < row.len()
        invariant
            row.len() == bin_centers.len(),
            i <= row.len(),
            points@ == fit_points(
                row@,
                bin_centers@,
                peak_position,
                fit_fraction_low,
                fit_fraction_high,
                i as int,
            ),
            counts@ == counts_of(points@),
            points.len() <= i,
        decreases row.len() - i,
    {
        if in_window(bin_centers[i], peak_position, fit_fraction_low, fit_fraction_high) {
            let ghost before = points@;
            points.push((bin_centers[i], row[i]));
            counts.push(row[i]);
            assert(counts_of(points@) =~= counts_of(before).push(row@[i as int]));
        }
        i = i + 1;
    }
    let n = points.len();
    if n < MIN_FIT_BINS {
        return zero;
    }
    let ghost p = points@;
    // Amplitude: the greatest count in the window.

    let mut amplitude: u64 = 0;
    let mut i: usize = 0;
    while i < n
        invariant
            n == points.len(),
            p == points@,
            i <= n,
            amplitude == max_count(p.take(i as int)),
        decreases n - i,
    {
        assert(p.take(i + 1).drop_last() =~= p.take(i as int));
        if points[i].1 > amplitude {
            amplitude = points[i].1;
        }
        i = i + 1;
    }
    assert(p.take(n as int) =~= p);
    // Centers whose count reaches half the amplitude.
    let mut above: Vec<i64> = Vec::new();
    let mut i: usize = 0;
    while i < n
        invariant
            n == points.len(),
            p == points@,
            i <= n,
            above@ == half_max_centers(p.take(i as int), amplitude),
        decreases n - i,
    {
        assert(p.take(i + 1).drop_last() =~= p.take(i as int));
        if (points[i].1 as u128) * 2 >= amplitude as u128 {
            above.push(points[i].0);
        }
        i = i + 1;
    }
    let ghost h = above@;
    let sigma = if above.len() >= 2 {
        let mut top: i64 = above[0];
        let mut bottom: i64 = above[0];
        let mut i: usize = 1;
        while i < above.len()
            invariant
                h == above@,
                2 <= above.len(),
                1 <= i <= above.len(),
                top == seq_max(h.take(i as int)),
                bottom == seq_min(h.take(i as int)),
                bottom <= h[0] <= top,
            decreases above.len() - i,
        {
            assert(h.take(i + 1).drop_last() =~= h.take(i as int));
            if above[i] > top {
                top = above[i];
            }
            if above[i] < bottom {
                bottom = above[i];
            }
            i = i + 1;
        }
        assert(h.take(above.len() as int) =~= h);
        SigmaEstimate::HalfMaxWidth(((top as i128) - (bottom as i128)) as u64)
    } else {
        let d = (fit_fraction_high as i128) - (fit_fraction_low as i128);
        let pk = peak_position as i128;
        proof {
            assert(-0x1_0000_0000 * 0x8000_0000_0000_0000 <= d * pk <= 0x1_0000_0000
                * 0x8000_0000_0000_0000) by (nonlinear_arith)
                requires
                    -0x1_0000_0000 <= d <= 0x1_0000_0000,
                    -0x8000_0000_0000_0000 <= pk <= 0x7fff_ffff_ffff_ffff,
            ;
        }
        SigmaEstimate::WindowSpan(d * pk)
    };
    let k: usize = if n > 10 {
        n / 10
    } else {
        0
    };
    let offset = kth_smallest(&counts, k);
    GaussianSeed { amplitude, mean: peak_position, sigma, offset }
}

/// Estimates the seed parameters of every histogram row, in row order, row
/// `i` around `peak_positions[i]`. There must be one peak position per row
/// and one bin center per entry of each row.
pub fn estimate_gaussian_params(
    histograms: &Vec<Vec<u64>>,
    bin_centers: &Vec<i64>,
    peak_positions: &Vec<i64>,
    fit_fraction_low: i32,
    fit_fraction_high: i32,
) -> (r: Result<Vec<GaussianSeed>, ShapeError>)
    ensures
        match r {
            Ok(s) => {
                &&& histograms.len() == peak_positions.len()
                &&& all_rows_have_len(rows_view(histograms@), bin_centers.len() as int)
                &&& s@ == seeds_of(
                    rows_view(histograms@),
                    bin_centers@,
                    peak_positions@,
                    fit_fraction_low,
                    fit_fraction_high,
                )
            },
            Err(e) => if histograms.len() != peak_positions.len() {
                e == ShapeError::RowCountMismatch
            } else {
                e == ShapeError::RowLengthMismatch && !all_rows_have_len(
                    rows_view(histograms@),
                    bin_centers.len() as int,
                )
            },
        },
{
    if histograms.len() != peak_positions.len() {
        return Err(ShapeError::RowCountMismatch);
    }
    if !rows_have_len(histograms, bin_centers.len()) {
        return Err(ShapeError::RowLengthMismatch);
    }
    let ghost rows = rows_view(histograms@);
    let ghost all = seeds_of(
        rows,
        bin_centers@,
        peak_positions@,
        fit_fraction_low,
        fit_fraction_high,
    );
    let mut out: Vec<GaussianSeed> = Vec::new();
    let mut i: usize = 0;
    while i < histograms.len()
        invariant
            rows == rows_view(histograms@),
            histograms.len() == peak_positions.len(),
            all_rows_have_len(rows, bin_centers.len() as int),
            all == seeds_of(rows, bin_centers@, peak_positions@, fit_fraction_low, fit_fraction_high),
            i <= histograms.len(),
            out@ =~= all.take(i as int),
        decreases histograms.len() - i,
    {
        assert(rows[i as int].len() == bin_centers.len());
        let s = estimate_gaussian_seed(
            &histograms[i],
            bin_centers,
            peak_positions[i],
            fit_fraction_low,
            fit_fraction_high,
        );
        out.push(s);
        i = i + 1;
    }
    assert(out@ =~= all);
    Ok(out)
}


/// A zero peak position gives the all-zero seed, whatever the histogram.
pub proof fn lemma_zero_peak_gives_zero_seed(
    row: Seq<u64>,
    centers: Seq<i64>,
    low_ppm: i32,
    high_ppm: i32,
)
    ensures
        seed_of(row, centers, 0, low_ppm, high_ppm) == zero_seed(),
{
}

/// Reordering the histogram rows together with their peak positions
/// reorders the seeds the same way.
pub proof fn lemma_seeds_follow_rows(
    rows: Seq<Seq<u64>>,
    peaks: Seq<i64>,
    reordered_rows: Seq<Seq<u64>>,
    reordered_peaks: Seq<i64>,
    order: Seq<int>,
    centers: Seq<i64>,
    low_ppm: i32,
    high_ppm: i32,
)
    requires
        peaks.len() == rows.len(),
        reordered_rows.len() == rows.len(),
        reordered_peaks.len() == rows.len(),
        order.len() == rows.len(),
        forall|i: int| 0 <= i < order.len() ==> 0 <= #[trigger] order[i] < rows.len(),
        forall|i: int|
            0 <= i < order.len() ==> #[trigger] reordered_rows[i] == rows[order[i]]
                && reordered_peaks[i] == peaks[order[i]],
    ensures
        forall|i: int|
            0 <= i < order.len() ==> #[trigger] seeds_of(
                reordered_rows,
                centers,
                reordered_peaks,
                low_ppm,
                high_ppm,
            )[i] == seeds_of(rows, centers, peaks, low_ppm, high_ppm)[order[i]],
{
}

} // verus!

use vstd::prelude::*;
use std::collections::HashMap;
use crate::shape::ShapeError;

verus! {

broadcast use vstd::std_specs::hash::group_hash_axioms;

/// The least number of selected readings a channel needs to be histogrammed
/// when the caller sets no other threshold.
pub const DEFAULT_MIN_SAMPLES: usize = 100;

/// The histogram of one channel: a count per bin, and how many readings
/// passed the channel and range filter.
#[derive(Debug, Clone, PartialEq, Eq)]
pub struct ChannelHistogram {
    pub counts: Vec<u64>,
    pub sample_count: usize,
}

/// A reading belongs to `channel` and lies in `[range_min, range_max)`.
pub open spec fn is_selected(value: i64, id: i32, channel: i32, range_min: i64, range_max: i64) -> bool {
    id == channel && range_min <= value && value < range_max
}

/// The bin of a reading: `floor((value - range_min) / bin_width)` with
/// `bin_width = (range_max - range_min) / bins`, computed exactly.
pub open spec fn bin_of(value: i64, range_min: i64, range_max: i64, bins: nat) -> int {
    ((value - range_min) * bins) / (range_max - range_min)
}

/// How many of the first `n` readings are selected for `channel`.
pub open spec fn selected_count(
    values: Seq<i64>,
    ids: Seq<i32>,
    channel: i32,
    range_min: i64,
    range_max: i64,
    n: int,
) -> nat
    decreases n,
{
    if n <= 0 {
        0
    } else {
        selected_count(values, ids, channel, range_min, range_max, n - 1) + if is_selected(
            values[n - 1],
            ids[n - 1],
            channel,
            range_min,
            range_max,
        ) {
            1nat
        } else {
            0nat
        }
    }
}

/// How many of the first `n` readings are selected for `channel` and fall in bin `b`.
pub open spec fn bin_count(
    values: Seq<i64>,
    ids: Seq<i32>,
    channel: i32,
    range_min: i64,
    range_max: i64,
    bins: nat,
    b: int,
    n: int,
) -> nat
    decreases n,
{
    if n <= 0 {
        0
    } else {
        bin_count(values, ids, channel, range_min, range_max, bins, b, n - 1) + if is_selected(
            values[n - 1],
            ids[n - 1],
            channel,
            range_min,
            range_max,
        ) && bin_of(values[n - 1], range_min, range_max, bins) == b {
            1nat
        } else {
            0nat
        }
    }
}

/// The sum of the counts of bins `0 .. upto` over the first `n` readings.
pub open spec fn binned_total(
    values: Seq<i64>,
    ids: Seq<i32>,
    channel: i32,
    range_min: i64,
    range_max: i64,
    bins: nat,
    upto: int,
    n: int,
) -> nat
    decreases upto,
{
    if upto <= 0 {
        0
    } else {
        binned_total(values, ids, channel, range_min, range_max, bins, upto - 1, n) + bin_count(
            values,
            ids,
            channel,
            range_min,
            range_max,
            bins,
            upto - 1,
            n,
        )
    }
}

/// `h` is the histogram of `channel` over the whole stream.
pub open spec fn is_histogram_of(
    h: ChannelHistogram,
    values: Seq<i64>,
    ids: Seq<i32>,
    channel: i32,
    range_min: i64,
    range_max: i64,
    bins: nat,
) -> bool {
    &&& h.counts@.len() == bins
    &&& h.sample_count == selected_count(values, ids, channel, range_min, range_max, values.len() as int)
    &&& forall|b: int|
        0 <= b < bins ==> #[trigger] h.counts@[b] == bin_count(
            values,
            ids,
            channel,
            range_min,
            range_max,
            bins,
            b,
            values.len() as int,
        )
}

/// A selected reading lands in a bin below `bins`.
pub proof fn lemma_bin_in_range(value: i64, range_min: i64, range_max: i64, bins: nat)
    requires
        range_min <= value < range_max,
        bins > 0,
    ensures
        0 <= bin_of(value, range_min, range_max, bins) < bins,
{
    let off = value - range_min;
    let width = range_max - range_min;
    assert(0 <= off * bins) by (nonlinear_arith)
        requires
            0 <= off,
            0 <= bins,
    ;
    assert(off * bins < width * bins) by (nonlinear_arith)
        requires
            0 <= off < width,
            0 < bins,
    ;
    assert((off * bins) / width < bins as int) by (nonlinear_arith)
        requires
            0 <= off * bins < width * bins,
            0 < width,
    ;
    assert(0 <= (off * bins) / width) by (nonlinear_arith)
        requires
            0 <= off * bins,
            0 < width,
    ;
}

/// Adding the `n`-th reading raises the total of bins `0 .. upto` by one
/// exactly when it is selected and lands below `upto`.
proof fn lemma_binned_total_step(
    values: Seq<i64>,
    ids: Seq<i32>,
    channel: i32,
    range_min: i64,
    range_max: i64,
    bins: nat,
    upto: int,
    n: int,
)
    requires
        0 <= n,
        0 <= upto,
    ensures
        binned_total(values, ids, channel, range_min, range_max, bins, upto, n + 1) == binned_total(
            values,
            ids,
            channel,
            range_min,
            range_max,
            bins,
            upto,
            n,
        ) + if is_selected(values[n], ids[n], channel, range_min, range_max) && 0 <= bin_of(
            values[n],
            range_min,
            range_max,
            bins,
        ) < upto {
            1nat
        } else {
            0nat
        },
    decreases upto,
{
    if upto > 0 {
        lemma_binned_total_step(values, ids, channel, range_min, range_max, bins, upto - 1, n);
    }
}

/// Before any reading, every bin is empty.
proof fn lemma_binned_total_empty(
    values: Seq<i64>,
    ids: Seq<i32>,
    channel: i32,
    range_min: i64,
    range_max: i64,
    bins: nat,
    upto: int,
)
    ensures
        binned_total(values, ids, channel, range_min, range_max, bins, upto, 0) == 0,
    decreases upto,
{
    if upto > 0 {
        lemma_binned_total_empty(values, ids, channel, range_min, range_max, bins, upto - 1);
    }
}

/// Binning keeps every selected reading: the counts of a channel sum to its
/// sample count when there is at least one bin, and never exceed it.
pub proof fn lemma_counts_conserved(
    values: Seq<i64>,
    ids: Seq<i32>,
    channel: i32,
    range_min: i64,
    range_max: i64,
    bins: nat,
    n: int,
)
    requires
        0 <= n <= values.len(),
        values.len() == ids.len(),
    ensures
        binned_total(values, ids, channel, range_min, range_max, bins, bins as int, n)
            <= selected_count(values, ids, channel, range_min, range_max, n),
        bins > 0 ==> binned_total(values, ids, channel, range_min, range_max, bins, bins as int, n)
            == selected_count(values, ids, channel, range_min, range_max, n),
    decreases n,
{
    if n == 0 {
        lemma_binned_total_empty(values, ids, channel, range_min, range_max, bins, bins as int);
    } else {
        lemma_counts_conserved(values, ids, channel, range_min, range_max, bins, n - 1);
        lemma_binned_total_step(values, ids, channel, range_min, range_max, bins, bins as int, n - 1);
        if bins > 0 && is_selected(values[n - 1], ids[n - 1], channel, range_min, range_max) {
            lemma_bin_in_range(values[n - 1], range_min, range_max, bins);
        }
    }
}

/// Computes the bin of a selected reading.
fn bin_index(value: i64, range_min: i64, range_max: i64, bins: usize) -> (r: u128)
    requires
        range_min <= value < range_max,
    ensures
        r == bin_of(value, range_min, range_max, bins as nat),
{
    let off = ((value as i128) - (range_min as i128)) as u128;
    let width = ((range_max as i128) - (range_min as i128)) as u128;
    let b = bins as u128;
    assert(off * b <= 0xffff_ffff_ffff_ffff * 0xffff_ffff_ffff_ffff) by (nonlinear_arith)
        requires
            off <= 0xffff_ffff_ffff_ffff,
            b <= 0xffff_ffff_ffff_ffff,
    ;
    off * b / width
}

/// Builds the histogram of one channel: each reading tagged `channel` with a
/// value in `[range_min, range_max)` is counted in `sample_count` and in its
/// bin of `bins` equal bins over that range.
pub fn channel_histogram(
    values: &Vec<i64>,
    channel_ids: &Vec<i32>,
    channel: i32,
    bins: usize,
    range_min: i64,
    range_max: i64,
) -> (r: ChannelHistogram)
    requires
        values.len() == channel_ids.len(),
    ensures
        is_histogram_of(r, values@, channel_ids@, channel, range_min, range_max, bins as nat),
{
    let mut counts: Vec<u64> = Vec::new();
    let mut b: usize = 0;
    while b < bins
        invariant
            b <= bins,
            counts@.len() == b,
            forall|j: int| 0 <= j < b ==> #[trigger] counts@[j] == 0,
        decreases bins - b,
    {
        counts.push(0);
        b = b + 1;
    }
    let mut sample_count: usize = 0;
    let mut i: usize = 0;
    while i < values.len()
        invariant
            values.len() == channel_ids.len(),
            i <= values.len(),
            counts@.len() == bins,
            sample_count == selected_count(values@, channel_ids@, channel, range_min, range_max, i as int),
            sample_count <= i,
            forall|j: int|
                0 <= j < bins ==> #[trigger] counts@[j] == bin_count(
                    values@,
                    channel_ids@,
                    channel,
                    range_min,
                    range_max,
                    bins as nat,
                    j,
                    i as int,
                ),
            forall|j: int| 0 <= j < bins ==> #[trigger] counts@[j] <= i,
        decreases values.len() - i,
    {
        let v = values[i];
        if channel_ids[i] == channel && range_min <= v && v < range_max {
            sample_count = sample_count + 1;
            let idx = bin_index(v, range_min, range_max, bins);
            if idx < bins as u128 {
                let k = idx as usize;
                let c = counts[k];
                counts.set(k, c + 1);
            }
        }
        i = i + 1;
    }
    ChannelHistogram { counts, sample_count }
}

/// Builds the histogram of each requested channel, keeping only channels
/// with at least `min_samples` selected readings; the others are left out
/// of the map. `values[i]` is a reading of channel `channel_ids[i]`.
pub fn build_histograms(
    values: &Vec<i64>,
    channel_ids: &Vec<i32>,
    channels: &Vec<i32>,
    bins: usize,
    range_min: i64,
    range_max: i64,
    min_samples: usize,
) -> (r: Result<HashMap<i32, ChannelHistogram>, ShapeError>)
    ensures
        match r {
            Ok(m) => {
                &&& values.len() == channel_ids.len()
                &&& forall|c: i32|
                    #[trigger] m@.contains_key(c) <==> channels@.contains(c) && selected_count(
                        values@,
                        channel_ids@,
                        c,
                        range_min,
                        range_max,
                        values.len() as int,
                    ) >= min_samples
                &&& forall|c: i32|
                    #[trigger] m@.contains_key(c) ==> is_histogram_of(
                        m@[c],
                        values@,
                        channel_ids@,
                        c,
                        range_min,
                        range_max,
                        bins as nat,
                    )
            },
            Err(e) => e == ShapeError::StreamLengthMismatch && values.len() != channel_ids.len(),
        },
{
    if values.len() != channel_ids.len() {
        return Err(ShapeError::StreamLengthMismatch);
    }
    let ghost n = values.len() as int;
    let mut out: HashMap<i32, ChannelHistogram> = HashMap::new();
    let mut i: usize = 0;
    while i < channels.len()
        invariant
            values.len() == channel_ids.len(),
            n == values.len(),
            i <= channels.len(),
            forall|c: i32|
                #[trigger] out@.contains_key(c) <==> channels@.take(i as int).contains(c)
                    && selected_count(values@, channel_ids@, c, range_min, range_max, n)
                    >= min_samples,
            forall|c: i32|
                #[trigger] out@.contains_key(c) ==> is_histogram_of(
                    out@[c],
                    values@,
                    channel_ids@,
                    c,
                    range_min,
                    range_max,
                    bins as nat,
                ),
        decreases channels.len() - i,
    {
        let c = channels[i];
        let h = channel_histogram(values, channel_ids, c, bins, range_min, range_max);
        assert forall|d: i32| channels@.take(i + 1).contains(d) <==> channels@.take(i as int).contains(d)
            || d == c by {
            if channels@.take(i + 1).contains(d) {
                let w = choose|w: int| 0 <= w < i + 1 && #[trigger] channels@.take(i + 1)[w] == d;
                if w < i {
                    assert(channels@.take(i as int)[w] == d);
                }
            }
            if channels@.take(i as int).contains(d) {
                let w = choose|w: int| 0 <= w < i && #[trigger] channels@.take(i as int)[w] == d;
                assert(channels@.take(i + 1)[w] == d);
            }
            if d == c {
                assert(channels@.take(i + 1)[i as int] == d);
            }
        }
        if h.sample_count >= min_samples {
            out.insert(c, h);
        }
        i = i + 1;
    }
    assert(channels@.take(channels.len() as int) =~= channels@);
    Ok(out)
}


/// The sum of the entries of `s`.
pub open spec fn seq_sum(s: Seq<u64>) -> int
    decreases s.len(),
{
    if s.len() == 0 {
        0
    } else {
        seq_sum(s.drop_last()) + s.last()
    }
}

proof fn lemma_prefix_sum_is_binned_total(
    h: ChannelHistogram,
    values: Seq<i64>,
    ids: Seq<i32>,
    channel: i32,
    range_min: i64,
    range_max: i64,
    bins: nat,
    upto: int,
)
    requires
        is_histogram_of(h, values, ids, channel, range_min, range_max, bins),
        0 <= upto <= bins,
    ensures
        seq_sum(h.counts@.take(upto)) == binned_total(
            values,
            ids,
            channel,
            range_min,
            range_max,
            bins,
            upto,
            values.len() as int,
        ),
    decreases upto,
{
    if upto > 0 {
        lemma_prefix_sum_is_binned_total(h, values, ids, channel, range_min, range_max, bins, upto - 1);
        assert(h.counts@.take(upto).drop_last() =~= h.counts@.take(upto - 1));
        assert(h.counts@[upto - 1] == bin_count(
            values,
            ids,
            channel,
            range_min,
            range_max,
            bins,
            upto - 1,
            values.len() as int,
        ));
    }
}

/// The counts of a channel's histogram never add up to more than its sample
/// count, and add up to exactly it when there is at least one bin.
pub proof fn lemma_histogram_conserves_counts(
    h: ChannelHistogram,
    values: Seq<i64>,
    ids: Seq<i32>,
    channel: i32,
    range_min: i64,
    range_max: i64,
    bins: nat,
)
    requires
        values.len() == ids.len(),
        is_histogram_of(h, values, ids, channel, range_min, range_max, bins),
    ensures
        seq_sum(h.counts@) <= h.sample_count,
        bins > 0 ==> seq_sum(h.counts@) == h.sample_count,
{
    lemma_prefix_sum_is_binned_total(h, values, ids, channel, range_min, range_max, bins, bins as int);
    assert(h.counts@.take(bins as int) =~= h.counts@);
    lemma_counts_conserved(values, ids, channel, range_min, range_max, bins, values.len() as int);
}

} // verus!

//! Batch statistics over per-channel detector readings.
//!
//! Readings, bin centers and search bounds are integer quantities (digitizer
//! ticks); histogram contents are event counts; fractions of a peak position
//! are given in parts per million. With that representation every kernel is
//! exact, and each one is stated against a mathematical model of its result.
pub mod gaussian;
pub mod histogram;
pub mod peaks;
pub mod rank;
pub mod shape;
pub mod weighted;

pub use gaussian::{estimate_gaussian_params, estimate_gaussian_seed, GaussianSeed, SigmaEstimate};
pub use histogram::{build_histograms, channel_histogram, ChannelHistogram, DEFAULT_MIN_SAMPLES};
pub use peaks::{find_peak, find_peaks};
pub use shape::ShapeError;
pub use weighted::{weighted_mean, weighted_mean_rows, WeightedMean};

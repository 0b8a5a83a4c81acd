//! Per-channel pixel statistics and image-size ranges over a dataset of
//! images: file discovery, per-image channel extraction and the two-pass
//! dataset reduction (mean, then population standard deviation).
//!
//! Averages and deviations are fixed-point numbers with `FRACTION_BITS`
//! fractional bits, computed exactly and rounded down, so that a run gives
//! the same result whatever the number of worker threads.
pub mod benchmark;
pub mod config;
pub mod minmax;
pub mod pixels;
pub mod probe;
pub mod scan;
pub mod stats;

pub use minmax::MinMaxValues;
pub use pixels::{describe_rgb8, get_pixels_description, DecodeError, PixelDescription, FIXED_ONE, FRACTION_BITS};
pub use probe::probe_dimensions;
pub use scan::{matches_extension, DirEntryInfo, DirectoryScanner};
pub use stats::{
    get_dataset_description, integer_sqrt, AggregationError, DatasetDescription,
    DatasetPixelDescription,
};

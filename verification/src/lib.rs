//! Time-bucketed interval aggregation and rendering for conversation logs.
//!
//! The crate turns a stream of timestamped events (text messages and voice
//! calls, pre-converted to plain wall-clock values by the caller) into
//! aggregated, time-bucketed statistics rendered as ANSI-coloured terminal
//! bar charts or as an RGBA raster image.

pub mod graph;
pub mod labels;
pub mod num_fmt;
pub mod raster;
pub mod reducer;
pub mod render;
pub mod reports;
pub mod splitter;
pub mod stats;
pub mod time_quantity;

pub use num_fmt::nth;
pub use reducer::{dataset_average, dataset_sum, Reducer};
pub use splitter::split_interval;
pub use time_quantity::TimeQuantity;

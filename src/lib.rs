//! Minute-aligned time windows: flooring and ceiling timestamps to window
//! boundaries, aligned timeframes, and splitting ranges into such frames.

pub mod error;
pub mod frame;
pub mod time;
pub mod window;

pub use error::TimeErr;
pub use frame::{EvenTimeframe, Timeframe, MAX_SPLIT_SECS};
pub use time::{Timestamp, MAX_OFFSET, MAX_SECS, MIN_SECS, NANOS_PER_SEC};
pub use window::{clamp_window, closest_factor_of_60, TimeWindow};

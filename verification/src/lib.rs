//! Numeric core for charting time-series analytics against a benchmark series.
//!
//! A chart shows named series of points, each an instant and a value. The
//! value type, [`data::DataPoint`], is an exact count, a signed 32.32
//! fixed-point measurement, or exact zero. Everything here computes on whole
//! numbers: a value stands for its size times 2^32, and all rounding is
//! stated where it happens.
//!
//! - [`data`]: the value type, its arithmetic, its text forms.
//! - [`order`]: the order of values by size.
//! - [`axis`]: a span of values, its mapping to pixels and its ticks.
//! - [`ticks`]: the choice of a round step between ticks.
//! - [`range`]: the spans of both axes around the points to draw.
//! - [`series`]: rescaling one series against the mean of another.
//! - [`parse`]: reading a file of analytics data.
//! - [`plot`]: what a chart shows, decided before anything is drawn.
//! - [`benches`]: the request for benchmarks and the reading of the answer.
//! - [`time`], [`text`], [`arith`], [`fixed_point`]: instants, texts, exact
//!   division, and fixed-point arithmetic on raw bits.

pub mod arith;
pub mod axis;
pub mod benches;
pub mod data;
pub mod fixed_point;
pub mod order;
pub mod parse;
pub mod plot;
pub mod range;
pub mod series;
pub mod text;
pub mod ticks;
pub mod time;

//! Verified core of a smart-meter data exporter.
//!
//! The library models the entity graph of a metering API (devices,
//! sensors, resources), converts interval readings into measurement
//! records, groups them by timestamp, trims trailing all-zero
//! intervals, and encodes the result in a line-oriented time-series
//! wire format.  All transport (HTTP, authentication hand-shake,
//! JSON decoding) lives outside the library and hands it plain
//! values.

pub mod aggregate;
pub mod api;
pub mod dates;
pub mod encode;
pub mod endpoint;
pub mod error;
pub mod measurement;
pub mod numfmt;
pub mod period;
pub mod strmap;
pub mod strutil;

pub use error::{Error, ErrorKind};
pub use period::ReadingPeriod;

//! A metrics library: counters, gauges and histograms that are kept per attribute set, observers
//! that turn their state into series, and the wire forms those series are exported in.

pub mod atomic;
pub mod attr_map;
pub mod bucket_map;
pub mod collect;
pub mod console;
pub mod convert;
pub mod dto;
pub mod error;
pub mod laws;
pub mod lock;
pub mod metric;
pub mod model;
pub mod number;
pub mod observe;
pub mod order;
pub mod ordering;
pub mod otel;
pub mod prometheus;
pub mod reporting;
pub mod text;
pub mod time;

pub use error::Error;
pub use vstd::prelude::View;

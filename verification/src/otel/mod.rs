//! Metrics for an OTLP collector.

pub mod dto;
pub mod sender;

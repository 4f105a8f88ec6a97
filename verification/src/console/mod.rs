//! Metrics as text for a terminal.

pub mod dto;
pub mod sender;

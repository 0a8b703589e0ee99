//! Streaming block processing for a neural noise-suppression model.
//!
//! Spans of samples of any length are reshaped into fixed-size blocks for a
//! background inference worker; its results come back in order, with a
//! signal when the worker falls behind, and the stream ends with a padded,
//! trimmed final block.

pub mod accumulator;
pub mod config;
pub mod deferred;

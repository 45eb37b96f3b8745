//! Input-event normalization: per-device decoders turn raw kernel input
//! records into debounced, strongly-typed events, and a model of the fan-in
//! multiplexer describes how the per-device streams merge for one consumer.

pub mod events;
pub mod gpio;
pub mod mux;

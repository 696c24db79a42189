//! Incremental delta accumulation and batched reconciliation for keeping a
//! document index in step with a stream of content and engagement events.

pub mod accumulator;
pub mod chunks;
pub mod coalescer;
pub mod pipeline;
pub mod post;
pub mod reference;
pub mod store;
pub mod translate;

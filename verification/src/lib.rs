//! Retry-delay sequences: a growth function maps the number of an attempt to a
//! delay, and a sequence engine pulls those delays one at a time, skipping the
//! opening values that lie below a floor, pinning values to a ceiling and
//! stopping after a configured number of values.

pub mod order;
pub mod growth;
pub mod engine;
pub mod sequence;
pub mod laws;
pub mod calculator;

pub use crate::engine::Bounds;
pub use crate::engine::EngineState;
pub use crate::sequence::BackoffSequence;
pub use crate::sequence::BackoffSequenceIterator;

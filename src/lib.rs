//! Streaming construction of bag-of-features histograms.
//!
//! Feature vectors are read in bounded batches, each vector is mapped to the
//! id of its nearest vocabulary entry by an outside search structure, and the
//! ids are folded into a per-item occurrence histogram.
pub mod args;
pub mod batch;
pub mod counts;
pub mod histogram;
pub mod pipeline;

pub use args::{QuantizeArgs, VocabularyArgs};
pub use histogram::{BowError, Bows};
pub use pipeline::Quantization;

//! Dense matrix multiplication with an explicit, hand-rolled work-partitioning
//! strategy across a bounded pool of worker threads.
//!
//! Matrix entries are IEEE-754 doubles, carried here by their 64-bit patterns
//! so that every contract can speak of them exactly; callers convert with
//! `f64::to_bits` / `f64::from_bits` at the boundary.

mod matrix;
mod multiply;
mod parallel;
mod partition;
mod scalar;

pub use matrix::Matrix;
pub use matrix::MatrixError;
pub use matrix::MatrixView;
pub use multiply::cell_bits;
pub use multiply::dot_prefix;
pub use multiply::multiply;
pub use multiply::spec_multiply;
pub use parallel::lemma_threaded_equals_sequential;
pub use parallel::multi_threaded_multiply;
pub use partition::capped;
pub use partition::chunk_size;
pub use partition::eff_threads;
pub use partition::lemma_partition_chain;
pub use partition::lemma_partition_clamp;
pub use partition::lemma_partition_complete;
pub use partition::partition;
pub use partition::partition_chain;
pub use partition::range_contains;
pub use partition::spec_partition;
pub use scalar::dbl_add_bits;
pub use scalar::dbl_mul_bits;

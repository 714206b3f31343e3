//! Building and scoring a code-search benchmark from human relevance annotations.
//!
//! The library covers the deterministic core of the harness: decoding annotation
//! rows, folding them into a deduplicated dataset, the decisions that keep a
//! repository checkout in sync with its pinned revision, the split of the work
//! among fetch workers, and the coverage score of a search against the
//! annotated ground truth.

pub mod model;
pub mod annotation;
pub mod dataset;
pub mod scoring;
pub mod sync;
pub mod runner;

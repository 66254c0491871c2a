//! Decoding of IDX-encoded digit datasets, the pairing of images with their
//! labels, and the integer rules of the benchmark that is run on them.

pub mod error;
pub mod idx;
pub mod dataloader;
pub mod shape;
pub mod benchmark;

//! The ways in which loading a dataset can fail.

use vstd::prelude::*;

verus! {

/// Why a file, or a pair of files, could not be turned into data.
#[derive(Clone, Copy, Debug, PartialEq, Eq, Structural)]
pub enum LoadError {
    /// The file could not be read at all.
    Io,
    /// The file opens with a magic number other than the one of its kind.
    Format { expected: u32, found: u32 },
    /// The file ends before its magic number, its header or its payload does.
    Truncated,
    /// The images and the labels of one split differ in number.
    DimensionMismatch { images: usize, labels: usize },
}

/// A vector, a label or a list whose size does not fit what it is used with.
#[derive(Clone, Copy, Debug, PartialEq, Eq, Structural)]
pub enum DimensionError {
    /// An input vector has another length than the network has input nodes.
    Input { expected: usize, found: usize },
    /// A target vector has another length than the network has output nodes.
    Target { expected: usize, found: usize },
    /// A label names a class that the network has no output node for.
    Label { label: u8, classes: usize },
    /// Predictions and labels differ in number.
    Pairing { predictions: usize, labels: usize },
}

} // verus!

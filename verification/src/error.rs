//! The error taxonomy: every failure is structured, terminal and local.

use vstd::prelude::*;

verus! {

/// A structured failure of ingestion, construction, lookup or arithmetic.
#[derive(Clone, Debug, PartialEq)]
pub enum TensorError {
    /// The top-level input sequence has no elements.
    EmptyInput,
    /// A sequence below the top level has no elements.
    EmptyNestedSequence,
    /// Sibling elements make a rectangular shape impossible. When two sibling
    /// sub-shapes differ, both are reported; when scalars and sequences are
    /// mixed as siblings, both reported shapes are empty.
    JaggedArray { index: usize, expected: Vec<usize>, found: Vec<usize> },
    /// An element is neither a numeric scalar nor a sequence.
    UnsupportedType { index: usize },
    /// A shape asks for a different element count than the data provides
    /// (the requested shape against the 1-D shape of the data), or the two
    /// operands of an elementwise operation differ in shape.
    ShapeMismatch { expected: Vec<usize>, found: Vec<usize> },
    /// A lookup used the wrong number of indices, or an index at or past its
    /// dimension's extent; the offending indices and the shape are reported.
    IndexOutOfBounds { indices: Vec<usize>, shape: Vec<usize> },
}

} // verus!

//! Error taxonomy for the run driver. Every fatal condition carries enough
//! context to reproduce it (offending token, symbol, node, value).

use vstd::prelude::*;

verus! {

/// Why a shape-size computation failed.
#[derive(Debug, Clone, PartialEq, Eq)]
pub enum ShapeProblem {
    /// A dimension expression resolved to a negative size.
    Negative { value: i64 },
    /// A dimension expression overflowed 64-bit signed arithmetic.
    Arithmetic,
    /// A resolved size or a buffer byte count does not fit the machine.
    TooLarge,
}

/// A fatal error of the run driver. Every variant but the capture skip
/// aborts the current run immediately; no retries are performed, since a
/// partial pulse or turn sequence leaves streaming state unusable.
#[derive(Debug, Clone, PartialEq, Eq)]
pub enum RunError {
    /// A `symbol=value` assignment token was malformed.
    BindingSyntax { token: String },
    /// A shape expression referenced a symbol with no binding.
    UnresolvedSymbol { symbol: char },
    /// A shape expression resolved, but not to a usable size.
    ShapeComputation { problem: ShapeProblem },
    /// The underlying node evaluator failed, or returned a chunk whose
    /// shape does not match the declared output fact.
    Evaluation { context: String },
    /// A non-finite value appeared in a floating output while the sanity
    /// check was enabled; `bits` holds the offending 32-bit pattern.
    SanityViolation { node: String, output_index: usize, position: usize, bits: u32 },
    /// The capture archive could not be created or written.
    CaptureIo { context: String },
}

} // verus!

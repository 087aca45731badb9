use vstd::prelude::*;

verus! {

/// Why a vector could not be decoded.
#[derive(Debug, Clone, Copy, PartialEq, Eq)]
pub enum DecoderError {
    /// The vector has `received` coordinates where `expected` are needed.
    InvalidDimension { expected: usize, received: usize },
    /// A decoded field `value` lies outside `[0, upper_bound]`.
    OutOfBounds { value: usize, upper_bound: usize },
    /// Anything else.
    UnknownError,
}

/// Turns a raw vector into the fitness of the solution it encodes.
///
/// An implementation checks the vector's length and the range of what it
/// decodes, and reports a fault as a `DecoderError`. Decoding reads the
/// decoder only: the same vector always decodes to the same outcome, which
/// `decoded` names.
pub trait Decoder {
    /// The outcome of decoding `solution`. A verified decoder defines it;
    /// for any other it is the outcome that `decode` is trusted to return.
    open spec fn decoded(&self, solution: Seq<i64>) -> Result<i64, DecoderError> {
        arbitrary()
    }

    /// Decodes `solution` and returns its fitness, or the fault found.
    fn decode(&self, solution: &[i64]) -> (r: Result<i64, DecoderError>)
        ensures
            r == self.decoded(solution@),
    ;
}

} // verus!

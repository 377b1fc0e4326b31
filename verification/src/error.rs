use vstd::prelude::*;

verus! {

/// The ways in which the pipeline refuses its input.
#[derive(Clone, Copy, Debug, PartialEq, Eq, Structural)]
pub enum EncodeError {
    /// The number of samples handed over does not match the declared
    /// extent, or the extent cannot be addressed on this machine.
    InvalidShape,
    /// A quantisation table holds a divisor that is not positive.
    InvalidQuantizationTable,
}

} // verus!

use vstd::prelude::*;

verus! {

/// Why an operation refused its arguments.
#[derive(Debug, Clone, Copy, PartialEq, Eq)]
pub enum NetError {
    /// A vector's length disagrees with the width it is used at, or a topology
    /// names fewer than two widths.
    DimensionMismatch,
}

} // verus!

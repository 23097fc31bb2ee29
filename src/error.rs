//! Failures of a proving run. None is retried: each ends the run.
use vstd::prelude::*;

verus! {

#[derive(Clone, Copy, Debug, PartialEq, Eq, Structural)]
pub enum ProveError {
    /// Configuration: `quotient_degree_factor` is not below the number of routed wires.
    DegreeFactorNotBelowRoutedWires,
    /// Configuration: the constraint degree needs a larger extension than the rate provides.
    ConstraintDegreeAboveRate,
    /// Configuration: a parameter is out of the range the protocol supports.
    InvalidParameters,
    /// Algebraic consistency: the grand product does not telescope back to one.
    GrandProductMismatch,
    /// Algebraic consistency: the quotient has non-zero coefficients past its degree bound.
    QuotientNotDivisible,
    /// Degenerate challenge: the opening point lies in the evaluation subgroup.
    OpeningPointInSubgroup,
    /// Protocol order: a round was attempted out of sequence.
    RoundOutOfOrder,
}

} // verus!

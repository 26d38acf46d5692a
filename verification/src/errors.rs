//! Failure taxonomy of the model-building pipeline.

use vstd::prelude::*;

verus! {

/// Input-data inconsistency, found before any variable is registered.
#[derive(Clone, Copy, PartialEq, Eq, Structural, Debug)]
pub enum ValidationError {
    /// A table row refers to a product, period or material key that its
    /// declaring table does not hold.
    MissingKey,
    /// A cost, capacity, demand, rate or stock value is negative.
    NegativeValue,
    /// The period order positions are not a total order: a position is
    /// duplicated, out of range, or missing.
    BrokenPeriodOrder,
    /// Two demand rows name the same (product, period) pair.
    DuplicateDemand,
    /// A per-resource row has the wrong number of columns.
    MalformedTable,
}

/// Misuse of the variable registry; fatal to the current build.
#[derive(Clone, Copy, PartialEq, Eq, Structural, Debug)]
pub enum RegistryError {
    /// A negative lower bound, an upper bound below the lower bound, or an
    /// integrality flag on a variable that is not a production quantity.
    InvalidBounds,
    /// A lookup for a key that was never registered.
    UnknownVariable,
}

/// Failure reported when a candidate assignment is held against the model.
#[derive(Clone, PartialEq, Eq, Debug)]
pub enum SolverFailure {
    /// The assignment violates a bound or a constraint of the model.
    Infeasible,
    /// The objective can be improved without limit; a bound is missing.
    Unbounded,
    /// The engine itself failed; the detail is surfaced verbatim.
    EngineError { detail: String },
}

/// Failure while reading values back out of a solved assignment.
#[derive(Clone, Copy, PartialEq, Eq, Structural, Debug)]
pub enum ReportingError {
    /// The assignment holds no value for a variable the report needs.
    MissingValue,
    /// A derived metric does not fit the machine integer range.
    NumericOverflow,
}

} // verus!

//! Construction and aggregation errors.
//!
//! A malformed parameter set is rejected at construction (or at `average`)
//! with an error naming the offending sub-model, rather than silently
//! substituting defaults.

use vstd::prelude::*;

verus! {

/// Which sub-model of a feature set an error refers to.
#[derive(Clone, Copy, Debug, PartialEq, Eq, Structural)]
pub enum SubModel {
    /// V-segment choice table.
    VGene,
    /// V-deletion table, conditioned on the V segment.
    DelV,
    /// Joint D/J-segment choice table.
    DJoint,
    /// J-deletion table, conditioned on the J segment.
    DelJ,
    /// D-deletion pair table, conditioned on the D segment.
    DelD,
    /// VD-junction insertion model.
    InsVD,
    /// DJ-junction insertion model.
    InsDJ,
    /// Poisson error model.
    ErrorRate,
}

/// Why a parameter set was rejected.
#[derive(Clone, Copy, Debug, PartialEq, Eq, Structural)]
pub enum ModelError {
    /// A table was empty, or its length did not divide into its
    /// conditioning groups, or it was larger than the supported maximum.
    BadShape(SubModel),
    /// A table entry exceeded one probability unit.
    ValueTooLarge(SubModel),
    /// A conditioning slice did not sum to exactly one probability unit.
    BadGroupSum(SubModel),
    /// The inputs to an aggregation had differing shapes.
    ShapeMismatch(SubModel),
    /// An aggregation was asked of an empty collection of feature sets.
    EmptyInput,
    /// An accumulator held more weighted mass than a transform can renormalize.
    AccumulatorOverflow(SubModel),
}

} // verus!

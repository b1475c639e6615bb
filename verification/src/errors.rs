//! The two disjoint failure classes: user-facing diagnostics for
//! untrusted signature text, and internal invariant violations that
//! mark a defect in an earlier compiler phase.

use vstd::prelude::*;

verus! {

/// A user-facing diagnostic for a malformed or unsupported signature
/// string. The variants keep the diagnostics distinct, so a caller
/// can tell a range failure from a malformed name.
#[derive(Debug, PartialEq, Eq, Clone, Copy, Structural)]
pub enum ParseError {
    /// General malformed-signature failure, including a numeric suffix
    /// that is not a number.
    Malformed,
    /// A simple type whose suffix fails its own grammar or range check.
    SimpleType,
    /// Malformed array brackets.
    ArrayType,
    /// A malformed `returns` clause.
    ReturnClause,
    /// A syntactically legal type name the system does not support.
    UnsupportedType,
    /// A name outside the identifier grammar.
    IllegalTypeName,
    /// The reserved `calldata` location.
    CalldataUnsupported,
    /// A data location on a value type, which has no location semantics.
    LocationOnValueType,
}

/// A fatal internal invariant violation: an earlier compiler phase let
/// an unrepresentable source type reach the translator.
#[derive(Debug, PartialEq, Eq, Clone, Copy, Structural)]
pub enum InternalError {
    UnexpectedFieldType,
}

} // verus!

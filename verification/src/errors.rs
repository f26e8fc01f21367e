//! Error taxonomy of the core: one recoverable error, reported per
//! declaration, and a set of fatal internal-invariant violations that signal
//! a broken contract with the upstream scanner.
use vstd::prelude::*;

verus! {

/// Everything that can go wrong while resolving names and types.
///
/// `ComplexTypedefTarget` is the only recoverable condition: the offending
/// declaration is skipped and generation continues. The remaining variants
/// are internal invariant violations: the upstream scanner handed the core a
/// shape it promised never to produce, and the run must stop.
#[derive(Debug, PartialEq, Eq)]
pub enum ConvertError {
    /// A usage depends on a typedef whose target is not a simple alias
    /// (a template, generic, or function-pointer shape); carries the
    /// native-syntax name of the offending typedef.
    ComplexTypedefTarget(String),
    /// A raw identifier consisted entirely of decimal digits.
    AllNumericIdentifier,
    /// A generic-argument list was attached to a non-final path segment.
    GenericArgsOnNonFinalSegment,
    /// A resolved type of a shape the native-source renderer does not accept.
    UnrenderableShape,
}

/// Mathematical image of a [`ConvertError`].
pub ghost enum ErrorV {
    ComplexTypedefTarget(Seq<char>),
    AllNumericIdentifier,
    GenericArgsOnNonFinalSegment,
    UnrenderableShape,
}

impl View for ConvertError {
    type V = ErrorV;

    open spec fn view(&self) -> ErrorV {
        match self {
            ConvertError::ComplexTypedefTarget(s) => ErrorV::ComplexTypedefTarget(s@),
            ConvertError::AllNumericIdentifier => ErrorV::AllNumericIdentifier,
            ConvertError::GenericArgsOnNonFinalSegment => ErrorV::GenericArgsOnNonFinalSegment,
            ConvertError::UnrenderableShape => ErrorV::UnrenderableShape,
        }
    }
}

impl ConvertError {
    /// True for the invariant-violation variants that must abort the run,
    /// false for the one per-declaration recoverable condition.
    pub fn is_fatal(&self) -> (r: bool)
        ensures
            r == !(self is ComplexTypedefTarget),
    {
        match self {
            ConvertError::ComplexTypedefTarget(_) => false,
            _ => true,
        }
    }
}

} // verus!

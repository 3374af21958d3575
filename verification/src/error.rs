//! Structured code-generation errors.
//!
//! Generation is all-or-nothing: every error is fatal, is carried up the call
//! chain as a value, and no partial instruction sequence is returned.

use vstd::prelude::*;

use crate::ast::InputSpan;
use crate::types::Type;

verus! {

/// A language feature that the code generator recognizes but does not
/// support.
#[derive(Clone, Copy, PartialEq, Eq, Structural, Debug)]
pub enum Feature {
    /// Top-level struct declarations.
    StructDeclaration,
    /// A global initializer that is not a numeric literal.
    NonLiteralGlobalInitializer,
    /// An uninitialized global of a non-primitive type.
    NonPrimitiveGlobal,
}

/// A fatal code-generation error.
#[derive(PartialEq, Eq, Debug)]
pub enum CodegenError {
    /// A name was rebound in the same scope to a different entity.
    IdentifierShadowed { name: String, span: InputSpan },
    /// A name was not found anywhere in the scope chain.
    IdentifierNotFound { name: String, span: InputSpan },
    /// A type reference could not be resolved against the type table.
    UnresolvedType { span: InputSpan },
    /// A type check failed: `found` is not compatible with `expected`.
    TypeMismatch { expected: Type, found: Type },
    /// A variable name was used where a function is required.
    ExpectedFunction { name: String },
    /// A function name was used where a variable is required.
    ExpectedVariable { name: String },
    /// A call passes the wrong number of arguments.
    ArityMismatch { expected_args: usize, found_args: usize },
    /// The construct is recognized but not implemented.
    UnsupportedFeature { feature: Feature, span: InputSpan },
    /// `break` was compiled while no loop was active; carries the `break`
    /// statement's source span.
    BreakOutsideLoop { span: InputSpan },
    /// A frame offset or argument area exceeded the 16-bit immediate range of
    /// the target machine.
    OffsetOverflow { span: InputSpan },
    /// The label counter was exhausted.
    TooManyLabels,
    /// An internal consistency invariant was violated.
    InternalError,
}

} // verus!

//! Compile-time and encode-time failure kinds.

use vstd::prelude::*;

verus! {

/// The disallowed construct behind an `UnsupportedSyntax` report.
#[derive(Clone, Copy, Debug, PartialEq, Eq, Structural)]
pub enum SyntaxIssue {
    /// A declaration carries generic parameters, lifetimes or a where-clause.
    Generics,
    /// A field or alias type is not a single bare identifier or a fixed array of one.
    PathType,
    /// A field name occurs twice within one struct.
    DuplicateField,
    /// A variant name occurs twice within one enum.
    DuplicateVariant,
    /// An enum declares no variants, so no tag value could be decoded.
    EmptyEnum,
    /// A composite type too wide for any bit offset to be represented.
    WidthOverflow,
}

/// Everything that can make a compilation or an encode call fail.
#[derive(Clone, Copy, Debug, PartialEq, Eq, Structural)]
pub enum ErrorKind {
    /// A construct outside the supported declaration subset.
    UnsupportedSyntax(SyntaxIssue),
    /// An attribute name other than the recognized quantization kinds.
    UnknownAttribute,
    /// A quantization attribute on an incompatible base scalar kind.
    AttributeKindMismatch,
    /// Wrong parameter count or parameter names for an attribute.
    InvalidAttributeArity,
    /// A parameter literal that does not parse, overflows the target kind,
    /// or yields an interval with no representable level.
    InvalidNumericLiteral,
    /// A second quantization attribute on one declaration.
    DuplicateAttribute,
    /// A type name registered twice.
    DuplicateTypeName,
    /// A reference to a type name not registered yet.
    UndefinedTypeReference,
    /// Cyclic struct containment.
    RecursiveTypeDefinition,
    /// An integer outside its declared bound at encode time.
    ValueOutOfBound,
}

/// An error, carrying the index of the offending declaration in the input
/// sequence (0 for failures not tied to a declaration, such as encode-time
/// bound violations).
#[derive(Clone, Copy, Debug, PartialEq, Eq, Structural)]
pub struct Error {
    pub kind: ErrorKind,
    pub item: usize,
}

impl Error {
    /// An error attached to the declaration at `item`.
    pub fn at(kind: ErrorKind, item: usize) -> (e: Error)
        ensures
            e.kind == kind,
            e.item == item,
    {
        Error { kind, item }
    }
}

} // verus!

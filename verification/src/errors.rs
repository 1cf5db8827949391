use vstd::prelude::*;

verus! {

/// A structured parse failure. Every variant detected while walking the
/// document carries the source position of the offending construct.
#[derive(Debug, PartialEq, Eq)]
pub enum ParseError {
    /// The input text failed to parse as the base structured format at all;
    /// propagated from the document lexer, not further inspected.
    MalformedDocument(String),
    /// A tag was encountered where no directive kind matches; carries the
    /// offending tag name.
    UnexpectedElement(String, u32),
    /// A template label was already registered in its namespace.
    DuplicateLabel(String, u32),
    /// A reference's label is absent from its table at validation time.
    UnresolvedReference(String, u32),
    /// A numeric field's text is empty or fails the expression grammar.
    InvalidNumericField(u32),
    /// The expression pool's fixed capacity was exhausted; a resource error,
    /// not a syntax error.
    ExpressionCapacityExceeded(u32),
}

} // verus!

//! The ways an operation of this library can fail.
use vstd::prelude::*;

verus! {

/// Why a query could not be parsed, a document could not be read, or a
/// value could not be found or written.
#[derive(Clone, Copy, PartialEq, Eq, Debug)]
pub enum TvError {
    /// A path with fewer than two dot-separated segments.
    TooShort,
    /// A `[` with no `]` after it.
    UnclosedBracket,
    /// A filter with neither `==` nor `=` in it.
    InvalidFilter,
    /// A key path with no key in it.
    EmptyPath,
    /// The document text is not a well-formed document.
    DocumentParse,
    /// No block of the requested type and label.
    BlockNotFound,
    /// No attribute of the requested name in the block reached.
    AttributeNotFound,
    /// No key of the requested name in an inline object.
    KeyNotFound,
    /// The rewritten value is not a well-formed expression.
    ExpressionParse,
}

impl TvError {
    /// A short description of the error.
    pub fn message(&self) -> (r: String) {
        match self {
            TvError::TooShort => String::from_str(
                "query must have at least 2 parts: block_type.attribute or block_type.label.attribute",
            ),
            TvError::UnclosedBracket => String::from_str("unclosed bracket in query"),
            TvError::InvalidFilter => String::from_str("invalid filter format"),
            TvError::EmptyPath => String::from_str("empty attribute path"),
            TvError::DocumentParse => String::from_str("failed to parse document"),
            TvError::BlockNotFound => String::from_str("block not found"),
            TvError::AttributeNotFound => String::from_str("attribute not found in block"),
            TvError::KeyNotFound => String::from_str("attribute not found in object"),
            TvError::ExpressionParse => String::from_str("failed to parse expression"),
        }
    }
}

} // verus!

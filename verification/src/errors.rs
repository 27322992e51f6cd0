//! The engine's error taxonomy. Every failure is surfaced to the caller as
//! one of these typed values; none is swallowed inside the engine.

use vstd::prelude::*;
use crate::object::ObjectId;

verus! {

/// A typed engine failure.
#[derive(Clone, Copy, PartialEq, Eq, Structural, Debug)]
pub enum EngineError {
    /// Malformed header, cross-reference or object syntax, or a document
    /// without a usable root catalog.
    Parse,
    /// A reference to an object identifier that the store does not hold;
    /// carries the offending identifier.
    DanglingReference(ObjectId),
    /// The page tree reaches a node that is already on the current path;
    /// carries the repeated node's identifier.
    CyclicPageTree(ObjectId),
    /// An inheritable attribute is present but not usable: a page size that
    /// is not four in-range numbers or has a negative extent, or a rotation
    /// that is not a whole multiple of ninety degrees.
    MalformedAttribute,
    /// An edit names a 1-based page number outside the document; carries
    /// that number.
    UnknownPageNumber(usize),
    /// Merging was asked for with no source documents.
    EmptyInput,
    /// Output could not be produced: the identifier space or an output
    /// offset limit was exhausted.
    Serialization,
}

impl EngineError {
    /// A human-readable cause.
    pub fn message(&self) -> &'static str {
        match self {
            EngineError::Parse => "malformed document: header, object or trailer syntax",
            EngineError::DanglingReference(_) => "reference to a nonexistent object",
            EngineError::CyclicPageTree(_) => "page tree contains a cycle",
            EngineError::MalformedAttribute => "page attribute present but malformed",
            EngineError::UnknownPageNumber(_) => "no page with the requested number",
            EngineError::EmptyInput => "no source documents given",
            EngineError::Serialization => "output limits exhausted",
        }
    }
}

} // verus!

//! A verified PDF document-graph engine: an object store addressed by
//! indirect identifiers, a page-tree walker that resolves inherited page
//! attributes, transforms that reorder, rotate, delete and merge pages,
//! and a serializer and parser for the object/xref/trailer file layout.

pub mod engine;
pub mod errors;
pub mod attrs;
pub mod merge;
pub mod object;
pub mod parse;
pub mod plan;
pub mod serialize;
pub mod store;
pub mod walk;

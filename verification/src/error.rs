//! The error families of the store, split by whose contract failed: the
//! storage layer, the bulk loader and serializer, and query evaluation.

use crate::encoded::StrHash;
use vstd::prelude::*;

verus! {

/// The stored data contradicts itself: a term points at a lexical form that
/// the side table does not hold, or an encoded term stands in a slot its
/// kind cannot fill.
#[derive(Clone, Copy, PartialEq, Eq, Structural, Debug)]
pub enum CorruptionError {
    /// A hash-only term whose lexical form is missing from `id2str`.
    MissingString { hash: StrHash },
    /// An encoded term whose kind is not allowed in its quad slot.
    UnexpectedTermKind,
}

/// An error raised by the storage layer.
#[derive(Clone, Copy, PartialEq, Eq, Structural, Debug)]
pub enum StorageError {
    /// The stored data is inconsistent.
    Corruption(CorruptionError),
    /// A transaction lost the conflict check against a commit that happened
    /// after it began, or the commit counter is exhausted.
    Conflict,
}

/// An error raised while parsing a serialized RDF document.
#[derive(Clone, Copy, PartialEq, Eq, Structural, Debug)]
pub enum ParseError {
    /// Some line is not a well-formed statement of the chosen format.
    Syntax,
}

/// An error raised during bulk ingest: either the document is malformed or
/// the store refused a write.
#[derive(Clone, Copy, PartialEq, Eq, Structural, Debug)]
pub enum LoaderError {
    Parsing(ParseError),
    Storage(StorageError),
}

/// An error raised during bulk emit.
#[derive(Clone, Copy, PartialEq, Eq, Structural, Debug)]
pub enum SerializerError {
    Storage(StorageError),
}

/// An error raised during query evaluation.
#[derive(Clone, Copy, PartialEq, Eq, Structural, Debug)]
pub enum EvaluationError {
    Storage(StorageError),
    /// Graph enumeration must go through the surrounding algebra, never
    /// through a dataset view.
    GraphLookupUnsupported,
}

} // verus!

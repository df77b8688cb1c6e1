//! Serialization formats the bulk loader and serializer speak.

use vstd::prelude::*;

verus! {

/// A format for a graph: triples only.
#[derive(Clone, Copy, PartialEq, Eq, Structural, Debug)]
pub enum GraphFormat {
    NTriples,
}

/// A format for a dataset: quads.
#[derive(Clone, Copy, PartialEq, Eq, Structural, Debug)]
pub enum DatasetFormat {
    NQuads,
}

} // verus!

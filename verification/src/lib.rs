//! An in-memory RDF dataset store with SPARQL-style quad pattern retrieval,
//! transactional mutation with snapshot isolation, and N-Triples / N-Quads
//! bulk ingest and emit.
//!
//! The store keeps every quad in nine sorted indices (three for the default
//! graph, six for named graphs) plus a named-graph registry and a side table
//! from string hashes to lexical forms, mirroring the column-family schema of
//! the on-disk layout it models.

pub mod codec;
pub mod dataset;
pub mod encoded;
pub mod error;
pub mod io;
pub mod keyvec;
pub mod nquads;
pub mod numeric;
pub mod state;
pub mod storage;
pub mod store;
pub mod strmap;
pub mod term;
